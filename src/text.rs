//! Character classes and index scans over lines of text.
use vstd::prelude::*;
use vstd::string::*;

verus! {

/// The characters that Unicode classes as `White_Space`.
pub open spec fn is_space(c: char) -> bool {
    let u = c as u32;
    (0x09 <= u && u <= 0x0D) || u == 0x20 || u == 0x85 || u == 0xA0 || u == 0x1680 || (0x2000
        <= u && u <= 0x200A) || u == 0x2028 || u == 0x2029 || u == 0x202F || u == 0x205F || u
        == 0x3000
}

/// First index at or after `i` that holds no whitespace (or the length).
pub open spec fn skip_space(s: Seq<char>, i: int) -> int
    decreases s.len() - i,
{
    if i >= s.len() {
        i
    } else if is_space(s[i]) {
        skip_space(s, i + 1)
    } else {
        i
    }
}

/// First index at or after `i` that holds whitespace (or the length).
pub open spec fn token_end(s: Seq<char>, i: int) -> int
    decreases s.len() - i,
{
    if i >= s.len() {
        i
    } else if !is_space(s[i]) {
        token_end(s, i + 1)
    } else {
        i
    }
}

/// Length of the prefix of `s[..j]` left once trailing whitespace is cut.
pub open spec fn trim_end(s: Seq<char>, j: int) -> int
    decreases j,
{
    if j <= 0 {
        0
    } else if is_space(s[j - 1]) {
        trim_end(s, j - 1)
    } else {
        j
    }
}

/// `s` without leading and trailing whitespace.
pub open spec fn trim(s: Seq<char>) -> Seq<char> {
    let t = s.subrange(0, trim_end(s, s.len() as int));
    t.subrange(skip_space(t, 0), t.len() as int)
}

/// No whitespace at either end.
pub open spec fn is_trimmed(s: Seq<char>) -> bool {
    s.len() == 0 || (!is_space(s[0]) && !is_space(s.last()))
}

/// No whitespace anywhere.
pub open spec fn is_word(s: Seq<char>) -> bool {
    forall|i: int| 0 <= i < s.len() ==> !is_space(#[trigger] s[i])
}

pub proof fn lemma_token_end_run(s: Seq<char>, i: int, j: int)
    requires
        0 <= i <= j <= s.len(),
        forall|m: int| i <= m < j ==> !is_space(#[trigger] s[m]),
        j == s.len() || is_space(s[j]),
    ensures
        token_end(s, i) == j,
    decreases j - i,
{
    if i < j {
        lemma_token_end_run(s, i + 1, j);
    }
}

pub proof fn lemma_trim_end_bounds(s: Seq<char>, j: int)
    requires
        0 <= j,
    ensures
        0 <= trim_end(s, j) <= j,
    decreases j,
{
    if j > 0 {
        lemma_trim_end_bounds(s, j - 1);
    }
}

pub proof fn lemma_skip_space_bounds(s: Seq<char>, i: int)
    requires
        0 <= i <= s.len(),
    ensures
        i <= skip_space(s, i) <= s.len(),
        skip_space(s, i) < s.len() ==> !is_space(s[skip_space(s, i)]),
    decreases s.len() - i,
{
    if i < s.len() {
        lemma_skip_space_bounds(s, i + 1);
    }
}

pub proof fn lemma_token_end_bounds(s: Seq<char>, i: int)
    requires
        0 <= i <= s.len(),
    ensures
        i <= token_end(s, i) <= s.len(),
        i < s.len() && !is_space(s[i]) ==> i < token_end(s, i),
    decreases s.len() - i,
{
    if i < s.len() {
        lemma_token_end_bounds(s, i + 1);
    }
}

/// The words of `s[i..]`: the maximal runs of characters without whitespace.
pub open spec fn words_from(s: Seq<char>, i: int) -> Seq<Seq<char>>
    decreases s.len() - i,
{
    let b = skip_space(s, i);
    let e = token_end(s, b);
    if b >= s.len() || e <= i || e > s.len() {
        seq![]
    } else {
        seq![s.subrange(b, e)] + words_from(s, e)
    }
}

/// The words of `s`, in order.
pub open spec fn words(s: Seq<char>) -> Seq<Seq<char>> {
    words_from(s, 0)
}

/// The words of `ws` joined with one space between each two.
pub open spec fn join_spaced(ws: Seq<Seq<char>>) -> Seq<char>
    decreases ws.len(),
{
    if ws.len() == 0 {
        seq![]
    } else if ws.len() == 1 {
        ws[0]
    } else {
        join_spaced(ws.drop_last()) + seq![' '] + ws.last()
    }
}

/// A word `w` that starts at `i` and ends at whitespace or at the end of `s`
/// is the first of the words of `s[i..]`.
pub proof fn lemma_words_from_word(s: Seq<char>, i: int, w: Seq<char>)
    requires
        0 <= i,
        w.len() > 0,
        is_word(w),
        i + w.len() <= s.len(),
        s.subrange(i, i + w.len()) == w,
        i + w.len() == s.len() || is_space(s[i + w.len()]),
    ensures
        words_from(s, i) == seq![w] + words_from(s, i + w.len()),
{
    assert(s[i] == w[0]);
    let e = i + w.len();
    assert forall|m: int| i <= m < e implies !is_space(#[trigger] s[m]) by {
        assert(s[m] == w[m - i]);
    }
    lemma_token_end_run(s, i, e);
}

/// One space before a word adds no word.
pub proof fn lemma_words_from_space(s: Seq<char>, i: int)
    requires
        0 <= i,
        i + 1 < s.len(),
        is_space(s[i]),
        !is_space(s[i + 1]),
    ensures
        words_from(s, i) == words_from(s, i + 1),
{
    assert(skip_space(s, i + 1) == i + 1);
    lemma_token_end_bounds(s, i + 1);
}

/// The words of text that `ws` joined with single spaces are `ws` again.
pub proof fn lemma_words_of_spaced(s: Seq<char>, i: int, ws: Seq<Seq<char>>)
    requires
        0 <= i,
        ws.len() > 0,
        forall|k: int| 0 <= k < ws.len() ==> (#[trigger] ws[k]).len() > 0 && is_word(ws[k]),
        i + join_spaced(ws).len() <= s.len(),
        s.subrange(i, i + join_spaced(ws).len()) == join_spaced(ws),
        i + join_spaced(ws).len() == s.len() || is_space(s[i + join_spaced(ws).len()]),
    ensures
        words_from(s, i) == ws + words_from(s, i + join_spaced(ws).len()),
    decreases ws.len(),
{
    let j = join_spaced(ws);
    if ws.len() == 1 {
        lemma_words_from_word(s, i, ws[0]);
        assert(seq![ws[0]] =~= ws);
    } else {
        let p = ws.drop_last();
        let w = ws.last();
        let jp = join_spaced(p);
        assert(j == jp + seq![' '] + w);
        let a = i + jp.len();
        assert(s.subrange(i, a) =~= jp) by {
            assert forall|k: int| 0 <= k < jp.len() implies s.subrange(i, a)[k] == jp[k] by {
                assert(s.subrange(i, i + j.len())[k] == j[k]);
            }
        }
        assert(s[a] == ' ') by {
            assert(s.subrange(i, i + j.len())[jp.len() as int] == j[jp.len() as int]);
        }
        assert(is_space(' '));
        assert(forall|k: int| 0 <= k < p.len() ==> #[trigger] p[k] == ws[k]);
        lemma_words_of_spaced(s, i, p);
        assert(s.subrange(a + 1, i + j.len()) =~= w) by {
            assert forall|k: int| 0 <= k < w.len() implies s.subrange(a + 1, i + j.len())[k]
                == w[k] by {
                assert(s.subrange(i, i + j.len())[jp.len() + 1 + k] == j[jp.len() + 1 + k]);
            }
        }
        assert(ws[ws.len() - 1] == w);
        assert(s[a + 1] == w[0]) by {
            assert(s.subrange(a + 1, i + j.len())[0] == w[0]);
        }
        lemma_words_from_space(s, a);
        lemma_words_from_word(s, a + 1, w);
        assert(p + (seq![w] + words_from(s, i + j.len())) =~= ws + words_from(s, i + j.len()));
    }
}

/// Non-empty words joined with single spaces start with the first word's
/// first character.
pub proof fn lemma_join_spaced_start(ws: Seq<Seq<char>>)
    requires
        ws.len() > 0,
        forall|k: int| 0 <= k < ws.len() ==> (#[trigger] ws[k]).len() > 0,
    ensures
        join_spaced(ws).len() > 0,
        join_spaced(ws)[0] == ws[0][0],
    decreases ws.len(),
{
    if ws.len() > 1 {
        let p = ws.drop_last();
        assert(forall|k: int| 0 <= k < p.len() ==> #[trigger] p[k] == ws[k]);
        lemma_join_spaced_start(p);
    }
}

/// Whether `c` is whitespace.
pub fn space(c: char) -> (r: bool)
    ensures
        r == is_space(c),
{
    let u = c as u32;
    (0x09 <= u && u <= 0x0D) || u == 0x20 || u == 0x85 || u == 0xA0 || u == 0x1680 || (0x2000
        <= u && u <= 0x200A) || u == 0x2028 || u == 0x2029 || u == 0x202F || u == 0x205F || u
        == 0x3000
}

/// The characters of `s`, in order.
pub fn chars_of(s: &str) -> (v: Vec<char>)
    ensures
        v@ == s@,
{
    let n = s.unicode_len();
    let mut v: Vec<char> = Vec::new();
    let mut i: usize = 0;
    while i < n
        invariant
            n == s@.len(),
            i <= n,
            v@ == s@.subrange(0, i as int),
        decreases n - i,
    {
        v.push(s.get_char(i));
        i += 1;
    }
    v
}

/// Skips the whitespace of `v[i..end]`.
pub fn skip_spaces(v: &Vec<char>, i: usize, end: usize) -> (r: usize)
    requires
        i <= end <= v@.len(),
    ensures
        r == skip_space(v@.subrange(0, end as int), i as int),
        i <= r <= end,
{
    let ghost t = v@.subrange(0, end as int);
    let mut j = i;
    while j < end && space(v[j])
        invariant
            i <= j <= end <= v@.len(),
            t == v@.subrange(0, end as int),
            skip_space(t, j as int) == skip_space(t, i as int),
        decreases end - j,
    {
        j += 1;
    }
    j
}

/// Skips the non-whitespace of `v[i..end]`.
pub fn token_end_at(v: &Vec<char>, i: usize, end: usize) -> (r: usize)
    requires
        i <= end <= v@.len(),
    ensures
        r == token_end(v@.subrange(0, end as int), i as int),
        i <= r <= end,
{
    let ghost t = v@.subrange(0, end as int);
    let mut j = i;
    while j < end && !space(v[j])
        invariant
            i <= j <= end <= v@.len(),
            t == v@.subrange(0, end as int),
            token_end(t, j as int) == token_end(t, i as int),
        decreases end - j,
    {
        j += 1;
    }
    j
}

/// Where the trailing whitespace of `v` begins.
pub fn trim_end_at(v: &Vec<char>) -> (r: usize)
    ensures
        r == trim_end(v@, v@.len() as int),
        r <= v@.len(),
{
    let mut j = v.len();
    while j > 0 && space(v[j - 1])
        invariant
            j <= v@.len(),
            trim_end(v@, j as int) == trim_end(v@, v@.len() as int),
        decreases j,
    {
        j -= 1;
    }
    j
}

/// Whether `v[a..b]` holds exactly the characters of `w`.
pub fn span_eq(v: &Vec<char>, a: usize, b: usize, w: &str) -> (r: bool)
    requires
        a <= b <= v@.len(),
    ensures
        r == (v@.subrange(a as int, b as int) == w@),
{
    let n = w.unicode_len();
    if b - a != n {
        return false;
    }
    let mut i: usize = 0;
    while i < n
        invariant
            n == w@.len(),
            b - a == n,
            a <= b <= v@.len(),
            i <= n,
            forall|k: int| 0 <= k < i ==> v@[a + k] == w@[k],
        decreases n - i,
    {
        if v[a + i] != w.get_char(i) {
            assert(v@.subrange(a as int, b as int)[i as int] != w@[i as int]);
            return false;
        }
        i += 1;
    }
    assert(v@.subrange(a as int, b as int) =~= w@);
    true
}

/// A fresh string holding `v[a..b]`.
pub fn string_of(s: &str, a: usize, b: usize) -> (r: String)
    requires
        a <= b <= s@.len(),
    ensures
        r@ == s@.subrange(a as int, b as int),
{
    String::from_str(s.substring_char(a, b))
}

} // verus!

verus! {

/// Whether `a` holds exactly the characters of `b`.
pub fn same_text(a: &String, b: &str) -> (r: bool)
    ensures
        r == (a@ == b@),
{
    let v = chars_of(a.as_str());
    assert(v@.subrange(0, v@.len() as int) =~= v@);
    span_eq(&v, 0, v.len(), b)
}

/// Splits a line into its words.
pub fn split_words(line: &str) -> (r: Vec<String>)
    ensures
        r@.len() == words(line@).len(),
        forall|j: int| 0 <= j < r@.len() ==> #[trigger] r@[j]@ == words(line@)[j],
{
    let v = chars_of(line);
    let n = v.len();
    let ghost s = line@;
    assert(v@.subrange(0, n as int) =~= s);
    let mut out: Vec<String> = Vec::new();
    let ghost mut done: Seq<Seq<char>> = seq![];
    let mut i: usize = 0;
    while i < n
        invariant
            i <= n,
            n == s.len(),
            n == line@.len(),
            s == line@,
            v@ == s,
            v@.subrange(0, n as int) == s,
            done + words_from(s, i as int) == words(s),
            out@.len() == done.len(),
            forall|j: int| 0 <= j < out@.len() ==> #[trigger] out@[j]@ == done[j],
        decreases n - i,
    {
        let b = skip_spaces(&v, i, n);
        if b >= n {
            assert(words_from(s, i as int) =~= seq![]);
            assert(words_from(s, n as int) =~= seq![]);
            i = n;
        } else {
            let e = token_end_at(&v, b, n);
            proof {
                lemma_skip_space_bounds(s, i as int);
                lemma_token_end_bounds(s, b as int);
            }
            let w = string_of(line, b, e);
            proof {
                let rest = words_from(s, e as int);
                assert(w@ == s.subrange(b as int, e as int));
                assert(words_from(s, i as int) == seq![s.subrange(b as int, e as int)] + rest);
                assert(done.push(w@) + rest =~= done + (seq![w@] + rest));
                done = done.push(w@);
            }
            out.push(w);
            i = e;
        }
    }
    assert(words_from(s, n as int) =~= seq![]);
    assert(done + words_from(s, n as int) =~= done);
    out
}

/// `ws[from..]` joined with single spaces; `from` must leave one word.
pub fn join_words(ws: &Vec<String>, from: usize) -> (r: String)
    requires
        from < ws@.len(),
    ensures
        r@ == join_spaced(ws@.subrange(from as int, ws@.len() as int).map_values(|w: String| w@)),
{
    let ghost m = ws@.map_values(|w: String| w@);
    let mut r = ws[from].clone();
    let n = ws.len();
    let mut k: usize = from + 1;
    assert(m.subrange(from as int, k as int) =~= seq![ws@[from as int]@]);
    while k < ws.len()
        invariant
            from < k <= ws@.len(),
            m == ws@.map_values(|w: String| w@),
            r@ == join_spaced(m.subrange(from as int, k as int)),
        decreases ws@.len() - k,
    {
        proof {
            reveal_strlit(" ");
            assert(m.subrange(from as int, k + 1).drop_last() =~= m.subrange(from as int, k as int));
            assert(" "@ =~= seq![' ']);
        }
        r = r.concat(" ").concat(ws[k].as_str());
        k += 1;
    }
    assert(m.subrange(from as int, ws@.len() as int) =~= ws@.subrange(from as int, ws@.len() as int).map_values(|w: String| w@));
    r
}

} // verus!
