//! Connection settings, and how the answers to the first-run prompts
//! become settings.
use vstd::prelude::*;
use vstd::string::*;
use crate::text::{
    trim, trim_end, skip_space, lemma_trim_end_bounds, chars_of, trim_end_at, skip_spaces,
    string_of, same_text,
};

verus! {

/// The port used when none, or no valid one, is given.
pub const DEFAULT_PORT: u16 = 6667;

/// What a session needs to know to connect and identify.
#[derive(Clone, Debug, PartialEq, Eq)]
pub struct AppConfig {
    pub nickname: String,
    pub username: Option<String>,
    pub realname: Option<String>,
    pub server: String,
    pub port: Option<u16>,
    pub use_tls: Option<bool>,
    pub channels: Vec<String>,
}

/// `s` with whitespace cut from both ends.
pub fn trim_text(s: &str) -> (r: String)
    ensures
        r@ == trim(s@),
{
    let v = chars_of(s);
    let hi = trim_end_at(&v);
    let lo = skip_spaces(&v, 0, hi);
    proof {
        lemma_trim_end_bounds(s@, s@.len() as int);
        assert(v@.subrange(0, hi as int).subrange(lo as int, hi as int) =~= s@.subrange(
            lo as int,
            hi as int,
        ));
    }
    string_of(s, lo, hi)
}

pub open spec fn is_digit(c: char) -> bool {
    '0' <= c && c <= '9'
}

pub open spec fn digit_value(c: char) -> int {
    (c as u32) as int - ('0' as u32) as int
}

/// The number that a string of decimal digits writes.
pub open spec fn decimal(s: Seq<char>) -> int
    decreases s.len(),
{
    if s.len() == 0 {
        0
    } else {
        decimal(s.drop_last()) * 10 + digit_value(s.last())
    }
}

/// The digits of a port number: all after an optional leading `+`.
pub open spec fn port_digits(s: Seq<char>) -> Seq<char> {
    if s.len() > 0 && s[0] == '+' {
        s.drop_first()
    } else {
        s
    }
}

/// A port number: one or more decimal digits, after an optional `+`, that
/// write a number below 65536.
pub open spec fn port_spec(s: Seq<char>) -> Option<u16> {
    let d = port_digits(s);
    if d.len() > 0 && (forall|i: int| 0 <= i < d.len() ==> is_digit(#[trigger] d[i])) && decimal(
        d,
    ) <= 65535 {
        Some(decimal(d) as u16)
    } else {
        None
    }
}

proof fn lemma_decimal_nonneg(s: Seq<char>)
    requires
        forall|i: int| 0 <= i < s.len() ==> is_digit(#[trigger] s[i]),
    ensures
        decimal(s) >= 0,
    decreases s.len(),
{
    if s.len() > 0 {
        lemma_decimal_nonneg(s.drop_last());
    }
}

/// Reads a port number as `port_spec` says.
pub fn parse_port(s: &str) -> (r: Option<u16>)
    ensures
        r == port_spec(s@),
{
    let v = chars_of(s);
    let n = v.len();
    let mut i: usize = 0;
    if n > 0 && v[0] == '+' {
        i = 1;
    }
    let start = i;
    let ghost d = s@.subrange(start as int, n as int);
    assert(d =~= port_digits(s@));
    if start == n {
        return None;
    }
    let mut acc: u32 = 0;
    while i < n
        invariant
            start <= i <= n,
            n == v@.len(),
            v@ == s@,
            d == s@.subrange(start as int, n as int),
            d == port_digits(s@),
            forall|k: int| start <= k < i ==> is_digit(#[trigger] v@[k]),
            acc as int == if decimal(v@.subrange(start as int, i as int)) < 65536 {
                decimal(v@.subrange(start as int, i as int))
            } else {
                65536
            },
        decreases n - i,
    {
        let c = v[i];
        if !('0' <= c && c <= '9') {
            assert(!is_digit(d[i - start]));
            return None;
        }
        let dv = (c as u32) - ('0' as u32);
        let ghost p = v@.subrange(start as int, i as int);
        let ghost q = v@.subrange(start as int, i + 1);
        assert(q.drop_last() =~= p);
        proof {
            lemma_decimal_nonneg(p);
        }
        if acc >= 65536 {
            assert(decimal(q) >= 65536) by (nonlinear_arith)
                requires
                    decimal(q) == decimal(p) * 10 + dv,
                    decimal(p) >= 65536,
                    dv >= 0,
            ;
            acc = 65536;
        } else {
            let x = acc * 10 + dv;
            acc = if x < 65536 {
                x
            } else {
                65536
            };
        }
        i += 1;
    }
    assert(v@.subrange(start as int, n as int) =~= d);
    if acc < 65536 {
        Some(acc as u16)
    } else {
        None
    }
}

/// The first index at or after `i` that holds a comma (or the length).
pub open spec fn next_comma(s: Seq<char>, i: int) -> int
    decreases s.len() - i,
{
    if i >= s.len() {
        i
    } else if s[i] == ',' {
        i
    } else {
        next_comma(s, i + 1)
    }
}

/// The comma-separated fields of `s[i..]`, trimmed, empty ones left out.
pub open spec fn channel_list_from(s: Seq<char>, i: int) -> Seq<Seq<char>>
    decreases s.len() + 1 - i,
{
    if i > s.len() || i < 0 {
        seq![]
    } else {
        let e = next_comma(s, i);
        let f = trim(s.subrange(i, e));
        let head = if f.len() > 0 {
            seq![f]
        } else {
            seq![]
        };
        if e >= s.len() || e < i {
            head
        } else {
            head + channel_list_from(s, e + 1)
        }
    }
}

/// The channels a comma-separated answer names.
pub open spec fn channel_list(s: Seq<char>) -> Seq<Seq<char>> {
    channel_list_from(s, 0)
}

/// Where the field that starts at `i` ends.
fn next_comma_at(v: &Vec<char>, i: usize) -> (r: usize)
    requires
        i <= v@.len(),
    ensures
        r == next_comma(v@, i as int),
        i <= r <= v@.len(),
{
    let mut j = i;
    while j < v.len() && v[j] != ','
        invariant
            i <= j <= v@.len(),
            next_comma(v@, j as int) == next_comma(v@, i as int),
        decreases v@.len() - j,
    {
        j += 1;
    }
    j
}

/// Splits a comma-separated list of channels, trimming each and leaving
/// out empty ones.
pub fn parse_channel_list(s: &str) -> (r: Vec<String>)
    ensures
        r@.len() == channel_list(s@).len(),
        forall|j: int| 0 <= j < r@.len() ==> #[trigger] r@[j]@ == channel_list(s@)[j],
{
    let v = chars_of(s);
    let n = v.len();
    let mut out: Vec<String> = Vec::new();
    let ghost mut done: Seq<Seq<char>> = seq![];
    let mut i: usize = 0;
    let mut more = true;
    while more
        invariant
            i <= n,
            n == v@.len(),
            v@ == s@,
            more ==> done + channel_list_from(s@, i as int) == channel_list(s@),
            !more ==> done == channel_list(s@),
            out@.len() == done.len(),
            forall|j: int| 0 <= j < out@.len() ==> #[trigger] out@[j]@ == done[j],
        decreases (if more {
            n + 1 - i
        } else {
            0
        }),
    {
        let e = next_comma_at(&v, i);
        let f = trim_text(s.substring_char(i, e));
        let ghost head = if f@.len() > 0 {
            seq![f@]
        } else {
            seq![]
        };
        proof {
            assert(channel_list_from(s@, i as int) == if e >= n {
                head
            } else {
                head + channel_list_from(s@, e + 1)
            });
        }
        if !f.as_str().is_empty() {
            out.push(f);
        }
        proof {
            assert(done + head + channel_list_from(s@, e + 1) =~= done + (head
                + channel_list_from(s@, e + 1)));
            assert(done + head =~= if head.len() > 0 {
                done.push(head[0])
            } else {
                done
            });
            done = done + head;
        }
        if e >= n {
            more = false;
        } else {
            i = e + 1;
        }
    }
    out
}

/// Settings from the answers to the first-run prompts: nickname and server
/// trimmed, the port as `port_spec` reads the trimmed answer (the default
/// port when it reads none), TLS when the trimmed answer is `y` or `Y`,
/// and the channels of the comma-separated list.
pub fn config_from_answers(
    nickname: &str,
    server: &str,
    port: &str,
    use_tls: &str,
    channels: &str,
) -> (r: AppConfig)
    ensures
        r.nickname@ == trim(nickname@),
        r.server@ == trim(server@),
        r.username is None,
        r.realname is None,
        r.port == Some(
            match port_spec(trim(port@)) {
                Some(p) => p,
                None => DEFAULT_PORT,
            },
        ),
        r.use_tls == Some(trim(use_tls@) == "y"@ || trim(use_tls@) == "Y"@),
        r.channels@.len() == channel_list(channels@).len(),
        forall|j: int|
            0 <= j < r.channels@.len() ==> #[trigger] r.channels@[j]@ == channel_list(channels@)[j],
{
    let p = trim_text(port);
    let port_number = match parse_port(p.as_str()) {
        Some(x) => x,
        None => DEFAULT_PORT,
    };
    let t = trim_text(use_tls);
    let tls = same_text(&t, "y") || same_text(&t, "Y");
    AppConfig {
        nickname: trim_text(nickname),
        username: None,
        realname: None,
        server: trim_text(server),
        port: Some(port_number),
        use_tls: Some(tls),
        channels: parse_channel_list(channels),
    }
}

} // verus!
