//! The wire codec: one text line to a typed protocol message and back.
use vstd::prelude::*;
use vstd::string::*;
use crate::text::{
    is_space, lemma_token_end_run, lemma_trim_end_bounds, skip_space, token_end, trim_end, trim, is_trimmed, is_word, chars_of, skip_spaces,
    token_end_at, trim_end_at, span_eq, string_of,
};

verus! {

/// A protocol line, typed by its command.
#[derive(Clone, Debug, PartialEq, Eq)]
pub enum ProtocolMessage {
    /// Any line the codec does not model, kept verbatim.
    Raw(String),
    Nick(String),
    User(String),
    Join(String),
    /// A server liveness probe and its token.
    Ping(String),
    Pong(String),
    /// A message to a target (a channel or a nick) with its body.
    Privmsg(String, String),
}

/// The mathematical value of a `ProtocolMessage`.
pub enum MessageModel {
    Raw(Seq<char>),
    Nick(Seq<char>),
    User(Seq<char>),
    Join(Seq<char>),
    Ping(Seq<char>),
    Pong(Seq<char>),
    Privmsg(Seq<char>, Seq<char>),
}

impl View for ProtocolMessage {
    type V = MessageModel;

    open spec fn view(&self) -> MessageModel {
        match self {
            ProtocolMessage::Raw(x) => MessageModel::Raw(x@),
            ProtocolMessage::Nick(x) => MessageModel::Nick(x@),
            ProtocolMessage::User(x) => MessageModel::User(x@),
            ProtocolMessage::Join(x) => MessageModel::Join(x@),
            ProtocolMessage::Ping(x) => MessageModel::Ping(x@),
            ProtocolMessage::Pong(x) => MessageModel::Pong(x@),
            ProtocolMessage::Privmsg(t, x) => MessageModel::Privmsg(t@, x@),
        }
    }
}

impl MessageModel {
    /// The messages whose wire form reads back as themselves: payloads
    /// carry no whitespace at their ends, a user name or a target is a
    /// single non-empty word, and a message body ends in no whitespace.
    pub open spec fn well_formed(self) -> bool {
        match self {
            MessageModel::Raw(_) => true,
            MessageModel::Nick(x) => is_trimmed(x),
            MessageModel::User(x) => x.len() > 0 && is_word(x),
            MessageModel::Join(x) => is_trimmed(x),
            MessageModel::Ping(x) => is_trimmed(x),
            MessageModel::Pong(x) => is_trimmed(x),
            MessageModel::Privmsg(t, x) => t.len() > 0 && is_word(t) && (x.len() == 0
                || !is_space(x.last())),
        }
    }
}

/// The command keyword that leads the trimmed line.
pub open spec fn leading_token(line: Seq<char>) -> Seq<char> {
    let t = line.subrange(0, trim_end(line, line.len() as int));
    let lo = skip_space(t, 0);
    t.subrange(lo, token_end(t, lo))
}

/// The keywords that the codec models.
pub open spec fn is_keyword(w: Seq<char>) -> bool {
    w == "NICK"@ || w == "USER"@ || w == "JOIN"@ || w == "PING"@ || w == "PONG"@ || w
        == "PRIVMSG"@
}

/// What a line means: the leading keyword picks the variant and the rest,
/// past the whitespace after the keyword, is its payload; a line with any
/// other leading word is kept, trimmed, as `Raw`.
pub open spec fn parse_spec(line: Seq<char>) -> MessageModel {
    let hi = trim_end(line, line.len() as int);
    let t = line.subrange(0, hi);
    let lo = skip_space(t, 0);
    let k = token_end(t, lo);
    let kw = t.subrange(lo, k);
    let r0 = skip_space(t, k);
    let rest = t.subrange(r0, hi);
    if kw == "NICK"@ {
        MessageModel::Nick(rest)
    } else if kw == "USER"@ {
        MessageModel::User(t.subrange(r0, token_end(t, r0)))
    } else if kw == "JOIN"@ {
        MessageModel::Join(rest)
    } else if kw == "PING"@ {
        MessageModel::Ping(rest)
    } else if kw == "PONG"@ {
        MessageModel::Pong(rest)
    } else if kw == "PRIVMSG"@ {
        let te = token_end(t, r0);
        let p = skip_space(t, te);
        MessageModel::Privmsg(
            t.subrange(r0, te),
            if p < hi && t[p] == ':' {
                t.subrange(p + 1, hi)
            } else {
                t.subrange(p, hi)
            },
        )
    } else {
        MessageModel::Raw(t.subrange(lo, hi))
    }
}

/// The wire form of a message, without the line terminator.
pub open spec fn format_spec(m: MessageModel) -> Seq<char> {
    match m {
        MessageModel::Raw(x) => x,
        MessageModel::Nick(x) => "NICK "@ + x,
        MessageModel::User(x) => "USER "@ + x + " 0 * :"@ + x,
        MessageModel::Join(x) => "JOIN "@ + x,
        MessageModel::Ping(x) => "PING "@ + x,
        MessageModel::Pong(x) => "PONG "@ + x,
        MessageModel::Privmsg(t, x) => "PRIVMSG "@ + t + " :"@ + x,
    }
}

/// How a line `kw + " " + p` splits, for a one-word keyword `kw` of length
/// `n` and a payload `p` without whitespace at its ends.
proof fn lemma_keyword_line(s: Seq<char>, n: int)
    requires
        0 < n < s.len(),
        forall|m: int| 0 <= m < n ==> !is_space(#[trigger] s[m]),
        s[n] == ' ',
        is_trimmed(s.subrange(n + 1, s.len() as int)),
    ensures
        ({
            let p = s.subrange(n + 1, s.len() as int);
            let hi = trim_end(s, s.len() as int);
            let t = s.subrange(0, hi);
            &&& hi == (if p.len() == 0 {
                n
            } else {
                s.len() as int
            })
            &&& skip_space(t, 0) == 0
            &&& token_end(t, 0) == n
            &&& skip_space(t, n) == (if p.len() == 0 {
                n
            } else {
                n + 1
            })
            &&& t.subrange(0, n) == s.subrange(0, n)
            &&& t.subrange(skip_space(t, n), hi) == p
        }),
{
    let p = s.subrange(n + 1, s.len() as int);
    let len = s.len() as int;
    if p.len() == 0 {
        assert(is_space(s[len - 1]));
        assert(trim_end(s, len) == trim_end(s, n));
        assert(!is_space(s[n - 1]));
    } else {
        assert(s.last() == p.last());
    }
    let hi = trim_end(s, len);
    let t = s.subrange(0, hi);
    assert(!is_space(t[0]));
    lemma_token_end_run(t, 0, n);
    if p.len() > 0 {
        assert(t[n] == ' ');
        assert(t[n + 1] == p[0]);
        assert(skip_space(t, n + 1) == n + 1);
    }
    assert(t.subrange(0, n) =~= s.subrange(0, n));
    assert(t.subrange(skip_space(t, n), hi) =~= p);
}

proof fn lemma_keywords_distinct()
    ensures
        "NICK"@ != "USER"@,
        "NICK"@ != "JOIN"@,
        "NICK"@ != "PING"@,
        "NICK"@ != "PONG"@,
        "USER"@ != "JOIN"@,
        "USER"@ != "PING"@,
        "USER"@ != "PONG"@,
        "JOIN"@ != "PING"@,
        "JOIN"@ != "PONG"@,
        "PING"@ != "PONG"@,
        "PRIVMSG"@.len() == 7,
        "NICK"@.len() == 4,
        "USER"@.len() == 4,
        "JOIN"@.len() == 4,
        "PING"@.len() == 4,
        "PONG"@.len() == 4,
{
    reveal_strlit("NICK");
    reveal_strlit("USER");
    reveal_strlit("JOIN");
    reveal_strlit("PING");
    reveal_strlit("PONG");
    reveal_strlit("PRIVMSG");
    assert("NICK"@[0] != "USER"@[0]);
    assert("NICK"@[0] != "JOIN"@[0]);
    assert("NICK"@[0] != "PING"@[0]);
    assert("NICK"@[0] != "PONG"@[0]);
    assert("USER"@[0] != "JOIN"@[0]);
    assert("USER"@[0] != "PING"@[0]);
    assert("USER"@[0] != "PONG"@[0]);
    assert("JOIN"@[0] != "PING"@[0]);
    assert("JOIN"@[0] != "PONG"@[0]);
    assert("PING"@[1] != "PONG"@[1]);
}

/// Reading back the wire form of a message of any kind but `Raw` gives
/// the message itself, as long as its payloads survive trimming and word
/// splitting (see `MessageModel::well_formed`).
pub proof fn lemma_round_trip(m: ProtocolMessage)
    requires
        m@.well_formed(),
        !(m is Raw),
    ensures
        parse_spec(format_spec(m@)) == m@,
{
    lemma_keywords_distinct();
    let s = format_spec(m@);
    match m@ {
        MessageModel::Nick(x) => {
            reveal_strlit("NICK");
            reveal_strlit("NICK ");
            assert(s.subrange(0, 4) =~= "NICK"@);
            assert(s.subrange(5, s.len() as int) =~= x);
            lemma_keyword_line(s, 4);
        },
        MessageModel::Join(x) => {
            reveal_strlit("JOIN");
            reveal_strlit("JOIN ");
            assert(s.subrange(0, 4) =~= "JOIN"@);
            assert(s.subrange(5, s.len() as int) =~= x);
            lemma_keyword_line(s, 4);
        },
        MessageModel::Ping(x) => {
            reveal_strlit("PING");
            reveal_strlit("PING ");
            assert(s.subrange(0, 4) =~= "PING"@);
            assert(s.subrange(5, s.len() as int) =~= x);
            lemma_keyword_line(s, 4);
        },
        MessageModel::Pong(x) => {
            reveal_strlit("PONG");
            reveal_strlit("PONG ");
            assert(s.subrange(0, 4) =~= "PONG"@);
            assert(s.subrange(5, s.len() as int) =~= x);
            lemma_keyword_line(s, 4);
        },
        MessageModel::User(x) => {
            reveal_strlit("USER");
            reveal_strlit("USER ");
            reveal_strlit(" 0 * :");
            let p = s.subrange(5, s.len() as int);
            assert(p =~= x + " 0 * :"@ + x);
            assert(p[0] == x[0]);
            assert(p.last() == x.last());
            assert(s.subrange(0, 4) =~= "USER"@);
            lemma_keyword_line(s, 4);
            let t = s.subrange(0, trim_end(s, s.len() as int));
            let e: int = 5 + x.len() as int;
            assert forall|i: int| 5 <= i < e implies !is_space(#[trigger] t[i]) by {
                assert(t[i] == x[i - 5]);
            }
            assert(t[e] == ' ');
            lemma_token_end_run(t, 5, e);
            assert(t.subrange(5, e) =~= x);
        },
        MessageModel::Privmsg(tg, x) => {
            reveal_strlit("PRIVMSG");
            reveal_strlit("PRIVMSG ");
            reveal_strlit(" :");
            let p = s.subrange(8, s.len() as int);
            assert(p =~= tg + " :"@ + x);
            assert(p[0] == tg[0]);
            assert(x.len() > 0 ==> p.last() == x.last());
            assert(s.subrange(0, 7) =~= "PRIVMSG"@);
            lemma_keyword_line(s, 7);
            let hi = trim_end(s, s.len() as int);
            let t = s.subrange(0, hi);
            let e: int = 8 + tg.len() as int;
            assert forall|i: int| 8 <= i < e implies !is_space(#[trigger] t[i]) by {
                assert(t[i] == tg[i - 8]);
            }
            assert(t[e] == ' ');
            assert(t[e + 1] == ':');
            lemma_token_end_run(t, 8, e);
            assert(skip_space(t, e + 1) == e + 1);
            assert(t.subrange(8, e) =~= tg);
            assert(t.subrange(e + 2, hi) =~= x);
        },
        MessageModel::Raw(_) => {},
    }
}

/// Parsing is total (`parse_line` asks nothing of its input), and a line
/// whose leading word is no keyword the codec models reads as `Raw`
/// holding the line trimmed.
pub proof fn lemma_unmatched_is_raw(line: Seq<char>)
    requires
        !is_keyword(leading_token(line)),
    ensures
        parse_spec(line) == MessageModel::Raw(trim(line)),
{
    lemma_trim_end_bounds(line, line.len() as int);
}

/// Reads one line. Every line has a meaning, so this never fails.
pub fn parse_line(line: &str) -> (m: ProtocolMessage)
    ensures
        m@ == parse_spec(line@),
{
    let v = chars_of(line);
    let hi = trim_end_at(&v);
    let ghost t = v@.subrange(0, hi as int);
    let lo = skip_spaces(&v, 0, hi);
    let k = token_end_at(&v, lo, hi);
    let r0 = skip_spaces(&v, k, hi);
    proof {
        assert(t.subrange(lo as int, k as int) =~= v@.subrange(lo as int, k as int));
        assert(t.subrange(r0 as int, hi as int) =~= line@.subrange(r0 as int, hi as int));
        assert(t.subrange(lo as int, hi as int) =~= line@.subrange(lo as int, hi as int));
    }
    if span_eq(&v, lo, k, "NICK") {
        ProtocolMessage::Nick(string_of(line, r0, hi))
    } else if span_eq(&v, lo, k, "USER") {
        let te = token_end_at(&v, r0, hi);
        assert(t.subrange(r0 as int, te as int) =~= line@.subrange(r0 as int, te as int));
        ProtocolMessage::User(string_of(line, r0, te))
    } else if span_eq(&v, lo, k, "JOIN") {
        ProtocolMessage::Join(string_of(line, r0, hi))
    } else if span_eq(&v, lo, k, "PING") {
        ProtocolMessage::Ping(string_of(line, r0, hi))
    } else if span_eq(&v, lo, k, "PONG") {
        ProtocolMessage::Pong(string_of(line, r0, hi))
    } else if span_eq(&v, lo, k, "PRIVMSG") {
        let te = token_end_at(&v, r0, hi);
        let p = skip_spaces(&v, te, hi);
        let target = string_of(line, r0, te);
        assert(t.subrange(r0 as int, te as int) =~= line@.subrange(r0 as int, te as int));
        assert(t.subrange(p as int, hi as int) =~= line@.subrange(p as int, hi as int));
        assert(p < hi ==> t[p as int] == v@[p as int]);
        assert(p < hi ==> t.subrange(p + 1, hi as int) =~= line@.subrange(p + 1, hi as int));
        if p < hi && v[p] == ':' {
            ProtocolMessage::Privmsg(target, string_of(line, p + 1, hi))
        } else {
            ProtocolMessage::Privmsg(target, string_of(line, p, hi))
        }
    } else {
        ProtocolMessage::Raw(string_of(line, lo, hi))
    }
}

/// Writes the wire form of a message; the caller adds the terminator.
pub fn format_line(m: &ProtocolMessage) -> (r: String)
    ensures
        r@ == format_spec(m@),
{
    match m {
        ProtocolMessage::Raw(x) => x.clone(),
        ProtocolMessage::Nick(x) => String::from_str("NICK ").concat(x.as_str()),
        ProtocolMessage::User(x) => String::from_str("USER ").concat(x.as_str()).concat(
            " 0 * :",
        ).concat(x.as_str()),
        ProtocolMessage::Join(x) => String::from_str("JOIN ").concat(x.as_str()),
        ProtocolMessage::Ping(x) => String::from_str("PING ").concat(x.as_str()),
        ProtocolMessage::Pong(x) => String::from_str("PONG ").concat(x.as_str()),
        ProtocolMessage::Privmsg(t, x) => String::from_str("PRIVMSG ").concat(t.as_str()).concat(
            " :",
        ).concat(x.as_str()),
    }
}

} // verus!
