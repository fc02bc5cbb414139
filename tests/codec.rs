use irc_relay::codec::{format_line, parse_line, ProtocolMessage};

fn s(x: &str) -> String {
    x.to_string()
}

fn round_trip(m: ProtocolMessage) {
    let line = format_line(&m);
    assert_eq!(parse_line(&line), m);
}

#[test]
fn round_trip_every_kind() {
    round_trip(ProtocolMessage::Nick(s("bot")));
    round_trip(ProtocolMessage::User(s("bot")));
    round_trip(ProtocolMessage::Join(s("#general")));
    round_trip(ProtocolMessage::Ping(s(":abc")));
    round_trip(ProtocolMessage::Pong(s(":server1")));
    round_trip(ProtocolMessage::Privmsg(s("#general"), s("hello there")));
    round_trip(ProtocolMessage::Privmsg(s("#a"), s("")));
    round_trip(ProtocolMessage::Privmsg(s("#a"), s("  indented")));
    round_trip(ProtocolMessage::Nick(s("")));
}

#[test]
fn format_exact_lines() {
    assert_eq!(format_line(&ProtocolMessage::Nick(s("bot"))), "NICK bot");
    assert_eq!(format_line(&ProtocolMessage::User(s("bot"))), "USER bot 0 * :bot");
    assert_eq!(format_line(&ProtocolMessage::Join(s("#general"))), "JOIN #general");
    assert_eq!(format_line(&ProtocolMessage::Pong(s(":abc"))), "PONG :abc");
    assert_eq!(
        format_line(&ProtocolMessage::Privmsg(s("#general"), s("hello there"))),
        "PRIVMSG #general :hello there"
    );
    assert_eq!(format_line(&ProtocolMessage::Raw(s(":srv 001 bot :hi"))), ":srv 001 bot :hi");
}

#[test]
fn parse_is_total_on_odd_input() {
    assert_eq!(parse_line(""), ProtocolMessage::Raw(s("")));
    assert_eq!(parse_line("   \t "), ProtocolMessage::Raw(s("")));
    assert_eq!(parse_line("  foo   bar  "), ProtocolMessage::Raw(s("foo   bar")));
    assert_eq!(parse_line("NICKNAME x"), ProtocolMessage::Raw(s("NICKNAME x")));
    assert_eq!(parse_line("nick x"), ProtocolMessage::Raw(s("nick x")));
    assert_eq!(parse_line(":srv 001 bot :Welcome"), ProtocolMessage::Raw(s(":srv 001 bot :Welcome")));
}

#[test]
fn parse_keywords() {
    assert_eq!(parse_line("PING :server1"), ProtocolMessage::Ping(s(":server1")));
    assert_eq!(parse_line("\tPING   :tok  \r\n"), ProtocolMessage::Ping(s(":tok")));
    assert_eq!(parse_line("PONG x"), ProtocolMessage::Pong(s("x")));
    assert_eq!(parse_line("NICK"), ProtocolMessage::Nick(s("")));
    assert_eq!(parse_line("USER bot 0 * :bot"), ProtocolMessage::User(s("bot")));
    assert_eq!(parse_line("JOIN #a"), ProtocolMessage::Join(s("#a")));
    assert_eq!(
        parse_line("PRIVMSG #c :hi there "),
        ProtocolMessage::Privmsg(s("#c"), s("hi there"))
    );
    assert_eq!(parse_line("PRIVMSG #c word"), ProtocolMessage::Privmsg(s("#c"), s("word")));
}

#[test]
fn parse_unicode_whitespace() {
    assert_eq!(parse_line("\u{3000}JOIN\u{A0}#x\u{2003}"), ProtocolMessage::Join(s("#x")));
    assert_eq!(parse_line("JOIN #é"), ProtocolMessage::Join(s("#é")));
}
