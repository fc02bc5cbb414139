use irc_relay::codec::{format_line, parse_line, ProtocolMessage};
use irc_relay::command::{parse_user_input, UserCommand};
use irc_relay::engine::{handshake, keepalive_reply, wire_line, Event, Router};
use irc_relay::session::Notice;

fn s(x: &str) -> String {
    x.to_string()
}

#[test]
fn ping_gets_one_pong() {
    let mut r = Router::new();
    let m = parse_line("PING :server1");
    let o = r.handle(Event::Inbound(m));
    let out = o.outbound.unwrap();
    assert_eq!(format_line(&out), "PONG :server1");
    assert_eq!(o.notice, None);
    let o2 = r.handle(Event::Inbound(parse_line(":srv NOTICE * :hello")));
    assert_eq!(o2.outbound, None);
}

#[test]
fn keepalive_only_for_ping() {
    assert_eq!(
        keepalive_reply(&ProtocolMessage::Ping(s("tok"))),
        Some(ProtocolMessage::Pong(s("tok")))
    );
    assert_eq!(keepalive_reply(&ProtocolMessage::Pong(s("tok"))), None);
    assert_eq!(keepalive_reply(&ProtocolMessage::Raw(s("PING"))), None);
}

#[test]
fn wire_line_adds_crlf() {
    assert_eq!(wire_line(&ProtocolMessage::Pong(s(":abc"))), "PONG :abc\r\n");
    assert_eq!(handshake(&s("bot")), vec![ProtocolMessage::Nick(s("bot")), ProtocolMessage::User(s("bot"))]);
}

#[test]
fn end_to_end_session() {
    let (mut r, out) = Router::start(&s("bot"), &vec![s("#general")]);
    let lines: Vec<String> = out.iter().map(format_line).collect();
    assert_eq!(lines, vec![s("NICK bot"), s("USER bot 0 * :bot"), s("JOIN #general")]);
    let o = r.handle(Event::Local(parse_user_input("/msg hello there")));
    assert_eq!(format_line(&o.outbound.unwrap()), "PRIVMSG #general :hello there");
    let o = r.handle(Event::Inbound(parse_line("PING :abc")));
    assert_eq!(wire_line(&o.outbound.unwrap()), "PONG :abc\r\n");
}

#[test]
fn queued_commands_apply_in_order() {
    let mut r = Router::new();
    let queue = vec![
        Event::Local(parse_user_input("/join #a")),
        Event::Local(parse_user_input("/switch #b")),
    ];
    let mut joins = Vec::new();
    for ev in queue {
        if let Some(m) = r.handle(ev).outbound {
            joins.push(format_line(&m));
        }
    }
    assert_eq!(joins, vec![s("JOIN #a"), s("JOIN #b")]);
    assert_eq!(r.session().current_channel(), Some(s("#b")));
    assert!(r.session().is_joined(&s("#a")));
    assert!(r.session().is_joined(&s("#b")));
}

#[test]
fn start_with_no_channels() {
    let (r, out) = Router::start(&s("me"), &vec![]);
    assert_eq!(out.len(), 2);
    assert_eq!(r.session().current_channel(), None);
    let (r, _) = Router::start(&s("me"), &vec![s("#a"), s("#b")]);
    assert_eq!(r.session().current_channel(), Some(s("#b")));
    assert_eq!(r.session().joined_channels(), vec![s("#a"), s("#b")]);
}

#[test]
fn closed_session_ignores_events() {
    let mut r = Router::new();
    assert!(!r.has_ended());
    let o = r.handle(Event::Closed);
    assert_eq!(o.outbound, None);
    assert!(r.has_ended());
    let o = r.handle(Event::Local(UserCommand::JoinChannel(s("#a"))));
    assert_eq!(o.outbound, None);
    assert_eq!(o.notice, None);
    let o = r.handle(Event::Inbound(ProtocolMessage::Ping(s("x"))));
    assert_eq!(o.outbound, None);
    assert_eq!(r.session().current_channel(), None);
}

#[test]
fn local_unknown_notice() {
    let mut r = Router::new();
    let o = r.handle(Event::Local(parse_user_input("what")));
    assert_eq!(o.notice, Some(Notice::UnrecognizedCommand));
    let o = r.handle(Event::Local(parse_user_input("/msg hi")));
    assert_eq!(o.notice, Some(Notice::NoChannelSelected));
    assert_eq!(o.outbound, None);
}

#[test]
fn start_passes_over_empty_names() {
    let (r, out) = Router::start(&s("bot"), &vec![s(""), s("#a"), s("")]);
    let lines: Vec<String> = out.iter().map(format_line).collect();
    assert_eq!(lines, vec![s("NICK bot"), s("USER bot 0 * :bot"), s("JOIN #a")]);
    assert_eq!(r.session().current_channel(), Some(s("#a")));
    assert_eq!(r.session().joined_channels(), vec![s("#a")]);
}
