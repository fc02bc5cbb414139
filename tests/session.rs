use irc_relay::codec::ProtocolMessage;
use irc_relay::command::UserCommand;
use irc_relay::session::{Notice, SessionState};

fn s(x: &str) -> String {
    x.to_string()
}

#[test]
fn join_then_focus() {
    let mut st = SessionState::new();
    let o = st.apply(UserCommand::JoinChannel(s("#a")));
    assert_eq!(o.outbound, Some(ProtocolMessage::Join(s("#a"))));
    assert_eq!(o.notice, None);
    assert_eq!(st.current_channel(), Some(s("#a")));
    assert!(st.is_joined(&s("#a")));
    assert!(!st.is_joined(&s("#A")));
}

#[test]
fn join_twice_lists_once() {
    let mut st = SessionState::new();
    st.apply(UserCommand::JoinChannel(s("#a")));
    st.apply(UserCommand::JoinChannel(s("#b")));
    let o = st.apply(UserCommand::JoinChannel(s("#a")));
    assert_eq!(o.outbound, Some(ProtocolMessage::Join(s("#a"))));
    assert_eq!(st.joined_channels(), vec![s("#a"), s("#b")]);
    assert_eq!(st.current_channel(), Some(s("#a")));
}

#[test]
fn switch_to_new_channel_is_a_join() {
    let mut a = SessionState::new();
    let mut b = SessionState::new();
    let oa = a.apply(UserCommand::SwitchChannel(s("#a")));
    let ob = b.apply(UserCommand::JoinChannel(s("#a")));
    assert_eq!(oa, ob);
    assert_eq!(oa.outbound, Some(ProtocolMessage::Join(s("#a"))));
    assert_eq!(a.current_channel(), Some(s("#a")));
    assert_eq!(a.joined_channels(), b.joined_channels());
}

#[test]
fn switch_to_joined_channel_is_local() {
    let mut st = SessionState::new();
    st.apply(UserCommand::JoinChannel(s("#a")));
    st.apply(UserCommand::JoinChannel(s("#b")));
    let o = st.apply(UserCommand::SwitchChannel(s("#a")));
    assert_eq!(o.outbound, None);
    assert_eq!(o.notice, None);
    assert_eq!(st.current_channel(), Some(s("#a")));
}

#[test]
fn send_without_channel() {
    let mut st = SessionState::new();
    let o = st.apply(UserCommand::SendMessage(s("hi")));
    assert_eq!(o.outbound, None);
    assert_eq!(o.notice, Some(Notice::NoChannelSelected));
    assert_eq!(st.current_channel(), None);
    assert!(st.joined_channels().is_empty());
}

#[test]
fn send_to_focused_channel() {
    let mut st = SessionState::new();
    st.apply(UserCommand::JoinChannel(s("#a")));
    let o = st.apply(UserCommand::SendMessage(s("hi there")));
    assert_eq!(o.outbound, Some(ProtocolMessage::Privmsg(s("#a"), s("hi there"))));
}

#[test]
fn unknown_is_reported() {
    let mut st = SessionState::new();
    let o = st.apply(UserCommand::Unknown);
    assert_eq!(o.outbound, None);
    assert_eq!(o.notice, Some(Notice::UnrecognizedCommand));
}

#[test]
fn focus_stays_joined_over_a_sequence() {
    let mut st = SessionState::new();
    let cmds = vec![
        UserCommand::SwitchChannel(s("#x")),
        UserCommand::JoinChannel(s("#y")),
        UserCommand::SwitchChannel(s("#x")),
        UserCommand::SwitchChannel(s("#z")),
        UserCommand::JoinChannel(s("#y")),
    ];
    for c in cmds {
        st.apply(c);
        let cur = st.current_channel().unwrap();
        assert!(st.joined_channels().contains(&cur));
    }
    assert_eq!(st.joined_channels(), vec![s("#x"), s("#y"), s("#z")]);
}

#[test]
fn empty_channel_name_is_refused() {
    let mut st = SessionState::new();
    let o = st.apply(UserCommand::JoinChannel(s("")));
    assert_eq!(o.outbound, None);
    assert_eq!(o.notice, Some(Notice::UnrecognizedCommand));
    let o = st.apply(UserCommand::SwitchChannel(s("")));
    assert_eq!(o.outbound, None);
    assert_eq!(o.notice, Some(Notice::UnrecognizedCommand));
    assert!(st.joined_channels().is_empty());
    assert_eq!(st.current_channel(), None);
}
