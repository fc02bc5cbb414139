use irc_relay::command::{parse_user_input, UserCommand};

fn s(x: &str) -> String {
    x.to_string()
}

#[test]
fn slash_commands() {
    assert_eq!(parse_user_input("/join #a"), UserCommand::JoinChannel(s("#a")));
    assert_eq!(parse_user_input("/switch #b extra"), UserCommand::SwitchChannel(s("#b")));
    assert_eq!(parse_user_input("  /msg  hello   there "), UserCommand::SendMessage(s("hello there")));
    assert_eq!(parse_user_input("/msg hi"), UserCommand::SendMessage(s("hi")));
}

#[test]
fn protocol_keyword_is_no_command() {
    assert_eq!(parse_user_input("JOIN #c"), UserCommand::Unknown);
}

#[test]
fn unknown_input() {
    assert_eq!(parse_user_input(""), UserCommand::Unknown);
    assert_eq!(parse_user_input("   "), UserCommand::Unknown);
    assert_eq!(parse_user_input("/join"), UserCommand::Unknown);
    assert_eq!(parse_user_input("/msg"), UserCommand::Unknown);
    assert_eq!(parse_user_input("hello world"), UserCommand::Unknown);
    assert_eq!(parse_user_input("/JOIN #a"), UserCommand::Unknown);
    assert_eq!(parse_user_input("/quit now"), UserCommand::Unknown);
}

#[test]
fn typed_commands_read_back() {
    let cases = vec![
        (s("/join #a"), UserCommand::JoinChannel(s("#a"))),
        (s("/switch #b"), UserCommand::SwitchChannel(s("#b"))),
        (s("/msg hello there"), UserCommand::SendMessage(s("hello there"))),
    ];
    for (line, cmd) in cases {
        assert_eq!(parse_user_input(&line), cmd);
    }
}
