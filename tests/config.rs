use irc_relay::config::{config_from_answers, parse_channel_list, parse_port, trim_text, DEFAULT_PORT};

fn s(x: &str) -> String {
    x.to_string()
}

#[test]
fn answers_become_settings() {
    let c = config_from_answers("bot\n", " irc.example.org\n", "6697\n", "Y\n", "#a, #b,,\n");
    assert_eq!(c.nickname, "bot");
    assert_eq!(c.server, "irc.example.org");
    assert_eq!(c.port, Some(6697));
    assert_eq!(c.use_tls, Some(true));
    assert_eq!(c.channels, vec![s("#a"), s("#b")]);
    assert_eq!(c.username, None);
    assert_eq!(c.realname, None);
}

#[test]
fn bad_port_falls_back() {
    let c = config_from_answers("bot", "h", "abc", "n", "");
    assert_eq!(c.port, Some(DEFAULT_PORT));
    assert_eq!(c.port, Some(6667));
    assert_eq!(c.use_tls, Some(false));
    assert!(c.channels.is_empty());
    let c = config_from_answers("bot", "h", "70000", "yes", "#x");
    assert_eq!(c.port, Some(6667));
    assert_eq!(c.use_tls, Some(false));
    assert_eq!(c.channels, vec![s("#x")]);
}

#[test]
fn port_numbers() {
    assert_eq!(parse_port("6667"), Some(6667));
    assert_eq!(parse_port("+80"), Some(80));
    assert_eq!(parse_port("0"), Some(0));
    assert_eq!(parse_port("65535"), Some(65535));
    assert_eq!(parse_port("65536"), None);
    assert_eq!(parse_port("99999999999999999999"), None);
    assert_eq!(parse_port(""), None);
    assert_eq!(parse_port("+"), None);
    assert_eq!(parse_port("-1"), None);
    assert_eq!(parse_port("12a"), None);
}

#[test]
fn channel_lists_and_trim() {
    assert_eq!(parse_channel_list(" #a ,#b"), vec![s("#a"), s("#b")]);
    assert_eq!(parse_channel_list(","), Vec::<String>::new());
    assert_eq!(parse_channel_list("#only"), vec![s("#only")]);
    assert_eq!(trim_text("\t x y \n"), "x y");
    assert_eq!(trim_text("   "), "");
}
