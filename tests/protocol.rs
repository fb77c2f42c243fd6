use micro_broadcaster::text::{decimal_string, find_char, parse_decimal, same_text, split_once_at};
use micro_broadcaster::wire::{parse_register, registration_request, split_words, Directive};

#[test]
fn decimal_numerals() {
    assert_eq!(decimal_string(0), "0");
    assert_eq!(decimal_string(7), "7");
    assert_eq!(decimal_string(180), "180");
    assert_eq!(decimal_string(u64::MAX), "18446744073709551615");
}

#[test]
fn decimal_parsing() {
    assert_eq!(parse_decimal("0"), Some(0));
    assert_eq!(parse_decimal("240"), Some(240));
    assert_eq!(parse_decimal("007"), Some(7));
    assert_eq!(parse_decimal("18446744073709551615"), Some(u64::MAX));
    assert_eq!(parse_decimal("18446744073709551616"), None);
    assert_eq!(parse_decimal(""), None);
    assert_eq!(parse_decimal("-1"), None);
    assert_eq!(parse_decimal("1.5"), None);
    assert_eq!(parse_decimal(" 3"), None);
    assert_eq!(parse_decimal("two"), None);
    assert_eq!(parse_decimal("+7"), Some(7));
    assert_eq!(parse_decimal("+"), None);
    assert_eq!(parse_decimal("++7"), None);
    assert_eq!(parse_decimal("7+"), None);
    assert_eq!(parse_decimal("+18446744073709551616"), None);
}

#[test]
fn text_helpers() {
    assert!(same_text("héllo", "héllo"));
    assert!(!same_text("hello", "hello "));
    assert_eq!(find_char("a/b/c", '/'), Some(1));
    assert_eq!(find_char("abc", '/'), None);
    assert_eq!(split_once_at("MESSAGE hi there", ' '), Some(("MESSAGE", "hi there")));
    assert_eq!(split_once_at("PING", ' '), None);
    assert_eq!(split_once_at("é x", ' '), Some(("é", "x")));
}

#[test]
fn directives_serialize() {
    assert_eq!(Directive::Ping.serialize(), "PING");
    assert_eq!(Directive::Message("hi".to_string()).serialize(), "MESSAGE hi");
    assert_eq!(Directive::Message(String::new()).serialize(), "MESSAGE ");
    assert_eq!(Directive::Timer { remaining: 150, total: 180 }.serialize(), "TIMER 150/180");
    assert_eq!(Directive::Animate("Heart".to_string()).serialize(), "ANIMATE Heart");
}

#[test]
fn directives_parse() {
    assert_eq!(Directive::parse("PING"), Some(Directive::Ping));
    assert_eq!(Directive::parse("MESSAGE hello world"), Some(Directive::Message("hello world".to_string())));
    assert_eq!(Directive::parse("MESSAGE "), Some(Directive::Message(String::new())));
    assert_eq!(Directive::parse("TIMER 0/240"), Some(Directive::Timer { remaining: 0, total: 240 }));
    assert_eq!(Directive::parse("ANIMATE Unicorn"), Some(Directive::Animate("Unicorn".to_string())));
    assert_eq!(Directive::parse("TIMER 5"), None);
    assert_eq!(Directive::parse("TIMER a/b"), None);
    assert_eq!(Directive::parse("DANCE now"), None);
    assert_eq!(Directive::parse("PING "), None);
    assert_eq!(Directive::parse(""), None);
    assert_eq!(Directive::parse("MESSAGE"), None);
}

#[test]
fn serialize_then_parse_round_trip() {
    let samples = vec![
        Directive::Ping,
        Directive::Message("multi word text with ünïcode".to_string()),
        Directive::Message(String::new()),
        Directive::Timer { remaining: 0, total: 0 },
        Directive::Timer { remaining: 59, total: u64::MAX },
        Directive::Animate("CartoonEyes".to_string()),
    ];
    for d in samples {
        let s = d.serialize();
        let parsed = Directive::parse(&s).unwrap();
        assert_eq!(parsed, d);
        assert_eq!(parsed.serialize(), s);
    }
}

#[test]
fn words_split_on_ascii_whitespace() {
    assert_eq!(split_words("  REGISTER\tAA:BB \n x "), vec!["REGISTER", "AA:BB", "x"]);
    assert_eq!(split_words(""), Vec::<String>::new());
    assert_eq!(split_words(" \r\n"), Vec::<String>::new());
    assert_eq!(split_words("one"), vec!["one"]);
}

#[test]
fn registration_messages() {
    assert_eq!(
        registration_request([0xEC, 0xDA, 0x3B, 0xBF, 0x46, 0x9C]),
        "REGISTER EC:DA:3B:BF:46:9C"
    );
    assert_eq!(registration_request([0, 1, 2, 10, 171, 255]), "REGISTER 00:01:02:0A:AB:FF");
    assert_eq!(
        parse_register("REGISTER AA:BB:CC:DD:EE:02"),
        Some("AA:BB:CC:DD:EE:02".to_string())
    );
    assert_eq!(parse_register("REGISTER  AA:BB:CC:DD:EE:02\n"), Some("AA:BB:CC:DD:EE:02".to_string()));
    assert_eq!(parse_register("REGISTER"), None);
    assert_eq!(parse_register("HELLO AA:BB"), None);
    assert_eq!(parse_register(""), None);
    let req = registration_request([0xAA, 0xBB, 0xCC, 0xDD, 0xEE, 0x02]);
    assert_eq!(parse_register(&req), Some("AA:BB:CC:DD:EE:02".to_string()));
}

#[test]
fn kilobyte_message_round_trip() {
    let text: String = "ab cd é".chars().cycle().take(1016).collect();
    let wire = Directive::Message(text.clone()).serialize();
    assert_eq!(wire.chars().count(), 1024);
    assert_eq!(Directive::parse(&wire), Some(Directive::Message(text)));
}
