use smolbotbot::model::{DailyRobot, IdentBuf, NumberError, ParseIdentError};
use smolbotbot::robot::{strip_whitespace, RobotName};

fn slug(prefix: &str) -> String {
    RobotName { prefix, suffix: "bot", plural: None }.identifier()
}

#[test]
fn slug_is_lowercase_ascii_words() {
    assert_eq!(slug("Tea"), "tea");
    assert_eq!(slug("Transrights"), "transrights");
    assert_eq!(slug("R.O."), "ro");
    assert_eq!(slug("Salt-"), "salt");
    assert_eq!(slug("Caf\u{e9}"), "cafe");
    assert_eq!(slug("\u{c6}neid"), "aeneid");
    assert_eq!(slug("\u{5317}\u{4eb0}"), "beijing");
    assert_eq!(slug("snake_case"), "snake_case");
    assert_eq!(slug("a b\tc"), "abc");
    assert_eq!(slug(""), "");
    assert_eq!(slug("!!!"), "");
}

#[test]
fn slug_of_a_slug_is_the_slug() {
    for prefix in ["Tea", "R.O.", "Caf\u{e9}", "\u{5317}\u{4eb0}", "MiXed Case_9", "", "\u{1f916}"] {
        let once = slug(prefix);
        let twice = slug(&once);
        assert_eq!(once, twice);
    }
}

#[test]
fn slug_ignores_ascii_case() {
    assert_eq!(slug("TEA"), slug("tea"));
    assert_eq!(slug("MisChief"), slug("mischief"));
    assert_eq!(slug("R.o."), slug("r.O."));
}

#[test]
fn strip_whitespace_drops_every_whitespace() {
    assert_eq!(strip_whitespace(" a b\n\tc\u{a0}d\u{3000}"), "abcd");
    assert_eq!(strip_whitespace(""), "");
    assert_eq!(strip_whitespace("abc"), "abc");
}

#[test]
fn ident_is_written_with_a_slash() {
    assert_eq!(IdentBuf::new(1207, "transrights".to_owned()).to_string(), "1207/transrights");
    assert_eq!(IdentBuf::new(-1, "salt".to_owned()).to_string(), "-1/salt");
    assert_eq!(IdentBuf::new(0, String::new()).to_string(), "0/");
    assert_eq!(IdentBuf::new(i32::MIN, "x".to_owned()).to_string(), "-2147483648/x");
    assert_eq!(IdentBuf::new(i32::MAX, "x".to_owned()).to_string(), "2147483647/x");
}

#[test]
fn ident_is_read_back() {
    let id = IdentBuf::parse("558/salt").unwrap();
    assert_eq!(id.number, 558);
    assert_eq!(id.name, "salt");
    let id = IdentBuf::parse("-12/a/b").unwrap();
    assert_eq!(id.number, -12);
    assert_eq!(id.name, "a/b");
    let id = IdentBuf::parse("+7/").unwrap();
    assert_eq!(id.number, 7);
    assert_eq!(id.name, "");
    let id = IdentBuf::parse("-2147483648/min").unwrap();
    assert_eq!(id.number, i32::MIN);
    let back = IdentBuf::parse(&IdentBuf::new(1024, "tea".to_owned()).to_string()).unwrap();
    assert_eq!((back.number, back.name.as_str()), (1024, "tea"));
}

#[test]
fn ident_errors() {
    assert!(matches!(IdentBuf::parse("558"), Err(ParseIdentError::MissingSlash)));
    assert!(matches!(IdentBuf::parse(""), Err(ParseIdentError::MissingSlash)));
    assert!(matches!(IdentBuf::parse("/salt"), Err(ParseIdentError::InvalidNumber(NumberError::Empty))));
    assert!(matches!(IdentBuf::parse("x1/salt"), Err(ParseIdentError::InvalidNumber(NumberError::InvalidDigit))));
    assert!(matches!(IdentBuf::parse("-/salt"), Err(ParseIdentError::InvalidNumber(NumberError::InvalidDigit))));
    assert!(matches!(IdentBuf::parse(" 1/salt"), Err(ParseIdentError::InvalidNumber(NumberError::InvalidDigit))));
    assert!(matches!(IdentBuf::parse("2147483648/salt"), Err(ParseIdentError::InvalidNumber(NumberError::PosOverflow))));
    assert!(matches!(IdentBuf::parse("-2147483649/salt"), Err(ParseIdentError::InvalidNumber(NumberError::NegOverflow))));
    assert_eq!(ParseIdentError::MissingSlash.message(), "missing slash separator");
    assert_eq!(
        ParseIdentError::InvalidNumber(NumberError::InvalidDigit).message(),
        "invalid digit found in string"
    );
}

#[test]
fn reading_a_number_agrees_with_std() {
    for text in ["0", "-0", "+0", "007", "12", "-12", "+12", "2147483647", "-2147483648", "2147483648",
        "-2147483649", "99999999999999999999", "", "-", "+", "1x", "x", " 1", "1 ", "--1", "1_000"] {
        let ours = IdentBuf::parse(&format!("{}/n", text)).ok().map(|id| id.number);
        let theirs = text.parse::<i32>().ok();
        assert_eq!(ours, theirs);
    }
}

#[test]
fn daily_robot_name_and_url() {
    let robot = DailyRobot {
        id: IdentBuf::new(179, "mischief".to_owned()),
        prefix: "Mischief".to_owned(),
        suffix: "bot".to_owned(),
        plural: Some("s".to_owned()),
        tweet_id: 1234567890123456789,
        content_warning: None,
    };
    assert_eq!(robot.full_name(), "Mischiefbots");
    assert_eq!(robot.tweet_url(), "https://twitter.com/smolrobots/status/1234567890123456789");
    let robot = DailyRobot { plural: None, tweet_id: -5, ..robot };
    assert_eq!(robot.full_name(), "Mischiefbot");
    assert_eq!(robot.tweet_url(), "https://twitter.com/smolrobots/status/-5");
}
