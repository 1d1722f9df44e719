use smolbotbot::config::{
    get_twitter_auth, goldcrest_settings, required_setting, setting, GoldcrestConfig,
    MissingVarError, OAuth10aConfig,
};
use smolbotbot::fetch::{parse_id, parse_ids};
use smolbotbot::images::{image_file_name, path_without_extension, push_hex};
use smolbotbot::model::{IdentBuf, TweetId};
use smolbotbot::nlpewee::client::ClientBuilder;
use smolbotbot::nlpewee::data::{Sentence, Tag, Text, Token};
use smolbotbot::scribe::{InvalidTweet, NotScribed, ScribeFailure};
use smolbotbot::tagger::{add_tags, choose_tags, is_among, next_batch_size, token_gives_tags};
use smolbotbot::timestamp::Duration;

#[test]
fn ids_are_read_from_words() {
    assert_eq!(parse_ids("1 22\n333\t4444  "), Ok(vec![1, 22, 333, 4444]));
    assert_eq!(parse_ids(""), Ok(vec![]));
    assert_eq!(parse_ids(" \n "), Ok(vec![]));
    assert_eq!(parse_ids("18446744073709551615"), Ok(vec![u64::MAX]));
    assert_eq!(parse_ids("1 -2 x"), Err("-2"));
    assert_eq!(parse_ids("1 2x 3y"), Err("2x"));
    assert_eq!(parse_ids("18446744073709551616"), Err("18446744073709551616"));
    assert_eq!(parse_ids("3 3"), Ok(vec![3, 3]));
}

#[test]
fn reading_an_id_agrees_with_std() {
    for word in ["0", "+0", "007", "12", "+12", "-12", "18446744073709551615", "18446744073709551616",
        "99999999999999999999999", "", "+", "-", "1x", "x", "1_0", "++1", "\u{661}"] {
        assert_eq!(parse_id(word), word.parse::<u64>().ok());
    }
}

fn token(raw: &str, cleaned: Option<&str>, stem: &str, stem_cleaned: Option<&str>, tag: Tag) -> Token {
    Token {
        full: Text { raw: raw.to_owned(), cleaned: cleaned.map(str::to_owned) },
        stem: Text { raw: stem.to_owned(), cleaned: stem_cleaned.map(str::to_owned) },
        tag,
        label: String::new(),
    }
}

#[test]
fn tags_come_from_words_that_say_something() {
    let stops = vec!["be", "thing"];
    assert!(is_among(&stops, "thing"));
    assert!(!is_among(&stops, "Thing"));
    assert!(!is_among(&Vec::new(), "thing"));
    let sentence = Sentence {
        tokens: vec![
            token("brings", Some("brings"), "bring", Some("bring"), Tag::VBZ),
            token("you", None, "you", None, Tag::PRP),
            token("hot", Some("hot"), "hot", None, Tag::JJ),
            token("tea", Some("tea"), "tea", Some("tea"), Tag::NN),
            token("quickly", Some("quickly"), "quick", Some("quick"), Tag::RB),
            token("Teabot", Some("teabot"), "teabot", Some("teabot"), Tag::NNP),
            token("robots", Some("robots"), "robot", Some("robot"), Tag::NNS),
            token("things", Some("things"), "thing", Some("thing"), Tag::NNS),
            token("@smolrobots", Some("smolrobots"), "smolrobots", Some("smolrobots"), Tag::NN),
            token("#tea", Some("tea"), "tea", Some("tea"), Tag::NN),
            token("'s", Some("s"), "s", Some("s"), Tag::NN),
            token("is", None, "be", Some("be"), Tag::VBZ),
        ],
        entities: vec![],
    };
    assert!(token_gives_tags(&sentence.tokens[0], &stops));
    assert!(!token_gives_tags(&sentence.tokens[1], &stops));
    assert!(!token_gives_tags(&sentence.tokens[5], &stops));
    assert!(!token_gives_tags(&sentence.tokens[7], &stops));
    assert_eq!(choose_tags(&sentence, &stops), vec!["brings", "bring", "hot", "tea", "tea"]);
    assert_eq!(choose_tags(&Sentence { tokens: vec![], entities: vec![] }, &stops), Vec::<String>::new());
}

#[test]
fn tags_of_a_post_stand_once() {
    let mut tags: Vec<String> = Vec::new();
    add_tags(&mut tags, vec!["tea".to_owned(), "hot".to_owned(), "tea".to_owned()]);
    assert_eq!(tags, vec!["tea", "hot"]);
    add_tags(&mut tags, vec!["cup".to_owned(), "hot".to_owned(), "Tea".to_owned(), "cup".to_owned()]);
    assert_eq!(tags, vec!["tea", "hot", "cup", "Tea"]);
    add_tags(&mut tags, Vec::new());
    assert_eq!(tags, vec!["tea", "hot", "cup", "Tea"]);
}

#[test]
fn file_names_hold_kind_id_and_token() {
    assert_eq!(image_file_name("orig", 1207, 0xdead_beef, "png"), "orig_1207_deadbeef.png");
    assert_eq!(image_file_name("thumb", -3, 0, "jpg"), "thumb_-3_0.jpg");
    assert_eq!(
        image_file_name("orig", 1, u128::MAX, "png"),
        "orig_1_ffffffffffffffffffffffffffffffff.png"
    );
    for n in [0u128, 9, 10, 15, 16, 255, 256, 0x1234_5678_9abc_def0, u128::MAX] {
        let mut out = String::from(">");
        push_hex(&mut out, n);
        assert_eq!(out, format!(">{:x}", n));
    }
}

#[test]
fn extension_is_cut_from_the_last_part() {
    assert_eq!(path_without_extension("/media/Abc123.jpg"), Some("/media/Abc123"));
    assert_eq!(path_without_extension("/a.b/c.d.e"), Some("/a.b/c.d"));
    assert_eq!(path_without_extension("/a.b/c"), None);
    assert_eq!(path_without_extension("a.b"), None);
    assert_eq!(path_without_extension("/"), None);
    assert_eq!(path_without_extension(""), None);
    assert_eq!(path_without_extension("/.jpg"), Some("/"));
    assert_eq!(path_without_extension("/x."), Some("/x"));
    assert_eq!(path_without_extension("/\u{e9}t\u{e9}/\u{1f916}.png"), Some("/\u{e9}t\u{e9}/\u{1f916}"));
}

#[test]
fn environment_comes_before_the_file() {
    assert_eq!(setting(Some(1), Some(2)), Some(1));
    assert_eq!(setting(None, Some(2)), Some(2));
    assert_eq!(setting(Some(1), None), Some(1));
    assert_eq!(setting::<u8>(None, None), None);
    assert_eq!(required_setting(Some("e".to_owned()), Some("c".to_owned()), "x").unwrap(), "e");
    assert_eq!(required_setting(None, Some("c".to_owned()), "x").unwrap(), "c");
    let missing = required_setting(None, None, "database url").unwrap_err();
    assert_eq!(missing.0, "database url");
    assert_eq!(missing.message(), "database url not set");
    assert_eq!(MissingVarError("twitter token").message(), "twitter token not set");
}

fn auth(key: Option<&str>, secret: Option<&str>, token: Option<&str>, token_secret: Option<&str>) -> OAuth10aConfig {
    OAuth10aConfig {
        consumer_key: key.map(str::to_owned),
        consumer_secret: secret.map(str::to_owned),
        token: token.map(str::to_owned),
        token_secret: token_secret.map(str::to_owned),
    }
}

#[test]
fn credentials_need_all_four_parts() {
    let got = get_twitter_auth(auth(Some("ek"), None, None, Some("ets")), auth(Some("ck"), Some("cs"), Some("ct"), None))
        .unwrap();
    assert_eq!(
        (got.consumer_key.as_str(), got.consumer_secret.as_str(), got.token.as_str(), got.token_secret.as_str()),
        ("ek", "cs", "ct", "ets")
    );
    let none = || auth(None, None, None, None);
    assert_eq!(get_twitter_auth(none(), none()).unwrap_err().0, "twitter consumer key");
    assert_eq!(get_twitter_auth(auth(Some("k"), None, None, None), none()).unwrap_err().0, "twitter consumer secret");
    assert_eq!(get_twitter_auth(auth(Some("k"), Some("s"), None, None), none()).unwrap_err().0, "twitter token");
    assert_eq!(
        get_twitter_auth(auth(Some("k"), Some("s"), None, None), auth(None, None, Some("t"), None)).unwrap_err().0,
        "twitter token secret"
    );
}

#[test]
fn service_settings() {
    let env = GoldcrestConfig {
        scheme: None,
        host: Some("env.host".to_owned()),
        port: None,
        request_timeout_seconds: Some(5),
        wait_timeout_seconds: None,
    };
    let file = GoldcrestConfig {
        scheme: Some("https".to_owned()),
        host: Some("file.host".to_owned()),
        port: Some(8443),
        request_timeout_seconds: Some(60),
        wait_timeout_seconds: None,
    };
    let got = goldcrest_settings(env, file);
    assert_eq!(got.scheme.as_deref(), Some("https"));
    assert_eq!(got.host.as_deref(), Some("env.host"));
    assert_eq!(got.port, Some(8443));
    assert_eq!(got.request_timeout, Some(Duration { seconds: 5, nanos: 0 }));
    assert_eq!(got.wait_timeout, None);
}

#[test]
fn client_settings() {
    let mut builder = ClientBuilder::new();
    assert_eq!(builder.uri(), "http://localhost:8000");
    assert_eq!(builder.timeout(), None);
    assert_eq!(builder.par_concurrency_limit, None);
    builder.scheme("https".to_owned()).socket("nlp.example".to_owned(), 443).concurrency_limit(8);
    assert_eq!(builder.uri(), "https://nlp.example:443");
    assert_eq!(builder.par_concurrency_limit, Some(8));
    builder.host("other".to_owned()).port(0).request_timeout(Duration::seconds(30));
    assert_eq!(builder.uri(), "https://other:0");
    assert_eq!(builder.timeout(), Some(Duration { seconds: 30, nanos: 0 }));
    builder.request_timeout(Duration { seconds: 0, nanos: 1 });
    assert_eq!(builder.timeout(), Some(Duration { seconds: 0, nanos: 1 }));
    builder.request_timeout(Duration::seconds(-1));
    assert_eq!(builder.timeout(), None);
    builder.request_timeout(Duration::zero());
    assert_eq!(builder.timeout(), None);
}

#[test]
fn errors_in_words() {
    assert_eq!(InvalidTweet::ParseUnsuccessful.describe(), "could not parse robot data from tweet");
    assert_eq!(InvalidTweet::MissingMedia.describe(), "tweet does not contain media");
    assert_eq!(InvalidTweet::NoRobots.describe(), "no robots in tweet");
    assert_eq!(
        InvalidTweet::DuplicateRobot(IdentBuf::new(558, "salt".to_owned())).describe(),
        "robot 558/salt already exists"
    );
    assert_eq!(ScribeFailure::DbError("connection refused".to_owned()).message(), "connection refused");
    assert!(matches!(NotScribed::from(InvalidTweet::NoRobots), NotScribed::InvalidTweet(InvalidTweet::NoRobots)));
    assert!(matches!(
        NotScribed::from(ScribeFailure::JoinError("x".to_owned())),
        NotScribed::ScribeFailure(ScribeFailure::JoinError(_))
    ));
    assert_eq!(TweetId { tweet_id: 1207 }.line(), "1207\n");
    assert_eq!(TweetId { tweet_id: -1 }.line(), "-1\n");
}

#[test]
fn batches_stop_at_the_limit() {
    assert_eq!(next_batch_size(None, 255, 1000), Some(255));
    assert_eq!(next_batch_size(Some(600), 255, 0), Some(255));
    assert_eq!(next_batch_size(Some(600), 255, 510), Some(90));
    assert_eq!(next_batch_size(Some(600), 255, 600), None);
    assert_eq!(next_batch_size(Some(600), 255, 700), None);
    assert_eq!(next_batch_size(Some(0), 255, 0), None);
    assert_eq!(next_batch_size(Some(600), 0, 0), Some(0));
}

#[test]
fn long_lists_of_ids_are_read() {
    let ids: Vec<u64> = (0..100_000u64).map(|i| i * 7919 % 100_003).collect();
    let text: String = ids.iter().map(|id| format!("{} \n", id)).collect();
    assert_eq!(parse_ids(&text), Ok(ids));
}
