use smolbotbot::model::IdentBuf;
use smolbotbot::plural::Plural;
use smolbotbot::scribe::{
    first_step, next_step, plan_scribe, record_result, InvalidTweet, NotScribed, Outcome, Progress,
    Record, ScribeFailure, Step,
};
use smolbotbot::timestamp::Timestamp;
use smolbotbot::tweet::{
    alt_text, is_valid_robot_media, select_media, signed_id, tweet_original, Media, Tweet, User,
};
use smolbotbot::twitter::{parse_tweet, read_tweet};
use std::collections::HashSet;

fn media(kind: &str, url: &str, alt: &str) -> Media {
    Media { media_type: kind.to_owned(), media_url: url.to_owned(), alt: alt.to_owned() }
}

fn tweet(id: u64, text: &str, media: Vec<Media>) -> Tweet {
    Tweet {
        id,
        created_at: Timestamp { seconds: 1_600_000_000, nanos: 5 },
        text: text.to_owned(),
        media,
        user: User { id: 42, handle: "smolrobots".to_owned() },
        retweeted: None,
    }
}

/// A database that holds identities, with `ON CONFLICT DO NOTHING` inserts and
/// one transaction at a time.
struct Store {
    rows: HashSet<(i32, String)>,
    saved: Option<HashSet<(i32, String)>>,
}

impl Store {
    fn new() -> Store {
        Store { rows: HashSet::new(), saved: None }
    }

    fn carry_out(&mut self, records: &Vec<Record>) -> Result<Plural<IdentBuf>, NotScribed> {
        let (mut progress, mut step) = first_step(records);
        loop {
            let rows = match step {
                Step::Begin => {
                    self.saved = Some(self.rows.clone());
                    0
                }
                Step::Insert(k) => {
                    let ident = &records[k].ident;
                    if self.rows.insert((ident.number, ident.name.clone())) { 1 } else { 0 }
                }
                Step::Commit => {
                    self.saved = None;
                    0
                }
                Step::Finish(result) => {
                    if let Some(saved) = self.saved.take() {
                        self.rows = saved;
                    }
                    return result;
                }
            };
            assert!(progress.fits(records.len()));
            let next = next_step(records, progress, Ok(rows));
            progress = next.0;
            step = next.1;
        }
    }
}

#[test]
fn reshare_is_followed_to_the_original() {
    let inner = tweet(7, "1) Teabot. Tea.", vec![]);
    let middle = Tweet { retweeted: Some(Box::new(inner)), ..tweet(8, "RT", vec![]) };
    let outer = Tweet { retweeted: Some(Box::new(middle)), ..tweet(9, "RT RT", vec![]) };
    assert_eq!(tweet_original(&outer).id, 7);
    let plain = tweet(3, "x", vec![]);
    assert_eq!(tweet_original(&plain).id, 3);
}

#[test]
fn media_kinds() {
    assert!(is_valid_robot_media(&media("photo", "u", "")));
    assert!(is_valid_robot_media(&media("animated_gif", "u", "")));
    assert!(is_valid_robot_media(&media("video", "u", "")));
    assert!(!is_valid_robot_media(&media("Photo", "u", "")));
    assert!(!is_valid_robot_media(&media("", "u", "")));
    assert!(!is_valid_robot_media(&media("poll", "u", "")));
    let list = vec![media("poll", "a", ""), media("video", "b", ""), media("photo", "c", "")];
    assert_eq!(select_media(&list).unwrap().media_url, "b");
    assert!(select_media(&vec![media("poll", "a", "")]).is_none());
    assert!(select_media(&vec![]).is_none());
    assert_eq!(alt_text(&media("photo", "u", "  a robot \n")), Some("a robot"));
    assert_eq!(alt_text(&media("photo", "u", " \n ")), None);
    assert_eq!(alt_text(&media("photo", "u", "")), None);
}

#[test]
fn ids_keep_their_bits() {
    assert_eq!(signed_id(0), 0);
    assert_eq!(signed_id(5), 5);
    assert_eq!(signed_id(i64::MAX as u64), i64::MAX);
    assert_eq!(signed_id(i64::MAX as u64 + 1), i64::MIN);
    assert_eq!(signed_id(u64::MAX), -1);
    for id in [0u64, 1, 1 << 62, 1 << 63, u64::MAX - 7] {
        assert_eq!(signed_id(id), id as i64);
    }
}

#[test]
fn plan_holds_one_record_for_each_robot() {
    let post = tweet(
        99,
        "[CN: food] 558/9) Salt- and Pepperbots. Bring you salt and pepper.  ",
        vec![media("poll", "no", "x"), media("photo", "https://img/1.jpg", " two robots ")],
    );
    let records = plan_scribe(&post).unwrap();
    assert_eq!(records.len(), 2);
    assert_eq!((records[0].ident.number, records[0].ident.name.as_str()), (558, "salt"));
    assert_eq!((records[1].ident.number, records[1].ident.name.as_str()), (559, "pepper"));
    assert_eq!(records[0].robot.name.prefix, "Salt");
    assert_eq!(records[1].robot.name.suffix, "bot");
    assert_eq!(records[1].robot.name.plural, None);
    for record in &records {
        assert_eq!(record.tweet.tweet_id, 99);
        assert_eq!(record.tweet.tweet_time, Timestamp { seconds: 1_600_000_000, nanos: 5 });
        assert_eq!(record.tweet.image_url, "https://img/1.jpg");
        assert_eq!(record.tweet.body, "Bring you salt and pepper.");
        assert_eq!(record.tweet.alt, Some("two robots"));
        assert_eq!(record.tweet.cw, Some("food"));
    }
}

#[test]
fn plan_reads_the_original_of_a_reshare() {
    let inner = tweet(7, "1207) Transrightsbot. Is just here.", vec![media("photo", "in", "")]);
    let outer = Tweet { retweeted: Some(Box::new(inner)), ..tweet(8, "no robots here", vec![]) };
    let records = plan_scribe(&outer).unwrap();
    assert_eq!(records.len(), 1);
    assert_eq!(records[0].tweet.tweet_id, 7);
    assert_eq!(records[0].tweet.image_url, "in");
    assert_eq!(records[0].tweet.alt, None);
    assert_eq!(records[0].ident.to_string(), "1207/transrights");
}

#[test]
fn plan_refuses_posts_that_are_not_valid() {
    let no_robots = tweet(1, "Foo baa", vec![media("photo", "u", "")]);
    assert!(matches!(plan_scribe(&no_robots), Err(InvalidTweet::ParseUnsuccessful)));
    let no_media = tweet(1, "1) Teabot.", vec![media("poll", "u", "")]);
    assert!(matches!(plan_scribe(&no_media), Err(InvalidTweet::MissingMedia)));
    let neither = tweet(1, "Foo baa", vec![]);
    assert!(matches!(plan_scribe(&neither), Err(InvalidTweet::ParseUnsuccessful)));
    assert_eq!(InvalidTweet::MissingMedia.message(), "tweet does not contain media");
    assert_eq!(InvalidTweet::ParseUnsuccessful.message(), "could not parse robot data from tweet");
    assert_eq!(InvalidTweet::NoRobots.message(), "no robots in tweet");
}

#[test]
fn single_robot_is_one_insert() {
    let post = tweet(1, "1) Teabot. Tea.", vec![media("photo", "u", "")]);
    let records = plan_scribe(&post).unwrap();
    let (progress, step) = first_step(&records);
    assert_eq!(progress, Progress::Single);
    assert!(matches!(step, Step::Insert(0)));
    let (progress, step) = next_step(&records, Progress::Single, Ok(1));
    assert_eq!(progress, Progress::Finished);
    match step {
        Step::Finish(Ok(Plural::One(id))) => assert_eq!(id.to_string(), "1/tea"),
        other => panic!("{:?}", other),
    }
    let (_, step) = next_step(&records, Progress::Single, Ok(0));
    match step {
        Step::Finish(Err(NotScribed::InvalidTweet(InvalidTweet::DuplicateRobot(id)))) => {
            assert_eq!(id.to_string(), "1/tea")
        }
        other => panic!("{:?}", other),
    }
    let (_, step) = next_step(&records, Progress::Single, Err(ScribeFailure::DbError("down".to_owned())));
    match step {
        Step::Finish(Err(NotScribed::ScribeFailure(ScribeFailure::DbError(m)))) => assert_eq!(m, "down"),
        other => panic!("{:?}", other),
    }
}

#[test]
fn several_robots_are_one_transaction() {
    let post = tweet(1, "690 - 692) Marybot, Josephbot and Donkeybot. Go.", vec![media("video", "u", "")]);
    let records = plan_scribe(&post).unwrap();
    assert_eq!(records.len(), 3);
    let (progress, step) = first_step(&records);
    assert_eq!(progress, Progress::Opening);
    assert!(matches!(step, Step::Begin));
    let (progress, step) = next_step(&records, progress, Ok(0));
    assert_eq!(progress, Progress::Inserting(0));
    assert!(matches!(step, Step::Insert(0)));
    let (progress, step) = next_step(&records, progress, Ok(1));
    assert_eq!(progress, Progress::Inserting(1));
    assert!(matches!(step, Step::Insert(1)));
    let (duplicate_progress, duplicate) = next_step(&records, progress, Ok(0));
    assert_eq!(duplicate_progress, Progress::Finished);
    match duplicate {
        Step::Finish(Err(NotScribed::InvalidTweet(InvalidTweet::DuplicateRobot(id)))) => {
            assert_eq!(id.to_string(), "691/joseph")
        }
        other => panic!("{:?}", other),
    }
    let (progress, step) = next_step(&records, progress, Ok(1));
    assert_eq!(progress, Progress::Inserting(2));
    assert!(matches!(step, Step::Insert(2)));
    let (progress, step) = next_step(&records, progress, Ok(1));
    assert_eq!(progress, Progress::Committing);
    assert!(matches!(step, Step::Commit));
    let (failed_progress, failed) =
        next_step(&records, progress, Err(ScribeFailure::DbError("commit".to_owned())));
    assert_eq!(failed_progress, Progress::Finished);
    assert!(matches!(failed, Step::Finish(Err(NotScribed::ScribeFailure(ScribeFailure::DbError(_))))));
    let (progress, step) = next_step(&records, progress, Ok(0));
    assert_eq!(progress, Progress::Finished);
    match step {
        Step::Finish(Ok(Plural::Many(ids))) => {
            let names: Vec<String> = ids.iter().map(|id| id.to_string()).collect();
            assert_eq!(names, vec!["690/mary", "691/joseph", "692/donkey"]);
        }
        other => panic!("{:?}", other),
    }
}

#[test]
fn no_records_is_no_robots() {
    let (progress, step) = first_step(&Vec::new());
    assert_eq!(progress, Progress::Finished);
    assert!(matches!(step, Step::Finish(Err(NotScribed::InvalidTweet(InvalidTweet::NoRobots)))));
}

#[test]
fn storing_twice_stores_once() {
    for text in ["1) Teabot. Tea.", "558/9) Salt- and Pepperbots. Bring you salt and pepper."] {
        let post = tweet(1, text, vec![media("photo", "u", "")]);
        let records = plan_scribe(&post).unwrap();
        let mut store = Store::new();
        let first = store.carry_out(&records).unwrap();
        assert_eq!(first.into_vec().len(), records.len());
        let after_first = store.rows.clone();
        assert_eq!(after_first.len(), records.len());
        let second = store.carry_out(&records);
        match second {
            Err(NotScribed::InvalidTweet(InvalidTweet::DuplicateRobot(id))) => {
                assert_eq!(id.number, records[0].ident.number);
                assert_eq!(id.name, records[0].ident.name);
            }
            other => panic!("{:?}", other),
        }
        assert_eq!(store.rows, after_first);
    }
}

#[test]
fn duplicate_in_a_group_stores_none_of_it() {
    let post = tweet(1, "558/9) Salt- and Pepperbots. Bring you salt and pepper.", vec![media("photo", "u", "")]);
    let records = plan_scribe(&post).unwrap();
    let mut store = Store::new();
    store.rows.insert((559, "pepper".to_owned()));
    let before = store.rows.clone();
    match store.carry_out(&records) {
        Err(NotScribed::InvalidTweet(InvalidTweet::DuplicateRobot(id))) => assert_eq!(id.to_string(), "559/pepper"),
        other => panic!("{:?}", other),
    }
    assert_eq!(store.rows, before);
}

#[test]
fn results_of_a_list_of_posts() {
    let mut stored = vec![IdentBuf::new(1, "a".to_owned())];
    let outcome = record_result(
        &mut stored,
        Ok(Plural::Many(vec![IdentBuf::new(2, "b".to_owned()), IdentBuf::new(3, "c".to_owned())])),
    );
    assert!(matches!(outcome, Outcome::Listed));
    let outcome = record_result(&mut stored, Ok(Plural::One(IdentBuf::new(4, "d".to_owned()))));
    assert!(matches!(outcome, Outcome::Listed));
    let outcome = record_result(&mut stored, Ok(Plural::Empty));
    assert!(matches!(outcome, Outcome::Listed));
    let outcome = record_result(&mut stored, Err(NotScribed::InvalidTweet(InvalidTweet::MissingMedia)));
    assert!(matches!(outcome, Outcome::Skipped(InvalidTweet::MissingMedia)));
    let outcome =
        record_result(&mut stored, Err(NotScribed::ScribeFailure(ScribeFailure::TwitterError("429".to_owned()))));
    match outcome {
        Outcome::Aborted(ScribeFailure::TwitterError(m)) => assert_eq!(m, "429"),
        other => panic!("{:?}", other),
    }
    let names: Vec<String> = stored.iter().map(|id| id.to_string()).collect();
    assert_eq!(names, vec!["1/a", "2/b", "3/c", "4/d"]);
}

#[test]
fn robots_of_a_post_are_handed_to_the_handler() {
    let post = tweet(
        u64::MAX,
        "1207) Transrightsbot. Is just here to ...  ",
        vec![media("animated_gif", "https://img/2.gif", "")],
    );
    let found = read_tweet(&post).unwrap();
    assert_eq!(found.tweet_id, -1);
    assert_eq!(found.image_url, "https://img/2.gif");
    assert_eq!(found.body, "Is just here to ...");
    assert_eq!(found.alt, None);
    assert_eq!(found.content_warning, None);
    assert_eq!(found.robots.len(), 1);
    assert_eq!(found.robots[0].number, 1207);
    let count = parse_tweet(&post, |found| found.robots.len() + 10);
    assert_eq!(count, Some(11));
    let none = parse_tweet(&tweet(1, "1207) Transrightsbot.", vec![]), |found| found.robots.len());
    assert_eq!(none, None);
    let none = parse_tweet(&tweet(1, "nothing", vec![media("photo", "u", "")]), |found| found.robots.len());
    assert_eq!(none, None);
}
