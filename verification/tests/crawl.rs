use smolbotbot::fetch::{batches, chunks, merge_answers, request_chunks, unique_sorted, TWEETS_PER_REQUEST};
use smolbotbot::model::IdentBuf;
use smolbotbot::scribe::ScribeFailure;
use smolbotbot::timeline::{
    handles_eq, original_ids, strip_at, survivors, user_matches_identifier, Crawl, UserIdentifier,
};
use smolbotbot::timestamp::Timestamp;
use smolbotbot::tweet::{Tweet, User};
use std::collections::HashSet;

fn tweet(id: u64, handle: &str, user_id: u64) -> Tweet {
    Tweet {
        id,
        created_at: Timestamp { seconds: 0, nanos: 0 },
        text: String::new(),
        media: Vec::new(),
        user: User { id: user_id, handle: handle.to_owned() },
        retweeted: None,
    }
}

fn reshare(id: u64, of: Tweet) -> Tweet {
    Tweet { retweeted: Some(Box::new(of)), ..tweet(id, "smolrobots", 1) }
}

#[test]
fn ids_are_sorted_and_unique() {
    assert_eq!(unique_sorted(&[5, 3, 5, 1, 3, 3, 9]), vec![1, 3, 5, 9]);
    assert_eq!(unique_sorted(&[]), Vec::<u64>::new());
    assert_eq!(unique_sorted(&[7]), vec![7]);
    assert_eq!(unique_sorted(&[2, 2, 2]), vec![2]);
    assert_eq!(unique_sorted(&[u64::MAX, 0]), vec![0, u64::MAX]);
}

#[test]
fn chunks_are_full_but_the_last() {
    let ids: Vec<u64> = (0..250).collect();
    let cut = chunks(&ids, 100);
    assert_eq!(cut.len(), 3);
    assert_eq!(cut[0], (0..100).collect::<Vec<u64>>());
    assert_eq!(cut[1], (100..200).collect::<Vec<u64>>());
    assert_eq!(cut[2], (200..250).collect::<Vec<u64>>());
    assert_eq!(chunks(&ids[..200], 100).len(), 2);
    assert_eq!(chunks(&ids[..1], 100), vec![vec![0]]);
    assert_eq!(chunks(&[], 100), Vec::<Vec<u64>>::new());
    assert_eq!(chunks(&[1, 2, 3], 1), vec![vec![1], vec![2], vec![3]]);
    assert_eq!(chunks(&[1, 2, 3], usize::MAX), vec![vec![1, 2, 3]]);
}

#[test]
fn requests_hold_a_hundred_ids_at_most() {
    assert_eq!(TWEETS_PER_REQUEST, 100);
    let mut ids: Vec<u64> = (0..230).rev().collect();
    ids.extend(0..230);
    let requests = request_chunks(&ids);
    let sizes: Vec<usize> = requests.iter().map(|r| r.len()).collect();
    assert_eq!(sizes, vec![100, 100, 30]);
    let all: Vec<u64> = requests.into_iter().flatten().collect();
    assert_eq!(all, (0..230).collect::<Vec<u64>>());
}

#[test]
fn batches_keep_the_order_of_the_ids() {
    assert_eq!(batches(&[3, 1, 2, 1, 5], Some(2)), vec![vec![3, 1], vec![2, 1], vec![5]]);
    assert_eq!(batches(&[3, 1, 2], None), vec![vec![3, 1, 2]]);
    assert_eq!(batches(&[], None), vec![Vec::<u64>::new()]);
    assert_eq!(batches(&[], Some(4)), Vec::<Vec<u64>>::new());
}

#[test]
fn one_failure_fails_the_call() {
    let id = |n: i32| IdentBuf::new(n, format!("n{}", n));
    let merged = merge_answers(vec![Ok(vec![id(1), id(2)]), Ok(vec![]), Ok(vec![id(3)])]).unwrap();
    let names: Vec<String> = merged.iter().map(|i| i.to_string()).collect();
    assert_eq!(names, vec!["1/n1", "2/n2", "3/n3"]);
    assert!(merge_answers(vec![]).unwrap().is_empty());
    let failed = merge_answers(vec![
        Ok(vec![id(1)]),
        Err(ScribeFailure::TwitterError("first".to_owned())),
        Ok(vec![id(2)]),
        Err(ScribeFailure::JoinError("second".to_owned())),
    ]);
    match failed {
        Err(ScribeFailure::TwitterError(m)) => assert_eq!(m, "first"),
        other => panic!("{:?}", other),
    }
}

#[test]
fn handles_ignore_ascii_case() {
    assert!(handles_eq("smolrobots", "SmolRobots"));
    assert!(handles_eq("", ""));
    assert!(handles_eq("A_z9", "a_Z9"));
    assert!(!handles_eq("smolrobots", "smolrobot"));
    assert!(!handles_eq("smolrobots", "smolrobotz"));
    assert!(!handles_eq("a", ""));
    assert!(!handles_eq("\u{e9}", "\u{c9}"));
    assert!(!handles_eq("[", "{"));
    assert!(!handles_eq("@", "`"));
    assert!(handles_eq("\u{e9}a", "\u{e9}A"));
}

#[test]
fn users_match_by_id_or_handle() {
    let user = User { id: 42, handle: "SmolRobots".to_owned() };
    assert!(user_matches_identifier(&user, &UserIdentifier::Id(42)));
    assert!(!user_matches_identifier(&user, &UserIdentifier::Id(43)));
    assert!(user_matches_identifier(&user, &UserIdentifier::Handle("smolrobots".to_owned())));
    assert!(!user_matches_identifier(&user, &UserIdentifier::Handle("other".to_owned())));
    assert_eq!(strip_at("@smolrobots"), "smolrobots");
    assert_eq!(strip_at("smolrobots"), "smolrobots");
    assert_eq!(strip_at("smol@robots"), "smol@robots");
    assert_eq!(strip_at("@"), "");
    assert_eq!(strip_at(""), "");
    assert_eq!(strip_at("@@x"), "@x");
}

#[test]
fn only_new_posts_of_the_user_survive() {
    let page = vec![
        tweet(10, "smolrobots", 1),
        tweet(9, "someone", 2),
        reshare(8, tweet(3, "someone", 2)),
        reshare(7, tweet(4, "SMOLROBOTS", 1)),
        tweet(0, "smolrobots", 1),
        tweet(6, "smolrobots", 1),
        reshare(5, tweet(2, "smolrobots", 1)),
    ];
    let known: HashSet<u64> = [6, 2].into_iter().collect();
    let user = UserIdentifier::Handle("smolrobots".to_owned());
    let kept: Vec<u64> = survivors(&page, &known, &user).iter().map(|t| t.id).collect();
    assert_eq!(kept, vec![10, 7]);
    let by_id: Vec<u64> = survivors(&page, &HashSet::new(), &UserIdentifier::Id(2)).iter().map(|t| t.id).collect();
    assert_eq!(by_id, vec![9, 8]);
    assert_eq!(original_ids(&page), vec![10, 9, 3, 4, 0, 6, 2]);
    assert!(survivors(&Vec::new(), &known, &user).is_empty());
}

#[test]
fn crawl_moves_the_cursor_below_each_page() {
    let mut crawl = Crawl::new(3);
    assert_eq!(crawl.request(), Some(None));
    crawl.receive(&vec![tweet(50, "a", 1), tweet(48, "a", 1), tweet(0, "a", 1), tweet(49, "a", 1)]);
    assert_eq!(crawl, Crawl { cursor: Some(47), pages_remaining: 2, exhausted: false });
    assert_eq!(crawl.request(), Some(Some(47)));
    crawl.receive(&vec![tweet(1, "a", 1)]);
    assert_eq!(crawl, Crawl { cursor: Some(0), pages_remaining: 1, exhausted: false });
    assert_eq!(crawl.request(), Some(Some(0)));
    crawl.receive(&vec![tweet(20, "a", 1)]);
    assert_eq!(crawl.pages_remaining, 0);
    assert_eq!(crawl.request(), None);
}

#[test]
fn crawl_ends_at_an_empty_page() {
    let mut crawl = Crawl::new(5);
    crawl.receive(&vec![tweet(50, "a", 1)]);
    crawl.receive(&Vec::new());
    assert_eq!(crawl, Crawl { cursor: Some(49), pages_remaining: 4, exhausted: true });
    assert_eq!(crawl.request(), None);
    let mut crawl = Crawl::new(5);
    crawl.receive(&vec![tweet(0, "a", 1)]);
    assert!(crawl.exhausted);
    assert_eq!(crawl.request(), None);
    assert_eq!(Crawl::new(0).request(), None);
}

#[test]
fn long_lists_of_ids_are_cut() {
    let mut ids: Vec<u64> = (0..100_000u64).map(|i| i * 7919 % 50_000).collect();
    ids.push(u64::MAX);
    let requests = request_chunks(&ids);
    assert_eq!(requests.len(), 501);
    assert!(requests[..500].iter().all(|r| r.len() == 100));
    assert_eq!(requests[500], vec![u64::MAX]);
    let all: Vec<u64> = requests.into_iter().flatten().collect();
    assert!(all.windows(2).all(|w| w[0] < w[1]));
    assert_eq!(all.len(), 50_001);
}
