//! Storing the robots of a post, each exactly once.
//!
//! Nothing here talks to the database. `plan_scribe` says what is to be
//! stored for a post. `first_step` and `next_step` then say, one step at a
//! time, what to ask of the database, given what it answered to the step
//! before; whoever holds the connection carries the steps out.
//!
//! A post with one robot is stored with a single insert. A post with several
//! is stored in one transaction: a robot that is already in the database
//! ends the work, and the transaction, not being committed, leaves none of
//! the post's robots behind.

use crate::model::IdentBuf;
use crate::parse::{group_spec, parse_group};
use crate::plural::Plural;
use crate::robot::{slug, NameView, Robot};
use crate::text::{decimal_int, push_str, trim, trim_spec};
use crate::timestamp::Timestamp;
use crate::tweet::{
    alt_spec, alt_text, first_robot_media, original, select_media, signed, signed_id,
    tweet_original, Tweet,
};
use vstd::prelude::*;

verus! {

/// A post that is no valid announcement of robots.
#[derive(Debug)]
pub enum InvalidTweet {
    /// The text of the post does not announce robots.
    ParseUnsuccessful,
    /// The post has no picture or video.
    MissingMedia,
    /// The robot is in the database already.
    DuplicateRobot(IdentBuf),
    /// The post announces no robot.
    NoRobots,
}

/// A failure of a service, with its message.
#[derive(Debug)]
pub enum ScribeFailure {
    /// The post service failed.
    TwitterError(String),
    /// The database failed.
    DbError(String),
    /// A task that worked on a part of the posts did not end.
    JoinError(String),
}

/// Why a post was not stored.
#[derive(Debug)]
pub enum NotScribed {
    /// The post is not valid: it is left out and the work goes on.
    InvalidTweet(InvalidTweet),
    /// A service failed: the work ends.
    ScribeFailure(ScribeFailure),
}

impl From<InvalidTweet> for NotScribed {
    fn from(err: InvalidTweet) -> (r: Self) {
        NotScribed::InvalidTweet(err)
    }
}

impl vstd::std_specs::convert::FromSpecImpl<InvalidTweet> for NotScribed {
    open spec fn obeys_from_spec() -> bool {
        true
    }

    open spec fn from_spec(err: InvalidTweet) -> NotScribed {
        NotScribed::InvalidTweet(err)
    }
}

impl From<ScribeFailure> for NotScribed {
    fn from(err: ScribeFailure) -> (r: Self) {
        NotScribed::ScribeFailure(err)
    }
}

impl vstd::std_specs::convert::FromSpecImpl<ScribeFailure> for NotScribed {
    open spec fn obeys_from_spec() -> bool {
        true
    }

    open spec fn from_spec(err: ScribeFailure) -> NotScribed {
        NotScribed::ScribeFailure(err)
    }
}

impl ScribeFailure {
    /// The message of the failure.
    pub fn message(&self) -> (r: &str)
        ensures
            r@ == match self {
                ScribeFailure::TwitterError(m) => m@,
                ScribeFailure::DbError(m) => m@,
                ScribeFailure::JoinError(m) => m@,
            },
    {
        match self {
            ScribeFailure::TwitterError(m) => m.as_str(),
            ScribeFailure::DbError(m) => m.as_str(),
            ScribeFailure::JoinError(m) => m.as_str(),
        }
    }
}

impl InvalidTweet {
    /// The error in words; a duplicate is named by its identity.
    pub fn describe(&self) -> (r: String)
        ensures
            r@ == match self {
                InvalidTweet::ParseUnsuccessful => "could not parse robot data from tweet"@,
                InvalidTweet::MissingMedia => "tweet does not contain media"@,
                InvalidTweet::DuplicateRobot(id) => "robot "@ + decimal_int(
                    id.number as int,
                ) + seq!['/'] + id.name@ + " already exists"@,
                InvalidTweet::NoRobots => "no robots in tweet"@,
            },
    {
        let mut out = String::new();
        match self {
            InvalidTweet::DuplicateRobot(id) => {
                push_str(&mut out, "robot ");
                push_str(&mut out, id.to_string().as_str());
                push_str(&mut out, " already exists");
                assert("robot "@ + (decimal_int(id.number as int) + seq!['/']
                    + id.name@) + " already exists"@ =~= "robot "@ + decimal_int(
                    id.number as int,
                ) + seq!['/'] + id.name@ + " already exists"@);
            },
            _ => {
                push_str(&mut out, self.message());
            },
        }
        out
    }

    /// The message of the error, but for the robot that it names.
    pub fn message(&self) -> (r: &'static str)
        ensures
            r@ == match self {
                InvalidTweet::ParseUnsuccessful => "could not parse robot data from tweet"@,
                InvalidTweet::MissingMedia => "tweet does not contain media"@,
                InvalidTweet::DuplicateRobot(_) => "robot already exists"@,
                InvalidTweet::NoRobots => "no robots in tweet"@,
            },
    {
        match self {
            InvalidTweet::ParseUnsuccessful => "could not parse robot data from tweet",
            InvalidTweet::MissingMedia => "tweet does not contain media",
            InvalidTweet::DuplicateRobot(_) => "robot already exists",
            InvalidTweet::NoRobots => "no robots in tweet",
        }
    }
}

/// What is stored of a post with each of its robots.
#[derive(Clone, Copy, Debug)]
pub struct RobotTweetData<'a> {
    pub tweet_id: i64,
    pub tweet_time: Timestamp,
    pub image_url: &'a str,
    pub body: &'a str,
    pub alt: Option<&'a str>,
    pub cw: Option<&'a str>,
}

/// One robot to store: its identity, its name and the data of its post.
#[derive(Debug)]
pub struct Record<'a> {
    pub ident: IdentBuf,
    pub robot: Robot<'a>,
    pub tweet: RobotTweetData<'a>,
}

/// One robot to store, as plain text and numbers.
pub struct RecordView {
    pub ident: (int, Seq<char>),
    pub name: NameView,
    pub tweet_id: int,
    pub tweet_time: Timestamp,
    pub image_url: Seq<char>,
    pub body: Seq<char>,
    pub alt: Option<Seq<char>>,
    pub cw: Option<Seq<char>>,
}

/// The text of an optional string slice.
pub open spec fn opt_view(s: Option<&str>) -> Option<Seq<char>> {
    match s {
        Some(t) => Some(t@),
        None => None,
    }
}

impl<'a> View for Record<'a> {
    type V = RecordView;

    open spec fn view(&self) -> RecordView {
        RecordView {
            ident: self.ident@,
            name: self.robot.name@,
            tweet_id: self.tweet.tweet_id as int,
            tweet_time: self.tweet.tweet_time,
            image_url: self.tweet.image_url@,
            body: self.tweet.body@,
            alt: opt_view(self.tweet.alt),
            cw: opt_view(self.tweet.cw),
        }
    }
}

/// The views of a list of records.
pub open spec fn record_views(records: Seq<Record>) -> Seq<RecordView> {
    Seq::new(records.len(), |i: int| records[i]@)
}

/// The identities of a list of records.
pub open spec fn identities(records: Seq<Record>) -> Seq<(int, Seq<char>)> {
    Seq::new(records.len(), |i: int| records[i].ident@)
}

/// Why nothing is to be stored for a post.
pub enum Refusal {
    ParseUnsuccessful,
    MissingMedia,
}

/// What is to be stored for a post: one record for each robot that the post,
/// or the post that it reshares, announces, in the order of the robots. Each
/// holds the identity of its robot, which is the robot's number and the slug
/// of its name, and the data of the post with its first picture or video.
/// Nothing is to be stored for a post whose text announces no robot, or one
/// without a picture or video.
pub open spec fn plan_spec(tweet: Tweet) -> Result<Seq<RecordView>, Refusal> {
    let post = original(tweet);
    match group_spec(post.text@) {
        None => Err(Refusal::ParseUnsuccessful),
        Some(group) => {
            let at = first_robot_media(post.media@);
            if group.robots.len() == 0 {
                Err(Refusal::ParseUnsuccessful)
            } else if at >= post.media@.len() {
                Err(Refusal::MissingMedia)
            } else {
                Ok(
                    Seq::new(
                        group.robots.len(),
                        |i: int|
                            RecordView {
                                ident: (group.robots[i].number, slug(group.robots[i].name.prefix)),
                                name: group.robots[i].name,
                                tweet_id: signed(post.id),
                                tweet_time: post.created_at,
                                image_url: post.media@[at].media_url@,
                                body: trim_spec(group.body),
                                alt: alt_spec(post.media@[at].alt@),
                                cw: group.cw,
                            },
                    ),
                )
            }
        },
    }
}

/// The identity of a robot.
pub fn robot_ident(robot: &Robot) -> (r: IdentBuf)
    ensures
        r@ == (robot.number as int, slug(robot.name.prefix@)),
{
    IdentBuf::new(robot.number, robot.name.identifier())
}

/// The record of a robot of a post.
pub fn record_of<'a>(robot: Robot<'a>, tweet: RobotTweetData<'a>) -> (r: Record<'a>)
    ensures
        r.robot == robot,
        r.tweet == tweet,
        r.ident@ == (robot.number as int, slug(robot.name.prefix@)),
{
    Record { ident: robot_ident(&robot), robot, tweet }
}

/// Says what is to be stored for a post.
pub fn plan_scribe<'a>(tweet: &'a Tweet) -> (r: Result<Vec<Record<'a>>, InvalidTweet>)
    ensures
        match plan_spec(*tweet) {
            Ok(records) => r matches Ok(v) && record_views(v@) == records && v.len() >= 1,
            Err(Refusal::ParseUnsuccessful) => r matches Err(InvalidTweet::ParseUnsuccessful),
            Err(Refusal::MissingMedia) => r matches Err(InvalidTweet::MissingMedia),
        },
{
    let post = tweet_original(tweet);
    let group = match parse_group(post.text.as_str()) {
        Some(group) => group,
        None => {
            return Err(InvalidTweet::ParseUnsuccessful);
        },
    };
    if group.robots.len() == 0 {
        return Err(InvalidTweet::ParseUnsuccessful);
    }
    let body = trim(group.body);
    let media = match select_media(&post.media) {
        Some(media) => media,
        None => {
            return Err(InvalidTweet::MissingMedia);
        },
    };
    let data = RobotTweetData {
        tweet_id: signed_id(post.id),
        tweet_time: post.created_at,
        image_url: media.media_url.as_str(),
        body,
        alt: alt_text(media),
        cw: group.cw,
    };
    let ghost wanted = plan_spec(*tweet)->Ok_0;
    let mut records: Vec<Record<'a>> = Vec::new();
    let mut i: usize = 0;
    while i < group.robots.len()
        invariant
            i <= group.robots.len(),
            records.len() == i,
            plan_spec(*tweet) == Ok::<Seq<RecordView>, Refusal>(wanted),
            wanted.len() == group.robots.len(),
            forall|j: int|
                0 <= j < group.robots.len() ==> (#[trigger] wanted[j]) == (RecordView {
                    ident: (group.robots@[j].number as int, slug(group.robots@[j].name.prefix@)),
                    name: group.robots@[j].name@,
                    tweet_id: data.tweet_id as int,
                    tweet_time: data.tweet_time,
                    image_url: data.image_url@,
                    body: data.body@,
                    alt: opt_view(data.alt),
                    cw: opt_view(data.cw),
                }),
            forall|j: int| 0 <= j < i ==> (#[trigger] records@[j])@ == wanted[j],
        decreases group.robots.len() - i,
    {
        let record = record_of(group.robots[i], data);
        assert(record@ == wanted[i as int]);
        records.push(record);
        i = i + 1;
    }
    assert(record_views(records@) =~= wanted);
    Ok(records)
}

/// Where the storing of a post's robots stands.
#[derive(Clone, Copy, Debug, PartialEq, Eq)]
pub enum Progress {
    /// The insert of the only robot is awaited.
    Single,
    /// The start of the transaction is awaited.
    Opening,
    /// The insert of the robot at this index is awaited, in the transaction.
    Inserting(usize),
    /// The commit of the transaction is awaited.
    Committing,
    /// The work has ended.
    Finished,
}

/// What to do next for a post.
#[derive(Debug)]
pub enum Step {
    /// Begin a transaction.
    Begin,
    /// Insert the record at this index, doing nothing where a robot of its
    /// identity is stored already.
    Insert(usize),
    /// Commit the transaction.
    Commit,
    /// End the work with this result. A transaction that was begun and not
    /// committed is rolled back.
    Finish(Result<Plural<IdentBuf>, NotScribed>),
}

/// How the work for a post ends.
pub enum Verdict {
    /// The robots of these identities were stored.
    Stored(Seq<(int, Seq<char>)>),
    /// The robot of this identity was stored already, and none of the post
    /// is stored.
    Duplicate((int, Seq<char>)),
    /// The post announces no robot.
    NoRobots,
    /// The post is no announcement.
    ParseUnsuccessful,
    /// The post has no picture or video.
    MissingMedia,
    /// A service failed.
    Failed(ScribeFailure),
}

/// A step as plain data.
pub enum Move {
    Begin,
    Insert(int),
    Commit,
    Finish(Verdict),
}

/// The identities of a list of identities.
pub open spec fn ident_views(ids: Seq<IdentBuf>) -> Seq<(int, Seq<char>)> {
    Seq::new(ids.len(), |i: int| ids[i]@)
}

/// The result of the work for a post as plain data.
pub open spec fn verdict_of(result: Result<Plural<IdentBuf>, NotScribed>) -> Verdict {
    match result {
        Ok(ids) => Verdict::Stored(ident_views(ids@)),
        Err(NotScribed::InvalidTweet(InvalidTweet::DuplicateRobot(id))) => Verdict::Duplicate(id@),
        Err(NotScribed::InvalidTweet(InvalidTweet::NoRobots)) => Verdict::NoRobots,
        Err(NotScribed::InvalidTweet(InvalidTweet::ParseUnsuccessful)) => Verdict::ParseUnsuccessful,
        Err(NotScribed::InvalidTweet(InvalidTweet::MissingMedia)) => Verdict::MissingMedia,
        Err(NotScribed::ScribeFailure(f)) => Verdict::Failed(f),
    }
}

/// A step as plain data.
pub open spec fn move_of(step: Step) -> Move {
    match step {
        Step::Begin => Move::Begin,
        Step::Insert(k) => Move::Insert(k as int),
        Step::Commit => Move::Commit,
        Step::Finish(result) => Move::Finish(verdict_of(result)),
    }
}

/// Whether the progress is one that the work on `n` records can be in.
pub open spec fn progress_fits(n: nat, progress: Progress) -> bool {
    match progress {
        Progress::Single => n == 1,
        Progress::Opening => n >= 2,
        Progress::Inserting(k) => n >= 2 && k < n,
        Progress::Committing => n >= 2,
        Progress::Finished => false,
    }
}

impl Progress {
    /// Whether the work on `n` records can be in this state, so that an
    /// answer of the database can be taken.
    pub fn fits(&self, n: usize) -> (r: bool)
        ensures
            r == progress_fits(n as nat, *self),
    {
        match self {
            Progress::Single => n == 1,
            Progress::Opening => n >= 2,
            Progress::Inserting(k) => n >= 2 && *k < n,
            Progress::Committing => n >= 2,
            Progress::Finished => false,
        }
    }
}

/// The first step for the robots of these identities: the insert of the only
/// robot, or the start of a transaction for several.
pub open spec fn first_move(ids: Seq<(int, Seq<char>)>) -> (Progress, Move) {
    if ids.len() == 0 {
        (Progress::Finished, Move::Finish(Verdict::NoRobots))
    } else if ids.len() == 1 {
        (Progress::Single, Move::Insert(0))
    } else {
        (Progress::Opening, Move::Begin)
    }
}

/// The step after the database answered the one before: with the number of
/// rows that an insert wrote, or with a failure.
///
/// A failure ends the work. An insert that wrote no row found its robot
/// stored already: the work ends with that robot as a duplicate. After the
/// insert of the only robot the work ends with its identity; in a
/// transaction the next robot is inserted, after the last the transaction is
/// committed, and after the commit the work ends with all the identities.
pub open spec fn next_move(
    ids: Seq<(int, Seq<char>)>,
    progress: Progress,
    answer: Result<u64, ScribeFailure>,
) -> (Progress, Move) {
    match answer {
        Err(failure) => (Progress::Finished, Move::Finish(Verdict::Failed(failure))),
        Ok(rows) => match progress {
            Progress::Single => if rows == 0 {
                (Progress::Finished, Move::Finish(Verdict::Duplicate(ids[0])))
            } else {
                (Progress::Finished, Move::Finish(Verdict::Stored(ids)))
            },
            Progress::Opening => (Progress::Inserting(0), Move::Insert(0)),
            Progress::Inserting(k) => if rows == 0 {
                (Progress::Finished, Move::Finish(Verdict::Duplicate(ids[k as int])))
            } else if k + 1 < ids.len() {
                (Progress::Inserting((k + 1) as usize), Move::Insert(k + 1))
            } else {
                (Progress::Committing, Move::Commit)
            },
            Progress::Committing => (Progress::Finished, Move::Finish(Verdict::Stored(ids))),
            Progress::Finished => (Progress::Finished, Move::Finish(Verdict::NoRobots)),
        },
    }
}

/// The identities of the records, in order.
fn all_idents(records: &Vec<Record>) -> (r: Vec<IdentBuf>)
    ensures
        ident_views(r@) == identities(records@),
{
    let mut ids: Vec<IdentBuf> = Vec::new();
    let mut i: usize = 0;
    while i < records.len()
        invariant
            i <= records.len(),
            ids.len() == i,
            forall|j: int| 0 <= j < i ==> (#[trigger] ids@[j])@ == records@[j].ident@,
        decreases records.len() - i,
    {
        ids.push(records[i].ident.clone());
        i = i + 1;
    }
    assert(ident_views(ids@) =~= identities(records@));
    ids
}

/// The first step for the records of a post.
pub fn first_step(records: &Vec<Record>) -> (r: (Progress, Step))
    ensures
        (r.0, move_of(r.1)) == first_move(identities(records@)),
        !(r.1 is Finish) ==> progress_fits(records@.len(), r.0),
{
    if records.len() == 0 {
        (Progress::Finished, Step::Finish(Err(NotScribed::InvalidTweet(InvalidTweet::NoRobots))))
    } else if records.len() == 1 {
        (Progress::Single, Step::Insert(0))
    } else {
        (Progress::Opening, Step::Begin)
    }
}

/// The step after the database answered the one before.
pub fn next_step(records: &Vec<Record>, progress: Progress, answer: Result<u64, ScribeFailure>) -> (r:
    (Progress, Step))
    requires
        progress_fits(records@.len(), progress),
    ensures
        (r.0, move_of(r.1)) == next_move(identities(records@), progress, answer),
        !(r.1 is Finish) ==> progress_fits(records@.len(), r.0),
        r.1 matches Step::Insert(k) ==> k < records@.len(),
{
    let rows = match answer {
        Err(failure) => {
            return (Progress::Finished, Step::Finish(Err(NotScribed::ScribeFailure(failure))));
        },
        Ok(rows) => rows,
    };
    match progress {
        Progress::Single => {
            let ident = records[0].ident.clone();
            if rows == 0 {
                (
                    Progress::Finished,
                    Step::Finish(Err(NotScribed::InvalidTweet(InvalidTweet::DuplicateRobot(ident)))),
                )
            } else {
                let stored = Plural::One(ident);
                assert(ident_views(stored@) =~= identities(records@));
                (Progress::Finished, Step::Finish(Ok(stored)))
            }
        },
        Progress::Opening => (Progress::Inserting(0), Step::Insert(0)),
        Progress::Inserting(k) => {
            assert(k < records.len());
            if rows == 0 {
                let ident = records[k].ident.clone();
                (
                    Progress::Finished,
                    Step::Finish(Err(NotScribed::InvalidTweet(InvalidTweet::DuplicateRobot(ident)))),
                )
            } else if k + 1 < records.len() {
                (Progress::Inserting(k + 1), Step::Insert(k + 1))
            } else {
                (Progress::Committing, Step::Commit)
            }
        },
        Progress::Committing => {
            let stored = Plural::Many(all_idents(records));
            (Progress::Finished, Step::Finish(Ok(stored)))
        },
        Progress::Finished => (
            Progress::Finished,
            Step::Finish(Err(NotScribed::InvalidTweet(InvalidTweet::NoRobots))),
        ),
    }
}

/// The database as this module sees it: the identities of the robots that
/// it holds and, while a transaction is open, those that it held when the
/// transaction began.
pub struct StoreModel {
    pub rows: Set<(int, Seq<char>)>,
    pub saved: Option<Set<(int, Seq<char>)>>,
}

/// What the database does on a step, and the number of rows that it reports.
/// An insert writes one row, but none where a robot of the same identity is
/// held already.
pub open spec fn store_answer(store: StoreModel, ids: Seq<(int, Seq<char>)>, step: Move) -> (
    StoreModel,
    u64,
) {
    match step {
        Move::Begin => (StoreModel { rows: store.rows, saved: Some(store.rows) }, 0),
        Move::Insert(k) => if store.rows.contains(ids[k]) {
            (store, 0)
        } else {
            (StoreModel { rows: store.rows.insert(ids[k]), saved: store.saved }, 1)
        },
        Move::Commit => (StoreModel { rows: store.rows, saved: None }, 0),
        Move::Finish(_) => (store, 0),
    }
}

/// What the database holds when the work has ended: a transaction that is
/// still open is rolled back.
pub open spec fn settled(store: StoreModel) -> Set<(int, Seq<char>)> {
    match store.saved {
        Some(saved) => saved,
        None => store.rows,
    }
}

/// The end of the work that stands at `step`, against a database that does
/// not fail: what the database then holds, and the verdict.
pub open spec fn run(
    ids: Seq<(int, Seq<char>)>,
    progress: Progress,
    step: Move,
    store: StoreModel,
    fuel: nat,
) -> (Set<(int, Seq<char>)>, Verdict)
    decreases fuel,
{
    match step {
        Move::Finish(verdict) => (settled(store), verdict),
        _ => if fuel == 0 {
            (settled(store), Verdict::NoRobots)
        } else {
            let (after, rows) = store_answer(store, ids, step);
            let (progress, step) = next_move(ids, progress, Ok(rows));
            run(ids, progress, step, after, (fuel - 1) as nat)
        },
    }
}

/// What storing the robots of these identities does to a database that holds
/// `rows` and does not fail: what it holds afterwards, and the verdict.
pub open spec fn scribe_effect(ids: Seq<(int, Seq<char>)>, rows: Set<(int, Seq<char>)>) -> (
    Set<(int, Seq<char>)>,
    Verdict,
) {
    let (progress, step) = first_move(ids);
    run(ids, progress, step, StoreModel { rows, saved: None }, ids.len() + 3)
}

/// The rows of a database that held `rows` after the first `k` of `ids` were
/// inserted.
pub open spec fn with_first(rows: Set<(int, Seq<char>)>, ids: Seq<(int, Seq<char>)>, k: int) -> Set<
    (int, Seq<char>),
> {
    Set::new(|id: (int, Seq<char>)| rows.contains(id) || exists|j: int| 0 <= j < k && ids[j] == id)
}

/// In a transaction, from the insert of the robot at `k` on: the work ends
/// with all the robots stored, or with a duplicate and the database as it
/// was when the transaction began.
proof fn lemma_run_inserting(
    ids: Seq<(int, Seq<char>)>,
    rows: Set<(int, Seq<char>)>,
    k: int,
    fuel: nat,
)
    requires
        2 <= ids.len() <= usize::MAX,
        0 <= k < ids.len(),
        fuel >= ids.len() - k + 2,
    ensures
        ({
            let end = run(
                ids,
                Progress::Inserting(k as usize),
                Move::Insert(k),
                StoreModel { rows: with_first(rows, ids, k), saved: Some(rows) },
                fuel,
            );
            ||| end == (with_first(rows, ids, ids.len() as int), Verdict::Stored(ids))
            ||| end.0 == rows && end.1 is Duplicate
        }),
    decreases ids.len() - k,
{
    reveal_with_fuel(run, 3);
    let store = StoreModel { rows: with_first(rows, ids, k), saved: Some(rows) };
    let (after, n) = store_answer(store, ids, Move::Insert(k));
    let (progress, step) = next_move(ids, Progress::Inserting(k as usize), Ok(n));
    let end = run(ids, Progress::Inserting(k as usize), Move::Insert(k), store, fuel);
    assert(end == run(ids, progress, step, after, (fuel - 1) as nat));
    if n == 0 {
        assert(step == Move::Finish(Verdict::Duplicate(ids[k])));
        assert(end.0 == rows);
    } else {
        assert(after.rows =~= with_first(rows, ids, k + 1)) by {
            assert forall|id: (int, Seq<char>)| after.rows.contains(id) <==> with_first(
                rows,
                ids,
                k + 1,
            ).contains(id) by {
                if with_first(rows, ids, k + 1).contains(id) && !rows.contains(id) {
                    let j = choose|j: int| 0 <= j < k + 1 && ids[j] == id;
                    if j < k {
                        assert(with_first(rows, ids, k).contains(id));
                    }
                }
                if after.rows.contains(id) && !with_first(rows, ids, k).contains(id) {
                    assert(ids[k] == id);
                }
            }
        }
        assert(after == StoreModel { rows: with_first(rows, ids, k + 1), saved: Some(rows) });
        if k + 1 < ids.len() {
            assert(progress == Progress::Inserting((k + 1) as usize));
            assert(step == Move::Insert(k + 1));
            lemma_run_inserting(ids, rows, k + 1, (fuel - 1) as nat);
        } else {
            assert(step == Move::Commit);
            assert(end == (with_first(rows, ids, ids.len() as int), Verdict::Stored(ids)));
        }
    }
}

/// Storing robots stores them all, or leaves the database as it was.
pub proof fn lemma_scribe_effect(ids: Seq<(int, Seq<char>)>, rows: Set<(int, Seq<char>)>)
    requires
        ids.len() <= usize::MAX,
    ensures
        ({
            let end = scribe_effect(ids, rows);
            ||| end == (with_first(rows, ids, ids.len() as int), Verdict::Stored(ids))
                && ids.len() >= 1
            ||| end.0 == rows && !(end.1 is Stored)
        }),
        ids.len() >= 1 && rows.contains(ids[0]) ==> scribe_effect(ids, rows) == (
            rows,
            Verdict::Duplicate(ids[0]),
        ),
{
    let start = StoreModel { rows, saved: None };
    if ids.len() == 1 {
        let (after, n) = store_answer(start, ids, Move::Insert(0));
        let (progress, step) = next_move(ids, Progress::Single, Ok(n));
        assert(scribe_effect(ids, rows) == run(ids, progress, step, after, 3));
        if n != 0 {
            assert(after.rows =~= with_first(rows, ids, 1)) by {
                assert forall|id: (int, Seq<char>)| after.rows.contains(id) <==> with_first(
                    rows,
                    ids,
                    1,
                ).contains(id) by {
                    if with_first(rows, ids, 1).contains(id) && !rows.contains(id) {
                        let j = choose|j: int| 0 <= j < 1 && ids[j] == id;
                    }
                    if after.rows.contains(id) && !rows.contains(id) {
                        assert(ids[0] == id);
                    }
                }
            }
        }
    } else if ids.len() >= 2 {
        let begun = StoreModel { rows, saved: Some(rows) };
        assert(begun.rows =~= with_first(rows, ids, 0));
        assert(scribe_effect(ids, rows) == run(
            ids,
            Progress::Inserting(0),
            Move::Insert(0),
            begun,
            (ids.len() + 2) as nat,
        )) by {
            reveal_with_fuel(run, 3);
        }
        lemma_run_inserting(ids, rows, 0, (ids.len() + 2) as nat);
        if rows.contains(ids[0]) {
            reveal_with_fuel(run, 3);
        }
    }
}

/// Storing the robots of a post a second time changes nothing in the
/// database, and where the first time stored them, the second ends with the
/// first robot as a duplicate.
pub proof fn law_scribe_twice(ids: Seq<(int, Seq<char>)>, rows: Set<(int, Seq<char>)>)
    requires
        1 <= ids.len() <= usize::MAX,
    ensures
        ({
            let first = scribe_effect(ids, rows);
            let second = scribe_effect(ids, first.0);
            &&& second.0 == first.0
            &&& first.1 is Stored ==> second.1 == Verdict::Duplicate(ids[0])
        }),
{
    let first = scribe_effect(ids, rows);
    lemma_scribe_effect(ids, rows);
    lemma_scribe_effect(ids, first.0);
    if first.1 is Stored {
        assert(with_first(rows, ids, ids.len() as int).contains(ids[0]));
    }
}

/// What the work on a list of posts does with the result for one of them.
#[derive(Debug)]
pub enum Outcome {
    /// The robots of the post were stored and are now on the list.
    Listed,
    /// The post was not valid and is left out; the work goes on.
    Skipped(InvalidTweet),
    /// A service failed; the work on the list ends.
    Aborted(ScribeFailure),
}

/// Takes the result for one post of a list: the identities of its robots are
/// added to `stored`; a post that is not valid is left out; a failure ends
/// the work.
pub fn record_result(stored: &mut Vec<IdentBuf>, result: Result<Plural<IdentBuf>, NotScribed>) -> (r:
    Outcome)
    ensures
        match result {
            Ok(ids) => r is Listed && final(stored)@ == old(stored)@ + ids@,
            Err(NotScribed::InvalidTweet(reason)) => r == Outcome::Skipped(reason)
                && final(stored)@ == old(stored)@,
            Err(NotScribed::ScribeFailure(failure)) => r == Outcome::Aborted(failure)
                && final(stored)@ == old(stored)@,
        },
{
    match result {
        Ok(ids) => {
            let mut more = ids.into_vec();
            stored.append(&mut more);
            Outcome::Listed
        },
        Err(NotScribed::InvalidTweet(reason)) => Outcome::Skipped(reason),
        Err(NotScribed::ScribeFailure(failure)) => Outcome::Aborted(failure),
    }
}

} // verus!
