//! Posts as the post service gives them.

use crate::text::{str_eq, trim, trim_spec};
use crate::timestamp::Timestamp;
use vstd::prelude::*;

verus! {

/// Something attached to a post.
#[derive(Clone, Debug)]
pub struct Media {
    /// The kind of the attachment, such as "photo".
    pub media_type: String,
    pub media_url: String,
    /// The description of the attachment; empty where it has none.
    pub alt: String,
}

/// The author of a post.
#[derive(Clone, Debug)]
pub struct User {
    pub id: u64,
    /// The handle of the user, without the `@`.
    pub handle: String,
}

/// A post.
#[derive(Debug)]
pub struct Tweet {
    pub id: u64,
    pub created_at: Timestamp,
    /// The text of the post, without the addresses of links and attachments.
    pub text: String,
    pub media: Vec<Media>,
    pub user: User,
    /// The post that this one shares again, where it is a reshare.
    pub retweeted: Option<Box<Tweet>>,
}

/// The post that a post shares, through every reshare: the post itself where
/// it is no reshare.
pub open spec fn original(tweet: Tweet) -> Tweet
    decreases tweet,
{
    match tweet.retweeted {
        Some(shared) => original(*shared),
        None => tweet,
    }
}

/// The post that a post shares, through every reshare.
pub fn tweet_original(tweet: &Tweet) -> (r: &Tweet)
    ensures
        *r == original(*tweet),
        r.retweeted is None,
    decreases tweet,
{
    match &tweet.retweeted {
        Some(shared) => tweet_original(shared),
        None => tweet,
    }
}

/// Whether an attachment of this kind can show a robot: a photo, an animated
/// image or a video.
pub open spec fn valid_robot_media(media_type: Seq<char>) -> bool {
    media_type == "photo"@ || media_type == "animated_gif"@ || media_type == "video"@
}

/// Whether the attachment can show a robot.
pub fn is_valid_robot_media(media: &Media) -> (r: bool)
    ensures
        r == valid_robot_media(media.media_type@),
{
    let kind = media.media_type.as_str();
    str_eq(kind, "photo") || str_eq(kind, "animated_gif") || str_eq(kind, "video")
}

/// The index of the first attachment that can show a robot, or the number of
/// attachments where none can.
pub open spec fn first_robot_media(media: Seq<Media>) -> int
    decreases media.len(),
{
    if media.len() == 0 || valid_robot_media(media[0].media_type@) {
        0
    } else {
        1 + first_robot_media(media.drop_first())
    }
}

/// The first attachment that can show a robot.
pub fn select_media(media: &Vec<Media>) -> (r: Option<&Media>)
    ensures
        0 <= first_robot_media(media@) <= media@.len(),
        match r {
            Some(m) => first_robot_media(media@) < media@.len() && *m == media@[first_robot_media(
                media@,
            )],
            None => first_robot_media(media@) == media@.len(),
        },
{
    let mut i: usize = 0;
    assert(media@.skip(0) =~= media@);
    while i < media.len()
        invariant
            i <= media.len(),
            first_robot_media(media@) == i + first_robot_media(media@.skip(i as int)),
        decreases media.len() - i,
    {
        proof {
            let t = media@.skip(i as int);
            assert(t[0] == media@[i as int]);
            assert(t.drop_first() =~= media@.skip(i + 1));
        }
        if is_valid_robot_media(&media[i]) {
            return Some(&media[i]);
        }
        i = i + 1;
    }
    None
}

/// The description of an attachment without the whitespace around it, or
/// none where nothing is left.
pub open spec fn alt_spec(alt: Seq<char>) -> Option<Seq<char>> {
    if trim_spec(alt).len() == 0 {
        None
    } else {
        Some(trim_spec(alt))
    }
}

/// The description of the attachment, where it has one.
pub fn alt_text(media: &Media) -> (r: Option<&str>)
    ensures
        match alt_spec(media.alt@) {
            Some(a) => r matches Some(x) && x@ == a,
            None => r is None,
        },
{
    let alt = trim(media.alt.as_str());
    if alt.is_empty() {
        None
    } else {
        Some(alt)
    }
}

/// The signed 64-bit integer with the bits of the unsigned `n`: the form in
/// which the database holds the id of a post.
pub open spec fn signed(n: u64) -> int {
    if n <= i64::MAX {
        n as int
    } else {
        n - 0x1_0000_0000_0000_0000
    }
}

/// The id of a post in the form in which the database holds it.
pub fn signed_id(id: u64) -> (r: i64)
    ensures
        r == signed(id),
{
    if id <= 0x7fff_ffff_ffff_ffff {
        id as i64
    } else {
        ((id - 0x8000_0000_0000_0000) as i64 - 0x7fff_ffff_ffff_ffff) - 1
    }
}

} // verus!
