//! From a post to the robots that it announces, with what is shown of the
//! post beside them.

use crate::parse::{group_spec, parse_group};
use crate::robot::{robot_views, Robot, RobotView};
use crate::scribe::opt_view;
use crate::text::{trim_end, trim_end_spec};
use crate::timestamp::Timestamp;
use crate::tweet::{alt_spec, alt_text, first_robot_media, select_media, signed, signed_id, Tweet};
use vstd::prelude::*;

verus! {

/// The robots of a post, and the post as it is shown with them.
#[derive(Debug)]
pub struct RobotsTweet<'a> {
    pub tweet_id: i64,
    pub tweet_time: Timestamp,
    pub image_url: &'a str,
    pub body: &'a str,
    pub alt: Option<&'a str>,
    pub content_warning: Option<&'a str>,
    pub robots: Vec<Robot<'a>>,
}

/// The robots of a post as plain text and numbers.
pub struct RobotsTweetView {
    pub tweet_id: int,
    pub tweet_time: Timestamp,
    pub image_url: Seq<char>,
    pub body: Seq<char>,
    pub alt: Option<Seq<char>>,
    pub content_warning: Option<Seq<char>>,
    pub robots: Seq<RobotView>,
}

impl<'a> View for RobotsTweet<'a> {
    type V = RobotsTweetView;

    open spec fn view(&self) -> RobotsTweetView {
        RobotsTweetView {
            tweet_id: self.tweet_id as int,
            tweet_time: self.tweet_time,
            image_url: self.image_url@,
            body: self.body@,
            alt: opt_view(self.alt),
            content_warning: opt_view(self.content_warning),
            robots: robot_views(self.robots@),
        }
    }
}

/// The robots that the text of a post announces, with the first picture or
/// video of the post; none where the text announces no robots or the post
/// has no picture or video.
pub open spec fn robots_tweet_spec(tweet: Tweet) -> Option<RobotsTweetView> {
    match group_spec(tweet.text@) {
        None => None,
        Some(group) => {
            let at = first_robot_media(tweet.media@);
            if at >= tweet.media@.len() {
                None
            } else {
                Some(
                    RobotsTweetView {
                        tweet_id: signed(tweet.id),
                        tweet_time: tweet.created_at,
                        image_url: tweet.media@[at].media_url@,
                        body: trim_end_spec(group.body),
                        alt: alt_spec(tweet.media@[at].alt@),
                        content_warning: group.cw,
                        robots: group.robots,
                    },
                )
            }
        },
    }
}

/// Reads the robots of a post.
pub fn read_tweet<'a>(tweet: &'a Tweet) -> (r: Option<RobotsTweet<'a>>)
    ensures
        match robots_tweet_spec(*tweet) {
            Some(view) => r matches Some(found) && found@ == view,
            None => r is None,
        },
{
    let group = match parse_group(tweet.text.as_str()) {
        Some(group) => group,
        None => {
            return None;
        },
    };
    let body = trim_end(group.body);
    let image = match select_media(&tweet.media) {
        Some(image) => image,
        None => {
            return None;
        },
    };
    Some(
        RobotsTweet {
            tweet_id: signed_id(tweet.id),
            tweet_time: tweet.created_at,
            image_url: image.media_url.as_str(),
            body,
            alt: alt_text(image),
            content_warning: group.cw,
            robots: group.robots,
        },
    )
}

/// Reads the robots of a post and hands them to `handler`; none where the
/// post announces no robots or has no picture or video.
pub fn parse_tweet<'a, F, T>(tweet: &'a Tweet, handler: F) -> (r: Option<T>) where
    F: FnOnce(RobotsTweet<'a>) -> T,

    requires
        forall|found: RobotsTweet<'a>| handler.requires((found,)),
    ensures
        match robots_tweet_spec(*tweet) {
            Some(view) => r matches Some(out) && exists|found: RobotsTweet<'a>|
                found@ == view && handler.ensures((found,), out),
            None => r is None,
        },
{
    match read_tweet(tweet) {
        Some(found) => Some(handler(found)),
        None => None,
    }
}

} // verus!
