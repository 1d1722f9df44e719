use crate::text::{decimal, push_decimal, push_str};
use crate::timestamp::Timestamp;
use vstd::prelude::*;

verus! {

/// The address of a post, up to its id.
pub const LINK_BASE: &'static str = "https://twitter.com/smolrobots/status/";

/// A post that announced robots.
#[derive(Clone, Debug)]
pub struct RobotGroup {
    pub id: i64,
    pub tweet_id: i64,
    pub tweet_time: Timestamp,
    pub image_url: Option<String>,
    pub body: String,
    pub alt: Option<String>,
    pub content_warning: Option<String>,
}

/// The unsigned 64-bit integer with the bits of the signed `n`.
pub open spec fn unsigned(n: i64) -> int {
    if n >= 0 {
        n as int
    } else {
        n + 0x1_0000_0000_0000_0000
    }
}

impl RobotGroup {
    /// The id of the post as an unsigned integer. The database holds the id as
    /// a signed integer with the same bits.
    pub fn u_tweet_id(&self) -> (r: u64)
        ensures
            r == unsigned(self.tweet_id),
    {
        if self.tweet_id >= 0 {
            self.tweet_id as u64
        } else {
            ((self.tweet_id + i64::MAX) + 1) as u64 + 0x8000_0000_0000_0000
        }
    }

    /// The address of the post.
    pub fn tweet_link(&self) -> (r: String)
        ensures
            r@ == LINK_BASE@ + decimal(unsigned(self.tweet_id) as nat),
    {
        let mut link = String::new();
        push_str(&mut link, LINK_BASE);
        push_decimal(&mut link, self.u_tweet_id());
        link
    }
}

/// A robot as the database holds it.
#[derive(Clone, Debug)]
pub struct Robot {
    pub id: i64,
    pub robot_group_id: i64,
    pub robot_number: i32,
    pub prefix: String,
    pub suffix: String,
    pub plural: Option<String>,
    pub ident: String,
}

/// A name in full: prefix, suffix and the plural ending where there is one.
pub open spec fn full_name_spec(prefix: Seq<char>, suffix: Seq<char>, plural: Option<String>) -> Seq<
    char,
> {
    match plural {
        Some(p) => prefix + suffix + p@,
        None => prefix + suffix,
    }
}

/// Writes a name in full.
pub fn write_full_name(prefix: &str, suffix: &str, plural: &Option<String>) -> (r: String)
    ensures
        r@ == full_name_spec(prefix@, suffix@, *plural),
{
    let mut name = String::new();
    push_str(&mut name, prefix);
    push_str(&mut name, suffix);
    match plural {
        Some(p) => {
            push_str(&mut name, p.as_str());
        },
        None => {},
    }
    name
}

impl Robot {
    /// The name of the robot as the post wrote it: the prefix, then the "bot"
    /// suffix, then the plural ending where the name is a plural, as in
    /// Mischiefbots.
    pub fn full_name(&self) -> (r: String)
        ensures
            r@ == full_name_spec(self.prefix@, self.suffix@, self.plural),
    {
        write_full_name(self.prefix.as_str(), self.suffix.as_str(), &self.plural)
    }

    /// The name of the robot in the singular: the prefix and the "bot"
    /// suffix, as in Mischiefbot for Mischiefbots.
    pub fn singular_full_name(&self) -> (r: String)
        ensures
            r@ == self.prefix@ + self.suffix@,
    {
        write_full_name(self.prefix.as_str(), self.suffix.as_str(), &None)
    }
}

/// A tag of a post.
#[derive(Clone, Debug)]
pub struct Tag {
    pub id: i64,
    pub robot_group_id: i64,
    pub tag: String,
}

} // verus!
