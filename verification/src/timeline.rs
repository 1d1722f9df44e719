//! Reading a user's timeline page by page, from the newest post back.
//!
//! A crawl keeps a cursor, the id below which the next page is asked for,
//! and the number of pages that it may still ask for. Of each page only the
//! user's own posts that the database does not know yet are handed on.

use crate::text::{chars_of, lemma_first_index, split_once_char};
use crate::tweet::{original, signed, signed_id, tweet_original, Tweet, User};
use std::collections::HashSet;
use vstd::prelude::*;

verus! {

/// Who a timeline belongs to: a user by id, or by handle.
#[derive(Clone, Debug)]
pub enum UserIdentifier {
    Id(u64),
    Handle(String),
}

/// The character in lowercase where it is an ASCII capital, else as it is.
pub open spec fn ascii_lower(c: char) -> char {
    if 'A' <= c <= 'Z' {
        ((c as u32 + 32) as u8) as char
    } else {
        c
    }
}

/// The text with its ASCII capitals in lowercase.
pub open spec fn ascii_lowercase(s: Seq<char>) -> Seq<char> {
    Seq::new(s.len(), |i: int| ascii_lower(s[i]))
}

/// Whether two handles are the same but for the case of their ASCII
/// letters.
pub open spec fn same_handle(l: Seq<char>, r: Seq<char>) -> bool {
    ascii_lowercase(l) == ascii_lowercase(r)
}

/// The character in lowercase where it is an ASCII capital.
fn to_ascii_lower(c: char) -> (r: char)
    ensures
        r == ascii_lower(c),
{
    if c >= 'A' && c <= 'Z' {
        ((c as u32 + 32) as u8) as char
    } else {
        c
    }
}

/// Whether two handles are equal, the case of ASCII letters apart.
pub fn handles_eq(handle_l: &str, handle_r: &str) -> (r: bool)
    ensures
        r == same_handle(handle_l@, handle_r@),
{
    let l = chars_of(handle_l);
    let r = chars_of(handle_r);
    if l.len() != r.len() {
        assert(ascii_lowercase(l@).len() != ascii_lowercase(r@).len());
        return false;
    }
    let mut i: usize = 0;
    while i < l.len()
        invariant
            i <= l.len(),
            l.len() == r.len(),
            l@ == handle_l@,
            r@ == handle_r@,
            forall|j: int| 0 <= j < i ==> ascii_lower(l@[j]) == ascii_lower(r@[j]),
        decreases l.len() - i,
    {
        if to_ascii_lower(l[i]) != to_ascii_lower(r[i]) {
            assert(ascii_lowercase(l@)[i as int] != ascii_lowercase(r@)[i as int]);
            return false;
        }
        i = i + 1;
    }
    assert(ascii_lowercase(l@) =~= ascii_lowercase(r@));
    true
}

/// Whether the identifier names the user.
pub open spec fn user_matches(user: User, identifier: UserIdentifier) -> bool {
    match identifier {
        UserIdentifier::Id(id) => user.id == id,
        UserIdentifier::Handle(handle) => same_handle(user.handle@, handle@),
    }
}

/// Whether the identifier, an id or a handle, names the user.
pub fn user_matches_identifier(user: &User, identifier: &UserIdentifier) -> (r: bool)
    ensures
        r == user_matches(*user, *identifier),
{
    match identifier {
        UserIdentifier::Id(id) => user.id == *id,
        UserIdentifier::Handle(handle) => handles_eq(user.handle.as_str(), handle.as_str()),
    }
}

/// Whether a post of a page is handed on: its id is well-formed, the post
/// that it shares, or the post itself, is the user's own, and the database
/// does not know that post.
pub open spec fn survives(tweet: Tweet, known: Set<u64>, user: UserIdentifier) -> bool {
    &&& tweet.id > 0
    &&& user_matches(original(tweet).user, user)
    &&& !known.contains(original(tweet).id)
}

/// The posts of a page that are handed on, in the order of the page.
pub open spec fn survivors_spec(page: Seq<Tweet>, known: Set<u64>, user: UserIdentifier) -> Seq<
    Tweet,
>
    decreases page.len(),
{
    if page.len() == 0 {
        Seq::empty()
    } else if survives(page.last(), known, user) {
        survivors_spec(page.drop_last(), known, user).push(page.last())
    } else {
        survivors_spec(page.drop_last(), known, user)
    }
}

/// The posts that the references point to.
pub open spec fn pointees(refs: Seq<&Tweet>) -> Seq<Tweet> {
    Seq::new(refs.len(), |i: int| *refs[i])
}

/// The ids, in the form of the database, of the posts that the posts of a
/// page share: what the database is asked about before the page is worked
/// on.
pub fn original_ids(page: &Vec<Tweet>) -> (r: Vec<i64>)
    ensures
        r@.len() == page@.len(),
        forall|i: int| 0 <= i < r@.len() ==> r@[i] == signed(original(page@[i]).id),
{
    let mut ids: Vec<i64> = Vec::new();
    let mut i: usize = 0;
    while i < page.len()
        invariant
            i <= page.len(),
            ids@.len() == i,
            forall|j: int| 0 <= j < i ==> ids@[j] == signed(original(page@[j]).id),
        decreases page.len() - i,
    {
        ids.push(signed_id(tweet_original(&page[i]).id));
        i = i + 1;
    }
    ids
}

/// The posts of a page that are handed on, given the ids of the posts that
/// the database knows.
pub fn survivors<'a>(page: &'a Vec<Tweet>, known: &HashSet<u64>, user: &UserIdentifier) -> (r: Vec<
    &'a Tweet,
>)
    ensures
        pointees(r@) == survivors_spec(page@, known@, *user),
{
    broadcast use vstd::std_specs::hash::group_hash_axioms;

    let mut kept: Vec<&'a Tweet> = Vec::new();
    let mut i: usize = 0;
    assert(pointees(kept@) =~= survivors_spec(page@.take(0), known@, *user));
    while i < page.len()
        invariant
            i <= page.len(),
            pointees(kept@) == survivors_spec(page@.take(i as int), known@, *user),
        decreases page.len() - i,
    {
        let tweet = &page[i];
        let source = tweet_original(tweet);
        proof {
            let t = page@.take(i + 1);
            assert(t.last() == *tweet);
            assert(t.drop_last() =~= page@.take(i as int));
        }
        let ghost before = pointees(kept@);
        if tweet.id > 0 && user_matches_identifier(&source.user, user) && !known.contains(
            &source.id,
        ) {
            kept.push(tweet);
            assert(pointees(kept@) =~= before.push(*tweet));
        }
        i = i + 1;
    }
    assert(page@.take(page.len() as int) =~= page@);
    kept
}

/// Where a crawl stands.
#[derive(Clone, Copy, Debug, PartialEq, Eq)]
pub struct Crawl {
    /// The largest id that the next page may hold; none before the first
    /// page, which starts at the newest post.
    pub cursor: Option<u64>,
    /// The number of pages that may still be asked for.
    pub pages_remaining: usize,
    /// Whether the timeline gave a page from which the crawl cannot go on.
    pub exhausted: bool,
}

/// The smallest well-formed id among the posts, or zero where none of them
/// has a well-formed id.
pub open spec fn least_id(page: Seq<Tweet>) -> u64
    decreases page.len(),
{
    if page.len() == 0 {
        0
    } else {
        let rest = least_id(page.drop_last());
        let id = page.last().id;
        if id > 0 && (rest == 0 || id < rest) {
            id
        } else {
            rest
        }
    }
}

/// The smallest well-formed id of a page is the id of one of its posts and
/// no well-formed id of the page is smaller; it is zero only where no id of
/// the page is well-formed.
pub proof fn lemma_least_id(page: Seq<Tweet>)
    ensures
        forall|i: int| 0 <= i < page.len() && (#[trigger] page[i]).id > 0 ==> 0 < least_id(page) <= page[i].id,
        least_id(page) > 0 ==> exists|i: int| 0 <= i < page.len() && (#[trigger] page[i]).id == least_id(page),
    decreases page.len(),
{
    if page.len() > 0 {
        let rest = page.drop_last();
        lemma_least_id(rest);
        assert forall|i: int| 0 <= i < page.len() && (#[trigger] page[i]).id > 0 implies 0
            < least_id(page) <= page[i].id by {
            if i < rest.len() {
                assert(rest[i] == page[i]);
            }
        }
        if least_id(page) > 0 {
            if least_id(page) == page.last().id {
                assert(page[page.len() - 1].id == least_id(page));
            } else {
                let i = choose|i: int| 0 <= i < rest.len() && (#[trigger] rest[i]).id == least_id(rest);
                assert(page[i].id == least_id(page));
            }
        }
    }
}

/// Where the crawl stands after a page.
///
/// An empty page, or one without a well-formed id, exhausts the timeline.
/// After any other page the cursor stands just below the smallest
/// well-formed id of the page, so that the next page holds none of its
/// posts again, and one page fewer is left.
pub open spec fn after_page(crawl: Crawl, page: Seq<Tweet>) -> Crawl {
    if least_id(page) == 0 {
        Crawl { exhausted: true, ..crawl }
    } else {
        Crawl {
            cursor: Some((least_id(page) - 1) as u64),
            pages_remaining: (crawl.pages_remaining - 1) as usize,
            exhausted: false,
        }
    }
}

impl Crawl {
    /// A crawl of `pages` pages at most, from the newest post on.
    pub fn new(pages: usize) -> (r: Crawl)
        ensures
            r == (Crawl { cursor: None, pages_remaining: pages, exhausted: false }),
    {
        Crawl { cursor: None, pages_remaining: pages, exhausted: false }
    }

    /// Whether the crawl has ended: no page is left to ask for, or the
    /// timeline is exhausted.
    pub open spec fn ended(&self) -> bool {
        self.pages_remaining == 0 || self.exhausted
    }

    /// The page to ask for next: none where the crawl has ended, else the
    /// cursor, which is none for the newest page.
    pub fn request(&self) -> (r: Option<Option<u64>>)
        ensures
            r == if self.ended() {
                None
            } else {
                Some(self.cursor)
            },
    {
        if self.pages_remaining == 0 || self.exhausted {
            None
        } else {
            Some(self.cursor)
        }
    }

    /// Takes the page that was asked for and moves the cursor below it.
    pub fn receive(&mut self, page: &Vec<Tweet>)
        requires
            !old(self).ended(),
        ensures
            *final(self) == after_page(*old(self), page@),
            final(self).pages_remaining <= old(self).pages_remaining,
            !final(self).exhausted ==> final(self).pages_remaining < old(self).pages_remaining,
            !final(self).exhausted ==> forall|i: int|
                0 <= i < page@.len() && (#[trigger] page@[i]).id > 0 ==> final(self).cursor->0
                    < page@[i].id,
    {
        let mut least: u64 = 0;
        let mut i: usize = 0;
        assert(page@.take(0) =~= Seq::<Tweet>::empty());
        while i < page.len()
            invariant
                i <= page.len(),
                least == least_id(page@.take(i as int)),
            decreases page.len() - i,
        {
            let id = page[i].id;
            proof {
                let t = page@.take(i + 1);
                assert(t.last() == page@[i as int]);
                assert(t.drop_last() =~= page@.take(i as int));
            }
            if id > 0 && (least == 0 || id < least) {
                least = id;
            }
            i = i + 1;
        }
        assert(page@.take(page.len() as int) =~= page@);
        proof {
            lemma_least_id(page@);
        }
        if least == 0 {
            self.exhausted = true;
        } else {
            self.cursor = Some(least - 1);
            self.pages_remaining = self.pages_remaining - 1;
        }
    }
}

/// The handle without the `@` in front of it, where it has one.
pub fn strip_at(handle: &str) -> (r: &str)
    ensures
        r@ == if handle@.len() > 0 && handle@[0] == '@' {
            handle@.drop_first()
        } else {
            handle@
        },
{
    proof {
        lemma_first_index(handle@, '@');
    }
    match split_once_char(handle, '@') {
        Some((before, after)) => {
            if before.is_empty() {
                assert(handle@.skip(1) =~= handle@.drop_first());
                after
            } else {
                handle
            }
        },
        None => handle,
    }
}

} // verus!
