//! Regular expressions, as the `regex` crate matches them.
//!
//! Each function here compiles its pattern and runs one search. What a search
//! finds is not spelled out: it is a named function of the pattern and the
//! text, and the rest of the crate is specified over those names. A match is
//! reported as the byte offsets of its start and end in the text.

use crate::text::span_in;
use vstd::prelude::*;

verus! {

/// What `regex::Regex::find` returns for the regex compiled from `pattern`:
/// the first match in `text`, if there is one. `None` stands for a pattern
/// that does not compile.
pub uninterp spec fn first_match(pattern: Seq<char>, text: Seq<char>) -> Option<
    Option<(usize, usize)>,
>;

/// What `regex::Regex::captures` returns for the regex compiled from
/// `pattern`: the capture groups of the first match in `text`, the whole match
/// first, each group with its span if it took part in the match. `None` stands
/// for a pattern that does not compile.
pub uninterp spec fn first_captures(pattern: Seq<char>, text: Seq<char>) -> Option<
    Option<Seq<Option<(usize, usize)>>>,
>;

/// What `regex::Regex::captures_iter` yields for the regex compiled from
/// `pattern`: the capture groups of every successive match in `text`. `None`
/// stands for a pattern that does not compile.
pub uninterp spec fn all_captures(pattern: Seq<char>, text: Seq<char>) -> Option<
    Seq<Seq<Option<(usize, usize)>>>,
>;

/// What `regex::Regex::replace_all` returns for the regex compiled from
/// `pattern`: `text` with every match replaced by `with`. `None` stands for a
/// pattern that does not compile.
pub uninterp spec fn replaced(pattern: Seq<char>, text: Seq<char>, with: Seq<char>) -> Option<
    Seq<char>,
>;

/// What `regex::Regex::is_match` returns for the regex compiled from
/// `pattern`: whether the pattern matches somewhere in `text`. `None` stands
/// for a pattern that does not compile.
pub uninterp spec fn any_match(pattern: Seq<char>, text: Seq<char>) -> Option<bool>;

/// The span is a slice of the text.
pub open spec fn valid_span(text: Seq<char>, span: (usize, usize)) -> bool {
    span_in(text, span.0 as int, span.1 as int)
}

/// The capture groups of one match: the whole match is there, and every span
/// is a slice of the text.
pub open spec fn valid_groups(text: Seq<char>, groups: Seq<Option<(usize, usize)>>) -> bool {
    &&& groups.len() >= 1
    &&& groups[0] is Some
    &&& forall|i: int|
        0 <= i < groups.len() ==> (#[trigger] groups[i] matches Some(span) ==> valid_span(
            text,
            span,
        ))
}

/// The capture groups of a list of matches.
pub open spec fn groups_of(ms: Seq<Vec<Option<(usize, usize)>>>) -> Seq<
    Seq<Option<(usize, usize)>>,
> {
    Seq::new(ms.len(), |i: int| ms[i]@)
}

/// `regex::Regex::new` and `regex::Regex::find`: the first match of the
/// pattern in the text, named by `first_match`. The offsets of a match are in
/// order and fall on character boundaries of the text.
#[verifier::external_body]
pub(crate) fn find(pattern: &str, text: &str) -> (r: Option<Option<(usize, usize)>>)
    ensures
        r == first_match(pattern@, text@),
        r matches Some(Some(span)) ==> valid_span(text@, span),
{
    match regex::Regex::new(pattern) {
        Ok(re) => Some(re.find(text).map(|m| (m.start(), m.end()))),
        Err(_) => None,
    }
}

/// `regex::Regex::new` and `regex::Regex::captures`: the capture groups of the
/// first match of the pattern in the text, named by `first_captures`. The
/// whole match is the first group and is always there; the offsets of every
/// group are in order and fall on character boundaries of the text.
#[verifier::external_body]
pub(crate) fn captures(pattern: &str, text: &str) -> (r: Option<
    Option<Vec<Option<(usize, usize)>>>,
>)
    ensures
        match first_captures(pattern@, text@) {
            None => r is None,
            Some(None) => r == Some(None::<Vec<Option<(usize, usize)>>>),
            Some(Some(groups)) => r matches Some(Some(v)) && v@ == groups && valid_groups(
                text@,
                groups,
            ),
        },
{
    match regex::Regex::new(pattern) {
        Ok(re) => Some(
            re.captures(text).map(|c| c.iter().map(|g| g.map(|m| (m.start(), m.end()))).collect()),
        ),
        Err(_) => None,
    }
}

/// `regex::Regex::new` and `regex::Regex::captures_iter`: the capture groups
/// of all the successive matches of the pattern in the text, named by
/// `all_captures`. In each match the whole match is the first group and is
/// always there; the offsets of every group are in order and fall on
/// character boundaries of the text.
#[verifier::external_body]
pub(crate) fn captures_iter(pattern: &str, text: &str) -> (r: Option<
    Vec<Vec<Option<(usize, usize)>>>,
>)
    ensures
        match all_captures(pattern@, text@) {
            None => r is None,
            Some(ms) => r matches Some(v) && groups_of(v@) == ms && forall|i: int|
                0 <= i < ms.len() ==> valid_groups(text@, #[trigger] ms[i]),
        },
{
    match regex::Regex::new(pattern) {
        Ok(re) => Some(
            re.captures_iter(text).map(
                |c| c.iter().map(|g| g.map(|m| (m.start(), m.end()))).collect(),
            ).collect(),
        ),
        Err(_) => None,
    }
}

/// `regex::Regex::new` and `regex::Regex::is_match`: whether the pattern
/// matches somewhere in the text, named by `any_match`.
#[verifier::external_body]
pub(crate) fn is_match(pattern: &str, text: &str) -> (r: Option<bool>)
    ensures
        r == any_match(pattern@, text@),
{
    match regex::Regex::new(pattern) {
        Ok(re) => Some(re.is_match(text)),
        Err(_) => None,
    }
}

/// `regex::Regex::new` and `regex::Regex::replace_all`: the text with every
/// match of the pattern replaced, named by `replaced`.
#[verifier::external_body]
pub(crate) fn replace_all(pattern: &str, text: &str, with: &str) -> (r: Option<String>)
    ensures
        match replaced(pattern@, text@, with@) {
            None => r is None,
            Some(out) => r matches Some(s) && s@ == out,
        },
{
    match regex::Regex::new(pattern) {
        Ok(re) => Some(re.replace_all(text, with).into_owned()),
        Err(_) => None,
    }
}

} // verus!
