//! The parser of robot posts: from the text of a post to the robots that it
//! announces.
//!
//! A post is read in stages, each of which takes what it understands from the
//! front of the text and leaves the rest to the next: a content warning, the
//! number header, the names, and the description.

use crate::names::{names_spec, parse_names, span_of};
use crate::numbers::{numbers_spec, parse_numbers};
use crate::pattern::{captures, find, first_captures, first_match, valid_groups, valid_span};
use crate::robot::{name_views, robot_views, NameView, Robot, RobotName, RobotView};
use crate::text::{
    first_index, lemma_first_index, lemma_span_keeps, lemma_trim_keeps, lemma_trim_start_keeps,
    slice, slice_from, text_from, trim, trim_spec, trim_start, trim_start_spec,
};
use vstd::prelude::*;
use vstd::utf8::{encode_utf8, group_utf8_lib, is_char_boundary_start_end_of_seq};

verus! {

/// A content warning: "CN:" in either case and the warning itself, in square
/// or round brackets.
pub const CW_PATTERN: &'static str = r"[\[\(][Cc][Nn]:\s*(\S[^\]\)]+)[\]\)]";

/// The description of the robots: from a word character to the end of the
/// text, with no line break between them.
pub const BODY_PATTERN: &'static str = r"\w.*$";

/// The largest number of robots that one post announces.
pub const MAX_GROUP_SIZE: usize = 5;

/// What one stage of the parser read, and the text that it left.
#[derive(Eq, PartialEq, Debug)]
pub struct ParseOut<'a, T> {
    pub remainder: &'a str,
    pub output: T,
}

impl<'a, T> ParseOut<'a, T> {
    pub fn new(remainder: &'a str, output: T) -> (r: Self)
        ensures
            r.remainder == remainder,
            r.output == output,
    {
        ParseOut { remainder, output }
    }
}

/// The robots that a post announces, with their description and the content
/// warning of the post.
#[derive(Eq, PartialEq, Debug)]
pub struct ParsedGroup<'a> {
    pub robots: Vec<Robot<'a>>,
    pub body: &'a str,
    pub cw: Option<&'a str>,
}

/// A parsed post as plain text and numbers.
pub struct GroupView {
    pub robots: Seq<RobotView>,
    pub body: Seq<char>,
    pub cw: Option<Seq<char>>,
}

impl<'a> View for ParsedGroup<'a> {
    type V = GroupView;

    open spec fn view(&self) -> GroupView {
        GroupView {
            robots: robot_views(self.robots@),
            body: self.body@,
            cw: match self.cw {
                Some(w) => Some(w@),
                None => None,
            },
        }
    }
}

/// What the content-warning stage makes of `s`, given the first match of
/// `CW_PATTERN` in `s`: the text after the match without its leading
/// whitespace, and the warning without the whitespace around it. Without a
/// match that holds a warning in `s`, all of `s` is left and there is no
/// warning.
pub open spec fn cw_from(s: Seq<char>, found: Option<Seq<Option<(usize, usize)>>>) -> (
    Seq<char>,
    Option<Seq<char>>,
) {
    match found {
        Some(groups) => {
            if groups.len() == 2 && groups[0] is Some && groups[1] is Some && valid_groups(
                s,
                groups,
            ) {
                (
                    trim_start_spec(text_from(s, (groups[0]->0).1 as int)),
                    Some(trim_spec(span_of(s, groups[1]->0))),
                )
            } else {
                (s, None)
            }
        },
        None => (s, None),
    }
}

/// What the content-warning stage makes of `s`. Where `CW_PATTERN` does not
/// compile there is no warning.
pub open spec fn cw_spec(s: Seq<char>) -> (Seq<char>, Option<Seq<char>>) {
    match first_captures(CW_PATTERN@, s) {
        Some(found) => cw_from(s, found),
        None => (s, None),
    }
}

/// The description in `s`, given the first match of `BODY_PATTERN` in `s`:
/// the text of the match, or nothing.
pub open spec fn body_from(s: Seq<char>, found: Option<(usize, usize)>) -> Seq<char> {
    match found {
        Some(span) => span_of(s, span),
        None => Seq::empty(),
    }
}

/// The description in `s`. Where `BODY_PATTERN` does not compile there is
/// none.
pub open spec fn body_spec(s: Seq<char>) -> Seq<char> {
    match first_match(BODY_PATTERN@, s) {
        Some(found) => body_from(s, found),
        None => Seq::empty(),
    }
}

/// The number of names wanted for a range of numbers: one for each number,
/// but no more than `MAX_GROUP_SIZE`.
pub open spec fn names_wanted(lo: int, hi: int) -> nat {
    if hi - lo < MAX_GROUP_SIZE {
        (hi - lo) as nat
    } else {
        MAX_GROUP_SIZE as nat
    }
}

/// The robots of a post: the names in order, numbered from `lo` on, without
/// their plural endings where shortened names were looked for.
pub open spec fn numbered(lo: int, names: Seq<NameView>, partial: bool) -> Seq<RobotView> {
    Seq::new(
        names.len(),
        |i: int|
            RobotView {
                number: lo + i,
                name: if partial {
                    NameView { plural: None, ..names[i] }
                } else {
                    names[i]
                },
            },
    )
}

/// What the parser makes of the text of a post, or none where the text does
/// not announce robots.
pub open spec fn group_spec(text: Seq<char>) -> Option<GroupView> {
    let (after_cw, cw) = cw_spec(trim_spec(text));
    match numbers_spec(after_cw) {
        None => None,
        Some((after_numbers, lo, hi)) => match names_spec(after_numbers, names_wanted(lo, hi)) {
            None => None,
            Some(out) => Some(
                GroupView {
                    robots: numbered(lo, out.names, out.partial),
                    body: body_spec(out.remainder),
                    cw,
                },
            ),
        },
    }
}

/// The content-warning stage leaves no character that the text does not
/// hold.
pub proof fn lemma_cw_keeps(s: Seq<char>, c: char)
    ensures
        cw_spec(s).0.contains(c) ==> s.contains(c),
{
    broadcast use group_utf8_lib;

    match first_captures(CW_PATTERN@, s) {
        Some(Some(groups)) => {
            if groups.len() == 2 && groups[0] is Some && groups[1] is Some && valid_groups(
                s,
                groups,
            ) {
                let end = (groups[0]->0).1 as int;
                let bytes = encode_utf8(s);
                assert(valid_span(s, groups[0]->0));
                is_char_boundary_start_end_of_seq(bytes);
                lemma_span_keeps(s, end, bytes.len() as int, c);
                lemma_trim_start_keeps(text_from(s, end), c);
            }
        },
        _ => {},
    }
}

/// A text without a `)` announces no robots. The empty text is one such.
pub proof fn law_no_header_no_robots(text: Seq<char>)
    requires
        !text.contains(')'),
    ensures
        group_spec(text) is None,
{
    lemma_trim_keeps(text, ')');
    lemma_cw_keeps(trim_spec(text), ')');
    let after_cw = cw_spec(trim_spec(text)).0;
    lemma_first_index(after_cw, ')');
    if first_index(after_cw, ')') < after_cw.len() {
        assert(after_cw.contains(')'));
    }
}

/// The content-warning stage, given the first match of `CW_PATTERN` in `s`.
pub fn cw_from_captures<'a>(s: &'a str, found: &Option<Vec<Option<(usize, usize)>>>) -> (r:
    ParseOut<'a, Option<&'a str>>)
    requires
        found matches Some(groups) ==> valid_groups(s@, groups@),
    ensures
        r.remainder@ == cw_from(
            s@,
            match found {
                Some(groups) => Some(groups@),
                None => None,
            },
        ).0,
        match cw_from(
            s@,
            match found {
                Some(groups) => Some(groups@),
                None => None,
            },
        ).1 {
            Some(w) => r.output matches Some(x) && x@ == w,
            None => r.output is None,
        },
{
    match found {
        Some(groups) => {
            if groups.len() != 2 {
                return ParseOut::new(s, None);
            }
            match (groups[0], groups[1]) {
                (Some(whole), Some(inner)) => {
                    let warning = trim(slice(s, inner.0, inner.1));
                    ParseOut::new(trim_start(slice_from(s, whole.1)), Some(warning))
                },
                _ => ParseOut::new(s, None),
            }
        },
        None => ParseOut::new(s, None),
    }
}

/// Takes a content warning from the text of a post, where it has one.
pub fn parse_cw<'a>(s: &'a str) -> (r: ParseOut<'a, Option<&'a str>>)
    ensures
        r.remainder@ == cw_spec(s@).0,
        match cw_spec(s@).1 {
            Some(w) => r.output matches Some(x) && x@ == w,
            None => r.output is None,
        },
{
    match captures(CW_PATTERN, s) {
        Some(found) => cw_from_captures(s, &found),
        None => ParseOut::new(s, None),
    }
}

/// The description in `s`, given the first match of `BODY_PATTERN` in `s`.
pub fn body_from_match<'a>(s: &'a str, found: Option<(usize, usize)>) -> (r: &'a str)
    requires
        found matches Some(span) ==> valid_span(s@, span),
    ensures
        r@ == body_from(s@, found),
{
    match found {
        Some(span) => slice(s, span.0, span.1),
        None => {
            proof {
                reveal_strlit("");
            }
            assert(""@ =~= Seq::<char>::empty());
            ""
        },
    }
}

/// The description of the robots in what the name stage left of a post.
pub fn parse_body<'a>(s: &'a str) -> (r: &'a str)
    ensures
        r@ == body_spec(s@),
{
    match find(BODY_PATTERN, s) {
        Some(found) => body_from_match(s, found),
        None => body_from_match(s, None),
    }
}

/// Gives the names their numbers: the first gets `start`, each next one the
/// following number.
pub fn number_robots<'a>(start: i32, names: &Vec<RobotName<'a>>, partial: bool) -> (r: Vec<
    Robot<'a>,
>)
    requires
        start + names.len() <= i32::MAX,
    ensures
        robot_views(r@) == numbered(start as int, name_views(names@), partial),
        r.len() == names.len(),
{
    let mut robots: Vec<Robot<'a>> = Vec::new();
    let mut i: usize = 0;
    while i < names.len()
        invariant
            i <= names.len(),
            start + names.len() <= i32::MAX,
            robots.len() == i,
            forall|j: int|
                0 <= j < i ==> (#[trigger] robots@[j])@ == numbered(
                    start as int,
                    name_views(names@),
                    partial,
                )[j],
        decreases names.len() - i,
    {
        let name = names[i];
        let name = if partial {
            RobotName { prefix: name.prefix, suffix: name.suffix, plural: None }
        } else {
            name
        };
        let number: i32 = (start as i64 + i as i64) as i32;
        assert(name_views(names@)[i as int] == names@[i as int]@);
        let robot = Robot { number, name };
        assert(robot@ == numbered(start as int, name_views(names@), partial)[i as int]);
        robots.push(robot);
        i = i + 1;
    }
    assert(robot_views(robots@) =~= numbered(
        start as int,
        name_views(names@),
        partial,
    ));
    robots
}

/// Reads the robots that a post announces from its text.
///
/// Returns none where the text is no announcement: without a number header
/// that ends in `)`, with an invalid header, or without a robot name after
/// it. A post announces one to five robots, numbered upwards from the start
/// of its range.
pub fn parse_group<'a>(text: &'a str) -> (r: Option<ParsedGroup<'a>>)
    ensures
        match group_spec(text@) {
            Some(g) => r matches Some(x) && x@ == g,
            None => r is None,
        },
        r matches Some(g) ==> 1 <= g.robots.len() <= MAX_GROUP_SIZE && forall|i: int|
            0 <= i < g.robots.len() ==> (#[trigger] g.robots[i]).number == g.robots[0].number + i,
        !text@.contains(')') ==> r is None,
{
    proof {
        if !text@.contains(')') {
            law_no_header_no_robots(text@);
        }
    }
    let s = trim(text);
    let after_cw = parse_cw(s);
    let cw = after_cw.output;
    let after_numbers = match parse_numbers(after_cw.remainder) {
        None => {
            return None;
        },
        Some(out) => out,
    };
    let range = after_numbers.output;
    let span: i64 = range.end as i64 - range.start as i64;
    let wanted: usize = if span < MAX_GROUP_SIZE as i64 {
        if span < 0 {
            0
        } else {
            span as usize
        }
    } else {
        MAX_GROUP_SIZE
    };
    let after_names = match parse_names(after_numbers.remainder, wanted) {
        None => {
            return None;
        },
        Some(out) => out,
    };
    let body = parse_body(after_names.remainder);
    let (names, partial) = after_names.output;
    let robots = number_robots(range.start, &names, partial);
    let ghost views = robot_views(robots@);
    assert forall|i: int| 0 <= i < robots.len() implies (#[trigger] robots[i]).number
        == robots[0].number + i by {
        assert(views[i].number == range.start + i);
        assert(views[0].number == range.start + 0);
    }
    Some(ParsedGroup { robots, body, cw })
}

} // verus!
