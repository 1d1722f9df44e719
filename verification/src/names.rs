//! Robot names: the words of a post that end in "bot", and the shortened
//! names written before them.

use crate::parse::ParseOut;
use crate::pattern::{all_captures, captures, captures_iter, first_captures, groups_of, valid_groups};
use crate::robot::{name_views, NameView, RobotName};
use crate::text::{
    chars_of, lowercase, slice, slice_from, slice_to, span_text, split_whitespace, str_eq,
    text_before, text_from, to_lowercase, views, words,
};
use crate::numbers::is_digit;
use vstd::prelude::*;
use vstd::utf8::*;

verus! {

/// A full robot name: a run of non-whitespace characters, then the letters
/// B, O, T in either case, with any characters that are neither word
/// characters nor whitespace between them, then the same and an S where the
/// name is a plural.
pub const BOT_PATTERN: &'static str = r"(\S+)([Bb][^\w\s]*[Oo][^\w\s]*[Tt])([^\w\s]*[Ss])?";

/// The start of a shortened name: two or more word characters at the start
/// of a word, and a hyphen after them where there is one.
pub const PARTIAL_PATTERN: &'static str = r"^(\w{2,})(-)?";

/// What the name stage makes of a text.
pub struct NamesOut {
    /// The names, in the order in which the text writes them.
    pub names: Seq<NameView>,
    /// Whether shortened names were looked for.
    pub partial: bool,
    /// The text after the last full name.
    pub remainder: Seq<char>,
}

/// The text of a span.
pub open spec fn span_of(s: Seq<char>, span: (usize, usize)) -> Seq<char> {
    span_text(s, span.0 as int, span.1 as int)
}

/// The capture groups of a match of `BOT_PATTERN` that hold a name: the whole
/// match and three groups, of which the prefix and the suffix took part.
pub open spec fn holds_name(groups: Seq<Option<(usize, usize)>>) -> bool {
    groups.len() == 4 && groups[0] is Some && groups[1] is Some && groups[2] is Some
}

/// The name that the capture groups of a match hold.
pub open spec fn name_of(s: Seq<char>, groups: Seq<Option<(usize, usize)>>) -> NameView {
    NameView {
        prefix: span_of(s, groups[1]->0),
        suffix: span_of(s, groups[2]->0),
        plural: match groups[3] {
            Some(span) => Some(span_of(s, span)),
            None => None,
        },
    }
}

/// Whether some character of `s` is no ASCII digit.
pub open spec fn has_non_digit(s: Seq<char>) -> bool {
    exists|i: int| 0 <= i < s.len() && !is_digit(#[trigger] s[i])
}

/// The prefix that a word before the first full name gives, if it gives one:
/// the word characters at its start, where the word is not "and" in any
/// case, starts with two word characters at least, and those hold something
/// other than digits.
pub open spec fn partial_prefix(word: Seq<char>) -> Option<Seq<char>> {
    if lowercase(word) == "and"@ {
        None
    } else {
        match first_captures(PARTIAL_PATTERN@, word) {
            Some(Some(groups)) => {
                if groups.len() == 3 && groups[1] is Some && has_non_digit(
                    span_of(word, groups[1]->0),
                ) {
                    Some(span_of(word, groups[1]->0))
                } else {
                    None
                }
            },
            _ => None,
        }
    }
}

/// The names that the words before the first full name give, each with the
/// suffix and the plural of that first full name.
pub open spec fn backfill(ws: Seq<Seq<char>>, suffix: Seq<char>, plural: Option<Seq<char>>) -> Seq<
    NameView,
>
    decreases ws.len(),
{
    if ws.len() == 0 {
        seq![]
    } else {
        let before = backfill(ws.drop_last(), suffix, plural);
        match partial_prefix(ws.last()) {
            Some(prefix) => before.push(NameView { prefix, suffix, plural }),
            None => before,
        }
    }
}

/// The names of the matches, in order.
pub open spec fn matched_names(s: Seq<char>, ms: Seq<Seq<Option<(usize, usize)>>>) -> Seq<
    NameView,
> {
    Seq::new(ms.len(), |i: int| name_of(s, ms[i]))
}

/// The matches that count when `target_n` names are wanted: the first
/// `target_n`, or all where there are fewer.
pub open spec fn taken_matches(ms: Seq<Seq<Option<(usize, usize)>>>, target_n: nat) -> Seq<
    Seq<Option<(usize, usize)>>,
> {
    if target_n < ms.len() {
        ms.take(target_n as int)
    } else {
        ms
    }
}

/// The first `n` elements of `names`, or all where there are fewer.
pub open spec fn at_most(names: Seq<NameView>, n: int) -> Seq<NameView> {
    if n < names.len() {
        names.take(n)
    } else {
        names
    }
}

/// What the name stage makes of `s` when `target_n` names are wanted and `ms`
/// are the matches of `BOT_PATTERN` in `s`.
///
/// The first `target_n` matches are the full names. Where there are fewer
/// than wanted and text stands before the first of them, the words of that
/// text give shortened names, as many as are still wanted, which come first.
/// There is no result when there is no full name, or when one of the matches
/// that count does not hold a name.
pub open spec fn names_from(
    s: Seq<char>,
    ms: Seq<Seq<Option<(usize, usize)>>>,
    target_n: nat,
) -> Option<NamesOut> {
    let taken = taken_matches(ms, target_n);
    if taken.len() == 0 {
        None
    } else if !(forall|i: int| 0 <= i < taken.len() ==> holds_name(#[trigger] taken[i])) {
        None
    } else {
        let full = matched_names(s, taken);
        let start = (taken[0][0]->0).0;
        let end = (taken.last()[0]->0).1;
        let partial = taken.len() < target_n && start > 0;
        let extra = if partial {
            at_most(
                backfill(words(text_before(s, start as int)), full[0].suffix, full[0].plural),
                target_n - taken.len(),
            )
        } else {
            seq![]
        };
        Some(NamesOut { names: extra + full, partial, remainder: text_from(s, end as int) })
    }
}

/// What the name stage makes of `s` when `target_n` names are wanted. There
/// is no result when `BOT_PATTERN` does not compile.
pub open spec fn names_spec(s: Seq<char>, target_n: nat) -> Option<NamesOut> {
    match all_captures(BOT_PATTERN@, s) {
        None => None,
        Some(ms) => names_from(s, ms, target_n),
    }
}

/// Whether some character of `s` is no ASCII digit.
fn any_non_digit(s: &str) -> (r: bool)
    ensures
        r == has_non_digit(s@),
{
    let cs = chars_of(s);
    let mut i: usize = 0;
    while i < cs.len()
        invariant
            i <= cs.len(),
            cs@ == s@,
            forall|j: int| 0 <= j < i ==> is_digit(#[trigger] cs@[j]),
        decreases cs.len() - i,
    {
        let c = cs[i];
        if !(c >= '0' && c <= '9') {
            return true;
        }
        i = i + 1;
    }
    false
}

/// The prefix that a word before the first full name gives, if it gives one.
fn partial_prefix_of<'a>(word: &'a str) -> (r: Option<&'a str>)
    ensures
        match partial_prefix(word@) {
            Some(p) => r matches Some(x) && x@ == p,
            None => r is None,
        },
{
    let lower = to_lowercase(word);
    if str_eq(lower.as_str(), "and") {
        return None;
    }
    match captures(PARTIAL_PATTERN, word) {
        Some(Some(groups)) => {
            if groups.len() != 3 {
                return None;
            }
            match groups[1] {
                Some(span) => {
                    let prefix = slice(word, span.0, span.1);
                    if any_non_digit(prefix) {
                        Some(prefix)
                    } else {
                        None
                    }
                },
                None => None,
            }
        },
        _ => None,
    }
}

/// The names that the words of `before` give, each with the given suffix and
/// plural.
fn backfill_names<'a>(before: &'a str, suffix: &'a str, plural: Option<&'a str>) -> (r: Vec<
    RobotName<'a>,
>)
    ensures
        name_views(r@) == backfill(
            words(before@),
            suffix@,
            match plural {
                Some(p) => Some(p@),
                None => None,
            },
        ),
{
    let ws = split_whitespace(before);
    let ghost plural_view = match plural {
        Some(p) => Some(p@),
        None => None,
    };
    let mut found: Vec<RobotName<'a>> = Vec::new();
    let mut j: usize = 0;
    assert(name_views(found@) =~= backfill(views(ws@).take(0), suffix@, plural_view));
    while j < ws.len()
        invariant
            j <= ws.len(),
            plural_view == match plural {
                Some(p) => Some(p@),
                None => None,
            },
            name_views(found@) == backfill(views(ws@).take(j as int), suffix@, plural_view),
        decreases ws.len() - j,
    {
        let word = ws[j];
        proof {
            let t = views(ws@).take(j + 1);
            assert(t.last() == word@);
            assert(t.drop_last() =~= views(ws@).take(j as int));
        }
        let ghost before_names = name_views(found@);
        match partial_prefix_of(word) {
            Some(prefix) => {
                found.push(RobotName { prefix, suffix, plural });
                assert(name_views(found@) =~= before_names.push(
                    NameView { prefix: prefix@, suffix: suffix@, plural: plural_view },
                ));
            },
            None => {},
        }
        j = j + 1;
    }
    assert(views(ws@).take(ws.len() as int) =~= views(ws@));
    found
}

/// The names of up to `target_n` robots in `s`, given the matches of
/// `BOT_PATTERN` in `s`.
pub fn names_from_matches<'a>(
    s: &'a str,
    ms: &Vec<Vec<Option<(usize, usize)>>>,
    target_n: usize,
) -> (r: Option<ParseOut<'a, (Vec<RobotName<'a>>, bool)>>)
    requires
        forall|i: int| 0 <= i < ms@.len() ==> valid_groups(s@, (#[trigger] ms@[i])@),
    ensures
        match names_from(s@, groups_of(ms@), target_n as nat) {
            Some(out) => r matches Some(po) && name_views(po.output.0@) == out.names
                && po.output.1 == out.partial && po.remainder@ == out.remainder,
            None => r is None,
        },
        r matches Some(po) ==> 1 <= po.output.0.len() <= target_n,
{
    let n_taken: usize = if target_n < ms.len() {
        target_n
    } else {
        ms.len()
    };
    let ghost taken = taken_matches(groups_of(ms@), target_n as nat);
    if n_taken == 0 {
        return None;
    }
    let mut full: Vec<RobotName<'a>> = Vec::new();
    let mut k: usize = 0;
    while k < n_taken
        invariant
            k <= n_taken <= ms.len(),
            n_taken == taken.len(),
            taken == taken_matches(groups_of(ms@), target_n as nat),
            forall|i: int| 0 <= i < ms@.len() ==> valid_groups(s@, (#[trigger] ms@[i])@),
            full@.len() == k,
            forall|i: int| 0 <= i < k ==> holds_name(#[trigger] taken[i]),
            forall|i: int| 0 <= i < k ==> (#[trigger] full@[i])@ == name_of(s@, taken[i]),
        decreases n_taken - k,
    {
        let groups = &ms[k];
        assert(groups@ == taken[k as int]);
        assert(valid_groups(s@, ms@[k as int]@));
        if groups.len() != 4 {
            assert(!holds_name(taken[k as int]));
            return None;
        }
        let (prefix_span, suffix_span) = match (groups[1], groups[2]) {
            (Some(a), Some(b)) => (a, b),
            _ => {
                assert(!holds_name(taken[k as int]));
                return None;
            },
        };
        assert(groups@[0] is Some);
        let plural = match groups[3] {
            Some(span) => Some(slice(s, span.0, span.1)),
            None => None,
        };
        let name = RobotName {
            prefix: slice(s, prefix_span.0, prefix_span.1),
            suffix: slice(s, suffix_span.0, suffix_span.1),
            plural,
        };
        full.push(name);
        k = k + 1;
    }
    assert(name_views(full@) =~= matched_names(s@, taken));
    let first_groups = &ms[0];
    let last_groups = &ms[n_taken - 1];
    assert(first_groups@ == taken[0]);
    assert(last_groups@ == taken.last());
    assert(valid_groups(s@, ms@[0]@));
    assert(valid_groups(s@, ms@[n_taken - 1]@));
    let start: usize = match first_groups[0] {
        Some(span) => span.0,
        None => {
            return None;
        },
    };
    let end: usize = match last_groups[0] {
        Some(span) => span.1,
        None => {
            return None;
        },
    };
    let rest = slice_from(s, end);
    let partial = n_taken < target_n && start > 0;
    let mut names: Vec<RobotName<'a>> = Vec::new();
    if partial {
        let first = full[0];
        let found = backfill_names(slice_to(s, start), first.suffix, first.plural);
        let wanted: usize = target_n - n_taken;
        let n_extra: usize = if wanted < found.len() {
            wanted
        } else {
            found.len()
        };
        let mut j: usize = 0;
        while j < n_extra
            invariant
                j <= n_extra <= found.len(),
                names@ == found@.take(j as int),
            decreases n_extra - j,
        {
            names.push(found[j]);
            assert(found@.take(j + 1) =~= found@.take(j as int).push(found@[j as int]));
            j = j + 1;
        }
        assert(name_views(found@.take(n_extra as int)) =~= name_views(found@).take(
            n_extra as int,
        ));
        assert(found@.take(found.len() as int) =~= found@);
    }
    let ghost extra = names@;
    let mut j: usize = 0;
    while j < full.len()
        invariant
            j <= full.len(),
            names@ == extra + full@.take(j as int),
        decreases full.len() - j,
    {
        names.push(full[j]);
        assert(full@.take(j + 1) =~= full@.take(j as int).push(full@[j as int]));
        j = j + 1;
    }
    assert(full@.take(full.len() as int) =~= full@);
    assert(name_views(extra + full@) =~= name_views(extra) + name_views(full@));
    Some(ParseOut::new(rest, (names, partial)))
}

/// Finds the names of up to `target_n` robots at the start of a post's text,
/// after its number header.
pub fn parse_names<'a>(s: &'a str, target_n: usize) -> (r: Option<
    ParseOut<'a, (Vec<RobotName<'a>>, bool)>,
>)
    ensures
        match names_spec(s@, target_n as nat) {
            Some(out) => r matches Some(po) && name_views(po.output.0@) == out.names
                && po.output.1 == out.partial && po.remainder@ == out.remainder,
            None => r is None,
        },
        r matches Some(po) ==> 1 <= po.output.0.len() <= target_n,
{
    match captures_iter(BOT_PATTERN, s) {
        None => None,
        Some(ms) => {
            assert forall|i: int| 0 <= i < ms@.len() implies valid_groups(
                s@,
                (#[trigger] ms@[i])@,
            ) by {
                assert(groups_of(ms@)[i] == ms@[i]@);
            }
            names_from_matches(s, &ms, target_n)
        },
    }
}

} // verus!
