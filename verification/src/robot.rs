//! Robots and their names.

use crate::pattern::{replace_all, replaced};
use crate::text::{chars_of, is_whitespace, lowercase, push_char, to_lowercase, white_space};
use vstd::prelude::*;
use vstd::utf8::is_ascii_chars;

verus! {

/// A run of characters that are no word characters.
pub const NON_WORD_PATTERN: &'static str = r"\W+";

/// The ASCII transliteration of a text, as `unidecode::unidecode` gives it.
pub uninterp spec fn unidecoded(s: Seq<char>) -> Seq<char>;

/// `unidecode::unidecode`: the ASCII transliteration of `s`. The result holds
/// ASCII characters only, and a text of ASCII characters is its own
/// transliteration.
#[verifier::external_body]
fn transliterate(s: &str) -> (r: String)
    ensures
        r@ == unidecoded(s@),
        is_ascii_chars(r@),
        is_ascii_chars(s@) ==> r@ == s@,
{
    unidecode::unidecode(s)
}

/// `s` without its whitespace characters.
pub open spec fn without_whitespace(s: Seq<char>) -> Seq<char>
    decreases s.len(),
{
    if s.len() == 0 {
        Seq::empty()
    } else if white_space(s.last()) {
        without_whitespace(s.drop_last())
    } else {
        without_whitespace(s.drop_last()).push(s.last())
    }
}

/// `s` without the runs of characters that are no word characters. Where
/// `NON_WORD_PATTERN` does not compile, `s` as it is.
pub open spec fn without_non_words(s: Seq<char>) -> Seq<char> {
    match replaced(NON_WORD_PATTERN@, s, ""@) {
        Some(t) => t,
        None => s,
    }
}

/// The slug of a name prefix: its transliteration to ASCII, without the
/// characters that are no word characters, in lowercase, without whitespace.
/// With a robot's number it makes the robot's identity.
pub open spec fn slug(prefix: Seq<char>) -> Seq<char> {
    without_whitespace(lowercase(without_non_words(unidecoded(prefix))))
}

/// No character of a text without whitespace is whitespace.
pub proof fn lemma_without_whitespace_has_none(s: Seq<char>)
    ensures
        forall|i: int|
            0 <= i < without_whitespace(s).len() ==> !white_space(
                #[trigger] without_whitespace(s)[i],
            ),
    decreases s.len(),
{
    if s.len() > 0 {
        lemma_without_whitespace_has_none(s.drop_last());
        let w = without_whitespace(s);
        let v = without_whitespace(s.drop_last());
        assert forall|i: int| 0 <= i < w.len() implies !white_space(#[trigger] w[i]) by {
            if i < v.len() {
                assert(w[i] == v[i]);
            }
        }
    }
}

/// Taking the whitespace out of a text that holds none leaves the text.
pub proof fn lemma_without_whitespace_fixed(s: Seq<char>)
    requires
        forall|i: int| 0 <= i < s.len() ==> !white_space(#[trigger] s[i]),
    ensures
        without_whitespace(s) == s,
    decreases s.len(),
{
    if s.len() > 0 {
        lemma_without_whitespace_fixed(s.drop_last());
        assert(s.drop_last().push(s.last()) =~= s);
    }
}

/// A slug holds no whitespace, and taking the whitespace out of a slug
/// leaves the slug.
pub proof fn law_slug_without_whitespace(prefix: Seq<char>)
    ensures
        forall|i: int| 0 <= i < slug(prefix).len() ==> !white_space(#[trigger] slug(prefix)[i]),
        without_whitespace(slug(prefix)) == slug(prefix),
{
    let lowered = lowercase(without_non_words(unidecoded(prefix)));
    lemma_without_whitespace_has_none(lowered);
    lemma_without_whitespace_fixed(slug(prefix));
}

/// Takes the whitespace out of a text.
pub fn strip_whitespace(s: &str) -> (r: String)
    ensures
        r@ == without_whitespace(s@),
{
    let cs = chars_of(s);
    let mut out = String::new();
    let mut i: usize = 0;
    assert(cs@.take(0) =~= Seq::<char>::empty());
    while i < cs.len()
        invariant
            i <= cs.len(),
            cs@ == s@,
            out@ == without_whitespace(cs@.take(i as int)),
        decreases cs.len() - i,
    {
        let c = cs[i];
        proof {
            let t = cs@.take(i + 1);
            assert(t.last() == c);
            assert(t.drop_last() =~= cs@.take(i as int));
        }
        if !is_whitespace(c) {
            push_char(&mut out, c);
        }
        i = i + 1;
    }
    assert(cs@.take(cs.len() as int) =~= cs@);
    out
}

/// The name of a robot, in the parts in which a post writes it: what comes
/// before "bot", the "bot" itself, and the plural ending where there is one.
#[derive(Eq, PartialEq, Clone, Copy, Debug)]
pub struct RobotName<'a> {
    pub prefix: &'a str,
    pub suffix: &'a str,
    pub plural: Option<&'a str>,
}

impl<'a> RobotName<'a> {
    /// The slug of the name: with the robot's number, the robot's identity.
    pub fn identifier(&self) -> (r: String)
        ensures
            r@ == slug(self.prefix@),
    {
        let ascii = transliterate(self.prefix);
        let words = match replace_all(NON_WORD_PATTERN, ascii.as_str(), "") {
            Some(t) => t,
            None => ascii,
        };
        let lowered = to_lowercase(words.as_str());
        strip_whitespace(lowered.as_str())
    }
}

/// A robot: its number and its name.
#[derive(Eq, PartialEq, Clone, Copy, Debug)]
pub struct Robot<'a> {
    pub number: i32,
    pub name: RobotName<'a>,
}

/// The text of a robot's name.
pub struct NameView {
    pub prefix: Seq<char>,
    pub suffix: Seq<char>,
    pub plural: Option<Seq<char>>,
}

/// A robot as a number and the text of its name.
pub struct RobotView {
    pub number: int,
    pub name: NameView,
}

impl<'a> View for RobotName<'a> {
    type V = NameView;

    open spec fn view(&self) -> NameView {
        NameView {
            prefix: self.prefix@,
            suffix: self.suffix@,
            plural: match self.plural {
                Some(p) => Some(p@),
                None => None,
            },
        }
    }
}

impl<'a> View for Robot<'a> {
    type V = RobotView;

    open spec fn view(&self) -> RobotView {
        RobotView { number: self.number as int, name: self.name@ }
    }
}

/// The views of a list of names.
pub open spec fn name_views(names: Seq<RobotName>) -> Seq<NameView> {
    Seq::new(names.len(), |i: int| names[i]@)
}

/// The views of a list of robots.
pub open spec fn robot_views(robots: Seq<Robot>) -> Seq<RobotView> {
    Seq::new(robots.len(), |i: int| robots[i]@)
}

} // verus!
