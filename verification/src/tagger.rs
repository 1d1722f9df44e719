//! Tags for the description of a post: the words of its sentences that say
//! something.

use crate::nlpewee::data::{Sentence, Token};
use crate::pattern::{any_match, is_match};
use crate::text::str_eq;
use vstd::prelude::*;

verus! {

/// A word that names a robot: it holds "bot" or "bots" in any case.
pub const BOT_WORD_PATTERN: &'static str = r".*[Bb][Oo][Tt][Ss]?";

/// Whether one of the words is `word`.
pub open spec fn among(words: Seq<&str>, word: Seq<char>) -> bool {
    exists|i: int| 0 <= i < words.len() && (#[trigger] words[i])@ == word
}

/// Whether a word names a robot. Where `BOT_WORD_PATTERN` does not compile
/// none does.
pub open spec fn names_robot(word: Seq<char>) -> bool {
    any_match(BOT_WORD_PATTERN@, word) == Some(true)
}

/// Whether a token gives tags: it is a noun, a verb or an adjective, no stop
/// word, no mention, no hashtag and nothing after an apostrophe, it names no
/// robot, and its stem is none of the stems that say nothing.
pub open spec fn gives_tags(token: Token, stop_stems: Seq<&str>) -> bool {
    &&& token.full.cleaned is Some
    &&& !(token.full.raw@.len() > 0 && (token.full.raw@[0] == '@' || token.full.raw@[0] == '#'
        || token.full.raw@[0] == '\''))
    &&& (token.tag is NN || token.tag is NNP || token.tag is NNPS || token.tag is NNS
        || token.tag is VB || token.tag is VBD || token.tag is VBG || token.tag is VBN
        || token.tag is VBP || token.tag is VBZ || token.tag is JJ || token.tag is JJR
        || token.tag is JJS)
    &&& !names_robot(token.full.raw@)
    &&& !among(stop_stems, token.stem.raw@)
}

/// The tags that a token gives: its cleaned form, and the cleaned form of
/// its stem where there is one.
pub open spec fn token_tags(token: Token, stop_stems: Seq<&str>) -> Seq<Seq<char>> {
    if !gives_tags(token, stop_stems) {
        seq![]
    } else {
        match token.stem.cleaned {
            Some(stem) => seq![token.full.cleaned->0@, stem@],
            None => seq![token.full.cleaned->0@],
        }
    }
}

/// The tags that the tokens give, in order.
pub open spec fn tags_of(tokens: Seq<Token>, stop_stems: Seq<&str>) -> Seq<Seq<char>>
    decreases tokens.len(),
{
    if tokens.len() == 0 {
        seq![]
    } else {
        tags_of(tokens.drop_last(), stop_stems) + token_tags(tokens.last(), stop_stems)
    }
}

/// The texts of a list of strings.
pub open spec fn texts(tags: Seq<String>) -> Seq<Seq<char>> {
    Seq::new(tags.len(), |i: int| tags[i]@)
}

/// Whether one of the words is `word`.
pub fn is_among(words: &Vec<&str>, word: &str) -> (r: bool)
    ensures
        r == among(words@, word@),
{
    let mut i: usize = 0;
    while i < words.len()
        invariant
            i <= words.len(),
            forall|j: int| 0 <= j < i ==> (#[trigger] words@[j])@ != word@,
        decreases words.len() - i,
    {
        if str_eq(words[i], word) {
            return true;
        }
        i = i + 1;
    }
    false
}

/// Whether a token gives tags.
pub fn token_gives_tags(token: &Token, stop_stems: &Vec<&str>) -> (r: bool)
    ensures
        r == gives_tags(*token, stop_stems@),
{
    if token.is_stopword() || token.is_at_mention() || token.is_hashtag() || token.is_apostrophe() {
        return false;
    }
    if !(token.tag.is_noun() || token.tag.is_verb() || token.tag.is_adjective()) {
        return false;
    }
    let named = match is_match(BOT_WORD_PATTERN, token.full.raw.as_str()) {
        Some(found) => found,
        None => false,
    };
    !named && !is_among(stop_stems, token.stem.raw.as_str())
}

/// Chooses the tags of a sentence: for every token that gives tags, its
/// cleaned form and the cleaned form of its stem.
pub fn choose_tags(sentence: &Sentence, stop_stems: &Vec<&str>) -> (r: Vec<String>)
    ensures
        texts(r@) == tags_of(sentence.tokens@, stop_stems@),
{
    let mut tags: Vec<String> = Vec::new();
    let mut i: usize = 0;
    assert(texts(tags@) =~= tags_of(sentence.tokens@.take(0), stop_stems@));
    while i < sentence.tokens.len()
        invariant
            i <= sentence.tokens.len(),
            texts(tags@) == tags_of(sentence.tokens@.take(i as int), stop_stems@),
        decreases sentence.tokens.len() - i,
    {
        let token = &sentence.tokens[i];
        proof {
            let t = sentence.tokens@.take(i + 1);
            assert(t.last() == *token);
            assert(t.drop_last() =~= sentence.tokens@.take(i as int));
        }
        let ghost before = texts(tags@);
        if token_gives_tags(token, stop_stems) {
            match &token.full.cleaned {
                Some(full) => {
                    tags.push(full.clone());
                    assert(texts(tags@) =~= before.push(full@));
                },
                None => {},
            }
            let ghost middle = texts(tags@);
            match &token.stem.cleaned {
                Some(stem) => {
                    tags.push(stem.clone());
                    assert(texts(tags@) =~= middle.push(stem@));
                },
                None => {},
            }
            assert(texts(tags@) =~= before + token_tags(*token, stop_stems@));
        } else {
            assert(texts(tags@) =~= before + token_tags(*token, stop_stems@));
        }
        i = i + 1;
    }
    assert(sentence.tokens@.take(sentence.tokens.len() as int) =~= sentence.tokens@);
    tags
}

/// The tags without those that stand earlier in the list already.
pub open spec fn first_occurrences(tags: Seq<Seq<char>>) -> Seq<Seq<char>>
    decreases tags.len(),
{
    if tags.len() == 0 {
        seq![]
    } else if first_occurrences(tags.drop_last()).contains(tags.last()) {
        first_occurrences(tags.drop_last())
    } else {
        first_occurrences(tags.drop_last()).push(tags.last())
    }
}

/// The first occurrences of a list of tags hold every tag of the list, none
/// twice, and nothing else.
pub proof fn lemma_first_occurrences(tags: Seq<Seq<char>>)
    ensures
        forall|t: Seq<char>| first_occurrences(tags).contains(t) <==> tags.contains(t),
        first_occurrences(tags).no_duplicates(),
    decreases tags.len(),
{
    let r = first_occurrences(tags);
    if tags.len() > 0 {
        let rest = tags.drop_last();
        let rr = first_occurrences(rest);
        lemma_first_occurrences(rest);
        assert forall|t: Seq<char>| r.contains(t) <==> tags.contains(t) by {
            if tags.contains(t) {
                let i = choose|i: int| 0 <= i < tags.len() && tags[i] == t;
                if i < rest.len() {
                    assert(rest[i] == t);
                    assert(rest.contains(t));
                    assert(rr.contains(t));
                    let k = choose|k: int| 0 <= k < rr.len() && rr[k] == t;
                    assert(r[k] == t);
                } else {
                    if !rr.contains(tags.last()) {
                        assert(r[r.len() - 1] == t);
                    }
                }
            }
            if r.contains(t) {
                let k = choose|k: int| 0 <= k < r.len() && r[k] == t;
                if k < rr.len() {
                    assert(rr[k] == t);
                    assert(rr.contains(t));
                    assert(rest.contains(t));
                    let i = choose|i: int| 0 <= i < rest.len() && rest[i] == t;
                    assert(tags[i] == t);
                } else {
                    assert(tags[tags.len() - 1] == t);
                }
            }
        }
        if !rr.contains(tags.last()) {
            assert forall|i: int, j: int| 0 <= i < r.len() && 0 <= j < r.len() && i != j implies r[i]
                != r[j] by {
                if i < rr.len() && j < rr.len() {
                    assert(rr[i] != rr[j]);
                } else if i < rr.len() {
                    assert(rr.contains(rr[i]));
                } else {
                    assert(rr.contains(rr[j]));
                }
            }
        }
    }
}

/// Whether one of the tags is `tag`.
fn holds_tag(tags: &Vec<String>, tag: &str) -> (r: bool)
    ensures
        r == texts(tags@).contains(tag@),
{
    let mut i: usize = 0;
    while i < tags.len()
        invariant
            i <= tags.len(),
            forall|j: int| 0 <= j < i ==> (#[trigger] tags@[j])@ != tag@,
        decreases tags.len() - i,
    {
        if str_eq(tags[i].as_str(), tag) {
            assert(texts(tags@)[i as int] == tag@);
            return true;
        }
        i = i + 1;
    }
    assert forall|j: int| 0 <= j < texts(tags@).len() implies texts(tags@)[j] != tag@ by {
        assert(texts(tags@)[j] == tags@[j]@);
    }
    false
}

/// Adds the tags of one more sentence to the tags of a post, each only
/// where it is not among them yet.
pub fn add_tags(tags: &mut Vec<String>, more: Vec<String>)
    requires
        texts(old(tags)@) == first_occurrences(texts(old(tags)@)),
    ensures
        texts(final(tags)@) == first_occurrences(texts(old(tags)@) + texts(more@)),
        texts(final(tags)@) == first_occurrences(texts(final(tags)@)),
{
    let ghost start = texts(tags@);
    let ghost added = texts(more@);
    let mut i: usize = 0;
    assert(start + added.take(0) =~= start);
    while i < more.len()
        invariant
            i <= more.len(),
            added == texts(more@),
            texts(tags@) == first_occurrences(start + added.take(i as int)),
        decreases more.len() - i,
    {
        let tag = &more[i];
        proof {
            let t = start + added.take(i + 1);
            assert(t.drop_last() =~= start + added.take(i as int));
            assert(t.last() == tag@);
        }
        let ghost before = texts(tags@);
        if !holds_tag(tags, tag.as_str()) {
            tags.push(tag.clone());
            assert(texts(tags@) =~= before.push(tag@));
        }
        i = i + 1;
    }
    assert(added.take(more.len() as int) =~= added);
    proof {
        lemma_first_occurrences_fixed(start + added);
    }
}

/// The first occurrences of a list of first occurrences are the list.
pub proof fn lemma_first_occurrences_fixed(tags: Seq<Seq<char>>)
    ensures
        first_occurrences(first_occurrences(tags)) == first_occurrences(tags),
    decreases tags.len(),
{
    if tags.len() > 0 {
        let rest = tags.drop_last();
        let rr = first_occurrences(rest);
        lemma_first_occurrences_fixed(rest);
        if !rr.contains(tags.last()) {
            let r = rr.push(tags.last());
            assert(r.drop_last() =~= rr);
            assert(r.last() == tags.last());
        }
    }
}

/// The number of posts to take next, when `tagged` posts were taken so far:
/// a batch, but no more than the limit leaves; none where the limit is
/// reached.
pub fn next_batch_size(limit: Option<usize>, batch_size: usize, tagged: usize) -> (r: Option<usize>)
    ensures
        r == match limit {
            Some(most) => if tagged >= most {
                None
            } else if batch_size <= most - tagged {
                Some(batch_size)
            } else {
                Some((most - tagged) as usize)
            },
            None => Some(batch_size),
        },
{
    match limit {
        Some(most) => {
            if tagged >= most {
                None
            } else if batch_size <= most - tagged {
                Some(batch_size)
            } else {
                Some(most - tagged)
            }
        },
        None => Some(batch_size),
    }
}

} // verus!
