//! From the fields of a response of the service, as they come off the wire,
//! to the data of this crate.

use crate::nlpewee::data::{Entity, Sentence, Tag, Text, Token};
use crate::nlpewee::error::{required, DeserializationError};
use vstd::prelude::*;

verus! {

/// A text as the service sends it: an empty cleaned form stands for none.
pub struct WireText {
    pub raw: String,
    pub cleaned: String,
}

/// A tag as the service sends it: one of the tags that it numbers, decoded
/// where the number is one of a tag, or a tag written out.
pub enum WirePosTag {
    Tag(Option<Tag>),
    Other(String),
}

/// A token as the service sends it: any of its parts may be missing.
pub struct WireToken {
    pub full: Option<WireText>,
    pub stem: Option<WireText>,
    pub pos_tag: Option<WirePosTag>,
    pub label: String,
}

/// A sentence as the service sends it.
pub struct WireSentence {
    pub tokens: Vec<WireToken>,
    pub entities: Vec<Entity>,
}

/// Reads a text: an empty cleaned form is none.
pub fn deserialize_text(text: WireText) -> (r: Text)
    ensures
        r.raw == text.raw,
        r.cleaned == if text.cleaned@.len() == 0 {
            None
        } else {
            Some(text.cleaned)
        },
{
    let WireText { raw, cleaned } = text;
    if cleaned.as_str().is_empty() {
        Text { raw, cleaned: None }
    } else {
        Text { raw, cleaned: Some(cleaned) }
    }
}

/// Reads a tag: a number that is none of a tag is out of range.
pub fn deserialize_tag(tag: WirePosTag) -> (r: Result<Tag, DeserializationError>)
    ensures
        match tag {
            WirePosTag::Tag(Some(t)) => r == Ok::<Tag, DeserializationError>(t),
            WirePosTag::Tag(None) => r == Err::<Tag, DeserializationError>(
                DeserializationError::FieldOutOfRange,
            ),
            WirePosTag::Other(s) => r == Ok::<Tag, DeserializationError>(Tag::Other(s)),
        },
{
    match tag {
        WirePosTag::Tag(Some(t)) => Ok(t),
        WirePosTag::Tag(None) => Err(DeserializationError::FieldOutOfRange),
        WirePosTag::Other(s) => Ok(Tag::Other(s)),
    }
}

/// What reading a token gives: the token, or the error for the first of its
/// parts, in the order full, stem, tag, that is missing or out of range.
pub open spec fn token_spec(token: WireToken) -> Result<Token, DeserializationError> {
    match (token.full, token.stem, token.pos_tag) {
        (None, _, _) => Err(DeserializationError::FieldMissing),
        (Some(_), None, _) => Err(DeserializationError::FieldMissing),
        (Some(_), Some(_), None) => Err(DeserializationError::FieldMissing),
        (Some(_), Some(_), Some(WirePosTag::Tag(None))) => Err(
            DeserializationError::FieldOutOfRange,
        ),
        (Some(full), Some(stem), Some(WirePosTag::Tag(Some(tag)))) => Ok(
            Token { full: text_spec(full), stem: text_spec(stem), tag, label: token.label },
        ),
        (Some(full), Some(stem), Some(WirePosTag::Other(s))) => Ok(
            Token {
                full: text_spec(full),
                stem: text_spec(stem),
                tag: Tag::Other(s),
                label: token.label,
            },
        ),
    }
}

/// What reading a text gives.
pub open spec fn text_spec(text: WireText) -> Text {
    Text {
        raw: text.raw,
        cleaned: if text.cleaned@.len() == 0 {
            None
        } else {
            Some(text.cleaned)
        },
    }
}

/// Reads a token.
pub fn deserialize_token(token: WireToken) -> (r: Result<Token, DeserializationError>)
    ensures
        r == token_spec(token),
{
    let WireToken { full, stem, pos_tag, label } = token;
    let full = match required(full) {
        Ok(text) => deserialize_text(text),
        Err(e) => {
            return Err(e);
        },
    };
    let stem = match required(stem) {
        Ok(text) => deserialize_text(text),
        Err(e) => {
            return Err(e);
        },
    };
    let tag = match required(pos_tag) {
        Ok(tag) => match deserialize_tag(tag) {
            Ok(tag) => tag,
            Err(e) => {
                return Err(e);
            },
        },
        Err(e) => {
            return Err(e);
        },
    };
    Ok(Token { full, stem, tag, label })
}

/// What reading a list of tokens gives: all the tokens in order, or the
/// error of the first that cannot be read.
pub open spec fn tokens_spec(tokens: Seq<WireToken>) -> Result<Seq<Token>, DeserializationError>
    decreases tokens.len(),
{
    if tokens.len() == 0 {
        Ok(Seq::empty())
    } else {
        match tokens_spec(tokens.drop_last()) {
            Err(e) => Err(e),
            Ok(read) => match token_spec(tokens.last()) {
                Err(e) => Err(e),
                Ok(token) => Ok(read.push(token)),
            },
        }
    }
}

/// Reads a sentence: its tokens in order and its entities as they are, or
/// the error of the first token that cannot be read.
pub fn deserialize_sentence(sentence: WireSentence) -> (r: Result<Sentence, DeserializationError>)
    ensures
        match tokens_spec(sentence.tokens@) {
            Ok(tokens) => r matches Ok(s) && s.tokens@ == tokens && s.entities
                == sentence.entities,
            Err(e) => r == Err::<Sentence, DeserializationError>(e),
        },
{
    let WireSentence { tokens, entities } = sentence;
    let ghost all = tokens@;
    let mut rest = tokens;
    let mut read: Vec<Token> = Vec::new();
    // The tokens are taken from the end, so those read stand in reverse.
    let mut reversed: Vec<WireToken> = Vec::new();
    while rest.len() > 0
        invariant
            rest@ == all.take(rest.len() as int),
            reversed.len() == all.len() - rest.len(),
            forall|i: int|
                0 <= i < reversed.len() ==> #[trigger] reversed@[i] == all[all.len() - 1 - i],
        decreases rest.len(),
    {
        let token = rest.pop().unwrap();
        reversed.push(token);
        assert(rest@ =~= all.take(rest.len() as int));
    }
    assert(all.take(0) =~= Seq::<WireToken>::empty());
    while reversed.len() > 0
        invariant
            reversed.len() <= all.len(),
            all == sentence.tokens@,
            tokens_spec(all.take(all.len() - reversed.len())) == Ok::<
                Seq<Token>,
                DeserializationError,
            >(read@),
            forall|i: int|
                0 <= i < reversed.len() ==> #[trigger] reversed@[i] == all[all.len() - 1 - i],
        decreases reversed.len(),
    {
        let ghost k = all.len() - reversed.len();
        let token = reversed.pop().unwrap();
        assert(token == all[k]);
        proof {
            assert(all.take(k + 1).drop_last() =~= all.take(k));
            assert(all.take(k + 1).last() == all[k]);
            lemma_tokens_prefix_error(all, k + 1);
        }
        match deserialize_token(token) {
            Ok(t) => {
                read.push(t);
            },
            Err(e) => {
                return Err(e);
            },
        }
    }
    assert(all.take(all.len() as int) =~= all);
    Ok(Sentence { tokens: read, entities })
}

/// An error in reading the first `n` tokens is the error of reading all.
pub proof fn lemma_tokens_prefix_error(tokens: Seq<WireToken>, n: int)
    requires
        0 <= n <= tokens.len(),
    ensures
        tokens_spec(tokens.take(n)) matches Err(e) ==> tokens_spec(tokens) == Err::<
            Seq<Token>,
            DeserializationError,
        >(e),
    decreases tokens.len() - n,
{
    if n == tokens.len() {
        assert(tokens.take(n) =~= tokens);
    } else {
        assert(tokens.take(n + 1).drop_last() =~= tokens.take(n));
        lemma_tokens_prefix_error(tokens, n + 1);
    }
}

} // verus!
