use crate::text::starts_with_char;
use vstd::prelude::*;

verus! {

/// A sentence: its tokens and the entities named in it.
#[derive(Clone, Debug)]
pub struct Sentence {
    pub tokens: Vec<Token>,
    pub entities: Vec<Entity>,
}

/// The tokens of all the sentences, in order.
pub open spec fn all_tokens(sentences: Seq<Sentence>) -> Seq<Token>
    decreases sentences.len(),
{
    if sentences.len() == 0 {
        Seq::empty()
    } else {
        all_tokens(sentences.drop_last()) + sentences.last().tokens@
    }
}

/// The entities of all the sentences, in order.
pub open spec fn all_entities(sentences: Seq<Sentence>) -> Seq<Entity>
    decreases sentences.len(),
{
    if sentences.len() == 0 {
        Seq::empty()
    } else {
        all_entities(sentences.drop_last()) + sentences.last().entities@
    }
}

impl Sentence {
    /// Joins sentences into one, which holds the tokens and the entities of
    /// all of them in order.
    pub fn join(sentences: Vec<Sentence>) -> (r: Sentence)
        ensures
            r.tokens@ == all_tokens(sentences@),
            r.entities@ == all_entities(sentences@),
    {
        let mut tokens: Vec<Token> = Vec::new();
        let mut entities: Vec<Entity> = Vec::new();
        let mut rest = sentences;
        let ghost all = rest@;
        let mut tail_tokens: Vec<Vec<Token>> = Vec::new();
        let mut tail_entities: Vec<Vec<Entity>> = Vec::new();
        while rest.len() > 0
            invariant
                rest@ == all.take(rest.len() as int),
                tail_tokens.len() == all.len() - rest.len(),
                tail_entities.len() == all.len() - rest.len(),
                forall|i: int|
                    0 <= i < tail_tokens.len() ==> (#[trigger] tail_tokens@[i])@ == all[all.len()
                        - 1 - i].tokens@,
                forall|i: int|
                    0 <= i < tail_entities.len() ==> (#[trigger] tail_entities@[i])@
                        == all[all.len() - 1 - i].entities@,
            decreases rest.len(),
        {
            let sentence = rest.pop().unwrap();
            tail_tokens.push(sentence.tokens);
            tail_entities.push(sentence.entities);
            assert(rest@ =~= all.take(rest.len() as int));
        }
        assert(tokens@ =~= all_tokens(all.take(0)));
        assert(entities@ =~= all_entities(all.take(0)));
        while tail_tokens.len() > 0
            invariant
                tail_tokens.len() == tail_entities.len() <= all.len(),
                tokens@ == all_tokens(all.take(all.len() - tail_tokens.len())),
                entities@ == all_entities(all.take(all.len() - tail_tokens.len())),
                forall|i: int|
                    0 <= i < tail_tokens.len() ==> (#[trigger] tail_tokens@[i])@ == all[all.len()
                        - 1 - i].tokens@,
                forall|i: int|
                    0 <= i < tail_entities.len() ==> (#[trigger] tail_entities@[i])@
                        == all[all.len() - 1 - i].entities@,
            decreases tail_tokens.len(),
        {
            let ghost k = all.len() - tail_tokens.len();
            let ghost last_tokens = tail_tokens@[tail_tokens.len() - 1]@;
            let ghost last_entities = tail_entities@[tail_entities.len() - 1]@;
            let mut next_tokens = tail_tokens.pop().unwrap();
            let mut next_entities = tail_entities.pop().unwrap();
            tokens.append(&mut next_tokens);
            entities.append(&mut next_entities);
            proof {
                let t = all.take(k + 1);
                assert(t.drop_last() =~= all.take(k));
                assert(t.last() == all[k]);
                assert(last_tokens == all[k].tokens@);
                assert(last_entities == all[k].entities@);
            }
        }
        assert(all.take(all.len() as int) =~= all);
        Sentence { tokens, entities }
    }
}

/// A token: a word of a sentence as written and as stemmed, with its tag.
#[derive(Clone, Debug)]
pub struct Token {
    pub full: Text,
    pub stem: Text,
    pub tag: Tag,
    pub label: String,
}

impl Token {
    /// Whether the token is a stop word: one without a cleaned form.
    pub fn is_stopword(&self) -> (r: bool)
        ensures
            r == (self.full.cleaned is None),
    {
        self.full.cleaned.is_none()
    }

    /// Whether the token mentions a user: it starts with `@`.
    pub fn is_at_mention(&self) -> (r: bool)
        ensures
            r == (self.full.raw@.len() > 0 && self.full.raw@[0] == '@'),
    {
        starts_with_char(self.full.raw.as_str(), '@')
    }

    /// Whether the token is a hashtag: it starts with `#`.
    pub fn is_hashtag(&self) -> (r: bool)
        ensures
            r == (self.full.raw@.len() > 0 && self.full.raw@[0] == '#'),
    {
        starts_with_char(self.full.raw.as_str(), '#')
    }

    /// Whether the token starts with an apostrophe.
    pub fn is_apostrophe(&self) -> (r: bool)
        ensures
            r == (self.full.raw@.len() > 0 && self.full.raw@[0] == '\''),
    {
        starts_with_char(self.full.raw.as_str(), '\'')
    }
}

/// A text as written, and cleaned where a cleaned form exists.
#[derive(Clone, Debug)]
pub struct Text {
    pub raw: String,
    pub cleaned: Option<String>,
}

/// An entity named in a sentence.
#[derive(Clone, Debug)]
pub struct Entity {
    pub text: String,
    pub label: String,
}

/// The part of speech of a token, by the tags of the Penn Treebank.
#[derive(Clone, Debug)]
pub enum Tag {
    LParen,
    RParen,
    Comma,
    Colon,
    Period,
    ClosingQuote,
    OpeningQuote,
    NumberSign,
    Currency,
    /// Conjunction, coordinating
    CC,
    /// Cardinal number
    CD,
    /// Determiner
    DT,
    /// Existential there
    EX,
    /// Foreign word
    FW,
    /// Conjunction, subordinating or preposition
    IN,
    /// Adjective
    JJ,
    /// Adjective, comparative
    JJR,
    /// Adjective, superlative
    JJS,
    /// List marker
    LS,
    /// Modal
    MD,
    /// Noun, singular or mass
    NN,
    /// noun, proper singular
    NNP,
    /// Noun, proper plural
    NNPS,
    /// Noun, plural
    NNS,
    /// Predeterminer
    PDT,
    /// Possessive ending
    POS,
    /// Pronoun, personal
    PRP,
    /// Pronoun, possessive
    PRPS,
    /// Adverb
    RB,
    /// Adverb, comparative
    RBR,
    /// Adverb, superlative
    RBS,
    /// Adverb, particle
    RP,
    /// Symbol
    SYM,
    /// Infinitival to
    TO,
    /// Interjection
    UH,
    /// Verb, base form
    VB,
    /// Verb, past tense
    VBD,
    /// Verb, gerund or present participle
    VBG,
    /// Verb, past participle
    VBN,
    /// Verb, non-3rd person singular present
    VBP,
    /// Verb, 3rd person singular present
    VBZ,
    /// Wh-determiner
    WDT,
    /// Wh-pronoun, personal
    WP,
    /// Wh-pronoun, possessive
    WPS,
    /// Wh-adverb
    WRB,
    Other(String),
}

impl Tag {
    /// Whether the tag is one of the four noun tags.
    pub fn is_noun(&self) -> (r: bool)
        ensures
            r == (self is NN || self is NNP || self is NNPS || self is NNS),
    {
        match self {
            Tag::NN => true,
            Tag::NNP => true,
            Tag::NNPS => true,
            Tag::NNS => true,
            _ => false,
        }
    }

    /// Whether the tag is one of the six verb tags.
    pub fn is_verb(&self) -> (r: bool)
        ensures
            r == (self is VB || self is VBD || self is VBG || self is VBN || self is VBP
                || self is VBZ),
    {
        match self {
            Tag::VB => true,
            Tag::VBD => true,
            Tag::VBG => true,
            Tag::VBN => true,
            Tag::VBP => true,
            Tag::VBZ => true,
            _ => false,
        }
    }

    /// Whether the tag is one of the three adjective tags.
    pub fn is_adjective(&self) -> (r: bool)
        ensures
            r == (self is JJ || self is JJR || self is JJS),
    {
        match self {
            Tag::JJ => true,
            Tag::JJR => true,
            Tag::JJS => true,
            _ => false,
        }
    }
}

} // verus!
