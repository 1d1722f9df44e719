//! The identity of a robot, and robots as the database gives them.

use crate::numbers::{digit_value, is_digit};
use crate::sbb_data::model::{full_name_spec, write_full_name, LINK_BASE};
use crate::text::{
    chars_of, decimal_int, first_index, push_char, push_decimal_int, push_str, split_once_char,
};
use vstd::prelude::*;

verus! {

/// The identity of a robot: its number and the slug of its name. No two
/// robots in the database have the same.
#[derive(Debug)]
pub struct IdentBuf {
    pub number: i32,
    pub name: String,
}

impl View for IdentBuf {
    type V = (int, Seq<char>);

    open spec fn view(&self) -> (int, Seq<char>) {
        (self.number as int, self.name@)
    }
}

impl Clone for IdentBuf {
    fn clone(&self) -> (r: Self)
        ensures
            r == *self,
    {
        IdentBuf { number: self.number, name: self.name.clone() }
    }
}

/// Why a text is no 32-bit integer.
#[derive(Clone, Copy, Debug, PartialEq, Eq)]
pub enum NumberError {
    /// The text is empty.
    Empty,
    /// A character is no digit, or the text is nothing but a sign.
    InvalidDigit,
    /// The number is too large.
    PosOverflow,
    /// The number is too small.
    NegOverflow,
}

/// Why a text is no identity.
#[derive(Debug)]
pub enum ParseIdentError {
    MissingSlash,
    InvalidNumber(NumberError),
}

/// The number that the digits `ds` continue from `acc`, from left to right;
/// the digits count downwards where the number is negative. The error is that
/// of the first character that is no digit or that takes the number out of
/// the 32-bit integers.
pub open spec fn read_digits(acc: int, neg: bool, ds: Seq<char>) -> Result<int, NumberError>
    decreases ds.len(),
{
    if ds.len() == 0 {
        Ok(acc)
    } else if !is_digit(ds[0]) {
        Err(NumberError::InvalidDigit)
    } else {
        let next = if neg {
            acc * 10 - digit_value(ds[0])
        } else {
            acc * 10 + digit_value(ds[0])
        };
        if next > i32::MAX {
            Err(NumberError::PosOverflow)
        } else if next < i32::MIN {
            Err(NumberError::NegOverflow)
        } else {
            read_digits(next, neg, ds.drop_first())
        }
    }
}

/// The 32-bit integer that `s` writes in decimal: digits, after a `+` or a
/// `-` where there is one.
pub open spec fn read_i32(s: Seq<char>) -> Result<int, NumberError> {
    if s.len() == 0 {
        Err(NumberError::Empty)
    } else if s[0] == '-' || s[0] == '+' {
        if s.len() == 1 {
            Err(NumberError::InvalidDigit)
        } else {
            read_digits(0, s[0] == '-', s.drop_first())
        }
    } else {
        read_digits(0, false, s)
    }
}

/// Reads a 32-bit integer written in decimal.
pub fn parse_i32(s: &str) -> (r: Result<i32, NumberError>)
    ensures
        match read_i32(s@) {
            Ok(n) => r == Ok::<i32, NumberError>(n as i32) && n == n as i32,
            Err(e) => r == Err::<i32, NumberError>(e),
        },
{
    let cs = chars_of(s);
    if cs.len() == 0 {
        return Err(NumberError::Empty);
    }
    let signed = cs[0] == '-' || cs[0] == '+';
    let neg = cs[0] == '-';
    if signed && cs.len() == 1 {
        return Err(NumberError::InvalidDigit);
    }
    let mut i: usize = if signed {
        1
    } else {
        0
    };
    let mut acc: i64 = 0;
    assert(cs@.skip(0) =~= cs@);
    assert(cs@.skip(1) =~= cs@.drop_first());
    while i < cs.len()
        invariant
            i <= cs.len(),
            cs@ == s@,
            i32::MIN <= acc <= i32::MAX,
            read_i32(s@) == read_digits(acc as int, neg, cs@.skip(i as int)),
        decreases cs.len() - i,
    {
        let c = cs[i];
        proof {
            let t = cs@.skip(i as int);
            assert(t[0] == c);
            assert(t.drop_first() =~= cs@.skip(i + 1));
        }
        if !(c >= '0' && c <= '9') {
            return Err(NumberError::InvalidDigit);
        }
        let d: i64 = (c as u32 - 48) as i64;
        let next: i64 = if neg {
            acc * 10 - d
        } else {
            acc * 10 + d
        };
        if next > 0x7fff_ffff {
            return Err(NumberError::PosOverflow);
        }
        if next < -0x8000_0000 {
            return Err(NumberError::NegOverflow);
        }
        acc = next;
        i = i + 1;
    }
    Ok(acc as i32)
}

/// What reading an identity from `s` gives: the number before the first `/`
/// and the name after it.
pub open spec fn read_ident(s: Seq<char>) -> Result<(int, Seq<char>), ParseIdentError> {
    let at = first_index(s, '/');
    if at == s.len() {
        Err(ParseIdentError::MissingSlash)
    } else {
        match read_i32(s.take(at)) {
            Ok(number) => Ok((number, s.skip(at + 1))),
            Err(e) => Err(ParseIdentError::InvalidNumber(e)),
        }
    }
}

impl IdentBuf {
    pub fn new(number: i32, name: String) -> (r: Self)
        ensures
            r.number == number,
            r.name == name,
    {
        Self { number, name }
    }

    /// The identity as a text: the number, a `/`, and the name.
    pub fn to_string(&self) -> (r: String)
        ensures
            r@ == decimal_int(self.number as int) + seq!['/'] + self.name@,
    {
        let mut out = String::new();
        push_decimal_int(&mut out, self.number as i64);
        push_char(&mut out, '/');
        push_str(&mut out, self.name.as_str());
        assert(decimal_int(self.number as int).push('/') =~= decimal_int(self.number as int)
            + seq!['/']);
        out
    }

    /// Reads an identity from a text: a number, a `/`, and a name.
    pub fn parse(s: &str) -> (r: Result<IdentBuf, ParseIdentError>)
        ensures
            match read_ident(s@) {
                Ok((number, name)) => r matches Ok(id) && id.number == number && id.name@ == name,
                Err(e) => r matches Err(x) && x == e,
            },
    {
        let (number, name) = match split_once_char(s, '/') {
            Some(parts) => parts,
            None => {
                return Err(ParseIdentError::MissingSlash);
            },
        };
        match parse_i32(number) {
            Ok(n) => Ok(IdentBuf::new(n, name.to_owned())),
            Err(e) => Err(ParseIdentError::InvalidNumber(e)),
        }
    }
}

impl ParseIdentError {
    /// The message of the error.
    pub fn message(&self) -> (r: &'static str)
        ensures
            r@ == match self {
                ParseIdentError::MissingSlash => "missing slash separator"@,
                ParseIdentError::InvalidNumber(NumberError::Empty) =>
                    "cannot parse integer from empty string"@,
                ParseIdentError::InvalidNumber(NumberError::InvalidDigit) =>
                    "invalid digit found in string"@,
                ParseIdentError::InvalidNumber(NumberError::PosOverflow) =>
                    "number too large to fit in target type"@,
                ParseIdentError::InvalidNumber(NumberError::NegOverflow) =>
                    "number too small to fit in target type"@,
            },
    {
        match self {
            ParseIdentError::MissingSlash => "missing slash separator",
            ParseIdentError::InvalidNumber(NumberError::Empty) =>
                "cannot parse integer from empty string",
            ParseIdentError::InvalidNumber(NumberError::InvalidDigit) =>
                "invalid digit found in string",
            ParseIdentError::InvalidNumber(NumberError::PosOverflow) =>
                "number too large to fit in target type",
            ParseIdentError::InvalidNumber(NumberError::NegOverflow) =>
                "number too small to fit in target type",
        }
    }
}

/// The id of a post, in the form in which the database holds it.
#[derive(Clone, Copy, Debug, PartialEq, Eq)]
pub struct TweetId {
    pub tweet_id: i64,
}

impl TweetId {
    /// The line that lists the id: its decimal numeral and a line feed.
    pub fn line(&self) -> (r: String)
        ensures
            r@ == decimal_int(self.tweet_id as int) + seq!['\n'],
    {
        let mut out = String::new();
        push_decimal_int(&mut out, self.tweet_id);
        push_char(&mut out, '\n');
        assert(decimal_int(self.tweet_id as int).push('\n') =~= decimal_int(self.tweet_id as int)
            + seq!['\n']);
        out
    }
}

/// A robot as it is picked for the robot of the day.
#[derive(Clone, Debug)]
pub struct DailyRobot {
    pub id: IdentBuf,
    pub prefix: String,
    pub suffix: String,
    pub plural: Option<String>,
    pub tweet_id: i64,
    pub content_warning: Option<String>,
}

impl DailyRobot {
    /// The name of the robot as the post wrote it.
    pub fn full_name(&self) -> (r: String)
        ensures
            r@ == full_name_spec(self.prefix@, self.suffix@, self.plural),
    {
        write_full_name(self.prefix.as_str(), self.suffix.as_str(), &self.plural)
    }

    /// The address of the post that announced the robot.
    pub fn tweet_url(&self) -> (r: String)
        ensures
            r@ == LINK_BASE@ + decimal_int(self.tweet_id as int),
    {
        let mut url = String::new();
        push_str(&mut url, LINK_BASE);
        push_decimal_int(&mut url, self.tweet_id);
        url
    }
}

} // verus!
