//! The names under which the pictures of the robots are kept, and the
//! addresses from which they are fetched.

use crate::text::{chars_of, decimal_int, push_char, push_decimal_int, push_str};
use vstd::prelude::*;
use vstd::string::StrSliceExecFns;

verus! {

/// The character that writes the hexadecimal digit `d`, in lowercase.
pub open spec fn hex_char(d: nat) -> char
    recommends
        d < 16,
{
    if d < 10 {
        ((48 + d) as u8) as char
    } else {
        ((87 + d) as u8) as char
    }
}

/// The hexadecimal numeral of `n`, in lowercase and without leading zeros.
pub open spec fn hex(n: nat) -> Seq<char>
    decreases n,
{
    if n < 16 {
        seq![hex_char(n)]
    } else {
        hex(n / 16).push(hex_char(n % 16))
    }
}

/// The character that writes a hexadecimal digit.
fn hex_digit(d: u8) -> (r: char)
    requires
        d < 16,
    ensures
        r == hex_char(d as nat),
{
    if d < 10 {
        (48 + d) as char
    } else {
        (87 + d) as char
    }
}

/// Appends the hexadecimal numeral of `n` to `s`.
pub fn push_hex(s: &mut String, n: u128)
    ensures
        final(s)@ == old(s)@ + hex(n as nat),
{
    let mut digits: Vec<char> = Vec::new();
    let mut rest: u128 = n;
    while rest >= 16
        invariant
            hex(n as nat) == hex(rest as nat) + digits@.reverse(),
        decreases rest,
    {
        let d: u8 = (rest % 16) as u8;
        let ghost before = digits@;
        digits.push(hex_digit(d));
        proof {
            assert(hex(rest as nat) == hex((rest / 16) as nat).push(hex_char((rest % 16) as nat)));
            assert(digits@.reverse() =~= seq![hex_char((rest % 16) as nat)] + before.reverse());
            assert(hex((rest / 16) as nat).push(hex_char((rest % 16) as nat)) + before.reverse()
                =~= hex((rest / 16) as nat) + digits@.reverse());
        }
        rest = rest / 16;
    }
    push_char(s, hex_digit(rest as u8));
    let mut i: usize = digits.len();
    while i > 0
        invariant
            i <= digits.len(),
            s@ == old(s)@ + hex(rest as nat) + digits@.reverse().take(digits.len() - i),
        decreases i,
    {
        i = i - 1;
        push_char(s, digits[i]);
        proof {
            let r = digits@.reverse();
            let k = digits.len() - i - 1;
            assert(r[k] == digits@[i as int]);
            assert(r.take(k + 1) =~= r.take(k).push(r[k]));
            assert((old(s)@ + hex(rest as nat) + r.take(k)).push(r[k]) =~= old(s)@ + hex(
                rest as nat,
            ) + r.take(k + 1));
        }
    }
    proof {
        let r = digits@.reverse();
        assert(r.take(digits.len() as int) =~= r);
        assert(old(s)@ + hex(rest as nat) + r =~= old(s)@ + (hex(rest as nat) + r));
    }
}

/// The name of the file of a picture: the kind of the picture, the id of the
/// robot and a token in hexadecimal, with underscores between them, and the
/// extension after a dot. The token tells files of one robot apart.
pub fn image_file_name(image_type: &str, id: i32, token: u128, extension: &str) -> (r: String)
    ensures
        r@ == image_type@ + seq!['_'] + decimal_int(id as int) + seq!['_'] + hex(token as nat)
            + seq!['.'] + extension@,
{
    let mut name = String::new();
    push_str(&mut name, image_type);
    push_char(&mut name, '_');
    push_decimal_int(&mut name, id as i64);
    push_char(&mut name, '_');
    push_hex(&mut name, token);
    push_char(&mut name, '.');
    push_str(&mut name, extension);
    proof {
        let a = image_type@;
        assert(a.push('_') =~= a + seq!['_']);
        let b = a + seq!['_'] + decimal_int(id as int);
        assert(b.push('_') =~= b + seq!['_']);
        let c = b + seq!['_'] + hex(token as nat);
        assert(c.push('.') =~= c + seq!['.']);
    }
    name
}

/// The index after the last `c` in `s`, or zero where there is none.
pub open spec fn after_last(s: Seq<char>, c: char) -> int
    decreases s.len(),
{
    if s.len() == 0 {
        0
    } else if s.last() == c {
        s.len() as int
    } else {
        after_last(s.drop_last(), c)
    }
}

/// The path without the extension of its last part: what stands before the
/// last dot after the last slash. None where the path has no slash, or no
/// dot after the last one.
pub open spec fn without_extension(path: Seq<char>) -> Option<Seq<char>> {
    let part = after_last(path, '/');
    let dot = after_last(path.skip(part), '.');
    if part == 0 || dot == 0 {
        None
    } else {
        Some(path.take(part + dot - 1))
    }
}

/// The index after the last `c` among the characters from `from` on, counted
/// from `from`.
fn index_after_last(cs: &Vec<char>, from: usize, c: char) -> (r: usize)
    requires
        from <= cs.len(),
    ensures
        r == after_last(cs@.skip(from as int), c),
        r <= cs.len() - from,
{
    let mut found: usize = 0;
    let mut i: usize = from;
    assert(cs@.skip(from as int).take(0) =~= Seq::<char>::empty());
    while i < cs.len()
        invariant
            from <= i <= cs.len(),
            found <= i - from,
            found == after_last(cs@.skip(from as int).take(i - from), c),
        decreases cs.len() - i,
    {
        proof {
            let t = cs@.skip(from as int).take(i - from + 1);
            assert(t.last() == cs@[i as int]);
            assert(t.drop_last() =~= cs@.skip(from as int).take(i - from));
        }
        if cs[i] == c {
            found = i - from + 1;
        }
        i = i + 1;
    }
    assert(cs@.skip(from as int).take(cs.len() - from) =~= cs@.skip(from as int));
    found
}

/// The path of the address of a picture without the extension of its last
/// part.
pub fn path_without_extension<'a>(path: &'a str) -> (r: Option<&'a str>)
    ensures
        match without_extension(path@) {
            Some(p) => r matches Some(x) && x@ == p,
            None => r is None,
        },
{
    let cs = chars_of(path);
    assert(cs@.skip(0) =~= cs@);
    let part = index_after_last(&cs, 0, '/');
    if part == 0 {
        return None;
    }
    let dot = index_after_last(&cs, part, '.');
    if dot == 0 {
        return None;
    }
    assert(path@.subrange(0, part + dot - 1) =~= path@.take(part + dot - 1));
    Some(path.substring_char(0, part + dot - 1))
}

} // verus!
