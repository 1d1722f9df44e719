//! Text primitives shared by the parser and the identity deriver: byte spans of
//! a string, whitespace trimming and the few string operations of the standard
//! library that the rest of the crate is built on.

use vstd::prelude::*;
use vstd::string::*;
use vstd::utf8::*;

verus! {

/// Whether `c` has the Unicode property `White_Space`, as `char::is_whitespace`
/// reports it.
pub uninterp spec fn white_space(c: char) -> bool;

/// The lowercase form of a text, as `str::to_lowercase` produces it.
pub uninterp spec fn lowercase(s: Seq<char>) -> Seq<char>;

/// `s` without its leading whitespace.
pub open spec fn trim_start_spec(s: Seq<char>) -> Seq<char>
    decreases s.len(),
{
    if s.len() > 0 && white_space(s[0]) {
        trim_start_spec(s.drop_first())
    } else {
        s
    }
}

/// `s` without its trailing whitespace.
pub open spec fn trim_end_spec(s: Seq<char>) -> Seq<char>
    decreases s.len(),
{
    if s.len() > 0 && white_space(s.last()) {
        trim_end_spec(s.drop_last())
    } else {
        s
    }
}

/// `s` without leading and trailing whitespace.
pub open spec fn trim_spec(s: Seq<char>) -> Seq<char> {
    trim_end_spec(trim_start_spec(s))
}

/// The length of the run of non-whitespace characters at the start of `s`.
pub open spec fn word_len(s: Seq<char>) -> int
    decreases s.len(),
{
    if s.len() > 0 && !white_space(s[0]) {
        1 + word_len(s.drop_first())
    } else {
        0
    }
}

/// The maximal runs of non-whitespace characters of `s`, in order.
pub open spec fn words(s: Seq<char>) -> Seq<Seq<char>>
    decreases s.len(),
    via words_decreases
{
    let t = trim_start_spec(s);
    if t.len() == 0 {
        seq![]
    } else {
        seq![t.take(word_len(t))] + words(t.skip(word_len(t)))
    }
}

#[via_fn]
proof fn words_decreases(s: Seq<char>) {
    let t = trim_start_spec(s);
    if t.len() != 0 {
        lemma_trim_start_head(s);
        lemma_word_len(t);
    }
}

/// A text without its leading whitespace is no longer than the text, and
/// does not start with whitespace.
pub proof fn lemma_trim_start_head(s: Seq<char>)
    ensures
        trim_start_spec(s).len() <= s.len(),
        trim_start_spec(s).len() > 0 ==> !white_space(trim_start_spec(s)[0]),
    decreases s.len(),
{
    if s.len() > 0 && white_space(s[0]) {
        lemma_trim_start_head(s.drop_first());
    }
}

/// The run of non-whitespace characters at the start of a text lies in the
/// text, and is not empty where the text starts with such a character.
pub proof fn lemma_word_len(s: Seq<char>)
    ensures
        0 <= word_len(s) <= s.len(),
        s.len() > 0 && !white_space(s[0]) ==> word_len(s) > 0,
    decreases s.len(),
{
    if s.len() > 0 && !white_space(s[0]) {
        lemma_word_len(s.drop_first());
    }
}

/// The index of the first `c` in `s`, or the length of `s` when there is none.
pub open spec fn first_index(s: Seq<char>, c: char) -> int
    decreases s.len(),
{
    if s.len() == 0 || s[0] == c {
        0
    } else {
        1 + first_index(s.drop_first(), c)
    }
}

/// The first index of `c` lies in `s` or at its end, `c` stands there where
/// it lies in `s`, and no `c` stands before it.
pub proof fn lemma_first_index(s: Seq<char>, c: char)
    ensures
        0 <= first_index(s, c) <= s.len(),
        first_index(s, c) < s.len() ==> s[first_index(s, c)] == c,
        forall|i: int| 0 <= i < first_index(s, c) ==> s[i] != c,
    decreases s.len(),
{
    if s.len() == 0 || s[0] == c {
    } else {
        let t = s.drop_first();
        lemma_first_index(t, c);
        assert forall|i: int| 0 <= i < first_index(s, c) implies s[i] != c by {
            if i > 0 {
                assert(t[i - 1] == s[i]);
            }
        }
    }
}

/// What is left of a text without its leading whitespace holds no character
/// that the text does not hold.
pub proof fn lemma_trim_start_keeps(s: Seq<char>, c: char)
    ensures
        trim_start_spec(s).contains(c) ==> s.contains(c),
        trim_start_spec(s).len() <= s.len(),
    decreases s.len(),
{
    if s.len() > 0 && white_space(s[0]) {
        let t = s.drop_first();
        lemma_trim_start_keeps(t, c);
        if t.contains(c) {
            let i = choose|i: int| 0 <= i < t.len() && t[i] == c;
            assert(s[i + 1] == c);
        }
    }
}

/// What is left of a text without its trailing whitespace holds no
/// character that the text does not hold.
pub proof fn lemma_trim_end_keeps(s: Seq<char>, c: char)
    ensures
        trim_end_spec(s).contains(c) ==> s.contains(c),
        trim_end_spec(s).len() <= s.len(),
    decreases s.len(),
{
    if s.len() > 0 && white_space(s.last()) {
        let t = s.drop_last();
        lemma_trim_end_keeps(t, c);
        if t.contains(c) {
            let i = choose|i: int| 0 <= i < t.len() && t[i] == c;
            assert(s[i] == c);
        }
    }
}

/// What is left of a text without the whitespace around it holds no
/// character that the text does not hold.
pub proof fn lemma_trim_keeps(s: Seq<char>, c: char)
    ensures
        trim_spec(s).contains(c) ==> s.contains(c),
        trim_spec(s).len() <= s.len(),
{
    lemma_trim_start_keeps(s, c);
    lemma_trim_end_keeps(trim_start_spec(s), c);
}

/// A slice of a text holds no character that the text does not hold.
pub proof fn lemma_span_keeps(s: Seq<char>, start: int, end: int, c: char)
    requires
        span_in(s, start, end),
    ensures
        span_text(s, start, end).contains(c) ==> s.contains(c),
        span_text(s, start, end).len() <= s.len(),
{
    broadcast use group_utf8_lib;

    let bytes = encode_utf8(s);
    let head = bytes.subrange(0, end);
    decode_utf8_split(bytes, end);
    assert(decode_utf8(bytes) == s);
    let front = decode_utf8(head);
    let back = decode_utf8(bytes.subrange(end, bytes.len() as int));
    assert(s =~= front + back);
    lemma_boundary_in_suffix(bytes, start, end);
    // The start is a boundary of the part before the end as well.
    assert(is_char_boundary(head, start)) by {
        lemma_boundary_in_prefix(bytes, start, end);
    }
    valid_utf8_split(bytes, end);
    decode_utf8_split(head, start);
    let mid = decode_utf8(head.subrange(start, head.len() as int));
    assert(head.subrange(start, head.len() as int) =~= bytes.subrange(start, end));
    assert(front =~= decode_utf8(head.subrange(0, start)) + mid);
    if mid.contains(c) {
        let i = choose|i: int| 0 <= i < mid.len() && mid[i] == c;
        let k = decode_utf8(head.subrange(0, start)).len();
        assert(front[k + i] == c);
        assert(s[k + i] == c);
    }
}

/// A character boundary of a text is one of the part of the text before any
/// later boundary.
pub proof fn lemma_boundary_in_prefix(bytes: Seq<u8>, a: int, b: int)
    requires
        valid_utf8(bytes),
        is_char_boundary(bytes, a),
        is_char_boundary(bytes, b),
        0 <= a <= b,
    ensures
        is_char_boundary(bytes.subrange(0, b), a),
    decreases bytes.len(),
{
    broadcast use group_utf8_lib;

    lemma_boundary_in_suffix(bytes, a, b);
    let head = bytes.subrange(0, b);
    valid_utf8_split(bytes, b);
    if a == 0 {
    } else if a == b {
        is_char_boundary_start_end_of_seq(head);
    } else {
        assert(a < bytes.len());
        is_char_boundary_iff_not_is_continuation_byte(bytes, a);
        is_char_boundary_iff_not_is_continuation_byte(head, a);
        assert(head[a] == bytes[a]);
    }
}

/// The views of a list of string slices.
pub open spec fn views(v: Seq<&str>) -> Seq<Seq<char>> {
    Seq::new(v.len(), |i: int| v[i]@)
}

/// The byte offsets `start` and `end` delimit a slice of `text`: they are in
/// order, inside the text, and both fall between two characters.
pub open spec fn span_in(text: Seq<char>, start: int, end: int) -> bool {
    &&& 0 <= start <= end <= encode_utf8(text).len()
    &&& is_char_boundary(encode_utf8(text), start)
    &&& is_char_boundary(encode_utf8(text), end)
}

/// The characters of `text` between the byte offsets `start` and `end`.
pub open spec fn span_text(text: Seq<char>, start: int, end: int) -> Seq<char> {
    decode_utf8(encode_utf8(text).subrange(start, end))
}

/// The characters of `text` from the byte offset `start` on.
pub open spec fn text_from(text: Seq<char>, start: int) -> Seq<char> {
    span_text(text, start, encode_utf8(text).len() as int)
}

/// The characters of `text` before the byte offset `end`.
pub open spec fn text_before(text: Seq<char>, end: int) -> Seq<char> {
    span_text(text, 0, end)
}

/// A line without the carriage return at its end, where it has one.
pub open spec fn without_return(line: Seq<char>) -> Seq<char> {
    if line.len() > 0 && line.last() == '\r' {
        line.drop_last()
    } else {
        line
    }
}

/// The lines of a text. A line ends at a line feed, or at a carriage return
/// with a line feed after it; neither belongs to the line. What stands after
/// the last line feed is a line too, unless it is empty.
pub open spec fn lines_spec(s: Seq<char>) -> Seq<Seq<char>>
    decreases s.len(),
{
    let at = first_index(s, '\n');
    if s.len() == 0 {
        seq![]
    } else if 0 <= at < s.len() {
        seq![without_return(s.take(at))] + lines_spec(s.skip(at + 1))
    } else {
        seq![s]
    }
}

/// `char::is_whitespace`: the result is the `White_Space` property of `c`.
#[verifier::external_body]
pub(crate) fn is_whitespace(c: char) -> (r: bool)
    ensures
        r == white_space(c),
{
    c.is_whitespace()
}

/// `str::to_lowercase`: the result is the lowercase form of `s`.
#[verifier::external_body]
pub(crate) fn to_lowercase(s: &str) -> (r: String)
    ensures
        r@ == lowercase(s@),
{
    s.to_lowercase()
}

/// `String::push`: appends one character.
#[verifier::external_body]
pub(crate) fn push_char(s: &mut String, c: char)
    ensures
        final(s)@ == old(s)@.push(c),
{
    s.push(c)
}

/// What is left of a text after a character boundary is valid UTF-8, and a
/// later boundary of the text is a boundary of what is left.
pub proof fn lemma_boundary_in_suffix(bytes: Seq<u8>, a: int, b: int)
    requires
        valid_utf8(bytes),
        is_char_boundary(bytes, a),
        is_char_boundary(bytes, b),
        0 <= a <= b,
    ensures
        valid_utf8(bytes.skip(a)),
        is_char_boundary(bytes.skip(a), b - a),
        b <= bytes.len(),
    decreases bytes.len(),
{
    broadcast use group_utf8_lib;

    if a == 0 {
        assert(bytes.skip(0) =~= bytes);
        if b != 0 {
            assert(b <= bytes.len());
        }
    } else {
        assert(bytes.len() >= a);
        let rest = pop_first_scalar(bytes);
        let l = length_of_first_scalar(bytes);
        assert(valid_utf8(rest));
        assert(is_char_boundary(rest, a - l));
        assert(is_char_boundary(rest, b - l));
        if a - l < 0 {
            assert(!is_char_boundary(rest, a - l));
        }
        lemma_boundary_in_suffix(rest, a - l, b - l);
        assert(rest.skip(a - l) =~= bytes.skip(a));
    }
}

/// The slice of `text` between two byte offsets.
pub fn slice<'a>(text: &'a str, start: usize, end: usize) -> (r: &'a str)
    requires
        span_in(text@, start as int, end as int),
    ensures
        r@ == span_text(text@, start as int, end as int),
{
    proof {
        broadcast use group_utf8_lib;
        lemma_boundary_in_suffix(text.spec_bytes(), start as int, end as int);
    }
    let tail = text.split_at(start).1;
    let r = tail.split_at(end - start).0;
    proof {
        broadcast use group_utf8_lib;
        let b = text.spec_bytes();
        assert(b.skip(start as int) =~= b.subrange(start as int, b.len() as int));
        assert(tail.spec_bytes().subrange(0, end - start) =~= b.subrange(start as int, end as int));
    }
    r
}

/// The part of `text` from the byte offset `start` on.
pub fn slice_from<'a>(text: &'a str, start: usize) -> (r: &'a str)
    requires
        span_in(text@, start as int, start as int),
    ensures
        r@ == text_from(text@, start as int),
{
    proof {
        broadcast use group_utf8_lib;
    }
    text.split_at(start).1
}

/// The part of `text` before the byte offset `end`.
pub fn slice_to<'a>(text: &'a str, end: usize) -> (r: &'a str)
    requires
        span_in(text@, end as int, end as int),
    ensures
        r@ == text_before(text@, end as int),
{
    proof {
        broadcast use group_utf8_lib;
    }
    text.split_at(end).0
}

/// The characters of a string slice, in order.
pub fn chars_of(s: &str) -> (r: Vec<char>)
    ensures
        r@ == s@,
{
    broadcast use vstd::string::group_string_axioms;

    let mut r: Vec<char> = Vec::new();
    for c in it: s.chars()
        invariant
            it.seq() == s@,
            r@ == s@.take(it.index()),
    {
        assert(s@.take(it.index() + 1) =~= s@.take(it.index()).push(c));
        r.push(c);
    }
    assert(s@.take(s@.len() as int) =~= s@);
    r
}

/// Whether two string slices hold the same text.
pub fn str_eq(a: &str, b: &str) -> (r: bool)
    ensures
        r == (a@ == b@),
{
    let x = a.as_bytes();
    let y = b.as_bytes();
    proof {
        broadcast use group_utf8_lib;
        assert(decode_utf8(a.spec_bytes()) == a@);
        assert(decode_utf8(b.spec_bytes()) == b@);
    }
    if x.len() != y.len() {
        return false;
    }
    let mut i: usize = 0;
    while i < x.len()
        invariant
            i <= x.len(),
            x.len() == y.len(),
            x@ == encode_utf8(a@),
            y@ == encode_utf8(b@),
            forall|j: int| 0 <= j < i ==> x@[j] == y@[j],
        decreases x.len() - i,
    {
        if x[i] != y[i] {
            return false;
        }
        i = i + 1;
    }
    assert(x@ =~= y@);
    true
}

/// Appends a string slice.
pub fn push_str(s: &mut String, t: &str)
    ensures
        final(s)@ == old(s)@ + t@,
{
    s.append(t);
}

/// The first character of a string slice, if it has one.
pub fn first_char(s: &str) -> (r: Option<char>)
    ensures
        r == if s@.len() > 0 {
            Some(s@[0])
        } else {
            None
        },
{
    broadcast use vstd::string::group_string_axioms;

    let mut it = s.chars();
    it.next()
}

/// Whether `s` starts with the character `c`.
pub fn starts_with_char(s: &str, c: char) -> (r: bool)
    ensures
        r == (s@.len() > 0 && s@[0] == c),
{
    match first_char(s) {
        Some(first) => first == c,
        None => false,
    }
}

/// The character that writes the digit `d`.
pub open spec fn digit_char(d: nat) -> char
    recommends
        d < 10,
{
    ((48 + d) as u8) as char
}

/// The decimal numeral of `n`, without leading zeros.
pub open spec fn decimal(n: nat) -> Seq<char>
    decreases n,
{
    if n < 10 {
        seq![digit_char(n)]
    } else {
        decimal(n / 10).push(digit_char(n % 10))
    }
}

/// The decimal numeral of `n`, with a minus sign where it is negative.
pub open spec fn decimal_int(n: int) -> Seq<char> {
    if n < 0 {
        seq!['-'] + decimal((-n) as nat)
    } else {
        decimal(n as nat)
    }
}

/// Appends the decimal numeral of `n` to `s`.
pub fn push_decimal(s: &mut String, n: u64)
    ensures
        final(s)@ == old(s)@ + decimal(n as nat),
{
    let mut digits: Vec<char> = Vec::new();
    let mut rest: u64 = n;
    while rest >= 10
        invariant
            decimal(n as nat) == decimal(rest as nat) + digits@.reverse(),
        decreases rest,
    {
        let d: u8 = (rest % 10) as u8;
        let ghost before = digits@;
        digits.push((48 + d) as char);
        proof {
            assert(decimal(rest as nat) == decimal((rest / 10) as nat).push(
                digit_char((rest % 10) as nat),
            ));
            assert(digits@.reverse() =~= seq![digit_char((rest % 10) as nat)] + before.reverse());
            assert(decimal((rest / 10) as nat).push(digit_char((rest % 10) as nat))
                + before.reverse() =~= decimal((rest / 10) as nat) + digits@.reverse());
        }
        rest = rest / 10;
    }
    let lead: u8 = rest as u8;
    push_char(s, (48 + lead) as char);
    let mut i: usize = digits.len();
    while i > 0
        invariant
            i <= digits.len(),
            s@ == old(s)@ + decimal(rest as nat) + digits@.reverse().take(digits.len() - i),
        decreases i,
    {
        i = i - 1;
        push_char(s, digits[i]);
        proof {
            let r = digits@.reverse();
            let k = digits.len() - i - 1;
            assert(r[k] == digits@[i as int]);
            assert(r.take(k + 1) =~= r.take(k).push(r[k]));
            assert((old(s)@ + decimal(rest as nat) + r.take(k)).push(r[k]) =~= old(s)@ + decimal(
                rest as nat,
            ) + r.take(k + 1));
        }
    }
    proof {
        let r = digits@.reverse();
        assert(r.take(digits.len() as int) =~= r);
        assert(old(s)@ + decimal(rest as nat) + r =~= old(s)@ + (decimal(rest as nat) + r));
    }
}

/// Appends the decimal numeral of `n` to `s`, with a minus sign where `n` is
/// negative.
pub fn push_decimal_int(s: &mut String, n: i64)
    ensures
        final(s)@ == old(s)@ + decimal_int(n as int),
{
    if n < 0 {
        push_char(s, '-');
        let m: u64 = if n == i64::MIN {
            0x8000_0000_0000_0000
        } else {
            (-n) as u64
        };
        push_decimal(s, m);
        assert(old(s)@.push('-') + decimal(m as nat) =~= old(s)@ + (seq!['-'] + decimal(
            m as nat,
        )));
    } else {
        push_decimal(s, n as u64);
    }
}

/// A text whose first `k` characters are whitespace, and the next one is
/// not, is without its leading whitespace what stands after them.
pub proof fn lemma_trim_start_skip(s: Seq<char>, k: int)
    requires
        0 <= k <= s.len(),
        forall|j: int| 0 <= j < k ==> white_space(#[trigger] s[j]),
        k == s.len() || !white_space(s[k]),
    ensures
        trim_start_spec(s) == s.skip(k),
    decreases k,
{
    if k == 0 {
        assert(s.skip(0) =~= s);
    } else {
        let t = s.drop_first();
        assert forall|j: int| 0 <= j < k - 1 implies white_space(#[trigger] t[j]) by {
            assert(t[j] == s[j + 1]);
        }
        lemma_trim_start_skip(t, k - 1);
        assert(t.skip(k - 1) =~= s.skip(k));
    }
}

/// A text whose characters from `e` on are whitespace, and the one before
/// them is not, is without its trailing whitespace what stands before them.
pub proof fn lemma_trim_end_take(s: Seq<char>, e: int)
    requires
        0 <= e <= s.len(),
        forall|j: int| e <= j < s.len() ==> white_space(#[trigger] s[j]),
        e == 0 || !white_space(s[e - 1]),
    ensures
        trim_end_spec(s) == s.take(e),
    decreases s.len() - e,
{
    if e == s.len() {
        assert(s.take(e) =~= s);
    } else {
        let t = s.drop_last();
        lemma_trim_end_take(t, e);
        assert(t.take(e) =~= s.take(e));
    }
}

/// A text whose first `n` characters are no whitespace, and the next one
/// is, starts with a word of `n` characters.
pub proof fn lemma_word_len_is(s: Seq<char>, n: int)
    requires
        0 <= n <= s.len(),
        forall|j: int| 0 <= j < n ==> !white_space(#[trigger] s[j]),
        n == s.len() || white_space(s[n]),
    ensures
        word_len(s) == n,
    decreases n,
{
    if n > 0 {
        let t = s.drop_first();
        assert forall|j: int| 0 <= j < n - 1 implies !white_space(#[trigger] t[j]) by {
            assert(t[j] == s[j + 1]);
        }
        lemma_word_len_is(t, n - 1);
    }
}

/// The index before which no `c` stands and at which one does, or the text
/// ends, is the first index of `c`.
pub proof fn lemma_first_index_is(s: Seq<char>, c: char, i: int)
    requires
        0 <= i <= s.len(),
        forall|j: int| 0 <= j < i ==> #[trigger] s[j] != c,
        i == s.len() || s[i] == c,
    ensures
        first_index(s, c) == i,
    decreases i,
{
    if i > 0 {
        let t = s.drop_first();
        assert forall|j: int| 0 <= j < i - 1 implies #[trigger] t[j] != c by {
            assert(t[j] == s[j + 1]);
        }
        lemma_first_index_is(t, c, i - 1);
    }
}

/// The index of the first character from `from` on that is no whitespace,
/// or the number of characters.
fn skip_whitespace(cs: &Vec<char>, from: usize) -> (r: usize)
    requires
        from <= cs.len(),
    ensures
        from <= r <= cs.len(),
        trim_start_spec(cs@.skip(from as int)) == cs@.skip(r as int),
{
    let mut k: usize = from;
    while k < cs.len() && is_whitespace(cs[k])
        invariant
            from <= k <= cs.len(),
            forall|j: int| from <= j < k ==> white_space(#[trigger] cs@[j]),
        decreases cs.len() - k,
    {
        k = k + 1;
    }
    proof {
        let t = cs@.skip(from as int);
        assert forall|j: int| 0 <= j < k - from implies white_space(#[trigger] t[j]) by {
            assert(t[j] == cs@[from + j]);
        }
        lemma_trim_start_skip(t, k - from);
        assert(t.skip(k - from) =~= cs@.skip(k as int));
    }
    k
}

/// The index after the last character from `from` on that is no whitespace,
/// or `from`.
fn skip_whitespace_back(cs: &Vec<char>, from: usize) -> (r: usize)
    requires
        from <= cs.len(),
    ensures
        from <= r <= cs.len(),
        trim_end_spec(cs@.skip(from as int)) == cs@.subrange(from as int, r as int),
{
    let mut e: usize = cs.len();
    while e > from && is_whitespace(cs[e - 1])
        invariant
            from <= e <= cs.len(),
            forall|j: int| e <= j < cs.len() ==> white_space(#[trigger] cs@[j]),
        decreases e,
    {
        e = e - 1;
    }
    proof {
        let t = cs@.skip(from as int);
        assert forall|j: int| e - from <= j < t.len() implies white_space(#[trigger] t[j]) by {
            assert(t[j] == cs@[from + j]);
        }
        lemma_trim_end_take(t, e - from);
        assert(t.take(e - from) =~= cs@.subrange(from as int, e as int));
    }
    e
}

/// The index of the first character from `from` on that is whitespace, or
/// the number of characters.
fn skip_word(cs: &Vec<char>, from: usize) -> (r: usize)
    requires
        from <= cs.len(),
    ensures
        from <= r <= cs.len(),
        word_len(cs@.skip(from as int)) == r - from,
{
    let mut k: usize = from;
    while k < cs.len() && !is_whitespace(cs[k])
        invariant
            from <= k <= cs.len(),
            forall|j: int| from <= j < k ==> !white_space(#[trigger] cs@[j]),
        decreases cs.len() - k,
    {
        k = k + 1;
    }
    proof {
        let t = cs@.skip(from as int);
        assert forall|j: int| 0 <= j < k - from implies !white_space(#[trigger] t[j]) by {
            assert(t[j] == cs@[from + j]);
        }
        lemma_word_len_is(t, k - from);
    }
    k
}

/// The index of the first `c` from `from` on, or the number of characters.
fn find_char(cs: &Vec<char>, from: usize, c: char) -> (r: usize)
    requires
        from <= cs.len(),
    ensures
        from <= r <= cs.len(),
        first_index(cs@.skip(from as int), c) == r - from,
{
    let mut k: usize = from;
    while k < cs.len() && cs[k] != c
        invariant
            from <= k <= cs.len(),
            forall|j: int| from <= j < k ==> #[trigger] cs@[j] != c,
        decreases cs.len() - k,
    {
        k = k + 1;
    }
    proof {
        let t = cs@.skip(from as int);
        assert forall|j: int| 0 <= j < k - from implies #[trigger] t[j] != c by {
            assert(t[j] == cs@[from + j]);
        }
        lemma_first_index_is(t, c, k - from);
    }
    k
}

/// A text is encoded as its front and then its back.
pub proof fn lemma_encode_concat(a: Seq<char>, b: Seq<char>)
    ensures
        encode_utf8(a + b) == encode_utf8(a) + encode_utf8(b),
    decreases a.len(),
{
    if a.len() == 0 {
        assert(a + b =~= b);
        assert(encode_utf8(a) + encode_utf8(b) =~= encode_utf8(b));
    } else {
        assert((a + b).drop_first() =~= a.drop_first() + b);
        assert((a + b)[0] == a[0]);
        lemma_encode_concat(a.drop_first(), b);
        assert(encode_scalar(a[0] as u32) + (encode_utf8(a.drop_first()) + encode_utf8(b))
            =~= (encode_scalar(a[0] as u32) + encode_utf8(a.drop_first())) + encode_utf8(b));
    }
}

/// Where the encoding of the front of a text ends, a character of the text
/// ends.
pub proof fn lemma_boundary_after(a: Seq<char>, b: Seq<char>)
    ensures
        is_char_boundary(encode_utf8(a + b), encode_utf8(a).len() as int),
    decreases a.len(),
{
    broadcast use group_utf8_lib;

    let bytes = encode_utf8(a + b);
    if a.len() > 0 {
        lemma_encode_concat(a, b);
        encode_utf8_first_scalar(a + b);
        assert((a + b)[0] == a[0]);
        assert((a + b).drop_first() =~= a.drop_first() + b);
        assert(pop_first_scalar(bytes) =~= encode_utf8(a.drop_first() + b));
        lemma_boundary_after(a.drop_first(), b);
    }
}

/// The first `k` characters of a text, and the rest.
pub fn cut_chars<'a>(s: &'a str, k: usize) -> (r: (&'a str, &'a str))
    requires
        k <= s@.len(),
    ensures
        r.0@ == s@.take(k as int),
        r.1@ == s@.skip(k as int),
{
    broadcast use group_utf8_lib, vstd::slice::group_slice_axioms;

    let head = s.substring_char(0, k);
    let n = head.as_bytes().len();
    proof {
        let a = s@.take(k as int);
        let b = s@.skip(k as int);
        assert(s@.subrange(0, k as int) =~= a);
        assert(a + b =~= s@);
        lemma_encode_concat(a, b);
        lemma_boundary_after(a, b);
        assert(encode_utf8(s@).subrange(n as int, encode_utf8(s@).len() as int) =~= encode_utf8(
            b,
        ));
    }
    let tail = s.split_at(n).1;
    proof {
        assert(tail.spec_bytes() == encode_utf8(tail@));
        assert(encode_utf8(tail@) =~= encode_utf8(s@.skip(k as int)));
        assert(decode_utf8(encode_utf8(tail@)) == tail@);
        assert(decode_utf8(encode_utf8(s@.skip(k as int))) == s@.skip(k as int));
    }
    (head, tail)
}

/// The text without its leading whitespace.
pub fn trim_start<'a>(s: &'a str) -> (r: &'a str)
    ensures
        r@ == trim_start_spec(s@),
{
    let cs = chars_of(s);
    assert(cs@.skip(0) =~= cs@);
    let k = skip_whitespace(&cs, 0);
    assert(s@.subrange(k as int, cs.len() as int) =~= s@.skip(k as int));
    s.substring_char(k, cs.len())
}

/// The text without its trailing whitespace.
pub fn trim_end<'a>(s: &'a str) -> (r: &'a str)
    ensures
        r@ == trim_end_spec(s@),
{
    let cs = chars_of(s);
    assert(cs@.skip(0) =~= cs@);
    let e = skip_whitespace_back(&cs, 0);
    s.substring_char(0, e)
}

/// The text without the whitespace around it.
pub fn trim<'a>(s: &'a str) -> (r: &'a str)
    ensures
        r@ == trim_spec(s@),
{
    let cs = chars_of(s);
    assert(cs@.skip(0) =~= cs@);
    let k = skip_whitespace(&cs, 0);
    let e = skip_whitespace_back(&cs, k);
    s.substring_char(k, e)
}

/// The text before the first `delim` and the text after it; none where
/// there is no `delim` in the text.
pub fn split_once_char<'a>(s: &'a str, delim: char) -> (r: Option<(&'a str, &'a str)>)
    ensures
        r is None <==> first_index(s@, delim) == s@.len(),
        r matches Some(p) ==> p.0@ == s@.take(first_index(s@, delim)) && p.1@ == s@.skip(
            first_index(s@, delim) + 1,
        ),
{
    let cs = chars_of(s);
    assert(cs@.skip(0) =~= cs@);
    let at = find_char(&cs, 0, delim);
    if at == cs.len() {
        None
    } else {
        assert(s@.subrange(0, at as int) =~= s@.take(at as int));
        assert(s@.subrange(at + 1, cs.len() as int) =~= s@.skip(at + 1));
        Some((s.substring_char(0, at), s.substring_char(at + 1, cs.len())))
    }
}

/// The words of a text: its maximal runs of characters that are no
/// whitespace, in order.
pub fn split_whitespace<'a>(s: &'a str) -> (r: Vec<&'a str>)
    ensures
        views(r@) == words(s@),
{
    let cs = chars_of(s);
    let mut out: Vec<&'a str> = Vec::new();
    let mut rest: &'a str = s;
    let mut p: usize = 0;
    assert(cs@.skip(0) =~= cs@);
    assert(views(out@) + words(cs@.skip(0)) =~= words(cs@));
    while p < cs.len()
        invariant
            p <= cs.len(),
            cs@ == s@,
            rest@ == cs@.skip(p as int),
            views(out@) + words(cs@.skip(p as int)) == words(cs@),
        decreases cs.len() - p,
    {
        let start = skip_whitespace(&cs, p);
        if start == cs.len() {
            assert(words(cs@.skip(p as int)) =~= words(cs@.skip(cs.len() as int)));
            rest = cut_chars(rest, start - p).1;
            assert(cs@.skip(p as int).skip(start - p) =~= cs@.skip(start as int));
            p = cs.len();
        } else {
            let end = skip_word(&cs, start);
            proof {
                lemma_trim_start_head(cs@.skip(p as int));
                lemma_word_len(cs@.skip(start as int));
                let t = cs@.skip(start as int);
                assert(t[0] == cs@[start as int]);
                assert(t.skip(end - start) =~= cs@.skip(end as int));
                assert(cs@.skip(p as int).skip(start - p) =~= t);
            }
            let (word, after) = cut_chars(cut_chars(rest, start - p).1, end - start);
            let ghost before = views(out@);
            out.push(word);
            assert(views(out@) =~= before.push(word@));
            assert(before.push(word@) + words(cs@.skip(end as int)) =~= before + (seq![word@]
                + words(cs@.skip(end as int))));
            rest = after;
            p = end;
        }
    }
    assert(cs@.skip(cs.len() as int) =~= Seq::<char>::empty());
    assert(views(out@) + Seq::<Seq<char>>::empty() =~= views(out@));
    out
}

/// The lines of a text, without their line endings.
pub fn split_lines<'a>(s: &'a str) -> (r: Vec<&'a str>)
    ensures
        views(r@) == lines_spec(s@),
{
    let cs = chars_of(s);
    let mut out: Vec<&'a str> = Vec::new();
    let mut rest: &'a str = s;
    let mut p: usize = 0;
    assert(cs@.skip(0) =~= cs@);
    assert(views(out@) + lines_spec(cs@.skip(0)) =~= lines_spec(cs@));
    while p < cs.len()
        invariant
            p <= cs.len(),
            cs@ == s@,
            rest@ == cs@.skip(p as int),
            views(out@) + lines_spec(cs@.skip(p as int)) == lines_spec(cs@),
        decreases cs.len() - p,
    {
        let at = find_char(&cs, p, '\n');
        let ghost t = cs@.skip(p as int);
        let ghost before = views(out@);
        if at == cs.len() {
            out.push(rest);
            proof {
                assert(lines_spec(t) =~= seq![t]);
                assert(views(out@) =~= before.push(t));
                assert(cs@.skip(cs.len() as int) =~= Seq::<char>::empty());
                assert(before.push(t) + lines_spec(cs@.skip(cs.len() as int)) =~= before + seq![t]);
            }
            rest = cut_chars(rest, cs.len() - p).1;
            assert(t.skip(cs.len() - p) =~= cs@.skip(cs.len() as int));
            p = cs.len();
        } else {
            let (whole, after) = cut_chars(rest, at - p);
            let line = if at > p && cs[at - 1] == '\r' {
                cut_chars(whole, at - p - 1).0
            } else {
                whole
            };
            out.push(line);
            proof {
                if at > p {
                    assert(t.take(at - p).last() == cs@[at - 1]);
                    assert(t.take(at - p).take(at - p - 1) =~= t.take(at - p).drop_last());
                }
                assert(line@ == without_return(t.take(at - p)));
                assert(t.skip(at - p).skip(1) =~= cs@.skip(at + 1));
                assert(t.skip(at - p + 1) =~= cs@.skip(at + 1));
                assert(views(out@) =~= before.push(line@));
                assert(before.push(line@) + lines_spec(cs@.skip(at + 1)) =~= before + (seq![
                    line@,
                ] + lines_spec(cs@.skip(at + 1))));
            }
            rest = cut_chars(after, 1).1;
            p = at + 1;
        }
    }
    assert(cs@.skip(cs.len() as int) =~= Seq::<char>::empty());
    assert(views(out@) + Seq::<Seq<char>>::empty() =~= views(out@));
    out
}

} // verus!
