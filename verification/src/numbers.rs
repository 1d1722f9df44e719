//! The number header of a post: the integers written before the first `)`,
//! and the half-open range of robot numbers that they stand for.

use crate::parse::ParseOut;
use crate::text::{
    chars_of, decimal, digit_char, first_index, split_once_char, trim, trim_spec, trim_start,
    trim_start_spec,
};
use std::ops::Range;
use vstd::arithmetic::div_mod::*;
use vstd::prelude::*;

verus! {

/// Ten to the power `d`.
pub open spec fn pow10(d: nat) -> int
    decreases d,
{
    if d == 0 {
        1
    } else {
        10 * pow10((d - 1) as nat)
    }
}

/// The number of decimal digits of `n`; zero has none.
pub open spec fn digit_count(n: nat) -> nat
    decreases n,
{
    if n == 0 {
        0
    } else {
        1 + digit_count(n / 10)
    }
}

/// The absolute value of `n`.
pub open spec fn magnitude(n: int) -> int {
    if n < 0 {
        -n
    } else {
        n
    }
}

/// The sign of `n`: -1, 0 or 1.
pub open spec fn signum(n: int) -> int {
    if n < 0 {
        -1
    } else if n == 0 {
        0
    } else {
        1
    }
}

/// The number that `n` stands for when it follows `first` in a header.
///
/// A positive `n` smaller in magnitude than `first` is shorthand: it replaces
/// the last digits of `first`, as many as `n` has, and takes the sign of
/// `first`. Any other `n` stands for itself.
pub open spec fn expand(first: int, n: int) -> int {
    if 0 < n < magnitude(first) {
        let p = pow10(digit_count(n as nat));
        let m = (magnitude(first) / p) * p + n;
        if first < 0 {
            -m
        } else {
            m
        }
    } else {
        n
    }
}

/// Every number of a header, expanded against the first one.
pub open spec fn expanded(ns: Seq<int>) -> Seq<int> {
    Seq::new(ns.len(), |i: int| expand(ns[0], ns[i]))
}

/// The smallest element of a non-empty sequence.
pub open spec fn least(v: Seq<int>) -> int
    decreases v.len(),
{
    if v.len() <= 1 {
        v[0]
    } else if v.last() < least(v.drop_last()) {
        v.last()
    } else {
        least(v.drop_last())
    }
}

/// The largest element of a non-empty sequence.
pub open spec fn greatest(v: Seq<int>) -> int
    decreases v.len(),
{
    if v.len() <= 1 {
        v[0]
    } else if v.last() > greatest(v.drop_last()) {
        v.last()
    } else {
        greatest(v.drop_last())
    }
}

/// The half-open range `(start, end)` that the numbers of a header stand for:
/// from the smallest expanded number to one past the largest. There is none
/// when the header holds no number, or when an end of the range is not a
/// 32-bit integer.
pub open spec fn range_spec(ns: Seq<int>) -> Option<(int, int)> {
    if ns.len() == 0 {
        None
    } else {
        let lo = least(expanded(ns));
        let hi = greatest(expanded(ns)) + 1;
        if i32::MIN <= lo && hi <= i32::MAX {
            Some((lo, hi))
        } else {
            None
        }
    }
}

/// The mathematical integers of a list of 32-bit integers.
pub open spec fn ints(ns: Seq<i32>) -> Seq<int> {
    Seq::new(ns.len(), |i: int| ns[i] as int)
}

/// A positive number lies between the powers of ten below and above its
/// digit count.
pub proof fn lemma_digit_count_bounds(n: nat)
    requires
        n > 0,
    ensures
        digit_count(n) >= 1,
        pow10((digit_count(n) - 1) as nat) <= n < pow10(digit_count(n)),
    decreases n,
{
    if n >= 10 {
        lemma_digit_count_bounds(n / 10);
        assert(digit_count(n) == 1 + digit_count(n / 10));
        assert(pow10(digit_count(n)) == 10 * pow10(digit_count(n / 10)));
        assert(pow10((digit_count(n) - 1) as nat) == 10 * pow10((digit_count(n / 10) - 1) as nat));
    } else {
        assert(n / 10 == 0);
        assert(digit_count(n / 10) == 0);
        assert(pow10(1) == 10 * pow10(0));
    }
}

/// Shorthand keeps the leading digits and the sign of the first number, and
/// ends in the digits that were written.
///
/// For `0 < b < |a|`, where `b` has `d` digits, the number that `b` stands
/// for after `a` has the sign of `a`, its magnitude ends in `b` (its last `d`
/// digits), and the digits before those are the digits of `a` before its
/// last `d`.
pub proof fn law_shorthand_shares_leading_digits(a: int, b: int)
    requires
        0 < b < magnitude(a),
    ensures
        signum(expand(a, b)) == signum(a),
        magnitude(expand(a, b)) % pow10(digit_count(b as nat)) == b,
        magnitude(expand(a, b)) / pow10(digit_count(b as nat)) == magnitude(a) / pow10(
            digit_count(b as nat),
        ),
{
    let p = pow10(digit_count(b as nat));
    lemma_digit_count_bounds(b as nat);
    let q = magnitude(a) / p;
    lemma_div_pos_is_pos(magnitude(a), p);
    let m = q * p + b;
    assert(q * p >= 0) by (nonlinear_arith)
        requires
            q >= 0,
            p > 0,
    ;
    assert(magnitude(expand(a, b)) == m);
    lemma_fundamental_div_mod_converse(m, p, q, b);
}

/// The smallest element of a non-empty sequence is one of its elements and
/// no element is smaller; likewise for the largest.
pub proof fn lemma_least_greatest(v: Seq<int>)
    requires
        v.len() > 0,
    ensures
        v.contains(least(v)),
        v.contains(greatest(v)),
        forall|i: int| 0 <= i < v.len() ==> least(v) <= #[trigger] v[i] <= greatest(v),
    decreases v.len(),
{
    if v.len() <= 1 {
        assert(v[0] == least(v));
    } else {
        let w = v.drop_last();
        lemma_least_greatest(w);
        let i = choose|i: int| 0 <= i < w.len() && w[i] == least(w);
        assert(v[i] == least(w));
        let j = choose|j: int| 0 <= j < w.len() && w[j] == greatest(w);
        assert(v[j] == greatest(w));
        assert(v[v.len() - 1] == v.last());
        assert forall|k: int| 0 <= k < v.len() implies least(v) <= #[trigger] v[k] <= greatest(
            v,
        ) by {
            if k < w.len() {
                assert(w[k] == v[k]);
            }
        }
    }
}

/// A header with the single number `n` stands for the range from `n` to
/// `n + 1`.
pub proof fn law_single_number_range(n: int)
    requires
        i32::MIN <= n < i32::MAX,
    ensures
        range_spec(seq![n]) == Some((n, n + 1)),
{
    assert(expanded(seq![n])[0] == n);
}

/// The number that `n` stands for after `first`.
fn expand_number(first: i32, n: i32) -> (r: i64)
    ensures
        r == expand(first as int, n as int),
        -0x2_0000_0000 < r < 0x2_0000_0000,
{
    let first_wide: i64 = first as i64;
    let mag: i64 = if first_wide < 0 {
        -first_wide
    } else {
        first_wide
    };
    let n_wide: i64 = n as i64;
    if n_wide > 0 && n_wide < mag {
        let mut x: i64 = n_wide;
        let mut p: i64 = 1;
        let ghost mut k: nat = 0;
        while x > 0
            invariant
                0 <= x <= n_wide < 0x8000_0000,
                1 <= p,
                p == pow10(k),
                x * p <= n_wide,
                digit_count(n_wide as nat) == k + digit_count(x as nat),
            decreases x,
        {
            assert((x / 10) * (p * 10) <= x * p) by (nonlinear_arith)
                requires
                    x >= 0,
                    p >= 1,
            ;
            assert(p <= x * p) by (nonlinear_arith)
                requires
                    x >= 1,
                    p >= 1,
            ;
            x = x / 10;
            p = p * 10;
            proof {
                k = k + 1;
            }
        }
        let major: i64 = mag / p;
        assert(0 <= major * p <= mag) by (nonlinear_arith)
            requires
                major == (mag as int) / (p as int),
                mag >= 0,
                p >= 1,
        ;
        let v: i64 = major * p + n_wide;
        if first_wide < 0 {
            -v
        } else {
            v
        }
    } else {
        n_wide
    }
}

/// Reduces the numbers of a header to the range of robot numbers that they
/// stand for.
pub fn numbers_range(ns: &[i32]) -> (r: Option<Range<i32>>)
    ensures
        match range_spec(ints(ns@)) {
            Some((lo, hi)) => r matches Some(x) && x.start == lo && x.end == hi,
            None => r is None,
        },
        ns@.len() == 1 && ns@[0] < i32::MAX ==> (r matches Some(x) && x.start == ns@[0] && x.end
            == ns@[0] + 1),
{
    if ns.len() == 0 {
        return None;
    }
    let first: i32 = ns[0];
    let ghost vals = expanded(ints(ns@));
    let mut lo: i64 = first as i64;
    let mut hi: i64 = first as i64;
    let mut i: usize = 1;
    assert(vals.take(1)[0] == first);
    while i < ns.len()
        invariant
            1 <= i <= ns.len(),
            first == ns@[0],
            vals == expanded(ints(ns@)),
            lo == least(vals.take(i as int)),
            hi == greatest(vals.take(i as int)),
            -0x2_0000_0000 < lo <= hi < 0x2_0000_0000,
        decreases ns.len() - i,
    {
        let v: i64 = expand_number(first, ns[i]);
        proof {
            let t = vals.take(i + 1);
            assert(t.last() == v);
            assert(t.drop_last() =~= vals.take(i as int));
        }
        if v < lo {
            lo = v;
        } else if v > hi {
            hi = v;
        }
        i = i + 1;
    }
    assert(vals.take(i as int) =~= vals);
    if lo < -0x8000_0000 || hi >= 0x7fff_ffff {
        None
    } else {
        Some((lo as i32)..((hi + 1) as i32))
    }
}

/// Whether `c` is one of the ten ASCII digits.
pub open spec fn is_digit(c: char) -> bool {
    '0' <= c <= '9'
}

/// The value of the ASCII digit `c`.
pub open spec fn digit_value(c: char) -> nat
    recommends
        is_digit(c),
{
    (c as u32 - 48) as nat
}

/// Where the scan of a header stands after some of its characters.
pub struct Scan {
    /// The numbers read so far.
    pub found: Seq<int>,
    /// Whether the last character read was a digit, so that a run of digits
    /// is open.
    pub in_run: bool,
    /// The value of the open run of digits.
    pub value: nat,
    /// Whether the next number is negative.
    pub neg: bool,
    /// Whether a `-` would count as a sign here: not after a digit.
    pub sign_allowed: bool,
    /// Whether any digit was read.
    pub seen_digit: bool,
}

/// The scan before the first character.
pub open spec fn scan_start() -> Scan {
    Scan {
        found: seq![],
        in_run: false,
        value: 0,
        neg: false,
        sign_allowed: true,
        seen_digit: false,
    }
}

/// The number that a run of digits of value `value` stands for, negated when
/// `neg`. There is none when the run is no 32-bit integer or when the number
/// is the largest 32-bit integer, which is not accepted.
pub open spec fn run_number(value: nat, neg: bool) -> Option<int> {
    if value > i32::MAX {
        None
    } else if !neg && value == i32::MAX {
        None
    } else if neg {
        Some(-(value as int))
    } else {
        Some(value as int)
    }
}

/// Closes the open run of digits, if there is one, and adds its number to
/// those found.
pub open spec fn scan_close(st: Scan) -> Option<Scan> {
    if !st.in_run {
        Some(st)
    } else {
        match run_number(st.value, st.neg) {
            None => None,
            Some(n) => Some(Scan { found: st.found.push(n), in_run: false, value: 0, ..st }),
        }
    }
}

/// The scan after one more character `c`.
///
/// A digit extends the open run, or opens one. Any other character closes the
/// run. A `-` then makes the next number negative where a sign is allowed, and
/// is ignored after a digit. Any other separator clears the sign; one that
/// comes before the first digit makes the header invalid.
pub open spec fn scan_step(st: Scan, c: char) -> Option<Scan> {
    if is_digit(c) {
        Some(
            Scan {
                in_run: true,
                value: (if st.in_run {
                    st.value
                } else {
                    0
                }) * 10 + digit_value(c),
                sign_allowed: false,
                seen_digit: true,
                ..st
            },
        )
    } else {
        match scan_close(st) {
            None => None,
            Some(closed) => if c == '-' {
                Some(Scan { neg: closed.neg || closed.sign_allowed, ..closed })
            } else if !closed.seen_digit {
                None
            } else {
                Some(Scan { neg: false, sign_allowed: true, ..closed })
            },
        }
    }
}

/// The scan after all the characters of `s`, starting from `st`.
pub open spec fn scan(st: Scan, s: Seq<char>) -> Option<Scan>
    decreases s.len(),
{
    if s.len() == 0 {
        Some(st)
    } else {
        match scan_step(st, s[0]) {
            None => None,
            Some(next) => scan(next, s.drop_first()),
        }
    }
}

/// The numbers written in a header, or none when the header is invalid.
pub open spec fn header_numbers(header: Seq<char>) -> Option<Seq<int>> {
    match scan(scan_start(), header) {
        None => None,
        Some(st) => match scan_close(st) {
            None => None,
            Some(closed) => Some(closed.found),
        },
    }
}

/// The range that a header stands for.
pub open spec fn header_range(header: Seq<char>) -> Option<(int, int)> {
    match header_numbers(header) {
        None => None,
        Some(ns) => range_spec(ns),
    }
}

/// What the number stage makes of a text: the text after the first `)`
/// without its leading whitespace, and the start and end of the range that
/// the header before that `)` stands for. There is none when the text has no
/// `)` or the header is invalid.
pub open spec fn numbers_spec(s: Seq<char>) -> Option<(Seq<char>, int, int)> {
    let at = first_index(s, ')');
    if at == s.len() {
        None
    } else {
        match header_range(trim_spec(s.take(at))) {
            None => None,
            Some((lo, hi)) => Some((trim_start_spec(s.skip(at + 1)), lo, hi)),
        }
    }
}

/// Every number that a scan has found is a 32-bit integer other than the
/// largest and the smallest.
pub open spec fn found_in_range(st: Scan) -> bool {
    forall|i: int| 0 <= i < st.found.len() ==> -i32::MAX <= #[trigger] st.found[i] < i32::MAX
}

/// Closing a run keeps the numbers found in range.
pub proof fn lemma_close_in_range(st: Scan)
    requires
        found_in_range(st),
    ensures
        scan_close(st) matches Some(closed) ==> found_in_range(closed) && !closed.in_run,
{
    match scan_close(st) {
        Some(closed) => {
            assert forall|i: int| 0 <= i < closed.found.len() implies -i32::MAX
                <= #[trigger] closed.found[i] < i32::MAX by {
                if i < st.found.len() {
                    assert(closed.found[i] == st.found[i]);
                }
            }
        },
        None => {},
    }
}

/// A scan keeps the numbers found in range.
pub proof fn lemma_scan_in_range(st: Scan, s: Seq<char>)
    requires
        found_in_range(st),
    ensures
        scan(st, s) matches Some(end) ==> found_in_range(end),
    decreases s.len(),
{
    if s.len() > 0 {
        lemma_close_in_range(st);
        match scan_step(st, s[0]) {
            Some(next) => {
                lemma_scan_in_range(next, s.drop_first());
            },
            None => {},
        }
    }
}

/// A header in which a single number is written stands for the range from
/// that number to the next.
pub proof fn law_single_number_header(header: Seq<char>, n: int)
    requires
        header_numbers(header) == Some(seq![n]),
    ensures
        header_range(header) == Some((n, n + 1)),
{
    lemma_scan_in_range(scan_start(), header);
    let end = scan(scan_start(), header)->0;
    lemma_close_in_range(end);
    let closed = scan_close(end)->0;
    assert(closed.found[0] == n);
    law_single_number_range(n);
}

/// A header in which a number and then its shorthand are written stands for
/// the range over the number and the number that the shorthand stands for,
/// where the ends of that range are 32-bit integers.
pub proof fn law_shorthand_header(header: Seq<char>, a: int, b: int)
    requires
        header_numbers(header) == Some(seq![a, b]),
        0 < b < magnitude(a),
    ensures
        ({
            let full = expand(a, b);
            let lo = if full < a {
                full
            } else {
                a
            };
            let hi = if full > a {
                full + 1
            } else {
                a + 1
            };
            header_range(header) == if i32::MIN <= lo && hi <= i32::MAX {
                Some((lo, hi))
            } else {
                None
            }
        }),
{
    let ns = seq![a, b];
    let e = expanded(ns);
    assert(e =~= seq![a, expand(a, b)]);
    assert(e.drop_last() =~= seq![a]);
    assert(least(e.drop_last()) == a);
    assert(greatest(e.drop_last()) == a);
}

/// The character of a digit is a digit of that value.
pub proof fn lemma_digit_char(d: nat)
    requires
        d < 10,
    ensures
        is_digit(digit_char(d)),
        digit_value(digit_char(d)) == d,
{
}

/// Scanning one more character is one more step.
pub proof fn lemma_scan_push(st: Scan, s: Seq<char>, c: char)
    ensures
        scan(st, s.push(c)) == match scan(st, s) {
            Some(mid) => scan_step(mid, c),
            None => None,
        },
    decreases s.len(),
{
    if s.len() == 0 {
        assert(s.push(c).drop_first() =~= s);
        assert(s.push(c)[0] == c);
        match scan_step(st, c) {
            Some(next) => {
                assert(scan(next, s) == Some(next));
            },
            None => {},
        }
    } else {
        assert(s.push(c).drop_first() =~= s.drop_first().push(c));
        assert(s.push(c)[0] == s[0]);
        match scan_step(st, s[0]) {
            Some(next) => {
                lemma_scan_push(next, s.drop_first(), c);
            },
            None => {},
        }
    }
}

/// Scanning the numeral of `n` where no run is open leaves a run of value
/// `n` open and changes nothing else, but that a digit was seen and that no
/// sign is allowed.
pub proof fn lemma_scan_numeral(st: Scan, n: nat)
    requires
        !st.in_run,
    ensures
        scan(st, decimal(n)) == Some(
            Scan { in_run: true, value: n, sign_allowed: false, seen_digit: true, ..st },
        ),
    decreases n,
{
    if n < 10 {
        lemma_digit_char(n);
        let s = decimal(n);
        assert(s.drop_first() =~= Seq::<char>::empty());
        let next = scan_step(st, s[0])->0;
        assert(scan(next, s.drop_first()) == Some(next));
    } else {
        lemma_scan_numeral(st, n / 10);
        lemma_digit_char(n % 10);
        lemma_scan_push(st, decimal(n / 10), digit_char(n % 10));
    }
}

/// The header that is the decimal numeral of `n` stands for the range from
/// `n` to `n + 1`.
pub proof fn law_numeral_header(n: nat)
    requires
        n < i32::MAX,
    ensures
        header_numbers(decimal(n)) == Some(seq![n as int]),
        header_range(decimal(n)) == Some((n as int, n as int + 1)),
{
    lemma_scan_numeral(scan_start(), n);
    let end = scan(scan_start(), decimal(n))->0;
    assert(scan_close(end)->0.found =~= seq![n as int]);
    law_single_number_range(n as int);
}

/// The header that is a minus sign and the decimal numeral of `n` stands for
/// the range from `-n` to `-n + 1`.
pub proof fn law_negative_numeral_header(n: nat)
    requires
        n <= i32::MAX,
    ensures
        header_numbers(seq!['-'] + decimal(n)) == Some(seq![-(n as int)]),
        header_range(seq!['-'] + decimal(n)) == Some((-(n as int), -(n as int) + 1)),
{
    let header = seq!['-'] + decimal(n);
    let signed = scan_step(scan_start(), '-')->0;
    assert(header[0] == '-');
    assert(header.drop_first() =~= decimal(n));
    lemma_scan_numeral(signed, n);
    let end = scan(scan_start(), header)->0;
    assert(scan_close(end)->0.found =~= seq![-(n as int)]);
    law_single_number_range(-(n as int));
}

/// The number of a closed run of digits.
fn close_run(value: u64, neg: bool) -> (r: Option<i32>)
    requires
        value <= 0x5_0000_0000,
    ensures
        match run_number(value as nat, neg) {
            Some(n) => r == Some(n as i32) && n == n as i32,
            None => r is None,
        },
{
    if value > 0x7fff_ffff {
        None
    } else if !neg && value == 0x7fff_ffff {
        None
    } else if neg {
        Some(-(value as i64) as i32)
    } else {
        Some(value as i32)
    }
}

/// Reads the number header of a post: the integers before the first `)`,
/// reduced to a range, and the rest of the text.
pub fn parse_numbers<'a>(s: &'a str) -> (r: Option<ParseOut<'a, Range<i32>>>)
    ensures
        match numbers_spec(s@) {
            Some((rest, lo, hi)) => r matches Some(out) && out.remainder@ == rest
                && out.output.start == lo && out.output.end == hi,
            None => r is None,
        },
{
    let (head, tail) = match split_once_char(s, ')') {
        None => {
            return None;
        },
        Some(p) => p,
    };
    let header = trim(head);
    let rest = trim_start(tail);
    let cs = chars_of(header);

    let mut ns: Vec<i32> = Vec::new();
    let mut in_run = false;
    let mut value: u64 = 0;
    let mut neg = false;
    let mut sign_allowed = true;
    let mut seen_digit = false;
    let ghost mut st = scan_start();
    let mut i: usize = 0;
    assert(cs@.skip(0) =~= cs@);
    assert(st.found =~= ints(ns@));
    while i < cs.len()
        invariant
            i <= cs.len(),
            first_index(s@, ')') != s@.len(),
            cs@ == trim_spec(s@.take(first_index(s@, ')'))),
            scan(scan_start(), cs@) == scan(st, cs@.skip(i as int)),
            st.found == ints(ns@),
            st.in_run == in_run,
            st.neg == neg,
            st.sign_allowed == sign_allowed,
            st.seen_digit == seen_digit,
            value <= 0x5_0000_0000,
            st.value <= i32::MAX ==> value == st.value,
            st.value > i32::MAX ==> value > i32::MAX,
        decreases cs.len() - i,
    {
        let c = cs[i];
        proof {
            let t = cs@.skip(i as int);
            assert(t[0] == c);
            assert(t.drop_first() =~= cs@.skip(i + 1));
        }
        if c >= '0' && c <= '9' {
            let d: u64 = (c as u32 - 48) as u64;
            if !in_run {
                value = 0;
            }
            if value <= 0x7fff_ffff {
                value = value * 10 + d;
            }
            in_run = true;
            sign_allowed = false;
            seen_digit = true;
            proof {
                st = scan_step(st, c).unwrap();
            }
        } else {
            if in_run {
                match close_run(value, neg) {
                    None => {
                        return None;
                    },
                    Some(n) => {
                        ns.push(n);
                        assert(ints(ns@) =~= st.found.push(n as int));
                    },
                }
                in_run = false;
                value = 0;
            }
            if c == '-' {
                if sign_allowed {
                    neg = true;
                }
            } else {
                neg = false;
                sign_allowed = true;
                if !seen_digit {
                    return None;
                }
            }
            proof {
                st = scan_step(st, c).unwrap();
            }
        }
        i = i + 1;
    }
    if in_run {
        match close_run(value, neg) {
            None => {
                return None;
            },
            Some(n) => {
                ns.push(n);
                assert(ints(ns@) =~= st.found.push(n as int));
            },
        }
    }
    match numbers_range(ns.as_slice()) {
        None => None,
        Some(range) => Some(ParseOut::new(rest, range)),
    }
}

} // verus!
