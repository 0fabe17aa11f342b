//! Amounts as written: an integer, or an integer part with the exact layout
//! of its decimal tail, so that `600.000` and `600` stay apart.
use vstd::prelude::*;
use crate::text::{
    agrees, agrees_on_str, at, char_at, chars_of, cut, digit_value, digits_value, error_at,
    is_digit, lemma_digits_value_grows, lemma_digits_value_shift, lemma_run_end_bounds,
    lemma_run_end_cut, lemma_run_end_shift, miss, miss_at, read_digits, run_end, scan, string_of,
    CharClass, ErrorKind, Failure, Outcome, ParseError,
};

verus! {

/// Either a plain integer or a number written with a decimal point.
///
/// Some currencies are not divisible, and an amount written without decimals
/// should not gain any when it is printed again.
#[derive(Clone, Copy, Debug)]
pub enum Number {
    /// An integer, positive or negative.
    Int(i64),
    /// A number with a decimal point: the signed part left of the point, the
    /// number of zeroes right after the point, and the digits after those
    /// zeroes, if there are any.
    Float(i64, usize, Option<u64>),
}

impl View for Number {
    type V = Number;

    open spec fn view(&self) -> Number {
        *self
    }
}

/// Equality of numbers: a decimal with no digits after its zeroes equals the
/// integer it starts with; decimals with digits agree on every part.
pub open spec fn number_eq(a: Number, b: Number) -> bool {
    match (a, b) {
        (Number::Int(l), Number::Int(r)) => l == r,
        (Number::Int(l), Number::Float(r, _, None)) => l == r,
        (Number::Float(l, _, None), Number::Int(r)) => l == r,
        (Number::Float(l, _, None), Number::Float(r, _, None)) => l == r,
        (Number::Float(l, a, Some(x)), Number::Float(r, b, Some(y))) => l == r && a == b && x == y,
        _ => false,
    }
}

impl PartialEq for Number {
    fn eq(&self, other: &Number) -> (r: bool)
        ensures
            r == number_eq(*self, *other),
    {
        match (self, other) {
            (Number::Int(l), Number::Int(r)) => *l == *r,
            (Number::Int(l), Number::Float(r, _, None)) => *l == *r,
            (Number::Float(l, _, None), Number::Int(r)) => *l == *r,
            (Number::Float(l, _, None), Number::Float(r, _, None)) => *l == *r,
            (Number::Float(l, a, Some(x)), Number::Float(r, b, Some(y))) => {
                *l == *r && *a == *b && *x == *y
            },
            _ => false,
        }
    }
}

impl vstd::std_specs::cmp::PartialEqSpecImpl for Number {
    open spec fn obeys_eq_spec() -> bool {
        true
    }

    open spec fn eq_spec(&self, other: &Number) -> bool {
        number_eq(*self, *other)
    }
}

/// The number that starts at `p`: an optional `-`, at least one digit, and
/// optionally a `.` followed by a run of zeroes and then optionally more
/// digits. The integer part must fit in an `i64` and the digits after the
/// zeroes in a `u64`, else the number is invalid.
pub open spec fn spec_number(s: Seq<char>, p: int) -> Outcome<Number> {
    let q = if char_at(s, p, '-') { p + 1 } else { p };
    let e = run_end(s, q, CharClass::Digit);
    let mag = digits_value(s, q, e);
    let n = if q > p { -mag } else { mag };
    if e == q {
        Err(miss(s, q))
    } else if n < i64::MIN || n > i64::MAX {
        Err((p, ErrorKind::Invalid))
    } else if char_at(s, e, '.') {
        let z = run_end(s, e + 1, CharClass::Zero);
        let d = run_end(s, z, CharClass::Digit);
        let zeroes = (z - e - 1) as usize;
        if d == z {
            Ok((z, Number::Float(n as i64, zeroes, None)))
        } else if digits_value(s, z, d) <= u64::MAX {
            Ok((d, Number::Float(n as i64, zeroes, Some(digits_value(s, z, d) as u64))))
        } else {
            Err((p, ErrorKind::Invalid))
        }
    } else {
        Ok((e, Number::Int(n as i64)))
    }
}

/// Parses the number that starts at `p`.
pub fn number_at(s: &Vec<char>, p: usize) -> (r: Result<(usize, Number), Failure>)
    requires
        p <= s@.len(),
    ensures
        agrees(r, spec_number(s@, p as int)),
        r matches Ok((e, _)) ==> p < e <= s@.len(),
        r matches Err(f) ==> f.at <= s@.len(),
{
    let neg = at(s, p, '-');
    let q = if neg { p + 1 } else { p };
    let e = scan(s, q, CharClass::Digit);
    if e == q {
        return Err(miss_at(s, q));
    }
    proof {
        lemma_run_end_bounds(s@, q as int, CharClass::Digit);
        lemma_digits_value_grows(s@, q as int, e as int, e as int);
    }
    let bound: u64 = if neg { 9223372036854775808 } else { 9223372036854775807 };
    let mag = match read_digits(s, q, e, bound) {
        Some(m) => m,
        None => return Err(Failure { at: p, kind: ErrorKind::Invalid }),
    };
    let n: i64 = if !neg {
        mag as i64
    } else if mag == bound {
        i64::MIN
    } else {
        -(mag as i64)
    };
    if at(s, e, '.') {
        let z = scan(s, e + 1, CharClass::Zero);
        let d = scan(s, z, CharClass::Digit);
        proof {
            lemma_run_end_bounds(s@, e + 1, CharClass::Zero);
            lemma_run_end_bounds(s@, z as int, CharClass::Digit);
            lemma_digits_value_grows(s@, z as int, d as int, d as int);
        }
        let zeroes = z - e - 1;
        if d == z {
            return Ok((z, Number::Float(n, zeroes, None)));
        }
        match read_digits(s, z, d, u64::MAX) {
            Some(tail) => Ok((d, Number::Float(n, zeroes, Some(tail)))),
            None => Err(Failure { at: p, kind: ErrorKind::Invalid }),
        }
    } else {
        Ok((e, Number::Int(n)))
    }
}

impl Number {
    /// Parses a number at the start of `i`, handing back the rest of `i`.
    pub fn parse(i: &str) -> (r: Result<(String, Number), ParseError>)
        ensures
            agrees_on_str(r, i@, spec_number(i@, 0)),
    {
        let s = chars_of(i);
        match number_at(&s, 0) {
            Ok((e, n)) => Ok((string_of(&s, e, s.len()), n)),
            Err(f) => Err(error_at(&s, f)),
        }
    }
}

/// Parses a number at the start of `i`, handing back the rest of `i`.
pub fn parse_number(i: &str) -> (r: Result<(String, Number), ParseError>)
    ensures
        agrees_on_str(r, i@, spec_number(i@, 0)),
{
    Number::parse(i)
}

/// A number is read the same after any text: reading `s` at `k` gives what
/// reading the text `t` that follows `k` gives, moved by `k`.
pub proof fn lemma_number_shift(s: Seq<char>, t: Seq<char>, k: int)
    requires
        0 <= k <= s.len(),
        s.subrange(k, s.len() as int) == t,
    ensures
        spec_number(t, 0) matches Ok((e, n)) ==> 0 <= e <= t.len() && spec_number(s, k) == Outcome::Ok(
            (k + e, n),
        ),
{
    if t.len() > 0 {
        assert(s[k] == t[0]);
    }
    let q: int = if char_at(t, 0, '-') { 1 } else { 0 };
    lemma_run_end_bounds(t, q, CharClass::Digit);
    lemma_run_end_shift(s, t, k, q, CharClass::Digit);
    let e = run_end(t, q, CharClass::Digit);
    lemma_digits_value_shift(s, t, k, q, e);
    if char_at(t, e, '.') {
        assert(s[k + e] == t[e]);
        lemma_run_end_bounds(t, e + 1, CharClass::Zero);
        lemma_run_end_shift(s, t, k, e + 1, CharClass::Zero);
        let z = run_end(t, e + 1, CharClass::Zero);
        lemma_run_end_bounds(t, z, CharClass::Digit);
        lemma_run_end_shift(s, t, k, z, CharClass::Digit);
        let d = run_end(t, z, CharClass::Digit);
        lemma_digits_value_shift(s, t, k, z, d);
    } else if e < t.len() {
        assert(s[k + e] == t[e]);
    }
}

/// A number is read the same in a line cut out of `s` as in `s`.
pub proof fn lemma_number_cut(s: Seq<char>, t: Seq<char>, k: int, i: int)
    requires
        cut(s, k, t),
        0 <= i <= t.len(),
    ensures
        (spec_number(t, i) is Ok) == (spec_number(s, k + i) is Ok),
        spec_number(t, i) matches Ok((e, n)) ==> i <= e <= t.len() && spec_number(s, k + i)
            == Outcome::Ok((k + e, n)),
{
    let l = t.len() as int;
    if i < l {
        assert(s[k + i] == t[i]);
    }
    let q = if char_at(t, i, '-') { i + 1 } else { i };
    lemma_run_end_bounds(t, q, CharClass::Digit);
    lemma_run_end_cut(s, t, k, q, CharClass::Digit);
    let e = run_end(t, q, CharClass::Digit);
    lemma_digits_value_shift(s, t, k, q, e);
    if e < l {
        assert(s[k + e] == t[e]);
    }
    if char_at(t, e, '.') {
        lemma_run_end_bounds(t, e + 1, CharClass::Zero);
        lemma_run_end_cut(s, t, k, e + 1, CharClass::Zero);
        let z = run_end(t, e + 1, CharClass::Zero);
        lemma_run_end_bounds(t, z, CharClass::Digit);
        lemma_run_end_cut(s, t, k, z, CharClass::Digit);
        let d = run_end(t, z, CharClass::Digit);
        lemma_digits_value_shift(s, t, k, z, d);
    }
}

/// The character of the decimal digit `v`.
pub open spec fn digit_char(v: int) -> char {
    ((v + 48) as u8) as char
}

/// The decimal digits of `v`, with no leading zero.
pub open spec fn nat_text(v: nat) -> Seq<char>
    decreases v,
{
    if v < 10 {
        seq![digit_char(v as int)]
    } else {
        nat_text(v / 10).push(digit_char((v % 10) as int))
    }
}

/// The decimal text of `v`, with a `-` when it is negative.
pub open spec fn int_text(v: int) -> Seq<char> {
    if v < 0 {
        seq!['-'] + nat_text((-v) as nat)
    } else {
        nat_text(v as nat)
    }
}

/// How a number is written back: the integer part, then for a decimal the
/// point, its zeroes and its final digits.
pub open spec fn number_text(n: Number) -> Seq<char> {
    match n {
        Number::Int(v) => int_text(v as int),
        Number::Float(v, k, d) => int_text(v as int) + seq!['.'] + Seq::new(k as nat, |i: int| '0')
            + match d {
            Some(x) => nat_text(x as nat),
            None => Seq::empty(),
        },
    }
}

/// A run of digits `s[a..b]` with no leading zero, unless it is `0` itself.
pub open spec fn canonical_digits(s: Seq<char>, a: int, b: int) -> bool {
    &&& 0 <= a < b <= s.len()
    &&& forall|j: int| a <= j < b ==> is_digit(#[trigger] s[j])
    &&& (s[a] != '0' || b == a + 1)
}

/// Text of the shape `[-]digits[.0*[digits]]` as the printer writes it: no
/// leading zero in the integer part, no `-0`, an integer part that fits in an
/// `i64` and final digits that fit in a `u64`.
pub open spec fn canonical_number(s: Seq<char>) -> bool {
    let q = if char_at(s, 0, '-') { 1int } else { 0int };
    let e = run_end(s, q, CharClass::Digit);
    let mag = digits_value(s, q, e);
    &&& canonical_digits(s, q, e)
    &&& (q == 1 ==> mag != 0)
    &&& (if q == 1 { -mag >= i64::MIN } else { mag <= i64::MAX })
    &&& (e == s.len() || (s[e] == '.' && {
        let z = run_end(s, e + 1, CharClass::Zero);
        let d = run_end(s, z, CharClass::Digit);
        d == s.len() && digits_value(s, z, d) <= u64::MAX
    }))
}

proof fn lemma_digit_char(c: char)
    requires
        is_digit(c),
    ensures
        digit_char(digit_value(c)) == c,
        0 <= digit_value(c) < 10,
{
}

proof fn lemma_nat_text_of_digits(s: Seq<char>, a: int, b: int)
    requires
        canonical_digits(s, a, b),
    ensures
        nat_text(digits_value(s, a, b) as nat) == s.subrange(a, b),
        digits_value(s, a, b) >= 0,
        b > a + 1 ==> digits_value(s, a, b) >= 10,
    decreases b - a,
{
    let v = digits_value(s, a, b);
    let c = s[b - 1];
    lemma_digit_char(c);
    if b == a + 1 {
        assert(digits_value(s, a, a) == 0);
        assert(s.subrange(a, b) =~= seq![c]);
    } else {
        lemma_nat_text_of_digits(s, a, b - 1);
        let w = digits_value(s, a, b - 1);
        assert(w >= 1) by {
            lemma_digits_value_grows(s, a, a + 1, b - 1);
            assert(digits_value(s, a, a) == 0);
            lemma_digit_char(s[a]);
        }
        let d = digit_value(c);
        assert(v == 10 * w + d);
        assert(v / 10 == w && v % 10 == d) by (nonlinear_arith)
            requires
                v == 10 * w + d,
                0 <= d < 10,
        ;
        assert(s.subrange(a, b - 1).push(c) =~= s.subrange(a, b));
    }
}

/// A number written as the printer writes it is read whole, and printing what
/// was read gives back the same text.
pub proof fn lemma_number_round_trip(s: Seq<char>)
    requires
        canonical_number(s),
        s.len() <= usize::MAX,
    ensures
        spec_number(s, 0) matches Ok((e, n)) && e == s.len() && number_text(n) == s,
{
    let q = if char_at(s, 0, '-') { 1int } else { 0int };
    let e = run_end(s, q, CharClass::Digit);
    let mag = digits_value(s, q, e);
    lemma_run_end_bounds(s, q, CharClass::Digit);
    lemma_nat_text_of_digits(s, q, e);
    let head = s.subrange(0, e);
    let n: int = if q == 1 { -mag } else { mag };
    if q == 1 {
        assert(int_text(n) =~= seq!['-'] + s.subrange(1, e));
    }
    assert(int_text(n) =~= head);
    assert(n as i64 as int == n);
    if e == s.len() {
        assert(head =~= s);
        assert(spec_number(s, 0) == Outcome::Ok((e, Number::Int(n as i64))));
    } else {
        let z = run_end(s, e + 1, CharClass::Zero);
        let d = run_end(s, z, CharClass::Digit);
        lemma_run_end_bounds(s, e + 1, CharClass::Zero);
        lemma_run_end_bounds(s, z, CharClass::Digit);
        let zs = Seq::new((z - e - 1) as nat, |i: int| '0');
        assert(s.subrange(e + 1, z) =~= zs);
        if d > z {
            assert(z < s.len() && s[z] != '0');
            lemma_nat_text_of_digits(s, z, d);
            let x = digits_value(s, z, d);
            assert(x as u64 as nat == x);
            assert(spec_number(s, 0) == Outcome::Ok((d, Number::Float(n as i64, (z - e - 1) as usize, Some(x as u64)))));
            assert(s =~= head + seq!['.'] + zs + s.subrange(z, d));
        } else {
            assert(spec_number(s, 0) == Outcome::Ok((z, Number::Float(n as i64, (z - e - 1) as usize, None))));
            assert(s =~= head + seq!['.'] + zs + Seq::<char>::empty());
        }
    }
}

/// An integer equals every decimal with the same integer part and no final
/// digits, and no decimal with final digits.
pub proof fn lemma_int_equals_bare_decimal(n: i64, k: usize, d: u64)
    ensures
        number_eq(Number::Int(n), Number::Float(n, k, None)),
        number_eq(Number::Float(n, k, None), Number::Int(n)),
        !number_eq(Number::Int(n), Number::Float(n, k, Some(d))),
        !number_eq(Number::Float(n, k, Some(d)), Number::Int(n)),
{
}

} // verus!
