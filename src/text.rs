//! Lexical primitives: character classes, runs of characters and the value
//! of a run of decimal digits.
use vstd::prelude::*;
use vstd::std_specs::iter::IteratorSpec;
use vstd::utf8::{encode_scalar, encode_utf8};

verus! {

/// Why the input could not be read.
#[derive(Clone, Copy, Debug, PartialEq, Eq, Structural)]
pub enum ErrorKind {
    /// A character that the grammar does not allow where it stands.
    Unexpected,
    /// Text of the right shape whose value is not allowed: a number out of
    /// range, a day that is not in the calendar, an entry with fewer than two
    /// postings.
    Invalid,
    /// The input ends where more was required.
    Incomplete,
}

/// A failure to read a string, and where it happened.
#[derive(Clone, Copy, Debug, PartialEq, Eq, Structural)]
pub struct ParseError {
    /// How many bytes of the string's UTF-8 encoding come before the failure.
    pub offset: usize,
    /// What went wrong there.
    pub kind: ErrorKind,
}

/// A failure of a parser that reads a sequence of characters.
#[derive(Clone, Copy, Debug, PartialEq, Eq, Structural)]
pub struct Failure {
    /// How many characters come before the failure.
    pub at: usize,
    /// What went wrong there.
    pub kind: ErrorKind,
}

/// What a parser at a position gives: where the text it read ends and what
/// it holds, or where and why it failed.
pub type Outcome<V> = Result<(int, V), (int, ErrorKind)>;

/// The failure of a parser that requires something at `p`.
pub open spec fn miss(s: Seq<char>, p: int) -> (int, ErrorKind) {
    if p >= s.len() {
        (p, ErrorKind::Incomplete)
    } else {
        (p, ErrorKind::Unexpected)
    }
}

/// The failure of a parser that requires something at `p`.
pub fn miss_at(s: &Vec<char>, p: usize) -> (r: Failure)
    ensures
        (r.at as int, r.kind) == miss(s@, p as int),
{
    if p >= s.len() {
        Failure { at: p, kind: ErrorKind::Incomplete }
    } else {
        Failure { at: p, kind: ErrorKind::Unexpected }
    }
}

/// How many bytes the UTF-8 encoding of the `k` first characters of `s` takes,
/// or `usize::MAX` where that does not fit.
pub open spec fn byte_offset(s: Seq<char>, k: int) -> int {
    let n = encode_utf8(s.subrange(0, k)).len() as int;
    if n <= usize::MAX {
        n
    } else {
        usize::MAX as int
    }
}

/// How many bytes the UTF-8 encoding of `c` takes.
fn utf8_width(c: char) -> (r: usize)
    ensures
        r == encode_scalar(c as u32).len(),
{
    let v = c as u32;
    if v <= 0x7f {
        1
    } else if v <= 0x7ff {
        2
    } else if v <= 0xffff {
        3
    } else {
        4
    }
}

/// The failure `f` of a parser on `s`, with its place given in bytes.
pub fn error_at(s: &Vec<char>, f: Failure) -> (r: ParseError)
    requires
        f.at <= s@.len(),
    ensures
        r.offset == byte_offset(s@, f.at as int),
        r.kind == f.kind,
{
    let k = f.at;
    let mut acc: usize = 0;
    let mut i: usize = k;
    proof {
        assert(s@.subrange(k as int, k as int) =~= Seq::<char>::empty());
    }
    while i > 0
        invariant
            i <= k <= s@.len(),
            acc == (if encode_utf8(s@.subrange(i as int, k as int)).len() <= usize::MAX {
                encode_utf8(s@.subrange(i as int, k as int)).len() as int
            } else {
                usize::MAX as int
            }),
        decreases i,
    {
        i = i - 1;
        proof {
            assert(s@.subrange(i as int, k as int).drop_first() =~= s@.subrange(i + 1, k as int));
        }
        acc = acc.saturating_add(utf8_width(s[i]));
    }
    ParseError { offset: acc, kind: f.kind }
}

/// Relates the result of a parser at a position to its specification.
pub open spec fn agrees<T: View>(r: Result<(usize, T), Failure>, m: Outcome<T::V>) -> bool {
    match r {
        Ok((e, v)) => m == Ok::<(int, T::V), (int, ErrorKind)>((e as int, v@)),
        Err(f) => m == Err::<(int, T::V), (int, ErrorKind)>((f.at as int, f.kind)),
    }
}

/// Relates the result of a parser on a whole string to its specification at
/// the start of that string: on success the rest of the input is handed back,
/// on failure its place is given in bytes.
pub open spec fn agrees_on_str<T: View>(
    r: Result<(String, T), ParseError>,
    s: Seq<char>,
    m: Outcome<T::V>,
) -> bool {
    match r {
        Ok((rest, v)) => match m {
            Ok((e, w)) => w == v@ && rest@ == s.subrange(e, s.len() as int),
            Err(_) => false,
        },
        Err(err) => match m {
            Ok(_) => false,
            Err((k, kind)) => err.offset == byte_offset(s, k) && err.kind == kind,
        },
    }
}

/// The characters of an optional string.
pub open spec fn opt_text(o: Option<String>) -> Option<Seq<char>> {
    match o {
        Some(t) => Some(t@),
        None => None,
    }
}

/// The classes of characters that the grammar scans runs of.
#[derive(Clone, Copy, Debug, PartialEq, Eq, Structural)]
pub enum CharClass {
    /// A space or a tab.
    Space,
    /// A space, a tab, a carriage return or a newline.
    Blank,
    /// An ASCII decimal digit.
    Digit,
    /// The digit `0`.
    Zero,
    /// An ASCII letter.
    Alpha,
    /// Anything but a newline.
    LineText,
    /// Anything but a space, a tab or a newline.
    Word,
    /// Anything but `;` or a newline.
    Description,
}

pub open spec fn is_space(c: char) -> bool {
    c == ' ' || c == '\t'
}

pub open spec fn is_eol(c: char) -> bool {
    c == '\n' || c == '\r'
}

pub open spec fn is_digit(c: char) -> bool {
    '0' <= c && c <= '9'
}

pub open spec fn is_alpha(c: char) -> bool {
    ('a' <= c && c <= 'z') || ('A' <= c && c <= 'Z')
}

pub open spec fn in_class(c: char, k: CharClass) -> bool {
    match k {
        CharClass::Space => is_space(c),
        CharClass::Blank => is_space(c) || is_eol(c),
        CharClass::Digit => is_digit(c),
        CharClass::Zero => c == '0',
        CharClass::Alpha => is_alpha(c),
        CharClass::LineText => c != '\n',
        CharClass::Word => !is_space(c) && c != '\n',
        CharClass::Description => c != ';' && c != '\n',
    }
}

/// Whether `c` belongs to class `k`.
pub fn class_has(k: CharClass, c: char) -> (r: bool)
    ensures
        r == in_class(c, k),
{
    match k {
        CharClass::Space => c == ' ' || c == '\t',
        CharClass::Blank => c == ' ' || c == '\t' || c == '\n' || c == '\r',
        CharClass::Digit => '0' <= c && c <= '9',
        CharClass::Zero => c == '0',
        CharClass::Alpha => ('a' <= c && c <= 'z') || ('A' <= c && c <= 'Z'),
        CharClass::LineText => c != '\n',
        CharClass::Word => !(c == ' ' || c == '\t' || c == '\n'),
        CharClass::Description => !(c == ';' || c == '\n'),
    }
}

/// The end of the longest run of class `k` that starts at `p`.
pub open spec fn run_end(s: Seq<char>, p: int, k: CharClass) -> int
    decreases s.len() - p,
{
    if 0 <= p < s.len() && in_class(s[p], k) {
        run_end(s, p + 1, k)
    } else {
        p
    }
}

pub proof fn lemma_run_end_bounds(s: Seq<char>, p: int, k: CharClass)
    requires
        0 <= p <= s.len(),
    ensures
        p <= run_end(s, p, k) <= s.len(),
        forall|j: int| p <= j < run_end(s, p, k) ==> in_class(#[trigger] s[j], k),
        run_end(s, p, k) == s.len() || !in_class(s[run_end(s, p, k)], k),
    decreases s.len() - p,
{
    if p < s.len() && in_class(s[p], k) {
        lemma_run_end_bounds(s, p + 1, k);
    }
}

/// The end of the longest run of characters of class `k` that starts at `p`.
pub fn scan(s: &Vec<char>, p: usize, k: CharClass) -> (r: usize)
    requires
        p <= s@.len(),
    ensures
        r == run_end(s@, p as int, k),
        p <= r <= s@.len() <= usize::MAX,
{
    let mut i: usize = p;
    while i < s.len() && class_has(k, s[i])
        invariant
            p <= i <= s@.len(),
            run_end(s@, p as int, k) == run_end(s@, i as int, k),
        decreases s@.len() - i,
    {
        i = i + 1;
    }
    i
}

/// The end of a line whose remaining characters at `p` are whitespace: past
/// its `\n` or `\r\n`, or at the end of the input.
pub open spec fn spec_line_end(s: Seq<char>, p: int) -> Result<int, (int, ErrorKind)> {
    let w = run_end(s, p, CharClass::Space);
    if w == s.len() {
        Ok(w)
    } else if char_at(s, w, '\n') {
        Ok(w + 1)
    } else if char_at(s, w, '\r') && char_at(s, w + 1, '\n') {
        Ok(w + 2)
    } else {
        Err(miss(s, if char_at(s, w, '\r') { w + 1 } else { w }))
    }
}

/// Finds the end of the line at `p`, where only whitespace is left on it.
pub fn line_end_at(s: &Vec<char>, p: usize) -> (r: Result<usize, Failure>)
    requires
        p <= s@.len(),
    ensures
        match r {
            Ok(e) => spec_line_end(s@, p as int) == Ok::<int, (int, ErrorKind)>(e as int),
            Err(f) => spec_line_end(s@, p as int) == Err::<int, (int, ErrorKind)>(
                (f.at as int, f.kind),
            ),
        },
        r matches Ok(e) ==> p <= e <= s@.len(),
        r matches Err(f) ==> f.at <= s@.len(),
{
    let w = scan(s, p, CharClass::Space);
    if w == s.len() {
        Ok(w)
    } else if at(s, w, '\n') {
        Ok(w + 1)
    } else if at(s, w, '\r') && at(s, w + 1, '\n') {
        Ok(w + 2)
    } else if at(s, w, '\r') {
        Err(miss_at(s, w + 1))
    } else {
        Err(miss_at(s, w))
    }
}

/// Where the text of a line that runs from `a` to `e` stops: before the
/// `\r` of a `\r\n` that ends it at `e`, else at `e`.
pub open spec fn line_stop(s: Seq<char>, a: int, e: int) -> int {
    if char_at(s, e, '\n') && e > a && s[e - 1] == '\r' {
        e - 1
    } else {
        e
    }
}

/// Where the text of a line that runs from `a` to `e` stops.
pub fn line_stop_at(s: &Vec<char>, a: usize, e: usize) -> (r: usize)
    requires
        a <= e <= s@.len(),
    ensures
        r == line_stop(s@, a as int, e as int),
        a <= r <= e,
{
    if at(s, e, '\n') && e > a && s[e - 1] == '\r' {
        e - 1
    } else {
        e
    }
}

/// Whether the character at `p` is `c`.
pub open spec fn char_at(s: Seq<char>, p: int, c: char) -> bool {
    0 <= p < s.len() && s[p] == c
}

/// Whether the character at `p` is `c`.
pub fn at(s: &Vec<char>, p: usize, c: char) -> (r: bool)
    ensures
        r == char_at(s@, p as int, c),
        r ==> s@.len() <= usize::MAX,
{
    p < s.len() && s[p] == c
}

pub open spec fn digit_value(c: char) -> int {
    (c as int) - ('0' as int)
}

/// Runs in `s` after `k` are those of the text `t` that follows `k`.
pub proof fn lemma_run_end_shift(s: Seq<char>, t: Seq<char>, k: int, i: int, c: CharClass)
    requires
        0 <= k,
        0 <= i <= t.len(),
        k <= s.len(),
        s.subrange(k, s.len() as int) == t,
    ensures
        run_end(s, k + i, c) == k + run_end(t, i, c),
    decreases t.len() - i,
{
    if i < t.len() {
        assert(s[k + i] == t[i]);
        lemma_run_end_shift(s, t, k, i + 1, c);
    }
}

/// Whether `t` is the text of `s` from `k` up to a line end, the line end
/// (`\n`, or `\r\n`) left out.
pub open spec fn cut(s: Seq<char>, k: int, t: Seq<char>) -> bool {
    &&& 0 <= k
    &&& k + t.len() <= s.len()
    &&& s.subrange(k, k + t.len()) == t
    &&& forall|j: int| 0 <= j < t.len() ==> #[trigger] t[j] != '\n'
    &&& (k + t.len() == s.len() || (s[k + t.len()] == '\n' && (t.len() == 0 || t[t.len() - 1]
        != '\r')) || (s[k + t.len()] == '\r' && char_at(s, k + t.len() + 1, '\n')))
}

/// A run in the text `t` that follows `k` in `s` is the same run in `s`, up to
/// the end of `t`.
pub proof fn lemma_run_end_prefix(s: Seq<char>, t: Seq<char>, k: int, i: int, c: CharClass)
    requires
        0 <= k,
        0 <= i <= t.len(),
        k + t.len() <= s.len(),
        s.subrange(k, k + t.len()) == t,
    ensures
        run_end(t, i, c) < t.len() ==> run_end(s, k + i, c) == k + run_end(t, i, c),
        run_end(t, i, c) == t.len() ==> run_end(s, k + i, c) == run_end(s, k + t.len(), c),
    decreases t.len() - i,
{
    if i < t.len() {
        assert(s[k + i] == t[i]);
        lemma_run_end_prefix(s, t, k, i + 1, c);
    }
}

/// Runs of characters that are neither `\r` nor `\n` are the same in a line
/// cut out of `s` as in `s`.
pub proof fn lemma_run_end_cut(s: Seq<char>, t: Seq<char>, k: int, i: int, c: CharClass)
    requires
        cut(s, k, t),
        0 <= i <= t.len(),
        !in_class('\n', c),
        !in_class('\r', c),
    ensures
        run_end(s, k + i, c) == k + run_end(t, i, c),
{
    lemma_run_end_prefix(s, t, k, i, c);
    lemma_run_end_bounds(t, i, c);
    let l = t.len() as int;
    assert(run_end(t, l, c) == l);
}

/// Where a run that may hold a `\r` stops before the line end, in a line cut
/// out of `s` and in `s`.
pub proof fn lemma_line_stop_cut(s: Seq<char>, t: Seq<char>, k: int, i: int, c: CharClass)
    requires
        cut(s, k, t),
        0 <= i <= t.len(),
        !in_class('\n', c),
        in_class('\r', c),
    ensures
        line_stop(s, k + i, run_end(s, k + i, c)) == k + line_stop(t, i, run_end(t, i, c)),
{
    lemma_run_end_prefix(s, t, k, i, c);
    lemma_run_end_bounds(t, i, c);
    let l = t.len() as int;
    let r = run_end(t, i, c);
    if r < l {
        assert(s[k + r] == t[r]);
    } else {
        if k + l < s.len() && s[k + l] == '\r' {
            assert(run_end(s, k + l + 1, c) == k + l + 1);
        }
        if l > 0 {
            assert(s[k + l - 1] == t[l - 1]);
        }
    }
}

/// The value of the decimal digits `s[a..b]`.
pub open spec fn digits_value(s: Seq<char>, a: int, b: int) -> int
    decreases b - a,
{
    if b <= a {
        0
    } else {
        10 * digits_value(s, a, b - 1) + digit_value(s[b - 1])
    }
}

pub proof fn lemma_digits_value_grows(s: Seq<char>, a: int, b: int, c: int)
    requires
        0 <= a <= b <= c <= s.len(),
        forall|j: int| a <= j < c ==> is_digit(#[trigger] s[j]),
    ensures
        0 <= digits_value(s, a, b) <= digits_value(s, a, c),
    decreases c - a,
{
    if c > b {
        lemma_digits_value_grows(s, a, b, c - 1);
    } else if b > a {
        lemma_digits_value_grows(s, a, b - 1, b - 1);
    }
}

/// Digits in `s` after `k` have the values of those of the text `t` that
/// follows `k`.
pub proof fn lemma_digits_value_shift(s: Seq<char>, t: Seq<char>, k: int, a: int, b: int)
    requires
        0 <= k,
        0 <= a <= b <= t.len(),
        k + t.len() <= s.len(),
        s.subrange(k, k + t.len()) == t,
    ensures
        digits_value(s, k + a, k + b) == digits_value(t, a, b),
    decreases b - a,
{
    if b > a {
        assert(s[k + b - 1] == t[b - 1]);
        lemma_digits_value_shift(s, t, k, a, b - 1);
    }
}

/// The value of the digits `s[a..b]`, where it is at most `bound`.
pub fn read_digits(s: &Vec<char>, a: usize, b: usize, bound: u64) -> (r: Option<u64>)
    requires
        a <= b <= s@.len(),
        forall|j: int| a <= j < b ==> is_digit(#[trigger] s@[j]),
    ensures
        r == (if digits_value(s@, a as int, b as int) <= bound {
            Some(digits_value(s@, a as int, b as int) as u64)
        } else {
            None::<u64>
        }),
{
    let mut acc: u64 = 0;
    let mut i: usize = a;
    while i < b
        invariant
            a <= i <= b <= s@.len(),
            forall|j: int| a <= j < b ==> is_digit(#[trigger] s@[j]),
            acc == digits_value(s@, a as int, i as int),
            acc <= bound,
        decreases b - i,
    {
        let d = (s[i] as u32 - '0' as u32) as u64;
        if d > bound || acc > (bound - d) / 10 {
            proof {
                assert(10 * acc + d > bound) by (nonlinear_arith)
                    requires
                        d > bound || acc > (bound - d) / 10,
                ;
                lemma_digits_value_grows(s@, a as int, i as int + 1, b as int);
            }
            return None;
        }
        assert(10 * acc + d <= bound) by (nonlinear_arith)
            requires
                d <= bound,
                acc <= (bound - d) / 10,
        ;
        acc = acc * 10 + d;
        i = i + 1;
    }
    Some(acc)
}

/// The characters of `s`, in order.
pub fn chars_of(s: &str) -> (r: Vec<char>)
    ensures
        r@ == s@,
{
    broadcast use vstd::string::axiom_spec_iter, vstd::string::next_postcondition;

    let mut v: Vec<char> = Vec::new();
    let mut it = s.chars();
    loop
        invariant
            v@ + it.remaining() == s@,
            it.obeys_prophetic_iter_laws(),
            it.decrease() is Some,
        ensures
            v@ == s@,
        decreases it.decrease()->0,
    {
        match it.next() {
            Some(c) => {
                proof {
                    assert(v@.push(c) + it.remaining() =~= s@);
                }
                v.push(c);
            },
            None => {
                proof {
                    assert(v@ =~= s@);
                }
                break;
            },
        }
    }
    v
}

/// Relies on `String::push`: it appends one character.
#[verifier::external_body]
fn push_char(s: &mut String, c: char)
    ensures
        final(s)@ == old(s)@.push(c),
{
    s.push(c);
}

/// The string made of the characters `s[a..b]`.
pub fn string_of(s: &Vec<char>, a: usize, b: usize) -> (r: String)
    requires
        a <= b <= s@.len(),
    ensures
        r@ == s@.subrange(a as int, b as int),
{
    let mut out = String::new();
    let mut i: usize = a;
    while i < b
        invariant
            a <= i <= b <= s@.len(),
            out@ == s@.subrange(a as int, i as int),
        decreases b - i,
    {
        push_char(&mut out, s[i]);
        proof {
            assert(s@.subrange(a as int, i as int).push(s@[i as int]) =~= s@.subrange(a as int, i + 1));
        }
        i = i + 1;
    }
    out
}

} // verus!
