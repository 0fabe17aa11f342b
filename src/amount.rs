//! Amounts with their commodity, exchange rates, and the amount of a posting
//! with its balance assertion and exchange rate.
use vstd::prelude::*;
use crate::number::{lemma_number_cut, lemma_number_shift, number_at, spec_number, Number};
use crate::text::{
    agrees, agrees_on_str, at, char_at, chars_of, cut, error_at, is_space, lemma_run_end_bounds,
    lemma_run_end_cut, lemma_run_end_shift, miss, miss_at, opt_text, run_end, scan, string_of,
    CharClass, Failure, Outcome, ParseError,
};

verus! {

/// A monetary value, possibly with a commodity such as `CAD` or `YEN`.
#[derive(Debug)]
pub struct Value {
    /// The number as written.
    pub value: Number,
    /// The commodity.
    pub currency: Option<String>,
}

/// What a [`Value`] holds.
pub struct ValueModel {
    pub value: Number,
    pub currency: Option<Seq<char>>,
}

impl View for Value {
    type V = ValueModel;

    open spec fn view(&self) -> ValueModel {
        ValueModel { value: self.value, currency: opt_text(self.currency) }
    }
}

/// An exchange rate attached to a posting's amount.
#[derive(Debug)]
pub enum Exchange {
    /// The price of one unit, as in `11.23 CAD @ 1.21 USD`.
    PerUnit(Value),
    /// The price of the whole amount, as in `200000 YEN @@ 1927.20 CAD`.
    Total(Value),
}

/// What an [`Exchange`] holds.
pub enum ExchangeModel {
    PerUnit(ValueModel),
    Total(ValueModel),
}

impl View for Exchange {
    type V = ExchangeModel;

    open spec fn view(&self) -> ExchangeModel {
        match self {
            Exchange::PerUnit(v) => ExchangeModel::PerUnit(v@),
            Exchange::Total(v) => ExchangeModel::Total(v@),
        }
    }
}

/// A [`Value`], possibly marked as a balance assertion and possibly paired
/// with an [`Exchange`].
#[derive(Debug)]
pub struct ValueAndExchange {
    /// The assertion symbol; the one known is `=`.
    pub symbol: Option<char>,
    /// The monetary value.
    pub value: Value,
    /// The exchange rate.
    pub exchange: Option<Exchange>,
}

/// What a [`ValueAndExchange`] holds.
pub struct ValueAndExchangeModel {
    pub symbol: Option<char>,
    pub value: ValueModel,
    pub exchange: Option<ExchangeModel>,
}

impl View for ValueAndExchange {
    type V = ValueAndExchangeModel;

    open spec fn view(&self) -> ValueAndExchangeModel {
        ValueAndExchangeModel {
            symbol: self.symbol,
            value: self.value@,
            exchange: match self.exchange {
                Some(x) => Some(x@),
                None => None,
            },
        }
    }
}

/// The amount at `p`: a number, then optionally whitespace and a run of
/// letters naming the commodity.
pub open spec fn spec_value(s: Seq<char>, p: int) -> Outcome<ValueModel> {
    match spec_number(s, p) {
        Ok((e, n)) => {
            let w = run_end(s, e, CharClass::Space);
            let a = run_end(s, w, CharClass::Alpha);
            if w > e && a > w {
                Ok((a, ValueModel { value: n, currency: Some(s.subrange(w, a)) }))
            } else {
                Ok((e, ValueModel { value: n, currency: None }))
            }
        },
        Err(f) => Err(f),
    }
}

/// Parses the amount at `p`.
pub fn value_at(s: &Vec<char>, p: usize) -> (r: Result<(usize, Value), Failure>)
    requires
        p <= s@.len(),
    ensures
        agrees(r, spec_value(s@, p as int)),
        r matches Ok((e, _)) ==> p < e <= s@.len(),
        r matches Err(f) ==> f.at <= s@.len(),
{
    match number_at(s, p) {
        Ok((e, n)) => {
            let w = scan(s, e, CharClass::Space);
            let a = scan(s, w, CharClass::Alpha);
            if w > e && a > w {
                Ok((a, Value { value: n, currency: Some(string_of(s, w, a)) }))
            } else {
                Ok((e, Value { value: n, currency: None }))
            }
        },
        Err(f) => Err(f),
    }
}

impl Value {
    /// Parses an amount at the start of `i`, handing back the rest of `i`.
    pub fn parse(i: &str) -> (r: Result<(String, Value), ParseError>)
        ensures
            agrees_on_str(r, i@, spec_value(i@, 0)),
    {
        let s = chars_of(i);
        match value_at(&s, 0) {
            Ok((e, v)) => Ok((string_of(&s, e, s.len()), v)),
            Err(f) => Err(error_at(&s, f)),
        }
    }
}

/// Parses an amount at the start of `i`, handing back the rest of `i`.
pub fn parse_amount(i: &str) -> (r: Result<(String, Value), ParseError>)
    ensures
        agrees_on_str(r, i@, spec_value(i@, 0)),
{
    Value::parse(i)
}

/// The exchange rate at `p`: `@@` for a total or `@` for a price per unit,
/// then whitespace and an amount. The two-character form is tried first.
pub open spec fn spec_exchange(s: Seq<char>, p: int) -> Outcome<ExchangeModel> {
    let total = char_at(s, p, '@') && char_at(s, p + 1, '@');
    let after = if total { p + 2 } else { p + 1 };
    let w = run_end(s, after, CharClass::Space);
    if !char_at(s, p, '@') {
        Err(miss(s, p))
    } else if w == after {
        Err(miss(s, after))
    } else {
        match spec_value(s, w) {
            Ok((e, v)) => if total {
                Ok((e, ExchangeModel::Total(v)))
            } else {
                Ok((e, ExchangeModel::PerUnit(v)))
            },
            Err(f) => Err(f),
        }
    }
}

/// Parses the exchange rate at `p`.
pub fn exchange_at(s: &Vec<char>, p: usize) -> (r: Result<(usize, Exchange), Failure>)
    requires
        p <= s@.len(),
    ensures
        agrees(r, spec_exchange(s@, p as int)),
        r matches Ok((e, _)) ==> p < e <= s@.len(),
        r matches Err(f) ==> f.at <= s@.len(),
{
    if !at(s, p, '@') {
        return Err(miss_at(s, p));
    }
    let total = at(s, p + 1, '@');
    let after = if total { p + 2 } else { p + 1 };
    let w = scan(s, after, CharClass::Space);
    if w == after {
        return Err(miss_at(s, after));
    }
    match value_at(s, w) {
        Ok((e, v)) => if total {
            Ok((e, Exchange::Total(v)))
        } else {
            Ok((e, Exchange::PerUnit(v)))
        },
        Err(f) => Err(f),
    }
}

impl Exchange {
    /// Parses an exchange rate at the start of `i`, handing back the rest of
    /// `i`.
    pub fn parse(i: &str) -> (r: Result<(String, Exchange), ParseError>)
        ensures
            agrees_on_str(r, i@, spec_exchange(i@, 0)),
    {
        let s = chars_of(i);
        match exchange_at(&s, 0) {
            Ok((e, x)) => Ok((string_of(&s, e, s.len()), x)),
            Err(f) => Err(error_at(&s, f)),
        }
    }
}

/// The amount of a posting at `p`: an optional `=` with the whitespace after
/// it, an amount, and optionally whitespace and an exchange rate.
pub open spec fn spec_value_and_exchange(s: Seq<char>, p: int) -> Outcome<
    ValueAndExchangeModel,
> {
    let asserted = char_at(s, p, '=');
    let q = if asserted { run_end(s, p + 1, CharClass::Space) } else { p };
    let symbol = if asserted { Some('=') } else { None };
    match spec_value(s, q) {
        Ok((e, v)) => {
            let w = run_end(s, e, CharClass::Space);
            match (if w > e { spec_exchange(s, w) } else { Err(miss(s, w)) }) {
                Ok((x, ex)) => Ok(
                    (x, ValueAndExchangeModel { symbol, value: v, exchange: Some(ex) }),
                ),
                Err(_) => Ok((e, ValueAndExchangeModel { symbol, value: v, exchange: None })),
            }
        },
        Err(f) => Err(f),
    }
}

/// Parses the amount of a posting at `p`.
pub fn value_and_exchange_at(s: &Vec<char>, p: usize) -> (r: Result<
    (usize, ValueAndExchange),
    Failure,
>)
    requires
        p <= s@.len(),
    ensures
        agrees(r, spec_value_and_exchange(s@, p as int)),
        r matches Ok((e, _)) ==> p < e <= s@.len(),
        r matches Err(f) ==> f.at <= s@.len(),
{
    let asserted = at(s, p, '=');
    let q = if asserted { scan(s, p + 1, CharClass::Space) } else { p };
    let symbol = if asserted { Some('=') } else { None };
    match value_at(s, q) {
        Ok((e, value)) => {
            let w = scan(s, e, CharClass::Space);
            let ex = if w > e { exchange_at(s, w) } else { Err(miss_at(s, w)) };
            match ex {
                Ok((x, exchange)) => Ok((x, ValueAndExchange { symbol, value, exchange: Some(exchange) })),
                Err(_) => Ok((e, ValueAndExchange { symbol, value, exchange: None })),
            }
        },
        Err(f) => Err(f),
    }
}

impl ValueAndExchange {
    /// Parses the amount of a posting at the start of `i`, handing back the
    /// rest of `i`.
    pub fn parse(i: &str) -> (r: Result<(String, ValueAndExchange), ParseError>)
        ensures
            agrees_on_str(r, i@, spec_value_and_exchange(i@, 0)),
    {
        let s = chars_of(i);
        match value_and_exchange_at(&s, 0) {
            Ok((e, v)) => Ok((string_of(&s, e, s.len()), v)),
            Err(f) => Err(error_at(&s, f)),
        }
    }
}

/// After `@@` and whitespace, an amount is read as a total price, and after
/// `@` and whitespace as a price per unit: `@@` is never read as two `@`.
pub proof fn lemma_exchange_longest_match(s: Seq<char>, p: int, w: int)
    requires
        0 <= p,
        p + 1 < w <= s.len(),
        s[p] == '@',
        forall|j: int| p + 1 < j < w ==> s[j] == ' ',
        spec_value(s, w) is Ok,
    ensures
        s[p + 1] == '@' && w > p + 2 ==> spec_exchange(s, p) == (match spec_value(s, w) {
            Ok((e, v)) => Ok((e, ExchangeModel::Total(v))),
            Err(f) => Err(f),
        }),
        s[p + 1] == ' ' ==> spec_exchange(s, p) == (match spec_value(s, w) {
            Ok((e, v)) => Ok((e, ExchangeModel::PerUnit(v))),
            Err(f) => Err(f),
        }),
{
    if s[p + 1] == '@' {
        lemma_space_run(s, p + 2, w);
    } else if s[p + 1] == ' ' {
        lemma_space_run(s, p + 1, w);
    }
}

proof fn lemma_space_run(s: Seq<char>, a: int, w: int)
    requires
        0 <= a <= w <= s.len(),
        forall|j: int| a <= j < w ==> s[j] == ' ',
        spec_value(s, w) is Ok,
    ensures
        run_end(s, a, CharClass::Space) == w,
    decreases w - a,
{
    if a < w {
        lemma_space_run(s, a + 1, w);
    } else {
        lemma_run_end_bounds(s, if char_at(s, w, '-') { w + 1 } else { w }, CharClass::Digit);
    }
}

/// An amount is read the same after any text: reading `s` at `k` gives what
/// reading the text `t` that follows `k` gives, moved by `k`.
pub proof fn lemma_value_shift(s: Seq<char>, t: Seq<char>, k: int)
    requires
        0 <= k <= s.len(),
        s.subrange(k, s.len() as int) == t,
    ensures
        spec_value(t, 0) matches Ok((e, v)) ==> 0 <= e <= t.len() && spec_value(s, k) == Outcome::Ok(
            (k + e, v),
        ),
{
    lemma_number_shift(s, t, k);
    if let Ok((e, n)) = spec_number(t, 0) {
        lemma_run_end_bounds(t, e, CharClass::Space);
        lemma_run_end_shift(s, t, k, e, CharClass::Space);
        let w = run_end(t, e, CharClass::Space);
        lemma_run_end_bounds(t, w, CharClass::Alpha);
        lemma_run_end_shift(s, t, k, w, CharClass::Alpha);
        let a = run_end(t, w, CharClass::Alpha);
        assert(s.subrange(k + w, k + a) =~= t.subrange(w, a));
    }
}

/// For any amount `a` read whole, `@@ ` followed by `a` is read as a total
/// price of that amount and `@ ` followed by `a` as a price per unit of it:
/// `@@` is never read as two `@`.
pub proof fn lemma_exchange_of_amount(a: Seq<char>)
    requires
        spec_value(a, 0) matches Ok((e, _)) && e == a.len(),
    ensures
        spec_value(a, 0) matches Ok((_, v)) && spec_exchange(seq!['@', '@', ' '] + a, 0)
            == Outcome::Ok((a.len() + 3int, ExchangeModel::Total(v))) && spec_exchange(
            seq!['@', ' '] + a,
            0,
        ) == Outcome::Ok((a.len() + 2int, ExchangeModel::PerUnit(v))),
{
    let total = seq!['@', '@', ' '] + a;
    let unit = seq!['@', ' '] + a;
    assert(total.subrange(3, total.len() as int) =~= a);
    assert(unit.subrange(2, unit.len() as int) =~= a);
    assert(total.len() == 3 + a.len() && total[0] == '@' && total[1] == '@' && total[2] == ' ');
    assert(unit.len() == 2 + a.len() && unit[0] == '@' && unit[1] == ' ');
    exchange_after_prefix(total, a, 3);
    exchange_after_prefix(unit, a, 2);
}

proof fn exchange_after_prefix(s: Seq<char>, a: Seq<char>, k: int)
    requires
        spec_value(a, 0) matches Ok((e, _)) && e == a.len(),
        k == 2 || k == 3,
        s.len() == k + a.len(),
        s.subrange(k, s.len() as int) == a,
        s[0] == '@',
        s[k - 1] == ' ',
        k == 3 ==> s[1] == '@',
    ensures
        spec_value(a, 0) matches Ok((_, v)) && spec_exchange(s, 0) == (if k == 3 {
            Outcome::Ok((s.len() as int, ExchangeModel::Total(v)))
        } else {
            Outcome::Ok((s.len() as int, ExchangeModel::PerUnit(v)))
        }),
{
    lemma_value_shift(s, a, k);
    lemma_exchange_longest_match(s, 0, k);
}

/// An amount is read the same in a line cut out of `s` as in `s`.
pub proof fn lemma_value_cut(s: Seq<char>, t: Seq<char>, k: int, i: int)
    requires
        cut(s, k, t),
        0 <= i <= t.len(),
    ensures
        (spec_value(t, i) is Ok) == (spec_value(s, k + i) is Ok),
        spec_value(t, i) matches Ok((e, v)) ==> i <= e <= t.len() && spec_value(s, k + i)
            == Outcome::Ok((k + e, v)),
{
    lemma_number_cut(s, t, k, i);
    if let Ok((e, _)) = spec_number(t, i) {
        lemma_run_end_bounds(t, e, CharClass::Space);
        lemma_run_end_cut(s, t, k, e, CharClass::Space);
        let w = run_end(t, e, CharClass::Space);
        lemma_run_end_bounds(t, w, CharClass::Alpha);
        lemma_run_end_cut(s, t, k, w, CharClass::Alpha);
        let a = run_end(t, w, CharClass::Alpha);
        assert(s.subrange(k + w, k + a) =~= t.subrange(w, a));
    }
}

/// An exchange rate is read the same in a line cut out of `s` as in `s`.
pub proof fn lemma_exchange_cut(s: Seq<char>, t: Seq<char>, k: int, i: int)
    requires
        cut(s, k, t),
        0 <= i <= t.len(),
    ensures
        (spec_exchange(t, i) is Ok) == (spec_exchange(s, k + i) is Ok),
        spec_exchange(t, i) matches Ok((e, x)) ==> i <= e <= t.len() && spec_exchange(s, k + i)
            == Outcome::Ok((k + e, x)),
{
    let l = t.len() as int;
    if i < l {
        assert(s[k + i] == t[i]);
    }
    if i + 1 < l {
        assert(s[k + i + 1] == t[i + 1]);
    }
    if char_at(t, i, '@') {
        let after = if char_at(t, i + 1, '@') { i + 2 } else { i + 1 };
        lemma_run_end_bounds(t, after, CharClass::Space);
        lemma_run_end_cut(s, t, k, after, CharClass::Space);
        lemma_value_cut(s, t, k, run_end(t, after, CharClass::Space));
    }
}

/// The amount of a posting is read the same in a line cut out of `s` as in
/// `s`.
pub proof fn lemma_value_and_exchange_cut(s: Seq<char>, t: Seq<char>, k: int, i: int)
    requires
        cut(s, k, t),
        0 <= i <= t.len(),
    ensures
        (spec_value_and_exchange(t, i) is Ok) == (spec_value_and_exchange(s, k + i) is Ok),
        spec_value_and_exchange(t, i) matches Ok((e, v)) ==> i <= e <= t.len()
            && spec_value_and_exchange(s, k + i) == Outcome::Ok((k + e, v)),
{
    let l = t.len() as int;
    if i < l {
        assert(s[k + i] == t[i]);
    }
    let q = if char_at(t, i, '=') {
        lemma_run_end_bounds(t, i + 1, CharClass::Space);
        lemma_run_end_cut(s, t, k, i + 1, CharClass::Space);
        run_end(t, i + 1, CharClass::Space)
    } else {
        i
    };
    lemma_value_cut(s, t, k, q);
    if let Ok((e, _)) = spec_value(t, q) {
        lemma_run_end_bounds(t, e, CharClass::Space);
        lemma_run_end_cut(s, t, k, e, CharClass::Space);
        lemma_exchange_cut(s, t, k, run_end(t, e, CharClass::Space));
    }
}

} // verus!
