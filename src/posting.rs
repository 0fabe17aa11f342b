//! Comments and the posting lines of an entry.
use vstd::prelude::*;
use crate::amount::{
    lemma_value_and_exchange_cut, spec_value_and_exchange, value_and_exchange_at, ValueAndExchange,
    ValueAndExchangeModel,
};
use crate::text::{
    agrees, agrees_on_str, at, char_at, chars_of, cut, error_at, is_eol, is_space,
    lemma_line_stop_cut, lemma_run_end_bounds, lemma_run_end_cut, line_stop, line_stop_at, miss,
    miss_at, opt_text, run_end, scan, string_of, CharClass, Failure, Outcome, ParseError,
};

verus! {

/// The comment at `p`: a `;` and the rest of the line, without the `;` and
/// without the line's end, `\n` or `\r\n`.
pub open spec fn spec_comment(s: Seq<char>, p: int) -> Outcome<Seq<char>> {
    if char_at(s, p, ';') {
        let e = line_stop(s, p + 1, run_end(s, p + 1, CharClass::LineText));
        Ok((e, s.subrange(p + 1, e)))
    } else {
        Err(miss(s, p))
    }
}

/// Parses the comment at `p`.
pub fn comment_at(s: &Vec<char>, p: usize) -> (r: Result<(usize, String), Failure>)
    requires
        p <= s@.len(),
    ensures
        agrees(r, spec_comment(s@, p as int)),
        r matches Ok((e, _)) ==> p < e <= s@.len(),
        r matches Err(f) ==> f.at <= s@.len(),
{
    if at(s, p, ';') {
        let n = scan(s, p + 1, CharClass::LineText);
        let e = line_stop_at(s, p + 1, n);
        Ok((e, string_of(s, p + 1, e)))
    } else {
        Err(miss_at(s, p))
    }
}

/// Parses a comment at the start of `i`, handing back the rest of `i`.
pub fn parse_comment(i: &str) -> (r: Result<(String, String), ParseError>)
    ensures
        agrees_on_str(r, i@, spec_comment(i@, 0)),
{
    let s = chars_of(i);
    match comment_at(&s, 0) {
        Ok((e, c)) => Ok((string_of(&s, e, s.len()), c)),
        Err(f) => Err(error_at(&s, f)),
    }
}

/// Whether a line ends at `k`: the input ends there, or a `\n` or a `\r\n`
/// starts there.
pub open spec fn ends_line(s: Seq<char>, k: int) -> bool {
    k == s.len() || char_at(s, k, '\n') || (char_at(s, k, '\r') && char_at(s, k + 1, '\n'))
}

/// A comment keeps every character that follows its `;` up to the end of its
/// line, a lone `\r` included, and nothing else.
pub proof fn lemma_comment_preserved(s: Seq<char>, p: int)
    requires
        0 <= p < s.len(),
        s[p] == ';',
    ensures
        spec_comment(s, p) matches Ok((e, c)) && c == s.subrange(p + 1, e) && ends_line(s, e)
            && forall|j: int| p < j < e ==> #[trigger] s[j] != '\n',
{
    lemma_run_end_bounds(s, p + 1, CharClass::LineText);
}

/// Whether `c` is, character for character, the text that follows some `;`
/// of `s` up to the end of that line, the line end left out.
pub open spec fn comment_from(s: Seq<char>, c: Seq<char>) -> bool {
    &&& forall|j: int| 0 <= j < c.len() ==> #[trigger] c[j] != '\n'
    &&& exists|a: int|
        0 < a && a + c.len() <= s.len() && s[a - 1] == ';' && #[trigger] s.subrange(a, a + c.len())
            == c && ends_line(s, a + c.len())
}

/// Whether the comments that `it` holds are text of `s`, as [`comment_from`]
/// says.
pub open spec fn item_comments_from(s: Seq<char>, it: LineOrCommentModel) -> bool {
    match it {
        LineOrCommentModel::Comment(c) => comment_from(s, c),
        LineOrCommentModel::Line(l) => match l.comment {
            Some(c) => comment_from(s, c),
            None => true,
        },
    }
}

pub proof fn lemma_comment_from(s: Seq<char>, p: int)
    ensures
        spec_comment(s, p) matches Ok((_, c)) ==> comment_from(s, c),
{
    if char_at(s, p, ';') {
        lemma_comment_preserved(s, p);
        lemma_run_end_bounds(s, p + 1, CharClass::LineText);
        let e = line_stop(s, p + 1, run_end(s, p + 1, CharClass::LineText));
        let c = s.subrange(p + 1, e);
        assert(s.subrange(p + 1, p + 1 + c.len()) == c);
        assert forall|j: int| 0 <= j < c.len() implies #[trigger] c[j] != '\n' by {
            assert(c[j] == s[p + 1 + j]);
        }
    }
}

pub proof fn lemma_content_comments_from(s: Seq<char>, p: int)
    ensures
        spec_content(s, p) matches Ok((_, it)) ==> item_comments_from(s, it),
{
    let i = run_end(s, p, CharClass::Space);
    lemma_comment_from(s, i);
    let a = line_stop(s, i, run_end(s, i, CharClass::Word));
    let w = run_end(s, a, CharClass::Space);
    let amount = if w >= a + 2 { spec_value_and_exchange(s, w) } else { Err(miss(s, w)) };
    let ve = match amount {
        Ok((e, _)) => e,
        Err(_) => a,
    };
    lemma_comment_from(s, run_end(s, ve, CharClass::Space));
}

/// One posting of an [`Entry`](crate::journal::Entry).
#[derive(Debug)]
pub struct Line {
    /// The account, such as `expenses:food`.
    pub account: String,
    /// The amount, absent where it is left for the reader to infer.
    pub value: Option<ValueAndExchange>,
    /// A comment at the end of the line.
    pub comment: Option<String>,
}

/// What a [`Line`] holds.
pub struct LineModel {
    pub account: Seq<char>,
    pub value: Option<ValueAndExchangeModel>,
    pub comment: Option<Seq<char>>,
}

impl View for Line {
    type V = LineModel;

    open spec fn view(&self) -> LineModel {
        LineModel {
            account: self.account@,
            value: match self.value {
                Some(v) => Some(v@),
                None => None,
            },
            comment: opt_text(self.comment),
        }
    }
}

/// The posting at `p`: an account, which runs to the first space, tab or line
/// end (`\n`, or `\r\n`); then, after at least two whitespace characters, an optional amount;
/// then, after whitespace, an optional comment. A single space never starts
/// an amount.
pub open spec fn spec_line(s: Seq<char>, p: int) -> Outcome<LineModel> {
    let a = line_stop(s, p, run_end(s, p, CharClass::Word));
    let w = run_end(s, a, CharClass::Space);
    let amount = if w >= a + 2 { spec_value_and_exchange(s, w) } else { Err(miss(s, w)) };
    let ve = match amount {
        Ok((e, _)) => e,
        Err(_) => a,
    };
    let cw = run_end(s, ve, CharClass::Space);
    let comment = if cw > ve { spec_comment(s, cw) } else { Err(miss(s, cw)) };
    let ce = match comment {
        Ok((e, _)) => e,
        Err(_) => ve,
    };
    if a == p {
        Err(miss(s, p))
    } else {
        Ok(
            (
                ce,
                LineModel {
                    account: s.subrange(p, a),
                    value: match amount {
                        Ok((_, v)) => Some(v),
                        Err(_) => None,
                    },
                    comment: match comment {
                        Ok((_, c)) => Some(c),
                        Err(_) => None,
                    },
                },
            ),
        )
    }
}

/// Parses the posting at `p`.
pub fn line_at(s: &Vec<char>, p: usize) -> (r: Result<(usize, Line), Failure>)
    requires
        p <= s@.len(),
    ensures
        agrees(r, spec_line(s@, p as int)),
        r matches Ok((e, _)) ==> p < e <= s@.len(),
        r matches Err(f) ==> f.at <= s@.len(),
{
    let n = scan(s, p, CharClass::Word);
    let a = line_stop_at(s, p, n);
    if a == p {
        return Err(miss_at(s, p));
    }
    let w = scan(s, a, CharClass::Space);
    let amount = if w - a >= 2 { value_and_exchange_at(s, w) } else { Err(miss_at(s, w)) };
    let (ve, value) = match amount {
        Ok((e, v)) => (e, Some(v)),
        Err(_) => (a, None),
    };
    let cw = scan(s, ve, CharClass::Space);
    let found = if cw > ve { comment_at(s, cw) } else { Err(miss_at(s, cw)) };
    let (ce, comment) = match found {
        Ok((e, c)) => (e, Some(c)),
        Err(_) => (ve, None),
    };
    let account = string_of(s, p, a);
    Ok((ce, Line { account, value, comment }))
}

impl Line {
    /// Parses a posting at the start of `i`, handing back the rest of `i`.
    pub fn parse(i: &str) -> (r: Result<(String, Line), ParseError>)
        ensures
            agrees_on_str(r, i@, spec_line(i@, 0)),
    {
        let s = chars_of(i);
        match line_at(&s, 0) {
            Ok((e, l)) => Ok((string_of(&s, e, s.len()), l)),
            Err(f) => Err(error_at(&s, f)),
        }
    }
}

/// The account of a posting that is read is not empty, holds no space, tab
/// or newline, and is all of the text from `p` up to the first space, tab or
/// line end (`\n`, or `\r\n`).
pub proof fn lemma_account_shape(s: Seq<char>, p: int)
    requires
        0 <= p <= s.len(),
    ensures
        spec_line(s, p) matches Ok((_, l)) ==> {
            let a = p + l.account.len();
            &&& l.account.len() > 0
            &&& l.account == s.subrange(p, a)
            &&& forall|j: int|
                0 <= j < l.account.len() ==> !is_space(#[trigger] l.account[j]) && l.account[j]
                    != '\n'
            &&& (is_space(s[a]) || ends_line(s, a))
        },
{
    lemma_run_end_bounds(s, p, CharClass::Word);
    let e = run_end(s, p, CharClass::Word);
    let a = line_stop(s, p, e);
    assert forall|j: int| 0 <= j < a - p implies !is_space(#[trigger] s.subrange(p, a)[j])
        && s.subrange(p, a)[j] != '\n' by {
        assert(s.subrange(p, a)[j] == s[p + j]);
    }
}

/// A comment is read the same in a line cut out of `s` as in `s`.
pub proof fn lemma_comment_cut(s: Seq<char>, t: Seq<char>, k: int, i: int)
    requires
        cut(s, k, t),
        0 <= i <= t.len(),
    ensures
        (spec_comment(t, i) is Ok) == (spec_comment(s, k + i) is Ok),
        spec_comment(t, i) matches Ok((e, c)) ==> i <= e <= t.len() && spec_comment(s, k + i)
            == Outcome::Ok((k + e, c)),
{
    let l = t.len() as int;
    if i < l {
        assert(s[k + i] == t[i]);
    }
    if char_at(t, i, ';') {
        lemma_line_stop_cut(s, t, k, i + 1, CharClass::LineText);
        lemma_run_end_bounds(t, i + 1, CharClass::LineText);
        let e = line_stop(t, i + 1, run_end(t, i + 1, CharClass::LineText));
        assert(s.subrange(k + i + 1, k + e) =~= t.subrange(i + 1, e));
    }
}

/// A posting is read the same in a line cut out of `s` as in `s`.
pub proof fn lemma_line_cut(s: Seq<char>, t: Seq<char>, k: int, i: int)
    requires
        cut(s, k, t),
        0 <= i <= t.len(),
    ensures
        (spec_line(t, i) is Ok) == (spec_line(s, k + i) is Ok),
        spec_line(t, i) matches Ok((e, l)) ==> i <= e <= t.len() && spec_line(s, k + i)
            == Outcome::Ok((k + e, l)),
{
    lemma_line_stop_cut(s, t, k, i, CharClass::Word);
    lemma_run_end_bounds(t, i, CharClass::Word);
    let a = line_stop(t, i, run_end(t, i, CharClass::Word));
    assert(s.subrange(k + i, k + a) =~= t.subrange(i, a));
    lemma_run_end_bounds(t, a, CharClass::Space);
    lemma_run_end_cut(s, t, k, a, CharClass::Space);
    let w = run_end(t, a, CharClass::Space);
    lemma_value_and_exchange_cut(s, t, k, w);
    let amount = if w >= a + 2 { spec_value_and_exchange(t, w) } else { Err(miss(t, w)) };
    let ve = match amount {
        Ok((e, _)) => e,
        Err(_) => a,
    };
    lemma_run_end_bounds(t, ve, CharClass::Space);
    lemma_run_end_cut(s, t, k, ve, CharClass::Space);
    lemma_comment_cut(s, t, k, run_end(t, ve, CharClass::Space));
}

/// A line of an [`Entry`](crate::journal::Entry): a posting or a comment.
#[derive(Debug)]
pub enum LineOrComment {
    /// A posting.
    Line(Line),
    /// A comment on a line of its own.
    Comment(String),
}

/// What a [`LineOrComment`] holds.
pub enum LineOrCommentModel {
    Line(LineModel),
    Comment(Seq<char>),
}

impl View for LineOrComment {
    type V = LineOrCommentModel;

    open spec fn view(&self) -> LineOrCommentModel {
        match self {
            LineOrComment::Line(l) => LineOrCommentModel::Line(l@),
            LineOrComment::Comment(c) => LineOrCommentModel::Comment(c@),
        }
    }
}

/// The indented line of an entry at `p`, up to its line end: whitespace, then
/// a comment if a `;` comes first, else a posting.
pub open spec fn spec_content(s: Seq<char>, p: int) -> Outcome<LineOrCommentModel> {
    let i = run_end(s, p, CharClass::Space);
    if i == p {
        Err(miss(s, p))
    } else if char_at(s, i, ';') {
        match spec_comment(s, i) {
            Ok((e, c)) => Ok((e, LineOrCommentModel::Comment(c))),
            Err(f) => Err(f),
        }
    } else {
        match spec_line(s, i) {
            Ok((e, l)) => Ok((e, LineOrCommentModel::Line(l))),
            Err(f) => Err(f),
        }
    }
}

/// Parses the indented line of an entry at `p`.
pub fn content_at(s: &Vec<char>, p: usize) -> (r: Result<(usize, LineOrComment), Failure>)
    requires
        p <= s@.len(),
    ensures
        agrees(r, spec_content(s@, p as int)),
        r matches Ok((e, _)) ==> p < e <= s@.len(),
        r matches Err(f) ==> f.at <= s@.len(),
{
    let i = scan(s, p, CharClass::Space);
    if i == p {
        Err(miss_at(s, p))
    } else if at(s, i, ';') {
        match comment_at(s, i) {
            Ok((e, c)) => Ok((e, LineOrComment::Comment(c))),
            Err(err) => Err(err),
        }
    } else {
        match line_at(s, i) {
            Ok((e, l)) => Ok((e, LineOrComment::Line(l))),
            Err(err) => Err(err),
        }
    }
}

} // verus!
