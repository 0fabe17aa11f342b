//! The records of a journal: entries, price declarations and comments.
use vstd::prelude::*;
use crate::amount::{spec_value, value_at, Value, ValueModel};
use crate::date::{date_at, spec_date, Date};
use crate::posting::{
    comment_at, comment_from, content_at, item_comments_from, lemma_comment_from,
    lemma_content_comments_from, lemma_line_cut, spec_comment, spec_content, spec_line, LineModel,
    LineOrComment, LineOrCommentModel,
};
use crate::text::{
    agrees, agrees_on_str, at, byte_offset, char_at, chars_of, class_has, cut, error_at, is_digit,
    is_eol, is_space, lemma_run_end_bounds, line_end_at, line_stop, line_stop_at, miss, miss_at,
    opt_text, run_end, scan, spec_line_end, string_of, CharClass, ErrorKind, Failure, Outcome,
    ParseError,
};

verus! {

/// The price of an asset as of a date, as in `P 2022-07-12 TSLA 699.21 U`.
#[derive(Debug)]
pub struct Price {
    /// The date the price was recorded.
    pub date: Date,
    /// The asset's label.
    pub asset: String,
    /// The price.
    pub value: Value,
    /// A comment at the end of the line.
    pub comment: Option<String>,
}

/// What a [`Price`] holds.
pub struct PriceModel {
    pub date: Date,
    pub asset: Seq<char>,
    pub value: ValueModel,
    pub comment: Option<Seq<char>>,
}

impl View for Price {
    type V = PriceModel;

    open spec fn view(&self) -> PriceModel {
        PriceModel {
            date: self.date,
            asset: self.asset@,
            value: self.value@,
            comment: opt_text(self.comment),
        }
    }
}

impl Price {
    /// Builds a price from its parts.
    pub fn new(date: Date, asset: &str, value: Value, comment: Option<String>) -> (r: Price)
        requires
            date.is_valid(),
        ensures
            r@ == (PriceModel {
                date,
                asset: asset@,
                value: value@,
                comment: opt_text(comment),
            }),
    {
        Price { date, asset: asset.to_owned(), value, comment }
    }

    /// Parses a price declaration at the start of `i`, handing back the rest
    /// of `i`.
    pub fn parse(i: &str) -> (r: Result<(String, Price), ParseError>)
        ensures
            agrees_on_str(r, i@, spec_price(i@, 0)),
    {
        let s = chars_of(i);
        match price_at(&s, 0) {
            Ok((e, p)) => Ok((string_of(&s, e, s.len()), p)),
            Err(f) => Err(error_at(&s, f)),
        }
    }
}

/// The price declaration at `p`: `P`, whitespace, a date, whitespace, a run
/// of letters naming the asset, whitespace, an amount, and optionally
/// whitespace and a comment.
pub open spec fn spec_price(s: Seq<char>, p: int) -> Outcome<PriceModel> {
    let w1 = run_end(s, p + 1, CharClass::Space);
    if !char_at(s, p, 'P') {
        Err(miss(s, p))
    } else if w1 == p + 1 {
        Err(miss(s, w1))
    } else {
        match spec_date(s, w1) {
            Ok((de, date)) => {
                let w2 = run_end(s, de, CharClass::Space);
                let ae = run_end(s, w2, CharClass::Alpha);
                let w3 = run_end(s, ae, CharClass::Space);
                if w2 == de {
                    Err(miss(s, w2))
                } else if ae == w2 {
                    Err(miss(s, ae))
                } else if w3 == ae {
                    Err(miss(s, w3))
                } else {
                    match spec_value(s, w3) {
                        Ok((ve, value)) => {
                            let cw = run_end(s, ve, CharClass::Space);
                            let comment = if cw > ve { spec_comment(s, cw) } else { Err(miss(s, cw)) };
                            Ok(
                                (
                                    match comment {
                                        Ok((ce, _)) => ce,
                                        Err(_) => ve,
                                    },
                                    PriceModel {
                                        date,
                                        asset: s.subrange(w2, ae),
                                        value,
                                        comment: match comment {
                                            Ok((_, c)) => Some(c),
                                            Err(_) => None,
                                        },
                                    },
                                ),
                            )
                        },
                        Err(f) => Err(f),
                    }
                }
            },
            Err(f) => Err(f),
        }
    }
}

/// Parses the price declaration at `p`.
pub fn price_at(s: &Vec<char>, p: usize) -> (r: Result<(usize, Price), Failure>)
    requires
        p <= s@.len(),
    ensures
        agrees(r, spec_price(s@, p as int)),
        r matches Ok((e, _)) ==> p < e <= s@.len(),
        r matches Err(f) ==> f.at <= s@.len(),
{
    if !at(s, p, 'P') {
        return Err(miss_at(s, p));
    }
    let w1 = scan(s, p + 1, CharClass::Space);
    if w1 == p + 1 {
        return Err(miss_at(s, w1));
    }
    let (de, date) = match date_at(s, w1) {
        Ok(d) => d,
        Err(err) => return Err(err),
    };
    let w2 = scan(s, de, CharClass::Space);
    if w2 == de {
        return Err(miss_at(s, w2));
    }
    let ae = scan(s, w2, CharClass::Alpha);
    if ae == w2 {
        return Err(miss_at(s, ae));
    }
    let w3 = scan(s, ae, CharClass::Space);
    if w3 == ae {
        return Err(miss_at(s, w3));
    }
    let (ve, value) = match value_at(s, w3) {
        Ok(v) => v,
        Err(err) => return Err(err),
    };
    let cw = scan(s, ve, CharClass::Space);
    let found = if cw > ve { comment_at(s, cw) } else { Err(miss_at(s, cw)) };
    let (ce, comment) = match found {
        Ok((e, c)) => (e, Some(c)),
        Err(_) => (ve, None),
    };
    Ok((ce, Price { date, asset: string_of(s, w2, ae), value, comment }))
}

/// A transaction: value moving between two or more accounts.
#[derive(Debug)]
pub struct Entry {
    /// The date of the transaction.
    pub date: Date,
    /// The description on the line of the date.
    pub description: String,
    /// A comment after the description.
    pub comment: Option<String>,
    /// At least two postings, with comment lines among them.
    pub lines: Vec<LineOrComment>,
}

/// What an [`Entry`] holds.
pub struct EntryModel {
    pub date: Date,
    pub description: Seq<char>,
    pub comment: Option<Seq<char>>,
    pub lines: Seq<LineOrCommentModel>,
}

pub open spec fn lines_view(v: Seq<LineOrComment>) -> Seq<LineOrCommentModel> {
    v.map_values(|l: LineOrComment| l@)
}

impl View for Entry {
    type V = EntryModel;

    open spec fn view(&self) -> EntryModel {
        EntryModel {
            date: self.date,
            description: self.description@,
            comment: opt_text(self.comment),
            lines: lines_view(self.lines@),
        }
    }
}

/// How many of `lines` are postings.
pub open spec fn posting_count(lines: Seq<LineOrCommentModel>) -> nat
    decreases lines.len(),
{
    if lines.len() == 0 {
        0
    } else {
        posting_count(lines.drop_last()) + if lines.last() is Line {
            1nat
        } else {
            0nat
        }
    }
}

/// Whether the line at `p` is indented and holds more than whitespace.
pub open spec fn indented(s: Seq<char>, p: int) -> bool {
    let i = run_end(s, p, CharClass::Space);
    &&& 0 <= p < s.len()
    &&& is_space(s[p])
    &&& i < s.len()
    &&& !is_eol(s[i])
}

/// Whether the line at `p` is indented and holds more than whitespace.
fn indented_at(s: &Vec<char>, p: usize) -> (r: bool)
    requires
        p <= s@.len(),
    ensures
        r == indented(s@, p as int),
{
    if p < s.len() && class_has(CharClass::Space, s[p]) {
        let i = scan(s, p, CharClass::Space);
        i < s.len() && !(s[i] == '\n' || s[i] == '\r')
    } else {
        false
    }
}

/// The indented lines of an entry from `p` on, after those in `acc`, up to
/// the first line that is not indented.
pub open spec fn spec_lines(s: Seq<char>, p: int, acc: Seq<LineOrCommentModel>) -> Outcome<
    Seq<LineOrCommentModel>,
>
    decreases s.len() - p,
{
    if indented(s, p) {
        match spec_content(s, p) {
            Ok((c, item)) => match spec_line_end(s, c) {
                Ok(e) => if p < e <= s.len() {
                    spec_lines(s, e, acc.push(item))
                } else {
                    Err(miss(s, e))
                },
                Err(f) => Err(f),
            },
            Err(f) => Err(f),
        }
    } else {
        Ok((p, acc))
    }
}

/// The entry at `p`: a date, whitespace, a description running to a `;` or
/// the line's end (`\n`, or `\r\n`), kept as written, an optional comment,
/// the line's end, and then the indented lines, of which at least two must
/// be postings.
pub open spec fn spec_entry(s: Seq<char>, p: int) -> Outcome<EntryModel> {
    match spec_date(s, p) {
        Ok((de, date)) => {
            let w = run_end(s, de, CharClass::Space);
            let dend = run_end(s, w, CharClass::Description);
            let comment = spec_comment(s, dend);
            let ce = match comment {
                Ok((e, _)) => e,
                Err(_) => dend,
            };
            if w == de {
                Err(miss(s, w))
            } else {
                match spec_line_end(s, ce) {
                    Ok(h) => match spec_lines(s, h, Seq::empty()) {
                        Ok((e, lines)) => if posting_count(lines) >= 2 {
                            Ok(
                                (
                                    e,
                                    EntryModel {
                                        date,
                                        description: s.subrange(w, line_stop(s, w, dend)),
                                        comment: match comment {
                                            Ok((_, c)) => Some(c),
                                            Err(_) => None,
                                        },
                                        lines,
                                    },
                                ),
                            )
                        } else {
                            Err((p, ErrorKind::Invalid))
                        },
                        Err(f) => Err(f),
                    },
                    Err(f) => Err(f),
                }
            }
        },
        Err(f) => Err(f),
    }
}

/// Parses the indented lines of an entry that start at `h`, and counts the
/// postings among them.
fn lines_at(s: &Vec<char>, h: usize) -> (r: Result<(usize, Vec<LineOrComment>, usize), Failure>)
    requires
        h <= s@.len(),
    ensures
        match r {
            Ok((e, lines, n)) => spec_lines(s@, h as int, Seq::empty()) == Outcome::Ok(
                (e as int, lines_view(lines@)),
            ) && n == posting_count(lines_view(lines@)) && h <= e <= s@.len(),
            Err(f) => spec_lines(s@, h as int, Seq::empty()) == Outcome::<
                Seq<LineOrCommentModel>,
            >::Err((f.at as int, f.kind)) && f.at <= s@.len(),
        },
{
    let mut lines: Vec<LineOrComment> = Vec::new();
    let mut count: usize = 0;
    let mut i: usize = h;
    proof {
        assert(lines_view(lines@) =~= Seq::empty());
    }
    while indented_at(s, i)
        invariant
            h <= i <= s@.len(),
            count <= i,
            spec_lines(s@, h as int, Seq::empty()) == spec_lines(s@, i as int, lines_view(lines@)),
            count == posting_count(lines_view(lines@)),
        decreases s@.len() - i,
    {
        let (c, item) = match content_at(s, i) {
            Ok(x) => x,
            Err(err) => return Err(err),
        };
        let e = match line_end_at(s, c) {
            Ok(e) => e,
            Err(err) => return Err(err),
        };
        let ghost before = lines_view(lines@);
        let ghost iv = item@;
        proof {
            assert(spec_lines(s@, i as int, before) == spec_lines(s@, e as int, before.push(iv)));
        }
        let is_line = match &item {
            LineOrComment::Line(_) => true,
            LineOrComment::Comment(_) => false,
        };
        lines.push(item);
        proof {
            assert(lines_view(lines@) =~= before.push(item@));
            assert(lines_view(lines@).drop_last() =~= before);
        }
        if is_line {
            count = count + 1;
        }
        i = e;
    }
    Ok((i, lines, count))
}

/// Parses the entry at `p`.
pub fn entry_at(s: &Vec<char>, p: usize) -> (r: Result<(usize, Entry), Failure>)
    requires
        p <= s@.len(),
    ensures
        agrees(r, spec_entry(s@, p as int)),
        r matches Ok((e, _)) ==> p < e <= s@.len(),
        r matches Err(f) ==> f.at <= s@.len(),
{
    let (de, date) = match date_at(s, p) {
        Ok(d) => d,
        Err(err) => return Err(err),
    };
    let w = scan(s, de, CharClass::Space);
    if w == de {
        return Err(miss_at(s, w));
    }
    let dend = scan(s, w, CharClass::Description);
    let found = comment_at(s, dend);
    let (ce, comment) = match found {
        Ok((e, c)) => (e, Some(c)),
        Err(_) => (dend, None),
    };
    let h = match line_end_at(s, ce) {
        Ok(h) => h,
        Err(err) => return Err(err),
    };
    let (e, lines, count) = match lines_at(s, h) {
        Ok(x) => x,
        Err(err) => return Err(err),
    };
    if count < 2 {
        return Err(Failure { at: p, kind: ErrorKind::Invalid });
    }
    let stop = line_stop_at(s, w, dend);
    let description = string_of(s, w, stop);
    Ok((e, Entry { date, description, comment, lines }))
}

/// A record of a journal.
#[derive(Debug)]
pub enum Block {
    /// A transaction.
    Entry(Entry),
    /// A price declaration.
    Price(Price),
    /// A comment on a line of its own.
    Comment(String),
}

/// What a [`Block`] holds.
pub enum BlockModel {
    Entry(EntryModel),
    Price(PriceModel),
    Comment(Seq<char>),
}

impl View for Block {
    type V = BlockModel;

    open spec fn view(&self) -> BlockModel {
        match self {
            Block::Entry(e) => BlockModel::Entry(e@),
            Block::Price(p) => BlockModel::Price(p@),
            Block::Comment(c) => BlockModel::Comment(c@),
        }
    }
}

/// The record that starts at `p`, chosen by its first character: `P` for a
/// price declaration, `;` for a comment, a digit for an entry. A price or a
/// comment runs to its line's end.
pub open spec fn spec_block(s: Seq<char>, p: int) -> Outcome<BlockModel> {
    if char_at(s, p, 'P') {
        match spec_price(s, p) {
            Ok((e, price)) => match spec_line_end(s, e) {
                Ok(f) => Ok((f, BlockModel::Price(price))),
                Err(f) => Err(f),
            },
            Err(f) => Err(f),
        }
    } else if char_at(s, p, ';') {
        match spec_comment(s, p) {
            Ok((e, c)) => match spec_line_end(s, e) {
                Ok(f) => Ok((f, BlockModel::Comment(c))),
                Err(f) => Err(f),
            },
            Err(f) => Err(f),
        }
    } else if 0 <= p < s.len() && is_digit(s[p]) {
        match spec_entry(s, p) {
            Ok((e, entry)) => Ok((e, BlockModel::Entry(entry))),
            Err(f) => Err(f),
        }
    } else {
        Err(miss(s, p))
    }
}

/// Parses the record that starts at `p`.
pub fn block_at(s: &Vec<char>, p: usize) -> (r: Result<(usize, Block), Failure>)
    requires
        p <= s@.len(),
    ensures
        agrees(r, spec_block(s@, p as int)),
        r matches Ok((e, _)) ==> p < e <= s@.len(),
        r matches Err(f) ==> f.at <= s@.len(),
{
    if at(s, p, 'P') {
        let (e, price) = match price_at(s, p) {
            Ok(x) => x,
            Err(err) => return Err(err),
        };
        match line_end_at(s, e) {
            Ok(f) => Ok((f, Block::Price(price))),
            Err(err) => Err(err),
        }
    } else if at(s, p, ';') {
        let (e, c) = match comment_at(s, p) {
            Ok(x) => x,
            Err(err) => return Err(err),
        };
        match line_end_at(s, e) {
            Ok(f) => Ok((f, Block::Comment(c))),
            Err(err) => Err(err),
        }
    } else if p < s.len() && class_has(CharClass::Digit, s[p]) {
        match entry_at(s, p) {
            Ok((e, entry)) => Ok((e, Block::Entry(entry))),
            Err(err) => Err(err),
        }
    } else {
        Err(miss_at(s, p))
    }
}

/// Parses the first record of `i`, after any blank lines, handing back the
/// rest of `i`.
pub fn parse_block(i: &str) -> (r: Result<(String, Block), ParseError>)
    ensures
        ({
            let q = run_end(i@, 0, CharClass::Blank);
            match r {
                Ok((rest, b)) => match spec_block(i@, q) {
                    Ok((e, m)) => m == b@ && rest@ == i@.subrange(e, i@.len() as int),
                    Err(_) => false,
                },
                Err(err) => match spec_block(i@, q) {
                    Ok(_) => false,
                    Err((k, kind)) => err.offset == byte_offset(i@, k) && err.kind == kind,
                },
            }
        }),
{
    let s = chars_of(i);
    let q = scan(&s, 0, CharClass::Blank);
    match block_at(&s, q) {
        Ok((e, b)) => Ok((string_of(&s, e, s.len()), b)),
        Err(f) => Err(error_at(&s, f)),
    }
}

pub open spec fn blocks_view(v: Seq<Block>) -> Seq<BlockModel> {
    v.map_values(|b: Block| b@)
}

/// The records of `s` from `p` on, after those in `acc`; blank lines between
/// them are skipped. A failure gives where and why the first record that
/// could not be read failed.
pub open spec fn spec_journal(s: Seq<char>, p: int, acc: Seq<BlockModel>) -> Result<
    Seq<BlockModel>,
    (int, ErrorKind),
>
    decreases s.len() - p,
{
    let q = run_end(s, p, CharClass::Blank);
    if q >= s.len() {
        Ok(acc)
    } else {
        match spec_block(s, q) {
            Ok((e, b)) => if p < e <= s.len() {
                spec_journal(s, e, acc.push(b))
            } else {
                Err(miss(s, e))
            },
            Err(f) => Err(f),
        }
    }
}

/// Parses every record of `i`, in order, or tells where and why the first
/// record that could not be read failed.
///
/// The result is a function of the characters of `i` alone: the contract
/// gives it as [`spec_journal`] of `i@`.
pub fn parse_all(i: &str) -> (r: Result<Vec<Block>, ParseError>)
    ensures
        match r {
            Ok(v) => spec_journal(i@, 0, Seq::empty()) == Ok::<Seq<BlockModel>, (int, ErrorKind)>(
                blocks_view(v@),
            ),
            Err(err) => match spec_journal(i@, 0, Seq::empty()) {
                Ok(_) => false,
                Err((k, kind)) => err.offset == byte_offset(i@, k) && err.kind == kind,
            },
        },
{
    let s = chars_of(i);
    let mut out: Vec<Block> = Vec::new();
    let mut p: usize = 0;
    proof {
        assert(blocks_view(out@) =~= Seq::empty());
    }
    loop
        invariant
            p <= s@.len(),
            s@ == i@,
            spec_journal(s@, 0, Seq::empty()) == spec_journal(s@, p as int, blocks_view(out@)),
        decreases s@.len() - p,
    {
        let q = scan(&s, p, CharClass::Blank);
        if q >= s.len() {
            return Ok(out);
        }
        match block_at(&s, q) {
            Ok((e, b)) => {
                let ghost before = blocks_view(out@);
                out.push(b);
                proof {
                    assert(blocks_view(out@) =~= before.push(b@));
                }
                p = e;
            },
            Err(f) => return Err(error_at(&s, f)),
        }
    }
}

/// Whether the comments of `m`, on its first line, on lines of their own and
/// after postings, are text of `s` as [`comment_from`] says.
pub open spec fn entry_comments_from(s: Seq<char>, m: EntryModel) -> bool {
    &&& (m.comment matches Some(c) ==> comment_from(s, c))
    &&& forall|i: int| 0 <= i < m.lines.len() ==> item_comments_from(s, #[trigger] m.lines[i])
}

proof fn lemma_lines_comments_from(s: Seq<char>, p: int, acc: Seq<LineOrCommentModel>)
    requires
        forall|i: int| 0 <= i < acc.len() ==> item_comments_from(s, #[trigger] acc[i]),
    ensures
        spec_lines(s, p, acc) matches Ok((_, ls)) ==> forall|i: int|
            0 <= i < ls.len() ==> item_comments_from(s, #[trigger] ls[i]),
    decreases s.len() - p,
{
    if indented(s, p) {
        lemma_content_comments_from(s, p);
        if let Ok((c, item)) = spec_content(s, p) {
            if let Ok(e) = spec_line_end(s, c) {
                if p < e <= s.len() {
                    let next = acc.push(item);
                    assert forall|i: int| 0 <= i < next.len() implies item_comments_from(
                        s,
                        #[trigger] next[i],
                    ) by {
                        if i < acc.len() {
                            assert(next[i] == acc[i]);
                        }
                    }
                    lemma_lines_comments_from(s, e, next);
                }
            }
        }
    }
}

/// Reading an entry keeps the text of each of its comments exactly as it
/// stands in the input, up to the end of its line.
pub proof fn lemma_entry_comments_preserved(s: Seq<char>, p: int)
    ensures
        spec_entry(s, p) matches Ok((_, m)) ==> entry_comments_from(s, m),
{
    if let Ok((de, _)) = spec_date(s, p) {
        let w = run_end(s, de, CharClass::Space);
        let dend = run_end(s, w, CharClass::Description);
        lemma_comment_from(s, dend);
        let ce = match spec_comment(s, dend) {
            Ok((e, _)) => e,
            Err(_) => dend,
        };
        if let Ok(h) = spec_line_end(s, ce) {
            lemma_lines_comments_from(s, h, Seq::empty());
        }
    }
}

/// Reading a price declaration keeps the text of its comment exactly as it
/// stands in the input, up to the end of its line.
pub proof fn lemma_price_comment_preserved(s: Seq<char>, p: int)
    ensures
        spec_price(s, p) matches Ok((_, m)) ==> (m.comment matches Some(c) ==> comment_from(s, c)),
{
    let w1 = run_end(s, p + 1, CharClass::Space);
    if let Ok((de, _)) = spec_date(s, w1) {
        let w2 = run_end(s, de, CharClass::Space);
        let ae = run_end(s, w2, CharClass::Alpha);
        let w3 = run_end(s, ae, CharClass::Space);
        if let Ok((ve, _)) = spec_value(s, w3) {
            lemma_comment_from(s, run_end(s, ve, CharClass::Space));
        }
    }
}

/// Whether some line of `s`, cut out from where its text starts to its line
/// end, reads on its own as the posting `l`, with only whitespace left over.
pub open spec fn reparses(s: Seq<char>, l: LineModel) -> bool {
    exists|k: int, t: Seq<char>|
        #[trigger] cut(s, k, t) && (spec_line(t, 0) matches Ok((e, l2)) && l2 == l && forall|j: int|
            e <= j < t.len() ==> is_space(#[trigger] t[j]))
}

proof fn lemma_content_reparses(s: Seq<char>, p: int)
    ensures
        spec_content(s, p) matches Ok((c, LineOrCommentModel::Line(l))) ==> (spec_line_end(s, c)
            is Ok ==> reparses(s, l)),
{
    let i = run_end(s, p, CharClass::Space);
    if let Ok((c, LineOrCommentModel::Line(l))) = spec_content(s, p) {
        if spec_line_end(s, c) is Ok {
            assert(0 <= p <= s.len());
            lemma_run_end_bounds(s, p, CharClass::Space);
            lemma_run_end_bounds(s, i, CharClass::LineText);
            let n = run_end(s, i, CharClass::LineText);
            let stop = line_stop(s, i, n);
            let t = s.subrange(i, stop);
            assert forall|j: int| 0 <= j < t.len() implies #[trigger] t[j] != '\n' by {
                assert(t[j] == s[i + j]);
            }
            if stop > i {
                assert(t[t.len() - 1] == s[stop - 1]);
            }
            assert(cut(s, i, t));
            lemma_line_cut(s, t, i, 0);
            let e = c - i;
            lemma_run_end_bounds(s, c, CharClass::Space);
            let w = run_end(s, c, CharClass::Space);
            if w < stop {
                assert(s[w] == t[w - i]);
                if w + 1 < stop {
                    assert(s[w + 1] == t[w + 1 - i]);
                }
            }
            assert forall|j: int| e <= j < t.len() implies is_space(#[trigger] t[j]) by {
                assert(t[j] == s[i + j]);
            }
            assert(reparses(s, l));
        }
    }
}

proof fn lemma_lines_reparse(s: Seq<char>, p: int, acc: Seq<LineOrCommentModel>)
    requires
        forall|i: int|
            0 <= i < acc.len() ==> (#[trigger] acc[i] matches LineOrCommentModel::Line(l) ==> reparses(
                s,
                l,
            )),
    ensures
        spec_lines(s, p, acc) matches Ok((_, ls)) ==> forall|i: int|
            0 <= i < ls.len() ==> (#[trigger] ls[i] matches LineOrCommentModel::Line(l) ==> reparses(
                s,
                l,
            )),
    decreases s.len() - p,
{
    if indented(s, p) {
        lemma_content_reparses(s, p);
        if let Ok((c, item)) = spec_content(s, p) {
            if let Ok(e) = spec_line_end(s, c) {
                if p < e <= s.len() {
                    let next = acc.push(item);
                    assert forall|i: int| 0 <= i < next.len() implies (#[trigger] next[i] matches LineOrCommentModel::Line(l) ==> reparses(s, l)) by {
                        if i < acc.len() {
                            assert(next[i] == acc[i]);
                        }
                    }
                    lemma_lines_reparse(s, e, next);
                }
            }
        }
    }
}

/// Every posting of an entry that is read is what its line, cut out from
/// where its text starts to its line end, reads as on its own, with only
/// whitespace left over; and there are at least two of them.
pub proof fn lemma_entry_postings_reparse(s: Seq<char>, p: int)
    ensures
        spec_entry(s, p) matches Ok((_, m)) ==> posting_count(m.lines) >= 2 && forall|i: int|
            0 <= i < m.lines.len() ==> (#[trigger] m.lines[i] matches LineOrCommentModel::Line(l)
                ==> reparses(s, l)),
{
    if let Ok((de, _)) = spec_date(s, p) {
        let w = run_end(s, de, CharClass::Space);
        let dend = run_end(s, w, CharClass::Description);
        let ce = match spec_comment(s, dend) {
            Ok((e, _)) => e,
            Err(_) => dend,
        };
        if let Ok(h) = spec_line_end(s, ce) {
            lemma_lines_reparse(s, h, Seq::empty());
        }
    }
}

/// Every entry that is read has at least two postings.
pub proof fn lemma_entry_minimality(s: Seq<char>, p: int)
    ensures
        spec_entry(s, p) matches Ok((_, m)) ==> posting_count(m.lines) >= 2,
        spec_block(s, p) matches Ok((_, BlockModel::Entry(m))) ==> posting_count(m.lines) >= 2,
{
}

/// Whether every entry among `bs` has at least two postings.
pub open spec fn entries_minimal(bs: Seq<BlockModel>) -> bool {
    forall|i: int|
        0 <= i < bs.len() ==> (#[trigger] bs[i] matches BlockModel::Entry(m) ==> posting_count(
            m.lines,
        ) >= 2)
}

/// Every entry of a journal that is read has at least two postings.
pub proof fn lemma_journal_entries_minimal(s: Seq<char>, p: int, acc: Seq<BlockModel>)
    requires
        entries_minimal(acc),
    ensures
        spec_journal(s, p, acc) matches Ok(bs) ==> entries_minimal(bs),
    decreases s.len() - p,
{
    let q = run_end(s, p, CharClass::Blank);
    if q < s.len() {
        if let Ok((e, b)) = spec_block(s, q) {
            if p < e <= s.len() {
                lemma_entry_minimality(s, q);
                let next = acc.push(b);
                assert forall|i: int| 0 <= i < next.len() implies (#[trigger] next[i] matches BlockModel::Entry(m) ==> posting_count(m.lines) >= 2) by {
                    if i < acc.len() {
                        assert(next[i] == acc[i]);
                    }
                }
                lemma_journal_entries_minimal(s, e, next);
            }
        }
    }
}

} // verus!
