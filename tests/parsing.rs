use hledger_parse::{
    parse_all, parse_amount, parse_block, parse_comment, parse_date, parse_number, Block, Date,
    Entry, ErrorKind, Exchange, Line, LineOrComment, Number, ParseError, Price, Value,
    ValueAndExchange,
};

fn entry_of(b: Block) -> Entry {
    match b {
        Block::Entry(e) => e,
        other => panic!("not an entry: {:?}", other),
    }
}

fn postings(e: &Entry) -> Vec<&Line> {
    e.lines
        .iter()
        .filter_map(|l| match l {
            LineOrComment::Line(l) => Some(l),
            LineOrComment::Comment(_) => None,
        })
        .collect()
}

#[test]
fn date_scenario() {
    let (rem, d) = parse_date("2022-07-16").unwrap();
    assert_eq!(rem, "");
    assert_eq!(d, Date { year: 2022, month: 7, day: 16 });
}

#[test]
fn date_leap_days() {
    assert!(parse_date("2020-02-29").is_ok());
    assert!(parse_date("2000-02-29").is_ok());
    assert!(parse_date("2022-02-29").is_err());
    assert!(parse_date("1900-02-29").is_err());
    assert!(parse_date("2022-02-30").is_err());
    assert!(parse_date("2022-04-31").is_err());
    assert!(parse_date("2022-12-31").is_ok());
}

#[test]
fn date_bad_fields() {
    assert!(parse_date("2022-13-01").is_err());
    assert!(parse_date("2022-00-01").is_err());
    assert!(parse_date("2022-01-00").is_err());
    assert!(parse_date("10000-01-01").is_err());
    assert!(parse_date("2022-01").is_err());
    assert!(parse_date("2022/01/01").is_err());
    assert_eq!(parse_date("x"), Err(ParseError { offset: 0, kind: ErrorKind::Unexpected }));
    assert_eq!(
        parse_date("2022-13-01"),
        Err(ParseError { offset: 0, kind: ErrorKind::Invalid })
    );
    assert_eq!(
        parse_date("2022-01"),
        Err(ParseError { offset: 7, kind: ErrorKind::Incomplete })
    );
    assert_eq!(
        parse_date("2022-01-"),
        Err(ParseError { offset: 8, kind: ErrorKind::Incomplete })
    );
}

#[test]
fn date_leading_zeroes_and_rest() {
    let (rem, d) = parse_date("2022-007-0016 Shop").unwrap();
    assert_eq!(rem, " Shop");
    assert_eq!(d, Date { year: 2022, month: 7, day: 16 });
}

#[test]
fn date_constructor() {
    assert_eq!(Date::from_calendar_date(2024, 2, 29), Some(Date { year: 2024, month: 2, day: 29 }));
    assert_eq!(Date::from_calendar_date(2023, 2, 29), None);
    assert_eq!(Date::from_calendar_date(2023, 13, 1), None);
}

#[test]
fn amount_scenario() {
    let (rem, v) = parse_amount("699.21 U").unwrap();
    assert_eq!(rem, "");
    assert_eq!(v.value, Number::Float(699, 0, Some(21)));
    assert_eq!(v.currency, Some("U".to_string()));
}

#[test]
fn amount_without_commodity() {
    let (rem, v) = Value::parse("42 ; x").unwrap();
    assert_eq!(rem, " ; x");
    assert_eq!(v.value, Number::Int(42));
    assert_eq!(v.currency, None);
    assert!(parse_amount("CAD").is_err());
}

#[test]
fn number_forms() {
    assert_eq!(parse_number("600").unwrap().1, Number::Int(600));
    let (rem, n) = parse_number("-1.5").unwrap();
    assert_eq!(rem, "");
    assert!(matches!(n, Number::Float(-1, 0, Some(5))));
    assert!(matches!(parse_number("0.").unwrap().1, Number::Float(0, 0, None)));
    assert!(matches!(parse_number("0.00007").unwrap().1, Number::Float(0, 4, Some(7))));
    assert!(matches!(parse_number("1.0500").unwrap().1, Number::Float(1, 1, Some(500))));
    assert!(parse_number(".5").is_err());
    assert!(parse_number("-").is_err());
}

#[test]
fn number_limits() {
    assert!(matches!(parse_number("9223372036854775807").unwrap().1, Number::Int(i64::MAX)));
    assert!(matches!(parse_number("-9223372036854775808").unwrap().1, Number::Int(i64::MIN)));
    assert!(parse_number("9223372036854775808").is_err());
    assert!(matches!(
        parse_number("1.018446744073709551615").unwrap().1,
        Number::Float(1, 1, Some(u64::MAX))
    ));
    assert_eq!(
        parse_number("1.018446744073709551616").unwrap_err(),
        ParseError { offset: 0, kind: ErrorKind::Invalid }
    );
}

#[test]
fn number_equality() {
    assert_eq!(Number::Int(5), Number::Float(5, 0, None));
    assert_eq!(Number::Float(5, 7, None), Number::Int(5));
    assert_eq!(Number::Float(5, 7, None), Number::Float(5, 2, None));
    assert_ne!(Number::Int(5), Number::Float(5, 0, Some(1)));
    assert_ne!(Number::Float(5, 0, Some(1)), Number::Int(5));
    assert_ne!(Number::Float(5, 1, Some(1)), Number::Float(5, 2, Some(1)));
    assert_ne!(Number::Float(5, 1, Some(1)), Number::Float(5, 1, None));
    assert_eq!(Number::Float(5, 1, Some(1)), Number::Float(5, 1, Some(1)));
    assert_ne!(Number::Int(5), Number::Int(6));
}

#[test]
fn number_text_round_trip() {
    for s in ["0", "-7", "600", "600.", "600.000", "600.000123", "-1.5", "12.0340"] {
        let (rem, n) = parse_number(s).unwrap();
        assert_eq!(rem, "");
        let printed = match n {
            Number::Int(v) => v.to_string(),
            Number::Float(v, k, d) => format!(
                "{}.{}{}",
                v,
                "0".repeat(k),
                d.map(|d| d.to_string()).unwrap_or_default()
            ),
        };
        assert_eq!(printed, s);
    }
}

#[test]
fn exchange_forms() {
    let (rem, x) = Exchange::parse("@@ 1927.20 C").unwrap();
    assert_eq!(rem, "");
    match x {
        Exchange::Total(v) => {
            assert_eq!(v.value, Number::Float(1927, 0, Some(20)));
            assert_eq!(v.currency, Some("C".to_string()));
        }
        Exchange::PerUnit(_) => panic!("expected a total"),
    }
    let (_, x) = Exchange::parse("@ 1.21 USD").unwrap();
    assert!(matches!(x, Exchange::PerUnit(_)));
    assert!(Exchange::parse("@@1").is_err());
    assert!(Exchange::parse("@ @ 1").is_err());
}

#[test]
fn posting_scenario() {
    let (rem, line) = Line::parse("assets:cash:stash    200000 Y @@ 1927.20 C").unwrap();
    assert_eq!(rem, "");
    assert_eq!(line.account, "assets:cash:stash");
    assert_eq!(line.comment, None);
    let vae = line.value.unwrap();
    assert_eq!(vae.symbol, None);
    assert_eq!(vae.value.value, Number::Int(200000));
    assert_eq!(vae.value.currency, Some("Y".to_string()));
    match vae.exchange {
        Some(Exchange::Total(v)) => {
            assert_eq!(v.value, Number::Float(1927, 0, Some(20)));
            assert_eq!(v.currency, Some("C".to_string()));
        }
        _ => panic!("expected a total exchange"),
    }
}

#[test]
fn posting_single_space_is_no_amount() {
    let (rem, line) = Line::parse("expenses:food 42").unwrap();
    assert_eq!(line.account, "expenses:food");
    assert!(line.value.is_none());
    assert_eq!(rem, " 42");
    let (rem, line) = Line::parse("expenses:food  42").unwrap();
    assert_eq!(rem, "");
    assert_eq!(line.value.unwrap().value.value, Number::Int(42));
}

#[test]
fn posting_with_comment_only() {
    let (rem, line) = Line::parse("expenses:food  ; lunch").unwrap();
    assert_eq!(rem, "");
    assert!(line.value.is_none());
    assert_eq!(line.comment, Some(" lunch".to_string()));
}

#[test]
fn posting_with_assertion() {
    let (_, vae) = ValueAndExchange::parse("= 3000.00 CAD").unwrap();
    assert_eq!(vae.symbol, Some('='));
    assert_eq!(vae.value.value, Number::Float(3000, 2, None));
    assert!(Line::parse("").is_err());
}

#[test]
fn comment_text() {
    let (rem, c) = parse_comment(";  keep  this \nnext").unwrap();
    assert_eq!(c, "  keep  this ");
    assert_eq!(rem, "\nnext");
    assert!(parse_comment("no").is_err());
}

#[test]
fn price_scenario() {
    let (rem, p) = Price::parse("P 2022-07-12 TSLA 699.21 U ; great buy?").unwrap();
    assert_eq!(rem, "");
    assert_eq!(p.date, Date { year: 2022, month: 7, day: 12 });
    assert_eq!(p.asset, "TSLA");
    assert_eq!(p.value.value, Number::Float(699, 0, Some(21)));
    assert_eq!(p.value.currency, Some("U".to_string()));
    assert_eq!(p.comment, Some(" great buy?".to_string()));
}

#[test]
fn price_new() {
    let v = Value { value: Number::Int(3), currency: None };
    let p = Price::new(Date { year: 2020, month: 1, day: 2 }, "AAPL", v, None);
    assert_eq!(p.asset, "AAPL");
    assert_eq!(p.value.value, Number::Int(3));
}

#[test]
fn entry_scenario() {
    let text = "2022-08-01 Salary\n    assets:bank           = 3000.00 CAD\n    income:salary          -3000.00 CAD\n";
    let (rem, b) = parse_block(text).unwrap();
    assert_eq!(rem, "");
    let e = entry_of(b);
    assert_eq!(e.date, Date { year: 2022, month: 8, day: 1 });
    assert_eq!(e.description, "Salary");
    assert_eq!(e.comment, None);
    let ps = postings(&e);
    assert_eq!(ps.len(), 2);
    assert_eq!(ps[0].account, "assets:bank");
    assert_eq!(ps[0].value.as_ref().unwrap().symbol, Some('='));
    assert_eq!(ps[1].account, "income:salary");
    assert_eq!(ps[1].value.as_ref().unwrap().symbol, None);
    assert_eq!(ps[1].value.as_ref().unwrap().value.value, Number::Float(-3000, 2, None));
}

#[test]
fn entry_needs_two_postings() {
    let text = "2022-08-01 Salary\n    assets:bank  10 CAD\n    ; only a comment\n";
    assert_eq!(parse_block(text).unwrap_err(), ParseError { offset: 0, kind: ErrorKind::Invalid });
}

#[test]
fn entry_comments_kept_in_order() {
    let text = "2022-07-16 Grocery store ; weekly shop\r\n    ; before\n    expenses:food            42.50 CAD ; food\n    assets:cash             -42.50 CAD\n";
    let e = entry_of(parse_block(text).unwrap().1);
    assert_eq!(e.description, "Grocery store ");
    assert_eq!(e.comment, Some(" weekly shop".to_string()));
    assert_eq!(e.lines.len(), 3);
    assert!(matches!(&e.lines[0], LineOrComment::Comment(c) if c == " before"));
    assert!(matches!(&e.lines[1], LineOrComment::Line(l) if l.comment.as_deref() == Some(" food")));
}

#[test]
fn journal_example() {
    let text = "; a standalone comment\n\n2022-07-16 Grocery store ; weekly shop\n    expenses:food            42.50 CAD\n    assets:cash             -42.50 CAD\n\nP 2022-07-12 TSLA 699.21 U ; great buy?\n\n2022-08-01 Salary\n    assets:bank           = 3000.00 CAD\n    income:salary          -3000.00 CAD\n";
    let blocks = parse_all(text).unwrap();
    assert_eq!(blocks.len(), 4);
    assert!(matches!(&blocks[0], Block::Comment(c) if c == " a standalone comment"));
    assert!(matches!(&blocks[1], Block::Entry(e) if e.description == "Grocery store "));
    assert!(matches!(&blocks[2], Block::Price(p) if p.asset == "TSLA"));
    assert!(matches!(&blocks[3], Block::Entry(e) if e.description == "Salary"));
    let again = parse_all(text).unwrap();
    assert_eq!(format!("{:?}", blocks), format!("{:?}", again));
}

#[test]
fn journal_errors() {
    assert_eq!(parse_all("").unwrap().len(), 0);
    assert_eq!(parse_all("\n  \n").unwrap().len(), 0);
    assert_eq!(
        parse_all("; ok\n\nhello\n").unwrap_err(),
        ParseError { offset: 6, kind: ErrorKind::Unexpected }
    );
    assert_eq!(
        parse_all("P 2022-02-30 X 1\n").unwrap_err(),
        ParseError { offset: 2, kind: ErrorKind::Invalid }
    );
    assert_eq!(
        parse_block("").unwrap_err(),
        ParseError { offset: 0, kind: ErrorKind::Incomplete }
    );
    assert_eq!(
        parse_block("\n\n# x").unwrap_err(),
        ParseError { offset: 2, kind: ErrorKind::Unexpected }
    );
    assert_eq!(
        parse_block("P 2022-07-12 TSLA").unwrap_err(),
        ParseError { offset: 17, kind: ErrorKind::Incomplete }
    );
    assert_eq!(
        parse_block("2022-01-01 X\n  a  1 CAD x\n  b\n").unwrap_err(),
        ParseError { offset: 24, kind: ErrorKind::Unexpected }
    );
    assert_eq!(
        parse_number("99999999999999999999").unwrap_err(),
        ParseError { offset: 0, kind: ErrorKind::Invalid }
    );
}

#[test]
fn error_offsets_count_bytes() {
    assert_eq!(
        parse_all("; café\nhello\n").unwrap_err(),
        ParseError { offset: 8, kind: ErrorKind::Unexpected }
    );
    assert_eq!(
        parse_block("2022-01-01 Café ☕\n  a  1\n").unwrap_err(),
        ParseError { offset: 0, kind: ErrorKind::Invalid }
    );
    assert_eq!(
        parse_block("2022-01-01 ☕\n  a  1 X 9\n").unwrap_err(),
        ParseError { offset: 24, kind: ErrorKind::Unexpected }
    );
}

#[test]
fn comment_keeps_lone_carriage_return() {
    let (rem, c) = parse_comment(";a\rb").unwrap();
    assert_eq!(c, "a\rb");
    assert_eq!(rem, "");
    let (rem, c) = parse_comment(";a\rb\r\nnext").unwrap();
    assert_eq!(c, "a\rb");
    assert_eq!(rem, "\r\nnext");
    let (rem, c) = parse_comment(";a\r").unwrap();
    assert_eq!(c, "a\r");
    assert_eq!(rem, "");
    let (rem, line) = Line::parse("a ;x\ry").unwrap();
    assert_eq!(rem, "");
    assert_eq!(line.comment, Some("x\ry".to_string()));
    let (rem, p) = Price::parse("P 2022-07-12 T 1 ;a\rb").unwrap();
    assert_eq!(rem, "");
    assert_eq!(p.comment, Some("a\rb".to_string()));
}

#[test]
fn description_keeps_lone_carriage_return() {
    let text = "2022-08-01 Pay\rday\r\n    a  1\r\n    b  -1 ; done\r\n";
    let e = entry_of(parse_block(text).unwrap().1);
    assert_eq!(e.description, "Pay\rday");
    assert!(matches!(&e.lines[1], LineOrComment::Line(l) if l.comment.as_deref() == Some(" done")));
    let blocks = parse_all("; one\r\n;two\r\n").unwrap();
    assert!(matches!(&blocks[0], Block::Comment(c) if c == " one"));
    assert!(matches!(&blocks[1], Block::Comment(c) if c == "two"));
}

#[test]
fn exchange_of_any_amount() {
    for a in ["1927.20 C", "-3", "0.000 YEN", "42"] {
        let (_, v) = Value::parse(a).unwrap();
        let (rem, x) = Exchange::parse(&format!("@@ {}", a)).unwrap();
        assert_eq!(rem, "");
        match x {
            Exchange::Total(t) => {
                assert_eq!(t.value, v.value);
                assert_eq!(t.currency, v.currency);
            }
            Exchange::PerUnit(_) => panic!("@@ read as a price per unit"),
        }
        let (rem, x) = Exchange::parse(&format!("@ {}", a)).unwrap();
        assert_eq!(rem, "");
        match x {
            Exchange::PerUnit(u) => {
                assert_eq!(u.value, v.value);
                assert_eq!(u.currency, v.currency);
            }
            Exchange::Total(_) => panic!("@ read as a total"),
        }
    }
}

#[test]
fn account_keeps_lone_carriage_return() {
    let (rem, line) = Line::parse("x\ry ;c").unwrap();
    assert_eq!(rem, "");
    assert_eq!(line.account, "x\ry");
    assert_eq!(line.comment, Some("c".to_string()));
    let (rem, line) = Line::parse("assets:cash\r\nnext").unwrap();
    assert_eq!(line.account, "assets:cash");
    assert_eq!(rem, "\r\nnext");
    let (rem, line) = Line::parse("a\tb").unwrap();
    assert_eq!(line.account, "a");
    assert_eq!(rem, "\tb");
    assert!(Line::parse("\r\n").is_err());
}

#[test]
fn description_kept_as_written() {
    let text = "2022-08-01 Pay  day  \n    a  1\n    b  -1\n";
    let e = entry_of(parse_block(text).unwrap().1);
    assert_eq!(e.description, "Pay  day  ");
}

#[test]
fn entry_postings_reparse_alone() {
    let text = "2022-07-16 Grocery store ; weekly shop\r\n    ; before\n    expenses:food            42.50 CAD ; food\r\n\tassets:cash    -42.50 CAD @ 1.1 USD  \n";
    let e = entry_of(parse_block(text).unwrap().1);
    let lines: Vec<&str> = text
        .split('\n')
        .skip(1)
        .map(|l| l.trim_start().trim_end_matches('\r'))
        .filter(|l| !l.is_empty() && !l.starts_with(';'))
        .collect();
    let ps = postings(&e);
    assert!(ps.len() >= 2);
    assert_eq!(ps.len(), lines.len());
    for (p, l) in ps.iter().zip(lines) {
        let (rem, alone) = Line::parse(l).unwrap();
        assert!(rem.chars().all(|c| c == ' ' || c == '\t'));
        assert_eq!(format!("{:?}", alone), format!("{:?}", p));
    }
}
