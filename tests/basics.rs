use hledger_parse::{parse_date, Line, Number, Price};

#[test]
fn numbers() {
    let nums = [
        (Number::Int(600), "600"),
        (Number::Float(600, 3, None), "600.000"),
        (Number::Float(600, 3, Some(123)), "600.000123"),
    ];

    nums.into_iter().for_each(|(exp, s)| {
        let (rem, parsed) = Number::parse(s).unwrap();
        assert_eq!("", rem);
        assert_eq!(exp, parsed);
    });

    assert_eq!(Number::Int(600), Number::Float(600, 1000, None));
}

#[test]
fn lines() {
    let line = "assets:cash:stash    200000 Y @@ 1927.20 C";
    let (rem, _parsed) = Line::parse(line).unwrap();
    assert_eq!("", rem);
}

#[test]
fn dates() {
    let date = "2022-07-16";
    assert!(parse_date(date).is_ok());
}

#[test]
fn prices() {
    let price = "P 2022-07-12 TSLA 699.21 U ; great buy?";
    let (rem, parsed) = Price::parse(price).unwrap();
    assert_eq!("", rem);
    assert_eq!(parsed.asset, "TSLA");
    assert_eq!(parsed.value.value, Number::Float(699, 0, Some(21)));
}
