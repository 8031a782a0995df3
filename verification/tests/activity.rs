use symbology::activity::month_of;
use symbology::price::{parse_price, Price};
use symbology::options::{ContractType, Error, OptionData};

fn pieces_of(pieces: [&str; 6]) -> Result<Option<Vec<Option<String>>>, String> {
    Ok(Some(pieces.iter().map(|piece| Some(piece.to_string())).collect()))
}

#[test]
fn activity_example_of_the_statement() {
    let option = OptionData::parse_ib_activity_statement_trades_symbol("KO 28MAY21 32.01 C").unwrap();
    assert_eq!(option.get_symbol(), "KO");
    assert_eq!(option.get_expiration_year(), 2021);
    assert_eq!(option.get_expiration_month(), 5);
    assert_eq!(option.get_expiration_day(), 28);
    assert_eq!(option.get_strike_price(), Price::from_thousandths(32_010));
    assert_eq!(option.get_contract_type(), ContractType::Call);
}

#[test]
fn activity_every_month() {
    let months = [
        "JAN", "FEB", "MAR", "APR", "MAY", "JUN", "JUL", "AUG", "SEP", "OCT", "NOV", "DEC",
    ];
    for (index, month) in months.iter().enumerate() {
        let text = format!("SPY 15{}24 500 p", month);
        let option = OptionData::parse_ib_activity_statement_trades_symbol(&text).unwrap();
        assert_eq!(option.get_expiration_month(), index as i32 + 1);
        assert_eq!(option.get_contract_type(), ContractType::Put);
        assert_eq!(option.get_strike_price(), Price::from_thousandths(500_000));
        assert_eq!(month_of(month), Some(index as i32 + 1));
    }
}

#[test]
fn activity_unknown_month_is_an_invalid_month() {
    for text in [
        "AAPL 01XYZ13 470.0 C",
        "AAPL 01nov13 470.0 C",
        "AAPL 01Nov13 470.0 C",
        "AAPL 0112313 470.0 C",
        "AAPL 01N_V13 470.0 C",
    ] {
        assert_eq!(
            OptionData::parse_ib_activity_statement_trades_symbol(text),
            Err(Error::InvalidMonth),
            "{:?}",
            text
        );
    }
    assert_eq!(month_of("XYZ"), None);
    assert_eq!(month_of("JA"), None);
    assert_eq!(month_of("JANU"), None);
    assert_eq!(month_of(""), None);
    assert_eq!(month_of("jan"), None);
    assert_eq!(month_of("JÄN"), None);
}

#[test]
fn activity_texts_out_of_shape_have_no_result() {
    for text in [
        "",
        "AAPL",
        "AAPL 01NOV13 470.0",
        "AAPL 01NOV13 470.0 X",
        "AAPL 01NOV13 470. C",
        "AAPL 01NOV13 . C",
        "AAPL 01NOV13 4.7.0 C",
        "AAPL 01NOV13 -470.0 C",
        "AAPL 01NOV13  470.0 C",
        "AAPL  01NOV13 470.0 C",
        "AAPL 00NOV13 470.0 C",
        "AAPL 32NOV13 470.0 C",
        "AAPL 1NOV13 470.0 C",
        "AAPL 01NOV2013 470.0 C",
        "AAPLXYZ 01NOV13 470.0 C",
        " AAPL 01NOV13 470.0 C",
        "AAPL 01NOV13 470.0 C ",
        "AAPL 01NOV13 470.0 C\n",
        "AAPL\t01NOV13 470.0 C",
        "AAPL 01NOV13 470,0 C",
        "ÄAPL 01NOV13 470.0 C",
    ] {
        assert_eq!(
            OptionData::parse_ib_activity_statement_trades_symbol(text),
            Err(Error::NoResult),
            "{:?}",
            text
        );
    }
}

#[test]
fn activity_price_beyond_64_bits_has_no_result() {
    assert_eq!(
        OptionData::parse_ib_activity_statement_trades_symbol("AAPL 01NOV13 18446744073709551616 C"),
        Err(Error::NoResult)
    );
    assert_eq!(
        OptionData::parse_ib_activity_statement_trades_symbol(
            "AAPL 01NOV13 99999999999999999999999999.5 C"
        ),
        Err(Error::NoResult)
    );
    let largest =
        OptionData::parse_ib_activity_statement_trades_symbol("AAPL 01NOV13 18446744073709551.615 C")
            .unwrap();
    assert_eq!(largest.get_strike_price(), Price::new(u64::MAX, 3));
    assert_eq!(
        OptionData::parse_ib_activity_statement_trades_symbol("AAPL 01NOV13 18446744073709551.616 C"),
        Err(Error::NoResult)
    );
    // An unknown month is reported before the size of the price.
    assert_eq!(
        OptionData::parse_ib_activity_statement_trades_symbol("AAPL 01XXX13 18446744073709551616 C"),
        Err(Error::InvalidMonth)
    );
}

#[test]
fn activity_price_is_kept_to_the_last_digit() {
    let fine = OptionData::parse_ib_activity_statement_trades_symbol("KO 28MAY21 32.0105 C").unwrap();
    assert_eq!(fine.get_strike_price(), Price::new(320_105, 4));
    assert_eq!(fine.get_strike_price().get_digits(), 320_105);
    assert_eq!(fine.get_strike_price().get_scale(), 4);
    assert_eq!(fine.get_symbol(), "KO");
    assert_eq!(fine.get_expiration_year(), 2021);
    assert_eq!(fine.get_expiration_month(), 5);
    assert_eq!(fine.get_expiration_day(), 28);
    assert_eq!(fine.get_contract_type(), ContractType::Call);
    let finer =
        OptionData::parse_ib_activity_statement_trades_symbol("AAPL 01NOV13 1.2345 C").unwrap();
    assert_eq!(finer.get_strike_price(), Price::new(12_345, 4));
    let same =
        OptionData::parse_ib_activity_statement_trades_symbol("AAPL 01NOV13 1.2340 C").unwrap();
    assert_eq!(same.get_strike_price(), Price::new(1_234, 3));
    let tiny = OptionData::parse_ib_activity_statement_trades_symbol(
        "AAPL 01NOV13 0.00000000000000000000000000001 C",
    )
    .unwrap();
    assert_eq!(tiny.get_strike_price(), Price::new(1, 29));
    // An unknown month is decided before the price.
    assert_eq!(
        OptionData::parse_ib_activity_statement_trades_symbol("AAPL 01XXX13 1.2345 C"),
        Err(Error::InvalidMonth)
    );
}

#[test]
fn prices_keep_every_digit() {
    assert_eq!(parse_price("470.0"), Ok(Some(Price::new(470, 0))));
    assert_eq!(parse_price("470"), Ok(Some(Price::new(470, 0))));
    assert_eq!(parse_price("470"), Ok(Some(Price::from_thousandths(470_000))));
    assert_eq!(parse_price("32.01"), Ok(Some(Price::new(3_201, 2))));
    assert_eq!(parse_price("32.01"), Ok(Some(Price::from_thousandths(32_010))));
    assert_eq!(parse_price(".5"), Ok(Some(Price::new(5, 1))));
    assert_eq!(parse_price("0.001"), Ok(Some(Price::new(1, 3))));
    assert_eq!(parse_price("0.0010"), Ok(Some(Price::new(1, 3))));
    assert_eq!(parse_price("1.2340000"), Ok(Some(Price::new(1_234, 3))));
    assert_eq!(parse_price("0.0019"), Ok(Some(Price::new(19, 4))));
    assert_eq!(parse_price("1.2345"), Ok(Some(Price::new(12_345, 4))));
    assert_eq!(parse_price("1.23400001"), Ok(Some(Price::new(123_400_001, 8))));
    assert_eq!(parse_price("007.50"), Ok(Some(Price::new(75, 1))));
    assert_eq!(parse_price("0"), Ok(Some(Price::new(0, 0))));
    assert_eq!(parse_price("0.00000000000000000000000000000"), Ok(Some(Price::new(0, 0))));
    assert_eq!(parse_price("0.00000000000000000000000000001"), Ok(Some(Price::new(1, 29))));
    assert_eq!(parse_price("0.50000000000000000000000000000"), Ok(Some(Price::new(5, 1))));
    assert_eq!(
        parse_price("18446744073709551.615"),
        Ok(Some(Price::new(u64::MAX, 3)))
    );
    assert_eq!(parse_price("18446744073709551615"), Ok(Some(Price::new(u64::MAX, 0))));
    assert_eq!(parse_price("18446744073709551.616"), Ok(None));
    assert_eq!(parse_price("18446744073709551616"), Ok(None));
    assert_eq!(parse_price("1.8446744073709551616"), Ok(None));
    assert_eq!(parse_price(""), Err(()));
    assert_eq!(parse_price("."), Err(()));
    assert_eq!(parse_price("1."), Err(()));
    assert_eq!(parse_price("1.2.3"), Err(()));
    assert_eq!(parse_price("1,2"), Err(()));
    assert_eq!(parse_price("1e3"), Err(()));
    assert_eq!(parse_price("+1"), Err(()));
    assert_eq!(parse_price("１"), Err(()));
    assert_eq!(parse_price("1.５"), Err(()));
}

#[test]
fn prices_in_normal_form() {
    assert_eq!(Price::new(4_700, 1), Price::new(470, 0));
    assert_eq!(Price::new(470_000, 3), Price::new(470, 0));
    assert_eq!(Price::new(0, 5), Price::new(0, 0));
    assert_eq!(Price::new(0, u64::MAX), Price::new(0, 0));
    assert_eq!(Price::new(10, 0).get_digits(), 10);
    assert_eq!(Price::new(10, 0).get_scale(), 0);
    assert_eq!(Price::new(1_230, 5).get_digits(), 123);
    assert_eq!(Price::new(1_230, 5).get_scale(), 4);
    assert_ne!(Price::new(1, 1), Price::new(1, 0));
    assert_eq!(Price::from_thousandths(32_010).thousandths(), 32_010);
    assert_eq!(Price::new(320_105, 4).thousandths(), 32_010);
    assert_eq!(Price::new(9_999, 4).thousandths(), 999);
    assert_eq!(Price::new(7, 0).thousandths(), 7_000);
    assert_eq!(Price::new(7, 2).thousandths(), 70);
    assert_eq!(Price::new(u64::MAX, 0).thousandths(), 18_446_744_073_709_551_615_000);
    assert_eq!(Price::new(u64::MAX, 22).thousandths(), 1);
    assert_eq!(Price::new(u64::MAX, 23).thousandths(), 0);
    assert_eq!(Price::new(1, u64::MAX).thousandths(), 0);
}

#[test]
fn activity_captures_decide_the_result() {
    let text = "AAPL 01NOV13 470.0 C";
    let expected = OptionData::new("AAPL", 2013, 11, 1, Price::from_thousandths(470_000), ContractType::Call).unwrap();
    assert_eq!(
        OptionData::from_activity_captures(
            text,
            pieces_of(["AAPL", "01", "NOV", "13", "470.0", "C"])
        ),
        Ok(expected)
    );
    assert_eq!(
        OptionData::from_activity_captures(text, Ok(None)),
        Err(Error::NoResult)
    );
    assert_eq!(
        OptionData::from_activity_captures(text, Err("Max limit for backtracking".to_string())),
        Err(Error::RegexError("Max limit for backtracking".to_string()))
    );
    // Pieces in the order of another format do not spell the text.
    assert_eq!(
        OptionData::from_activity_captures(
            text,
            pieces_of(["AAPL", "13", "NOV", "01", "470.0", "C"])
        ),
        Err(Error::NoResult)
    );
    assert_eq!(
        OptionData::from_activity_captures(
            text,
            pieces_of(["AAPL", "01", "NOV", "13", "470", "C"])
        ),
        Err(Error::NoResult)
    );
    // Out of shape comes before an unknown month.
    assert_eq!(
        OptionData::from_activity_captures(
            "AAPL 01XXX13 470.0 C",
            pieces_of(["AAPL", "01", "XXX", "13", "470.0", "X"])
        ),
        Err(Error::NoResult)
    );
    assert_eq!(
        OptionData::from_activity_captures(
            "AAPL 01XXX13 470.0 C",
            pieces_of(["AAPL", "01", "XXX", "13", "470.0", "C"])
        ),
        Err(Error::InvalidMonth)
    );
    let absent = vec![
        Some("AAPL".to_string()),
        Some("01".to_string()),
        Some("NOV".to_string()),
        Some("13".to_string()),
        None,
        Some("C".to_string()),
    ];
    assert_eq!(
        OptionData::from_activity_captures(text, Ok(Some(absent))),
        Err(Error::NoResult)
    );
}
