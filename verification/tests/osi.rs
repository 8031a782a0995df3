use chrono::{Datelike, NaiveDate};
use symbology::options::{ContractType, Error, OptionData};
use symbology::price::{parse_price, Price};

fn dated(symbol: &str, date: NaiveDate, strike_price: f64, contract_type: ContractType) -> OptionData {
    OptionData::new(
        symbol,
        date.year(),
        date.month() as i32,
        date.day() as i32,
        parse_price(&strike_price.to_string()).unwrap().unwrap(),
        contract_type,
    )
    .unwrap()
}

fn split(pieces: [&str; 6]) -> Result<Option<Vec<Option<String>>>, String> {
    Ok(Some(pieces.iter().map(|piece| Some(piece.to_string())).collect()))
}

#[test]
fn lib_osi_well_formated() {
    let apple_01nov13_call_470 = dated(
        "AAPL",
        NaiveDate::from_ymd_opt(2013, 11, 01).unwrap(),
        470 as f64,
        ContractType::Call,
    );

    assert_eq!(
        OptionData::parse_osi("AAPL  131101C00470000").unwrap(),
        apple_01nov13_call_470
    );
}

#[test]
fn lib_osi_symbol_padding_wrong() {
    let apple_01nov13_call_470 = dated(
        "AAPL",
        NaiveDate::from_ymd_opt(2013, 11, 01).unwrap(),
        470 as f64,
        ContractType::Call,
    );

    assert_eq!(
        OptionData::parse_osi("AAPL 131101C00470000").unwrap(),
        apple_01nov13_call_470
    );
    assert_eq!(
        OptionData::parse_osi("AAPL131101C00470000").unwrap(),
        apple_01nov13_call_470
    );
}

#[test]
fn lib_osi_contract_type_small() {
    let apple_01nov13_call_470 = dated(
        "AAPL",
        NaiveDate::from_ymd_opt(2013, 11, 01).unwrap(),
        470 as f64,
        ContractType::Call,
    );

    assert_eq!(
        OptionData::parse_osi("AAPL  131101c00470000").unwrap(),
        apple_01nov13_call_470
    );
}

#[test]
fn lib_osi_formatting() {
    let apple_01nov13_call_470 = dated(
        "AAPL",
        NaiveDate::from_ymd_opt(2013, 11, 01).unwrap(),
        470 as f64,
        ContractType::Call,
    );

    assert_eq!(
        "AAPL  131101C00470000",
        apple_01nov13_call_470.to_osi_string()
    );
}

#[test]
fn lib_schwab_formatting() {
    let apple_01nov13_call_470 = dated(
        "AAPL",
        NaiveDate::from_ymd_opt(2013, 11, 01).unwrap(),
        470 as f64,
        ContractType::Call,
    );

    assert_eq!(
        "AAPL 11/01/2013 470.00 C",
        apple_01nov13_call_470.to_schwab_string()
    );
}

#[test]
fn osi_fields_are_read_exactly() {
    let put = OptionData::parse_osi("X     000101p00000001").unwrap();
    assert_eq!(put.get_symbol(), "X");
    assert_eq!(put.get_expiration_year(), 2000);
    assert_eq!(put.get_expiration_month(), 1);
    assert_eq!(put.get_expiration_day(), 1);
    assert_eq!(put.get_strike_price(), Price::from_thousandths(1));
    assert_eq!(put.get_contract_type(), ContractType::Put);

    let call = OptionData::parse_osi("BRK_B9991231C99999999").unwrap();
    assert_eq!(call.get_symbol(), "BRK_B9");
    assert_eq!(call.get_expiration_year(), 2099);
    assert_eq!(call.get_expiration_month(), 12);
    assert_eq!(call.get_expiration_day(), 31);
    assert_eq!(call.get_strike_price(), Price::from_thousandths(99_999_999));
    assert_eq!(call.get_contract_type(), ContractType::Call);
}

#[test]
fn osi_accepts_days_that_the_calendar_lacks() {
    let february_31 = OptionData::parse_osi("AAPL  130231C00470000").unwrap();
    assert_eq!(february_31.get_expiration_month(), 2);
    assert_eq!(february_31.get_expiration_day(), 31);
    assert_eq!(
        february_31.set_ymd(2013, 2, 31),
        Err(Error::DayOutOfRange)
    );
}

#[test]
fn osi_texts_out_of_shape_have_no_result() {
    for text in [
        "",
        "AAPL",
        "131101C00470000",
        "AAPL  131101C0047000",
        "AAPL  131101C004700000",
        "AAPLXYZ131101C00470000",
        "AAPL   131101C00470000",
        "A      131101C00470000",
        "AAPL  130001C00470000",
        "AAPL  131301C00470000",
        "AAPL  131100C00470000",
        "AAPL  131132C00470000",
        "AAPL  131101X00470000",
        "AAPL  131101C0047000A",
        "AAPL  131101C00470000 ",
        " AAPL 131101C00470000",
        "AAPL\t 131101C00470000",
        "AAPL  131101C00470000\n",
        "AA-L  131101C00470000",
        "ÄAPL  131101C00470000",
        "AAPL  ١٣1101C00470000",
    ] {
        assert_eq!(OptionData::parse_osi(text), Err(Error::NoResult), "{:?}", text);
    }
}

#[test]
fn osi_round_trip_on_values() {
    let sides = [ContractType::Call, ContractType::Put];
    let symbols = ["A", "KO", "SPY", "AAPL", "GOOGL", "BRK_B1"];
    let strikes = [0u64, 1, 999, 1_000, 32_010, 470_000, 99_999_999];
    let dates = [(2000, 1, 1), (2013, 11, 1), (2024, 2, 29), (2099, 12, 31), (2021, 2, 31)];
    for side in sides {
        for symbol in symbols {
            for strike in strikes {
                for (year, month, day) in dates {
                    let option = OptionData::new(symbol, year, month, day, Price::from_thousandths(strike), side).unwrap();
                    let padded = option.to_osi_string();
                    assert_eq!(padded.len(), 21);
                    assert_eq!(OptionData::parse_osi(&padded), Ok(option));
                    let option = OptionData::new(symbol, year, month, day, Price::from_thousandths(strike), side).unwrap();
                    let bare = option.to_osi_string_no_symbol_padding();
                    assert_eq!(bare.len(), symbol.len() + 15);
                    assert_eq!(OptionData::parse_osi(&bare), Ok(option));
                }
            }
        }
    }
}

#[test]
fn osi_year_is_written_modulo_100() {
    let option = OptionData::new("AAPL", 2105, 11, 1, Price::from_thousandths(470_000), ContractType::Call).unwrap();
    assert_eq!(option.to_osi_string(), "AAPL  051101C00470000");
    assert_eq!(option.to_osi_string_no_symbol_padding(), "AAPL051101C00470000");
    // Two digits of a year are read as a year of this century.
    let read = OptionData::parse_osi(&option.to_osi_string()).unwrap();
    assert_eq!(read.get_expiration_year(), 2005);
    for (year, digits) in [
        (1999, "99"),
        (2000, "00"),
        (2100, "00"),
        (0, "00"),
        (7, "07"),
        (12_345, "45"),
        (-1, "99"),
        (-100, "00"),
        (-2013, "87"),
        (i32::MAX, "47"),
        (i32::MIN, "52"),
    ] {
        let option = OptionData::new("KO", year, 5, 28, Price::from_thousandths(32_010), ContractType::Put).unwrap();
        assert_eq!(
            option.to_osi_string(),
            format!("KO    {}0528P00032010", digits),
            "{}",
            year
        );
    }
}

#[test]
fn osi_writes_whole_thousandths_of_a_finer_price() {
    let fine = Price::new(320_105, 4);
    let option = OptionData::new("KO", 2021, 5, 28, fine, ContractType::Call).unwrap();
    assert_eq!(option.to_osi_string(), "KO    210528C00032010");
    let read = OptionData::parse_osi(&option.to_osi_string()).unwrap();
    assert_eq!(read.get_strike_price(), Price::from_thousandths(32_010));
    assert_eq!(read.get_strike_price(), Price::new(3_201, 2));
    let tiny = Price::new(9, 4);
    let option = OptionData::new("KO", 2021, 5, 28, tiny, ContractType::Call).unwrap();
    assert_eq!(option.to_osi_string(), "KO    210528C00000000");
    let huge = Price::new(u64::MAX, 0);
    let option = OptionData::new("KO", 2021, 5, 28, huge, ContractType::Call).unwrap();
    assert_eq!(option.to_osi_string(), "KO    210528C18446744073709551615000");
}

#[test]
fn osi_serialization_without_padding() {
    let option = OptionData::new("KO", 2021, 5, 28, Price::from_thousandths(32_010), ContractType::Put).unwrap();
    assert_eq!(option.to_osi_string(), "KO    210528P00032010");
    assert_eq!(option.to_osi_string_no_symbol_padding(), "KO210528P00032010");
}

#[test]
fn osi_price_beyond_eight_digits_keeps_its_digits() {
    let option = OptionData::new("KO", 2021, 5, 28, Price::from_thousandths(123_456_789), ContractType::Put).unwrap();
    assert_eq!(option.to_osi_string(), "KO    210528P123456789");
    assert_eq!(OptionData::parse_osi(&option.to_osi_string()), Err(Error::NoResult));
    let option = OptionData::new("KO", 2021, 5, 28, Price::from_thousandths(u64::MAX), ContractType::Call).unwrap();
    assert_eq!(
        option.to_osi_string_no_symbol_padding(),
        "KO210528C18446744073709551615"
    );
}

#[test]
fn osi_captures_decide_the_result() {
    let text = "AAPL  131101C00470000";
    let expected = OptionData::new("AAPL", 2013, 11, 1, Price::from_thousandths(470_000), ContractType::Call).unwrap();
    assert_eq!(
        OptionData::from_osi_captures(text, split(["AAPL", "13", "11", "01", "C", "00470000"])),
        Ok(expected)
    );
    assert_eq!(
        OptionData::from_osi_captures(text, Ok(None)),
        Err(Error::NoResult)
    );
    assert_eq!(
        OptionData::from_osi_captures(text, Err("Parsing error at position 3".to_string())),
        Err(Error::RegexError("Parsing error at position 3".to_string()))
    );
}

#[test]
fn osi_captures_that_do_not_spell_the_text_are_refused() {
    let text = "AAPL  131101C00470000";
    for pieces in [
        ["AAPL", "13", "11", "01", "P", "00470000"],
        ["AAPL", "13", "11", "01", "c", "00470000"],
        ["AAPL", "13", "11", "02", "C", "00470000"],
        ["AAPL", "13", "12", "01", "C", "00470000"],
        ["AAPL", "14", "11", "01", "C", "00470000"],
        ["AAPL", "13", "11", "01", "C", "00470001"],
        ["AAP", "13", "11", "01", "C", "00470000"],
        ["AAPL ", "13", "11", "01", "C", "00470000"],
        ["AAPL", "13", "11", "01", "C", "0470000"],
        ["AAPL", "13", "11", "1", "C", "00470000"],
        ["AAPL", "", "11", "01", "C", "00470000"],
        ["", "13", "11", "01", "C", "00470000"],
    ] {
        assert_eq!(
            OptionData::from_osi_captures(text, split(pieces)),
            Err(Error::NoResult),
            "{:?}",
            pieces
        );
    }
}

#[test]
fn osi_captures_of_the_wrong_number_are_refused() {
    let text = "AAPL  131101C00470000";
    let some = |piece: &str| Some(piece.to_string());
    let five = vec![some("AAPL"), some("13"), some("11"), some("01"), some("C")];
    assert_eq!(OptionData::from_osi_captures(text, Ok(Some(five))), Err(Error::NoResult));
    let seven = vec![
        some("AAPL"),
        some("13"),
        some("11"),
        some("01"),
        some("C"),
        some("00470000"),
        some(""),
    ];
    assert_eq!(OptionData::from_osi_captures(text, Ok(Some(seven))), Err(Error::NoResult));
    let absent = vec![some("AAPL"), some("13"), None, some("01"), some("C"), some("00470000")];
    assert_eq!(OptionData::from_osi_captures(text, Ok(Some(absent))), Err(Error::NoResult));
    assert_eq!(OptionData::from_osi_captures(text, Ok(Some(Vec::new()))), Err(Error::NoResult));
}
