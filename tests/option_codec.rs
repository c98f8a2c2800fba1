use csv_to_qif::date::LedgerDate;
use csv_to_qif::error::QifError;
use csv_to_qif::option_symbol::{encode_option, option_details, OptionMismatch};
use csv_to_qif::schwab_reader::SchwabTransaction;
use csv_to_qif::security::SecurityType;

fn row(symbol: &str, description: &str) -> SchwabTransaction {
    SchwabTransaction {
        date: "01/19/2024".to_string(),
        action: "Buy".to_string(),
        symbol: symbol.to_string(),
        description: description.to_string(),
        quantity: "1".to_string(),
        price: "$1.00".to_string(),
        fees: "".to_string(),
        amount: "-$100.00".to_string(),
    }
}

fn mismatch(symbol: &str, description: &str) -> OptionMismatch {
    match row(symbol, description).security_details() {
        Err(QifError::OptionCrossValidation { mismatch, symbol: s, description: d }) => {
            assert_eq!(s, symbol);
            assert_eq!(d, description);
            mismatch
        }
        Err(e) => panic!("unexpected error {:?}", e),
        Ok(v) => panic!("unexpected success {:?}", v),
    }
}

#[test]
fn call_option_is_encoded() {
    let (symbol, name, kind) = row("XYZ 01/19/2024 50.00 C", "CALL XYZ CORP $50 EXP 01/19/24")
        .security_details()
        .unwrap();
    assert_eq!(symbol, "XYZ   240119C00050000");
    assert_eq!(name, "CALL : XYZ CORP - XYZ 01/19/2024 50.00 C");
    assert_eq!(kind, SecurityType::Option);
}

#[test]
fn put_option_with_long_ticker_and_cents() {
    let (symbol, name, kind) = row("GOOGLE 03/15/2025 1234.5 P", "PUT ALPHABET INC CL A  $1234.50 EXP 03/15/25")
        .security_details()
        .unwrap();
    assert_eq!(symbol, "GOOGLE250315P01234500");
    assert_eq!(name, "PUT : ALPHABET INC CL A - GOOGLE 03/15/2025 1234.5 P");
    assert_eq!(kind, SecurityType::Option);
}

#[test]
fn non_option_symbol_passes_through_as_stock() {
    let (symbol, name, kind) = row("AAPL", "APPLE INC").security_details().unwrap();
    assert_eq!(symbol, "AAPL");
    assert_eq!(name, "APPLE INC");
    assert_eq!(kind, SecurityType::Stock);
    let (symbol, name, kind) = row("XYZ 01/19/2024 50.00", "CALL XYZ CORP $50 EXP 01/19/24")
        .security_details()
        .unwrap();
    assert_eq!(symbol, "XYZ 01/19/2024 50.00");
    assert_eq!(name, "CALL XYZ CORP $50 EXP 01/19/24");
    assert_eq!(kind, SecurityType::Stock);
}

#[test]
fn option_symbol_with_plain_description_is_rejected() {
    assert_eq!(mismatch("XYZ 01/19/2024 50.00 C", "XYZ CORP"), OptionMismatch::Description);
}

#[test]
fn strike_mismatch_is_rejected() {
    assert_eq!(mismatch("XYZ 01/19/2024 50.00 C", "CALL XYZ CORP $55 EXP 01/19/24"), OptionMismatch::Strike);
}

#[test]
fn expiration_mismatch_is_rejected() {
    assert_eq!(mismatch("XYZ 01/19/2024 50.00 C", "CALL XYZ CORP $50 EXP 01/26/24"), OptionMismatch::Expiration);
}

#[test]
fn put_call_mismatch_is_rejected() {
    assert_eq!(mismatch("XYZ 01/19/2024 50.00 C", "PUT XYZ CORP $50 EXP 01/19/24"), OptionMismatch::PutCall);
}

#[test]
fn impossible_expiration_date_is_rejected() {
    assert_eq!(mismatch("XYZ 02/30/2024 50.00 C", "CALL XYZ CORP $50 EXP 02/30/24"), OptionMismatch::ExpirationDate);
}

#[test]
fn strike_without_point_is_encoded() {
    let (symbol, name, _) = row("XYZ 01/19/2024 150 C", "CALL XYZ CORP $150 EXP 01/19/24")
        .security_details()
        .unwrap();
    assert_eq!(symbol, "XYZ   240119C00150000");
    assert_eq!(name, "CALL : XYZ CORP - XYZ 01/19/2024 150 C");
}

#[test]
fn malformed_strike_is_rejected() {
    assert_eq!(mismatch("XYZ 01/19/2024 1.5.0 C", "CALL XYZ CORP $1.5 EXP 01/19/24"), OptionMismatch::StrikeFormat);
}

#[test]
fn equal_strikes_in_different_notation_agree() {
    let (symbol, _, _) = row("XYZ 01/19/2024 050.50 C", "CALL XYZ CORP $50.5 EXP 01/19/24")
        .security_details()
        .unwrap();
    assert_eq!(symbol, "XYZ   240119C00050500");
}

#[test]
fn encoding_is_stable_under_re_encoding() {
    let first = row("XYZ 01/19/2024 50.00 C", "CALL XYZ CORP $50 EXP 01/19/24").security_details().unwrap();
    let again = row("XYZ 01/19/2024 50.00 C", "CALL XYZ CORP $50 EXP 01/19/24").security_details().unwrap();
    assert_eq!(first, again);
    let (symbol, name, kind) = row(&first.0, &first.1).security_details().unwrap();
    assert_eq!(symbol, first.0);
    assert_eq!(name, first.1);
    assert_eq!(kind, SecurityType::Stock);
}

#[test]
fn encode_option_takes_given_dates() {
    let d = LedgerDate { year: 2024, month: 1, day: 19 };
    let r = encode_option("XYZ 01/19/2024 50.00 C", "CALL XYZ CORP $50 EXP 01/19/24", Some(d), Some(d)).unwrap();
    assert_eq!(r, Some(("XYZ   240119C00050000".to_string(), "CALL : XYZ CORP - XYZ 01/19/2024 50.00 C".to_string())));
    let other = LedgerDate { year: 2024, month: 1, day: 20 };
    assert_eq!(
        encode_option("XYZ 01/19/2024 50.00 C", "CALL XYZ CORP $50 EXP 01/19/24", Some(d), Some(other)),
        Err(OptionMismatch::Expiration)
    );
    assert_eq!(
        encode_option("XYZ 01/19/2024 50.00 C", "CALL XYZ CORP $50 EXP 01/19/24", None, Some(d)),
        Err(OptionMismatch::ExpirationDate)
    );
    assert_eq!(encode_option("AAPL", "APPLE", None, None), Ok(None));
}

#[test]
fn option_details_reads_dates_with_century_rule() {
    assert_eq!(
        option_details("XYZ 01/19/2069 5.00 P", "PUT XYZ $5 EXP 01/19/69").unwrap().unwrap().0,
        "XYZ   690119P00005000"
    );
    assert_eq!(
        option_details("XYZ 01/19/1969 5.00 P", "PUT XYZ $5 EXP 01/19/69"),
        Err(OptionMismatch::Expiration)
    );
    assert_eq!(
        option_details("XYZ 01/19/1970 5.00 P", "PUT XYZ $5 EXP 01/19/70").unwrap().unwrap().1,
        "PUT : XYZ - XYZ 01/19/1970 5.00 P"
    );
}
