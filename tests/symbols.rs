use csv_to_qif::error::QifError;
use csv_to_qif::security::SecurityType;
use csv_to_qif::symbols::Symbols;

const LEDGER: &str = "!Type:Security\nNApple Inc.\nSAAPL\nTStock\n^\n\n!Type:Security\nNAlphabet Inc.\nSGOOG\nTStock\n^\n!Type:Security\nNVanguard 500\nSVFIAX\nTMutual Fund\n^\n";

#[test]
fn symbols_test_new() {
    let text = "!Type:Security\nNTest Security 1\nSTEST1\nTStock\n!Type:Security\nNTest Security 2\nSTEST2\nTMutual Fund\n";
    let symbols = Symbols::new(text).unwrap();

    // Test that the expected symbols were read from the text
    assert_eq!(
        symbols.get(&"TEST1".to_string()).unwrap(),
        ("Test Security 1".to_string(), SecurityType::Stock)
    );
    assert_eq!(
        symbols.get(&"TEST2".to_string()).unwrap(),
        ("Test Security 2".to_string(), SecurityType::MutualFund)
    );
    assert_eq!(symbols.get_new_securities().unwrap().len(), 0);
}

#[test]
fn test_lookup() {
    let mut symbols = Symbols::new("!Type:Security\nNApple Inc.\nSAAPL\nTStock\n").unwrap();
    symbols
        .enter_if_not_found("GOOG", "Alphabet Inc.", &SecurityType::Stock)
        .unwrap();
    assert_eq!(symbols.lookup(&"AAPL".to_string()).unwrap(), "Apple Inc.");
    assert_eq!(symbols.lookup(&"GOOG".to_string()).unwrap(), "Alphabet Inc.");
    assert!(symbols.lookup(&"MSFT".to_string()).is_err());
}

#[test]
fn test_enter_if_not_found() {
    let mut symbols = Symbols::empty();
    symbols
        .enter_if_not_found("AAPL", "Apple Inc.", &SecurityType::Stock)
        .unwrap();
    let new = symbols.get_new_securities().unwrap();
    assert_eq!(new, vec![("AAPL".to_string(), ("Apple Inc.".to_string(), SecurityType::Stock))]);
    symbols
        .enter_if_not_found("AAPL", "Apple Inc. (again)", &SecurityType::Stock)
        .unwrap();
    let new = symbols.get_new_securities().unwrap();
    assert_eq!(new, vec![("AAPL".to_string(), ("Apple Inc.".to_string(), SecurityType::Stock))]);
}

#[test]
fn test_lookup2() {
    let symbols = Symbols::new(LEDGER).unwrap();
    let symbol = String::from("AAPL");
    let name = symbols.lookup(&symbol).unwrap();
    assert_eq!(name, String::from("Apple Inc."));

    let symbol = String::from("XYZ");
    let name = symbols.lookup(&symbol);
    assert!(name.is_err());
}

#[test]
fn test_enter_if_not_found2() {
    let mut symbols = Symbols::new(LEDGER).unwrap();

    let symbol = String::from("MSFT");
    let name = String::from("Microsoft Corporation");
    let security_type = SecurityType::Stock;
    let result = symbols.enter_if_not_found(&symbol, &name, &security_type);
    assert!(result.is_ok());

    let name = symbols.lookup(&symbol).unwrap();
    assert_eq!(name, String::from("Microsoft Corporation"));

    let symbol = String::from("XYZ");
    let name = String::from("Test Corporation");
    let security_type = SecurityType::Stock;
    let result = symbols.enter_if_not_found(&symbol, &name, &security_type);
    assert!(result.is_ok());

    let name = symbols.lookup(&symbol).unwrap();
    assert_eq!(name, String::from("Test Corporation"));
}

#[test]
fn test_get_new_securities() {
    let mut symbols = Symbols::new(LEDGER).unwrap();

    let symbol = String::from("XYZ");
    let name = String::from("Test Corporation");
    let security_type = SecurityType::Stock;
    let result = symbols.enter_if_not_found(&symbol, &name, &security_type);
    assert!(result.is_ok());

    let new_securities = symbols.get_new_securities().unwrap();
    assert_eq!(new_securities.len(), 1);
    let (new_symbol, (new_name, new_security_type)) = new_securities.get(0).unwrap();
    assert_eq!(new_symbol, &symbol);
    assert_eq!(new_name, &name);
    assert_eq!(new_security_type, &security_type);
}

#[test]
fn base_symbol_is_not_entered_again() {
    let mut symbols = Symbols::new(LEDGER).unwrap();
    symbols
        .enter_if_not_found("AAPL", "Another Apple", &SecurityType::Stock)
        .unwrap();
    assert_eq!(symbols.lookup(&"AAPL".to_string()).unwrap(), "Apple Inc.");
    assert_eq!(symbols.get_new_securities().unwrap().len(), 0);
}

#[test]
fn lookup_after_enter_succeeds() {
    let mut symbols = Symbols::empty();
    symbols
        .enter_if_not_found("QQQ", "Invesco QQQ", &SecurityType::MutualFund)
        .unwrap();
    assert_eq!(symbols.lookup(&"QQQ".to_string()).unwrap(), "Invesco QQQ");
}

#[test]
fn new_securities_come_sorted_by_symbol() {
    let mut symbols = Symbols::empty();
    for s in ["MSFT", "AAPL", "ZM", "GOOG", "AMZN"] {
        symbols.enter_if_not_found(s, &format!("{} name", s), &SecurityType::Stock).unwrap();
    }
    let syms: Vec<String> = symbols.get_new_securities().unwrap().into_iter().map(|e| e.0).collect();
    assert_eq!(syms, vec!["AAPL", "AMZN", "GOOG", "MSFT", "ZM"]);
}

#[test]
fn duplicate_base_symbol_keeps_first_name_with_warning() {
    let text = "!Type:Security\nNApple Inc.\nSAAPL\nTStock\n^\n!Type:Security\nNApple Computer\nSAAPL\nTStock\n^\n";
    let (symbols, duplicates) = Symbols::from_ledger(text).unwrap();
    assert_eq!(symbols.lookup(&"AAPL".to_string()).unwrap(), "Apple Inc.");
    assert_eq!(
        duplicates,
        vec![("AAPL".to_string(), ("Apple Computer".to_string(), SecurityType::Stock))]
    );
}

#[test]
fn ledger_tolerates_blank_lines_and_carriage_returns() {
    let text = "\r\n\n!Type:Security\r\nNApple Inc.\r\nSAAPL\r\nTStock\r\n^\r\n\n!Type:Security\nNS&P 500\nSSPX\nTMarket Index\n";
    let symbols = Symbols::new(text).unwrap();
    assert_eq!(symbols.lookup(&"AAPL".to_string()).unwrap(), "Apple Inc.");
    assert_eq!(symbols.lookup(&"SPX".to_string()).unwrap(), "S&P 500");
}

#[test]
fn unrecognized_security_type_is_an_error() {
    let text = "!Type:Security\nNBitcoin\nSBTC\nTCrypto\n";
    match Symbols::new(text) {
        Err(QifError::UnrecognizedSecurityType(t)) => assert_eq!(t, "Crypto"),
        other => panic!("unexpected {:?}", other.map(|_| ())),
    }
}

#[test]
fn incomplete_block_is_passed_over() {
    let text = "!Type:Security\nNApple Inc.\nSAAPL\nTStock";
    let symbols = Symbols::new(text).unwrap();
    assert!(symbols.lookup(&"AAPL".to_string()).is_err());
}
