use csv_to_qif::error::{Notice, QifError};
use csv_to_qif::find_matching_line::{find_matching_line, ByteCursor};
use csv_to_qif::readers::{Reader, Readers};
use csv_to_qif::sofi_reader::{read_sofi_csv, SoFiTransaction};
use csv_to_qif::symbols::Symbols;
use csv_to_qif::transactions_qif::{AccountType, QifAction};

#[test]
fn test_find_matching_line() {
    let mut input = ByteCursor::new(b"foo\nzero\none\n".to_vec());

    let collection = vec![("zero".to_string(), 0), ("one".to_string(), 1)];

    // should find "zero"
    assert_eq!(find_matching_line(&mut input, &collection), Some(0));

    // should find "zero" again
    assert_eq!(find_matching_line(&mut input, &collection), Some(0));

    // read past "zero"
    let _line = input.read_line();

    // should find "one"
    assert_eq!(find_matching_line(&mut input, &collection), Some(1));

    let collection2 = vec![("two".to_string(), 2)];

    // should not find "two"
    assert_eq!(find_matching_line(&mut input, &collection2), None);
}

fn readers() -> Readers {
    let mut readers = Readers::new();
    readers.register(Reader::Schwab);
    readers.register(Reader::SoFi);
    readers
}

#[test]
fn first_line_header_selects_profile() {
    let data = b"Date,Description,Type,Amount,Current balance,Status\n2024-01-02,COFFEE,Debit Card,-3.50,96.50,Posted\n".to_vec();
    let mut cursor = ByteCursor::new(data);
    assert_eq!(readers().select_reader(&mut cursor, "in.csv").unwrap(), Reader::SoFi);
    assert_eq!(cursor.pos(), 0);
}

#[test]
fn header_after_preamble_rewinds_to_header() {
    let data = b"Transactions for account XXXX-1234\n\"Date\",\"Action\",\"Symbol\",\"Description\",\"Price\",\"Quantity\",\"Fees & Comm\",\"Amount\"\n".to_vec();
    let mut cursor = ByteCursor::new(data);
    assert_eq!(readers().identify_reader(&mut cursor), Some(Reader::Schwab));
    assert_eq!(cursor.pos(), 35);
}

#[test]
fn unknown_input_is_not_recognized() {
    let mut cursor = ByteCursor::new(b"a,b,c\n1,2,3\n".to_vec());
    match readers().select_reader(&mut cursor, "mystery.csv") {
        Err(QifError::FormatNotRecognized(name)) => assert_eq!(name, "mystery.csv"),
        other => panic!("unexpected {:?}", other),
    }
    assert_eq!(cursor.pos(), 12);
}

#[test]
fn later_registration_wins() {
    let mut readers = Readers::new();
    readers.register(Reader::Schwab);
    readers.register(Reader::SchwabOldCsv);
    let data = b"\"Date\",\"Action\",\"Symbol\",\"Description\",\"Quantity\",\"Price\",\"Fees & Comm\",\"Amount\"\n".to_vec();
    let mut cursor = ByteCursor::new(data);
    assert_eq!(readers.identify_reader(&mut cursor), Some(Reader::SchwabOldCsv));
}

#[test]
fn sofi_rows_become_categorised_cash() {
    let input = b"Date,Description,Type,Amount,Current balance,Status\n2024-01-03,PAYCHECK,Direct Deposit,1000.00,1096.50,Posted\n2024-01-02,COFFEE,Debit Card,-3.50,96.50,Posted\n";
    let rows = read_sofi_csv(input).unwrap();
    let mut notices = Vec::new();
    let actions = SoFiTransaction::to_transactions(&rows, &mut notices).unwrap();
    assert_eq!(actions.len(), 2);
    match &actions[0] {
        QifAction::Generic { payee, category, memo, amount, .. } => {
            assert_eq!(payee, "COFFEE");
            assert_eq!(category.as_deref(), Some("Debit Card"));
            assert_eq!(*memo, None);
            assert_eq!(amount, "-3.50");
        }
        other => panic!("unexpected {:?}", other),
    }
    assert!(matches!(notices.as_slice(), [Notice::UnrecognizedCashType(t)] if t == "Direct Deposit"));
}

#[test]
fn whole_conversion_from_header() {
    let data = b"\"Date\",\"Action\",\"Symbol\",\"Description\",\"Price\",\"Quantity\",\"Fees & Comm\",\"Amount\"\n\"01/05/2024\",\"Buy\",\"XYZ\",\"XYZ CORP\",\"$50.00\",\"10\",\"\",\"-$500.00\"\n".to_vec();
    let mut cursor = ByteCursor::new(data);
    let reader = readers().select_reader(&mut cursor, "x.csv").unwrap();
    let mut securities = Some(Symbols::empty());
    let mut notices = Vec::new();
    let t = reader
        .to_qif_transactions(&cursor.rest(), AccountType::Invest, &mut securities, &mut notices)
        .unwrap();
    assert!(securities.is_none());
    let files = t.print_transactions(&None).unwrap();
    assert_eq!(
        files.transactions.unwrap(),
        "!Type:Invst\nD1/5'24\nNBuy\nYXYZ CORP\nI50.00\nQ10\nU500.00\nT500.00\nMXYZ CORP\nO\n$500.00\n^\n"
    );
    assert_eq!(
        t.print_securities_qif().unwrap().unwrap(),
        "!Type:Security\nNXYZ CORP\nSXYZ\nTStock\n^\n"
    );
}
