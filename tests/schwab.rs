use csv_to_qif::date::LedgerDate;
use csv_to_qif::error::{Notice, QifError};
use csv_to_qif::schwab_reader::{date_from_reads, read_transactions_csv, SchwabTransaction};
use csv_to_qif::security::SecurityType;
use csv_to_qif::symbols::Symbols;
use csv_to_qif::transactions_qif::QifAction;

fn row(date: &str, action: &str, symbol: &str, description: &str, quantity: &str, price: &str, fees: &str, amount: &str) -> SchwabTransaction {
    SchwabTransaction {
        date: date.to_string(),
        action: action.to_string(),
        symbol: symbol.to_string(),
        description: description.to_string(),
        quantity: quantity.to_string(),
        price: price.to_string(),
        fees: fees.to_string(),
        amount: amount.to_string(),
    }
}

fn convert(r: &SchwabTransaction) -> (Result<Vec<QifAction>, QifError>, Option<Symbols>, Vec<Notice>) {
    let mut symbols = Some(Symbols::empty());
    let mut notices = Vec::new();
    let res = r.to_qif_action(&mut symbols, &mut notices);
    (res, symbols, notices)
}

#[test]
fn buy_row_becomes_buy_trade() {
    let r = row("01/05/2024", "Buy", "XYZ", "XYZ CORP", "10", "$50.00", "", "-$500.00");
    let (res, symbols, notices) = convert(&r);
    let actions = res.unwrap();
    assert_eq!(actions.len(), 1);
    match &actions[0] {
        QifAction::Buy { trade } => {
            assert_eq!(trade.price, "50.00");
            assert_eq!(trade.quantity, "10");
            assert_eq!(trade.amount, "500.00");
            assert_eq!(trade.fees, "");
            assert_eq!(trade.symbol, "XYZ");
            assert_eq!(trade.date, LedgerDate { year: 2024, month: 1, day: 5 });
        }
        other => panic!("unexpected {:?}", other),
    }
    assert!(notices.is_empty());
    assert_eq!(symbols.unwrap().lookup(&"XYZ".to_string()).unwrap(), "XYZ CORP");
}

#[test]
fn margin_interest_is_positive() {
    let r = row("02/01/2024", "Margin Interest", "", "MARGIN INTEREST", "", "", "", "-$12.34");
    let (res, _, _) = convert(&r);
    match &res.unwrap()[0] {
        QifAction::MargInt { amount, memo, .. } => {
            assert_eq!(amount, "12.34");
            assert_eq!(memo, "MARGIN INTEREST");
        }
        other => panic!("unexpected {:?}", other),
    }
}

#[test]
fn labels_map_to_their_actions() {
    let cases = [
        ("Sell to Open", "ShtSell"),
        ("Buy to Close", "CvrShrt"),
        ("Buy to Open", "Buy"),
        ("Sell", "Sell"),
        ("Sell to Close", "Sell"),
    ];
    for (label, kind) in cases {
        let r = row("01/05/2024", label, "XYZ", "XYZ CORP", "1", "$5", "$0.65", "$5.00");
        let (res, _, _) = convert(&r);
        let actions = res.unwrap();
        let got = match &actions[0] {
            QifAction::ShtSell { .. } => "ShtSell",
            QifAction::CvrShrt { .. } => "CvrShrt",
            QifAction::Buy { .. } => "Buy",
            QifAction::Sell { .. } => "Sell",
            _ => "other",
        };
        assert_eq!(got, kind, "label {}", label);
    }
}

#[test]
fn option_buy_counts_shares() {
    let r = row("01/05/2024", "Buy to Open", "XYZ 01/19/2024 50.00 C", "CALL XYZ CORP $50 EXP 01/19/24", "2", "$1.10", "$1.30", "-$221.30");
    let (res, symbols, _) = convert(&r);
    match &res.unwrap()[0] {
        QifAction::Buy { trade } => {
            assert_eq!(trade.quantity, "200");
            assert_eq!(trade.symbol, "XYZ   240119C00050000");
            assert_eq!(trade.fees, "1.30");
        }
        other => panic!("unexpected {:?}", other),
    }
    let new = symbols.unwrap().get_new_securities().unwrap();
    assert_eq!(new[0].1 .1, SecurityType::Option);
}

#[test]
fn expired_option_closes_position() {
    let r = row("01/22/2024", "Expired", "XYZ 01/19/2024 50.00 C", "CALL XYZ CORP $50 EXP 01/19/24", "-2", "", "", "");
    let (res, _, _) = convert(&r);
    match &res.unwrap()[0] {
        QifAction::Sell { trade } => {
            assert_eq!(trade.quantity, "200");
            assert_eq!(trade.price, "");
            assert_eq!(trade.amount, "");
        }
        other => panic!("unexpected {:?}", other),
    }
    let r = row("01/22/2024", "Expired", "XYZ 01/19/2024 50.00 C", "CALL XYZ CORP $50 EXP 01/19/24", "2", "", "", "");
    let (res, _, _) = convert(&r);
    match &res.unwrap()[0] {
        QifAction::Sell { trade } => assert_eq!(trade.quantity, "-200"),
        other => panic!("unexpected {:?}", other),
    }
}

#[test]
fn expired_stock_is_an_error() {
    let r = row("01/22/2024", "Expired", "XYZ", "XYZ CORP", "2", "", "", "");
    assert!(matches!(convert(&r).0, Err(QifError::ExpiredNonOption(_))));
}

#[test]
fn dividends_and_gains() {
    let cases = [("Cash Dividend", "Div"), ("Qualified Dividend", "Div"), ("Pr Yr Special Div", "Div"), ("Short Term Cap Gain", "CGShort"), ("Long Term Cap Gain", "CGLong")];
    for (label, kind) in cases {
        let r = row("03/01/2024", label, "VTI", "VANGUARD TOTAL", "", "", "", "$1.23");
        let (res, symbols, _) = convert(&r);
        let actions = res.unwrap();
        let (got, amount) = match &actions[0] {
            QifAction::Div { amount, .. } => ("Div", amount.clone()),
            QifAction::CGShort { amount, .. } => ("CGShort", amount.clone()),
            QifAction::CGLong { amount, .. } => ("CGLong", amount.clone()),
            _ => ("other", String::new()),
        };
        assert_eq!(got, kind);
        assert_eq!(amount, "1.23");
        assert_eq!(symbols.unwrap().lookup(&"VTI".to_string()).unwrap(), "VANGUARD TOTAL");
    }
}

#[test]
fn cash_labels_become_cash_movements() {
    let r = row("03/01/2024", "Wire Funds", "", "WIRED FUNDS RECEIVED", "", "", "", "$1,000.00");
    let (res, _, notices) = convert(&r);
    match &res.unwrap()[0] {
        QifAction::Generic { payee, memo, category, amount, .. } => {
            assert_eq!(payee, "WIRED FUNDS RECEIVED");
            assert_eq!(memo.as_deref(), Some("WIRED FUNDS RECEIVED"));
            assert_eq!(*category, None);
            assert_eq!(amount, "1,000.00");
        }
        other => panic!("unexpected {:?}", other),
    }
    assert!(notices.is_empty());
}

#[test]
fn spin_off_brings_shares_in() {
    let r = row("03/01/2024", "Spin-off", "NEWCO", "NEWCO INC", "-15", "", "", "");
    let (res, _, _) = convert(&r);
    match &res.unwrap()[0] {
        QifAction::ShrsIn { quantity, symbol, .. } => {
            assert_eq!(*quantity, -15);
            assert_eq!(symbol, "NEWCO");
        }
        other => panic!("unexpected {:?}", other),
    }
    let r = row("03/01/2024", "Spin-off", "NEWCO", "NEWCO INC", "1.5", "", "", "");
    assert!(matches!(convert(&r).0, Err(QifError::BadQuantity(_))));
}

#[test]
fn split_is_left_for_the_operator() {
    let r = row("03/01/2024", "Stock Split", "XYZ", "XYZ CORP", "10", "", "", "");
    let (res, _, notices) = convert(&r);
    assert!(res.unwrap().is_empty());
    assert!(matches!(notices.as_slice(), [Notice::SplitNotHandled(_)]));
    let r = row("03/01/2024", "Name Change", "XYZ", "XYZ CORP", "10", "", "", "");
    let (_, _, notices) = convert(&r);
    assert!(matches!(notices.as_slice(), [Notice::NameChangeNotHandled(_)]));
    let r = row("03/01/2024", "Journaled Shares", "XYZ", "XYZ CORP", "10", "", "", "");
    let (_, _, notices) = convert(&r);
    assert!(matches!(notices.as_slice(), [Notice::JournaledSharesNotHandled(_)]));
}

#[test]
fn unknown_label_without_prices_becomes_cash() {
    let r = row("03/01/2024", "Mystery Credit", "", "SOMETHING", "", "", "", "$3.00");
    let (res, _, notices) = convert(&r);
    assert!(matches!(res.unwrap()[0], QifAction::Generic { .. }));
    assert!(matches!(notices.as_slice(), [Notice::EnteredAsCash(l)] if l == "Mystery Credit"));
}

#[test]
fn unknown_label_with_prices_is_an_error() {
    let r = row("03/01/2024", "Mystery Trade", "XYZ", "XYZ CORP", "1", "$2", "", "$2.00");
    assert!(matches!(convert(&r).0, Err(QifError::UnsupportedActionLabel(l)) if l == "Mystery Trade"));
}

#[test]
fn as_of_dates_use_the_second_date() {
    let r = row("03/04/2024 as of 03/01/2024", "Bank Interest", "", "INTEREST", "", "", "", "$0.10");
    let (res, _, _) = convert(&r);
    match &res.unwrap()[0] {
        QifAction::Generic { date, .. } => assert_eq!(*date, LedgerDate { year: 2024, month: 3, day: 1 }),
        other => panic!("unexpected {:?}", other),
    }
    let r = row("yesterday", "Bank Interest", "", "INTEREST", "", "", "", "$0.10");
    assert!(matches!(convert(&r).0, Err(QifError::BadDate(d)) if d == "yesterday"));
}

#[test]
fn rows_without_registry_are_refused() {
    let r = row("01/05/2024", "Buy", "XYZ", "XYZ CORP", "10", "$50.00", "", "-$500.00");
    let mut symbols: Option<Symbols> = None;
    let mut notices = Vec::new();
    assert!(matches!(r.to_qif_action(&mut symbols, &mut notices), Err(QifError::MissingSecurities)));
}

#[test]
fn actions_come_oldest_first() {
    let rows = vec![
        row("01/03/2024", "Sell", "XYZ", "XYZ CORP", "10", "$55", "", "$550.00"),
        row("01/02/2024", "Bank Interest", "", "INTEREST", "", "", "", "$0.10"),
        row("01/01/2024", "Buy", "XYZ", "XYZ CORP", "10", "$50", "", "-$500.00"),
    ];
    let mut symbols = Some(Symbols::empty());
    let mut notices = Vec::new();
    let actions = SchwabTransaction::to_transactions(&rows, &mut symbols, &mut notices).unwrap();
    assert_eq!(actions.len(), 3);
    assert!(matches!(actions[0], QifAction::Buy { .. }));
    assert!(matches!(actions[1], QifAction::Generic { .. }));
    assert!(matches!(actions[2], QifAction::Sell { .. }));
}

#[test]
fn csv_rows_are_read_by_column_name_with_footer() {
    let input = b"\"Date\",\"Action\",\"Symbol\",\"Description\",\"Price\",\"Quantity\",\"Fees & Comm\",\"Amount\"\n\
\"01/05/2024\",\"Buy\",\"XYZ\",\"XYZ CORP, CLASS A\",\"$50.00\",\"10\",\"\",\"-$500.00\"\n\
\"01/04/2024\",\"Bank Interest\",\"\",\"INTEREST\",\"\",\"\",\"\",\"$0.10\"\n\
\"Transactions Total\",\"\",\"\",\"\",\"\",\"\",\"-$499.90\"\n";
    let rows = read_transactions_csv(input).unwrap();
    assert_eq!(rows.len(), 2);
    assert_eq!(rows[0].description, "XYZ CORP, CLASS A");
    assert_eq!(rows[0].price, "50.00");
    assert_eq!(rows[0].amount, "-500.00");
    assert_eq!(rows[1].amount, "0.10");
    assert_eq!(rows[0].quantity, "10");
    assert_eq!(rows[1].action, "Bank Interest");
}

#[test]
fn csv_data_after_footer_is_an_error() {
    let input = b"Date,Action,Symbol,Description,Quantity,Price,Fees & Comm,Amount\n\
01/05/2024,Buy,XYZ,XYZ CORP,10,$50.00,,-$500.00\n\
Total,,,,,\n\
01/04/2024,Bank Interest,,INTEREST,,,,$0.10\n";
    assert!(matches!(read_transactions_csv(input), Err(QifError::RowResumedAfterFooter)));
}

#[test]
fn date_from_reads_prefers_first_read() {
    let d1 = LedgerDate { year: 2024, month: 3, day: 4 };
    let d2 = LedgerDate { year: 2024, month: 3, day: 1 };
    assert_eq!(date_from_reads("03/04/2024", Some(d1), Some(d2)), Some(d1));
    assert_eq!(date_from_reads("03/04/2024 as of 03/01/2024", None, Some(d2)), Some(d2));
    assert_eq!(date_from_reads("03/04/2024 as if 03/01/2024", None, Some(d2)), None);
    assert_eq!(date_from_reads("03/04/2024 as of 03/01/2024", None, None), None);
}
