use csv_to_qif::date::LedgerDate;
use csv_to_qif::error::QifError;
use csv_to_qif::security::SecurityType;
use csv_to_qif::symbols::Symbols;
use csv_to_qif::transactions_qif::{AccountType, QifAction, QifTransactions, Trade};

fn date() -> LedgerDate {
    LedgerDate { year: 2024, month: 1, day: 5 }
}

fn registry() -> Symbols {
    let mut s = Symbols::new("!Type:Security\nNXYZ CORP\nSXYZ\nTStock\n").unwrap();
    s.enter_if_not_found("NEWCO", "NEWCO INC", &SecurityType::Stock).unwrap();
    s.enter_if_not_found("ABC", "ABC FUND", &SecurityType::MutualFund).unwrap();
    s
}

fn buy() -> QifAction {
    QifAction::Buy {
        trade: Trade {
            date: date(),
            symbol: "XYZ".to_string(),
            price: "50.00".to_string(),
            quantity: "10".to_string(),
            amount: "500.00".to_string(),
            fees: "".to_string(),
        },
    }
}

fn cash() -> QifAction {
    QifAction::Generic {
        date: LedgerDate { year: 2009, month: 12, day: 31 },
        payee: "WIRE".to_string(),
        memo: Some("WIRE".to_string()),
        category: None,
        amount: "100.00".to_string(),
    }
}

#[test]
fn buy_record_layout() {
    let s = registry();
    let mut out = String::new();
    buy().print_transaction(&mut out, &None, Some(&s)).unwrap();
    assert_eq!(out, "D1/5'24\nNBuy\nYXYZ CORP\nI50.00\nQ10\nU500.00\nT500.00\nMXYZ CORP\nO\n$500.00\n^\n");
}

#[test]
fn buy_record_with_linked_account() {
    let s = registry();
    let mut out = String::new();
    buy().print_transaction(&mut out, &Some("Brokerage Cash".to_string()), Some(&s)).unwrap();
    assert_eq!(out, "D1/5'24\nNBuyX\nYXYZ CORP\nI50.00\nQ10\nU500.00\nT500.00\nMXYZ CORP\nO\nL[Brokerage Cash]\n$500.00\n^\n");
}

#[test]
fn income_records() {
    let s = registry();
    let mut out = String::new();
    QifAction::Div { date: date(), symbol: "XYZ".to_string(), amount: "1.23".to_string() }
        .print_transaction(&mut out, &None, Some(&s))
        .unwrap();
    QifAction::MargInt { date: date(), memo: "MARGIN".to_string(), amount: "12.34".to_string() }
        .print_transaction(&mut out, &None, Some(&s))
        .unwrap();
    assert_eq!(out, "D1/5'24\nNDiv\nYXYZ CORP\nU1.23\nT1.23\nMXYZ CORP\n$1.23\n^\nD1/5'24\nNMargInt\nU12.34\nT12.34\nMMARGIN\n$12.34\n^\n");
}

#[test]
fn shares_in_and_cash_records() {
    let s = registry();
    let mut out = String::new();
    QifAction::ShrsIn { date: date(), symbol: "NEWCO".to_string(), quantity: -15 }
        .print_transaction(&mut out, &None, Some(&s))
        .unwrap();
    cash().print_transaction(&mut out, &None, Some(&s)).unwrap();
    assert_eq!(out, "D1/5'24\nNShrsIn\nYNEWCO INC\nQ-15\nMNEWCO INC\n^\nD12/31'09\nU100.00\nT100.00\nPWIRE\nMWIRE\n^\n");
}

#[test]
fn unregistered_symbol_cannot_be_printed() {
    let mut out = String::new();
    let r = QifAction::Div { date: date(), symbol: "NOPE".to_string(), amount: "1".to_string() }
        .print_transaction(&mut out, &None, Some(&registry()));
    assert!(matches!(r, Err(QifError::UnregisteredSymbol(_))));
    assert_eq!(out, "");
    let r = buy().print_transaction(&mut out, &None, None);
    assert!(matches!(r, Err(QifError::UnregisteredSymbol(_))));
}

#[test]
fn cash_goes_to_linked_ledger_when_configured() {
    let t = QifTransactions { qif_actions: vec![buy(), cash()], account_type: AccountType::Invest, symbols: Some(registry()) };
    let files = t.print_transactions(&Some("Cash".to_string())).unwrap();
    assert_eq!(files.transaction_count, 1);
    assert_eq!(files.linked_count, 1);
    assert!(files.transactions.unwrap().starts_with("!Type:Invst\nD1/5'24\nNBuyX\n"));
    assert_eq!(files.linked_cash.unwrap(), "!Type:Bank\nD12/31'09\nU100.00\nT100.00\nPWIRE\nMWIRE\n^\n");
}

#[test]
fn without_linked_account_everything_is_primary() {
    let t = QifTransactions { qif_actions: vec![cash()], account_type: AccountType::Cash, symbols: None };
    let files = t.print_transactions(&None).unwrap();
    assert_eq!(files.transaction_count, 1);
    assert_eq!(files.linked_count, 0);
    assert!(files.linked_cash.is_none());
    assert_eq!(files.transactions.unwrap(), "!Type:Bank\nD12/31'09\nU100.00\nT100.00\nPWIRE\nMWIRE\n^\n");
}

#[test]
fn securities_ledger_lists_new_securities_sorted() {
    let t = QifTransactions { qif_actions: vec![], account_type: AccountType::Invest, symbols: Some(registry()) };
    let text = t.print_securities_qif().unwrap().unwrap();
    assert_eq!(text, "!Type:Security\nNABC FUND\nSABC\nTMutual Fund\n^\n!Type:Security\nNNEWCO INC\nSNEWCO\nTStock\n^\n");
    let t = QifTransactions { qif_actions: vec![], account_type: AccountType::Invest, symbols: Some(Symbols::empty()) };
    assert_eq!(t.print_securities_qif().unwrap(), None);
}
