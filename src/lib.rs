//! Converts brokerage CSV activity exports into QIF ledger records.
pub mod csv_reader;
pub mod date;
pub mod error;
pub mod find_matching_line;
pub mod option_symbol;
pub mod readers;
pub mod schwab_reader;
pub mod security;
pub mod sofi_reader;
pub mod symbols;
pub mod text;
pub mod transactions_qif;
