//! Errors that stop a conversion.
use vstd::prelude::*;

use crate::option_symbol::OptionMismatch;
use crate::schwab_reader::{SchwabRowView, SchwabTransaction};

verus! {

/// A fatal condition: the run stops and nothing is written.
#[derive(Debug)]
pub enum QifError {
    /// No registered header line was found in the named input.
    FormatNotRecognized(String),
    /// A well-formed row followed a row that was taken for the trailing footer.
    RowResumedAfterFooter,
    /// A symbol that reads as an option does not agree with its description.
    OptionCrossValidation { mismatch: OptionMismatch, symbol: String, description: String },
    /// A symbol was looked up that was never registered.
    UnregisteredSymbol(String),
    /// A row with price, quantity or fees carries an action that has no rule.
    UnsupportedActionLabel(String),
    /// A securities ledger names a type that is not known.
    UnrecognizedSecurityType(String),
    /// A date field could not be read.
    BadDate(String),
    /// A quantity could not be read as a whole number.
    BadQuantity(String),
    /// An expiration row is for a security that is not an option.
    ExpiredNonOption(String),
    /// A broker whose rows name securities was given no securities ledger.
    MissingSecurities,
}

/// Something the operator should know that does not stop the run.
#[derive(Debug)]
pub enum Notice {
    /// A stock split: the row gives the shares added, the ledger wants the split
    /// ratio, which needs the position before the split. Enter it by hand.
    SplitNotHandled(SchwabTransaction),
    /// Shares moved between accounts. Enter the transfer by hand.
    JournaledSharesNotHandled(SchwabTransaction),
    /// A security changed its name. Enter the change by hand.
    NameChangeNotHandled(SchwabTransaction),
    /// An action without a rule and without price, quantity or fees was entered
    /// as a cash movement.
    EnteredAsCash(String),
    /// A cash account's transaction type without a rule was entered as it is.
    UnrecognizedCashType(String),
}

/// A notice with its text fields as character sequences.
pub enum NoticeView {
    SplitNotHandled(SchwabRowView),
    JournaledSharesNotHandled(SchwabRowView),
    NameChangeNotHandled(SchwabRowView),
    EnteredAsCash(Seq<char>),
    UnrecognizedCashType(Seq<char>),
}

impl View for Notice {
    type V = NoticeView;

    open spec fn view(&self) -> NoticeView {
        match self {
            Notice::SplitNotHandled(r) => NoticeView::SplitNotHandled(r@),
            Notice::JournaledSharesNotHandled(r) => NoticeView::JournaledSharesNotHandled(r@),
            Notice::NameChangeNotHandled(r) => NoticeView::NameChangeNotHandled(r@),
            Notice::EnteredAsCash(l) => NoticeView::EnteredAsCash(l@),
            Notice::UnrecognizedCashType(l) => NoticeView::UnrecognizedCashType(l@),
        }
    }
}

/// The views of a list of notices.
pub open spec fn notices_view(s: Seq<Notice>) -> Seq<NoticeView> {
    s.map_values(|n: Notice| n@)
}

} // verus!
