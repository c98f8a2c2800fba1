//! Schwab's brokerage export: its rows and the rules that turn each row into
//! ledger actions.
use vstd::prelude::*;

use crate::csv_reader::{
    csv_records, decode_rows, decoded_rows, fields_view, names_view, read_records, records_view,
    rows_view,
};
use crate::date::{parse_date, parsed_date, LedgerDate};
use crate::error::{notices_view, Notice, NoticeView, QifError};
use crate::option_symbol::{
    date_of_triple, description_date, is_option_symbol, lemma_canonical_symbol_is_stable,
    long_date_at, option_details, option_outcome_of, OptionMismatch, OptionOutcome, };
use crate::security::SecurityType;
use crate::symbols::{entered, Symbols};
use crate::text::{
    chars_of, i32_value, parse_i32, push_str, remove_char, same_text, string_of, sub_vec,
    trim_start_char, without_char, without_leading,
};
use crate::transactions_qif::{actions_view, ActionView, QifAction, Trade, TradeView};

verus! {

/// One row of a Schwab export, as its columns read.
#[derive(Debug)]
pub struct SchwabTransaction {
    pub date: String,
    pub action: String,
    pub symbol: String,
    pub description: String,
    pub quantity: String,
    pub price: String,
    pub fees: String,
    pub amount: String,
}

/// A row's fields as character sequences.
pub struct SchwabRowView {
    pub date: Seq<char>,
    pub action: Seq<char>,
    pub symbol: Seq<char>,
    pub description: Seq<char>,
    pub quantity: Seq<char>,
    pub price: Seq<char>,
    pub fees: Seq<char>,
    pub amount: Seq<char>,
}

impl View for SchwabTransaction {
    type V = SchwabRowView;

    open spec fn view(&self) -> SchwabRowView {
        SchwabRowView {
            date: self.date@,
            action: self.action@,
            symbol: self.symbol@,
            description: self.description@,
            quantity: self.quantity@,
            price: self.price@,
            fees: self.fees@,
            amount: self.amount@,
        }
    }
}

/// The rule that an action label selects.
#[derive(Clone, Copy, Debug, PartialEq, Eq, Structural)]
pub enum SchwabRule {
    ShortSell,
    CoverShort,
    Buy,
    Sell,
    Expired,
    MarginInterest,
    Dividend,
    CapGainShort,
    CapGainLong,
    Cash,
    SpinOff,
    StockSplit,
    JournaledShares,
    NameChange,
    Unrecognized,
}

/// The dispatch table from Schwab's action labels to rules.
pub open spec fn schwab_rule(label: Seq<char>) -> SchwabRule {
    if label == "Sell to Open"@ {
        SchwabRule::ShortSell
    } else if label == "Buy to Close"@ {
        SchwabRule::CoverShort
    } else if label == "Buy"@ || label == "Buy to Open"@ {
        SchwabRule::Buy
    } else if label == "Sell"@ || label == "Sell to Close"@ {
        SchwabRule::Sell
    } else if label == "Expired"@ {
        SchwabRule::Expired
    } else if label == "Margin Interest"@ {
        SchwabRule::MarginInterest
    } else if label == "Pr Yr Special Div"@ || label == "Cash Dividend"@ || label
        == "Qualified Dividend"@ {
        SchwabRule::Dividend
    } else if label == "Short Term Cap Gain"@ {
        SchwabRule::CapGainShort
    } else if label == "Long Term Cap Gain"@ {
        SchwabRule::CapGainLong
    } else if label == "Foreign Tax Paid"@ || label == "ADR Mgmt Fee"@ || label == "Cash In Lieu"@
        || label == "MoneyLink Deposit"@ || label == "Wire Funds"@ || label == "Misc Cash Entry"@
        || label == "Service Fee"@ || label == "Journal"@ || label == "MoneyLink Transfer"@
        || label == "Pr Yr Cash Div"@ || label == "Pr Yr Cash Div Adj"@ || label
        == "Bank Interest"@ || label == "Credit Interest"@ || label == "Funds Paid"@ {
        SchwabRule::Cash
    } else if label == "Spin-off"@ {
        SchwabRule::SpinOff
    } else if label == "Stock Split"@ {
        SchwabRule::StockSplit
    } else if label == "Journaled Shares"@ {
        SchwabRule::JournaledShares
    } else if label == "Name Change"@ {
        SchwabRule::NameChange
    } else {
        SchwabRule::Unrecognized
    }
}

fn rule_of(label: &Vec<char>) -> (r: SchwabRule)
    ensures
        r == schwab_rule(label@),
{
    if same_text(label, "Sell to Open") {
        SchwabRule::ShortSell
    } else if same_text(label, "Buy to Close") {
        SchwabRule::CoverShort
    } else if same_text(label, "Buy") || same_text(label, "Buy to Open") {
        SchwabRule::Buy
    } else if same_text(label, "Sell") || same_text(label, "Sell to Close") {
        SchwabRule::Sell
    } else if same_text(label, "Expired") {
        SchwabRule::Expired
    } else if same_text(label, "Margin Interest") {
        SchwabRule::MarginInterest
    } else if same_text(label, "Pr Yr Special Div") || same_text(label, "Cash Dividend")
        || same_text(label, "Qualified Dividend") {
        SchwabRule::Dividend
    } else if same_text(label, "Short Term Cap Gain") {
        SchwabRule::CapGainShort
    } else if same_text(label, "Long Term Cap Gain") {
        SchwabRule::CapGainLong
    } else if same_text(label, "Foreign Tax Paid") || same_text(label, "ADR Mgmt Fee")
        || same_text(label, "Cash In Lieu") || same_text(label, "MoneyLink Deposit")
        || same_text(label, "Wire Funds") || same_text(label, "Misc Cash Entry")
        || same_text(label, "Service Fee") || same_text(label, "Journal")
        || same_text(label, "MoneyLink Transfer") || same_text(label, "Pr Yr Cash Div")
        || same_text(label, "Pr Yr Cash Div Adj") || same_text(label, "Bank Interest")
        || same_text(label, "Credit Interest") || same_text(label, "Funds Paid") {
        SchwabRule::Cash
    } else if same_text(label, "Spin-off") {
        SchwabRule::SpinOff
    } else if same_text(label, "Stock Split") {
        SchwabRule::StockSplit
    } else if same_text(label, "Journaled Shares") {
        SchwabRule::JournaledShares
    } else if same_text(label, "Name Change") {
        SchwabRule::NameChange
    } else {
        SchwabRule::Unrecognized
    }
}

/// A date field that reads `MM/DD/YYYY as of MM/DD/YYYY`.
pub open spec fn is_as_of_date(t: Seq<char>) -> bool {
    &&& t.len() == 27
    &&& long_date_at(t, 0)
    &&& t.subrange(10, 17) == " as of "@
    &&& long_date_at(t, 17)
}

/// The date of a row given two reads of its date field: `first`, the whole field
/// read as `%m/%d/%Y`, and `as_of`, the second date of a `... as of ...` field read
/// the same way. The first read counts where it succeeded; else the second, where
/// the field has the `as of` shape.
pub open spec fn row_date_given(t: Seq<char>, first: Option<LedgerDate>, as_of: Option<LedgerDate>) -> Option<
    LedgerDate,
> {
    match first {
        Some(d) => Some(d),
        None => if is_as_of_date(t) {
            as_of
        } else {
            None
        },
    }
}

/// The date of a row, read with chrono.
pub open spec fn row_date(t: Seq<char>) -> Option<LedgerDate> {
    row_date_given(
        t,
        date_of_triple(parsed_date(t, "%m/%d/%Y"@)),
        date_of_triple(parsed_date(t.subrange(17, 27), "%m/%d/%Y"@)),
    )
}

fn as_of_shape(v: &Vec<char>) -> (r: bool)
    ensures
        r == is_as_of_date(v@),
{
    if v.len() != 27 {
        return false;
    }
    let gap = sub_vec(v, 10, 17);
    crate::option_symbol::long_date(v, 0) && same_text(&gap, " as of ")
        && crate::option_symbol::long_date(v, 17)
}

/// Picks a row's date from the two reads of its date field; see `row_date_given`.
pub fn date_from_reads(text: &str, first: Option<LedgerDate>, as_of: Option<LedgerDate>) -> (r: Option<
    LedgerDate,
>)
    ensures
        r == row_date_given(text@, first, as_of),
{
    if first.is_some() {
        return first;
    }
    let v = chars_of(text);
    if as_of_shape(&v) {
        as_of
    } else {
        None
    }
}

/// Reads a row's date field.
fn row_date_exec(text: &String) -> (r: Option<LedgerDate>)
    ensures
        r == row_date(text@),
{
    let first = parse_date(text.as_str(), "%m/%d/%Y");
    let v = chars_of(text.as_str());
    let as_of = if as_of_shape(&v) {
        let second = string_of(&v, 17, 27);
        parse_date(second.as_str(), "%m/%d/%Y")
    } else {
        None
    };
    proof {
        assert(first == date_of_triple(parsed_date(text@, "%m/%d/%Y"@)));
        if is_as_of_date(text@) {
            assert(as_of == date_of_triple(parsed_date(text@.subrange(17, 27), "%m/%d/%Y"@)));
        }
    }
    date_from_reads(text.as_str(), first, as_of)
}

/// The symbol, display name and type of a row's security, or the reason a symbol
/// that reads as an option was rejected.
pub open spec fn details_of(symbol: Seq<char>, description: Seq<char>) -> Result<
    (Seq<char>, Seq<char>, SecurityType),
    OptionMismatch,
> {
    match option_outcome_of(symbol, description) {
        OptionOutcome::NotOption => Ok((symbol, description, SecurityType::Stock)),
        OptionOutcome::Encoded(s, n) => Ok((s, n, SecurityType::Option)),
        OptionOutcome::Mismatch(m) => Err(m),
    }
}

/// A symbol that does not read as an option passes through unchanged, as a stock,
/// whatever its description.
pub proof fn lemma_non_option_passes_through(symbol: Seq<char>, description: Seq<char>)
    requires
        !is_option_symbol(symbol),
    ensures
        details_of(symbol, description) == Ok::<(Seq<char>, Seq<char>, SecurityType), OptionMismatch>(
            (symbol, description, SecurityType::Stock),
        ),
{
}

/// Re-encoding is stable: an option's canonical symbol and display name, given to
/// the codec again, come back unchanged.
pub proof fn lemma_reencoding_is_stable(symbol: Seq<char>, description: Seq<char>)
    requires
        details_of(symbol, description) matches Ok((_, _, t)) && t == SecurityType::Option,
    ensures
        details_of(symbol, description) matches Ok((c, n, _)) && details_of(c, n) == Ok::<
            (Seq<char>, Seq<char>, SecurityType),
            OptionMismatch,
        >((c, n, SecurityType::Stock)),
{
    let de = date_of_triple(parsed_date(description_date(description), "%m/%d/%y"@));
    lemma_canonical_symbol_is_stable(symbol, de->0);
}

/// Why a row could not be converted.
pub enum RowFailure {
    Option(OptionMismatch),
    Date,
    Quantity,
    ExpiredNonOption,
    Unsupported,
}

/// What a row becomes: the actions it emits, the registry after it, and the
/// notice it raises.
pub enum RowOutcome {
    Failed(RowFailure),
    Converted(Seq<ActionView>, Map<Seq<char>, (Seq<char>, SecurityType, bool)>, Option<SchwabRule>),
}

/// `s` followed by two zeros: option contracts counted in shares.
pub open spec fn in_shares(s: Seq<char>) -> Seq<char> {
    s + seq!['0', '0']
}

/// A quantity with its sign flipped.
pub open spec fn negated(q: Seq<char>) -> Seq<char> {
    if q.len() > 0 && q[0] == '-' {
        q.drop_first()
    } else {
        seq!['-'] + q
    }
}

/// The trade of a priced row: currency signs dropped, option quantities in shares,
/// the amount without its minus sign.
pub open spec fn trade_of(
    row: SchwabRowView,
    details: (Seq<char>, Seq<char>, SecurityType),
    date: LedgerDate,
) -> TradeView {
    TradeView {
        date: date,
        symbol: details.0,
        price: without_char(row.price, '$'),
        quantity: if details.2 == SecurityType::Option {
            in_shares(row.quantity)
        } else {
            row.quantity
        },
        amount: without_leading(without_char(row.amount, '$'), '-'),
        fees: without_char(row.fees, '$'),
    }
}

/// The trade that closes an expired option: the quantity negated and in shares,
/// no price, amount or fees.
pub open spec fn expiry_of(
    row: SchwabRowView,
    details: (Seq<char>, Seq<char>, SecurityType),
    date: LedgerDate,
) -> TradeView {
    TradeView {
        date: date,
        symbol: details.0,
        price: Seq::empty(),
        quantity: in_shares(negated(row.quantity)),
        amount: Seq::empty(),
        fees: Seq::empty(),
    }
}

/// The cash movement of a row: payee and memo from its description.
pub open spec fn cash_of(row: SchwabRowView, date: LedgerDate) -> ActionView {
    ActionView::Generic {
        date: date,
        payee: row.description,
        memo: Some(row.description),
        category: None,
        amount: without_char(row.amount, '$'),
    }
}

/// What one row becomes, given the registry before it.
#[verifier::opaque]
pub open spec fn schwab_outcome(
    row: SchwabRowView,
    reg: Map<Seq<char>, (Seq<char>, SecurityType, bool)>,
) -> RowOutcome {
    let rule = schwab_rule(row.action);
    let amount = without_char(row.amount, '$');
    let details = details_of(row.symbol, row.description);
    let date = row_date(row.date);
    match rule {
        SchwabRule::ShortSell | SchwabRule::CoverShort | SchwabRule::Buy | SchwabRule::Sell
        | SchwabRule::Expired | SchwabRule::Dividend | SchwabRule::CapGainShort
        | SchwabRule::CapGainLong | SchwabRule::SpinOff => match details {
            Err(m) => RowOutcome::Failed(RowFailure::Option(m)),
            Ok(d) => {
                let reg2 = entered(reg, d.0, d.1, d.2);
                if rule == SchwabRule::Expired && d.2 != SecurityType::Option {
                    RowOutcome::Failed(RowFailure::ExpiredNonOption)
                } else if rule == SchwabRule::SpinOff && i32_value(row.quantity) is None {
                    RowOutcome::Failed(RowFailure::Quantity)
                } else {
                    match date {
                        None => RowOutcome::Failed(RowFailure::Date),
                        Some(dt) => {
                            let action = match rule {
                                SchwabRule::ShortSell => ActionView::ShtSell(trade_of(row, d, dt)),
                                SchwabRule::CoverShort => ActionView::CvrShrt(trade_of(row, d, dt)),
                                SchwabRule::Buy => ActionView::Buy(trade_of(row, d, dt)),
                                SchwabRule::Sell => ActionView::Sell(trade_of(row, d, dt)),
                                SchwabRule::Expired => ActionView::Sell(expiry_of(row, d, dt)),
                                SchwabRule::Dividend => ActionView::Div {
                                    date: dt,
                                    symbol: d.0,
                                    amount: amount,
                                },
                                SchwabRule::CapGainShort => ActionView::CGShort {
                                    date: dt,
                                    symbol: d.0,
                                    amount: amount,
                                },
                                SchwabRule::CapGainLong => ActionView::CGLong {
                                    date: dt,
                                    symbol: d.0,
                                    amount: amount,
                                },
                                _ => ActionView::ShrsIn {
                                    date: dt,
                                    symbol: d.0,
                                    quantity: i32_value(row.quantity)->0,
                                },
                            };
                            RowOutcome::Converted(seq![action], reg2, None)
                        },
                    }
                }
            },
        },
        SchwabRule::MarginInterest => match date {
            None => RowOutcome::Failed(RowFailure::Date),
            Some(dt) => RowOutcome::Converted(
                seq![
                    ActionView::MargInt {
                        date: dt,
                        memo: row.description,
                        amount: without_leading(amount, '-'),
                    },
                ],
                reg,
                None,
            ),
        },
        SchwabRule::Cash => match date {
            None => RowOutcome::Failed(RowFailure::Date),
            Some(dt) => RowOutcome::Converted(seq![cash_of(row, dt)], reg, None),
        },
        SchwabRule::StockSplit | SchwabRule::JournaledShares | SchwabRule::NameChange => {
            RowOutcome::Converted(Seq::empty(), reg, Some(rule))
        },
        SchwabRule::Unrecognized => {
            if row.quantity.len() == 0 && without_char(row.price, '$').len() == 0 && without_char(
                row.fees,
                '$',
            ).len() == 0 {
                match date {
                    None => RowOutcome::Failed(RowFailure::Date),
                    Some(dt) => RowOutcome::Converted(seq![cash_of(row, dt)], reg, Some(rule)),
                }
            } else {
                RowOutcome::Failed(RowFailure::Unsupported)
            }
        },
    }
}

/// The error that stands for a row failure.
pub open spec fn failure_error(e: QifError, f: RowFailure, row: SchwabRowView) -> bool {
    match f {
        RowFailure::Option(m) => e matches QifError::OptionCrossValidation {
            mismatch,
            symbol,
            description,
        } && mismatch == m && symbol@ == row.symbol && description@ == row.description,
        RowFailure::Date => e matches QifError::BadDate(t) && t@ == row.date,
        RowFailure::Quantity => e matches QifError::BadQuantity(t) && t@ == row.quantity,
        RowFailure::ExpiredNonOption => e matches QifError::ExpiredNonOption(t) && t@ == row.symbol,
        RowFailure::Unsupported => e matches QifError::UnsupportedActionLabel(t) && t@ == row.action,
    }
}

/// The notice that a rule raises for a row.
pub open spec fn rule_notice(rule: SchwabRule, row: SchwabRowView) -> NoticeView {
    match rule {
        SchwabRule::StockSplit => NoticeView::SplitNotHandled(row),
        SchwabRule::JournaledShares => NoticeView::JournaledSharesNotHandled(row),
        SchwabRule::NameChange => NoticeView::NameChangeNotHandled(row),
        _ => NoticeView::EnteredAsCash(row.action),
    }
}

/// The notices a row raises: none, or the one its rule raises.
pub open spec fn row_notices(note: Option<SchwabRule>, row: SchwabRowView) -> Seq<NoticeView> {
    match note {
        None => Seq::empty(),
        Some(rule) => seq![rule_notice(rule, row)],
    }
}

/// The views of a symbol, name and type.
pub open spec fn details_view(d: (String, String, SecurityType)) -> (Seq<char>, Seq<char>, SecurityType) {
    (d.0@, d.1@, d.2)
}

impl SchwabTransaction {
    /// The symbol, display name and type of this row's security: an option's
    /// canonical symbol and display name where the symbol reads as an option, else
    /// the symbol and description as they are, as a stock.
    pub fn security_details(&self) -> (r: Result<(String, String, SecurityType), QifError>)
        ensures
            match details_of(self.symbol@, self.description@) {
                Ok(d) => r matches Ok(x) && details_view(x) == d,
                Err(m) => r matches Err(e) && failure_error(e, RowFailure::Option(m), self@),
            },
    {
        match option_details(self.symbol.as_str(), self.description.as_str()) {
            Ok(Some((symbol, name))) => Ok((symbol, name, SecurityType::Option)),
            Ok(None) => Ok((self.symbol.clone(), self.description.clone(), SecurityType::Stock)),
            Err(mismatch) => Err(
                QifError::OptionCrossValidation {
                    mismatch,
                    symbol: self.symbol.clone(),
                    description: self.description.clone(),
                },
            ),
        }
    }

    /// The date of this row.
    pub fn get_date(&self) -> (r: Result<LedgerDate, QifError>)
        ensures
            match row_date(self.date@) {
                Some(d) => r == Ok::<LedgerDate, QifError>(d),
                None => r matches Err(e) && failure_error(e, RowFailure::Date, self@),
            },
    {
        match row_date_exec(&self.date) {
            Some(d) => Ok(d),
            None => Err(QifError::BadDate(self.date.clone())),
        }
    }

    fn to_trade(&self, details: (String, String, SecurityType), date: LedgerDate) -> (t: Trade)
        ensures
            t@ == trade_of(self@, details_view(details), date),
    {
        let quantity = if details.2 == SecurityType::Option {
            let mut q = self.quantity.clone();
            push_str(&mut q, "00");
            proof {
                reveal_strlit("00");
                assert("00"@ =~= seq!['0', '0']);
            }
            q
        } else {
            self.quantity.clone()
        };
        let amount = trim_start_char(&remove_char(&self.amount, '$'), '-');
        Trade {
            date,
            symbol: details.0,
            price: remove_char(&self.price, '$'),
            quantity,
            amount,
            fees: remove_char(&self.fees, '$'),
        }
    }

    fn to_expired_transaction(&self, details: (String, String, SecurityType), date: LedgerDate) -> (t: Trade)
        ensures
            t@ == expiry_of(self@, details_view(details), date),
    {
        let v = chars_of(self.quantity.as_str());
        let mut q = String::new();
        if v.len() > 0 && v[0] == '-' {
            let rest = string_of(&v, 1, v.len());
            push_str(&mut q, rest.as_str());
            proof {
                assert(v@.subrange(1, v@.len() as int) == v@.drop_first());
            }
        } else {
            push_str(&mut q, "-");
            push_str(&mut q, self.quantity.as_str());
            proof {
                reveal_strlit("-");
                assert(q@ =~= seq!['-'] + self.quantity@);
            }
        }
        push_str(&mut q, "00");
        proof {
            reveal_strlit("00");
            assert(q@ =~= in_shares(negated(self.quantity@)));
        }
        Trade {
            date,
            symbol: details.0,
            price: String::new(),
            quantity: q,
            amount: String::new(),
            fees: String::new(),
        }
    }

    /// A row under a rule that names a security: the one action it emits, with the
    /// security registered.
    fn security_action(&self, rule: SchwabRule, symbols: &mut Symbols) -> (r: Result<QifAction, QifError>)
        requires
            old(symbols).wf(),
            rule == schwab_rule(self.action@),
            rule == SchwabRule::ShortSell || rule == SchwabRule::CoverShort || rule == SchwabRule::Buy
                || rule == SchwabRule::Sell || rule == SchwabRule::Expired || rule == SchwabRule::Dividend
                || rule == SchwabRule::CapGainShort || rule == SchwabRule::CapGainLong || rule
                == SchwabRule::SpinOff,
        ensures
            final(symbols).wf(),
            match schwab_outcome(self@, old(symbols)@) {
                RowOutcome::Failed(f) => r matches Err(e) && failure_error(e, f, self@)
                    && final(symbols)@ == old(symbols)@,
                RowOutcome::Converted(acts, reg2, _) => r matches Ok(a) && acts == seq![a@]
                    && final(symbols)@ == reg2,
            },
    {
        reveal(schwab_outcome);
        let details = match self.security_details() {
            Ok(d) => d,
            Err(e) => return Err(e),
        };
        if rule == SchwabRule::Expired && details.2 != SecurityType::Option {
            return Err(QifError::ExpiredNonOption(self.symbol.clone()));
        }
        let mut quantity: i32 = 0;
        if rule == SchwabRule::SpinOff {
            match parse_i32(&self.quantity) {
                Some(q) => {
                    quantity = q;
                },
                None => return Err(QifError::BadQuantity(self.quantity.clone())),
            }
        }
        let date = match self.get_date() {
            Ok(d) => d,
            Err(e) => return Err(e),
        };
        let _ = symbols.enter_if_not_found(details.0.as_str(), details.1.as_str(), &details.2);
        let action = match rule {
            SchwabRule::ShortSell => QifAction::ShtSell { trade: self.to_trade(details, date) },
            SchwabRule::CoverShort => QifAction::CvrShrt { trade: self.to_trade(details, date) },
            SchwabRule::Buy => QifAction::Buy { trade: self.to_trade(details, date) },
            SchwabRule::Sell => QifAction::Sell { trade: self.to_trade(details, date) },
            SchwabRule::Expired => QifAction::Sell { trade: self.to_expired_transaction(details, date) },
            SchwabRule::Dividend => QifAction::Div {
                date,
                symbol: details.0,
                amount: remove_char(&self.amount, '$'),
            },
            SchwabRule::CapGainShort => QifAction::CGShort {
                date,
                symbol: details.0,
                amount: remove_char(&self.amount, '$'),
            },
            SchwabRule::CapGainLong => QifAction::CGLong {
                date,
                symbol: details.0,
                amount: remove_char(&self.amount, '$'),
            },
            _ => QifAction::ShrsIn { date, symbol: details.0, quantity },
        };
        Ok(action)
    }

    /// The ledger actions of this row, in the order they happen. Rows of rules that
    /// cannot be converted (splits, share journals, name changes) emit nothing and
    /// raise a notice; a row without a rule becomes a cash movement when it has no
    /// price, quantity or fees, and is an error otherwise.
    pub fn to_qif_action(
        &self,
        opt_symbols: &mut Option<Symbols>,
        notices: &mut Vec<Notice>,
    ) -> (r: Result<Vec<QifAction>, QifError>)
        requires
            *old(opt_symbols) matches Some(s) ==> s.wf(),
        ensures
            *final(opt_symbols) matches Some(s) ==> s.wf(),
            match *old(opt_symbols) {
                None => r matches Err(QifError::MissingSecurities) && *final(opt_symbols) is None
                    && final(notices)@ == old(notices)@,
                Some(reg) => match schwab_outcome(self@, reg@) {
                    RowOutcome::Failed(f) => {
                        &&& r matches Err(e) && failure_error(e, f, self@)
                        &&& *final(opt_symbols) matches Some(s) && s@ == reg@
                        &&& final(notices)@ == old(notices)@
                    },
                    RowOutcome::Converted(acts, reg2, note) => {
                        &&& r matches Ok(v) && actions_view(v@) == acts
                        &&& *final(opt_symbols) matches Some(s) && s@ == reg2
                        &&& notices_view(final(notices)@) == notices_view(old(notices)@)
                            + row_notices(note, self@)
                    },
                },
            },
    {
        reveal(schwab_outcome);
        let symbols = match opt_symbols {
            Some(s) => s,
            None => return Err(QifError::MissingSecurities),
        };
        let label = chars_of(self.action.as_str());
        let rule = rule_of(&label);
        let mut res: Vec<QifAction> = Vec::new();
        match rule {
            SchwabRule::MarginInterest => {
                let date = match self.get_date() {
                    Ok(d) => d,
                    Err(e) => return Err(e),
                };
                res.push(
                    QifAction::MargInt {
                        date,
                        memo: self.description.clone(),
                        amount: trim_start_char(&remove_char(&self.amount, '$'), '-'),
                    },
                );
                assert(actions_view(res@) =~= seq![res@[0]@]);
            },
            SchwabRule::Cash => {
                let date = match self.get_date() {
                    Ok(d) => d,
                    Err(e) => return Err(e),
                };
                res.push(self.cash_action(date));
                assert(actions_view(res@) =~= seq![res@[0]@]);
            },
            SchwabRule::StockSplit => {
                notices.push(Notice::SplitNotHandled(self.copy()));
                assert(notices_view(notices@) =~= notices_view(old(notices)@).push(notices@.last()@));
            },
            SchwabRule::JournaledShares => {
                notices.push(Notice::JournaledSharesNotHandled(self.copy()));
                assert(notices_view(notices@) =~= notices_view(old(notices)@).push(notices@.last()@));
            },
            SchwabRule::NameChange => {
                notices.push(Notice::NameChangeNotHandled(self.copy()));
                assert(notices_view(notices@) =~= notices_view(old(notices)@).push(notices@.last()@));
            },
            SchwabRule::Unrecognized => {
                let price = remove_char(&self.price, '$');
                let fees = remove_char(&self.fees, '$');
                if chars_of(self.quantity.as_str()).len() == 0 && chars_of(price.as_str()).len() == 0
                    && chars_of(fees.as_str()).len() == 0 {
                    let date = match self.get_date() {
                        Ok(d) => d,
                        Err(e) => return Err(e),
                    };
                    res.push(self.cash_action(date));
                    assert(actions_view(res@) =~= seq![res@[0]@]);
                    notices.push(Notice::EnteredAsCash(self.action.clone()));
                    assert(notices_view(notices@) =~= notices_view(old(notices)@).push(notices@.last()@));
                } else {
                    return Err(QifError::UnsupportedActionLabel(self.action.clone()));
                }
            },
            _ => {
                match self.security_action(rule, symbols) {
                    Ok(a) => res.push(a),
                    Err(e) => return Err(e),
                }
                assert(actions_view(res@) =~= seq![res@[0]@]);
            },
        }
        proof {
            if res@.len() == 0 {
                assert(actions_view(res@) =~= Seq::<ActionView>::empty());
            }
            if notices@ == old(notices)@ {
                assert(notices_view(notices@) + Seq::<NoticeView>::empty() =~= notices_view(notices@));
            }
        }
        Ok(res)
    }

    fn cash_action(&self, date: LedgerDate) -> (a: QifAction)
        ensures
            a@ == cash_of(self@, date),
    {
        QifAction::Generic {
            date,
            payee: self.description.clone(),
            memo: Some(self.description.clone()),
            category: None,
            amount: remove_char(&self.amount, '$'),
        }
    }

    /// A copy of this row.
    pub fn copy(&self) -> (r: SchwabTransaction)
        ensures
            r@ == self@,
    {
        SchwabTransaction {
            date: self.date.clone(),
            action: self.action.clone(),
            symbol: self.symbol.clone(),
            description: self.description.clone(),
            quantity: self.quantity.clone(),
            price: self.price.clone(),
            fees: self.fees.clone(),
            amount: self.amount.clone(),
        }
    }
}

/// How a run over several rows ends.
pub enum RunOutcome {
    /// The first row that could not be converted, and why.
    Failed(RowFailure, SchwabRowView),
    /// The actions of all rows in order, the registry after them, and the notices
    /// they raised in order.
    Done(Seq<ActionView>, Map<Seq<char>, (Seq<char>, SecurityType, bool)>, Seq<NoticeView>),
}

/// `acts` and `notes` placed before the actions and notices of a run.
pub open spec fn prepend(acts: Seq<ActionView>, notes: Seq<NoticeView>, run: RunOutcome) -> RunOutcome {
    match run {
        RunOutcome::Failed(f, row) => RunOutcome::Failed(f, row),
        RunOutcome::Done(b, reg, n) => RunOutcome::Done(acts + b, reg, notes + n),
    }
}

/// Converting rows in the given order, threading the registry from row to row.
pub open spec fn schwab_run(
    rows: Seq<SchwabRowView>,
    reg: Map<Seq<char>, (Seq<char>, SecurityType, bool)>,
) -> RunOutcome
    decreases rows.len(),
{
    if rows.len() == 0 {
        RunOutcome::Done(Seq::empty(), reg, Seq::empty())
    } else {
        match schwab_outcome(rows[0], reg) {
            RowOutcome::Failed(f) => RunOutcome::Failed(f, rows[0]),
            RowOutcome::Converted(acts, reg2, note) => prepend(
                acts,
                row_notices(note, rows[0]),
                schwab_run(rows.drop_first(), reg2),
            ),
        }
    }
}

proof fn lemma_prepend_twice(
    a: Seq<ActionView>,
    na: Seq<NoticeView>,
    b: Seq<ActionView>,
    nb: Seq<NoticeView>,
    run: RunOutcome,
)
    ensures
        prepend(a, na, prepend(b, nb, run)) == prepend(a + b, na + nb, run),
{
    if let RunOutcome::Done(c, reg, nc) = run {
        assert(a + (b + c) =~= (a + b) + c);
        assert(na + (nb + nc) =~= (na + nb) + nc);
    }
}

pub open spec fn schwab_rows_view(rows: Seq<SchwabTransaction>) -> Seq<SchwabRowView> {
    rows.map_values(|r: SchwabTransaction| r@)
}

/// Rows arrive newest first; the oldest row's actions come first and the rest
/// follow in order, each row seeing the registry that the older rows left.
pub proof fn lemma_oldest_row_first(
    rows: Seq<SchwabRowView>,
    reg: Map<Seq<char>, (Seq<char>, SecurityType, bool)>,
)
    requires
        rows.len() > 0,
    ensures
        schwab_run(rows.reverse(), reg) == match schwab_outcome(rows.last(), reg) {
            RowOutcome::Failed(f) => RunOutcome::Failed(f, rows.last()),
            RowOutcome::Converted(acts, reg2, note) => prepend(
                acts,
                row_notices(note, rows.last()),
                schwab_run(rows.drop_last().reverse(), reg2),
            ),
        },
{
    assert(rows.reverse()[0] == rows.last());
    assert(rows.reverse().drop_first() =~= rows.drop_last().reverse());
}

/// The column names of a Schwab export, in the order of `SchwabTransaction`'s fields.
pub open spec fn schwab_column_names() -> Seq<Seq<char>> {
    seq![
        "Date"@,
        "Action"@,
        "Symbol"@,
        "Description"@,
        "Quantity"@,
        "Price"@,
        "Fees & Comm"@,
        "Amount"@,
    ]
}

fn schwab_columns() -> (r: Vec<String>)
    ensures
        names_view(r@) == schwab_column_names(),
{
    let mut r: Vec<String> = Vec::new();
    r.push("Date".to_owned());
    r.push("Action".to_owned());
    r.push("Symbol".to_owned());
    r.push("Description".to_owned());
    r.push("Quantity".to_owned());
    r.push("Price".to_owned());
    r.push("Fees & Comm".to_owned());
    r.push("Amount".to_owned());
    assert(names_view(r@) =~= schwab_column_names());
    r
}

/// A decoded row from its fields in the order of `schwab_column_names`, with the
/// currency signs removed from price, fees and amount.
pub open spec fn schwab_row_of(f: Seq<Seq<char>>) -> SchwabRowView {
    SchwabRowView {
        date: f[0],
        action: f[1],
        symbol: f[2],
        description: f[3],
        quantity: f[4],
        price: without_char(f[5], '$'),
        fees: without_char(f[6], '$'),
        amount: without_char(f[7], '$'),
    }
}

/// Reads the rows of a Schwab export that starts at its header line; see
/// `decode_rows` for the footer rule. Currency signs are removed from each row's
/// price, fees and amount.
pub fn read_transactions_csv(input: &[u8]) -> (r: Result<Vec<SchwabTransaction>, QifError>)
    ensures
        match decoded_rows(csv_records(input@), schwab_column_names()) {
            None => r matches Err(QifError::RowResumedAfterFooter),
            Some(rows) => r matches Ok(v) && schwab_rows_view(v@) == rows.map_values(
                |f: Seq<Seq<char>>| schwab_row_of(f),
            ),
        },
{
    let records = read_records(input);
    let names = schwab_columns();
    let rows = match decode_rows(&records, &names) {
        Ok(rows) => rows,
        Err(e) => return Err(e),
    };
    let ghost want = rows_view(rows@);
    proof {
        let rs = decoded_rows(records_view(records@), names_view(names@))->0;
        assert(want == rs);
        assert forall|j: int| 0 <= j < rows@.len() implies (#[trigger] rows@[j])@.len() == 8 by {
            assert(want[j] == fields_view(rows@[j]));
            assert(rs[j].len() == names_view(names@).len());
        }
    }
    let mut out: Vec<SchwabTransaction> = Vec::new();
    let mut i: usize = 0;
    while i < rows.len()
        invariant
            i <= rows@.len(),
            want == rows_view(rows@),
            forall|j: int| 0 <= j < rows@.len() ==> (#[trigger] rows@[j])@.len() == 8,
            out@.len() == i,
            forall|j: int| 0 <= j < i ==> (#[trigger] out@[j])@ == schwab_row_of(want[j]),
        decreases rows.len() - i,
    {
        let f = &rows[i];
        proof {
            assert(want[i as int] == fields_view(rows@[i as int]));
        }
        out.push(
            SchwabTransaction {
                date: f[0].clone(),
                action: f[1].clone(),
                symbol: f[2].clone(),
                description: f[3].clone(),
                quantity: f[4].clone(),
                price: remove_char(&f[5], '$'),
                fees: remove_char(&f[6], '$'),
                amount: remove_char(&f[7], '$'),
            },
        );
        proof {
            assert(out@[i as int]@ =~= schwab_row_of(want[i as int]));
        }
        i = i + 1;
    }
    proof {
        assert(schwab_rows_view(out@) =~= want.map_values(|f: Seq<Seq<char>>| schwab_row_of(f)));
    }
    Ok(out)
}

impl SchwabTransaction {
    /// Converts the rows of an export, given newest first, into the ledger's
    /// actions, oldest first.
    pub fn to_transactions(
        rows: &Vec<SchwabTransaction>,
        symbols: &mut Option<Symbols>,
        notices: &mut Vec<Notice>,
    ) -> (r: Result<Vec<QifAction>, QifError>)
        requires
            *old(symbols) matches Some(s) ==> s.wf(),
        ensures
            *final(symbols) matches Some(s) ==> s.wf(),
            match *old(symbols) {
                None => *final(symbols) is None && final(notices)@ == old(notices)@ && if rows@.len() == 0 {
                    r matches Ok(v) && v@.len() == 0
                } else {
                    r matches Err(QifError::MissingSecurities)
                },
                Some(reg) => match schwab_run(schwab_rows_view(rows@).reverse(), reg@) {
                    RunOutcome::Failed(f, row) => {
                        &&& r matches Err(e) && failure_error(e, f, row)
                        &&& notices_view(old(notices)@).is_prefix_of(notices_view(final(notices)@))
                    },
                    RunOutcome::Done(acts, reg2, notes) => {
                        &&& r matches Ok(v) && actions_view(v@) == acts
                        &&& *final(symbols) matches Some(s) && s@ == reg2
                        &&& notices_view(final(notices)@) == notices_view(old(notices)@) + notes
                    },
                },
            },
    {
        let ghost rv = schwab_rows_view(rows@);
        let ghost reg0 = symbols->0@;
        let ghost had = symbols.is_some();
        let ghost base = notices_view(notices@);
        let ghost mut produced: Seq<NoticeView> = Seq::empty();
        let mut out: Vec<QifAction> = Vec::new();
        let mut i: usize = rows.len();
        proof {
            assert(rv.subrange(0, rows@.len() as int) =~= rv);
            assert(actions_view(out@) =~= Seq::<ActionView>::empty());
            assert(base + produced =~= base);
        }
        while i > 0
            invariant
                i <= rows@.len(),
                rv == schwab_rows_view(rows@),
                had == old(symbols).is_some(),
                had == symbols.is_some(),
                *symbols matches Some(s) ==> s.wf(),
                !had ==> i == rows@.len() && out@.len() == 0,
                had ==> reg0 == old(symbols)->0@,
                base == notices_view(old(notices)@),
                notices_view(notices@) == base + produced,
                !had ==> notices@ == old(notices)@,
                had ==> schwab_run(rv.reverse(), reg0) == prepend(
                    actions_view(out@),
                    produced,
                    schwab_run(rv.subrange(0, i as int).reverse(), symbols->0@),
                ),
            decreases i,
        {
            let ghost before = out@;
            let ghost reg_before = symbols->0@;
            let row_actions = match rows[i - 1].to_qif_action(symbols, notices) {
                Ok(a) => a,
                Err(e) => {
                    proof {
                        let part = rv.subrange(0, i as int).reverse();
                        assert(part[0] == rv[i - 1]);
                        assert(rv[i - 1] == rows@[i - 1]@);
                        assert(notices_view(notices@).subrange(0, base.len() as int) =~= base);
                    }
                    return Err(e);
                },
            };
            let ghost added = row_actions@;
            let mut row_actions = row_actions;
            out.append(&mut row_actions);
            proof {
                let part = rv.subrange(0, i as int).reverse();
                assert(part[0] == rv[i - 1]);
                assert(rv[i - 1] == rows@[i - 1]@);
                assert(part.drop_first() =~= rv.subrange(0, i - 1).reverse());
                assert(out@ == before + added);
                assert(actions_view(out@) =~= actions_view(before) + actions_view(added));
                if had {
                    let rest = schwab_run(rv.subrange(0, i - 1).reverse(), symbols->0@);
                    let rn = match schwab_outcome(rv[i - 1], reg_before) {
                        RowOutcome::Converted(_, _, note) => row_notices(note, rv[i - 1]),
                        RowOutcome::Failed(_) => Seq::empty(),
                    };
                    assert(notices_view(notices@) == (base + produced) + rn);
                    assert(notices_view(notices@) =~= base + (produced + rn));
                    assert(schwab_run(part, reg_before) == prepend(actions_view(added), rn, rest));
                    lemma_prepend_twice(actions_view(before), produced, actions_view(added), rn, rest);
                    produced = produced + rn;
                }
            }
            i = i - 1;
        }
        proof {
            if had {
                assert(rv.subrange(0, 0).reverse() =~= Seq::<SchwabRowView>::empty());
                assert(actions_view(out@) + Seq::<ActionView>::empty() =~= actions_view(out@));
                assert(produced + Seq::<NoticeView>::empty() =~= produced);
            }
        }
        Ok(out)
    }
}

} // verus!
