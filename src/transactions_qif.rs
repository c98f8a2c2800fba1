//! Ledger actions and their QIF records.
use vstd::prelude::*;

use crate::date::{push_qif_date, qif_date_text, LedgerDate};
use crate::error::QifError;
use crate::security::{type_token, SecurityType};
use crate::symbols::{entries_view, new_listing, Symbols};
use crate::text::{decimal_text, push_char, push_decimal, push_str};

verus! {

/// The normalised fields of a priced trade.
#[derive(Debug)]
pub struct Trade {
    pub date: LedgerDate,
    pub symbol: String,
    pub price: String,
    pub quantity: String,
    pub amount: String,
    pub fees: String,
}

/// A trade's fields as character sequences.
pub struct TradeView {
    pub date: LedgerDate,
    pub symbol: Seq<char>,
    pub price: Seq<char>,
    pub quantity: Seq<char>,
    pub amount: Seq<char>,
    pub fees: Seq<char>,
}

impl View for Trade {
    type V = TradeView;

    open spec fn view(&self) -> TradeView {
        TradeView {
            date: self.date,
            symbol: self.symbol@,
            price: self.price@,
            quantity: self.quantity@,
            amount: self.amount@,
            fees: self.fees@,
        }
    }
}

/// One ledger action.
#[derive(Debug)]
#[allow(inconsistent_fields)]
pub enum QifAction {
    ShtSell { trade: Trade },
    CvrShrt { trade: Trade },
    Buy { trade: Trade },
    Sell { trade: Trade },
    MargInt { date: LedgerDate, memo: String, amount: String },
    Div { date: LedgerDate, symbol: String, amount: String },
    CGLong { date: LedgerDate, symbol: String, amount: String },
    CGShort { date: LedgerDate, symbol: String, amount: String },
    ShrsIn { date: LedgerDate, symbol: String, quantity: i32 },
    /// A plain cash movement; the only action that may go to a linked cash account.
    Generic {
        date: LedgerDate,
        payee: String,
        memo: Option<String>,
        category: Option<String>,
        amount: String,
    },
}

/// A ledger action with its text fields as character sequences.
#[allow(inconsistent_fields)]
pub enum ActionView {
    ShtSell(TradeView),
    CvrShrt(TradeView),
    Buy(TradeView),
    Sell(TradeView),
    MargInt { date: LedgerDate, memo: Seq<char>, amount: Seq<char> },
    Div { date: LedgerDate, symbol: Seq<char>, amount: Seq<char> },
    CGLong { date: LedgerDate, symbol: Seq<char>, amount: Seq<char> },
    CGShort { date: LedgerDate, symbol: Seq<char>, amount: Seq<char> },
    ShrsIn { date: LedgerDate, symbol: Seq<char>, quantity: int },
    Generic {
        date: LedgerDate,
        payee: Seq<char>,
        memo: Option<Seq<char>>,
        category: Option<Seq<char>>,
        amount: Seq<char>,
    },
}

pub open spec fn opt_view(o: Option<String>) -> Option<Seq<char>> {
    match o {
        Some(s) => Some(s@),
        None => None,
    }
}

impl View for QifAction {
    type V = ActionView;

    open spec fn view(&self) -> ActionView {
        match self {
            QifAction::ShtSell { trade } => ActionView::ShtSell(trade@),
            QifAction::CvrShrt { trade } => ActionView::CvrShrt(trade@),
            QifAction::Buy { trade } => ActionView::Buy(trade@),
            QifAction::Sell { trade } => ActionView::Sell(trade@),
            QifAction::MargInt { date, memo, amount } => ActionView::MargInt {
                date: *date,
                memo: memo@,
                amount: amount@,
            },
            QifAction::Div { date, symbol, amount } => ActionView::Div {
                date: *date,
                symbol: symbol@,
                amount: amount@,
            },
            QifAction::CGLong { date, symbol, amount } => ActionView::CGLong {
                date: *date,
                symbol: symbol@,
                amount: amount@,
            },
            QifAction::CGShort { date, symbol, amount } => ActionView::CGShort {
                date: *date,
                symbol: symbol@,
                amount: amount@,
            },
            QifAction::ShrsIn { date, symbol, quantity } => ActionView::ShrsIn {
                date: *date,
                symbol: symbol@,
                quantity: *quantity as int,
            },
            QifAction::Generic { date, payee, memo, category, amount } => ActionView::Generic {
                date: *date,
                payee: payee@,
                memo: opt_view(*memo),
                category: opt_view(*category),
                amount: amount@,
            },
        }
    }
}

/// The views of a list of actions.
pub open spec fn actions_view(v: Seq<QifAction>) -> Seq<ActionView> {
    v.map_values(|a: QifAction| a@)
}

/// A registry's view: symbol to display name, type and whether it is new.
pub type Registry = Map<Seq<char>, (Seq<char>, SecurityType, bool)>;

/// A record line: the field letter, the value, a line break.
pub open spec fn field(tag: char, value: Seq<char>) -> Seq<char> {
    seq![tag] + value + seq!['\n']
}

/// The action-kind line, marked `X` where a linked account takes the cash side.
pub open spec fn kind_line(kind: Seq<char>, linked: Option<Seq<char>>) -> Seq<char> {
    seq!['N'] + kind + (if linked is Some {
        seq!['X']
    } else {
        Seq::empty()
    }) + seq!['\n']
}

/// The linked-account line, where there is a linked account.
pub open spec fn link_line(linked: Option<Seq<char>>) -> Seq<char> {
    match linked {
        Some(acct) => seq!['L', '['] + acct + seq![']', '\n'],
        None => Seq::empty(),
    }
}

pub open spec fn optional_field(tag: char, value: Option<Seq<char>>) -> Seq<char> {
    match value {
        Some(v) => field(tag, v),
        None => Seq::empty(),
    }
}

/// A whole number as `i32`'s `Display` writes it.
pub open spec fn i32_text(q: int) -> Seq<char> {
    if q < 0 {
        seq!['-'] + decimal_text((-q) as nat)
    } else {
        decimal_text(q as nat)
    }
}

pub open spec fn end_line() -> Seq<char> {
    seq!['^', '\n']
}

/// The record of a trade of the given kind, with the security's display name.
pub open spec fn trade_text(t: TradeView, kind: Seq<char>, linked: Option<Seq<char>>, name: Seq<char>) -> Seq<char> {
    field('D', qif_date_text(t.date)) + kind_line(kind, linked) + field('Y', name) + field('I', t.price)
        + field('Q', t.quantity) + field('U', t.amount) + field('T', t.amount) + field('M', name)
        + field('O', t.fees) + link_line(linked) + field('$', t.amount) + end_line()
}

/// The record of an income or expense of the given kind.
pub open spec fn income_text(
    date: LedgerDate,
    kind: Seq<char>,
    linked: Option<Seq<char>>,
    name: Option<Seq<char>>,
    memo: Seq<char>,
    amount: Seq<char>,
) -> Seq<char> {
    field('D', qif_date_text(date)) + kind_line(kind, linked) + optional_field('Y', name) + field(
        'U',
        amount,
    ) + field('T', amount) + field('M', memo) + link_line(linked) + field('$', amount) + end_line()
}

/// The security that an action names, if any.
pub open spec fn action_symbol(a: ActionView) -> Option<Seq<char>> {
    match a {
        ActionView::ShtSell(t) => Some(t.symbol),
        ActionView::CvrShrt(t) => Some(t.symbol),
        ActionView::Buy(t) => Some(t.symbol),
        ActionView::Sell(t) => Some(t.symbol),
        ActionView::Div { symbol, .. } => Some(symbol),
        ActionView::CGLong { symbol, .. } => Some(symbol),
        ActionView::CGShort { symbol, .. } => Some(symbol),
        ActionView::ShrsIn { symbol, .. } => Some(symbol),
        _ => None,
    }
}

/// The QIF record of an action, given the display name of the security it names.
pub open spec fn record_text(a: ActionView, linked: Option<Seq<char>>, name: Seq<char>) -> Seq<char> {
    match a {
        ActionView::ShtSell(t) => trade_text(t, "ShtSell"@, linked, name),
        ActionView::CvrShrt(t) => trade_text(t, "CvrShrt"@, linked, name),
        ActionView::Buy(t) => trade_text(t, "Buy"@, linked, name),
        ActionView::Sell(t) => trade_text(t, "Sell"@, linked, name),
        ActionView::MargInt { date, memo, amount } => income_text(
            date,
            "MargInt"@,
            linked,
            None,
            memo,
            amount,
        ),
        ActionView::Div { date, amount, .. } => income_text(
            date,
            "Div"@,
            linked,
            Some(name),
            name,
            amount,
        ),
        ActionView::CGLong { date, amount, .. } => income_text(
            date,
            "CGLong"@,
            linked,
            Some(name),
            name,
            amount,
        ),
        ActionView::CGShort { date, amount, .. } => income_text(
            date,
            "CGShort"@,
            linked,
            Some(name),
            name,
            amount,
        ),
        ActionView::ShrsIn { date, quantity, .. } => field('D', qif_date_text(date)) + field(
            'N',
            "ShrsIn"@,
        ) + field('Y', name) + field('Q', i32_text(quantity)) + field('M', name) + end_line(),
        ActionView::Generic { date, payee, memo, category, amount } => field(
            'D',
            qif_date_text(date),
        ) + field('U', amount) + field('T', amount) + field('P', payee) + optional_field('M', memo)
            + optional_field('L', category) + end_line(),
    }
}

/// The record of an action under a registry: `None` where it names a security
/// the registry does not hold.
pub open spec fn action_record(a: ActionView, linked: Option<Seq<char>>, reg: Registry) -> Option<Seq<char>> {
    match action_symbol(a) {
        Some(k) => if reg.contains_key(k) {
            Some(record_text(a, linked, reg[k].0))
        } else {
            None
        },
        None => Some(record_text(a, linked, Seq::empty())),
    }
}

/// Appends `tag`, `value` and a line break.
fn push_field(out: &mut String, tag: char, value: &str)
    ensures
        final(out)@ == old(out)@ + field(tag, value@),
{
    push_char(out, tag);
    push_str(out, value);
    push_char(out, '\n');
    assert(out@ =~= old(out)@ + field(tag, value@));
}

fn push_date_field(out: &mut String, date: LedgerDate)
    ensures
        final(out)@ == old(out)@ + field('D', qif_date_text(date)),
{
    push_char(out, 'D');
    push_qif_date(out, date);
    push_char(out, '\n');
    assert(out@ =~= old(out)@ + field('D', qif_date_text(date)));
}

fn push_kind_line(out: &mut String, kind: &str, linked_account: &Option<String>)
    ensures
        final(out)@ == old(out)@ + kind_line(kind@, opt_view(*linked_account)),
{
    push_char(out, 'N');
    push_str(out, kind);
    if linked_account.is_some() {
        push_char(out, 'X');
    }
    push_char(out, '\n');
    assert(out@ =~= old(out)@ + kind_line(kind@, opt_view(*linked_account)));
}

fn push_link_line(out: &mut String, linked_account: &Option<String>)
    ensures
        final(out)@ == old(out)@ + link_line(opt_view(*linked_account)),
{
    match linked_account {
        Some(acct) => {
            push_char(out, 'L');
            push_char(out, '[');
            push_str(out, acct.as_str());
            push_char(out, ']');
            push_char(out, '\n');
            assert(out@ =~= old(out)@ + link_line(opt_view(*linked_account)));
        },
        None => {
            assert(out@ =~= old(out)@ + link_line(opt_view(*linked_account)));
        },
    }
}

fn push_end(out: &mut String)
    ensures
        final(out)@ == old(out)@ + end_line(),
{
    push_char(out, '^');
    push_char(out, '\n');
    assert(out@ =~= old(out)@ + end_line());
}

/// The view of an optional registry; no registry holds no security.
pub open spec fn registry_of(symbols: Option<&Symbols>) -> Registry {
    match symbols {
        Some(s) => s@,
        None => Map::empty(),
    }
}

fn name_of(symbols: Option<&Symbols>, symbol: &String) -> (r: Result<String, QifError>)
    ensures
        r is Ok <==> registry_of(symbols).contains_key(symbol@),
        r matches Ok(n) ==> n@ == registry_of(symbols)[symbol@].0,
        r matches Err(e) ==> e matches QifError::UnregisteredSymbol(_),
{
    match symbols {
        Some(s) => s.lookup(symbol),
        None => Err(QifError::UnregisteredSymbol(symbol.clone())),
    }
}

fn print_income(
    out: &mut String,
    date: LedgerDate,
    kind: &str,
    linked_account: &Option<String>,
    name: Option<&String>,
    memo: &String,
    amount: &String,
)
    ensures
        final(out)@ == old(out)@ + income_text(
            date,
            kind@,
            opt_view(*linked_account),
            match name {
                Some(n) => Some(n@),
                None => None,
            },
            memo@,
            amount@,
        ),
{
    push_date_field(out, date);
    push_kind_line(out, kind, linked_account);
    if let Some(n) = name {
        push_field(out, 'Y', n.as_str());
    }
    push_field(out, 'U', amount.as_str());
    push_field(out, 'T', amount.as_str());
    push_field(out, 'M', memo.as_str());
    push_link_line(out, linked_account);
    push_field(out, '$', amount.as_str());
    push_end(out);
    assert(out@ =~= old(out)@ + income_text(
        date,
        kind@,
        opt_view(*linked_account),
        match name {
            Some(n) => Some(n@),
            None => None,
        },
        memo@,
        amount@,
    ));
}

impl Trade {
    /// Appends this trade's record of kind `action_type`, named by the security's
    /// display name in the registry.
    pub fn print(
        &self,
        output: &mut String,
        action_type: &str,
        linked_account: &Option<String>,
        symbols: Option<&Symbols>,
    ) -> (r: Result<(), QifError>)
        ensures
            registry_of(symbols).contains_key(self.symbol@) ==> r is Ok && final(output)@ == old(
                output,
            )@ + trade_text(
                self@,
                action_type@,
                opt_view(*linked_account),
                registry_of(symbols)[self.symbol@].0,
            ),
            !registry_of(symbols).contains_key(self.symbol@) ==> (r matches Err(
                QifError::UnregisteredSymbol(_),
            )) && final(output)@ == old(output)@,
    {
        let memo = match name_of(symbols, &self.symbol) {
            Ok(n) => n,
            Err(e) => return Err(e),
        };
        push_date_field(output, self.date);
        push_kind_line(output, action_type, linked_account);
        push_field(output, 'Y', memo.as_str());
        push_field(output, 'I', self.price.as_str());
        push_field(output, 'Q', self.quantity.as_str());
        push_field(output, 'U', self.amount.as_str());
        push_field(output, 'T', self.amount.as_str());
        push_field(output, 'M', memo.as_str());
        push_field(output, 'O', self.fees.as_str());
        push_link_line(output, linked_account);
        push_field(output, '$', self.amount.as_str());
        push_end(output);
        assert(output@ =~= old(output)@ + trade_text(
            self@,
            action_type@,
            opt_view(*linked_account),
            memo@,
        ));
        Ok(())
    }
}

fn push_i32(out: &mut String, q: i32)
    ensures
        final(out)@ == old(out)@ + i32_text(q as int),
{
    if q < 0 {
        push_char(out, '-');
        push_decimal(out, (-(q as i64)) as u32);
        assert(out@ =~= old(out)@ + i32_text(q as int));
    } else {
        push_decimal(out, q as u32);
    }
}

impl QifAction {
    /// Appends this action's QIF record. Records of actions that name a security
    /// carry its display name from the registry; one it does not hold is an error.
    pub fn print_transaction(
        &self,
        output: &mut String,
        linked_account: &Option<String>,
        symbols: Option<&Symbols>,
    ) -> (r: Result<(), QifError>)
        ensures
            match action_record(self@, opt_view(*linked_account), registry_of(symbols)) {
                Some(t) => r is Ok && final(output)@ == old(output)@ + t,
                None => (r matches Err(QifError::UnregisteredSymbol(_))) && final(output)@ == old(
                    output,
                )@,
            },
    {
        match self {
            QifAction::ShtSell { trade } => trade.print(output, "ShtSell", linked_account, symbols),
            QifAction::CvrShrt { trade } => trade.print(output, "CvrShrt", linked_account, symbols),
            QifAction::Buy { trade } => trade.print(output, "Buy", linked_account, symbols),
            QifAction::Sell { trade } => trade.print(output, "Sell", linked_account, symbols),
            QifAction::MargInt { date, memo, amount } => {
                print_income(output, *date, "MargInt", linked_account, None, memo, amount);
                Ok(())
            },
            QifAction::Div { date, symbol, amount } => {
                let name = match name_of(symbols, symbol) {
                    Ok(n) => n,
                    Err(e) => return Err(e),
                };
                print_income(output, *date, "Div", linked_account, Some(&name), &name, amount);
                Ok(())
            },
            QifAction::CGLong { date, symbol, amount } => {
                let name = match name_of(symbols, symbol) {
                    Ok(n) => n,
                    Err(e) => return Err(e),
                };
                print_income(output, *date, "CGLong", linked_account, Some(&name), &name, amount);
                Ok(())
            },
            QifAction::CGShort { date, symbol, amount } => {
                let name = match name_of(symbols, symbol) {
                    Ok(n) => n,
                    Err(e) => return Err(e),
                };
                print_income(output, *date, "CGShort", linked_account, Some(&name), &name, amount);
                Ok(())
            },
            QifAction::ShrsIn { date, symbol, quantity } => {
                let name = match name_of(symbols, symbol) {
                    Ok(n) => n,
                    Err(e) => return Err(e),
                };
                push_date_field(output, *date);
                push_field(output, 'N', "ShrsIn");
                push_field(output, 'Y', name.as_str());
                push_char(output, 'Q');
                push_i32(output, *quantity);
                push_char(output, '\n');
                push_field(output, 'M', name.as_str());
                push_end(output);
                assert(output@ =~= old(output)@ + record_text(self@, opt_view(*linked_account), name@));
                Ok(())
            },
            QifAction::Generic { date, payee, memo, category, amount } => {
                push_date_field(output, *date);
                push_field(output, 'U', amount.as_str());
                push_field(output, 'T', amount.as_str());
                push_field(output, 'P', payee.as_str());
                if let Some(m) = memo {
                    push_field(output, 'M', m.as_str());
                }
                if let Some(c) = category {
                    push_field(output, 'L', c.as_str());
                }
                push_end(output);
                assert(output@ =~= old(output)@ + record_text(self@, opt_view(*linked_account), Seq::empty()));
                Ok(())
            },
        }
    }

    /// Whether this action is a plain cash movement, which may go to a linked
    /// cash account.
    pub fn linked(&self) -> (r: bool)
        ensures
            r == (self@ is Generic),
    {
        match self {
            QifAction::Generic { .. } => true,
            _ => false,
        }
    }
}

/// The kind of account a ledger file is imported into.
#[derive(Clone, Copy, Debug, PartialEq, Eq, Structural)]
pub enum AccountType {
    Cash,
    Invest,
}

/// The first line of a ledger file for an account of this type.
pub open spec fn account_header(t: AccountType) -> Seq<char> {
    match t {
        AccountType::Invest => "!Type:Invst"@ + seq!['\n'],
        AccountType::Cash => "!Type:Bank"@ + seq!['\n'],
    }
}

/// The first line of a linked cash account's ledger file.
pub open spec fn linked_header() -> Seq<char> {
    "!Type:Bank"@ + seq!['\n']
}

/// The records of a list of actions, split between the primary ledger and the
/// linked cash ledger, with the number of records of each; `None` where an action
/// names a security that the registry does not hold. Cash movements go to the
/// linked ledger when there is a linked account; there they carry no link.
pub open spec fn partition(acts: Seq<ActionView>, linked: Option<Seq<char>>, reg: Registry) -> Option<
    (Seq<char>, Seq<char>, nat, nat),
>
    decreases acts.len(),
{
    if acts.len() == 0 {
        Some((Seq::empty(), Seq::empty(), 0, 0))
    } else {
        match partition(acts.drop_last(), linked, reg) {
            None => None,
            Some((p, l, np, nl)) => {
                let a = acts.last();
                if a is Generic && linked is Some {
                    match action_record(a, None, reg) {
                        Some(t) => Some((p, l + t, np, nl + 1)),
                        None => None,
                    }
                } else {
                    match action_record(a, linked, reg) {
                        Some(t) => Some((p + t, l, np + 1, nl)),
                        None => None,
                    }
                }
            },
        }
    }
}

proof fn lemma_partition_failure_stays(
    acts: Seq<ActionView>,
    i: int,
    linked: Option<Seq<char>>,
    reg: Registry,
)
    requires
        0 <= i <= acts.len(),
        partition(acts.take(i), linked, reg) is None,
    ensures
        partition(acts, linked, reg) is None,
    decreases acts.len() - i,
{
    if i < acts.len() {
        assert(acts.take(i + 1).drop_last() =~= acts.take(i));
        lemma_partition_failure_stays(acts, i + 1, linked, reg);
    } else {
        assert(acts.take(i) =~= acts);
    }
}

/// The ledger texts of a run: each present only where at least one record goes
/// to it, headed by its type line.
pub struct LedgerFiles {
    pub transactions: Option<String>,
    pub linked_cash: Option<String>,
    pub transaction_count: usize,
    pub linked_count: usize,
}

/// Everything a run produces for the ledger.
pub struct QifTransactions {
    pub qif_actions: Vec<QifAction>,
    pub account_type: AccountType,
    pub symbols: Option<Symbols>,
}

pub open spec fn owned_registry(symbols: Option<Symbols>) -> Registry {
    match symbols {
        Some(s) => s@,
        None => Map::empty(),
    }
}

/// The block of a security in a securities ledger.
pub open spec fn security_record(e: (Seq<char>, Seq<char>, SecurityType)) -> Seq<char> {
    "!Type:Security"@ + seq!['\n'] + field('N', e.1) + field('S', e.0) + field('T', type_token(e.2))
        + end_line()
}

/// The blocks of a list of securities, in order.
pub open spec fn securities_text(v: Seq<(Seq<char>, Seq<char>, SecurityType)>) -> Seq<char>
    decreases v.len(),
{
    if v.len() == 0 {
        Seq::empty()
    } else {
        securities_text(v.drop_last()) + security_record(v.last())
    }
}

impl QifTransactions {
    /// The primary and linked ledger texts of the actions, in order.
    pub fn print_transactions(&self, linked_account: &Option<String>) -> (r: Result<LedgerFiles, QifError>)
        ensures
            match partition(
                actions_view(self.qif_actions@),
                opt_view(*linked_account),
                owned_registry(self.symbols),
            ) {
                None => r matches Err(QifError::UnregisteredSymbol(_)),
                Some((p, l, np, nl)) => r matches Ok(f) && f.transaction_count == np
                    && f.linked_count == nl && (if np > 0 {
                    f.transactions matches Some(t) && t@ == account_header(self.account_type) + p
                } else {
                    f.transactions is None
                }) && (if nl > 0 {
                    f.linked_cash matches Some(t) && t@ == linked_header() + l
                } else {
                    f.linked_cash is None
                }),
            },
    {
        let symbols: Option<&Symbols> = match &self.symbols {
            Some(s) => Some(s),
            None => None,
        };
        let ghost reg = owned_registry(self.symbols);
        let ghost acts = actions_view(self.qif_actions@);
        let ghost lk = opt_view(*linked_account);
        let mut primary = String::new();
        let mut cash = String::new();
        let mut np: usize = 0;
        let mut nl: usize = 0;
        let none: Option<String> = None;
        let mut i: usize = 0;
        proof {
            assert(acts.take(0) =~= Seq::<ActionView>::empty());
        }
        while i < self.qif_actions.len()
            invariant
                i <= self.qif_actions@.len(),
                acts == actions_view(self.qif_actions@),
                lk == opt_view(*linked_account),
                reg == owned_registry(self.symbols),
                registry_of(symbols) == reg,
                none is None,
                np + nl == i,
                partition(acts.take(i as int), lk, reg) == Some((primary@, cash@, np as nat, nl as nat)),
            decreases self.qif_actions.len() - i,
        {
            let a = &self.qif_actions[i];
            proof {
                assert(acts.take(i + 1).drop_last() =~= acts.take(i as int));
                assert(acts.take(i + 1).last() == a@);
                assert(partition(acts.take(i + 1), lk, reg) == (if a@ is Generic && lk is Some {
                    match action_record(a@, None, reg) {
                        Some(t) => Some((primary@, cash@ + t, np as nat, (nl + 1) as nat)),
                        None => None,
                    }
                } else {
                    match action_record(a@, lk, reg) {
                        Some(t) => Some((primary@ + t, cash@, (np + 1) as nat, nl as nat)),
                        None => None,
                    }
                }));
            }
            if a.linked() && linked_account.is_some() {
                match a.print_transaction(&mut cash, &none, symbols) {
                    Ok(()) => {},
                    Err(e) => {
                        proof {
                            lemma_partition_failure_stays(acts, i + 1, lk, reg);
                        }
                        return Err(e);
                    },
                }
                nl = nl + 1;
            } else {
                match a.print_transaction(&mut primary, linked_account, symbols) {
                    Ok(()) => {},
                    Err(e) => {
                        proof {
                            lemma_partition_failure_stays(acts, i + 1, lk, reg);
                        }
                        return Err(e);
                    },
                }
                np = np + 1;
            }
            i = i + 1;
        }
        proof {
            assert(acts.take(i as int) =~= acts);
        }
        let transactions = if np > 0 {
            let mut t = String::new();
            match self.account_type {
                AccountType::Invest => push_str(&mut t, "!Type:Invst"),
                AccountType::Cash => push_str(&mut t, "!Type:Bank"),
            }
            push_char(&mut t, '\n');
            push_str(&mut t, primary.as_str());
            assert(t@ =~= account_header(self.account_type) + primary@);
            Some(t)
        } else {
            None
        };
        let linked_cash = if nl > 0 {
            let mut t = String::new();
            push_str(&mut t, "!Type:Bank");
            push_char(&mut t, '\n');
            push_str(&mut t, cash.as_str());
            assert(t@ =~= linked_header() + cash@);
            Some(t)
        } else {
            None
        };
        Ok(LedgerFiles { transactions, linked_cash, transaction_count: np, linked_count: nl })
    }

    /// The securities ledger of the securities first seen during this run, in
    /// increasing symbol order; `None` where there are none.
    pub fn print_securities_qif(&self) -> (r: Result<Option<String>, QifError>)
        requires
            self.symbols matches Some(s) ==> s.wf(),
        ensures
            r is Ok,
            self.symbols is None ==> r->Ok_0 is None,
            self.symbols matches Some(s) ==> exists|v: Seq<(Seq<char>, Seq<char>, SecurityType)>|
                new_listing(s@, v) && (if v.len() == 0 {
                    r->Ok_0 is None
                } else {
                    r->Ok_0 matches Some(t) && t@ == securities_text(v)
                }),
    {
        let symbols = match &self.symbols {
            None => return Ok(None),
            Some(s) => s,
        };
        let securities = match symbols.get_new_securities() {
            Ok(v) => v,
            Err(e) => return Err(e),
        };
        let ghost ev = entries_view(securities@);
        if securities.len() == 0 {
            proof {
                let o: Option<String> = None;
                assert(new_listing(symbols@, ev) && ev.len() == 0 && o is None);
            }
            return Ok(None);
        }
        let mut out = String::new();
        let mut i: usize = 0;
        proof {
            assert(ev.take(0) =~= Seq::<(Seq<char>, Seq<char>, SecurityType)>::empty());
        }
        while i < securities.len()
            invariant
                i <= securities@.len(),
                ev == entries_view(securities@),
                out@ == securities_text(ev.take(i as int)),
            decreases securities.len() - i,
        {
            let e = &securities[i];
            let ghost before = out@;
            push_str(&mut out, "!Type:Security");
            push_char(&mut out, '\n');
            push_field(&mut out, 'N', e.1.0.as_str());
            push_field(&mut out, 'S', e.0.as_str());
            push_char(&mut out, 'T');
            e.1.1.push_token(&mut out);
            push_char(&mut out, '\n');
            push_end(&mut out);
            proof {
                assert(ev.take(i + 1).drop_last() =~= ev.take(i as int));
                assert(ev.take(i + 1).last() == ev[i as int]);
                assert(out@ =~= before + security_record(ev[i as int]));
            }
            i = i + 1;
        }
        proof {
            assert(ev.take(i as int) =~= ev);
            assert(new_listing(symbols@, ev) && ev.len() != 0 && out@ == securities_text(ev));
        }
        Ok(Some(out))
    }
}

} // verus!
