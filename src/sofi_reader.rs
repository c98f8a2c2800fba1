//! SoFi's bank export: every row is a plain cash movement.
use vstd::prelude::*;

use crate::csv_reader::{
    csv_records, decode_rows, decoded_rows, fields_view, names_view, read_records, rows_view,
    records_view,
};
use crate::date::{parse_date, parsed_date, LedgerDate};
use crate::error::{notices_view, Notice, NoticeView, QifError};
use crate::option_symbol::date_of_triple;
use crate::text::{chars_of, same_text};
use crate::transactions_qif::{actions_view, ActionView, QifAction};

verus! {

/// One row of a SoFi export, as its columns read.
#[derive(Debug)]
pub struct SoFiTransaction {
    pub date: String,
    pub description: String,
    pub transaction_type: String,
    pub amount: String,
    pub current_balance: String,
    pub status: String,
}

/// A row's fields as character sequences: date, description, type, amount.
pub struct SoFiRowView {
    pub date: Seq<char>,
    pub description: Seq<char>,
    pub transaction_type: Seq<char>,
    pub amount: Seq<char>,
}

impl View for SoFiTransaction {
    type V = SoFiRowView;

    open spec fn view(&self) -> SoFiRowView {
        SoFiRowView {
            date: self.date@,
            description: self.description@,
            transaction_type: self.transaction_type@,
            amount: self.amount@,
        }
    }
}

/// The transaction types that need no notice.
pub open spec fn known_cash_type(t: Seq<char>) -> bool {
    t == "ATM"@ || t == "Withdrawal"@ || t == "Deposit"@ || t == "Debit Card"@ || t
        == "Interest Earned"@
}

/// The date of a row, read as `%Y-%m-%d`.
pub open spec fn sofi_date(t: Seq<char>) -> Option<LedgerDate> {
    date_of_triple(parsed_date(t, "%Y-%m-%d"@))
}

/// The cash movement of a row: the description as payee, the type as category.
pub open spec fn sofi_action(row: SoFiRowView, date: LedgerDate) -> ActionView {
    ActionView::Generic {
        date: date,
        payee: row.description,
        memo: None,
        category: Some(row.transaction_type),
        amount: row.amount,
    }
}

/// The notices a row raises: one for a type without a rule.
pub open spec fn sofi_row_notices(row: SoFiRowView) -> Seq<NoticeView> {
    if known_cash_type(row.transaction_type) {
        Seq::empty()
    } else {
        seq![NoticeView::UnrecognizedCashType(row.transaction_type)]
    }
}

/// Converting rows in the given order: their actions and notices, or the date
/// field of the first row whose date cannot be read.
pub open spec fn sofi_run(rows: Seq<SoFiRowView>) -> Result<(Seq<ActionView>, Seq<NoticeView>), Seq<char>>
    decreases rows.len(),
{
    if rows.len() == 0 {
        Ok((Seq::empty(), Seq::empty()))
    } else {
        match sofi_date(rows[0].date) {
            None => Err(rows[0].date),
            Some(d) => match sofi_run(rows.drop_first()) {
                Err(t) => Err(t),
                Ok((rest, notes)) => Ok(
                    (seq![sofi_action(rows[0], d)] + rest, sofi_row_notices(rows[0]) + notes),
                ),
            },
        }
    }
}

fn known_type(t: &Vec<char>) -> (r: bool)
    ensures
        r == known_cash_type(t@),
{
    same_text(t, "ATM") || same_text(t, "Withdrawal") || same_text(t, "Deposit") || same_text(
        t,
        "Debit Card",
    ) || same_text(t, "Interest Earned")
}

impl SoFiTransaction {
    /// The date of this row.
    pub fn get_date(&self) -> (r: Result<LedgerDate, QifError>)
        ensures
            match sofi_date(self.date@) {
                Some(d) => r == Ok::<LedgerDate, QifError>(d),
                None => r matches Err(QifError::BadDate(t)) && t@ == self.date@,
            },
    {
        match parse_date(self.date.as_str(), "%Y-%m-%d") {
            Some(d) => Ok(d),
            None => Err(QifError::BadDate(self.date.clone())),
        }
    }

    /// The one cash movement of this row; a type without a rule raises a notice.
    pub fn to_qif_action(&self, notices: &mut Vec<Notice>) -> (r: Result<Vec<QifAction>, QifError>)
        ensures
            match sofi_date(self.date@) {
                None => (r matches Err(QifError::BadDate(t)) && t@ == self.date@) && final(notices)@
                    == old(notices)@,
                Some(d) => (r matches Ok(v) && actions_view(v@) == seq![sofi_action(self@, d)])
                    && notices_view(final(notices)@) == notices_view(old(notices)@) + sofi_row_notices(
                    self@,
                ),
            },
    {
        let date = match self.get_date() {
            Ok(d) => d,
            Err(e) => return Err(e),
        };
        let mut res: Vec<QifAction> = Vec::new();
        res.push(
            QifAction::Generic {
                date,
                payee: self.description.clone(),
                memo: None,
                category: Some(self.transaction_type.clone()),
                amount: self.amount.clone(),
            },
        );
        assert(actions_view(res@) =~= seq![sofi_action(self@, date)]);
        let t = chars_of(self.transaction_type.as_str());
        if !known_type(&t) {
            notices.push(Notice::UnrecognizedCashType(self.transaction_type.clone()));
            assert(notices_view(notices@) =~= notices_view(old(notices)@).push(notices@.last()@));
        } else {
            assert(notices_view(notices@) + Seq::<NoticeView>::empty() =~= notices_view(notices@));
        }
        Ok(res)
    }
}

/// The column names of a SoFi export, in the order of `SoFiTransaction`'s fields.
pub open spec fn sofi_column_names() -> Seq<Seq<char>> {
    seq!["Date"@, "Description"@, "Type"@, "Amount"@, "Current balance"@, "Status"@]
}

fn sofi_columns() -> (r: Vec<String>)
    ensures
        names_view(r@) == sofi_column_names(),
{
    let mut r: Vec<String> = Vec::new();
    r.push("Date".to_owned());
    r.push("Description".to_owned());
    r.push("Type".to_owned());
    r.push("Amount".to_owned());
    r.push("Current balance".to_owned());
    r.push("Status".to_owned());
    assert(names_view(r@) =~= sofi_column_names());
    r
}

/// A row from its fields in the order of `sofi_column_names`.
pub open spec fn sofi_row_of(f: Seq<Seq<char>>) -> SoFiRowView {
    SoFiRowView { date: f[0], description: f[1], transaction_type: f[2], amount: f[3] }
}

pub open spec fn sofi_rows_view(rows: Seq<SoFiTransaction>) -> Seq<SoFiRowView> {
    rows.map_values(|r: SoFiTransaction| r@)
}

/// Reads the rows of a SoFi export that starts at its header line.
pub fn read_sofi_csv(input: &[u8]) -> (r: Result<Vec<SoFiTransaction>, QifError>)
    ensures
        match decoded_rows(csv_records(input@), sofi_column_names()) {
            None => r matches Err(QifError::RowResumedAfterFooter),
            Some(rows) => r matches Ok(v) && sofi_rows_view(v@) == rows.map_values(
                |f: Seq<Seq<char>>| sofi_row_of(f),
            ),
        },
{
    let records = read_records(input);
    let names = sofi_columns();
    let rows = match decode_rows(&records, &names) {
        Ok(rows) => rows,
        Err(e) => return Err(e),
    };
    let ghost want = rows_view(rows@);
    proof {
        let rs = decoded_rows(records_view(records@), names_view(names@))->0;
        assert(want == rs);
        assert forall|j: int| 0 <= j < rows@.len() implies (#[trigger] rows@[j])@.len() == 6 by {
            assert(want[j] == fields_view(rows@[j]));
            assert(rs[j].len() == names_view(names@).len());
        }
    }
    let mut out: Vec<SoFiTransaction> = Vec::new();
    let mut i: usize = 0;
    while i < rows.len()
        invariant
            i <= rows@.len(),
            want == rows_view(rows@),
            forall|j: int| 0 <= j < rows@.len() ==> (#[trigger] rows@[j])@.len() == 6,
            out@.len() == i,
            forall|j: int| 0 <= j < i ==> (#[trigger] out@[j])@ == sofi_row_of(want[j]),
        decreases rows.len() - i,
    {
        let f = &rows[i];
        proof {
            assert(want[i as int] == fields_view(rows@[i as int]));
        }
        out.push(
            SoFiTransaction {
                date: f[0].clone(),
                description: f[1].clone(),
                transaction_type: f[2].clone(),
                amount: f[3].clone(),
                current_balance: f[4].clone(),
                status: f[5].clone(),
            },
        );
        proof {
            assert(out@[i as int]@ =~= sofi_row_of(want[i as int]));
        }
        i = i + 1;
    }
    proof {
        assert(sofi_rows_view(out@) =~= want.map_values(|f: Seq<Seq<char>>| sofi_row_of(f)));
    }
    Ok(out)
}

impl SoFiTransaction {
    /// Converts the rows of an export, given newest first, into cash movements,
    /// oldest first.
    pub fn to_transactions(rows: &Vec<SoFiTransaction>, notices: &mut Vec<Notice>) -> (r: Result<
        Vec<QifAction>,
        QifError,
    >)
        ensures
            match sofi_run(sofi_rows_view(rows@).reverse()) {
                Err(t) => (r matches Err(QifError::BadDate(d)) && d@ == t) && notices_view(
                    old(notices)@,
                ).is_prefix_of(notices_view(final(notices)@)),
                Ok((acts, notes)) => (r matches Ok(v) && actions_view(v@) == acts) && notices_view(
                    final(notices)@,
                ) == notices_view(old(notices)@) + notes,
            },
    {
        let ghost rv = sofi_rows_view(rows@);
        let ghost base = notices_view(notices@);
        let ghost mut produced: Seq<NoticeView> = Seq::empty();
        let mut out: Vec<QifAction> = Vec::new();
        let mut i: usize = rows.len();
        proof {
            assert(rv.subrange(0, rows@.len() as int) =~= rv);
            assert(actions_view(out@) =~= Seq::<ActionView>::empty());
            assert(base + produced =~= base);
        }
        while i > 0
            invariant
                i <= rows@.len(),
                rv == sofi_rows_view(rows@),
                base == notices_view(old(notices)@),
                notices_view(notices@) == base + produced,
                sofi_run(rv.reverse()) == match sofi_run(rv.subrange(0, i as int).reverse()) {
                    Err(t) => Err(t),
                    Ok((rest, notes)) => Ok((actions_view(out@) + rest, produced + notes)),
                },
            decreases i,
        {
            let ghost before = out@;
            let part = Ghost(rv.subrange(0, i as int).reverse());
            proof {
                assert(part@[0] == rv[i - 1]);
                assert(rv[i - 1] == rows@[i - 1]@);
                assert(part@.drop_first() =~= rv.subrange(0, i - 1).reverse());
            }
            let row_actions = match rows[i - 1].to_qif_action(notices) {
                Ok(a) => a,
                Err(e) => {
                    proof {
                        assert(notices_view(notices@).subrange(0, base.len() as int) =~= base);
                    }
                    return Err(e);
                },
            };
            let ghost added = row_actions@;
            let mut row_actions = row_actions;
            out.append(&mut row_actions);
            proof {
                assert(out@ == before + added);
                assert(actions_view(out@) =~= actions_view(before) + actions_view(added));
                let rn = sofi_row_notices(rv[i - 1]);
                assert(notices_view(notices@) =~= base + (produced + rn));
                match sofi_run(rv.subrange(0, i - 1).reverse()) {
                    Err(t) => {},
                    Ok((rest, notes)) => {
                        assert(actions_view(before) + (actions_view(added) + rest) =~= actions_view(
                            out@,
                        ) + rest);
                        assert(produced + (rn + notes) =~= (produced + rn) + notes);
                    },
                }
                produced = produced + rn;
            }
            i = i - 1;
        }
        proof {
            assert(rv.subrange(0, 0).reverse() =~= Seq::<SoFiRowView>::empty());
            assert(actions_view(out@) + Seq::<ActionView>::empty() =~= actions_view(out@));
            assert(produced + Seq::<NoticeView>::empty() =~= produced);
        }
        Ok(out)
    }
}

} // verus!
