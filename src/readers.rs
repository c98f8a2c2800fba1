//! Broker profiles and identifying which one an export follows by its header line.
use vstd::prelude::*;
use vstd::utf8::encode_utf8;

use crate::csv_reader::{csv_records, decoded_rows};
use crate::error::{notices_view, Notice, NoticeView, QifError};
use crate::find_matching_line::{
    find_matching_line, key_index, lemma_first_line_matches, lemma_key_index_bounds,
    lemma_matching_line_found, lemma_no_known_line, line_text, matching_line, ByteCursor,
};
use crate::schwab_reader::{
    schwab_column_names, schwab_row_of, schwab_run, RunOutcome, SchwabTransaction,
    read_transactions_csv,
};
use crate::sofi_reader::{read_sofi_csv, sofi_column_names, sofi_row_of, sofi_run, SoFiTransaction};
use crate::symbols::Symbols;
use crate::transactions_qif::{actions_view, AccountType, ActionView, QifAction, QifTransactions, Registry};

verus! {

/// Schwab's export with the price column before the quantity column.
pub struct SchwabReader;

/// Schwab's earlier export, with the quantity column first.
pub struct SchwabReaderOldCsv;

/// SoFi's bank export.
pub struct SoFiReader;

/// The broker profiles an export can follow.
#[derive(Clone, Copy, Debug, PartialEq, Eq, Structural)]
pub enum Reader {
    Schwab,
    SchwabOldCsv,
    SoFi,
}

/// The header line that identifies a profile's exports.
pub open spec fn reader_header(r: Reader) -> Seq<char> {
    match r {
        Reader::Schwab => "\"Date\",\"Action\",\"Symbol\",\"Description\",\"Price\",\"Quantity\",\"Fees & Comm\",\"Amount\""@,
        Reader::SchwabOldCsv => "\"Date\",\"Action\",\"Symbol\",\"Description\",\"Quantity\",\"Price\",\"Fees & Comm\",\"Amount\""@,
        Reader::SoFi => "Date,Description,Type,Amount,Current balance,Status"@,
    }
}

/// What converting an export yields: its actions, the registry after them and the
/// notices raised.
pub enum Conversion {
    Failed,
    Converted(Seq<ActionView>, Option<Registry>, Seq<NoticeView>),
}

pub open spec fn registry_option(s: Option<Symbols>) -> Option<Registry> {
    match s {
        Some(x) => Some(x@),
        None => None,
    }
}

/// Converting a Schwab export that starts at its header line.
pub open spec fn schwab_conversion(input: Seq<u8>, reg: Option<Registry>) -> Conversion {
    match decoded_rows(csv_records(input), schwab_column_names()) {
        None => Conversion::Failed,
        Some(rows) => {
            let rv = rows.map_values(|f: Seq<Seq<char>>| schwab_row_of(f));
            match reg {
                None => if rv.len() == 0 {
                    Conversion::Converted(Seq::empty(), None, Seq::empty())
                } else {
                    Conversion::Failed
                },
                Some(m) => match schwab_run(rv.reverse(), m) {
                    RunOutcome::Failed(_, _) => Conversion::Failed,
                    RunOutcome::Done(acts, m2, notes) => Conversion::Converted(acts, Some(m2), notes),
                },
            }
        },
    }
}

/// Converting a SoFi export that starts at its header line.
pub open spec fn sofi_conversion(input: Seq<u8>, reg: Option<Registry>) -> Conversion {
    match decoded_rows(csv_records(input), sofi_column_names()) {
        None => Conversion::Failed,
        Some(rows) => match sofi_run(rows.map_values(|f: Seq<Seq<char>>| sofi_row_of(f)).reverse()) {
            Err(_) => Conversion::Failed,
            Ok((acts, notes)) => Conversion::Converted(acts, reg, notes),
        },
    }
}

pub open spec fn conversion(r: Reader, input: Seq<u8>, reg: Option<Registry>) -> Conversion {
    match r {
        Reader::SoFi => sofi_conversion(input, reg),
        _ => schwab_conversion(input, reg),
    }
}

/// A conversion result stands for the outcome.
pub open spec fn matches_conversion(
    r: Result<Vec<QifAction>, QifError>,
    after: Option<Symbols>,
    notices_before: Seq<Notice>,
    notices_after: Seq<Notice>,
    c: Conversion,
) -> bool {
    match c {
        Conversion::Failed => r is Err && notices_view(notices_before).is_prefix_of(
            notices_view(notices_after),
        ),
        Conversion::Converted(acts, reg, notes) => (r matches Ok(v) && actions_view(v@) == acts)
            && registry_option(after) == reg && notices_view(notices_after) == notices_view(
            notices_before,
        ) + notes,
    }
}

pub open spec fn registry_ok(s: Option<Symbols>) -> bool {
    s matches Some(x) ==> x.wf()
}

fn convert_schwab(
    input: &[u8],
    securities: &mut Option<Symbols>,
    notices: &mut Vec<Notice>,
) -> (r: Result<Vec<QifAction>, QifError>)
    requires
        registry_ok(*old(securities)),
    ensures
        registry_ok(*final(securities)),
        matches_conversion(r, *final(securities), old(notices)@, final(notices)@, schwab_conversion(input@, registry_option(*old(securities)))),
{
    let rows = match read_transactions_csv(input) {
        Ok(rows) => rows,
        Err(e) => return Err(e),
    };
    let r = SchwabTransaction::to_transactions(&rows, securities, notices);
    proof {
        if r is Ok && r->Ok_0@.len() == 0 {
            assert(actions_view(r->Ok_0@) =~= Seq::<ActionView>::empty());
        }
    }
    r
}

fn convert_sofi(
    input: &[u8],
    securities: &mut Option<Symbols>,
    notices: &mut Vec<Notice>,
) -> (r: Result<Vec<QifAction>, QifError>)
    requires
        registry_ok(*old(securities)),
    ensures
        registry_ok(*final(securities)),
        matches_conversion(r, *final(securities), old(notices)@, final(notices)@, sofi_conversion(input@, registry_option(*old(securities)))),
{
    let rows = match read_sofi_csv(input) {
        Ok(rows) => rows,
        Err(e) => return Err(e),
    };
    SoFiTransaction::to_transactions(&rows, notices)
}

impl SchwabReader {
    pub fn csv_header(&self) -> (r: String)
        ensures
            r@ == reader_header(Reader::Schwab),
    {
        "\"Date\",\"Action\",\"Symbol\",\"Description\",\"Price\",\"Quantity\",\"Fees & Comm\",\"Amount\"".to_owned()
    }

    /// Converts an export that starts at its header line.
    pub fn to_transactions(
        &self,
        input: &[u8],
        securities: &mut Option<Symbols>,
        notices: &mut Vec<Notice>,
    ) -> (r: Result<Vec<QifAction>, QifError>)
        requires
            registry_ok(*old(securities)),
        ensures
            registry_ok(*final(securities)),
            matches_conversion(r, *final(securities), old(notices)@, final(notices)@, schwab_conversion(input@, registry_option(*old(securities)))),
    {
        convert_schwab(input, securities, notices)
    }
}

impl SchwabReaderOldCsv {
    pub fn csv_header(&self) -> (r: String)
        ensures
            r@ == reader_header(Reader::SchwabOldCsv),
    {
        "\"Date\",\"Action\",\"Symbol\",\"Description\",\"Quantity\",\"Price\",\"Fees & Comm\",\"Amount\"".to_owned()
    }

    /// Converts an export that starts at its header line.
    pub fn to_transactions(
        &self,
        input: &[u8],
        securities: &mut Option<Symbols>,
        notices: &mut Vec<Notice>,
    ) -> (r: Result<Vec<QifAction>, QifError>)
        requires
            registry_ok(*old(securities)),
        ensures
            registry_ok(*final(securities)),
            matches_conversion(r, *final(securities), old(notices)@, final(notices)@, schwab_conversion(input@, registry_option(*old(securities)))),
    {
        convert_schwab(input, securities, notices)
    }
}

impl SoFiReader {
    pub fn csv_header(&self) -> (r: String)
        ensures
            r@ == reader_header(Reader::SoFi),
    {
        "Date,Description,Type,Amount,Current balance,Status".to_owned()
    }

    /// Converts an export that starts at its header line.
    pub fn to_transactions(
        &self,
        input: &[u8],
        securities: &mut Option<Symbols>,
        notices: &mut Vec<Notice>,
    ) -> (r: Result<Vec<QifAction>, QifError>)
        requires
            registry_ok(*old(securities)),
        ensures
            registry_ok(*final(securities)),
            matches_conversion(r, *final(securities), old(notices)@, final(notices)@, sofi_conversion(input@, registry_option(*old(securities)))),
    {
        convert_sofi(input, securities, notices)
    }
}

impl Reader {
    /// The header line that identifies this profile's exports.
    pub fn csv_header(&self) -> (r: String)
        ensures
            r@ == reader_header(*self),
    {
        match self {
            Reader::Schwab => SchwabReader.csv_header(),
            Reader::SchwabOldCsv => SchwabReaderOldCsv.csv_header(),
            Reader::SoFi => SoFiReader.csv_header(),
        }
    }

    /// Converts an export that starts at its header line.
    pub fn to_transactions(
        &self,
        input: &[u8],
        securities: &mut Option<Symbols>,
        notices: &mut Vec<Notice>,
    ) -> (r: Result<Vec<QifAction>, QifError>)
        requires
            registry_ok(*old(securities)),
        ensures
            registry_ok(*final(securities)),
            matches_conversion(r, *final(securities), old(notices)@, final(notices)@, conversion(*self, input@, registry_option(*old(securities)))),
    {
        match self {
            Reader::SoFi => convert_sofi(input, securities, notices),
            _ => convert_schwab(input, securities, notices),
        }
    }

    /// Converts an export and gathers what the ledger files need: the actions,
    /// the account type and the registry, which leaves `securities`.
    pub fn to_qif_transactions(
        &self,
        input: &[u8],
        account_type: AccountType,
        securities: &mut Option<Symbols>,
        notices: &mut Vec<Notice>,
    ) -> (r: Result<QifTransactions, QifError>)
        requires
            registry_ok(*old(securities)),
        ensures
            *final(securities) is None || r is Err,
            match conversion(*self, input@, registry_option(*old(securities))) {
                Conversion::Failed => r is Err && notices_view(old(notices)@).is_prefix_of(
                    notices_view(final(notices)@),
                ),
                Conversion::Converted(acts, reg, notes) => (r matches Ok(t) && actions_view(
                    t.qif_actions@,
                ) == acts && registry_option(t.symbols) == reg && t.account_type == account_type
                    && registry_ok(t.symbols)) && notices_view(final(notices)@) == notices_view(
                    old(notices)@,
                ) + notes,
            },
    {
        let qif_actions = match self.to_transactions(input, securities, notices) {
            Ok(a) => a,
            Err(e) => return Err(e),
        };
        let symbols = securities.take();
        Ok(QifTransactions { qif_actions, account_type, symbols })
    }
}

/// The registered profiles, each keyed by its header line.
pub struct Readers {
    readers: Vec<(String, Reader)>,
}

impl Readers {
    pub closed spec fn entries(&self) -> Seq<(String, Reader)> {
        self.readers@
    }

    /// The profile whose header line is `line`'s bytes, if any.
    pub open spec fn reader_for_line(&self, line: Seq<u8>) -> Option<Reader> {
        let k = key_index(self.entries(), line);
        if k < self.entries().len() {
            Some(self.entries()[k].1)
        } else {
            None
        }
    }

    /// Whether a line is a registered header line.
    pub open spec fn header_known(&self) -> spec_fn(Seq<u8>) -> bool {
        |line: Seq<u8>| self.reader_for_line(line) is Some
    }

    /// No profile registered.
    pub fn new() -> (r: Readers)
        ensures
            forall|line: Seq<u8>| #[trigger] r.reader_for_line(line) is None,
    {
        Readers { readers: Vec::new() }
    }

    /// Registers a profile under its header line; a later registration of the same
    /// header line takes its place.
    pub fn register(&mut self, csv_reader: Reader)
        ensures
            forall|line: Seq<u8>| #[trigger] final(self).reader_for_line(line) == (if line == encode_utf8(
                reader_header(csv_reader),
            ) {
                Some(csv_reader)
            } else {
                old(self).reader_for_line(line)
            }),
    {
        let header = csv_reader.csv_header();
        self.readers.insert(0, (header, csv_reader));
        proof {
            let e = (header, csv_reader);
            assert(self.readers@ == old(self).readers@.insert(0, e));
            assert(self.readers@.drop_first() =~= old(self).readers@);
            assert(self.readers@[0] == e);
            assert forall|line: Seq<u8>| #[trigger] self.reader_for_line(line) == (if line == encode_utf8(
                reader_header(csv_reader),
            ) {
                Some(csv_reader)
            } else {
                old(self).reader_for_line(line)
            }) by {
                if line != encode_utf8(reader_header(csv_reader)) {
                    let k = key_index(old(self).readers@, line);
                    lemma_key_index_bounds(old(self).readers@, line);
                    assert(key_index(self.readers@, line) == 1 + k);
                    if k < old(self).readers@.len() {
                        assert(self.readers@[k + 1] == old(self).readers@[k]);
                    }
                }
            }
        }
    }

    /// Scans the input from its read position for a registered header line. On a
    /// match the cursor is left at the start of that line and its profile returned;
    /// with no match the cursor ends at the end of the input.
    pub fn identify_reader(&self, buf_reader: &mut ByteCursor) -> (r: Option<Reader>)
        requires
            old(buf_reader).wf(),
        ensures
            final(buf_reader).wf(),
            final(buf_reader).content() == old(buf_reader).content(),
            match matching_line(
                old(buf_reader).content(),
                old(buf_reader).position(),
                self.header_known(),
            ) {
                None => r is None && final(buf_reader).position() == old(buf_reader).content().len(),
                Some(i) => final(buf_reader).position() == i && r is Some && r == self.reader_for_line(
                    line_text(old(buf_reader).content(), i),
                ),
            },
    {
        let ghost known = |line: Seq<u8>| key_index(self.readers@, line) < self.readers@.len();
        proof {
            assert(self.header_known() =~= known);
            lemma_matching_line_found(old(buf_reader).content(), old(buf_reader).position(), known);
        }
        find_matching_line(buf_reader, &self.readers)
    }

    /// Like `identify_reader`, but an input with no registered header line is the
    /// error `FormatNotRecognized`, naming the input.
    pub fn select_reader(&self, buf_reader: &mut ByteCursor, input_name: &str) -> (r: Result<
        Reader,
        QifError,
    >)
        requires
            old(buf_reader).wf(),
        ensures
            final(buf_reader).wf(),
            final(buf_reader).content() == old(buf_reader).content(),
            match matching_line(
                old(buf_reader).content(),
                old(buf_reader).position(),
                self.header_known(),
            ) {
                None => (r matches Err(QifError::FormatNotRecognized(n)) && n@ == input_name@)
                    && final(buf_reader).position() == old(buf_reader).content().len(),
                Some(i) => final(buf_reader).position() == i && r is Ok && Some(r->Ok_0)
                    == self.reader_for_line(line_text(old(buf_reader).content(), i)),
            },
    {
        match self.identify_reader(buf_reader) {
            Some(r) => Ok(r),
            None => Err(QifError::FormatNotRecognized(input_name.to_owned())),
        }
    }
}

/// Format identification, with `select_reader`'s contract: an input whose first
/// line is a registered header is matched at its start (the cursor rewound there,
/// that header's profile selected); an input none of whose lines is a registered
/// header has no match (`FormatNotRecognized`).
pub proof fn lemma_format_identification(readers: Readers, s: Seq<u8>)
    ensures
        s.len() > 0 && readers.reader_for_line(line_text(s, 0)) is Some ==> matching_line(
            s,
            0,
            readers.header_known(),
        ) == Some(0int),
        (forall|j: int| 0 <= j < s.len() ==> (#[trigger] readers.reader_for_line(line_text(s, j))) is None)
            ==> matching_line(s, 0, readers.header_known()) is None,
{
    if s.len() > 0 && readers.reader_for_line(line_text(s, 0)) is Some {
        lemma_first_line_matches(s, readers.header_known());
    }
    if forall|j: int| 0 <= j < s.len() ==> (#[trigger] readers.reader_for_line(line_text(s, j))) is None {
        assert forall|j: int| 0 <= j < s.len() implies !(readers.header_known())(
            #[trigger] line_text(s, j),
        ) by {
            assert(readers.reader_for_line(line_text(s, j)) is None);
        }
        lemma_no_known_line(s, 0, readers.header_known());
    }
}

} // verus!
