//! Reading a broker export: CSV records, then rows by column name, with a
//! tolerated trailing footer.
use vstd::prelude::*;

use crate::error::QifError;

verus! {

/// What csv's reader (no header handling, records of any length) yields for the
/// bytes `input`: each record's fields, or `None` for a record it reports an
/// error on.
pub uninterp spec fn csv_records(input: Seq<u8>) -> Seq<Option<Seq<Seq<char>>>>;

/// A record as character sequences.
pub open spec fn record_view(r: Option<Vec<String>>) -> Option<Seq<Seq<char>>> {
    match r {
        Some(v) => Some(v@.map_values(|f: String| f@)),
        None => None,
    }
}

pub open spec fn records_view(v: Seq<Option<Vec<String>>>) -> Seq<Option<Seq<Seq<char>>>> {
    v.map_values(|r: Option<Vec<String>>| record_view(r))
}

/// Relies on `csv::ReaderBuilder` (`has_headers(false)`, `flexible(true)`) and
/// `Reader::records`: the records depend on the bytes alone.
#[verifier::external_body]
pub(crate) fn read_records(input: &[u8]) -> (r: Vec<Option<Vec<String>>>)
    ensures
        records_view(r@) == csv_records(input@),
{
    let mut reader = csv::ReaderBuilder::new().has_headers(false).flexible(true).from_reader(input);
    let mut out = Vec::new();
    for record in reader.records() {
        out.push(match record {
            Ok(fields) => Some(fields.iter().map(String::from).collect()),
            Err(_) => None,
        });
    }
    out
}

/// The index of the first header field equal to `name`, or the header's length.
pub open spec fn column_index(header: Seq<Seq<char>>, name: Seq<char>) -> int
    decreases header.len(),
{
    if header.len() == 0 {
        0
    } else if header[0] == name {
        0
    } else {
        1 + column_index(header.drop_first(), name)
    }
}

/// Every wanted column is in the header.
pub open spec fn has_columns(header: Seq<Seq<char>>, names: Seq<Seq<char>>) -> bool {
    forall|j: int| 0 <= j < names.len() ==> column_index(header, #[trigger] names[j]) < header.len()
}

/// A record decodes under a header: it was read, has as many fields as the
/// header, and the header names every wanted column.
pub open spec fn decodes(
    header: Option<Seq<Seq<char>>>,
    names: Seq<Seq<char>>,
    r: Option<Seq<Seq<char>>>,
) -> bool {
    &&& header is Some
    &&& has_columns(header->0, names)
    &&& r matches Some(f) && f.len() == header->0.len()
}

/// The wanted fields of a decoded record, in the order of `names`.
pub open spec fn pick(header: Seq<Seq<char>>, names: Seq<Seq<char>>, f: Seq<Seq<char>>) -> Seq<Seq<char>> {
    names.map_values(|n: Seq<char>| f[column_index(header, n)])
}

/// The index of the first data record (after the header) that does not decode.
pub open spec fn first_failure(records: Seq<Option<Seq<Seq<char>>>>, names: Seq<Seq<char>>, i: int) -> int
    decreases records.len() - i,
{
    if i < 1 || i >= records.len() {
        records.len() as int
    } else if !decodes(records[0], names, records[i]) {
        i
    } else {
        first_failure(records, names, i + 1)
    }
}

/// The rows of an export: the data records before the first one that does not
/// decode (taken for the export's footer), each as its wanted fields; an error
/// where a record after that one decodes again.
pub open spec fn decoded_rows(records: Seq<Option<Seq<Seq<char>>>>, names: Seq<Seq<char>>) -> Option<
    Seq<Seq<Seq<char>>>,
> {
    let k = first_failure(records, names, 1);
    if exists|j: int| k < j < records.len() && decodes(records[0], names, #[trigger] records[j]) {
        None
    } else if records.len() == 0 {
        Some(Seq::empty())
    } else {
        Some(
            records.subrange(1, k).map_values(
                |r: Option<Seq<Seq<char>>>| pick(records[0]->0, names, r->0),
            ),
        )
    }
}

pub open spec fn fields_view(v: Vec<String>) -> Seq<Seq<char>> {
    v@.map_values(|f: String| f@)
}

pub open spec fn rows_view(v: Seq<Vec<String>>) -> Seq<Seq<Seq<char>>> {
    v.map_values(|r: Vec<String>| fields_view(r))
}

proof fn lemma_column_index(h: Seq<Seq<char>>, name: Seq<char>, i: int)
    requires
        0 <= i <= h.len(),
        forall|j: int| 0 <= j < i ==> h[j] != name,
        i == h.len() || h[i] == name,
    ensures
        column_index(h, name) == i,
    decreases i,
{
    if i > 0 {
        assert forall|j: int| 0 <= j < i - 1 implies h.drop_first()[j] != name by {
            assert(h.drop_first()[j] == h[j + 1]);
        }
        lemma_column_index(h.drop_first(), name, i - 1);
    }
}

/// Where `name` stands in the header.
fn column_of(header: &Vec<String>, name: &String) -> (r: usize)
    ensures
        r == column_index(fields_view(*header), name@),
        r <= header@.len(),
{
    let ghost h = fields_view(*header);
    let mut i: usize = 0;
    while i < header.len()
        invariant
            i <= header@.len(),
            h == fields_view(*header),
            forall|j: int| 0 <= j < i ==> h[j] != name@,
        decreases header.len() - i,
    {
        if header[i] == *name {
            proof {
                lemma_column_index(h, name@, i as int);
            }
            return i;
        }
        i = i + 1;
    }
    proof {
        lemma_column_index(h, name@, i as int);
    }
    i
}

pub open spec fn names_view(names: Seq<String>) -> Seq<Seq<char>> {
    names.map_values(|n: String| n@)
}

/// The positions of the wanted columns, or `None` where one is missing.
fn columns_of(header: &Vec<String>, names: &Vec<String>) -> (r: Option<Vec<usize>>)
    ensures
        r is Some <==> has_columns(fields_view(*header), names_view(names@)),
        r matches Some(c) ==> c@.len() == names@.len() && forall|j: int|
            0 <= j < c@.len() ==> #[trigger] c@[j] == column_index(
                fields_view(*header),
                names@[j]@,
            ) && c@[j] < header@.len(),
{
    let mut c: Vec<usize> = Vec::new();
    let mut j: usize = 0;
    while j < names.len()
        invariant
            j <= names@.len(),
            c@.len() == j,
            forall|k: int|
                0 <= k < j ==> #[trigger] c@[k] == column_index(fields_view(*header), names@[k]@)
                    && c@[k] < header@.len(),
        decreases names.len() - j,
    {
        let k = column_of(header, &names[j]);
        if k == header.len() {
            proof {
                assert(names_view(names@)[j as int] == names@[j as int]@);
            }
            return None;
        }
        c.push(k);
        j = j + 1;
    }
    proof {
        assert forall|k: int| 0 <= k < names_view(names@).len() implies column_index(
            fields_view(*header),
            #[trigger] names_view(names@)[k],
        ) < fields_view(*header).len() by {
            assert(names_view(names@)[k] == names@[k]@);
            assert(c@[k] < header@.len());
        }
    }
    Some(c)
}

/// The fields of a record at the given positions.
fn pick_fields(f: &Vec<String>, cols: &Vec<usize>) -> (r: Vec<String>)
    requires
        forall|j: int| 0 <= j < cols@.len() ==> #[trigger] cols@[j] < f@.len(),
    ensures
        r@.len() == cols@.len(),
        forall|j: int| 0 <= j < cols@.len() ==> #[trigger] r@[j]@ == f@[cols@[j] as int]@,
{
    let mut r: Vec<String> = Vec::new();
    let mut j: usize = 0;
    while j < cols.len()
        invariant
            j <= cols@.len(),
            r@.len() == j,
            forall|k: int| 0 <= k < cols@.len() ==> #[trigger] cols@[k] < f@.len(),
            forall|k: int| 0 <= k < j ==> #[trigger] r@[k]@ == f@[cols@[k] as int]@,
        decreases cols.len() - j,
    {
        r.push(f[cols[j]].clone());
        j = j + 1;
    }
    r
}

/// Whether data record `i` decodes under a header of `width` fields that names
/// every wanted column.
fn record_decodes(records: &Vec<Option<Vec<String>>>, i: usize, width: usize) -> (r: bool)
    requires
        i < records@.len(),
    ensures
        r == (records@[i as int] matches Some(f) && f@.len() == width),
{
    match &records[i] {
        Some(f) => f.len() == width,
        None => false,
    }
}

/// The data rows of an export, each as its wanted fields in the order of `names`.
/// The first record is the header. Reading stops at the first record that does not
/// decode, which is taken for the export's footer; a record after it that decodes
/// again is an error.
pub fn decode_rows(records: &Vec<Option<Vec<String>>>, names: &Vec<String>) -> (r: Result<
    Vec<Vec<String>>,
    QifError,
>)
    ensures
        match decoded_rows(records_view(records@), names_view(names@)) {
            None => r matches Err(QifError::RowResumedAfterFooter),
            Some(rows) => r matches Ok(v) && rows_view(v@) == rows,
        },
{
    let ghost rv = records_view(records@);
    let ghost nv = names_view(names@);
    let mut out: Vec<Vec<String>> = Vec::new();
    if records.len() == 0 {
        proof {
            assert(rows_view(out@) =~= Seq::<Seq<Seq<char>>>::empty());
        }
        return Ok(out);
    }
    let cols = match &records[0] {
        None => None,
        Some(h) => columns_of(h, names),
    };
    let width = match &records[0] {
        None => 0,
        Some(h) => h.len(),
    };
    proof {
        assert(rv[0] == record_view(records@[0]));
    }
    match cols {
        None => {
            proof {
                assert forall|j: int| 0 <= j < rv.len() implies !decodes(rv[0], nv, #[trigger] rv[j]) by {}
                assert(first_failure(rv, nv, 1) == if rv.len() > 1 { 1 } else { rv.len() as int });
                assert(rows_view(out@) =~= rv.subrange(1, first_failure(rv, nv, 1)).map_values(
                    |r: Option<Seq<Seq<char>>>| pick(rv[0]->0, nv, r->0),
                ));
            }
            Ok(out)
        },
        Some(cols) => {
            let mut i: usize = 1;
            while i < records.len() && record_decodes(records, i, width)
                invariant
                    1 <= i <= records@.len(),
                    rv == records_view(records@),
                    nv == names_view(names@),
                    records@[0] matches Some(h) && h@.len() == width && has_columns(fields_view(h), nv),
                    cols@.len() == names@.len(),
                    forall|j: int|
                        0 <= j < cols@.len() ==> #[trigger] cols@[j] == column_index(
                            rv[0]->0,
                            names@[j]@,
                        ) && cols@[j] < width,
                    first_failure(rv, nv, 1) == first_failure(rv, nv, i as int),
                    rows_view(out@) == rv.subrange(1, i as int).map_values(
                        |r: Option<Seq<Seq<char>>>| pick(rv[0]->0, nv, r->0),
                    ),
                decreases records.len() - i,
            {
                let f = match &records[i] {
                    Some(f) => f,
                    None => {
                        return Err(QifError::RowResumedAfterFooter);
                    },
                };
                let row = pick_fields(f, &cols);
                let ghost old_out = out@;
                out.push(row);
                proof {
                    assert(rv[i as int] == record_view(records@[i as int]));
                    assert(decodes(rv[0], nv, rv[i as int]));
                    assert(fields_view(row) =~= pick(rv[0]->0, nv, rv[i as int]->0)) by {
                        assert forall|j: int| 0 <= j < nv.len() implies fields_view(row)[j] == pick(
                            rv[0]->0,
                            nv,
                            rv[i as int]->0,
                        )[j] by {
                            assert(nv[j] == names@[j]@);
                        }
                    }
                    assert(rv.subrange(1, i + 1) =~= rv.subrange(1, i as int).push(rv[i as int]));
                    assert(rows_view(out@) =~= rows_view(old_out).push(fields_view(row)));
                    assert(rv.subrange(1, i + 1).map_values(
                        |r: Option<Seq<Seq<char>>>| pick(rv[0]->0, nv, r->0),
                    ) =~= rv.subrange(1, i as int).map_values(
                        |r: Option<Seq<Seq<char>>>| pick(rv[0]->0, nv, r->0),
                    ).push(pick(rv[0]->0, nv, rv[i as int]->0)));
                    assert(rows_view(out@) =~= rv.subrange(1, i + 1).map_values(
                        |r: Option<Seq<Seq<char>>>| pick(rv[0]->0, nv, r->0),
                    ));
                }
                i = i + 1;
            }
            proof {
                if i < records@.len() {
                    assert(rv[i as int] == record_view(records@[i as int]));
                    assert(!decodes(rv[0], nv, rv[i as int]));
                }
                assert(first_failure(rv, nv, i as int) == i);
            }
            let mut j: usize = i;
            while j < records.len()
                invariant
                    i <= j <= records@.len(),
                    rv == records_view(records@),
                    nv == names_view(names@),
                    records@[0] matches Some(h) && h@.len() == width && has_columns(fields_view(h), nv),
                    first_failure(rv, nv, 1) == i,
                    i < rv.len() ==> !decodes(rv[0], nv, rv[i as int]),
                    forall|m: int| i <= m < j ==> !decodes(rv[0], nv, #[trigger] rv[m]),
                decreases records.len() - j,
            {
                if record_decodes(records, j, width) {
                    proof {
                        assert(rv[j as int] == record_view(records@[j as int]));
                        assert(decodes(rv[0], nv, rv[j as int]));
                    }
                    return Err(QifError::RowResumedAfterFooter);
                }
                proof {
                    assert(rv[j as int] == record_view(records@[j as int]));
                }
                j = j + 1;
            }
            Ok(out)
        },
    }
}

} // verus!
