use vstd::prelude::*;
use crate::error::{FetchError, FetchErrorView};
use crate::table::{row_view, rows_view, strings_view, Cell, CellView, Table};

verus! {

/// What the `csv` writer, as it is configured by default, writes for one
/// record of these fields: the fields, quoted where needed, between commas,
/// and the record terminator.
pub uninterp spec fn csv_record_bytes(fields: Seq<Seq<char>>) -> Seq<u8>;

/// The error of the `csv` crate, `csv::Error`, carried through as it is:
/// nothing is said of what it holds.
#[verifier::external_type_specification]
#[verifier::external_body]
pub struct ExCsvError(csv::Error);

/// Calls `csv::Writer::from_writer` on an empty buffer, `write_record` with
/// the fields and `into_inner`: the bytes of that one record, which depend on
/// the fields alone. The call succeeds: the writer reports only a failed
/// write to its destination, which a buffer in memory never refuses, and a
/// record that is not as long as the first one, which the only record of a
/// new writer cannot be.
#[verifier::external_body]
fn encode_record(fields: &Vec<String>) -> (r: Result<Vec<u8>, csv::Error>)
    ensures
        r is Ok,
        r->Ok_0@ == csv_record_bytes(strings_view(fields@)),
{
    let mut writer = csv::Writer::from_writer(Vec::new());
    writer.write_record(fields)?;
    match writer.into_inner() {
        Ok(bytes) => Ok(bytes),
        Err(e) => Err(csv::Error::from(e.into_error())),
    }
}

/// The texts of the cells of a row, in order.
pub open spec fn rendered(row: Seq<CellView>) -> Seq<Seq<char>> {
    Seq::new(row.len(), |j: int| row[j].text())
}

/// The records that are written: the header, where there is one, and then
/// each row as text, in input order.
pub open spec fn sink_records(headers: Option<Seq<Seq<char>>>, rows: Seq<Seq<CellView>>) -> Seq<
    Seq<Seq<char>>,
> {
    let body = Seq::new(rows.len(), |i: int| rendered(rows[i]));
    match headers {
        Some(h) => seq![h] + body,
        None => body,
    }
}

/// The bytes of the first `n` records, one after another.
pub open spec fn records_bytes(records: Seq<Seq<Seq<char>>>, n: nat) -> Seq<u8>
    decreases n,
{
    if n == 0 {
        Seq::empty()
    } else {
        records_bytes(records, (n - 1) as nat) + csv_record_bytes(records[n - 1])
    }
}

/// The delimited text of a header, where there is one, and of rows.
pub open spec fn sink_bytes(headers: Option<Seq<Seq<char>>>, rows: Seq<Seq<CellView>>) -> Seq<u8> {
    records_bytes(sink_records(headers, rows), sink_records(headers, rows).len())
}

/// The model of column names that may be given.
pub open spec fn headers_view(headers: Option<Vec<String>>) -> Option<Seq<Seq<char>>> {
    match headers {
        Some(h) => Some(strings_view(h@)),
        None => None,
    }
}

/// The header of a table in the sink: its columns, where it has any.
pub open spec fn table_header(columns: Seq<Seq<char>>) -> Option<Seq<Seq<char>>> {
    if columns.len() > 0 {
        Some(columns)
    } else {
        None
    }
}

/// Appends an encoded record to the output, or reports the failed write.
///
/// Where the record was encoded, its bytes follow what was written so far.
/// Where the writer failed, the output is as it was and the result is an I/O
/// error.
pub fn append_encoded(out: &mut Vec<u8>, encoded: Result<Vec<u8>, csv::Error>) -> (r: Result<
    (),
    FetchError,
>)
    ensures
        match encoded {
            Ok(bytes) => r is Ok && final(out)@ == old(out)@ + bytes@,
            Err(_) => r is Err && r->Err_0@ == FetchErrorView::Io && final(out)@ == old(out)@,
        },
{
    match encoded {
        Ok(bytes) => {
            let mut bytes = bytes;
            out.append(&mut bytes);
            Ok(())
        },
        Err(_) => Err(FetchError::Io),
    }
}

/// The texts of the cells of a row.
fn render_row(row: &Vec<Cell>) -> (r: Vec<String>)
    ensures
        strings_view(r@) == rendered(row_view(row@)),
{
    let mut fields: Vec<String> = Vec::new();
    let mut j: usize = 0;
    while j < row.len()
        invariant
            j <= row.len(),
            strings_view(fields@) == rendered(row_view(row@)).take(j as int),
        decreases row.len() - j,
    {
        let ghost before = fields@;
        let text = row[j].render();
        fields.push(text);
        proof {
            assert(strings_view(fields@) =~= strings_view(before).push(text@));
            assert(rendered(row_view(row@)).take(j + 1) =~= rendered(row_view(row@)).take(
                j as int,
            ).push(text@));
        }
        j += 1;
    }
    proof {
        assert(rendered(row_view(row@)).take(row@.len() as int) =~= rendered(row_view(row@)));
    }
    fields
}

/// The delimited text of a header, where one is given, and of the rows.
///
/// The header comes first, then the rows in input order, one record each.
/// Every cell is written as its text: strings and numbers as they are, `true`
/// or `false`, nothing for null. Rows need not be as long as the header.
/// Writing to memory always succeeds; with nothing to write the result is the
/// empty text.
pub fn encode_rows(headers: Option<&Vec<String>>, rows: &Vec<Vec<Cell>>) -> (r: Result<
    Vec<u8>,
    FetchError,
>)
    ensures
        r is Ok,
        r->Ok_0@ == sink_bytes(
            match headers {
                Some(h) => Some(strings_view(h@)),
                None => None,
            },
            rows_view(rows@),
        ),
{
    let ghost head = match headers {
        Some(h) => Some(strings_view(h@)),
        None => None,
    };
    let ghost records = sink_records(head, rows_view(rows@));
    let ghost offset: nat = if headers is Some {
        1
    } else {
        0
    };
    let mut out: Vec<u8> = Vec::new();
    match headers {
        Some(h) => {
            let encoded = encode_record(h);
            match append_encoded(&mut out, encoded) {
                Ok(_) => {},
                Err(e) => {
                    return Err(e);
                },
            }
            proof {
                assert(records[0] == strings_view(h@));
                assert(records_bytes(records, 0) =~= Seq::<u8>::empty());
                assert(out@ =~= records_bytes(records, 1));
            }
        },
        None => {},
    }
    let mut i: usize = 0;
    while i < rows.len()
        invariant
            i <= rows.len(),
            records == sink_records(head, rows_view(rows@)),
            records.len() == offset + rows@.len(),
            offset == (if head is Some {
                1nat
            } else {
                0nat
            }),
            out@ == records_bytes(records, offset + i as nat),
        decreases rows.len() - i,
    {
        let fields = render_row(&rows[i]);
        let encoded = encode_record(&fields);
        proof {
            assert(records[offset + i] == rendered(rows_view(rows@)[i as int]));
        }
        match append_encoded(&mut out, encoded) {
            Ok(_) => {},
            Err(e) => {
                return Err(e);
            },
        }
        i += 1;
    }
    Ok(out)
}

/// The delimited text of an optional header and rows of cells: the header
/// first, then the rows in input order, every cell as its text.
pub fn write_vector_to_csv(headers: Option<Vec<String>>, rows: Vec<Vec<Cell>>) -> (r: Result<
    Vec<u8>,
    FetchError,
>)
    ensures
        r is Ok,
        r->Ok_0@ == sink_bytes(headers_view(headers), rows_view(rows@)),
{
    match &headers {
        Some(h) => encode_rows(Some(h), &rows),
        None => encode_rows(None, &rows),
    }
}

/// The delimited text of a table: a header row where the table has columns,
/// then its rows in order.
pub fn write_table(table: &Table) -> (r: Result<Vec<u8>, FetchError>)
    ensures
        r is Ok,
        r->Ok_0@ == sink_bytes(table_header(table@.columns), table@.rows),
{
    let columns = table.columns();
    let rows = table.rows();
    proof {
        assert(strings_view(columns@).len() == columns@.len());
        assert(rows_view(rows@).len() == rows@.len());
    }
    if columns.len() > 0 {
        encode_rows(Some(columns), rows)
    } else {
        encode_rows(None, rows)
    }
}

} // verus!
