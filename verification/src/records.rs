use vstd::prelude::*;
use crate::adapters::{
    agrees, extract_flat_spec, field_cell, flat_row, flat_rows, object_keys, scalar_flags, sound_flags,
    union_columns, with_new_names,
};
use crate::error::{path_view, FetchError, FetchErrorView, PathStep, PathStepView};
use crate::json::{entry_keys, Json};
use crate::sink::rendered;
use crate::table::{
    find_duplicate, first_duplicate, first_index_of, lemma_first_duplicate, lemma_first_index_is,
    lemma_first_index_of, rectangular, row_view, rows_view, strings_view, Cell, CellView, Table,
    TableView,
};

verus! {

/// The cell that a field of delimited text is read back as: null for the
/// empty text, and the text otherwise.
pub open spec fn text_cell(text: Seq<char>) -> CellView {
    if text.len() == 0 {
        CellView::Null
    } else {
        CellView::Text(text)
    }
}

/// The models of rows of texts, in order.
pub open spec fn texts_view(rows: Seq<Vec<String>>) -> Seq<Seq<Seq<char>>> {
    Seq::new(rows.len(), |i: int| strings_view(rows[i]@))
}

/// The smaller of two lengths.
pub open spec fn shorter(a: nat, b: nat) -> nat {
    if a <= b {
        a
    } else {
        b
    }
}

/// Whether a value stands for a text read from a field: null for the empty
/// text, and otherwise the string of that text.
pub open spec fn is_text_value(value: Json, text: Seq<char>) -> bool {
    if text.len() == 0 {
        value is Null
    } else {
        value is Str && value->Str_0@ == text
    }
}

/// Whether a value is the record of a row of texts under a header: an object
/// whose fields are, position by position, the header's names with the row's
/// texts, as far as both reach.
pub open spec fn is_record_of(item: Json, header: Seq<Seq<char>>, row: Seq<Seq<char>>) -> bool {
    &&& item is Object
    &&& entry_keys(item->Object_0@) == header.take(shorter(header.len(), row.len()) as int)
    &&& forall|c: int|
        0 <= c < shorter(header.len(), row.len()) ==> is_text_value(
            (#[trigger] item->Object_0@[c]).1,
            row[c],
        )
}

/// Whether a document is the flat array of the records of rows of texts under
/// a header, in order.
pub open spec fn is_records_of(
    doc: Json,
    header: Seq<Seq<char>>,
    rows: Seq<Seq<Seq<char>>>,
) -> bool {
    &&& doc is Array
    &&& doc->Array_0@.len() == rows.len()
    &&& forall|i: int|
        0 <= i < rows.len() ==> is_record_of(#[trigger] doc->Array_0@[i], header, rows[i])
}

/// The record of a row of texts under a header.
fn record_from_row(header: &Vec<String>, row: &Vec<String>) -> (r: Json)
    ensures
        is_record_of(r, strings_view(header@), strings_view(row@)),
{
    let ghost names = strings_view(header@);
    let ghost fields = strings_view(row@);
    let mut entries: Vec<(String, Json)> = Vec::new();
    let mut c: usize = 0;
    while c < header.len() && c < row.len()
        invariant
            c <= header.len(),
            c <= row.len(),
            names == strings_view(header@),
            fields == strings_view(row@),
            entries@.len() == c,
            entry_keys(entries@) == names.take(c as int),
            forall|k: int| 0 <= k < c ==> is_text_value((#[trigger] entries@[k]).1, fields[k]),
        decreases header.len() - c,
    {
        let ghost before = entries@;
        let value = if row[c].as_str().is_empty() {
            Json::Null
        } else {
            Json::Str(row[c].clone())
        };
        let name = header[c].clone();
        entries.push((name, value));
        proof {
            assert(entry_keys(entries@) =~= entry_keys(before).push(name@));
            assert(names.take(c + 1) =~= names.take(c as int).push(name@));
            assert forall|k: int| 0 <= k < c + 1 implies is_text_value(
                (#[trigger] entries@[k]).1,
                fields[k],
            ) by {
                if k < c {
                    assert(entries@[k] == before[k]);
                }
            }
        }
        c += 1;
    }
    Json::Object(entries)
}

/// The flat array of records that rows of delimited text stand for: each row
/// is an object whose fields are the header's names, in order, with the row's
/// texts; an empty text is null. A row is read as far as it and the header
/// reach.
pub fn records_from_rows(header: &Vec<String>, rows: &Vec<Vec<String>>) -> (r: Json)
    ensures
        is_records_of(r, strings_view(header@), texts_view(rows@)),
{
    let mut items: Vec<Json> = Vec::new();
    let mut i: usize = 0;
    while i < rows.len()
        invariant
            i <= rows.len(),
            items@.len() == i,
            forall|k: int|
                0 <= k < i ==> is_record_of(
                    #[trigger] items@[k],
                    strings_view(header@),
                    texts_view(rows@)[k],
                ),
        decreases rows.len() - i,
    {
        let ghost before = items@;
        let item = record_from_row(header, &rows[i]);
        items.push(item);
        proof {
            assert forall|k: int| 0 <= k < i + 1 implies is_record_of(
                #[trigger] items@[k],
                strings_view(header@),
                texts_view(rows@)[k],
            ) by {
                if k < i {
                    assert(items@[k] == before[k]);
                }
            }
        }
        i += 1;
    }
    Json::Array(items)
}

/// The rows of cells that rows of texts are read back as.
pub open spec fn text_rows(rows: Seq<Seq<Seq<char>>>) -> Seq<Seq<CellView>> {
    Seq::new(rows.len(), |i: int| Seq::new(rows[i].len(), |c: int| text_cell(rows[i][c])))
}

/// Names that are all new are all added.
pub proof fn lemma_all_names_new(names: Seq<Seq<char>>, m: nat)
    requires
        m <= names.len(),
        names.no_duplicates(),
    ensures
        with_new_names(Seq::empty(), names, m) == names.take(m as int),
    decreases m,
{
    if m == 0 {
        assert(names.take(0) =~= Seq::<Seq<char>>::empty());
    } else {
        lemma_all_names_new(names, (m - 1) as nat);
        let before = names.take(m - 1);
        lemma_first_index_of(before, names[m - 1]);
        if first_index_of(before, names[m - 1]) is Some {
            let j = first_index_of(before, names[m - 1]).unwrap();
            assert(before[j] == names[j]);
        }
        assert(names.take(m as int) =~= before.push(names[m - 1]));
    }
}

/// Names that are among the columns already add nothing.
pub proof fn lemma_no_names_new(columns: Seq<Seq<char>>, names: Seq<Seq<char>>, m: nat)
    requires
        m <= names.len(),
        forall|j: int| 0 <= j < m ==> columns.contains(#[trigger] names[j]),
    ensures
        with_new_names(columns, names, m) == columns,
    decreases m,
{
    if m > 0 {
        lemma_no_names_new(columns, names, (m - 1) as nat);
        lemma_first_index_of(columns, names[m - 1]);
        assert(columns.contains(names[m - 1]));
    }
}

/// The columns found in records that all carry the header's names are the
/// header.
pub proof fn lemma_union_of_same_keys(items: Seq<Json>, header: Seq<Seq<char>>, n: nat)
    requires
        0 < n <= items.len(),
        header.no_duplicates(),
        forall|i: int| 0 <= i < items.len() ==> object_keys(#[trigger] items[i]) == header,
    ensures
        union_columns(items, n) == header,
    decreases n,
{
    if n == 1 {
        assert(union_columns(items, 0) =~= Seq::<Seq<char>>::empty());
        lemma_all_names_new(header, header.len());
        assert(header.take(header.len() as int) =~= header);
    } else {
        lemma_union_of_same_keys(items, header, (n - 1) as nat);
        assert forall|j: int| 0 <= j < header.len() implies header.contains(
            #[trigger] header[j],
        ) by {}
        lemma_no_names_new(header, header, header.len());
    }
}

/// Reading back the records of rows of texts gives the header as the columns
/// and each text as its cell: where no header name occurs twice, there is at
/// least one row, and each row has a text for each name.
pub proof fn lemma_records_round_trip(
    doc: Json,
    header: Seq<Seq<char>>,
    rows: Seq<Seq<Seq<char>>>,
)
    requires
        header.no_duplicates(),
        rows.len() > 0,
        forall|i: int| 0 <= i < rows.len() ==> (#[trigger] rows[i]).len() == header.len(),
        is_records_of(doc, header, rows),
    ensures
        extract_flat_spec(doc) == Ok::<TableView, Seq<PathStepView>>(
            TableView { columns: header, rows: text_rows(rows) },
        ),
{
    let items = doc->Array_0@;
    assert forall|i: int| 0 <= i < items.len() implies object_keys(#[trigger] items[i])
        == header by {
        assert(is_record_of(items[i], header, rows[i]));
        assert(header.take(header.len() as int) =~= header);
    }
    lemma_first_index_of(sound_flags(items), false);
    assert forall|k: int| 0 <= k < items.len() implies sound_flags(items)[k] != false by {
        assert(is_record_of(items[k], header, rows[k]));
        let entries = items[k]->Object_0@;
        lemma_first_index_of(scalar_flags(entries), false);
        assert forall|e: int| 0 <= e < entries.len() implies scalar_flags(entries)[e]
            != false by {
            assert(is_text_value(entries[e].1, rows[k][e]));
        }
    }
    lemma_union_of_same_keys(items, header, items.len());
    let got = flat_rows(items, header);
    let want = text_rows(rows);
    assert forall|i: int| 0 <= i < items.len() implies #[trigger] got[i] == want[i] by {
        assert(is_record_of(items[i], header, rows[i]));
        assert(header.take(header.len() as int) =~= header);
        assert forall|c: int| 0 <= c < header.len() implies flat_row(items[i], header)[c]
            == want[i][c] by {
            let entries = items[i]->Object_0@;
            lemma_first_index_is(entry_keys(entries), header[c], c);
            assert(is_text_value(entries[c].1, rows[i][c]));
            assert(field_cell(items[i], header[c]) == entries[c].1.cell());
        }
        assert(got[i] =~= want[i]);
    }
    assert(got =~= want);
}

/// Writing a table and reading the written records back as a flat array of
/// records reproduces the table's columns and every cell as the text it was
/// written as, for a table that has a row.
pub proof fn lemma_sink_round_trip(table: TableView, doc: Json)
    requires
        table.wf(),
        table.rows.len() > 0,
        is_records_of(doc, table.columns, written_rows(table.rows)),
    ensures
        extract_flat_spec(doc) is Ok,
        extract_flat_spec(doc)->Ok_0.columns == table.columns,
        extract_flat_spec(doc)->Ok_0.rows.len() == table.rows.len(),
        forall|i: int, c: int|
            0 <= i < table.rows.len() && 0 <= c < table.columns.len() ==> (
            #[trigger] extract_flat_spec(doc)->Ok_0.rows[i][c]).text() == table.rows[i][c].text(),
{
    let written = written_rows(table.rows);
    lemma_records_round_trip(doc, table.columns, written);
}

/// What the `csv` reader, as it is configured by default, reads from these
/// bytes: the header record and the records after it, or nothing where it
/// reports an error.
pub uninterp spec fn csv_parsed(bytes: Seq<u8>) -> Option<(Seq<Seq<char>>, Seq<Seq<Seq<char>>>)>;

/// The model of what was parsed.
pub open spec fn parsed_view(parsed: Result<(Vec<String>, Vec<Vec<String>>), csv::Error>) -> Option<
    (Seq<Seq<char>>, Seq<Seq<Seq<char>>>),
> {
    match parsed {
        Ok(p) => Some((strings_view(p.0@), texts_view(p.1@))),
        Err(_) => None,
    }
}

/// Calls `csv::Reader::from_reader` on the bytes, then `headers` and
/// `records` on the reader: the fields of the header record and of each
/// record after it, or the reader's first error. What comes back depends on
/// the bytes alone.
#[verifier::external_body]
fn parse_csv(bytes: &[u8]) -> (r: Result<(Vec<String>, Vec<Vec<String>>), csv::Error>)
    ensures
        parsed_view(r) == csv_parsed(bytes@),
{
    let mut reader = csv::Reader::from_reader(bytes);
    let header: Vec<String> = reader.headers()?.iter().map(|s| s.to_owned()).collect();
    let mut rows: Vec<Vec<String>> = Vec::new();
    for record in reader.records() {
        rows.push(record?.iter().map(|s| s.to_owned()).collect());
    }
    Ok((header, rows))
}

/// For each row, whether it has `width` texts.
pub open spec fn width_flags(rows: Seq<Seq<Seq<char>>>, width: nat) -> Seq<bool> {
    Seq::new(rows.len(), |i: int| rows[i].len() == width)
}

/// The table that a header and rows of texts are read as: the header's names
/// are the columns, and each text is a cell, null where it is empty. With the
/// header as record 0 and the rows after it, it fails at the position in the
/// header of a name that stood there before, and at the record of the first
/// row that has not one text for each column.
pub open spec fn read_table_spec(header: Seq<Seq<char>>, rows: Seq<Seq<Seq<char>>>) -> Result<
    TableView,
    Seq<PathStepView>,
> {
    match first_duplicate(header) {
        Some(d) => Err(seq![PathStepView::Index(0), PathStepView::Index(d as nat)]),
        None => match first_index_of(width_flags(rows, header.len()), false) {
            Some(i) => Err(seq![PathStepView::Index((i + 1) as nat)]),
            None => Ok(TableView { columns: header, rows: text_rows(rows) }),
        },
    }
}

/// The cells that the texts of a row are read as.
fn cells_from_texts(row: &Vec<String>) -> (r: Vec<Cell>)
    ensures
        r@.len() == row@.len(),
        row_view(r@) == Seq::new(row@.len(), |c: int| text_cell(strings_view(row@)[c])),
{
    let ghost want = Seq::new(row@.len(), |c: int| text_cell(strings_view(row@)[c]));
    let mut cells: Vec<Cell> = Vec::new();
    let mut c: usize = 0;
    while c < row.len()
        invariant
            c <= row.len(),
            cells@.len() == c,
            want == Seq::new(row@.len(), |k: int| text_cell(strings_view(row@)[k])),
            row_view(cells@) == want.take(c as int),
        decreases row.len() - c,
    {
        let ghost before = cells@;
        let cell = if row[c].as_str().is_empty() {
            Cell::Null
        } else {
            Cell::Text(row[c].clone())
        };
        cells.push(cell);
        proof {
            assert(strings_view(row@)[c as int] == row@[c as int]@);
            assert(row_view(cells@) =~= row_view(before).push(cell@));
            assert(want.take(c + 1) =~= want.take(c as int).push(cell@));
        }
        c += 1;
    }
    proof {
        assert(want.take(row@.len() as int) =~= want);
    }
    cells
}

/// The table that a header and rows of texts are read as.
///
/// The header's names are the columns, and each text is a cell, null where
/// it is empty. Counting the header as record 0, a name that stands in the
/// header for the second time is a schema error at its position in record 0,
/// and a row that has not one text for each column is a schema error at its
/// record.
pub fn table_from_texts(header: Vec<String>, rows: &Vec<Vec<String>>) -> (r: Result<
    Table,
    FetchError,
>)
    ensures
        agrees(r, read_table_spec(strings_view(header@), texts_view(rows@))),
        r is Ok ==> r->Ok_0@.wf(),
{
    proof {
        lemma_first_duplicate(strings_view(header@));
    }
    match find_duplicate(&header) {
        Some(d) => {
            let path: Vec<PathStep> = vec![PathStep::Index(0), PathStep::Index(d)];
            assert(path_view(path@) =~= seq![
                PathStepView::Index(0),
                PathStepView::Index(d as nat),
            ]);
            return Err(FetchError::Schema { path });
        },
        None => {},
    }
    let ghost all = texts_view(rows@);
    let width = header.len();
    let mut out: Vec<Vec<Cell>> = Vec::new();
    let mut i: usize = 0;
    while i < rows.len()
        invariant
            i <= rows.len(),
            width == header@.len(),
            all == texts_view(rows@),
            first_duplicate(strings_view(header@)) is None,
            forall|k: int| 0 <= k < i ==> width_flags(all, width as nat)[k] != false,
            rows_view(out@) == text_rows(all).take(i as int),
            rectangular(out@, width as nat),
        decreases rows.len() - i,
    {
        let ghost before = out@;
        proof {
            assert(all[i as int] == strings_view(rows@[i as int]@));
        }
        if rows[i].len() != width {
            let path: Vec<PathStep> = vec![PathStep::Index(i + 1)];
            proof {
                assert(path_view(path@) =~= seq![PathStepView::Index((i + 1) as nat)]);
                lemma_first_index_is(width_flags(all, width as nat), false, i as int);
            }
            return Err(FetchError::Schema { path });
        }
        let cells = cells_from_texts(&rows[i]);
        out.push(cells);
        proof {
            assert(text_rows(all)[i as int] =~= row_view(cells@));
            assert(rows_view(out@) =~= rows_view(before).push(row_view(cells@)));
            assert(text_rows(all).take(i + 1) =~= text_rows(all).take(i as int).push(
                row_view(cells@),
            ));
        }
        i += 1;
    }
    proof {
        lemma_first_index_of(width_flags(all, width as nat), false);
        assert(text_rows(all).take(rows@.len() as int) =~= text_rows(all));
        assert(strings_view(header@).len() == header@.len());
    }
    Ok(Table::new(header, out).unwrap())
}

/// The table of parsed delimited text, given what parsing gave: the table
/// that the header and the rows are read as, or a schema error at the root
/// where the text could not be parsed.
pub fn table_from_parsed(parsed: Result<(Vec<String>, Vec<Vec<String>>), csv::Error>) -> (r: Result<
    Table,
    FetchError,
>)
    ensures
        match parsed_view(parsed) {
            Some(p) => agrees(r, read_table_spec(p.0, p.1)),
            None => r is Err && r->Err_0@ == (FetchErrorView::Schema { path: Seq::empty() }),
        },
        r is Ok ==> r->Ok_0@.wf(),
{
    match parsed {
        Ok(p) => {
            let (header, rows) = p;
            table_from_texts(header, &rows)
        },
        Err(_) => {
            let path: Vec<PathStep> = Vec::new();
            assert(path_view(path@) =~= Seq::empty());
            Err(FetchError::Schema { path })
        },
    }
}

/// The table of delimited text: its first record is the header, and each
/// record after it a row.
///
/// The text is parsed into records, and the header and the rows are read as
/// [`table_from_texts`] says. Text that cannot be parsed is a schema error at
/// the root.
pub fn read_table(bytes: &[u8]) -> (r: Result<Table, FetchError>)
    ensures
        match csv_parsed(bytes@) {
            Some(p) => agrees(r, read_table_spec(p.0, p.1)),
            None => r is Err && r->Err_0@ == (FetchErrorView::Schema { path: Seq::empty() }),
        },
        r is Ok ==> r->Ok_0@.wf(),
{
    table_from_parsed(parse_csv(bytes))
}

/// The rows of texts that rows of cells are written as.
pub open spec fn written_rows(rows: Seq<Seq<CellView>>) -> Seq<Seq<Seq<char>>> {
    Seq::new(rows.len(), |i: int| rendered(rows[i]))
}

/// Reading back the header and the rows that a table is written as gives the
/// table's columns and, for every cell, a cell of the same text.
pub proof fn lemma_written_fields_read_back(table: TableView)
    requires
        table.wf(),
    ensures
        read_table_spec(table.columns, written_rows(table.rows)) is Ok,
        read_table_spec(table.columns, written_rows(table.rows))->Ok_0.columns == table.columns,
        read_table_spec(table.columns, written_rows(table.rows))->Ok_0.rows.len()
            == table.rows.len(),
        forall|i: int, c: int|
            0 <= i < table.rows.len() && 0 <= c < table.columns.len() ==> (
            #[trigger] read_table_spec(table.columns, written_rows(table.rows))->Ok_0.rows[i][c]).text()
                == table.rows[i][c].text(),
{
    let written = written_rows(table.rows);
    lemma_first_duplicate(table.columns);
    lemma_first_index_of(width_flags(written, table.columns.len()), false);
    assert forall|k: int| 0 <= k < written.len() implies width_flags(
        written,
        table.columns.len(),
    )[k] != false by {
        assert(table.rows[k].len() == table.columns.len());
    }
}

} // verus!
