use vstd::prelude::*;
use crate::error::{path_view, FetchError, FetchErrorView, PathStep, PathStepView};
use crate::json::{copy_steps, entry_keys, follow, walk, walk_spec, Json};
use crate::text::text_eq;
use crate::table::{
    find_duplicate, first_duplicate, first_index_of, index_of, lemma_first_duplicate,
    lemma_first_index_is, lemma_first_index_of, rectangular, row_view, rows_view, strings_view,
    Cell, CellView, Table, TableView,
};

verus! {

/// Whether an extraction returned what its description gives: the table, or
/// the schema error that names the offending path.
pub open spec fn agrees(
    r: Result<Table, FetchError>,
    expected: Result<TableView, Seq<PathStepView>>,
) -> bool {
    match (r, expected) {
        (Ok(t), Ok(v)) => t@ == v,
        (Err(e), Err(p)) => e@ == (FetchErrorView::Schema { path: p }),
        _ => false,
    }
}

/// The names of the fields of a value, in order; none where it is no object.
pub open spec fn object_keys(item: Json) -> Seq<Seq<char>> {
    match item {
        Json::Object(entries) => entry_keys(entries@),
        _ => Seq::empty(),
    }
}

/// The columns, followed by those of the first `m` names that are not among
/// them yet, each once, in their order.
pub open spec fn with_new_names(columns: Seq<Seq<char>>, names: Seq<Seq<char>>, m: nat) -> Seq<
    Seq<char>,
>
    decreases m,
{
    if m == 0 {
        columns
    } else {
        let before = with_new_names(columns, names, (m - 1) as nat);
        if first_index_of(before, names[m - 1]) is Some {
            before
        } else {
            before.push(names[m - 1])
        }
    }
}

/// The field names of the first `n` records, each once, in the order in which
/// they are first seen.
pub open spec fn union_columns(items: Seq<Json>, n: nat) -> Seq<Seq<char>>
    decreases n,
{
    if n == 0 {
        Seq::empty()
    } else {
        let names = object_keys(items[n - 1]);
        with_new_names(union_columns(items, (n - 1) as nat), names, names.len())
    }
}

/// The cell of a record under a column: that of its field of that name, null
/// where it has none.
pub open spec fn field_cell(item: Json, column: Seq<char>) -> CellView {
    match item.spec_get(column) {
        Some(v) => v.cell(),
        None => CellView::Null,
    }
}

/// The row of a record: a cell for each column.
pub open spec fn flat_row(item: Json, columns: Seq<Seq<char>>) -> Seq<CellView> {
    Seq::new(columns.len(), |c: int| field_cell(item, columns[c]))
}

/// The rows of the records, in order.
pub open spec fn flat_rows(items: Seq<Json>, columns: Seq<Seq<char>>) -> Seq<Seq<CellView>> {
    Seq::new(items.len(), |i: int| flat_row(items[i], columns))
}

/// For each field, whether its value is a scalar.
pub open spec fn scalar_flags(entries: Seq<(String, Json)>) -> Seq<bool> {
    Seq::new(entries.len(), |e: int| entries[e].1.is_scalar())
}

/// What is wrong with a record, as the path to it inside the record: nothing
/// where the record is an object whose fields all hold scalars, the empty
/// path where it is no object, and otherwise the name of its first field
/// that holds an array or an object.
pub open spec fn record_fault(item: Json) -> Option<Seq<PathStepView>> {
    match item {
        Json::Object(entries) => match first_index_of(scalar_flags(entries@), false) {
            Some(e) => Some(seq![PathStepView::Key(entries@[e].0@)]),
            None => None,
        },
        _ => Some(Seq::empty()),
    }
}

/// For each record, whether nothing is wrong with it.
pub open spec fn sound_flags(items: Seq<Json>) -> Seq<bool> {
    Seq::new(items.len(), |i: int| record_fault(items[i]) is None)
}

/// The table of a flat array of records: the columns are the union of the
/// records' field names in first-seen order, and each record gives a row. A
/// document that is no array fails at its root. The first element that is no
/// object fails at its position, and the first record with a field that
/// holds an array or an object fails at that field under its position.
pub open spec fn extract_flat_spec(doc: Json) -> Result<TableView, Seq<PathStepView>> {
    match doc {
        Json::Array(items) => match first_index_of(sound_flags(items@), false) {
            Some(i) => Err(
                seq![PathStepView::Index(i as nat)] + record_fault(items@[i]).unwrap(),
            ),
            None => {
                let columns = union_columns(items@, items@.len());
                Ok(TableView { columns, rows: flat_rows(items@, columns) })
            },
        },
        _ => Err(Seq::empty()),
    }
}

/// Adds to `columns` each of the names of `entries` that it does not hold yet.
fn add_new_names(columns: &mut Vec<String>, entries: &Vec<(String, Json)>)
    ensures
        strings_view(final(columns)@) == with_new_names(
            strings_view(old(columns)@),
            entry_keys(entries@),
            entries@.len(),
        ),
{
    let ghost start = strings_view(columns@);
    let ghost names = entry_keys(entries@);
    let mut j: usize = 0;
    while j < entries.len()
        invariant
            j <= entries.len(),
            names == entry_keys(entries@),
            strings_view(columns@) == with_new_names(start, names, j as nat),
        decreases entries.len() - j,
    {
        let ghost before = columns@;
        if index_of(columns, entries[j].0.as_str()).is_none() {
            let name = entries[j].0.clone();
            columns.push(name);
            assert(strings_view(columns@) =~= strings_view(before).push(name@));
        }
        j += 1;
    }
}

/// The position of the first field whose value is no scalar.
fn nested_field(entries: &Vec<(String, Json)>) -> (r: Option<usize>)
    ensures
        match r {
            Some(e) => first_index_of(scalar_flags(entries@), false) == Some(e as int) && e
                < entries@.len(),
            None => first_index_of(scalar_flags(entries@), false) is None,
        },
{
    let mut e: usize = 0;
    while e < entries.len()
        invariant
            e <= entries.len(),
            forall|k: int| 0 <= k < e ==> scalar_flags(entries@)[k] != false,
        decreases entries.len() - e,
    {
        if !entries[e].1.scalar() {
            proof {
                lemma_first_index_is(scalar_flags(entries@), false, e as int);
            }
            return Some(e);
        }
        e += 1;
    }
    proof {
        lemma_first_index_of(scalar_flags(entries@), false);
    }
    None
}

/// Every field of a record with which nothing is wrong holds a scalar.
pub proof fn lemma_field_is_scalar(item: Json, name: Seq<char>)
    requires
        record_fault(item) is None,
        item.spec_get(name) is Some,
    ensures
        item.spec_get(name)->Some_0.is_scalar(),
{
    let entries = item->Object_0@;
    lemma_first_index_of(scalar_flags(entries), false);
    lemma_first_index_of(entry_keys(entries), name);
    let i = first_index_of(entry_keys(entries), name).unwrap();
    assert(scalar_flags(entries)[i] != false);
}

/// The row of a record under the columns.
fn flat_row_of(item: &Json, columns: &Vec<String>) -> (r: Vec<Cell>)
    requires
        record_fault(*item) is None,
    ensures
        row_view(r@) == flat_row(*item, strings_view(columns@)),
        r@.len() == columns@.len(),
{
    let mut row: Vec<Cell> = Vec::new();
    let mut c: usize = 0;
    while c < columns.len()
        invariant
            c <= columns.len(),
            row@.len() == c,
            record_fault(*item) is None,
            row_view(row@) == flat_row(*item, strings_view(columns@)).take(c as int),
        decreases columns.len() - c,
    {
        let ghost before = row@;
        let cell = match item.get(columns[c].as_str()) {
            Some(v) => {
                proof {
                    lemma_field_is_scalar(*item, columns@[c as int]@);
                }
                v.to_cell()
            },
            None => Cell::Null,
        };
        row.push(cell);
        proof {
            assert(strings_view(columns@)[c as int] == columns@[c as int]@);
            assert(row_view(row@) =~= row_view(before).push(cell@));
            assert(flat_row(*item, strings_view(columns@)).take(c + 1) =~= flat_row(
                *item,
                strings_view(columns@),
            ).take(c as int).push(cell@));
        }
        c += 1;
    }
    proof {
        assert(flat_row(*item, strings_view(columns@)).take(columns@.len() as int) =~= flat_row(
            *item,
            strings_view(columns@),
        ));
    }
    row
}

/// The table of a flat array of records whose field names may differ.
///
/// The columns are the union of the field names over all the records, in the
/// order in which they are first seen, and every row has a cell for each of
/// them: the record's value, or null where the record lacks the field. The
/// extraction fails with a schema error that names the offending path: the
/// empty path where the document is no array; the position of the first
/// element that is no object; and, where a field of a record holds an array
/// or an object, that field under the record's position. No table is
/// returned for a document with such a record.
pub fn extract_flat(doc: &Json) -> (r: Result<Table, FetchError>)
    ensures
        agrees(r, extract_flat_spec(*doc)),
        r is Ok ==> r->Ok_0@.wf(),
{
    let items = match doc {
        Json::Array(items) => items,
        _ => {
            let path: Vec<PathStep> = Vec::new();
            assert(path_view(path@) =~= Seq::empty());
            return Err(FetchError::Schema { path });
        },
    };
    let mut columns: Vec<String> = Vec::new();
    let mut i: usize = 0;
    while i < items.len()
        invariant
            i <= items.len(),
            *doc == Json::Array(*items),
            forall|k: int| 0 <= k < i ==> sound_flags(items@)[k] != false,
            strings_view(columns@) == union_columns(items@, i as nat),
        decreases items.len() - i,
    {
        match &items[i] {
            Json::Object(entries) => {
                match nested_field(entries) {
                    Some(e) => {
                        let path: Vec<PathStep> = vec![
                            PathStep::Index(i),
                            PathStep::Key(entries[e].0.clone()),
                        ];
                        proof {
                            assert(path_view(path@) =~= seq![PathStepView::Index(i as nat)]
                                + seq![PathStepView::Key(entries@[e as int].0@)]);
                            lemma_first_index_is(sound_flags(items@), false, i as int);
                        }
                        return Err(FetchError::Schema { path });
                    },
                    None => {},
                }
                add_new_names(&mut columns, entries);
            },
            _ => {
                let path: Vec<PathStep> = vec![PathStep::Index(i)];
                proof {
                    assert(path_view(path@) =~= seq![PathStepView::Index(i as nat)]
                        + Seq::<PathStepView>::empty());
                    lemma_first_index_is(sound_flags(items@), false, i as int);
                }
                return Err(FetchError::Schema { path });
            },
        }
        i += 1;
    }
    proof {
        lemma_first_index_of(sound_flags(items@), false);
    }
    let mut rows: Vec<Vec<Cell>> = Vec::new();
    let mut k: usize = 0;
    while k < items.len()
        invariant
            k <= items.len(),
            forall|q: int| 0 <= q < items@.len() ==> sound_flags(items@)[q] != false,
            rows_view(rows@) == flat_rows(items@, strings_view(columns@)).take(k as int),
            rectangular(rows@, columns@.len() as nat),
        decreases items.len() - k,
    {
        let ghost before = rows@;
        assert(sound_flags(items@)[k as int] != false);
        let row = flat_row_of(&items[k], &columns);
        rows.push(row);
        proof {
            assert(rows_view(rows@) =~= rows_view(before).push(row_view(row@)));
            assert(flat_rows(items@, strings_view(columns@)).take(k + 1) =~= flat_rows(
                items@,
                strings_view(columns@),
            ).take(k as int).push(row_view(row@)));
        }
        k += 1;
    }
    proof {
        assert(flat_rows(items@, strings_view(columns@)).take(items@.len() as int) =~= flat_rows(
            items@,
            strings_view(columns@),
        ));
        lemma_union_columns(items@, items@.len());
    }
    Ok(Table::new(columns, rows).unwrap())
}

/// The elements of a document that is an array.
pub open spec fn records(doc: Json) -> Seq<Json> {
    match doc {
        Json::Array(items) => items@,
        _ => Seq::empty(),
    }
}

/// Adding new names keeps the columns without duplicates, and the result
/// holds just the columns and the names that were read.
pub proof fn lemma_with_new_names(columns: Seq<Seq<char>>, names: Seq<Seq<char>>, m: nat)
    requires
        m <= names.len(),
        columns.no_duplicates(),
    ensures
        with_new_names(columns, names, m).no_duplicates(),
        forall|x: Seq<char>| #[trigger]
            with_new_names(columns, names, m).contains(x) <==> columns.contains(x) || names.take(
                m as int,
            ).contains(x),
    decreases m,
{
    let result = with_new_names(columns, names, m);
    if m == 0 {
        assert(names.take(0) =~= Seq::empty());
    } else {
        let before = with_new_names(columns, names, (m - 1) as nat);
        let name = names[m - 1];
        lemma_with_new_names(columns, names, (m - 1) as nat);
        lemma_first_index_of(before, name);
        let shorter = names.take(m - 1);
        let longer = names.take(m as int);
        assert(longer =~= shorter.push(name));
        assert forall|x: Seq<char>| #[trigger]
            result.contains(x) <==> columns.contains(x) || longer.contains(x) by {
            if result.contains(x) {
                let i = choose|i: int| 0 <= i < result.len() && result[i] == x;
                if i < before.len() {
                    assert(before[i] == x);
                    assert(before.contains(x));
                    if shorter.contains(x) {
                        let j = choose|j: int| 0 <= j < shorter.len() && shorter[j] == x;
                        assert(longer[j] == x);
                    }
                } else {
                    assert(longer[m - 1] == x);
                }
            }
            if columns.contains(x) {
                assert(before.contains(x));
                let i = choose|i: int| 0 <= i < before.len() && before[i] == x;
                assert(result[i] == x);
            }
            if longer.contains(x) {
                let j = choose|j: int| 0 <= j < longer.len() && longer[j] == x;
                if j < m - 1 {
                    assert(shorter[j] == x);
                    assert(before.contains(x));
                    let i = choose|i: int| 0 <= i < before.len() && before[i] == x;
                    assert(result[i] == x);
                } else if first_index_of(before, name) is Some {
                    let i = first_index_of(before, name).unwrap();
                    assert(result[i] == x);
                } else {
                    assert(result[before.len() as int] == x);
                }
            }
        }
    }
}

/// The columns found in the first `n` records hold no name twice, and hold
/// just the names of those records' fields.
pub proof fn lemma_union_columns(items: Seq<Json>, n: nat)
    requires
        n <= items.len(),
    ensures
        union_columns(items, n).no_duplicates(),
        forall|x: Seq<char>| #[trigger]
            union_columns(items, n).contains(x) <==> exists|i: int|
                0 <= i < n && #[trigger] object_keys(items[i]).contains(x),
    decreases n,
{
    if n > 0 {
        let before = union_columns(items, (n - 1) as nat);
        let names = object_keys(items[n - 1]);
        lemma_union_columns(items, (n - 1) as nat);
        lemma_with_new_names(before, names, names.len());
        assert(names.take(names.len() as int) =~= names);
        assert forall|x: Seq<char>| #[trigger]
            union_columns(items, n).contains(x) <==> exists|i: int|
                0 <= i < n && #[trigger] object_keys(items[i]).contains(x) by {
            if before.contains(x) {
                let i = choose|i: int| 0 <= i < n - 1 && #[trigger] object_keys(items[i]).contains(x);
                assert(0 <= i < n && object_keys(items[i]).contains(x));
            }
            if exists|i: int| 0 <= i < n && #[trigger] object_keys(items[i]).contains(x) {
                let i = choose|i: int| 0 <= i < n && #[trigger] object_keys(items[i]).contains(x);
                if i < n - 1 {
                    assert(before.contains(x));
                }
            }
        }
    }
}

/// The column set of a flat extraction is the union of the field names over
/// all the records, no name twice, and every row has exactly one cell for
/// each column; there is a row for each record.
pub proof fn lemma_flat_columns_are_union(doc: Json)
    requires
        extract_flat_spec(doc) is Ok,
    ensures
        extract_flat_spec(doc)->Ok_0.unique_columns(),
        extract_flat_spec(doc)->Ok_0.wf(),
        extract_flat_spec(doc)->Ok_0.rows.len() == records(doc).len(),
        forall|x: Seq<char>| #[trigger]
            extract_flat_spec(doc)->Ok_0.columns.contains(x) <==> exists|i: int|
                0 <= i < records(doc).len() && #[trigger] object_keys(records(doc)[i]).contains(x),
{
    lemma_union_columns(records(doc), records(doc).len());
}

/// For each value, whether it is a string.
pub open spec fn string_flags(items: Seq<Json>) -> Seq<bool> {
    Seq::new(items.len(), |i: int| items[i] is Str)
}

/// The texts of values that are strings, in order.
pub open spec fn texts(items: Seq<Json>) -> Seq<Seq<char>> {
    Seq::new(
        items.len(),
        |i: int|
            match items[i] {
                Json::Str(s) => s@,
                _ => Seq::empty(),
            },
    )
}

/// For each value, whether it is a scalar.
pub open spec fn value_flags(items: Seq<Json>) -> Seq<bool> {
    Seq::new(items.len(), |c: int| items[c].is_scalar())
}

/// What is wrong with a row, as the path to it inside the row: nothing where
/// the row is an array of `width` scalars, the empty path where it is no
/// array of `width` values, and otherwise the position of its first value
/// that is an array or an object.
pub open spec fn row_fault(row: Json, width: nat) -> Option<Seq<PathStepView>> {
    match row {
        Json::Array(cells) => if cells@.len() != width {
            Some(Seq::empty())
        } else {
            match first_index_of(value_flags(cells@), false) {
                Some(c) => Some(seq![PathStepView::Index(c as nat)]),
                None => None,
            }
        },
        _ => Some(Seq::empty()),
    }
}

/// For each row, whether nothing is wrong with it.
pub open spec fn row_flags(rows: Seq<Json>, width: nat) -> Seq<bool> {
    Seq::new(rows.len(), |i: int| row_fault(rows[i], width) is None)
}

/// The cells of values, in order.
pub open spec fn cells_of(items: Seq<Json>) -> Seq<CellView> {
    Seq::new(items.len(), |i: int| items[i].cell())
}

/// The rows of cells of values that are arrays, in order.
pub open spec fn array_rows(rows: Seq<Json>) -> Seq<Seq<CellView>> {
    Seq::new(rows.len(), |i: int| cells_of(records(rows[i])))
}

/// The name of each result set, where it has one that is a string.
pub open spec fn set_names(sets: Seq<Json>) -> Seq<Option<Seq<char>>> {
    Seq::new(
        sets.len(),
        |i: int|
            match sets[i].spec_get("name"@) {
                Some(Json::Str(s)) => Some(s@),
                _ => None,
            },
    )
}

/// The position of the result set that is asked for: the first, or the first
/// of the given name.
pub open spec fn select_set(sets: Seq<Json>, name: Option<Seq<char>>) -> Option<int> {
    match name {
        None => if sets.len() > 0 {
            Some(0)
        } else {
            None
        },
        Some(n) => first_index_of(set_names(sets), Some(n)),
    }
}

/// The table of one result set, which stands at the path `at`: its headers
/// are the columns and its row arrays the rows. It fails where the headers
/// are missing or no array, at a header that is no string or that stood
/// among the headers before, where the rows are missing or no array, at a
/// row that is no array of one value for each header, and at a value of a
/// row that is an array or an object.
pub open spec fn result_set_table(set: Json, at: Seq<PathStepView>) -> Result<
    TableView,
    Seq<PathStepView>,
> {
    match set.spec_get("headers"@) {
        Some(Json::Array(headers)) => match first_index_of(string_flags(headers@), false) {
            Some(h) => Err(
                at.push(PathStepView::Key("headers"@)).push(PathStepView::Index(h as nat)),
            ),
            None => match first_duplicate(texts(headers@)) {
                Some(d) => Err(
                    at.push(PathStepView::Key("headers"@)).push(PathStepView::Index(d as nat)),
                ),
                None => match set.spec_get("rowSet"@) {
                    Some(Json::Array(rows)) => match first_index_of(
                        row_flags(rows@, headers@.len()),
                        false,
                    ) {
                        Some(r) => Err(
                            at.push(PathStepView::Key("rowSet"@)).push(
                                PathStepView::Index(r as nat),
                            ) + row_fault(rows@[r], headers@.len()).unwrap(),
                        ),
                        None => Ok(
                            TableView { columns: texts(headers@), rows: array_rows(rows@) },
                        ),
                    },
                    _ => Err(at.push(PathStepView::Key("rowSet"@))),
                },
            },
        },
        _ => Err(at.push(PathStepView::Key("headers"@))),
    }
}

/// The path that names the result set asked for: its name under `resultSets`,
/// or the first position there.
pub open spec fn missing_set(name: Option<Seq<char>>) -> Seq<PathStepView> {
    match name {
        Some(n) => seq![PathStepView::Key("resultSets"@), PathStepView::Key(n)],
        None => seq![PathStepView::Key("resultSets"@), PathStepView::Index(0)],
    }
}

/// The table of a results collection: that of its first result set, or of the
/// first one of the given name. It fails at `resultSets` where the document
/// has no such array, and at the name, or at the first position, where the
/// result set asked for is not there.
pub open spec fn extract_result_set_spec(doc: Json, name: Option<Seq<char>>) -> Result<
    TableView,
    Seq<PathStepView>,
> {
    match doc.spec_get("resultSets"@) {
        Some(Json::Array(sets)) => match select_set(sets@, name) {
            Some(k) => result_set_table(
                sets@[k],
                seq![PathStepView::Key("resultSets"@), PathStepView::Index(k as nat)],
            ),
            None => Err(missing_set(name)),
        },
        _ => Err(seq![PathStepView::Key("resultSets"@)]),
    }
}

/// The position of the result set that is asked for.
fn find_set(sets: &Vec<Json>, name: Option<&str>) -> (r: Option<usize>)
    ensures
        match r {
            Some(k) => select_set(sets@, name_view(name)) == Some(k as int) && k < sets@.len(),
            None => select_set(sets@, name_view(name)) is None,
        },
{
    match name {
        None => if sets.len() > 0 {
            Some(0)
        } else {
            None
        },
        Some(n) => {
            let mut k: usize = 0;
            while k < sets.len()
                invariant
                    k <= sets.len(),
                    name_view(name) == Some(n@),
                    forall|q: int| 0 <= q < k ==> set_names(sets@)[q] != Some(n@),
                decreases sets.len() - k,
            {
                let hit = match sets[k].get("name") {
                    Some(Json::Str(s)) => text_eq(s.as_str(), n),
                    _ => false,
                };
                if hit {
                    proof {
                        lemma_first_index_is(set_names(sets@), Some(n@), k as int);
                    }
                    return Some(k);
                }
                k += 1;
            }
            proof {
                lemma_first_index_of(set_names(sets@), Some(n@));
            }
            None
        },
    }
}

/// The model of a name that may be given.
pub open spec fn name_view(name: Option<&str>) -> Option<Seq<char>> {
    match name {
        Some(n) => Some(n@),
        None => None,
    }
}

/// The texts of the headers, or the position of the first that is no string.
fn header_names(headers: &Vec<Json>) -> (r: Result<Vec<String>, usize>)
    ensures
        match r {
            Ok(names) => first_index_of(string_flags(headers@), false) is None && strings_view(
                names@,
            ) == texts(headers@),
            Err(h) => first_index_of(string_flags(headers@), false) == Some(h as int),
        },
{
    let mut names: Vec<String> = Vec::new();
    let mut i: usize = 0;
    while i < headers.len()
        invariant
            i <= headers.len(),
            forall|k: int| 0 <= k < i ==> string_flags(headers@)[k] != false,
            strings_view(names@) == texts(headers@).take(i as int),
        decreases headers.len() - i,
    {
        let ghost before = names@;
        match &headers[i] {
            Json::Str(s) => {
                let name = s.clone();
                names.push(name);
                proof {
                    assert(strings_view(names@) =~= strings_view(before).push(name@));
                    assert(texts(headers@).take(i + 1) =~= texts(headers@).take(i as int).push(
                        name@,
                    ));
                }
            },
            _ => {
                proof {
                    lemma_first_index_is(string_flags(headers@), false, i as int);
                }
                return Err(i);
            },
        }
        i += 1;
    }
    proof {
        lemma_first_index_of(string_flags(headers@), false);
        assert(texts(headers@).take(headers@.len() as int) =~= texts(headers@));
    }
    Ok(names)
}

/// The position of the first value that is no scalar.
fn nested_value(items: &Vec<Json>) -> (r: Option<usize>)
    ensures
        match r {
            Some(c) => first_index_of(value_flags(items@), false) == Some(c as int),
            None => first_index_of(value_flags(items@), false) is None,
        },
{
    let mut c: usize = 0;
    while c < items.len()
        invariant
            c <= items.len(),
            forall|k: int| 0 <= k < c ==> value_flags(items@)[k] != false,
        decreases items.len() - c,
    {
        if !items[c].scalar() {
            proof {
                lemma_first_index_is(value_flags(items@), false, c as int);
            }
            return Some(c);
        }
        c += 1;
    }
    proof {
        lemma_first_index_of(value_flags(items@), false);
    }
    None
}

/// The cells of scalars.
fn cells_from(items: &Vec<Json>) -> (r: Vec<Cell>)
    requires
        first_index_of(value_flags(items@), false) is None,
    ensures
        row_view(r@) == cells_of(items@),
        r@.len() == items@.len(),
{
    proof {
        lemma_first_index_of(value_flags(items@), false);
    }
    let mut row: Vec<Cell> = Vec::new();
    let mut i: usize = 0;
    while i < items.len()
        invariant
            i <= items.len(),
            row@.len() == i,
            forall|k: int| 0 <= k < items@.len() ==> value_flags(items@)[k] != false,
            row_view(row@) == cells_of(items@).take(i as int),
        decreases items.len() - i,
    {
        let ghost before = row@;
        assert(value_flags(items@)[i as int] != false);
        let cell = items[i].to_cell();
        row.push(cell);
        proof {
            assert(row_view(row@) =~= row_view(before).push(cell@));
            assert(cells_of(items@).take(i + 1) =~= cells_of(items@).take(i as int).push(cell@));
        }
        i += 1;
    }
    proof {
        assert(cells_of(items@).take(items@.len() as int) =~= cells_of(items@));
    }
    row
}

/// The path inside a row of what is wrong at the position that may be given.
pub open spec fn fault_at(position: Option<usize>) -> Seq<PathStepView> {
    match position {
        Some(c) => seq![PathStepView::Index(c as nat)],
        None => Seq::empty(),
    }
}

/// The rows of cells of the row arrays, or else the position of the first row
/// with which something is wrong and, where that is a value of it, the
/// value's position.
fn rows_from(rows: &Vec<Json>, width: usize) -> (r: Result<Vec<Vec<Cell>>, (usize, Option<usize>)>)
    ensures
        match r {
            Ok(out) => first_index_of(row_flags(rows@, width as nat), false) is None && rows_view(
                out@,
            ) == array_rows(rows@) && rectangular(out@, width as nat),
            Err(at) => first_index_of(row_flags(rows@, width as nat), false) == Some(at.0 as int)
                && row_fault(rows@[at.0 as int], width as nat) == Some(fault_at(at.1)),
        },
{
    let mut out: Vec<Vec<Cell>> = Vec::new();
    let mut i: usize = 0;
    while i < rows.len()
        invariant
            i <= rows.len(),
            forall|k: int| 0 <= k < i ==> row_flags(rows@, width as nat)[k] != false,
            rows_view(out@) == array_rows(rows@).take(i as int),
            rectangular(out@, width as nat),
        decreases rows.len() - i,
    {
        let ghost before = out@;
        let cells = match &rows[i] {
            Json::Array(cells) => if cells.len() == width {
                Some(cells)
            } else {
                None
            },
            _ => None,
        };
        match cells {
            Some(cells) => {
                match nested_value(cells) {
                    Some(c) => {
                        proof {
                            lemma_first_index_is(row_flags(rows@, width as nat), false, i as int);
                        }
                        return Err((i, Some(c)));
                    },
                    None => {},
                }
                let row = cells_from(cells);
                out.push(row);
                proof {
                    assert(rows_view(out@) =~= rows_view(before).push(row_view(row@)));
                    assert(array_rows(rows@).take(i + 1) =~= array_rows(rows@).take(i as int).push(
                        row_view(row@),
                    ));
                }
            },
            None => {
                proof {
                    lemma_first_index_is(row_flags(rows@, width as nat), false, i as int);
                }
                return Err((i, None));
            },
        }
        i += 1;
    }
    proof {
        lemma_first_index_of(row_flags(rows@, width as nat), false);
        assert(array_rows(rows@).take(rows@.len() as int) =~= array_rows(rows@));
    }
    Ok(out)
}

/// A schema error at the path `at` followed by the field `key`.
fn error_at_key(at: Vec<PathStep>, key: &str) -> (e: FetchError)
    ensures
        e@ == (FetchErrorView::Schema { path: path_view(at@).push(PathStepView::Key(key@)) }),
{
    let mut path = at;
    let ghost before = path@;
    path.push(PathStep::Key(key.to_owned()));
    assert(path_view(path@) =~= path_view(before).push(PathStepView::Key(key@)));
    FetchError::Schema { path }
}

/// A schema error at the path `at` followed by the field `key` and the
/// position `i`.
fn error_at_key_index(at: Vec<PathStep>, key: &str, i: usize) -> (e: FetchError)
    ensures
        e@ == (FetchErrorView::Schema {
            path: path_view(at@).push(PathStepView::Key(key@)).push(PathStepView::Index(i as nat)),
        }),
{
    let mut path = at;
    let ghost before = path@;
    path.push(PathStep::Key(key.to_owned()));
    path.push(PathStep::Index(i));
    assert(path_view(path@) =~= path_view(before).push(PathStepView::Key(key@)).push(
        PathStepView::Index(i as nat),
    ));
    FetchError::Schema { path }
}

/// The table of one result set, which stands at the path `at`.
fn table_of_set(set: &Json, at: Vec<PathStep>) -> (r: Result<Table, FetchError>)
    ensures
        agrees(r, result_set_table(*set, path_view(at@))),
        r is Ok ==> r->Ok_0@.wf(),
{
    let headers = match set.get("headers") {
        Some(Json::Array(headers)) => headers,
        _ => {
            return Err(error_at_key(at, "headers"));
        },
    };
    let columns = match header_names(headers) {
        Ok(names) => names,
        Err(h) => {
            return Err(error_at_key_index(at, "headers", h));
        },
    };
    match find_duplicate(&columns) {
        Some(d) => {
            return Err(error_at_key_index(at, "headers", d));
        },
        None => {},
    }
    proof {
        lemma_first_duplicate(strings_view(columns@));
    }
    let rows = match set.get("rowSet") {
        Some(Json::Array(rows)) => rows,
        _ => {
            return Err(error_at_key(at, "rowSet"));
        },
    };
    proof {
        assert(strings_view(columns@).len() == columns@.len());
    }
    match rows_from(rows, columns.len()) {
        Ok(out) => Ok(Table::new(columns, out).unwrap()),
        Err(fault) => {
            let (i, value) = fault;
            let mut path = at;
            let ghost before = path@;
            path.push(PathStep::Key("rowSet".to_owned()));
            path.push(PathStep::Index(i));
            match value {
                Some(c) => {
                    path.push(PathStep::Index(c));
                },
                None => {},
            }
            assert(path_view(path@) =~= path_view(before).push(PathStepView::Key("rowSet"@)).push(
                PathStepView::Index(i as nat),
            ) + fault_at(value));
            Err(FetchError::Schema { path })
        },
    }
}

/// The table of a results collection: a wrapper object whose `resultSets`
/// array holds named result sets, each with `headers` and `rowSet`.
///
/// Without a name the first result set is taken, with a name the first one
/// that carries it. Its headers become the columns and its row arrays the
/// rows, each value as a cell: numbers with the digits they were written
/// with, nothing for null. The extraction fails with a schema error that
/// names the offending path: `resultSets`; the name asked for, where no
/// result set carries it; `headers` or `rowSet` of the result set, or the
/// position in them of a header that is no string or occurs for the second
/// time, or of a row that has not one value for each header; and, under the
/// position of its row, the position of a value that is an array or an
/// object.
pub fn extract_result_set(doc: &Json, name: Option<&str>) -> (r: Result<Table, FetchError>)
    ensures
        agrees(r, extract_result_set_spec(*doc, name_view(name))),
        r is Ok ==> r->Ok_0@.wf(),
{
    let sets = match doc.get("resultSets") {
        Some(Json::Array(sets)) => sets,
        _ => {
            let none: Vec<PathStep> = Vec::new();
            assert(path_view(none@) =~= Seq::empty());
            let e = error_at_key(none, "resultSets");
            assert(Seq::<PathStepView>::empty().push(PathStepView::Key("resultSets"@)) =~= seq![
                PathStepView::Key("resultSets"@),
            ]);
            return Err(e);
        },
    };
    match find_set(sets, name) {
        Some(k) => {
            let at: Vec<PathStep> = vec![PathStep::Key("resultSets".to_owned()), PathStep::Index(k)];
            assert(path_view(at@) =~= seq![
                PathStepView::Key("resultSets"@),
                PathStepView::Index(k as nat),
            ]);
            table_of_set(&sets[k], at)
        },
        None => {
            let last = match name {
                Some(n) => PathStep::Key(n.to_owned()),
                None => PathStep::Index(0),
            };
            let path: Vec<PathStep> = vec![PathStep::Key("resultSets".to_owned()), last];
            assert(path_view(path@) =~= missing_set(name_view(name)));
            Err(FetchError::Schema { path })
        },
    }
}

/// What the value of a declared column must be.
#[derive(Debug, Clone, Copy, PartialEq, Eq, Structural)]
pub enum Expect {
    /// A string.
    Text,
    /// Any scalar: null, a truth value, a number or a string.
    Scalar,
}

/// A declared column of a nested list: its name, the path inside a record to
/// the value that fills it, whether every record must have a value there,
/// and what the value must be.
#[derive(Debug, PartialEq, Eq)]
pub struct ColumnSpec {
    pub name: String,
    pub path: Vec<PathStep>,
    pub required: bool,
    pub expect: Expect,
}

/// Mathematical model of a [`ColumnSpec`].
pub struct ColumnSpecView {
    pub name: Seq<char>,
    pub path: Seq<PathStepView>,
    pub required: bool,
    pub expect: Expect,
}

impl View for ColumnSpec {
    type V = ColumnSpecView;

    open spec fn view(&self) -> ColumnSpecView {
        ColumnSpecView {
            name: self.name@,
            path: path_view(self.path@),
            required: self.required,
            expect: self.expect,
        }
    }
}

/// The models of declared columns, in order.
pub open spec fn specs_view(columns: Seq<ColumnSpec>) -> Seq<ColumnSpecView> {
    Seq::new(columns.len(), |c: int| columns[c]@)
}

/// The names of declared columns, in order.
pub open spec fn spec_names(columns: Seq<ColumnSpecView>) -> Seq<Seq<char>> {
    Seq::new(columns.len(), |c: int| columns[c].name)
}

/// Whether a value is what a column expects.
pub open spec fn fits(value: Json, expect: Expect) -> bool {
    match expect {
        Expect::Text => value is Str,
        Expect::Scalar => value.is_scalar(),
    }
}

/// The cell of a record under a declared column, or else the path inside the
/// record of what is wrong. The value that the column's path leads to gives
/// the cell where it is what the column expects, and otherwise is wrong at
/// that path. Where the path leads nowhere, a required column is wrong at the
/// path up to the step that is absent, and another column gives a null cell.
pub open spec fn column_cell(record: Json, column: ColumnSpecView) -> Result<
    CellView,
    Seq<PathStepView>,
> {
    match walk_spec(record, column.path) {
        Ok(v) => if fits(v, column.expect) {
            Ok(v.cell())
        } else {
            Err(column.path)
        },
        Err(p) => if column.required {
            Err(p)
        } else {
            Ok(CellView::Null)
        },
    }
}

/// For each declared column, whether the record has a cell under it.
pub open spec fn column_flags(record: Json, columns: Seq<ColumnSpecView>) -> Seq<bool> {
    Seq::new(columns.len(), |c: int| column_cell(record, columns[c]) is Ok)
}

/// What is wrong with a record under the declared columns, as the path to it
/// inside the record: nothing where the record is an object with a cell
/// under every column, the empty path where it is no object, and otherwise
/// what is wrong under the first column without a cell.
pub open spec fn nested_fault(record: Json, columns: Seq<ColumnSpecView>) -> Option<
    Seq<PathStepView>,
> {
    if !(record is Object) {
        Some(Seq::empty())
    } else {
        match first_index_of(column_flags(record, columns), false) {
            Some(c) => Some(column_cell(record, columns[c])->Err_0),
            None => None,
        }
    }
}

/// For each record, whether nothing is wrong with it under the declared
/// columns.
pub open spec fn nested_sound_flags(items: Seq<Json>, columns: Seq<ColumnSpecView>) -> Seq<bool> {
    Seq::new(items.len(), |i: int| nested_fault(items[i], columns) is None)
}

/// The row of a record: its cell under each declared column.
pub open spec fn nested_row(record: Json, columns: Seq<ColumnSpecView>) -> Seq<CellView> {
    Seq::new(
        columns.len(),
        |c: int|
            match column_cell(record, columns[c]) {
                Ok(cell) => cell,
                Err(_) => CellView::Null,
            },
    )
}

/// The rows of the records, in order.
pub open spec fn nested_rows(items: Seq<Json>, columns: Seq<ColumnSpecView>) -> Seq<Seq<CellView>> {
    Seq::new(items.len(), |i: int| nested_row(items[i], columns))
}

/// Whether an extraction with declared columns of these names returned what
/// its description gives: a key column error with the first name that is
/// declared for the second time, or else what is expected of it.
pub open spec fn agrees_declared(
    r: Result<Table, FetchError>,
    names: Seq<Seq<char>>,
    expected: Result<TableView, Seq<PathStepView>>,
) -> bool {
    match first_duplicate(names) {
        Some(c) => r is Err && r->Err_0@ == (FetchErrorView::KeyColumn { column: names[c] }),
        None => agrees(r, expected),
    }
}

/// The table of the list of records that `path` leads to, with the declared
/// columns in their order. It fails where the path leads nowhere, at the step
/// that does, and where it leads to no array, at the path. The first record
/// with which something is wrong fails at its position under the path,
/// followed by the path inside the record of what is wrong.
pub open spec fn extract_nested_spec(
    doc: Json,
    path: Seq<PathStepView>,
    columns: Seq<ColumnSpecView>,
) -> Result<TableView, Seq<PathStepView>> {
    match walk_spec(doc, path) {
        Err(p) => Err(p),
        Ok(Json::Array(items)) => match first_index_of(nested_sound_flags(items@, columns), false) {
            Some(i) => Err(
                path.push(PathStepView::Index(i as nat)) + nested_fault(
                    items@[i],
                    columns,
                ).unwrap(),
            ),
            None => Ok(
                TableView { columns: spec_names(columns), rows: nested_rows(items@, columns) },
            ),
        },
        Ok(_) => Err(path),
    }
}

/// The cell of a record under a declared column, or the path inside the
/// record of what is wrong.
fn column_cell_of(record: &Json, column: &ColumnSpec) -> (r: Result<Cell, Vec<PathStep>>)
    ensures
        match r {
            Ok(cell) => column_cell(*record, column@) == Ok::<CellView, Seq<PathStepView>>(cell@),
            Err(p) => column_cell(*record, column@) == Err::<CellView, Seq<PathStepView>>(
                path_view(p@),
            ),
        },
{
    match follow(record, &column.path) {
        Ok(v) => {
            let fitting = match column.expect {
                Expect::Text => match v {
                    Json::Str(_) => true,
                    _ => false,
                },
                Expect::Scalar => v.scalar(),
            };
            if fitting {
                Ok(v.to_cell())
            } else {
                let whole = copy_steps(&column.path, column.path.len());
                assert(path_view(column.path@).take(column.path@.len() as int) =~= path_view(
                    column.path@,
                ));
                Err(whole)
            }
        },
        Err(p) => if column.required {
            Err(p)
        } else {
            Ok(Cell::Null)
        },
    }
}

/// The row of a record under the declared columns, or the path inside the
/// record of what is wrong with it.
fn nested_row_of(record: &Json, columns: &Vec<ColumnSpec>) -> (r: Result<Vec<Cell>, Vec<PathStep>>)
    ensures
        match r {
            Ok(row) => nested_fault(*record, specs_view(columns@)) is None && row_view(row@)
                == nested_row(*record, specs_view(columns@)) && row@.len() == columns@.len(),
            Err(p) => nested_fault(*record, specs_view(columns@)) == Some(path_view(p@)),
        },
{
    match record {
        Json::Object(_) => {},
        _ => {
            let none: Vec<PathStep> = Vec::new();
            assert(path_view(none@) =~= Seq::empty());
            return Err(none);
        },
    }
    let ghost specs = specs_view(columns@);
    let mut row: Vec<Cell> = Vec::new();
    let mut c: usize = 0;
    while c < columns.len()
        invariant
            c <= columns.len(),
            row@.len() == c,
            *record is Object,
            specs == specs_view(columns@),
            forall|k: int| 0 <= k < c ==> column_flags(*record, specs)[k] != false,
            row_view(row@) == nested_row(*record, specs).take(c as int),
        decreases columns.len() - c,
    {
        let ghost before = row@;
        proof {
            assert(specs[c as int] == columns@[c as int]@);
        }
        match column_cell_of(record, &columns[c]) {
            Ok(cell) => {
                row.push(cell);
                proof {
                    assert(row_view(row@) =~= row_view(before).push(cell@));
                    assert(nested_row(*record, specs).take(c + 1) =~= nested_row(
                        *record,
                        specs,
                    ).take(c as int).push(cell@));
                }
            },
            Err(p) => {
                proof {
                    lemma_first_index_is(column_flags(*record, specs), false, c as int);
                }
                return Err(p);
            },
        }
        c += 1;
    }
    proof {
        lemma_first_index_of(column_flags(*record, specs), false);
        assert(nested_row(*record, specs).take(columns@.len() as int) =~= nested_row(
            *record,
            specs,
        ));
    }
    Ok(row)
}

/// The names of the declared columns.
fn names_of(columns: &Vec<ColumnSpec>) -> (r: Vec<String>)
    ensures
        strings_view(r@) == spec_names(specs_view(columns@)),
        r@.len() == columns@.len(),
{
    let mut names: Vec<String> = Vec::new();
    let mut c: usize = 0;
    while c < columns.len()
        invariant
            c <= columns.len(),
            names@.len() == c,
            strings_view(names@) == spec_names(specs_view(columns@)).take(c as int),
        decreases columns.len() - c,
    {
        let ghost before = names@;
        let name = columns[c].name.clone();
        names.push(name);
        proof {
            assert(specs_view(columns@)[c as int] == columns@[c as int]@);
            assert(strings_view(names@) =~= strings_view(before).push(name@));
            assert(spec_names(specs_view(columns@)).take(c + 1) =~= spec_names(
                specs_view(columns@),
            ).take(c as int).push(name@));
        }
        c += 1;
    }
    proof {
        assert(spec_names(specs_view(columns@)).take(columns@.len() as int) =~= spec_names(
            specs_view(columns@),
        ));
    }
    names
}

/// The table of a list of records that lies at a fixed path inside the
/// document, with columns that the caller declares.
///
/// The path is walked from the root, a field or an element at each step, to an
/// array of records. The columns are the declared ones in their order; a cell
/// holds the value that the column's path leads to inside the record. The
/// extraction fails with a schema error that names the offending path: the
/// path up to the step that is absent; the path where it leads to no array;
/// the position under it of a record that is no object; and, under that
/// position, the column's path up to the step that a record lacks for a
/// required column, or the column's path where the value there is not what
/// the column expects. Only a column that is not required gives a null cell
/// for a record that lacks it. No table is returned for a document with a
/// record that fails. A column name that is declared twice is a key column
/// error with that name, whatever the document holds.
pub fn extract_nested(doc: &Json, path: &Vec<PathStep>, columns: &Vec<ColumnSpec>) -> (r: Result<
    Table,
    FetchError,
>)
    ensures
        agrees_declared(
            r,
            spec_names(specs_view(columns@)),
            extract_nested_spec(*doc, path_view(path@), specs_view(columns@)),
        ),
        r is Ok ==> r->Ok_0@.wf(),
{
    let names = names_of(columns);
    proof {
        lemma_first_duplicate(strings_view(names@));
    }
    match find_duplicate(&names) {
        Some(c) => {
            assert(strings_view(names@)[c as int] == names@[c as int]@);
            return Err(FetchError::KeyColumn { column: names[c].clone() });
        },
        None => {},
    }
    let target = match walk(doc, path) {
        Ok(v) => v,
        Err(e) => {
            return Err(e);
        },
    };
    let items = match target {
        Json::Array(items) => items,
        _ => {
            let whole = copy_steps(path, path.len());
            assert(path_view(path@).take(path@.len() as int) =~= path_view(path@));
            return Err(FetchError::Schema { path: whole });
        },
    };
    let ghost specs = specs_view(columns@);
    let mut rows: Vec<Vec<Cell>> = Vec::new();
    let mut i: usize = 0;
    while i < items.len()
        invariant
            i <= items.len(),
            names@.len() == columns@.len(),
            specs == specs_view(columns@),
            first_duplicate(spec_names(specs)) is None,
            walk_spec(*doc, path_view(path@)) == Ok::<Json, Seq<PathStepView>>(
                Json::Array(*items),
            ),
            forall|k: int| 0 <= k < i ==> nested_sound_flags(items@, specs)[k] != false,
            rows_view(rows@) == nested_rows(items@, specs).take(i as int),
            rectangular(rows@, columns@.len() as nat),
        decreases items.len() - i,
    {
        let ghost before = rows@;
        match nested_row_of(&items[i], columns) {
            Ok(row) => {
                rows.push(row);
                proof {
                    assert(rows_view(rows@) =~= rows_view(before).push(row_view(row@)));
                    assert(nested_rows(items@, specs).take(i + 1) =~= nested_rows(
                        items@,
                        specs,
                    ).take(i as int).push(row_view(row@)));
                }
            },
            Err(fault) => {
                let mut at = copy_steps(path, path.len());
                let ghost short = at@;
                let mut inside = fault;
                let ghost rest = inside@;
                at.push(PathStep::Index(i));
                at.append(&mut inside);
                proof {
                    assert(path_view(path@).take(path@.len() as int) =~= path_view(path@));
                    assert(path_view(at@) =~= path_view(short).push(PathStepView::Index(i as nat))
                        + path_view(rest));
                    lemma_first_index_is(nested_sound_flags(items@, specs), false, i as int);
                }
                return Err(FetchError::Schema { path: at });
            },
        }
        i += 1;
    }
    proof {
        lemma_first_index_of(nested_sound_flags(items@, specs), false);
        assert(nested_rows(items@, specs).take(items@.len() as int) =~= nested_rows(items@, specs));
    }
    Ok(Table::new(names, rows).unwrap())
}

/// The shape of a source document, as the caller declares it for a source.
#[derive(Debug, PartialEq, Eq)]
pub enum Shape {
    /// A results collection, of which the first result set is taken, or the
    /// first one of the given name.
    ResultSets { name: Option<String> },
    /// A flat array of records whose field names may differ.
    Flat,
    /// A list of records at a fixed path, with declared columns.
    Nested { path: Vec<PathStep>, columns: Vec<ColumnSpec> },
}

/// Mathematical model of a [`Shape`].
pub enum ShapeView {
    ResultSets { name: Option<Seq<char>> },
    Flat,
    Nested { path: Seq<PathStepView>, columns: Seq<ColumnSpecView> },
}

impl View for Shape {
    type V = ShapeView;

    open spec fn view(&self) -> ShapeView {
        match self {
            Shape::ResultSets { name } => ShapeView::ResultSets {
                name: match name {
                    Some(n) => Some(n@),
                    None => None,
                },
            },
            Shape::Flat => ShapeView::Flat,
            Shape::Nested { path, columns } => ShapeView::Nested {
                path: path_view(path@),
                columns: specs_view(columns@),
            },
        }
    }
}

/// Whether the extraction from a document of the declared shape returned what
/// the adapter for that shape gives.
pub open spec fn extracted(r: Result<Table, FetchError>, doc: Json, shape: ShapeView) -> bool {
    match shape {
        ShapeView::ResultSets { name } => agrees(r, extract_result_set_spec(doc, name)),
        ShapeView::Flat => agrees(r, extract_flat_spec(doc)),
        ShapeView::Nested { path, columns } => agrees_declared(
            r,
            spec_names(columns),
            extract_nested_spec(doc, path, columns),
        ),
    }
}

/// The table of a source document, by the adapter for its declared shape.
pub fn extract(doc: &Json, shape: &Shape) -> (r: Result<Table, FetchError>)
    ensures
        extracted(r, *doc, shape@),
        r is Ok ==> r->Ok_0@.wf(),
{
    match shape {
        Shape::ResultSets { name } => match name {
            Some(n) => extract_result_set(doc, Some(n.as_str())),
            None => extract_result_set(doc, None),
        },
        Shape::Flat => extract_flat(doc),
        Shape::Nested { path, columns } => extract_nested(doc, path, columns),
    }
}

} // verus!
