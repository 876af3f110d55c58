use vstd::prelude::*;
use vstd::string::StringExecFns;
use crate::error::{FetchError, FetchErrorView};
use crate::normalize::{normalize_name, normalize_spec};
use crate::table::{
    first_index_of, index_of, lemma_first_index_is, lemma_first_index_of, rectangular, row_view,
    rows_view, strings_view, Cell, CellView, Table, TableView,
};
use crate::text::text_eq;

verus! {

/// How the cells of a key column identify an entity.
#[derive(Debug, Clone, Copy, PartialEq, Eq, Structural)]
pub enum KeyKind {
    /// A stable identifier, matched as it is written.
    Id,
    /// A name, matched by its normalised form.
    Name,
}

/// What becomes of a left row that no right row matches.
#[derive(Debug, Clone, Copy, PartialEq, Eq, Structural)]
pub enum JoinMode {
    /// It stays, with nulls for the right columns.
    LeftOuter,
    /// It is dropped.
    Inner,
}

/// The joined table and the report on what did not match one to one.
#[derive(Debug, PartialEq, Eq)]
pub struct JoinResult {
    /// Left columns, then right columns.
    pub table: Table,
    /// Left rows that no right row matches.
    pub unmatched_left: usize,
    /// Right rows that no left row matches.
    pub unmatched_right: usize,
    /// Left rows that more than one right row matches.
    pub ambiguous_matches: usize,
}

/// Mathematical model of a [`JoinResult`].
pub struct JoinResultView {
    pub table: TableView,
    pub unmatched_left: nat,
    pub unmatched_right: nat,
    pub ambiguous_matches: nat,
}

impl View for JoinResult {
    type V = JoinResultView;

    open spec fn view(&self) -> JoinResultView {
        JoinResultView {
            table: self.table@,
            unmatched_left: self.unmatched_left as nat,
            unmatched_right: self.unmatched_right as nat,
            ambiguous_matches: self.ambiguous_matches as nat,
        }
    }
}

/// The report of a join on what did not match one to one.
#[derive(Debug, Clone, Copy, PartialEq, Eq, Structural)]
pub struct JoinReport {
    /// Left rows that no right row matches.
    pub unmatched_left: usize,
    /// Right rows that no left row matches.
    pub unmatched_right: usize,
    /// Left rows that more than one right row matches.
    pub ambiguous_matches: usize,
}

/// Mathematical model of a [`JoinReport`].
pub struct JoinReportView {
    pub unmatched_left: nat,
    pub unmatched_right: nat,
    pub ambiguous_matches: nat,
}

impl View for JoinReport {
    type V = JoinReportView;

    open spec fn view(&self) -> JoinReportView {
        JoinReportView {
            unmatched_left: self.unmatched_left as nat,
            unmatched_right: self.unmatched_right as nat,
            ambiguous_matches: self.ambiguous_matches as nat,
        }
    }
}

impl JoinResultView {
    /// The counts of the join, without its table.
    pub open spec fn report(self) -> JoinReportView {
        JoinReportView {
            unmatched_left: self.unmatched_left,
            unmatched_right: self.unmatched_right,
            ambiguous_matches: self.ambiguous_matches,
        }
    }
}

impl JoinResult {
    /// The counts of the join, without its table.
    pub fn report(&self) -> (r: JoinReport)
        ensures
            r@ == self@.report(),
    {
        JoinReport {
            unmatched_left: self.unmatched_left,
            unmatched_right: self.unmatched_right,
            ambiguous_matches: self.ambiguous_matches,
        }
    }
}

/// The key of a cell: none for a null cell, which matches nothing; otherwise
/// the cell's text, normalised where the key is a name.
pub open spec fn key_of(cell: CellView, kind: KeyKind) -> Option<Seq<char>> {
    match cell {
        CellView::Null => None,
        _ => Some(
            match kind {
                KeyKind::Id => cell.text(),
                KeyKind::Name => normalize_spec(cell.text()),
            },
        ),
    }
}

/// The keys of the rows, taken from the column at `col`.
pub open spec fn column_keys(rows: Seq<Seq<CellView>>, col: int, kind: KeyKind) -> Seq<
    Option<Seq<char>>,
> {
    Seq::new(rows.len(), |i: int| key_of(rows[i][col], kind))
}

/// The model of a key.
pub open spec fn key_view(key: Option<String>) -> Option<Seq<char>> {
    match key {
        Some(k) => Some(k@),
        None => None,
    }
}

/// The models of keys, in order.
pub open spec fn keys_view(keys: Seq<Option<String>>) -> Seq<Option<Seq<char>>> {
    Seq::new(keys.len(), |i: int| key_view(keys[i]))
}

/// The first of `keys`, by position, that equals `key`; none for no key.
pub open spec fn first_match(keys: Seq<Option<Seq<char>>>, key: Option<Seq<char>>) -> Option<int> {
    if key is None {
        None
    } else {
        first_index_of(keys, key)
    }
}

/// How many of `keys` equal `key`; none for no key.
pub open spec fn match_count(keys: Seq<Option<Seq<char>>>, key: Option<Seq<char>>) -> nat
    decreases keys.len(),
{
    if keys.len() == 0 {
        0
    } else {
        match_count(keys.drop_last(), key) + if key is Some && keys.last() == key {
            1nat
        } else {
            0nat
        }
    }
}

/// A row of `n` null cells.
pub open spec fn nulls(n: nat) -> Seq<CellView> {
    Seq::new(n, |i: int| CellView::Null)
}

/// A left row with the right row found for it, or with nulls.
pub open spec fn joined_row(
    left_row: Seq<CellView>,
    right_rows: Seq<Seq<CellView>>,
    right_width: nat,
    found: Option<int>,
) -> Seq<CellView> {
    match found {
        Some(j) => left_row + right_rows[j],
        None => left_row + nulls(right_width),
    }
}

/// The rows that the first `n` left rows give, in their order: each with the
/// first right row of its key, or with nulls, or dropped, as the mode says.
pub open spec fn joined_rows(
    left_rows: Seq<Seq<CellView>>,
    left_keys: Seq<Option<Seq<char>>>,
    right_rows: Seq<Seq<CellView>>,
    right_keys: Seq<Option<Seq<char>>>,
    right_width: nat,
    mode: JoinMode,
    n: nat,
) -> Seq<Seq<CellView>>
    decreases n,
{
    if n == 0 {
        Seq::empty()
    } else {
        let i = (n - 1) as nat;
        let before = joined_rows(left_rows, left_keys, right_rows, right_keys, right_width, mode, i);
        let found = first_match(right_keys, left_keys[i as int]);
        if found is None && mode == JoinMode::Inner {
            before
        } else {
            before.push(joined_row(left_rows[i as int], right_rows, right_width, found))
        }
    }
}

/// How many of the first `n` of `keys` match none of `others`.
pub open spec fn unmatched_count(
    keys: Seq<Option<Seq<char>>>,
    others: Seq<Option<Seq<char>>>,
    n: nat,
) -> nat
    decreases n,
{
    if n == 0 {
        0
    } else {
        unmatched_count(keys, others, (n - 1) as nat) + if first_match(others, keys[n - 1]) is None {
            1nat
        } else {
            0nat
        }
    }
}

/// How many of the first `n` of `keys` match more than one of `others`.
pub open spec fn ambiguous_count(
    keys: Seq<Option<Seq<char>>>,
    others: Seq<Option<Seq<char>>>,
    n: nat,
) -> nat
    decreases n,
{
    if n == 0 {
        0
    } else {
        ambiguous_count(keys, others, (n - 1) as nat) + if match_count(others, keys[n - 1]) >= 2 {
            1nat
        } else {
            0nat
        }
    }
}

/// The length of the longest of the names.
pub open spec fn longest(names: Seq<Seq<char>>) -> nat
    decreases names.len(),
{
    if names.len() == 0 {
        0
    } else if names.last().len() > longest(names.drop_last()) {
        names.last().len()
    } else {
        longest(names.drop_last())
    }
}

/// How much longer than `name` a name can be and still be among `taken`, and
/// one more.
pub open spec fn room(taken: Seq<Seq<char>>, name: Seq<char>) -> nat {
    if longest(taken) + 1 >= name.len() {
        (longest(taken) + 1 - name.len()) as nat
    } else {
        0
    }
}

/// The name under which a column is appended to columns whose names are
/// taken: its own where that is free, and otherwise its own followed by
/// `_right` as many times as it takes to be free.
pub open spec fn fresh_name(taken: Seq<Seq<char>>, name: Seq<char>) -> Seq<char>
    decreases room(taken, name),
{
    if first_index_of(taken, name) is Some {
        proof {
            lemma_room_shrinks(taken, name);
        }
        fresh_name(taken, name + "_right"@)
    } else {
        name
    }
}

/// The columns of the left table followed by the first `n` columns of the
/// right table, each under a name that is free among those before it.
pub open spec fn joined_columns(left: Seq<Seq<char>>, right: Seq<Seq<char>>, n: nat) -> Seq<
    Seq<char>,
>
    decreases n,
{
    if n == 0 {
        left
    } else {
        let before = joined_columns(left, right, (n - 1) as nat);
        before.push(fresh_name(before, right[n - 1]))
    }
}

/// No name is longer than the longest.
pub proof fn lemma_longest(names: Seq<Seq<char>>, i: int)
    requires
        0 <= i < names.len(),
    ensures
        names[i].len() <= longest(names),
    decreases names.len(),
{
    if i < names.len() - 1 {
        lemma_longest(names.drop_last(), i);
    }
}

/// A name that is taken leaves less room once `_right` follows it.
pub proof fn lemma_room_shrinks(taken: Seq<Seq<char>>, name: Seq<char>)
    requires
        first_index_of(taken, name) is Some,
    ensures
        room(taken, name + "_right"@) < room(taken, name),
{
    reveal_strlit("_right");
    lemma_first_index_of(taken, name);
    lemma_longest(taken, first_index_of(taken, name).unwrap());
}

/// The join of two tables whose rows carry the given keys.
pub open spec fn keyed_join_spec(
    left: TableView,
    right: TableView,
    left_keys: Seq<Option<Seq<char>>>,
    right_keys: Seq<Option<Seq<char>>>,
    mode: JoinMode,
) -> JoinResultView {
    JoinResultView {
        table: TableView {
            columns: joined_columns(left.columns, right.columns, right.columns.len()),
            rows: joined_rows(
                left.rows,
                left_keys,
                right.rows,
                right_keys,
                right.columns.len(),
                mode,
                left.rows.len(),
            ),
        },
        unmatched_left: unmatched_count(left_keys, right_keys, left_keys.len()),
        unmatched_right: unmatched_count(right_keys, left_keys, right_keys.len()),
        ambiguous_matches: ambiguous_count(left_keys, right_keys, left_keys.len()),
    }
}

/// The join of two tables on the key columns at `left_col` and `right_col`.
pub open spec fn join_spec(
    left: TableView,
    right: TableView,
    left_col: int,
    right_col: int,
    kind: KeyKind,
    mode: JoinMode,
) -> JoinResultView {
    keyed_join_spec(
        left,
        right,
        column_keys(left.rows, left_col, kind),
        column_keys(right.rows, right_col, kind),
        mode,
    )
}

/// The join of two tables on the key columns of the given names: it fails
/// only where a table has no such column, with the name of the column that
/// is missing, the left one first.
pub open spec fn try_join_spec(
    left: TableView,
    right: TableView,
    left_key_column: Seq<char>,
    right_key_column: Seq<char>,
    kind: KeyKind,
    mode: JoinMode,
) -> Result<JoinResultView, Seq<char>> {
    match left.column_index(left_key_column) {
        None => Err(left_key_column),
        Some(left_col) => match right.column_index(right_key_column) {
            None => Err(right_key_column),
            Some(right_col) => Ok(join_spec(left, right, left_col, right_col, kind, mode)),
        },
    }
}

/// Whether two keys match: both are keys and hold the same text.
fn keys_match(a: &Option<String>, b: &Option<String>) -> (r: bool)
    ensures
        r == (a is Some && key_view(*a) == key_view(*b)),
{
    match (a, b) {
        (Some(x), Some(y)) => text_eq(x.as_str(), y.as_str()),
        _ => false,
    }
}

/// The first of `keys` that matches `key`, and how many of them match it.
pub fn find_matches(keys: &Vec<Option<String>>, key: &Option<String>) -> (r: (Option<usize>, usize))
    ensures
        match r.0 {
            Some(j) => first_match(keys_view(keys@), key_view(*key)) == Some(j as int),
            None => first_match(keys_view(keys@), key_view(*key)) is None,
        },
        r.1 == match_count(keys_view(keys@), key_view(*key)),
{
    let ghost all = keys_view(keys@);
    let ghost wanted = key_view(*key);
    let mut first: Option<usize> = None;
    let mut count: usize = 0;
    let mut j: usize = 0;
    while j < keys.len()
        invariant
            j <= keys.len(),
            all == keys_view(keys@),
            wanted == key_view(*key),
            count == match_count(all.take(j as int), wanted),
            count <= j,
            match first {
                Some(f) => f < j && wanted is Some && all[f as int] == wanted && forall|k: int|
                    0 <= k < f ==> all[k] != wanted,
                None => wanted is Some ==> forall|k: int| 0 <= k < j ==> all[k] != wanted,
            },
        decreases keys.len() - j,
    {
        proof {
            assert(all.take(j + 1).drop_last() == all.take(j as int));
            assert(all.take(j + 1).last() == all[j as int]);
        }
        if keys_match(key, &keys[j]) {
            if first.is_none() {
                first = Some(j);
            }
            count += 1;
        }
        j += 1;
    }
    proof {
        assert(all.take(j as int) == all);
        lemma_first_index_of(all, wanted);
        match first {
            Some(f) => {
                lemma_first_index_is(all, wanted, f as int);
            },
            None => {},
        }
    }
    (first, count)
}

/// How many of `keys` match none of `others`.
pub fn count_unmatched(keys: &Vec<Option<String>>, others: &Vec<Option<String>>) -> (r: usize)
    ensures
        r == unmatched_count(keys_view(keys@), keys_view(others@), keys@.len()),
{
    let mut count: usize = 0;
    let mut i: usize = 0;
    while i < keys.len()
        invariant
            i <= keys.len(),
            count <= i,
            count == unmatched_count(keys_view(keys@), keys_view(others@), i as nat),
        decreases keys.len() - i,
    {
        let found = find_matches(others, &keys[i]);
        if found.0.is_none() {
            count += 1;
        }
        i += 1;
    }
    count
}

/// A row of the cells of `left` followed by those of `right`.
fn concat_row(left: &Vec<Cell>, right: &Vec<Cell>) -> (r: Vec<Cell>)
    ensures
        row_view(r@) == row_view(left@) + row_view(right@),
{
    let mut row: Vec<Cell> = Vec::new();
    let mut i: usize = 0;
    while i < left.len()
        invariant
            i <= left.len(),
            row_view(row@) == row_view(left@).take(i as int),
        decreases left.len() - i,
    {
        let ghost before = row@;
        let c = left[i].clone();
        row.push(c);
        assert(row_view(row@) =~= row_view(before).push(c@));
        assert(row_view(left@).take(i + 1) =~= row_view(left@).take(i as int).push(left@[i as int]@));
        i += 1;
    }
    assert(row_view(left@).take(left@.len() as int) =~= row_view(left@));
    let mut j: usize = 0;
    while j < right.len()
        invariant
            j <= right.len(),
            row_view(row@) == row_view(left@) + row_view(right@).take(j as int),
        decreases right.len() - j,
    {
        let ghost before = row@;
        let c = right[j].clone();
        row.push(c);
        assert(row_view(row@) =~= row_view(before).push(c@));
        assert(row_view(left@) + row_view(right@).take(j + 1) =~= (row_view(left@) + row_view(
            right@,
        ).take(j as int)).push(right@[j as int]@));
        j += 1;
    }
    assert(row_view(right@).take(right@.len() as int) =~= row_view(right@));
    row
}

/// A row of the cells of `left` followed by `width` nulls.
fn pad_row(left: &Vec<Cell>, width: usize) -> (r: Vec<Cell>)
    ensures
        row_view(r@) == row_view(left@) + nulls(width as nat),
{
    let empty: Vec<Cell> = Vec::new();
    let mut row = concat_row(left, &empty);
    assert(row_view(row@) =~= row_view(left@));
    let mut j: usize = 0;
    while j < width
        invariant
            j <= width,
            row_view(row@) == row_view(left@) + nulls(j as nat),
        decreases width - j,
    {
        let ghost before = row@;
        row.push(Cell::Null);
        assert(row_view(row@) =~= row_view(before).push(CellView::Null));
        assert(row_view(left@) + nulls((j + 1) as nat) =~= (row_view(left@) + nulls(j as nat)).push(
            CellView::Null,
        ));
        j += 1;
    }
    row
}

/// The name under which a column is appended to columns whose names are
/// taken.
fn fresh(taken: &Vec<String>, name: &String) -> (r: String)
    ensures
        r@ == fresh_name(strings_view(taken@), name@),
{
    let ghost names = strings_view(taken@);
    let mut candidate = name.clone();
    loop
        invariant
            names == strings_view(taken@),
            fresh_name(names, candidate@) == fresh_name(names, name@),
        decreases room(names, candidate@),
    {
        if index_of(taken, candidate.as_str()).is_none() {
            return candidate;
        }
        proof {
            lemma_room_shrinks(names, candidate@);
        }
        candidate.append("_right");
    }
}

/// The names of `left` followed by those of `right`, each under a name that
/// is free among those before it.
fn join_columns(left: &Vec<String>, right: &Vec<String>) -> (r: Vec<String>)
    ensures
        strings_view(r@) == joined_columns(
            strings_view(left@),
            strings_view(right@),
            right@.len(),
        ),
{
    let mut names: Vec<String> = Vec::new();
    let mut i: usize = 0;
    while i < left.len()
        invariant
            i <= left.len(),
            strings_view(names@) == strings_view(left@).take(i as int),
        decreases left.len() - i,
    {
        let ghost before = names@;
        let name = left[i].clone();
        names.push(name);
        assert(strings_view(names@) =~= strings_view(before).push(name@));
        assert(strings_view(left@).take(i + 1) =~= strings_view(left@).take(i as int).push(
            left@[i as int]@,
        ));
        i += 1;
    }
    assert(strings_view(left@).take(left@.len() as int) =~= strings_view(left@));
    let mut j: usize = 0;
    while j < right.len()
        invariant
            j <= right.len(),
            strings_view(names@) == joined_columns(
                strings_view(left@),
                strings_view(right@),
                j as nat,
            ),
        decreases right.len() - j,
    {
        let ghost before = names@;
        let name = fresh(&names, &right[j]);
        names.push(name);
        assert(strings_view(names@) =~= strings_view(before).push(name@));
        assert(strings_view(right@)[j as int] == right@[j as int]@);
        j += 1;
    }
    names
}

/// The keys of the rows of a table, taken from its column at `col`.
pub fn key_column(table: &Table, col: usize, kind: KeyKind) -> (r: Vec<Option<String>>)
    requires
        col < table@.columns.len(),
    ensures
        keys_view(r@) == column_keys(table@.rows, col as int, kind),
{
    let rows = table.rows();
    let mut keys: Vec<Option<String>> = Vec::new();
    let mut i: usize = 0;
    while i < rows.len()
        invariant
            i <= rows.len(),
            rows_view(rows@) == table@.rows,
            rectangular(rows@, table@.columns.len()),
            col < table@.columns.len(),
            keys_view(keys@) == column_keys(table@.rows, col as int, kind).take(i as int),
        decreases rows.len() - i,
    {
        let ghost before = keys@;
        let cell = &rows[i][col];
        let key = match cell {
            Cell::Null => None,
            _ => {
                let text = cell.render();
                match kind {
                    KeyKind::Id => Some(text),
                    KeyKind::Name => Some(normalize_name(text.as_str())),
                }
            },
        };
        proof {
            assert(rows_view(rows@)[i as int] == row_view(rows@[i as int]@));
            assert(table@.rows[i as int][col as int] == cell@);
            assert(key_view(key) == key_of(cell@, kind));
        }
        keys.push(key);
        proof {
            assert(keys_view(keys@) =~= keys_view(before).push(key_view(key)));
            assert(column_keys(table@.rows, col as int, kind).take(i + 1) =~= column_keys(
                table@.rows,
                col as int,
                kind,
            ).take(i as int).push(key_of(cell@, kind)));
        }
        i += 1;
    }
    proof {
        assert(column_keys(table@.rows, col as int, kind).take(rows@.len() as int) =~= column_keys(
            table@.rows,
            col as int,
            kind,
        ));
    }
    keys
}

/// Joins two tables whose rows carry the given keys, one key for each row.
///
/// The columns are those of the left table followed by those of the right
/// table; a right column whose name is taken is appended under that name
/// followed by `_right`, as many times as it takes to be free. Each left row
/// is followed by the cells of the first right row, in input order, whose key
/// equals its own. A left row without such a row is followed
/// by nulls in a left-outer join and dropped in an inner join. The counts
/// report the left rows and the right rows that matched nothing, and the left
/// rows that matched more than one right row.
pub fn join_on_keys(
    left: &Table,
    right: &Table,
    left_keys: &Vec<Option<String>>,
    right_keys: &Vec<Option<String>>,
    mode: JoinMode,
) -> (r: JoinResult)
    requires
        left_keys@.len() == left@.rows.len(),
        right_keys@.len() == right@.rows.len(),
    ensures
        r@ == keyed_join_spec(left@, right@, keys_view(left_keys@), keys_view(right_keys@), mode),
        r@.table.wf(),
        mode == JoinMode::LeftOuter ==> r@.table.rows.len() == left@.rows.len(),
        mode == JoinMode::Inner ==> r@.table.rows.len() + r@.unmatched_left == left@.rows.len(),
        r@.table.rows.len() <= left@.rows.len(),
{
    proof {
        lemma_joined_rows_len(
            left@.rows,
            keys_view(left_keys@),
            right@.rows,
            keys_view(right_keys@),
            right@.columns.len(),
            mode,
            left@.rows.len(),
        );
    }
    let left_rows = left.rows();
    let right_rows = right.rows();
    let right_width = right.columns().len();
    let ghost lk = keys_view(left_keys@);
    let ghost rk = keys_view(right_keys@);
    let ghost width = left@.columns.len() + right@.columns.len();
    let mut rows: Vec<Vec<Cell>> = Vec::new();
    let mut unmatched_left: usize = 0;
    let mut ambiguous_matches: usize = 0;
    let mut i: usize = 0;
    while i < left_rows.len()
        invariant
            i <= left_rows.len(),
            left_keys@.len() == left_rows@.len(),
            right_keys@.len() == right_rows@.len(),
            lk == keys_view(left_keys@),
            rk == keys_view(right_keys@),
            rows_view(left_rows@) == left@.rows,
            rows_view(right_rows@) == right@.rows,
            rectangular(left_rows@, left@.columns.len()),
            rectangular(right_rows@, right@.columns.len()),
            right_width == right@.columns.len(),
            width == left@.columns.len() + right@.columns.len(),
            unmatched_left <= i,
            ambiguous_matches <= i,
            unmatched_left == unmatched_count(lk, rk, i as nat),
            ambiguous_matches == ambiguous_count(lk, rk, i as nat),
            rows_view(rows@) == joined_rows(
                left@.rows,
                lk,
                right@.rows,
                rk,
                right_width as nat,
                mode,
                i as nat,
            ),
            rectangular(rows@, width as nat),
        decreases left_rows.len() - i,
    {
        let ghost before = rows@;
        let found = find_matches(right_keys, &left_keys[i]);
        proof {
            assert(lk[i as int] == key_view(left_keys@[i as int]));
            assert(left@.rows[i as int] == row_view(left_rows@[i as int]@));
            lemma_first_index_of(rk, lk[i as int]);
        }
        if found.1 >= 2 {
            ambiguous_matches += 1;
        }
        match found.0 {
            Some(j) => {
                let row = concat_row(&left_rows[i], &right_rows[j]);
                proof {
                    assert(right@.rows[j as int] == row_view(right_rows@[j as int]@));
                    assert(row@.len() == row_view(row@).len());
                }
                rows.push(row);
                proof {
                    assert(rows_view(rows@) =~= rows_view(before).push(row_view(row@)));
                }
            },
            None => {
                unmatched_left += 1;
                match mode {
                    JoinMode::LeftOuter => {
                        let row = pad_row(&left_rows[i], right_width);
                        proof {
                            assert(row@.len() == row_view(row@).len());
                        }
                        rows.push(row);
                        proof {
                            assert(rows_view(rows@) =~= rows_view(before).push(row_view(row@)));
                        }
                    },
                    JoinMode::Inner => {},
                }
            },
        }
        i += 1;
    }
    let unmatched_right = count_unmatched(right_keys, left_keys);
    let columns = join_columns(left.columns(), right.columns());
    proof {
        assert(strings_view(columns@).len() == columns@.len());
        assert(i == left@.rows.len());
        lemma_joined_columns(left@.columns, right@.columns, right@.columns.len());
    }
    let table = Table::new(columns, rows).unwrap();
    JoinResult { table, unmatched_left, unmatched_right, ambiguous_matches }
}

/// Joins two tables on a key column of each.
///
/// The key of a row is the text of its cell in the key column, normalised
/// where the key is a name; a null cell has no key and matches nothing. The
/// rows are joined as [`join_on_keys`] says. The join fails only where a key
/// column is missing, the left one reported first.
pub fn join(
    left: &Table,
    right: &Table,
    left_key_column: &str,
    right_key_column: &str,
    kind: KeyKind,
    mode: JoinMode,
) -> (r: Result<JoinResult, FetchError>)
    ensures
        match r {
            Ok(joined) => try_join_spec(
                left@,
                right@,
                left_key_column@,
                right_key_column@,
                kind,
                mode,
            ) == Ok::<JoinResultView, Seq<char>>(joined@) && joined@.table.wf() && (mode
                == JoinMode::LeftOuter ==> joined@.table.rows.len() == left@.rows.len())
                && joined@.table.rows.len() <= left@.rows.len(),
            Err(e) => try_join_spec(left@, right@, left_key_column@, right_key_column@, kind, mode)
                is Err && e@ == (FetchErrorView::KeyColumn {
                column: try_join_spec(
                    left@,
                    right@,
                    left_key_column@,
                    right_key_column@,
                    kind,
                    mode,
                )->Err_0,
            }),
        },
{
    let left_col = match left.column_index(left_key_column) {
        Some(c) => c,
        None => {
            return Err(FetchError::KeyColumn { column: left_key_column.to_owned() });
        },
    };
    let right_col = match right.column_index(right_key_column) {
        Some(c) => c,
        None => {
            return Err(FetchError::KeyColumn { column: right_key_column.to_owned() });
        },
    };
    proof {
        lemma_first_index_of(left@.columns, left_key_column@);
        lemma_first_index_of(right@.columns, right_key_column@);
    }
    let left_keys = key_column(left, left_col, kind);
    let right_keys = key_column(right, right_col, kind);
    proof {
        assert(keys_view(left_keys@).len() == left_keys@.len());
        assert(keys_view(right_keys@).len() == right_keys@.len());
    }
    Ok(join_on_keys(left, right, &left_keys, &right_keys, mode))
}

/// Of the first `n` left rows a left-outer join keeps every one, and an inner
/// join those that are not unmatched.
pub proof fn lemma_joined_rows_len(
    left_rows: Seq<Seq<CellView>>,
    left_keys: Seq<Option<Seq<char>>>,
    right_rows: Seq<Seq<CellView>>,
    right_keys: Seq<Option<Seq<char>>>,
    right_width: nat,
    mode: JoinMode,
    n: nat,
)
    ensures
        mode == JoinMode::LeftOuter ==> joined_rows(
            left_rows,
            left_keys,
            right_rows,
            right_keys,
            right_width,
            mode,
            n,
        ).len() == n,
        mode == JoinMode::Inner ==> joined_rows(
            left_rows,
            left_keys,
            right_rows,
            right_keys,
            right_width,
            mode,
            n,
        ).len() + unmatched_count(left_keys, right_keys, n) == n,
        joined_rows(left_rows, left_keys, right_rows, right_keys, right_width, mode, n).len() <= n,
    decreases n,
{
    if n > 0 {
        lemma_joined_rows_len(
            left_rows,
            left_keys,
            right_rows,
            right_keys,
            right_width,
            mode,
            (n - 1) as nat,
        );
    }
}

/// A left-outer join returns exactly as many rows as the left table has, and
/// an inner join at most as many: as many as have a match.
pub proof fn lemma_join_row_count(
    left: TableView,
    right: TableView,
    left_col: int,
    right_col: int,
    kind: KeyKind,
    mode: JoinMode,
)
    ensures
        mode == JoinMode::LeftOuter ==> join_spec(
            left,
            right,
            left_col,
            right_col,
            kind,
            mode,
        ).table.rows.len() == left.rows.len(),
        join_spec(left, right, left_col, right_col, kind, mode).table.rows.len()
            <= left.rows.len(),
        mode == JoinMode::Inner ==> join_spec(
            left,
            right,
            left_col,
            right_col,
            kind,
            mode,
        ).table.rows.len() + join_spec(left, right, left_col, right_col, kind, mode).unmatched_left
            == left.rows.len(),
{
    lemma_joined_rows_len(
        left.rows,
        column_keys(left.rows, left_col, kind),
        right.rows,
        column_keys(right.rows, right_col, kind),
        right.columns.len(),
        mode,
        left.rows.len(),
    );
}

/// The right row that a key is joined with holds that key, and no right row
/// before it does: among several candidates the first in input order is taken.
pub proof fn lemma_first_match_is_first(keys: Seq<Option<Seq<char>>>, key: Option<Seq<char>>)
    ensures
        match first_match(keys, key) {
            Some(j) => 0 <= j < keys.len() && key is Some && keys[j] == key && forall|k: int|
                0 <= k < j ==> keys[k] != key,
            None => key is None || forall|k: int| 0 <= k < keys.len() ==> keys[k] != key,
        },
{
    lemma_first_index_of(keys, key);
}

/// A key that is found is counted, and one that is counted is found.
pub proof fn lemma_match_count_found(keys: Seq<Option<Seq<char>>>, key: Option<Seq<char>>)
    ensures
        match_count(keys, key) > 0 <==> first_match(keys, key) is Some,
        match_count(keys, key) <= keys.len(),
    decreases keys.len(),
{
    lemma_first_index_of(keys, key);
    if keys.len() > 0 {
        let before = keys.drop_last();
        lemma_match_count_found(before, key);
        lemma_first_index_of(before, key);
        if key is Some {
            if first_index_of(before, key) is Some {
                let j = first_index_of(before, key).unwrap();
                assert(keys[j] == before[j]);
            } else if keys.last() != key {
                assert forall|k: int| 0 <= k < keys.len() implies keys[k] != key by {
                    if k < before.len() {
                        assert(keys[k] == before[k]);
                    }
                }
            }
        }
    }
}

/// The joined table is well formed where the two tables are and each row has
/// its key.
pub proof fn lemma_joined_table_wf(
    left: TableView,
    right: TableView,
    left_keys: Seq<Option<Seq<char>>>,
    right_keys: Seq<Option<Seq<char>>>,
    mode: JoinMode,
)
    requires
        left.wf(),
        right.wf(),
        left_keys.len() == left.rows.len(),
        right_keys.len() == right.rows.len(),
    ensures
        keyed_join_spec(left, right, left_keys, right_keys, mode).table.wf(),
{
    lemma_joined_rows_width(left, right, left_keys, right_keys, mode, left.rows.len());
    lemma_joined_columns(left.columns, right.columns, right.columns.len());
}

/// Each row that the first `n` left rows give has a cell for each column of
/// both tables.
pub proof fn lemma_joined_rows_width(
    left: TableView,
    right: TableView,
    left_keys: Seq<Option<Seq<char>>>,
    right_keys: Seq<Option<Seq<char>>>,
    mode: JoinMode,
    n: nat,
)
    requires
        left.wf(),
        right.wf(),
        left_keys.len() == left.rows.len(),
        right_keys.len() == right.rows.len(),
        n <= left.rows.len(),
    ensures
        forall|i: int|
            0 <= i < joined_rows(
                left.rows,
                left_keys,
                right.rows,
                right_keys,
                right.columns.len(),
                mode,
                n,
            ).len() ==> (#[trigger] joined_rows(
                left.rows,
                left_keys,
                right.rows,
                right_keys,
                right.columns.len(),
                mode,
                n,
            )[i]).len() == left.columns.len() + right.columns.len(),
    decreases n,
{
    if n > 0 {
        lemma_joined_rows_width(left, right, left_keys, right_keys, mode, (n - 1) as nat);
        lemma_first_match_is_first(right_keys, left_keys[n - 1]);
        let before = joined_rows(
            left.rows,
            left_keys,
            right.rows,
            right_keys,
            right.columns.len(),
            mode,
            (n - 1) as nat,
        );
        let rows = joined_rows(
            left.rows,
            left_keys,
            right.rows,
            right_keys,
            right.columns.len(),
            mode,
            n,
        );
        let found = first_match(right_keys, left_keys[n - 1]);
        let row = joined_row(left.rows[n - 1], right.rows, right.columns.len(), found);
        assert(left.rows[n - 1].len() == left.columns.len());
        if found is Some {
            assert(right.rows[found.unwrap()].len() == right.columns.len());
        }
        assert(row.len() == left.columns.len() + right.columns.len());
        assert forall|i: int| 0 <= i < rows.len() implies (#[trigger] rows[i]).len()
            == left.columns.len() + right.columns.len() by {
            if i < before.len() {
                assert(rows[i] == before[i]);
            }
        }
    }
}

/// The name that a column is appended under is free.
pub proof fn lemma_fresh_name_is_free(taken: Seq<Seq<char>>, name: Seq<char>)
    ensures
        first_index_of(taken, fresh_name(taken, name)) is None,
    decreases room(taken, name),
{
    if first_index_of(taken, name) is Some {
        lemma_room_shrinks(taken, name);
        lemma_fresh_name_is_free(taken, name + "_right"@);
    }
}

/// The joined columns begin with the left columns, are as many as the columns
/// that were joined, and hold no name twice where the left columns hold none.
pub proof fn lemma_joined_columns(left: Seq<Seq<char>>, right: Seq<Seq<char>>, n: nat)
    requires
        n <= right.len(),
    ensures
        joined_columns(left, right, n).len() == left.len() + n,
        joined_columns(left, right, n).take(left.len() as int) == left,
        left.no_duplicates() ==> joined_columns(left, right, n).no_duplicates(),
    decreases n,
{
    if n == 0 {
        assert(left.take(left.len() as int) =~= left);
    } else {
        let before = joined_columns(left, right, (n - 1) as nat);
        let name = fresh_name(before, right[n - 1]);
        let all = before.push(name);
        lemma_joined_columns(left, right, (n - 1) as nat);
        lemma_fresh_name_is_free(before, right[n - 1]);
        lemma_first_index_of(before, name);
        assert(all.take(left.len() as int) =~= before.take(left.len() as int));
        if left.no_duplicates() {
            assert forall|i: int, j: int|
                0 <= i < all.len() && 0 <= j < all.len() && i != j implies all[i] != all[j] by {
                if i < before.len() && j < before.len() {
                    assert(before[i] != before[j]);
                }
            }
        }
    }
}

/// Where no right column carries a name of a left column or of another right
/// column, the joined columns are the left columns followed by the right
/// columns under their own names.
pub proof fn lemma_joined_columns_plain(left: Seq<Seq<char>>, right: Seq<Seq<char>>, n: nat)
    requires
        n <= right.len(),
        (left + right).no_duplicates(),
    ensures
        joined_columns(left, right, n) == left + right.take(n as int),
    decreases n,
{
    if n == 0 {
        assert(left + right.take(0) =~= left);
    } else {
        lemma_joined_columns_plain(left, right, (n - 1) as nat);
        let before = left + right.take(n - 1);
        let name = right[n - 1];
        lemma_first_index_of(before, name);
        if first_index_of(before, name) is Some {
            let k = first_index_of(before, name).unwrap();
            assert((left + right)[k] == before[k]);
            assert((left + right)[left.len() + n - 1] == name);
        }
        assert(left + right.take(n as int) =~= before.push(name));
    }
}

} // verus!
