use vstd::prelude::*;
use vstd::string::StringExecFns;
use crate::error::{FetchError, FetchErrorView};
use crate::join::{join, try_join_spec, JoinMode, JoinReport, JoinReportView, KeyKind};
use crate::table::{
    first_index_of, index_of, lemma_first_index_of, rectangular, row_view, rows_view,
    strings_view, Cell, CellView, Table, TableView,
};

verus! {

/// Among the positions of the first `n` columns, those of the columns that
/// stay when the columns called `dropped` are taken away, in order.
pub open spec fn kept_positions(columns: Seq<Seq<char>>, dropped: Seq<Seq<char>>, n: nat) -> Seq<
    int,
>
    decreases n,
{
    if n == 0 {
        Seq::empty()
    } else {
        let before = kept_positions(columns, dropped, (n - 1) as nat);
        if first_index_of(dropped, columns[n - 1]) is Some {
            before
        } else {
            before.push(n - 1)
        }
    }
}

/// The items of a row at the given positions, in the positions' order.
pub open spec fn pick<T>(row: Seq<T>, positions: Seq<int>) -> Seq<T> {
    Seq::new(positions.len(), |k: int| row[positions[k]])
}

/// The table without the columns that carry one of the names `dropped`: the
/// other columns stay in their order, and so do the rows, each without the
/// cells of the columns that left. A name that no column carries drops
/// nothing.
pub open spec fn drop_columns_spec(table: TableView, dropped: Seq<Seq<char>>) -> TableView {
    let positions = kept_positions(table.columns, dropped, table.columns.len());
    TableView {
        columns: pick(table.columns, positions),
        rows: Seq::new(table.rows.len(), |i: int| pick(table.rows[i], positions)),
    }
}

/// The full name made of a first and a last name: the two texts with a space
/// between them, and null where either is null.
pub open spec fn full_name(first: CellView, last: CellView) -> CellView {
    if first is Null || last is Null {
        CellView::Null
    } else {
        CellView::Text(first.text() + " "@ + last.text())
    }
}

/// The table with one more column, called `name`, that holds for each row the
/// full name made of its cells in the columns called `first` and `last`. It
/// fails with the name of the column that stands in the way: `first` or
/// `last` where the table has no such column, and `name` where it has one.
pub open spec fn try_full_name_spec(
    table: TableView,
    first: Seq<char>,
    last: Seq<char>,
    name: Seq<char>,
) -> Result<TableView, Seq<char>> {
    match table.column_index(first) {
        None => Err(first),
        Some(f) => match table.column_index(last) {
            None => Err(last),
            Some(l) => if table.column_index(name) is Some {
                Err(name)
            } else {
                Ok(with_full_name_spec(table, f, l, name))
            },
        },
    }
}

/// The table with one more column, called `name`, that holds for each row the
/// full name made of its cells at `first` and `last`.
pub open spec fn with_full_name_spec(
    table: TableView,
    first: int,
    last: int,
    name: Seq<char>,
) -> TableView {
    TableView {
        columns: table.columns.push(name),
        rows: Seq::new(
            table.rows.len(),
            |i: int| table.rows[i].push(full_name(table.rows[i][first], table.rows[i][last])),
        ),
    }
}

/// The positions as integers.
pub open spec fn as_ints(positions: Seq<usize>) -> Seq<int> {
    Seq::new(positions.len(), |k: int| positions[k] as int)
}

/// The positions of the columns that stay.
fn positions_kept(columns: &Vec<String>, dropped: &Vec<String>) -> (r: Vec<usize>)
    ensures
        as_ints(r@) == kept_positions(
            strings_view(columns@),
            strings_view(dropped@),
            columns@.len(),
        ),
        forall|k: int| 0 <= k < r@.len() ==> #[trigger] r@[k] < columns@.len(),
{
    let ghost names = strings_view(columns@);
    let ghost gone = strings_view(dropped@);
    let mut kept: Vec<usize> = Vec::new();
    let mut c: usize = 0;
    while c < columns.len()
        invariant
            c <= columns.len(),
            names == strings_view(columns@),
            gone == strings_view(dropped@),
            as_ints(kept@) == kept_positions(names, gone, c as nat),
            forall|k: int| 0 <= k < kept@.len() ==> #[trigger] kept@[k] < c,
        decreases columns.len() - c,
    {
        let ghost before = kept@;
        if index_of(dropped, columns[c].as_str()).is_none() {
            kept.push(c);
            assert(as_ints(kept@) =~= as_ints(before).push(c as int));
        }
        c += 1;
    }
    kept
}

/// The cells of a row at the given positions.
fn pick_cells(row: &Vec<Cell>, positions: &Vec<usize>) -> (r: Vec<Cell>)
    requires
        forall|k: int| 0 <= k < positions@.len() ==> #[trigger] positions@[k] < row@.len(),
    ensures
        row_view(r@) == pick(row_view(row@), as_ints(positions@)),
        r@.len() == positions@.len(),
{
    let ghost wanted = as_ints(positions@);
    let mut out: Vec<Cell> = Vec::new();
    let mut k: usize = 0;
    while k < positions.len()
        invariant
            k <= positions.len(),
            out@.len() == k,
            wanted == as_ints(positions@),
            forall|q: int| 0 <= q < positions@.len() ==> #[trigger] positions@[q] < row@.len(),
            row_view(out@) == pick(row_view(row@), wanted).take(k as int),
        decreases positions.len() - k,
    {
        let ghost before = out@;
        let cell = row[positions[k]].clone();
        out.push(cell);
        proof {
            assert(row_view(out@) =~= row_view(before).push(cell@));
            assert(pick(row_view(row@), wanted).take(k + 1) =~= pick(row_view(row@), wanted).take(
                k as int,
            ).push(cell@));
        }
        k += 1;
    }
    proof {
        assert(pick(row_view(row@), wanted).take(positions@.len() as int) =~= pick(
            row_view(row@),
            wanted,
        ));
    }
    out
}

/// The names at the given positions.
fn pick_names(names: &Vec<String>, positions: &Vec<usize>) -> (r: Vec<String>)
    requires
        forall|k: int| 0 <= k < positions@.len() ==> #[trigger] positions@[k] < names@.len(),
    ensures
        strings_view(r@) == pick(strings_view(names@), as_ints(positions@)),
        r@.len() == positions@.len(),
{
    let ghost wanted = as_ints(positions@);
    let mut out: Vec<String> = Vec::new();
    let mut k: usize = 0;
    while k < positions.len()
        invariant
            k <= positions.len(),
            out@.len() == k,
            wanted == as_ints(positions@),
            forall|q: int| 0 <= q < positions@.len() ==> #[trigger] positions@[q] < names@.len(),
            strings_view(out@) == pick(strings_view(names@), wanted).take(k as int),
        decreases positions.len() - k,
    {
        let ghost before = out@;
        let name = names[positions[k]].clone();
        out.push(name);
        proof {
            assert(strings_view(out@) =~= strings_view(before).push(name@));
            assert(pick(strings_view(names@), wanted).take(k + 1) =~= pick(
                strings_view(names@),
                wanted,
            ).take(k as int).push(name@));
        }
        k += 1;
    }
    proof {
        assert(pick(strings_view(names@), wanted).take(positions@.len() as int) =~= pick(
            strings_view(names@),
            wanted,
        ));
    }
    out
}

/// The table without the columns that carry one of the names `dropped`.
///
/// The other columns stay in their order, and the rows stay in theirs, each
/// without the cells of the columns that left. A name that no column carries
/// drops nothing.
pub fn drop_columns(table: &Table, dropped: &Vec<String>) -> (r: Table)
    ensures
        r@ == drop_columns_spec(table@, strings_view(dropped@)),
        r@.wf(),
{
    let columns = table.columns();
    let rows = table.rows();
    let positions = positions_kept(columns, dropped);
    proof {
        assert(strings_view(columns@).len() == columns@.len());
    }
    let names = pick_names(columns, &positions);
    let ghost target = drop_columns_spec(table@, strings_view(dropped@));
    let mut out: Vec<Vec<Cell>> = Vec::new();
    let mut i: usize = 0;
    while i < rows.len()
        invariant
            i <= rows.len(),
            rows_view(rows@) == table@.rows,
            rectangular(rows@, table@.columns.len()),
            columns@.len() == table@.columns.len(),
            forall|k: int| 0 <= k < positions@.len() ==> #[trigger] positions@[k] < columns@.len(),
            target == drop_columns_spec(table@, strings_view(dropped@)),
            as_ints(positions@) == kept_positions(
                table@.columns,
                strings_view(dropped@),
                table@.columns.len(),
            ),
            rows_view(out@) == target.rows.take(i as int),
            rectangular(out@, positions@.len() as nat),
        decreases rows.len() - i,
    {
        let ghost before = out@;
        let row = pick_cells(&rows[i], &positions);
        out.push(row);
        proof {
            assert(table@.rows[i as int] == row_view(rows@[i as int]@));
            assert(rows_view(out@) =~= rows_view(before).push(row_view(row@)));
            assert(target.rows.take(i + 1) =~= target.rows.take(i as int).push(row_view(row@)));
        }
        i += 1;
    }
    proof {
        assert(target.rows.take(rows@.len() as int) =~= target.rows);
        lemma_kept_positions(table@.columns, strings_view(dropped@), table@.columns.len());
    }
    Table::new(names, out).unwrap()
}

/// The full name made of two cells.
fn make_full_name(first: &Cell, last: &Cell) -> (r: Cell)
    ensures
        r@ == full_name(first@, last@),
{
    match (first, last) {
        (Cell::Null, _) => Cell::Null,
        (_, Cell::Null) => Cell::Null,
        _ => {
            let mut text = first.render();
            text.append(" ");
            text.append(last.render().as_str());
            Cell::Text(text)
        },
    }
}

/// The table with one more column, called `name`, that holds for each row the
/// full name made of its cells in the columns called `first` and `last`: the
/// two texts with a space between them, and null where either is null.
///
/// Where the table has no column `first` or no column `last`, or has a column
/// `name` already, the result is a key column error with that name.
pub fn with_full_name(table: &Table, first: &str, last: &str, name: &str) -> (r: Result<
    Table,
    FetchError,
>)
    ensures
        match r {
            Ok(t) => try_full_name_spec(table@, first@, last@, name@) == Ok::<
                TableView,
                Seq<char>,
            >(t@) && t@.wf(),
            Err(e) => try_full_name_spec(table@, first@, last@, name@) is Err && e@ == (
            FetchErrorView::KeyColumn {
                column: try_full_name_spec(table@, first@, last@, name@)->Err_0,
            }),
        },
{
    let first_col = match table.column_index(first) {
        Some(c) => c,
        None => {
            return Err(FetchError::KeyColumn { column: first.to_owned() });
        },
    };
    let last_col = match table.column_index(last) {
        Some(c) => c,
        None => {
            return Err(FetchError::KeyColumn { column: last.to_owned() });
        },
    };
    if table.column_index(name).is_some() {
        return Err(FetchError::KeyColumn { column: name.to_owned() });
    }
    proof {
        lemma_first_index_of(table@.columns, first@);
        lemma_first_index_of(table@.columns, last@);
    }
    Ok(append_full_name(table, first_col, last_col, name))
}

/// The table with one more column, called `name`, that holds for each row the
/// full name made of its cells at `first` and `last`.
fn append_full_name(table: &Table, first: usize, last: usize, name: &str) -> (r: Table)
    requires
        first < table@.columns.len(),
        last < table@.columns.len(),
        table@.column_index(name@) is None,
    ensures
        r@ == with_full_name_spec(table@, first as int, last as int, name@),
        r@.wf(),
{
    let columns = table.columns();
    let rows = table.rows();
    let ghost target = with_full_name_spec(table@, first as int, last as int, name@);
    let mut names: Vec<String> = Vec::new();
    let mut c: usize = 0;
    while c < columns.len()
        invariant
            c <= columns.len(),
            strings_view(names@) == strings_view(columns@).take(c as int),
        decreases columns.len() - c,
    {
        let ghost before = names@;
        let column = columns[c].clone();
        names.push(column);
        proof {
            assert(strings_view(names@) =~= strings_view(before).push(column@));
            assert(strings_view(columns@).take(c + 1) =~= strings_view(columns@).take(c as int).push(
                column@,
            ));
        }
        c += 1;
    }
    let ghost before = names@;
    names.push(name.to_owned());
    proof {
        assert(strings_view(columns@).take(columns@.len() as int) =~= strings_view(columns@));
        assert(strings_view(names@) =~= strings_view(before).push(name@));
        assert(strings_view(columns@).len() == columns@.len());
    }
    let mut out: Vec<Vec<Cell>> = Vec::new();
    let mut i: usize = 0;
    while i < rows.len()
        invariant
            i <= rows.len(),
            rows_view(rows@) == table@.rows,
            rectangular(rows@, table@.columns.len()),
            first < table@.columns.len(),
            last < table@.columns.len(),
            target == with_full_name_spec(table@, first as int, last as int, name@),
            rows_view(out@) == target.rows.take(i as int),
            rectangular(out@, (table@.columns.len() + 1) as nat),
        decreases rows.len() - i,
    {
        let ghost before = out@;
        let old_row = &rows[i];
        let mut row: Vec<Cell> = Vec::new();
        let mut j: usize = 0;
        while j < old_row.len()
            invariant
                j <= old_row.len(),
                row@.len() == j,
                row_view(row@) == row_view(old_row@).take(j as int),
            decreases old_row.len() - j,
        {
            let ghost start = row@;
            let cell = old_row[j].clone();
            row.push(cell);
            proof {
                assert(row_view(row@) =~= row_view(start).push(cell@));
                assert(row_view(old_row@).take(j + 1) =~= row_view(old_row@).take(j as int).push(
                    cell@,
                ));
            }
            j += 1;
        }
        let ghost copied = row@;
        let joined = make_full_name(&old_row[first], &old_row[last]);
        row.push(joined);
        proof {
            assert(row_view(old_row@).take(old_row@.len() as int) =~= row_view(old_row@));
            assert(row_view(row@) =~= row_view(copied).push(joined@));
            assert(table@.rows[i as int] == row_view(old_row@));
        }
        out.push(row);
        proof {
            assert(rows_view(out@) =~= rows_view(before).push(row_view(row@)));
            assert(target.rows.take(i + 1) =~= target.rows.take(i as int).push(row_view(row@)));
        }
        i += 1;
    }
    proof {
        assert(target.rows.take(rows@.len() as int) =~= target.rows);
        lemma_first_index_of(table@.columns, name@);
        let all = table@.columns.push(name@);
        assert forall|i: int, j: int|
            0 <= i < all.len() && 0 <= j < all.len() && i != j implies all[i] != all[j] by {
            if i < table@.columns.len() && j < table@.columns.len() {
                assert(table@.columns[i] != table@.columns[j]);
            }
        }
    }
    Table::new(names, out).unwrap()
}

/// The columns of the player index that the player statistics leave out.
pub open spec fn index_dropped() -> Seq<Seq<char>> {
    seq![
        "HEIGHT"@,
        "WEIGHT"@,
        "COLLEGE"@,
        "COUNTRY"@,
        "DRAFT_YEAR"@,
        "DRAFT_ROUND"@,
        "DRAFT_NUMBER"@,
        "ROSTER_STATUS"@,
        "FROM_YEAR"@,
        "TO_YEAR"@,
        "PLAYER_SLUG"@,
        "IS_DEFUNCT"@,
        "STATS_TIMEFRAME"@,
        "JERSEY_NUMBER"@,
        "PTS"@,
        "REB"@,
        "AST"@,
        "TEAM_SLUG"@,
    ]
}

/// The columns of the player averages that the player statistics leave out.
pub open spec fn averages_dropped() -> Seq<Seq<char>> {
    seq![
        "TEAM_ID"@,
        "TEAM_ABBREVIATION"@,
        "NICKNAME"@,
        "PLAYER_NAME"@,
        "AGE"@,
        "W"@,
        "L"@,
        "W_PCT"@,
        "PLUS_MINUS"@,
        "NBA_FANTASY_PTS"@,
        "DD2"@,
        "TD3"@,
        "WNBA_FANTASY_PTS"@,
        "GP_RANK"@,
        "W_RANK"@,
        "L_RANK"@,
        "W_PCT_RANK"@,
        "MIN_RANK"@,
        "FGM_RANK"@,
        "FGA_RANK"@,
        "FG_PCT_RANK"@,
        "FG3M_RANK"@,
        "FG3A_RANK"@,
        "FG3_PCT_RANK"@,
        "FTM_RANK"@,
        "FTA_RANK"@,
        "FT_PCT_RANK"@,
        "OREB_RANK"@,
        "DREB_RANK"@,
        "REB_RANK"@,
        "AST_RANK"@,
        "TOV_RANK"@,
        "STL_RANK"@,
        "BLK_RANK"@,
        "BLKA_RANK"@,
        "PF_RANK"@,
        "PFD_RANK"@,
        "PTS_RANK"@,
        "PLUS_MINUS_RANK"@,
        "NBA_FANTASY_PTS_RANK"@,
        "DD2_RANK"@,
        "TD3_RANK"@,
        "WNBA_FANTASY_PTS_RANK"@,
    ]
}

/// The columns of the injury report that the player statistics leave out.
pub open spec fn injuries_dropped() -> Seq<Seq<char>> {
    seq![
        "ID"@,
        "URL"@,
        "firstname"@,
        "lastname"@,
        "team"@,
        "position"@,
        "rDate"@,
    ]
}

fn index_dropped_list() -> (r: Vec<String>)
    ensures
        strings_view(r@) == index_dropped(),
{
    let names: Vec<String> = vec![
        "HEIGHT".to_owned(),
        "WEIGHT".to_owned(),
        "COLLEGE".to_owned(),
        "COUNTRY".to_owned(),
        "DRAFT_YEAR".to_owned(),
        "DRAFT_ROUND".to_owned(),
        "DRAFT_NUMBER".to_owned(),
        "ROSTER_STATUS".to_owned(),
        "FROM_YEAR".to_owned(),
        "TO_YEAR".to_owned(),
        "PLAYER_SLUG".to_owned(),
        "IS_DEFUNCT".to_owned(),
        "STATS_TIMEFRAME".to_owned(),
        "JERSEY_NUMBER".to_owned(),
        "PTS".to_owned(),
        "REB".to_owned(),
        "AST".to_owned(),
        "TEAM_SLUG".to_owned(),
    ];
    assert(strings_view(names@) =~= index_dropped());
    names
}

fn averages_dropped_list() -> (r: Vec<String>)
    ensures
        strings_view(r@) == averages_dropped(),
{
    let names: Vec<String> = vec![
        "TEAM_ID".to_owned(),
        "TEAM_ABBREVIATION".to_owned(),
        "NICKNAME".to_owned(),
        "PLAYER_NAME".to_owned(),
        "AGE".to_owned(),
        "W".to_owned(),
        "L".to_owned(),
        "W_PCT".to_owned(),
        "PLUS_MINUS".to_owned(),
        "NBA_FANTASY_PTS".to_owned(),
        "DD2".to_owned(),
        "TD3".to_owned(),
        "WNBA_FANTASY_PTS".to_owned(),
        "GP_RANK".to_owned(),
        "W_RANK".to_owned(),
        "L_RANK".to_owned(),
        "W_PCT_RANK".to_owned(),
        "MIN_RANK".to_owned(),
        "FGM_RANK".to_owned(),
        "FGA_RANK".to_owned(),
        "FG_PCT_RANK".to_owned(),
        "FG3M_RANK".to_owned(),
        "FG3A_RANK".to_owned(),
        "FG3_PCT_RANK".to_owned(),
        "FTM_RANK".to_owned(),
        "FTA_RANK".to_owned(),
        "FT_PCT_RANK".to_owned(),
        "OREB_RANK".to_owned(),
        "DREB_RANK".to_owned(),
        "REB_RANK".to_owned(),
        "AST_RANK".to_owned(),
        "TOV_RANK".to_owned(),
        "STL_RANK".to_owned(),
        "BLK_RANK".to_owned(),
        "BLKA_RANK".to_owned(),
        "PF_RANK".to_owned(),
        "PFD_RANK".to_owned(),
        "PTS_RANK".to_owned(),
        "PLUS_MINUS_RANK".to_owned(),
        "NBA_FANTASY_PTS_RANK".to_owned(),
        "DD2_RANK".to_owned(),
        "TD3_RANK".to_owned(),
        "WNBA_FANTASY_PTS_RANK".to_owned(),
    ];
    assert(strings_view(names@) =~= averages_dropped());
    names
}

fn injuries_dropped_list() -> (r: Vec<String>)
    ensures
        strings_view(r@) == injuries_dropped(),
{
    let names: Vec<String> = vec![
        "ID".to_owned(),
        "URL".to_owned(),
        "firstname".to_owned(),
        "lastname".to_owned(),
        "team".to_owned(),
        "position".to_owned(),
        "rDate".to_owned(),
    ];
    assert(strings_view(names@) =~= injuries_dropped());
    names
}

/// The player index as the player statistics use it: with a column
/// `PLAYER_NAME` of the full names, made of `PLAYER_FIRST_NAME` and
/// `PLAYER_LAST_NAME`, and without the columns that are left out. It fails
/// where one of the two name columns is missing or the index has a column
/// `PLAYER_NAME` already, with the column's name.
pub open spec fn read_player_index_spec(index: TableView) -> Result<TableView, Seq<char>> {
    match try_full_name_spec(
        index,
        "PLAYER_FIRST_NAME"@,
        "PLAYER_LAST_NAME"@,
        "PLAYER_NAME"@,
    ) {
        Err(c) => Err(c),
        Ok(named) => Ok(drop_columns_spec(named, index_dropped())),
    }
}

/// The table of player statistics, with the report of each of the two joins
/// that made it.
#[derive(Debug, PartialEq, Eq)]
pub struct PlayerStats {
    /// One row for each player of the index.
    pub table: Table,
    /// What did not match one to one between the index and the averages.
    pub averages: JoinReport,
    /// What did not match one to one between the players and the injury
    /// report.
    pub injuries: JoinReport,
}

/// Mathematical model of [`PlayerStats`].
pub struct PlayerStatsView {
    pub table: TableView,
    pub averages: JoinReportView,
    pub injuries: JoinReportView,
}

impl View for PlayerStats {
    type V = PlayerStatsView;

    open spec fn view(&self) -> PlayerStatsView {
        PlayerStatsView {
            table: self.table@,
            averages: self.averages@,
            injuries: self.injuries@,
        }
    }
}

/// The table of player statistics: the player index joined with the player
/// averages on the player's identifier, and the result joined with the injury
/// report on the player's normalised name, both left-outer, with the report
/// of each join. It fails with the name of the first key column that is
/// missing.
pub open spec fn player_stats_spec(
    index: TableView,
    averages: TableView,
    injuries: TableView,
) -> Result<PlayerStatsView, Seq<char>> {
    match read_player_index_spec(index) {
        Err(c) => Err(c),
        Ok(players) => match try_join_spec(
            players,
            drop_columns_spec(averages, averages_dropped()),
            "PERSON_ID"@,
            "PLAYER_ID"@,
            KeyKind::Id,
            JoinMode::LeftOuter,
        ) {
            Err(c) => Err(c),
            Ok(with_averages) => match try_join_spec(
                with_averages.table,
                drop_columns_spec(injuries, injuries_dropped()),
                "PLAYER_NAME"@,
                "player"@,
                KeyKind::Name,
                JoinMode::LeftOuter,
            ) {
                Err(c) => Err(c),
                Ok(with_injuries) => Ok(
                    PlayerStatsView {
                        table: with_injuries.table,
                        averages: with_averages.report(),
                        injuries: with_injuries.report(),
                    },
                ),
            },
        },
    }
}

/// The player index as the player statistics use it.
///
/// A column `PLAYER_NAME` is added that holds the full name of each player,
/// first and last name with a space between them, and the columns that the
/// statistics do not use are dropped. The names stay as the provider wrote
/// them. Where the index has no `PLAYER_FIRST_NAME` or no `PLAYER_LAST_NAME`
/// column, or has a `PLAYER_NAME` column already, the result is a key column
/// error with that name.
pub fn read_player_index(index: &Table) -> (r: Result<Table, FetchError>)
    ensures
        match r {
            Ok(t) => read_player_index_spec(index@) == Ok::<TableView, Seq<char>>(t@) && t@.wf(),
            Err(e) => read_player_index_spec(index@) is Err && e@ == (FetchErrorView::KeyColumn {
                column: read_player_index_spec(index@)->Err_0,
            }),
        },
{
    match with_full_name(index, "PLAYER_FIRST_NAME", "PLAYER_LAST_NAME", "PLAYER_NAME") {
        Ok(named) => Ok(drop_columns(&named, &index_dropped_list())),
        Err(e) => Err(e),
    }
}

/// The player averages as the player statistics use them: without the
/// columns that are left out.
pub fn read_player_averages(averages: &Table) -> (r: Table)
    ensures
        r@ == drop_columns_spec(averages@, averages_dropped()),
        r@.wf(),
{
    drop_columns(averages, &averages_dropped_list())
}

/// The injury report as the player statistics use it: without the columns
/// that are left out.
pub fn read_player_injury_report(injuries: &Table) -> (r: Table)
    ensures
        r@ == drop_columns_spec(injuries@, injuries_dropped()),
        r@.wf(),
{
    drop_columns(injuries, &injuries_dropped_list())
}

/// The table of player statistics, from the player index, the player averages
/// and the injury report.
///
/// The index is joined with the averages on the player's identifier,
/// `PERSON_ID` against `PLAYER_ID`, and the result with the injury report on
/// the player's name, `PLAYER_NAME` against `player`, matched by normalised
/// name. Both joins are left-outer, so every player of the index has one row.
/// The unmatched and ambiguous counts of both joins are reported. A missing
/// key column is a key column error with its name.
pub fn player_stats_df(index: &Table, averages: &Table, injuries: &Table) -> (r: Result<
    PlayerStats,
    FetchError,
>)
    ensures
        match r {
            Ok(stats) => player_stats_spec(index@, averages@, injuries@) == Ok::<
                PlayerStatsView,
                Seq<char>,
            >(stats@) && stats@.table.wf() && stats@.table.rows.len() == index@.rows.len(),
            Err(e) => player_stats_spec(index@, averages@, injuries@) is Err && e@ == (
            FetchErrorView::KeyColumn {
                column: player_stats_spec(index@, averages@, injuries@)->Err_0,
            }),
        },
{
    let players = match read_player_index(index) {
        Ok(t) => t,
        Err(e) => {
            return Err(e);
        },
    };
    let player_averages = read_player_averages(averages);
    let with_averages = match join(
        &players,
        &player_averages,
        "PERSON_ID",
        "PLAYER_ID",
        KeyKind::Id,
        JoinMode::LeftOuter,
    ) {
        Ok(j) => j,
        Err(e) => {
            return Err(e);
        },
    };
    let report = read_player_injury_report(injuries);
    let averages_report = with_averages.report();
    match join(
        &with_averages.table,
        &report,
        "PLAYER_NAME",
        "player",
        KeyKind::Name,
        JoinMode::LeftOuter,
    ) {
        Ok(with_injuries) => {
            let injuries_report = with_injuries.report();
            Ok(
                PlayerStats {
                    table: with_injuries.table,
                    averages: averages_report,
                    injuries: injuries_report,
                },
            )
        },
        Err(e) => Err(e),
    }
}

/// The positions that stay lie among the first `n`, in rising order.
pub proof fn lemma_kept_positions(columns: Seq<Seq<char>>, dropped: Seq<Seq<char>>, n: nat)
    requires
        n <= columns.len(),
    ensures
        forall|k: int|
            0 <= k < kept_positions(columns, dropped, n).len() ==> 0 <= (
            #[trigger] kept_positions(columns, dropped, n)[k]) < n,
        forall|k: int, l: int|
            0 <= k < l < kept_positions(columns, dropped, n).len() ==> kept_positions(
                columns,
                dropped,
                n,
            )[k] < kept_positions(columns, dropped, n)[l],
        columns.no_duplicates() ==> pick(columns, kept_positions(columns, dropped, n)).no_duplicates(),
    decreases n,
{
    if n > 0 {
        lemma_kept_positions(columns, dropped, (n - 1) as nat);
        let before = kept_positions(columns, dropped, (n - 1) as nat);
        let all = kept_positions(columns, dropped, n);
        assert forall|k: int| 0 <= k < all.len() implies 0 <= (#[trigger] all[k]) < n by {
            if k < before.len() {
                assert(all[k] == before[k]);
            }
        }
        assert forall|k: int, l: int| 0 <= k < l < all.len() implies all[k] < all[l] by {
            assert(all[k] == before[k]);
            if l < before.len() {
                assert(all[l] == before[l]);
            }
        }
    }
    let positions = kept_positions(columns, dropped, n);
    if columns.no_duplicates() {
        let picked = pick(columns, positions);
        assert forall|i: int, j: int|
            0 <= i < picked.len() && 0 <= j < picked.len() && i != j implies picked[i]
            != picked[j] by {
            if i < j {
                assert(positions[i] < positions[j]);
            } else {
                assert(positions[j] < positions[i]);
            }
        }
    }
}

} // verus!
