use nba_data::error::FetchError;
use nba_data::join::{
    count_unmatched, find_matches, join, join_on_keys, key_column, JoinMode, JoinReport, KeyKind,
};
use nba_data::table::{Cell, Table};

fn text(t: &str) -> Cell {
    Cell::Text(t.to_string())
}

fn number(t: &str) -> Cell {
    Cell::Number(t.to_string())
}

fn names(items: &[&str]) -> Vec<String> {
    items.iter().map(|x| x.to_string()).collect()
}

fn table(columns: &[&str], rows: Vec<Vec<Cell>>) -> Table {
    Table::new(names(columns), rows).expect("rows should fit the columns")
}

fn keys(items: &[Option<&str>]) -> Vec<Option<String>> {
    items.iter().map(|k| k.map(|s| s.to_string())).collect()
}

#[test]
fn name_join_matches_across_diacritics() {
    let left = table(&["id", "name"], vec![vec![number("1"), text("Luka Dončić")]]);
    let right = table(&["name", "ppg"], vec![vec![text("Luka Doncic"), number("32.4")]]);
    let joined = join(&left, &right, "name", "name", KeyKind::Name, JoinMode::LeftOuter).unwrap();
    assert_eq!(joined.table.columns(), &names(&["id", "name", "name_right", "ppg"]));
    assert_eq!(
        joined.table.rows(),
        &vec![vec![number("1"), text("Luka Dončić"), text("Luka Doncic"), number("32.4")]]
    );
    assert_eq!(joined.table.rows()[0][3].render(), "32.4");
    assert_eq!(joined.unmatched_left, 0);
    assert_eq!(joined.unmatched_right, 0);
    assert_eq!(joined.ambiguous_matches, 0);
}

#[test]
fn ambiguous_key_takes_the_first_candidate_and_is_counted() {
    let left = table(&["player"], vec![vec![text("J.J. Redick")]]);
    let right = table(
        &["name", "status"],
        vec![vec![text("J.J. Redick"), text("first")], vec![text("j.j.  REDICK "), text("second")]],
    );
    let joined = join(&left, &right, "player", "name", KeyKind::Name, JoinMode::LeftOuter).unwrap();
    assert_eq!(joined.ambiguous_matches, 1);
    assert_eq!(joined.unmatched_left, 0);
    assert_eq!(joined.unmatched_right, 0);
    assert_eq!(
        joined.table.rows(),
        &vec![vec![text("J.J. Redick"), text("J.J. Redick"), text("first")]]
    );
    let inner = join(&left, &right, "player", "name", KeyKind::Name, JoinMode::Inner).unwrap();
    assert_eq!(inner.ambiguous_matches, 1);
    assert_eq!(inner.table.rows(), joined.table.rows());
}

#[test]
fn ambiguous_key_among_other_rows() {
    let left = table(&["player"], vec![vec![text("JJ Redick")], vec![text("Luka Dončić")]]);
    let right = table(
        &["name", "status"],
        vec![
            vec![text("Someone Else"), text("Out")],
            vec![text("jj  redick"), text("first")],
            vec![text(" JJ REDICK "), text("second")],
        ],
    );
    assert_eq!(key_column(&right, 0, KeyKind::Name)[1], Some("jj redick".to_string()));
    assert_eq!(key_column(&right, 0, KeyKind::Name)[2], Some("jj redick".to_string()));
    let joined = join(&left, &right, "player", "name", KeyKind::Name, JoinMode::LeftOuter).unwrap();
    assert_eq!(joined.ambiguous_matches, 1);
    assert_eq!(joined.unmatched_left, 1);
    assert_eq!(joined.unmatched_right, 1);
    assert_eq!(
        joined.table.rows(),
        &vec![
            vec![text("JJ Redick"), text("jj  redick"), text("first")],
            vec![text("Luka Dončić"), Cell::Null, Cell::Null],
        ]
    );
}

#[test]
fn id_join_matches_text_as_it_is_written() {
    let left = table(&["PERSON_ID", "n"], vec![vec![number("7"), text("a")], vec![number("07"), text("b")], vec![text("7"), text("c")]]);
    let right = table(&["PLAYER_ID", "v"], vec![vec![number("7"), text("seven")], vec![text("X"), text("x")]]);
    let joined = join(&left, &right, "PERSON_ID", "PLAYER_ID", KeyKind::Id, JoinMode::LeftOuter).unwrap();
    assert_eq!(
        joined.table.rows(),
        &vec![
            vec![number("7"), text("a"), number("7"), text("seven")],
            vec![number("07"), text("b"), Cell::Null, Cell::Null],
            vec![text("7"), text("c"), number("7"), text("seven")],
        ]
    );
    assert_eq!(joined.unmatched_left, 1);
    assert_eq!(joined.unmatched_right, 1);
    assert_eq!(joined.ambiguous_matches, 0);
    let by_name = join(&left, &right, "n", "v", KeyKind::Id, JoinMode::Inner).unwrap();
    assert_eq!(by_name.table.rows().len(), 0);
    assert_eq!(by_name.unmatched_left, 3);
}

#[test]
fn id_key_is_not_normalised() {
    let left = table(&["k"], vec![vec![text("ABC")]]);
    let right = table(&["k"], vec![vec![text("abc")]]);
    let by_id = join(&left, &right, "k", "k", KeyKind::Id, JoinMode::Inner).unwrap();
    assert_eq!(by_id.table.rows().len(), 0);
    let by_name = join(&left, &right, "k", "k", KeyKind::Name, JoinMode::Inner).unwrap();
    assert_eq!(by_name.table.rows().len(), 1);
}

#[test]
fn left_outer_keeps_every_left_row_and_inner_at_most_as_many() {
    let left = table(
        &["id"],
        vec![vec![number("1")], vec![number("2")], vec![number("3")], vec![number("2")], vec![Cell::Null]],
    );
    let right = table(&["id", "v"], vec![vec![number("2"), text("two")], vec![number("9"), text("nine")], vec![Cell::Null, text("none")]]);
    let outer = join(&left, &right, "id", "id", KeyKind::Id, JoinMode::LeftOuter).unwrap();
    assert_eq!(outer.table.rows().len(), left.rows().len());
    assert_eq!(outer.unmatched_left, 3);
    assert_eq!(outer.unmatched_right, 2);
    let inner = join(&left, &right, "id", "id", KeyKind::Id, JoinMode::Inner).unwrap();
    assert_eq!(
        inner.table.rows(),
        &vec![vec![number("2"), number("2"), text("two")], vec![number("2"), number("2"), text("two")]]
    );
    assert_eq!(inner.table.rows().len() + inner.unmatched_left, left.rows().len());
    assert_eq!(inner.unmatched_left, 3);
    assert_eq!(inner.unmatched_right, 2);
}

#[test]
fn null_keys_match_nothing() {
    let left = table(&["k"], vec![vec![Cell::Null], vec![text("")]]);
    let right = table(&["k", "v"], vec![vec![Cell::Null, text("null")], vec![text(""), text("empty")]]);
    let joined = join(&left, &right, "k", "k", KeyKind::Id, JoinMode::LeftOuter).unwrap();
    assert_eq!(
        joined.table.rows(),
        &vec![vec![Cell::Null, Cell::Null, Cell::Null], vec![text(""), text(""), text("empty")]]
    );
    assert_eq!(joined.unmatched_left, 1);
    assert_eq!(joined.unmatched_right, 1);
}

#[test]
fn missing_key_column_is_the_only_failure() {
    let left = table(&["id"], vec![vec![number("1")]]);
    let right = table(&["pid"], vec![vec![number("1")]]);
    assert_eq!(
        join(&left, &right, "ID", "pid", KeyKind::Id, JoinMode::Inner),
        Err(FetchError::KeyColumn { column: "ID".to_string() })
    );
    assert_eq!(
        join(&left, &right, "id", "id", KeyKind::Id, JoinMode::Inner),
        Err(FetchError::KeyColumn { column: "id".to_string() })
    );
    assert_eq!(
        join(&left, &right, "x", "y", KeyKind::Name, JoinMode::LeftOuter),
        Err(FetchError::KeyColumn { column: "x".to_string() })
    );
    assert!(join(&left, &right, "id", "pid", KeyKind::Id, JoinMode::Inner).is_ok());
}

#[test]
fn joins_chain() {
    let index = table(&["id", "name"], vec![vec![number("1"), text("Luka Dončić")], vec![number("2"), text("Nikola Jokić")]]);
    let averages = table(&["pid", "ppg"], vec![vec![number("2"), number("26.4")], vec![number("1"), number("32.4")]]);
    let injuries = table(&["player", "status"], vec![vec![text("NIKOLA JOKIC"), text("Day-to-day")]]);
    let first = join(&index, &averages, "id", "pid", KeyKind::Id, JoinMode::LeftOuter).unwrap();
    let second = join(&first.table, &injuries, "name", "player", KeyKind::Name, JoinMode::LeftOuter).unwrap();
    assert_eq!(second.table.columns(), &names(&["id", "name", "pid", "ppg", "player", "status"]));
    assert_eq!(
        second.table.rows(),
        &vec![
            vec![number("1"), text("Luka Dončić"), number("1"), number("32.4"), Cell::Null, Cell::Null],
            vec![number("2"), text("Nikola Jokić"), number("2"), number("26.4"), text("NIKOLA JOKIC"), text("Day-to-day")],
        ]
    );
    assert_eq!(second.unmatched_left, 1);
    assert_eq!(second.unmatched_right, 0);
}

#[test]
fn empty_tables_join() {
    let left = table(&["id"], vec![]);
    let right = table(&["id", "v"], vec![vec![number("1"), text("x")]]);
    let joined = join(&left, &right, "id", "id", KeyKind::Id, JoinMode::LeftOuter).unwrap();
    assert_eq!(joined.table.columns(), &names(&["id", "id_right", "v"]));
    assert_eq!(joined.table.rows().len(), 0);
    assert_eq!(joined.unmatched_right, 1);
    let other = join(&right, &left, "id", "id", KeyKind::Id, JoinMode::LeftOuter).unwrap();
    assert_eq!(other.table.rows(), &vec![vec![number("1"), text("x"), Cell::Null]]);
    assert_eq!(other.unmatched_left, 1);
}

#[test]
fn taken_column_names_get_a_suffix() {
    let left = table(&["k", "v", "v_right"], vec![vec![text("a"), text("1"), text("2")]]);
    let right = table(&["k", "v", "w"], vec![vec![text("a"), text("3"), text("4")]]);
    let joined = join(&left, &right, "k", "k", KeyKind::Id, JoinMode::Inner).unwrap();
    assert_eq!(
        joined.table.columns(),
        &names(&["k", "v", "v_right", "k_right", "v_right_right", "w"])
    );
    assert_eq!(
        joined.table.rows(),
        &vec![vec![text("a"), text("1"), text("2"), text("a"), text("3"), text("4")]]
    );
    let again = join(&joined.table, &right, "k", "k", KeyKind::Id, JoinMode::Inner).unwrap();
    assert_eq!(
        again.table.columns(),
        &names(&["k", "v", "v_right", "k_right", "v_right_right", "w", "k_right_right", "v_right_right_right", "w_right"])
    );
    assert_eq!(joined.table.column_index("k"), Some(0));
    assert_eq!(joined.table.column_index("K"), None);
}

#[test]
fn keys_of_a_column() {
    let t = table(&["name", "n"], vec![vec![text(" Luka  DONČIĆ"), number("77")], vec![Cell::Null, Cell::Bool(true)]]);
    assert_eq!(key_column(&t, 0, KeyKind::Name), keys(&[Some("luka doncic"), None]));
    assert_eq!(key_column(&t, 0, KeyKind::Id), keys(&[Some(" Luka  DONČIĆ"), None]));
    assert_eq!(key_column(&t, 1, KeyKind::Id), keys(&[Some("77"), Some("true")]));
}

#[test]
fn join_on_given_keys() {
    let left = table(&["l"], vec![vec![text("a")], vec![text("b")], vec![text("c")]]);
    let right = table(&["r"], vec![vec![text("x")], vec![text("y")], vec![text("z")]]);
    let left_keys = keys(&[Some("k1"), None, Some("k2")]);
    let right_keys = keys(&[Some("k2"), Some("k1"), Some("k2")]);
    let joined = join_on_keys(&left, &right, &left_keys, &right_keys, JoinMode::LeftOuter);
    assert_eq!(
        joined.table.rows(),
        &vec![vec![text("a"), text("y")], vec![text("b"), Cell::Null], vec![text("c"), text("x")]]
    );
    assert_eq!(joined.unmatched_left, 1);
    assert_eq!(joined.unmatched_right, 0);
    assert_eq!(joined.ambiguous_matches, 1);
    assert_eq!(
        joined.report(),
        JoinReport { unmatched_left: 1, unmatched_right: 0, ambiguous_matches: 1 }
    );
    let inner = join_on_keys(&left, &right, &left_keys, &right_keys, JoinMode::Inner);
    assert_eq!(inner.table.rows(), &vec![vec![text("a"), text("y")], vec![text("c"), text("x")]]);
}

#[test]
fn first_match_and_count() {
    let all = keys(&[Some("a"), None, Some("b"), Some("a"), Some("a")]);
    assert_eq!(find_matches(&all, &Some("a".to_string())), (Some(0), 3));
    assert_eq!(find_matches(&all, &Some("b".to_string())), (Some(2), 1));
    assert_eq!(find_matches(&all, &Some("c".to_string())), (None, 0));
    assert_eq!(find_matches(&all, &None), (None, 0));
    assert_eq!(count_unmatched(&all, &keys(&[Some("a")])), 2);
    assert_eq!(count_unmatched(&keys(&[Some("a"), Some("z")]), &all), 1);
}

#[test]
fn table_column_names_must_differ() {
    assert!(Table::new(names(&["a", "a"]), vec![]).is_none());
    assert!(Table::new(names(&["a", "b", "c", "b"]), vec![vec![text("1"), text("2"), text("3"), text("4")]]).is_none());
    assert!(Table::new(names(&["a", "A", " a"]), vec![]).is_some());
}

#[test]
fn table_rows_must_fit_the_columns() {
    assert!(Table::new(names(&["a", "b"]), vec![vec![text("1")]]).is_none());
    assert!(Table::new(names(&["a"]), vec![vec![text("1")], vec![]]).is_none());
    assert!(Table::new(names(&[]), vec![vec![]]).is_some());
    let t = Table::new(names(&["a", "b"]), vec![vec![text("1"), Cell::Null]]).unwrap();
    let (columns, rows) = t.into_parts();
    assert_eq!(columns, names(&["a", "b"]));
    assert_eq!(rows, vec![vec![text("1"), Cell::Null]]);
}
