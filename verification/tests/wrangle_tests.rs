use nba_data::error::FetchError;
use nba_data::join::JoinReport;
use nba_data::table::{Cell, Table};
use nba_data::wrangle::{
    drop_columns, player_stats_df, read_player_averages, read_player_index,
    read_player_injury_report, with_full_name,
};

fn text(t: &str) -> Cell {
    Cell::Text(t.to_string())
}

fn number(t: &str) -> Cell {
    Cell::Number(t.to_string())
}

fn names(items: &[&str]) -> Vec<String> {
    items.iter().map(|x| x.to_string()).collect()
}

fn table(columns: &[&str], rows: Vec<Vec<Cell>>) -> Table {
    Table::new(names(columns), rows).expect("rows should fit the columns")
}

fn player_index() -> Table {
    table(
        &["PERSON_ID", "PLAYER_LAST_NAME", "PLAYER_FIRST_NAME", "PLAYER_SLUG", "TEAM_ID", "HEIGHT", "PTS", "COUNTRY"],
        vec![
            vec![number("1629029"), text("Dončić"), text("Luka"), text("luka-doncic"), number("1610612742"), text("6-7"), number("28.1"), text("Slovenia")],
            vec![number("203999"), text("Jokić"), text("Nikola"), text("nikola-jokic"), number("1610612743"), text("6-11"), number("26.4"), text("Serbia")],
            vec![number("1"), text("Nameless"), Cell::Null, text("x"), number("0"), text("6-0"), number("0.0"), text("USA")],
        ],
    )
}

fn player_averages() -> Table {
    table(
        &["PLAYER_ID", "PLAYER_NAME", "NICKNAME", "TEAM_ID", "AGE", "GP", "W", "L", "W_PCT", "MIN", "FG_PCT", "PTS", "PTS_RANK", "GP_RANK"],
        vec![
            vec![number("203999"), text("Nikola Jokić"), text("Nikola"), number("1610612743"), number("29.0"), number("79"), number("57"), number("22"), number("0.722"), number("34.6"), number("0.583"), number("26.4"), number("9"), number("30")],
            vec![number("1629029"), text("Luka Dončić"), text("Luka"), number("1610612742"), number("25.0"), number("70"), number("50"), number("20"), number("0.714"), number("37.5"), number("0.487"), number("33.9"), number("1"), number("100")],
        ],
    )
}

fn injury_report() -> Table {
    table(
        &["ID", "URL", "firstname", "lastname", "player", "team", "position", "injury", "status", "rDate"],
        vec![
            vec![text("3975"), text("/x"), text("Nikola"), text("Jokic"), text("Nikola Jokic"), text("DEN"), text("C"), text("Wrist"), text("Game Time Decision"), text("Nov 3")],
            vec![text("1"), text("/y"), text("Joel"), text("Embiid"), text("Joel Embiid"), text("PHI"), text("C"), text("Knee"), text("Out"), text("Nov 9")],
        ],
    )
}

#[test]
fn test_read_player_data() {
    let player_index = read_player_index(&player_index()).unwrap();
    println!("{:?}", player_index);

    let player_averages = read_player_averages(&player_averages());
    println!("{:?}", player_averages);

    let player_injury_report = read_player_injury_report(&injury_report());
    println!("{:?}", player_injury_report);

    assert_eq!(
        player_index.columns(),
        &names(&["PERSON_ID", "PLAYER_LAST_NAME", "PLAYER_FIRST_NAME", "TEAM_ID", "PLAYER_NAME"])
    );
    assert_eq!(
        player_index.rows(),
        &vec![
            vec![number("1629029"), text("Dončić"), text("Luka"), number("1610612742"), text("Luka Dončić")],
            vec![number("203999"), text("Jokić"), text("Nikola"), number("1610612743"), text("Nikola Jokić")],
            vec![number("1"), text("Nameless"), Cell::Null, number("0"), Cell::Null],
        ]
    );
    assert_eq!(player_averages.columns(), &names(&["PLAYER_ID", "GP", "MIN", "FG_PCT", "PTS"]));
    assert_eq!(player_injury_report.columns(), &names(&["player", "injury", "status"]));
}

#[test]
fn test_remove_player_data_cols() {
    let player_index_df = read_player_index(&player_index()).unwrap();
    let col_drop_player_index_df = names(&[
        "HEIGHT",
        "WEIGHT",
        "COLLEGE",
        "COUNTRY",
        "DRAFT_YEAR",
        "DRAFT_ROUND",
        "DRAFT_NUMBER",
        "ROSTER_STATUS",
        "FROM_YEAR",
        "TO_YEAR",
        "PLAYER_SLUG",
        "IS_DEFUNCT",
        "STATS_TIMEFRAME",
        "JERSEY_NUMBER",
        "PTS",
        "REB",
        "AST",
        "TEAM_SLUG",
    ]);
    let player_index_df = drop_columns(&player_index_df, &col_drop_player_index_df);
    let cols_player_index = player_index_df.columns();
    println!("cols_player_index: {:#?}", cols_player_index);
    assert_eq!(
        cols_player_index,
        &names(&["PERSON_ID", "PLAYER_LAST_NAME", "PLAYER_FIRST_NAME", "TEAM_ID", "PLAYER_NAME"])
    );

    let player_averages_df = read_player_averages(&player_averages());
    let col_drop_player_averages_df = names(&[
        "TEAM_ID",
        "TEAM_ABBREVIATION",
        "NICKNAME",
        "AGE",
        "W",
        "L",
        "W_PCT",
        "PLUS_MINUS",
        "NBA_FANTASY_PTS",
        "DD2",
        "TD3",
        "WNBA_FANTASY_PTS",
        "GP_RANK",
        "W_RANK",
        "L_RANK",
        "W_PCT_RANK",
        "MIN_RANK",
        "FGM_RANK",
        "FGA_RANK",
        "FG_PCT_RANK",
        "FG3M_RANK",
        "FG3A_RANK",
        "FG3_PCT_RANK",
        "FTM_RANK",
        "FTA_RANK",
        "FT_PCT_RANK",
        "OREB_RANK",
        "DREB_RANK",
        "REB_RANK",
        "AST_RANK",
        "TOV_RANK",
        "STL_RANK",
        "BLK_RANK",
        "BLKA_RANK",
        "PF_RANK",
        "PFD_RANK",
        "PTS_RANK",
        "PLUS_MINUS_RANK",
        "NBA_FANTASY_PTS_RANK",
        "DD2_RANK",
        "TD3_RANK",
        "WNBA_FANTASY_PTS_RANK",
    ]);
    let player_averages_df = drop_columns(&player_averages_df, &col_drop_player_averages_df);
    let cols_player_averages = player_averages_df.columns();
    println!("cols_player_averages: {:#?}", cols_player_averages);
    assert_eq!(cols_player_averages, &names(&["PLAYER_ID", "GP", "MIN", "FG_PCT", "PTS"]));

    let player_injury_report_df = read_player_injury_report(&injury_report());
    let col_drop_player_injury_report_df =
        names(&["ID", "URL", "firstname", "lastname", "team", "position", "rDate"]);
    let player_injury_report_df =
        drop_columns(&player_injury_report_df, &col_drop_player_injury_report_df);
    let cols_player_injury_report = player_injury_report_df.columns();
    println!("cols_player_injury_report: {:#?}", cols_player_injury_report);
    assert_eq!(cols_player_injury_report, &names(&["player", "injury", "status"]));
}

#[test]
fn test_collect_player_data_dfs() {
    let joined = player_stats_df(&player_index(), &player_averages(), &injury_report()).unwrap();
    assert_eq!(
        joined.table.columns(),
        &names(&[
            "PERSON_ID",
            "PLAYER_LAST_NAME",
            "PLAYER_FIRST_NAME",
            "TEAM_ID",
            "PLAYER_NAME",
            "PLAYER_ID",
            "GP",
            "MIN",
            "FG_PCT",
            "PTS",
            "player",
            "injury",
            "status",
        ])
    );
    assert_eq!(
        joined.table.rows(),
        &vec![
            vec![
                number("1629029"), text("Dončić"), text("Luka"), number("1610612742"), text("Luka Dončić"),
                number("1629029"), number("70"), number("37.5"), number("0.487"), number("33.9"),
                Cell::Null, Cell::Null, Cell::Null,
            ],
            vec![
                number("203999"), text("Jokić"), text("Nikola"), number("1610612743"), text("Nikola Jokić"),
                number("203999"), number("79"), number("34.6"), number("0.583"), number("26.4"),
                text("Nikola Jokic"), text("Wrist"), text("Game Time Decision"),
            ],
            vec![
                number("1"), text("Nameless"), Cell::Null, number("0"), Cell::Null,
                Cell::Null, Cell::Null, Cell::Null, Cell::Null, Cell::Null,
                Cell::Null, Cell::Null, Cell::Null,
            ],
        ]
    );
    assert_eq!(
        joined.averages,
        JoinReport { unmatched_left: 1, unmatched_right: 0, ambiguous_matches: 0 }
    );
    assert_eq!(
        joined.injuries,
        JoinReport { unmatched_left: 2, unmatched_right: 1, ambiguous_matches: 0 }
    );
}

#[test]
fn player_statistics_report_both_joins() {
    let index = table(
        &["PERSON_ID", "PLAYER_FIRST_NAME", "PLAYER_LAST_NAME"],
        vec![
            vec![number("1"), text("J.J."), text("Redick")],
            vec![number("2"), text("Luka"), text("Dončić")],
            vec![number("3"), text("No"), text("Averages")],
        ],
    );
    let averages = table(
        &["PLAYER_ID", "GP"],
        vec![
            vec![number("2"), number("70")],
            vec![number("2"), number("71")],
            vec![number("1"), number("10")],
            vec![number("9"), number("1")],
        ],
    );
    let injuries = table(
        &["player", "status"],
        vec![
            vec![text("j.j. redick"), text("Out")],
            vec![text("J.J.  REDICK"), text("Doubtful")],
            vec![text("Luka Doncic"), text("Probable")],
            vec![text("Somebody Else"), text("Out")],
        ],
    );
    let stats = player_stats_df(&index, &averages, &injuries).unwrap();
    assert_eq!(stats.table.rows().len(), 3);
    assert_eq!(
        stats.averages,
        JoinReport { unmatched_left: 1, unmatched_right: 1, ambiguous_matches: 1 }
    );
    assert_eq!(
        stats.injuries,
        JoinReport { unmatched_left: 1, unmatched_right: 1, ambiguous_matches: 1 }
    );
    assert_eq!(
        stats.table.rows()[0],
        vec![
            number("1"), text("J.J."), text("Redick"), text("J.J. Redick"),
            number("1"), number("10"), text("j.j. redick"), text("Out"),
        ]
    );
    assert_eq!(stats.table.rows()[1][5], number("70"));
    assert_eq!(stats.table.rows()[1][7], text("Probable"));
}

#[test]
fn test_read_player_index() {
    let player_index = read_player_index(&player_index()).unwrap();
    println!("{:?}", player_index);
    assert_eq!(player_index.rows().len(), 3);

    let player_averages = read_player_averages(&player_averages());
    println!("{:?}", player_averages);
    assert_eq!(player_averages.rows().len(), 2);

    let player_injury_report = read_player_injury_report(&injury_report());
    println!("{:?}", player_injury_report);
    assert_eq!(player_injury_report.rows().len(), 2);
}

#[test]
fn player_statistics_need_their_key_columns() {
    let no_first = table(&["PERSON_ID", "PLAYER_LAST_NAME"], vec![]);
    assert_eq!(
        read_player_index(&no_first),
        Err(FetchError::KeyColumn { column: "PLAYER_FIRST_NAME".to_string() })
    );
    let no_last = table(&["PERSON_ID", "PLAYER_FIRST_NAME"], vec![]);
    assert_eq!(
        player_stats_df(&no_last, &player_averages(), &injury_report()),
        Err(FetchError::KeyColumn { column: "PLAYER_LAST_NAME".to_string() })
    );
    let no_id = table(&["PLAYER_FIRST_NAME", "PLAYER_LAST_NAME"], vec![]);
    assert_eq!(
        player_stats_df(&no_id, &player_averages(), &injury_report()),
        Err(FetchError::KeyColumn { column: "PERSON_ID".to_string() })
    );
    let averages_without_id = table(&["GP"], vec![]);
    assert_eq!(
        player_stats_df(&player_index(), &averages_without_id, &injury_report()),
        Err(FetchError::KeyColumn { column: "PLAYER_ID".to_string() })
    );
    let injuries_without_player = table(&["injury"], vec![]);
    assert_eq!(
        player_stats_df(&player_index(), &player_averages(), &injuries_without_player),
        Err(FetchError::KeyColumn { column: "player".to_string() })
    );
}

#[test]
fn dropping_columns_keeps_the_rest_in_order() {
    let t = table(
        &["a", "b", "c", "d"],
        vec![vec![text("1"), text("2"), text("3"), text("4")], vec![text("5"), text("6"), text("7"), text("8")]],
    );
    let dropped = drop_columns(&t, &names(&["c", "zzz", "a", "c"]));
    assert_eq!(dropped.columns(), &names(&["b", "d"]));
    assert_eq!(dropped.rows(), &vec![vec![text("2"), text("4")], vec![text("6"), text("8")]]);
    let same = drop_columns(&t, &names(&[]));
    assert_eq!(same, t);
    let none = drop_columns(&t, &names(&["d", "c", "b", "a"]));
    assert_eq!(none.columns().len(), 0);
    assert_eq!(none.rows(), &vec![Vec::<Cell>::new(), Vec::<Cell>::new()]);
}

#[test]
fn full_name_column() {
    let t = table(
        &["first", "last"],
        vec![vec![text("Luka"), text("Dončić")], vec![Cell::Null, text("X")], vec![text("Y"), Cell::Null], vec![text(""), number("3")]],
    );
    let named = with_full_name(&t, "first", "last", "full").unwrap();
    assert_eq!(named.columns(), &names(&["first", "last", "full"]));
    assert_eq!(
        named.rows(),
        &vec![
            vec![text("Luka"), text("Dončić"), text("Luka Dončić")],
            vec![Cell::Null, text("X"), Cell::Null],
            vec![text("Y"), Cell::Null, Cell::Null],
            vec![text(""), number("3"), text(" 3")],
        ]
    );
    let swapped = with_full_name(&t, "last", "first", "full").unwrap();
    assert_eq!(swapped.rows()[0][2], text("Dončić Luka"));
}

#[test]
fn full_name_column_needs_its_columns_and_a_free_name() {
    let t = table(&["first", "last"], vec![]);
    assert_eq!(
        with_full_name(&t, "given", "last", "full"),
        Err(FetchError::KeyColumn { column: "given".to_string() })
    );
    assert_eq!(
        with_full_name(&t, "first", "family", "full"),
        Err(FetchError::KeyColumn { column: "family".to_string() })
    );
    assert_eq!(
        with_full_name(&t, "first", "last", "last"),
        Err(FetchError::KeyColumn { column: "last".to_string() })
    );
    let taken = table(&["PLAYER_FIRST_NAME", "PLAYER_LAST_NAME", "PLAYER_NAME"], vec![]);
    assert_eq!(
        read_player_index(&taken),
        Err(FetchError::KeyColumn { column: "PLAYER_NAME".to_string() })
    );
}
