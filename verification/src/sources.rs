use vstd::prelude::*;
use crate::adapters::{
    agrees, extract_flat, extract_flat_spec, extract_nested, extract_nested_spec,
    extract_result_set, extract_result_set_spec, spec_names, specs_view, ColumnSpec,
    ColumnSpecView, Expect,
};
use crate::error::{path_view, FetchError, FetchErrorView, PathStep, PathStepView};
use crate::json::{walk, walk_spec, Json};
use crate::sink::{sink_bytes, table_header, write_table};
use crate::table::{
    first_duplicate, first_index_of, lemma_first_duplicate, lemma_first_index_is,
    lemma_first_index_of, Table, TableView,
};

verus! {

/// A step into the field `name`.
fn key(name: &str) -> (r: PathStep)
    ensures
        r@ == PathStepView::Key(name@),
{
    PathStep::Key(name.to_owned())
}

/// The required column `name`, filled from the field `inner` of the field
/// `outer`, which must hold what is expected.
pub open spec fn column_in(
    name: Seq<char>,
    outer: Seq<char>,
    inner: Seq<char>,
    expect: Expect,
) -> ColumnSpecView {
    ColumnSpecView {
        name,
        path: seq![PathStepView::Key(outer), PathStepView::Key(inner)],
        required: true,
        expect,
    }
}

/// The required column `name`, filled from the field `field` of the line
/// `line` of the fourth odds view of a game, which must hold a scalar.
pub open spec fn odds_column(name: Seq<char>, line: Seq<char>, field: Seq<char>) -> ColumnSpecView {
    ColumnSpecView {
        name,
        path: seq![
            PathStepView::Key("oddsViews"@),
            PathStepView::Index(3),
            PathStepView::Key(line),
            PathStepView::Key(field),
        ],
        required: true,
        expect: Expect::Scalar,
    }
}

/// The required column `name`, filled from the name of the team `side` of a
/// game, which must be a string.
pub open spec fn team_name_column(name: Seq<char>, side: Seq<char>) -> ColumnSpecView {
    ColumnSpecView {
        name,
        path: seq![
            PathStepView::Key("gameView"@),
            PathStepView::Key(side),
            PathStepView::Key("name"@),
        ],
        required: true,
        expect: Expect::Text,
    }
}

/// Where the games of the scoreboard lie.
pub open spec fn scoreboard_path() -> Seq<PathStepView> {
    seq![PathStepView::Key("scoreboard"@), PathStepView::Key("games"@)]
}

/// The columns of the scoreboard: name, city, identifier and score of the
/// away team and of the home team. Every game must have them all; name and
/// city must be strings.
pub open spec fn scoreboard_columns() -> Seq<ColumnSpecView> {
    seq![
        column_in("away_teamName"@, "awayTeam"@, "teamName"@, Expect::Text),
        column_in("away_teamCity"@, "awayTeam"@, "teamCity"@, Expect::Text),
        column_in("away_teamId"@, "awayTeam"@, "teamId"@, Expect::Scalar),
        column_in("away_score"@, "awayTeam"@, "score"@, Expect::Scalar),
        column_in("home_teamName"@, "homeTeam"@, "teamName"@, Expect::Text),
        column_in("home_teamCity"@, "homeTeam"@, "teamCity"@, Expect::Text),
        column_in("home_teamId"@, "homeTeam"@, "teamId"@, Expect::Scalar),
        column_in("home_score"@, "homeTeam"@, "score"@, Expect::Scalar),
    ]
}

/// Where the games of the money-line odds lie.
pub open spec fn odds_path() -> Seq<PathStepView> {
    seq![
        PathStepView::Key("pageProps"@),
        PathStepView::Key("oddsTables"@),
        PathStepView::Index(0),
        PathStepView::Key("oddsTableModel"@),
        PathStepView::Key("gameRows"@),
    ]
}

/// The columns of the money-line odds: current and opening odds and the name
/// of the away team, then of the home team.
pub open spec fn odds_columns() -> Seq<ColumnSpecView> {
    seq![
        odds_column("away_odds"@, "currentLine"@, "awayOdds"@),
        odds_column("open_away_odds"@, "openingLine"@, "awayOdds"@),
        team_name_column("away_team_name"@, "awayTeam"@),
        odds_column("home_odds"@, "currentLine"@, "homeOdds"@),
        odds_column("open_home_odds"@, "openingLine"@, "homeOdds"@),
        team_name_column("home_team_name"@, "homeTeam"@),
    ]
}

fn make_column_in(name: &str, outer: &str, inner: &str, expect: Expect) -> (r: ColumnSpec)
    ensures
        r@ == column_in(name@, outer@, inner@, expect),
{
    let path: Vec<PathStep> = vec![key(outer), key(inner)];
    assert(path_view(path@) =~= seq![PathStepView::Key(outer@), PathStepView::Key(inner@)]);
    ColumnSpec { name: name.to_owned(), path, required: true, expect }
}

fn make_odds_column(name: &str, line: &str, field: &str) -> (r: ColumnSpec)
    ensures
        r@ == odds_column(name@, line@, field@),
{
    let path: Vec<PathStep> = vec![key("oddsViews"), PathStep::Index(3), key(line), key(field)];
    assert(path_view(path@) =~= seq![
        PathStepView::Key("oddsViews"@),
        PathStepView::Index(3),
        PathStepView::Key(line@),
        PathStepView::Key(field@),
    ]);
    ColumnSpec { name: name.to_owned(), path, required: true, expect: Expect::Scalar }
}

fn make_team_name_column(name: &str, side: &str) -> (r: ColumnSpec)
    ensures
        r@ == team_name_column(name@, side@),
{
    let path: Vec<PathStep> = vec![key("gameView"), key(side), key("name")];
    assert(path_view(path@) =~= seq![
        PathStepView::Key("gameView"@),
        PathStepView::Key(side@),
        PathStepView::Key("name"@),
    ]);
    ColumnSpec { name: name.to_owned(), path, required: true, expect: Expect::Text }
}

/// The columns of the scoreboard carry different names.
proof fn lemma_scoreboard_names()
    ensures
        first_duplicate(spec_names(scoreboard_columns())) is None,
{
    let names = spec_names(scoreboard_columns());
    reveal_strlit("away_teamName");
    reveal_strlit("away_teamCity");
    reveal_strlit("away_teamId");
    reveal_strlit("away_score");
    reveal_strlit("home_teamName");
    reveal_strlit("home_teamCity");
    reveal_strlit("home_teamId");
    reveal_strlit("home_score");
    assert(names[0] == "away_teamName"@);
    assert(names[1] == "away_teamCity"@);
    assert(names[2] == "away_teamId"@);
    assert(names[3] == "away_score"@);
    assert(names[4] == "home_teamName"@);
    assert(names[5] == "home_teamCity"@);
    assert(names[6] == "home_teamId"@);
    assert(names[7] == "home_score"@);
    assert(names[0][9] != names[1][9]);
    assert(names[0].len() != names[2].len());
    assert(names[0].len() != names[3].len());
    assert(names[0][0] != names[4][0]);
    assert(names[0][0] != names[5][0]);
    assert(names[0].len() != names[6].len());
    assert(names[0].len() != names[7].len());
    assert(names[1].len() != names[2].len());
    assert(names[1].len() != names[3].len());
    assert(names[1][0] != names[4][0]);
    assert(names[1][0] != names[5][0]);
    assert(names[1].len() != names[6].len());
    assert(names[1].len() != names[7].len());
    assert(names[2].len() != names[3].len());
    assert(names[2].len() != names[4].len());
    assert(names[2].len() != names[5].len());
    assert(names[2][0] != names[6][0]);
    assert(names[2].len() != names[7].len());
    assert(names[3].len() != names[4].len());
    assert(names[3].len() != names[5].len());
    assert(names[3].len() != names[6].len());
    assert(names[3][0] != names[7][0]);
    assert(names[4][9] != names[5][9]);
    assert(names[4].len() != names[6].len());
    assert(names[4].len() != names[7].len());
    assert(names[5].len() != names[6].len());
    assert(names[5].len() != names[7].len());
    assert(names[6].len() != names[7].len());
    assert forall|i: int, j: int|
        0 <= i < names.len() && 0 <= j < names.len() && i != j implies names[i] != names[j] by {
        if i < j {
            assert(names[i] != names[j]);
        } else {
            assert(names[j] != names[i]);
        }
    }
    lemma_first_duplicate(names);
}

/// The columns of the money-line odds carry different names.
proof fn lemma_odds_names()
    ensures
        first_duplicate(spec_names(odds_columns())) is None,
{
    let names = spec_names(odds_columns());
    reveal_strlit("away_odds");
    reveal_strlit("open_away_odds");
    reveal_strlit("away_team_name");
    reveal_strlit("home_odds");
    reveal_strlit("open_home_odds");
    reveal_strlit("home_team_name");
    assert(names[0] == "away_odds"@);
    assert(names[1] == "open_away_odds"@);
    assert(names[2] == "away_team_name"@);
    assert(names[3] == "home_odds"@);
    assert(names[4] == "open_home_odds"@);
    assert(names[5] == "home_team_name"@);
    assert(names[0].len() != names[1].len());
    assert(names[0].len() != names[2].len());
    assert(names[0][0] != names[3][0]);
    assert(names[0].len() != names[4].len());
    assert(names[0].len() != names[5].len());
    assert(names[1][0] != names[2][0]);
    assert(names[1].len() != names[3].len());
    assert(names[1][5] != names[4][5]);
    assert(names[1][0] != names[5][0]);
    assert(names[2].len() != names[3].len());
    assert(names[2][0] != names[4][0]);
    assert(names[2][0] != names[5][0]);
    assert(names[3].len() != names[4].len());
    assert(names[3].len() != names[5].len());
    assert(names[4][0] != names[5][0]);
    assert forall|i: int, j: int|
        0 <= i < names.len() && 0 <= j < names.len() && i != j implies names[i] != names[j] by {
        if i < j {
            assert(names[i] != names[j]);
        } else {
            assert(names[j] != names[i]);
        }
    }
    lemma_first_duplicate(names);
}

/// The table of today's scoreboard: one row for each game under
/// `scoreboard.games`, with the name, city, identifier and score of the away
/// team and of the home team. A game that lacks one of them, or whose team
/// name or city is no string, is a schema error that names the path to what
/// is absent or wrong.
pub fn todays_scoreboard_table(doc: &Json) -> (r: Result<Table, FetchError>)
    ensures
        agrees(r, extract_nested_spec(*doc, scoreboard_path(), scoreboard_columns())),
        r is Ok ==> r->Ok_0@.wf(),
{
    let path: Vec<PathStep> = vec![key("scoreboard"), key("games")];
    let columns: Vec<ColumnSpec> = vec![
        make_column_in("away_teamName", "awayTeam", "teamName", Expect::Text),
        make_column_in("away_teamCity", "awayTeam", "teamCity", Expect::Text),
        make_column_in("away_teamId", "awayTeam", "teamId", Expect::Scalar),
        make_column_in("away_score", "awayTeam", "score", Expect::Scalar),
        make_column_in("home_teamName", "homeTeam", "teamName", Expect::Text),
        make_column_in("home_teamCity", "homeTeam", "teamCity", Expect::Text),
        make_column_in("home_teamId", "homeTeam", "teamId", Expect::Scalar),
        make_column_in("home_score", "homeTeam", "score", Expect::Scalar),
    ];
    proof {
        assert(path_view(path@) =~= scoreboard_path());
        assert(specs_view(columns@) =~= scoreboard_columns());
        lemma_scoreboard_names();
    }
    extract_nested(doc, &path, &columns)
}

/// The table of the money-line odds: one row for each game under
/// `pageProps.oddsTables[0].oddsTableModel.gameRows`, with the current and the
/// opening odds of the fourth odds view and the team's name, for the away team
/// and then for the home team. A game that lacks one of them, or whose team
/// name is no string, is a schema error that names the path to what is
/// absent or wrong.
pub fn bet_ml_odds_table(doc: &Json) -> (r: Result<Table, FetchError>)
    ensures
        agrees(r, extract_nested_spec(*doc, odds_path(), odds_columns())),
        r is Ok ==> r->Ok_0@.wf(),
{
    let path: Vec<PathStep> = vec![
        key("pageProps"),
        key("oddsTables"),
        PathStep::Index(0),
        key("oddsTableModel"),
        key("gameRows"),
    ];
    let columns: Vec<ColumnSpec> = vec![
        make_odds_column("away_odds", "currentLine", "awayOdds"),
        make_odds_column("open_away_odds", "openingLine", "awayOdds"),
        make_team_name_column("away_team_name", "awayTeam"),
        make_odds_column("home_odds", "currentLine", "homeOdds"),
        make_odds_column("open_home_odds", "openingLine", "homeOdds"),
        make_team_name_column("home_team_name", "homeTeam"),
    ];
    proof {
        assert(path_view(path@) =~= odds_path());
        assert(specs_view(columns@) =~= odds_columns());
        lemma_odds_names();
    }
    extract_nested(doc, &path, &columns)
}

/// Whether a prepared file is what an extraction and the sink give: where
/// the extraction gives a table, the delimited text of the table, its header
/// first; otherwise the schema error of the extraction.
pub open spec fn prepared(
    r: Result<Vec<u8>, FetchError>,
    table: Result<TableView, Seq<PathStepView>>,
) -> bool {
    match table {
        Ok(t) => r is Ok && r->Ok_0@ == sink_bytes(table_header(t.columns), t.rows),
        Err(p) => r is Err && r->Err_0@ == (FetchErrorView::Schema { path: p }),
    }
}

/// The file prepared from a results collection: the delimited text of its
/// first result set, headers first.
pub fn result_sets_csv(doc: &Json) -> (r: Result<Vec<u8>, FetchError>)
    ensures
        prepared(r, extract_result_set_spec(*doc, None)),
{
    match extract_result_set(doc, None) {
        Ok(t) => write_table(&t),
        Err(e) => Err(e),
    }
}

/// The file prepared from a flat array of records, such as the injury report:
/// the delimited text of its table, the union of the field names first.
pub fn json_array_to_csv(data: &Json) -> (r: Result<Vec<u8>, FetchError>)
    ensures
        prepared(r, extract_flat_spec(*data)),
{
    match extract_flat(data) {
        Ok(t) => write_table(&t),
        Err(e) => Err(e),
    }
}

/// The file prepared from today's scoreboard: the delimited text of its
/// table, the column names first.
pub fn todays_scoreboard_csv(doc: &Json) -> (r: Result<Vec<u8>, FetchError>)
    ensures
        prepared(r, extract_nested_spec(*doc, scoreboard_path(), scoreboard_columns())),
{
    match todays_scoreboard_table(doc) {
        Ok(t) => write_table(&t),
        Err(e) => Err(e),
    }
}

/// The file prepared from the money-line odds: the delimited text of its
/// table, the column names first.
pub fn bet_ml_odds_csv(doc: &Json) -> (r: Result<Vec<u8>, FetchError>)
    ensures
        prepared(r, extract_nested_spec(*doc, odds_path(), odds_columns())),
{
    match bet_ml_odds_table(doc) {
        Ok(t) => write_table(&t),
        Err(e) => Err(e),
    }
}

/// Where the game dates of the season schedule lie.
pub open spec fn schedule_path() -> Seq<PathStepView> {
    seq![PathStepView::Key("leagueSchedule"@), PathStepView::Key("gameDates"@)]
}

/// Whether a value is a game date: an object with a date that is a string and
/// games that are an array.
pub open spec fn is_game_date(item: Json) -> bool {
    item.spec_get("gameDate"@) matches Some(Json::Str(_)) && item.spec_get("games"@) matches Some(
        Json::Array(_),
    )
}

/// For each value, whether it is a game date.
pub open spec fn game_date_flags(items: Seq<Json>) -> Seq<bool> {
    Seq::new(items.len(), |i: int| is_game_date(items[i]))
}

/// The game dates of a season schedule: the array under
/// `leagueSchedule.gameDates`. It fails where the path leads nowhere, at the
/// step that does; where it leads to no array, at the path; and at the
/// position under it of an entry that is no game date.
pub open spec fn season_schedule_spec(doc: Json) -> Result<Json, Seq<PathStepView>> {
    match walk_spec(doc, schedule_path()) {
        Err(p) => Err(p),
        Ok(Json::Array(dates)) => match first_index_of(game_date_flags(dates@), false) {
            Some(i) => Err(schedule_path().push(PathStepView::Index(i as nat))),
            None => Ok(Json::Array(dates)),
        },
        Ok(_) => Err(schedule_path()),
    }
}

/// The game dates of a season schedule, each with its date and its games, as
/// they stand in the document under `leagueSchedule.gameDates`.
pub fn season_schedule_dates<'a>(doc: &'a Json) -> (r: Result<&'a Json, FetchError>)
    ensures
        match r {
            Ok(dates) => season_schedule_spec(*doc) == Ok::<Json, Seq<PathStepView>>(*dates),
            Err(e) => season_schedule_spec(*doc) is Err && e@ == (FetchErrorView::Schema {
                path: season_schedule_spec(*doc)->Err_0,
            }),
        },
{
    let path: Vec<PathStep> = vec![key("leagueSchedule"), key("gameDates")];
    assert(path_view(path@) =~= schedule_path());
    let target = match walk(doc, &path) {
        Ok(v) => v,
        Err(e) => {
            return Err(e);
        },
    };
    let dates = match target {
        Json::Array(dates) => dates,
        _ => {
            return Err(FetchError::Schema { path });
        },
    };
    let mut i: usize = 0;
    while i < dates.len()
        invariant
            i <= dates.len(),
            path_view(path@) == schedule_path(),
            walk_spec(*doc, schedule_path()) == Ok::<Json, Seq<PathStepView>>(*target),
            *target == Json::Array(*dates),
            forall|k: int| 0 <= k < i ==> game_date_flags(dates@)[k] != false,
        decreases dates.len() - i,
    {
        let dated = match dates[i].get("gameDate") {
            Some(Json::Str(_)) => true,
            _ => false,
        };
        let with_games = match dates[i].get("games") {
            Some(Json::Array(_)) => true,
            _ => false,
        };
        if !(dated && with_games) {
            proof {
                lemma_first_index_is(game_date_flags(dates@), false, i as int);
            }
            let mut at = path;
            let ghost short = at@;
            at.push(PathStep::Index(i));
            assert(path_view(at@) =~= path_view(short).push(PathStepView::Index(i as nat)));
            return Err(FetchError::Schema { path: at });
        }
        i += 1;
    }
    proof {
        lemma_first_index_of(game_date_flags(dates@), false);
    }
    Ok(target)
}

} // verus!
