use std::path::Path;

use nba_data::endpoint::Endpoint;

#[test]
fn teams_general_opponent_test_name() {
    let file_name = Endpoint::TeamsGeneralOpponent.file_name();
    let file_path = Path::new("..").join("data").join("prepared_data");
    println!("cwd: {:?}", Path::new(".."));

    let mut save_file_path = file_path.join(file_name);
    save_file_path.set_extension("csv");

    println!("save_file_path: {:?}", save_file_path);
    assert_eq!(file_name, "fetched_TeamsGeneralOpponent_data");
    assert_eq!(
        save_file_path,
        Path::new("../data/prepared_data/fetched_TeamsGeneralOpponent_data.csv")
    );
}

#[test]
fn file_names_are_those_of_the_endpoints() {
    assert_eq!(Endpoint::SeasonSchedule.file_name(), "fetched_SeasonSchedule_data");
    assert_eq!(Endpoint::TodaysScoreboard.file_name(), "fetched_TodaysScoreboard_data");
    assert_eq!(Endpoint::PlayerIndex.file_name(), "fetched_PlayerIndex_data");
    assert_eq!(Endpoint::PlayerGeneralAverages.file_name(), "fetched_PlayerGeneralAverages_data");
    assert_eq!(Endpoint::TeamsGeneralAdvanced.file_name(), "fetched_TeamsGeneralAdvanced_data");
    assert_eq!(Endpoint::OpponentShootingGeneral.file_name(), "fetched_OpponentShootingGeneral_data");
    assert_eq!(Endpoint::TeamsGeneralOpponent.file_name(), "fetched_TeamsGeneralOpponent_data");
    assert_eq!(Endpoint::InjuryReport.file_name(), "fetched_InjuryReport_data");
    assert_eq!(Endpoint::Bet365Odds.file_name(), "fetched_Bet365Odds_data");
}

#[test]
fn urls_are_those_of_the_endpoints() {
    assert_eq!(
        Endpoint::SeasonSchedule.url(),
        "https://cdn.nba.com/static/json/staticData/scheduleLeagueV2_51.json"
    );
    assert_eq!(
        Endpoint::TodaysScoreboard.url(),
        "https://cdn.nba.com/static/json/liveData/scoreboard/todaysScoreboard_00.json"
    );
    assert_eq!(
        Endpoint::InjuryReport.url(),
        "https://www.rotowire.com/basketball/tables/injury-report.php?team=ALL&pos=ALL"
    );
    assert!(Endpoint::PlayerIndex.url().starts_with("https://stats.nba.com/stats/playerindex?"));
    assert!(Endpoint::PlayerGeneralAverages.url().contains("MeasureType=Base"));
    assert!(Endpoint::TeamsGeneralAdvanced.url().contains("MeasureType=Advanced"));
    assert!(Endpoint::OpponentShootingGeneral.url().contains("leaguedashoppptshot"));
    assert!(Endpoint::TeamsGeneralOpponent.url().contains("leaguedashteamstats"));
    assert!(Endpoint::Bet365Odds.url().ends_with("oddsType=money-line&oddsScope=full-game"));
}
