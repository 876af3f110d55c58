use vstd::prelude::*;

verus! {

/// The providers' endpoints that a run collects from.
#[derive(Debug, Clone, Copy, PartialEq, Eq, Structural)]
pub enum Endpoint {
    SeasonSchedule,
    TodaysScoreboard,
    PlayerIndex,
    PlayerGeneralAverages,
    TeamsGeneralAdvanced,
    OpponentShootingGeneral,
    TeamsGeneralOpponent,
    InjuryReport,
    Bet365Odds,
}

impl Endpoint {
    /// The address of the endpoint, as text.
    pub open spec fn spec_url(self) -> Seq<char> {
        match self {
            Endpoint::SeasonSchedule => "https://cdn.nba.com/static/json/staticData/scheduleLeagueV2_51.json"@,
            Endpoint::TodaysScoreboard => "https://cdn.nba.com/static/json/liveData/scoreboard/todaysScoreboard_00.json"@,
            Endpoint::PlayerIndex => "https://stats.nba.com/stats/playerindex?College=&Country=&DraftPick=&DraftRound=&DraftYear=&Height=&Historical=0&LeagueID=00&Season=2024-25&SeasonType=Regular%20Season&TeamID=0&Weight="@,
            Endpoint::PlayerGeneralAverages => "https://stats.nba.com/stats/leaguedashplayerstats?College=&Conference=&Country=&DateFrom=&DateTo=&Division=&DraftPick=&DraftYear=&GameScope=&GameSegment=&Height=&ISTRound=&LastNGames=0&LeagueID=00&Location=&MeasureType=Base&Month=0&OpponentTeamID=0&Outcome=&PORound=0&PaceAdjust=N&PerMode=PerGame&Period=0&PlayerExperience=&PlayerPosition=&PlusMinus=N&Rank=N&Season=2024-25&SeasonSegment=&SeasonType=Regular%20Season&ShotClockRange=&StarterBench=&TeamID=0&VsConference=&VsDivision=&Weight="@,
            Endpoint::TeamsGeneralAdvanced => "https://stats.nba.com/stats/leaguedashteamstats?Conference=&DateFrom=&DateTo=&Division=&GameScope=&GameSegment=&Height=&ISTRound=&LastNGames=0&LeagueID=00&Location=&MeasureType=Advanced&Month=0&OpponentTeamID=0&Outcome=&PORound=0&PaceAdjust=N&PerMode=PerGame&Period=0&PlayerExperience=&PlayerPosition=&PlusMinus=N&Rank=N&Season=2024-25&SeasonSegment=&SeasonType=Regular%20Season&ShotClockRange=&StarterBench=&TeamID=0&TwoWay=0&VsConference=&VsDivision="@,
            Endpoint::OpponentShootingGeneral => "https://stats.nba.com/stats/leaguedashoppptshot?Conference=&DateFrom=&DateTo=&Division=&GameSegment=&GeneralRange=Overall&LastNGames=0&LeagueID=00&Location=&Month=0&OpponentTeamID=0&Outcome=&PORound=0&PerMode=PerGame&Period=0&PlayerExperience=&PlayerPosition=&Season=2024-25&SeasonSegment=&SeasonType=Regular%20Season&TeamID=0&VsConference=&VsDivision="@,
            Endpoint::TeamsGeneralOpponent => "https://stats.nba.com/stats/leaguedashteamstats?Conference=&DateFrom=&DateTo=&Division=&GameScope=&GameSegment=&Height=&ISTRound=&LastNGames=0&LeagueID=00&Location=&MeasureType=Base&Month=0&OpponentTeamID=0&Outcome=&PORound=0&PaceAdjust=N&PerMode=PerGame&Period=0&PlayerExperience=&PlayerPosition=&PlusMinus=N&Rank=N&Season=2024-25&SeasonSegment=&SeasonType=Regular%20Season&ShotClockRange=&StarterBench=&TeamID=0&TwoWay=0&VsConference=&VsDivision="@,
            Endpoint::InjuryReport => "https://www.rotowire.com/basketball/tables/injury-report.php?team=ALL&pos=ALL"@,
            Endpoint::Bet365Odds => "https://www.sportsbookreview.com/_next/data/z65WyQ2UMs83FwnSdRynY/betting-odds/nba-basketball/money-line/full-game.json?league=nba-basketball&oddsType=money-line&oddsScope=full-game"@,
        }
    }

    /// The stem of the file that keeps what the endpoint returned.
    pub open spec fn spec_file_name(self) -> Seq<char> {
        match self {
            Endpoint::SeasonSchedule => "fetched_SeasonSchedule_data"@,
            Endpoint::TodaysScoreboard => "fetched_TodaysScoreboard_data"@,
            Endpoint::PlayerIndex => "fetched_PlayerIndex_data"@,
            Endpoint::PlayerGeneralAverages => "fetched_PlayerGeneralAverages_data"@,
            Endpoint::TeamsGeneralAdvanced => "fetched_TeamsGeneralAdvanced_data"@,
            Endpoint::OpponentShootingGeneral => "fetched_OpponentShootingGeneral_data"@,
            Endpoint::TeamsGeneralOpponent => "fetched_TeamsGeneralOpponent_data"@,
            Endpoint::InjuryReport => "fetched_InjuryReport_data"@,
            Endpoint::Bet365Odds => "fetched_Bet365Odds_data"@,
        }
    }

    /// The address to fetch this endpoint from.
    pub fn url(&self) -> (r: &'static str)
        ensures
            r@ == self.spec_url(),
    {
        match self {
            Endpoint::SeasonSchedule => "https://cdn.nba.com/static/json/staticData/scheduleLeagueV2_51.json",
            Endpoint::TodaysScoreboard => "https://cdn.nba.com/static/json/liveData/scoreboard/todaysScoreboard_00.json",
            Endpoint::PlayerIndex => "https://stats.nba.com/stats/playerindex?College=&Country=&DraftPick=&DraftRound=&DraftYear=&Height=&Historical=0&LeagueID=00&Season=2024-25&SeasonType=Regular%20Season&TeamID=0&Weight=",
            Endpoint::PlayerGeneralAverages => "https://stats.nba.com/stats/leaguedashplayerstats?College=&Conference=&Country=&DateFrom=&DateTo=&Division=&DraftPick=&DraftYear=&GameScope=&GameSegment=&Height=&ISTRound=&LastNGames=0&LeagueID=00&Location=&MeasureType=Base&Month=0&OpponentTeamID=0&Outcome=&PORound=0&PaceAdjust=N&PerMode=PerGame&Period=0&PlayerExperience=&PlayerPosition=&PlusMinus=N&Rank=N&Season=2024-25&SeasonSegment=&SeasonType=Regular%20Season&ShotClockRange=&StarterBench=&TeamID=0&VsConference=&VsDivision=&Weight=",
            Endpoint::TeamsGeneralAdvanced => "https://stats.nba.com/stats/leaguedashteamstats?Conference=&DateFrom=&DateTo=&Division=&GameScope=&GameSegment=&Height=&ISTRound=&LastNGames=0&LeagueID=00&Location=&MeasureType=Advanced&Month=0&OpponentTeamID=0&Outcome=&PORound=0&PaceAdjust=N&PerMode=PerGame&Period=0&PlayerExperience=&PlayerPosition=&PlusMinus=N&Rank=N&Season=2024-25&SeasonSegment=&SeasonType=Regular%20Season&ShotClockRange=&StarterBench=&TeamID=0&TwoWay=0&VsConference=&VsDivision=",
            Endpoint::OpponentShootingGeneral => "https://stats.nba.com/stats/leaguedashoppptshot?Conference=&DateFrom=&DateTo=&Division=&GameSegment=&GeneralRange=Overall&LastNGames=0&LeagueID=00&Location=&Month=0&OpponentTeamID=0&Outcome=&PORound=0&PerMode=PerGame&Period=0&PlayerExperience=&PlayerPosition=&Season=2024-25&SeasonSegment=&SeasonType=Regular%20Season&TeamID=0&VsConference=&VsDivision=",
            Endpoint::TeamsGeneralOpponent => "https://stats.nba.com/stats/leaguedashteamstats?Conference=&DateFrom=&DateTo=&Division=&GameScope=&GameSegment=&Height=&ISTRound=&LastNGames=0&LeagueID=00&Location=&MeasureType=Base&Month=0&OpponentTeamID=0&Outcome=&PORound=0&PaceAdjust=N&PerMode=PerGame&Period=0&PlayerExperience=&PlayerPosition=&PlusMinus=N&Rank=N&Season=2024-25&SeasonSegment=&SeasonType=Regular%20Season&ShotClockRange=&StarterBench=&TeamID=0&TwoWay=0&VsConference=&VsDivision=",
            Endpoint::InjuryReport => "https://www.rotowire.com/basketball/tables/injury-report.php?team=ALL&pos=ALL",
            Endpoint::Bet365Odds => "https://www.sportsbookreview.com/_next/data/z65WyQ2UMs83FwnSdRynY/betting-odds/nba-basketball/money-line/full-game.json?league=nba-basketball&oddsType=money-line&oddsScope=full-game",
        }
    }

    /// The stem, without extension, of the file that keeps this endpoint's data.
    pub fn file_name(&self) -> (r: &'static str)
        ensures
            r@ == self.spec_file_name(),
    {
        match self {
            Endpoint::SeasonSchedule => "fetched_SeasonSchedule_data",
            Endpoint::TodaysScoreboard => "fetched_TodaysScoreboard_data",
            Endpoint::PlayerIndex => "fetched_PlayerIndex_data",
            Endpoint::PlayerGeneralAverages => "fetched_PlayerGeneralAverages_data",
            Endpoint::TeamsGeneralAdvanced => "fetched_TeamsGeneralAdvanced_data",
            Endpoint::OpponentShootingGeneral => "fetched_OpponentShootingGeneral_data",
            Endpoint::TeamsGeneralOpponent => "fetched_TeamsGeneralOpponent_data",
            Endpoint::InjuryReport => "fetched_InjuryReport_data",
            Endpoint::Bet365Odds => "fetched_Bet365Odds_data",
        }
    }
}

} // verus!
