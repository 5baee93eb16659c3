use vstd::prelude::*;

verus! {

/// A user of the fuel stations.
#[derive(Debug, Clone)]
pub struct User {
    pub id: i32,
    pub name: String,
    pub tag: String,
    pub station1: bool,
    pub station2: bool,
}

/// Body of a request creating a user.
#[derive(Debug, Clone)]
pub struct CreateUser {
    pub name: String,
    pub tag: String,
    pub station1: bool,
    pub station2: bool,
}

/// Body of a request updating a user; absent fields are kept.
#[derive(Debug, Clone)]
pub struct UpdateUser {
    pub name: Option<String>,
    pub tag: Option<String>,
    pub station1: Option<bool>,
    pub station2: Option<bool>,
}

/// State of a station as shown by the web API.
#[derive(Debug, Clone)]
pub struct StationInfo {
    pub id: u32,
    pub name: String,
    pub status: String,
    pub current_length_secs: Option<i64>,
    pub pulses_count: u64,
    pub active_user: Option<String>,
}

/// Query parameters of the log listing.
#[derive(Debug, Clone)]
pub struct LogQuery {
    pub station: Option<i32>,
    pub user_id: Option<i32>,
    pub limit: Option<i64>,
    pub offset: Option<i64>,
}

/// Query parameters of the statistics.
#[derive(Debug, Clone)]
pub struct StatsQuery {
    pub from: Option<String>,
    pub to: Option<String>,
    pub station: Option<i32>,
}

} // verus!
