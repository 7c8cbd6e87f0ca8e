//! Records exchanged between the PUBG API, the store, the collector and the
//! dashboard, and the checks on the collection settings.
use vstd::prelude::*;
use crate::error::{AnalyzerError, is_configuration_error};
use crate::text::{is_blank, is_identifier, str_is_blank, str_is_identifier};

verus! {

#[derive(Debug, Clone, PartialEq, Eq)]
pub struct PlayerProfile {
    pub account_id: String,
    pub name: String,
    pub platform: String,
    pub match_ids: Vec<String>,
}

#[derive(Debug, Clone, PartialEq, Eq)]
pub struct MatchMetadata {
    pub match_id: String,
    pub platform: String,
    pub created_at: Option<String>,
    pub duration_seconds: Option<i64>,
    pub game_mode: Option<String>,
    pub map_name: Option<String>,
    pub match_type: Option<String>,
    pub patch_version: Option<String>,
    pub telemetry_url: String,
}

#[derive(Debug, Clone, Copy, PartialEq, Eq)]
pub struct RateLimitState {
    pub limit: Option<u32>,
    pub remaining: Option<u32>,
    pub reset_unix: Option<i64>,
}

#[derive(Debug, Clone, PartialEq, Eq)]
pub enum CollectionProgress {
    ResolvingPlayer,
    MatchesDiscovered { total: usize, fresh: usize },
    FetchingMatch { current: usize, total: usize },
    DownloadingTelemetry { current: usize, total: usize },
    Analyzing { current: usize, total: usize },
    MatchComplete { match_id: String },
    MatchFailed { match_id: String, message: String },
    Complete,
}

#[derive(Debug, Clone, Copy, PartialEq, Eq)]
pub struct CollectionReport {
    pub discovered_matches: usize,
    pub new_matches: usize,
    pub analyzed_matches: usize,
    pub skipped_matches: usize,
    pub failed_matches: usize,
}

/// What the dashboard shows. `D` is the cross-match dataset summary, which the
/// program around the library computes from the stored analyses.
#[derive(Debug, Clone, PartialEq)]
pub struct DashboardData<D> {
    pub player_name: Option<String>,
    pub platform: Option<String>,
    pub stored_matches: usize,
    pub analyzed_matches: usize,
    pub failed_matches: usize,
    pub maps: Vec<MapCount>,
    pub latest_matches: Vec<StoredMatchSummary>,
    pub dataset: Option<D>,
}

#[derive(Debug, Clone, PartialEq, Eq)]
pub struct MapCount {
    pub map_name: String,
    pub matches: usize,
}

#[derive(Debug, Clone, PartialEq, Eq)]
pub struct StoredMatchSummary {
    pub match_id: String,
    pub created_at: Option<String>,
    pub map_name: Option<String>,
    pub game_mode: Option<String>,
    pub status: String,
    pub error: Option<String>,
}

/// The bounds that the settings put on the request rate and on the number of
/// parallel downloads.
pub open spec fn settings_counts_valid(rpm: u32, download_concurrency: usize) -> bool {
    1 <= rpm <= 600 && 1 <= download_concurrency <= 16
}

/// The checks of the application settings on the user name, the platform
/// shard, the request rate and the download concurrency, in that order.
/// The spatial cell size and the time bucket are checked after these by the
/// caller, which holds them.
pub fn validate_settings_fields(
    username: &str,
    platform: &str,
    rpm: u32,
    download_concurrency: usize,
) -> (r: Result<(), AnalyzerError>)
    ensures
        r is Ok <==> (!is_blank(username@) && is_identifier(platform@) && settings_counts_valid(
            rpm,
            download_concurrency,
        )),
        is_blank(username@) ==> is_configuration_error(r, "username is required"@),
        !is_blank(username@) && !is_identifier(platform@) ==> is_configuration_error(
            r,
            "platform must contain only letters, numbers, or hyphens"@,
        ),
        !is_blank(username@) && is_identifier(platform@) && !(1 <= rpm <= 600)
            ==> is_configuration_error(r, "rpm must be between 1 and 600"@),
        !is_blank(username@) && is_identifier(platform@) && 1 <= rpm <= 600 ==> (r is Ok <==> (1
            <= download_concurrency && download_concurrency <= 16)),
        !is_blank(username@) && is_identifier(platform@) && 1 <= download_concurrency <= 16 ==> (
        r is Ok <==> (1 <= rpm && rpm <= 600)),
        !is_blank(username@) && is_identifier(platform@) && 1 <= rpm <= 600 && !(1
            <= download_concurrency <= 16) ==> is_configuration_error(
            r,
            "download concurrency must be between 1 and 16"@,
        ),
{
    if str_is_blank(username) {
        return Err(AnalyzerError::InvalidConfiguration(String::from_str("username is required")));
    }
    if !str_is_identifier(platform) {
        return Err(
            AnalyzerError::InvalidConfiguration(
                String::from_str("platform must contain only letters, numbers, or hyphens"),
            ),
        );
    }
    if !(1 <= rpm && rpm <= 600) {
        return Err(
            AnalyzerError::InvalidConfiguration(String::from_str("rpm must be between 1 and 600")),
        );
    }
    if !(1 <= download_concurrency && download_concurrency <= 16) {
        return Err(
            AnalyzerError::InvalidConfiguration(
                String::from_str("download concurrency must be between 1 and 16"),
            ),
        );
    }
    Ok(())
}

/// The settings' counts are accepted exactly when the request rate is from 1
/// to 600 per minute and the download concurrency from 1 to 16.
pub proof fn lemma_settings_count_bounds(rpm: u32, download_concurrency: usize)
    ensures
        settings_counts_valid(rpm, download_concurrency) <==> (1 <= rpm && rpm <= 600 && 1
            <= download_concurrency && download_concurrency <= 16),
{
}

} // verus!
