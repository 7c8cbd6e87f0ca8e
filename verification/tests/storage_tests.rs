use pubg_analyzer_core::grouping::group_by_name;
use pubg_analyzer_core::models::StoredMatchSummary;
use pubg_analyzer_core::storage::{Database, DashboardRows};

fn summary(match_id: &str) -> StoredMatchSummary {
    StoredMatchSummary {
        match_id: match_id.to_owned(),
        created_at: Some("2026-01-01T00:00:00Z".to_owned()),
        map_name: Some("Baltic_Main".to_owned()),
        game_mode: Some("squad-fpp".to_owned()),
        status: "analyzed".to_owned(),
        error: None,
    }
}

#[test]
fn stores_analyzed_match_and_builds_dashboard() {
    let database = Database::at("analyzer.sqlite3".to_owned());
    let rows = DashboardRows {
        player: Some(("PlayerOne".to_owned(), "steam".to_owned())),
        status_counts: vec![("analyzed".to_owned(), 1)],
        map_counts: vec![("Baltic_Main".to_owned(), 1)],
        latest_matches: vec![summary("match-1")],
    };
    let analyzed = database.analyzed_match_ids(&vec!["match-1".to_owned()]);
    let analyzed_maps = vec!["Baltic_Main".to_owned()];
    let dataset_match_count: usize =
        group_by_name(&analyzed_maps).iter().map(|group| group.members.len()).sum();
    assert_eq!(dataset_match_count, analyzed.len());
    let dashboard = database.dashboard(rows, Some(dataset_match_count));
    assert_eq!(dashboard.player_name.as_deref(), Some("PlayerOne"));
    assert_eq!(dashboard.stored_matches, 1);
    assert_eq!(dashboard.analyzed_matches, 1);
    assert_eq!(dashboard.maps[0].map_name, "Baltic_Main");
    assert_eq!(dashboard.dataset.expect("dataset"), 1);
}

#[test]
fn dashboard_counts_each_status_once() {
    let database = Database::at("db".to_owned());
    let rows = DashboardRows {
        player: None,
        status_counts: vec![
            ("analyzed".to_owned(), 5),
            ("failed".to_owned(), 2),
            ("metadata".to_owned(), -3),
            ("analyzed".to_owned(), 4),
        ],
        map_counts: vec![("Erangel_Main".to_owned(), 3), ("Baltic_Main".to_owned(), -1)],
        latest_matches: Vec::new(),
    };
    let dashboard = database.dashboard::<()>(rows, None);
    assert_eq!(dashboard.player_name, None);
    assert_eq!(dashboard.platform, None);
    assert_eq!(dashboard.stored_matches, 6);
    assert_eq!(dashboard.analyzed_matches, 4);
    assert_eq!(dashboard.failed_matches, 2);
    assert_eq!(dashboard.maps.len(), 2);
    assert_eq!(dashboard.maps[1].matches, 0);
    assert!(dashboard.dataset.is_none());
}

#[test]
fn match_id_sets_hold_each_identifier_once() {
    let database = Database::at("db".to_owned());
    let rows: Vec<String> = ["a", "b", "a", "c", "b"].iter().map(|v| (*v).to_owned()).collect();
    let set = database.existing_match_ids(&rows);
    assert_eq!(set, vec!["a".to_owned(), "b".to_owned(), "c".to_owned()]);
    assert_eq!(database.analyzed_match_ids(&Vec::new()), Vec::<String>::new());
}

#[test]
fn failure_message_keeps_2000_characters() {
    let database = Database::at("db".to_owned());
    let long = "\u{e9}".repeat(2500);
    assert_eq!(database.failure_message(&long).chars().count(), 2000);
    assert_eq!(database.failure_message("short"), "short");
    assert_eq!(database.path(), "db");
}
