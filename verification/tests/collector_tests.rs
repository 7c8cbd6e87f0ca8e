use pubg_analyzer_core::collector::{check_cancelled, CollectionTally, NextStep, StageOutcome};
use pubg_analyzer_core::error::AnalyzerError;

fn ids(values: &[&str]) -> Vec<String> {
    values.iter().map(|value| (*value).to_owned()).collect()
}

#[test]
fn plan_skips_analyzed_and_counts_new_matches() {
    let (tally, pending) = CollectionTally::start(
        &ids(&["m1", "m2", "m3", "m4"]),
        &ids(&["m2", "m3"]),
        &ids(&["m3"]),
    );
    assert_eq!(pending, ids(&["m1", "m2", "m4"]));
    let report = tally.report();
    assert_eq!(report.discovered_matches, 4);
    assert_eq!(report.new_matches, 2);
    assert_eq!(report.skipped_matches, 1);
    assert_eq!(tally.awaiting_metadata(), 3);
    assert_eq!(tally.awaiting_telemetry(), 0);
}

#[test]
fn every_discovered_match_is_accounted_for() {
    let (mut tally, pending) =
        CollectionTally::start(&ids(&["a", "b", "c", "d"]), &ids(&[]), &ids(&["d"]));
    assert_eq!(pending.len(), 3);
    assert!(!tally.is_finished());
    assert_eq!(tally.record_metadata(StageOutcome::Succeeded), NextStep::QueueTelemetry);
    assert_eq!(tally.record_metadata(StageOutcome::Failed), NextStep::ReportFailure);
    assert_eq!(tally.record_metadata(StageOutcome::Succeeded), NextStep::QueueTelemetry);
    assert_eq!(tally.awaiting_telemetry(), 2);
    assert!(!tally.is_finished());
    assert_eq!(tally.record_telemetry(StageOutcome::Succeeded), NextStep::ReportAnalyzed);
    assert_eq!(tally.record_telemetry(StageOutcome::Failed), NextStep::RecordFailure);
    assert!(tally.is_finished());
    let report = tally.finish();
    assert_eq!(report.discovered_matches, 4);
    assert_eq!(report.new_matches, 3);
    assert_eq!(report.skipped_matches, 1);
    assert_eq!(report.analyzed_matches, 1);
    assert_eq!(report.failed_matches, 2);
    assert_eq!(
        report.skipped_matches + report.analyzed_matches + report.failed_matches,
        report.discovered_matches
    );
}

#[test]
fn cancellation_aborts_without_counting() {
    let (mut tally, _) = CollectionTally::start(&ids(&["a"]), &ids(&[]), &ids(&[]));
    let before = tally.report();
    assert_eq!(tally.record_metadata(StageOutcome::Cancelled), NextStep::Abort);
    assert_eq!(tally.report(), before);
    assert_eq!(tally.awaiting_metadata(), 1);
    assert_eq!(tally.record_metadata(StageOutcome::Succeeded), NextStep::QueueTelemetry);
    assert_eq!(tally.record_telemetry(StageOutcome::Cancelled), NextStep::Abort);
    assert_eq!(tally.awaiting_telemetry(), 1);
    assert!(!tally.is_finished());
}

#[test]
fn nothing_pending_when_all_analyzed() {
    let (tally, pending) = CollectionTally::start(&ids(&["a", "a"]), &ids(&["a"]), &ids(&["a"]));
    assert!(pending.is_empty());
    assert!(tally.is_finished());
    let report = tally.finish();
    assert_eq!(report.skipped_matches, 2);
    assert_eq!(report.new_matches, 0);
}

#[test]
fn cancelled_flag_stops_the_run() {
    assert_eq!(check_cancelled(true), Err(AnalyzerError::Cancelled));
    assert_eq!(check_cancelled(false), Ok(()));
}
