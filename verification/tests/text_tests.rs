use pubg_analyzer_core::analysis::{cell_id, phase_cell_id};
use pubg_analyzer_core::credentials::{api_key_configured, api_key_update, ApiKeyUpdate};
use pubg_analyzer_core::decimal::{parse_i64, parse_u32};
use pubg_analyzer_core::error::AnalyzerError;
use pubg_analyzer_core::models::validate_settings_fields;
use pubg_analyzer_core::rate_limit::RequestSchedule;
use pubg_analyzer_core::text::{str_is_blank, take_prefix, trim_str};

#[test]
fn cell_identifiers_name_phase_and_cell() {
    assert_eq!(phase_cell_id(2, -3, 14), "p2:-3:14");
    assert_eq!(cell_id(0, -2147483648), "0:-2147483648");
    assert_ne!(phase_cell_id(1, 12, 3), phase_cell_id(11, 2, 3));
    assert_ne!(cell_id(1, 23), cell_id(12, 3));
}

#[test]
fn integers_render_and_parse_in_decimal() {
    for value in [0_i32, 7, -7, 10, 1_400, i32::MAX, i32::MIN] {
        assert_eq!(cell_id(value, 3), format!("{value}:3"));
        assert_eq!(phase_cell_id(-1, 3, value), format!("p-1:3:{value}"));
    }
    for value in [0_i64, 7, -7, 10, 1_400, i64::MAX, i64::MIN] {
        assert_eq!(parse_i64(&value.to_string()), Some(value));
    }
    for text in ["", "+", "-", "1a", " 1", "+-1", "00012", "-0", "+5"] {
        assert_eq!(parse_i64(text), text.parse::<i64>().ok(), "{text:?}");
        assert_eq!(parse_u32(text), text.parse::<u32>().ok(), "{text:?}");
    }
}

#[test]
fn trim_matches_str_trim() {
    for text in ["", "  ", " a b ", "\u{3000}key\n", "\u{200b}x", "abc"] {
        assert_eq!(trim_str(text), text.trim(), "{text:?}");
        assert_eq!(str_is_blank(text), text.trim().is_empty(), "{text:?}");
    }
    assert_eq!(take_prefix("abcdef", 3), "abc");
}

#[test]
fn settings_checks_run_in_order() {
    assert_eq!(validate_settings_fields("PlayerOne", "steam", 10, 4), Ok(()));
    assert_eq!(
        validate_settings_fields("  ", "", 0, 0),
        Err(AnalyzerError::InvalidConfiguration("username is required".to_owned()))
    );
    assert_eq!(
        validate_settings_fields("PlayerOne", "st eam", 10, 4),
        Err(AnalyzerError::InvalidConfiguration(
            "platform must contain only letters, numbers, or hyphens".to_owned()
        ))
    );
    assert_eq!(
        validate_settings_fields("PlayerOne", "steam", 601, 4),
        Err(AnalyzerError::InvalidConfiguration("rpm must be between 1 and 600".to_owned()))
    );
    assert_eq!(
        validate_settings_fields("PlayerOne", "steam", 600, 17),
        Err(AnalyzerError::InvalidConfiguration(
            "download concurrency must be between 1 and 16".to_owned()
        ))
    );
}

#[test]
fn schedule_spaces_requests_one_interval_apart() {
    let mut schedule = RequestSchedule::starting_at(1_000);
    assert_eq!(schedule.reserve(1_000, 6_000), 0);
    assert_eq!(schedule.next_allowed, 7_000);
    assert_eq!(schedule.reserve(2_000, 6_000), 5_000);
    assert_eq!(schedule.next_allowed, 13_000);
    assert_eq!(schedule.reserve(20_000, 6_000), 0);
    assert_eq!(schedule.next_allowed, 26_000);
}

#[test]
fn requests_asking_at_once_start_one_interval_after_another() {
    let start: u64 = 5_000;
    let interval: u64 = 1_000;
    let mut schedule = RequestSchedule::starting_at(start);
    for k in 0..5u64 {
        let wait = schedule.reserve(start, interval);
        assert_eq!(start + wait, start + k * interval);
    }
    assert_eq!(schedule.next_allowed, start + 5 * interval);
}

#[test]
fn api_key_is_trimmed_or_deleted() {
    assert_eq!(api_key_update("  key-1 \n"), ApiKeyUpdate::Store("key-1".to_owned()));
    assert_eq!(api_key_update(" \t"), ApiKeyUpdate::Delete);
    assert!(api_key_configured(Some(" k ")));
    assert!(!api_key_configured(Some("   ")));
    assert!(!api_key_configured(None));
}
