use pubg_analyzer_core::error::AnalyzerError;
use pubg_analyzer_core::pubg_api::{
    api_status_error, check_telemetry_size, check_telemetry_url, parse_match_document,
    player_profile, rate_limit_from_headers, status_error_from_detail, validate_client_settings,
    validate_identifier,
    IncludedResource, MatchAttributes, MatchData, MatchDocument, PlayerResource,
};

fn fixture_document() -> MatchDocument {
    MatchDocument {
        data: Some(MatchData {
            id: Some("match-1".to_owned()),
            attributes: Some(MatchAttributes {
                created_at: Some("2026-01-01T00:00:00Z".to_owned()),
                duration: Some(100),
                game_mode: Some("squad-fpp".to_owned()),
                map_name: Some("Baltic_Main".to_owned()),
                match_type: None,
                patch_version: Some("40.1".to_owned()),
            }),
            asset_ids: vec!["asset-1".to_owned()],
        }),
        included: vec![IncludedResource {
            kind: Some("asset".to_owned()),
            id: Some("asset-1".to_owned()),
            url: Some("https://telemetry-cdn.pubg.com/test.json".to_owned()),
        }],
    }
}

#[test]
fn extracts_telemetry_asset_from_match_document() {
    let document = fixture_document();
    let parsed = parse_match_document(&document, "steam").expect("match should parse");
    assert_eq!(parsed.match_id, "match-1");
    assert_eq!(parsed.map_name.as_deref(), Some("Baltic_Main"));
    assert_eq!(
        parsed.telemetry_url,
        "https://telemetry-cdn.pubg.com/test.json"
    );
}

#[test]
fn match_document_copies_attributes_and_platform() {
    let parsed = parse_match_document(&fixture_document(), "kakao").unwrap();
    assert_eq!(parsed.platform, "kakao");
    assert_eq!(parsed.duration_seconds, Some(100));
    assert_eq!(parsed.game_mode.as_deref(), Some("squad-fpp"));
    assert_eq!(parsed.match_type, None);
    assert_eq!(parsed.created_at.as_deref(), Some("2026-01-01T00:00:00Z"));
}

#[test]
fn match_document_without_data_or_id_is_refused() {
    let mut document = fixture_document();
    document.data = None;
    assert_eq!(
        parse_match_document(&document, "steam"),
        Err(AnalyzerError::InvalidTelemetry("match response has no data".to_owned()))
    );
    let mut document = fixture_document();
    document.data.as_mut().unwrap().id = None;
    assert_eq!(
        parse_match_document(&document, "steam"),
        Err(AnalyzerError::InvalidTelemetry("match response has no ID".to_owned()))
    );
}

#[test]
fn match_document_uses_first_listed_asset() {
    let mut document = fixture_document();
    document.included.insert(
        0,
        IncludedResource {
            kind: Some("asset".to_owned()),
            id: Some("asset-9".to_owned()),
            url: Some("https://telemetry-cdn.pubg.com/other.json".to_owned()),
        },
    );
    document.included.push(IncludedResource {
        kind: Some("asset".to_owned()),
        id: Some("asset-1".to_owned()),
        url: Some("https://telemetry-cdn.pubg.com/later.json".to_owned()),
    });
    let parsed = parse_match_document(&document, "steam").unwrap();
    assert_eq!(parsed.telemetry_url, "https://telemetry-cdn.pubg.com/test.json");
}

#[test]
fn match_document_without_telemetry_asset_is_refused() {
    let mut document = fixture_document();
    document.included[0].kind = Some("roster".to_owned());
    assert_eq!(
        parse_match_document(&document, "steam"),
        Err(AnalyzerError::MissingTelemetry("match-1".to_owned()))
    );
    let mut document = fixture_document();
    document.included[0].url = None;
    assert_eq!(
        parse_match_document(&document, "steam"),
        Err(AnalyzerError::MissingTelemetry("match-1".to_owned()))
    );
}

#[test]
fn identifiers_allow_letters_digits_and_hyphens_only() {
    assert_eq!(validate_identifier("match-1-ABC", "match ID"), Ok(()));
    assert_eq!(
        validate_identifier("", "match ID"),
        Err(AnalyzerError::InvalidConfiguration("invalid match ID".to_owned()))
    );
    assert_eq!(
        validate_identifier("../etc", "match ID"),
        Err(AnalyzerError::InvalidConfiguration("invalid match ID".to_owned()))
    );
    assert!(validate_identifier("m\u{e9}", "x").is_err());
}

#[test]
fn client_settings_need_key_and_shard() {
    assert_eq!(validate_client_settings("key", "steam"), Ok(()));
    assert_eq!(
        validate_client_settings(" \t ", "steam"),
        Err(AnalyzerError::InvalidConfiguration("PUBG API key is required".to_owned()))
    );
    assert_eq!(
        validate_client_settings("key", "steam/x"),
        Err(AnalyzerError::InvalidConfiguration("invalid PUBG platform shard".to_owned()))
    );
}

#[test]
fn player_profile_takes_first_player() {
    let profile = player_profile(
        "PlayerOne",
        "steam",
        vec![
            PlayerResource {
                id: "account-1".to_owned(),
                name: "PlayerOne".to_owned(),
                match_ids: vec!["m1".to_owned(), "m2".to_owned()],
            },
            PlayerResource {
                id: "account-2".to_owned(),
                name: "Other".to_owned(),
                match_ids: vec![],
            },
        ],
    )
    .unwrap();
    assert_eq!(profile.account_id, "account-1");
    assert_eq!(profile.platform, "steam");
    assert_eq!(profile.match_ids, vec!["m1".to_owned(), "m2".to_owned()]);
    assert_eq!(
        player_profile("Ghost", "kakao", Vec::new()),
        Err(AnalyzerError::InvalidConfiguration(
            "player 'Ghost' was not found on kakao".to_owned()
        ))
    );
}

#[test]
fn telemetry_url_must_use_official_cdn() {
    assert_eq!(
        check_telemetry_url("https://telemetry-cdn.pubg.com/a/b.json").unwrap(),
        "https://telemetry-cdn.pubg.com/a/b.json"
    );
    assert_eq!(
        check_telemetry_url("HTTPS://TELEMETRY-CDN.PUBG.COM/x").unwrap(),
        "https://telemetry-cdn.pubg.com/x"
    );
    let refused = Err(AnalyzerError::InvalidTelemetry(
        "telemetry URL must use the official PUBG telemetry CDN".to_owned(),
    ));
    assert_eq!(check_telemetry_url("http://telemetry-cdn.pubg.com/x"), refused);
    assert_eq!(check_telemetry_url("https://evil.example/x"), refused);
    match check_telemetry_url("not a url") {
        Err(AnalyzerError::InvalidTelemetry(message)) => {
            assert!(message.starts_with("invalid telemetry URL: "))
        }
        other => panic!("unexpected {other:?}"),
    }
}

#[test]
fn telemetry_size_is_bounded_to_128_mib() {
    assert_eq!(check_telemetry_size(None, None), Ok(()));
    assert_eq!(check_telemetry_size(Some(134_217_728), Some(134_217_728)), Ok(()));
    let refused = Err(AnalyzerError::InvalidTelemetry(
        "telemetry payload exceeds 128 MiB".to_owned(),
    ));
    assert_eq!(check_telemetry_size(Some(134_217_729), None), refused);
    assert_eq!(check_telemetry_size(None, Some(134_217_729)), refused);
}

#[test]
fn rate_limit_headers_parse_like_from_str() {
    let state = rate_limit_from_headers(Some("10"), Some("+7"), Some("-1700000000"));
    assert_eq!(state.limit, Some(10));
    assert_eq!(state.remaining, Some(7));
    assert_eq!(state.reset_unix, Some(-1_700_000_000));
    let state = rate_limit_from_headers(Some("4294967296"), Some("x"), None);
    assert_eq!(state.limit, None);
    assert_eq!(state.remaining, None);
    assert_eq!(state.reset_unix, None);
    let state = rate_limit_from_headers(Some("4294967295"), Some(""), Some("-9223372036854775808"));
    assert_eq!(state.limit, Some(u32::MAX));
    assert_eq!(state.remaining, None);
    assert_eq!(state.reset_unix, Some(i64::MIN));
    assert_eq!(rate_limit_from_headers(None, Some("-"), Some("9223372036854775808")).reset_unix, None);
}

#[test]
fn api_status_error_prefers_detail_then_reason_then_body() {
    assert_eq!(
        api_status_error(404, Some("Not Found"), r#"{"errors":[{"detail":"no such player"}]}"#),
        AnalyzerError::ApiStatus { status: 404, message: "no such player".to_owned() }
    );
    assert_eq!(
        api_status_error(429, Some("Too Many Requests"), ""),
        AnalyzerError::ApiStatus { status: 429, message: "Too Many Requests".to_owned() }
    );
    assert_eq!(
        api_status_error(599, None, ""),
        AnalyzerError::ApiStatus { status: 599, message: "unknown API error".to_owned() }
    );
    let body = "x".repeat(600);
    assert_eq!(
        api_status_error(500, Some("Internal Server Error"), &body),
        AnalyzerError::ApiStatus { status: 500, message: "x".repeat(500) }
    );
}

#[test]
fn api_status_error_falls_back_to_the_title() {
    assert_eq!(
        api_status_error(401, Some("Unauthorized"), r#"{"errors":[{"title":"Unauthorized key"}]}"#),
        AnalyzerError::ApiStatus { status: 401, message: "Unauthorized key".to_owned() }
    );
    assert_eq!(
        api_status_error(
            400,
            Some("Bad Request"),
            r#"{"errors":[{"detail":"bad shard","title":"Bad Request"}]}"#
        ),
        AnalyzerError::ApiStatus { status: 400, message: "bad shard".to_owned() }
    );
}

#[test]
fn api_status_error_ignores_a_detail_that_is_not_text() {
    let body = r#"{"errors":[{"detail":7,"title":"Bad Request"}]}"#;
    assert_eq!(
        api_status_error(400, Some("Bad Request"), body),
        AnalyzerError::ApiStatus { status: 400, message: body.to_owned() }
    );
    assert_eq!(
        api_status_error(404, Some("Not Found"), "{}"),
        AnalyzerError::ApiStatus { status: 404, message: "{}".to_owned() }
    );
}

#[test]
fn status_error_from_detail_uses_the_given_detail() {
    assert_eq!(
        status_error_from_detail(404, Some("Not Found"), "{}", Some("no such player".to_owned())),
        AnalyzerError::ApiStatus { status: 404, message: "no such player".to_owned() }
    );
    assert_eq!(
        status_error_from_detail(404, Some("Not Found"), "", None),
        AnalyzerError::ApiStatus { status: 404, message: "Not Found".to_owned() }
    );
}
