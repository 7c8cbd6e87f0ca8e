use std::io::Write;

use flate2::{write::GzEncoder, Compression};
use pubg_analyzer_core::collector::gzip_payload;
use pubg_analyzer_core::error::AnalyzerError;
use pubg_analyzer_core::telemetry::{
    decode_events, decompress_payload, events_of_root, payload_sha256, JsonElement,
};
use serde_json::Value;

#[test]
fn decodes_plain_and_gzip_arrays() {
    let plain = br#"[{"_T":"LogMatchStart"}]"#;
    assert_eq!(decode_events(plain).expect("plain JSON").len(), 1);

    let mut encoder = GzEncoder::new(Vec::new(), Compression::default());
    encoder.write_all(plain).expect("write gzip");
    let compressed = encoder.finish().expect("finish gzip");
    assert_eq!(decode_events(&compressed).expect("gzip JSON").len(), 1);
}

#[test]
fn decode_refuses_non_arrays_and_non_objects() {
    assert_eq!(
        decode_events(br#"{"_T":"LogMatchStart"}"#),
        Err(AnalyzerError::InvalidTelemetry("telemetry root must be an array".to_owned()))
    );
    assert_eq!(
        decode_events(br#"[{"_T":"LogMatchStart"}, 3]"#),
        Err(AnalyzerError::InvalidTelemetry(
            "every telemetry event must be an object".to_owned()
        ))
    );
    assert!(matches!(decode_events(b"[{"), Err(AnalyzerError::Json(_))));
    assert_eq!(decode_events(b"[]").unwrap().len(), 0);
}

#[test]
fn corrupt_gzip_is_an_io_error() {
    assert!(matches!(
        decompress_payload(&[0x1f, 0x8b, 1, 2, 3]),
        Err(AnalyzerError::Io(_))
    ));
}

#[test]
fn plain_payload_is_its_own_text() {
    assert_eq!(decompress_payload(b"[1,2]").unwrap(), b"[1,2]".to_vec());
}

#[test]
fn stored_payload_decodes_to_the_same_telemetry() {
    let plain = br#"[{"_T":"LogMatchStart","mapName":"Baltic_Main"}]"#;
    let stored = gzip_payload(plain).expect("gzip");
    assert_eq!(&stored[..2], &[0x1f, 0x8b]);
    assert_eq!(decompress_payload(&stored).unwrap(), plain.to_vec());
    let again = gzip_payload(&stored).expect("already gzip");
    assert_eq!(again, stored);
    assert_eq!(decode_events(&stored).unwrap(), decode_events(plain).unwrap());
}

#[test]
fn payload_fingerprint_is_lower_hex_sha256() {
    assert_eq!(
        payload_sha256(b"abc"),
        "ba7816bf8f01cfea414140de5dae2223b00361a396177a9cb410ff61f20015ad"
    );
    assert_eq!(payload_sha256(b"").len(), 64);
}

#[test]
fn stored_payload_keeps_refusals() {
    let not_objects = br#"[1, 2]"#;
    let stored = gzip_payload(not_objects).expect("gzip");
    assert_ne!(stored, not_objects.to_vec());
    assert_eq!(decode_events(&stored), decode_events(not_objects));
    assert_eq!(
        decode_events(&stored),
        Err(AnalyzerError::InvalidTelemetry(
            "every telemetry event must be an object".to_owned()
        ))
    );
}

fn log_match_start() -> Value {
    let mut event = serde_json::Map::new();
    event.insert("_T".to_owned(), Value::String("LogMatchStart".to_owned()));
    Value::Object(event)
}

#[test]
fn decoded_event_is_the_array_element() {
    let events = decode_events(br#"[{"_T":"LogMatchStart"}]"#).expect("plain JSON");
    assert_eq!(events, vec![log_match_start()]);
}

#[test]
fn events_are_the_array_elements_in_order() {
    let empty = Value::Object(serde_json::Map::new());
    let root = Some(vec![
        JsonElement::Object(log_match_start()),
        JsonElement::Object(empty.clone()),
    ]);
    assert_eq!(events_of_root(root), Ok(vec![log_match_start(), empty]));
    assert_eq!(
        events_of_root(None),
        Err(AnalyzerError::InvalidTelemetry("telemetry root must be an array".to_owned()))
    );
    assert_eq!(
        events_of_root(Some(vec![
            JsonElement::Object(log_match_start()),
            JsonElement::Other(Value::from(3)),
        ])),
        Err(AnalyzerError::InvalidTelemetry(
            "every telemetry event must be an object".to_owned()
        ))
    );
    assert_eq!(events_of_root(Some(Vec::new())), Ok(Vec::new()));
}
