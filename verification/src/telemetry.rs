//! Telemetry payloads: gzip detection and decompression with a size bound,
//! the JSON event array, and the payload fingerprint.
use vstd::prelude::*;
use std::io::Read;
use sha2::Digest;
use crate::decimal::{digit_char, digit_str};
use crate::error::{AnalyzerError, is_telemetry_error};

verus! {

/// The largest telemetry text, in bytes, that is decoded.
pub const MAX_DECOMPRESSED_BYTES: usize = 268435456;

#[verifier::external_type_specification]
#[verifier::external_body]
pub struct ExIoError(std::io::Error);

#[verifier::external_type_specification]
#[verifier::external_body]
pub struct ExJsonValue(serde_json::Value);

#[verifier::external_type_specification]
#[verifier::external_body]
pub struct ExJsonError(serde_json::Error);

/// Whether a payload starts with the gzip magic bytes.
pub open spec fn has_gzip_magic(payload: Seq<u8>) -> bool {
    payload.len() >= 2 && payload[0] == 0x1f && payload[1] == 0x8b
}

/// What reading at most `limit` bytes from a `flate2::read::GzDecoder` over
/// `payload` gives: the bytes read, or `None` when the read fails.
pub uninterp spec fn gunzip_bounded(payload: Seq<u8>, limit: nat) -> Option<Seq<u8>>;

/// Decompresses `payload` with `flate2::read::GzDecoder`, reading at most
/// `limit` bytes through `Read::take` and `Read::read_to_end`. The contract
/// claims that the result is the function `gunzip_bounded` of the payload and
/// the limit, and that no more than `limit` bytes come back, which `take`
/// guarantees; the gzip format itself is left to `flate2`.
#[verifier::external_body]
fn gunzip_at_most(payload: &[u8], limit: u64) -> (r: Result<Vec<u8>, std::io::Error>)
    ensures
        match r {
            Ok(v) => gunzip_bounded(payload@, limit as nat) == Some(v@) && v@.len() <= limit,
            Err(_) => gunzip_bounded(payload@, limit as nat) is None,
        },
{
    let mut output = Vec::new();
    flate2::read::GzDecoder::new(payload).take(limit).read_to_end(&mut output)?;
    Ok(output)
}

/// The error that decoding a payload whose text is refused gives: the read
/// error of a gzip payload that does not decompress, or the size error.
pub open spec fn decompress_error(payload: Seq<u8>, e: AnalyzerError) -> bool {
    if has_gzip_magic(payload) {
        match gunzip_bounded(payload, (MAX_DECOMPRESSED_BYTES + 1) as nat) {
            None => e is Io,
            Some(_) => e matches AnalyzerError::InvalidTelemetry(m) && m@
                == "decompressed telemetry exceeds 256 MiB"@,
        }
    } else {
        e matches AnalyzerError::InvalidTelemetry(m) && m@ == "telemetry exceeds 256 MiB"@
    }
}

/// The telemetry text of a payload, decompressed when it is gzip.
pub fn decompress_payload(payload: &[u8]) -> (r: Result<Vec<u8>, AnalyzerError>)
    ensures
        match r {
            Ok(v) => decompress_payload_view(payload@) == Some(v@),
            Err(e) => decompress_payload_view(payload@) is None && decompress_error(payload@, e),
        },
{
    if payload.len() >= 2 && payload[0] == 0x1f && payload[1] == 0x8b {
        let limit = (MAX_DECOMPRESSED_BYTES + 1) as u64;
        let output = match gunzip_at_most(payload, limit) {
            Ok(output) => output,
            Err(error) => {
                return Err(AnalyzerError::Io(error.to_string()));
            },
        };
        if output.len() > MAX_DECOMPRESSED_BYTES {
            return Err(
                AnalyzerError::InvalidTelemetry(
                    String::from_str("decompressed telemetry exceeds 256 MiB"),
                ),
            );
        }
        Ok(output)
    } else {
        if payload.len() > MAX_DECOMPRESSED_BYTES {
            return Err(
                AnalyzerError::InvalidTelemetry(String::from_str("telemetry exceeds 256 MiB")),
            );
        }
        Ok(vstd::slice::slice_to_vec(payload))
    }
}

/// What `serde_json::from_slice::<serde_json::Value>` makes of `text`:
/// `None` when it refuses the text; `Some(None)` when the value is not an
/// array; otherwise the elements of the array, in order, each with whether it
/// is an object.
pub uninterp spec fn json_array_elements(text: Seq<u8>) -> Option<
    Option<Seq<(bool, serde_json::Value)>>,
>;

/// An element of a JSON array, told apart by whether it is an object.
pub enum JsonElement {
    Object(serde_json::Value),
    Other(serde_json::Value),
}

/// The value that an element holds.
pub open spec fn element_value(item: JsonElement) -> serde_json::Value {
    match item {
        JsonElement::Object(v) => v,
        JsonElement::Other(v) => v,
    }
}

/// An element as whether it is an object, and its value.
pub open spec fn element_entry(item: JsonElement) -> (bool, serde_json::Value) {
    (item is Object, element_value(item))
}

/// The elements of a parsed root, when it is an array.
pub open spec fn root_entries(root: Option<Vec<JsonElement>>) -> Option<
    Seq<(bool, serde_json::Value)>,
> {
    match root {
        Some(items) => Some(items@.map_values(|item: JsonElement| element_entry(item))),
        None => None,
    }
}

/// Calls `serde_json::from_slice::<serde_json::Value>` and tells the
/// `serde_json::Value` variants apart: an array gives its elements, in order,
/// each marked by whether it is an object. The contract claims that the
/// outcome is the function `json_array_elements` of the text; the JSON grammar
/// is left to `serde_json`.
#[verifier::external_body]
fn parse_json_array(text: &[u8]) -> (r: Result<Option<Vec<JsonElement>>, serde_json::Error>)
    ensures
        match r {
            Ok(root) => json_array_elements(text@) == Some(root_entries(root)),
            Err(_) => json_array_elements(text@) is None,
        },
{
    let value: serde_json::Value = serde_json::from_slice(text)?;
    Ok(
        match value {
            serde_json::Value::Array(items) => Some(
                items.into_iter().map(|item| match item {
                    item @ serde_json::Value::Object(_) => JsonElement::Object(item),
                    item => JsonElement::Other(item),
                }).collect(),
            ),
            _ => None,
        },
    )
}

/// Whether every element is an object.
pub open spec fn all_entries_objects(entries: Seq<(bool, serde_json::Value)>) -> bool {
    forall|i: int| 0 <= i < entries.len() ==> #[trigger] entries[i].0
}

/// The values of the elements, in order.
pub open spec fn entry_values(entries: Seq<(bool, serde_json::Value)>) -> Seq<serde_json::Value> {
    entries.map_values(|e: (bool, serde_json::Value)| e.1)
}

/// The events that a payload decodes to, or `None` when decoding refuses it.
pub open spec fn decoded_events(payload: Seq<u8>) -> Option<Seq<serde_json::Value>> {
    match decompress_payload_view(payload) {
        None => None,
        Some(text) => match json_array_elements(text) {
            Some(Some(entries)) => if all_entries_objects(entries) {
                Some(entry_values(entries))
            } else {
                None
            },
            _ => None,
        },
    }
}

/// Whether every element is an object.
pub open spec fn all_objects(items: Seq<JsonElement>) -> bool {
    forall|i: int| 0 <= i < items.len() ==> #[trigger] items[i] is Object
}

/// The events of a parsed telemetry text: the root must be an array, and
/// every element of it an object; the events are the elements, in order.
pub fn events_of_root(root: Option<Vec<JsonElement>>) -> (r: Result<
    Vec<serde_json::Value>,
    AnalyzerError,
>)
    ensures
        match root {
            None => is_telemetry_error(r, "telemetry root must be an array"@),
            Some(items) => if all_objects(items@) {
                r matches Ok(events) && events@ == items@.map_values(
                    |item: JsonElement| element_value(item),
                )
            } else {
                is_telemetry_error(r, "every telemetry event must be an object"@)
            },
        },
{
    let items = match root {
        Some(items) => items,
        None => {
            return Err(
                AnalyzerError::InvalidTelemetry(String::from_str("telemetry root must be an array")),
            );
        },
    };
    let ghost all = items@;
    let n = items.len();
    let mut events: Vec<serde_json::Value> = Vec::new();
    let mut rest = items;
    let mut i: usize = 0;
    while i < n
        invariant
            root matches Some(given) && given@ == all,
            n == all.len(),
            i <= n,
            rest@ == all.subrange(i as int, n as int),
            events@ == all.subrange(0, i as int).map_values(|item: JsonElement| element_value(item)),
            forall|j: int| 0 <= j < i ==> #[trigger] all[j] is Object,
        decreases n - i,
    {
        let ghost before = rest@;
        assert(before[0] == all[i as int]);
        let item = rest.remove(0);
        assert(rest@ =~= all.subrange(i + 1, n as int));
        match item {
            JsonElement::Object(value) => {
                events.push(value);
                assert(all.subrange(0, i + 1) =~= all.subrange(0, i as int).push(all[i as int]));
                assert(events@ =~= all.subrange(0, i + 1).map_values(
                    |item: JsonElement| element_value(item),
                ));
            },
            JsonElement::Other(_) => {
                assert(!all_objects(all));
                return Err(
                    AnalyzerError::InvalidTelemetry(
                        String::from_str("every telemetry event must be an object"),
                    ),
                );
            },
        }
        i = i + 1;
    }
    assert(all.subrange(0, n as int) =~= all);
    Ok(events)
}

/// The telemetry events of a payload, which must be a JSON array of objects
/// once decompressed; the events are the array's elements, in order.
pub fn decode_events(payload: &[u8]) -> (r: Result<Vec<serde_json::Value>, AnalyzerError>)
    ensures
        match decompress_payload_view(payload@) {
            None => r matches Err(e) && decompress_error(payload@, e),
            Some(text) => match json_array_elements(text) {
                None => r matches Err(AnalyzerError::Json(_)),
                Some(None) => is_telemetry_error(r, "telemetry root must be an array"@),
                Some(Some(entries)) => if all_entries_objects(entries) {
                    r matches Ok(events) && events@ == entry_values(entries)
                } else {
                    is_telemetry_error(r, "every telemetry event must be an object"@)
                },
            },
        },
        r is Ok <==> decoded_events(payload@) is Some,
        r matches Ok(events) ==> decoded_events(payload@) == Some(events@),
{
    let decoded = match decompress_payload(payload) {
        Ok(decoded) => decoded,
        Err(error) => {
            return Err(error);
        },
    };
    let root = match parse_json_array(decoded.as_slice()) {
        Ok(root) => root,
        Err(error) => {
            return Err(AnalyzerError::Json(error.to_string()));
        },
    };
    proof {
        if root is Some {
            let items = root->0@;
            let entries = items.map_values(|item: JsonElement| element_entry(item));
            assert(all_objects(items) <==> all_entries_objects(entries)) by {
                if all_entries_objects(entries) {
                    assert forall|i: int| 0 <= i < items.len() implies #[trigger] items[i] is Object by {
                        assert(entries[i].0);
                    }
                }
                if all_objects(items) {
                    assert forall|i: int| 0 <= i < entries.len() implies #[trigger] entries[i].0 by {
                        assert(items[i] is Object);
                    }
                }
            }
            assert(items.map_values(|item: JsonElement| element_value(item)) =~= entry_values(
                entries,
            ));
        }
    }
    events_of_root(root)
}

/// The text that `decompress_payload` yields for a payload, if any.
pub open spec fn decompress_payload_view(payload: Seq<u8>) -> Option<Seq<u8>> {
    if has_gzip_magic(payload) {
        match gunzip_bounded(payload, (MAX_DECOMPRESSED_BYTES + 1) as nat) {
            None => None,
            Some(text) => if text.len() > MAX_DECOMPRESSED_BYTES {
                None
            } else {
                Some(text)
            },
        }
    } else if payload.len() > MAX_DECOMPRESSED_BYTES {
        None
    } else {
        Some(payload)
    }
}

/// The SHA-256 digest of `data`.
pub uninterp spec fn sha256(data: Seq<u8>) -> Seq<u8>;

/// Calls `sha2::Sha256::digest`. The contract claims that the result is the
/// function `sha256` of the data and is 32 bytes long, as SHA-256 digests are.
#[verifier::external_body]
fn sha256_digest(data: &[u8]) -> (r: Vec<u8>)
    ensures
        r@ == sha256(data@),
        r@.len() == 32,
{
    sha2::Sha256::digest(data).to_vec()
}

pub open spec fn hex_digit(n: nat) -> char {
    if n < 10 {
        digit_char(n)
    } else if n == 10 {
        'a'
    } else if n == 11 {
        'b'
    } else if n == 12 {
        'c'
    } else if n == 13 {
        'd'
    } else if n == 14 {
        'e'
    } else {
        'f'
    }
}

/// Lower-case hexadecimal text of bytes, two digits per byte, high nibble
/// first, as `hex::encode` writes it.
pub open spec fn hex_lower(data: Seq<u8>) -> Seq<char>
    decreases data.len(),
{
    if data.len() == 0 {
        Seq::empty()
    } else {
        hex_lower(data.drop_last()) + seq![
            hex_digit((data.last() / 16) as nat),
            hex_digit((data.last() % 16) as nat),
        ]
    }
}

pub proof fn lemma_hex_lower_len(data: Seq<u8>)
    ensures
        hex_lower(data).len() == 2 * data.len(),
    decreases data.len(),
{
    if data.len() > 0 {
        lemma_hex_lower_len(data.drop_last());
    }
}

/// The digit of a nibble, as text of one character.
fn hex_digit_str(n: u8) -> (r: &'static str)
    requires
        n < 16,
    ensures
        r@ == seq![hex_digit(n as nat)],
{
    proof {
        reveal_strlit("a");
        reveal_strlit("b");
        reveal_strlit("c");
        reveal_strlit("d");
        reveal_strlit("e");
        reveal_strlit("f");
    }
    if n < 10 {
        digit_str(n as u64)
    } else if n == 10 {
        "a"
    } else if n == 11 {
        "b"
    } else if n == 12 {
        "c"
    } else if n == 13 {
        "d"
    } else if n == 14 {
        "e"
    } else {
        "f"
    }
}

/// The lower-case hexadecimal text of `data`.
fn hex_encode(data: &[u8]) -> (r: String)
    ensures
        r@ == hex_lower(data@),
{
    let mut out = String::new();
    let mut i: usize = 0;
    while i < data.len()
        invariant
            i <= data.len(),
            out@ == hex_lower(data@.take(i as int)),
        decreases data.len() - i,
    {
        let byte = data[i];
        out.append(hex_digit_str(byte / 16));
        out.append(hex_digit_str(byte % 16));
        assert(data@.take(i + 1).drop_last() =~= data@.take(i as int));
        i = i + 1;
    }
    assert(data@.take(data.len() as int) =~= data@);
    out
}

/// `payload_sha256`: the lower-case hexadecimal SHA-256 digest of a payload.
pub fn payload_sha256(payload: &[u8]) -> (r: String)
    ensures
        r@ == hex_lower(sha256(payload@)),
        r@.len() == 64,
{
    let digest = sha256_digest(payload);
    proof {
        lemma_hex_lower_len(digest@);
    }
    hex_encode(digest.as_slice())
}

} // verus!
