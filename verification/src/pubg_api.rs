//! What the PUBG API client decides: which identifiers and settings it
//! accepts, which player and match records it builds from the API documents,
//! which telemetry URLs and sizes it accepts, how it reads the rate-limit
//! headers, and which error it reports for a failed request.
use vstd::prelude::*;
use crate::decimal::{parse_i64, parse_i64_spec, parse_u32, parse_u32_spec};
use crate::error::{AnalyzerError, is_configuration_error, is_telemetry_error};
use crate::models::{MatchMetadata, PlayerProfile, RateLimitState};
use crate::text::{
    contains_text, is_blank, is_identifier, lemma_identifier_characters, str_is_blank, str_is_identifier, take_chars, take_prefix,
};

verus! {

/// The largest telemetry payload, in bytes, that the client downloads.
pub const MAX_TELEMETRY_BYTES: u64 = 134217728;

/// The only host that telemetry is fetched from.
pub open spec fn telemetry_host() -> Seq<char> {
    "telemetry-cdn.pubg.com"@
}

/// `value` must be non-empty and made of ASCII
/// letters, digits and hyphens; the error names the `label`.
pub fn validate_identifier(value: &str, label: &str) -> (r: Result<(), AnalyzerError>)
    ensures
        r is Ok <==> is_identifier(value@),
        !is_identifier(value@) ==> is_configuration_error(r, "invalid "@ + label@),
        r is Ok <==> (value@.len() > 0 && forall|i: int|
            0 <= i < value@.len() ==> (('0' <= #[trigger] value@[i] && value@[i] <= '9') || ('a'
                <= value@[i] && value@[i] <= 'z') || ('A' <= value@[i] && value@[i] <= 'Z')
                || value@[i] == '-')),
{
    proof {
        lemma_identifier_characters(value@);
    }
    if !str_is_identifier(value) {
        let message = String::from_str("invalid ").concat(label);
        return Err(AnalyzerError::InvalidConfiguration(message));
    }
    Ok(())
}

/// The checks that `PubgClient::new` makes before it builds the HTTP client:
/// the API key must not be blank and the platform shard must be an
/// identifier.
pub fn validate_client_settings(api_key: &str, platform: &str) -> (r: Result<(), AnalyzerError>)
    ensures
        r is Ok <==> (!is_blank(api_key@) && is_identifier(platform@)),
        is_blank(api_key@) ==> is_configuration_error(r, "PUBG API key is required"@),
        !is_blank(api_key@) && !is_identifier(platform@) ==> is_configuration_error(
            r,
            "invalid PUBG platform shard"@,
        ),
{
    if str_is_blank(api_key) {
        return Err(AnalyzerError::InvalidConfiguration(String::from_str("PUBG API key is required")));
    }
    if !str_is_identifier(platform) {
        return Err(
            AnalyzerError::InvalidConfiguration(String::from_str("invalid PUBG platform shard")),
        );
    }
    Ok(())
}

/// A player resource of the API's player search document.
#[derive(Debug, Clone, PartialEq, Eq)]
pub struct PlayerResource {
    pub id: String,
    pub name: String,
    pub match_ids: Vec<String>,
}

/// The profile of the first player that the search returned, on `platform`;
/// an error that names the user and the platform when it returned none.
pub fn player_profile(username: &str, platform: &str, resources: Vec<PlayerResource>) -> (r: Result<
    PlayerProfile,
    AnalyzerError,
>)
    ensures
        resources.len() == 0 ==> is_configuration_error(
            r,
            "player '"@ + username@ + "' was not found on "@ + platform@,
        ),
        resources.len() > 0 ==> (r matches Ok(p) && p.account_id@ == resources[0].id@ && p.name@
            == resources[0].name@ && p.platform@ == platform@ && p.match_ids@
            == resources[0].match_ids@),
{
    if resources.len() == 0 {
        let message = String::from_str("player '").concat(username).concat(
            "' was not found on ",
        ).concat(platform);
        return Err(AnalyzerError::InvalidConfiguration(message));
    }
    let mut resources = resources;
    let first = resources.swap_remove(0);
    Ok(
        PlayerProfile {
            account_id: first.id,
            name: first.name,
            platform: String::from_str(platform),
            match_ids: first.match_ids,
        },
    )
}

/// The attributes of a match resource, each present when the document holds
/// a value of the right JSON type under its name.
#[derive(Debug, Clone, PartialEq, Eq)]
pub struct MatchAttributes {
    pub created_at: Option<String>,
    pub duration: Option<i64>,
    pub game_mode: Option<String>,
    pub map_name: Option<String>,
    pub match_type: Option<String>,
    pub patch_version: Option<String>,
}

/// The `data` object of a match document: its `id` when that is a string, its
/// attributes when they form an object, and the string `id`s of the assets
/// that its relationships list, in order.
#[derive(Debug, Clone, PartialEq, Eq)]
pub struct MatchData {
    pub id: Option<String>,
    pub attributes: Option<MatchAttributes>,
    pub asset_ids: Vec<String>,
}

/// An element of the document's `included` array: its `type`, its `id` and
/// its `attributes.URL`, each when it is a string.
#[derive(Debug, Clone, PartialEq, Eq)]
pub struct IncludedResource {
    pub kind: Option<String>,
    pub id: Option<String>,
    pub url: Option<String>,
}

/// A match document of the PUBG API: `data` when it is an object, and the
/// elements of `included` when it is an array.
#[derive(Debug, Clone, PartialEq, Eq)]
pub struct MatchDocument {
    pub data: Option<MatchData>,
    pub included: Vec<IncludedResource>,
}

/// Whether an included resource is an asset that the match lists.
pub open spec fn is_listed_asset(item: IncludedResource, asset_ids: Seq<Seq<char>>) -> bool {
    &&& item.kind.deep_view() == Some("asset"@)
    &&& item.id matches Some(id) && asset_ids.contains(id@)
}

/// The position of the first included resource that is a listed asset.
pub open spec fn first_listed_asset(items: Seq<IncludedResource>, asset_ids: Seq<Seq<char>>) -> Option<
    nat,
>
    decreases items.len(),
{
    if items.len() == 0 {
        None
    } else if is_listed_asset(items[0], asset_ids) {
        Some(0)
    } else {
        match first_listed_asset(items.drop_first(), asset_ids) {
            Some(k) => Some(k + 1),
            None => None,
        }
    }
}

/// The telemetry URL of a match: the URL of the first listed asset, when it
/// has one.
pub open spec fn telemetry_url_of(document: MatchDocument, data: MatchData) -> Option<Seq<char>> {
    match first_listed_asset(document.included@, data.asset_ids.deep_view()) {
        Some(k) => document.included@[k as int].url.deep_view(),
        None => None,
    }
}

pub open spec fn attribute_text(
    attributes: Option<MatchAttributes>,
    field: spec_fn(MatchAttributes) -> Option<String>,
) -> Option<Seq<char>> {
    match attributes {
        Some(a) => field(a).deep_view(),
        None => None,
    }
}

/// Whether `meta` is the metadata that a match document with `data` yields on
/// `platform`, with telemetry at `url`.
pub open spec fn metadata_from(
    meta: MatchMetadata,
    data: MatchData,
    id: Seq<char>,
    url: Seq<char>,
    platform: Seq<char>,
) -> bool {
    &&& meta.match_id@ == id
    &&& meta.platform@ == platform
    &&& meta.telemetry_url@ == url
    &&& meta.created_at.deep_view() == attribute_text(data.attributes, |a: MatchAttributes| a.created_at)
    &&& meta.game_mode.deep_view() == attribute_text(data.attributes, |a: MatchAttributes| a.game_mode)
    &&& meta.map_name.deep_view() == attribute_text(data.attributes, |a: MatchAttributes| a.map_name)
    &&& meta.match_type.deep_view() == attribute_text(data.attributes, |a: MatchAttributes| a.match_type)
    &&& meta.patch_version.deep_view() == attribute_text(
        data.attributes,
        |a: MatchAttributes| a.patch_version,
    )
    &&& meta.duration_seconds == match data.attributes {
        Some(a) => a.duration,
        None => None,
    }
}

/// The metadata copies each attribute of the document into the field of the
/// same name: the creation time, duration, game mode, map name, match type
/// and patch version are those of the document's attributes, and all are
/// absent when the document has no attributes; the match ID, platform and
/// telemetry URL are the given ones.
pub proof fn lemma_metadata_copies_each_attribute(
    meta: MatchMetadata,
    data: MatchData,
    id: Seq<char>,
    url: Seq<char>,
    platform: Seq<char>,
)
    requires
        metadata_from(meta, data, id, url, platform),
    ensures
        meta.match_id@ == id,
        meta.platform@ == platform,
        meta.telemetry_url@ == url,
        match data.attributes {
            Some(a) => {
                &&& meta.created_at.deep_view() == a.created_at.deep_view()
                &&& meta.duration_seconds == a.duration
                &&& meta.game_mode.deep_view() == a.game_mode.deep_view()
                &&& meta.map_name.deep_view() == a.map_name.deep_view()
                &&& meta.match_type.deep_view() == a.match_type.deep_view()
                &&& meta.patch_version.deep_view() == a.patch_version.deep_view()
            },
            None => {
                &&& meta.created_at is None
                &&& meta.duration_seconds is None
                &&& meta.game_mode is None
                &&& meta.map_name is None
                &&& meta.match_type is None
                &&& meta.patch_version is None
            },
        },
{
}

fn copy_text(value: &Option<String>) -> (r: Option<String>)
    ensures
        r.deep_view() == value.deep_view(),
{
    match value {
        Some(text) => Some(text.clone()),
        None => None,
    }
}

fn is_asset(item: &IncludedResource, asset_ids: &Vec<String>) -> (r: bool)
    ensures
        r == is_listed_asset(*item, asset_ids.deep_view()),
{
    let asset = String::from_str("asset");
    let kind_is_asset = match &item.kind {
        Some(kind) => *kind == asset,
        None => false,
    };
    if !kind_is_asset {
        return false;
    }
    match &item.id {
        Some(id) => contains_text(asset_ids, id),
        None => false,
    }
}

/// Where the first listed asset stands among `items`.
fn find_listed_asset(items: &Vec<IncludedResource>, asset_ids: &Vec<String>) -> (r: Option<usize>)
    ensures
        match r {
            Some(k) => k < items.len() && first_listed_asset(items@, asset_ids.deep_view()) == Some(
                k as nat,
            ),
            None => first_listed_asset(items@, asset_ids.deep_view()) is None,
        },
{
    let mut i: usize = 0;
    assert(items@.skip(0) =~= items@);
    while i < items.len()
        invariant
            i <= items.len(),
            first_listed_asset(items@, asset_ids.deep_view()) == (match first_listed_asset(
                items@.skip(i as int),
                asset_ids.deep_view(),
            ) {
                Some(k) => Some((k + i) as nat),
                None => None,
            }),
        decreases items.len() - i,
    {
        assert(items@.skip(i as int)[0] == items@[i as int]);
        assert(items@.skip(i as int).drop_first() =~= items@.skip(i + 1));
        if is_asset(&items[i], asset_ids) {
            return Some(i);
        }
        i = i + 1;
    }
    assert(items@.skip(i as int).len() == 0);
    None
}

/// The metadata of a match from the API's match
/// document. The telemetry URL is that of the first included asset that the
/// match lists; when that asset has no URL, or the match lists none, the
/// match has no telemetry.
pub fn parse_match_document(document: &MatchDocument, platform: &str) -> (r: Result<
    MatchMetadata,
    AnalyzerError,
>)
    ensures
        match document.data {
            None => is_telemetry_error(r, "match response has no data"@),
            Some(data) => match data.id {
                None => is_telemetry_error(r, "match response has no ID"@),
                Some(id) => match telemetry_url_of(*document, data) {
                    None => r matches Err(AnalyzerError::MissingTelemetry(m)) && m@ == id@,
                    Some(url) => r matches Ok(meta) && metadata_from(
                        meta,
                        data,
                        id@,
                        url,
                        platform@,
                    ),
                },
            },
        },
        r matches Ok(meta) ==> (document.data matches Some(data) && match data.attributes {
            Some(a) => {
                &&& meta.created_at.deep_view() == a.created_at.deep_view()
                &&& meta.duration_seconds == a.duration
                &&& meta.game_mode.deep_view() == a.game_mode.deep_view()
                &&& meta.map_name.deep_view() == a.map_name.deep_view()
                &&& meta.match_type.deep_view() == a.match_type.deep_view()
                &&& meta.patch_version.deep_view() == a.patch_version.deep_view()
            },
            None => {
                &&& meta.created_at is None
                &&& meta.duration_seconds is None
                &&& meta.game_mode is None
                &&& meta.map_name is None
                &&& meta.match_type is None
                &&& meta.patch_version is None
            },
        }),
{
    let data = match &document.data {
        Some(data) => data,
        None => {
            return Err(
                AnalyzerError::InvalidTelemetry(String::from_str("match response has no data")),
            );
        },
    };
    let match_id = match &data.id {
        Some(id) => id.clone(),
        None => {
            return Err(AnalyzerError::InvalidTelemetry(String::from_str("match response has no ID")));
        },
    };
    let telemetry_url = match find_listed_asset(&document.included, &data.asset_ids) {
        Some(k) => match &document.included[k].url {
            Some(url) => url.clone(),
            None => {
                return Err(AnalyzerError::MissingTelemetry(match_id));
            },
        },
        None => {
            return Err(AnalyzerError::MissingTelemetry(match_id));
        },
    };
    let (created_at, duration_seconds, game_mode, map_name, match_type, patch_version) =
        match &data.attributes {
        Some(a) => (
            copy_text(&a.created_at),
            a.duration,
            copy_text(&a.game_mode),
            copy_text(&a.map_name),
            copy_text(&a.match_type),
            copy_text(&a.patch_version),
        ),
        None => (None, None, None, None, None, None),
    };
    Ok(
        MatchMetadata {
            match_id,
            platform: String::from_str(platform),
            created_at,
            duration_seconds,
            game_mode,
            map_name,
            match_type,
            patch_version,
            telemetry_url,
        },
    )
}

/// The rate-limit state that the response headers
/// `x-ratelimit-limit`, `x-ratelimit-remaining` and `x-ratelimit-reset`
/// give, each value that is absent or does not parse left unknown.
pub fn rate_limit_from_headers(limit: Option<&str>, remaining: Option<&str>, reset: Option<&str>) -> (r:
    RateLimitState)
    ensures
        r.limit == (match limit {
            Some(t) => parse_u32_spec(t@),
            None => None,
        }),
        r.remaining == (match remaining {
            Some(t) => parse_u32_spec(t@),
            None => None,
        }),
        r.reset_unix == (match reset {
            Some(t) => parse_i64_spec(t@),
            None => None,
        }),
{
    RateLimitState {
        limit: match limit {
            Some(t) => parse_u32(t),
            None => None,
        },
        remaining: match remaining {
            Some(t) => parse_u32(t),
            None => None,
        },
        reset_unix: match reset {
            Some(t) => parse_i64(t),
            None => None,
        },
    }
}

/// The message of a failed API request: the error detail (or, failing that,
/// title) that the JSON body gives, else the status's reason phrase when the
/// body is empty, else the first 500 characters of the body.
pub open spec fn api_error_message(
    canonical_reason: Option<Seq<char>>,
    body: Seq<char>,
    detail: Option<Seq<char>>,
) -> Seq<char> {
    match detail {
        Some(d) => d,
        None => if body.len() == 0 {
            match canonical_reason {
                Some(reason) => reason,
                None => "unknown API error"@,
            }
        } else {
            take_chars(body, 500)
        },
    }
}

/// The error for a response with HTTP status `status`, the status's reason
/// phrase and the response body, once the message that the body's
/// `errors[0].detail` or `errors[0].title` holds, if any, is known.
pub fn status_error_from_detail(
    status: u16,
    canonical_reason: Option<&str>,
    body: &str,
    detail: Option<String>,
) -> (r: AnalyzerError)
    ensures
        r matches AnalyzerError::ApiStatus { status: s, message } && s == status && message@
            == api_error_message(
            match canonical_reason {
                Some(c) => Some(c@),
                None => None,
            },
            body@,
            detail.deep_view(),
        ),
{
    let message = match detail {
        Some(d) => d,
        None => if body.unicode_len() == 0 {
            match canonical_reason {
                Some(reason) => String::from_str(reason),
                None => String::from_str("unknown API error"),
            }
        } else {
            take_prefix(body, 500)
        },
    };
    AnalyzerError::ApiStatus { status, message }
}

/// What looking up the JSON pointer `pointer` in the JSON text `body` gives
/// with `serde_json`: `None` when the text is not JSON or nothing stands at
/// the pointer; `Some(None)` when a value stands there that is not a string;
/// `Some(Some(text))` when the string `text` stands there.
pub uninterp spec fn json_pointer_lookup(body: Seq<char>, pointer: Seq<char>) -> Option<
    Option<Seq<char>>,
>;

/// Parses `body` with `serde_json::from_str` into a `serde_json::Value`,
/// looks up `pointer` with `Value::pointer` and reads what stands there with
/// `Value::as_str`. The contract claims that the outcome is the function
/// `json_pointer_lookup` of the body and the pointer; the JSON grammar and the
/// pointer syntax are left to `serde_json`.
#[verifier::external_body]
fn json_pointer(body: &str, pointer: &str) -> (r: Option<Option<String>>)
    ensures
        r.deep_view() == json_pointer_lookup(body@, pointer@),
{
    let value: serde_json::Value = serde_json::from_str(body).ok()?;
    let found = value.pointer(pointer)?;
    Some(found.as_str().map(String::from))
}

/// The message that the body of a failed request gives: the value at
/// `/errors/0/detail` when one stands there, else the value at
/// `/errors/0/title`; either counts only when it is a string.
pub open spec fn error_detail(body: Seq<char>) -> Option<Seq<char>> {
    match json_pointer_lookup(body, "/errors/0/detail"@) {
        Some(found) => found,
        None => match json_pointer_lookup(body, "/errors/0/title"@) {
            Some(found) => found,
            None => None,
        },
    }
}

/// The error for a response with HTTP status `status`, the
/// status's reason phrase and the response body.
pub fn api_status_error(status: u16, canonical_reason: Option<&str>, body: &str) -> (r:
    AnalyzerError)
    ensures
        r matches AnalyzerError::ApiStatus { status: s, message } && s == status && message@
            == api_error_message(
            match canonical_reason {
                Some(c) => Some(c@),
                None => None,
            },
            body@,
            error_detail(body@),
        ),
{
    let detail = match json_pointer(body, "/errors/0/detail") {
        Some(found) => found,
        None => match json_pointer(body, "/errors/0/title") {
            Some(found) => found,
            None => None,
        },
    };
    status_error_from_detail(status, canonical_reason, body, detail)
}

/// A parsed URL: its scheme, its host when it has one, and its serialization.
pub struct ParsedUrl {
    pub scheme: String,
    pub host: Option<String>,
    pub serialized: String,
}

pub open spec fn parsed_url_view(p: ParsedUrl) -> (Seq<char>, Option<Seq<char>>, Seq<char>) {
    (p.scheme@, p.host.deep_view(), p.serialized@)
}

/// What `url::Url::parse` gives for `input`: the scheme, host and
/// serialization of the URL, or the text of the parse error.
pub uninterp spec fn url_parse(input: Seq<char>) -> Result<
    (Seq<char>, Option<Seq<char>>, Seq<char>),
    Seq<char>,
>;

/// Calls `url::Url::parse`. The contract claims only that the result is the
/// function `url_parse` of the input: the URL grammar itself is left to the
/// `url` crate.
#[verifier::external_body]
fn parse_url(input: &str) -> (r: Result<ParsedUrl, String>)
    ensures
        match r {
            Ok(p) => url_parse(input@) == Ok::<_, Seq<char>>(parsed_url_view(p)),
            Err(e) => url_parse(input@) == Err::<(Seq<char>, Option<Seq<char>>, Seq<char>), _>(
                e@,
            ),
        },
{
    match url::Url::parse(input) {
        Ok(url) => Ok(
            ParsedUrl {
                scheme: url.scheme().to_string(),
                host: url.host_str().map(|host| host.to_string()),
                serialized: url.as_str().to_string(),
            },
        ),
        Err(error) => Err(error.to_string()),
    }
}

/// Whether `a` and `b` hold the same characters.
fn same_text(a: &str, b: &str) -> (r: bool)
    ensures
        r == (a@ == b@),
{
    let left = String::from_str(a);
    let right = String::from_str(b);
    left == right
}

/// The telemetry URL check of `fetch_telemetry`: the URL must parse, use
/// `https` and name the official telemetry CDN as its host. The result is the
/// URL as the parser serializes it, which the request then uses.
pub fn check_telemetry_url(telemetry_url: &str) -> (r: Result<String, AnalyzerError>)
    ensures
        match url_parse(telemetry_url@) {
            Err(e) => is_telemetry_error(r, "invalid telemetry URL: "@ + e),
            Ok((scheme, host, serialized)) => if scheme == "https"@ && host == Some(
                telemetry_host(),
            ) {
                r matches Ok(u) && u@ == serialized
            } else {
                is_telemetry_error(
                    r,
                    "telemetry URL must use the official PUBG telemetry CDN"@,
                )
            },
        },
{
    let parsed = match parse_url(telemetry_url) {
        Ok(parsed) => parsed,
        Err(error) => {
            let message = String::from_str("invalid telemetry URL: ").concat(error.as_str());
            return Err(AnalyzerError::InvalidTelemetry(message));
        },
    };
    let official = match &parsed.host {
        Some(host) => same_text(host.as_str(), "telemetry-cdn.pubg.com"),
        None => false,
    };
    if !same_text(parsed.scheme.as_str(), "https") || !official {
        return Err(
            AnalyzerError::InvalidTelemetry(
                String::from_str("telemetry URL must use the official PUBG telemetry CDN"),
            ),
        );
    }
    Ok(parsed.serialized)
}

/// The size checks of `fetch_telemetry`: the length that the response
/// declares, when it declares one, and the length of the body it delivered,
/// when it has been read, must not exceed 128 MiB.
pub fn check_telemetry_size(declared: Option<u64>, received: Option<usize>) -> (r: Result<
    (),
    AnalyzerError,
>)
    ensures
        r is Ok <==> (!(declared matches Some(d) && d > MAX_TELEMETRY_BYTES) && !(received matches Some(n) && n > MAX_TELEMETRY_BYTES)),
        r is Err ==> is_telemetry_error(r, "telemetry payload exceeds 128 MiB"@),
{
    let too_large = match declared {
        Some(d) => d > MAX_TELEMETRY_BYTES,
        None => false,
    } || match received {
        Some(n) => n as u64 > MAX_TELEMETRY_BYTES,
        None => false,
    };
    if too_large {
        return Err(
            AnalyzerError::InvalidTelemetry(String::from_str("telemetry payload exceeds 128 MiB")),
        );
    }
    Ok(())
}

} // verus!
