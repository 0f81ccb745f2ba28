use std::str::FromStr;

use maguro::MetadataError;
use maguro::Query;
use maguro::extract_player_response;
use maguro::video_info_url;

#[test]
fn simple_ids() {
    let urls = Query::from_str("VfWgE7D1pYY").unwrap().urls();
    assert_eq!(
        urls,
        vec!["https://www.youtube.com/get_video_info?video_id=VfWgE7D1pYY".to_string()],
    );
}

#[test]
fn query_splits_on_every_space() {
    let q = Query::new("a b".to_string());
    assert_eq!(q.ids(), vec!["a".to_string(), "b".to_string()]);
    let doubled = Query::new("a  b".to_string());
    assert_eq!(doubled.ids(), vec!["a".to_string(), String::new(), "b".to_string()]);
    let empty = Query::new(String::new());
    assert_eq!(empty.ids(), vec![String::new()]);
}

#[test]
fn query_urls_one_per_id() {
    let q = Query::new("one two".to_string());
    assert_eq!(
        q.urls(),
        vec![
            "https://www.youtube.com/get_video_info?video_id=one".to_string(),
            "https://www.youtube.com/get_video_info?video_id=two".to_string(),
        ],
    );
}

#[test]
fn info_url_appends_the_id() {
    assert_eq!(
        video_info_url("abc123"),
        "https://www.youtube.com/get_video_info?video_id=abc123",
    );
}

#[test]
fn envelope_yields_the_player_response_field() {
    let body = b"status=ok&player_response=%7B%22videoDetails%22%3A%7B%7D%7D&other=1";
    let json = extract_player_response(body).expect("envelope decodes");
    assert_eq!(json, "{\"videoDetails\":{}}");
}

#[test]
fn envelope_without_the_field_fails() {
    let body = b"status=ok&other=1";
    assert_eq!(extract_player_response(body), Err(MetadataError::Envelope));
}

#[test]
fn envelope_decodes_plus_as_space() {
    let body = b"player_response=a+b";
    assert_eq!(extract_player_response(body).expect("envelope decodes"), "a b");
}

#[test]
fn envelope_decode_is_total() {
    // Invalid percent-escapes decode lossily instead of failing; the
    // unwrap still succeeds when the field is present.
    let body = b"player_response=%FF";
    assert_eq!(extract_player_response(body).expect("decode is total"), "\u{FFFD}");
    // An empty body decodes to no pairs: the field is absent.
    assert_eq!(extract_player_response(b""), Err(MetadataError::Envelope));
}

#[test]
fn metadata_error_variants_are_distinct() {
    assert_ne!(MetadataError::Transport, MetadataError::Envelope);
    assert_ne!(MetadataError::Envelope, MetadataError::Schema);
    assert_ne!(MetadataError::Transport, MetadataError::Schema);
}
