use maguro::Duration;
use maguro::from_millis;
use maguro::from_millis_option;
use maguro::from_secs;
use maguro::from_secs_option;
use maguro::from_str;
use maguro::from_str_option;
use maguro::option_from_str;
use maguro::option_to_str;
use maguro::parse_u64;
use maguro::to_str;

#[test]
fn parse_u64_reads_decimal_digits() {
    assert_eq!(parse_u64("0"), Some(0));
    assert_eq!(parse_u64("31337"), Some(31337));
    assert_eq!(parse_u64("18446744073709551615"), Some(u64::MAX));
}

#[test]
fn parse_u64_rejects_what_does_not_fit() {
    assert_eq!(parse_u64(""), None);
    assert_eq!(parse_u64("12a"), None);
    assert_eq!(parse_u64("-1"), None);
    assert_eq!(parse_u64(" 1"), None);
    assert_eq!(parse_u64("18446744073709551616"), None);
}

#[test]
fn from_str_reads_a_u32() {
    assert_eq!(from_str("123"), Some(123));
    assert_eq!(from_str("4294967295"), Some(u32::MAX));
    assert_eq!(from_str("4294967296"), None);
    assert_eq!(from_str("quality"), None);
}

#[test]
fn from_str_option_distinguishes_absent_from_malformed() {
    assert_eq!(from_str_option(None), Ok(None));
    assert_eq!(from_str_option(Some("77")), Ok(Some(77)));
    assert_eq!(from_str_option(Some("x")), Err(()));
}

#[test]
fn from_millis_reads_a_duration() {
    assert_eq!(from_millis("9500"), Ok(Duration::from_millis(9500)));
    let d = from_millis("9500").unwrap();
    assert_eq!(d.secs, 9);
    assert_eq!(d.subsec_millis, 500);
    assert_eq!(from_millis("soon"), Err(()));
}

#[test]
fn from_millis_option_distinguishes_absent_from_malformed() {
    assert_eq!(from_millis_option(None), Ok(None));
    assert_eq!(from_millis_option(Some("1500")), Ok(Some(Duration::from_millis(1500))));
    assert_eq!(from_millis_option(Some("")), Err(()));
}

#[test]
fn from_secs_reads_a_duration() {
    assert_eq!(from_secs("21540"), Ok(Duration::from_secs(21540)));
    assert_eq!(from_secs("1.5"), Err(()));
}

#[test]
fn from_secs_option_distinguishes_absent_from_malformed() {
    assert_eq!(from_secs_option(None), Ok(None));
    assert_eq!(from_secs_option(Some("120")), Ok(Some(Duration::from_secs(120))));
    assert_eq!(from_secs_option(Some("2h")), Err(()));
}

#[test]
fn media_type_is_validated_and_canonicalized() {
    assert_eq!(option_from_str(None), Ok(None));
    assert_eq!(option_from_str(Some("video/mp4")), Ok(Some("video/mp4".to_string())));
    // The parser lowercases ASCII: the canonical text differs from the
    // input, so a pass-through would fail here.
    assert_eq!(option_from_str(Some("VIDEO/MP4")), Ok(Some("video/mp4".to_string())));
    assert_eq!(
        option_from_str(Some("audio/mp4; codecs=\"mp4a.40.2\"")),
        Ok(Some("audio/mp4; codecs=\"mp4a.40.2\"".to_string())),
    );
    assert_eq!(option_from_str(Some("")), Err(()));
    assert_eq!(option_from_str(Some("mp4")), Err(()));
    assert_eq!(option_from_str(Some("not a mime")), Err(()));
}

#[test]
fn media_type_text_writes_back_unchanged() {
    assert_eq!(to_str(&"audio/mp4".to_string()), "audio/mp4");
    assert_eq!(option_to_str(&None), None);
    assert_eq!(option_to_str(&Some("video/webm".to_string())), Some("video/webm".to_string()));
}
