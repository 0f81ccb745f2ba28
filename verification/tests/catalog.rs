use maguro::Duration;
use maguro::Format;
use maguro::InfoResponse;
use maguro::StreamingData;
use maguro::VideoDetails;

fn fmt(itag: u32, quality: &str) -> Format {
    Format::new(
        itag,
        format!("https://host/video/{}", itag),
        Some(640),
        Some(360),
        "video/mp4".to_string(),
        Some(1000),
        quality.to_string(),
        Some(30),
        Some(Duration::from_millis(9500)),
    )
}

fn audio_fmt(itag: u32) -> Format {
    Format::new(
        itag,
        format!("https://host/audio/{}", itag),
        None,
        None,
        "audio/mp4".to_string(),
        None,
        "tiny".to_string(),
        None,
        None,
    )
}

fn details() -> VideoDetails {
    VideoDetails::new(
        "VfWgE7D1pYY".to_string(),
        "title".to_string(),
        "author".to_string(),
        Some(Duration::from_secs(120)),
        31337,
        false,
        false,
    )
}

fn response(progressive: Option<Vec<Format>>, adaptive: Vec<Format>) -> InfoResponse {
    InfoResponse::new(
        StreamingData::new(Duration::from_secs(21540), progressive, adaptive),
        details(),
    )
}

#[test]
fn format_equality_is_itag_only() {
    assert_eq!(fmt(22, "hd720"), fmt(22, "tiny"));
    assert_eq!(fmt(22, "hd720"), audio_fmt(22));
    assert_ne!(fmt(22, "hd720"), fmt(18, "hd720"));
}

#[test]
fn format_ordering_is_by_itag() {
    assert!(fmt(18, "a") < fmt(22, "a"));
    assert!(fmt(22, "a") > audio_fmt(18));
    assert!(fmt(22, "a") <= fmt(22, "z"));
    assert!(fmt(22, "a") >= fmt(22, "z"));
}

#[test]
fn format_getters() {
    let f = fmt(22, "hd720");
    assert!(f.is_video());
    assert!(!audio_fmt(140).is_video());
    assert_eq!(f.itag(), 22);
    assert_eq!(f.size(), Some(1000));
    assert_eq!(f.url(), "https://host/video/22");
}

#[test]
fn formats_sort_ascending() {
    let r = response(Some(vec![fmt(37, "a"), fmt(18, "b"), fmt(22, "c")]), vec![]);
    let sorted = r.formats().expect("progressive formats expected");
    let itags: Vec<u32> = sorted.iter().map(|f| f.itag()).collect();
    assert_eq!(itags, vec![18, 22, 37]);
}

#[test]
fn adaptive_formats_sort_ascending() {
    let r = response(None, vec![audio_fmt(140), fmt(137, "x"), fmt(136, "y")]);
    let itags: Vec<u32> = r.adaptive_formats().iter().map(|f| f.itag()).collect();
    assert_eq!(itags, vec![136, 137, 140]);
}

#[test]
fn all_formats_progressive_before_adaptive() {
    let r = response(
        Some(vec![fmt(22, "hd720"), fmt(18, "medium")]),
        vec![audio_fmt(140), fmt(137, "x"), fmt(136, "y")],
    );
    let all = r.all_formats();
    let itags: Vec<u32> = all.iter().map(|f| f.itag()).collect();
    assert_eq!(itags, vec![18, 22, 136, 137, 140]);
}

#[test]
fn all_formats_without_progressive_list() {
    let r = response(None, vec![fmt(137, "x"), audio_fmt(136)]);
    assert!(r.formats().is_none());
    let itags: Vec<u32> = r.all_formats().iter().map(|f| f.itag()).collect();
    assert_eq!(itags, vec![136, 137]);
}

#[test]
fn details_carry_the_video_id() {
    let r = response(None, vec![]);
    assert_eq!(r.details().id(), "VfWgE7D1pYY");
}

#[test]
fn duration_from_millis_splits_seconds() {
    let d = Duration::from_millis(1500);
    assert_eq!(d.secs, 1);
    assert_eq!(d.subsec_millis, 500);
    let s = Duration::from_secs(7);
    assert_eq!(s.secs, 7);
    assert_eq!(s.subsec_millis, 0);
}
