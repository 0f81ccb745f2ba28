use maguro::AdaptationSet;
use maguro::Addressing;
use maguro::Initialization;
use maguro::Manifest;
use maguro::Period;
use maguro::Representation;
use maguro::ResolutionError;
use maguro::Role;
use maguro::SegmentList;
use maguro::SegmentURL;

fn segment_list(init: &str, media: &[&str]) -> SegmentList {
    SegmentList::new(
        Initialization::new(init.to_string()),
        media.iter().map(|m| SegmentURL::new(m.to_string())).collect(),
    )
}

fn rep(id: &str, addressing: Addressing) -> Representation {
    Representation::new(
        id.to_string(),
        "avc1.4d401e".to_string(),
        800000,
        Some(1280),
        Some(720),
        Some(30),
        None,
        Some("video/mp4".to_string()),
        "http://cdn.example/v".to_string(),
        addressing,
    )
}

fn set(id: Option<u32>, reps: Vec<Representation>) -> AdaptationSet {
    AdaptationSet::new(
        id,
        Some(true),
        None,
        Some("video/mp4".to_string()),
        Some(Role::new("urn:mpeg:dash:role:2011".to_string(), "main".to_string())),
        reps,
    )
}

#[test]
fn streams_flattens_periods_in_document_order() {
    let m = Manifest::new(
        vec![
            Period::new(vec![set(Some(3), vec![]), set(Some(1), vec![]), set(Some(2), vec![])]),
            Period::new(vec![set(None, vec![]), set(Some(0), vec![])]),
        ],
        "static".to_string(),
    );
    let streams = m.streams();
    assert_eq!(streams.len(), 5);
    let ids: Vec<Option<u32>> = streams.iter().map(|a| a.id).collect();
    assert_eq!(ids, vec![Some(3), Some(1), Some(2), None, Some(0)]);
}

#[test]
fn segment_urls_initialization_first_then_media() {
    let r = rep("v720", Addressing::List(segment_list("init.mp4", &["s1.m4s", "s2.m4s", "s3.m4s"])));
    let urls = r.segment_urls().expect("segment list resolves");
    assert_eq!(urls.len(), 4);
    assert_eq!(urls[0], "http://cdn.example/v/init.mp4");
    assert_eq!(urls[1], "http://cdn.example/v/s1.m4s");
    assert_eq!(urls[2], "http://cdn.example/v/s2.m4s");
    assert_eq!(urls[3], "http://cdn.example/v/s3.m4s");
}

#[test]
fn segment_urls_init_only_list_is_valid() {
    let r = rep("v720", Addressing::List(segment_list("init.mp4", &[])));
    let urls = r.segment_urls().expect("segment list resolves");
    assert_eq!(urls, vec!["http://cdn.example/v/init.mp4".to_string()]);
}

#[test]
fn segment_base_fails_to_resolve() {
    let r = rep("v720", Addressing::Base(SegmentURL::new("range.mp4".to_string())));
    assert_eq!(r.segment_urls(), Err(ResolutionError::UnsupportedAddressing));
}

#[test]
fn segment_template_fails_to_resolve() {
    let r = rep("v720", Addressing::Template(SegmentURL::new("$Number$.m4s".to_string())));
    assert_eq!(r.segment_urls(), Err(ResolutionError::UnsupportedAddressing));
}

#[test]
fn adaptation_set_equality_is_id_only() {
    let a = set(Some(4), vec![]);
    let mut b = set(Some(4), vec![]);
    b.mime_type = Some("audio/mp4".to_string());
    b.role = None;
    assert_eq!(a, b);
    assert_ne!(a, set(Some(5), vec![]));
    assert!(set(None, vec![]) < set(Some(0), vec![]));
    assert!(set(Some(1), vec![]) < set(Some(2), vec![]));
}

#[test]
fn representation_equality_is_id_only() {
    let a = rep("v720", Addressing::Base(SegmentURL::new(String::new())));
    let mut b = rep("v720", Addressing::List(segment_list("i.mp4", &["x.m4s"])));
    b.bandwidth = 1;
    b.width = None;
    assert_eq!(a, b);
    assert_ne!(a, rep("v480", Addressing::Base(SegmentURL::new(String::new()))));
}

#[test]
fn representation_ordering_is_by_id() {
    let a = rep("a1", Addressing::Base(SegmentURL::new(String::new())));
    let b = rep("v720", Addressing::Base(SegmentURL::new(String::new())));
    let c = rep("v", Addressing::Base(SegmentURL::new(String::new())));
    assert!(a < b);
    assert!(c < b);
    assert!(b > c);
    assert!(b <= rep("v720", Addressing::Base(SegmentURL::new(String::new()))));
}
