use maguro::AdaptationSet;
use maguro::Addressing;
use maguro::Initialization;
use maguro::Manifest;
use maguro::ParseError;
use maguro::Period;
use maguro::Representation;
use maguro::ResolutionError;
use maguro::Role;
use maguro::SegmentList;
use maguro::SegmentURL;
use maguro::parse_manifest;
use maguro::serialize_manifest;

const SAMPLE: &str = "<MPD type=\"static\" minBufferTime=\"PT1.5S\">\n  <ProgramInformation>\n    <Title>ignored</Title>\n  </ProgramInformation>\n  <Period>\n    <AdaptationSet id=\"1\" mimeType=\"video/mp4\" segmentAlignment=\"true\">\n      <Role schemeIdUri=\"urn:mpeg:dash:role:2011\" value=\"main\"/>\n      <Representation id=\"v720\" codecs=\"avc1.4d401e\" bandwidth=\"800000\" width=\"1280\" height=\"720\" frameRate=\"30\" mimeType=\"video/mp4\">\n        <BaseURL>http://cdn.example/v</BaseURL>\n        <SegmentList duration=\"10\">\n          <Initialization sourceURL=\"init.mp4\"/>\n          <SegmentURL media=\"s1.m4s\"/>\n          <SegmentURL media=\"s2.m4s\"/>\n        </SegmentList>\n      </Representation>\n    </AdaptationSet>\n    <AdaptationSet id=\"2\" mimeType=\"audio/mp4\">\n      <Representation id=\"a1\" codecs=\"mp4a.40.2\" bandwidth=\"128000\" audioSamplingRate=\"44100\">\n        <BaseURL>http://cdn.example/a</BaseURL>\n        <SegmentBase indexRange=\"0-999\"/>\n      </Representation>\n    </AdaptationSet>\n  </Period>\n</MPD>";

#[test]
fn parse_reads_the_modeled_subset_and_skips_the_rest() {
    let m = parse_manifest(SAMPLE).expect("sample manifest parses");
    assert_eq!(m.mpd_type, "static");
    assert_eq!(m.periods.len(), 1);
    let streams = m.streams();
    assert_eq!(streams.len(), 2);
    assert_eq!(streams[0].id, Some(1));
    assert_eq!(streams[0].mime_type.as_deref(), Some("video/mp4"));
    assert_eq!(streams[0].segment_alignment, Some(true));
    let role = streams[0].role.as_ref().expect("role parsed");
    assert_eq!(role.value, "main");
    let v = &streams[0].representations[0];
    assert_eq!(v.id, "v720");
    assert_eq!(v.codecs, "avc1.4d401e");
    assert_eq!(v.bandwidth, 800000);
    assert_eq!(v.width, Some(1280));
    assert_eq!(v.height, Some(720));
    assert_eq!(v.frame_rate, Some(30));
    assert_eq!(v.base_url, "http://cdn.example/v");
    let urls = v.segment_urls().expect("segment list resolves");
    assert_eq!(
        urls,
        vec![
            "http://cdn.example/v/init.mp4".to_string(),
            "http://cdn.example/v/s1.m4s".to_string(),
            "http://cdn.example/v/s2.m4s".to_string(),
        ],
    );
    let a = &streams[1].representations[0];
    assert_eq!(a.audio_sample_rate, Some(44100));
    assert!(a.width.is_none());
    assert_eq!(a.segment_urls(), Err(ResolutionError::UnsupportedAddressing));
}

fn sample_model() -> Manifest {
    let video = Representation::new(
        "v480".to_string(),
        "avc1.4d401e".to_string(),
        400000,
        Some(854),
        Some(480),
        Some(24),
        None,
        Some("video/mp4".to_string()),
        "http://cdn.example/v".to_string(),
        Addressing::List(SegmentList::new(
            Initialization::new("init.mp4".to_string()),
            vec![
                SegmentURL::new("s1.m4s".to_string()),
                SegmentURL::new("s2.m4s".to_string()),
            ],
        )),
    );
    let audio = Representation::new(
        "a1".to_string(),
        "mp4a.40.2".to_string(),
        128000,
        None,
        None,
        None,
        Some(44100),
        Some("audio/mp4".to_string()),
        "http://cdn.example/a".to_string(),
        Addressing::Template(SegmentURL::new("$Number$.m4s".to_string())),
    );
    Manifest::new(
        vec![
            Period::new(vec![
                AdaptationSet::new(
                    Some(1),
                    Some(true),
                    Some(false),
                    Some("video/mp4".to_string()),
                    Some(Role::new("urn:mpeg:dash:role:2011".to_string(), "main".to_string())),
                    vec![video],
                ),
            ]),
            Period::new(vec![
                AdaptationSet::new(Some(2), None, None, Some("audio/mp4".to_string()), None, vec![
                    audio,
                ]),
            ]),
        ],
        "static".to_string(),
    )
}

#[test]
fn serialize_then_parse_round_trips() {
    let original = sample_model();
    let text = serialize_manifest(&original);
    let reparsed = parse_manifest(text.as_str()).expect("serialized manifest parses");
    assert_eq!(reparsed.mpd_type, original.mpd_type);
    assert_eq!(reparsed.periods.len(), original.periods.len());
    let a = original.streams();
    let b = reparsed.streams();
    assert_eq!(a.len(), b.len());
    for (x, y) in a.iter().zip(b.iter()) {
        // Identifier equality: adaptation sets and representations
        // compare by their identifiers.
        assert_eq!(x, y);
        assert_eq!(x.representations.len(), y.representations.len());
        for (rx, ry) in x.representations.iter().zip(y.representations.iter()) {
            assert_eq!(rx, ry);
        }
    }
}

#[test]
fn missing_representation_id_is_reported() {
    let doc = "<MPD type=\"static\"><Period><AdaptationSet id=\"1\"><Representation codecs=\"c\" bandwidth=\"1\"><BaseURL>b</BaseURL><SegmentList><Initialization sourceURL=\"i\"/></SegmentList></Representation></AdaptationSet></Period></MPD>";
    let e = parse_manifest(doc).expect_err("missing id rejected");
    assert_eq!(e, ParseError::MissingField("Representation.id".to_string()));
}

#[test]
fn malformed_bandwidth_is_reported_with_its_text() {
    let doc = "<MPD type=\"static\"><Period><AdaptationSet><Representation id=\"r\" codecs=\"c\" bandwidth=\"fast\"><BaseURL>b</BaseURL><SegmentBase/></Representation></AdaptationSet></Period></MPD>";
    let e = parse_manifest(doc).expect_err("malformed bandwidth rejected");
    assert_eq!(
        e,
        ParseError::InvalidValue("Representation.bandwidth".to_string(), "fast".to_string()),
    );
}

#[test]
fn missing_mpd_type_is_reported() {
    let e = parse_manifest("<MPD></MPD>").expect_err("missing type rejected");
    assert_eq!(e, ParseError::MissingField("MPD.type".to_string()));
}

#[test]
fn missing_addressing_scheme_is_reported() {
    let doc = "<MPD type=\"static\"><Period><AdaptationSet><Representation id=\"r\" codecs=\"c\" bandwidth=\"5\"><BaseURL>b</BaseURL></Representation></AdaptationSet></Period></MPD>";
    let e = parse_manifest(doc).expect_err("missing scheme rejected");
    assert_eq!(e, ParseError::MissingField("Representation.SegmentList".to_string()));
}

#[test]
fn malformed_alignment_flag_is_reported() {
    let doc = "<MPD type=\"static\"><Period><AdaptationSet segmentAlignment=\"yes\"></AdaptationSet></Period></MPD>";
    let e = parse_manifest(doc).expect_err("bad flag rejected");
    assert_eq!(
        e,
        ParseError::InvalidValue("AdaptationSet.segmentAlignment".to_string(), "yes".to_string()),
    );
    assert_eq!(e.path(), "AdaptationSet.segmentAlignment");
}

#[test]
fn unparseable_document_is_a_missing_root() {
    let e = parse_manifest("not markup at all").expect_err("garbage rejected");
    assert_eq!(e, ParseError::MissingField("MPD".to_string()));
    let e2 = parse_manifest("<MPD type=\"static\"><Period></MPD>").expect_err(
        "unbalanced markup rejected",
    );
    assert_eq!(e2, ParseError::MissingField("MPD".to_string()));
}

#[test]
fn wrong_root_element_is_reported() {
    let e = parse_manifest("<SMIL type=\"static\"></SMIL>").expect_err("wrong root rejected");
    assert_eq!(e, ParseError::MissingField("MPD".to_string()));
}

#[test]
fn empty_manifest_is_valid_but_unusable() {
    let m = parse_manifest("<MPD type=\"static\"></MPD>").expect("empty manifest parses");
    assert!(m.periods.is_empty());
    assert!(m.streams().is_empty());
}
