//! The manifest's text form: interpreting a parsed element tree as a
//! [`Manifest`] and laying a manifest out as an element tree. Unknown
//! elements and attributes are ignored, never rejected; required fields
//! that are absent or malformed surface as [`ParseError`]s naming the
//! offending path.

use vstd::prelude::*;

use crate::dash::AdaptationSet;
use crate::dash::AdaptationSetView;
use crate::dash::Addressing;
use crate::dash::AddressingView;
use crate::dash::Initialization;
use crate::dash::Manifest;
use crate::dash::ManifestView;
use crate::dash::Period;
use crate::dash::PeriodView;
use crate::dash::Representation;
use crate::dash::RepresentationView;
use crate::dash::Role;
use crate::dash::RoleView;
use crate::dash::SegmentList;
use crate::dash::SegmentListView;
use crate::dash::SegmentURL;
use crate::dash::adaptation_set_views;
use crate::dash::period_views;
use crate::dash::representation_views;
use crate::dash::segment_url_views;
use crate::errors::ParseError;
use crate::meta::first_value;
use crate::wire::all_digits;
use crate::wire::dec_val;
use crate::xml::Node;
use crate::xml::NodeView;
use crate::xml::attr_views;
use crate::xml::lemma_node_views;
use crate::xml::node_views;
use crate::xml::str_eq;

verus! {

/// The mathematical content of a [`ParseError`].
pub ghost enum ParseErrorView {
    /// A required field or element was absent, at this path.
    MissingField(Seq<char>),
    /// A field held text that does not parse, at this path, with the
    /// raw text.
    InvalidValue(Seq<char>, Seq<char>),
}

impl View for ParseError {
    type V = ParseErrorView;

    open spec fn view(&self) -> ParseErrorView {
        match self {
            ParseError::MissingField(p) => ParseErrorView::MissingField(p@),
            ParseError::InvalidValue(p, raw) => ParseErrorView::InvalidValue(p@, raw@),
        }
    }
}

/// The value of an element's attribute: the first attribute of that
/// name, when one exists.
pub open spec fn attr_of(n: NodeView, name: Seq<char>) -> Option<Seq<char>> {
    first_value(n.attrs, name)
}

/// The first child element of the given name, when one exists.
pub open spec fn child_named(cs: Seq<NodeView>, name: Seq<char>) -> Option<NodeView>
    decreases cs.len(),
{
    if cs.len() == 0 {
        None
    } else if cs[0].name == name {
        Some(cs[0])
    } else {
        child_named(cs.drop_first(), name)
    }
}

/// Every child element of the given name, in document order.
pub open spec fn children_named(cs: Seq<NodeView>, name: Seq<char>) -> Seq<NodeView>
    decreases cs.len(),
{
    if cs.len() == 0 {
        Seq::empty()
    } else if cs[0].name == name {
        seq![cs[0]] + children_named(cs.drop_first(), name)
    } else {
        children_named(cs.drop_first(), name)
    }
}

/// The character of one decimal digit.
pub open spec fn digit_char(d: int) -> char {
    if d == 0 {
        '0'
    } else if d == 1 {
        '1'
    } else if d == 2 {
        '2'
    } else if d == 3 {
        '3'
    } else if d == 4 {
        '4'
    } else if d == 5 {
        '5'
    } else if d == 6 {
        '6'
    } else if d == 7 {
        '7'
    } else if d == 8 {
        '8'
    } else {
        '9'
    }
}

/// The decimal digit string of a non-negative number, most significant
/// digit first, without leading zeros (a lone zero for zero).
pub open spec fn dec_str(v: int) -> Seq<char>
    decreases v,
{
    if v < 10 {
        seq![digit_char(v)]
    } else {
        dec_str(v / 10) + seq![digit_char(v % 10)]
    }
}

/// A rendered number is all digits.
pub proof fn lemma_dec_str_digits(v: int)
    requires
        v >= 0,
    ensures
        dec_str(v).len() > 0,
        all_digits(dec_str(v)),
    decreases v,
{
    if v < 10 {
        assert(crate::wire::is_digit(digit_char(v)));
        assert(all_digits(seq![digit_char(v)]));
    } else {
        assert(v / 10 >= 0 && v / 10 < v) by (nonlinear_arith)
            requires
                v >= 10,
        ;
        lemma_dec_str_digits(v / 10);
        assert(0 <= v % 10 < 10);
        assert(crate::wire::is_digit(digit_char(v % 10)));
        assert(all_digits(dec_str(v / 10) + seq![digit_char(v % 10)]));
    }
}

/// Rendering then reading a number gives the number back.
pub proof fn lemma_dec_str_val(v: int)
    requires
        v >= 0,
    ensures
        dec_val(dec_str(v)) == v,
    decreases v,
{
    if v < 10 {
        let s = seq![digit_char(v)];
        assert(s.drop_last() =~= Seq::<char>::empty());
        assert(dec_val(Seq::<char>::empty()) == 0);
        assert(s.last() == digit_char(v));
        assert(dec_val(s) == dec_val(s.drop_last()) * 10 + crate::wire::digit_val(s.last()));
        assert(crate::wire::digit_val(digit_char(v)) == v);
    } else {
        assert(v / 10 >= 0 && v / 10 < v && v / 10 * 10 + v % 10 == v) by (nonlinear_arith)
            requires
                v >= 10,
        ;
        lemma_dec_str_val(v / 10);
        let s = dec_str(v / 10) + seq![digit_char(v % 10)];
        assert(s.drop_last() =~= dec_str(v / 10));
        assert(s.last() == digit_char(v % 10));
        assert(0 <= v % 10 < 10);
        assert(crate::wire::digit_val(digit_char(v % 10)) == v % 10);
        assert(dec_val(s) == dec_val(dec_str(v / 10)) * 10 + (v % 10));
    }
}

/// A present attribute that must be a number that fits in a `u32`:
/// absent stays absent, a fitting digit string becomes its value, and
/// anything else is an invalid value at the given path.
pub open spec fn opt_u32_attr(n: NodeView, name: Seq<char>, path: Seq<char>) -> Result<
    Option<u32>,
    ParseErrorView,
> {
    match attr_of(n, name) {
        None => Ok(None),
        Some(raw) => if raw.len() > 0 && all_digits(raw) && dec_val(raw) <= u32::MAX {
            Ok(Some(dec_val(raw) as u32))
        } else {
            Err(ParseErrorView::InvalidValue(path, raw))
        },
    }
}

/// A present attribute that must be `true` or `false`: absent stays
/// absent, anything else is an invalid value at the given path.
pub open spec fn opt_bool_attr(n: NodeView, name: Seq<char>, path: Seq<char>) -> Result<
    Option<bool>,
    ParseErrorView,
> {
    match attr_of(n, name) {
        None => Ok(None),
        Some(raw) => if raw == "true"@ {
            Ok(Some(true))
        } else if raw == "false"@ {
            Ok(Some(false))
        } else {
            Err(ParseErrorView::InvalidValue(path, raw))
        },
    }
}

/// The media references of a run of `SegmentURL` elements, each of
/// which must carry a `media` attribute.
pub open spec fn interpret_segment_urls(cs: Seq<NodeView>, acc: Seq<Seq<char>>) -> Result<
    Seq<Seq<char>>,
    ParseErrorView,
>
    decreases cs.len(),
{
    if cs.len() == 0 {
        Ok(acc)
    } else {
        match attr_of(cs[0], "media"@) {
            None => Err(ParseErrorView::MissingField("SegmentURL.media"@)),
            Some(m) => interpret_segment_urls(cs.drop_first(), acc.push(m)),
        }
    }
}

/// The segment list an element of that name denotes: its required
/// `Initialization` child's `sourceURL`, then its `SegmentURL`
/// children's `media` references in document order.
pub open spec fn interpret_segment_list(n: NodeView) -> Result<SegmentListView, ParseErrorView> {
    match child_named(n.children, "Initialization"@) {
        None => Err(ParseErrorView::MissingField("SegmentList.Initialization"@)),
        Some(init) => match attr_of(init, "sourceURL"@) {
            None => Err(ParseErrorView::MissingField("Initialization.sourceURL"@)),
            Some(src) => match interpret_segment_urls(
                children_named(n.children, "SegmentURL"@),
                Seq::empty(),
            ) {
                Err(e) => Err(e),
                Ok(urls) => Ok(SegmentListView { initialization: src, segment_urls: urls }),
            },
        },
    }
}

/// The single addressing scheme of a representation element:
/// `SegmentList` when present, else `SegmentBase`, else
/// `SegmentTemplate`; none of the three is a missing field.
pub open spec fn interpret_addressing(n: NodeView) -> Result<AddressingView, ParseErrorView> {
    match child_named(n.children, "SegmentList"@) {
        Some(sl) => match interpret_segment_list(sl) {
            Err(e) => Err(e),
            Ok(v) => Ok(AddressingView::List(v)),
        },
        None => match child_named(n.children, "SegmentBase"@) {
            Some(sb) => Ok(
                AddressingView::Base(
                    match attr_of(sb, "media"@) {
                        Some(m) => m,
                        None => Seq::empty(),
                    },
                ),
            ),
            None => match child_named(n.children, "SegmentTemplate"@) {
                Some(st) => Ok(
                    AddressingView::Template(
                        match attr_of(st, "media"@) {
                            Some(m) => m,
                            None => Seq::empty(),
                        },
                    ),
                ),
                None => Err(ParseErrorView::MissingField("Representation.SegmentList"@)),
            },
        },
    }
}

/// The representation an element of that name denotes.
pub open spec fn interpret_representation(n: NodeView) -> Result<
    RepresentationView,
    ParseErrorView,
> {
    match attr_of(n, "id"@) {
        None => Err(ParseErrorView::MissingField("Representation.id"@)),
        Some(id) => match attr_of(n, "codecs"@) {
            None => Err(ParseErrorView::MissingField("Representation.codecs"@)),
            Some(codecs) => match attr_of(n, "bandwidth"@) {
                None => Err(ParseErrorView::MissingField("Representation.bandwidth"@)),
                Some(bw) => if !(bw.len() > 0 && all_digits(bw) && dec_val(bw) <= u32::MAX) {
                    Err(ParseErrorView::InvalidValue("Representation.bandwidth"@, bw))
                } else {
                    match opt_u32_attr(n, "width"@, "Representation.width"@) {
                        Err(e) => Err(e),
                        Ok(width) => match opt_u32_attr(n, "height"@, "Representation.height"@) {
                            Err(e) => Err(e),
                            Ok(height) => match opt_u32_attr(
                                n,
                                "frameRate"@,
                                "Representation.frameRate"@,
                            ) {
                                Err(e) => Err(e),
                                Ok(frame_rate) => match opt_u32_attr(
                                    n,
                                    "audioSamplingRate"@,
                                    "Representation.audioSamplingRate"@,
                                ) {
                                    Err(e) => Err(e),
                                    Ok(audio_sample_rate) => match child_named(
                                        n.children,
                                        "BaseURL"@,
                                    ) {
                                        None => Err(
                                            ParseErrorView::MissingField("Representation.BaseURL"@),
                                        ),
                                        Some(base) => match interpret_addressing(n) {
                                            Err(e) => Err(e),
                                            Ok(addressing) => Ok(
                                                RepresentationView {
                                                    id,
                                                    codecs,
                                                    bandwidth: dec_val(bw) as u32,
                                                    width,
                                                    height,
                                                    frame_rate,
                                                    audio_sample_rate,
                                                    mime_type: attr_of(n, "mimeType"@),
                                                    base_url: base.text,
                                                    addressing,
                                                },
                                            ),
                                        },
                                    },
                                },
                            },
                        },
                    }
                },
            },
        },
    }
}

/// The representations of a run of `Representation` elements.
pub open spec fn interpret_representations(cs: Seq<NodeView>, acc: Seq<RepresentationView>) -> Result<
    Seq<RepresentationView>,
    ParseErrorView,
>
    decreases cs.len(),
{
    if cs.len() == 0 {
        Ok(acc)
    } else {
        match interpret_representation(cs[0]) {
            Err(e) => Err(e),
            Ok(r) => interpret_representations(cs.drop_first(), acc.push(r)),
        }
    }
}

/// The role a `Role` element denotes: its required scheme URI and value.
pub open spec fn interpret_role(n: NodeView) -> Result<RoleView, ParseErrorView> {
    match attr_of(n, "schemeIdUri"@) {
        None => Err(ParseErrorView::MissingField("Role.schemeIdUri"@)),
        Some(scheme) => match attr_of(n, "value"@) {
            None => Err(ParseErrorView::MissingField("Role.value"@)),
            Some(value) => Ok(RoleView { scheme_id_uri: scheme, value }),
        },
    }
}

/// The adaptation set an element of that name denotes.
pub open spec fn interpret_adaptation_set(n: NodeView) -> Result<
    AdaptationSetView,
    ParseErrorView,
> {
    match opt_u32_attr(n, "id"@, "AdaptationSet.id"@) {
        Err(e) => Err(e),
        Ok(id) => match opt_bool_attr(n, "segmentAlignment"@, "AdaptationSet.segmentAlignment"@) {
            Err(e) => Err(e),
            Ok(segment_alignment) => match opt_bool_attr(
                n,
                "subsegmentAlignment"@,
                "AdaptationSet.subsegmentAlignment"@,
            ) {
                Err(e) => Err(e),
                Ok(subsegment_alignment) => {
                    let role = match child_named(n.children, "Role"@) {
                        None => Ok(None),
                        Some(rn) => match interpret_role(rn) {
                            Err(e) => Err(e),
                            Ok(r) => Ok(Some(r)),
                        },
                    };
                    match role {
                        Err(e) => Err(e),
                        Ok(role) => match interpret_representations(
                            children_named(n.children, "Representation"@),
                            Seq::empty(),
                        ) {
                            Err(e) => Err(e),
                            Ok(representations) => Ok(
                                AdaptationSetView {
                                    id,
                                    segment_alignment,
                                    subsegment_alignment,
                                    mime_type: attr_of(n, "mimeType"@),
                                    role,
                                    representations,
                                },
                            ),
                        },
                    }
                },
            },
        },
    }
}

/// The adaptation sets of a run of `AdaptationSet` elements.
pub open spec fn interpret_adaptation_sets(cs: Seq<NodeView>, acc: Seq<AdaptationSetView>) -> Result<
    Seq<AdaptationSetView>,
    ParseErrorView,
>
    decreases cs.len(),
{
    if cs.len() == 0 {
        Ok(acc)
    } else {
        match interpret_adaptation_set(cs[0]) {
            Err(e) => Err(e),
            Ok(a) => interpret_adaptation_sets(cs.drop_first(), acc.push(a)),
        }
    }
}

/// The period a `Period` element denotes: its `AdaptationSet` children
/// in document order.
pub open spec fn interpret_period(n: NodeView) -> Result<PeriodView, ParseErrorView> {
    match interpret_adaptation_sets(children_named(n.children, "AdaptationSet"@), Seq::empty()) {
        Err(e) => Err(e),
        Ok(adaptation_sets) => Ok(PeriodView { adaptation_sets }),
    }
}

/// The periods of a run of `Period` elements.
pub open spec fn interpret_periods(cs: Seq<NodeView>, acc: Seq<PeriodView>) -> Result<
    Seq<PeriodView>,
    ParseErrorView,
>
    decreases cs.len(),
{
    if cs.len() == 0 {
        Ok(acc)
    } else {
        match interpret_period(cs[0]) {
            Err(e) => Err(e),
            Ok(p) => interpret_periods(cs.drop_first(), acc.push(p)),
        }
    }
}

/// The manifest a root element denotes: the root must be `MPD` with a
/// `type` attribute, and holds its `Period` children in document order.
pub open spec fn interpret_manifest(n: NodeView) -> Result<ManifestView, ParseErrorView> {
    if n.name != "MPD"@ {
        Err(ParseErrorView::MissingField("MPD"@))
    } else {
        match attr_of(n, "type"@) {
            None => Err(ParseErrorView::MissingField("MPD.type"@)),
            Some(t) => match interpret_periods(children_named(n.children, "Period"@), Seq::empty()) {
                Err(e) => Err(e),
                Ok(periods) => Ok(ManifestView { periods, mpd_type: t }),
            },
        }
    }
}

/// What parsing a whole document yields: the root element read as
/// markup, then interpreted; a document without a well-formed root is
/// a missing `MPD`.
pub open spec fn parse_manifest_spec(s: Seq<char>) -> Result<ManifestView, ParseErrorView> {
    match crate::xml::read_document(s) {
        None => Err(ParseErrorView::MissingField("MPD"@)),
        Some(root) => interpret_manifest(root),
    }
}

/// Looks an element's attribute up by name, as [`attr_of`] says.
fn attr_of_x(n: &Node, name: &str) -> (r: Option<String>)
    ensures
        r matches Some(v) ==> attr_of(n@, name@) == Some(v@),
        r is None <==> attr_of(n@, name@) is None,
{
    let ghost av = attr_views(n.attrs@);
    let mut i: usize = 0;
    proof {
        assert(av.subrange(0, av.len() as int) =~= av);
    }
    while i < n.attrs.len()
        invariant
            i <= n.attrs.len(),
            av == attr_views(n.attrs@),
            first_value(av, name@) == first_value(av.subrange(i as int, av.len() as int), name@),
        decreases n.attrs.len() - i,
    {
        let ghost rem = av.subrange(i as int, av.len() as int);
        if str_eq(n.attrs[i].0.as_str(), name) {
            proof {
                assert(rem[0] == av[i as int]);
                assert(first_value(rem, name@) == Some(av[i as int].1));
            }
            return Some(n.attrs[i].1.clone());
        }
        proof {
            assert(rem[0] == av[i as int]);
            assert(rem.drop_first() =~= av.subrange(i + 1, av.len() as int));
        }
        i += 1;
    }
    proof {
        assert(av.subrange(av.len() as int, av.len() as int) =~= Seq::<
            (Seq<char>, Seq<char>),
        >::empty());
    }
    None
}

/// Finds the first child element of the given name, as [`child_named`]
/// says.
fn find_child<'a>(cs: &'a Vec<Node>, name: &str) -> (r: Option<&'a Node>)
    ensures
        r matches Some(c) ==> child_named(node_views(cs@), name@) == Some(c@),
        r is None <==> child_named(node_views(cs@), name@) is None,
{
    let ghost cv = node_views(cs@);
    let mut i: usize = 0;
    proof {
        lemma_node_views(cs@);
        assert(cv.subrange(0, cv.len() as int) =~= cv);
    }
    while i < cs.len()
        invariant
            i <= cs.len(),
            cv == node_views(cs@),
            cv.len() == cs@.len(),
            child_named(cv, name@) == child_named(cv.subrange(i as int, cv.len() as int), name@),
        decreases cs.len() - i,
    {
        let ghost rem = cv.subrange(i as int, cv.len() as int);
        proof {
            lemma_node_views(cs@);
            assert(rem[0] == cv[i as int]);
            assert(cv[i as int] == cs@[i as int]@);
        }
        if str_eq(cs[i].name.as_str(), name) {
            return Some(&cs[i]);
        }
        proof {
            assert(rem.drop_first() =~= cv.subrange(i + 1, cv.len() as int));
        }
        i += 1;
    }
    proof {
        assert(cv.subrange(cv.len() as int, cv.len() as int) =~= Seq::<NodeView>::empty());
    }
    None
}

/// Reads an optional numeric attribute, as [`opt_u32_attr`] says.
fn opt_u32_attr_x(n: &Node, name: &str, path: &str) -> (r: Result<Option<u32>, ParseError>)
    ensures
        r matches Ok(v) ==> opt_u32_attr(n@, name@, path@) == Ok::<Option<u32>, ParseErrorView>(v),
        r matches Err(e) ==> opt_u32_attr(n@, name@, path@) == Err::<Option<u32>, ParseErrorView>(
            e@,
        ),
{
    match attr_of_x(n, name) {
        None => Ok(None),
        Some(raw) => match crate::wire::from_str(raw.as_str()) {
            Some(v) => Ok(Some(v)),
            None => Err(ParseError::InvalidValue(path.to_owned(), raw)),
        },
    }
}

/// Reads an optional boolean attribute, as [`opt_bool_attr`] says.
fn opt_bool_attr_x(n: &Node, name: &str, path: &str) -> (r: Result<Option<bool>, ParseError>)
    ensures
        r matches Ok(v) ==> opt_bool_attr(n@, name@, path@) == Ok::<Option<bool>, ParseErrorView>(
            v,
        ),
        r matches Err(e) ==> opt_bool_attr(n@, name@, path@) == Err::<Option<bool>, ParseErrorView>(
            e@,
        ),
{
    match attr_of_x(n, name) {
        None => Ok(None),
        Some(raw) => {
            if str_eq(raw.as_str(), "true") {
                Ok(Some(true))
            } else if str_eq(raw.as_str(), "false") {
                Ok(Some(false))
            } else {
                Err(ParseError::InvalidValue(path.to_owned(), raw))
            }
        },
    }
}

/// Interprets a `SegmentList` element, as [`interpret_segment_list`]
/// says.
#[verifier::loop_isolation(false)]
fn interpret_segment_list_x(n: &Node) -> (r: Result<SegmentList, ParseError>)
    ensures
        r matches Ok(sl) ==> interpret_segment_list(n@) == Ok::<SegmentListView, ParseErrorView>(
            sl@,
        ),
        r matches Err(e) ==> interpret_segment_list(n@) == Err::<SegmentListView, ParseErrorView>(
            e@,
        ),
{
    let init = match find_child(&n.children, "Initialization") {
        None => {
            return Err(ParseError::MissingField("SegmentList.Initialization".to_owned()));
        },
        Some(c) => c,
    };
    let src = match attr_of_x(init, "sourceURL") {
        None => {
            return Err(ParseError::MissingField("Initialization.sourceURL".to_owned()));
        },
        Some(s) => s,
    };
    let ghost cv = node_views(n.children@);
    let ghost filtered = children_named(cv, "SegmentURL"@);
    let mut urls: Vec<SegmentURL> = Vec::new();
    let mut i: usize = 0;
    proof {
        lemma_node_views(n.children@);
        assert(cv.subrange(0, cv.len() as int) =~= cv);
        assert(segment_url_views(urls@) =~= Seq::<Seq<char>>::empty());
    }
    while i < n.children.len()
        invariant
            i <= n.children.len(),
            cv == node_views(n.children@),
            cv.len() == n.children@.len(),
            interpret_segment_urls(children_named(cv, "SegmentURL"@), Seq::empty())
                == interpret_segment_urls(
                children_named(cv.subrange(i as int, cv.len() as int), "SegmentURL"@),
                segment_url_views(urls@),
            ),
        decreases n.children.len() - i,
    {
        let ghost rem = cv.subrange(i as int, cv.len() as int);
        proof {
            lemma_node_views(n.children@);
            assert(rem[0] == cv[i as int]);
            assert(cv[i as int] == n.children@[i as int]@);
            assert(rem.drop_first() =~= cv.subrange(i + 1, cv.len() as int));
            if rem[0].name == "SegmentURL"@ {
                let fr = children_named(rem, "SegmentURL"@);
                assert(fr == seq![rem[0]] + children_named(rem.drop_first(), "SegmentURL"@));
                assert(fr[0] == rem[0]);
                assert(fr.drop_first() =~= children_named(
                    cv.subrange(i + 1, cv.len() as int),
                    "SegmentURL"@,
                ));
            } else {
                assert(children_named(rem, "SegmentURL"@) == children_named(
                    cv.subrange(i + 1, cv.len() as int),
                    "SegmentURL"@,
                ));
            }
        }
        if str_eq(n.children[i].name.as_str(), "SegmentURL") {
            match attr_of_x(&n.children[i], "media") {
                None => {
                    proof {
                        let fr = children_named(rem, "SegmentURL"@);
                        assert(attr_of(fr[0], "media"@) is None);
                        assert(interpret_segment_urls(fr, segment_url_views(urls@)) == Err::<
                            Seq<Seq<char>>,
                            ParseErrorView,
                        >(ParseErrorView::MissingField("SegmentURL.media"@)));
                    }
                    return Err(ParseError::MissingField("SegmentURL.media".to_owned()));
                },
                Some(m) => {
                    let ghost upre = segment_url_views(urls@);
                    let ghost mv = m@;
                    urls.push(SegmentURL::new(m));
                    proof {
                        assert(segment_url_views(urls@) =~= upre.push(mv));
                    }
                },
            }
        }
        i += 1;
    }
    proof {
        assert(cv.subrange(cv.len() as int, cv.len() as int) =~= Seq::<NodeView>::empty());
        assert(children_named(Seq::<NodeView>::empty(), "SegmentURL"@) =~= Seq::<NodeView>::empty());
    }
    Ok(SegmentList::new(Initialization::new(src), urls))
}

/// Interprets a representation's addressing scheme, as
/// [`interpret_addressing`] says.
fn interpret_addressing_x(n: &Node) -> (r: Result<Addressing, ParseError>)
    ensures
        r matches Ok(a) ==> interpret_addressing(n@) == Ok::<AddressingView, ParseErrorView>(a@),
        r matches Err(e) ==> interpret_addressing(n@) == Err::<AddressingView, ParseErrorView>(e@),
{
    match find_child(&n.children, "SegmentList") {
        Some(sl) => match interpret_segment_list_x(sl) {
            Ok(v) => Ok(Addressing::List(v)),
            Err(e) => Err(e),
        },
        None => match find_child(&n.children, "SegmentBase") {
            Some(sb) => {
                let media = match attr_of_x(sb, "media") {
                    Some(m) => m,
                    None => String::new(),
                };
                Ok(Addressing::Base(SegmentURL::new(media)))
            },
            None => match find_child(&n.children, "SegmentTemplate") {
                Some(st) => {
                    let media = match attr_of_x(st, "media") {
                        Some(m) => m,
                        None => String::new(),
                    };
                    Ok(Addressing::Template(SegmentURL::new(media)))
                },
                None => Err(ParseError::MissingField("Representation.SegmentList".to_owned())),
            },
        },
    }
}

/// Interprets a `Representation` element, as
/// [`interpret_representation`] says.
fn interpret_representation_x(n: &Node) -> (r: Result<Representation, ParseError>)
    ensures
        r matches Ok(rep) ==> interpret_representation(n@) == Ok::<
            RepresentationView,
            ParseErrorView,
        >(rep@),
        r matches Err(e) ==> interpret_representation(n@) == Err::<
            RepresentationView,
            ParseErrorView,
        >(e@),
{
    let id = match attr_of_x(n, "id") {
        None => {
            return Err(ParseError::MissingField("Representation.id".to_owned()));
        },
        Some(v) => v,
    };
    let codecs = match attr_of_x(n, "codecs") {
        None => {
            return Err(ParseError::MissingField("Representation.codecs".to_owned()));
        },
        Some(v) => v,
    };
    let bw_raw = match attr_of_x(n, "bandwidth") {
        None => {
            return Err(ParseError::MissingField("Representation.bandwidth".to_owned()));
        },
        Some(v) => v,
    };
    let bandwidth = match crate::wire::from_str(bw_raw.as_str()) {
        None => {
            return Err(ParseError::InvalidValue("Representation.bandwidth".to_owned(), bw_raw));
        },
        Some(v) => v,
    };
    let width = match opt_u32_attr_x(n, "width", "Representation.width") {
        Ok(v) => v,
        Err(e) => {
            return Err(e);
        },
    };
    let height = match opt_u32_attr_x(n, "height", "Representation.height") {
        Ok(v) => v,
        Err(e) => {
            return Err(e);
        },
    };
    let frame_rate = match opt_u32_attr_x(n, "frameRate", "Representation.frameRate") {
        Ok(v) => v,
        Err(e) => {
            return Err(e);
        },
    };
    let audio_sample_rate = match opt_u32_attr_x(
        n,
        "audioSamplingRate",
        "Representation.audioSamplingRate",
    ) {
        Ok(v) => v,
        Err(e) => {
            return Err(e);
        },
    };
    let base_url = match find_child(&n.children, "BaseURL") {
        None => {
            return Err(ParseError::MissingField("Representation.BaseURL".to_owned()));
        },
        Some(b) => b.text.clone(),
    };
    let addressing = match interpret_addressing_x(n) {
        Ok(a) => a,
        Err(e) => {
            return Err(e);
        },
    };
    let mime_type = attr_of_x(n, "mimeType");
    Ok(
        Representation {
            id,
            codecs,
            bandwidth,
            width,
            height,
            frame_rate,
            audio_sample_rate,
            mime_type,
            base_url,
            addressing,
        },
    )
}

/// Interprets a `Role` element, as [`interpret_role`] says.
fn interpret_role_x(n: &Node) -> (r: Result<Role, ParseError>)
    ensures
        r matches Ok(role) ==> interpret_role(n@) == Ok::<RoleView, ParseErrorView>(role@),
        r matches Err(e) ==> interpret_role(n@) == Err::<RoleView, ParseErrorView>(e@),
{
    let scheme = match attr_of_x(n, "schemeIdUri") {
        None => {
            return Err(ParseError::MissingField("Role.schemeIdUri".to_owned()));
        },
        Some(v) => v,
    };
    let value = match attr_of_x(n, "value") {
        None => {
            return Err(ParseError::MissingField("Role.value".to_owned()));
        },
        Some(v) => v,
    };
    Ok(Role { scheme_id_uri: scheme, value })
}

/// Interprets an `AdaptationSet` element, as
/// [`interpret_adaptation_set`] says.
#[verifier::loop_isolation(false)]
fn interpret_adaptation_set_x(n: &Node) -> (r: Result<AdaptationSet, ParseError>)
    ensures
        r matches Ok(a) ==> interpret_adaptation_set(n@) == Ok::<AdaptationSetView, ParseErrorView>(
            a@,
        ),
        r matches Err(e) ==> interpret_adaptation_set(n@) == Err::<
            AdaptationSetView,
            ParseErrorView,
        >(e@),
{
    let id = match opt_u32_attr_x(n, "id", "AdaptationSet.id") {
        Ok(v) => v,
        Err(e) => {
            return Err(e);
        },
    };
    let segment_alignment = match opt_bool_attr_x(
        n,
        "segmentAlignment",
        "AdaptationSet.segmentAlignment",
    ) {
        Ok(v) => v,
        Err(e) => {
            return Err(e);
        },
    };
    let subsegment_alignment = match opt_bool_attr_x(
        n,
        "subsegmentAlignment",
        "AdaptationSet.subsegmentAlignment",
    ) {
        Ok(v) => v,
        Err(e) => {
            return Err(e);
        },
    };
    let role = match find_child(&n.children, "Role") {
        None => None,
        Some(rn) => match interpret_role_x(rn) {
            Ok(r) => Some(r),
            Err(e) => {
                return Err(e);
            },
        },
    };
    let ghost cv = node_views(n.children@);
    let mut reps: Vec<Representation> = Vec::new();
    let mut i: usize = 0;
    proof {
        lemma_node_views(n.children@);
        assert(cv.subrange(0, cv.len() as int) =~= cv);
        assert(representation_views(reps@) =~= Seq::<RepresentationView>::empty());
    }
    while i < n.children.len()
        invariant
            i <= n.children.len(),
            cv == node_views(n.children@),
            cv.len() == n.children@.len(),
            interpret_representations(children_named(cv, "Representation"@), Seq::empty())
                == interpret_representations(
                children_named(cv.subrange(i as int, cv.len() as int), "Representation"@),
                representation_views(reps@),
            ),
        decreases n.children.len() - i,
    {
        let ghost rem = cv.subrange(i as int, cv.len() as int);
        proof {
            lemma_node_views(n.children@);
            assert(rem[0] == cv[i as int]);
            assert(cv[i as int] == n.children@[i as int]@);
            assert(rem.drop_first() =~= cv.subrange(i + 1, cv.len() as int));
            if rem[0].name == "Representation"@ {
                let fr = children_named(rem, "Representation"@);
                assert(fr == seq![rem[0]] + children_named(rem.drop_first(), "Representation"@));
                assert(fr[0] == rem[0]);
                assert(fr.drop_first() =~= children_named(
                    cv.subrange(i + 1, cv.len() as int),
                    "Representation"@,
                ));
            } else {
                assert(children_named(rem, "Representation"@) == children_named(
                    cv.subrange(i + 1, cv.len() as int),
                    "Representation"@,
                ));
            }
        }
        if str_eq(n.children[i].name.as_str(), "Representation") {
            match interpret_representation_x(&n.children[i]) {
                Ok(rep) => {
                    let ghost rpre = representation_views(reps@);
                    let ghost rv = rep@;
                    reps.push(rep);
                    proof {
                        assert(representation_views(reps@) =~= rpre.push(rv));
                    }
                },
                Err(e) => {
                    proof {
                        let fr = children_named(rem, "Representation"@);
                        assert(interpret_representation(fr[0]) == Err::<
                            RepresentationView,
                            ParseErrorView,
                        >(e@));
                        assert(interpret_representations(fr, representation_views(reps@)) == Err::<
                            Seq<RepresentationView>,
                            ParseErrorView,
                        >(e@));
                    }
                    return Err(e);
                },
            }
        }
        i += 1;
    }
    proof {
        assert(cv.subrange(cv.len() as int, cv.len() as int) =~= Seq::<NodeView>::empty());
        assert(children_named(Seq::<NodeView>::empty(), "Representation"@) =~= Seq::<
            NodeView,
        >::empty());
    }
    let mime_type = attr_of_x(n, "mimeType");
    Ok(
        AdaptationSet {
            id,
            segment_alignment,
            subsegment_alignment,
            mime_type,
            role,
            representations: reps,
        },
    )
}

/// Interprets a `Period` element, as [`interpret_period`] says.
#[verifier::loop_isolation(false)]
fn interpret_period_x(n: &Node) -> (r: Result<Period, ParseError>)
    ensures
        r matches Ok(p) ==> interpret_period(n@) == Ok::<PeriodView, ParseErrorView>(p@),
        r matches Err(e) ==> interpret_period(n@) == Err::<PeriodView, ParseErrorView>(e@),
{
    let ghost cv = node_views(n.children@);
    let mut sets: Vec<AdaptationSet> = Vec::new();
    let mut i: usize = 0;
    proof {
        lemma_node_views(n.children@);
        assert(cv.subrange(0, cv.len() as int) =~= cv);
        assert(adaptation_set_views(sets@) =~= Seq::<AdaptationSetView>::empty());
    }
    while i < n.children.len()
        invariant
            i <= n.children.len(),
            cv == node_views(n.children@),
            cv.len() == n.children@.len(),
            interpret_adaptation_sets(children_named(cv, "AdaptationSet"@), Seq::empty())
                == interpret_adaptation_sets(
                children_named(cv.subrange(i as int, cv.len() as int), "AdaptationSet"@),
                adaptation_set_views(sets@),
            ),
        decreases n.children.len() - i,
    {
        let ghost rem = cv.subrange(i as int, cv.len() as int);
        proof {
            lemma_node_views(n.children@);
            assert(rem[0] == cv[i as int]);
            assert(cv[i as int] == n.children@[i as int]@);
            assert(rem.drop_first() =~= cv.subrange(i + 1, cv.len() as int));
            if rem[0].name == "AdaptationSet"@ {
                let fr = children_named(rem, "AdaptationSet"@);
                assert(fr == seq![rem[0]] + children_named(rem.drop_first(), "AdaptationSet"@));
                assert(fr[0] == rem[0]);
                assert(fr.drop_first() =~= children_named(
                    cv.subrange(i + 1, cv.len() as int),
                    "AdaptationSet"@,
                ));
            } else {
                assert(children_named(rem, "AdaptationSet"@) == children_named(
                    cv.subrange(i + 1, cv.len() as int),
                    "AdaptationSet"@,
                ));
            }
        }
        if str_eq(n.children[i].name.as_str(), "AdaptationSet") {
            match interpret_adaptation_set_x(&n.children[i]) {
                Ok(a) => {
                    let ghost apre = adaptation_set_views(sets@);
                    let ghost av = a@;
                    sets.push(a);
                    proof {
                        assert(adaptation_set_views(sets@) =~= apre.push(av));
                    }
                },
                Err(e) => {
                    proof {
                        let fr = children_named(rem, "AdaptationSet"@);
                        assert(interpret_adaptation_set(fr[0]) == Err::<
                            AdaptationSetView,
                            ParseErrorView,
                        >(e@));
                        assert(interpret_adaptation_sets(fr, adaptation_set_views(sets@)) == Err::<
                            Seq<AdaptationSetView>,
                            ParseErrorView,
                        >(e@));
                    }
                    return Err(e);
                },
            }
        }
        i += 1;
    }
    proof {
        assert(cv.subrange(cv.len() as int, cv.len() as int) =~= Seq::<NodeView>::empty());
        assert(children_named(Seq::<NodeView>::empty(), "AdaptationSet"@) =~= Seq::<
            NodeView,
        >::empty());
    }
    Ok(Period { adaptation_sets: sets })
}

/// Interprets a root element, as [`interpret_manifest`] says.
#[verifier::loop_isolation(false)]
fn interpret_manifest_x(n: &Node) -> (r: Result<Manifest, ParseError>)
    ensures
        r matches Ok(m) ==> interpret_manifest(n@) == Ok::<ManifestView, ParseErrorView>(m@),
        r matches Err(e) ==> interpret_manifest(n@) == Err::<ManifestView, ParseErrorView>(e@),
{
    if !str_eq(n.name.as_str(), "MPD") {
        return Err(ParseError::MissingField("MPD".to_owned()));
    }
    let mpd_type = match attr_of_x(n, "type") {
        None => {
            return Err(ParseError::MissingField("MPD.type".to_owned()));
        },
        Some(t) => t,
    };
    let ghost cv = node_views(n.children@);
    let mut periods: Vec<Period> = Vec::new();
    let mut i: usize = 0;
    proof {
        lemma_node_views(n.children@);
        assert(cv.subrange(0, cv.len() as int) =~= cv);
        assert(period_views(periods@) =~= Seq::<PeriodView>::empty());
    }
    while i < n.children.len()
        invariant
            i <= n.children.len(),
            cv == node_views(n.children@),
            cv.len() == n.children@.len(),
            interpret_periods(children_named(cv, "Period"@), Seq::empty()) == interpret_periods(
                children_named(cv.subrange(i as int, cv.len() as int), "Period"@),
                period_views(periods@),
            ),
        decreases n.children.len() - i,
    {
        let ghost rem = cv.subrange(i as int, cv.len() as int);
        proof {
            lemma_node_views(n.children@);
            assert(rem[0] == cv[i as int]);
            assert(cv[i as int] == n.children@[i as int]@);
            assert(rem.drop_first() =~= cv.subrange(i + 1, cv.len() as int));
            if rem[0].name == "Period"@ {
                let fr = children_named(rem, "Period"@);
                assert(fr == seq![rem[0]] + children_named(rem.drop_first(), "Period"@));
                assert(fr[0] == rem[0]);
                assert(fr.drop_first() =~= children_named(
                    cv.subrange(i + 1, cv.len() as int),
                    "Period"@,
                ));
            } else {
                assert(children_named(rem, "Period"@) == children_named(
                    cv.subrange(i + 1, cv.len() as int),
                    "Period"@,
                ));
            }
        }
        if str_eq(n.children[i].name.as_str(), "Period") {
            match interpret_period_x(&n.children[i]) {
                Ok(p) => {
                    let ghost ppre = period_views(periods@);
                    let ghost pv = p@;
                    periods.push(p);
                    proof {
                        assert(period_views(periods@) =~= ppre.push(pv));
                    }
                },
                Err(e) => {
                    proof {
                        let fr = children_named(rem, "Period"@);
                        assert(interpret_period(fr[0]) == Err::<PeriodView, ParseErrorView>(e@));
                        assert(interpret_periods(fr, period_views(periods@)) == Err::<
                            Seq<PeriodView>,
                            ParseErrorView,
                        >(e@));
                    }
                    return Err(e);
                },
            }
        }
        i += 1;
    }
    proof {
        assert(cv.subrange(cv.len() as int, cv.len() as int) =~= Seq::<NodeView>::empty());
        assert(children_named(Seq::<NodeView>::empty(), "Period"@) =~= Seq::<NodeView>::empty());
    }
    Ok(Manifest { periods, mpd_type })
}

/// Parses a manifest document, exactly as [`parse_manifest_spec`] says:
/// the root element is read as markup and interpreted; required fields
/// that are absent or malformed surface as [`ParseError`]s, and unknown
/// elements and attributes are ignored.
pub fn parse_manifest(s: &str) -> (r: Result<Manifest, ParseError>)
    ensures
        r matches Ok(m) ==> parse_manifest_spec(s@) == Ok::<ManifestView, ParseErrorView>(m@),
        r matches Err(e) ==> parse_manifest_spec(s@) == Err::<ManifestView, ParseErrorView>(e@),
{
    match crate::xml::parse_document(s) {
        None => Err(ParseError::MissingField("MPD".to_owned())),
        Some(root) => interpret_manifest_x(&root),
    }
}

/// The textual form of a boolean attribute value.
pub open spec fn bool_str(b: bool) -> Seq<char> {
    if b {
        "true"@
    } else {
        "false"@
    }
}

/// The attribute list of an optional numeric attribute: one pair when
/// present, nothing when absent.
pub open spec fn opt_num_attr(name: Seq<char>, v: Option<u32>) -> Seq<(Seq<char>, Seq<char>)> {
    match v {
        Some(x) => seq![(name, dec_str(x as int))],
        None => Seq::empty(),
    }
}

/// The attribute list of an optional boolean attribute.
pub open spec fn opt_flag_attr(name: Seq<char>, v: Option<bool>) -> Seq<(Seq<char>, Seq<char>)> {
    match v {
        Some(b) => seq![(name, bool_str(b))],
        None => Seq::empty(),
    }
}

/// The attribute list of an optional textual attribute.
pub open spec fn opt_text_attr(name: Seq<char>, v: Option<Seq<char>>) -> Seq<
    (Seq<char>, Seq<char>),
> {
    match v {
        Some(t) => seq![(name, t)],
        None => Seq::empty(),
    }
}

/// The element of one media segment reference.
pub open spec fn build_segment_url(m: Seq<char>) -> NodeView {
    NodeView {
        name: "SegmentURL"@,
        attrs: seq![("media"@, m)],
        children: Seq::empty(),
        text: Seq::empty(),
    }
}

/// The elements of a sequence of media segment references, in order.
pub open spec fn build_segment_urls(ms: Seq<Seq<char>>) -> Seq<NodeView> {
    ms.map_values(|m: Seq<char>| build_segment_url(m))
}

/// The element of a segment list: its initialization reference first,
/// then its media references in order.
pub open spec fn build_segment_list(sl: SegmentListView) -> NodeView {
    NodeView {
        name: "SegmentList"@,
        attrs: Seq::empty(),
        children: seq![
            NodeView {
                name: "Initialization"@,
                attrs: seq![("sourceURL"@, sl.initialization)],
                children: Seq::empty(),
                text: Seq::empty(),
            },
        ] + build_segment_urls(sl.segment_urls),
        text: Seq::empty(),
    }
}

/// The element of a representation's addressing scheme.
pub open spec fn build_addressing(a: AddressingView) -> NodeView {
    match a {
        AddressingView::List(sl) => build_segment_list(sl),
        AddressingView::Base(m) => NodeView {
            name: "SegmentBase"@,
            attrs: seq![("media"@, m)],
            children: Seq::empty(),
            text: Seq::empty(),
        },
        AddressingView::Template(m) => NodeView {
            name: "SegmentTemplate"@,
            attrs: seq![("media"@, m)],
            children: Seq::empty(),
            text: Seq::empty(),
        },
    }
}

/// The element of a representation: its attributes, its base URL as a
/// text child, and its addressing scheme.
pub open spec fn build_representation(r: RepresentationView) -> NodeView {
    NodeView {
        name: "Representation"@,
        attrs: seq![
            ("id"@, r.id),
            ("codecs"@, r.codecs),
            ("bandwidth"@, dec_str(r.bandwidth as int)),
        ] + opt_num_attr("width"@, r.width) + opt_num_attr("height"@, r.height) + opt_num_attr(
            "frameRate"@,
            r.frame_rate,
        ) + opt_num_attr("audioSamplingRate"@, r.audio_sample_rate) + opt_text_attr(
            "mimeType"@,
            r.mime_type,
        ),
        children: seq![
            NodeView {
                name: "BaseURL"@,
                attrs: Seq::empty(),
                children: Seq::empty(),
                text: r.base_url,
            },
        ] + seq![build_addressing(r.addressing)],
        text: Seq::empty(),
    }
}

/// The elements of a sequence of representations, in order.
pub open spec fn build_representations(rs: Seq<RepresentationView>) -> Seq<NodeView> {
    rs.map_values(|r: RepresentationView| build_representation(r))
}

/// The element of a role tag.
pub open spec fn build_role(r: RoleView) -> NodeView {
    NodeView {
        name: "Role"@,
        attrs: seq![("schemeIdUri"@, r.scheme_id_uri), ("value"@, r.value)],
        children: Seq::empty(),
        text: Seq::empty(),
    }
}

/// The element of an adaptation set: its attributes, its role tag when
/// present, then its representations in order.
pub open spec fn build_adaptation_set(a: AdaptationSetView) -> NodeView {
    NodeView {
        name: "AdaptationSet"@,
        attrs: opt_num_attr("id"@, a.id) + opt_flag_attr("segmentAlignment"@, a.segment_alignment)
            + opt_flag_attr("subsegmentAlignment"@, a.subsegment_alignment) + opt_text_attr(
            "mimeType"@,
            a.mime_type,
        ),
        children: (match a.role {
            Some(r) => seq![build_role(r)],
            None => Seq::empty(),
        }) + build_representations(a.representations),
        text: Seq::empty(),
    }
}

/// The elements of a sequence of adaptation sets, in order.
pub open spec fn build_adaptation_sets(s: Seq<AdaptationSetView>) -> Seq<NodeView> {
    s.map_values(|a: AdaptationSetView| build_adaptation_set(a))
}

/// The element of a period: its adaptation sets in order.
pub open spec fn build_period(p: PeriodView) -> NodeView {
    NodeView {
        name: "Period"@,
        attrs: Seq::empty(),
        children: build_adaptation_sets(p.adaptation_sets),
        text: Seq::empty(),
    }
}

/// The elements of a sequence of periods, in order.
pub open spec fn build_periods(ps: Seq<PeriodView>) -> Seq<NodeView> {
    ps.map_values(|p: PeriodView| build_period(p))
}

/// The root element of a manifest: `MPD` with its presentation type
/// and its periods in order.
pub open spec fn build_manifest(m: ManifestView) -> NodeView {
    NodeView {
        name: "MPD"@,
        attrs: seq![("type"@, m.mpd_type)],
        children: build_periods(m.periods),
        text: Seq::empty(),
    }
}

/// One decimal digit as text.
fn digit_str(d: u32) -> (r: &'static str)
    requires
        d < 10,
    ensures
        r@ == seq![digit_char(d as int)],
{
    let r = match d {
        0u32 => "0",
        1u32 => "1",
        2u32 => "2",
        3u32 => "3",
        4u32 => "4",
        5u32 => "5",
        6u32 => "6",
        7u32 => "7",
        8u32 => "8",
        _ => "9",
    };
    proof {
        reveal_strlit("0");
        reveal_strlit("1");
        reveal_strlit("2");
        reveal_strlit("3");
        reveal_strlit("4");
        reveal_strlit("5");
        reveal_strlit("6");
        reveal_strlit("7");
        reveal_strlit("8");
        reveal_strlit("9");
        assert(r@ =~= seq![digit_char(d as int)]);
    }
    r
}

/// Lays a number out as decimal text, as [`dec_str`] says.
fn u32_to_dec(v: u32) -> (r: String)
    ensures
        r@ == dec_str(v as int),
    decreases v,
{
    if v < 10 {
        digit_str(v).to_owned()
    } else {
        let mut s = u32_to_dec(v / 10);
        s.append(digit_str(v % 10));
        s
    }
}

/// Builds the element of one representation, as
/// [`build_representation`] says.
fn build_representation_x(r: &Representation) -> (n: Node)
    ensures
        n@ == build_representation(r@),
{
    let mut attrs: Vec<(String, String)> = Vec::new();
    attrs.push(("id".to_owned(), r.id.clone()));
    attrs.push(("codecs".to_owned(), r.codecs.clone()));
    attrs.push(("bandwidth".to_owned(), u32_to_dec(r.bandwidth)));
    match r.width {
        Some(w) => attrs.push(("width".to_owned(), u32_to_dec(w))),
        None => {},
    }
    match r.height {
        Some(h) => attrs.push(("height".to_owned(), u32_to_dec(h))),
        None => {},
    }
    match r.frame_rate {
        Some(f) => attrs.push(("frameRate".to_owned(), u32_to_dec(f))),
        None => {},
    }
    match r.audio_sample_rate {
        Some(a) => attrs.push(("audioSamplingRate".to_owned(), u32_to_dec(a))),
        None => {},
    }
    match &r.mime_type {
        Some(m) => attrs.push(("mimeType".to_owned(), m.clone())),
        None => {},
    }
    proof {
        assert(attr_views(attrs@) =~= build_representation(r@).attrs);
    }
    let base = Node {
        name: "BaseURL".to_owned(),
        attrs: Vec::new(),
        children: Vec::new(),
        text: r.base_url.clone(),
    };
    let addressing = build_addressing_x(&r.addressing);
    let mut children: Vec<Node> = Vec::new();
    children.push(base);
    children.push(addressing);
    proof {
        lemma_node_views(children@);
        assert(node_views(children@)[0] =~~= build_representation(r@).children[0]);
        assert(node_views(children@)[1] == build_representation(r@).children[1]);
        assert(node_views(children@) =~= build_representation(r@).children);
    }
    Node { name: "Representation".to_owned(), attrs, children, text: String::new() }
}

/// Builds the element of an addressing scheme, as [`build_addressing`]
/// says.
fn build_addressing_x(a: &Addressing) -> (n: Node)
    ensures
        n@ == build_addressing(a@),
{
    match a {
        Addressing::List(sl) => {
            let init = Node {
                name: "Initialization".to_owned(),
                attrs: vec![("sourceURL".to_owned(), sl.initialization.source_url.clone())],
                children: Vec::new(),
                text: String::new(),
            };
            let mut children: Vec<Node> = Vec::new();
            children.push(init);
            let mut i: usize = 0;
            proof {
                lemma_node_views(children@);
                assert(node_views(children@) =~~= seq![
                    NodeView {
                        name: "Initialization"@,
                        attrs: seq![("sourceURL"@, sl@.initialization)],
                        children: Seq::empty(),
                        text: Seq::empty(),
                    },
                ] + build_segment_urls(sl@.segment_urls.subrange(0, 0)));
            }
            while i < sl.segment_urls.len()
                invariant
                    i <= sl.segment_urls.len(),
                    sl@.segment_urls.len() == sl.segment_urls@.len(),
                    node_views(children@) == seq![
                        NodeView {
                            name: "Initialization"@,
                            attrs: seq![("sourceURL"@, sl@.initialization)],
                            children: Seq::empty(),
                            text: Seq::empty(),
                        },
                    ] + build_segment_urls(sl@.segment_urls.subrange(0, i as int)),
                decreases sl.segment_urls.len() - i,
            {
                let su = Node {
                    name: "SegmentURL".to_owned(),
                    attrs: vec![("media".to_owned(), sl.segment_urls[i].media.clone())],
                    children: Vec::new(),
                    text: String::new(),
                };
                let ghost pre = children@;
                let ghost suv = su@;
                children.push(su);
                proof {
                    crate::xml::lemma_node_views_push(pre, children@[pre.len() as int]);
                    assert(suv =~~= build_segment_url(sl@.segment_urls[i as int]));
                    assert(build_segment_urls(sl@.segment_urls.subrange(0, i + 1))
                        =~= build_segment_urls(sl@.segment_urls.subrange(0, i as int)).push(
                        build_segment_url(sl@.segment_urls[i as int]),
                    ));
                    assert(node_views(children@) =~= seq![
                        NodeView {
                            name: "Initialization"@,
                            attrs: seq![("sourceURL"@, sl@.initialization)],
                            children: Seq::empty(),
                            text: Seq::empty(),
                        },
                    ] + build_segment_urls(sl@.segment_urls.subrange(0, i + 1)));
                }
                i += 1;
            }
            proof {
                assert(sl@.segment_urls.subrange(0, sl@.segment_urls.len() as int)
                    =~= sl@.segment_urls);
            }
            let n = Node {
                name: "SegmentList".to_owned(),
                attrs: Vec::new(),
                children,
                text: String::new(),
            };
            proof {
                assert(n@ =~~= build_addressing(a@));
            }
            n
        },
        Addressing::Base(u) => {
            let n = Node {
                name: "SegmentBase".to_owned(),
                attrs: vec![("media".to_owned(), u.media.clone())],
                children: Vec::new(),
                text: String::new(),
            };
            proof {
                assert(n@ =~~= build_addressing(a@));
            }
            n
        },
        Addressing::Template(u) => {
            let n = Node {
                name: "SegmentTemplate".to_owned(),
                attrs: vec![("media".to_owned(), u.media.clone())],
                children: Vec::new(),
                text: String::new(),
            };
            proof {
                assert(n@ =~~= build_addressing(a@));
            }
            n
        },
    }
}

/// Builds the element of an adaptation set, as [`build_adaptation_set`]
/// says.
fn build_adaptation_set_x(a: &AdaptationSet) -> (n: Node)
    ensures
        n@ == build_adaptation_set(a@),
{
    let mut attrs: Vec<(String, String)> = Vec::new();
    match a.id {
        Some(v) => attrs.push(("id".to_owned(), u32_to_dec(v))),
        None => {},
    }
    match a.segment_alignment {
        Some(b) => attrs.push(
            ("segmentAlignment".to_owned(), if b {
                "true".to_owned()
            } else {
                "false".to_owned()
            }),
        ),
        None => {},
    }
    match a.subsegment_alignment {
        Some(b) => attrs.push(
            ("subsegmentAlignment".to_owned(), if b {
                "true".to_owned()
            } else {
                "false".to_owned()
            }),
        ),
        None => {},
    }
    match &a.mime_type {
        Some(m) => attrs.push(("mimeType".to_owned(), m.clone())),
        None => {},
    }
    proof {
        assert(attr_views(attrs@) =~= build_adaptation_set(a@).attrs);
    }
    let mut children: Vec<Node> = Vec::new();
    match &a.role {
        Some(r) => {
            children.push(
                Node {
                    name: "Role".to_owned(),
                    attrs: vec![
                        ("schemeIdUri".to_owned(), r.scheme_id_uri.clone()),
                        ("value".to_owned(), r.value.clone()),
                    ],
                    children: Vec::new(),
                    text: String::new(),
                },
            );
        },
        None => {},
    }
    let ghost head = node_views(children@);
    let mut i: usize = 0;
    proof {
        lemma_node_views(children@);
        assert(head =~~= (match a@.role {
            Some(r) => seq![build_role(r)],
            None => Seq::<NodeView>::empty(),
        }));
        assert(node_views(children@) =~= head + build_representations(
            a@.representations.subrange(0, 0),
        ));
    }
    while i < a.representations.len()
        invariant
            i <= a.representations.len(),
            a@.representations.len() == a.representations@.len(),
            node_views(children@) == head + build_representations(
                a@.representations.subrange(0, i as int),
            ),
            head == (match a@.role {
                Some(r) => seq![build_role(r)],
                None => Seq::<NodeView>::empty(),
            }),
        decreases a.representations.len() - i,
    {
        let rn = build_representation_x(&a.representations[i]);
        let ghost pre = children@;
        let ghost rnv = rn@;
        children.push(rn);
        proof {
            crate::xml::lemma_node_views_push(pre, children@[pre.len() as int]);
            assert(rnv == build_representation(a@.representations[i as int]));
            assert(build_representations(a@.representations.subrange(0, i + 1))
                =~= build_representations(a@.representations.subrange(0, i as int)).push(
                build_representation(a@.representations[i as int]),
            ));
            assert(node_views(children@) =~= head + build_representations(
                a@.representations.subrange(0, i + 1),
            ));
        }
        i += 1;
    }
    proof {
        assert(a@.representations.subrange(0, a@.representations.len() as int)
            =~= a@.representations);
    }
    Node { name: "AdaptationSet".to_owned(), attrs, children, text: String::new() }
}

/// Builds the element of a period, as [`build_period`] says.
fn build_period_x(p: &Period) -> (n: Node)
    ensures
        n@ == build_period(p@),
{
    let mut children: Vec<Node> = Vec::new();
    let mut i: usize = 0;
    proof {
        lemma_node_views(children@);
        assert(node_views(children@) =~= build_adaptation_sets(
            p@.adaptation_sets.subrange(0, 0),
        ));
    }
    while i < p.adaptation_sets.len()
        invariant
            i <= p.adaptation_sets.len(),
            p@.adaptation_sets.len() == p.adaptation_sets@.len(),
            node_views(children@) == build_adaptation_sets(p@.adaptation_sets.subrange(0, i as int)),
        decreases p.adaptation_sets.len() - i,
    {
        let an = build_adaptation_set_x(&p.adaptation_sets[i]);
        let ghost pre = children@;
        let ghost anv = an@;
        children.push(an);
        proof {
            crate::xml::lemma_node_views_push(pre, children@[pre.len() as int]);
            assert(anv == build_adaptation_set(p@.adaptation_sets[i as int]));
            assert(build_adaptation_sets(p@.adaptation_sets.subrange(0, i + 1))
                =~= build_adaptation_sets(p@.adaptation_sets.subrange(0, i as int)).push(
                build_adaptation_set(p@.adaptation_sets[i as int]),
            ));
            assert(node_views(children@) =~= build_adaptation_sets(
                p@.adaptation_sets.subrange(0, i + 1),
            ));
        }
        i += 1;
    }
    proof {
        assert(p@.adaptation_sets.subrange(0, p@.adaptation_sets.len() as int)
            =~= p@.adaptation_sets);
    }
    Node { name: "Period".to_owned(), attrs: Vec::new(), children, text: String::new() }
}

/// Builds the root element of a manifest, as [`build_manifest`] says.
pub fn build_manifest_x(m: &Manifest) -> (n: Node)
    ensures
        n@ == build_manifest(m@),
{
    let mut children: Vec<Node> = Vec::new();
    let mut i: usize = 0;
    proof {
        lemma_node_views(children@);
        assert(node_views(children@) =~= build_periods(m@.periods.subrange(0, 0)));
    }
    while i < m.periods.len()
        invariant
            i <= m.periods.len(),
            m@.periods.len() == m.periods@.len(),
            node_views(children@) == build_periods(m@.periods.subrange(0, i as int)),
        decreases m.periods.len() - i,
    {
        let pn = build_period_x(&m.periods[i]);
        let ghost pre = children@;
        let ghost pnv = pn@;
        children.push(pn);
        proof {
            crate::xml::lemma_node_views_push(pre, children@[pre.len() as int]);
            assert(pnv == build_period(m@.periods[i as int]));
            assert(build_periods(m@.periods.subrange(0, i + 1)) =~= build_periods(
                m@.periods.subrange(0, i as int),
            ).push(build_period(m@.periods[i as int])));
            assert(node_views(children@) =~= build_periods(m@.periods.subrange(0, i + 1)));
        }
        i += 1;
    }
    proof {
        assert(m@.periods.subrange(0, m@.periods.len() as int) =~= m@.periods);
    }
    let n = Node {
        name: "MPD".to_owned(),
        attrs: vec![("type".to_owned(), m.mpd_type.clone())],
        children,
        text: String::new(),
    };
    proof {
        assert(n@.attrs =~= build_manifest(m@).attrs);
    }
    n
}

/// Lays a manifest out as a document: its element tree as markup text.
pub fn serialize_manifest(m: &Manifest) -> (r: String)
    ensures
        r@ == crate::xml::write_node(build_manifest(m@)),
{
    let root = build_manifest_x(m);
    crate::xml::render_node(&root)
}

/// The names of the schema's elements and attributes are pairwise
/// distinct wherever one is looked up beside another.
#[verifier::rlimit(50)]
proof fn lemma_schema_names()
    ensures
        "Initialization"@ != "SegmentURL"@,
        "BaseURL"@ != "SegmentList"@,
        "BaseURL"@ != "SegmentBase"@,
        "BaseURL"@ != "SegmentTemplate"@,
        "SegmentBase"@ != "SegmentList"@,
        "SegmentTemplate"@ != "SegmentList"@,
        "SegmentTemplate"@ != "SegmentBase"@,
        "Representation"@ != "Role"@,
        "id"@ != "codecs"@,
        "id"@ != "bandwidth"@,
        "id"@ != "width"@,
        "id"@ != "height"@,
        "id"@ != "frameRate"@,
        "id"@ != "audioSamplingRate"@,
        "id"@ != "mimeType"@,
        "codecs"@ != "bandwidth"@,
        "codecs"@ != "width"@,
        "codecs"@ != "height"@,
        "codecs"@ != "frameRate"@,
        "codecs"@ != "audioSamplingRate"@,
        "codecs"@ != "mimeType"@,
        "bandwidth"@ != "width"@,
        "bandwidth"@ != "height"@,
        "bandwidth"@ != "frameRate"@,
        "bandwidth"@ != "audioSamplingRate"@,
        "bandwidth"@ != "mimeType"@,
        "width"@ != "height"@,
        "width"@ != "frameRate"@,
        "width"@ != "audioSamplingRate"@,
        "width"@ != "mimeType"@,
        "height"@ != "frameRate"@,
        "height"@ != "audioSamplingRate"@,
        "height"@ != "mimeType"@,
        "frameRate"@ != "audioSamplingRate"@,
        "frameRate"@ != "mimeType"@,
        "audioSamplingRate"@ != "mimeType"@,
        "id"@ != "segmentAlignment"@,
        "id"@ != "subsegmentAlignment"@,
        "segmentAlignment"@ != "subsegmentAlignment"@,
        "segmentAlignment"@ != "mimeType"@,
        "subsegmentAlignment"@ != "mimeType"@,
        "schemeIdUri"@ != "value"@,
{
    reveal_strlit("Initialization");
    reveal_strlit("SegmentURL");
    reveal_strlit("BaseURL");
    reveal_strlit("SegmentList");
    reveal_strlit("SegmentBase");
    reveal_strlit("SegmentTemplate");
    reveal_strlit("Representation");
    reveal_strlit("Role");
    reveal_strlit("id");
    reveal_strlit("codecs");
    reveal_strlit("bandwidth");
    reveal_strlit("width");
    reveal_strlit("height");
    reveal_strlit("frameRate");
    reveal_strlit("audioSamplingRate");
    reveal_strlit("mimeType");
    reveal_strlit("segmentAlignment");
    reveal_strlit("subsegmentAlignment");
    reveal_strlit("schemeIdUri");
    reveal_strlit("value");
    assert("Initialization"@.len() == 14);
    assert("SegmentURL"@.len() == 10);
    assert("BaseURL"@.len() == 7);
    assert("SegmentList"@.len() == 11);
    assert("SegmentBase"@.len() == 11);
    assert("SegmentTemplate"@.len() == 15);
    assert("Representation"@.len() == 14);
    assert("Role"@.len() == 4);
    assert("id"@.len() == 2);
    assert("codecs"@.len() == 6);
    assert("bandwidth"@.len() == 9);
    assert("width"@.len() == 5);
    assert("height"@.len() == 6);
    assert("frameRate"@.len() == 9);
    assert("audioSamplingRate"@.len() == 17);
    assert("mimeType"@.len() == 8);
    assert("segmentAlignment"@.len() == 16);
    assert("subsegmentAlignment"@.len() == 19);
    assert("schemeIdUri"@.len() == 11);
    assert("value"@.len() == 5);
    assert("SegmentBase"@[7] != "SegmentList"@[7]);
    assert("codecs"@[0] != "height"@[0]);
    assert("bandwidth"@[0] != "frameRate"@[0]);
    assert("Initialization"@[0] != "Representation"@[0]);
}

/// Looking a name up in a run of elements that all carry it gives the
/// whole run back.
proof fn lemma_children_named_uniform(cs: Seq<NodeView>, name: Seq<char>)
    requires
        forall|i: int| 0 <= i < cs.len() ==> (#[trigger] cs[i]).name == name,
    ensures
        children_named(cs, name) == cs,
    decreases cs.len(),
{
    if cs.len() > 0 {
        lemma_children_named_uniform(cs.drop_first(), name);
        assert(children_named(cs, name) =~= cs);
    }
}

/// Looking a name up in a run of elements that never carry it finds
/// nothing.
proof fn lemma_child_named_absent(cs: Seq<NodeView>, name: Seq<char>)
    requires
        forall|i: int| 0 <= i < cs.len() ==> (#[trigger] cs[i]).name != name,
    ensures
        child_named(cs, name) is None,
    decreases cs.len(),
{
    if cs.len() > 0 {
        lemma_child_named_absent(cs.drop_first(), name);
    }
}

/// The first match in a concatenation is the first match of the front,
/// or of the back when the front has none.
proof fn lemma_first_value_append(
    a: Seq<(Seq<char>, Seq<char>)>,
    b: Seq<(Seq<char>, Seq<char>)>,
    key: Seq<char>,
)
    ensures
        first_value(a + b, key) == (match first_value(a, key) {
            Some(v) => Some(v),
            None => first_value(b, key),
        }),
    decreases a.len(),
{
    if a.len() == 0 {
        assert(a + b =~= b);
    } else {
        assert((a + b)[0] == a[0]);
        assert((a + b).drop_first() =~= a.drop_first() + b);
        lemma_first_value_append(a.drop_first(), b, key);
    }
}

/// The first match of a single pair.
proof fn lemma_first_value_single(p: (Seq<char>, Seq<char>), key: Seq<char>)
    ensures
        first_value(seq![p], key) == (if p.0 == key {
            Some(p.1)
        } else {
            None::<Seq<char>>
        }),
{
    assert(seq![p].drop_first() =~= Seq::<(Seq<char>, Seq<char>)>::empty());
    assert(first_value(Seq::<(Seq<char>, Seq<char>)>::empty(), key) is None);
}

/// The first match of a pair followed by more pairs.
proof fn lemma_first_value_cons(
    p: (Seq<char>, Seq<char>),
    rest: Seq<(Seq<char>, Seq<char>)>,
    key: Seq<char>,
)
    ensures
        first_value(seq![p] + rest, key) == (if p.0 == key {
            Some(p.1)
        } else {
            first_value(rest, key)
        }),
{
    assert((seq![p] + rest)[0] == p);
    assert((seq![p] + rest).drop_first() =~= rest);
}

/// What a lookup finds in an optional numeric attribute's list.
proof fn lemma_first_value_opt_num(name: Seq<char>, v: Option<u32>, key: Seq<char>)
    ensures
        key == name ==> first_value(opt_num_attr(name, v), key) == (match v {
            Some(x) => Some(dec_str(x as int)),
            None => None::<Seq<char>>,
        }),
        key != name ==> first_value(opt_num_attr(name, v), key) is None,
{
    match v {
        Some(x) => {
            lemma_first_value_single((name, dec_str(x as int)), key);
        },
        None => {},
    }
}

/// What a lookup finds in an optional boolean attribute's list.
proof fn lemma_first_value_opt_flag(name: Seq<char>, v: Option<bool>, key: Seq<char>)
    ensures
        key == name ==> first_value(opt_flag_attr(name, v), key) == (match v {
            Some(b) => Some(bool_str(b)),
            None => None::<Seq<char>>,
        }),
        key != name ==> first_value(opt_flag_attr(name, v), key) is None,
{
    match v {
        Some(b) => {
            lemma_first_value_single((name, bool_str(b)), key);
        },
        None => {},
    }
}

/// What a lookup finds in an optional textual attribute's list.
proof fn lemma_first_value_opt_text(name: Seq<char>, v: Option<Seq<char>>, key: Seq<char>)
    ensures
        key == name ==> first_value(opt_text_attr(name, v), key) == v,
        key != name ==> first_value(opt_text_attr(name, v), key) is None,
{
    match v {
        Some(t) => {
            lemma_first_value_single((name, t), key);
        },
        None => {},
    }
}

/// What each attribute lookup finds on a built representation element.
pub open spec fn rep_attr_model(r: RepresentationView, key: Seq<char>) -> Option<Seq<char>> {
    if key == "id"@ {
        Some(r.id)
    } else if key == "codecs"@ {
        Some(r.codecs)
    } else if key == "bandwidth"@ {
        Some(dec_str(r.bandwidth as int))
    } else if key == "width"@ {
        match r.width {
            Some(x) => Some(dec_str(x as int)),
            None => None,
        }
    } else if key == "height"@ {
        match r.height {
            Some(x) => Some(dec_str(x as int)),
            None => None,
        }
    } else if key == "frameRate"@ {
        match r.frame_rate {
            Some(x) => Some(dec_str(x as int)),
            None => None,
        }
    } else if key == "audioSamplingRate"@ {
        match r.audio_sample_rate {
            Some(x) => Some(dec_str(x as int)),
            None => None,
        }
    } else if key == "mimeType"@ {
        r.mime_type
    } else {
        None
    }
}

/// A built representation element answers each attribute lookup with
/// the field it was laid out from.
proof fn lemma_rep_attr_key(r: RepresentationView, key: Seq<char>)
    ensures
        attr_of(build_representation(r), key) == rep_attr_model(r, key),
{
    lemma_schema_names();
    let base3: Seq<(Seq<char>, Seq<char>)> = seq![
        ("id"@, r.id),
        ("codecs"@, r.codecs),
        ("bandwidth"@, dec_str(r.bandwidth as int)),
    ];
    let w = opt_num_attr("width"@, r.width);
    let h = opt_num_attr("height"@, r.height);
    let f = opt_num_attr("frameRate"@, r.frame_rate);
    let a = opt_num_attr("audioSamplingRate"@, r.audio_sample_rate);
    let m = opt_text_attr("mimeType"@, r.mime_type);
    let l1 = base3 + w;
    let l2 = l1 + h;
    let l3 = l2 + f;
    let l4 = l3 + a;
    assert(build_representation(r).attrs == l4 + m);
    lemma_first_value_append(l4, m, key);
    lemma_first_value_append(l3, a, key);
    lemma_first_value_append(l2, f, key);
    lemma_first_value_append(l1, h, key);
    lemma_first_value_append(base3, w, key);
    lemma_first_value_opt_num("width"@, r.width, key);
    lemma_first_value_opt_num("height"@, r.height, key);
    lemma_first_value_opt_num("frameRate"@, r.frame_rate, key);
    lemma_first_value_opt_num("audioSamplingRate"@, r.audio_sample_rate, key);
    lemma_first_value_opt_text("mimeType"@, r.mime_type, key);
    assert(base3 =~= seq![("id"@, r.id)] + seq![
        ("codecs"@, r.codecs),
        ("bandwidth"@, dec_str(r.bandwidth as int)),
    ]);
    lemma_first_value_cons(
        ("id"@, r.id),
        seq![("codecs"@, r.codecs), ("bandwidth"@, dec_str(r.bandwidth as int))],
        key,
    );
    assert(seq![("codecs"@, r.codecs), ("bandwidth"@, dec_str(r.bandwidth as int))] =~= seq![
        ("codecs"@, r.codecs),
    ] + seq![("bandwidth"@, dec_str(r.bandwidth as int))]);
    lemma_first_value_cons(
        ("codecs"@, r.codecs),
        seq![("bandwidth"@, dec_str(r.bandwidth as int))],
        key,
    );
    lemma_first_value_single(("bandwidth"@, dec_str(r.bandwidth as int)), key);
}

/// Building then interpreting a run of media references gives the run
/// back, appended to what was already read.
proof fn lemma_segment_urls_round_trip(ms: Seq<Seq<char>>, acc: Seq<Seq<char>>)
    ensures
        interpret_segment_urls(build_segment_urls(ms), acc) == Ok::<Seq<Seq<char>>, ParseErrorView>(
            acc + ms,
        ),
    decreases ms.len(),
{
    let bs = build_segment_urls(ms);
    if ms.len() == 0 {
        assert(bs.len() == 0);
        assert(acc + ms =~= acc);
    } else {
        assert(bs[0] == build_segment_url(ms[0]));
        assert(attr_of(bs[0], "media"@) == Some(ms[0])) by {
            lemma_first_value_single(("media"@, ms[0]), "media"@);
        }
        assert(bs.drop_first() =~= build_segment_urls(ms.drop_first()));
        lemma_segment_urls_round_trip(ms.drop_first(), acc.push(ms[0]));
        assert(acc.push(ms[0]) + ms.drop_first() =~= acc + ms);
    }
}

/// Building then interpreting a segment list gives the list back.
proof fn lemma_segment_list_round_trip(sl: SegmentListView)
    ensures
        interpret_segment_list(build_segment_list(sl)) == Ok::<SegmentListView, ParseErrorView>(sl),
{
    lemma_schema_names();
    let n = build_segment_list(sl);
    let init = NodeView {
        name: "Initialization"@,
        attrs: seq![("sourceURL"@, sl.initialization)],
        children: Seq::empty(),
        text: Seq::empty(),
    };
    assert(n.children[0] == init);
    assert(child_named(n.children, "Initialization"@) == Some(init));
    assert(attr_of(init, "sourceURL"@) == Some(sl.initialization)) by {
        lemma_first_value_single(("sourceURL"@, sl.initialization), "sourceURL"@);
    }
    let bs = build_segment_urls(sl.segment_urls);
    assert(n.children.drop_first() =~= bs);
    assert forall|i: int| 0 <= i < bs.len() implies (#[trigger] bs[i]).name == "SegmentURL"@ by {
        assert(bs[i] == build_segment_url(sl.segment_urls[i]));
    }
    lemma_children_named_uniform(bs, "SegmentURL"@);
    assert(children_named(n.children, "SegmentURL"@) == bs);
    lemma_segment_urls_round_trip(sl.segment_urls, Seq::empty());
    assert(Seq::empty() + sl.segment_urls =~= sl.segment_urls);
    assert(interpret_segment_list(n) == Ok::<SegmentListView, ParseErrorView>(
        SegmentListView { initialization: sl.initialization, segment_urls: sl.segment_urls },
    ));
}

/// The first named child among exactly two elements.
proof fn lemma_child_named_pair(a: NodeView, b: NodeView, key: Seq<char>)
    ensures
        child_named(seq![a, b], key) == (if a.name == key {
            Some(a)
        } else if b.name == key {
            Some(b)
        } else {
            None::<NodeView>
        }),
{
    assert(seq![a, b].drop_first() =~= seq![b]);
    assert(seq![b].drop_first() =~= Seq::<NodeView>::empty());
    assert(child_named(Seq::<NodeView>::empty(), key) is None);
    assert(child_named(seq![b], key) == (if b.name == key {
        Some(b)
    } else {
        None::<NodeView>
    }));
}

/// Building then interpreting a representation's addressing scheme,
/// inside its representation element, gives the scheme back.
proof fn lemma_addressing_round_trip(r: RepresentationView)
    ensures
        interpret_addressing(build_representation(r)) == Ok::<AddressingView, ParseErrorView>(
            r.addressing,
        ),
{
    lemma_schema_names();
    let n = build_representation(r);
    let ad = build_addressing(r.addressing);
    let bu = NodeView {
        name: "BaseURL"@,
        attrs: Seq::empty(),
        children: Seq::empty(),
        text: r.base_url,
    };
    assert(n.children =~= seq![bu, ad]);
    lemma_child_named_pair(bu, ad, "SegmentList"@);
    lemma_child_named_pair(bu, ad, "SegmentBase"@);
    lemma_child_named_pair(bu, ad, "SegmentTemplate"@);
    match r.addressing {
        AddressingView::List(sl) => {
            assert(ad.name == "SegmentList"@);
            assert(child_named(n.children, "SegmentList"@) == Some(ad));
            lemma_segment_list_round_trip(sl);
        },
        AddressingView::Base(m) => {
            assert(ad.name == "SegmentBase"@);
            assert(child_named(n.children, "SegmentList"@) is None);
            assert(child_named(n.children, "SegmentBase"@) == Some(ad));
            assert(attr_of(ad, "media"@) == Some(m)) by {
                lemma_first_value_single(("media"@, m), "media"@);
            }
        },
        AddressingView::Template(m) => {
            assert(ad.name == "SegmentTemplate"@);
            assert(child_named(n.children, "SegmentList"@) is None);
            assert(child_named(n.children, "SegmentBase"@) is None);
            assert(child_named(n.children, "SegmentTemplate"@) == Some(ad));
            assert(attr_of(ad, "media"@) == Some(m)) by {
                lemma_first_value_single(("media"@, m), "media"@);
            }
        },
    }
}

/// Building then interpreting a representation gives it back, field
/// for field.
proof fn lemma_representation_round_trip(r: RepresentationView)
    ensures
        interpret_representation(build_representation(r)) == Ok::<
            RepresentationView,
            ParseErrorView,
        >(r),
{
    lemma_schema_names();
    let n = build_representation(r);
    lemma_rep_attr_key(r, "id"@);
    lemma_rep_attr_key(r, "codecs"@);
    lemma_rep_attr_key(r, "bandwidth"@);
    lemma_rep_attr_key(r, "width"@);
    lemma_rep_attr_key(r, "height"@);
    lemma_rep_attr_key(r, "frameRate"@);
    lemma_rep_attr_key(r, "audioSamplingRate"@);
    lemma_rep_attr_key(r, "mimeType"@);
    lemma_dec_str_digits(r.bandwidth as int);
    lemma_dec_str_val(r.bandwidth as int);
    if r.width is Some {
        lemma_dec_str_digits(r.width->0 as int);
        lemma_dec_str_val(r.width->0 as int);
    }
    if r.height is Some {
        lemma_dec_str_digits(r.height->0 as int);
        lemma_dec_str_val(r.height->0 as int);
    }
    if r.frame_rate is Some {
        lemma_dec_str_digits(r.frame_rate->0 as int);
        lemma_dec_str_val(r.frame_rate->0 as int);
    }
    if r.audio_sample_rate is Some {
        lemma_dec_str_digits(r.audio_sample_rate->0 as int);
        lemma_dec_str_val(r.audio_sample_rate->0 as int);
    }
    assert(child_named(n.children, "BaseURL"@) matches Some(b) && b.text == r.base_url);
    lemma_addressing_round_trip(r);
}

/// Building then interpreting a run of representations gives the run
/// back, appended to what was already read.
proof fn lemma_representations_round_trip(
    rs: Seq<RepresentationView>,
    acc: Seq<RepresentationView>,
)
    ensures
        interpret_representations(build_representations(rs), acc) == Ok::<
            Seq<RepresentationView>,
            ParseErrorView,
        >(acc + rs),
    decreases rs.len(),
{
    let bs = build_representations(rs);
    if rs.len() == 0 {
        assert(bs.len() == 0);
        assert(acc + rs =~= acc);
    } else {
        assert(bs[0] == build_representation(rs[0]));
        lemma_representation_round_trip(rs[0]);
        assert(bs.drop_first() =~= build_representations(rs.drop_first()));
        lemma_representations_round_trip(rs.drop_first(), acc.push(rs[0]));
        assert(acc.push(rs[0]) + rs.drop_first() =~= acc + rs);
    }
}

/// What each attribute lookup finds on a built adaptation-set element.
pub open spec fn set_attr_model(a: AdaptationSetView, key: Seq<char>) -> Option<Seq<char>> {
    if key == "id"@ {
        match a.id {
            Some(x) => Some(dec_str(x as int)),
            None => None,
        }
    } else if key == "segmentAlignment"@ {
        match a.segment_alignment {
            Some(b) => Some(bool_str(b)),
            None => None,
        }
    } else if key == "subsegmentAlignment"@ {
        match a.subsegment_alignment {
            Some(b) => Some(bool_str(b)),
            None => None,
        }
    } else if key == "mimeType"@ {
        a.mime_type
    } else {
        None
    }
}

/// A built adaptation-set element answers each attribute lookup with
/// the field it was laid out from.
proof fn lemma_set_attr_key(a: AdaptationSetView, key: Seq<char>)
    ensures
        attr_of(build_adaptation_set(a), key) == set_attr_model(a, key),
{
    lemma_schema_names();
    let i = opt_num_attr("id"@, a.id);
    let sa = opt_flag_attr("segmentAlignment"@, a.segment_alignment);
    let su = opt_flag_attr("subsegmentAlignment"@, a.subsegment_alignment);
    let m = opt_text_attr("mimeType"@, a.mime_type);
    let l1 = i + sa;
    let l2 = l1 + su;
    assert(build_adaptation_set(a).attrs == l2 + m);
    lemma_first_value_append(l2, m, key);
    lemma_first_value_append(l1, su, key);
    lemma_first_value_append(i, sa, key);
    lemma_first_value_opt_num("id"@, a.id, key);
    lemma_first_value_opt_flag("segmentAlignment"@, a.segment_alignment, key);
    lemma_first_value_opt_flag("subsegmentAlignment"@, a.subsegment_alignment, key);
    lemma_first_value_opt_text("mimeType"@, a.mime_type, key);
}

/// Building then interpreting a role tag gives it back.
proof fn lemma_role_round_trip(r: RoleView)
    ensures
        interpret_role(build_role(r)) == Ok::<RoleView, ParseErrorView>(r),
{
    lemma_schema_names();
    let n = build_role(r);
    assert(n.attrs =~= seq![("schemeIdUri"@, r.scheme_id_uri)] + seq![("value"@, r.value)]);
    lemma_first_value_cons(("schemeIdUri"@, r.scheme_id_uri), seq![("value"@, r.value)], "schemeIdUri"@);
    lemma_first_value_cons(("schemeIdUri"@, r.scheme_id_uri), seq![("value"@, r.value)], "value"@);
    lemma_first_value_single(("value"@, r.value), "value"@);
    assert(attr_of(n, "schemeIdUri"@) == Some(r.scheme_id_uri));
    assert(attr_of(n, "value"@) == Some(r.value));
}

/// Building then interpreting an adaptation set gives it back, field
/// for field.
proof fn lemma_adaptation_set_round_trip(a: AdaptationSetView)
    ensures
        interpret_adaptation_set(build_adaptation_set(a)) == Ok::<
            AdaptationSetView,
            ParseErrorView,
        >(a),
{
    lemma_schema_names();
    let n = build_adaptation_set(a);
    lemma_set_attr_key(a, "id"@);
    lemma_set_attr_key(a, "segmentAlignment"@);
    lemma_set_attr_key(a, "subsegmentAlignment"@);
    lemma_set_attr_key(a, "mimeType"@);
    if a.id is Some {
        lemma_dec_str_digits(a.id->0 as int);
        lemma_dec_str_val(a.id->0 as int);
    }
    reveal_strlit("true");
    reveal_strlit("false");
    assert("true"@.len() == 4);
    assert("false"@.len() == 5);
    assert("true"@ != "false"@);
    assert(bool_str(true) == "true"@ && bool_str(false) == "false"@);
    let brs = build_representations(a.representations);
    assert forall|i: int|
        0 <= i < brs.len() implies (#[trigger] brs[i]).name == "Representation"@ by {
        assert(brs[i] == build_representation(a.representations[i]));
    }
    match a.role {
        Some(r) => {
            assert(n.children[0] == build_role(r));
            assert(child_named(n.children, "Role"@) == Some(build_role(r)));
            lemma_role_round_trip(r);
            assert(n.children.drop_first() =~= brs);
            lemma_children_named_uniform(brs, "Representation"@);
            assert(children_named(n.children, "Representation"@) == brs);
        },
        None => {
            assert(n.children =~= brs);
            lemma_child_named_absent(brs, "Role"@);
            lemma_children_named_uniform(brs, "Representation"@);
            assert(children_named(n.children, "Representation"@) == brs);
        },
    }
    lemma_representations_round_trip(a.representations, Seq::empty());
    assert(Seq::empty() + a.representations =~= a.representations);
}

/// Building then interpreting a run of adaptation sets gives the run
/// back, appended to what was already read.
proof fn lemma_adaptation_sets_round_trip(s: Seq<AdaptationSetView>, acc: Seq<AdaptationSetView>)
    ensures
        interpret_adaptation_sets(build_adaptation_sets(s), acc) == Ok::<
            Seq<AdaptationSetView>,
            ParseErrorView,
        >(acc + s),
    decreases s.len(),
{
    let bs = build_adaptation_sets(s);
    if s.len() == 0 {
        assert(bs.len() == 0);
        assert(acc + s =~= acc);
    } else {
        assert(bs[0] == build_adaptation_set(s[0]));
        lemma_adaptation_set_round_trip(s[0]);
        assert(bs.drop_first() =~= build_adaptation_sets(s.drop_first()));
        lemma_adaptation_sets_round_trip(s.drop_first(), acc.push(s[0]));
        assert(acc.push(s[0]) + s.drop_first() =~= acc + s);
    }
}

/// Building then interpreting a period gives it back.
proof fn lemma_period_round_trip(p: PeriodView)
    ensures
        interpret_period(build_period(p)) == Ok::<PeriodView, ParseErrorView>(p),
{
    let n = build_period(p);
    let bs = build_adaptation_sets(p.adaptation_sets);
    assert forall|i: int|
        0 <= i < bs.len() implies (#[trigger] bs[i]).name == "AdaptationSet"@ by {
        assert(bs[i] == build_adaptation_set(p.adaptation_sets[i]));
    }
    lemma_children_named_uniform(bs, "AdaptationSet"@);
    assert(children_named(n.children, "AdaptationSet"@) == bs);
    lemma_adaptation_sets_round_trip(p.adaptation_sets, Seq::empty());
    assert(Seq::empty() + p.adaptation_sets =~= p.adaptation_sets);
}

/// Building then interpreting a run of periods gives the run back,
/// appended to what was already read.
proof fn lemma_periods_round_trip(ps: Seq<PeriodView>, acc: Seq<PeriodView>)
    ensures
        interpret_periods(build_periods(ps), acc) == Ok::<Seq<PeriodView>, ParseErrorView>(
            acc + ps,
        ),
    decreases ps.len(),
{
    let bs = build_periods(ps);
    if ps.len() == 0 {
        assert(bs.len() == 0);
        assert(acc + ps =~= acc);
    } else {
        assert(bs[0] == build_period(ps[0]));
        lemma_period_round_trip(ps[0]);
        assert(bs.drop_first() =~= build_periods(ps.drop_first()));
        lemma_periods_round_trip(ps.drop_first(), acc.push(ps[0]));
        assert(acc.push(ps[0]) + ps.drop_first() =~= acc + ps);
    }
}

/// The round trip of the manifest's text form at the element level:
/// laying a manifest model out as an element tree and interpreting
/// that tree back yields the model again, every field intact — in
/// particular, adaptation sets and representations equal the originals
/// by their identifiers.
pub proof fn lemma_manifest_round_trip(m: ManifestView)
    ensures
        interpret_manifest(build_manifest(m)) == Ok::<ManifestView, ParseErrorView>(m),
{
    let n = build_manifest(m);
    assert(n.name == "MPD"@);
    lemma_first_value_single(("type"@, m.mpd_type), "type"@);
    assert(attr_of(n, "type"@) == Some(m.mpd_type));
    let bs = build_periods(m.periods);
    assert forall|i: int| 0 <= i < bs.len() implies (#[trigger] bs[i]).name == "Period"@ by {
        assert(bs[i] == build_period(m.periods[i]));
    }
    lemma_children_named_uniform(bs, "Period"@);
    assert(children_named(n.children, "Period"@) == bs);
    lemma_periods_round_trip(m.periods, Seq::empty());
    assert(Seq::empty() + m.periods =~= m.periods);
}

/// The manifest's strings can stand in markup: attribute values carry
/// no quote, and base URLs (element text) hold no tag start and do not
/// begin with whitespace.
pub open spec fn markup_clean_manifest(m: ManifestView) -> bool {
    &&& crate::xml::wf_value(m.mpd_type)
    &&& forall|i: int| 0 <= i < m.periods.len() ==> markup_clean_period(#[trigger] m.periods[i])
}

/// The period's strings can stand in markup.
pub open spec fn markup_clean_period(p: PeriodView) -> bool {
    forall|i: int|
        0 <= i < p.adaptation_sets.len() ==> markup_clean_set(#[trigger] p.adaptation_sets[i])
}

/// The adaptation set's strings can stand in markup.
pub open spec fn markup_clean_set(a: AdaptationSetView) -> bool {
    &&& (a.mime_type matches Some(t) ==> crate::xml::wf_value(t))
    &&& (a.role matches Some(r) ==> crate::xml::wf_value(r.scheme_id_uri) && crate::xml::wf_value(
        r.value,
    ))
    &&& forall|i: int|
        0 <= i < a.representations.len() ==> markup_clean_representation(
            #[trigger] a.representations[i],
        )
}

/// The representation's strings can stand in markup.
pub open spec fn markup_clean_representation(r: RepresentationView) -> bool {
    &&& crate::xml::wf_value(r.id)
    &&& crate::xml::wf_value(r.codecs)
    &&& (r.mime_type matches Some(t) ==> crate::xml::wf_value(t))
    &&& crate::xml::wf_text(r.base_url)
    &&& markup_clean_addressing(r.addressing)
}

/// The addressing scheme's strings can stand in markup.
pub open spec fn markup_clean_addressing(a: AddressingView) -> bool {
    match a {
        AddressingView::List(sl) => {
            &&& crate::xml::wf_value(sl.initialization)
            &&& forall|i: int|
                0 <= i < sl.segment_urls.len() ==> crate::xml::wf_value(
                    #[trigger] sl.segment_urls[i],
                )
        },
        AddressingView::Base(m) => crate::xml::wf_value(m),
        AddressingView::Template(m) => crate::xml::wf_value(m),
    }
}

/// The schema's element and attribute names are markup names.
#[verifier::rlimit(100)]
proof fn lemma_schema_names_wf()
    ensures
        crate::xml::wf_name("MPD"@),
        crate::xml::wf_name("Period"@),
        crate::xml::wf_name("AdaptationSet"@),
        crate::xml::wf_name("Role"@),
        crate::xml::wf_name("Representation"@),
        crate::xml::wf_name("BaseURL"@),
        crate::xml::wf_name("SegmentList"@),
        crate::xml::wf_name("Initialization"@),
        crate::xml::wf_name("SegmentURL"@),
        crate::xml::wf_name("SegmentBase"@),
        crate::xml::wf_name("SegmentTemplate"@),
        crate::xml::wf_name("type"@),
        crate::xml::wf_name("id"@),
        crate::xml::wf_name("codecs"@),
        crate::xml::wf_name("bandwidth"@),
        crate::xml::wf_name("width"@),
        crate::xml::wf_name("height"@),
        crate::xml::wf_name("frameRate"@),
        crate::xml::wf_name("audioSamplingRate"@),
        crate::xml::wf_name("mimeType"@),
        crate::xml::wf_name("segmentAlignment"@),
        crate::xml::wf_name("subsegmentAlignment"@),
        crate::xml::wf_name("schemeIdUri"@),
        crate::xml::wf_name("value"@),
        crate::xml::wf_name("media"@),
        crate::xml::wf_name("sourceURL"@),
        crate::xml::wf_value("true"@),
        crate::xml::wf_value("false"@),
{
    reveal_strlit("MPD");
    reveal_strlit("Period");
    reveal_strlit("AdaptationSet");
    reveal_strlit("Role");
    reveal_strlit("Representation");
    reveal_strlit("BaseURL");
    reveal_strlit("SegmentList");
    reveal_strlit("Initialization");
    reveal_strlit("SegmentURL");
    reveal_strlit("SegmentBase");
    reveal_strlit("SegmentTemplate");
    reveal_strlit("type");
    reveal_strlit("id");
    reveal_strlit("codecs");
    reveal_strlit("bandwidth");
    reveal_strlit("width");
    reveal_strlit("height");
    reveal_strlit("frameRate");
    reveal_strlit("audioSamplingRate");
    reveal_strlit("mimeType");
    reveal_strlit("segmentAlignment");
    reveal_strlit("subsegmentAlignment");
    reveal_strlit("schemeIdUri");
    reveal_strlit("value");
    reveal_strlit("media");
    reveal_strlit("sourceURL");
    reveal_strlit("true");
    reveal_strlit("false");
}

/// Digit strings carry no quote.
proof fn lemma_dec_str_clean(v: int)
    requires
        v >= 0,
    ensures
        crate::xml::wf_value(dec_str(v)),
{
    lemma_dec_str_digits(v);
    assert forall|i: int| 0 <= i < dec_str(v).len() implies #[trigger] dec_str(v)[i] != '"' by {
        assert(crate::wire::is_digit(dec_str(v)[i]));
    }
}

/// A built representation element is well formed when its strings are
/// markup-clean.
proof fn lemma_build_representation_wf(r: RepresentationView)
    requires
        markup_clean_representation(r),
    ensures
        crate::xml::wf_node(build_representation(r)),
{
    lemma_schema_names_wf();
    let n = build_representation(r);
    lemma_dec_str_clean(r.bandwidth as int);
    if r.width is Some {
        lemma_dec_str_clean(r.width->0 as int);
    }
    if r.height is Some {
        lemma_dec_str_clean(r.height->0 as int);
    }
    if r.frame_rate is Some {
        lemma_dec_str_clean(r.frame_rate->0 as int);
    }
    if r.audio_sample_rate is Some {
        lemma_dec_str_clean(r.audio_sample_rate->0 as int);
    }
    assert forall|i: int| 0 <= i < n.attrs.len() implies crate::xml::wf_name(
        (#[trigger] n.attrs[i]).0,
    ) && crate::xml::wf_value(n.attrs[i].1) by {
        lemma_schema_names_wf();
    }
    let bu = n.children[0];
    let ad = n.children[1];
    assert(crate::xml::wf_node(bu)) by {
        assert(bu.attrs.len() == 0);
        assert(crate::xml::wf_children(bu.children));
    }
    assert(crate::xml::wf_node(ad)) by {
        match r.addressing {
            AddressingView::List(sl) => {
                let init = ad.children[0];
                assert(crate::xml::wf_node(init)) by {
                    assert(crate::xml::wf_children(init.children));
                }
                let sus = build_segment_urls(sl.segment_urls);
                assert forall|i: int| 0 <= i < sus.len() implies crate::xml::wf_node(
                    #[trigger] sus[i],
                ) by {
                    assert(sus[i] == build_segment_url(sl.segment_urls[i]));
                    assert(crate::xml::wf_value(sl.segment_urls[i]));
                    assert(crate::xml::wf_children(sus[i].children));
                }
                lemma_wf_children_of_all(ad.children);
            },
            AddressingView::Base(m) => {
                assert(crate::xml::wf_children(ad.children));
            },
            AddressingView::Template(m) => {
                assert(crate::xml::wf_children(ad.children));
            },
        }
    }
    lemma_wf_children_of_all(n.children);
}

/// A run whose every element is well formed is a well-formed run.
proof fn lemma_wf_children_of_all(cs: Seq<NodeView>)
    requires
        forall|i: int| 0 <= i < cs.len() ==> crate::xml::wf_node(#[trigger] cs[i]),
    ensures
        crate::xml::wf_children(cs),
    decreases cs.len(),
{
    if cs.len() > 0 {
        assert(forall|i: int|
            0 <= i < cs.drop_first().len() ==> crate::xml::wf_node(#[trigger] cs.drop_first()[i]));
        lemma_wf_children_of_all(cs.drop_first());
    }
}

/// A built adaptation-set element is well formed when its strings are
/// markup-clean.
proof fn lemma_build_adaptation_set_wf(a: AdaptationSetView)
    requires
        markup_clean_set(a),
    ensures
        crate::xml::wf_node(build_adaptation_set(a)),
{
    lemma_schema_names_wf();
    let n = build_adaptation_set(a);
    if a.id is Some {
        lemma_dec_str_clean(a.id->0 as int);
    }
    assert forall|i: int| 0 <= i < n.attrs.len() implies crate::xml::wf_name(
        (#[trigger] n.attrs[i]).0,
    ) && crate::xml::wf_value(n.attrs[i].1) by {
        lemma_schema_names_wf();
    }
    let brs = build_representations(a.representations);
    assert forall|i: int| 0 <= i < n.children.len() implies crate::xml::wf_node(
        #[trigger] n.children[i],
    ) by {
        match a.role {
            Some(r) => {
                if i == 0 {
                    assert(n.children[0] == build_role(r));
                    assert(crate::xml::wf_children(build_role(r).children));
                } else {
                    assert(n.children[i] == brs[i - 1]);
                    assert(brs[i - 1] == build_representation(a.representations[i - 1]));
                    lemma_build_representation_wf(a.representations[i - 1]);
                }
            },
            None => {
                assert(n.children[i] == brs[i]);
                assert(brs[i] == build_representation(a.representations[i]));
                lemma_build_representation_wf(a.representations[i]);
            },
        }
    }
    lemma_wf_children_of_all(n.children);
}

/// A built manifest tree is well formed when the model's strings are
/// markup-clean.
proof fn lemma_build_manifest_wf(m: ManifestView)
    requires
        markup_clean_manifest(m),
    ensures
        crate::xml::wf_node(build_manifest(m)),
{
    lemma_schema_names_wf();
    let n = build_manifest(m);
    let bps = build_periods(m.periods);
    assert forall|i: int| 0 <= i < bps.len() implies crate::xml::wf_node(#[trigger] bps[i]) by {
        assert(bps[i] == build_period(m.periods[i]));
        let p = m.periods[i];
        let bas = build_adaptation_sets(p.adaptation_sets);
        assert forall|j: int| 0 <= j < bas.len() implies crate::xml::wf_node(
            #[trigger] bas[j],
        ) by {
            assert(bas[j] == build_adaptation_set(p.adaptation_sets[j]));
            lemma_build_adaptation_set_wf(p.adaptation_sets[j]);
        }
        lemma_wf_children_of_all(bas);
        lemma_schema_names_wf();
    }
    lemma_wf_children_of_all(bps);
}

/// The round trip of the manifest's text form, end to end: laying a
/// markup-clean manifest model out as a document and parsing that
/// document back yields the model again, every field intact — in
/// particular, adaptation sets and representations equal the originals
/// by their identifiers.
pub proof fn lemma_manifest_document_round_trip(m: ManifestView)
    requires
        markup_clean_manifest(m),
    ensures
        parse_manifest_spec(crate::xml::write_node(build_manifest(m))) == Ok::<
            ManifestView,
            ParseErrorView,
        >(m),
{
    lemma_build_manifest_wf(m);
    crate::xml::lemma_read_write_document(build_manifest(m));
    lemma_manifest_round_trip(m);
}

} // verus!
