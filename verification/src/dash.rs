//! The DASH-MPD manifest model: a navigable, orderable entity graph
//! (Manifest, Period, AdaptationSet, Representation, SegmentList) and the
//! resolution of a representation into its ordered segment URLs.
//!
//! Equality of [`AdaptationSet`] and [`Representation`] is deliberately
//! by identifier alone: two values compare equal exactly when their
//! identifiers match, whatever the descriptive fields hold. This keeps
//! the entities usable as keys even when two fetches of one manifest
//! differ in formatting. Do not "repair" this into structural equality.

use vstd::prelude::*;

use crate::errors::ResolutionError;

verus! {

/// One relative media segment reference of a segment list.
#[derive(Debug)]
pub struct SegmentURL {
    pub media: String,
}

impl View for SegmentURL {
    type V = Seq<char>;

    open spec fn view(&self) -> Seq<char> {
        self.media@
    }
}

impl SegmentURL {
    /// Builds a segment reference from its relative URL.
    pub fn new(media: String) -> (r: SegmentURL)
        ensures
            r@ == media@,
    {
        SegmentURL { media }
    }
}

impl Clone for SegmentURL {
    /// A clone carries the reference over unchanged.
    fn clone(&self) -> (r: Self)
        ensures
            r@ == self@,
    {
        SegmentURL { media: self.media.clone() }
    }
}

/// The single initialization segment reference of a segment list.
#[derive(Debug)]
pub struct Initialization {
    pub source_url: String,
}

impl View for Initialization {
    type V = Seq<char>;

    open spec fn view(&self) -> Seq<char> {
        self.source_url@
    }
}

impl Initialization {
    /// Builds an initialization reference from its relative URL.
    pub fn new(source_url: String) -> (r: Initialization)
        ensures
            r@ == source_url@,
    {
        Initialization { source_url }
    }
}

impl Clone for Initialization {
    /// A clone carries the reference over unchanged.
    fn clone(&self) -> (r: Self)
        ensures
            r@ == self@,
    {
        Initialization { source_url: self.source_url.clone() }
    }
}

/// The views of a sequence of segment references, element by element.
pub open spec fn segment_url_views(s: Seq<SegmentURL>) -> Seq<Seq<char>> {
    s.map_values(|u: SegmentURL| u@)
}

/// The mathematical content of a [`SegmentList`].
pub ghost struct SegmentListView {
    pub initialization: Seq<char>,
    pub segment_urls: Seq<Seq<char>>,
}

/// An explicit enumeration of a representation's media data: one
/// initialization segment, then the media segments in document order.
/// Document order is retrieval order; it is never re-sorted.
#[derive(Debug)]
pub struct SegmentList {
    pub initialization: Initialization,
    pub segment_urls: Vec<SegmentURL>,
}

impl View for SegmentList {
    type V = SegmentListView;

    open spec fn view(&self) -> SegmentListView {
        SegmentListView {
            initialization: self.initialization@,
            segment_urls: segment_url_views(self.segment_urls@),
        }
    }
}

impl SegmentList {
    /// Builds a segment list from its initialization and media segments.
    pub fn new(initialization: Initialization, segment_urls: Vec<SegmentURL>) -> (r: SegmentList)
        ensures
            r@ == (SegmentListView {
                initialization: initialization@,
                segment_urls: segment_url_views(segment_urls@),
            }),
    {
        SegmentList { initialization, segment_urls }
    }
}

impl Clone for SegmentList {
    /// A clone carries every reference over unchanged.
    fn clone(&self) -> (r: Self)
        ensures
            r@ == self@,
    {
        let mut urls: Vec<SegmentURL> = Vec::new();
        let mut i: usize = 0;
        while i < self.segment_urls.len()
            invariant
                i <= self.segment_urls.len(),
                segment_url_views(urls@) == segment_url_views(self.segment_urls@.subrange(0, i as int)),
            decreases self.segment_urls.len() - i,
        {
            let ghost pre = urls@;
            urls.push(self.segment_urls[i].clone());
            proof {
                assert(segment_url_views(pre.push(urls@[pre.len() as int]))
                    =~= segment_url_views(pre).push(urls@[pre.len() as int]@));
                assert(self.segment_urls@.subrange(0, i + 1) =~= self.segment_urls@.subrange(
                    0,
                    i as int,
                ).push(self.segment_urls@[i as int]));
                assert(segment_url_views(self.segment_urls@.subrange(0, i as int).push(
                    self.segment_urls@[i as int],
                )) =~= segment_url_views(self.segment_urls@.subrange(0, i as int)).push(
                    self.segment_urls@[i as int]@,
                ));
                assert(segment_url_views(urls@) =~= segment_url_views(
                    self.segment_urls@.subrange(0, i + 1),
                ));
            }
            i += 1;
        }
        proof {
            assert(self.segment_urls@.subrange(0, self.segment_urls@.len() as int)
                =~= self.segment_urls@);
        }
        SegmentList { initialization: self.initialization.clone(), segment_urls: urls }
    }
}

/// The mathematical content of an [`Addressing`].
pub ghost enum AddressingView {
    /// An explicit segment enumeration: the only resolvable scheme.
    List(SegmentListView),
    /// `SegmentBase`: schema-recognized, never resolvable.
    Base(Seq<char>),
    /// `SegmentTemplate`: schema-recognized, never resolvable.
    Template(Seq<char>),
}

/// The single addressing scheme of a representation's media data.
/// `SegmentBase` and `SegmentTemplate` are recognized when parsing but
/// resolution of them fails explicitly; it never silently produces an
/// empty sequence.
#[derive(Debug)]
pub enum Addressing {
    /// An explicit segment enumeration: the only resolvable scheme.
    List(SegmentList),
    /// `SegmentBase`, carrying its raw media reference.
    Base(SegmentURL),
    /// `SegmentTemplate`, carrying its raw media reference.
    Template(SegmentURL),
}

impl View for Addressing {
    type V = AddressingView;

    open spec fn view(&self) -> AddressingView {
        match self {
            Addressing::List(sl) => AddressingView::List(sl@),
            Addressing::Base(u) => AddressingView::Base(u@),
            Addressing::Template(u) => AddressingView::Template(u@),
        }
    }
}

impl Clone for Addressing {
    /// A clone carries the scheme over unchanged.
    fn clone(&self) -> (r: Self)
        ensures
            r@ == self@,
    {
        match self {
            Addressing::List(sl) => Addressing::List(sl.clone()),
            Addressing::Base(u) => Addressing::Base(u.clone()),
            Addressing::Template(u) => Addressing::Template(u.clone()),
        }
    }
}

/// The mathematical content of a [`Representation`].
pub ghost struct RepresentationView {
    pub id: Seq<char>,
    pub codecs: Seq<char>,
    pub bandwidth: u32,
    pub width: Option<u32>,
    pub height: Option<u32>,
    pub frame_rate: Option<u32>,
    pub audio_sample_rate: Option<u32>,
    pub mime_type: Option<Seq<char>>,
    pub base_url: Seq<char>,
    pub addressing: AddressingView,
}

/// One concrete encoding of an adaptation set. The presence of a width
/// is the sole signal that distinguishes video from audio-only.
#[derive(Debug)]
pub struct Representation {
    pub id: String,
    pub codecs: String,
    pub bandwidth: u32,
    pub width: Option<u32>,
    pub height: Option<u32>,
    pub frame_rate: Option<u32>,
    pub audio_sample_rate: Option<u32>,
    pub mime_type: Option<String>,
    pub base_url: String,
    pub addressing: Addressing,
}

impl View for Representation {
    type V = RepresentationView;

    open spec fn view(&self) -> RepresentationView {
        RepresentationView {
            id: self.id@,
            codecs: self.codecs@,
            bandwidth: self.bandwidth,
            width: self.width,
            height: self.height,
            frame_rate: self.frame_rate,
            audio_sample_rate: self.audio_sample_rate,
            mime_type: match self.mime_type {
                Some(ref m) => Some(m@),
                None => None,
            },
            base_url: self.base_url@,
            addressing: self.addressing@,
        }
    }
}

impl Clone for Representation {
    /// A clone carries every field over unchanged.
    fn clone(&self) -> (r: Self)
        ensures
            r@ == self@,
    {
        Representation {
            id: self.id.clone(),
            codecs: self.codecs.clone(),
            bandwidth: self.bandwidth,
            width: self.width,
            height: self.height,
            frame_rate: self.frame_rate,
            audio_sample_rate: self.audio_sample_rate,
            mime_type: match &self.mime_type {
                Some(m) => Some(m.clone()),
                None => None,
            },
            base_url: self.base_url.clone(),
            addressing: self.addressing.clone(),
        }
    }
}

impl PartialEq for Representation {
    /// Representations are equal exactly when their identifiers are;
    /// descriptive fields take no part in comparisons.
    fn eq(&self, other: &Self) -> (r: bool) {
        self.id == other.id
    }
}

impl vstd::std_specs::cmp::PartialEqSpecImpl for Representation {
    open spec fn obeys_eq_spec() -> bool {
        true
    }

    open spec fn eq_spec(&self, other: &Self) -> bool {
        self.id@ == other.id@
    }
}

/// Lexicographic order of two character sequences: the first differing
/// position decides; a proper prefix orders first.
pub open spec fn lex_cmp(a: Seq<char>, b: Seq<char>) -> core::cmp::Ordering
    decreases a.len(),
{
    if a.len() == 0 && b.len() == 0 {
        core::cmp::Ordering::Equal
    } else if a.len() == 0 {
        core::cmp::Ordering::Less
    } else if b.len() == 0 {
        core::cmp::Ordering::Greater
    } else if a[0] < b[0] {
        core::cmp::Ordering::Less
    } else if a[0] > b[0] {
        core::cmp::Ordering::Greater
    } else {
        lex_cmp(a.drop_first(), b.drop_first())
    }
}

/// Compares two strings lexicographically, as [`lex_cmp`] says.
pub fn str_cmp(a: &str, b: &str) -> (r: core::cmp::Ordering)
    ensures
        r == lex_cmp(a@, b@),
{
    let na = a.unicode_len();
    let nb = b.unicode_len();
    let mut i: usize = 0;
    proof {
        assert(a@.subrange(0, na as int) =~= a@);
        assert(b@.subrange(0, nb as int) =~= b@);
    }
    while i < na && i < nb
        invariant
            na == a@.len(),
            nb == b@.len(),
            i <= na,
            i <= nb,
            lex_cmp(a@, b@) == lex_cmp(
                a@.subrange(i as int, na as int),
                b@.subrange(i as int, nb as int),
            ),
        decreases na - i,
    {
        let ca = a.get_char(i);
        let cb = b.get_char(i);
        let ghost ra = a@.subrange(i as int, na as int);
        let ghost rb = b@.subrange(i as int, nb as int);
        proof {
            assert(ra[0] == a@[i as int]);
            assert(rb[0] == b@[i as int]);
            assert(ra.drop_first() =~= a@.subrange(i + 1, na as int));
            assert(rb.drop_first() =~= b@.subrange(i + 1, nb as int));
        }
        if ca < cb {
            return core::cmp::Ordering::Less;
        }
        if ca > cb {
            return core::cmp::Ordering::Greater;
        }
        i += 1;
    }
    proof {
        assert(a@.subrange(i as int, na as int).len() == na - i);
        assert(b@.subrange(i as int, nb as int).len() == nb - i);
    }
    if na == nb {
        core::cmp::Ordering::Equal
    } else if na < nb {
        core::cmp::Ordering::Less
    } else {
        core::cmp::Ordering::Greater
    }
}

impl PartialOrd for Representation {
    /// Representations are totally ordered by their identifier alone,
    /// lexicographically; descriptive fields take no part.
    fn partial_cmp(&self, other: &Self) -> (r: Option<core::cmp::Ordering>) {
        Some(str_cmp(self.id.as_str(), other.id.as_str()))
    }
}

impl vstd::std_specs::cmp::PartialOrdSpecImpl for Representation {
    open spec fn obeys_partial_cmp_spec() -> bool {
        true
    }

    open spec fn partial_cmp_spec(&self, other: &Self) -> Option<core::cmp::Ordering> {
        Some(lex_cmp(self.id@, other.id@))
    }
}

/// An absolute segment URL: the representation's base URL, a single
/// separator, and the relative reference, joined by plain concatenation.
/// No escaping or normalization is performed; inputs are taken as
/// already encoded.
pub open spec fn join_url(base: Seq<char>, rel: Seq<char>) -> Seq<char> {
    base + "/"@ + rel
}

/// The ordered absolute segment URLs of a segment list under a base
/// URL: the initialization segment first, then the media segments in
/// document order.
pub open spec fn resolved_urls(base: Seq<char>, sl: SegmentListView) -> Seq<Seq<char>> {
    seq![join_url(base, sl.initialization)] + sl.segment_urls.map_values(
        |m: Seq<char>| join_url(base, m),
    )
}

/// The views of a sequence of strings, element by element.
pub open spec fn string_views(s: Seq<String>) -> Seq<Seq<char>> {
    s.map_values(|u: String| u@)
}

impl Representation {
    /// Builds a representation from its fields.
    pub fn new(
        id: String,
        codecs: String,
        bandwidth: u32,
        width: Option<u32>,
        height: Option<u32>,
        frame_rate: Option<u32>,
        audio_sample_rate: Option<u32>,
        mime_type: Option<String>,
        base_url: String,
        addressing: Addressing,
    ) -> (r: Representation)
        ensures
            r@ == (RepresentationView {
                id: id@,
                codecs: codecs@,
                bandwidth,
                width,
                height,
                frame_rate,
                audio_sample_rate,
                mime_type: match mime_type {
                    Some(m) => Some(m@),
                    None => None,
                },
                base_url: base_url@,
                addressing: addressing@,
            }),
    {
        Representation {
            id,
            codecs,
            bandwidth,
            width,
            height,
            frame_rate,
            audio_sample_rate,
            mime_type,
            base_url,
            addressing,
        }
    }

    /// The ordered absolute URLs of this representation's segments, in
    /// the order they must be retrieved: the initialization segment
    /// first, then each media segment in document order. Fails with
    /// [`ResolutionError::UnsupportedAddressing`] when the
    /// representation uses `SegmentBase` or `SegmentTemplate`; it never
    /// silently yields an empty sequence for those.
    pub fn segment_urls(&self) -> (r: Result<Vec<String>, ResolutionError>)
        ensures
            self@.addressing matches AddressingView::List(sl) ==> {
                &&& r is Ok
                &&& string_views(r->Ok_0@) == resolved_urls(self@.base_url, sl)
                &&& r->Ok_0@.len() == sl.segment_urls.len() + 1
            },
            !(self@.addressing is List) <==> r == Err::<Vec<String>, ResolutionError>(
                ResolutionError::UnsupportedAddressing,
            ),
    {
        let sl = match &self.addressing {
            Addressing::List(sl) => sl,
            Addressing::Base(_) => {
                return Err(ResolutionError::UnsupportedAddressing);
            },
            Addressing::Template(_) => {
                return Err(ResolutionError::UnsupportedAddressing);
            },
        };
        let mut urls: Vec<String> = Vec::new();
        let mut first = self.base_url.clone();
        first.append("/");
        first.append(self.initialization_str(sl));
        urls.push(first);
        let ghost slv = sl@;
        let ghost base = self@.base_url;
        proof {
            assert(string_views(urls@) =~= resolved_urls(base, slv).subrange(0, 1));
        }
        let mut i: usize = 0;
        while i < sl.segment_urls.len()
            invariant
                i <= sl.segment_urls.len(),
                slv == sl@,
                base == self.base_url@,
                urls@.len() == i + 1,
                string_views(urls@) == resolved_urls(base, slv).subrange(0, i + 1),
            decreases sl.segment_urls.len() - i,
        {
            let mut u = self.base_url.clone();
            u.append("/");
            u.append(sl.segment_urls[i].media.as_str());
            urls.push(u);
            proof {
                assert(string_views(urls@) =~= resolved_urls(base, slv).subrange(0, i + 2));
            }
            i += 1;
        }
        proof {
            assert(resolved_urls(base, slv).subrange(0, resolved_urls(base, slv).len() as int)
                =~= resolved_urls(base, slv));
        }
        Ok(urls)
    }

    /// The initialization segment's relative URL of a segment list.
    fn initialization_str<'a>(&self, sl: &'a SegmentList) -> (r: &'a str)
        ensures
            r@ == sl@.initialization,
    {
        sl.initialization.source_url.as_str()
    }
}

/// The mathematical content of a [`Role`].
pub ghost struct RoleView {
    pub scheme_id_uri: Seq<char>,
    pub value: Seq<char>,
}

/// The role an adaptation set plays, as a scheme URI and a value.
#[derive(Debug)]
pub struct Role {
    pub scheme_id_uri: String,
    pub value: String,
}

impl View for Role {
    type V = RoleView;

    open spec fn view(&self) -> RoleView {
        RoleView { scheme_id_uri: self.scheme_id_uri@, value: self.value@ }
    }
}

impl Role {
    /// Builds a role tag from its scheme URI and value.
    pub fn new(scheme_id_uri: String, value: String) -> (r: Role)
        ensures
            r@ == (RoleView { scheme_id_uri: scheme_id_uri@, value: value@ }),
    {
        Role { scheme_id_uri, value }
    }
}

impl Clone for Role {
    /// A clone carries both fields over unchanged.
    fn clone(&self) -> (r: Self)
        ensures
            r@ == self@,
    {
        Role { scheme_id_uri: self.scheme_id_uri.clone(), value: self.value.clone() }
    }
}

/// The views of a sequence of representations, element by element.
pub open spec fn representation_views(s: Seq<Representation>) -> Seq<RepresentationView> {
    s.map_values(|r: Representation| r@)
}

/// The mathematical content of an [`AdaptationSet`].
pub ghost struct AdaptationSetView {
    pub id: Option<u32>,
    pub segment_alignment: Option<bool>,
    pub subsegment_alignment: Option<bool>,
    pub mime_type: Option<Seq<char>>,
    pub role: Option<RoleView>,
    pub representations: Seq<RepresentationView>,
}

/// A group of representations sharing a media type. The numeric
/// identifier is the sort and equality key; all other fields are
/// descriptive.
#[derive(Debug)]
pub struct AdaptationSet {
    pub id: Option<u32>,
    pub segment_alignment: Option<bool>,
    pub subsegment_alignment: Option<bool>,
    pub mime_type: Option<String>,
    pub role: Option<Role>,
    pub representations: Vec<Representation>,
}

impl View for AdaptationSet {
    type V = AdaptationSetView;

    open spec fn view(&self) -> AdaptationSetView {
        AdaptationSetView {
            id: self.id,
            segment_alignment: self.segment_alignment,
            subsegment_alignment: self.subsegment_alignment,
            mime_type: match self.mime_type {
                Some(ref m) => Some(m@),
                None => None,
            },
            role: match self.role {
                Some(ref r) => Some(r@),
                None => None,
            },
            representations: representation_views(self.representations@),
        }
    }
}

/// Clones a sequence of representations; the views carry over one for
/// one.
fn clone_representations(v: &Vec<Representation>) -> (r: Vec<Representation>)
    ensures
        representation_views(r@) == representation_views(v@),
{
    let mut out: Vec<Representation> = Vec::new();
    let mut i: usize = 0;
    while i < v.len()
        invariant
            i <= v.len(),
            representation_views(out@) == representation_views(v@.subrange(0, i as int)),
        decreases v.len() - i,
    {
        let ghost pre = out@;
        out.push(v[i].clone());
        proof {
            assert(representation_views(pre.push(out@[pre.len() as int])) =~= representation_views(
                pre,
            ).push(out@[pre.len() as int]@));
            assert(v@.subrange(0, i + 1) =~= v@.subrange(0, i as int).push(v@[i as int]));
            assert(representation_views(v@.subrange(0, i as int).push(v@[i as int]))
                =~= representation_views(v@.subrange(0, i as int)).push(v@[i as int]@));
            assert(representation_views(out@) =~= representation_views(v@.subrange(0, i + 1)));
        }
        i += 1;
    }
    proof {
        assert(v@.subrange(0, v@.len() as int) =~= v@);
    }
    out
}

impl AdaptationSet {
    /// Builds an adaptation set from its fields.
    pub fn new(
        id: Option<u32>,
        segment_alignment: Option<bool>,
        subsegment_alignment: Option<bool>,
        mime_type: Option<String>,
        role: Option<Role>,
        representations: Vec<Representation>,
    ) -> (r: AdaptationSet)
        ensures
            r@ == (AdaptationSetView {
                id,
                segment_alignment,
                subsegment_alignment,
                mime_type: match mime_type {
                    Some(m) => Some(m@),
                    None => None,
                },
                role: match role {
                    Some(ro) => Some(ro@),
                    None => None,
                },
                representations: representation_views(representations@),
            }),
    {
        AdaptationSet { id, segment_alignment, subsegment_alignment, mime_type, role, representations }
    }
}

impl Clone for AdaptationSet {
    /// A clone carries every field over unchanged.
    fn clone(&self) -> (r: Self)
        ensures
            r@ == self@,
    {
        AdaptationSet {
            id: self.id,
            segment_alignment: self.segment_alignment,
            subsegment_alignment: self.subsegment_alignment,
            mime_type: match &self.mime_type {
                Some(m) => Some(m.clone()),
                None => None,
            },
            role: match &self.role {
                Some(r) => Some(r.clone()),
                None => None,
            },
            representations: clone_representations(&self.representations),
        }
    }
}

impl PartialEq for AdaptationSet {
    /// Adaptation sets are equal exactly when their numeric identifiers
    /// are; descriptive fields take no part in comparisons.
    fn eq(&self, other: &Self) -> (r: bool) {
        match (self.id, other.id) {
            (Some(a), Some(b)) => a == b,
            (None, None) => true,
            _ => false,
        }
    }
}

impl vstd::std_specs::cmp::PartialEqSpecImpl for AdaptationSet {
    open spec fn obeys_eq_spec() -> bool {
        true
    }

    open spec fn eq_spec(&self, other: &Self) -> bool {
        self.id == other.id
    }
}

impl PartialOrd for AdaptationSet {
    /// Adaptation sets are totally ordered by their numeric identifier,
    /// an absent identifier ordering first.
    fn partial_cmp(&self, other: &Self) -> (r: Option<core::cmp::Ordering>) {
        match (self.id, other.id) {
            (None, None) => Some(core::cmp::Ordering::Equal),
            (None, Some(_)) => Some(core::cmp::Ordering::Less),
            (Some(_), None) => Some(core::cmp::Ordering::Greater),
            (Some(a), Some(b)) => if a < b {
                Some(core::cmp::Ordering::Less)
            } else if a == b {
                Some(core::cmp::Ordering::Equal)
            } else {
                Some(core::cmp::Ordering::Greater)
            },
        }
    }
}

impl vstd::std_specs::cmp::PartialOrdSpecImpl for AdaptationSet {
    open spec fn obeys_partial_cmp_spec() -> bool {
        true
    }

    open spec fn partial_cmp_spec(&self, other: &Self) -> Option<core::cmp::Ordering> {
        match (self.id, other.id) {
            (None, None) => Some(core::cmp::Ordering::Equal),
            (None, Some(_)) => Some(core::cmp::Ordering::Less),
            (Some(_), None) => Some(core::cmp::Ordering::Greater),
            (Some(a), Some(b)) => if a < b {
                Some(core::cmp::Ordering::Less)
            } else if a == b {
                Some(core::cmp::Ordering::Equal)
            } else {
                Some(core::cmp::Ordering::Greater)
            },
        }
    }
}

/// The views of a sequence of adaptation sets, element by element.
pub open spec fn adaptation_set_views(s: Seq<AdaptationSet>) -> Seq<AdaptationSetView> {
    s.map_values(|a: AdaptationSet| a@)
}

/// The mathematical content of a [`Period`].
pub ghost struct PeriodView {
    pub adaptation_sets: Seq<AdaptationSetView>,
}

/// One period of a manifest: an ordered sequence of adaptation sets.
#[derive(Debug)]
pub struct Period {
    pub adaptation_sets: Vec<AdaptationSet>,
}

impl View for Period {
    type V = PeriodView;

    open spec fn view(&self) -> PeriodView {
        PeriodView { adaptation_sets: adaptation_set_views(self.adaptation_sets@) }
    }
}

impl Period {
    /// Builds a period from its adaptation sets.
    pub fn new(adaptation_sets: Vec<AdaptationSet>) -> (r: Period)
        ensures
            r@ == (PeriodView { adaptation_sets: adaptation_set_views(adaptation_sets@) }),
    {
        Period { adaptation_sets }
    }
}

impl Clone for Period {
    /// A clone carries every adaptation set over unchanged.
    fn clone(&self) -> (r: Self)
        ensures
            r@ == self@,
    {
        Period { adaptation_sets: clone_adaptation_sets(&self.adaptation_sets) }
    }
}

/// Clones a sequence of adaptation sets; the views carry over one for
/// one.
fn clone_adaptation_sets(v: &Vec<AdaptationSet>) -> (r: Vec<AdaptationSet>)
    ensures
        adaptation_set_views(r@) == adaptation_set_views(v@),
{
    let mut out: Vec<AdaptationSet> = Vec::new();
    let mut i: usize = 0;
    while i < v.len()
        invariant
            i <= v.len(),
            adaptation_set_views(out@) == adaptation_set_views(v@.subrange(0, i as int)),
        decreases v.len() - i,
    {
        let ghost pre = out@;
        out.push(v[i].clone());
        proof {
            assert(adaptation_set_views(pre.push(out@[pre.len() as int]))
                =~= adaptation_set_views(pre).push(out@[pre.len() as int]@));
            assert(v@.subrange(0, i + 1) =~= v@.subrange(0, i as int).push(v@[i as int]));
            assert(adaptation_set_views(v@.subrange(0, i as int).push(v@[i as int]))
                =~= adaptation_set_views(v@.subrange(0, i as int)).push(v@[i as int]@));
            assert(adaptation_set_views(out@) =~= adaptation_set_views(v@.subrange(0, i + 1)));
        }
        i += 1;
    }
    proof {
        assert(v@.subrange(0, v@.len() as int) =~= v@);
    }
    out
}

/// The views of a sequence of periods, element by element.
pub open spec fn period_views(s: Seq<Period>) -> Seq<PeriodView> {
    s.map_values(|p: Period| p@)
}

/// The mathematical content of a [`Manifest`].
pub ghost struct ManifestView {
    pub periods: Seq<PeriodView>,
    pub mpd_type: Seq<char>,
}

/// The flattened adaptation sets of a sequence of periods: each
/// period's sets in document order, periods in document order.
pub open spec fn flat_streams(periods: Seq<PeriodView>) -> Seq<AdaptationSetView>
    decreases periods.len(),
{
    if periods.len() == 0 {
        Seq::empty()
    } else {
        periods[0].adaptation_sets + flat_streams(periods.drop_first())
    }
}

/// The total count of adaptation sets over a sequence of periods.
pub open spec fn total_sets(periods: Seq<PeriodView>) -> int
    decreases periods.len(),
{
    if periods.len() == 0 {
        0
    } else {
        periods[0].adaptation_sets.len() + total_sets(periods.drop_first())
    }
}

/// Flattening one more period appends its adaptation sets.
pub proof fn lemma_flat_streams_snoc(periods: Seq<PeriodView>, p: PeriodView)
    ensures
        flat_streams(periods.push(p)) == flat_streams(periods) + p.adaptation_sets,
        total_sets(periods.push(p)) == total_sets(periods) + p.adaptation_sets.len(),
    decreases periods.len(),
{
    if periods.len() == 0 {
        assert(periods.push(p).drop_first() =~= periods);
        assert(periods.push(p)[0] == p);
        assert(flat_streams(periods.push(p)) == p.adaptation_sets + flat_streams(periods));
        assert(flat_streams(periods) =~= Seq::<AdaptationSetView>::empty());
        assert(p.adaptation_sets + flat_streams(periods) =~= flat_streams(periods)
            + p.adaptation_sets);
    } else {
        assert(periods.push(p).drop_first() =~= periods.drop_first().push(p));
        lemma_flat_streams_snoc(periods.drop_first(), p);
        assert(flat_streams(periods.push(p)) =~= flat_streams(periods) + p.adaptation_sets);
    }
}

/// The flattened stream sequence of N periods holds exactly the sum of
/// the periods' adaptation-set counts, in document order.
pub proof fn lemma_flat_streams_len(periods: Seq<PeriodView>)
    ensures
        flat_streams(periods).len() == total_sets(periods),
    decreases periods.len(),
{
    if periods.len() > 0 {
        lemma_flat_streams_len(periods.drop_first());
    }
}

/// The root of a manifest: an ordered sequence of periods. A usable
/// manifest has at least one period; an empty manifest is a valid but
/// unusable terminal state, not an error.
#[derive(Debug)]
pub struct Manifest {
    pub periods: Vec<Period>,
    pub mpd_type: String,
}

impl View for Manifest {
    type V = ManifestView;

    open spec fn view(&self) -> ManifestView {
        ManifestView { periods: period_views(self.periods@), mpd_type: self.mpd_type@ }
    }
}

impl Manifest {
    /// Builds a manifest from its periods and its presentation type.
    pub fn new(periods: Vec<Period>, mpd_type: String) -> (r: Manifest)
        ensures
            r@ == (ManifestView { periods: period_views(periods@), mpd_type: mpd_type@ }),
    {
        Manifest { periods, mpd_type }
    }

    /// The available adaptation sets of the manifest, flattened across
    /// its periods in document order. The result is NOT re-sorted:
    /// although adaptation sets order by identifier for use in sorted
    /// containers, iteration preserves document order unless the caller
    /// sorts explicitly.
    pub fn streams(&self) -> (r: Vec<AdaptationSet>)
        ensures
            adaptation_set_views(r@) == flat_streams(self@.periods),
    {
        let mut out: Vec<AdaptationSet> = Vec::new();
        let mut i: usize = 0;
        while i < self.periods.len()
            invariant
                i <= self.periods.len(),
                adaptation_set_views(out@) == flat_streams(
                    period_views(self.periods@).subrange(0, i as int),
                ),
            decreases self.periods.len() - i,
        {
            let mut sets = clone_adaptation_sets(&self.periods[i].adaptation_sets);
            let ghost pre = out@;
            let ghost added = sets@;
            out.append(&mut sets);
            proof {
                let pv = period_views(self.periods@);
                assert(pv.subrange(0, i + 1) =~= pv.subrange(0, i as int).push(pv[i as int]));
                lemma_flat_streams_snoc(pv.subrange(0, i as int), pv[i as int]);
                assert(adaptation_set_views(pre + added) =~= adaptation_set_views(pre)
                    + adaptation_set_views(added));
                assert(adaptation_set_views(added) == pv[i as int].adaptation_sets);
            }
            i += 1;
        }
        proof {
            assert(period_views(self.periods@).subrange(
                0,
                period_views(self.periods@).len() as int,
            ) =~= period_views(self.periods@));
        }
        out
    }
}

impl Clone for Manifest {
    /// A clone carries every period over unchanged.
    fn clone(&self) -> (r: Self)
        ensures
            r@ == self@,
    {
        let mut periods: Vec<Period> = Vec::new();
        let mut i: usize = 0;
        while i < self.periods.len()
            invariant
                i <= self.periods.len(),
                period_views(periods@) == period_views(self.periods@.subrange(0, i as int)),
            decreases self.periods.len() - i,
        {
            let ghost pre = periods@;
            periods.push(self.periods[i].clone());
            proof {
                assert(period_views(pre.push(periods@[pre.len() as int])) =~= period_views(pre).push(
                    periods@[pre.len() as int]@,
                ));
                assert(self.periods@.subrange(0, i + 1) =~= self.periods@.subrange(0, i as int).push(
                    self.periods@[i as int],
                ));
                assert(period_views(self.periods@.subrange(0, i as int).push(
                    self.periods@[i as int],
                )) =~= period_views(self.periods@.subrange(0, i as int)).push(
                    self.periods@[i as int]@,
                ));
                assert(period_views(periods@) =~= period_views(self.periods@.subrange(0, i + 1)));
            }
            i += 1;
        }
        proof {
            assert(self.periods@.subrange(0, self.periods@.len() as int) =~= self.periods@);
        }
        Manifest { periods, mpd_type: self.mpd_type.clone() }
    }
}

} // verus!
