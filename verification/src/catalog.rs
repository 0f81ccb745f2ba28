//! Flat-list format catalog: the formats a metadata response offers for
//! one video, with selection and ordering helpers.
//!
//! Equality and ordering of [`Format`] are deliberately by `itag` alone:
//! the `itag` is the unique key of a format, and two values with the same
//! `itag` compare equal even when descriptive fields differ. Do not
//! "repair" this into full structural equality; it is the deduplication
//! and ordering key of the catalog.

use vstd::prelude::*;

use crate::duration::Duration;

verus! {

/// The mathematical content of a [`Format`]: every field, with strings
/// as character sequences.
pub ghost struct FormatView {
    pub itag: u32,
    pub url: Seq<char>,
    pub width: Option<u32>,
    pub height: Option<u32>,
    pub mime_type: Seq<char>,
    pub content_length: Option<u32>,
    pub quality: Seq<char>,
    pub fps: Option<u32>,
    pub approx_duration: Option<Duration>,
}

/// One streaming format of a video: a directly downloadable encoding.
#[derive(Debug)]
pub struct Format {
    pub itag: u32,
    pub url: String,
    pub width: Option<u32>,
    pub height: Option<u32>,
    pub mime_type: String,
    pub content_length: Option<u32>,
    pub quality: String,
    pub fps: Option<u32>,
    pub approx_duration: Option<Duration>,
}

impl View for Format {
    type V = FormatView;

    open spec fn view(&self) -> FormatView {
        FormatView {
            itag: self.itag,
            url: self.url@,
            width: self.width,
            height: self.height,
            mime_type: self.mime_type@,
            content_length: self.content_length,
            quality: self.quality@,
            fps: self.fps,
            approx_duration: self.approx_duration,
        }
    }
}

/// The views of a sequence of formats, element by element.
pub open spec fn format_views(s: Seq<Format>) -> Seq<FormatView> {
    s.map_values(|f: Format| f@)
}

/// The sequence is ordered by `itag`, ascending.
pub open spec fn sorted_by_itag(s: Seq<FormatView>) -> bool {
    forall|i: int, j: int| 0 <= i < j < s.len() ==> #[trigger] s[i].itag <= #[trigger] s[j].itag
}

/// No two formats of the sequence share an `itag`.
pub open spec fn distinct_itags(s: Seq<FormatView>) -> bool {
    forall|i: int, j: int| 0 <= i < j < s.len() ==> #[trigger] s[i].itag != #[trigger] s[j].itag
}

impl Format {
    /// Builds a format from its fields.
    pub fn new(
        itag: u32,
        url: String,
        width: Option<u32>,
        height: Option<u32>,
        mime_type: String,
        content_length: Option<u32>,
        quality: String,
        fps: Option<u32>,
        approx_duration: Option<Duration>,
    ) -> (r: Format)
        ensures
            r@ == (FormatView {
                itag,
                url: url@,
                width,
                height,
                mime_type: mime_type@,
                content_length,
                quality: quality@,
                fps,
                approx_duration,
            }),
    {
        Format { itag, url, width, height, mime_type, content_length, quality, fps, approx_duration }
    }

    /// Whether this format is a video encoding. The presence of a width
    /// is the sole signal that distinguishes video from audio-only.
    pub fn is_video(&self) -> (r: bool)
        ensures
            r == (self@.width is Some),
    {
        match self.width {
            Some(_) => true,
            None => false,
        }
    }

    /// This format's `itag`, its unique key.
    pub fn itag(&self) -> (r: u32)
        ensures
            r == self@.itag,
    {
        self.itag
    }

    /// The byte length of the format's media data, when the source
    /// declared one. Purely informational; nothing checks received
    /// bytes against it.
    pub fn size(&self) -> (r: Option<u32>)
        ensures
            r == self@.content_length,
    {
        self.content_length
    }

    /// The URL the format's media data is fetched from.
    pub fn url(&self) -> (r: String)
        ensures
            r@ == self@.url,
    {
        self.url.clone()
    }
}

impl Clone for Format {
    /// A clone carries every field over unchanged.
    fn clone(&self) -> (r: Self)
        ensures
            r@ == self@,
    {
        Format {
            itag: self.itag,
            url: self.url.clone(),
            width: self.width,
            height: self.height,
            mime_type: self.mime_type.clone(),
            content_length: self.content_length,
            quality: self.quality.clone(),
            fps: self.fps,
            approx_duration: self.approx_duration,
        }
    }
}

impl PartialEq for Format {
    /// Formats are equal exactly when their `itag`s are: the `itag` is
    /// the identity of a format, and descriptive fields do not take
    /// part in comparisons.
    fn eq(&self, other: &Self) -> (r: bool) {
        self.itag == other.itag
    }
}

impl vstd::std_specs::cmp::PartialEqSpecImpl for Format {
    open spec fn obeys_eq_spec() -> bool {
        true
    }

    open spec fn eq_spec(&self, other: &Self) -> bool {
        self.itag == other.itag
    }
}

impl PartialOrd for Format {
    /// Formats are totally ordered by `itag`, ascending, and by nothing
    /// else.
    fn partial_cmp(&self, other: &Self) -> (r: Option<core::cmp::Ordering>) {
        if self.itag < other.itag {
            Some(core::cmp::Ordering::Less)
        } else if self.itag == other.itag {
            Some(core::cmp::Ordering::Equal)
        } else {
            Some(core::cmp::Ordering::Greater)
        }
    }
}

impl vstd::std_specs::cmp::PartialOrdSpecImpl for Format {
    open spec fn obeys_partial_cmp_spec() -> bool {
        true
    }

    open spec fn partial_cmp_spec(&self, other: &Self) -> Option<core::cmp::Ordering> {
        if self.itag < other.itag {
            Some(core::cmp::Ordering::Less)
        } else if self.itag == other.itag {
            Some(core::cmp::Ordering::Equal)
        } else {
            Some(core::cmp::Ordering::Greater)
        }
    }
}

/// Format equality is `itag`-only: two formats compare equal exactly
/// when their `itag`s match, whatever their other fields hold.
pub proof fn lemma_format_equality_itag_only(a: Format, b: Format)
    ensures
        vstd::std_specs::cmp::PartialEqSpec::eq_spec(&a, &b) <==> a@.itag == b@.itag,
{
}

/// In an `itag`-sorted sequence without repeated `itag`s, the order is
/// strictly ascending.
pub proof fn lemma_sorted_distinct_strictly_ascending(s: Seq<FormatView>)
    requires
        sorted_by_itag(s),
        distinct_itags(s),
    ensures
        forall|i: int, j: int| 0 <= i < j < s.len() ==> #[trigger] s[i].itag < #[trigger] s[j].itag,
{
}

/// Appending a format appends its view.
proof fn lemma_views_push(s: Seq<Format>, f: Format)
    ensures
        format_views(s.push(f)) == format_views(s).push(f@),
{
    assert(format_views(s.push(f)) =~= format_views(s).push(f@));
}

/// Inserting a format inserts its view at the same place.
proof fn lemma_views_insert(s: Seq<Format>, i: int, f: Format)
    requires
        0 <= i <= s.len(),
    ensures
        format_views(s.insert(i, f)) == format_views(s).insert(i, f@),
{
    assert(format_views(s.insert(i, f)) =~= format_views(s).insert(i, f@));
}

/// Clones a sequence of formats; the views carry over one for one.
fn clone_formats(v: &Vec<Format>) -> (r: Vec<Format>)
    ensures
        format_views(r@) == format_views(v@),
{
    let mut out: Vec<Format> = Vec::new();
    let mut i: usize = 0;
    while i < v.len()
        invariant
            i <= v.len(),
            format_views(out@) == format_views(v@.subrange(0, i as int)),
        decreases v.len() - i,
    {
        let ghost pre = out@;
        out.push(v[i].clone());
        proof {
            lemma_views_push(pre, out@[pre.len() as int]);
            assert(v@.subrange(0, i + 1) =~= v@.subrange(0, i as int).push(v@[i as int]));
            lemma_views_push(v@.subrange(0, i as int), v@[i as int]);
            assert(format_views(out@) =~= format_views(v@.subrange(0, i + 1)));
        }
        i += 1;
    }
    proof {
        assert(v@.subrange(0, v@.len() as int) =~= v@);
    }
    out
}

/// Sorts formats by `itag`, ascending. The result holds exactly the
/// input's formats, rearranged.
fn sort_formats(v: Vec<Format>) -> (r: Vec<Format>)
    ensures
        sorted_by_itag(format_views(r@)),
        format_views(r@).to_multiset() == format_views(v@).to_multiset(),
        r@.len() == v@.len(),
{
    broadcast use vstd::seq_lib::group_to_multiset_ensures;
    broadcast use vstd::seq_lib::to_multiset_insert;

    let mut out: Vec<Format> = Vec::new();
    let mut i: usize = 0;
    while i < v.len()
        invariant
            i <= v.len(),
            out@.len() == i,
            sorted_by_itag(format_views(out@)),
            format_views(out@).to_multiset() == format_views(
                v@.subrange(0, i as int),
            ).to_multiset(),
        decreases v.len() - i,
    {
        let x = v[i].clone();
        let mut p: usize = out.len();
        while p > 0 && out[p - 1].itag > x.itag
            invariant
                p <= out@.len(),
                forall|k: int| p <= k < out@.len() ==> #[trigger] out@[k].itag > x.itag,
            decreases p,
        {
            p -= 1;
        }
        let ghost pre = out@;
        let ghost pv = format_views(pre);
        out.insert(p, x);
        proof {
            lemma_views_insert(pre, p as int, x);
            assert(format_views(out@) == pv.insert(p as int, x@));
            assert(sorted_by_itag(format_views(out@))) by {
                let fv = pv.insert(p as int, x@);
                assert(p > 0 ==> pv[p - 1].itag <= x.itag);
                assert forall|a: int, b: int| 0 <= a < b < fv.len() implies #[trigger] fv[a].itag
                    <= #[trigger] fv[b].itag by {
                    if b < p {
                        assert(fv[a] == pv[a] && fv[b] == pv[b]);
                    } else if a < p && b == p {
                        assert(fv[a] == pv[a] && fv[b] == x@);
                        assert(pv[a].itag <= pv[p - 1].itag);
                    } else if a < p && b > p {
                        assert(fv[a] == pv[a] && fv[b] == pv[b - 1]);
                        assert(pv[a].itag <= pv[p - 1].itag);
                        assert(pv[p - 1].itag <= pv[b - 1].itag);
                    } else if a == p && b > p {
                        assert(fv[a] == x@ && fv[b] == pv[b - 1]);
                        assert(pre[b - 1].itag > x.itag);
                    } else {
                        assert(fv[a] == pv[a - 1] && fv[b] == pv[b - 1]);
                    }
                }
            }
            vstd::seq_lib::to_multiset_insert(pv, p as int, x@);
            assert(pv.insert(p as int, x@).to_multiset() == pv.to_multiset().insert(x@));
            assert(v@.subrange(0, i + 1) =~= v@.subrange(0, i as int).push(v@[i as int]));
            lemma_views_push(v@.subrange(0, i as int), v@[i as int]);
            vstd::seq_lib::to_multiset_build(format_views(v@.subrange(0, i as int)), v@[i as int]@);
            assert(format_views(v@.subrange(0, i as int)).push(v@[i as int]@).to_multiset()
                == format_views(v@.subrange(0, i as int)).to_multiset().insert(v@[i as int]@));
            assert(x@ == v@[i as int]@);
        }
        i += 1;
    }
    proof {
        assert(v@.subrange(0, v@.len() as int) =~= v@);
    }
    out
}

/// The mathematical content of a [`StreamingData`].
pub ghost struct StreamingDataView {
    pub expires_in_seconds: Duration,
    pub formats: Option<Seq<FormatView>>,
    pub adaptive_formats: Seq<FormatView>,
}

/// The sources available to download one video: an optional list of
/// pre-combined progressive formats and a list of adaptive formats.
/// For live streams the progressive list is absent.
#[derive(Debug)]
pub struct StreamingData {
    pub expires_in_seconds: Duration,
    pub formats: Option<Vec<Format>>,
    pub adaptive_formats: Vec<Format>,
}

impl View for StreamingData {
    type V = StreamingDataView;

    open spec fn view(&self) -> StreamingDataView {
        StreamingDataView {
            expires_in_seconds: self.expires_in_seconds,
            formats: match self.formats {
                Some(v) => Some(format_views(v@)),
                None => None,
            },
            adaptive_formats: format_views(self.adaptive_formats@),
        }
    }
}

impl StreamingData {
    /// Builds streaming data from its fields.
    pub fn new(
        expires_in_seconds: Duration,
        formats: Option<Vec<Format>>,
        adaptive_formats: Vec<Format>,
    ) -> (r: StreamingData)
        ensures
            r@ == (StreamingDataView {
                expires_in_seconds,
                formats: match formats {
                    Some(v) => Some(format_views(v@)),
                    None => None,
                },
                adaptive_formats: format_views(adaptive_formats@),
            }),
    {
        StreamingData { expires_in_seconds, formats, adaptive_formats }
    }
}

impl Clone for StreamingData {
    /// A clone carries every format over unchanged.
    fn clone(&self) -> (r: Self)
        ensures
            r@ == self@,
    {
        StreamingData {
            expires_in_seconds: self.expires_in_seconds,
            formats: match &self.formats {
                Some(v) => Some(clone_formats(v)),
                None => None,
            },
            adaptive_formats: clone_formats(&self.adaptive_formats),
        }
    }
}

/// The mathematical content of a [`VideoDetails`].
pub ghost struct VideoDetailsView {
    pub video_id: Seq<char>,
    pub title: Seq<char>,
    pub author: Seq<char>,
    pub approx_length: Option<Duration>,
    pub views: u32,
    pub private: bool,
    pub live: bool,
}

/// Descriptive details of one video.
#[derive(Debug)]
pub struct VideoDetails {
    pub video_id: String,
    pub title: String,
    pub author: String,
    pub approx_length: Option<Duration>,
    pub views: u32,
    pub private: bool,
    pub live: bool,
}

impl View for VideoDetails {
    type V = VideoDetailsView;

    open spec fn view(&self) -> VideoDetailsView {
        VideoDetailsView {
            video_id: self.video_id@,
            title: self.title@,
            author: self.author@,
            approx_length: self.approx_length,
            views: self.views,
            private: self.private,
            live: self.live,
        }
    }
}

impl VideoDetails {
    /// Builds video details from their fields.
    pub fn new(
        video_id: String,
        title: String,
        author: String,
        approx_length: Option<Duration>,
        views: u32,
        private: bool,
        live: bool,
    ) -> (r: VideoDetails)
        ensures
            r@ == (VideoDetailsView {
                video_id: video_id@,
                title: title@,
                author: author@,
                approx_length,
                views,
                private,
                live,
            }),
    {
        VideoDetails { video_id, title, author, approx_length, views, private, live }
    }

    /// The identifier of the video these details describe.
    pub fn id(&self) -> (r: String)
        ensures
            r@ == self@.video_id,
    {
        self.video_id.clone()
    }
}

impl Clone for VideoDetails {
    /// A clone carries every field over unchanged.
    fn clone(&self) -> (r: Self)
        ensures
            r@ == self@,
    {
        VideoDetails {
            video_id: self.video_id.clone(),
            title: self.title.clone(),
            author: self.author.clone(),
            approx_length: self.approx_length,
            views: self.views,
            private: self.private,
            live: self.live,
        }
    }
}

/// The mathematical content of an [`InfoResponse`].
pub ghost struct InfoResponseView {
    pub streaming_data: StreamingDataView,
    pub video_details: VideoDetailsView,
}

impl InfoResponseView {
    /// The progressive formats the response lists, in document order;
    /// empty when the progressive list is absent.
    pub open spec fn progressive(self) -> Seq<FormatView> {
        match self.streaming_data.formats {
            Some(p) => p,
            None => Seq::empty(),
        }
    }

    /// The adaptive formats the response lists, in document order.
    pub open spec fn adaptive(self) -> Seq<FormatView> {
        self.streaming_data.adaptive_formats
    }
}

/// A metadata response for one video: its format catalog and details.
#[derive(Debug)]
pub struct InfoResponse {
    pub streaming_data: StreamingData,
    pub video_details: VideoDetails,
}

impl View for InfoResponse {
    type V = InfoResponseView;

    open spec fn view(&self) -> InfoResponseView {
        InfoResponseView { streaming_data: self.streaming_data@, video_details: self.video_details@ }
    }
}

impl Clone for InfoResponse {
    /// A clone carries the whole catalog over unchanged.
    fn clone(&self) -> (r: Self)
        ensures
            r@ == self@,
    {
        InfoResponse {
            streaming_data: self.streaming_data.clone(),
            video_details: self.video_details.clone(),
        }
    }
}

impl InfoResponse {
    /// Builds a response from its streaming data and details.
    pub fn new(streaming_data: StreamingData, video_details: VideoDetails) -> (r: InfoResponse)
        ensures
            r@ == (InfoResponseView {
                streaming_data: streaming_data@,
                video_details: video_details@,
            }),
    {
        InfoResponse { streaming_data, video_details }
    }

    /// The progressive formats, sorted by `itag` ascending; `None` when
    /// the response lists none (a live stream).
    pub fn formats(&self) -> (r: Option<Vec<Format>>)
        ensures
            r is Some <==> self@.streaming_data.formats is Some,
            r matches Some(rv) ==> {
                &&& sorted_by_itag(format_views(rv@))
                &&& format_views(rv@).to_multiset() == self@.progressive().to_multiset()
                &&& rv@.len() == self@.progressive().len()
            },
    {
        match &self.streaming_data.formats {
            Some(v) => Some(sort_formats(clone_formats(v))),
            None => None,
        }
    }

    /// The adaptive formats, sorted by `itag` ascending.
    pub fn adaptive_formats(&self) -> (r: Vec<Format>)
        ensures
            sorted_by_itag(format_views(r@)),
            format_views(r@).to_multiset() == self@.adaptive().to_multiset(),
            r@.len() == self@.adaptive().len(),
    {
        sort_formats(clone_formats(&self.streaming_data.adaptive_formats))
    }

    /// The details of the video this response describes.
    pub fn details(&self) -> (r: VideoDetails)
        ensures
            r@ == self@.video_details,
    {
        self.video_details.clone()
    }

    /// Every format the response offers: the progressive formats (when
    /// present), sorted by `itag`, followed by the adaptive formats,
    /// sorted by `itag`.
    pub fn all_formats(&self) -> (r: Vec<Format>)
        ensures
            r@.len() == self@.progressive().len() + self@.adaptive().len(),
            sorted_by_itag(format_views(r@).subrange(0, self@.progressive().len() as int)),
            format_views(r@).subrange(0, self@.progressive().len() as int).to_multiset()
                == self@.progressive().to_multiset(),
            sorted_by_itag(
                format_views(r@).subrange(self@.progressive().len() as int, r@.len() as int),
            ),
            format_views(r@).subrange(self@.progressive().len() as int, r@.len() as int)
                .to_multiset() == self@.adaptive().to_multiset(),
    {
        let mut out: Vec<Format> = match self.formats() {
            Some(f) => f,
            None => Vec::new(),
        };
        let mut ad = self.adaptive_formats();
        let ghost head = out@;
        let ghost tail = ad@;
        out.append(&mut ad);
        proof {
            assert(out@ == head + tail);
            assert(format_views(out@).subrange(0, head.len() as int) =~= format_views(head));
            assert(format_views(out@).subrange(head.len() as int, out@.len() as int) =~= format_views(
                tail,
            ));
            if self@.streaming_data.formats is None {
                assert(format_views(head) =~= self@.progressive());
            }
        }
        out
    }
}

} // verus!
