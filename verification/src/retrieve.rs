//! Ordered segmented retrieval: a download is a strict in-order walk of
//! a URL sequence. For each URL one fetch is made and its body's chunks
//! are written to the sink, in arrival order, before anything of the
//! next URL is requested. Any transport failure aborts the whole
//! download at that segment's ordinal index; nothing is retried.
//!
//! The walk itself is the [`DownloadSession`] state machine: a driver
//! (an asynchronous transport loop, or a test's mock) requests the next
//! segment, reports arrived chunks, and reports how each segment ended.
//! [`run_download`] is the engine over transcripts a transport returned:
//! it performs the same walk over recorded segment responses.

use vstd::prelude::*;

use crate::dash::string_views;
use crate::errors::RetrievalError;

verus! {

/// The views of a sequence of chunks, element by element.
pub open spec fn chunk_views(cs: Seq<Vec<u8>>) -> Seq<Seq<u8>> {
    cs.map_values(|c: Vec<u8>| c@)
}

/// The bytes of a sequence of chunks, concatenated in order.
pub open spec fn concat_all(cs: Seq<Seq<u8>>) -> Seq<u8>
    decreases cs.len(),
{
    if cs.len() == 0 {
        Seq::empty()
    } else {
        cs[0] + concat_all(cs.drop_first())
    }
}

/// Concatenation after appending one more chunk.
pub proof fn lemma_concat_all_snoc(cs: Seq<Seq<u8>>, c: Seq<u8>)
    ensures
        concat_all(cs.push(c)) == concat_all(cs) + c,
    decreases cs.len(),
{
    if cs.len() == 0 {
        assert(cs.push(c).drop_first() =~= cs);
        assert(concat_all(cs.push(c)) == cs.push(c)[0] + concat_all(cs));
        assert(cs.push(c)[0] + concat_all(cs) =~= concat_all(cs) + c);
    } else {
        assert(cs.push(c).drop_first() =~= cs.drop_first().push(c));
        lemma_concat_all_snoc(cs.drop_first(), c);
        assert(concat_all(cs.push(c)) =~= concat_all(cs) + c);
    }
}

/// The mathematical content of a [`SegmentResponse`].
pub ghost struct SegmentResponseView {
    pub chunks: Seq<Seq<u8>>,
    pub complete: bool,
}

/// What the transport returned for one segment URL: the body chunks in
/// arrival order, and whether the body then ended cleanly (`complete`)
/// or the transport failed after those chunks.
#[derive(Debug)]
pub struct SegmentResponse {
    pub chunks: Vec<Vec<u8>>,
    pub complete: bool,
}

impl View for SegmentResponse {
    type V = SegmentResponseView;

    open spec fn view(&self) -> SegmentResponseView {
        SegmentResponseView { chunks: chunk_views(self.chunks@), complete: self.complete }
    }
}

impl SegmentResponse {
    /// Builds a recorded segment response.
    pub fn new(chunks: Vec<Vec<u8>>, complete: bool) -> (r: SegmentResponse)
        ensures
            r@ == (SegmentResponseView { chunks: chunk_views(chunks@), complete }),
    {
        SegmentResponse { chunks, complete }
    }
}

/// The views of a sequence of segment responses, element by element.
pub open spec fn response_views(rs: Seq<SegmentResponse>) -> Seq<SegmentResponseView> {
    rs.map_values(|r: SegmentResponse| r@)
}

/// The chunks of the first `n` segments, flattened in order: segments
/// in ordinal order, each segment's chunks in arrival order.
pub open spec fn chunks_upto(rs: Seq<SegmentResponseView>, n: int) -> Seq<Seq<u8>>
    decreases n,
{
    if n <= 0 {
        Seq::empty()
    } else {
        chunks_upto(rs, n - 1) + rs[n - 1].chunks
    }
}

/// A segmented download in flight: which segment is next, whether one
/// is being fetched, and whether the walk has ended. The driver calls
/// [`DownloadSession::begin_segment`], then for the returned URL reports
/// each arrived chunk with [`DownloadSession::accept_chunk`] and the
/// segment's end with [`DownloadSession::end_segment`] or
/// [`DownloadSession::fail_segment`], in that order, until the session
/// is finished.
#[derive(Debug)]
pub struct DownloadSession {
    /// The absolute segment URLs, in retrieval order.
    pub urls: Vec<String>,
    /// The ordinal index of the segment being fetched, or of the next
    /// segment to request; equals the count of completed segments.
    pub next: usize,
    /// A segment is in flight: chunks may arrive.
    pub fetching: bool,
    /// The walk ended: every segment completed, or the download aborted.
    pub finished: bool,
}

impl DownloadSession {
    /// The session's bookkeeping is consistent.
    pub open spec fn wf(&self) -> bool {
        &&& self.next <= self.urls@.len()
        &&& (self.fetching ==> self.next < self.urls@.len() && !self.finished)
    }

    /// Starts a session over the given URL sequence.
    pub fn new(urls: Vec<String>) -> (r: DownloadSession)
        ensures
            r.wf(),
            string_views(r.urls@) == string_views(urls@),
            r.urls@.len() == urls@.len(),
            r.next == 0,
            !r.fetching,
            !r.finished,
    {
        DownloadSession { urls, next: 0, fetching: false, finished: false }
    }

    /// Requests the next segment. Returns its URL and marks it in
    /// flight; or, when every segment has completed, ends the walk and
    /// returns nothing. Segments are requested strictly in ordinal
    /// order, and never after a failure.
    pub fn begin_segment(&mut self) -> (r: Option<String>)
        requires
            old(self).wf(),
            !old(self).fetching,
            !old(self).finished,
        ensures
            final(self).wf(),
            final(self).urls@ == old(self).urls@,
            final(self).next == old(self).next,
            old(self).next < old(self).urls@.len() ==> {
                &&& r matches Some(u) && u@ == old(self).urls@[old(self).next as int]@
                &&& final(self).fetching
                &&& !final(self).finished
            },
            old(self).next == old(self).urls@.len() ==> {
                &&& r is None
                &&& !final(self).fetching
                &&& final(self).finished
            },
    {
        if self.next < self.urls.len() {
            self.fetching = true;
            Some(self.urls[self.next].clone())
        } else {
            self.finished = true;
            None
        }
    }

    /// Reports one arrived chunk of the segment in flight. The chunk
    /// was first handed to the caller's per-chunk observer;
    /// `callback_ok` says whether the observer accepted it. An accepted
    /// chunk is appended to the sink; a refused chunk aborts the whole
    /// download at this segment's ordinal index, fail-fast, writing
    /// nothing.
    pub fn accept_chunk(&mut self, sink: &mut Vec<u8>, chunk: &[u8], callback_ok: bool) -> (r:
        Option<RetrievalError>)
        requires
            old(self).wf(),
            old(self).fetching,
        ensures
            final(self).wf(),
            final(self).urls@ == old(self).urls@,
            final(self).next == old(self).next,
            callback_ok ==> {
                &&& r is None
                &&& final(sink)@ == old(sink)@ + chunk@
                &&& final(self).fetching
                &&& !final(self).finished
            },
            !callback_ok ==> {
                &&& r == Some((RetrievalError::CallbackFailure { index: old(self).next }))
                &&& final(sink)@ == old(sink)@
                &&& !final(self).fetching
                &&& final(self).finished
            },
    {
        if callback_ok {
            sink.extend_from_slice(chunk);
            None
        } else {
            self.fetching = false;
            self.finished = true;
            Some(RetrievalError::CallbackFailure { index: self.next })
        }
    }

    /// Reports that the segment in flight ended cleanly: its body is
    /// fully written. The walk moves to the next ordinal index.
    pub fn end_segment(&mut self)
        requires
            old(self).wf(),
            old(self).fetching,
        ensures
            final(self).wf(),
            final(self).urls@ == old(self).urls@,
            final(self).next == old(self).next + 1,
            !final(self).fetching,
            !final(self).finished,
    {
        let total = self.urls.len();
        proof {
            assert(self.next < total);
        }
        self.fetching = false;
        self.next = self.next + 1;
    }

    /// Reports that the transport failed while fetching the segment in
    /// flight. The whole download aborts; the returned error carries
    /// the failing segment's ordinal index.
    pub fn fail_segment(&mut self) -> (r: RetrievalError)
        requires
            old(self).wf(),
            old(self).fetching,
        ensures
            final(self).wf(),
            final(self).urls@ == old(self).urls@,
            final(self).next == old(self).next,
            !final(self).fetching,
            final(self).finished,
            r == (RetrievalError::TransportFailure { index: old(self).next }),
    {
        self.fetching = false;
        self.finished = true;
        RetrievalError::TransportFailure { index: self.next }
    }
}

/// Clones a sequence of strings; the views carry over one for one.
pub fn clone_strings(v: &Vec<String>) -> (r: Vec<String>)
    ensures
        string_views(r@) == string_views(v@),
        r@.len() == v@.len(),
{
    let mut out: Vec<String> = Vec::new();
    let mut i: usize = 0;
    while i < v.len()
        invariant
            i <= v.len(),
            string_views(out@) == string_views(v@.subrange(0, i as int)),
        decreases v.len() - i,
    {
        let ghost pre = out@;
        out.push(v[i].clone());
        proof {
            assert(string_views(pre.push(out@[pre.len() as int])) =~= string_views(pre).push(
                out@[pre.len() as int]@,
            ));
            assert(v@.subrange(0, i + 1) =~= v@.subrange(0, i as int).push(v@[i as int]));
            assert(string_views(v@.subrange(0, i as int).push(v@[i as int])) =~= string_views(
                v@.subrange(0, i as int),
            ).push(v@[i as int]@));
            assert(string_views(out@) =~= string_views(v@.subrange(0, i + 1)));
        }
        i += 1;
    }
    proof {
        assert(v@.subrange(0, v@.len() as int) =~= v@);
    }
    out
}

/// Runs a whole download over recorded transport responses, one per
/// URL: segments strictly in ordinal order, each segment's chunks
/// written to the sink in arrival order and appended to `deliveries`
/// (the transcript of what the per-chunk observer is handed), all of a
/// segment before anything of the next. The download succeeds exactly
/// when every segment's response is complete; the first incomplete
/// response aborts the walk with that segment's ordinal index, after
/// its arrived chunks and before any later segment's byte.
pub fn run_download(
    urls: &Vec<String>,
    responses: &Vec<SegmentResponse>,
    sink: &mut Vec<u8>,
    deliveries: &mut Vec<Vec<u8>>,
) -> (r: Result<(), RetrievalError>)
    requires
        responses@.len() == urls@.len(),
    ensures
        ({
            let rv = response_views(responses@);
            &&& (r is Ok <==> (forall|k: int|
                0 <= k < rv.len() ==> #[trigger] rv[k].complete))
            &&& (r is Ok ==> {
                &&& final(sink)@ == old(sink)@ + concat_all(chunks_upto(rv, rv.len() as int))
                &&& chunk_views(final(deliveries)@) == chunk_views(old(deliveries)@)
                    + chunks_upto(rv, rv.len() as int)
            })
            &&& (r matches Err(e) ==> {
                &&& e matches RetrievalError::TransportFailure { index }
                &&& (index as int) < rv.len()
                &&& !rv[index as int].complete
                &&& (forall|k: int| 0 <= k < index as int ==> #[trigger] rv[k].complete)
                &&& final(sink)@ == old(sink)@ + concat_all(chunks_upto(rv, index as int + 1))
                &&& chunk_views(final(deliveries)@) == chunk_views(old(deliveries)@)
                    + chunks_upto(rv, index as int + 1)
            })
        }),
{
    let ghost rv = response_views(responses@);
    let ghost sink0 = sink@;
    let ghost del0 = chunk_views(deliveries@);
    let mut session = DownloadSession::new(clone_strings(urls));
    loop
        invariant
            session.wf(),
            !session.fetching,
            !session.finished,
            session.urls@.len() == urls@.len(),
            responses@.len() == urls@.len(),
            rv == response_views(responses@),
            session.next <= rv.len(),
            forall|k: int| 0 <= k < session.next ==> #[trigger] rv[k].complete,
            sink@ == sink0 + concat_all(chunks_upto(rv, session.next as int)),
            chunk_views(deliveries@) == del0 + chunks_upto(rv, session.next as int),
            sink0 == old(sink)@,
            del0 == chunk_views(old(deliveries)@),
        decreases rv.len() - session.next,
    {
        let cur = session.next;
        match session.begin_segment() {
            None => {
                return Ok(());
            },
            Some(_url) => {},
        }
        let ghost seg = rv[cur as int];
        let mut j: usize = 0;
        while j < responses[cur].chunks.len()
            invariant
                session.wf(),
                session.fetching,
                session.next == cur,
                session.urls@.len() == urls@.len(),
                responses@.len() == urls@.len(),
                rv == response_views(responses@),
                (cur as int) < rv.len(),
                seg == rv[cur as int],
                j <= seg.chunks.len(),
                forall|k: int| 0 <= k < cur ==> #[trigger] rv[k].complete,
                sink@ == sink0 + concat_all(
                    chunks_upto(rv, cur as int) + seg.chunks.subrange(0, j as int),
                ),
                chunk_views(deliveries@) == del0 + chunks_upto(rv, cur as int)
                    + seg.chunks.subrange(0, j as int),
                sink0 == old(sink)@,
                del0 == chunk_views(old(deliveries)@),
            decreases seg.chunks.len() - j,
        {
            let ghost dpre = deliveries@;
            deliveries.push(responses[cur].chunks[j].clone());
            let res = session.accept_chunk(sink, responses[cur].chunks[j].as_slice(), true);
            proof {
                assert(res is None);
                assert(chunk_views(dpre.push(deliveries@[dpre.len() as int])) =~= chunk_views(dpre)
                    .push(deliveries@[dpre.len() as int]@));
                let done = chunks_upto(rv, cur as int) + seg.chunks.subrange(0, j as int);
                lemma_concat_all_snoc(done, seg.chunks[j as int]);
                assert(done.push(seg.chunks[j as int]) =~= chunks_upto(rv, cur as int)
                    + seg.chunks.subrange(0, j + 1));
                assert(sink@ == sink0 + concat_all(
                    chunks_upto(rv, cur as int) + seg.chunks.subrange(0, j + 1),
                ));
                assert(chunk_views(deliveries@) =~= del0 + chunks_upto(rv, cur as int)
                    + seg.chunks.subrange(0, j + 1));
            }
            j += 1;
        }
        proof {
            assert(seg.chunks.subrange(0, seg.chunks.len() as int) =~= seg.chunks);
            assert(chunks_upto(rv, cur as int + 1) == chunks_upto(rv, cur as int) + seg.chunks);
        }
        if responses[cur].complete {
            session.end_segment();
            proof {
                assert(chunk_views(deliveries@) =~= del0 + chunks_upto(rv, cur as int + 1));
            }
        } else {
            let e = session.fail_segment();
            proof {
                assert(!rv[cur as int].complete);
                assert(sink@ == sink0 + concat_all(chunks_upto(rv, cur as int + 1)));
                assert(chunk_views(deliveries@) =~= del0 + chunks_upto(rv, cur as int + 1));
            }
            return Err(e);
        }
    }
}

} // verus!
