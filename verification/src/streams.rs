//! Bookkeeping of the image and video streams that source nodes read from.
//!
//! Streams are opened on a loader thread. A node keeps at most one stream:
//! asking for a stream with another file or kind drops the node's old one.
//! While a stream loads, requests for it answer "loading", and a loading
//! notice is emitted once per load. This module keeps the cache, the pending
//! loads and the notices; opening streams and moving them between threads is
//! the caller's work.
use vstd::prelude::*;
use crate::schema::EngineNodeId;
use crate::text::text_eq;

verus! {

/// Whether a stream shows one still image or plays a video.
#[derive(Clone, Copy, Debug, PartialEq, Eq, Structural, Hash)]
pub enum StreamKind {
    Image,
    Video,
}

/// A source node's request for its stream.
#[derive(Debug)]
pub struct NodeFrameStreamRequest {
    pub node_id: EngineNodeId,
    pub file_path: String,
    pub stream_kind: StreamKind,
}

/// What identifies a stream: the node, the file and the kind.
pub type StreamKeyView = (u64, Seq<char>, StreamKind);

/// The key of a request's stream.
pub open spec fn request_key(r: NodeFrameStreamRequest) -> StreamKeyView {
    (r.node_id.0, r.file_path@, r.stream_kind)
}

/// A stream's key.
#[derive(Debug)]
pub struct StreamKey {
    pub node_id: EngineNodeId,
    pub file_path: String,
    pub stream_kind: StreamKind,
}

impl View for StreamKey {
    type V = StreamKeyView;

    open spec fn view(&self) -> StreamKeyView {
        (self.node_id.0, self.file_path@, self.stream_kind)
    }
}

/// Whether two keys name the same stream.
fn same_key(a: &StreamKey, b: &StreamKey) -> (r: bool)
    ensures
        r == (a@ == b@),
{
    a.node_id == b.node_id && a.stream_kind == b.stream_kind && text_eq(a.file_path.as_str(), b.file_path.as_str())
}

/// A key of `node` other than `k` is dropped when `k` is requested.
pub open spec fn kept_for(k: StreamKeyView) -> spec_fn(StreamKeyView) -> bool {
    |c: StreamKeyView| c.0 != k.0 || c == k
}

/// The answer to a stream request.
#[derive(Clone, Copy, Debug, PartialEq, Eq, Structural)]
pub enum StreamStatus {
    /// The stream is open: use it.
    Ready,
    /// The stream is loading. `announce`: emit the node's loading notice now
    /// (once per load). `request_load`: hand the request to the loader
    /// (the load was not pending yet).
    Loading { announce: bool, request_load: bool },
}

/// The open streams (`S`), the loads in progress and the loads whose notice
/// was emitted.
#[derive(Debug)]
pub struct StreamBook<S> {
    cache: Vec<(StreamKey, S)>,
    pending: Vec<StreamKey>,
    announced: Vec<StreamKey>,
    paused: bool,
}

/// The keys of a list of keys.
pub open spec fn key_views(s: Seq<StreamKey>) -> Seq<StreamKeyView> {
    s.map_values(|k: StreamKey| k@)
}

/// The key of an entry.
pub open spec fn entry_key<S>(e: (StreamKey, S)) -> StreamKeyView {
    e.0@
}

impl<S> StreamBook<S> {
    /// The keys of the open streams, in the order they were opened.
    pub closed spec fn cached_keys(self) -> Seq<StreamKeyView> {
        self.cache@.map_values(|e: (StreamKey, S)| entry_key(e))
    }

    /// The open streams, in the order of [Self::cached_keys].
    pub closed spec fn cached_streams(self) -> Seq<S> {
        self.cache@.map_values(|e: (StreamKey, S)| e.1)
    }

    /// The loads in progress.
    pub closed spec fn pending_keys(self) -> Seq<StreamKeyView> {
        key_views(self.pending@)
    }

    /// The loads whose notice was emitted.
    pub closed spec fn announced_keys(self) -> Seq<StreamKeyView> {
        key_views(self.announced@)
    }

    /// Whether streams are paused.
    pub closed spec fn is_paused(self) -> bool {
        self.paused
    }

    /// Nothing open, nothing loading, playing.
    pub fn new() -> (r: Self)
        ensures
            r.cached_keys() == Seq::<StreamKeyView>::empty(),
            r.pending_keys() == Seq::<StreamKeyView>::empty(),
            r.announced_keys() == Seq::<StreamKeyView>::empty(),
            !r.is_paused(),
    {
        let r = StreamBook { cache: Vec::new(), pending: Vec::new(), announced: Vec::new(), paused: false };
        assert(r.cached_keys() =~= Seq::<StreamKeyView>::empty());
        assert(r.pending_keys() =~= Seq::<StreamKeyView>::empty());
        assert(r.announced_keys() =~= Seq::<StreamKeyView>::empty());
        r
    }

    /// Whether streams are paused.
    pub fn paused(&self) -> (r: bool)
        ensures
            r == self.is_paused(),
    {
        self.paused
    }

    /// Records that streams are paused or playing.
    pub fn set_paused(&mut self, paused: bool)
        ensures
            final(self).is_paused() == paused,
            final(self).cached_keys() == old(self).cached_keys(),
            final(self).pending_keys() == old(self).pending_keys(),
            final(self).announced_keys() == old(self).announced_keys(),
    {
        self.paused = paused;
    }

    /// The position of the first open stream with key `k`.
    fn cache_index(&self, k: &StreamKey) -> (r: Option<usize>)
        ensures
            match r {
                Some(i) => i < self.cache@.len() && self.cached_keys()[i as int] == k@,
                None => !self.cached_keys().contains(k@),
            },
    {
        let mut i: usize = 0;
        while i < self.cache.len()
            invariant
                i <= self.cache@.len(),
                forall|j: int| 0 <= j < i ==> self.cache@[j].0@ != k@,
            decreases self.cache.len() - i,
        {
            if same_key(&self.cache[i].0, k) {
                return Some(i);
            }
            i = i + 1;
        }
        proof {
            if self.cached_keys().contains(k@) {
                let j = choose|j: int| 0 <= j < self.cached_keys().len() && self.cached_keys()[j] == k@;
                assert(self.cache@[j].0@ == k@);
            }
        }
        None
    }

    /// The open stream with key `k`, if any.
    pub fn stream_mut(&mut self, k: &StreamKey) -> (r: Option<&mut S>)
        ensures
            r is None <==> !old(self).cached_keys().contains(k@),
            final(self).cached_keys() == old(self).cached_keys(),
            final(self).pending_keys() == old(self).pending_keys(),
            final(self).announced_keys() == old(self).announced_keys(),
            final(self).is_paused() == old(self).is_paused(),
    {
        match self.cache_index(k) {
            Some(i) => {
                assert(old(self).cached_keys().contains(k@)) by {
                    assert(old(self).cached_keys()[i as int] == k@);
                }
                let entry = &mut self.cache[i];
                Some(&mut entry.1)
            },
            None => None,
        }
    }
}

/// Whether the stream under key `c` follows the engine's target frame rate:
/// a video stream keeps its own timing, and with `active` given only the
/// streams of its nodes follow.
pub open spec fn retargeted(c: StreamKeyView, active: Option<Seq<EngineNodeId>>) -> bool {
    &&& c.2 != StreamKind::Video
    &&& match active {
        None => true,
        Some(a) => a.contains(EngineNodeId(c.0)),
    }
}

/// The positions among the first `n` keys whose streams follow the target
/// frame rate, in order.
pub open spec fn retarget_positions(keys: Seq<StreamKeyView>, active: Option<Seq<EngineNodeId>>, n: int) -> Seq<usize>
    decreases n,
{
    if n <= 0 {
        Seq::empty()
    } else if retargeted(keys[n - 1], active) {
        retarget_positions(keys, active, n - 1).push((n - 1) as usize)
    } else {
        retarget_positions(keys, active, n - 1)
    }
}

/// The view of an optional list of node ids.
pub open spec fn active_view(active: Option<&Vec<EngineNodeId>>) -> Option<Seq<EngineNodeId>> {
    match active {
        None => None,
        Some(a) => Some(a@),
    }
}

/// Whether `id` is in `ids`.
fn has_node_id(ids: &Vec<EngineNodeId>, id: EngineNodeId) -> (r: bool)
    ensures
        r == ids@.contains(id),
{
    let mut i: usize = 0;
    while i < ids.len()
        invariant
            i <= ids@.len(),
            forall|j: int| 0 <= j < i ==> ids@[j] != id,
        decreases ids.len() - i,
    {
        if ids[i] == id {
            return true;
        }
        i = i + 1;
    }
    false
}

impl<S> StreamBook<S> {
    /// The positions of the open streams that a new target frame rate
    /// reaches: every stream but a video, and with `active` given only those
    /// of its nodes.
    pub fn retarget_positions(&self, active: Option<&Vec<EngineNodeId>>) -> (r: Vec<usize>)
        ensures
            r@ == retarget_positions(self.cached_keys(), active_view(active), self.cached_keys().len() as int),
    {
        let mut r: Vec<usize> = Vec::new();
        let mut i: usize = 0;
        while i < self.cache.len()
            invariant
                i <= self.cache@.len(),
                self.cached_keys().len() == self.cache@.len(),
                r@ == retarget_positions(self.cached_keys(), active_view(active), i as int),
            decreases self.cache.len() - i,
        {
            let key = &self.cache[i].0;
            assert(self.cached_keys()[i as int] == key@);
            let follows = match key.stream_kind {
                StreamKind::Video => false,
                StreamKind::Image => match active {
                    None => true,
                    Some(a) => has_node_id(a, key.node_id),
                },
            };
            if follows {
                r.push(i);
            }
            i = i + 1;
        }
        r
    }

    /// The open stream at position `i`.
    pub fn stream_at_mut(&mut self, i: usize) -> (r: &mut S)
        requires
            i < old(self).cached_keys().len(),
        ensures
            *r == old(self).cached_streams()[i as int],
            final(self).cached_streams() == old(self).cached_streams().update(i as int, *final(r)),
            final(self).cached_keys() == old(self).cached_keys(),
            final(self).pending_keys() == old(self).pending_keys(),
            final(self).announced_keys() == old(self).announced_keys(),
            final(self).is_paused() == old(self).is_paused(),
    {
        let entry = &mut self.cache[i];
        &mut entry.1
    }
}

/// The keys of `v` that `kept_for(k)` holds for, in order.
fn retain_kept(v: Vec<StreamKey>, k: &StreamKey) -> (r: Vec<StreamKey>)
    ensures
        key_views(r@) == key_views(v@).filter(kept_for(k@)),
{
    let ghost keep = kept_for(k@);
    let ghost total = v@;
    let ghost kv = key_views(total);
    let mut out: Vec<StreamKey> = Vec::new();
    let mut rest = v;
    let n = rest.len();
    let mut i: usize = 0;
    while i < n
        invariant
            n == total.len(),
            kv == key_views(total),
            keep == kept_for(k@),
            i <= n,
            rest@ == total.skip(i as int),
            key_views(out@) == kv.take(i as int).filter(keep),
        decreases n - i,
    {
        proof {
            crate::library::lemma_filter_take_step(kv, keep, i as int);
        }
        let c = rest.remove(0);
        assert(total.skip(i as int)[0] == total[i as int]);
        assert(rest@ =~= total.skip(i + 1));
        if c.node_id != k.node_id || same_key(&c, k) {
            let ghost before = out@;
            out.push(c);
            assert(key_views(out@) =~= key_views(before).push(c@));
        }
        i = i + 1;
    }
    proof {
        crate::library::lemma_filter_take_all(kv, keep);
    }
    out
}

/// A key other than `k`.
pub open spec fn other_than(k: StreamKeyView) -> spec_fn(StreamKeyView) -> bool {
    |c: StreamKeyView| c != k
}

/// The keys of `v` other than `k`, in order.
fn remove_key(v: Vec<StreamKey>, k: &StreamKey) -> (r: Vec<StreamKey>)
    ensures
        key_views(r@) == key_views(v@).filter(other_than(k@)),
{
    let ghost keep = other_than(k@);
    let ghost total = v@;
    let ghost kv = key_views(total);
    let mut out: Vec<StreamKey> = Vec::new();
    let mut rest = v;
    let n = rest.len();
    let mut i: usize = 0;
    while i < n
        invariant
            n == total.len(),
            kv == key_views(total),
            keep == other_than(k@),
            i <= n,
            rest@ == total.skip(i as int),
            key_views(out@) == kv.take(i as int).filter(keep),
        decreases n - i,
    {
        proof {
            crate::library::lemma_filter_take_step(kv, keep, i as int);
        }
        let c = rest.remove(0);
        assert(total.skip(i as int)[0] == total[i as int]);
        assert(rest@ =~= total.skip(i + 1));
        if !same_key(&c, k) {
            let ghost before = out@;
            out.push(c);
            assert(key_views(out@) =~= key_views(before).push(c@));
        }
        i = i + 1;
    }
    proof {
        crate::library::lemma_filter_take_all(kv, keep);
    }
    out
}

/// Whether a list of keys holds `k`.
fn has_key(v: &Vec<StreamKey>, k: &StreamKey) -> (r: bool)
    ensures
        r == key_views(v@).contains(k@),
{
    let mut i: usize = 0;
    while i < v.len()
        invariant
            i <= v@.len(),
            forall|j: int| 0 <= j < i ==> v@[j]@ != k@,
        decreases v.len() - i,
    {
        if same_key(&v[i], k) {
            assert(key_views(v@)[i as int] == k@);
            return true;
        }
        i = i + 1;
    }
    proof {
        if key_views(v@).contains(k@) {
            let j = choose|j: int| 0 <= j < key_views(v@).len() && key_views(v@)[j] == k@;
            assert(v@[j]@ == k@);
        }
    }
    false
}

/// A copy of a key.
fn copy_key(k: &StreamKey) -> (r: StreamKey)
    ensures
        r@ == k@,
{
    StreamKey { node_id: k.node_id, file_path: k.file_path.clone(), stream_kind: k.stream_kind }
}

/// What a request for the stream with key `k` does to the open streams,
/// the pending loads and the emitted notices, and its answer: the node's
/// keys for other files or kinds are dropped; the stream is ready if open,
/// else its load is (or already was) pending and its notice is emitted
/// once per load when `emit` holds.
pub open spec fn request_outcome(
    cached: Seq<StreamKeyView>,
    pending: Seq<StreamKeyView>,
    announced: Seq<StreamKeyView>,
    k: StreamKeyView,
    emit: bool,
) -> (Seq<StreamKeyView>, Seq<StreamKeyView>, Seq<StreamKeyView>, StreamStatus) {
    let keep = kept_for(k);
    let c = cached.filter(keep);
    let p = pending.filter(keep);
    let a = announced.filter(keep);
    if c.contains(k) {
        (c, p, a, StreamStatus::Ready)
    } else {
        (
            c,
            if p.contains(k) { p } else { p.push(k) },
            if emit && !a.contains(k) { a.push(k) } else { a },
            StreamStatus::Loading { announce: emit && !a.contains(k), request_load: !p.contains(k) },
        )
    }
}

impl<S> StreamBook<S> {
    /// Answers a request for a stream. Streams, loads and notices of the
    /// requesting node for another file or kind are dropped first (a node
    /// keeps one source); the stream is then ready if open, else its load
    /// is (or already was) pending, and its notice is emitted once per load
    /// when `emit_events`.
    pub fn request(&mut self, request: &NodeFrameStreamRequest, emit_events: bool) -> (r: StreamStatus)
        ensures
            (final(self).cached_keys(), final(self).pending_keys(), final(self).announced_keys(), r)
                == request_outcome(
                old(self).cached_keys(),
                old(self).pending_keys(),
                old(self).announced_keys(),
                request_key(*request),
                emit_events,
            ),
            final(self).is_paused() == old(self).is_paused(),
    {
        let key = StreamKey {
            node_id: request.node_id,
            file_path: request.file_path.clone(),
            stream_kind: request.stream_kind,
        };
        let ghost k = request_key(*request);
        assert(key@ == k);
        let ghost keep = kept_for(k);
        let ghost old_cached = self.cached_keys();
        let mut cache: Vec<(StreamKey, S)> = Vec::new();
        std::mem::swap(&mut cache, &mut self.cache);
        let mut kept: Vec<(StreamKey, S)> = Vec::new();
        let ghost total = cache@;
        let ghost kv = total.map_values(|e: (StreamKey, S)| entry_key(e));
        let n = cache.len();
        let mut i: usize = 0;
        while i < n
            invariant
                n == total.len(),
                kv == total.map_values(|e: (StreamKey, S)| entry_key(e)),
                keep == kept_for(k),
                key@ == k,
                i <= n,
                cache@ == total.skip(i as int),
                kept@.map_values(|e: (StreamKey, S)| entry_key(e)) == kv.take(i as int).filter(keep),
            decreases n - i,
        {
            proof {
                crate::library::lemma_filter_take_step(kv, keep, i as int);
            }
            let e = cache.remove(0);
            assert(total.skip(i as int)[0] == total[i as int]);
            assert(cache@ =~= total.skip(i + 1));
            if e.0.node_id != key.node_id || same_key(&e.0, &key) {
                let ghost before = kept@;
                kept.push(e);
                assert(kept@.map_values(|e: (StreamKey, S)| entry_key(e)) =~= before.map_values(
                    |e: (StreamKey, S)| entry_key(e),
                ).push(kv[i as int]));
            }
            i = i + 1;
        }
        proof {
            crate::library::lemma_filter_take_all(kv, keep);
        }
        self.cache = kept;
        let mut pending: Vec<StreamKey> = Vec::new();
        std::mem::swap(&mut pending, &mut self.pending);
        let mut pending = retain_kept(pending, &key);
        let mut announced: Vec<StreamKey> = Vec::new();
        std::mem::swap(&mut announced, &mut self.announced);
        let mut announced = retain_kept(announced, &key);
        if self.cache_index(&key).is_some() {
            self.pending = pending;
            self.announced = announced;
            return StreamStatus::Ready;
        }
        let announce = emit_events && !has_key(&announced, &key);
        if announce {
            let ghost before = announced@;
            announced.push(copy_key(&key));
            assert(key_views(announced@) =~= key_views(before).push(k));
        }
        let request_load = !has_key(&pending, &key);
        if request_load {
            let ghost before = pending@;
            pending.push(key);
            assert(key_views(pending@) =~= key_views(before).push(k));
        }
        self.pending = pending;
        self.announced = announced;
        StreamStatus::Loading { announce, request_load }
    }

    /// Records a finished load: it is no longer pending or announced, and a
    /// stream that opened joins the cache (replacing the open stream with
    /// its key, if any). The caller pauses or plays the stream to match
    /// [Self::paused] before handing it over.
    pub fn finish_load(&mut self, key: StreamKey, stream: Option<S>)
        ensures
            final(self).pending_keys() == old(self).pending_keys().filter(other_than(key@)),
            final(self).announced_keys() == old(self).announced_keys().filter(other_than(key@)),
            final(self).is_paused() == old(self).is_paused(),
            final(self).cached_keys() == (if stream is None || old(self).cached_keys().contains(key@) {
                old(self).cached_keys()
            } else {
                old(self).cached_keys().push(key@)
            }),
    {
        let mut pending: Vec<StreamKey> = Vec::new();
        std::mem::swap(&mut pending, &mut self.pending);
        self.pending = remove_key(pending, &key);
        let mut announced: Vec<StreamKey> = Vec::new();
        std::mem::swap(&mut announced, &mut self.announced);
        self.announced = remove_key(announced, &key);
        match stream {
            None => {},
            Some(s) => {
                let ghost before = self.cached_keys();
                let ghost kview = key@;
                match self.cache_index(&key) {
                    Some(i) => {
                        let mut cache: Vec<(StreamKey, S)> = Vec::new();
                        std::mem::swap(&mut cache, &mut self.cache);
                        let ghost c0 = cache@;
                        cache.set(i, (key, s));
                        proof {
                            assert(cache@.map_values(|e: (StreamKey, S)| entry_key(e)) =~= c0.map_values(
                                |e: (StreamKey, S)| entry_key(e),
                            ));
                            assert(before.contains(kview)) by {
                                assert(before[i as int] == kview);
                            }
                        }
                        self.cache = cache;
                    },
                    None => {
                        let mut cache: Vec<(StreamKey, S)> = Vec::new();
                        std::mem::swap(&mut cache, &mut self.cache);
                        let ghost c0 = cache@;
                        cache.push((key, s));
                        proof {
                            assert(cache@.map_values(|e: (StreamKey, S)| entry_key(e)) =~= c0.map_values(
                                |e: (StreamKey, S)| entry_key(e),
                            ).push(kview));
                        }
                        self.cache = cache;
                    },
                }
            },
        }
    }

    /// Drops every stream, load and notice.
    pub fn clear(&mut self)
        ensures
            final(self).cached_keys() == Seq::<StreamKeyView>::empty(),
            final(self).pending_keys() == Seq::<StreamKeyView>::empty(),
            final(self).announced_keys() == Seq::<StreamKeyView>::empty(),
            final(self).is_paused() == old(self).is_paused(),
    {
        self.cache = Vec::new();
        self.pending = Vec::new();
        self.announced = Vec::new();
        assert(self.cached_keys() =~= Seq::<StreamKeyView>::empty());
        assert(self.pending_keys() =~= Seq::<StreamKeyView>::empty());
        assert(self.announced_keys() =~= Seq::<StreamKeyView>::empty());
    }
}

/// After a request, every open stream, pending load and emitted notice of
/// the requesting node is for the requested file and kind.
pub proof fn lemma_one_source_per_node(before: Seq<StreamKeyView>, k: StreamKeyView, x: StreamKeyView)
    requires
        before.filter(kept_for(k)).contains(x) || x == k,
        x.0 == k.0,
    ensures
        x == k,
{
    broadcast use vstd::seq_lib::group_filter_ensures;

    if before.filter(kept_for(k)).contains(x) {
        let i = choose|i: int| 0 <= i < before.filter(kept_for(k)).len() && before.filter(kept_for(k))[i] == x;
        before.lemma_filter_pred(kept_for(k), i);
    }
}

proof fn lemma_filter_again<A>(s: Seq<A>, p: spec_fn(A) -> bool)
    ensures
        s.filter(p).filter(p) == s.filter(p),
    decreases s.len(),
{
    reveal(Seq::filter);
    if s.len() > 0 {
        lemma_filter_again(s.drop_last(), p);
        let f = s.drop_last().filter(p);
        if p(s.last()) {
            assert(f.push(s.last()).drop_last() =~= f);
        }
    }
}

proof fn lemma_filter_push_kept<A>(s: Seq<A>, p: spec_fn(A) -> bool, x: A)
    requires
        p(x),
    ensures
        s.push(x).filter(p) == s.filter(p).push(x),
{
    reveal(Seq::filter);
    assert(s.push(x).drop_last() =~= s);
}

/// Until a stream opens, its load is requested once and its loading notice
/// emitted once: asking for it again starts no second load, and emits no
/// notice if the first request emitted one.
pub proof fn lemma_load_requested_once(
    cached: Seq<StreamKeyView>,
    pending: Seq<StreamKeyView>,
    announced: Seq<StreamKeyView>,
    k: StreamKeyView,
    first_emit: bool,
    second_emit: bool,
)
    requires
        !cached.filter(kept_for(k)).contains(k),
    ensures
        ({
            let first = request_outcome(cached, pending, announced, k, first_emit);
            let second = request_outcome(first.0, first.1, first.2, k, second_emit);
            &&& first.3 is Loading
            &&& second.3 == StreamStatus::Loading { announce: second_emit && !first.2.contains(k), request_load: false }
            &&& first_emit ==> first.2.contains(k)
        }),
{
    let keep = kept_for(k);
    let c = cached.filter(keep);
    let p = pending.filter(keep);
    let a = announced.filter(keep);
    lemma_filter_again(cached, keep);
    lemma_filter_again(pending, keep);
    lemma_filter_again(announced, keep);
    lemma_filter_push_kept(p, keep, k);
    lemma_filter_push_kept(a, keep, k);
    assert(p.push(k).contains(k) && a.push(k).contains(k)) by {
        assert(p.push(k)[p.len() as int] == k);
        assert(a.push(k)[a.len() as int] == k);
    }
}

/// Images larger than this in either dimension are scaled down on load.
pub const MAX_IMAGE_DIMENSION: u32 = 2048;

/// Whether a loaded image is scaled down to fit the size cap.
pub fn exceeds_image_cap(width: u32, height: u32) -> (r: bool)
    ensures
        r == (width > MAX_IMAGE_DIMENSION || height > MAX_IMAGE_DIMENSION),
{
    !(width <= MAX_IMAGE_DIMENSION && height <= MAX_IMAGE_DIMENSION)
}

} // verus!
