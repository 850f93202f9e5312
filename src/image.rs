//! Lazily materialised remote images: the texture readiness state machine
//! and the store that shares one image per source URL.
use vstd::prelude::*;

use crate::table::{find_key, has_key, index_of as index_of_key, lemma_push_fresh, unique_keys, value_of};
use crate::text::{chars_of, str_eq};

verus! {

/// The source URL of the built-in placeholder image.
pub const DUMMY_PNG: &'static str = "local://dummy.png";

/// Responses at least this large are never written to the disk cache.
pub const DISK_CACHE_CEILING: usize = 1048576;

/// One decoded frame: its size and its pixels, four bytes per pixel.
#[derive(Clone, Debug)]
pub struct Frame {
    pub width: u32,
    pub height: u32,
    pub rgba: Vec<u8>,
}

/// One frame that the renderer holds, known by the handle it gave.
#[derive(Clone, Copy, Debug, PartialEq, Eq)]
pub struct GpuFrame {
    pub timestamp: u32,
    pub handle: u64,
    pub width: u32,
    pub height: u32,
}

/// Where an image's pixels are: nowhere yet, decoded in memory as
/// timestamped frames, or resident in the renderer.
#[derive(Debug)]
pub enum TextureState {
    Unloaded,
    Decoded(Vec<(u32, Frame)>),
    Gpu(Vec<GpuFrame>),
}

/// What the caller of `UrlImage::begin_load` does next.
#[derive(Debug, PartialEq, Eq)]
pub enum LoadStep {
    /// Nothing: the image is loaded, or a load of it is under way.
    Skip,
    /// Look in the disk cache under this file name, then fetch if it is not there.
    Fetch(String),
}

/// A remote image: its URL, its pixels, whether a load has finished (with
/// or without pixels) and whether one is under way.
#[derive(Debug)]
pub struct UrlImage {
    url: String,
    state: TextureState,
    loaded: bool,
    loading: bool,
}

/// The file name under which the disk cache keeps the body of `url`.
pub uninterp spec fn url_cache_name(url: Seq<char>) -> Seq<char>;

/// Relies on `uuid::Uuid::new_v3` over the URL namespace: a name-based
/// identifier that depends on the URL's bytes alone, written in its
/// hyphenated form.
#[verifier::external_body]
fn cache_file_name(url: &str) -> (r: String)
    ensures
        r@ == url_cache_name(url@),
{
    uuid::Uuid::new_v3(&uuid::Uuid::NAMESPACE_URL, url.as_bytes()).to_string()
}

/// The timestamps of a sequence of renderer frames.
pub open spec fn timestamps(h: Seq<GpuFrame>) -> Seq<u32> {
    h.map_values(|f: GpuFrame| f.timestamp)
}

/// The animation position that `clock` falls on: the clock modulo the last
/// timestamp, or 0 for a still image.
pub open spec fn animation_position(ts: Seq<u32>, clock: nat) -> nat
    recommends
        ts.len() > 0,
{
    if ts.last() > 0 {
        clock % (ts.last() as nat)
    } else {
        0
    }
}

/// The last index whose timestamp is at most `t`, or -1 where there is none.
pub open spec fn last_at_most(ts: Seq<u32>, t: nat) -> int
    decreases ts.len(),
{
    if ts.len() == 0 {
        -1
    } else if ts.last() <= t {
        ts.len() - 1
    } else {
        last_at_most(ts.drop_last(), t)
    }
}

/// The frame shown at `clock`: the last whose timestamp is at most the
/// animation position, and the last frame where none is.
pub open spec fn frame_index(ts: Seq<u32>, clock: nat) -> int
    recommends
        ts.len() > 0,
{
    let i = last_at_most(ts, animation_position(ts, clock));
    if i < 0 {
        ts.len() - 1
    } else {
        i
    }
}

proof fn lemma_last_at_most_range(ts: Seq<u32>, t: nat)
    ensures
        -1 <= last_at_most(ts, t) < ts.len(),
        last_at_most(ts, t) >= 0 ==> ts[last_at_most(ts, t)] <= t,
        forall|j: int| last_at_most(ts, t) < j < ts.len() ==> ts[j] > t,
    decreases ts.len(),
{
    if ts.len() > 0 && ts.last() > t {
        lemma_last_at_most_range(ts.drop_last(), t);
        assert forall|j: int| last_at_most(ts, t) < j < ts.len() implies ts[j] > t by {
            if j < ts.len() - 1 {
                assert(ts[j] == ts.drop_last()[j]);
            }
        }
    }
}

/// Whether a `Cache-Control` value marks the response immutable.
pub open spec fn is_immutable(cache_control: Option<Seq<char>>) -> bool {
    match cache_control {
        Some(cc) => contains_seq(cc, "immutable"@),
        None => false,
    }
}

/// `needle` occurs in `hay`.
pub open spec fn contains_seq(hay: Seq<char>, needle: Seq<char>) -> bool {
    exists|i: int| 0 <= i && i + needle.len() <= hay.len() && #[trigger] hay.subrange(i, i + needle.len()) == needle
}

/// Whether `needle` occurs in `hay`.
pub fn contains_chars(hay: &Vec<char>, needle: &Vec<char>) -> (r: bool)
    ensures
        r == contains_seq(hay@, needle@),
{
    if needle.len() > hay.len() {
        return false;
    }
    let mut i: usize = 0;
    while i <= hay.len() - needle.len()
        invariant
            needle@.len() <= hay@.len(),
            i <= hay@.len() - needle@.len() + 1,
            forall|j: int| 0 <= j < i ==> #[trigger] hay@.subrange(j, j + needle@.len()) != needle@,
        decreases hay@.len() - i,
    {
        let mut k: usize = 0;
        let mut same = true;
        while k < needle.len()
            invariant
                needle@.len() <= hay@.len(),
                i <= hay@.len() - needle@.len(),
                k <= needle@.len(),
                same == (forall|m: int| 0 <= m < k ==> hay@[i + m] == needle@[m]),
            decreases needle@.len() - k,
        {
            assert(hay@.len() == hay.len());
            if hay[i + k] != needle[k] {
                same = false;
            }
            k = k + 1;
        }
        if same {
            assert(hay@.subrange(i as int, i + needle@.len()) =~= needle@);
            return true;
        }
        assert(hay@.subrange(i as int, i + needle@.len()) != needle@) by {
            let m = choose|m: int| 0 <= m < needle@.len() && hay@[i + m] != needle@[m];
            assert(hay@.subrange(i as int, i + needle@.len())[m] != needle@[m]);
        }
        i = i + 1;
    }
    false
}

/// Whether a fetched body is written to the disk cache: it is marked
/// immutable and is smaller than the ceiling.
pub fn should_persist(cache_control: Option<&str>, len: usize) -> (r: bool)
    ensures
        r == (is_immutable(
            match cache_control {
                Some(c) => Some(c@),
                None => None,
            },
        ) && len < DISK_CACHE_CEILING),
{
    match cache_control {
        Some(c) => {
            let hay = chars_of(c);
            let needle = chars_of("immutable");
            contains_chars(&hay, &needle) && len < DISK_CACHE_CEILING
        },
        None => false,
    }
}

impl UrlImage {
    pub closed spec fn spec_url(&self) -> Seq<char> {
        self.url@
    }

    pub closed spec fn spec_loaded(&self) -> bool {
        self.loaded
    }

    pub closed spec fn spec_loading(&self) -> bool {
        self.loading
    }

    /// The frames the renderer holds, where it holds them.
    pub closed spec fn gpu_frames(&self) -> Option<Seq<GpuFrame>> {
        match &self.state {
            TextureState::Gpu(h) => Some(h@),
            _ => None,
        }
    }

    /// The handle shown at `clock`, where the image is in the renderer.
    pub open spec fn spec_get(&self, clock: nat) -> Option<u64> {
        match self.gpu_frames() {
            Some(h) => if h.len() == 0 {
                None
            } else {
                Some(h[frame_index(timestamps(h), clock)].handle)
            },
            None => None,
        }
    }

    /// The decoded frames, where the image holds them in memory.
    pub closed spec fn decoded_frames_of(&self) -> Option<Seq<(u32, Frame)>> {
        match &self.state {
            TextureState::Decoded(f) => Some(f@),
            _ => None,
        }
    }

    /// The texture state.
    pub closed spec fn texture(&self) -> TextureState {
        self.state
    }

    pub closed spec fn is_unloaded(&self) -> bool {
        self.state is Unloaded
    }

    pub closed spec fn decoded_count(&self) -> Option<nat> {
        match &self.state {
            TextureState::Decoded(f) => Some(f@.len()),
            _ => None,
        }
    }

    /// An image of `url` with nothing loaded yet.
    pub fn from_url(url: String) -> (r: Self)
        ensures
            r.spec_url() == url@,
            !r.spec_loaded(),
            !r.spec_loading(),
            r.is_unloaded(),
    {
        UrlImage { url, state: TextureState::Unloaded, loaded: false, loading: false }
    }

    /// An image whose frames are decoded already; it counts as loaded.
    pub fn with_frames(url: String, frames: Vec<(u32, Frame)>) -> (r: Self)
        ensures
            r.spec_url() == url@,
            r.spec_loaded(),
            !r.spec_loading(),
            r.decoded_count() == Some(frames@.len()),
    {
        UrlImage { url, state: TextureState::Decoded(frames), loaded: true, loading: false }
    }

    pub fn url(&self) -> (r: &str)
        ensures
            r@ == self.spec_url(),
    {
        self.url.as_str()
    }

    /// Whether a load has finished, with pixels or having given up.
    pub fn loaded(&self) -> (r: bool)
        ensures
            r == self.spec_loaded(),
    {
        self.loaded
    }

    /// The size of the first frame that the renderer holds.
    pub fn size(&self) -> (r: Option<(u32, u32)>)
        ensures
            r is Some <==> (self.gpu_frames() matches Some(h) && h.len() > 0),
    {
        match &self.state {
            TextureState::Gpu(h) => {
                if h.len() == 0 {
                    None
                } else {
                    Some((h[0].width, h[0].height))
                }
            },
            _ => None,
        }
    }

    /// The renderer handle to show at animation clock `clock` (milliseconds).
    pub fn get(&self, clock: u64) -> (r: Option<u64>)
        ensures
            r == self.spec_get(clock as nat),
    {
        match &self.state {
            TextureState::Gpu(h) => {
                if h.len() == 0 {
                    return None;
                }
                let last = h[h.len() - 1].timestamp;
                let t: u64 = if last > 0 { clock % (last as u64) } else { 0 };
                let ghost ts = timestamps(h@);
                assert(ts.last() == last);
                assert(t as nat == animation_position(ts, clock as nat));
                let mut i: usize = h.len();
                assert(ts.subrange(0, h@.len() as int) =~= ts);
                while i > 0 && (h[i - 1].timestamp as u64) > t
                    invariant
                        i <= h@.len(),
                        ts == timestamps(h@),
                        last_at_most(ts, t as nat) == last_at_most(ts.subrange(0, i as int), t as nat),
                    decreases i,
                {
                    assert(ts.subrange(0, i as int).drop_last() =~= ts.subrange(0, i - 1));
                    i = i - 1;
                }
                proof {
                    if i > 0 {
                        assert(ts.subrange(0, i as int).last() == ts[i - 1]);
                    } else {
                        assert(ts.subrange(0, 0).len() == 0);
                    }
                }
                let k = if i == 0 { h.len() - 1 } else { i - 1 };
                Some(h[k].handle)
            },
            _ => None,
        }
    }

    /// Starts a load. Nothing is to be done where the image is loaded or a
    /// load is under way; the placeholder URL counts as loaded at once;
    /// otherwise the image is marked as loading and the caller is told the
    /// disk cache name to look under before fetching.
    pub fn begin_load(&mut self) -> (r: LoadStep)
        ensures
            final(self).spec_url() == old(self).spec_url(),
            final(self).gpu_frames() == old(self).gpu_frames(),
            old(self).spec_loaded() || old(self).spec_loading() ==> r == LoadStep::Skip && *final(self) == *old(self),
            !old(self).spec_loaded() && !old(self).spec_loading() && old(self).spec_url() == DUMMY_PNG@ ==> r == LoadStep::Skip && final(self).spec_loaded() && !final(self).spec_loading(),
            !old(self).spec_loaded() && !old(self).spec_loading() && old(self).spec_url() != DUMMY_PNG@ ==> (r matches LoadStep::Fetch(name) && name@ == url_cache_name(old(self).spec_url())) && final(self).spec_loading() && !final(self).spec_loaded(),
    {
        if self.loaded || self.loading {
            return LoadStep::Skip;
        }
        if str_eq(self.url.as_str(), DUMMY_PNG) {
            self.loaded = true;
            return LoadStep::Skip;
        }
        self.loading = true;
        LoadStep::Fetch(cache_file_name(self.url.as_str()))
    }

    /// Ends a load with what was decoded: frames, or nothing where the
    /// fetch or the decode failed. Either way the image is loaded from now on
    /// and is not fetched again.
    pub fn finish_load(&mut self, frames: Option<Vec<(u32, Frame)>>)
        ensures
            final(self).spec_url() == old(self).spec_url(),
            final(self).spec_loaded(),
            !final(self).spec_loading(),
            frames is Some ==> final(self).decoded_count() == Some(frames->0@.len())
                && final(self).decoded_frames_of() == Some(frames->0@),
            frames is None ==> final(self).texture() == old(self).texture() && final(self).gpu_frames() == old(self).gpu_frames(),
    {
        match frames {
            Some(f) => {
                self.state = TextureState::Decoded(f);
            },
            None => {},
        }
        self.loaded = true;
        self.loading = false;
    }

    /// Takes the decoded frames to hand to the renderer: all of them, or only
    /// the first where animation is off. An empty set of frames leaves the
    /// image unloaded; a state other than decoded gives nothing and stays.
    pub fn take_for_upload(&mut self, animate: bool) -> (r: Option<Vec<(u32, Frame)>>)
        ensures
            final(self).spec_url() == old(self).spec_url(),
            final(self).spec_loaded() == old(self).spec_loaded(),
            final(self).spec_loading() == old(self).spec_loading(),
            old(self).decoded_count() is None ==> r is None && *final(self) == *old(self),
            old(self).decoded_count() == Some(0nat) ==> r is None && final(self).is_unloaded(),
            old(self).decoded_count() is Some && old(self).decoded_count()->0 > 0 ==> r is Some && final(self).is_unloaded() && r->0@.len() == (if animate { old(self).decoded_count()->0 } else { 1nat }),
            old(self).decoded_frames_of() is Some && old(self).decoded_frames_of()->0.len() > 0 ==> r is Some
                && r->0@ == (if animate { old(self).decoded_frames_of()->0 } else { old(self).decoded_frames_of()->0.subrange(0, 1) }),
    {
        match &self.state {
            TextureState::Decoded(_) => {},
            _ => {
                return None;
            },
        }
        let mut st = TextureState::Unloaded;
        std::mem::swap(&mut self.state, &mut st);
        match st {
            TextureState::Decoded(mut f) => {
                if f.len() == 0 {
                    None
                } else {
                    if !animate {
                        f.truncate(1);
                    }
                    Some(f)
                }
            },
            _ => None,
        }
    }

    /// Records the frames the renderer now holds.
    pub fn set_gpu(&mut self, frames: Vec<GpuFrame>)
        ensures
            final(self).spec_url() == old(self).spec_url(),
            final(self).spec_loaded() == old(self).spec_loaded(),
            final(self).spec_loading() == old(self).spec_loading(),
            final(self).gpu_frames() == Some(frames@),
    {
        self.state = TextureState::Gpu(frames);
    }

    /// Frees the pixels; the loaded flag stays as it is.
    pub fn unload(&mut self)
        ensures
            final(self).spec_url() == old(self).spec_url(),
            final(self).spec_loaded() == old(self).spec_loaded(),
            final(self).spec_loading() == old(self).spec_loading(),
            final(self).is_unloaded(),
            final(self).gpu_frames() is None,
            final(self).decoded_frames_of() is None,
            forall|c: nat| #[trigger] final(self).spec_get(c) is None,
    {
        self.state = TextureState::Unloaded;
    }

}

/// Two images whose renderer frames are the same show the same frame at the
/// same clock: what `get` returns depends on the frames and the clock alone,
/// so asking again with the same clock gives the same answer.
pub proof fn lemma_get_is_deterministic(a: &UrlImage, b: &UrlImage, clock: nat)
    requires
        a.gpu_frames() == b.gpu_frames(),
    ensures
        a.spec_get(clock) == b.spec_get(clock),
{
}

/// The frame shown is always one of the frames held.
pub proof fn lemma_frame_index_in_range(ts: Seq<u32>, clock: nat)
    requires
        ts.len() > 0,
    ensures
        0 <= frame_index(ts, clock) < ts.len(),
        frame_index(ts, clock) != ts.len() - 1 ==> ts[frame_index(ts, clock)] <= animation_position(ts, clock),
{
    lemma_last_at_most_range(ts, animation_position(ts, clock));
}

/// The images of the process, one per source URL: every reference to a URL
/// shares its entry, so the URL is fetched once until the entry is dropped.
#[derive(Debug)]
pub struct ImageStore {
    images: Vec<(String, UrlImage)>,
}

/// What a request for `url` does to a store: the entry of `url` (made
/// where there was none) goes through `begin_load`, the rest stays.
pub open spec fn request_spec(s0: ImageStore, url: Seq<char>, s1: ImageStore, r: LoadStep) -> bool {
    let before = s0.entry(url);
    &&& s1.wf()
    &&& s1.entry(url) is Some
    &&& forall|u: Seq<char>| u != url ==> #[trigger] s1.entry(u) == s0.entry(u)
    &&& match before {
        Some(e) => e.spec_loaded() || e.spec_loading() ==> r == LoadStep::Skip && s1.entry(url) == s0.entry(url),
        None => true,
    }
    &&& (before is None || !(before->0.spec_loaded() || before->0.spec_loading())) ==> if url == DUMMY_PNG@ {
        r == LoadStep::Skip && s1.entry(url)->0.spec_loaded()
    } else {
        (r matches LoadStep::Fetch(name) && name@ == url_cache_name(url)) && s1.entry(url)->0.spec_loading()
            && !s1.entry(url)->0.spec_loaded()
    }
}

impl ImageStore {
    pub closed spec fn wf(&self) -> bool {
        &&& unique_keys(self.images@)
        &&& forall|i: int| 0 <= i < self.images@.len() ==> #[trigger] self.images@[i].1.spec_url() == self.images@[i].0@
    }

    /// The image of `url`, where the store has one.
    pub closed spec fn entry(&self, url: Seq<char>) -> Option<UrlImage> {
        if has_key(self.images@, url) {
            Some(value_of(self.images@, url))
        } else {
            None
        }
    }

    pub fn new() -> (r: Self)
        ensures
            r.wf(),
            forall|u: Seq<char>| #[trigger] r.entry(u) is None,
    {
        ImageStore { images: Vec::new() }
    }

    /// Drops the images that are not being loaded and whose URL `keep` does
    /// not name.
    pub fn retain(&mut self, keep: &Vec<String>)
        requires
            old(self).wf(),
        ensures
            final(self).wf(),
            forall|u: Seq<char>| #[trigger] final(self).entry(u) == if old(self).entry(u) matches Some(e) && (e.spec_loading()
                || crate::table::views(keep@).contains(u)) {
                old(self).entry(u)
            } else {
                None
            },
    {
        let ghost m = self.images@;
        let mut mask: Vec<bool> = Vec::new();
        let n = self.images.len();
        let mut i: usize = 0;
        while i < n
            invariant
                n == m.len(),
                m == self.images@,
                i <= n,
                mask@.len() == i,
                forall|a: int| 0 <= a < i ==> #[trigger] mask@[a] == (m[a].1.spec_loading() || crate::table::views(keep@).contains(m[a].0@)),
            decreases n - i,
        {
            let named = crate::table::contains_str(keep, self.images[i].0.as_str());
            proof {
                let v = crate::table::views(keep@);
                if named {
                    let j = choose|j: int| 0 <= j < keep@.len() && #[trigger] keep@[j]@ == m[i as int].0@;
                    assert(v[j] == m[i as int].0@);
                }
                if v.contains(m[i as int].0@) {
                    let j = choose|j: int| 0 <= j < v.len() && v[j] == m[i as int].0@;
                    assert(keep@[j]@ == m[i as int].0@);
                }
            }
            mask.push(self.images[i].1.loading || named);
            i = i + 1;
        }
        crate::table::retain_marked(&mut self.images, &mask);
        proof {
            let f = self.images@;
            assert forall|a: int| 0 <= a < f.len() implies #[trigger] f[a].1.spec_url() == f[a].0@ by {
                crate::table::lemma_index_of(f, a);
                let b = crate::table::index_of(m, f[a].0@);
                crate::table::lemma_index_of(m, b);
            }
            assert forall|u: Seq<char>| #[trigger] self.entry(u) == if old(self).entry(u) matches Some(e) && (e.spec_loading()
                || crate::table::views(keep@).contains(u)) {
                old(self).entry(u)
            } else {
                None
            } by {
                if has_key(m, u) {
                    let b = crate::table::index_of(m, u);
                    crate::table::lemma_index_of(m, b);
                }
            }
        }
    }

    /// Whether the image of `url` is loaded.
    pub fn is_loaded(&self, url: &str) -> (r: bool)
        requires
            self.wf(),
        ensures
            r == (self.entry(url@) matches Some(e) && e.spec_loaded()),
    {
        match find_key(&self.images, url) {
            Some(i) => {
                proof {
                    crate::table::lemma_index_of(self.images@, i as int);
                }
                self.images[i].1.loaded()
            },
            None => false,
        }
    }

    /// The renderer handle to show for `url` at animation clock `clock`.
    pub fn get(&self, url: &str, clock: u64) -> (r: Option<u64>)
        requires
            self.wf(),
        ensures
            r == match self.entry(url@) {
                Some(e) => e.spec_get(clock as nat),
                None => None,
            },
    {
        match find_key(&self.images, url) {
            Some(i) => {
                proof {
                    crate::table::lemma_index_of(self.images@, i as int);
                }
                self.images[i].1.get(clock)
            },
            None => None,
        }
    }

    /// The index of the entry of `url`, made unloaded where there was none.
    fn ensure(&mut self, url: &str) -> (i: usize)
        requires
            old(self).wf(),
        ensures
            final(self).wf(),
            i < final(self).images@.len(),
            final(self).images@[i as int].0@ == url@,
            old(self).entry(url@) matches Some(e) ==> *final(self) == *old(self) && final(self).images@[i as int].1 == e,
            old(self).entry(url@) is None ==> {
                let e = final(self).images@[i as int].1;
                !e.spec_loaded() && !e.spec_loading() && e.spec_url() == url@
            },
            forall|u: Seq<char>| u != url@ ==> #[trigger] final(self).entry(u) == old(self).entry(u),
    {
        match find_key(&self.images, url) {
            Some(i) => {
                proof {
                    crate::table::lemma_index_of(self.images@, i as int);
                }
                i
            },
            None => {
                let key = url.to_owned();
                let img = UrlImage::from_url(url.to_owned());
                proof {
                    lemma_push_fresh(self.images@, (key, img));
                }
                self.images.push((key, img));
                let i = self.images.len() - 1;
                proof {
                    crate::table::lemma_index_of(self.images@, i as int);
                    assert forall|u: Seq<char>| u != url@ implies #[trigger] self.entry(u) == old(self).entry(u) by {
                        if has_key(self.images@, u) {
                            let j = choose|j: int| 0 <= j < self.images@.len() && #[trigger] self.images@[j].0@ == u;
                            assert(j != i);
                            assert(old(self).images@[j].0@ == u);
                        }
                    }
                }
                i
            },
        }
    }

    /// Asks for the image of `url`: made where the store has none, and
    /// started unless it is loaded or already being loaded.
    pub fn request(&mut self, url: &str) -> (r: LoadStep)
        requires
            old(self).wf(),
        ensures
            request_spec(*old(self), url@, *final(self), r),
    {
        let i = self.ensure(url);
        let ghost mid = *self;
        let mut e = UrlImage::from_url(String::new());
        std::mem::swap(&mut self.images[i].1, &mut e);
        let r = e.begin_load();
        std::mem::swap(&mut self.images[i].1, &mut e);
        proof {
            assert(self.images@ == mid.images@.update(i as int, (mid.images@[i as int].0, self.images@[i as int].1)));
            self.lemma_update_entry(mid, i as int);
        }
        r
    }

    /// Ends the load of `url` with what was decoded, or with nothing.
    pub fn finish(&mut self, url: &str, frames: Option<Vec<(u32, Frame)>>)
        requires
            old(self).wf(),
        ensures
            final(self).wf(),
            final(self).entry(url@) matches Some(e) && e.spec_loaded() && !e.spec_loading(),
            forall|u: Seq<char>| u != url@ ==> #[trigger] final(self).entry(u) == old(self).entry(u),
    {
        let i = self.ensure(url);
        let ghost mid = *self;
        let mut e = UrlImage::from_url(String::new());
        std::mem::swap(&mut self.images[i].1, &mut e);
        e.finish_load(frames);
        std::mem::swap(&mut self.images[i].1, &mut e);
        proof {
            assert(self.images@ == mid.images@.update(i as int, (mid.images@[i as int].0, self.images@[i as int].1)));
            self.lemma_update_entry(mid, i as int);
        }
    }

    /// Puts an image whose frames are decoded already under `url`, in place
    /// of any image the store had there.
    pub fn insert_frames(&mut self, url: String, frames: Vec<(u32, Frame)>)
        requires
            old(self).wf(),
        ensures
            final(self).wf(),
            final(self).entry(url@) matches Some(e) && e.spec_loaded() && e.decoded_count() == Some(frames@.len()),
            forall|u: Seq<char>| u != url@ ==> #[trigger] final(self).entry(u) == old(self).entry(u),
    {
        let i = self.ensure(url.as_str());
        let ghost mid = *self;
        let ghost n = frames@.len();
        let mut e = UrlImage::with_frames(url, frames);
        std::mem::swap(&mut self.images[i].1, &mut e);
        proof {
            assert(self.images@ == mid.images@.update(i as int, (mid.images@[i as int].0, self.images@[i as int].1)));
            self.lemma_update_entry(mid, i as int);
        }
    }

    /// Takes the decoded frames of `url` for the renderer (see `UrlImage::take_for_upload`).
    pub fn take_for_upload(&mut self, url: &str, animate: bool) -> (r: Option<Vec<(u32, Frame)>>)
        requires
            old(self).wf(),
        ensures
            final(self).wf(),
            forall|u: Seq<char>| u != url@ ==> #[trigger] final(self).entry(u) == old(self).entry(u),
            old(self).entry(url@) is None ==> r is None,
    {
        match find_key(&self.images, url) {
            None => None,
            Some(i) => {
                let ghost mid = *self;
                let mut e = UrlImage::from_url(String::new());
                std::mem::swap(&mut self.images[i].1, &mut e);
                let r = e.take_for_upload(animate);
                std::mem::swap(&mut self.images[i].1, &mut e);
                proof {
                    assert(self.images@ == mid.images@.update(i as int, (mid.images@[i as int].0, self.images@[i as int].1)));
                    self.lemma_update_entry(mid, i as int);
                }
                r
            },
        }
    }

    /// Records the renderer frames of `url`.
    pub fn set_gpu(&mut self, url: &str, frames: Vec<GpuFrame>)
        requires
            old(self).wf(),
        ensures
            final(self).wf(),
            forall|u: Seq<char>| u != url@ ==> #[trigger] final(self).entry(u) == old(self).entry(u),
            old(self).entry(url@) is Some ==> (final(self).entry(url@) matches Some(e) && e.gpu_frames() == Some(frames@)),
    {
        match find_key(&self.images, url) {
            None => {},
            Some(i) => {
                let ghost mid = *self;
                let mut e = UrlImage::from_url(String::new());
                std::mem::swap(&mut self.images[i].1, &mut e);
                e.set_gpu(frames);
                std::mem::swap(&mut self.images[i].1, &mut e);
                proof {
                    assert(self.images@ == mid.images@.update(i as int, (mid.images@[i as int].0, self.images@[i as int].1)));
                    self.lemma_update_entry(mid, i as int);
                }
            },
        }
    }

    /// Replacing the image at index `i` by one of the same URL keeps the
    /// store well formed and changes only the entry of that URL.
    proof fn lemma_update_entry(&self, mid: ImageStore, i: int)
        requires
            mid.wf(),
            0 <= i < mid.images@.len(),
            self.images@ == mid.images@.update(i, (mid.images@[i].0, self.images@[i].1)),
            self.images@[i].1.spec_url() == mid.images@[i].0@,
        ensures
            self.wf(),
            self.entry(mid.images@[i].0@) == Some(self.images@[i].1),
            forall|u: Seq<char>| u != mid.images@[i].0@ ==> #[trigger] self.entry(u) == mid.entry(u),
    {
        let k = mid.images@[i].0@;
        assert forall|a: int, b: int|
            0 <= a < self.images@.len() && 0 <= b < self.images@.len() && #[trigger] self.images@[a].0@ == #[trigger] self.images@[b].0@ implies a == b by {
            assert(mid.images@[a].0@ == mid.images@[b].0@);
        }
        assert forall|a: int| 0 <= a < self.images@.len() implies #[trigger] self.images@[a].1.spec_url() == self.images@[a].0@ by {
            if a != i {
                assert(self.images@[a] == mid.images@[a]);
            }
        }
        crate::table::lemma_index_of(self.images@, i);
        assert forall|u: Seq<char>| u != k implies #[trigger] self.entry(u) == mid.entry(u) by {
            if has_key(mid.images@, u) {
                let j = index_of_key(mid.images@, u);
                crate::table::lemma_index_of(mid.images@, j);
                assert(j != i);
                assert(self.images@[j] == mid.images@[j]);
                crate::table::lemma_index_of(self.images@, j);
            } else {
                if has_key(self.images@, u) {
                    let j = choose|j: int| 0 <= j < self.images@.len() && #[trigger] self.images@[j].0@ == u;
                    assert(mid.images@[j].0@ == u);
                }
            }
        }
    }
}

/// Asking for an image that is loaded already, or being loaded, starts
/// nothing: no fetch, no disk read, and every entry stays as it was.
pub proof fn lemma_request_loaded_is_noop(s0: ImageStore, url: Seq<char>, s1: ImageStore, r: LoadStep)
    requires
        request_spec(s0, url, s1, r),
        s0.entry(url) matches Some(e) && (e.spec_loaded() || e.spec_loading()),
    ensures
        r == LoadStep::Skip,
        forall|u: Seq<char>| #[trigger] s1.entry(u) == s0.entry(u),
{
}

/// Asking twice in a row for the same image fetches it at most once: after
/// the first request the image is loaded or being loaded, so the second
/// request starts nothing and leaves every entry as it was.
pub proof fn lemma_second_request_skips(
    s0: ImageStore,
    url: Seq<char>,
    s1: ImageStore,
    r1: LoadStep,
    s2: ImageStore,
    r2: LoadStep,
)
    requires
        request_spec(s0, url, s1, r1),
        request_spec(s1, url, s2, r2),
    ensures
        r2 == LoadStep::Skip,
        forall|u: Seq<char>| #[trigger] s2.entry(u) == s1.entry(u),
{
}

/// A decoded frame as plain values: timestamp, width, height and pixels.
pub open spec fn frame_view(f: (u32, Frame)) -> (u32, u32, u32, Seq<u8>) {
    (f.0, f.1.width, f.1.height, f.1.rgba@)
}

/// Decoded frames as plain values.
pub open spec fn frames_view(v: Option<Vec<(u32, Frame)>>) -> Option<Seq<(u32, u32, u32, Seq<u8>)>> {
    match v {
        Some(f) => Some(f@.map_values(|x: (u32, Frame)| frame_view(x))),
        None => None,
    }
}

/// Whether bytes look like WebP (`Some(false)` for another known format,
/// nothing where the format is not recognised).
pub uninterp spec fn sniffed_webp(b: Seq<u8>) -> Option<bool>;

/// The frames of an animated WebP image, each with its display time in
/// milliseconds, its size and four bytes per pixel, where they decode.
pub uninterp spec fn webp_frames(b: Seq<u8>) -> Option<Seq<(u32, u32, u32, Seq<u8>)>>;

/// The display time of the first `n` frames together.
pub open spec fn delay_sum(fs: Seq<(u32, u32, u32, Seq<u8>)>, n: int) -> nat
    decreases n,
{
    if n <= 0 {
        0
    } else {
        delay_sum(fs, n - 1) + fs[n - 1].0 as nat
    }
}

/// When frame `i` ends: the display times up to it, saturated at `u32::MAX`.
pub open spec fn frame_end(fs: Seq<(u32, u32, u32, Seq<u8>)>, i: int) -> u32 {
    if delay_sum(fs, i + 1) > u32::MAX as nat {
        u32::MAX
    } else {
        delay_sum(fs, i + 1) as u32
    }
}

/// Frames with display times turned into the times at which each ends.
pub open spec fn timed(fs: Seq<(u32, u32, u32, Seq<u8>)>) -> Seq<(u32, u32, u32, Seq<u8>)> {
    Seq::new(fs.len(), |i: int| (frame_end(fs, i), fs[i].1, fs[i].2, fs[i].3))
}

/// The one frame of a still image (width, height, four bytes per pixel),
/// where it decodes.
pub uninterp spec fn still_frame(b: Seq<u8>) -> Option<(u32, u32, Seq<u8>)>;

/// Relies on `image::guess_format`: the format that the leading bytes
/// announce, told apart as WebP or not.
#[verifier::external_body]
fn sniff_webp(bytes: &[u8]) -> (r: Option<bool>)
    ensures
        r == sniffed_webp(bytes@),
{
    match image::guess_format(bytes) {
        Ok(image::ImageFormat::WebP) => Some(true),
        Ok(_) => Some(false),
        Err(_) => None,
    }
}

/// Relies on `image::codecs::webp::WebPDecoder` read through
/// `AnimationDecoder::into_frames`: every frame of a WebP animation, its
/// delay (whole milliseconds, as this decoder gives it) and RGBA pixels;
/// the frame iterator stops after the last frame, and collecting stops at
/// the first error.
#[verifier::external_body]
fn decode_webp(bytes: &[u8]) -> (r: Option<Vec<(u32, Frame)>>)
    ensures
        frames_view(r) == webp_frames(bytes@),
{
    let decoder = image::codecs::webp::WebPDecoder::new(std::io::Cursor::new(bytes)).ok()?;
    let frames = image::AnimationDecoder::into_frames(decoder).collect_frames().ok()?;
    Some(frames.into_iter().map(|f| {
        let (ms, _) = f.delay().numer_denom_ms();
        let b = f.into_buffer();
        (ms, Frame { width: b.width(), height: b.height(), rgba: b.into_raw() })
    }).collect())
}

/// Replaces display times by end times (see `timed`).
fn to_end_times(frames: Vec<(u32, Frame)>) -> (r: Vec<(u32, Frame)>)
    ensures
        r@.map_values(|x: (u32, Frame)| frame_view(x)) == timed(frames@.map_values(|x: (u32, Frame)| frame_view(x))),
{
    let ghost fs = frames@.map_values(|x: (u32, Frame)| frame_view(x));
    let n = frames.len();
    let mut ends: Vec<u32> = Vec::new();
    let mut acc: u32 = 0;
    let mut i: usize = 0;
    while i < n
        invariant
            n == frames@.len(),
            fs == frames@.map_values(|x: (u32, Frame)| frame_view(x)),
            i <= n,
            ends@.len() == i,
            forall|j: int| 0 <= j < i ==> #[trigger] ends@[j] == frame_end(fs, j),
            acc as nat == if delay_sum(fs, i as int) > u32::MAX as nat { u32::MAX as nat } else { delay_sum(fs, i as int) },
        decreases n - i,
    {
        assert(fs[i as int].0 == frames@[i as int].0);
        acc = acc.saturating_add(frames[i].0);
        ends.push(acc);
        i = i + 1;
    }
    let mut rest = frames;
    let mut rev: Vec<(u32, Frame)> = Vec::new();
    while rest.len() > 0
        invariant
            rest@.len() <= n,
            n == ends@.len(),
            forall|j: int| 0 <= j < rest@.len() ==> #[trigger] frame_view(rest@[j]) == fs[j],
            rev@.len() + rest@.len() == n,
            forall|j: int| 0 <= j < rev@.len() ==> #[trigger] frame_view(rev@[j]) == timed(fs)[n - 1 - j],
            forall|j: int| 0 <= j < n ==> #[trigger] ends@[j] == frame_end(fs, j),
            fs.len() == n,
        decreases rest@.len(),
    {
        let k = rest.len() - 1;
        let ghost before = rest@;
        let (_, f) = rest.pop().unwrap();
        assert(frame_view(before[k as int]) == fs[k as int]);
        rev.push((ends[k], f));
    }
    let mut out: Vec<(u32, Frame)> = Vec::new();
    while rev.len() > 0
        invariant
            rev@.len() + out@.len() == n,
            fs.len() == n,
            forall|j: int| 0 <= j < rev@.len() ==> #[trigger] frame_view(rev@[j]) == timed(fs)[n - 1 - j],
            forall|j: int| 0 <= j < out@.len() ==> #[trigger] frame_view(out@[j]) == timed(fs)[j],
        decreases rev@.len(),
    {
        let ghost before = rev@;
        let x = rev.pop().unwrap();
        assert(x == before[before.len() - 1]);
        out.push(x);
    }
    assert(out@.map_values(|x: (u32, Frame)| frame_view(x)) =~= timed(fs));
    out
}

/// Relies on `image::load_from_memory`: a still image of a recognised
/// format, as RGBA.
#[verifier::external_body]
fn decode_still(bytes: &[u8]) -> (r: Option<Frame>)
    ensures
        match r {
            Some(f) => still_frame(bytes@) == Some((f.width, f.height, f.rgba@)),
            None => still_frame(bytes@) is None,
        },
{
    image::load_from_memory(bytes).ok().map(|img| {
        let rgba = img.into_rgba8();
        Frame { width: rgba.width(), height: rgba.height(), rgba: rgba.into_raw() }
    })
}

/// A still frame as the only frame, at timestamp 0.
pub open spec fn still_as_frames(f: Option<(u32, u32, Seq<u8>)>) -> Option<Seq<(u32, u32, u32, Seq<u8>)>> {
    match f {
        Some((w, h, p)) => Some(seq![(0u32, w, h, p)]),
        None => None,
    }
}

/// What a body decodes to: nothing in an unknown format; the frames of a
/// WebP that the animation decoder reads, each stamped with the time it
/// ends; else the image as one still frame at timestamp 0, where it decodes.
pub open spec fn decoded_frames(b: Seq<u8>) -> Option<Seq<(u32, u32, u32, Seq<u8>)>> {
    match sniffed_webp(b) {
        None => None,
        Some(true) => if webp_frames(b) is Some && webp_frames(b)->0.len() > 0 {
            Some(timed(webp_frames(b)->0))
        } else {
            still_as_frames(still_frame(b))
        },
        Some(false) => still_as_frames(still_frame(b)),
    }
}

/// Decodes a fetched or cached body into timestamped frames.
pub fn decode_frames(bytes: &Vec<u8>) -> (r: Option<Vec<(u32, Frame)>>)
    ensures
        frames_view(r) == decoded_frames(bytes@),
{
    let b = bytes.as_slice();
    match sniff_webp(b) {
        None => None,
        Some(webp) => {
            if webp {
                match decode_webp(b) {
                    Some(frames) => {
                        if frames.len() > 0 {
                            return Some(to_end_times(frames));
                        }
                    },
                    None => {},
                }
            }
            match decode_still(b) {
                Some(f) => {
                    let ghost fv = (0u32, f.width, f.height, f.rgba@);
                    let mut v: Vec<(u32, Frame)> = Vec::new();
                    v.push((0, f));
                    assert(v@.map_values(|x: (u32, Frame)| frame_view(x)) =~= seq![fv]);
                    Some(v)
                },
                None => None,
            }
        },
    }
}

} // verus!
