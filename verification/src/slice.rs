//! Remote slice access: locators with their canonical wire text, decoded
//! RGBA images, and a cache keyed by single-index locators that is filled
//! one network batch at a time.

use vstd::prelude::*;
use vstd::map::*;
use crate::errors::H5Error;
use crate::text::{dec_str, usize_to_string};
use flate2::read::GzDecoder;
use std::io::Read;

verus! {

/// The element encoding of a dataset.
#[derive(Clone, Copy, Debug, PartialEq, Eq, Structural)]
pub enum Dtype {
    I4,
    F4,
}

impl Dtype {
    /// The short textual tag of the encoding.
    pub open spec fn spec_tag(self) -> Seq<char> {
        match self {
            Dtype::I4 => "i4"@,
            Dtype::F4 => "f4"@,
        }
    }

    /// Renders the tag.
    pub fn to_string(&self) -> (r: String)
        ensures
            r@ == self.spec_tag(),
    {
        match self {
            Dtype::I4 => String::from_str("i4"),
            Dtype::F4 => String::from_str("f4"),
        }
    }
}

/// An element selection along the leading dimension: one index, a
/// half-open range, or a batch of `len` elements from `start`.
#[derive(Clone, Copy, Debug, PartialEq, Eq, Structural)]
pub enum Query {
    One(usize),
    Range(usize, usize),
    Batch(usize, usize),
}

impl Query {
    /// The canonical text: `<idx>` for a single element, `<start>:<end>`
    /// (end exclusive) for ranges and batches alike.
    pub open spec fn spec_text(self) -> Seq<char> {
        match self {
            Query::One(i) => dec_str(i as int),
            Query::Range(a, b) => dec_str(a as int) + ":"@ + dec_str(b as int),
            Query::Batch(i, l) => dec_str(i as int) + ":"@ + dec_str(i + l),
        }
    }

    /// Renders the canonical text.
    pub fn to_string(&self) -> (r: String)
        requires
            (*self) matches Query::Batch(i, l) ==> i + l <= usize::MAX,
        ensures
            r@ == self.spec_text(),
    {
        match self {
            Query::One(i) => usize_to_string(*i),
            Query::Range(a, b) => {
                let mut s = usize_to_string(*a);
                s.append(":");
                let t = usize_to_string(*b);
                s.append(t.as_str());
                proof {
                    assert(s@ =~= self.spec_text());
                }
                s
            },
            Query::Batch(i, l) => {
                let mut s = usize_to_string(*i);
                s.append(":");
                let t = usize_to_string(*i + *l);
                s.append(t.as_str());
                proof {
                    assert(s@ =~= self.spec_text());
                }
                s
            },
        }
    }
}

/// The mathematical value of a locator.
#[verifier::ext_equal]
pub struct UriV {
    pub path: Seq<char>,
    pub h5path: Seq<char>,
    pub query: Query,
    pub dtype: Dtype,
}

impl UriV {
    /// The canonical tab-separated wire form of the locator.
    pub open spec fn spec_wire(self) -> Seq<char> {
        self.path + "\t"@ + self.h5path + "\t"@ + self.query.spec_text() + "\t"@
            + self.dtype.spec_tag()
    }
}

/// A resource locator: archive path, internal dataset path, query, and
/// element type. Value-equal, and the cache's key.
#[derive(Clone, Debug)]
pub struct H5URI {
    pub path: String,
    pub h5path: String,
    pub query: Query,
    pub dtype: Dtype,
}

impl View for H5URI {
    type V = UriV;

    open spec fn view(&self) -> UriV {
        UriV { path: self.path@, h5path: self.h5path@, query: self.query, dtype: self.dtype }
    }
}

impl PartialEq for H5URI {
    fn eq(&self, other: &H5URI) -> (r: bool) {
        self.path == other.path && self.h5path == other.h5path && self.query == other.query
            && self.dtype == other.dtype
    }
}

impl vstd::std_specs::cmp::PartialEqSpecImpl for H5URI {
    open spec fn obeys_eq_spec() -> bool {
        true
    }

    open spec fn eq_spec(&self, other: &H5URI) -> bool {
        self@ == other@
    }
}

impl H5URI {
    /// Renders the four tab-separated fields: the request body of one fetch.
    pub fn to_string(&self) -> (r: String)
        requires
            self.query matches Query::Batch(i, l) ==> i + l <= usize::MAX,
        ensures
            r@ == self@.spec_wire(),
    {
        let mut s = self.path.clone();
        s.append("\t");
        s.append(self.h5path.as_str());
        s.append("\t");
        let q = self.query.to_string();
        s.append(q.as_str());
        s.append("\t");
        let d = self.dtype.to_string();
        s.append(d.as_str());
        proof {
            assert(s@ =~= self@.spec_wire());
        }
        s
    }
}

/// The mathematical value of a decoded image.
#[verifier::ext_equal]
pub struct ImageV {
    pub width: u32,
    pub height: u32,
    pub pixels: Seq<u8>,
}

impl ImageV {
    /// A well-formed image holds exactly four bytes per pixel.
    pub open spec fn wf(self) -> bool {
        self.pixels.len() == 4 * (self.width as int) * (self.height as int)
    }
}

/// An owned RGBA pixel buffer of a fixed resolution: the unit of cache
/// storage.
#[derive(Clone, Debug)]
pub struct DecodedImage {
    pub width: u32,
    pub height: u32,
    pub pixels: Vec<u8>,
}

impl View for DecodedImage {
    type V = ImageV;

    open spec fn view(&self) -> ImageV {
        ImageV { width: self.width, height: self.height, pixels: self.pixels@ }
    }
}

/// The byte size of one RGB frame at a resolution.
pub open spec fn spec_frame_size(w: u32, h: u32) -> int {
    3 * (w as int) * (h as int)
}

/// RGB samples widened to RGBA with full opacity.
pub open spec fn spec_rgba_of(rgb: Seq<u8>) -> Seq<u8> {
    Seq::new(
        rgb.len() / 3 * 4,
        |i: int| if i % 4 == 3 {
            255u8
        } else {
            rgb[i / 4 * 3 + i % 4]
        },
    )
}

/// Frame `k` (0-based within a batch) of the sample buffer.
pub open spec fn spec_frame(samples: Seq<u8>, k: int, fs: int) -> Seq<u8> {
    samples.subrange(k * fs, (k + 1) * fs)
}

/// Whether frame `k` lies fully within the samples (and its RGBA buffer is
/// addressable).
pub open spec fn spec_frame_ok(samples: Seq<u8>, k: int, w: u32, h: u32) -> bool {
    &&& 0 <= k
    &&& (k + 1) * spec_frame_size(w, h) <= samples.len()
    &&& 4 * (w as int) * (h as int) <= usize::MAX
}

/// The image decoded from frame `k`.
pub open spec fn spec_frame_image(samples: Seq<u8>, k: int, w: u32, h: u32) -> ImageV {
    ImageV {
        width: w,
        height: h,
        pixels: spec_rgba_of(spec_frame(samples, k, spec_frame_size(w, h))),
    }
}

/// Every image a covered frame decodes to is well-formed: four bytes per
/// pixel of its resolution.
pub proof fn lemma_frame_image_wf(samples: Seq<u8>, k: int, w: u32, h: u32)
    requires
        spec_frame_ok(samples, k, w, h),
    ensures
        spec_frame_image(samples, k, w, h).wf(),
{
    let wi = w as int;
    let hi = h as int;
    let fs = spec_frame_size(w, h);
    assert(fs == 3 * (wi * hi)) by {
        assert(3 * wi * hi == 3 * (wi * hi)) by (nonlinear_arith);
    }
    assert(wi * hi >= 0) by (nonlinear_arith)
        requires
            wi >= 0,
            hi >= 0,
    ;
    assert(k * fs >= 0) by (nonlinear_arith)
        requires
            k >= 0,
            fs >= 0,
    ;
    assert((k + 1) * fs == k * fs + fs) by (nonlinear_arith);
    let frame = spec_frame(samples, k, fs);
    assert(frame.len() == fs);
    assert(fs / 3 == wi * hi);
    assert(fs / 3 * 4 == 4 * wi * hi) by (nonlinear_arith)
        requires
            fs / 3 == wi * hi,
    ;
}

/// The half-open element span a query covers: start index and count.
pub open spec fn spec_span(q: Query) -> (int, int) {
    match q {
        Query::One(i) => (i as int, 1),
        Query::Batch(i, l) => (i as int, l as int),
        Query::Range(a, b) => (a as int, if b >= a {
            (b - a) as int
        } else {
            0
        }),
    }
}

/// Whether ingesting `uri` with these samples creates or overwrites the
/// entry at key `kk`: a `Single` key of the same resource whose index lies
/// in the span and whose frame the samples cover.
pub open spec fn spec_covered(uri: UriV, w: u32, h: u32, samples: Seq<u8>, kk: UriV) -> bool {
    &&& kk.path == uri.path
    &&& kk.h5path == uri.h5path
    &&& kk.dtype == uri.dtype
    &&& kk.query matches Query::One(k) && spec_span(uri.query).0 <= k < spec_span(uri.query).0
        + spec_span(uri.query).1 && spec_frame_ok(samples, k - spec_span(uri.query).0, w, h)
}

/// The cache contents after an ingest: every covered key maps to its
/// decoded frame, everything else is as before.
pub open spec fn spec_ingest_map(
    pre: Map<UriV, ImageV>,
    uri: UriV,
    w: u32,
    h: u32,
    samples: Seq<u8>,
) -> Map<UriV, ImageV> {
    Map::new(
        |kk: UriV| pre.contains_key(kk) || spec_covered(uri, w, h, samples, kk),
        |kk: UriV| if spec_covered(uri, w, h, samples, kk) {
            spec_frame_image(samples, kk.query->One_0 - spec_span(uri.query).0, w, h)
        } else {
            pre[kk]
        },
    )
}

/// `spec_covered`, restricted to the first `done` frames of the span: the
/// portion of an ingest completed after `done` frames are stored.
pub open spec fn spec_covered_upto(
    uri: UriV,
    w: u32,
    h: u32,
    samples: Seq<u8>,
    kk: UriV,
    done: int,
) -> bool {
    spec_covered(uri, w, h, samples, kk) && (kk.query->One_0 as int) < spec_span(uri.query).0
        + done
}

/// The prefetch length from index `i`, capped so the batch stays within the
/// index space.
pub open spec fn spec_capped(i: usize, hint: usize) -> usize {
    if i + hint <= usize::MAX {
        hint
    } else {
        (usize::MAX - i) as usize
    }
}

/// The batch locator planned for a missed single request: the same
/// resource, with the query widened to `hint` elements from the requested
/// index.
pub open spec fn spec_plan(uri: UriV, hint: usize) -> UriV {
    UriV {
        path: uri.path,
        h5path: uri.h5path,
        query: Query::Batch(uri.query->One_0, spec_capped(uri.query->One_0, hint)),
        dtype: uri.dtype,
    }
}

/// The map held by a sequence of cache entries, later entries winning.
pub open spec fn entries_map(s: Seq<(H5URI, DecodedImage)>) -> Map<UriV, ImageV>
    decreases s.len(),
{
    if s.len() == 0 {
        Map::empty()
    } else {
        entries_map(s.drop_last()).insert(s.last().0@, s.last().1@)
    }
}

/// No two entries share a key.
pub open spec fn distinct_keys(s: Seq<(H5URI, DecodedImage)>) -> bool {
    forall|i: int, j: int|
        0 <= i < j < s.len() ==> (#[trigger] s[i]).0@ != (#[trigger] s[j]).0@
}

proof fn lemma_entries_map_index(s: Seq<(H5URI, DecodedImage)>, i: int)
    requires
        distinct_keys(s),
        0 <= i < s.len(),
    ensures
        entries_map(s).contains_key(s[i].0@),
        entries_map(s)[s[i].0@] == s[i].1@,
    decreases s.len(),
{
    if i < s.len() - 1 {
        assert(s.drop_last()[i] == s[i]);
        lemma_entries_map_index(s.drop_last(), i);
        assert(s.last().0@ != s[i].0@);
    }
}

proof fn lemma_entries_map_absent(s: Seq<(H5URI, DecodedImage)>, k: UriV)
    requires
        forall|i: int| 0 <= i < s.len() ==> (#[trigger] s[i]).0@ != k,
    ensures
        !entries_map(s).contains_key(k),
    decreases s.len(),
{
    if s.len() > 0 {
        lemma_entries_map_absent(s.drop_last(), k);
    }
}

proof fn lemma_entries_map_update(s: Seq<(H5URI, DecodedImage)>, j: int, p: (H5URI, DecodedImage))
    requires
        distinct_keys(s),
        0 <= j < s.len(),
        s[j].0@ == p.0@,
    ensures
        entries_map(s.update(j, p)) == entries_map(s).insert(p.0@, p.1@),
    decreases s.len(),
{
    if j == s.len() - 1 {
        assert(s.update(j, p).drop_last() =~= s.drop_last());
        assert(entries_map(s.update(j, p)) =~= entries_map(s).insert(p.0@, p.1@));
    } else {
        assert(s.update(j, p).drop_last() =~= s.drop_last().update(j, p));
        assert(s.drop_last()[j] == s[j]);
        lemma_entries_map_update(s.drop_last(), j, p);
        assert(s.last().0@ != p.0@);
        assert(entries_map(s.update(j, p)) =~= entries_map(s).insert(p.0@, p.1@));
    }
}

proof fn lemma_entries_map_push(s: Seq<(H5URI, DecodedImage)>, p: (H5URI, DecodedImage))
    ensures
        entries_map(s.push(p)) == entries_map(s).insert(p.0@, p.1@),
{
    assert(s.push(p).drop_last() =~= s);
}

/// The slice cache: decoded images keyed by `Single`-index locators, with
/// a prefetch-window size hint.
pub struct H5Cache {
    entries: Vec<(H5URI, DecodedImage)>,
    hint: usize,
}

impl View for H5Cache {
    type V = Map<UriV, ImageV>;

    closed spec fn view(&self) -> Map<UriV, ImageV> {
        entries_map(self.entries@)
    }
}

impl H5Cache {
    /// Internal consistency: entry keys are pairwise distinct.
    pub closed spec fn wf(self) -> bool {
        distinct_keys(self.entries@)
    }

    /// The prefetch-window size hint.
    pub closed spec fn spec_hint(self) -> usize {
        self.hint
    }

    /// An empty cache with the default prefetch hint.
    pub fn new() -> (r: H5Cache)
        ensures
            r@ == Map::<UriV, ImageV>::empty(),
            r.wf(),
            r.spec_hint() == 32,
    {
        H5Cache { entries: Vec::new(), hint: 32 }
    }

    /// An empty cache with the given prefetch hint.
    pub fn with_hint(hint: usize) -> (r: H5Cache)
        ensures
            r@ == Map::<UriV, ImageV>::empty(),
            r.wf(),
            r.spec_hint() == hint,
    {
        H5Cache { entries: Vec::new(), hint }
    }

    fn find_entry(&self, uri: &H5URI) -> (r: Option<usize>)
        ensures
            match r {
                Some(j) => 0 <= j < self.entries@.len() && self.entries@[j as int].0@ == uri@,
                None => forall|i: int|
                    0 <= i < self.entries@.len() ==> (#[trigger] self.entries@[i]).0@ != uri@,
            },
    {
        let n = self.entries.len();
        let mut i: usize = 0;
        while i < n
            invariant
                0 <= i <= n,
                n == self.entries@.len(),
                forall|k: int| 0 <= k < i ==> (#[trigger] self.entries@[k]).0@ != uri@,
            decreases n - i,
        {
            if self.entries[i].0 == *uri {
                return Some(i);
            }
            i = i + 1;
        }
        None
    }

    fn insert_entry(&mut self, key: H5URI, img: DecodedImage)
        requires
            old(self).wf(),
        ensures
            final(self).wf(),
            final(self)@ == old(self)@.insert(key@, img@),
            final(self).spec_hint() == old(self).spec_hint(),
    {
        let ghost olds = self.entries@;
        let ghost kv = key@;
        let jo = self.find_entry(&key);
        match jo {
            Some(j) => {
                self.entries.set(j, (key, img));
                proof {
                    lemma_entries_map_update(olds, j as int, self.entries@[j as int]);
                    assert forall|a: int, b: int|
                        0 <= a < b < self.entries@.len() implies (#[trigger] self.entries@[a]).0@
                        != (#[trigger] self.entries@[b]).0@ by {
                        if a != j && b != j {
                            assert(self.entries@[a] == olds[a]);
                            assert(self.entries@[b] == olds[b]);
                        } else if a == j {
                            assert(self.entries@[b] == olds[b]);
                            assert(olds[j as int].0@ == kv);
                        } else {
                            assert(self.entries@[a] == olds[a]);
                            assert(olds[j as int].0@ == kv);
                        }
                    }
                }
            },
            None => {
                self.entries.push((key, img));
                proof {
                    lemma_entries_map_push(olds, self.entries@[olds.len() as int]);
                    assert forall|a: int, b: int|
                        0 <= a < b < self.entries@.len() implies (#[trigger] self.entries@[a]).0@
                        != (#[trigger] self.entries@[b]).0@ by {
                        if b < olds.len() {
                            assert(self.entries@[a] == olds[a]);
                            assert(self.entries@[b] == olds[b]);
                        } else {
                            assert(self.entries@[a] == olds[a]);
                            assert(self.entries@[b].0@ == kv);
                        }
                    }
                }
            },
        }
    }

    /// Serves a `Single` request from storage alone: the cached image, or
    /// nothing on a miss or a non-`Single` query.
    pub fn request_cached(&self, uri: &H5URI) -> (r: Option<&DecodedImage>)
        requires
            self.wf(),
        ensures
            match r {
                Some(img) => uri@.query is One && self@.contains_key(uri@) && img@ == self@[uri@],
                None => !(uri@.query is One) || !self@.contains_key(uri@),
            },
    {
        match uri.query {
            Query::One(_) => {},
            _ => {
                return None;
            },
        }
        match self.find_entry(uri) {
            Some(j) => {
                proof {
                    lemma_entries_map_index(self.entries@, j as int);
                }
                Some(&self.entries[j].1)
            },
            None => {
                proof {
                    lemma_entries_map_absent(self.entries@, uri@);
                }
                None
            },
        }
    }

    /// The batch to fetch for a missed `Single` request: the query widened
    /// to the hint's length from the requested index; nothing for a cache
    /// hit or a non-`Single` query (no fetch is owed then).
    pub fn plan_fetch(&self, uri: &H5URI) -> (r: Option<H5URI>)
        requires
            self.wf(),
        ensures
            match r {
                Some(b) => uri@.query is One && !self@.contains_key(uri@) && b@ == spec_plan(
                    uri@,
                    self.spec_hint(),
                ),
                None => !(uri@.query is One) || self@.contains_key(uri@),
            },
    {
        let i = match uri.query {
            Query::One(i) => i,
            _ => {
                return None;
            },
        };
        match self.find_entry(uri) {
            Some(j) => {
                proof {
                    lemma_entries_map_index(self.entries@, j as int);
                }
                None
            },
            None => {
                proof {
                    lemma_entries_map_absent(self.entries@, uri@);
                }
                let len = if self.hint <= usize::MAX - i {
                    self.hint
                } else {
                    usize::MAX - i
                };
                Some(
                    H5URI {
                        path: uri.path.clone(),
                        h5path: uri.h5path.clone(),
                        query: Query::Batch(i, len),
                        dtype: uri.dtype,
                    },
                )
            },
        }
    }

    /// Decodes every frame of the batch that the samples fully cover and
    /// stores each under its own `Single`-index key; a frame the buffer
    /// cuts short is skipped, and entries of other keys are untouched.
    /// `samples` is the decompressed payload mapped to one byte per sample.
    #[verifier::rlimit(60)]
    pub fn ingest(&mut self, uri: &H5URI, resolution: (u32, u32), samples: &Vec<u8>)
        requires
            old(self).wf(),
            uri@.query matches Query::Batch(i, l) ==> i + l <= usize::MAX,
        ensures
            final(self).wf(),
            final(self).spec_hint() == old(self).spec_hint(),
            final(self)@ == spec_ingest_map(
                old(self)@,
                uri@,
                resolution.0,
                resolution.1,
                samples@,
            ),
    {
        let (w, h) = resolution;
        let ghost pre = self@;
        let ghost uv = uri@;
        let ghost sv = samples@;
        let ghost hint0 = self.spec_hint();
        let (start, count): (usize, usize) = match uri.query {
            Query::One(i) => (i, 1),
            Query::Batch(i, l) => (i, l),
            Query::Range(a, b) => (a, if b >= a {
                b - a
            } else {
                0
            }),
        };
        proof {
            assert((start as int, count as int) == spec_span(uv.query));
        }
        proof {
            assert((w as u64) * (h as u64) <= u64::MAX) by (nonlinear_arith)
                requires
                    w <= u32::MAX,
                    h <= u32::MAX,
            ;
        }
        let wh: u64 = (w as u64) * (h as u64);
        if wh > (usize::MAX as u64) / 4 {
            proof {
                let q = usize::MAX as int / 4;
                assert(4 * q + 4 > usize::MAX);
                assert(4 * (w as int) * (h as int) >= 4 * (q + 1)) by (nonlinear_arith)
                    requires
                        (w as int) * (h as int) >= q + 1,
                ;
                assert forall|kk: UriV| !spec_covered(uv, w, h, sv, kk) by {}
                assert_maps_equal!(self@, spec_ingest_map(pre, uv, w, h, sv), kk => {
                    assert(!spec_covered(uv, w, h, sv, kk));
                });
            }
            return;
        }
        let fs: u64 = 3 * wh;
        proof {
            assert(fs as int == spec_frame_size(w, h)) by (nonlinear_arith)
                requires
                    wh as int == (w as int) * (h as int),
                    fs as int == 3 * (wh as int),
            ;
        }
        let len64: u64 = samples.len() as u64;
        let mut k: usize = 0;
        let mut off: u64 = 0;
        while k < count
            invariant
                0 <= k <= count,
                (start as int, count as int) == spec_span(uv.query),
                start as int + count as int <= usize::MAX + 1,
                wh as int == (w as int) * (h as int),
                wh <= (usize::MAX as u64) / 4,
                fs as int == spec_frame_size(w, h),
                fs as int == 3 * (wh as int),
                len64 == sv.len(),
                sv.len() <= usize::MAX,
                off as int == k as int * (fs as int),
                off <= len64,
                uv == uri@,
                sv == samples@,
                pre == old(self)@,
                w == resolution.0,
                h == resolution.1,
                self.wf(),
                self.spec_hint() == old(self).spec_hint(),
                forall|kk: UriV|
                    #[trigger] spec_covered_upto(uv, w, h, sv, kk, k as int)
                        ==> self@.contains_key(kk) && self@[kk] == spec_frame_image(
                        sv,
                        (kk.query->One_0 as int) - start as int,
                        w,
                        h,
                    ),
                forall|kk: UriV|
                    !(#[trigger] spec_covered_upto(uv, w, h, sv, kk, k as int))
                        ==> (self@.contains_key(kk) == pre.contains_key(kk)) && (
                    pre.contains_key(kk) ==> self@[kk] == pre[kk]),
            decreases count - k,
        {
            if fs > 0 && fs > len64 - off {
                proof {
                    let fsi = fs as int;
                    assert((k as int + 1) * fsi == k as int * fsi + fsi) by (nonlinear_arith);
                    assert forall|kk: UriV| spec_covered(uv, w, h, sv, kk) implies
                        spec_covered_upto(uv, w, h, sv, kk, k as int) by {
                        let d = (kk.query->One_0 as int) - start as int;
                        if d >= k as int {
                            assert(spec_frame_ok(sv, d, w, h));
                            assert((d + 1) * fsi >= (k as int + 1) * fsi) by (nonlinear_arith)
                                requires
                                    d >= k as int,
                                    fsi >= 0,
                            ;
                            assert((k as int + 1) * fsi > len64 as int);
                            assert(false);
                        }
                    }
                    assert_maps_equal!(self@, spec_ingest_map(pre, uv, w, h, sv), kk => {
                        if spec_covered(uv, w, h, sv, kk) {
                            assert(spec_covered_upto(uv, w, h, sv, kk, k as int));
                        } else {
                            assert(!spec_covered_upto(uv, w, h, sv, kk, k as int));
                        }
                    });
                }
                return;
            }
            let off_us = off as usize;
            let fs_us = fs as usize;
            let wh_us = wh as usize;
            let mut pixels: Vec<u8> = Vec::new();
            let mut p: usize = 0;
            while p < wh_us
                invariant
                    0 <= p <= wh_us,
                    pixels@.len() == 4 * p,
                    wh_us as int == (w as int) * (h as int),
                    fs_us as int == 3 * (wh_us as int),
                    wh_us <= usize::MAX / 4,
                    off_us as int + fs_us as int <= sv.len(),
                    sv.len() <= usize::MAX,
                    sv == samples@,
                    forall|m: int|
                        0 <= m < pixels@.len() ==> pixels@[m] == (if m % 4 == 3 {
                            255u8
                        } else {
                            sv[off_us as int + (m / 4) * 3 + m % 4]
                        }),
                decreases wh_us - p,
            {
                let base = off_us + 3 * p;
                pixels.push(samples[base]);
                pixels.push(samples[base + 1]);
                pixels.push(samples[base + 2]);
                pixels.push(255);
                p = p + 1;
            }
            proof {
                assert((k as int + 1) * (fs as int) == k as int * (fs as int) + fs as int)
                    by (nonlinear_arith);
                let frame = spec_frame(sv, k as int, fs as int);
                assert(frame.len() == fs as int);
                assert(3 * (wh as int) / 3 == wh as int);
                assert(frame.len() / 3 * 4 == 4 * (wh as int));
                assert(pixels@ =~= spec_rgba_of(frame));
            }
            let img = DecodedImage { width: w, height: h, pixels };
            let key = H5URI {
                path: uri.path.clone(),
                h5path: uri.h5path.clone(),
                query: Query::One(start + k),
                dtype: uri.dtype,
            };
            let ghost keyv = key@;
            let ghost imgv = img@;
            self.insert_entry(key, img);
            proof {
                let end0 = start as int + k as int;
                assert forall|kk: UriV|
                    #[trigger] spec_covered_upto(uv, w, h, sv, kk, k as int + 1) implies self@.contains_key(kk)
                    && self@[kk] == spec_frame_image(
                    sv,
                    (kk.query->One_0 as int) - start as int,
                    w,
                    h,
                ) by {
                    if (kk.query->One_0 as int) == end0 {
                        assert(kk =~= keyv);
                        assert(imgv == spec_frame_image(sv, k as int, w, h));
                    } else {
                        assert(spec_covered_upto(uv, w, h, sv, kk, k as int));
                        assert(kk != keyv);
                    }
                }
                assert forall|kk: UriV|
                    !(#[trigger] spec_covered_upto(uv, w, h, sv, kk, k as int + 1)) implies (self@.contains_key(
                        kk,
                    ) == pre.contains_key(kk)) && (pre.contains_key(kk) ==> self@[kk]
                        == pre[kk]) by {
                    assert(4 * (wh as int) <= usize::MAX);
                    assert(4 * (w as int) * (h as int) <= usize::MAX) by (nonlinear_arith)
                        requires
                            wh as int == (w as int) * (h as int),
                            4 * (wh as int) <= usize::MAX,
                    ;
                    assert((k as int + 1) * (fs as int) == k as int * (fs as int) + fs as int)
                        by (nonlinear_arith);
                    assert(spec_covered_upto(uv, w, h, sv, keyv, k as int + 1));
                    assert(kk != keyv);
                    assert(!spec_covered_upto(uv, w, h, sv, kk, k as int));
                }
            }
            off = off + fs;
            k = k + 1;
        }
        proof {
            assert_maps_equal!(self@, spec_ingest_map(pre, uv, w, h, sv), kk => {
                if spec_covered(uv, w, h, sv, kk) {
                    assert(spec_covered_upto(uv, w, h, sv, kk, k as int));
                } else {
                    assert(!spec_covered_upto(uv, w, h, sv, kk, k as int));
                }
            });
        }
    }
}

/// What gunzip decompression yields for a byte stream: a function of the
/// input bytes alone (nothing, where the stream is not valid gzip).
pub uninterp spec fn gunzip_of(data: Seq<u8>) -> Option<Seq<u8>>;

/// Relies on flate2's `read::GzDecoder`, driven by `Read::read_to_end`:
/// inflating a gzip stream is a function of the input bytes alone, and an
/// invalid stream gives an error.
#[verifier::external_body]
fn gunzip(data: &Vec<u8>) -> (r: Option<Vec<u8>>)
    ensures
        match r {
            Some(out) => gunzip_of(data@) == Some(out@),
            None => gunzip_of(data@) is None,
        },
{
    let mut decoder = GzDecoder::new(&data[..]);
    let mut out: Vec<u8> = Vec::new();
    match Read::read_to_end(&mut decoder, &mut out) {
        Ok(_) => Some(out),
        Err(_) => None,
    }
}

/// Decompresses one fetched payload in full; `Unavailable` when the stream
/// is not valid gzip.
pub fn decompress_payload(data: &Vec<u8>) -> (r: Result<Vec<u8>, H5Error>)
    ensures
        match r {
            Ok(out) => gunzip_of(data@) == Some(out@),
            Err(e) => gunzip_of(data@) is None && e == H5Error::Unavailable,
        },
{
    match gunzip(data) {
        Some(v) => Ok(v),
        None => Err(H5Error::Unavailable),
    }
}

/// Cache idempotence: once the batch planned for a missed `Single` request
/// has been ingested and the payload covers the requested frame, the entry
/// exists and holds that decoded frame. A second identical request is then
/// a cache hit — `plan_fetch` answers nothing, so at most one fetch is ever
/// issued — and both requests read the same stored image.
pub proof fn lemma_request_idempotent(
    pre: Map<UriV, ImageV>,
    uri: UriV,
    w: u32,
    h: u32,
    samples: Seq<u8>,
    hint: usize,
)
    requires
        uri.query is One,
        (uri.query->One_0 as int) < usize::MAX,
        hint >= 1,
        !pre.contains_key(uri),
        spec_frame_ok(samples, 0, w, h),
    ensures
        ({
            let post = spec_ingest_map(pre, spec_plan(uri, hint), w, h, samples);
            &&& post.contains_key(uri)
            &&& post[uri] == spec_frame_image(samples, 0, w, h)
        }),
{
    let plan = spec_plan(uri, hint);
    let i = uri.query->One_0;
    assert(spec_capped(i, hint) >= 1);
    assert(spec_covered(plan, w, h, samples, uri));
}

/// Prefetch coalescing: one fetch of the batch planned for a `Single`
/// request populates an entry for every index of the window whose frame the
/// payload covers, each independently retrievable afterward from storage
/// alone.
pub proof fn lemma_prefetch_coalesces(
    pre: Map<UriV, ImageV>,
    uri: UriV,
    w: u32,
    h: u32,
    samples: Seq<u8>,
    hint: usize,
    k: int,
)
    requires
        uri.query is One,
        (uri.query->One_0 as int) <= k < (uri.query->One_0 as int) + spec_capped(
            uri.query->One_0,
            hint,
        ),
        spec_frame_ok(samples, k - (uri.query->One_0 as int), w, h),
    ensures
        ({
            let post = spec_ingest_map(pre, spec_plan(uri, hint), w, h, samples);
            let key = UriV {
                path: uri.path,
                h5path: uri.h5path,
                query: Query::One(k as usize),
                dtype: uri.dtype,
            };
            &&& post.contains_key(key)
            &&& post[key] == spec_frame_image(samples, k - (uri.query->One_0 as int), w, h)
        }),
{
    let plan = spec_plan(uri, hint);
    let key = UriV {
        path: uri.path,
        h5path: uri.h5path,
        query: Query::One(k as usize),
        dtype: uri.dtype,
    };
    assert(spec_covered(plan, w, h, samples, key));
}

} // verus!

