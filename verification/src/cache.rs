use vstd::prelude::*;

use crate::errors::BackgroundError;
use crate::gradient::{compute, gradient_ramp, is_css_color, noise_of, pixel_ok, GradientSpec};
use crate::handle::{make_handle, HandleIds, ImageContent, ImageHandle};
use std::sync::Arc;

verus! {

// ---------------------------------------------------------------------------
// Gradient cache
// ---------------------------------------------------------------------------
/// One memoized rasterization, keyed by (spec, width, height).
pub struct GradientEntry {
    pub key: GradientSpec,
    pub width: u32,
    pub height: u32,
    pub handle: ImageHandle,
    pub marked: bool,
}

impl GradientEntry {
    /// The cache-key relation: structural equality of spec and dimensions.
    pub open spec fn matches(&self, g: GradientSpec, w: u32, h: u32) -> bool {
        self.key.key_eq(&g) && self.width == w && self.height == h
    }
}

/// The handle carries a well-formed frame of the requested size whose every
/// pixel is a dithered sample of the gradient's ramp.
pub open spec fn holds_gradient(hd: ImageHandle, g: GradientSpec, w: u32, h: u32) -> bool {
    &&& hd.wf()
    &&& *hd.content matches ImageContent::Frame(pb) && pb.width == w && pb.height == h && pb.wf()
        && forall|p: int|
        0 <= p < pb.pixels@.len() ==> pixel_ok(
            g,
            w as int,
            h as int,
            gradient_ramp(g, w as int, h as int),
            p,
            #[trigger] pb.pixels@[p],
        )
}

/// The frame a handle's content carries.
pub open spec fn frame_of(c: &Arc<ImageContent>) -> crate::handle::PixelBuffer {
    (**c)->Frame_0
}

/// Structurally equal keys describe the same ramp, so a frame rasterized
/// for one satisfies the other's pixel contract too.
pub proof fn lemma_holds_gradient_key_eq(hd: ImageHandle, a: GradientSpec, b: GradientSpec, w: u32, h: u32)
    requires
        holds_gradient(hd, a, w, h),
        a.key_eq(&b),
    ensures
        holds_gradient(hd, b, w, h),
{
    let pb = frame_of(&hd.content);
    assert(gradient_ramp(a, w as int, h as int) == gradient_ramp(b, w as int, h as int));
    assert forall|p: int| 0 <= p < pb.pixels@.len() implies pixel_ok(
        b,
        w as int,
        h as int,
        gradient_ramp(b, w as int, h as int),
        p,
        #[trigger] pb.pixels@[p],
    ) by {
        assert(pixel_ok(a, w as int, h as int, gradient_ramp(a, w as int, h as int), p, pb.pixels@[p]));
        assert(noise_of(a) == noise_of(b));
    }
}

/// Structurally equal keys agree on stop validity: their stops have the
/// same character content.
pub proof fn lemma_stops_valid_key_eq(a: GradientSpec, b: GradientSpec)
    requires
        a.key_eq(&b),
    ensures
        a.stops_valid() == b.stops_valid(),
{
    assert(a.stops.deep_view().len() == b.stops.deep_view().len());
    assert(a.stops@.len() == b.stops@.len());
    if a.stops_valid() {
        assert forall|i: int| 0 <= i < b.stops@.len() implies is_css_color(
            #[trigger] b.stops@[i]@,
        ) by {
            assert(a.stops.deep_view()[i] == b.stops.deep_view()[i]);
            assert(is_css_color(a.stops@[i]@));
        }
    }
    if b.stops_valid() {
        assert forall|i: int| 0 <= i < a.stops@.len() implies is_css_color(
            #[trigger] a.stops@[i]@,
        ) by {
            assert(a.stops.deep_view()[i] == b.stops.deep_view()[i]);
            assert(is_css_color(b.stops@[i]@));
        }
    }
}

/// `i` is the first entry matching the key.
pub open spec fn is_first_match(s: Seq<GradientEntry>, g: GradientSpec, w: u32, h: u32, i: int) -> bool {
    &&& 0 <= i < s.len()
    &&& s[i].matches(g, w, h)
    &&& forall|k: int| 0 <= k < i ==> !(#[trigger] s[k]).matches(g, w, h)
}

pub open spec fn has_match(s: Seq<GradientEntry>, g: GradientSpec, w: u32, h: u32) -> bool {
    exists|i: int| is_first_match(s, g, w, h, i)
}

/// Clearing one entry's marked flag changes no key: the same keys match
/// before and after.
proof fn lemma_match_evolution_update(pre: Seq<GradientEntry>, post: Seq<GradientEntry>, i: int)
    requires
        0 <= i < pre.len(),
        post == pre.update(i, unmark1_g(pre[i])),
    ensures
        forall|g2: GradientSpec, w2: u32, h2: u32|
            has_match(pre, g2, w2, h2) == #[trigger] has_match(post, g2, w2, h2),
{
    assert forall|g2: GradientSpec, w2: u32, h2: u32|
        has_match(pre, g2, w2, h2) == #[trigger] has_match(post, g2, w2, h2) by {
        assert forall|k: int| 0 <= k < pre.len() implies (#[trigger] pre[k]).matches(g2, w2, h2)
            == (#[trigger] post[k]).matches(g2, w2, h2) by {
            if k == i {
                assert(post[k] == unmark1_g(pre[i]));
            } else {
                assert(post[k] == pre[k]);
            }
        }
        if has_match(pre, g2, w2, h2) {
            let j = choose|j: int| is_first_match(pre, g2, w2, h2, j);
            assert(is_first_match(post, g2, w2, h2, j));
        }
        if has_match(post, g2, w2, h2) {
            let j = choose|j: int| is_first_match(post, g2, w2, h2, j);
            assert(is_first_match(post, g2, w2, h2, j));
            assert(post.len() == pre.len());
            assert(pre[j].matches(g2, w2, h2));
            assert forall|k: int| 0 <= k < j implies !(#[trigger] pre[k]).matches(g2, w2, h2) by {
                assert(!post[k].matches(g2, w2, h2));
            }
            assert(is_first_match(pre, g2, w2, h2, j));
        }
    }
}

/// Appending an entry whose stops are valid CSS preserves every existing
/// match, and any new match is for a key with valid stops.
proof fn lemma_match_evolution_push(pre: Seq<GradientEntry>, post: Seq<GradientEntry>, e: GradientEntry)
    requires
        post == pre.push(e),
        e.key.stops_valid(),
    ensures
        forall|g2: GradientSpec, w2: u32, h2: u32|
            has_match(pre, g2, w2, h2) ==> #[trigger] has_match(post, g2, w2, h2),
        forall|g2: GradientSpec, w2: u32, h2: u32|
            #[trigger] has_match(post, g2, w2, h2) ==> has_match(pre, g2, w2, h2)
                || g2.stops_valid(),
{
    assert forall|g2: GradientSpec, w2: u32, h2: u32|
        has_match(pre, g2, w2, h2) implies #[trigger] has_match(post, g2, w2, h2) by {
        assert(forall|k: int| 0 <= k < pre.len() ==> #[trigger] pre[k] == post[k]);
        let j = choose|j: int| is_first_match(pre, g2, w2, h2, j);
        assert(is_first_match(post, g2, w2, h2, j));
    }
    assert forall|g2: GradientSpec, w2: u32, h2: u32|
        #[trigger] has_match(post, g2, w2, h2) implies has_match(pre, g2, w2, h2)
            || g2.stops_valid() by {
        assert(forall|k: int| 0 <= k < pre.len() ==> #[trigger] pre[k] == post[k]);
        let j = choose|j: int| is_first_match(post, g2, w2, h2, j);
        if j < pre.len() {
            assert(is_first_match(pre, g2, w2, h2, j));
        } else {
            assert(post[j] == e);
            assert(e.key.key_eq(&g2));
            lemma_stops_valid_key_eq(e.key, g2);
        }
    }
}

/// An entry with its sweep-eligibility flag set.
pub open spec fn mark1_g(e: GradientEntry) -> GradientEntry {
    GradientEntry { marked: true, ..e }
}

/// An entry re-marked fresh.
pub open spec fn unmark1_g(e: GradientEntry) -> GradientEntry {
    GradientEntry { marked: false, ..e }
}

pub open spec fn mark_model_g(s: Seq<GradientEntry>) -> Seq<GradientEntry> {
    s.map_values(|e: GradientEntry| mark1_g(e))
}

/// What a sweep leaves: the still-unmarked entries, in order.
pub open spec fn sweep_model_g(s: Seq<GradientEntry>) -> Seq<GradientEntry>
    decreases s.len(),
{
    if s.len() == 0 {
        Seq::empty()
    } else {
        let rest = sweep_model_g(s.drop_last());
        if s.last().marked {
            rest
        } else {
            rest.push(s.last())
        }
    }
}

/// Memoizes gradient rasterizations; mark/sweep reclaims entries that a
/// whole reload pass did not request.
pub struct GradientCache {
    pub entries: Vec<GradientEntry>,
}

impl GradientCache {
    /// Every entry's handle really carries the frame its key describes.
    pub open spec fn wf(&self) -> bool {
        forall|i: int|
            0 <= i < self.entries@.len() ==> {
                let e = #[trigger] self.entries@[i];
                holds_gradient(e.handle, e.key, e.width, e.height) && e.key.wf() && e.width <= 65535
                    && e.height <= 65535
            }
    }

    pub fn new() -> (r: GradientCache)
        ensures
            r.entries@.len() == 0,
            r.wf(),
    {
        GradientCache { entries: Vec::new() }
    }

    /// Looks the key up; on a hit clears that entry's marked flag and hands
    /// out the shared handle; on a miss rasterizes, memoizes and hands out
    /// a fresh handle. Fails exactly when the key misses and one of its
    /// color stops is not a valid CSS color.
    #[verifier::loop_isolation(false)]
    #[verifier::rlimit(100)]
    pub fn load(
        &mut self,
        ids: &mut HandleIds,
        g: &GradientSpec,
        width: u32,
        height: u32,
        rng: &mut fastrand::Rng,
    ) -> (r: Result<ImageHandle, BackgroundError>)
        requires
            old(self).wf(),
            g.wf(),
            width <= 65535,
            height <= 65535,
            old(ids).next < u64::MAX,
        ensures
            final(self).wf(),
            final(ids).next >= old(ids).next,
            final(ids).next <= old(ids).next + 1,
            r is Ok <==> (has_match(old(self).entries@, *g, width, height) || g.stops_valid()),
            r matches Err(e) ==> e == BackgroundError::BuildFailure && final(self).entries@ == old(self).entries@
                && final(ids).next == old(ids).next,
            r matches Ok(hd) ==> holds_gradient(hd, *g, width, height),
            // a hit returns the memoized shared handle and only clears its flag
            forall|i: int|
                is_first_match(old(self).entries@, *g, width, height, i) ==> {
                    &&& r matches Ok(hd) && hd == old(self).entries@[i].handle
                    &&& final(self).entries@ == old(self).entries@.update(
                        i,
                        unmark1_g(old(self).entries@[i]),
                    )
                    &&& final(ids).next == old(ids).next
                },
            // a miss appends one fresh, unmarked entry holding the result
            !has_match(old(self).entries@, *g, width, height) && r is Ok ==> {
                &&& final(self).entries@.len() == old(self).entries@.len() + 1
                &&& final(self).entries@.subrange(0, old(self).entries@.len() as int) == old(self).entries@
                &&& final(self).entries@.last().handle == r.unwrap()
                &&& final(self).entries@.last().matches(*g, width, height)
                &&& !final(self).entries@.last().marked
                &&& r.unwrap().id == old(ids).next
            },
            // in every successful case the key now has a fresh entry with this handle
            r matches Ok(hd) ==> exists|i: int|
                is_first_match(final(self).entries@, *g, width, height, i) && final(self).entries@[i].handle
                    == hd && !final(self).entries@[i].marked,
            // slots are stable: no entry is removed and every pre-existing
            // slot keeps its key and handle; loading never marks, and any
            // newly unmarked slot matches this call's key
            final(self).entries@.len() >= old(self).entries@.len(),
            forall|j: int|
                0 <= j < old(self).entries@.len() ==> {
                    let a = final(self).entries@[j];
                    let b = #[trigger] old(self).entries@[j];
                    a.key == b.key && a.width == b.width && a.height == b.height && a.handle
                        == b.handle
                },
            forall|j: int|
                0 <= j < old(self).entries@.len() && !(#[trigger] old(self).entries@[j]).marked
                    ==> !final(self).entries@[j].marked,
            forall|j: int|
                0 <= j < final(self).entries@.len() && !(#[trigger] final(self).entries@[j]).marked
                    ==> (j < old(self).entries@.len() && !old(self).entries@[j].marked)
                    || final(self).entries@[j].matches(*g, width, height),
            // matches only grow, and any new match is for a valid-stops key
            forall|g2: GradientSpec, w2: u32, h2: u32|
                has_match(old(self).entries@, g2, w2, h2) ==> #[trigger] has_match(
                    final(self).entries@,
                    g2,
                    w2,
                    h2,
                ),
            forall|g2: GradientSpec, w2: u32, h2: u32|
                #[trigger] has_match(final(self).entries@, g2, w2, h2) ==> has_match(
                    old(self).entries@,
                    g2,
                    w2,
                    h2,
                ) || g2.stops_valid(),
    {
        let n = self.entries.len();
        let mut i: usize = 0;
        while i < n
            invariant
                n == self.entries@.len(),
                self.entries@ == old(self).entries@,
                i <= n,
                forall|k: int| 0 <= k < i ==> !(#[trigger] self.entries@[k]).matches(*g, width, height),
            decreases n - i,
        {
            let hit = self.entries[i].key.equals(g) && self.entries[i].width == width
                && self.entries[i].height == height;
            if hit {
                proof {
                    assert(is_first_match(self.entries@, *g, width, height, i as int));
                }
                self.entries[i].marked = false;
                let hd = self.entries[i].handle.duplicate();
                proof {
                    assert(self.entries@ =~= old(self).entries@.update(
                        i as int,
                        unmark1_g(old(self).entries@[i as int]),
                    ));
                    assert forall|k: int| 0 <= k < self.entries@.len() implies {
                        let e = #[trigger] self.entries@[k];
                        holds_gradient(e.handle, e.key, e.width, e.height) && e.key.wf() && e.width
                            <= 65535 && e.height <= 65535
                    } by {
                        let eo = old(self).entries@[k];
                        assert(holds_gradient(eo.handle, eo.key, eo.width, eo.height) && eo.key.wf()
                            && eo.width <= 65535 && eo.height <= 65535);
                        if k != i as int {
                            assert(self.entries@[k] == eo);
                        } else {
                            assert(self.entries@[k] == unmark1_g(eo));
                        }
                    }
                    assert(is_first_match(self.entries@, *g, width, height, i as int));
                    assert(!self.entries@[i as int].marked);
                    lemma_match_evolution_update(
                        old(self).entries@,
                        self.entries@,
                        i as int,
                    );
                    lemma_holds_gradient_key_eq(
                        hd,
                        old(self).entries@[i as int].key,
                        *g,
                        width,
                        height,
                    );
                }
                return Ok(hd);
            }
            i = i + 1;
        }
        proof {
            assert(!has_match(self.entries@, *g, width, height));
        }
        let pb = match compute(g, width, height, rng) {
            Ok(pb) => pb,
            Err(e) => {
                return Err(e);
            },
        };
        let hd = make_handle(ids, ImageContent::Frame(pb));
        let entry = GradientEntry {
            key: g.copy_key(),
            width,
            height,
            handle: hd.duplicate(),
            marked: false,
        };
        self.entries.push(entry);
        proof {
            assert(self.entries@.subrange(0, old(self).entries@.len() as int) =~= old(self).entries@);
            assert(self.entries@.last().key.key_eq(g));
            assert(is_first_match(
                self.entries@,
                *g,
                width,
                height,
                old(self).entries@.len() as int,
            ));
            lemma_holds_gradient_key_eq(hd, *g, self.entries@.last().key, width, height);
            lemma_stops_valid_key_eq(self.entries@.last().key, *g);
            assert(self.entries@ =~= old(self).entries@.push(self.entries@.last()));
            lemma_match_evolution_push(
                old(self).entries@,
                self.entries@,
                self.entries@.last(),
            );
        }
        Ok(hd)
    }

    /// Sets every entry's marked flag: the start of a reload pass.
    #[verifier::loop_isolation(false)]
    pub fn mark_all(&mut self)
        requires
            old(self).wf(),
        ensures
            final(self).wf(),
            final(self).entries@ == mark_model_g(old(self).entries@),
    {
        let n = self.entries.len();
        let mut i: usize = 0;
        while i < n
            invariant
                n == self.entries@.len(),
                old(self).entries@.len() == n,
                i <= n,
                forall|k: int| 0 <= k < i ==> self.entries@[k] == mark1_g(#[trigger] old(self).entries@[k]),
                forall|k: int| i <= k < n ==> self.entries@[k] == #[trigger] old(self).entries@[k],
            decreases n - i,
        {
            self.entries[i].marked = true;
            i = i + 1;
        }
        proof {
            assert(self.entries@ =~= mark_model_g(old(self).entries@));
            assert forall|i: int| 0 <= i < self.entries@.len() implies {
                let e = #[trigger] self.entries@[i];
                holds_gradient(e.handle, e.key, e.width, e.height) && e.key.wf() && e.width <= 65535
                    && e.height <= 65535
            } by {
                assert(self.entries@[i] == mark1_g(old(self).entries@[i]));
            }
        }
    }

    /// Removes every entry still marked: the end of a reload pass.
    #[verifier::loop_isolation(false)]
    pub fn sweep(&mut self)
        requires
            old(self).wf(),
        ensures
            final(self).wf(),
            final(self).entries@ == sweep_model_g(old(self).entries@),
    {
        let ghost orig = self.entries@;
        let ghost mut j: int = 0;
        let mut i: usize = 0;
        while i < self.entries.len()
            invariant
                self.wf(),
                0 <= j <= orig.len(),
                i == sweep_model_g(orig.take(j)).len(),
                self.entries@ =~= sweep_model_g(orig.take(j)) + orig.skip(j),
            decreases orig.len() - j,
        {
            proof {
                assert(self.entries@.len() == i + orig.len() - j);
                assert(j < orig.len());
                assert(self.entries@[i as int] == orig[j]);
                assert(orig.take(j + 1).drop_last() =~= orig.take(j));
                assert(orig.take(j + 1).last() == orig[j]);
            }
            if self.entries[i].marked {
                let ghost before = self.entries@;
                self.entries.remove(i);
                proof {
                    assert(self.entries@ =~= sweep_model_g(orig.take(j + 1)) + orig.skip(j + 1));
                    assert forall|k: int| 0 <= k < self.entries@.len() implies {
                        let e = #[trigger] self.entries@[k];
                        holds_gradient(e.handle, e.key, e.width, e.height) && e.key.wf() && e.width
                            <= 65535 && e.height <= 65535
                    } by {
                        if k < i {
                            assert(self.entries@[k] == before[k]);
                        } else {
                            assert(self.entries@[k] == before[k + 1]);
                        }
                    }
                }
            } else {
                proof {
                    assert(self.entries@ =~= sweep_model_g(orig.take(j + 1)) + orig.skip(j + 1));
                }
                i = i + 1;
            }
            proof {
                j = j + 1;
            }
        }
        proof {
            assert(j == orig.len());
            assert(orig.take(j) =~= orig);
            assert(self.entries@ =~= sweep_model_g(orig));
        }
    }
}

// ---------------------------------------------------------------------------
// The laws of mark/sweep reclamation
// ---------------------------------------------------------------------------
/// Sweeping a cache whose entries are all marked leaves it empty; in
/// particular `mark_all` directly followed by `sweep` empties the cache.
pub proof fn lemma_sweep_all_marked_g(s: Seq<GradientEntry>)
    requires
        forall|i: int| 0 <= i < s.len() ==> (#[trigger] s[i]).marked,
    ensures
        sweep_model_g(s).len() == 0,
    decreases s.len(),
{
    if s.len() > 0 {
        lemma_sweep_all_marked_g(s.drop_last());
    }
}

/// Marking makes every entry marked, so `mark_all` then `sweep` with no
/// intervening load empties the cache.
pub proof fn lemma_mark_then_sweep_empties_g(s: Seq<GradientEntry>)
    ensures
        sweep_model_g(mark_model_g(s)).len() == 0,
{
    lemma_sweep_all_marked_g(mark_model_g(s));
}

/// Marking changes no key, so the same keys match before and after.
pub proof fn lemma_has_match_marked(s: Seq<GradientEntry>, g: GradientSpec, w: u32, h: u32)
    ensures
        has_match(mark_model_g(s), g, w, h) == has_match(s, g, w, h),
{
    let ms = mark_model_g(s);
    assert forall|k: int| 0 <= k < s.len() implies (#[trigger] s[k]).matches(g, w, h) == (
    #[trigger] ms[k]).matches(g, w, h) by {
        assert(ms[k] == mark1_g(s[k]));
    }
    if has_match(s, g, w, h) {
        let j = choose|j: int| is_first_match(s, g, w, h, j);
        assert(is_first_match(ms, g, w, h, j));
    }
    if has_match(ms, g, w, h) {
        let j = choose|j: int| is_first_match(ms, g, w, h, j);
        assert(is_first_match(ms, g, w, h, j));
        assert(ms.len() == s.len());
        assert(s[j].matches(g, w, h));
        assert forall|k: int| 0 <= k < j implies !(#[trigger] s[k]).matches(g, w, h) by {
            assert(!ms[k].matches(g, w, h));
        }
        assert(is_first_match(s, g, w, h, j));
    }
}

/// Everything a sweep leaves behind is unmarked: it was requested during
/// the pass.
pub proof fn lemma_sweep_unmarked_g(s: Seq<GradientEntry>)
    ensures
        forall|i: int|
            0 <= i < sweep_model_g(s).len() ==> !(#[trigger] sweep_model_g(s)[i]).marked,
    decreases s.len(),
{
    if s.len() > 0 {
        lemma_sweep_unmarked_g(s.drop_last());
    }
}

/// Every sweep survivor is one of the original entries.
pub proof fn lemma_sweep_sub_g(s: Seq<GradientEntry>)
    ensures
        forall|i: int|
            0 <= i < sweep_model_g(s).len() ==> exists|j: int|
                0 <= j < s.len() && #[trigger] sweep_model_g(s)[i] == #[trigger] s[j],
    decreases s.len(),
{
    if s.len() > 0 {
        lemma_sweep_sub_g(s.drop_last());
        let r = sweep_model_g(s);
        let rest = sweep_model_g(s.drop_last());
        assert forall|i: int| 0 <= i < r.len() implies exists|j: int|
            0 <= j < s.len() && #[trigger] r[i] == #[trigger] s[j] by {
            if i < rest.len() {
                let j = choose|j: int|
                    0 <= j < s.drop_last().len() && rest[i] == #[trigger] s.drop_last()[j];
                assert(r[i] == s[j]);
            } else {
                assert(r[i] == s[s.len() - 1]);
            }
        }
    }
}

/// If exactly one entry is unmarked — as after `mark_all` followed by one
/// hit `load` — the sweep keeps that entry alone.
pub proof fn lemma_sweep_single_survivor_g(s: Seq<GradientEntry>, i: int)
    requires
        0 <= i < s.len(),
        !s[i].marked,
        forall|k: int| 0 <= k < s.len() && k != i ==> (#[trigger] s[k]).marked,
    ensures
        sweep_model_g(s) =~= seq![s[i]],
    decreases s.len(),
{
    if i == s.len() - 1 {
        lemma_sweep_all_marked_g(s.drop_last());
    } else {
        lemma_sweep_single_survivor_g(s.drop_last(), i);
    }
}

/// The first match of a key is unique, so any two loads of structurally
/// equal keys return the identical shared handle: the second look-up can
/// only land on the entry the first one certified.
pub proof fn lemma_first_match_unique(s: Seq<GradientEntry>, g: GradientSpec, w: u32, h: u32, i: int, j: int)
    requires
        is_first_match(s, g, w, h, i),
        is_first_match(s, g, w, h, j),
    ensures
        i == j,
{
}

/// Idempotence of `load`: once a load has left the cache with a fresh
/// first-matching entry holding handle `hd` (which `load` ensures of every
/// successful call), any further load of a structurally equal key is a hit
/// on that very entry: it returns the identical shared handle and, per the
/// hit clause of `load`'s contract, does not rasterize again.
pub proof fn lemma_gradient_load_idempotent(
    s: Seq<GradientEntry>,
    g: GradientSpec,
    w: u32,
    h: u32,
    i: int,
    hd: ImageHandle,
)
    requires
        is_first_match(s, g, w, h, i),
        s[i].handle == hd,
    ensures
        forall|j: int| #[trigger] is_first_match(s, g, w, h, j) ==> s[j].handle == hd,
{
    assert forall|j: int| #[trigger] is_first_match(s, g, w, h, j) implies s[j].handle == hd by {
        lemma_first_match_unique(s, g, w, h, i, j);
    }
}

// ---------------------------------------------------------------------------
// Image file cache
// ---------------------------------------------------------------------------
/// One memoized image file, keyed by path and validated by the file's
/// modification time and the configured playback speed.
pub struct ImageEntry {
    pub path: String,
    pub modified: u64,
    pub speed_permille: u32,
    pub handle: ImageHandle,
    pub marked: bool,
}

impl ImageEntry {
    pub open spec fn keyed(&self, p: Seq<char>) -> bool {
        self.path@ == p
    }

    /// The entry can serve the request without re-reading the file.
    pub open spec fn fresh_for(&self, p: Seq<char>, modified: u64, speed: u32) -> bool {
        self.path@ == p && self.modified == modified && self.speed_permille == speed
    }
}

/// The handle carries exactly these encoded bytes at this playback speed.
pub open spec fn holds_encoded(hd: ImageHandle, bytes: Seq<u8>, speed: u32) -> bool {
    &&& hd.wf()
    &&& *hd.content matches ImageContent::Encoded { bytes: b, speed_permille: s } && b@ == bytes
        && s == speed
}

pub open spec fn is_first_keyed(s: Seq<ImageEntry>, p: Seq<char>, i: int) -> bool {
    &&& 0 <= i < s.len()
    &&& s[i].keyed(p)
    &&& forall|k: int| 0 <= k < i ==> !(#[trigger] s[k]).keyed(p)
}

pub open spec fn has_keyed(s: Seq<ImageEntry>, p: Seq<char>) -> bool {
    exists|i: int| is_first_keyed(s, p, i)
}

pub open spec fn fresh_at(s: Seq<ImageEntry>, p: Seq<char>, m: u64, sp: u32, i: int) -> bool {
    0 <= i < s.len() && (#[trigger] s[i]).fresh_for(p, m, sp)
}

pub open spec fn has_fresh(s: Seq<ImageEntry>, p: Seq<char>, m: u64, sp: u32) -> bool {
    exists|i: int| fresh_at(s, p, m, sp, i)
}

pub open spec fn mark1_i(e: ImageEntry) -> ImageEntry {
    ImageEntry { marked: true, ..e }
}

pub open spec fn unmark1_i(e: ImageEntry) -> ImageEntry {
    ImageEntry { marked: false, ..e }
}

pub open spec fn mark_model_i(s: Seq<ImageEntry>) -> Seq<ImageEntry> {
    s.map_values(|e: ImageEntry| mark1_i(e))
}

pub open spec fn sweep_model_i(s: Seq<ImageEntry>) -> Seq<ImageEntry>
    decreases s.len(),
{
    if s.len() == 0 {
        Seq::empty()
    } else {
        let rest = sweep_model_i(s.drop_last());
        if s.last().marked {
            rest
        } else {
            rest.push(s.last())
        }
    }
}

/// Memoizes loaded image files; a changed modification time or playback
/// speed invalidates an entry, and mark/sweep reclaims what a reload pass
/// did not request. A rewritten file whose timestamp did not change is not
/// detected: staleness is judged by metadata, never by content.
pub struct ImageFileCache {
    pub entries: Vec<ImageEntry>,
}

impl ImageFileCache {
    /// Paths are unique, and every handle carries encoded bytes at the
    /// entry's playback speed.
    pub open spec fn wf(&self) -> bool {
        &&& forall|i: int, j: int|
            0 <= i < j < self.entries@.len() ==> (#[trigger] self.entries@[i]).path@ != (
            #[trigger] self.entries@[j]).path@
        &&& forall|i: int|
            0 <= i < self.entries@.len() ==> {
                let e = #[trigger] self.entries@[i];
                e.handle.wf() && ((*e.handle.content) matches ImageContent::Encoded {
                    speed_permille: s,
                    ..
                } && s == e.speed_permille)
            }
    }

    pub fn new() -> (r: ImageFileCache)
        ensures
            r.entries@.len() == 0,
            r.wf(),
    {
        ImageFileCache { entries: Vec::new() }
    }

    /// Whether a load for this key would have to read the file's bytes:
    /// true unless an entry matches path, modification time and speed.
    pub fn needs_read(&self, path: &String, modified: u64, speed_permille: u32) -> (r: bool)
        ensures
            r == !has_fresh(self.entries@, path@, modified, speed_permille),
    {
        let n = self.entries.len();
        let mut i: usize = 0;
        while i < n
            invariant
                n == self.entries@.len(),
                i <= n,
                forall|k: int|
                    0 <= k < i ==> !(#[trigger] self.entries@[k]).fresh_for(
                        path@,
                        modified,
                        speed_permille,
                    ),
            decreases n - i,
        {
            let e = &self.entries[i];
            if e.path == *path && e.modified == modified && e.speed_permille == speed_permille {
                proof {
                    assert(fresh_at(self.entries@, path@, modified, speed_permille, i as int));
                }
                return false;
            }
            i = i + 1;
        }
        proof {
            assert forall|k: int| !fresh_at(self.entries@, path@, modified, speed_permille, k) by {
                if 0 <= k < n {
                    assert(!self.entries@[k].fresh_for(path@, modified, speed_permille));
                }
            }
        }
        true
    }

    /// Serves the key from the cache when the stored modification time and
    /// speed still match (clearing that entry's marked flag); otherwise
    /// wraps the supplied freshly read bytes in a new shared handle,
    /// replacing any stale entry for the path. Fails with `IOFailure`
    /// exactly when the file's modification time is unknown (a stat
    /// failure), or when a re-read was needed and no bytes came.
    #[verifier::loop_isolation(false)]
    #[verifier::rlimit(100)]
    pub fn load(
        &mut self,
        ids: &mut HandleIds,
        path: &String,
        speed_permille: u32,
        modified: Option<u64>,
        bytes: Option<Vec<u8>>,
    ) -> (r: Result<ImageHandle, BackgroundError>)
        requires
            old(self).wf(),
            old(ids).next < u64::MAX,
        ensures
            final(self).wf(),
            final(ids).next >= old(ids).next,
            final(ids).next <= old(ids).next + 1,
            // outcome characterization
            r is Ok <==> modified is Some && (has_fresh(
                old(self).entries@,
                path@,
                modified.unwrap(),
                speed_permille,
            ) || bytes is Some),
            r matches Err(e) ==> e == BackgroundError::IOFailure && final(self).entries@
                == old(self).entries@ && final(ids).next == old(ids).next,
            // a fresh hit returns the memoized shared handle, only clearing its flag
            forall|i: int|
                modified matches Some(m) && fresh_at(
                    old(self).entries@,
                    path@,
                    m,
                    speed_permille,
                    i,
                ) ==> {
                    &&& r matches Ok(hd) && hd == old(self).entries@[i].handle
                    &&& final(self).entries@ == old(self).entries@.update(
                        i,
                        unmark1_i(old(self).entries@[i]),
                    )
                    &&& final(ids).next == old(ids).next
                },
            // a miss or stale entry is replaced by (or appended as) a fresh one
            modified matches Some(m) ==> bytes matches Some(b) ==> !has_fresh(
                old(self).entries@,
                path@,
                m,
                speed_permille,
            ) ==> {
                &&& r matches Ok(hd) && hd.id == old(ids).next && holds_encoded(
                    hd,
                    b@,
                    speed_permille,
                ) && {
                    let entry = ImageEntry {
                        path: *path,
                        modified: m,
                        speed_permille,
                        handle: hd,
                        marked: false,
                    };
                    if has_keyed(old(self).entries@, path@) {
                        forall|j: int|
                            #[trigger] is_first_keyed(old(self).entries@, path@, j)
                                ==> final(self).entries@ == old(self).entries@.update(j, entry)
                    } else {
                        final(self).entries@ == old(self).entries@.push(entry)
                    }
                }
            },
            // in every successful case the key now has a fresh entry with this handle
            r matches Ok(hd) ==> modified matches Some(m) && exists|i: int|
                fresh_at(final(self).entries@, path@, m, speed_permille, i)
                    && final(self).entries@[i].handle == hd && !final(self).entries@[i].marked,
            // every handle served is well formed and carries encoded bytes
            // at the requested playback speed
            r matches Ok(hd) ==> hd.wf() && ((*hd.content) matches ImageContent::Encoded {
                speed_permille: s,
                ..
            } && s == speed_permille),
            // loading never marks: an unmarked slot stays unmarked, and any
            // newly unmarked slot is this call's own fresh entry
            forall|j: int|
                0 <= j < old(self).entries@.len() && !(#[trigger] old(self).entries@[j]).marked
                    ==> !final(self).entries@[j].marked,
            forall|j: int|
                0 <= j < final(self).entries@.len() && !(#[trigger] final(self).entries@[j]).marked
                    ==> (j < old(self).entries@.len() && !old(self).entries@[j].marked)
                    || final(self).entries@[j].path@ == path@,
            // slots are stable: no entry is removed, every pre-existing slot
            // keeps its path, and keeps its key and handle unless this call
            // replaced it, which consumes bytes; new slots are for this path
            final(self).entries@.len() >= old(self).entries@.len(),
            forall|j: int|
                0 <= j < old(self).entries@.len() ==> (#[trigger] final(self).entries@[j]).path@
                    == old(self).entries@[j].path@,
            forall|j: int|
                0 <= j < old(self).entries@.len() ==> ({
                    let a = final(self).entries@[j];
                    let b = #[trigger] old(self).entries@[j];
                    (a.modified == b.modified && a.speed_permille == b.speed_permille && a.handle
                        == b.handle) || (bytes is Some && b.path@ == path@)
                }),
            forall|j: int|
                old(self).entries@.len() <= j < final(self).entries@.len() ==> ((
                #[trigger] final(self).entries@[j]).path@ == path@ && bytes is Some),
    {
        let m = match modified {
            Option::Some(m) => m,
            Option::None => {
                return Err(BackgroundError::IOFailure);
            },
        };
        let n = self.entries.len();
        let mut found: Option<usize> = Option::None;
        let mut i: usize = 0;
        while i < n
            invariant
                n == self.entries@.len(),
                self.entries@ == old(self).entries@,
                i <= n,
                found is None,
                forall|k: int| 0 <= k < i ==> !(#[trigger] self.entries@[k]).keyed(path@),
            decreases n - i,
        {
            if self.entries[i].path == *path {
                found = Option::Some(i);
                proof {
                    assert(is_first_keyed(self.entries@, path@, i as int));
                }
                break ;
            }
            i = i + 1;
        }
        if let Option::Some(idx) = found {
            let e = &self.entries[idx];
            if e.modified == m && e.speed_permille == speed_permille {
                proof {
                    assert(fresh_at(self.entries@, path@, m, speed_permille, idx as int));
                }
                self.entries[idx].marked = false;
                let hd = self.entries[idx].handle.duplicate();
                proof {
                    assert(self.entries@ =~= old(self).entries@.update(
                        idx as int,
                        unmark1_i(old(self).entries@[idx as int]),
                    ));
                    assert forall|k: int|
                        #[trigger] fresh_at(
                            old(self).entries@,
                            path@,
                            m,
                            speed_permille,
                            k,
                        ) implies k == idx as int by {
                        if k != idx as int {
                            assert(old(self).entries@[k].keyed(path@));
                            assert(old(self).entries@[idx as int].keyed(path@));
                        }
                    }
                    assert(fresh_at(self.entries@, path@, m, speed_permille, idx as int));
                }
                return Ok(hd);
            }
        }
        proof {
            if found is None {
                assert forall|k: int| !fresh_at(self.entries@, path@, m, speed_permille, k) by {
                    if 0 <= k < n {
                        assert(!self.entries@[k].keyed(path@));
                    }
                }
            } else {
                let idx = found.unwrap() as int;
                assert forall|k: int| !fresh_at(self.entries@, path@, m, speed_permille, k) by {
                    if 0 <= k < n && k != idx {
                        assert(old(self).entries@[k].keyed(path@) ==> false) by {
                            if old(self).entries@[k].keyed(path@) {
                                assert(old(self).entries@[idx].keyed(path@));
                            }
                        }
                    }
                }
            }
            assert(!has_fresh(self.entries@, path@, m, speed_permille));
        }
        let b = match bytes {
            Option::Some(b) => b,
            Option::None => {
                return Err(BackgroundError::IOFailure);
            },
        };
        let hd = make_handle(ids, ImageContent::Encoded { bytes: b, speed_permille });
        let entry = ImageEntry {
            path: path.clone(),
            modified: m,
            speed_permille,
            handle: hd.duplicate(),
            marked: false,
        };
        let ghost pre = self.entries@;
        if let Option::Some(idx) = found {
            self.entries[idx] = entry;
            proof {
                assert(self.entries@ =~= pre.update(idx as int, self.entries@[idx as int]));
                assert forall|i2: int, j2: int|
                    0 <= i2 < j2 < self.entries@.len() implies (
                #[trigger] self.entries@[i2]).path@ != (#[trigger] self.entries@[j2]).path@ by {
                    assert(pre[i2].path@ != pre[j2].path@);
                    assert(old(self).entries@[idx as int].keyed(path@));
                }
                assert(fresh_at(self.entries@, path@, m, speed_permille, idx as int));
            }
        } else {
            self.entries.push(entry);
            proof {
                assert forall|i2: int, j2: int|
                    0 <= i2 < j2 < self.entries@.len() implies (
                #[trigger] self.entries@[i2]).path@ != (#[trigger] self.entries@[j2]).path@ by {
                    if j2 < pre.len() {
                        assert(pre[i2].path@ != pre[j2].path@);
                    } else {
                        assert(!pre[i2].keyed(path@));
                    }
                }
                assert(fresh_at(self.entries@, path@, m, speed_permille, pre.len() as int));
            }
        }
        Ok(hd)
    }

    /// Sets every entry's marked flag: the start of a reload pass.
    #[verifier::loop_isolation(false)]
    pub fn mark_all(&mut self)
        requires
            old(self).wf(),
        ensures
            final(self).wf(),
            final(self).entries@ == mark_model_i(old(self).entries@),
    {
        let n = self.entries.len();
        let mut i: usize = 0;
        while i < n
            invariant
                n == self.entries@.len(),
                i <= n,
                forall|k: int| 0 <= k < i ==> self.entries@[k] == mark1_i(#[trigger] old(self).entries@[k]),
                forall|k: int| i <= k < n ==> self.entries@[k] == #[trigger] old(self).entries@[k],
            decreases n - i,
        {
            self.entries[i].marked = true;
            i = i + 1;
        }
        proof {
            assert(self.entries@ =~= mark_model_i(old(self).entries@));
            assert forall|i2: int, j2: int|
                0 <= i2 < j2 < self.entries@.len() implies (#[trigger] self.entries@[i2]).path@
                != (#[trigger] self.entries@[j2]).path@ by {
                assert(old(self).entries@[i2].path@ != old(self).entries@[j2].path@);
            }
            assert forall|i2: int| 0 <= i2 < self.entries@.len() implies {
                let e = #[trigger] self.entries@[i2];
                e.handle.wf() && ((*e.handle.content) matches ImageContent::Encoded {
                    speed_permille: s,
                    ..
                } && s == e.speed_permille)
            } by {
                assert(self.entries@[i2] == mark1_i(old(self).entries@[i2]));
            }
        }
    }

    /// Removes every entry still marked: the end of a reload pass.
    #[verifier::loop_isolation(false)]
    #[verifier::rlimit(100)]
    pub fn sweep(&mut self)
        requires
            old(self).wf(),
        ensures
            final(self).wf(),
            final(self).entries@ == sweep_model_i(old(self).entries@),
    {
        let ghost orig = self.entries@;
        let ghost mut j: int = 0;
        let mut i: usize = 0;
        while i < self.entries.len()
            invariant
                0 <= j <= orig.len(),
                i == sweep_model_i(orig.take(j)).len(),
                self.entries@ =~= sweep_model_i(orig.take(j)) + orig.skip(j),
                forall|k: int, l: int|
                    0 <= k < l < self.entries@.len() ==> (#[trigger] self.entries@[k]).path@ != (
                    #[trigger] self.entries@[l]).path@,
                forall|k: int|
                    0 <= k < self.entries@.len() ==> {
                        let e = #[trigger] self.entries@[k];
                        e.handle.wf() && ((*e.handle.content) matches ImageContent::Encoded {
                            speed_permille: s,
                            ..
                        } && s == e.speed_permille)
                    },
            decreases orig.len() - j,
        {
            proof {
                assert(self.entries@.len() == i + orig.len() - j);
                assert(j < orig.len());
                assert(self.entries@[i as int] == orig[j]);
                assert(orig.take(j + 1).drop_last() =~= orig.take(j));
                assert(orig.take(j + 1).last() == orig[j]);
            }
            if self.entries[i].marked {
                let ghost before = self.entries@;
                self.entries.remove(i);
                proof {
                    assert(self.entries@ =~= sweep_model_i(orig.take(j + 1)) + orig.skip(j + 1));
                    assert forall|k: int, l: int|
                        0 <= k < l < self.entries@.len() implies (
                    #[trigger] self.entries@[k]).path@ != (#[trigger] self.entries@[l]).path@ by {
                        let k2 = if k < i {
                            k
                        } else {
                            k + 1
                        };
                        let l2 = if l < i {
                            l
                        } else {
                            l + 1
                        };
                        assert(self.entries@[k] == before[k2] && self.entries@[l] == before[l2]);
                    }
                    assert forall|k: int| 0 <= k < self.entries@.len() implies {
                        let e = #[trigger] self.entries@[k];
                        e.handle.wf() && ((*e.handle.content) matches ImageContent::Encoded {
                            speed_permille: s,
                            ..
                        } && s == e.speed_permille)
                    } by {
                        if k < i {
                            assert(self.entries@[k] == before[k]);
                        } else {
                            assert(self.entries@[k] == before[k + 1]);
                        }
                    }
                }
            } else {
                proof {
                    assert(self.entries@ =~= sweep_model_i(orig.take(j + 1)) + orig.skip(j + 1));
                }
                i = i + 1;
            }
            proof {
                j = j + 1;
            }
        }
        proof {
            assert(j == orig.len());
            assert(orig.take(j) =~= orig);
            assert(self.entries@ =~= sweep_model_i(orig));
        }
    }
}

/// Sweeping an image cache whose entries are all marked leaves it empty.
pub proof fn lemma_sweep_all_marked_i(s: Seq<ImageEntry>)
    requires
        forall|i: int| 0 <= i < s.len() ==> (#[trigger] s[i]).marked,
    ensures
        sweep_model_i(s).len() == 0,
    decreases s.len(),
{
    if s.len() > 0 {
        lemma_sweep_all_marked_i(s.drop_last());
    }
}

/// `mark_all` then `sweep` with no intervening load empties the cache.
pub proof fn lemma_mark_then_sweep_empties_i(s: Seq<ImageEntry>)
    ensures
        sweep_model_i(mark_model_i(s)).len() == 0,
{
    lemma_sweep_all_marked_i(mark_model_i(s));
}

/// Marking changes no key fields, so freshness is unchanged.
pub proof fn lemma_has_fresh_marked(s: Seq<ImageEntry>, p: Seq<char>, m: u64, sp: u32)
    ensures
        has_fresh(mark_model_i(s), p, m, sp) == has_fresh(s, p, m, sp),
{
    let ms = mark_model_i(s);
    assert forall|k: int| 0 <= k < s.len() implies (#[trigger] s[k]).fresh_for(p, m, sp) == (
    #[trigger] ms[k]).fresh_for(p, m, sp) by {
        assert(ms[k] == mark1_i(s[k]));
    }
    if has_fresh(s, p, m, sp) {
        let j = choose|j: int| fresh_at(s, p, m, sp, j);
        assert(fresh_at(ms, p, m, sp, j));
    }
    if has_fresh(ms, p, m, sp) {
        let j = choose|j: int| fresh_at(ms, p, m, sp, j);
        assert(fresh_at(s, p, m, sp, j));
    }
}

/// Everything a sweep leaves behind is unmarked: it was requested during
/// the pass.
pub proof fn lemma_sweep_unmarked_i(s: Seq<ImageEntry>)
    ensures
        forall|i: int|
            0 <= i < sweep_model_i(s).len() ==> !(#[trigger] sweep_model_i(s)[i]).marked,
    decreases s.len(),
{
    if s.len() > 0 {
        lemma_sweep_unmarked_i(s.drop_last());
    }
}

/// Every sweep survivor is one of the original entries.
pub proof fn lemma_sweep_sub_i(s: Seq<ImageEntry>)
    ensures
        forall|i: int|
            0 <= i < sweep_model_i(s).len() ==> exists|j: int|
                0 <= j < s.len() && #[trigger] sweep_model_i(s)[i] == #[trigger] s[j],
    decreases s.len(),
{
    if s.len() > 0 {
        lemma_sweep_sub_i(s.drop_last());
        let r = sweep_model_i(s);
        let rest = sweep_model_i(s.drop_last());
        assert forall|i: int| 0 <= i < r.len() implies exists|j: int|
            0 <= j < s.len() && #[trigger] r[i] == #[trigger] s[j] by {
            if i < rest.len() {
                let j = choose|j: int|
                    0 <= j < s.drop_last().len() && rest[i] == #[trigger] s.drop_last()[j];
                assert(r[i] == s[j]);
            } else {
                assert(r[i] == s[s.len() - 1]);
            }
        }
    }
}

/// Every unmarked entry survives the sweep with its value intact.
pub proof fn lemma_sweep_keeps_unmarked_i(s: Seq<ImageEntry>, i: int)
    requires
        0 <= i < s.len(),
        !s[i].marked,
    ensures
        exists|j: int|
            0 <= j < sweep_model_i(s).len() && #[trigger] sweep_model_i(s)[j] == s[i],
    decreases s.len(),
{
    if i == s.len() - 1 {
        assert(sweep_model_i(s).last() == s[i]);
    } else {
        lemma_sweep_keeps_unmarked_i(s.drop_last(), i);
        let rest = sweep_model_i(s.drop_last());
        let j = choose|j: int| 0 <= j < rest.len() && #[trigger] rest[j] == s.drop_last()[i];
        assert(sweep_model_i(s)[j] == s[i]);
    }
}

/// If exactly one entry is unmarked — as after `mark_all` followed by one
/// hit `load` — the sweep keeps that entry alone.
pub proof fn lemma_sweep_single_survivor_i(s: Seq<ImageEntry>, i: int)
    requires
        0 <= i < s.len(),
        !s[i].marked,
        forall|k: int| 0 <= k < s.len() && k != i ==> (#[trigger] s[k]).marked,
    ensures
        sweep_model_i(s) =~= seq![s[i]],
    decreases s.len(),
{
    if i == s.len() - 1 {
        lemma_sweep_all_marked_i(s.drop_last());
    } else {
        lemma_sweep_single_survivor_i(s.drop_last(), i);
    }
}

} // verus!
