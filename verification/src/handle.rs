use vstd::prelude::*;

use crate::color::RgbaColor;
use std::sync::Arc;

verus! {

pub const FNV_OFFSET: u64 = 0xcbf29ce484222325;

pub const FNV_PRIME: u64 = 0x100000001b3;

/// One step of the FNV-1a folding used for content identity.
pub open spec fn fnv_step(h: u64, b: u8) -> u64 {
    (h ^ (b as u64)).wrapping_mul(FNV_PRIME)
}

/// The FNV-1a state after folding the first `i` bytes of `s` into `h0`.
pub open spec fn fnv_from(h0: u64, s: Seq<u8>, i: int) -> u64
    decreases i,
{
    if i <= 0 {
        h0
    } else {
        fnv_step(fnv_from(h0, s, i - 1), s[i - 1])
    }
}

/// A decoded RGBA frame of the given dimensions, in row-major order.
pub struct PixelBuffer {
    pub width: u32,
    pub height: u32,
    pub pixels: Vec<RgbaColor>,
}

impl PixelBuffer {
    pub open spec fn wf(&self) -> bool {
        self.pixels@.len() == (self.width as int) * (self.height as int)
    }

    pub open spec fn pixel_at(&self, x: int, y: int) -> RgbaColor {
        self.pixels@[y * (self.width as int) + x]
    }
}

/// What a pixel-buffer handle carries: either a frame this library
/// rasterized itself, or the still-encoded bytes of an image file together
/// with the playback speed they are to be decoded with.
pub enum ImageContent {
    Frame(PixelBuffer),
    Encoded { bytes: Vec<u8>, speed_permille: u32 },
}

/// The flattened r,g,b,a byte stream of a pixel sequence.
pub open spec fn pixel_component(s: Seq<RgbaColor>, i: int) -> u8 {
    let p = s[i / 4];
    if i % 4 == 0 {
        p.r
    } else if i % 4 == 1 {
        p.g
    } else if i % 4 == 2 {
        p.b
    } else {
        p.a
    }
}

pub open spec fn pixel_stream(s: Seq<RgbaColor>) -> Seq<u8> {
    Seq::new(4 * s.len(), |i: int| pixel_component(s, i))
}

/// Initial hash state for encoded content: a variant tag and the four
/// little-endian bytes of the playback speed.
pub open spec fn encoded_seed(speed: u32) -> u64 {
    fnv_step(
        fnv_step(
            fnv_step(
                fnv_step(fnv_step(FNV_OFFSET, 2), (speed & 0xff) as u8),
                ((speed >> 8) & 0xff) as u8,
            ),
            ((speed >> 16) & 0xff) as u8,
        ),
        ((speed >> 24) & 0xff) as u8,
    )
}

/// Content identity: equal content always hashes equal, so a reload can
/// recognize an unchanged layer and keep its previous handle.
pub open spec fn content_hash(c: ImageContent) -> u64 {
    match c {
        ImageContent::Frame(pb) => fnv_from(
            fnv_step(FNV_OFFSET, 1),
            pixel_stream(pb.pixels@),
            4 * pb.pixels@.len() as int,
        ),
        ImageContent::Encoded { bytes, speed_permille } => fnv_from(
            encoded_seed(speed_permille),
            bytes@,
            bytes@.len() as int,
        ),
    }
}

fn fold_bytes(h0: u64, bytes: &Vec<u8>) -> (r: u64)
    ensures
        r == fnv_from(h0, bytes@, bytes@.len() as int),
{
    let mut h = h0;
    let mut i: usize = 0;
    while i < bytes.len()
        invariant
            i <= bytes@.len(),
            h == fnv_from(h0, bytes@, i as int),
        decreases bytes@.len() - i,
    {
        h = (h ^ (bytes[i] as u64)).wrapping_mul(FNV_PRIME);
        i = i + 1;
    }
    h
}

fn fold_pixels(h0: u64, pixels: &Vec<RgbaColor>) -> (r: u64)
    ensures
        r == fnv_from(h0, pixel_stream(pixels@), 4 * pixels@.len() as int),
{
    let ghost s = pixel_stream(pixels@);
    let mut h = h0;
    let mut i: usize = 0;
    while i < pixels.len()
        invariant
            i <= pixels@.len(),
            s == pixel_stream(pixels@),
            h == fnv_from(h0, s, 4 * i as int),
        decreases pixels@.len() - i,
    {
        let p = pixels[i];
        proof {
            assert((4 * i as int) / 4 == i as int && (4 * i as int) % 4 == 0) by (nonlinear_arith)
                requires
                    i >= 0,
            ;
            assert((4 * i as int + 1) / 4 == i as int && (4 * i as int + 1) % 4 == 1)
                by (nonlinear_arith)
                requires
                    i >= 0,
            ;
            assert((4 * i as int + 2) / 4 == i as int && (4 * i as int + 2) % 4 == 2)
                by (nonlinear_arith)
                requires
                    i >= 0,
            ;
            assert((4 * i as int + 3) / 4 == i as int && (4 * i as int + 3) % 4 == 3)
                by (nonlinear_arith)
                requires
                    i >= 0,
            ;
            assert(s[4 * i as int] == p.r);
            assert(s[4 * i as int + 1] == p.g);
            assert(s[4 * i as int + 2] == p.b);
            assert(s[4 * i as int + 3] == p.a);
        }
        h = (h ^ (p.r as u64)).wrapping_mul(FNV_PRIME);
        assert(h == fnv_from(h0, s, 4 * i as int + 1));
        h = (h ^ (p.g as u64)).wrapping_mul(FNV_PRIME);
        assert(h == fnv_from(h0, s, 4 * i as int + 2));
        h = (h ^ (p.b as u64)).wrapping_mul(FNV_PRIME);
        assert(h == fnv_from(h0, s, 4 * i as int + 3));
        h = (h ^ (p.a as u64)).wrapping_mul(FNV_PRIME);
        assert(h == fnv_from(h0, s, 4 * i as int + 4));
        i = i + 1;
    }
    h
}

/// Computes the content-identity hash of `c`.
pub fn compute_content_hash(c: &ImageContent) -> (r: u64)
    ensures
        r == content_hash(*c),
{
    match c {
        ImageContent::Frame(pb) => {
            let h0 = (FNV_OFFSET ^ 1u64).wrapping_mul(FNV_PRIME);
            fold_pixels(h0, &pb.pixels)
        },
        ImageContent::Encoded { bytes, speed_permille } => {
            let sp = *speed_permille;
            let mut h = (FNV_OFFSET ^ 2u64).wrapping_mul(FNV_PRIME);
            h = (h ^ ((sp & 0xff) as u8 as u64)).wrapping_mul(FNV_PRIME);
            h = (h ^ (((sp >> 8) & 0xff) as u8 as u64)).wrapping_mul(FNV_PRIME);
            h = (h ^ (((sp >> 16) & 0xff) as u8 as u64)).wrapping_mul(FNV_PRIME);
            h = (h ^ (((sp >> 24) & 0xff) as u8 as u64)).wrapping_mul(FNV_PRIME);
            fold_bytes(h, bytes)
        },
    }
}

/// A shared, reference-counted pixel-buffer handle. Two handles are the
/// same (identity-equal) exactly when their `id`s are equal; `hash` is the
/// content identity of what they carry.
pub struct ImageHandle {
    pub id: u64,
    pub hash: u64,
    pub content: Arc<ImageContent>,
}

/// Relies on `Arc::clone`: the clone is a second handle to the very same
/// allocation, so its (abstract) value equals the original.
#[verifier::external_body]
fn arc_clone(a: &Arc<ImageContent>) -> (r: Arc<ImageContent>)
    ensures
        r == *a,
{
    Arc::clone(a)
}

impl ImageHandle {
    pub open spec fn same_handle(self, other: ImageHandle) -> bool {
        self.id == other.id
    }

    pub open spec fn wf(self) -> bool {
        self.hash == content_hash(*self.content)
    }

    /// A second handle to the same shared buffer.
    pub fn duplicate(&self) -> (r: ImageHandle)
        ensures
            r == *self,
    {
        ImageHandle { id: self.id, hash: self.hash, content: arc_clone(&self.content) }
    }
}

/// Hands out the identifiers that make handle identity decidable.
pub struct HandleIds {
    pub next: u64,
}

impl HandleIds {
    pub fn new() -> (r: HandleIds)
        ensures
            r.next == 0,
    {
        HandleIds { next: 0 }
    }

    pub fn fresh(&mut self) -> (r: u64)
        requires
            old(self).next < u64::MAX,
        ensures
            r == old(self).next,
            final(self).next == old(self).next + 1,
    {
        let r = self.next;
        self.next = self.next + 1;
        r
    }
}

/// Builds a well-formed handle around `content` with a fresh identity.
pub fn make_handle(ids: &mut HandleIds, content: ImageContent) -> (r: ImageHandle)
    requires
        old(ids).next < u64::MAX,
    ensures
        r.id == old(ids).next,
        final(ids).next == old(ids).next + 1,
        *r.content == content,
        r.hash == content_hash(content),
        r.wf(),
{
    let hash = compute_content_hash(&content);
    let id = ids.fresh();
    ImageHandle { id, hash, content: Arc::new(content) }
}

} // verus!
