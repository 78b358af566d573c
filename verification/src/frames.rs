//! Frames on their way from the GPU to the frontend: the row layout of a
//! texture-to-buffer copy, the pixel fix-ups after read-back, the binary
//! payload the frontend polls, and the state shared between the frame loop
//! and the command handlers.
use vstd::prelude::*;

verus! {

/// The row alignment WebGPU requires of texture-to-buffer copies.
pub const COPY_BYTES_PER_ROW_ALIGNMENT: u32 = 256;

/// The first `height` rows, each the first `unpadded` bytes of a
/// `padded_row`-byte row of `padded`, one after another.
pub open spec fn packed_rows(padded: Seq<u8>, unpadded: int, padded_row: int, height: nat) -> Seq<u8>
    decreases height,
{
    if height == 0 {
        Seq::empty()
    } else {
        let row = height - 1;
        packed_rows(padded, unpadded, padded_row, (height - 1) as nat) + padded.subrange(
            row * padded_row,
            row * padded_row + unpadded,
        )
    }
}

/// Copies the rows of a padded copy buffer into tightly packed RGBA bytes,
/// dropping the alignment padding at the end of each row.
pub fn strip_row_padding(padded: &[u8], width: u32, height: u32, padded_bytes_per_row: u32) -> (r: Vec<u8>)
    requires
        width * 4 <= u32::MAX,
        height == 0 || (height - 1) * padded_bytes_per_row + width * 4 <= padded@.len(),
    ensures
        r@ == packed_rows(padded@, width * 4, padded_bytes_per_row as int, height as nat),
{
    let unpadded = (width * 4) as usize;
    let padded_row = padded_bytes_per_row as usize;
    let plen = padded.len();
    let mut out: Vec<u8> = Vec::new();
    let mut row: usize = 0;
    while row < height as usize
        invariant
            unpadded == width * 4,
            padded_row == padded_bytes_per_row,
            plen == padded@.len(),
            height == 0 || (height - 1) * padded_bytes_per_row + width * 4 <= padded@.len(),
            row <= height,
            out@ == packed_rows(padded@, unpadded as int, padded_row as int, row as nat),
        decreases height - row,
    {
        assert(row * padded_row + unpadded <= padded@.len()) by (nonlinear_arith)
            requires
                row < height,
                (height - 1) * padded_row + unpadded <= padded@.len(),
        {
            assert(row * padded_row <= (height - 1) * padded_row);
        }
        let start = row * padded_row;
        let ghost before = out@;
        let mut k: usize = 0;
        while k < unpadded
            invariant
                start + unpadded <= padded@.len(),
                plen == padded@.len(),
                k <= unpadded,
                out@ == before + padded@.subrange(start as int, start + k),
            decreases unpadded - k,
        {
            out.push(padded[start + k]);
            assert(padded@.subrange(start as int, start + k + 1) =~= padded@.subrange(start as int, start + k).push(
                padded@[start + k],
            ));
            k = k + 1;
        }
        assert(packed_rows(padded@, unpadded as int, padded_row as int, (row + 1) as nat) == before
            + padded@.subrange(row * padded_row, row * padded_row + unpadded));
        row = row + 1;
    }
    out
}

/// With no padding, the packed rows are the buffer's first bytes.
pub proof fn lemma_tightly_packed_is_prefix(padded: Seq<u8>, row_bytes: nat, height: nat)
    requires
        height * row_bytes <= padded.len(),
    ensures
        packed_rows(padded, row_bytes as int, row_bytes as int, height) == padded.take((height * row_bytes) as int),
    decreases height,
{
    if height > 0 {
        let h1 = (height - 1) as nat;
        let a: int = (h1 * row_bytes) as int;
        assert(a + row_bytes == height * row_bytes) by (nonlinear_arith)
            requires
                h1 == height - 1,
                a == h1 * row_bytes,
        ;
        lemma_tightly_packed_is_prefix(padded, row_bytes, h1);
        assert(packed_rows(padded, row_bytes as int, row_bytes as int, height) == packed_rows(
            padded,
            row_bytes as int,
            row_bytes as int,
            h1,
        ) + padded.subrange(a, a + row_bytes));
        assert(padded.take(a) + padded.subrange(a, a + row_bytes) =~= padded.take((height * row_bytes) as int));
    } else {
        assert(height * row_bytes == 0) by (nonlinear_arith)
            requires
                height == 0,
        ;
        assert(padded.take((height * row_bytes) as int) =~= Seq::<u8>::empty());
    }
}

/// The bytes per row of a copy of a `width`-pixel RGBA texture: four per
/// pixel, rounded up to the copy alignment.
pub fn padded_bytes_per_row(width: u32) -> (r: u32)
    requires
        width * 4 + 255 <= u32::MAX,
    ensures
        r == (width * 4 + 255) / 256 * 256,
        r % 256 == 0,
        width * 4 <= r < width * 4 + 256,
{
    let unpadded = width * 4;
    let blocks = (unpadded + 255) / 256;
    assert(blocks * 256 <= unpadded + 255 && unpadded <= blocks * 256) by (nonlinear_arith)
        requires
            blocks == (unpadded + 255) / 256,
    ;
    blocks * 256
}

/// Whether a frame is scaled down before read-back: a preview size is set
/// and the frame exceeds it in some dimension.
pub fn needs_downscale(src_width: u32, src_height: u32, max_width: u32, max_height: u32) -> (r: bool)
    ensures
        r == (max_width > 0 && max_height > 0 && (max_width < src_width || max_height < src_height)),
{
    max_width > 0 && max_height > 0 && (max_width < src_width || max_height < src_height)
}

/// Pixel `p` of `new` is pixel `p` of `old` with red and blue swapped (when
/// `swap`) and alpha made opaque.
pub open spec fn pixel_finished(old: Seq<u8>, new: Seq<u8>, p: int, swap: bool) -> bool {
    &&& new[4 * p] == (if swap { old[4 * p + 2] } else { old[4 * p] })
    &&& new[4 * p + 1] == old[4 * p + 1]
    &&& new[4 * p + 2] == (if swap { old[4 * p] } else { old[4 * p + 2] })
    &&& new[4 * p + 3] == 255
}

/// Fixes up read-back pixels for the frontend: BGRA pixels become RGBA, and
/// every pixel becomes opaque. Trailing bytes that do not form a whole
/// pixel are left as they are.
pub fn finish_pixels(bytes: &mut Vec<u8>, swap_bgra: bool)
    ensures
        final(bytes)@.len() == old(bytes)@.len(),
        forall|p: int| 0 <= p < old(bytes)@.len() / 4 ==> #[trigger] pixel_finished(old(bytes)@, final(bytes)@, p, swap_bgra),
        forall|i: int| old(bytes)@.len() / 4 * 4 <= i < old(bytes)@.len() ==> final(bytes)@[i] == old(bytes)@[i],
{
    let ghost original = bytes@;
    let n = bytes.len();
    let mut p: usize = 0;
    let mut base: usize = 0;
    while n - base >= 4
        invariant
            original == old(bytes)@,
            n == original.len(),
            bytes@.len() == n,
            base == 4 * p,
            base <= n,
            forall|q: int| 0 <= q < p ==> #[trigger] pixel_finished(original, bytes@, q, swap_bgra),
            forall|i: int| base <= i < n ==> bytes@[i] == original[i],
        decreases n - base,
    {
        let ghost prev = bytes@;
        if swap_bgra {
            let r = bytes[base + 2];
            let b = bytes[base];
            bytes.set(base, r);
            bytes.set(base + 2, b);
        }
        bytes.set(base + 3, 255);
        proof {
            assert forall|q: int| 0 <= q < p + 1 implies #[trigger] pixel_finished(original, bytes@, q, swap_bgra) by {
                if q < p {
                    assert(pixel_finished(original, prev, q, swap_bgra));
                    assert(4 * q + 3 < base);
                    assert(bytes@[4 * q] == prev[4 * q]);
                    assert(bytes@[4 * q + 1] == prev[4 * q + 1]);
                    assert(bytes@[4 * q + 2] == prev[4 * q + 2]);
                    assert(bytes@[4 * q + 3] == prev[4 * q + 3]);
                } else {
                    assert(prev[base as int] == original[base as int]);
                    assert(prev[base + 1] == original[base + 1]);
                    assert(prev[base + 2] == original[base + 2]);
                }
            }
        }
        p = p + 1;
        base = base + 4;
    }
    assert(n / 4 == p) by (nonlinear_arith)
        requires
            base == 4 * p,
            base <= n,
            n < base + 4,
    ;
}

/// The little-endian bytes of the low `count` bytes of `x`.
pub open spec fn le_bytes(x: nat, count: nat) -> Seq<u8>
    decreases count,
{
    if count == 0 {
        Seq::empty()
    } else {
        seq![(x % 256) as u8] + le_bytes(x / 256, (count - 1) as nat)
    }
}

/// Appends the little-endian bytes of the low `count` bytes of `x`.
fn push_le(out: &mut Vec<u8>, x: u64, count: usize)
    ensures
        final(out)@ == old(out)@ + le_bytes(x as nat, count as nat),
{
    let ghost start = old(out)@;
    let mut cur = x;
    let mut left = count;
    while left > 0
        invariant
            start + le_bytes(x as nat, count as nat) == out@ + le_bytes(cur as nat, left as nat),
        decreases left,
    {
        let ghost prev = out@;
        let ghost rest = le_bytes((cur / 256) as nat, (left - 1) as nat);
        out.push((cur % 256) as u8);
        assert(prev + (seq![(cur % 256) as u8] + rest) =~= prev.push((cur % 256) as u8) + rest);
        cur = cur / 256;
        left = left - 1;
    }
    assert(out@ + le_bytes(cur as nat, 0) =~= out@);
}

/// A frame read back to the CPU, as tightly packed RGBA bytes.
#[derive(Debug)]
pub struct CpuFrame {
    pub bytes: Vec<u8>,
    pub width: u32,
    pub height: u32,
    /// The engine's output resolution when the copy was submitted, before
    /// the preview downscale.
    pub src_width: u32,
    pub src_height: u32,
}

/// The latest frame handed to the frontend.
#[derive(Debug)]
pub struct FrameData {
    pub bytes: Vec<u8>,
    pub width: u32,
    pub height: u32,
    /// The engine's output resolution before the preview downscale.
    pub src_width: u32,
    pub src_height: u32,
    /// The graph generation the frame belongs to.
    pub generation: u64,
}

/// The payload of a frame poll: little-endian `width`, `height`,
/// `src_width`, `src_height` (four bytes each) and `generation` (eight),
/// then the RGBA bytes; empty when there is no frame yet.
pub open spec fn frame_payload_spec(frame: Option<FrameData>) -> Seq<u8> {
    match frame {
        None => Seq::empty(),
        Some(f) => le_bytes(f.width as nat, 4) + le_bytes(f.height as nat, 4) + le_bytes(f.src_width as nat, 4)
            + le_bytes(f.src_height as nat, 4) + le_bytes(f.generation as nat, 8) + f.bytes@,
    }
}

/// See [frame_payload_spec].
pub fn frame_payload(frame: Option<&FrameData>) -> (r: Vec<u8>)
    ensures
        r@ == frame_payload_spec(
            match frame {
                Some(f) => Some(*f),
                None => None,
            },
        ),
{
    let mut payload: Vec<u8> = Vec::new();
    match frame {
        None => payload,
        Some(f) => {
            push_le(&mut payload, f.width as u64, 4);
            push_le(&mut payload, f.height as u64, 4);
            push_le(&mut payload, f.src_width as u64, 4);
            push_le(&mut payload, f.src_height as u64, 4);
            push_le(&mut payload, f.generation, 8);
            let ghost head = payload@;
            let mut i: usize = 0;
            while i < f.bytes.len()
                invariant
                    i <= f.bytes@.len(),
                    payload@ == head + f.bytes@.take(i as int),
                decreases f.bytes.len() - i,
            {
                payload.push(f.bytes[i]);
                assert(f.bytes@.take(i + 1) =~= f.bytes@.take(i as int).push(f.bytes@[i as int]));
                i = i + 1;
            }
            assert(f.bytes@.take(i as int) =~= f.bytes@);
            payload
        },
    }
}

/// What the frame loop and the frontend share: the latest frame, the graph
/// generation (bumped on every graph change so stale frames can be told
/// apart) and the preview size frames are scaled to (zero: full size).
#[derive(Debug)]
pub struct FrameState {
    pub latest_frame: Option<FrameData>,
    pub generation: u64,
    pub preview_width: u32,
    pub preview_height: u32,
}

impl FrameState {
    /// No frame, generation zero, no preview size.
    pub fn new() -> (r: Self)
        ensures
            r.latest_frame is None,
            r.generation == 0,
            r.preview_width == 0,
            r.preview_height == 0,
    {
        FrameState { latest_frame: None, generation: 0, preview_width: 0, preview_height: 0 }
    }
}

/// The output window's status: the output resolution and whether frames
/// are arriving.
#[derive(Clone, Copy, Debug, Default, PartialEq, Eq, Structural)]
pub struct OutputInfo {
    pub width: u32,
    pub height: u32,
    pub active: bool,
}

/// The project the editor was opened for, if any.
#[derive(Debug)]
pub struct ProjectState {
    pub id: Option<String>,
}

impl ProjectState {
    /// Holds `id`.
    pub fn new(id: Option<String>) -> (r: Self)
        ensures
            r.id == id,
    {
        ProjectState { id }
    }
}

/// The first of the preferred surface formats (RGBA, then BGRA) that the
/// surface supports, else the first format it supports.
pub fn pick_format(formats: &Vec<crate::effects::TextureFormat>) -> (r: crate::effects::TextureFormat)
    requires
        formats@.len() > 0,
    ensures
        if formats@.contains(crate::effects::TextureFormat::Rgba8Unorm) {
            r == crate::effects::TextureFormat::Rgba8Unorm
        } else if formats@.contains(crate::effects::TextureFormat::Bgra8Unorm) {
            r == crate::effects::TextureFormat::Bgra8Unorm
        } else {
            r == formats@[0]
        },
{
    let mut i: usize = 0;
    while i < formats.len()
        invariant
            i <= formats@.len(),
            forall|j: int| 0 <= j < i ==> formats@[j] != crate::effects::TextureFormat::Rgba8Unorm,
        decreases formats.len() - i,
    {
        if formats[i] == crate::effects::TextureFormat::Rgba8Unorm {
            assert(formats@.contains(formats@[i as int]));
            return crate::effects::TextureFormat::Rgba8Unorm;
        }
        i = i + 1;
    }
    let mut i: usize = 0;
    while i < formats.len()
        invariant
            i <= formats@.len(),
            !formats@.contains(crate::effects::TextureFormat::Rgba8Unorm),
            forall|j: int| 0 <= j < i ==> formats@[j] != crate::effects::TextureFormat::Bgra8Unorm,
        decreases formats.len() - i,
    {
        if formats[i] == crate::effects::TextureFormat::Bgra8Unorm {
            assert(formats@.contains(formats@[i as int]));
            return crate::effects::TextureFormat::Bgra8Unorm;
        }
        i = i + 1;
    }
    formats[0]
}

/// What presenting a frame to the output window's surface comes to.
#[derive(Clone, Copy, Debug, PartialEq, Eq, Structural)]
pub enum PresentDecision {
    /// No surface is attached: forget what was presented, do nothing.
    NoSurface,
    /// The window is minimized: do nothing.
    Minimized,
    /// This frame was already presented at this size and rect: do nothing.
    Unchanged,
    /// Present; configure the surface first when its size changed.
    Present { configure: bool },
}

/// Decides a present: `same_as_last` tells whether the frame, window size
/// and output rect equal what was presented last; `configured` is the size
/// the surface was configured for.
pub fn present_decision(
    surface_attached: bool,
    width: u32,
    height: u32,
    same_as_last: bool,
    configured: Option<(u32, u32)>,
) -> (r: PresentDecision)
    ensures
        r == (if !surface_attached {
            PresentDecision::NoSurface
        } else if width == 0 || height == 0 {
            PresentDecision::Minimized
        } else if same_as_last {
            PresentDecision::Unchanged
        } else {
            PresentDecision::Present { configure: configured != Some((width, height)) }
        }),
{
    if !surface_attached {
        PresentDecision::NoSurface
    } else if width == 0 || height == 0 {
        PresentDecision::Minimized
    } else if same_as_last {
        PresentDecision::Unchanged
    } else {
        let configure = match configured {
            Some((w, h)) => !(w == width && h == height),
            None => true,
        };
        PresentDecision::Present { configure }
    }
}

/// Why the surface gave no texture to draw into.
#[derive(Clone, Copy, Debug, PartialEq, Eq, Structural)]
pub enum SurfaceErrorKind {
    Outdated,
    Lost,
    Timeout,
    Other,
}

/// What a surface error leads to.
#[derive(Clone, Copy, Debug, PartialEq, Eq, Structural)]
pub enum SurfaceErrorOutcome {
    /// Skip this frame and configure the surface again next time.
    Reconfigure,
    /// Skip this frame.
    Skip,
    /// Report the error.
    Fail,
}

/// An outdated or lost surface is configured again, a timeout skips the
/// frame, anything else is an error.
pub fn surface_error_outcome(kind: SurfaceErrorKind) -> (r: SurfaceErrorOutcome)
    ensures
        r == match kind {
            SurfaceErrorKind::Outdated | SurfaceErrorKind::Lost => SurfaceErrorOutcome::Reconfigure,
            SurfaceErrorKind::Timeout => SurfaceErrorOutcome::Skip,
            SurfaceErrorKind::Other => SurfaceErrorOutcome::Fail,
        },
{
    match kind {
        SurfaceErrorKind::Outdated | SurfaceErrorKind::Lost => SurfaceErrorOutcome::Reconfigure,
        SurfaceErrorKind::Timeout => SurfaceErrorOutcome::Skip,
        SurfaceErrorKind::Other => SurfaceErrorOutcome::Fail,
    }
}

/// Whether the cached preview target (of size `cached`) must be made anew
/// for a `width` by `height` preview.
pub fn needs_new_preview_target(cached: Option<(u32, u32)>, width: u32, height: u32) -> (r: bool)
    ensures
        r == (cached != Some((width, height))),
{
    match cached {
        Some((w, h)) => !(w == width && h == height),
        None => true,
    }
}

/// One turn of the frame loop: the newest of the frames that arrived (the
/// others are dropped), else the frame shown before; and whether a new one
/// arrived.
pub fn newest_frame<F>(last: Option<F>, arrived: Vec<F>) -> (r: (Option<F>, bool))
    ensures
        arrived@.len() == 0 ==> r.0 == last && !r.1,
        arrived@.len() > 0 ==> r.0 == Some(arrived@.last()) && r.1,
{
    let mut arrived = arrived;
    match arrived.pop() {
        Some(f) => (Some(f), true),
        None => (last, false),
    }
}

} // verus!
