//! Pipelined read-back of output frames from GPU memory.
//!
//! Each tick polls the copy in flight without blocking and submits at most
//! one new copy, only once no copy is in flight any more, so the queue the
//! engine renders on never stalls. The staging buffer is sized for the copy
//! it receives and replaced only when a copy of another size is submitted,
//! which happens only while nothing is being read back from it.
//!
//! This module decides; the caller does the GPU work each decision names:
//! it checks the in-flight copy's mapping, reads the mapped buffer, and
//! records and submits the copy.
use vstd::prelude::*;
use crate::effects::TextureFormat;
use crate::frames::{CpuFrame, finish_pixels, packed_rows, padded_bytes_per_row, pixel_finished, strip_row_padding};

verus! {

/// A copy that was submitted and is being mapped: what turns its buffer
/// into a frame.
#[derive(Clone, Copy, Debug, PartialEq, Eq, Structural)]
pub struct InFlightCopy {
    pub width: u32,
    pub height: u32,
    pub padded_bytes_per_row: u32,
    pub swap_bgra: bool,
    pub src_width: u32,
    pub src_height: u32,
}

/// What a non-blocking check of the in-flight copy's mapping found.
#[derive(Clone, Copy, Debug, PartialEq, Eq, Structural)]
pub enum MapPoll {
    /// The buffer is mapped and can be read.
    Mapped,
    /// Mapping the buffer failed.
    Failed,
    /// The buffer is still being mapped.
    StillMapping,
    /// The mapping callback went away without an answer.
    CallbackDropped,
}

/// Why a tick fails.
#[derive(Clone, Copy, Debug, PartialEq, Eq, Structural)]
pub enum ReadbackError {
    /// The frame to copy has no pixels.
    ZeroSized,
    /// Mapping the in-flight copy's buffer failed.
    MapFailed,
    /// The in-flight copy's mapping callback went away.
    CallbackDropped,
}

/// What to copy on a tick: the size of the texture, the engine's output
/// size before the preview downscale, and the texture's format.
#[derive(Clone, Copy, Debug)]
pub struct ReadRequest {
    pub width: u32,
    pub height: u32,
    pub src_width: u32,
    pub src_height: u32,
    pub format: TextureFormat,
}

/// A copy to record and submit now.
#[derive(Clone, Copy, Debug, PartialEq, Eq, Structural)]
pub struct CopyPlan {
    pub width: u32,
    pub height: u32,
    pub padded_bytes_per_row: u32,
    /// The size of the staging buffer the copy goes into.
    pub buffer_size: u64,
    /// Whether a new staging buffer of that size is made first (the one
    /// kept has another size, or there is none yet).
    pub new_staging_buffer: bool,
}

/// What a tick does: its result (`Ok(Some(c))`: the in-flight copy `c` is
/// mapped, read its buffer into a frame) and the copy it submits, if any.
#[derive(Debug)]
pub struct TickPlan {
    pub result: Result<Option<InFlightCopy>, ReadbackError>,
    pub submit: Option<CopyPlan>,
}

/// The copy in flight and the size of the staging buffer kept.
#[derive(Debug)]
pub struct ReadbackTracker {
    in_flight: Option<InFlightCopy>,
    staging_size: Option<u64>,
}

/// The tracker's state: the copy in flight and the staging buffer's size.
pub type TrackerView = (Option<InFlightCopy>, Option<u64>);

impl View for ReadbackTracker {
    type V = TrackerView;

    closed spec fn view(&self) -> TrackerView {
        (self.in_flight, self.staging_size)
    }
}

/// Texture formats whose pixels are stored blue first.
pub open spec fn is_bgra(format: TextureFormat) -> bool {
    format == TextureFormat::Bgra8Unorm || format == TextureFormat::Bgra8UnormSrgb
}

/// The bytes per row of a copy of a `width`-pixel texture.
pub open spec fn spec_padded_row(width: u32) -> int {
    (width * 4 + 255) / 256 * 256
}

/// A request whose row size the copy layout can hold.
pub open spec fn request_fits(req: ReadRequest) -> bool {
    req.width * 4 + 255 <= u32::MAX
}

/// The copy that `req` submits, given the staging buffer kept.
pub open spec fn copy_plan(req: ReadRequest, staging: Option<u64>) -> CopyPlan {
    let size = (spec_padded_row(req.width) * req.height) as u64;
    CopyPlan {
        width: req.width,
        height: req.height,
        padded_bytes_per_row: spec_padded_row(req.width) as u32,
        buffer_size: size,
        new_staging_buffer: staging != Some(size),
    }
}

/// The copy in flight once `req` is submitted.
pub open spec fn submitted_copy(req: ReadRequest) -> InFlightCopy {
    InFlightCopy {
        width: req.width,
        height: req.height,
        padded_bytes_per_row: spec_padded_row(req.width) as u32,
        swap_bgra: is_bgra(req.format),
        src_width: req.src_width,
        src_height: req.src_height,
    }
}

/// The state after a tick and what the tick does. A request without pixels
/// fails before anything is polled. A failed or abandoned mapping drops the
/// copy in flight and fails the tick. A copy still being mapped stays in
/// flight and nothing is submitted. Otherwise (nothing in flight, or its
/// buffer mapped) the mapped copy, if any, is handed out and `req` is
/// submitted.
pub open spec fn tick_outcome(s: TrackerView, req: ReadRequest, poll: MapPoll) -> (TrackerView, Result<Option<InFlightCopy>, ReadbackError>, Option<CopyPlan>) {
    let (in_flight, staging) = s;
    if req.width == 0 || req.height == 0 {
        (s, Err(ReadbackError::ZeroSized), None)
    } else if in_flight is Some && poll == MapPoll::Failed {
        ((None, staging), Err(ReadbackError::MapFailed), None)
    } else if in_flight is Some && poll == MapPoll::CallbackDropped {
        ((None, staging), Err(ReadbackError::CallbackDropped), None)
    } else if in_flight is Some && poll == MapPoll::StillMapping {
        (s, Ok(None), None)
    } else {
        let plan = copy_plan(req, staging);
        ((Some(submitted_copy(req)), Some(plan.buffer_size)), Ok(in_flight), Some(plan))
    }
}

impl ReadbackTracker {
    /// Nothing in flight and no staging buffer.
    pub fn new() -> (r: Self)
        ensures
            r@ == (None::<InFlightCopy>, None::<u64>),
    {
        ReadbackTracker { in_flight: None, staging_size: None }
    }

    /// The copy in flight, whose mapping the caller checks before a tick.
    pub fn in_flight(&self) -> (r: Option<InFlightCopy>)
        ensures
            r == self@.0,
    {
        self.in_flight
    }

    /// Decides a tick for `req`. `poll` is what the check of the in-flight
    /// copy's mapping found; it is not read when nothing is in flight or the
    /// request has no pixels (the caller makes no check then).
    pub fn tick(&mut self, req: &ReadRequest, poll: MapPoll) -> (r: TickPlan)
        requires
            req.width == 0 || req.height == 0 || request_fits(*req),
        ensures
            (final(self)@, r.result, r.submit) == tick_outcome(old(self)@, *req, poll),
    {
        if req.width == 0 || req.height == 0 {
            return TickPlan { result: Err(ReadbackError::ZeroSized), submit: None };
        }
        let ready = match self.in_flight {
            None => None,
            Some(c) => match poll {
                MapPoll::Failed => {
                    self.in_flight = None;
                    return TickPlan { result: Err(ReadbackError::MapFailed), submit: None };
                },
                MapPoll::CallbackDropped => {
                    self.in_flight = None;
                    return TickPlan { result: Err(ReadbackError::CallbackDropped), submit: None };
                },
                MapPoll::StillMapping => {
                    return TickPlan { result: Ok(None), submit: None };
                },
                MapPoll::Mapped => Some(c),
            },
        };
        let padded = padded_bytes_per_row(req.width);
        assert(padded as u64 * req.height as u64 <= u32::MAX * u32::MAX) by (nonlinear_arith)
            requires
                padded <= u32::MAX,
                req.height <= u32::MAX,
        ;
        let size = padded as u64 * req.height as u64;
        assert(size == spec_padded_row(req.width) * req.height) by (nonlinear_arith)
            requires
                padded == spec_padded_row(req.width),
                padded <= u32::MAX,
                req.height <= u32::MAX,
                size == padded * req.height,
        ;
        let new_staging_buffer = match self.staging_size {
            Some(kept) => kept != size,
            None => true,
        };
        let swap_bgra = match req.format {
            TextureFormat::Bgra8Unorm => true,
            TextureFormat::Bgra8UnormSrgb => true,
            _ => false,
        };
        self.staging_size = Some(size);
        self.in_flight = Some(
            InFlightCopy {
                width: req.width,
                height: req.height,
                padded_bytes_per_row: padded,
                swap_bgra,
                src_width: req.src_width,
                src_height: req.src_height,
            },
        );
        TickPlan {
            result: Ok(ready),
            submit: Some(
                CopyPlan { width: req.width, height: req.height, padded_bytes_per_row: padded, buffer_size: size, new_staging_buffer },
            ),
        }
    }
}

/// A tick submits a copy only when no copy is in flight once the mapping
/// was checked (none was, or its buffer is mapped), and it makes a new
/// staging buffer only then; a copy still being mapped is never disturbed.
pub proof fn lemma_one_copy_in_flight(s: TrackerView, req: ReadRequest, poll: MapPoll)
    ensures
        ({
            let (t, result, submit) = tick_outcome(s, req, poll);
            &&& submit is Some ==> (s.0 is None || poll == MapPoll::Mapped) && t.0 == Some(submitted_copy(req))
            &&& (s.0 is Some && poll == MapPoll::StillMapping) ==> t == s && submit is None
            &&& submit is None ==> t.1 == s.1
            &&& (result matches Ok(Some(_))) ==> s.0 is Some && poll == MapPoll::Mapped && result == Ok::<Option<InFlightCopy>, ReadbackError>(s.0)
        }),
{
}

/// The copy a tick submits turns its pixels from blue-first to red-first
/// exactly when the texture stores blue first (`Bgra8Unorm` or
/// `Bgra8UnormSrgb`), and carries the request's sizes.
pub proof fn lemma_submitted_copy_fixes_channel_order(s: TrackerView, req: ReadRequest, poll: MapPoll)
    requires
        req.width > 0 && req.height > 0,
        s.0 is None || poll == MapPoll::Mapped,
    ensures
        ({
            let (t, result, submit) = tick_outcome(s, req, poll);
            &&& submit is Some
            &&& t.0 matches Some(c) && (c.swap_bgra <==> (req.format == TextureFormat::Bgra8Unorm || req.format
                == TextureFormat::Bgra8UnormSrgb)) && c.width == req.width && c.height == req.height
                && c.src_width == req.src_width && c.src_height == req.src_height
        }),
{
}

/// The frame a mapped copy's buffer holds: its rows without the padding,
/// blue first pixels turned red first, every pixel opaque.
pub fn finish_frame(copy: InFlightCopy, mapped: &[u8]) -> (r: CpuFrame)
    requires
        copy.width * 4 <= u32::MAX,
        copy.height == 0 || (copy.height - 1) * copy.padded_bytes_per_row + copy.width * 4 <= mapped@.len(),
    ensures
        r.width == copy.width,
        r.height == copy.height,
        r.src_width == copy.src_width,
        r.src_height == copy.src_height,
        ({
            let rows = packed_rows(mapped@, copy.width * 4, copy.padded_bytes_per_row as int, copy.height as nat);
            &&& r.bytes@.len() == rows.len()
            &&& forall|p: int| 0 <= p < rows.len() / 4 ==> #[trigger] pixel_finished(rows, r.bytes@, p, copy.swap_bgra)
            &&& forall|i: int| rows.len() / 4 * 4 <= i < rows.len() ==> r.bytes@[i] == rows[i]
        }),
{
    let mut bytes = strip_row_padding(mapped, copy.width, copy.height, copy.padded_bytes_per_row);
    finish_pixels(&mut bytes, copy.swap_bgra);
    CpuFrame { bytes, width: copy.width, height: copy.height, src_width: copy.src_width, src_height: copy.src_height }
}

impl ReadbackError {
    /// The error's message; a failed mapping's message ends with the
    /// mapping error, which the caller appends.
    pub fn message(&self) -> (r: &'static str)
        ensures
            r@ == match *self {
                ReadbackError::ZeroSized => "zero-sized frame"@,
                ReadbackError::MapFailed => "buffer map failed: "@,
                ReadbackError::CallbackDropped => "map callback dropped"@,
            },
    {
        match self {
            ReadbackError::ZeroSized => "zero-sized frame",
            ReadbackError::MapFailed => "buffer map failed: ",
            ReadbackError::CallbackDropped => "map callback dropped",
        }
    }
}

} // verus!
