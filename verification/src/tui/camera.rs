//! What the camera's side keeps: the queue of decoded frames, the pace at
//! which they land, and the size of the preview.
use crate::error::{Error, ErrorView, Result};
use crate::frame;
use crate::frame::{Payload, PayloadView};
use crate::qr::GrayImage;
use crate::text;
use std::collections::VecDeque;
use vstd::prelude::*;

verus! {

/// Width of the downscaled copy kept for the on-screen preview. Cloning full
/// 1080p luma frames into the UI thread every tick would cost megabytes a
/// second for a picture that is at most a couple of hundred cells wide.
pub const PREVIEW_WIDTH: u32 = 320;

/// Unique payloads the protocol can lag by before the oldest is dropped. Two
/// ACK windows fit, so a slow paint cannot wipe a burst that already decoded.
pub const DECODE_QUEUE: usize = 64;

/// Unique payloads in decode order. Consecutive identical reads are collapsed
/// so the protocol never consumes a seconds-old duplicate of the code still on
/// screen, but a new one that arrived while it was painting an ACK is still
/// waiting.
#[derive(Debug)]
pub struct DecodeSlot {
    pub pending: VecDeque<Payload>,
    /// The latest payload that was queued.
    pub last: Option<Payload>,
}

/// A [`DecodeSlot`] as mathematical data.
#[verifier::ext_equal]
pub struct SlotView {
    pub pending: Seq<PayloadView>,
    pub last: Option<PayloadView>,
}

/// What payloads say.
pub open spec fn payload_views(payloads: Seq<Payload>) -> Seq<PayloadView> {
    payloads.map_values(|p: Payload| p@)
}

impl View for DecodeSlot {
    type V = SlotView;

    open spec fn view(&self) -> SlotView {
        SlotView {
            pending: payload_views(self.pending@),
            last: frame::payload_option(self.last),
        }
    }
}

impl Default for DecodeSlot {
    fn default() -> (slot: Self)
        ensures
            slot@ == (SlotView { pending: Seq::empty(), last: None }),
    {
        let slot = DecodeSlot { pending: VecDeque::new(), last: None };
        assert(slot@.pending =~= Seq::empty());
        slot
    }
}

/// The queue after a read of `payload`: the same one again changes nothing; a
/// new one goes to the end, and the oldest goes when there is no room.
pub open spec fn queued(slot: SlotView, payload: PayloadView) -> SlotView {
    if slot.last == Some(payload) {
        slot
    } else {
        let kept = if slot.pending.len() >= DECODE_QUEUE {
            slot.pending.skip(1)
        } else {
            slot.pending
        };
        SlotView { pending: kept.push(payload), last: Some(payload) }
    }
}

/// What holds of every queue: it is no longer than its limit, no two
/// neighbours are the same, and its end is what was queued last.
pub open spec fn slot_ok(slot: SlotView) -> bool {
    &&& slot.pending.len() <= DECODE_QUEUE
    &&& forall|i: int, j: int|
        0 <= i && j == i + 1 && j < slot.pending.len() ==> #[trigger] slot.pending[i]
            != #[trigger] slot.pending[j]
    &&& slot.pending.len() > 0 ==> slot.last == Some(slot.pending.last())
}

/// Reading and taking keep the queue in order: bounded, without repeated
/// neighbours, and with the newest payload at its end.
pub proof fn law_queue_stays_in_order(slot: SlotView, payload: PayloadView)
    requires
        slot_ok(slot),
    ensures
        slot_ok(queued(slot, payload)),
        queued(slot, payload).last == Some(payload),
        queued(queued(slot, payload), payload) == queued(slot, payload),
        slot.pending.len() > 0 ==> slot_ok(SlotView { pending: slot.pending.skip(1), ..slot }),
{
}

/// Consecutive identical camera reads collapse to one entry: the webcam
/// re-reads whatever is on the peer's screen many times per displayed code.
pub fn push_unique(slot: &mut DecodeSlot, payload: Payload)
    ensures
        final(slot)@ == queued(old(slot)@, payload@),
{
    let again: bool = match &slot.last {
        Some(last) => *last == payload,
        None => false,
    };
    if again {
        return;
    }
    let ghost before: Seq<Payload> = slot.pending@;
    if slot.pending.len() >= DECODE_QUEUE {
        let _ = slot.pending.pop_front();
        assert(payload_views(slot.pending@) =~= payload_views(before).skip(1));
    }
    let ghost kept: Seq<Payload> = slot.pending@;
    slot.pending.push_back(payload.clone());
    assert(payload_views(slot.pending@) =~= payload_views(kept).push(payload@));
    slot.last = Some(payload);
}

/// Takes the next unique payload, if any: a change in what the peer is
/// showing, not another look at the same code.
pub fn take_next(slot: &mut DecodeSlot) -> (payload: Option<Payload>)
    ensures
        final(slot)@.last == old(slot)@.last,
        match payload {
            Some(p) => {
                &&& old(slot)@.pending.len() > 0
                &&& p@ == old(slot)@.pending[0]
                &&& final(slot)@.pending == old(slot)@.pending.skip(1)
            },
            None => old(slot)@.pending.len() == 0 && final(slot)@.pending == old(slot)@.pending,
        },
{
    let ghost before: Seq<Payload> = slot.pending@;
    let next: Option<Payload> = slot.pending.pop_front();
    assert(next is Some ==> payload_views(slot.pending@) =~= payload_views(before).skip(1));
    next
}

/// Queues what a camera frame decoded to, if it is a frame of this protocol.
pub fn take_decoded(slot: &mut DecodeSlot, bytes: &[u8]) -> (accepted: bool)
    ensures
        match frame::parse_frame(bytes@) {
            Some(payload) => accepted && final(slot)@ == queued(old(slot)@, payload),
            None => !accepted && *final(slot) == *old(slot),
        },
{
    match frame::decode(bytes) {
        Ok(payload) => {
            push_unique(slot, payload);
            true
        },
        Err(_) => false,
    }
}

/// The smoothed gap between decodes after one more gap: the gap itself at
/// first, then weighted toward history so one slow frame does not swing it.
/// Never zero, which stands for "not known".
pub open spec fn smoothed_gap(current_ms: u64, gap_ms: u64) -> nat {
    let smoothed = if current_ms == 0 {
        gap_ms as int
    } else {
        (current_ms * 3 + gap_ms) / 4
    };
    if smoothed == 0 {
        1
    } else {
        smoothed as nat
    }
}

pub fn smooth_gap(current_ms: u64, gap_ms: u64) -> (ms: u64)
    ensures
        ms == smoothed_gap(current_ms, gap_ms),
{
    let smoothed: u64 = if current_ms == 0 {
        gap_ms
    } else {
        ((current_ms as u128 * 3 + gap_ms as u128) / 4) as u64
    };
    if smoothed == 0 {
        1
    } else {
        smoothed
    }
}

/// The smoothed gap lies between what it was and the new gap, so that a steady
/// pace is reported as it is.
pub proof fn law_gap_follows_the_pace(current_ms: u64, gap_ms: u64)
    requires
        current_ms > 0,
        gap_ms > 0,
    ensures
        current_ms <= gap_ms ==> current_ms <= smoothed_gap(current_ms, gap_ms) <= gap_ms,
        gap_ms <= current_ms ==> gap_ms <= smoothed_gap(current_ms, gap_ms) <= current_ms,
{
}

/// The gap between decodes, if it is known.
pub fn known_gap(gap_ms: u64) -> (known: Option<u64>)
    ensures
        known == (if gap_ms == 0 {
            None
        } else {
            Some(gap_ms)
        }),
{
    if gap_ms == 0 {
        None
    } else {
        Some(gap_ms)
    }
}

/// The size of the preview of a `width` by `height` frame: no wider than
/// [`PREVIEW_WIDTH`], in the frame's proportions, and at least one pixel high.
pub open spec fn preview_of(width: u32, height: u32) -> (u32, u32) {
    if width <= PREVIEW_WIDTH {
        (width, height)
    } else {
        let scaled = height * PREVIEW_WIDTH / width as int;
        (
            PREVIEW_WIDTH,
            if scaled < 1 {
                1
            } else {
                scaled as u32
            },
        )
    }
}

/// What to downscale a frame to for the preview.
pub fn preview_size(width: u32, height: u32) -> (size: (u32, u32))
    ensures
        size == preview_of(width, height),
{
    if width <= PREVIEW_WIDTH {
        return (width, height);
    }
    assert(height * 320 <= 0xffff_ffff * 320) by (nonlinear_arith)
        requires
            height <= 0xffff_ffff,
    ;
    let product: u64 = height as u64 * PREVIEW_WIDTH as u64;
    let scaled: u64 = product / width as u64;
    assert(scaled <= height) by (nonlinear_arith)
        requires
            scaled == product / width as u64,
            product == height * 320,
            width > 320,
    ;
    (
        PREVIEW_WIDTH,
        if scaled < 1 {
            1
        } else {
            scaled as u32
        },
    )
}

/// The pixels that the image crate's `resize` makes of a picture when it takes
/// the nearest pixel.
pub uninterp spec fn resized(
    pixels: Seq<u8>,
    width: u32,
    height: u32,
    new_width: u32,
    new_height: u32,
) -> Seq<u8>;

/// Calls `imageops::resize` of the image crate with `FilterType::Nearest`.
/// Taken on trust: the pixels depend on the picture and the two sizes alone,
/// and there is one for every place in the new size. The crate works on an
/// intermediate picture of four `f32` per pixel, as wide as the old one and as
/// high as the new one, which has to fit into memory.
#[verifier::external_body]
fn resize_nearest(pixels: Vec<u8>, width: u32, height: u32, new_width: u32, new_height: u32) -> (
    small: Vec<u8>)
    requires
        pixels@.len() == width * height,
        16 * width * new_height <= isize::MAX,
        new_width * new_height <= isize::MAX,
    ensures
        small@ == resized(pixels@, width, height, new_width, new_height),
        small@.len() == new_width * new_height,
{
    let picture = image::GrayImage::from_raw(width, height, pixels).unwrap();
    let nearest = image::imageops::FilterType::Nearest;
    image::imageops::resize(&picture, new_width, new_height, nearest).into_raw()
}

/// Whether the preview of a `width` by `height` frame can be worked out in
/// this machine's memory.
pub open spec fn previewable(width: u32, height: u32) -> bool {
    width > PREVIEW_WIDTH ==> {
        &&& 16 * width * preview_of(width, height).1 <= isize::MAX
        &&& PREVIEW_WIDTH * preview_of(width, height).1 <= isize::MAX
    }
}

/// The picture for the on-screen preview: the frame itself if it is narrow
/// enough, else a copy in the same proportions.
pub fn downscale(frame: &GrayImage) -> (small: GrayImage)
    requires
        frame.wf(),
        previewable(frame.spec_width(), frame.spec_height()),
    ensures
        small.wf(),
        (small.spec_width(), small.spec_height()) == preview_of(
            frame.spec_width(),
            frame.spec_height(),
        ),
        small.raster() == (if frame.spec_width() <= PREVIEW_WIDTH {
            frame.raster()
        } else {
            resized(
                frame.raster(),
                frame.spec_width(),
                frame.spec_height(),
                small.spec_width(),
                small.spec_height(),
            )
        }),
{
    let pixels: Vec<u8> = frame::copy_bytes(frame.as_raw().as_slice());
    let (width, height) = preview_size(frame.width(), frame.height());
    if frame.width() <= PREVIEW_WIDTH {
        return GrayImage::of_pixels(width, height, pixels);
    }
    let small: Vec<u8> = resize_nearest(pixels, frame.width(), frame.height(), width, height);
    GrayImage::of_pixels(width, height, small)
}

pub open spec fn no_frames_text(index: u32) -> Seq<char> {
    "camera "@ + text::decimal(index as nat) + " produced no frames within 12s"@
}

/// What opening a camera comes to once it failed, delivered a frame, or was
/// waited for in vain; nothing as long as there is reason to wait.
pub fn opening_verdict(index: u32, failure: Option<String>, frames: u64, waited: bool) -> (verdict:
    Option<Result<()>>)
    ensures
        match verdict {
            Some(Err(e)) => match failure {
                Some(text) => e@ == ErrorView::Camera(text@),
                None => frames == 0 && waited && e@ == ErrorView::Camera(no_frames_text(index)),
            },
            Some(Ok(_)) => failure is None && frames > 0,
            None => failure is None && frames == 0 && !waited,
        },
{
    match failure {
        Some(text) => Some(Err(Error::Camera(text))),
        None => if frames > 0 {
            Some(Ok(()))
        } else if waited {
            let mut line = String::from_str("camera ");
            text::push_decimal(&mut line, index as u64);
            line.append(" produced no frames within 12s");
            Some(Err(Error::Camera(line)))
        } else {
            None
        },
    }
}

/// A payload that was read before another one is queued before it. Only another
/// look at the latest one adds nothing, and only the oldest of 64 makes room.
pub proof fn law_what_a_read_adds(slot: SlotView, payload: PayloadView)
    ensures
        slot.last == Some(payload) ==> queued(slot, payload) == slot,
        slot.last != Some(payload) ==> {
            &&& queued(slot, payload).last == Some(payload)
            &&& slot.pending.len() < 64 ==> queued(slot, payload).pending == slot.pending.push(
                payload,
            )
            &&& slot.pending.len() >= 64 ==> queued(slot, payload).pending == slot.pending.skip(
                1,
            ).push(payload)
        },
{
}

/// The first gap is taken as it is; a later one counts for a quarter, rounded
/// down; and a known gap is never zero.
pub proof fn law_how_gaps_are_smoothed(current_ms: u64, gap_ms: u64)
    ensures
        current_ms == 0 && gap_ms > 0 ==> smoothed_gap(current_ms, gap_ms) == gap_ms,
        current_ms == 0 && gap_ms == 0 ==> smoothed_gap(current_ms, gap_ms) == 1,
        current_ms > 0 && 3 * current_ms + gap_ms >= 4 ==> 4 * smoothed_gap(current_ms, gap_ms)
            <= 3 * current_ms + gap_ms < 4 * smoothed_gap(current_ms, gap_ms) + 4,
        current_ms > 0 && 3 * current_ms + gap_ms < 4 ==> smoothed_gap(current_ms, gap_ms) == 1,
{
}

/// A preview is the frame itself up to a width of 320, and otherwise as wide as
/// that and in the frame's proportions, rounded down, but never without a row.
pub proof fn law_previews_keep_the_proportions(width: u32, height: u32)
    ensures
        width <= 320 ==> preview_of(width, height) == (width, height),
        width > 320 ==> {
            let (cols, rows) = preview_of(width, height);
            &&& cols == 320
            &&& rows >= 1
            &&& rows * width <= height * 320 || rows == 1
            &&& (rows + 1) * width > height * 320
        },
{
    if width > 320 {
        let product = height * 320;
        let scaled = product / width as int;
        vstd::arithmetic::div_mod::lemma_fundamental_div_mod(product, width as int);
        assert(scaled <= height) by (nonlinear_arith)
            requires
                scaled == product / width as int,
                product == height * 320,
                width > 320,
        ;
        assert(width * scaled == scaled * width) by (nonlinear_arith);
        assert((scaled + 1) * width == scaled * width + width) by (nonlinear_arith);
        assert(2 * width == width + width);
    }
}

/// The complaint about a camera that stays dark names it.
pub proof fn law_what_is_said_of_a_dark_camera(index: u32)
    ensures
        no_frames_text(index) == "camera "@ + text::decimal(index as nat)
            + " produced no frames within 12s"@,
{
}

/// A preview can be made of every frame that is narrow enough to be its own, and
/// of every other whose intermediate picture and preview fit into memory.
pub proof fn law_what_can_be_previewed(width: u32, height: u32)
    ensures
        width <= 320 ==> previewable(width, height),
        width > 320 ==> (previewable(width, height) <==> 16 * width * preview_of(width, height).1
            <= isize::MAX && 320 * preview_of(width, height).1 <= isize::MAX),
{
}

} // verus!
