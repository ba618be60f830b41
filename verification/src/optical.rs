//! The optical channel: a screen that shows frames to the other side, and a
//! camera that reads the other side's screen.
use crate::error::{Error, ErrorView, Result};
use crate::frame;
use crate::frame::{Payload, PayloadView};
use std::collections::HashSet;
use std::sync::mpsc;
use std::time::Duration;
use vstd::prelude::*;

verus! {

/// How far a transfer has come.
#[derive(Clone, Copy, Debug, PartialEq, Eq, Structural)]
pub struct Progress {
    /// First sequence number of the current window.
    pub base: u32,
    /// One past the last sequence number of the current window.
    pub end: u32,
    pub chunk_count: u32,
    /// Chunks of the window that are still missing.
    pub holes: usize,
    /// Nanoseconds since the transfer started.
    pub elapsed: u64,
}

/// One request made of a channel.
#[verifier::ext_equal]
pub enum Call {
    Show(PayloadView),
    Poll(Duration),
    Hold(u16),
    SetVersion(u8),
    SetStatus(Progress),
    Log(Seq<char>),
    Gate(Seq<char>),
    SuggestDwell,
}

/// What a channel answers to a [`Call`].
#[verifier::ext_equal]
pub enum Answer {
    Done,
    Polled(Option<PayloadView>),
    Gated(bool),
    Dwell(u16),
}

/// A request and how it ended.
#[verifier::ext_equal]
pub struct Turn {
    pub call: Call,
    pub answer: std::result::Result<Answer, ErrorView>,
}

/// The turn in which `call` succeeded with `answer`.
pub open spec fn answered(call: Call, answer: Answer) -> Turn {
    Turn { call, answer: Ok(answer) }
}

/// The turn in which `call` failed with `err`.
pub open spec fn failed(call: Call, err: ErrorView) -> Turn {
    Turn { call, answer: Err(err) }
}

/// The turn of a call whose success carries no value.
pub open spec fn plain_turn(call: Call, outcome: Result<()>) -> Turn {
    match outcome {
        Ok(_) => answered(call, Answer::Done),
        Err(e) => failed(call, e@),
    }
}

pub open spec fn poll_turn(timeout: Duration, outcome: Result<Option<Payload>>) -> Turn {
    match outcome {
        Ok(polled) => answered(
            Call::Poll(timeout),
            Answer::Polled(frame::payload_option(polled)),
        ),
        Err(e) => failed(Call::Poll(timeout), e@),
    }
}

pub open spec fn gate_turn(prompt: Seq<char>, outcome: Result<bool>) -> Turn {
    match outcome {
        Ok(go) => answered(Call::Gate(prompt), Answer::Gated(go)),
        Err(e) => failed(Call::Gate(prompt), e@),
    }
}

/// The turns of showing `payloads` one after the other.
pub open spec fn show_turns(payloads: Seq<Payload>) -> Seq<Turn> {
    payloads.map_values(|p: Payload| answered(Call::Show(p@), Answer::Done))
}

/// A screen and a camera, used by one side of a transfer.
///
/// The protocols in this library are driven through this trait alone.
pub trait Optical {
    /// Every request made of this channel so far, in order. The methods below
    /// can only be proved of a channel that keeps a record of its own; one
    /// written outside the verifier has nothing to define.
    open spec fn trace(&self) -> Seq<Turn> {
        Seq::empty()
    }

    /// Puts one code on screen.
    fn show(&mut self, payload: &Payload) -> (outcome: Result<()>)
        ensures
            final(self).trace() == old(self).trace().push(
                plain_turn(Call::Show(payload@), outcome),
            ),
    ;

    /// Waits up to `timeout` for a frame from the other side.
    fn poll(&mut self, timeout: Duration) -> (outcome: Result<Option<Payload>>)
        ensures
            final(self).trace() == old(self).trace().push(poll_turn(timeout, outcome)),
    ;

    /// Keeps the code on screen for `dwell_ms` milliseconds. A channel that
    /// loses nothing by being quick may return at once.
    fn hold(&mut self, dwell_ms: u16)
        ensures
            final(self).trace() == old(self).trace().push(
                answered(Call::Hold(dwell_ms), Answer::Done),
            ),
    ;

    /// Updates the progress shown under the code.
    fn set_status(&mut self, status: &Progress)
        ensures
            final(self).trace() == old(self).trace().push(
                answered(Call::SetStatus(*status), Answer::Done),
            ),
    ;

    /// Sets the QR version used to encode non-probe payloads.
    fn set_version(&mut self, version: u8)
        ensures
            final(self).trace() == old(self).trace().push(
                answered(Call::SetVersion(version), Answer::Done),
            ),
    ;

    /// Appends a line to the operator-visible transcript of the transfer.
    fn log(&mut self, line: &str)
        ensures
            final(self).trace() == old(self).trace().push(
                answered(Call::Log(line@), Answer::Done),
            ),
    ;

    /// How long this side needs each code held on screen, in milliseconds,
    /// based on how often its camera actually lands a decode.
    ///
    /// The probe table's dwells assume a camera that resolves a code within a
    /// couple of frames. A real webcam decoding 1080p does far worse, and a
    /// code that goes by in fewer frames than that is simply missed, which
    /// arrives as a hole in the window rather than as anything diagnosable.
    /// Zero means "no opinion".
    fn suggested_dwell_ms(&mut self) -> (dwell_ms: u16)
        ensures
            final(self).trace() == old(self).trace().push(
                answered(Call::SuggestDwell, Answer::Dwell(dwell_ms)),
            ),
    ;

    /// Blocks until the operator confirms the upcoming phase described by
    /// `prompt`: `Ok(true)` to proceed and `Ok(false)` to abort.
    fn gate(&mut self, prompt: &str) -> (outcome: Result<bool>)
        ensures
            final(self).trace() == old(self).trace().push(gate_turn(prompt@, outcome)),
    ;

    /// Like [`Optical::gate`], but Enter is ignored until the camera is
    /// tracking the peer. An ordinary gate by default.
    fn gate_locked(&mut self, prompt: &str) -> (outcome: Result<bool>)
        ensures
            final(self).trace() == old(self).trace().push(gate_turn(prompt@, outcome)),
    {
        self.gate(prompt)
    }

    /// Blocks until the camera is tracking the peer, then proceeds without
    /// Enter, so there is no "Enter to receive" after the sender has already
    /// started. An ordinary gate by default.
    fn wait_locked(&mut self, prompt: &str) -> (outcome: Result<bool>)
        ensures
            final(self).trace() == old(self).trace().push(gate_turn(prompt@, outcome)),
    {
        self.gate(prompt)
    }

    /// How many DATA frames this side can paint in one dwell. Handshake
    /// frames are always a single code.
    fn tile_count(&self) -> (tiles: usize)
        default_ensures
            tiles == 1,
    {
        1
    }

    /// Paints `payloads` together for one dwell; shows them in sequence, up
    /// to the first that fails, by default.
    fn show_many(&mut self, payloads: &[Payload]) -> (outcome: Result<()>)
        ensures
            match outcome {
                Ok(_) => final(self).trace() == old(self).trace() + show_turns(payloads@),
                Err(e) => exists|shown: int|
                    0 <= shown < payloads@.len() && final(self).trace() == #[trigger] (
                    old(self).trace() + show_turns(payloads@.take(shown))).push(
                        failed(Call::Show(payloads@[shown]@), e@),
                    ),
            },
    {
        let ghost before: Seq<Turn> = self.trace();
        let mut i: usize = 0;
        while i < payloads.len()
            invariant
                i <= payloads@.len(),
                before == old(self).trace(),
                self.trace() == before + show_turns(payloads@.take(i as int)),
            decreases payloads@.len() - i,
        {
            match self.show(&payloads[i]) {
                Ok(_) => {},
                Err(e) => {
                    assert(self.trace() == (before + show_turns(payloads@.take(i as int))).push(
                        failed(Call::Show(payloads@[i as int]@), e@),
                    ));
                    return Err(e);
                },
            }
            assert(payloads@.take(i + 1) == payloads@.take(i as int).push(payloads@[i as int]));
            assert(show_turns(payloads@.take(i + 1)) == show_turns(payloads@.take(i as int)).push(
                answered(Call::Show(payloads@[i as int]@), Answer::Done),
            ));
            i = i + 1;
        }
        assert(payloads@.take(i as int) == payloads@);
        Ok(())
    }
}

/// `std::sync::mpsc::Sender`, carried opaquely.
#[verifier::external_type_specification]
#[verifier::external_body]
#[verifier::reject_recursive_types(T)]
pub struct ExSender<T>(mpsc::Sender<T>);

/// `std::sync::mpsc::Receiver`, carried opaquely.
#[verifier::external_type_specification]
#[verifier::external_body]
#[verifier::reject_recursive_types(T)]
pub struct ExReceiver<T>(mpsc::Receiver<T>);

/// What waiting on a channel brought.
pub enum Arrival {
    Frame(Vec<u8>),
    Nothing,
    Gone,
}

/// An [`Arrival`] as mathematical data.
#[verifier::ext_equal]
pub enum ArrivalView {
    Frame(Seq<u8>),
    Nothing,
    Gone,
}

impl View for Arrival {
    type V = ArrivalView;

    open spec fn view(&self) -> ArrivalView {
        match *self {
            Arrival::Frame(frame) => ArrivalView::Frame(frame@),
            Arrival::Nothing => ArrivalView::Nothing,
            Arrival::Gone => ArrivalView::Gone,
        }
    }
}

/// The frames that were handed to this sending half, in order, each with
/// whether the receiving half was still there.
pub uninterp spec fn sends_on(sender: mpsc::Sender<Vec<u8>>) -> Seq<(Seq<u8>, bool)>;

/// How long each wait on this receiving half was to be at most, in order, and
/// what it brought.
pub uninterp spec fn waits_on(receiver: mpsc::Receiver<Vec<u8>>) -> Seq<(Duration, ArrivalView)>;

/// Whether the two halves belong to one channel, at whatever moments of its
/// life the two are looked at.
pub uninterp spec fn same_channel(
    sender: mpsc::Sender<Vec<u8>>,
    receiver: mpsc::Receiver<Vec<u8>>,
) -> bool;

/// Whether the sending half had got as far as this when the latest wait on the
/// receiving half began.
pub uninterp spec fn sent_before(
    sender: mpsc::Sender<Vec<u8>>,
    receiver: mpsc::Receiver<Vec<u8>>,
) -> bool;

/// Whether the sending half had been dropped, having got as far as this, when
/// the latest wait on the receiving half began.
pub uninterp spec fn dropped_before(
    sender: mpsc::Sender<Vec<u8>>,
    receiver: mpsc::Receiver<Vec<u8>>,
) -> bool;

/// The frames among `sends` that the channel took.
pub open spec fn accepted(sends: Seq<(Seq<u8>, bool)>) -> Seq<Seq<u8>>
    decreases sends.len(),
{
    if sends.len() == 0 {
        Seq::empty()
    } else if sends.last().1 {
        accepted(sends.drop_last()).push(sends.last().0)
    } else {
        accepted(sends.drop_last())
    }
}

/// The frames that `waits` brought.
pub open spec fn brought(waits: Seq<(Duration, ArrivalView)>) -> Seq<Seq<u8>>
    decreases waits.len(),
{
    if waits.len() == 0 {
        Seq::empty()
    } else {
        match waits.last().1 {
            ArrivalView::Frame(frame) => brought(waits.drop_last()).push(frame),
            _ => brought(waits.drop_last()),
        }
    }
}

/// What was sent counts if the other side was there, and what was waited for if
/// it came; both in order.
pub proof fn law_frames_are_counted_in_order(
    sends: Seq<(Seq<u8>, bool)>,
    waits: Seq<(Duration, ArrivalView)>,
    frame: Seq<u8>,
    span: Duration,
)
    ensures
        accepted(Seq::empty()) == Seq::<Seq<u8>>::empty(),
        accepted(sends.push((frame, true))) == accepted(sends).push(frame),
        accepted(sends.push((frame, false))) == accepted(sends),
        brought(Seq::empty()) == Seq::<Seq<u8>>::empty(),
        brought(waits.push((span, ArrivalView::Frame(frame)))) == brought(waits).push(frame),
        brought(waits.push((span, ArrivalView::Nothing))) == brought(waits),
        brought(waits.push((span, ArrivalView::Gone))) == brought(waits),
{
    assert(sends.push((frame, true)).drop_last() =~= sends);
    assert(sends.push((frame, false)).drop_last() =~= sends);
    assert(waits.push((span, ArrivalView::Frame(frame))).drop_last() =~= waits);
    assert(waits.push((span, ArrivalView::Nothing)).drop_last() =~= waits);
    assert(waits.push((span, ArrivalView::Gone)).drop_last() =~= waits);
}

/// Whether two lists of frames agree as far as both go.
pub open spec fn in_step(sent: Seq<Seq<u8>>, read: Seq<Seq<u8>>) -> bool {
    forall|k: int| 0 <= k < sent.len() && k < read.len() ==> #[trigger] sent[k] == read[k]
}

/// Calls `std::sync::mpsc::channel`. Taken on trust: the two halves belong
/// together, nothing has been sent on a new channel, and nobody has waited on
/// it.
#[verifier::external_body]
fn frame_channel() -> (halves: (mpsc::Sender<Vec<u8>>, mpsc::Receiver<Vec<u8>>))
    ensures
        same_channel(halves.0, halves.1),
        sends_on(halves.0) == Seq::<(Seq<u8>, bool)>::empty(),
        waits_on(halves.1) == Seq::<(Duration, ArrivalView)>::empty(),
{
    mpsc::channel()
}

/// Calls `Sender::send` with `frame`; `false` means that the receiving half is
/// gone. Taken on trust: this call is the next one on this half, which goes on
/// belonging to its channel; and a channel brings frames in the order in which
/// it took them, so that what the receiving half reads, before or after,
/// agrees with what was sent. Whether the receiving half is still there is up
/// to the other side, so nothing is claimed of it.
#[verifier::external_body]
fn send_frame(sender: &mut mpsc::Sender<Vec<u8>>, frame: Vec<u8>) -> (sent: bool)
    ensures
        sends_on(*final(sender)) == sends_on(*old(sender)).push((frame@, sent)),
        forall|receiver: mpsc::Receiver<Vec<u8>>| #[trigger]
            same_channel(*final(sender), receiver) == same_channel(*old(sender), receiver),
        forall|receiver: mpsc::Receiver<Vec<u8>>| #[trigger]
            same_channel(*final(sender), receiver) ==> in_step(
                accepted(sends_on(*final(sender))),
                brought(waits_on(receiver)),
            ),
{
    sender.send(frame).is_ok()
}

/// Calls `Receiver::recv_timeout` with `timeout`. Taken on trust: this call is
/// the next one on this half, which goes on belonging to its channel; the
/// frames that were read agree with what is sent on the channel, before or
/// after, and had all been sent by then; when the sending half is reported
/// gone, every frame that the channel took has been read; a frame that had been
/// sent and not been read when the wait began is what it brings; and a sending
/// half that had been dropped and read out by then is reported gone. Whether a
/// frame that is sent later comes in time is up to the other side and the
/// clock, so nothing is claimed of it.
#[verifier::external_body]
fn receive_frame(receiver: &mut mpsc::Receiver<Vec<u8>>, timeout: Duration) -> (arrival: Arrival)
    ensures
        waits_on(*final(receiver)) == waits_on(*old(receiver)).push((timeout, arrival@)),
        forall|sender: mpsc::Sender<Vec<u8>>| #[trigger]
            same_channel(sender, *final(receiver)) == same_channel(sender, *old(receiver)),
        forall|sender: mpsc::Sender<Vec<u8>>| #[trigger]
            same_channel(sender, *final(receiver)) ==> in_step(
                accepted(sends_on(sender)),
                brought(waits_on(*final(receiver))),
            ),
        exists|sender: mpsc::Sender<Vec<u8>>| #[trigger]
            same_channel(sender, *final(receiver)) && brought(
                waits_on(*final(receiver)),
            ).is_prefix_of(accepted(sends_on(sender))),
        arrival is Gone ==> forall|sender: mpsc::Sender<Vec<u8>>| #[trigger]
            same_channel(sender, *final(receiver)) ==> accepted(sends_on(sender)).len()
                <= brought(waits_on(*final(receiver))).len(),
        forall|sender: mpsc::Sender<Vec<u8>>| #[trigger]
            sent_before(sender, *final(receiver)) && same_channel(sender, *final(receiver))
                && brought(waits_on(*old(receiver))).len() < accepted(sends_on(sender)).len()
                ==> arrival is Frame,
        forall|sender: mpsc::Sender<Vec<u8>>| #[trigger]
            dropped_before(sender, *final(receiver)) && same_channel(sender, *final(receiver))
                && accepted(sends_on(sender)).len() <= brought(waits_on(*old(receiver))).len()
                ==> arrival is Gone,
{
    match receiver.recv_timeout(timeout) {
        Ok(frame) => Arrival::Frame(frame),
        Err(mpsc::RecvTimeoutError::Timeout) => Arrival::Nothing,
        Err(mpsc::RecvTimeoutError::Disconnected) => Arrival::Gone,
    }
}

/// The error that a broken channel gives.
pub open spec fn disconnected() -> ErrorView {
    ErrorView::Message("optical peer disconnected"@)
}

fn peer_gone() -> (err: Error)
    ensures
        err@ == disconnected(),
{
    Error::Message(String::from_str("optical peer disconnected"))
}

/// What an arrival means: a frame is decoded, nothing is nothing, and a
/// missing peer is an error.
pub open spec fn arrival_outcome(arrival: ArrivalView) -> std::result::Result<
    Option<PayloadView>,
    ErrorView,
> {
    match arrival {
        ArrivalView::Frame(bytes) => match frame::parse_frame(bytes) {
            Some(payload) => Ok(Some(payload)),
            None => Err(ErrorView::BadFrame),
        },
        ArrivalView::Nothing => Ok(None),
        ArrivalView::Gone => Err(disconnected()),
    }
}

/// What a poll came to, without its representation.
pub open spec fn poll_outcome(outcome: Result<Option<Payload>>) -> std::result::Result<
    Option<PayloadView>,
    ErrorView,
> {
    match outcome {
        Ok(polled) => Ok(frame::payload_option(polled)),
        Err(e) => Err(e@),
    }
}

/// What [`PairEnd::poll`] makes of an arrival.
pub fn read_arrival(arrival: Arrival) -> (outcome: Result<Option<Payload>>)
    ensures
        poll_outcome(outcome) == arrival_outcome(arrival@),
{
    match arrival {
        Arrival::Frame(frame) => match frame::decode(frame.as_slice()) {
            Ok(payload) => Ok(Some(payload)),
            Err(e) => Err(e),
        },
        Arrival::Nothing => Ok(None),
        Arrival::Gone => Err(peer_gone()),
    }
}

/// One end of an in-process channel: what one end shows, the other polls.
pub struct PairEnd {
    sender: mpsc::Sender<Vec<u8>>,
    receiver: mpsc::Receiver<Vec<u8>>,
    turns: Ghost<Seq<Turn>>,
}

impl PairEnd {
    /// The frames this end has handed to the channel, each with whether the
    /// other end was still there.
    pub closed spec fn sends(&self) -> Seq<(Seq<u8>, bool)> {
        sends_on(self.sender)
    }

    /// How long this end has waited each time, and what came of it.
    pub closed spec fn waits(&self) -> Seq<(Duration, ArrivalView)> {
        waits_on(self.receiver)
    }

    /// The frames of this end that the channel took, in order.
    pub open spec fn shown(&self) -> Seq<Seq<u8>> {
        accepted(self.sends())
    }

    /// The frames that this end has read, in order.
    pub open spec fn read(&self) -> Seq<Seq<u8>> {
        brought(self.waits())
    }

    /// Whether what this end shows goes to `other`, at whatever moments the two
    /// are looked at.
    pub closed spec fn reaches(&self, other: &PairEnd) -> bool {
        same_channel(self.sender, other.receiver)
    }

    /// Whether this end had got as far as this when the latest poll of `other`
    /// began.
    pub closed spec fn done_before(&self, other: &PairEnd) -> bool {
        sent_before(self.sender, other.receiver)
    }

    /// Whether this end had been dropped, having got as far as this, when the
    /// latest poll of `other` began.
    pub closed spec fn left_before(&self, other: &PairEnd) -> bool {
        dropped_before(self.sender, other.receiver)
    }

    /// Whether this end is wired as it was `before`.
    pub open spec fn wired_as(&self, before: &PairEnd) -> bool {
        &&& forall|other: PairEnd| #[trigger] self.reaches(&other) == before.reaches(&other)
        &&& forall|other: PairEnd| #[trigger] other.reaches(self) == other.reaches(before)
    }

    /// Whether frames pass this end in order: what it shows agrees with what
    /// is read where it reaches, and what it reads with what is shown to it.
    pub open spec fn orderly(&self) -> bool {
        &&& forall|other: PairEnd| #[trigger]
            self.reaches(&other) ==> in_step(self.shown(), other.read())
        &&& forall|other: PairEnd| #[trigger]
            other.reaches(self) ==> in_step(other.shown(), self.read())
    }

    /// Whether everything this end has read had been shown to it.
    pub open spec fn reads_what_was_shown(&self) -> bool {
        exists|other: PairEnd| #[trigger]
            other.reaches(self) && self.read().is_prefix_of(other.shown())
    }

    /// Whether the poll that led here from `before` brought the next frame that
    /// had been shown by then, if there was one.
    pub open spec fn reads_on(&self, before: &PairEnd) -> bool {
        forall|other: PairEnd| #[trigger]
            other.done_before(self) && other.reaches(self) && before.read().len()
                < other.shown().len() ==> self.read() == before.read().push(
                other.shown()[before.read().len() as int],
            )
    }

    /// Whether this end has read everything that is ever shown to it.
    pub open spec fn read_out(&self) -> bool {
        forall|other: PairEnd| #[trigger]
            other.reaches(self) ==> other.shown().len() <= self.read().len()
    }

    /// Whether nothing has been done with this end yet.
    pub open spec fn fresh(&self) -> bool {
        &&& self.trace() == Seq::<Turn>::empty()
        &&& self.sends() == Seq::<(Seq<u8>, bool)>::empty()
        &&& self.waits() == Seq::<(Duration, ArrivalView)>::empty()
    }
}

/// Two connected ends: what one shows, the other polls.
pub fn pair() -> (ends: (PairEnd, PairEnd))
    ensures
        ends.0.fresh(),
        ends.1.fresh(),
        ends.0.reaches(&ends.1),
        ends.1.reaches(&ends.0),
        ends.0.orderly(),
        ends.1.orderly(),
{
    let (a_to_b_sender, a_to_b_receiver) = frame_channel();
    let (b_to_a_sender, b_to_a_receiver) = frame_channel();
    (
        PairEnd { sender: a_to_b_sender, receiver: b_to_a_receiver, turns: Ghost(Seq::empty()) },
        PairEnd { sender: b_to_a_sender, receiver: a_to_b_receiver, turns: Ghost(Seq::empty()) },
    )
}

/// One end polls the frames that the other showed, in the order in which they
/// were shown: as far as both have come, the frame that was read at a place is
/// the one that was shown at that place.
pub proof fn law_frames_arrive_in_order(from: PairEnd, to: PairEnd, place: int)
    requires
        from.reaches(&to),
        from.orderly() || to.orderly(),
        0 <= place < from.shown().len(),
        place < to.read().len(),
    ensures
        to.read()[place] == from.shown()[place],
{
    assert(in_step(from.shown(), to.read()));
}

/// A payload that one end showed is the payload that the other end's poll
/// makes of the frame it reads at that place.
pub proof fn law_a_shown_payload_is_polled(
    from: PairEnd,
    to: PairEnd,
    place: int,
    payload: PayloadView,
)
    requires
        from.reaches(&to),
        from.orderly() || to.orderly(),
        0 <= place < from.shown().len(),
        place < to.read().len(),
        frame::frameable(payload),
        frame::digest_sized(payload),
        from.shown()[place] == frame::frame_bytes(payload),
    ensures
        arrival_outcome(ArrivalView::Frame(to.read()[place])) == Ok::<
            Option<PayloadView>,
            ErrorView,
        >(Some(payload)),
{
    law_frames_arrive_in_order(from, to, place);
    frame::law_decode_inverts_encode(payload);
}

/// What one end has shown, the other reads in as many polls, in order, with
/// nothing lost, repeated or changed. `ends` is the reading end before the first
/// of those polls and after each of them.
pub proof fn law_what_was_shown_is_read(from: PairEnd, ends: Seq<PairEnd>)
    requires
        ends.len() > 0,
        ends.len() <= from.shown().len() + 1,
        ends[0].read().len() == 0,
        forall|k: int|
            0 < k < ends.len() ==> {
                &&& (#[trigger] ends[k]).reads_on(&ends[k - 1])
                &&& from.done_before(&ends[k])
                &&& from.reaches(&ends[k])
            },
    ensures
        ends.last().read() == from.shown().take(ends.len() - 1),
    decreases ends.len(),
{
    if ends.len() > 1 {
        let k = ends.len() - 1;
        let earlier = ends.drop_last();
        assert forall|j: int| 0 < j < earlier.len() implies {
            &&& (#[trigger] earlier[j]).reads_on(&earlier[j - 1])
            &&& from.done_before(&earlier[j])
            &&& from.reaches(&earlier[j])
        } by {
            assert(earlier[j] == ends[j] && earlier[j - 1] == ends[j - 1]);
        }
        law_what_was_shown_is_read(from, earlier);
        assert(earlier.last() == ends[k - 1]);
        assert(ends[k].reads_on(&ends[k - 1]));
        assert(ends[k].read() == from.shown().take(k - 1).push(from.shown()[k - 1]));
    }
}

/// Nothing that one end showed is lost: once the other end has been told that
/// its peer is gone, it has read exactly what was shown.
pub proof fn law_a_gone_peer_was_read_out(from: PairEnd, to: PairEnd)
    requires
        from.reaches(&to),
        from.orderly() || to.orderly(),
        to.read_out(),
    ensures
        from.shown().is_prefix_of(to.read()),
{
    assert(in_step(from.shown(), to.read()));
    assert(from.shown() =~= to.read().take(from.shown().len() as int));
}

impl Optical for PairEnd {
    closed spec fn trace(&self) -> Seq<Turn> {
        self.turns@
    }

    fn show(&mut self, payload: &Payload) -> (outcome: Result<()>)
        ensures
            final(self).wired_as(&*old(self)),
            old(self).orderly() ==> final(self).orderly(),
            final(self).waits() == old(self).waits(),
            frame::frameable(payload@) ==> {
                &&& final(self).sends() == old(self).sends().push(
                    (frame::frame_bytes(payload@), outcome is Ok),
                )
                &&& outcome matches Err(e) ==> e@ == disconnected()
            },
            !frame::frameable(payload@) ==> {
                &&& final(self).sends() == old(self).sends()
                &&& outcome matches Err(e) && e@ == ErrorView::BadFrame
            },
    {
        let outcome: Result<()> = match frame::encode(payload) {
            Ok(bytes) => if send_frame(&mut self.sender, bytes) {
                Ok(())
            } else {
                Err(peer_gone())
            },
            Err(e) => Err(e),
        };
        self.turns = Ghost(self.turns@.push(plain_turn(Call::Show(payload@), outcome)));
        proof {
            assert forall|other: PairEnd| old(self).orderly() && #[trigger] self.reaches(
                &other,
            ) implies in_step(self.shown(), other.read()) by {
                assert(old(self).reaches(&other));
            }
            assert forall|other: PairEnd| old(self).orderly() && #[trigger] other.reaches(
                &*self,
            ) implies in_step(other.shown(), self.read()) by {
                assert(other.reaches(&*old(self)));
            }
        }
        outcome
    }

    fn poll(&mut self, timeout: Duration) -> (outcome: Result<Option<Payload>>)
        ensures
            final(self).wired_as(&*old(self)),
            old(self).orderly() ==> final(self).orderly(),
            final(self).reads_what_was_shown(),
            final(self).reads_on(&*old(self)),
            final(self).sends() == old(self).sends(),
            exists|arrival: ArrivalView|
                final(self).waits() == #[trigger] old(self).waits().push((timeout, arrival))
                    && poll_outcome(outcome) == arrival_outcome(arrival) && (arrival is Gone
                    ==> final(self).read_out()),
            forall|other: PairEnd| #[trigger]
                other.done_before(&*final(self)) && other.reaches(&*final(self))
                    && old(self).read().len() < other.shown().len() ==> poll_outcome(outcome)
                    == arrival_outcome(
                    ArrivalView::Frame(other.shown()[old(self).read().len() as int]),
                ),
            forall|other: PairEnd| #[trigger]
                other.left_before(&*final(self)) && other.reaches(&*final(self))
                    && other.shown().len() <= old(self).read().len() ==> (outcome matches Err(e)
                    && e@ == disconnected()),
    {
        let arrival: Arrival = receive_frame(&mut self.receiver, timeout);
        assert(self.waits() == old(self).waits().push((timeout, arrival@)));
        let ghost sender: mpsc::Sender<Vec<u8>> = choose|sender: mpsc::Sender<Vec<u8>>| #[trigger]
            same_channel(sender, self.receiver) && brought(waits_on(self.receiver)).is_prefix_of(
                accepted(sends_on(sender)),
            );
        let outcome: Result<Option<Payload>> = read_arrival(arrival);
        self.turns = Ghost(self.turns@.push(poll_turn(timeout, outcome)));
        assert(self.reads_what_was_shown()) by {
            let other = PairEnd { sender, receiver: self.receiver, turns: self.turns };
            assert(other.reaches(&*self) && self.read().is_prefix_of(other.shown()));
        }
        proof {
            let waits = old(self).waits().push((timeout, arrival@));
            assert(waits.drop_last() == old(self).waits());
            assert forall|other: PairEnd| #[trigger]
                other.done_before(&*self) && other.reaches(&*self) && old(self).read().len()
                    < other.shown().len() implies {
                let next = other.shown()[old(self).read().len() as int];
                &&& self.read() == old(self).read().push(next)
                &&& poll_outcome(outcome) == arrival_outcome(ArrivalView::Frame(next))
            } by {
                let next = other.shown()[old(self).read().len() as int];
                assert(in_step(other.shown(), self.read()));
                assert(self.read() == old(self).read().push(arrival@->Frame_0));
                assert(self.read()[old(self).read().len() as int] == next);
            }
        }
        outcome
    }

    fn hold(&mut self, dwell_ms: u16)
        ensures
            final(self).wired_as(&*old(self)),
            old(self).orderly() ==> final(self).orderly(),
            final(self).sends() == old(self).sends(),
            final(self).waits() == old(self).waits(),
    {
        self.turns = Ghost(self.turns@.push(answered(Call::Hold(dwell_ms), Answer::Done)));
    }

    fn set_status(&mut self, status: &Progress)
        ensures
            final(self).wired_as(&*old(self)),
            old(self).orderly() ==> final(self).orderly(),
            final(self).sends() == old(self).sends(),
            final(self).waits() == old(self).waits(),
    {
        self.turns = Ghost(self.turns@.push(answered(Call::SetStatus(*status), Answer::Done)));
    }

    fn set_version(&mut self, version: u8)
        ensures
            final(self).wired_as(&*old(self)),
            old(self).orderly() ==> final(self).orderly(),
            final(self).sends() == old(self).sends(),
            final(self).waits() == old(self).waits(),
    {
        self.turns = Ghost(self.turns@.push(answered(Call::SetVersion(version), Answer::Done)));
    }

    fn log(&mut self, line: &str)
        ensures
            final(self).wired_as(&*old(self)),
            old(self).orderly() ==> final(self).orderly(),
            final(self).sends() == old(self).sends(),
            final(self).waits() == old(self).waits(),
    {
        self.turns = Ghost(self.turns@.push(answered(Call::Log(line@), Answer::Done)));
    }

    fn suggested_dwell_ms(&mut self) -> (dwell_ms: u16)
        ensures
            dwell_ms == 0,
            final(self).wired_as(&*old(self)),
            old(self).orderly() ==> final(self).orderly(),
            final(self).sends() == old(self).sends(),
            final(self).waits() == old(self).waits(),
    {
        self.turns = Ghost(self.turns@.push(answered(Call::SuggestDwell, Answer::Dwell(0))));
        0
    }

    fn gate(&mut self, prompt: &str) -> (outcome: Result<bool>)
        ensures
            outcome matches Ok(true),
            final(self).wired_as(&*old(self)),
            old(self).orderly() ==> final(self).orderly(),
            final(self).sends() == old(self).sends(),
            final(self).waits() == old(self).waits(),
    {
        self.turns = Ghost(self.turns@.push(answered(Call::Gate(prompt@), Answer::Gated(true))));
        Ok(true)
    }
}

/// A channel that loses the listed DATA frames, each of them once.
pub struct Lossy<T> {
    pub inner: T,
    pub drop_data_seq: HashSet<u32>,
    /// The requests made of this channel, for proofs.
    pub turns: Ghost<Seq<Turn>>,
}

impl<T: Optical> Lossy<T> {
    pub fn new(inner: T, drop_data_seq: HashSet<u32>) -> (channel: Self)
        ensures
            channel.inner == inner,
            channel.drop_data_seq@ == drop_data_seq@,
            channel.trace() == Seq::<Turn>::empty(),
    {
        Lossy { inner, drop_data_seq, turns: Ghost(Seq::empty()) }
    }
}

/// What a lossy channel that is to drop `dropped` makes of a polled frame: a
/// listed DATA frame is lost and struck off the list.
pub open spec fn lossy_poll(dropped: Set<u32>, polled: Option<PayloadView>) -> (
    Set<u32>,
    Option<PayloadView>,
) {
    match polled {
        Some(PayloadView::Data { seq, .. }) => if dropped.contains(seq) {
            (dropped.remove(seq), None)
        } else {
            (dropped, polled)
        },
        _ => (dropped, polled),
    }
}

/// A DATA frame is lost at most once: the poll that loses it takes it off the
/// list, so that a later one with the same number comes through.
pub proof fn law_lossy_drops_once(dropped: Set<u32>, seq: u32, first: Seq<u8>, again: Seq<u8>)
    ensures
        ({
            let (left, _) = lossy_poll(dropped, Some(PayloadView::Data { seq, chunk: first }));
            lossy_poll(left, Some(PayloadView::Data { seq, chunk: again })) == (
                left,
                Some(PayloadView::Data { seq, chunk: again }),
            )
        }),
{
}

/// Nothing but a listed DATA frame is lost: that is taken for silence and struck
/// off the list, and everything else comes through and leaves the list as it is.
pub proof fn law_lossy_loses_only_what_is_listed(dropped: Set<u32>, polled: Option<PayloadView>)
    ensures
        match polled {
            Some(PayloadView::Data { seq, .. }) => {
                &&& dropped.contains(seq) ==> lossy_poll(dropped, polled) == (
                    dropped.remove(seq),
                    None::<PayloadView>,
                )
                &&& !dropped.contains(seq) ==> lossy_poll(dropped, polled) == (dropped, polled)
            },
            _ => lossy_poll(dropped, polled) == (dropped, polled),
        },
{
}

/// What a poll makes of an arrival: every frame that was written by
/// [`frame::encode`] comes out as its payload, a spoilt one is an error, silence
/// is no error, and a peer that is gone is one.
pub proof fn law_what_an_arrival_means(payload: PayloadView, bytes: Seq<u8>)
    requires
        frame::frameable(payload),
        frame::digest_sized(payload),
    ensures
        arrival_outcome(ArrivalView::Frame(frame::frame_bytes(payload))) == Ok::<
            Option<PayloadView>,
            ErrorView,
        >(Some(payload)),
        frame::parse_frame(bytes) is None ==> arrival_outcome(ArrivalView::Frame(bytes)) == Err::<
            Option<PayloadView>,
            ErrorView,
        >(ErrorView::BadFrame),
        arrival_outcome(ArrivalView::Nothing) == Ok::<Option<PayloadView>, ErrorView>(None),
        arrival_outcome(ArrivalView::Gone) == Err::<Option<PayloadView>, ErrorView>(
            ErrorView::Message("optical peer disconnected"@),
        ),
{
    frame::law_decode_inverts_encode(payload);
}

impl<T: Optical> Optical for Lossy<T> {
    open spec fn trace(&self) -> Seq<Turn> {
        self.turns@
    }

    fn show(&mut self, payload: &Payload) -> (outcome: Result<()>)
        ensures
            final(self).drop_data_seq == old(self).drop_data_seq,
            final(self).inner.trace() == old(self).inner.trace().push(
                plain_turn(Call::Show(payload@), outcome),
            ),
    {
        let outcome: Result<()> = self.inner.show(payload);
        self.turns = Ghost(self.turns@.push(plain_turn(Call::Show(payload@), outcome)));
        outcome
    }

    fn poll(&mut self, timeout: Duration) -> (outcome: Result<Option<Payload>>)
        ensures
            match outcome {
                Ok(kept) => exists|polled: Option<PayloadView>|
                    final(self).inner.trace() == old(self).inner.trace().push(
                        #[trigger] answered(Call::Poll(timeout), Answer::Polled(polled)),
                    ) && lossy_poll(old(self).drop_data_seq@, polled) == (
                        final(self).drop_data_seq@,
                        frame::payload_option(kept),
                    ),
                Err(e) => {
                    &&& final(self).drop_data_seq == old(self).drop_data_seq
                    &&& final(self).inner.trace() == old(self).inner.trace().push(
                        failed(Call::Poll(timeout), e@),
                    )
                },
            },
    {
        broadcast use vstd::std_specs::hash::group_hash_axioms;

        let outcome: Result<Option<Payload>> = match self.inner.poll(timeout) {
            Ok(polled) => {
                let ghost seen: Option<PayloadView> = frame::payload_option(polled);
                assert(self.inner.trace() == old(self).inner.trace().push(
                    answered(Call::Poll(timeout), Answer::Polled(seen)),
                ));
                let lost: bool = match &polled {
                    Some(Payload::Data { seq, .. }) => self.drop_data_seq.remove(seq),
                    _ => false,
                };
                if lost {
                    Ok(None)
                } else {
                    assert(lossy_poll(old(self).drop_data_seq@, seen).0
                        =~= self.drop_data_seq@);
                    Ok(polled)
                }
            },
            Err(e) => Err(e),
        };
        self.turns = Ghost(self.turns@.push(poll_turn(timeout, outcome)));
        outcome
    }

    fn hold(&mut self, dwell_ms: u16)
        ensures
            final(self).drop_data_seq == old(self).drop_data_seq,
            final(self).inner.trace() == old(self).inner.trace().push(
                answered(Call::Hold(dwell_ms), Answer::Done),
            ),
    {
        self.inner.hold(dwell_ms);
        self.turns = Ghost(self.turns@.push(answered(Call::Hold(dwell_ms), Answer::Done)));
    }

    fn set_status(&mut self, status: &Progress)
        ensures
            final(self).drop_data_seq == old(self).drop_data_seq,
            final(self).inner == old(self).inner,
    {
        self.turns = Ghost(self.turns@.push(answered(Call::SetStatus(*status), Answer::Done)));
    }

    fn set_version(&mut self, version: u8)
        ensures
            final(self).drop_data_seq == old(self).drop_data_seq,
            final(self).inner == old(self).inner,
    {
        self.turns = Ghost(self.turns@.push(answered(Call::SetVersion(version), Answer::Done)));
    }

    fn log(&mut self, line: &str)
        ensures
            final(self).drop_data_seq == old(self).drop_data_seq,
            final(self).inner == old(self).inner,
    {
        self.turns = Ghost(self.turns@.push(answered(Call::Log(line@), Answer::Done)));
    }

    fn suggested_dwell_ms(&mut self) -> (dwell_ms: u16)
        ensures
            dwell_ms == 0,
            final(self).drop_data_seq == old(self).drop_data_seq,
            final(self).inner == old(self).inner,
    {
        self.turns = Ghost(self.turns@.push(answered(Call::SuggestDwell, Answer::Dwell(0))));
        0
    }

    fn gate(&mut self, prompt: &str) -> (outcome: Result<bool>)
        ensures
            outcome matches Ok(true),
            final(self).drop_data_seq == old(self).drop_data_seq,
            final(self).inner == old(self).inner,
    {
        self.turns = Ghost(self.turns@.push(answered(Call::Gate(prompt@), Answer::Gated(true))));
        Ok(true)
    }
}

} // verus!
