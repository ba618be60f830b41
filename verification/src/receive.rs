//! The receiving half of a transfer.
use crate::clock;
use crate::clock::Clock;
use crate::digest;
use crate::error::{Error, ErrorView, Result};
use crate::frame;
use crate::frame::{Payload, PayloadView, FAIL_HASH};
use crate::link::{Session, SessionView};
use crate::machine;
use crate::machine::{Action, Machine, Protocol, Reply};
use crate::optical::{Answer, Call, Optical, Progress, Turn};
use crate::transport;
use crate::transport::{TransportConfig, STALL_LIMIT};
use crate::window;
use crate::window::WINDOW;
use std::collections::HashSet;
use vstd::prelude::*;

verus! {

/// How long a burst must have been quiet before it is acknowledged, in
/// nanoseconds.
pub open spec fn quiet_span(cfg: TransportConfig, dwell_ms: u16) -> u64 {
    if cfg.fast {
        0
    } else {
        let ms = dwell_ms as int * 3 / 2;
        if ms > 80 {
            (ms * 1_000_000) as u64
        } else {
            80_000_000
        }
    }
}

/// How long the receiver waits for another *new* sequence before concluding
/// the sender has finished the burst and wants an ACK.
///
/// Live cameras re-decode the code currently on screen many times a second, so
/// "poll returned nothing" never happens while a DATA frame is held. The quiet
/// timer is measured from the last new chunk instead. In-process channels have
/// no duplicates and are acknowledged as soon as they go idle.
pub fn burst_quiet(cfg: TransportConfig, dwell_ms: u16) -> (nanos: u64)
    ensures
        nanos == quiet_span(cfg, dwell_ms),
{
    if cfg.fast {
        0
    } else {
        let ms: u64 = dwell_ms as u64 * 3 / 2;
        if ms > 80 {
            ms * clock::MILLISECOND
        } else {
            80 * clock::MILLISECOND
        }
    }
}

/// How long the receiver waits for the first chunk, in nanoseconds.
pub open spec fn first_data_wait(cfg: TransportConfig) -> u64 {
    if cfg.fast {
        1_000_000_000
    } else {
        600_000_000_000
    }
}

/// Live transfers wait this long for the first DATA: the sender still has one
/// Enter to press after the handshake, and that is not a stall.
pub fn first_data_budget(cfg: TransportConfig) -> (nanos: u64)
    ensures
        nanos == first_data_wait(cfg),
{
    if cfg.fast {
        transport::ack_timeout(cfg) * STALL_LIMIT as u64
    } else {
        600 * clock::SECOND
    }
}

/// How a transfer ended for the receiver.
#[derive(Clone, Copy, Debug, PartialEq, Eq, Structural)]
pub enum RecvEnd {
    Received,
    Mismatch,
    Refused,
    Stalled,
}

/// What the receiver waits on.
#[derive(Clone, Copy, Debug, PartialEq, Eq, Structural)]
pub enum RecvPhase {
    Poll,
    /// The status line after a new chunk.
    Status,
    /// Acknowledging again the earlier window that starts here.
    AckOld(u32),
    /// Acknowledging a burst that has gone quiet.
    AckBurst,
    /// Acknowledging a complete window.
    AckWindow,
    /// Telling the sender that the digest is wrong.
    Reject,
    Over(RecvEnd),
}

/// How far the receiver has come, besides the chunks it holds.
#[derive(Clone, Copy, Debug)]
pub struct RecvProgress {
    pub phase: RecvPhase,
    /// First chunk of the current window.
    pub base: u32,
    /// Polls in a row that brought nothing while nothing was unacknowledged.
    pub idle_polls: u32,
    /// When the latest new chunk arrived.
    pub last_new: u64,
    /// Whether a chunk arrived that no ACK has covered.
    pub unacked: bool,
    /// Whether any chunk arrived.
    pub seen_data: bool,
    /// The earlier window acknowledged again last.
    pub last_old_window: Option<u32>,
    /// When the transfer started.
    pub started: u64,
    /// The latest clock reading.
    pub now: u64,
}

/// The receiver's state.
#[verifier::ext_equal]
pub struct RecvState {
    pub session: SessionView,
    pub cfg: TransportConfig,
    /// The chunks that arrived.
    pub got: Set<u32>,
    /// What the chunks that arrived put together.
    pub blob: Seq<u8>,
    pub at: RecvProgress,
}

/// `blob` with `chunk` written over it from `start` on.
pub open spec fn overwritten(blob: Seq<u8>, start: int, chunk: Seq<u8>) -> Seq<u8> {
    blob.take(start) + chunk + blob.skip(start + chunk.len())
}

impl RecvState {
    pub open spec fn chunk_size(self) -> nat {
        frame::chunk_room(self.session.qr_version)
    }

    /// One past the last chunk of the current window.
    pub open spec fn end(self) -> u32 {
        window::window_end_of(self.at.base, self.session.chunk_count)
    }

    /// The chunks of the current window that have not arrived.
    pub open spec fn missing(self) -> Seq<u32> {
        window::unset_seqs(
            self.at.base,
            self.end(),
            window::bitmap_of(self.got, self.at.base, self.end()),
        )
    }

    pub open spec fn quiet(self) -> u64 {
        quiet_span(self.cfg, self.session.dwell_ms)
    }

    /// Whether chunks wait for an ACK and the burst has gone quiet.
    pub open spec fn burst_over(self) -> bool {
        self.at.unacked && clock::time_since(self.at.last_new, self.at.now) >= self.quiet()
    }

    /// How long the next poll waits.
    pub open spec fn poll_for(self) -> u64 {
        if self.at.seen_data && self.at.unacked && !self.cfg.fast {
            let left = clock::time_since(
                clock::time_since(self.at.last_new, self.at.now),
                self.quiet(),
            );
            if left < 5_000_000 {
                5_000_000
            } else {
                left
            }
        } else {
            transport::ack_wait(self.cfg)
        }
    }

    /// The ACK for the window that starts at `base`.
    pub open spec fn ack(self, base: u32) -> PayloadView {
        PayloadView::Ack {
            window_base: base,
            bitmap: window::bitmap_of(
                self.got,
                base,
                window::window_end_of(base, self.session.chunk_count),
            ),
        }
    }

    pub open spec fn progress(self) -> Progress {
        Progress {
            base: self.at.base,
            end: self.end(),
            chunk_count: self.session.chunk_count,
            holes: self.missing().len() as usize,
            elapsed: clock::time_since(self.at.started, self.at.now),
        }
    }

    pub open spec fn at_time(self, now: u64) -> RecvState {
        RecvState { at: RecvProgress { now, ..self.at }, ..self }
    }

    pub open spec fn in_phase(self, phase: RecvPhase) -> RecvState {
        RecvState { at: RecvProgress { phase, ..self.at }, ..self }
    }

    /// With chunk `seq` in place.
    pub open spec fn stored(self, seq: u32, chunk: Seq<u8>) -> RecvState {
        RecvState {
            got: self.got.insert(seq),
            blob: overwritten(self.blob, seq * self.chunk_size(), chunk),
            at: RecvProgress {
                phase: RecvPhase::Status,
                seen_data: true,
                unacked: true,
                last_new: self.at.now,
                ..self.at
            },
            ..self
        }
    }

    /// What a DATA frame leads to. One from an earlier window has its window
    /// acknowledged again, once in a row; one that is already here, or beyond
    /// the window, may end the burst; a new one is stored if its length is
    /// right.
    pub open spec fn data(self, seq: u32, chunk: Seq<u8>) -> RecvState {
        let s = RecvState { at: RecvProgress { idle_polls: 0, ..self.at }, ..self };
        if seq < s.at.base {
            let old_base = (seq / WINDOW * WINDOW) as u32;
            if s.got.contains(seq) && s.at.last_old_window != Some(old_base) {
                s.in_phase(RecvPhase::AckOld(old_base))
            } else {
                s
            }
        } else if seq >= s.end() || s.got.contains(seq) {
            if s.burst_over() {
                s.in_phase(RecvPhase::AckBurst)
            } else {
                s
            }
        } else if chunk.len() != window::chunk_end(s.blob.len(), s.chunk_size(), seq as nat) - seq
            * s.chunk_size() {
            s.in_phase(RecvPhase::Over(RecvEnd::Refused))
        } else {
            s.stored(seq, chunk)
        }
    }

    /// What a poll that brought nothing of use leads to.
    pub open spec fn idled(self) -> RecvState {
        if self.burst_over() {
            self.in_phase(RecvPhase::AckBurst)
        } else if !self.at.seen_data {
            if clock::time_since(self.at.started, self.at.now) >= first_data_wait(self.cfg) {
                self.in_phase(RecvPhase::Over(RecvEnd::Stalled))
            } else {
                self
            }
        } else if self.at.unacked {
            self
        } else {
            let idle_polls = (self.at.idle_polls + 1) as u32;
            let s = RecvState { at: RecvProgress { idle_polls, ..self.at }, ..self };
            if idle_polls >= STALL_LIMIT {
                s.in_phase(RecvPhase::Over(RecvEnd::Stalled))
            } else {
                s
            }
        }
    }

    /// What a poll leads to.
    pub open spec fn heard(self, polled: Option<PayloadView>) -> RecvState {
        match polled {
            Some(PayloadView::Data { seq, chunk }) => self.data(seq, chunk),
            Some(PayloadView::Fail { reason }) => if reason == FAIL_HASH {
                self.in_phase(RecvPhase::Over(RecvEnd::Mismatch))
            } else {
                self.in_phase(RecvPhase::Over(RecvEnd::Refused))
            },
            Some(PayloadView::Fin { .. }) if self.got.len() == self.session.chunk_count => if
            digest::sha256_of(self.blob) == self.session.sha256 {
                self.in_phase(RecvPhase::Over(RecvEnd::Received))
            } else {
                self.in_phase(RecvPhase::Reject)
            },
            _ => self.idled(),
        }
    }

    /// How the transfer ended, once it is over.
    pub open spec fn verdict(self) -> std::result::Result<Seq<u8>, ErrorView> {
        match self.at.phase {
            RecvPhase::Over(RecvEnd::Received) => Ok(self.blob),
            RecvPhase::Over(RecvEnd::Mismatch) => Err(ErrorView::HashMismatch),
            RecvPhase::Over(RecvEnd::Stalled) => Err(ErrorView::Stalled(self.missing())),
            _ => Err(ErrorView::HandshakeFailed),
        }
    }

    /// What holds in every state the receiver gets into.
    pub open spec fn inv(self) -> bool {
        let p = self.at;
        &&& transport::describes(self.session, self.blob.len())
        &&& self.blob.len() == self.session.compressed_size
        &&& p.base <= self.session.chunk_count
        &&& self.got.finite()
        &&& forall|s: u32| #[trigger] self.got.contains(s) ==> s < self.end()
        &&& forall|s: u32| s < p.base ==> #[trigger] self.got.contains(s)
        &&& p.idle_polls <= STALL_LIMIT
        &&& p.idle_polls == STALL_LIMIT ==> p.phase is Over
        &&& p.phase is AckWindow ==> forall|s: u32| s < self.end() ==> #[trigger] self.got.contains(
            s,
        )
        &&& p.phase matches RecvPhase::AckOld(old_base) ==> old_base <= self.session.chunk_count
        &&& p.phase == RecvPhase::Over(RecvEnd::Received) ==> self.got.len()
            == self.session.chunk_count && digest::sha256_of(self.blob) == self.session.sha256
    }
}

impl Protocol for RecvState {
    open spec fn pending(self) -> Option<Call> {
        match self.at.phase {
            RecvPhase::Poll => Some(Call::Poll(clock::nanos_duration(self.poll_for()))),
            RecvPhase::Status => Some(Call::SetStatus(self.progress())),
            RecvPhase::AckOld(old_base) => Some(Call::Show(self.ack(old_base))),
            RecvPhase::AckBurst => Some(Call::Show(self.ack(self.at.base))),
            RecvPhase::AckWindow => Some(Call::Show(self.ack(self.at.base))),
            RecvPhase::Reject => Some(Call::Show(PayloadView::Fail { reason: FAIL_HASH })),
            RecvPhase::Over(_) => None,
        }
    }

    open spec fn next(self, now: u64, answer: Answer) -> Self {
        let s = self.at_time(now);
        match self.at.phase {
            RecvPhase::Poll => match answer {
                Answer::Polled(polled) => s.heard(polled),
                _ => s,
            },
            RecvPhase::Status => if s.missing().len() == 0 {
                s.in_phase(RecvPhase::AckWindow)
            } else {
                s.in_phase(RecvPhase::Poll)
            },
            RecvPhase::AckOld(old_base) => RecvState {
                at: RecvProgress {
                    phase: RecvPhase::Poll,
                    last_old_window: Some(old_base),
                    ..s.at
                },
                ..s
            },
            RecvPhase::AckBurst => RecvState {
                at: RecvProgress { phase: RecvPhase::Poll, unacked: false, ..s.at },
                ..s
            },
            RecvPhase::AckWindow => RecvState {
                at: RecvProgress {
                    phase: RecvPhase::Poll,
                    unacked: false,
                    base: s.end(),
                    ..s.at
                },
                ..s
            },
            RecvPhase::Reject => s.in_phase(RecvPhase::Over(RecvEnd::Mismatch)),
            RecvPhase::Over(_) => s,
        }
    }
}

/// The state in which a transfer starts at `now`.
pub open spec fn recv_start(session: SessionView, cfg: TransportConfig, now: u64) -> RecvState {
    RecvState {
        session,
        cfg,
        got: Set::empty(),
        blob: Seq::new(session.compressed_size as nat, |i: int| 0u8),
        at: RecvProgress {
            phase: RecvPhase::Poll,
            base: 0,
            idle_polls: 0,
            last_new: now,
            unacked: false,
            seen_data: false,
            last_old_window: None,
            started: now,
            now,
        },
    }
}

fn overwrite(blob: &mut Vec<u8>, start: usize, chunk: &Vec<u8>)
    requires
        start + chunk@.len() <= old(blob)@.len(),
    ensures
        final(blob)@ == overwritten(old(blob)@, start as int, chunk@),
{
    let ghost before: Seq<u8> = blob@;
    let size: usize = blob.len();
    let mut i: usize = 0;
    while i < chunk.len()
        invariant
            i <= chunk@.len(),
            start + chunk@.len() <= blob@.len(),
            blob@.len() == before.len() == size,
            forall|k: int|
                0 <= k < blob@.len() ==> #[trigger] blob@[k] == (if start <= k < start + i {
                    chunk@[k - start]
                } else {
                    before[k]
                }),
        decreases chunk@.len() - i,
    {
        blob.set(start + i, chunk[i]);
        i = i + 1;
    }
    assert(blob@ =~= overwritten(before, start as int, chunk@));
}

/// The receiving half of a transfer, ready to be run.
pub struct BlobReceiver<'a> {
    session: &'a Session,
    cfg: TransportConfig,
    chunk_size: usize,
    got: HashSet<u32>,
    blob: Vec<u8>,
    at: RecvProgress,
}

impl<'a> BlobReceiver<'a> {
    /// A receiver for what `session` describes, unless its sizes contradict
    /// each other or do not fit this machine.
    pub fn new(session: &'a Session, cfg: TransportConfig, now: u64) -> (receiver: Option<
        BlobReceiver<'a>,
    >)
        ensures
            match receiver {
                Some(r) => receivable(session@) && r.valid() && r.state() == recv_start(
                    session@,
                    cfg,
                    now,
                ),
                None => !receivable(session@),
            },
    {
        let chunk_size: usize = frame::data_chunk_size(session.qr_version);
        if session.compressed_size > usize::MAX as u64 {
            return None;
        }
        let size: usize = session.compressed_size as usize;
        match window::expected_chunk_count(size, chunk_size) {
            None => None,
            Some(count) => {
                if count != session.chunk_count {
                    return None;
                }
                let blob: Vec<u8> = vec![0u8; size];
                let at = RecvProgress {
                    phase: RecvPhase::Poll,
                    base: 0,
                    idle_polls: 0,
                    last_new: now,
                    unacked: false,
                    seen_data: false,
                    last_old_window: None,
                    started: now,
                    now,
                };
                let receiver = BlobReceiver {
                    session,
                    cfg,
                    chunk_size,
                    got: HashSet::new(),
                    blob,
                    at,
                };
                assert(receiver.blob@ =~= recv_start(session@, cfg, now).blob);
                Some(receiver)
            },
        }
    }
}

/// Whether the sizes in `session` agree and fit this machine.
pub open spec fn receivable(session: SessionView) -> bool {
    session.compressed_size <= usize::MAX && transport::describes(
        session,
        session.compressed_size as nat,
    )
}

impl<'a> Machine for BlobReceiver<'a> {
    type State = RecvState;

    closed spec fn state(&self) -> RecvState {
        RecvState {
            session: self.session@,
            cfg: self.cfg,
            got: self.got@,
            blob: self.blob@,
            at: self.at,
        }
    }

    closed spec fn valid(&self) -> bool {
        &&& self.state().inv()
        &&& self.chunk_size == self.state().chunk_size()
    }

    fn action(&self) -> (action: Option<Action>) {
        match self.at.phase {
            RecvPhase::Poll => Some(Action::Poll(self.poll_for())),
            RecvPhase::Status => Some(Action::SetStatus(self.progress())),
            RecvPhase::AckOld(old_base) => Some(Action::Show(self.ack(old_base))),
            RecvPhase::AckBurst => Some(Action::Show(self.ack(self.at.base))),
            RecvPhase::AckWindow => Some(Action::Show(self.ack(self.at.base))),
            RecvPhase::Reject => Some(Action::Show(Payload::Fail { reason: FAIL_HASH })),
            RecvPhase::Over(_) => None,
        }
    }

    fn step(&mut self, now: u64, reply: Reply) {
        self.at.now = now;
        match self.at.phase {
            RecvPhase::Poll => match reply {
                Reply::Polled(polled) => self.hear(polled),
                _ => {},
            },
            RecvPhase::Status => {
                if self.missing().len() == 0 {
                    proof {
                        nothing_missing(self.state());
                    }
                    self.at.phase = RecvPhase::AckWindow;
                } else {
                    self.at.phase = RecvPhase::Poll;
                }
            },
            RecvPhase::AckOld(old_base) => {
                self.at.last_old_window = Some(old_base);
                self.at.phase = RecvPhase::Poll;
            },
            RecvPhase::AckBurst => {
                self.at.unacked = false;
                self.at.phase = RecvPhase::Poll;
            },
            RecvPhase::AckWindow => {
                self.at.unacked = false;
                self.at.base = self.end();
                self.at.phase = RecvPhase::Poll;
            },
            RecvPhase::Reject => {
                self.at.phase = RecvPhase::Over(RecvEnd::Mismatch);
            },
            RecvPhase::Over(_) => {},
        }
    }
}

/// A window in which no bit is missing has arrived in full.
pub proof fn nothing_missing(s: RecvState)
    requires
        s.inv(),
        s.missing().len() == 0,
    ensures
        forall|seq: u32| seq < s.end() ==> #[trigger] s.got.contains(seq),
{
    assert forall|seq: u32| seq < s.end() implies #[trigger] s.got.contains(seq) by {
        if seq >= s.at.base && !s.got.contains(seq) {
            window::law_ack_tells_what_is_missing(s.got, s.at.base, s.end(), seq);
        }
    }
}

impl<'a> BlobReceiver<'a> {
    /// The transfer's result, once it is over.
    pub fn result(self) -> (result: Result<Vec<u8>>)
        requires
            self.valid(),
        ensures
            blob_outcome(result) == self.state().verdict(),
    {
        match self.at.phase {
            RecvPhase::Over(RecvEnd::Received) => Ok(self.blob),
            RecvPhase::Over(RecvEnd::Mismatch) => Err(Error::HashMismatch),
            RecvPhase::Over(RecvEnd::Stalled) => Err(Error::Stalled(self.missing())),
            _ => Err(Error::HandshakeFailed),
        }
    }

    fn end(&self) -> (end: u32)
        ensures
            end == self.state().end(),
    {
        window::window_end(self.at.base, self.session.chunk_count)
    }

    fn missing(&self) -> (missing: Vec<u32>)
        requires
            self.at.base <= self.session.chunk_count,
        ensures
            missing@ == self.state().missing(),
    {
        let end: u32 = self.end();
        let bitmap: u32 = window::window_bitmap(&self.got, self.at.base, end);
        window::missing_seqs(self.at.base, end, bitmap)
    }

    fn ack(&self, base: u32) -> (payload: Payload)
        requires
            base <= self.session.chunk_count,
        ensures
            payload@ == self.state().ack(base),
    {
        let end: u32 = window::window_end(base, self.session.chunk_count);
        Payload::Ack { window_base: base, bitmap: window::window_bitmap(&self.got, base, end) }
    }

    fn progress(&self) -> (progress: Progress)
        requires
            self.at.base <= self.session.chunk_count,
        ensures
            progress == self.state().progress(),
    {
        Progress {
            base: self.at.base,
            end: self.end(),
            chunk_count: self.session.chunk_count,
            holes: self.missing().len(),
            elapsed: clock::since(self.at.started, self.at.now),
        }
    }

    fn poll_for(&self) -> (nanos: u64)
        ensures
            nanos == self.state().poll_for(),
    {
        if self.at.seen_data && self.at.unacked && !self.cfg.fast {
            let left: u64 = burst_quiet(self.cfg, self.session.dwell_ms).saturating_sub(
                clock::since(self.at.last_new, self.at.now),
            );
            if left < 5 * clock::MILLISECOND {
                5 * clock::MILLISECOND
            } else {
                left
            }
        } else {
            transport::ack_timeout(self.cfg)
        }
    }

    fn burst_over(&self) -> (over: bool)
        ensures
            over == self.state().burst_over(),
    {
        self.at.unacked && clock::since(self.at.last_new, self.at.now) >= burst_quiet(
            self.cfg,
            self.session.dwell_ms,
        )
    }

    fn take_data(&mut self, seq: u32, chunk: Vec<u8>)
        requires
            old(self).valid(),
            old(self).at.phase is Poll,
        ensures
            final(self).valid(),
            final(self).state() == old(self).state().data(seq, chunk@),
    {
        broadcast use vstd::std_specs::hash::group_hash_axioms;

        self.at.idle_polls = 0;
        if seq < self.at.base {
            let old_base: u32 = seq / WINDOW * WINDOW;
            let acked_last: bool = match self.at.last_old_window {
                Some(window_base) => window_base == old_base,
                None => false,
            };
            if self.got.contains(&seq) && !acked_last {
                self.at.phase = RecvPhase::AckOld(old_base);
            }
            return;
        }
        if seq >= self.end() || self.got.contains(&seq) {
            if self.burst_over() {
                self.at.phase = RecvPhase::AckBurst;
            }
            return;
        }
        proof {
            window::chunk_bounds(self.blob@.len(), self.chunk_size as nat, seq as nat);
        }
        let size: usize = self.blob.len();
        let start: usize = seq as usize * self.chunk_size;
        let left: usize = size - start;
        let expected: usize = if left < self.chunk_size {
            left
        } else {
            self.chunk_size
        };
        if chunk.len() != expected {
            self.at.phase = RecvPhase::Over(RecvEnd::Refused);
            return;
        }
        self.got.insert(seq);
        overwrite(&mut self.blob, start, &chunk);
        self.at.phase = RecvPhase::Status;
        self.at.seen_data = true;
        self.at.unacked = true;
        self.at.last_new = self.at.now;
    }

    fn idle(&mut self)
        requires
            old(self).valid(),
            old(self).at.phase is Poll,
        ensures
            final(self).valid(),
            final(self).state() == old(self).state().idled(),
    {
        if self.burst_over() {
            self.at.phase = RecvPhase::AckBurst;
        } else if !self.at.seen_data {
            if clock::since(self.at.started, self.at.now) >= first_data_budget(self.cfg) {
                self.at.phase = RecvPhase::Over(RecvEnd::Stalled);
            }
        } else if !self.at.unacked {
            self.at.idle_polls = self.at.idle_polls + 1;
            if self.at.idle_polls >= STALL_LIMIT {
                self.at.phase = RecvPhase::Over(RecvEnd::Stalled);
            }
        }
    }

    fn finish(&mut self)
        requires
            old(self).valid(),
            old(self).at.phase is Poll,
            old(self).got@.len() == old(self).session.chunk_count,
        ensures
            final(self).valid(),
            final(self).state() == old(self).state().in_phase(
                if digest::sha256_of(old(self).state().blob) == old(self).state().session.sha256 {
                    RecvPhase::Over(RecvEnd::Received)
                } else {
                    RecvPhase::Reject
                },
            ),
    {
        let digest: [u8; 32] = digest::sha256(self.blob.as_slice());
        if frame::same_bytes(digest.as_slice(), self.session.sha256.as_slice()) {
            self.at.phase = RecvPhase::Over(RecvEnd::Received);
        } else {
            self.at.phase = RecvPhase::Reject;
        }
    }

    fn hear(&mut self, polled: Option<Payload>)
        requires
            old(self).valid(),
            old(self).at.phase is Poll,
        ensures
            final(self).valid(),
            final(self).state() == old(self).state().heard(frame::payload_option(polled)),
    {
        broadcast use vstd::std_specs::hash::group_hash_axioms;

        match polled {
            Some(Payload::Data { seq, chunk }) => self.take_data(seq, chunk),
            Some(Payload::Fail { reason }) => {
                if reason == FAIL_HASH {
                    self.at.phase = RecvPhase::Over(RecvEnd::Mismatch);
                } else {
                    self.at.phase = RecvPhase::Over(RecvEnd::Refused);
                }
            },
            Some(Payload::Fin { .. }) => {
                if self.got.len() == self.session.chunk_count as usize {
                    self.finish();
                } else {
                    self.idle();
                }
            },
            _ => self.idle(),
        }
    }
}

/// A received blob as mathematical data.
pub open spec fn blob_outcome(result: Result<Vec<u8>>) -> std::result::Result<Seq<u8>, ErrorView> {
    match result {
        Ok(blob) => Ok(blob@),
        Err(e) => Err(e@),
    }
}

/// Whether a channel whose trace went from `before` to `after` saw a whole
/// transfer that gave `result`: either the session's sizes are wrong and
/// nothing was asked of the channel, or the receiver's protocol ran until it
/// was over or a request failed.
pub open spec fn blob_received(
    session: SessionView,
    cfg: TransportConfig,
    before: Seq<Turn>,
    after: Seq<Turn>,
    result: std::result::Result<Seq<u8>, ErrorView>,
) -> bool {
    if !receivable(session) {
        after == before && result == Err::<Seq<u8>, ErrorView>(ErrorView::HandshakeFailed)
    } else {
        exists|now: u64, end: RecvState, outcome: std::result::Result<(), ErrorView>|
            #[trigger] machine::ran_on(
                recv_start(session, cfg, now),
                before,
                after,
                end,
                outcome,
            ) && result == match outcome {
                Ok(_) => end.verdict(),
                Err(e) => Err(e),
            }
    }
}

/// Receives the blob that `session` describes.
///
/// The sender is not told OK: the caller still has to write the blob durably,
/// and only then may OK be shown, so that the sender never sees OK before the
/// data is safely on disk.
pub fn recv_blob<O: Optical>(opt: &mut O, session: &Session, cfg: TransportConfig) -> (result:
    Result<Vec<u8>>)
    ensures
        blob_received(
            session@,
            cfg,
            old(opt).trace(),
            final(opt).trace(),
            blob_outcome(result),
        ),
{
    let mut clock = Clock::start();
    let now: u64 = clock.now();
    let mut receiver = match BlobReceiver::new(session, cfg, now) {
        Some(receiver) => receiver,
        None => return Err(Error::HandshakeFailed),
    };
    match machine::drive(opt, &mut receiver, &mut clock) {
        Ok(_) => receiver.result(),
        Err(e) => Err(e),
    }
}

} // verus!
