//! Moving the blob once the link is up.
//!
//! The sender shows a window of DATA frames, waits for an ACK whose bitmap
//! says which of them arrived, and shows the rest again until the window is
//! complete. The receiver answers each burst with an ACK once it has gone
//! quiet, and checks the digest of the whole blob when FIN arrives.
use crate::clock;
use crate::clock::Clock;
use crate::error::{Error, ErrorView, Result};
use crate::frame;
use crate::frame::{Payload, PayloadView, FAIL_HASH};
use crate::link::{Session, SessionView};
use crate::machine;
use crate::machine::{Action, Machine, Protocol, Reply};
use crate::optical::{Answer, Call, Optical, Progress, Turn};
use crate::text;
use crate::window;
use vstd::prelude::*;

pub use crate::receive::recv_blob;
pub use crate::window::WINDOW;

verus! {

/// How many fruitless rounds end a transfer.
pub const STALL_LIMIT: u32 = 20;

#[derive(Clone, Copy, Debug, PartialEq, Eq, Structural)]
pub struct TransportConfig {
    /// Millisecond timeouts and no dwell, for in-process channels.
    pub fast: bool,
    /// Pauses for an operator confirmation before the first DATA frame. The
    /// chunk loop itself is never gated: a human cannot arbitrate thousands of
    /// frames, and the ACK protocol already paces the window.
    pub gated: bool,
}

impl Default for TransportConfig {
    fn default() -> (cfg: Self)
        ensures
            cfg == (TransportConfig { fast: false, gated: false }),
    {
        TransportConfig { fast: false, gated: false }
    }
}

impl TransportConfig {
    /// Millisecond timeouts, for in-process channels.
    pub fn fast() -> (cfg: Self)
        ensures
            cfg == (TransportConfig { fast: true, gated: false }),
    {
        TransportConfig { fast: true, gated: false }
    }

    /// Interactive settings: one confirmation before the transfer starts.
    pub fn gated() -> (cfg: Self)
        ensures
            cfg == (TransportConfig { fast: false, gated: true }),
    {
        TransportConfig { fast: false, gated: true }
    }
}

/// How long the sender waits for an ACK, in nanoseconds.
pub open spec fn ack_wait(cfg: TransportConfig) -> u64 {
    if cfg.fast {
        50_000_000
    } else {
        5_000_000_000
    }
}

pub fn ack_timeout(cfg: TransportConfig) -> (nanos: u64)
    ensures
        nanos == ack_wait(cfg),
{
    if cfg.fast {
        50 * clock::MILLISECOND
    } else {
        // Must outlast the receiver's post-burst quiet wait (1.5x dwell, up to
        // about 1.8 s) plus the time to encode and paint the ACK code.
        5 * clock::SECOND
    }
}

/// How long the sender waits for the verdict on FIN, in nanoseconds.
pub open spec fn fin_wait(cfg: TransportConfig) -> u64 {
    if cfg.fast {
        50_000_000
    } else {
        15_000_000_000
    }
}

pub fn fin_timeout(cfg: TransportConfig) -> (nanos: u64)
    ensures
        nanos == fin_wait(cfg),
{
    if cfg.fast {
        50 * clock::MILLISECOND
    } else {
        15 * clock::SECOND
    }
}

/// How a transfer ended for the sender.
#[derive(Clone, Copy, Debug, PartialEq, Eq, Structural)]
pub enum SendEnd {
    Sent,
    Aborted,
    Mismatch,
    Refused,
    Stalled,
}

/// What the sender waits on.
#[derive(Clone, Copy, Debug, PartialEq, Eq, Structural)]
pub enum SendPhase {
    /// The operator's go-ahead.
    Gate,
    /// The status line of a fresh window.
    Opening,
    /// Showing this chunk.
    Show(u32),
    /// Holding this chunk on screen.
    Hold(u32),
    /// An ACK, until this instant.
    AwaitAck(u64),
    /// The status line of a window with holes.
    Report,
    /// The status line of a complete transfer.
    FinStatus,
    FinShow,
    /// The receiver's verdict, until this instant.
    AwaitEnd(u64),
    Over(SendEnd),
}

/// How far the sender has come.
#[derive(Clone, Copy, Debug, PartialEq, Eq, Structural)]
pub struct SendProgress {
    pub phase: SendPhase,
    /// First chunk of the current window.
    pub base: u32,
    /// The chunks of the window that some ACK has covered.
    pub bitmap: u32,
    /// `bitmap` as it was before the latest ACK.
    pub previous: u32,
    /// Fruitless rounds in a row.
    pub stalls: u32,
    /// When the transfer started.
    pub started: u64,
    /// The latest clock reading.
    pub now: u64,
}

/// The sender's state: what it sends, under which settings, and how far it is.
#[verifier::ext_equal]
pub struct SendState {
    pub blob: Seq<u8>,
    pub session: SessionView,
    pub cfg: TransportConfig,
    pub at: SendProgress,
}

/// The line in which the sender asks for the operator's go-ahead.
pub open spec fn gate_prompt(basename: Seq<char>, chunk_count: u32) -> Seq<char> {
    "Ready to send "@ + basename + " in "@ + text::decimal(chunk_count as nat)
        + " chunks. Enter to start the transfer"@
}

impl SendState {
    pub open spec fn chunk_size(self) -> nat {
        frame::chunk_room(self.session.qr_version)
    }

    /// One past the last chunk of the current window.
    pub open spec fn end(self) -> u32 {
        window::window_end_of(self.at.base, self.session.chunk_count)
    }

    /// The chunks of the current window that no ACK has covered.
    pub open spec fn missing(self) -> Seq<u32> {
        window::unset_seqs(self.at.base, self.end(), self.at.bitmap)
    }

    pub open spec fn data(self, seq: u32) -> PayloadView {
        PayloadView::Data { seq, chunk: window::chunk_at(self.blob, self.chunk_size(), seq as nat) }
    }

    pub open spec fn progress(self, base: u32, end: u32, holes: nat) -> Progress {
        Progress {
            base,
            end,
            chunk_count: self.session.chunk_count,
            holes: holes as usize,
            elapsed: clock::time_since(self.at.started, self.at.now),
        }
    }

    pub open spec fn at_time(self, now: u64) -> SendState {
        SendState { at: SendProgress { now, ..self.at }, ..self }
    }

    pub open spec fn in_phase(self, phase: SendPhase) -> SendState {
        SendState { at: SendProgress { phase, ..self.at }, ..self }
    }

    /// At the start of the window that begins at `base`, or at FIN if there
    /// is none.
    pub open spec fn opened(self, base: u32) -> SendState {
        if base < self.session.chunk_count {
            SendState {
                at: SendProgress {
                    phase: SendPhase::Opening,
                    base,
                    bitmap: 0,
                    previous: 0,
                    stalls: 0,
                    ..self.at
                },
                ..self
            }
        } else {
            SendState { at: SendProgress { phase: SendPhase::FinStatus, base, ..self.at }, ..self }
        }
    }

    /// After chunk `seq` was shown: on to the next unacknowledged chunk, or to
    /// waiting for an ACK.
    pub open spec fn shown(self, seq: u32) -> SendState {
        match window::next_unset(self.at.base, self.end(), self.at.bitmap, (seq + 1) as u32) {
            Some(next) => self.in_phase(SendPhase::Show(next)),
            None => self.in_phase(
                SendPhase::AwaitAck(clock::deadline_after(self.at.now, ack_wait(self.cfg))),
            ),
        }
    }

    /// After the wait for an ACK: a complete window is left behind; a round
    /// that brought nothing new counts as a stall; the holes are shown again.
    pub open spec fn judged(self, received_ack: bool) -> SendState {
        if self.missing().len() == 0 {
            self.opened(self.end())
        } else {
            let fruitless = !received_ack || self.at.bitmap == self.at.previous;
            let stalls = if fruitless {
                (self.at.stalls + 1) as u32
            } else {
                0
            };
            let phase = if stalls == STALL_LIMIT {
                SendPhase::Over(SendEnd::Stalled)
            } else {
                SendPhase::Report
            };
            SendState {
                at: SendProgress { phase, stalls, previous: self.at.bitmap, ..self.at },
                ..self
            }
        }
    }

    /// What a poll for an ACK leads to.
    pub open spec fn heard(self, deadline: u64, polled: Option<PayloadView>) -> SendState {
        match polled {
            None => self.judged(false),
            Some(PayloadView::Ack { window_base, bitmap }) if window_base == self.at.base =>
                SendState {
                at: SendProgress { bitmap: self.at.bitmap | bitmap, ..self.at },
                ..self
            }.judged(true),
            Some(_) => if clock::time_left(deadline, self.at.now) is Some {
                self
            } else {
                self.judged(false)
            },
        }
    }

    /// What a poll for the verdict leads to.
    pub open spec fn concluded(self, deadline: u64, polled: Option<PayloadView>) -> SendState {
        match polled {
            None => self.in_phase(SendPhase::Over(SendEnd::Refused)),
            Some(PayloadView::Okay) => self.in_phase(SendPhase::Over(SendEnd::Sent)),
            Some(PayloadView::Fail { reason }) => if reason == FAIL_HASH {
                self.in_phase(SendPhase::Over(SendEnd::Mismatch))
            } else {
                self.in_phase(SendPhase::Over(SendEnd::Refused))
            },
            Some(_) => if clock::time_left(deadline, self.at.now) is Some {
                self
            } else {
                self.in_phase(SendPhase::Over(SendEnd::Refused))
            },
        }
    }

    /// How the transfer ended, once it is over.
    pub open spec fn verdict(self) -> std::result::Result<(), ErrorView> {
        match self.at.phase {
            SendPhase::Over(SendEnd::Sent) => Ok(()),
            SendPhase::Over(SendEnd::Aborted) => Err(ErrorView::Aborted),
            SendPhase::Over(SendEnd::Mismatch) => Err(ErrorView::HashMismatch),
            SendPhase::Over(SendEnd::Stalled) => Err(ErrorView::Stalled(self.missing())),
            _ => Err(ErrorView::HandshakeFailed),
        }
    }

    /// The session describes the blob.
    pub open spec fn matched(self) -> bool {
        &&& self.chunk_size() > 0
        &&& self.session.chunk_count == window::chunk_total(self.blob.len(), self.chunk_size())
    }

    /// What holds in every state the sender gets into.
    pub open spec fn inv(self) -> bool {
        let p = self.at;
        &&& self.matched()
        &&& p.base <= self.session.chunk_count
        &&& p.stalls <= STALL_LIMIT
        &&& p.stalls == STALL_LIMIT ==> p.phase is Over
        &&& match p.phase {
            SendPhase::Gate => p.base == 0,
            SendPhase::Opening => p.base < self.session.chunk_count && p.bitmap == 0,
            SendPhase::Show(seq) | SendPhase::Hold(seq) => p.base <= seq < self.end(),
            SendPhase::AwaitAck(_) => p.base < self.session.chunk_count,
            SendPhase::Report => p.base < self.session.chunk_count && self.missing().len() > 0,
            SendPhase::FinStatus | SendPhase::FinShow | SendPhase::AwaitEnd(_) => p.base
                == self.session.chunk_count,
            SendPhase::Over(SendEnd::Stalled) => p.base < self.session.chunk_count,
            SendPhase::Over(SendEnd::Sent) => p.base == self.session.chunk_count,
            SendPhase::Over(_) => true,
        }
    }
}

impl Protocol for SendState {
    open spec fn pending(self) -> Option<Call> {
        match self.at.phase {
            SendPhase::Gate => Some(
                Call::Gate(gate_prompt(self.session.basename, self.session.chunk_count)),
            ),
            SendPhase::Opening => Some(
                Call::SetStatus(self.progress(self.at.base, self.end(), 0)),
            ),
            SendPhase::Show(seq) => Some(Call::Show(self.data(seq))),
            SendPhase::Hold(_) => Some(Call::Hold(self.session.dwell_ms)),
            SendPhase::AwaitAck(deadline) => Some(
                Call::Poll(
                    clock::nanos_duration(clock::time_since(self.at.now, deadline)),
                ),
            ),
            SendPhase::Report => Some(
                Call::SetStatus(self.progress(self.at.base, self.end(), self.missing().len())),
            ),
            SendPhase::FinStatus => {
                let count = self.session.chunk_count;
                Some(Call::SetStatus(self.progress(count, count, 0)))
            },
            SendPhase::FinShow => Some(
                Call::Show(PayloadView::Fin { sha256: self.session.sha256 }),
            ),
            SendPhase::AwaitEnd(deadline) => Some(
                Call::Poll(clock::nanos_duration(clock::time_since(self.at.now, deadline))),
            ),
            SendPhase::Over(_) => None,
        }
    }

    open spec fn next(self, now: u64, answer: Answer) -> Self {
        let s = self.at_time(now);
        match self.at.phase {
            SendPhase::Gate => match answer {
                Answer::Gated(true) => SendState {
                    at: SendProgress { started: now, ..s.at },
                    ..s
                }.opened(0),
                Answer::Gated(false) => s.in_phase(SendPhase::Over(SendEnd::Aborted)),
                _ => s,
            },
            SendPhase::Opening => s.in_phase(SendPhase::Show(s.at.base)),
            SendPhase::Show(seq) => if s.cfg.fast {
                s.shown(seq)
            } else {
                s.in_phase(SendPhase::Hold(seq))
            },
            SendPhase::Hold(seq) => s.shown(seq),
            SendPhase::AwaitAck(deadline) => match answer {
                Answer::Polled(polled) => s.heard(deadline, polled),
                _ => s,
            },
            SendPhase::Report => s.in_phase(
                SendPhase::Show(
                    window::next_unset(s.at.base, s.end(), s.at.bitmap, s.at.base)->0,
                ),
            ),
            SendPhase::FinStatus => s.in_phase(SendPhase::FinShow),
            SendPhase::FinShow => s.in_phase(
                SendPhase::AwaitEnd(clock::deadline_after(now, fin_wait(s.cfg))),
            ),
            SendPhase::AwaitEnd(deadline) => match answer {
                Answer::Polled(polled) => s.concluded(deadline, polled),
                _ => s,
            },
            SendPhase::Over(_) => s,
        }
    }
}

/// The sending half of a transfer, ready to be run.
pub struct BlobSender<'a> {
    blob: &'a [u8],
    session: &'a Session,
    cfg: TransportConfig,
    chunk_size: usize,
    at: SendProgress,
}

fn gate_line(basename: &str, chunk_count: u32) -> (line: String)
    ensures
        line@ == gate_prompt(basename@, chunk_count),
{
    let mut line = String::from_str("Ready to send ");
    line.append(basename);
    line.append(" in ");
    text::push_decimal(&mut line, chunk_count as u64);
    line.append(" chunks. Enter to start the transfer");
    line
}

/// The state in which a transfer starts at `now`.
pub open spec fn send_start(
    blob: Seq<u8>,
    session: SessionView,
    cfg: TransportConfig,
    now: u64,
) -> SendState {
    let s = SendState {
        blob,
        session,
        cfg,
        at: SendProgress {
            phase: SendPhase::Gate,
            base: 0,
            bitmap: 0,
            previous: 0,
            stalls: 0,
            started: now,
            now,
        },
    };
    if cfg.gated {
        s
    } else {
        s.opened(0)
    }
}

/// Whether `session` describes a blob of `len` bytes.
pub open spec fn describes(session: SessionView, len: nat) -> bool {
    let size = frame::chunk_room(session.qr_version);
    size > 0 && session.chunk_count == window::chunk_total(len, size)
}

impl<'a> BlobSender<'a> {
    /// A sender for `blob`, unless `session` does not describe it.
    pub fn new(blob: &'a [u8], session: &'a Session, cfg: TransportConfig, now: u64) -> (sender:
        Option<BlobSender<'a>>)
        ensures
            match sender {
                Some(s) => describes(session@, blob@.len()) && s.valid() && s.state() == send_start(
                    blob@,
                    session@,
                    cfg,
                    now,
                ),
                None => !describes(session@, blob@.len()),
            },
    {
        let chunk_size: usize = frame::data_chunk_size(session.qr_version);
        match window::expected_chunk_count(blob.len(), chunk_size) {
            None => None,
            Some(count) => {
                if count != session.chunk_count {
                    return None;
                }
                let at = SendProgress {
                    phase: SendPhase::Gate,
                    base: 0,
                    bitmap: 0,
                    previous: 0,
                    stalls: 0,
                    started: now,
                    now,
                };
                let mut sender = BlobSender { blob, session, cfg, chunk_size, at };
                if !cfg.gated {
                    sender.open(0);
                }
                Some(sender)
            },
        }
    }

    /// The transfer's result, once it is over.
    pub fn result(&self) -> (result: Result<()>)
        requires
            self.valid(),
        ensures
            machine::outcome_of(result) == self.state().verdict(),
    {
        match self.at.phase {
            SendPhase::Over(SendEnd::Sent) => Ok(()),
            SendPhase::Over(SendEnd::Aborted) => Err(Error::Aborted),
            SendPhase::Over(SendEnd::Mismatch) => Err(Error::HashMismatch),
            SendPhase::Over(SendEnd::Stalled) => Err(
                Error::Stalled(window::missing_seqs(self.at.base, self.end(), self.at.bitmap)),
            ),
            _ => Err(Error::HandshakeFailed),
        }
    }

    fn end(&self) -> (end: u32)
        ensures
            end == self.state().end(),
    {
        window::window_end(self.at.base, self.session.chunk_count)
    }

    fn progress(&self, base: u32, end: u32, holes: usize) -> (progress: Progress)
        ensures
            progress == self.state().progress(base, end, holes as nat),
    {
        Progress {
            base,
            end,
            chunk_count: self.session.chunk_count,
            holes,
            elapsed: clock::since(self.at.started, self.at.now),
        }
    }

    fn data(&self, seq: u32) -> (payload: Payload)
        requires
            self.state().matched(),
            self.chunk_size == self.state().chunk_size(),
            seq < self.session.chunk_count,
        ensures
            payload@ == self.state().data(seq),
    {
        proof {
            window::chunk_bounds(self.blob@.len(), self.chunk_size as nat, seq as nat);
        }
        let len: usize = self.blob.len();
        let start: usize = seq as usize * self.chunk_size;
        let left: usize = len - start;
        let end: usize = if self.chunk_size <= left {
            start + self.chunk_size
        } else {
            len
        };
        Payload::Data { seq, chunk: frame::copy_bytes(&self.blob[start..end]) }
    }

    fn open(&mut self, base: u32)
        requires
            base <= old(self).session.chunk_count,
            old(self).state().matched(),
            old(self).chunk_size == old(self).state().chunk_size(),
            old(self).at.stalls < STALL_LIMIT,
        ensures
            final(self).valid(),
            final(self).state() == old(self).state().opened(base),
    {
        self.at.base = base;
        if base < self.session.chunk_count {
            self.at.phase = SendPhase::Opening;
            self.at.bitmap = 0;
            self.at.previous = 0;
            self.at.stalls = 0;
        } else {
            self.at.phase = SendPhase::FinStatus;
        }
    }

    fn shown(&mut self, seq: u32)
        requires
            old(self).valid(),
            old(self).at.phase == SendPhase::Show(seq) || old(self).at.phase == SendPhase::Hold(seq),
        ensures
            final(self).valid(),
            final(self).state() == old(self).state().shown(seq),
    {
        match window::next_missing(self.at.base, self.end(), self.at.bitmap, seq + 1) {
            Some(next) => {
                self.at.phase = SendPhase::Show(next);
            },
            None => {
                self.at.phase = SendPhase::AwaitAck(
                    clock::deadline(self.at.now, ack_timeout(self.cfg)),
                );
            },
        }
    }

    fn judge(&mut self, received_ack: bool)
        requires
            old(self).valid(),
            old(self).at.phase is AwaitAck,
        ensures
            final(self).valid(),
            final(self).state() == old(self).state().judged(received_ack),
    {
        let end: u32 = self.end();
        let missing: Vec<u32> = window::missing_seqs(self.at.base, end, self.at.bitmap);
        if missing.len() == 0 {
            self.open(end);
            return;
        }
        if !received_ack || self.at.bitmap == self.at.previous {
            self.at.stalls = self.at.stalls + 1;
        } else {
            self.at.stalls = 0;
        }
        if self.at.stalls == STALL_LIMIT {
            self.at.phase = SendPhase::Over(SendEnd::Stalled);
        } else {
            self.at.phase = SendPhase::Report;
        }
        self.at.previous = self.at.bitmap;
    }

    fn hear(&mut self, deadline: u64, polled: Option<Payload>)
        requires
            old(self).valid(),
            old(self).at.phase == SendPhase::AwaitAck(deadline),
        ensures
            final(self).valid(),
            final(self).state() == old(self).state().heard(
                deadline,
                frame::payload_option(polled),
            ),
    {
        match polled {
            None => self.judge(false),
            Some(payload) => {
                if let Payload::Ack { window_base, bitmap } = payload {
                    if window_base == self.at.base {
                        self.at.bitmap = self.at.bitmap | bitmap;
                        self.judge(true);
                        return;
                    }
                }
                if clock::remaining(deadline, self.at.now).is_none() {
                    self.judge(false);
                }
            },
        }
    }

    fn conclude(&mut self, deadline: u64, polled: Option<Payload>)
        requires
            old(self).valid(),
            old(self).at.phase == SendPhase::AwaitEnd(deadline),
        ensures
            final(self).valid(),
            final(self).state() == old(self).state().concluded(
                deadline,
                frame::payload_option(polled),
            ),
    {
        match polled {
            None => {
                self.at.phase = SendPhase::Over(SendEnd::Refused);
            },
            Some(Payload::Okay) => {
                self.at.phase = SendPhase::Over(SendEnd::Sent);
            },
            Some(Payload::Fail { reason }) => {
                if reason == FAIL_HASH {
                    self.at.phase = SendPhase::Over(SendEnd::Mismatch);
                } else {
                    self.at.phase = SendPhase::Over(SendEnd::Refused);
                }
            },
            Some(_) => {
                if clock::remaining(deadline, self.at.now).is_none() {
                    self.at.phase = SendPhase::Over(SendEnd::Refused);
                }
            },
        }
    }
}

impl<'a> Machine for BlobSender<'a> {
    type State = SendState;

    closed spec fn state(&self) -> SendState {
        SendState { blob: self.blob@, session: self.session@, cfg: self.cfg, at: self.at }
    }

    closed spec fn valid(&self) -> bool {
        &&& self.state().inv()
        &&& self.chunk_size == self.state().chunk_size()
    }

    fn action(&self) -> (action: Option<Action>) {
        match self.at.phase {
            SendPhase::Gate => Some(
                Action::Gate(gate_line(self.session.basename.as_str(), self.session.chunk_count)),
            ),
            SendPhase::Opening => Some(
                Action::SetStatus(self.progress(self.at.base, self.end(), 0)),
            ),
            SendPhase::Show(seq) => Some(Action::Show(self.data(seq))),
            SendPhase::Hold(_) => Some(Action::Hold(self.session.dwell_ms)),
            SendPhase::AwaitAck(deadline) => Some(
                Action::Poll(clock::since(self.at.now, deadline)),
            ),
            SendPhase::Report => {
                let end: u32 = self.end();
                let missing: Vec<u32> = window::missing_seqs(self.at.base, end, self.at.bitmap);
                Some(Action::SetStatus(self.progress(self.at.base, end, missing.len())))
            },
            SendPhase::FinStatus => {
                let count: u32 = self.session.chunk_count;
                Some(Action::SetStatus(self.progress(count, count, 0)))
            },
            SendPhase::FinShow => Some(
                Action::Show(Payload::Fin { sha256: self.session.sha256 }),
            ),
            SendPhase::AwaitEnd(deadline) => Some(
                Action::Poll(clock::since(self.at.now, deadline)),
            ),
            SendPhase::Over(_) => None,
        }
    }

    fn step(&mut self, now: u64, reply: Reply) {
        self.at.now = now;
        match self.at.phase {
            SendPhase::Gate => match reply {
                Reply::Gated(go) => {
                    if go {
                        self.at.started = now;
                        self.open(0);
                    } else {
                        self.at.phase = SendPhase::Over(SendEnd::Aborted);
                    }
                },
                _ => {},
            },
            SendPhase::Opening => {
                self.at.phase = SendPhase::Show(self.at.base);
            },
            SendPhase::Show(seq) => {
                if self.cfg.fast {
                    self.shown(seq);
                } else {
                    self.at.phase = SendPhase::Hold(seq);
                }
            },
            SendPhase::Hold(seq) => self.shown(seq),
            SendPhase::AwaitAck(deadline) => match reply {
                Reply::Polled(polled) => self.hear(deadline, polled),
                _ => {},
            },
            SendPhase::Report => {
                let end: u32 = self.end();
                proof {
                    window::next_unset_is_first(self.at.base, end, self.at.bitmap, self.at.base);
                }
                if let Some(seq) = window::next_missing(
                    self.at.base,
                    end,
                    self.at.bitmap,
                    self.at.base,
                ) {
                    self.at.phase = SendPhase::Show(seq);
                }
            },
            SendPhase::FinStatus => {
                self.at.phase = SendPhase::FinShow;
            },
            SendPhase::FinShow => {
                self.at.phase = SendPhase::AwaitEnd(clock::deadline(now, fin_timeout(self.cfg)));
            },
            SendPhase::AwaitEnd(deadline) => match reply {
                Reply::Polled(polled) => self.conclude(deadline, polled),
                _ => {},
            },
            SendPhase::Over(_) => {},
        }
    }
}

/// Whether a channel whose trace went from `before` to `after` saw a whole
/// transfer of `blob` that gave `result`: either the session does not describe
/// the blob and nothing was asked of the channel, or the sender's protocol ran
/// until it was over or a request failed.
pub open spec fn blob_sent(
    blob: Seq<u8>,
    session: SessionView,
    cfg: TransportConfig,
    before: Seq<Turn>,
    after: Seq<Turn>,
    result: std::result::Result<(), ErrorView>,
) -> bool {
    if !describes(session, blob.len()) {
        after == before && result == Err::<(), ErrorView>(ErrorView::HandshakeFailed)
    } else {
        exists|now: u64, end: SendState, outcome: std::result::Result<(), ErrorView>|
            #[trigger] machine::ran_on(
                send_start(blob, session, cfg, now),
                before,
                after,
                end,
                outcome,
            ) && result == match outcome {
                Ok(_) => end.verdict(),
                Err(e) => Err(e),
            }
    }
}

/// Sends `blob` over `opt` under the terms of `session`.
pub fn send_blob<O: Optical>(
    opt: &mut O,
    session: &Session,
    blob: &[u8],
    cfg: TransportConfig,
) -> (result: Result<()>)
    ensures
        blob_sent(
            blob@,
            session@,
            cfg,
            old(opt).trace(),
            final(opt).trace(),
            machine::outcome_of(result),
        ),
{
    let mut clock = Clock::start();
    let now: u64 = clock.now();
    let mut sender = match BlobSender::new(blob, session, cfg, now) {
        Some(sender) => sender,
        None => return Err(Error::HandshakeFailed),
    };
    match machine::drive(opt, &mut sender, &mut clock) {
        Ok(_) => sender.result(),
        Err(e) => Err(e),
    }
}

} // verus!
