//! The sender's half of the handshake: wait for HELLO, offer probes, take the
//! receiver's pick, offer the file, wait for its ACK.
use crate::clock;
use crate::clock::Clock;
use crate::error::{Error, ErrorView, Result};
use crate::frame;
use crate::frame::{Payload, PayloadView};
use crate::link;
use crate::link::{LinkConfig, LinkEnd, Session, SessionView, PROBES};
use crate::machine;
use crate::machine::{Action, Machine, Protocol, Reply};
use crate::optical::{Answer, Call, Optical, Turn};
use crate::text;
use crate::window;
use vstd::prelude::*;

verus! {

/// What the sender waits on.
#[derive(Clone, Copy, Debug, PartialEq, Eq, Structural)]
pub enum OfferPhase {
    /// HELLO, until this instant.
    AwaitHello(u64),
    LogHello,
    /// Showing this probe of the table.
    Probe(usize),
    /// Holding this probe on screen.
    HoldProbe(usize),
    /// LINK, until this instant.
    AwaitLink(u64),
    LockVersion,
    LogLinked,
    ShowGo,
    /// The ACK of GO, until this instant.
    AwaitAccept(u64),
    LogAccepted,
    Over(LinkEnd),
}

/// How far the sender has come.
#[derive(Clone, Copy, Debug, PartialEq, Eq, Structural)]
pub struct OfferProgress {
    pub phase: OfferPhase,
    /// The version that LINK named.
    pub qr_version: u8,
    /// The dwell that LINK named, raised to the floor.
    pub dwell_ms: u16,
    /// The latest clock reading.
    pub now: u64,
}

/// The sender's state.
#[verifier::ext_equal]
pub struct OfferState {
    pub basename: Seq<char>,
    pub uncompressed_hint: u64,
    pub compressed_size: u64,
    pub sha256: Seq<u8>,
    pub cfg: LinkConfig,
    pub at: OfferProgress,
}

/// The chunk count that GO carries for `len` bytes: at least one.
pub open spec fn offer_count(len: u64, size: nat) -> u32 {
    let total = window::chunk_total(len as nat, size);
    if total == 0 {
        1
    } else {
        total as u32
    }
}

pub open spec fn linked_line(qr_version: u8, dwell_ms: u16) -> Seq<char> {
    "linked at QR v"@ + text::decimal(qr_version as nat) + ", "@ + text::decimal(dwell_ms as nat)
        + " ms dwell"@
}

impl OfferState {
    /// How many probes of the table this side offers: those its own display
    /// can draw.
    pub open spec fn offered(self) -> nat {
        link::probes_counting(6, self.cfg.max_qr_version, None)
    }

    pub open spec fn probe(self, i: usize) -> PayloadView {
        PayloadView::Probe {
            id: PROBES@[i as int].0,
            qr_version: PROBES@[i as int].1,
            dwell_ms: PROBES@[i as int].2,
            last: i + 1 == self.offered(),
        }
    }

    pub open spec fn chunk_size(self) -> nat {
        frame::chunk_room(self.at.qr_version)
    }

    /// The session that this handshake arrives at.
    pub open spec fn session(self) -> SessionView {
        SessionView {
            qr_version: self.at.qr_version,
            dwell_ms: self.at.dwell_ms,
            basename: self.basename,
            uncompressed_hint: self.uncompressed_hint,
            compressed_size: self.compressed_size,
            chunk_count: offer_count(self.compressed_size, self.chunk_size()),
            sha256: self.sha256,
        }
    }

    pub open spec fn go(self) -> PayloadView {
        PayloadView::Go {
            basename: self.basename,
            uncompressed_hint: self.uncompressed_hint,
            compressed_size: self.compressed_size,
            chunk_count: offer_count(self.compressed_size, self.chunk_size()),
            sha256: self.sha256,
        }
    }

    pub open spec fn at_time(self, now: u64) -> OfferState {
        OfferState { at: OfferProgress { now, ..self.at }, ..self }
    }

    pub open spec fn in_phase(self, phase: OfferPhase) -> OfferState {
        OfferState { at: OfferProgress { phase, ..self.at }, ..self }
    }

    /// After a frame that is not the one waited for: wait on, or give up with
    /// `end` once `deadline` has passed.
    pub open spec fn wait_on(self, deadline: u64, end: LinkEnd) -> OfferState {
        if clock::time_left(deadline, self.at.now) is Some {
            self
        } else {
            self.in_phase(OfferPhase::Over(end))
        }
    }

    /// After probe `i` was shown: the next one, or the wait for LINK.
    pub open spec fn probed(self, i: usize) -> OfferState {
        if i + 1 < self.offered() {
            self.in_phase(OfferPhase::Probe((i + 1) as usize))
        } else {
            self.in_phase(
                OfferPhase::AwaitLink(
                    clock::deadline_after(self.at.now, link::link_wait(self.cfg)),
                ),
            )
        }
    }

    /// After LINK: its dwell is raised to the floor, and a version that this
    /// display cannot draw is refused.
    pub open spec fn picked(self, qr_version: u8, dwell_ms: u16) -> OfferState {
        if qr_version > self.cfg.max_qr_version {
            self.in_phase(OfferPhase::Over(LinkEnd::NoProbe))
        } else {
            OfferState {
                at: OfferProgress {
                    phase: OfferPhase::LockVersion,
                    qr_version,
                    dwell_ms: if dwell_ms < self.cfg.dwell_floor_ms {
                        self.cfg.dwell_floor_ms
                    } else {
                        dwell_ms
                    },
                    ..self.at
                },
                ..self
            }
        }
    }

    /// How the handshake ended, once it is over.
    pub open spec fn verdict(self) -> std::result::Result<SessionView, ErrorView> {
        match self.at.phase {
            OfferPhase::Over(LinkEnd::Linked) => Ok(self.session()),
            OfferPhase::Over(LinkEnd::Timeout) => Err(ErrorView::HandshakeTimeout),
            OfferPhase::Over(LinkEnd::NoProbe) => Err(ErrorView::NoUsableProbe),
            _ => Err(ErrorView::HandshakeFailed),
        }
    }

    /// What holds in every state the sender gets into.
    pub open spec fn inv(self) -> bool {
        match self.at.phase {
            OfferPhase::Probe(i) | OfferPhase::HoldProbe(i) => i < self.offered(),
            OfferPhase::LockVersion | OfferPhase::LogLinked => self.at.qr_version
                <= self.cfg.max_qr_version && self.at.dwell_ms >= self.cfg.dwell_floor_ms,
            OfferPhase::ShowGo
            | OfferPhase::AwaitAccept(_)
            | OfferPhase::LogAccepted
            | OfferPhase::Over(LinkEnd::Linked) => self.at.qr_version <= self.cfg.max_qr_version
                && self.at.dwell_ms >= self.cfg.dwell_floor_ms && self.chunk_size() > 0,
            _ => true,
        }
    }
}

impl Protocol for OfferState {
    open spec fn pending(self) -> Option<Call> {
        match self.at.phase {
            OfferPhase::AwaitHello(deadline)
            | OfferPhase::AwaitLink(deadline)
            | OfferPhase::AwaitAccept(deadline) => Some(
                Call::Poll(clock::nanos_duration(clock::time_since(self.at.now, deadline))),
            ),
            OfferPhase::LogHello => Some(Call::Log("receiver said HELLO"@)),
            OfferPhase::Probe(i) => Some(Call::Show(self.probe(i))),
            OfferPhase::HoldProbe(i) => Some(Call::Hold(PROBES@[i as int].2)),
            OfferPhase::LockVersion => Some(Call::SetVersion(self.at.qr_version)),
            OfferPhase::LogLinked => Some(
                Call::Log(linked_line(self.at.qr_version, self.at.dwell_ms)),
            ),
            OfferPhase::ShowGo => Some(Call::Show(self.go())),
            OfferPhase::LogAccepted => Some(Call::Log("receiver accepted the offer"@)),
            OfferPhase::Over(_) => None,
        }
    }

    open spec fn next(self, now: u64, answer: Answer) -> Self {
        let s = self.at_time(now);
        match self.at.phase {
            OfferPhase::AwaitHello(deadline) => match answer {
                Answer::Polled(None) => s.in_phase(OfferPhase::Over(LinkEnd::Timeout)),
                Answer::Polled(Some(PayloadView::Hello { .. })) => s.in_phase(OfferPhase::LogHello),
                Answer::Polled(Some(_)) => s.wait_on(deadline, LinkEnd::Timeout),
                _ => s,
            },
            OfferPhase::LogHello => if s.offered() == 0 {
                s.in_phase(OfferPhase::Over(LinkEnd::NoProbe))
            } else {
                s.in_phase(OfferPhase::Probe(0))
            },
            OfferPhase::Probe(i) => if s.cfg.fast {
                s.probed(i)
            } else {
                s.in_phase(OfferPhase::HoldProbe(i))
            },
            OfferPhase::HoldProbe(i) => s.probed(i),
            OfferPhase::AwaitLink(deadline) => match answer {
                Answer::Polled(None) => s.in_phase(OfferPhase::Over(LinkEnd::Failed)),
                Answer::Polled(Some(PayloadView::Link { qr_version, dwell_ms, .. })) => s.picked(
                    qr_version,
                    dwell_ms,
                ),
                Answer::Polled(Some(_)) => s.wait_on(deadline, LinkEnd::Failed),
                _ => s,
            },
            OfferPhase::LockVersion => s.in_phase(OfferPhase::LogLinked),
            OfferPhase::LogLinked => if s.chunk_size() == 0 {
                s.in_phase(OfferPhase::Over(LinkEnd::Failed))
            } else {
                s.in_phase(OfferPhase::ShowGo)
            },
            OfferPhase::ShowGo => s.in_phase(
                OfferPhase::AwaitAccept(clock::deadline_after(now, link::go_wait(s.cfg))),
            ),
            OfferPhase::AwaitAccept(deadline) => match answer {
                Answer::Polled(None) => s.in_phase(OfferPhase::Over(LinkEnd::Failed)),
                Answer::Polled(Some(PayloadView::Ack { window_base, .. })) => if window_base == 0 {
                    s.in_phase(OfferPhase::LogAccepted)
                } else {
                    s.wait_on(deadline, LinkEnd::Failed)
                },
                Answer::Polled(Some(_)) => s.wait_on(deadline, LinkEnd::Failed),
                _ => s,
            },
            OfferPhase::LogAccepted => s.in_phase(OfferPhase::Over(LinkEnd::Linked)),
            OfferPhase::Over(_) => s,
        }
    }
}

/// The state in which the sender's handshake starts at `now`.
pub open spec fn offer_start(
    basename: Seq<char>,
    uncompressed_hint: u64,
    compressed_size: u64,
    sha256: Seq<u8>,
    cfg: LinkConfig,
    now: u64,
) -> OfferState {
    OfferState {
        basename,
        uncompressed_hint,
        compressed_size,
        sha256,
        cfg,
        at: OfferProgress {
            phase: OfferPhase::AwaitHello(clock::deadline_after(now, link::hello_wait(cfg))),
            qr_version: 0,
            dwell_ms: 0,
            now,
        },
    }
}

/// The sender's half of a handshake, ready to be run.
pub struct Offer {
    basename: String,
    uncompressed_hint: u64,
    compressed_size: u64,
    sha256: [u8; 32],
    cfg: LinkConfig,
    offered: usize,
    at: OfferProgress,
}

impl Offer {
    pub fn new(
        basename: String,
        uncompressed_hint: u64,
        compressed_size: u64,
        sha256: [u8; 32],
        cfg: LinkConfig,
        now: u64,
    ) -> (offer: Offer)
        ensures
            offer.valid(),
            offer.state() == offer_start(
                basename@,
                uncompressed_hint,
                compressed_size,
                sha256@,
                cfg,
                now,
            ),
    {
        let deadline: u64 = clock::deadline(now, link::hello_timeout(cfg));
        proof {
            link::probes_are_a_prefix(cfg.max_qr_version, None);
        }
        Offer {
            basename,
            uncompressed_hint,
            compressed_size,
            sha256,
            cfg,
            offered: link::eligible_probe_count(cfg, None),
            at: OfferProgress {
                phase: OfferPhase::AwaitHello(deadline),
                qr_version: 0,
                dwell_ms: 0,
                now,
            },
        }
    }

    fn chunk_count(&self) -> (count: u32)
        requires
            self.state().chunk_size() > 0,
        ensures
            count == offer_count(self.compressed_size, self.state().chunk_size()),
    {
        let size: u64 = frame::data_chunk_size(self.at.qr_version) as u64;
        let full: u64 = self.compressed_size / size;
        let total: u64 = if self.compressed_size % size == 0 {
            full
        } else {
            assert(full < u64::MAX) by (nonlinear_arith)
                requires
                    full == self.compressed_size / size,
                    size > 0,
                    self.compressed_size % size != 0,
            ;
            full + 1
        };
        if total == 0 {
            1
        } else {
            total as u32
        }
    }

    /// The handshake's result, once it is over.
    pub fn result(self) -> (result: Result<Session>)
        requires
            self.valid(),
        ensures
            session_outcome(result) == self.state().verdict(),
    {
        match self.at.phase {
            OfferPhase::Over(LinkEnd::Linked) => {
                let chunk_count: u32 = self.chunk_count();
                Ok(
                    Session {
                        qr_version: self.at.qr_version,
                        dwell_ms: self.at.dwell_ms,
                        basename: self.basename,
                        uncompressed_hint: self.uncompressed_hint,
                        compressed_size: self.compressed_size,
                        chunk_count,
                        sha256: self.sha256,
                    },
                )
            },
            OfferPhase::Over(LinkEnd::Timeout) => Err(Error::HandshakeTimeout),
            OfferPhase::Over(LinkEnd::NoProbe) => Err(Error::NoUsableProbe),
            _ => Err(Error::HandshakeFailed),
        }
    }

    fn wait_on(&mut self, deadline: u64, end: LinkEnd)
        requires
            old(self).valid(),
            end != LinkEnd::Linked,
        ensures
            final(self).valid(),
            final(self).state() == old(self).state().wait_on(deadline, end),
    {
        if clock::remaining(deadline, self.at.now).is_none() {
            self.at.phase = OfferPhase::Over(end);
        }
    }

    fn probed(&mut self, i: usize)
        requires
            old(self).valid(),
            i < old(self).offered,
        ensures
            final(self).valid(),
            final(self).state() == old(self).state().probed(i),
    {
        if i + 1 < self.offered {
            self.at.phase = OfferPhase::Probe(i + 1);
        } else {
            self.at.phase = OfferPhase::AwaitLink(
                clock::deadline(self.at.now, link::link_timeout(self.cfg)),
            );
        }
    }

    fn pick(&mut self, qr_version: u8, dwell_ms: u16)
        requires
            old(self).valid(),
        ensures
            final(self).valid(),
            final(self).state() == old(self).state().picked(qr_version, dwell_ms),
    {
        if qr_version > self.cfg.max_qr_version {
            self.at.phase = OfferPhase::Over(LinkEnd::NoProbe);
        } else {
            self.at.phase = OfferPhase::LockVersion;
            self.at.qr_version = qr_version;
            self.at.dwell_ms = if dwell_ms < self.cfg.dwell_floor_ms {
                self.cfg.dwell_floor_ms
            } else {
                dwell_ms
            };
        }
    }
}

fn linked_text(qr_version: u8, dwell_ms: u16) -> (line: String)
    ensures
        line@ == linked_line(qr_version, dwell_ms),
{
    let mut line = String::from_str("linked at QR v");
    text::push_decimal(&mut line, qr_version as u64);
    line.append(", ");
    text::push_decimal(&mut line, dwell_ms as u64);
    line.append(" ms dwell");
    line
}

impl Machine for Offer {
    type State = OfferState;

    closed spec fn state(&self) -> OfferState {
        OfferState {
            basename: self.basename@,
            uncompressed_hint: self.uncompressed_hint,
            compressed_size: self.compressed_size,
            sha256: self.sha256@,
            cfg: self.cfg,
            at: self.at,
        }
    }

    closed spec fn valid(&self) -> bool {
        &&& self.state().inv()
        &&& self.offered == self.state().offered()
        &&& self.offered <= 6
    }

    fn action(&self) -> (action: Option<Action>) {
        match self.at.phase {
            OfferPhase::AwaitHello(deadline) => Some(
                Action::Poll(clock::since(self.at.now, deadline)),
            ),
            OfferPhase::AwaitLink(deadline) => Some(
                Action::Poll(clock::since(self.at.now, deadline)),
            ),
            OfferPhase::AwaitAccept(deadline) => Some(
                Action::Poll(clock::since(self.at.now, deadline)),
            ),
            OfferPhase::LogHello => Some(Action::Log(String::from_str("receiver said HELLO"))),
            OfferPhase::Probe(i) => {
                let (id, qr_version, dwell_ms) = PROBES[i];
                Some(
                    Action::Show(
                        Payload::Probe { id, qr_version, dwell_ms, last: i + 1 == self.offered },
                    ),
                )
            },
            OfferPhase::HoldProbe(i) => Some(Action::Hold(PROBES[i].2)),
            OfferPhase::LockVersion => Some(Action::SetVersion(self.at.qr_version)),
            OfferPhase::LogLinked => Some(
                Action::Log(linked_text(self.at.qr_version, self.at.dwell_ms)),
            ),
            OfferPhase::ShowGo => Some(
                Action::Show(
                    Payload::Go {
                        basename: self.basename.clone(),
                        uncompressed_hint: self.uncompressed_hint,
                        compressed_size: self.compressed_size,
                        chunk_count: self.chunk_count(),
                        sha256: self.sha256,
                    },
                ),
            ),
            OfferPhase::LogAccepted => Some(
                Action::Log(String::from_str("receiver accepted the offer")),
            ),
            OfferPhase::Over(_) => None,
        }
    }

    fn step(&mut self, now: u64, reply: Reply) {
        self.at.now = now;
        match self.at.phase {
            OfferPhase::AwaitHello(deadline) => match reply {
                Reply::Polled(None) => {
                    self.at.phase = OfferPhase::Over(LinkEnd::Timeout);
                },
                Reply::Polled(Some(Payload::Hello { .. })) => {
                    self.at.phase = OfferPhase::LogHello;
                },
                Reply::Polled(Some(_)) => self.wait_on(deadline, LinkEnd::Timeout),
                _ => {},
            },
            OfferPhase::LogHello => {
                if self.offered == 0 {
                    self.at.phase = OfferPhase::Over(LinkEnd::NoProbe);
                } else {
                    self.at.phase = OfferPhase::Probe(0);
                }
            },
            OfferPhase::Probe(i) => {
                if self.cfg.fast {
                    self.probed(i);
                } else {
                    self.at.phase = OfferPhase::HoldProbe(i);
                }
            },
            OfferPhase::HoldProbe(i) => self.probed(i),
            OfferPhase::AwaitLink(deadline) => match reply {
                Reply::Polled(None) => {
                    self.at.phase = OfferPhase::Over(LinkEnd::Failed);
                },
                Reply::Polled(Some(Payload::Link { qr_version, dwell_ms, .. })) => self.pick(
                    qr_version,
                    dwell_ms,
                ),
                Reply::Polled(Some(_)) => self.wait_on(deadline, LinkEnd::Failed),
                _ => {},
            },
            OfferPhase::LockVersion => {
                self.at.phase = OfferPhase::LogLinked;
            },
            OfferPhase::LogLinked => {
                if frame::data_chunk_size(self.at.qr_version) == 0 {
                    self.at.phase = OfferPhase::Over(LinkEnd::Failed);
                } else {
                    self.at.phase = OfferPhase::ShowGo;
                }
            },
            OfferPhase::ShowGo => {
                self.at.phase = OfferPhase::AwaitAccept(
                    clock::deadline(now, link::go_timeout(self.cfg)),
                );
            },
            OfferPhase::AwaitAccept(deadline) => match reply {
                Reply::Polled(None) => {
                    self.at.phase = OfferPhase::Over(LinkEnd::Failed);
                },
                Reply::Polled(Some(Payload::Ack { window_base, .. })) => {
                    if window_base == 0 {
                        self.at.phase = OfferPhase::LogAccepted;
                    } else {
                        self.wait_on(deadline, LinkEnd::Failed);
                    }
                },
                Reply::Polled(Some(_)) => self.wait_on(deadline, LinkEnd::Failed),
                _ => {},
            },
            OfferPhase::LogAccepted => {
                self.at.phase = OfferPhase::Over(LinkEnd::Linked);
            },
            OfferPhase::Over(_) => {},
        }
    }
}

/// A negotiated session as mathematical data.
pub open spec fn session_outcome(result: Result<Session>) -> std::result::Result<
    SessionView,
    ErrorView,
> {
    match result {
        Ok(session) => Ok(session@),
        Err(e) => Err(e@),
    }
}

/// Whether a channel whose trace went from `before` to `after` saw the
/// sender's handshake for a blob of `compressed_size` bytes, with `result`.
pub open spec fn offer_made(
    basename: Seq<char>,
    uncompressed_hint: u64,
    compressed_size: u64,
    sha256: Seq<u8>,
    cfg: LinkConfig,
    before: Seq<Turn>,
    after: Seq<Turn>,
    result: std::result::Result<SessionView, ErrorView>,
) -> bool {
    exists|now: u64, end: OfferState, outcome: std::result::Result<(), ErrorView>|
        #[trigger] machine::ran_on(
            offer_start(basename, uncompressed_hint, compressed_size, sha256, cfg, now),
            before,
            after,
            end,
            outcome,
        ) && result == match outcome {
            Ok(_) => end.verdict(),
            Err(e) => Err(e),
        }
}

/// Finds the receiver, agrees on a QR version, and offers it `blob`.
pub fn run_send_handshake<O: Optical>(
    opt: &mut O,
    basename: String,
    uncompressed_hint: u64,
    blob: &[u8],
    sha256: [u8; 32],
    cfg: LinkConfig,
) -> (result: Result<Session>)
    ensures
        offer_made(
            basename@,
            uncompressed_hint,
            blob@.len() as u64,
            sha256@,
            cfg,
            old(opt).trace(),
            final(opt).trace(),
            session_outcome(result),
        ),
{
    let mut clock = Clock::start();
    let now: u64 = clock.now();
    let mut offer = Offer::new(basename, uncompressed_hint, blob.len() as u64, sha256, cfg, now);
    match machine::drive(opt, &mut offer, &mut clock) {
        Ok(_) => offer.result(),
        Err(e) => Err(e),
    }
}

} // verus!
