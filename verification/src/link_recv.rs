//! The receiver's half of the handshake: show HELLO until a probe arrives,
//! collect probes, pick the best readable version, and take or refuse the
//! sender's offer.
use crate::clock;
use crate::clock::Clock;
use crate::error::{Error, ErrorView, Result};
use crate::frame::{Payload, PayloadView, FAIL_ABORTED, ROLE_RECV};
use crate::link;
use crate::link::{LinkConfig, LinkEnd, Session, SessionView};
use crate::link_send;
use crate::machine;
use crate::machine::{Action, Machine, Protocol, Reply};
use crate::optical::{Answer, Call, Optical, Turn};
use crate::pack;
use crate::text;
use std::collections::HashSet;
use vstd::prelude::*;

verus! {

/// A probe as it arrived: id, QR version and dwell.
pub type Seen = (u8, u8, u16);

/// What the receiver waits on.
#[derive(Clone, Copy, Debug, PartialEq, Eq, Structural)]
pub enum AcceptPhase {
    /// Showing HELLO: until when to look for a probe, and how much of that
    /// was left.
    Hello(u64, u64),
    /// A first probe.
    AwaitProbe(u64, u64),
    /// Another probe, until this instant.
    MoreProbes(u64),
    /// The camera's own idea of a dwell.
    Suggest,
    LockVersion,
    LogFound,
    ShowLink,
    /// GO, until this instant.
    AwaitGo(u64),
    /// Whether the destination exists.
    Offered,
    /// Refusing to replace the destination.
    Refuse,
    LogOffer,
    Accept,
    Over(LinkEnd),
}

/// How far the receiver has come.
#[derive(Clone, Copy, Debug, PartialEq, Eq, Structural)]
pub struct AcceptProgress {
    pub phase: AcceptPhase,
    pub qr_version: u8,
    pub dwell_ms: u16,
    pub probe_loss: u8,
    /// The latest clock reading.
    pub now: u64,
}

/// What GO offers.
pub struct Goods {
    pub basename: String,
    pub uncompressed_hint: u64,
    pub compressed_size: u64,
    pub chunk_count: u32,
    pub sha256: [u8; 32],
}

/// [`Goods`] as mathematical data.
#[verifier::ext_equal]
pub struct GoodsView {
    pub basename: Seq<char>,
    pub uncompressed_hint: u64,
    pub compressed_size: u64,
    pub chunk_count: u32,
    pub sha256: Seq<u8>,
}

impl View for Goods {
    type V = GoodsView;

    open spec fn view(&self) -> GoodsView {
        GoodsView {
            basename: self.basename@,
            uncompressed_hint: self.uncompressed_hint,
            compressed_size: self.compressed_size,
            chunk_count: self.chunk_count,
            sha256: self.sha256@,
        }
    }
}

pub open spec fn goods_option(goods: Option<Goods>) -> Option<GoodsView> {
    match goods {
        Some(g) => Some(g@),
        None => None,
    }
}

/// Whether `probe` can be picked by a display that draws up to `max`: its
/// version fits, and its id is one of the table's.
pub open spec fn usable(probe: Seen, max: u8) -> bool {
    probe.1 <= max && probe.0 < 6
}

/// The probes that can be picked, in the order of their arrival.
pub open spec fn usable_probes(probes: Seq<Seen>, max: u8) -> Seq<Seen>
    decreases probes.len(),
{
    if probes.len() == 0 {
        Seq::empty()
    } else {
        let rest = usable_probes(probes.drop_last(), max);
        if usable(probes.last(), max) {
            rest.push(probes.last())
        } else {
            rest
        }
    }
}

/// The probe with the highest version; of several, the one that came last.
pub open spec fn best_probe(probes: Seq<Seen>) -> Option<Seen>
    decreases probes.len(),
{
    if probes.len() == 0 {
        None
    } else {
        match best_probe(probes.drop_last()) {
            Some(best) => if probes.last().1 >= best.1 {
                Some(probes.last())
            } else {
                Some(best)
            },
            None => Some(probes.last()),
        }
    }
}

/// The ids among `probes`.
pub open spec fn probe_ids(probes: Seq<Seen>) -> Set<u8>
    decreases probes.len(),
{
    if probes.len() == 0 {
        Set::empty()
    } else {
        probe_ids(probes.drop_last()).insert(probes.last().0)
    }
}

/// The percentage of `eligible` probes that did not arrive.
pub open spec fn loss_percent(eligible: nat, arrived: nat) -> u8 {
    if arrived < eligible {
        (100 * (eligible - arrived) / eligible as int) as u8
    } else {
        0
    }
}

/// The larger of two dwells.
pub open spec fn longer(a: u16, b: u16) -> u16 {
    if a < b {
        b
    } else {
        a
    }
}

pub open spec fn found_line(qr_version: u8, probe_loss: u8) -> Seq<char> {
    "sender found: best readable QR v"@ + text::decimal(qr_version as nat) + ", "@ + text::decimal(
        probe_loss as nat,
    ) + "% probe loss"@
}

pub open spec fn offer_line(goods: GoodsView) -> Seq<char> {
    "offer: "@ + goods.basename + ", "@ + text::decimal(goods.compressed_size as nat)
        + " B compressed, "@ + text::decimal(goods.chunk_count as nat) + " chunks"@
}

/// The receiver's state.
#[verifier::ext_equal]
pub struct AcceptState {
    pub cfg: LinkConfig,
    /// Every probe that arrived, in order.
    pub probes: Seq<Seen>,
    /// Id of the probe the sender flagged as its last. The sender only offers
    /// probes its own display can draw, so this is how many were on the table.
    pub last_offered: Option<u8>,
    pub goods: Option<GoodsView>,
    pub at: AcceptProgress,
}

impl AcceptState {
    pub open spec fn at_time(self, now: u64) -> AcceptState {
        AcceptState { at: AcceptProgress { now, ..self.at }, ..self }
    }

    pub open spec fn in_phase(self, phase: AcceptPhase) -> AcceptState {
        AcceptState { at: AcceptProgress { phase, ..self.at }, ..self }
    }

    /// After a poll that brought no first probe: HELLO again, or give up.
    pub open spec fn greeted(self, deadline: u64) -> AcceptState {
        match clock::time_left(deadline, self.at.now) {
            Some(left) => self.in_phase(AcceptPhase::Hello(deadline, left)),
            None => self.in_phase(AcceptPhase::Over(LinkEnd::Timeout)),
        }
    }

    /// After a probe: the quiet timer starts again, unless it was the last.
    pub open spec fn probed(self, id: u8, qr_version: u8, dwell_ms: u16, last: bool) -> AcceptState {
        let s = AcceptState {
            probes: self.probes.push((id, qr_version, dwell_ms)),
            last_offered: if last {
                Some(id)
            } else {
                self.last_offered
            },
            ..self
        };
        if last {
            s.chosen()
        } else {
            s.in_phase(
                AcceptPhase::MoreProbes(
                    clock::deadline_after(self.at.now, link::quiet_wait(self.cfg)),
                ),
            )
        }
    }

    /// After the probes: pick the best usable one.
    pub open spec fn chosen(self) -> AcceptState {
        let seen = usable_probes(self.probes, self.cfg.max_qr_version);
        match best_probe(seen) {
            None => self.in_phase(AcceptPhase::Over(LinkEnd::NoProbe)),
            Some((_, qr_version, dwell_ms)) => AcceptState {
                at: AcceptProgress {
                    phase: AcceptPhase::Suggest,
                    qr_version,
                    dwell_ms,
                    probe_loss: loss_percent(
                        link::probes_counting(6, self.cfg.max_qr_version, self.last_offered),
                        probe_ids(seen).len(),
                    ),
                    ..self.at
                },
                ..self
            },
        }
    }

    /// Once it is known whether the destination is taken.
    pub open spec fn decided(self, taken: bool, force: bool) -> AcceptState {
        if taken && !force {
            self.in_phase(AcceptPhase::Refuse)
        } else {
            self.in_phase(AcceptPhase::LogOffer)
        }
    }

    /// The session that this handshake arrives at.
    pub open spec fn session(self) -> SessionView {
        let goods = self.goods->0;
        SessionView {
            qr_version: self.at.qr_version,
            dwell_ms: self.at.dwell_ms,
            basename: goods.basename,
            uncompressed_hint: goods.uncompressed_hint,
            compressed_size: goods.compressed_size,
            chunk_count: goods.chunk_count,
            sha256: goods.sha256,
        }
    }

    /// How the handshake ended, once it is over, for an offer that was to go to
    /// the path `dest`.
    pub open spec fn verdict(self, dest: Seq<char>) -> std::result::Result<
        SessionView,
        ErrorView,
    > {
        match self.at.phase {
            AcceptPhase::Over(LinkEnd::Linked) => Ok(self.session()),
            AcceptPhase::Over(LinkEnd::Timeout) => Err(ErrorView::HandshakeTimeout),
            AcceptPhase::Over(LinkEnd::NoProbe) => Err(ErrorView::NoUsableProbe),
            AcceptPhase::Over(LinkEnd::Exists) => Err(ErrorView::DestExists(dest)),
            _ => Err(ErrorView::HandshakeFailed),
        }
    }

    /// What holds in every state the receiver gets into.
    pub open spec fn inv(self) -> bool {
        match self.at.phase {
            AcceptPhase::Offered
            | AcceptPhase::Refuse
            | AcceptPhase::LogOffer
            | AcceptPhase::Accept
            | AcceptPhase::Over(LinkEnd::Linked)
            | AcceptPhase::Over(LinkEnd::Exists) => self.goods is Some,
            _ => true,
        }
    }
}

impl Protocol for AcceptState {
    open spec fn pending(self) -> Option<Call> {
        match self.at.phase {
            AcceptPhase::Hello(_, _) => Some(
                Call::Show(PayloadView::Hello { protocol_ver: 1, role: ROLE_RECV }),
            ),
            AcceptPhase::AwaitProbe(_, left) => Some(
                Call::Poll(
                    clock::nanos_duration(
                        if left < 50_000_000 {
                            left
                        } else {
                            50_000_000
                        },
                    ),
                ),
            ),
            AcceptPhase::MoreProbes(deadline) | AcceptPhase::AwaitGo(deadline) => Some(
                Call::Poll(clock::nanos_duration(clock::time_since(self.at.now, deadline))),
            ),
            AcceptPhase::Suggest => Some(Call::SuggestDwell),
            AcceptPhase::LockVersion => Some(Call::SetVersion(self.at.qr_version)),
            AcceptPhase::LogFound => Some(
                Call::Log(found_line(self.at.qr_version, self.at.probe_loss)),
            ),
            AcceptPhase::ShowLink => Some(
                Call::Show(
                    PayloadView::Link {
                        qr_version: self.at.qr_version,
                        dwell_ms: self.at.dwell_ms,
                        probe_loss: self.at.probe_loss,
                    },
                ),
            ),
            AcceptPhase::Refuse => Some(Call::Show(PayloadView::Fail { reason: FAIL_ABORTED })),
            AcceptPhase::LogOffer => Some(Call::Log(offer_line(self.goods->0))),
            AcceptPhase::Accept => Some(
                Call::Show(PayloadView::Ack { window_base: 0, bitmap: 0 }),
            ),
            AcceptPhase::Offered | AcceptPhase::Over(_) => None,
        }
    }

    open spec fn next(self, now: u64, answer: Answer) -> Self {
        let s = self.at_time(now);
        match self.at.phase {
            AcceptPhase::Hello(deadline, left) => s.in_phase(
                AcceptPhase::AwaitProbe(deadline, left),
            ),
            AcceptPhase::AwaitProbe(deadline, _) => match answer {
                Answer::Polled(Some(PayloadView::Probe { id, qr_version, dwell_ms, last })) =>
                    s.probed(id, qr_version, dwell_ms, last),
                Answer::Polled(_) => s.greeted(deadline),
                _ => s,
            },
            AcceptPhase::MoreProbes(deadline) => match answer {
                Answer::Polled(Some(PayloadView::Probe { id, qr_version, dwell_ms, last })) =>
                    s.probed(id, qr_version, dwell_ms, last),
                Answer::Polled(Some(_)) => if clock::time_left(deadline, now) is Some {
                    s
                } else {
                    s.chosen()
                },
                Answer::Polled(None) => s.chosen(),
                _ => s,
            },
            AcceptPhase::Suggest => match answer {
                Answer::Dwell(suggested) => AcceptState {
                    at: AcceptProgress {
                        phase: AcceptPhase::LockVersion,
                        dwell_ms: longer(longer(s.at.dwell_ms, s.cfg.dwell_floor_ms), suggested),
                        ..s.at
                    },
                    ..s
                },
                _ => s,
            },
            AcceptPhase::LockVersion => s.in_phase(AcceptPhase::LogFound),
            AcceptPhase::LogFound => s.in_phase(AcceptPhase::ShowLink),
            AcceptPhase::ShowLink => s.in_phase(
                AcceptPhase::AwaitGo(clock::deadline_after(now, link::go_wait(s.cfg))),
            ),
            AcceptPhase::AwaitGo(deadline) => match answer {
                Answer::Polled(None) => s.in_phase(AcceptPhase::Over(LinkEnd::Failed)),
                Answer::Polled(
                    Some(
                        PayloadView::Go {
                            basename,
                            uncompressed_hint,
                            compressed_size,
                            chunk_count,
                            sha256,
                        },
                    ),
                ) => AcceptState {
                    goods: Some(
                        GoodsView {
                            basename,
                            uncompressed_hint,
                            compressed_size,
                            chunk_count,
                            sha256,
                        },
                    ),
                    ..s
                }.in_phase(AcceptPhase::Offered),
                Answer::Polled(Some(_)) => if clock::time_left(deadline, now) is Some {
                    s
                } else {
                    s.in_phase(AcceptPhase::Over(LinkEnd::Failed))
                },
                _ => s,
            },
            AcceptPhase::Refuse => s.in_phase(AcceptPhase::Over(LinkEnd::Exists)),
            AcceptPhase::LogOffer => s.in_phase(AcceptPhase::Accept),
            AcceptPhase::Accept => s.in_phase(AcceptPhase::Over(LinkEnd::Linked)),
            AcceptPhase::Offered | AcceptPhase::Over(_) => s,
        }
    }
}

/// The state in which the receiver's handshake starts at `now`.
pub open spec fn accept_start(cfg: LinkConfig, now: u64) -> AcceptState {
    let deadline = clock::deadline_after(now, link::hello_wait(cfg));
    AcceptState {
        cfg,
        probes: Seq::empty(),
        last_offered: None,
        goods: None,
        at: AcceptProgress {
            phase: AcceptPhase::Hello(deadline, (deadline - now) as u64),
            qr_version: 0,
            dwell_ms: 0,
            probe_loss: 0,
            now,
        },
    }
}

/// The receiver's half of a handshake, ready to be run.
pub struct Acceptance {
    cfg: LinkConfig,
    probes: Vec<Seen>,
    last_offered: Option<u8>,
    goods: Option<Goods>,
    at: AcceptProgress,
}

fn keep_usable(probes: &Vec<Seen>, max: u8) -> (kept: Vec<Seen>)
    ensures
        kept@ == usable_probes(probes@, max),
{
    let mut kept: Vec<Seen> = Vec::new();
    let mut i: usize = 0;
    while i < probes.len()
        invariant
            i <= probes@.len(),
            kept@ == usable_probes(probes@.take(i as int), max),
        decreases probes@.len() - i,
    {
        proof {
            assert(probes@.take(i + 1).drop_last() == probes@.take(i as int));
        }
        let probe: Seen = probes[i];
        if probe.1 <= max && probe.0 < 6 {
            kept.push(probe);
        }
        i = i + 1;
    }
    assert(probes@.take(i as int) == probes@);
    kept
}

fn pick_best(probes: &Vec<Seen>) -> (best: Option<Seen>)
    ensures
        best == best_probe(probes@),
{
    let mut best: Option<Seen> = None;
    let mut i: usize = 0;
    while i < probes.len()
        invariant
            i <= probes@.len(),
            best == best_probe(probes@.take(i as int)),
        decreases probes@.len() - i,
    {
        proof {
            assert(probes@.take(i + 1).drop_last() == probes@.take(i as int));
        }
        let probe: Seen = probes[i];
        best = match best {
            Some(so_far) => if probe.1 >= so_far.1 {
                Some(probe)
            } else {
                Some(so_far)
            },
            None => Some(probe),
        };
        i = i + 1;
    }
    assert(probes@.take(i as int) == probes@);
    best
}

fn count_ids(probes: &Vec<Seen>) -> (count: usize)
    ensures
        count == probe_ids(probes@).len(),
{
    broadcast use vstd::std_specs::hash::group_hash_axioms;

    let mut ids: HashSet<u8> = HashSet::new();
    let mut i: usize = 0;
    while i < probes.len()
        invariant
            i <= probes@.len(),
            ids@ == probe_ids(probes@.take(i as int)),
        decreases probes@.len() - i,
    {
        broadcast use vstd::std_specs::hash::group_hash_axioms;

        proof {
            assert(probes@.take(i + 1).drop_last() == probes@.take(i as int));
        }
        ids.insert(probes[i].0);
        i = i + 1;
    }
    assert(probes@.take(i as int) == probes@);
    ids.len()
}

fn loss(eligible: usize, arrived: usize) -> (percent: u8)
    requires
        eligible <= 6,
    ensures
        percent == loss_percent(eligible as nat, arrived as nat),
        percent <= 100,
{
    if arrived < eligible {
        let lost: usize = eligible - arrived;
        let percent: usize = 100 * lost / eligible;
        assert(percent <= 100) by (nonlinear_arith)
            requires
                percent == 100 * lost / eligible as int,
                0 < lost <= eligible,
        ;
        percent as u8
    } else {
        0
    }
}

fn found_text(qr_version: u8, probe_loss: u8) -> (line: String)
    ensures
        line@ == found_line(qr_version, probe_loss),
{
    let mut line = String::from_str("sender found: best readable QR v");
    text::push_decimal(&mut line, qr_version as u64);
    line.append(", ");
    text::push_decimal(&mut line, probe_loss as u64);
    line.append("% probe loss");
    line
}

fn offer_text(goods: &Goods) -> (line: String)
    ensures
        line@ == offer_line(goods@),
{
    let mut line = String::from_str("offer: ");
    line.append(goods.basename.as_str());
    line.append(", ");
    text::push_decimal(&mut line, goods.compressed_size);
    line.append(" B compressed, ");
    text::push_decimal(&mut line, goods.chunk_count as u64);
    line.append(" chunks");
    line
}

fn longer_of(a: u16, b: u16) -> (dwell_ms: u16)
    ensures
        dwell_ms == longer(a, b),
{
    if a < b {
        b
    } else {
        a
    }
}

impl Acceptance {
    pub fn new(cfg: LinkConfig, now: u64) -> (acceptance: Acceptance)
        ensures
            acceptance.valid(),
            acceptance.state() == accept_start(cfg, now),
    {
        let deadline: u64 = clock::deadline(now, link::hello_timeout(cfg));
        Acceptance {
            cfg,
            probes: Vec::new(),
            last_offered: None,
            goods: None,
            at: AcceptProgress {
                phase: AcceptPhase::Hello(deadline, deadline - now),
                qr_version: 0,
                dwell_ms: 0,
                probe_loss: 0,
                now,
            },
        }
    }

    /// The name under which the offered file would land, while the handshake
    /// waits to hear whether that is free.
    pub fn offered(&self) -> (basename: Option<&str>)
        requires
            self.valid(),
        ensures
            match basename {
                Some(name) => self.state().at.phase is Offered && name@
                    == self.state().goods->0.basename,
                None => !(self.state().at.phase is Offered),
            },
    {
        match self.at.phase {
            AcceptPhase::Offered => match &self.goods {
                Some(goods) => Some(goods.basename.as_str()),
                None => None,
            },
            _ => None,
        }
    }

    /// Goes on once it is known whether the destination is taken: a taken one
    /// is only replaced by `force`.
    pub fn decide(&mut self, taken: bool, force: bool)
        requires
            old(self).valid(),
            old(self).state().at.phase is Offered,
        ensures
            final(self).valid(),
            final(self).state() == old(self).state().decided(taken, force),
    {
        if taken && !force {
            self.at.phase = AcceptPhase::Refuse;
        } else {
            self.at.phase = AcceptPhase::LogOffer;
        }
    }

    /// The handshake's result, once it is over, for an offer that was to go to
    /// the path `dest`.
    pub fn result(self, dest: &str) -> (result: Result<Session>)
        requires
            self.valid(),
        ensures
            link_send::session_outcome(result) == self.state().verdict(dest@),
    {
        let at: AcceptProgress = self.at;
        match at.phase {
            AcceptPhase::Over(LinkEnd::Linked) => match self.goods {
                Some(goods) => Ok(
                    Session {
                        qr_version: at.qr_version,
                        dwell_ms: at.dwell_ms,
                        basename: goods.basename,
                        uncompressed_hint: goods.uncompressed_hint,
                        compressed_size: goods.compressed_size,
                        chunk_count: goods.chunk_count,
                        sha256: goods.sha256,
                    },
                ),
                None => Err(Error::HandshakeFailed),
            },
            AcceptPhase::Over(LinkEnd::Timeout) => Err(Error::HandshakeTimeout),
            AcceptPhase::Over(LinkEnd::NoProbe) => Err(Error::NoUsableProbe),
            AcceptPhase::Over(LinkEnd::Exists) => Err(Error::DestExists(String::from_str(dest))),
            _ => Err(Error::HandshakeFailed),
        }
    }

    fn greet(&mut self, deadline: u64)
        requires
            old(self).valid(),
        ensures
            final(self).valid(),
            final(self).state() == old(self).state().greeted(deadline),
    {
        match clock::remaining(deadline, self.at.now) {
            Some(left) => {
                self.at.phase = AcceptPhase::Hello(deadline, left);
            },
            None => {
                self.at.phase = AcceptPhase::Over(LinkEnd::Timeout);
            },
        }
    }

    fn choose_version(&mut self)
        requires
            old(self).valid(),
        ensures
            final(self).valid(),
            final(self).state() == old(self).state().chosen(),
    {
        let seen: Vec<Seen> = keep_usable(&self.probes, self.cfg.max_qr_version);
        match pick_best(&seen) {
            None => {
                self.at.phase = AcceptPhase::Over(LinkEnd::NoProbe);
            },
            Some((_, qr_version, dwell_ms)) => {
                // Loss is measured only against probes that could have
                // counted: ones the sender actually offered and this terminal
                // is large enough to draw.
                let eligible: usize = link::eligible_probe_count(self.cfg, self.last_offered);
                proof {
                    link::probes_are_a_prefix(self.cfg.max_qr_version, self.last_offered);
                }
                self.at.phase = AcceptPhase::Suggest;
                self.at.qr_version = qr_version;
                self.at.dwell_ms = dwell_ms;
                self.at.probe_loss = loss(eligible, count_ids(&seen));
            },
        }
    }

    fn probe(&mut self, id: u8, qr_version: u8, dwell_ms: u16, last: bool)
        requires
            old(self).valid(),
        ensures
            final(self).valid(),
            final(self).state() == old(self).state().probed(id, qr_version, dwell_ms, last),
    {
        self.at.phase = AcceptPhase::MoreProbes(
            clock::deadline(self.at.now, link::quiet_timeout(self.cfg)),
        );
        self.probes.push((id, qr_version, dwell_ms));
        if last {
            self.last_offered = Some(id);
            self.choose_version();
        }
    }
}

impl Machine for Acceptance {
    type State = AcceptState;

    closed spec fn state(&self) -> AcceptState {
        AcceptState {
            cfg: self.cfg,
            probes: self.probes@,
            last_offered: self.last_offered,
            goods: goods_option(self.goods),
            at: self.at,
        }
    }

    closed spec fn valid(&self) -> bool {
        self.state().inv()
    }

    fn action(&self) -> (action: Option<Action>) {
        match self.at.phase {
            AcceptPhase::Hello(_, _) => Some(
                Action::Show(Payload::Hello { protocol_ver: 1, role: ROLE_RECV }),
            ),
            AcceptPhase::AwaitProbe(_, left) => Some(
                Action::Poll(
                    if left < 50 * clock::MILLISECOND {
                        left
                    } else {
                        50 * clock::MILLISECOND
                    },
                ),
            ),
            AcceptPhase::MoreProbes(deadline) => Some(
                Action::Poll(clock::since(self.at.now, deadline)),
            ),
            AcceptPhase::AwaitGo(deadline) => Some(
                Action::Poll(clock::since(self.at.now, deadline)),
            ),
            AcceptPhase::Suggest => Some(Action::SuggestDwell),
            AcceptPhase::LockVersion => Some(Action::SetVersion(self.at.qr_version)),
            AcceptPhase::LogFound => Some(
                Action::Log(found_text(self.at.qr_version, self.at.probe_loss)),
            ),
            AcceptPhase::ShowLink => Some(
                Action::Show(
                    Payload::Link {
                        qr_version: self.at.qr_version,
                        dwell_ms: self.at.dwell_ms,
                        probe_loss: self.at.probe_loss,
                    },
                ),
            ),
            AcceptPhase::Refuse => Some(Action::Show(Payload::Fail { reason: FAIL_ABORTED })),
            AcceptPhase::LogOffer => match &self.goods {
                Some(goods) => Some(Action::Log(offer_text(goods))),
                None => None,
            },
            AcceptPhase::Accept => Some(
                Action::Show(Payload::Ack { window_base: 0, bitmap: 0 }),
            ),
            AcceptPhase::Offered => None,
            AcceptPhase::Over(_) => None,
        }
    }

    fn step(&mut self, now: u64, reply: Reply) {
        self.at.now = now;
        match self.at.phase {
            AcceptPhase::Hello(deadline, left) => {
                self.at.phase = AcceptPhase::AwaitProbe(deadline, left);
            },
            AcceptPhase::AwaitProbe(deadline, _) => match reply {
                Reply::Polled(Some(Payload::Probe { id, qr_version, dwell_ms, last })) =>
                    self.probe(id, qr_version, dwell_ms, last),
                Reply::Polled(_) => self.greet(deadline),
                _ => {},
            },
            AcceptPhase::MoreProbes(deadline) => match reply {
                Reply::Polled(Some(Payload::Probe { id, qr_version, dwell_ms, last })) =>
                    self.probe(id, qr_version, dwell_ms, last),
                Reply::Polled(Some(_)) => {
                    if clock::remaining(deadline, now).is_none() {
                        self.choose_version();
                    }
                },
                Reply::Polled(None) => self.choose_version(),
                _ => {},
            },
            AcceptPhase::Suggest => match reply {
                // The receiver owns the dwell: it is the side that knows how
                // often its camera actually lands a decode, and LINK carries
                // the number to the sender.
                Reply::Dwell(suggested) => {
                    self.at.phase = AcceptPhase::LockVersion;
                    self.at.dwell_ms = longer_of(
                        longer_of(self.at.dwell_ms, self.cfg.dwell_floor_ms),
                        suggested,
                    );
                },
                _ => {},
            },
            AcceptPhase::LockVersion => {
                self.at.phase = AcceptPhase::LogFound;
            },
            AcceptPhase::LogFound => {
                self.at.phase = AcceptPhase::ShowLink;
            },
            AcceptPhase::ShowLink => {
                self.at.phase = AcceptPhase::AwaitGo(
                    clock::deadline(now, link::go_timeout(self.cfg)),
                );
            },
            AcceptPhase::AwaitGo(deadline) => match reply {
                Reply::Polled(None) => {
                    self.at.phase = AcceptPhase::Over(LinkEnd::Failed);
                },
                Reply::Polled(
                    Some(
                        Payload::Go {
                            basename,
                            uncompressed_hint,
                            compressed_size,
                            chunk_count,
                            sha256,
                        },
                    ),
                ) => {
                    self.goods = Some(
                        Goods { basename, uncompressed_hint, compressed_size, chunk_count, sha256 },
                    );
                    self.at.phase = AcceptPhase::Offered;
                },
                Reply::Polled(Some(_)) => {
                    if clock::remaining(deadline, now).is_none() {
                        self.at.phase = AcceptPhase::Over(LinkEnd::Failed);
                    }
                },
                _ => {},
            },
            AcceptPhase::Refuse => {
                self.at.phase = AcceptPhase::Over(LinkEnd::Exists);
            },
            AcceptPhase::LogOffer => {
                self.at.phase = AcceptPhase::Accept;
            },
            AcceptPhase::Accept => {
                self.at.phase = AcceptPhase::Over(LinkEnd::Linked);
            },
            AcceptPhase::Offered => {},
            AcceptPhase::Over(_) => {},
        }
    }
}

/// Whether a channel whose trace went from `before` to `after` saw the second
/// part of the receiver's handshake, from state `offered` on, for a
/// destination `dest` that is taken or free, with `result`.
pub open spec fn offer_answered(
    dest: Seq<char>,
    force: bool,
    taken: bool,
    offered: AcceptState,
    before: Seq<Turn>,
    after: Seq<Turn>,
    result: std::result::Result<SessionView, ErrorView>,
) -> bool {
    exists|end: AcceptState, outcome: std::result::Result<(), ErrorView>|
        #[trigger] machine::ran_on(offered.decided(taken, force), before, after, end, outcome)
            && result == match outcome {
            Ok(_) => end.verdict(dest),
            Err(e) => Err(e),
        }
}

/// Whether a channel whose trace went from `before` to `after` saw the
/// receiver's handshake, with `result`. If an offer arrived, its name was looked
/// up in `outdir`, found taken or free, and the offer answered accordingly.
pub open spec fn offer_taken(
    outdir: Seq<char>,
    force: bool,
    cfg: LinkConfig,
    before: Seq<Turn>,
    after: Seq<Turn>,
    result: std::result::Result<SessionView, ErrorView>,
) -> bool {
    exists|now: u64, mid: Seq<Turn>, offered: AcceptState, outcome: std::result::Result<
        (),
        ErrorView,
    >|
        #[trigger] machine::ran_on(accept_start(cfg, now), before, mid, offered, outcome)
            && match outcome {
            Ok(_) => if offered.at.phase is Offered {
                exists|dest: Seq<char>, taken: bool| #[trigger]
                    offer_answered(dest, force, taken, offered, mid, after, result)
                        && pack::looked_up(outdir, offered.goods->0.basename, dest, taken)
            } else {
                after == mid && result == offered.verdict(Seq::empty())
            },
            Err(e) => after == mid && result == Err::<SessionView, ErrorView>(e),
        }
}

/// Finds the sender, agrees on a QR version, and takes its offer unless the
/// offered name already exists in `outdir` and `force` is not set.
pub fn run_recv_handshake<O: Optical>(
    opt: &mut O,
    outdir: &str,
    force: bool,
    cfg: LinkConfig,
) -> (result: Result<Session>)
    ensures
        offer_taken(
            outdir@,
            force,
            cfg,
            old(opt).trace(),
            final(opt).trace(),
            link_send::session_outcome(result),
        ),
{
    let mut clock = Clock::start();
    let now: u64 = clock.now();
    let mut acceptance = Acceptance::new(cfg, now);
    match machine::drive(opt, &mut acceptance, &mut clock) {
        Ok(_) => {},
        Err(e) => return Err(e),
    }
    let ghost mid: Seq<Turn> = opt.trace();
    let ghost offered: AcceptState = acceptance.state();
    let (dest, taken): (String, bool) = match acceptance.offered() {
        Some(basename) => pack::look_up(outdir, basename),
        None => {
            proof {
                reveal_strlit("");
                assert(""@ =~= Seq::<char>::empty());
            }
            return acceptance.result("");
        },
    };
    acceptance.decide(taken, force);
    let result: Result<Session> = match machine::drive(opt, &mut acceptance, &mut clock) {
        Ok(_) => acceptance.result(dest.as_str()),
        Err(e) => Err(e),
    };
    assert(offer_answered(
        dest@,
        force,
        taken,
        offered,
        mid,
        opt.trace(),
        link_send::session_outcome(result),
    ));
    result
}

} // verus!
