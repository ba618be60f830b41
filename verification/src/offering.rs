//! What the sender does next in a handshake, told from what it asked of the
//! channel and what it was answered so far.
use crate::agreement;
use crate::error::ErrorView;
use crate::frame;
use crate::frame::PayloadView;
use crate::link;
use crate::link::{LinkConfig, LinkEnd, SessionView, PROBES};
use crate::link_send;
use crate::link_send::{OfferPhase, OfferState};
use crate::machine;
use crate::machine::{Protocol, Step};
use crate::optical::{Call, Turn};
use crate::sending;
use crate::sending::{heard, read_last, until, wait_began};
use crate::text;
use vstd::prelude::*;

verus! {

/// What is offered.
#[verifier::ext_equal]
pub struct Wares {
    pub basename: Seq<char>,
    pub uncompressed_hint: u64,
    pub compressed_size: u64,
    pub sha256: Seq<u8>,
}

/// The state in which the handshake about `wares` starts.
pub open spec fn opening(wares: Wares, cfg: LinkConfig, now: u64) -> OfferState {
    link_send::offer_start(
        wares.basename,
        wares.uncompressed_hint,
        wares.compressed_size,
        wares.sha256,
        cfg,
        now,
    )
}

/// The QR version of probe `i`.
pub open spec fn probe_version(i: int) -> u8 {
    if i == 0 {
        10
    } else if i == 1 {
        15
    } else if i == 2 {
        20
    } else if i == 3 {
        25
    } else if i == 4 {
        30
    } else {
        40
    }
}

/// How long probe `i` is held on screen, in milliseconds.
pub open spec fn probe_dwell(i: int) -> u16 {
    if i < 2 {
        250
    } else if i < 4 {
        200
    } else {
        150
    }
}

/// Whether there is a probe `i` and a display that draws up to `max` can draw
/// it.
pub open spec fn drawable(i: int, max: u8) -> bool {
    0 <= i < 6 && probe_version(i) <= max
}

/// Probe `i` as it is shown, flagged if the display can draw no later one.
pub open spec fn probe_frame(i: int, max: u8) -> Call {
    Call::Show(
        PayloadView::Probe {
            id: i as u8,
            qr_version: probe_version(i),
            dwell_ms: probe_dwell(i),
            last: !drawable(i + 1, max),
        },
    )
}

/// The latest request that was no poll.
pub open spec fn spoke(steps: Seq<Step>) -> Option<Call>
    decreases steps.len(),
{
    if steps.len() == 0 {
        None
    } else if steps.last().turn.call is Poll {
        spoke(steps.drop_last())
    } else {
        Some(steps.last().turn.call)
    }
}

/// Whether `call` is a probe or the holding of one.
pub open spec fn is_probing(call: Option<Call>) -> bool {
    match call {
        Some(Call::Show(PayloadView::Probe { .. })) => true,
        Some(Call::Hold(_)) => true,
        _ => false,
    }
}

/// The version and the dwell that the receiver named in answer to the probes.
pub open spec fn linked(steps: Seq<Step>) -> Option<(u8, u16)>
    decreases steps.len(),
{
    if steps.len() == 0 {
        None
    } else {
        match heard(steps) {
            Some(PayloadView::Link { qr_version, dwell_ms, .. }) => if is_probing(spoke(steps)) {
                Some((qr_version, dwell_ms))
            } else {
                linked(steps.drop_last())
            },
            _ => linked(steps.drop_last()),
        }
    }
}

/// The version that the receiver named.
pub open spec fn named_version(steps: Seq<Step>) -> u8 {
    match linked(steps) {
        Some((qr_version, _)) => qr_version,
        None => 0,
    }
}

/// The longer of two dwells.
pub open spec fn at_least(dwell_ms: u16, floor: u16) -> u16 {
    if dwell_ms < floor {
        floor
    } else {
        dwell_ms
    }
}

/// How long to wait for the first frame of the other side: 30 s; ten minutes
/// for a patient side, 100 ms on an in-process channel.
pub open spec fn hello_span(cfg: LinkConfig) -> int {
    if cfg.fast {
        100_000_000
    } else if cfg.patient {
        600_000_000_000
    } else {
        30_000_000_000
    }
}

/// How long to wait for LINK: 5 s; ten minutes for a patient side, 50 ms on an
/// in-process channel.
pub open spec fn link_span(cfg: LinkConfig) -> int {
    if cfg.fast {
        50_000_000
    } else if cfg.patient {
        600_000_000_000
    } else {
        5_000_000_000
    }
}

/// How long to wait around GO: 15 s; ten minutes for a patient side, 50 ms on
/// an in-process channel.
pub open spec fn go_span(cfg: LinkConfig) -> int {
    if cfg.fast {
        50_000_000
    } else if cfg.patient {
        600_000_000_000
    } else {
        15_000_000_000
    }
}

/// How long the sender's present wait lasts.
pub open spec fn present_span(cfg: LinkConfig, steps: Seq<Step>) -> int {
    if spoke(steps) is None {
        hello_span(cfg)
    } else if is_probing(spoke(steps)) {
        link_span(cfg)
    } else {
        go_span(cfg)
    }
}

/// The chunk count of `size` bytes in codes of version `qr_version`: as few as
/// hold them all, and at least one.
pub open spec fn is_chunk_count(size: u64, qr_version: u8, count: nat) -> bool {
    let room = frame::chunk_room(qr_version);
    &&& count >= 1
    &&& count * room >= size
    &&& count == 1 || (count - 1) * room < size
}

/// The terms that follow from what was offered and what the receiver named.
pub open spec fn terms(wares: Wares, cfg: LinkConfig, link: (u8, u16), count: nat) -> SessionView {
    SessionView {
        qr_version: link.0,
        dwell_ms: at_least(link.1, cfg.dwell_floor_ms),
        basename: wares.basename,
        uncompressed_hint: wares.uncompressed_hint,
        compressed_size: wares.compressed_size,
        chunk_count: count as u32,
        sha256: wares.sha256,
    }
}

/// The frame that offers the blob under `session`.
pub open spec fn go_frame(session: SessionView) -> Call {
    Call::Show(
        PayloadView::Go {
            basename: session.basename,
            uncompressed_hint: session.uncompressed_hint,
            compressed_size: session.compressed_size,
            chunk_count: session.chunk_count,
            sha256: session.sha256,
        },
    )
}

/// Whether the handshake ended with `err`.
pub open spec fn ended_with(s: OfferState, err: ErrorView) -> bool {
    s.pending() is None && s.verdict() == Err::<SessionView, ErrorView>(err)
}

spec fn took_link(s: OfferState, steps: Seq<Step>) -> bool {
    linked(steps) matches Some(link) && s.at.qr_version == link.0 && s.at.dwell_ms == at_least(
        link.1,
        s.cfg.dwell_floor_ms,
    )
}

spec fn told_by(s: OfferState, now: u64, steps: Seq<Step>) -> bool {
    &&& s.at.now == read_last(now, steps)
    &&& match s.at.phase {
        OfferPhase::AwaitHello(deadline) => linked(steps) is None && spoke(steps) is None
            && deadline == until(wait_began(now, steps), hello_span(s.cfg)),
        OfferPhase::LogHello => linked(steps) is None,
        OfferPhase::Probe(i) => linked(steps) is None,
        OfferPhase::HoldProbe(i) => linked(steps) is None && steps.len() > 0
            && steps.last().turn.call == Call::Show(s.probe(i)) && !s.cfg.fast,
        OfferPhase::AwaitLink(deadline) => linked(steps) is None && is_probing(spoke(steps))
            && deadline == until(wait_began(now, steps), link_span(s.cfg)),
        OfferPhase::LockVersion => took_link(s, steps),
        OfferPhase::LogLinked => took_link(s, steps) && steps.last().turn.call is SetVersion
            && steps.len() > 0,
        OfferPhase::ShowGo => took_link(s, steps),
        OfferPhase::AwaitAccept(deadline) => took_link(s, steps) && (spoke(steps) matches Some(
            Call::Show(PayloadView::Go { .. }),
        )) && deadline == until(wait_began(now, steps), go_span(s.cfg)),
        OfferPhase::LogAccepted => took_link(s, steps) && steps.len() > 0 && steps.last().turn.call
            is Poll,
        OfferPhase::Over(LinkEnd::Linked) => took_link(s, steps),
        OfferPhase::Over(_) => true,
    }
}

proof fn table_of_probes(cfg: LinkConfig, s: OfferState)
    requires
        s.cfg == cfg,
    ensures
        s.offered() <= 6,
        forall|i: int| #[trigger] drawable(i, cfg.max_qr_version) <==> 0 <= i < s.offered(),
        forall|i: usize|
            i < s.offered() ==> Call::Show(#[trigger] s.probe(i)) == probe_frame(
                i as int,
                cfg.max_qr_version,
            ),
        forall|i: int| 0 <= i < 6 ==> (#[trigger] PROBES@[i]).2 == probe_dwell(i),
{
    link::probes_are_a_prefix(cfg.max_qr_version, None);
    assert(PROBES@[0] == (0u8, 10u8, 250u16));
    assert(PROBES@[1] == (1u8, 15u8, 250u16));
    assert(PROBES@[2] == (2u8, 20u8, 200u16));
    assert(PROBES@[3] == (3u8, 25u8, 200u16));
    assert(PROBES@[4] == (4u8, 30u8, 150u16));
    assert(PROBES@[5] == (5u8, 40u8, 150u16));
    assert forall|i: int| #[trigger] drawable(i, cfg.max_qr_version) <==> 0 <= i < s.offered() by {
        if 0 <= i < 6 {
            assert(link::probe_counts(i, cfg.max_qr_version, None) <==> i < s.offered());
        }
    }
    assert forall|i: usize| i < s.offered() implies Call::Show(#[trigger] s.probe(i))
        == probe_frame(i as int, cfg.max_qr_version) by {
        assert(drawable(i + 1, cfg.max_qr_version) <==> i + 1 < s.offered());
    }
}

#[verifier::rlimit(30)]
proof fn the_history_tells(wares: Wares, cfg: LinkConfig, now: u64, steps: Seq<Step>)
    requires
        machine::lawful(opening(wares, cfg, now), steps),
    ensures
        ({
            let s = machine::after(opening(wares, cfg, now), steps);
            &&& s.inv()
            &&& s.cfg == cfg
            &&& s.basename == wares.basename
            &&& s.uncompressed_hint == wares.uncompressed_hint
            &&& s.compressed_size == wares.compressed_size
            &&& s.sha256 == wares.sha256
            &&& told_by(s, now, steps)
        }),
    decreases steps.len(),
{
    let start = opening(wares, cfg, now);
    agreement::law_offer_invariant(start, steps);
    if steps.len() > 0 {
        the_history_tells(wares, cfg, now, steps.drop_last());
    }
}

proof fn counts_agree(size: u64, qr_version: u8, count: nat)
    requires
        frame::chunk_room(qr_version) > 0,
        is_chunk_count(size, qr_version, count),
    ensures
        count as u32 == link_send::offer_count(size, frame::chunk_room(qr_version)),
{
    let room = frame::chunk_room(qr_version) as int;
    let q = size as int / room;
    vstd::arithmetic::div_mod::lemma_fundamental_div_mod(size as int, room);
    assert(room * q == q * room) by (nonlinear_arith);
    assert((count - 1) * room == count * room - room) by (nonlinear_arith);
    assert(count < q ==> count * room <= q * room - room) by (nonlinear_arith)
        requires
            room > 0,
    ;
    assert(count > q ==> count * room >= q * room + room) by (nonlinear_arith)
        requires
            room > 0,
    ;
    assert(count > q + 1 ==> count * room >= q * room + 2 * room) by (nonlinear_arith)
        requires
            room > 0,
    ;
    assert(q == 0 || q * room >= room) by (nonlinear_arith)
        requires
            room > 0,
            q >= 0,
    ;
}

/// The sender starts by waiting for HELLO.
pub proof fn law_how_offering_starts(wares: Wares, cfg: LinkConfig, now: u64)
    ensures
        machine::after(opening(wares, cfg, now), Seq::empty()).pending() == Some(
            sending::waiting(now, Seq::empty(), hello_span(cfg)),
        ),
{
}

/// What follows a poll. The sender first waits for HELLO, which it notes; after
/// the probes for LINK, whose version it locks if its display can draw it; and
/// after GO for an ACK that starts at zero, which it notes. Silence ends the
/// handshake, and so does anything else once the time is up; until then other
/// frames are passed over.
#[verifier::rlimit(30)]
pub proof fn law_what_follows_a_senders_poll(
    wares: Wares,
    cfg: LinkConfig,
    now: u64,
    steps: Seq<Step>,
)
    requires
        machine::lawful(opening(wares, cfg, now), steps),
        steps.len() > 0,
        steps.last().turn.call is Poll,
    ensures
        ({
            let s = machine::after(opening(wares, cfg, now), steps);
            let frame = heard(steps);
            let deadline = until(wait_began(now, steps), present_span(cfg, steps));
            if spoke(steps) is None && (frame matches Some(PayloadView::Hello { .. })) {
                s.pending() == Some(Call::Log("receiver said HELLO"@))
            } else if is_probing(spoke(steps)) && (frame matches Some(PayloadView::Link { .. })) {
                if named_version(steps) <= cfg.max_qr_version {
                    s.pending() == Some(Call::SetVersion(named_version(steps)))
                } else {
                    ended_with(s, ErrorView::NoUsableProbe)
                }
            } else if spoke(steps) is Some && !is_probing(spoke(steps)) && (frame matches Some(
                PayloadView::Ack { window_base: 0, .. },
            )) {
                s.pending() == Some(Call::Log("receiver accepted the offer"@))
            } else if frame is Some && steps.last().at <= deadline {
                s.pending() == Some(sending::waiting(now, steps, present_span(cfg, steps)))
            } else {
                ended_with(
                    s,
                    if spoke(steps) is None {
                        ErrorView::HandshakeTimeout
                    } else {
                        ErrorView::HandshakeFailed
                    },
                )
            }
        }),
{
    the_history_tells(wares, cfg, now, steps.drop_last());
    the_history_tells(wares, cfg, now, steps);
    assert(spoke(steps) == spoke(steps.drop_last()));
    assert(wait_began(now, steps) == wait_began(now, steps.drop_last()));
}

/// HELLO is answered with the first probe, unless the display can draw none.
/// Each probe is held for its dwell, except on an in-process channel; then the
/// next one that the display can draw comes, and after the last of them the wait
/// for LINK.
pub proof fn law_probes_go_out_in_turn(wares: Wares, cfg: LinkConfig, now: u64, steps: Seq<Step>)
    requires
        machine::lawful(opening(wares, cfg, now), steps),
        steps.len() > 0,
        linked(steps) is None,
        !(steps.last().turn.call is Poll),
    ensures
        ({
            let s = machine::after(opening(wares, cfg, now), steps);
            match steps.last().turn.call {
                Call::Log(_) => if drawable(0, cfg.max_qr_version) {
                    s.pending() == Some(probe_frame(0, cfg.max_qr_version))
                } else {
                    ended_with(s, ErrorView::NoUsableProbe)
                },
                Call::Show(PayloadView::Probe { id, .. }) => if !cfg.fast {
                    s.pending() == Some(Call::Hold(probe_dwell(id as int)))
                } else if drawable(id + 1, cfg.max_qr_version) {
                    s.pending() == Some(probe_frame(id + 1, cfg.max_qr_version))
                } else {
                    s.pending() == Some(sending::waiting(now, steps, link_span(cfg)))
                },
                Call::Hold(_) => steps.len() > 1 && match steps.drop_last().last().turn.call {
                    Call::Show(PayloadView::Probe { id, .. }) => if drawable(
                        id + 1,
                        cfg.max_qr_version,
                    ) {
                        s.pending() == Some(probe_frame(id + 1, cfg.max_qr_version))
                    } else {
                        s.pending() == Some(sending::waiting(now, steps, link_span(cfg)))
                    },
                    _ => false,
                },
                _ => false,
            }
        }),
{
    let start = opening(wares, cfg, now);
    the_history_tells(wares, cfg, now, steps.drop_last());
    the_history_tells(wares, cfg, now, steps);
    let before = machine::after(start, steps.drop_last());
    let s = machine::after(start, steps);
    table_of_probes(cfg, before);
    table_of_probes(cfg, s);
    match before.at.phase {
        OfferPhase::LogHello => {
            assert(drawable(0, cfg.max_qr_version) <==> 0 < before.offered());
            assert(0 < s.offered() ==> Call::Show(s.probe(0)) == probe_frame(0, cfg.max_qr_version));
        },
        OfferPhase::Probe(i) | OfferPhase::HoldProbe(i) => {
            assert(Call::Show(before.probe(i)) == probe_frame(i as int, cfg.max_qr_version));
            assert(PROBES@[i as int].2 == probe_dwell(i as int));
            assert(drawable(i + 1, cfg.max_qr_version) <==> i + 1 < before.offered());
            let next = (i + 1) as usize;
            assert(next < s.offered() ==> Call::Show(s.probe(next)) == probe_frame(
                next as int,
                cfg.max_qr_version,
            ));
        },
        _ => {},
    }
}

/// Once the version is locked and noted the blob is offered under the terms that
/// LINK named, the dwell raised to the floor, if a code of that version has room
/// for any of it. The wait for the ACK follows; and after that is noted the
/// sender is linked on those terms.
pub proof fn law_the_offer_keeps_to_the_link(
    wares: Wares,
    cfg: LinkConfig,
    now: u64,
    steps: Seq<Step>,
    count: nat,
)
    requires
        machine::lawful(opening(wares, cfg, now), steps),
        steps.len() > 1,
        linked(steps) is Some,
        !(steps.last().turn.call is Poll),
        frame::chunk_room(named_version(steps)) > 0 ==> is_chunk_count(
            wares.compressed_size,
            named_version(steps),
            count,
        ),
    ensures
        ({
            let s = machine::after(opening(wares, cfg, now), steps);
            let session = terms(wares, cfg, linked(steps)->0, count);
            match steps.last().turn.call {
                Call::SetVersion(_) => s.pending() == Some(
                    Call::Log(
                        "linked at QR v"@ + text::decimal(session.qr_version as nat) + ", "@
                            + text::decimal(session.dwell_ms as nat) + " ms dwell"@,
                    ),
                ),
                Call::Log(_) => if steps.drop_last().last().turn.call is SetVersion {
                    if frame::chunk_room(session.qr_version) > 0 {
                        s.pending() == Some(go_frame(session))
                    } else {
                        ended_with(s, ErrorView::HandshakeFailed)
                    }
                } else {
                    s.pending() is None && s.verdict() == Ok::<SessionView, ErrorView>(session)
                },
                Call::Show(_) => s.pending() == Some(sending::waiting(now, steps, go_span(cfg))),
                _ => false,
            }
        }),
{
    let start = opening(wares, cfg, now);
    the_history_tells(wares, cfg, now, steps.drop_last());
    the_history_tells(wares, cfg, now, steps);
    let s = machine::after(start, steps);
    if frame::chunk_room(named_version(steps)) > 0 {
        counts_agree(wares.compressed_size, named_version(steps), count);
    }
    assert(linked(steps) == linked(steps.drop_last()));
}

/// The sender's handshake is a run from its start to its end, unless a request
/// fails, which is then the result.
pub proof fn law_offering_goes_to_its_end(
    wares: Wares,
    cfg: LinkConfig,
    before: Seq<Turn>,
    after: Seq<Turn>,
    result: std::result::Result<SessionView, ErrorView>,
) -> (run: (u64, Seq<Step>))
    requires
        link_send::offer_made(
            wares.basename,
            wares.uncompressed_hint,
            wares.compressed_size,
            wares.sha256,
            cfg,
            before,
            after,
            result,
        ),
    ensures
        ({
            let start = opening(wares, cfg, run.0);
            let s = machine::after(start, run.1);
            &&& machine::lawful(start, run.1)
            &&& {
                ||| s.pending() is None && result == s.verdict() && machine::recorded(
                    start,
                    run.1,
                    before,
                    after,
                    None,
                )
                ||| result is Err && machine::recorded(
                    start,
                    run.1,
                    before,
                    after,
                    Some(result->Err_0),
                )
                ||| run.1.len() == 0xffff_ffff_ffff_ffff && result == Err::<SessionView, ErrorView>(
                    ErrorView::HandshakeFailed,
                )
            }
        }),
{
    let (now, end, outcome) = choose|
        now: u64,
        end: OfferState,
        outcome: std::result::Result<(), ErrorView>,
    |
        #[trigger] machine::ran_on(
            link_send::offer_start(
                wares.basename,
                wares.uncompressed_hint,
                wares.compressed_size,
                wares.sha256,
                cfg,
                now,
            ),
            before,
            after,
            end,
            outcome,
        ) && result == match outcome {
            Ok(_) => end.verdict(),
            Err(e) => Err(e),
        };
    (now, machine::law_runs_go_to_their_end(opening(wares, cfg, now), before, after, end, outcome))
}

} // verus!
