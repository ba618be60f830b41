//! What the receiver does next in a handshake, told from what it asked of the
//! channel and what it was answered so far.
use crate::clock;
use crate::delivery;
use crate::error::ErrorView;
use crate::frame::PayloadView;
use crate::link;
use crate::link::{LinkConfig, LinkEnd, SessionView, PROBES};
use crate::link_recv;
use crate::link_recv::{AcceptPhase, AcceptState, GoodsView, Seen};
use crate::machine;
use crate::machine::{Protocol, Step};
use crate::offering::{at_least, drawable, go_span, hello_span};
use crate::optical::{Answer, Call, Turn};
use crate::pack;
use crate::sending;
use crate::sending::{heard, left, read_last, until, wait_began};
use crate::text;
use vstd::prelude::*;

verus! {

/// Whether the probes are behind: the camera was asked for its dwell.
pub open spec fn settled(steps: Seq<Step>) -> bool
    decreases steps.len(),
{
    steps.len() > 0 && (steps.last().turn.call is SuggestDwell || settled(steps.drop_last()))
}

/// The probes that arrived, in order: id, version and dwell.
pub open spec fn probes(steps: Seq<Step>) -> Seq<Seen>
    decreases steps.len(),
{
    if steps.len() == 0 {
        Seq::empty()
    } else {
        let so_far = probes(steps.drop_last());
        match heard(steps) {
            Some(PayloadView::Probe { id, qr_version, dwell_ms, .. }) => if settled(steps) {
                so_far
            } else {
                so_far.push((id, qr_version, dwell_ms))
            },
            _ => so_far,
        }
    }
}

/// The id of the latest probe that the sender flagged as its last.
pub open spec fn flagged(steps: Seq<Step>) -> Option<u8>
    decreases steps.len(),
{
    if steps.len() == 0 {
        None
    } else {
        let so_far = flagged(steps.drop_last());
        match heard(steps) {
            Some(PayloadView::Probe { id, last, .. }) => if last && !settled(steps) {
                Some(id)
            } else {
                so_far
            },
            _ => so_far,
        }
    }
}

/// When the latest probe arrived.
pub open spec fn probed_at(now: u64, steps: Seq<Step>) -> u64
    decreases steps.len(),
{
    if steps.len() == 0 {
        now
    } else if probes(steps) != probes(steps.drop_last()) {
        steps.last().at
    } else {
        probed_at(now, steps.drop_last())
    }
}

/// The dwell that the camera asked for.
pub open spec fn camera_dwell(steps: Seq<Step>) -> u16
    decreases steps.len(),
{
    if steps.len() == 0 {
        0
    } else {
        match steps.last().turn.answer {
            Ok(Answer::Dwell(dwell_ms)) => dwell_ms,
            _ => camera_dwell(steps.drop_last()),
        }
    }
}

/// Whether `probe` is one of the six of the table and a display that draws up to
/// `max` can draw it.
pub open spec fn eligible(probe: Seen, max: u8) -> bool {
    probe.0 < 6 && probe.1 <= max
}

/// Whether any of `seen` can be drawn.
pub open spec fn any_eligible(seen: Seq<Seen>, max: u8) -> bool {
    exists|i: int| 0 <= i < seen.len() && eligible(#[trigger] seen[i], max)
}

/// Whether the probe at `best` has the highest version of those that can be
/// drawn, and came last of those that have it.
pub open spec fn is_best(seen: Seq<Seen>, max: u8, best: int) -> bool {
    &&& 0 <= best < seen.len()
    &&& eligible(seen[best], max)
    &&& forall|i: int|
        0 <= i < seen.len() && eligible(#[trigger] seen[i], max) ==> seen[i].1 <= seen[best].1
    &&& forall|i: int|
        best < i < seen.len() && eligible(#[trigger] seen[i], max) ==> seen[i].1 < seen[best].1
}

/// The probe that is picked.
pub open spec fn picked(seen: Seq<Seen>, max: u8) -> Seen {
    seen[choose|best: int| is_best(seen, max, best)]
}

/// The ids of the probes that arrived and can be drawn.
pub open spec fn arrived_ids(seen: Seq<Seen>, max: u8) -> Set<u8> {
    Set::new(
        |id: u8|
            exists|i: int|
                0 <= i < seen.len() && eligible(#[trigger] seen[i], max) && seen[i].0 == id,
    )
}

/// One if probe `i` of the table could have arrived: the display can draw it,
/// and the sender's last probe, if it is known, is no earlier one.
pub open spec fn could_arrive(i: int, max: u8, last: Option<u8>) -> int {
    if drawable(i, max) && (last is None || i <= last->0) {
        1
    } else {
        0
    }
}

/// How many probes could have arrived.
pub open spec fn expected(max: u8, last: Option<u8>) -> int {
    could_arrive(0, max, last) + could_arrive(1, max, last) + could_arrive(2, max, last)
        + could_arrive(3, max, last) + could_arrive(4, max, last) + could_arrive(5, max, last)
}

/// The percentage of the probes that could have arrived and did not, rounded
/// down.
pub open spec fn lost(max: u8, last: Option<u8>, seen: Seq<Seen>) -> u8 {
    let arrived = arrived_ids(seen, max).len();
    if arrived < expected(max, last) {
        (100 * (expected(max, last) - arrived) / expected(max, last)) as u8
    } else {
        0
    }
}

/// How long the receiver waits for another probe: two seconds, or 20 ms on an
/// in-process channel.
pub open spec fn probe_span(cfg: LinkConfig) -> int {
    if cfg.fast {
        20_000_000
    } else {
        2_000_000_000
    }
}

/// The dwell that LINK names: no shorter than what the picked probe, the floor
/// or the camera asks for.
pub open spec fn agreed_dwell(cfg: LinkConfig, steps: Seq<Step>) -> u16 {
    at_least(
        at_least(picked(probes(steps), cfg.max_qr_version).2, cfg.dwell_floor_ms),
        camera_dwell(steps),
    )
}

/// The version that LINK names.
pub open spec fn agreed_version(cfg: LinkConfig, steps: Seq<Step>) -> u8 {
    picked(probes(steps), cfg.max_qr_version).1
}

/// The loss that LINK names.
pub open spec fn agreed_loss(cfg: LinkConfig, steps: Seq<Step>) -> u8 {
    lost(cfg.max_qr_version, flagged(steps), probes(steps))
}

/// HELLO.
pub open spec fn hello() -> Call {
    Call::Show(PayloadView::Hello { protocol_ver: 1, role: 2 })
}

/// Whether the handshake ended with `err`.
pub open spec fn ended_with(s: AcceptState, err: ErrorView) -> bool {
    s.pending() is None && !(s.at.phase is Offered) && s.verdict(Seq::empty()) == Err::<
        SessionView,
        ErrorView,
    >(err)
}

/// What comes of the probes: if any of them can be drawn the camera is asked for
/// its dwell, and otherwise the handshake ends.
pub open spec fn chooses(s: AcceptState, cfg: LinkConfig, steps: Seq<Step>) -> bool {
    if any_eligible(probes(steps), cfg.max_qr_version) {
        s.pending() == Some(Call::SuggestDwell)
    } else {
        ended_with(s, ErrorView::NoUsableProbe)
    }
}

spec fn has_picked(s: AcceptState, steps: Seq<Step>) -> bool {
    &&& any_eligible(probes(steps), s.cfg.max_qr_version)
    &&& s.at.qr_version == agreed_version(s.cfg, steps)
    &&& s.at.probe_loss == agreed_loss(s.cfg, steps)
}

spec fn has_settled(s: AcceptState, steps: Seq<Step>) -> bool {
    &&& steps.len() > 0
    &&& settled(steps)
    &&& has_picked(s, steps)
    &&& s.at.dwell_ms == agreed_dwell(s.cfg, steps)
}

spec fn told_by(s: AcceptState, now: u64, steps: Seq<Step>) -> bool {
    &&& s.at.now == read_last(now, steps)
    &&& s.probes == probes(steps)
    &&& s.last_offered == flagged(steps)
    &&& match s.at.phase {
        AcceptPhase::Hello(deadline, rest) => !settled(steps) && s.probes.len() == 0 && deadline
            == until(now, hello_span(s.cfg)) && rest == left(deadline, s.at.now),
        AcceptPhase::AwaitProbe(deadline, rest) => !settled(steps) && s.probes.len() == 0
            && deadline == until(now, hello_span(s.cfg)) && steps.len() > 0 && rest == left(
            deadline,
            read_last(now, steps.drop_last()),
        ) && steps.last().turn.call == hello(),
        AcceptPhase::MoreProbes(deadline) => !settled(steps) && s.probes.len() > 0 && deadline
            == until(probed_at(now, steps), probe_span(s.cfg)),
        AcceptPhase::Suggest => !settled(steps) && has_picked(s, steps) && s.at.dwell_ms == picked(
            probes(steps),
            s.cfg.max_qr_version,
        ).2,
        AcceptPhase::LockVersion => has_settled(s, steps),
        AcceptPhase::LogFound => has_settled(s, steps) && steps.last().turn.call is SetVersion,
        AcceptPhase::ShowLink => has_settled(s, steps) && steps.last().turn.call is Log,
        AcceptPhase::AwaitGo(deadline) => has_settled(s, steps) && deadline == until(
            wait_began(now, steps),
            go_span(s.cfg),
        ),
        AcceptPhase::Offered => has_settled(s, steps),
        AcceptPhase::Over(LinkEnd::Timeout)
        | AcceptPhase::Over(LinkEnd::NoProbe)
        | AcceptPhase::Over(LinkEnd::Failed) => true,
        _ => false,
    }
}

spec fn best_version(best: Option<Seen>) -> u8 {
    match best {
        Some((_, qr_version, _)) => qr_version,
        None => 0,
    }
}

#[verifier::rlimit(30)]
proof fn picks_agree(seen: Seq<Seen>, max: u8)
    ensures
        match link_recv::best_probe(link_recv::usable_probes(seen, max)) {
            Some(best) => any_eligible(seen, max) && best == picked(seen, max) && exists|b: int|
                is_best(seen, max, b) && seen[b] == best,
            None => !any_eligible(seen, max),
        },
        forall|id: u8| #[trigger]
            link_recv::probe_ids(link_recv::usable_probes(seen, max)).contains(id)
                <==> arrived_ids(seen, max).contains(id),
    decreases seen.len(),
{
    if seen.len() > 0 {
        let rest = seen.drop_last();
        let last = seen.last();
        let n = seen.len() - 1;
        picks_agree(rest, max);
        let kept = link_recv::usable_probes(rest, max);
        let all = link_recv::usable_probes(seen, max);
        assert(seen[n] == last);
        assert(forall|i: int| 0 <= i < n ==> #[trigger] seen[i] == rest[i]);
        assert(eligible(last, max) ==> all.drop_last() =~= kept);
        assert forall|id: u8| #[trigger] link_recv::probe_ids(all).contains(id) <==> arrived_ids(
            seen,
            max,
        ).contains(id) by {
            assert(link_recv::probe_ids(kept).contains(id) <==> arrived_ids(rest, max).contains(id));
            if arrived_ids(rest, max).contains(id) {
                let i = choose|i: int|
                    0 <= i < rest.len() && eligible(#[trigger] rest[i], max) && rest[i].0 == id;
                assert(eligible(seen[i], max));
            }
            if arrived_ids(seen, max).contains(id) {
                let i = choose|i: int|
                    0 <= i < seen.len() && eligible(#[trigger] seen[i], max) && seen[i].0 == id;
                if i < n {
                    assert(eligible(rest[i], max));
                }
            }
            if eligible(seen[n], max) {
                assert(arrived_ids(seen, max).contains(last.0));
            }
        }
        let earlier = link_recv::best_probe(kept);
        if let Some(best) = link_recv::best_probe(all) {
            let b = if eligible(last, max) && (earlier is None || last.1 >= best_version(earlier)) {
                assert forall|i: int| 0 <= i < seen.len() && eligible(#[trigger] seen[i], max) implies
                    seen[i].1 <= last.1 by {
                    if i < n {
                        assert(eligible(rest[i], max));
                        if earlier is Some {
                            let e = choose|b: int| is_best(rest, max, b) && rest[b] == earlier->0;
                            assert(rest[i].1 <= rest[e].1);
                        }
                    }
                }
                n
            } else {
                let e = choose|b: int| is_best(rest, max, b) && rest[b] == earlier->0;
                assert(seen[e] == rest[e]);
                e
            };
            assert(seen[b] == best);
            assert forall|i: int| 0 <= i < seen.len() && eligible(#[trigger] seen[i], max) implies
                seen[i].1 <= seen[b].1 by {
                if i < n {
                    assert(eligible(rest[i], max));
                }
            }
            assert forall|i: int| b < i < seen.len() && eligible(#[trigger] seen[i], max) implies
                seen[i].1 < seen[b].1 by {
                if i < n {
                    assert(eligible(rest[i], max));
                }
            }
            assert(is_best(seen, max, b));
            let c = choose|c: int| is_best(seen, max, c);
            assert(is_best(seen, max, c));
            assert(eligible(seen[c], max) && eligible(seen[b], max));
            assert(c == b);
            assert(eligible(seen[b], max));
        } else {
            assert forall|i: int| 0 <= i < seen.len() implies !eligible(#[trigger] seen[i], max) by {
                if i < n && eligible(seen[i], max) {
                    assert(eligible(rest[i], max));
                }
            }
        }
    } else {
        assert(link_recv::usable_probes(seen, max).len() == 0);
        assert(!any_eligible(seen, max));
    }
}

proof fn losses_agree(max: u8, last: Option<u8>, seen: Seq<Seen>)
    ensures
        lost(max, last, seen) == link_recv::loss_percent(
            link::probes_counting(6, max, last),
            link_recv::probe_ids(link_recv::usable_probes(seen, max)).len(),
        ),
{
    picks_agree(seen, max);
    assert(link_recv::probe_ids(link_recv::usable_probes(seen, max)) =~= arrived_ids(seen, max));
    assert(PROBES@[0] == (0u8, 10u8, 250u16));
    assert(PROBES@[1] == (1u8, 15u8, 250u16));
    assert(PROBES@[2] == (2u8, 20u8, 200u16));
    assert(PROBES@[3] == (3u8, 25u8, 200u16));
    assert(PROBES@[4] == (4u8, 30u8, 150u16));
    assert(PROBES@[5] == (5u8, 40u8, 150u16));
    reveal_with_fuel(link::probes_counting, 7);
    assert(link::probes_counting(6, max, last) == expected(max, last));
}

#[verifier::rlimit(30)]
proof fn the_history_tells(cfg: LinkConfig, now: u64, steps: Seq<Step>)
    requires
        machine::lawful(link_recv::accept_start(cfg, now), steps),
    ensures
        ({
            let s = machine::after(link_recv::accept_start(cfg, now), steps);
            &&& s.cfg == cfg
            &&& told_by(s, now, steps)
        }),
    decreases steps.len(),
{
    if steps.len() > 0 {
        let old_steps = steps.drop_last();
        let start = link_recv::accept_start(cfg, now);
        the_history_tells(cfg, now, old_steps);
        let s = machine::after(start, old_steps);
        let t = machine::after(start, steps);
        picks_agree(probes(steps), cfg.max_qr_version);
        losses_agree(cfg.max_qr_version, flagged(steps), probes(steps));
        if probes(steps) != probes(old_steps) {
            assert(probes(steps).len() == probes(old_steps).len() + 1);
        }
        if s.at.phase is MoreProbes && (heard(steps) matches Some(PayloadView::Probe { .. })) {
            assert(probes(steps) != probes(old_steps));
        }
        assert(told_by(t, now, steps));
    }
}

/// The receiver starts by showing HELLO.
pub proof fn law_how_accepting_starts(cfg: LinkConfig, now: u64)
    ensures
        machine::after(link_recv::accept_start(cfg, now), Seq::empty()).pending() == Some(hello()),
{
}

/// HELLO is followed by a short look for a probe: 50 ms, or what is left of the
/// wait.
pub proof fn law_what_follows_hello(cfg: LinkConfig, now: u64, steps: Seq<Step>)
    requires
        machine::lawful(link_recv::accept_start(cfg, now), steps),
        steps.len() > 0,
        steps.last().turn.call == hello(),
    ensures
        ({
            let rest = left(until(now, hello_span(cfg)), read_last(now, steps.drop_last()));
            machine::after(link_recv::accept_start(cfg, now), steps).pending() == Some(
                Call::Poll(
                    clock::nanos_duration(
                        if rest < 50_000_000 {
                            rest
                        } else {
                            50_000_000
                        },
                    ),
                ),
            )
        }),
{
    the_history_tells(cfg, now, steps.drop_last());
    the_history_tells(cfg, now, steps);
}

/// Until a probe arrives, HELLO is shown again and again; the handshake times
/// out only once the time is up. After a probe, more of them are awaited, each
/// starting the wait again, until one is flagged as the last, or nothing comes,
/// or the time is up. Then the best of those that arrived is picked, whichever
/// of the others are missing: only if none of them can be drawn does the
/// handshake end without a usable probe.
pub proof fn law_what_follows_a_poll_for_probes(cfg: LinkConfig, now: u64, steps: Seq<Step>)
    requires
        machine::lawful(link_recv::accept_start(cfg, now), steps),
        steps.len() > 0,
        steps.last().turn.call is Poll,
        !settled(steps),
    ensures
        ({
            let s = machine::after(link_recv::accept_start(cfg, now), steps);
            let deadline = until(probed_at(now, steps), probe_span(cfg));
            if probes(steps).len() == 0 {
                if steps.last().at <= until(now, hello_span(cfg)) {
                    s.pending() == Some(hello())
                } else {
                    ended_with(s, ErrorView::HandshakeTimeout)
                }
            } else if heard(steps) is None || (heard(steps) matches Some(
                PayloadView::Probe { last: true, .. },
            )) || steps.last().at > deadline {
                chooses(s, cfg, steps)
            } else {
                s.pending() == Some(
                    Call::Poll(clock::nanos_duration(left(deadline, steps.last().at))),
                )
            }
        }),
{
    let start = link_recv::accept_start(cfg, now);
    let old_steps = steps.drop_last();
    the_history_tells(cfg, now, old_steps);
    the_history_tells(cfg, now, steps);
    picks_agree(probes(steps), cfg.max_qr_version);
    let s = machine::after(start, old_steps);
    if heard(steps) matches Some(PayloadView::Probe { .. }) {
        assert(probes(steps).len() == probes(old_steps).len() + 1);
    }
}

/// The handshake ends without a usable probe only if none of the probes that
/// arrived can be drawn.
pub proof fn law_no_usable_probe_means_none(cfg: LinkConfig, now: u64, steps: Seq<Step>, i: int)
    requires
        machine::lawful(link_recv::accept_start(cfg, now), steps),
        ended_with(
            machine::after(link_recv::accept_start(cfg, now), steps),
            ErrorView::NoUsableProbe,
        ),
        0 <= i < probes(steps).len(),
    ensures
        probes(steps)[i].0 >= 6 || probes(steps)[i].1 > cfg.max_qr_version,
{
    assert(steps.len() > 0);
    the_history_tells(cfg, now, steps.drop_last());
    the_history_tells(cfg, now, steps);
    law_what_follows_a_poll_for_probes(cfg, now, steps);
    assert(!eligible(probes(steps)[i], cfg.max_qr_version));
}

/// The version that is picked arrived, can be drawn, and is the highest of
/// those.
pub proof fn law_the_pick_is_the_best_that_arrived(seen: Seq<Seen>, max: u8, i: int)
    requires
        0 <= i < seen.len(),
        seen[i].0 < 6,
        seen[i].1 <= max,
    ensures
        seen[i].1 <= picked(seen, max).1 <= max,
        seen.contains(picked(seen, max)),
        link_recv::best_probe(link_recv::usable_probes(seen, max)) == Some(picked(seen, max)),
{
    picks_agree(seen, max);
    assert(eligible(seen[i], max));
    let b = choose|b: int| is_best(seen, max, b);
    assert(is_best(seen, max, b));
}

/// Once the camera has named its dwell, the picked version is locked, the find
/// noted, and LINK shown with that version, the agreed dwell and the loss; then
/// GO is awaited.
pub proof fn law_what_follows_the_pick(cfg: LinkConfig, now: u64, steps: Seq<Step>)
    requires
        machine::lawful(link_recv::accept_start(cfg, now), steps),
        steps.len() > 0,
        settled(steps),
        !(steps.last().turn.call is Poll),
    ensures
        ({
            let next = machine::after(link_recv::accept_start(cfg, now), steps).pending();
            &&& any_eligible(probes(steps), cfg.max_qr_version)
            &&& match steps.last().turn.call {
                Call::SuggestDwell => next == Some(Call::SetVersion(agreed_version(cfg, steps))),
                Call::SetVersion(_) => next == Some(
                    Call::Log(
                        "sender found: best readable QR v"@ + text::decimal(
                            agreed_version(cfg, steps) as nat,
                        ) + ", "@ + text::decimal(agreed_loss(cfg, steps) as nat)
                            + "% probe loss"@,
                    ),
                ),
                Call::Log(_) => next == Some(
                    Call::Show(
                        PayloadView::Link {
                            qr_version: agreed_version(cfg, steps),
                            dwell_ms: agreed_dwell(cfg, steps),
                            probe_loss: agreed_loss(cfg, steps),
                        },
                    ),
                ),
                Call::Show(_) => next == Some(sending::waiting(now, steps, go_span(cfg))),
                _ => false,
            }
        }),
{
    the_history_tells(cfg, now, steps.drop_last());
    the_history_tells(cfg, now, steps);
}

/// The terms that a receiver takes on with the offer `goods`.
pub open spec fn terms(cfg: LinkConfig, steps: Seq<Step>, goods: GoodsView) -> SessionView {
    SessionView {
        qr_version: agreed_version(cfg, steps),
        dwell_ms: agreed_dwell(cfg, steps),
        basename: goods.basename,
        uncompressed_hint: goods.uncompressed_hint,
        compressed_size: goods.compressed_size,
        chunk_count: goods.chunk_count,
        sha256: goods.sha256,
    }
}

/// What GO offers.
pub open spec fn goods_of(frame: Option<PayloadView>) -> Option<GoodsView> {
    match frame {
        Some(
            PayloadView::Go { basename, uncompressed_hint, compressed_size, chunk_count, sha256 },
        ) => Some(
            GoodsView { basename, uncompressed_hint, compressed_size, chunk_count, sha256 },
        ),
        _ => None,
    }
}

/// GO is an offer to be looked up under the name it carries. Silence ends the
/// handshake, and so does anything else once the time is up; until then other
/// frames are passed over.
pub proof fn law_what_follows_a_poll_for_go(cfg: LinkConfig, now: u64, steps: Seq<Step>)
    requires
        machine::lawful(link_recv::accept_start(cfg, now), steps),
        steps.len() > 0,
        settled(steps),
        steps.last().turn.call is Poll,
    ensures
        ({
            let s = machine::after(link_recv::accept_start(cfg, now), steps);
            match goods_of(heard(steps)) {
                Some(goods) => s.pending() is None && s.at.phase is Offered && s.goods == Some(goods)
                    && s.session() == terms(cfg, steps, goods),
                None => if heard(steps) is Some && steps.last().at <= until(
                    wait_began(now, steps),
                    go_span(cfg),
                ) {
                    s.pending() == Some(sending::waiting(now, steps, go_span(cfg)))
                } else {
                    ended_with(s, ErrorView::HandshakeFailed)
                },
            }
        }),
{
    the_history_tells(cfg, now, steps.drop_last());
    the_history_tells(cfg, now, steps);
    assert(wait_began(now, steps) == wait_began(now, steps.drop_last()));
}

/// The requests that answer an offer: FAIL "aborted" if the destination is taken
/// and may not be replaced; otherwise the offer is noted and an ACK shown.
pub open spec fn reply_to(refused: bool, goods: GoodsView) -> Seq<Call> {
    if refused {
        seq![Call::Show(PayloadView::Fail { reason: 4 })]
    } else {
        seq![
            Call::Log(
                "offer: "@ + goods.basename + ", "@ + text::decimal(goods.compressed_size as nat)
                    + " B compressed, "@ + text::decimal(goods.chunk_count as nat) + " chunks"@,
            ),
            Call::Show(PayloadView::Ack { window_base: 0, bitmap: 0 }),
        ]
    }
}

/// An offer is refused exactly if its destination is taken and `force` is not
/// set, and the refusal names the destination. Any other is taken: the result is
/// the session. Either way the reply is made in full, unless a request fails,
/// which is then the result.
#[verifier::rlimit(30)]
pub proof fn law_how_an_offer_is_answered(
    cfg: LinkConfig,
    now: u64,
    steps: Seq<Step>,
    goods: GoodsView,
    dest: Seq<char>,
    force: bool,
    taken: bool,
    before: Seq<Turn>,
    after: Seq<Turn>,
    result: std::result::Result<SessionView, ErrorView>,
)
    requires
        machine::lawful(link_recv::accept_start(cfg, now), steps),
        steps.len() > 0,
        settled(steps),
        steps.last().turn.call is Poll,
        goods_of(heard(steps)) == Some(goods),
        link_recv::offer_answered(
            dest,
            force,
            taken,
            machine::after(link_recv::accept_start(cfg, now), steps),
            before,
            after,
            result,
        ),
    ensures
        ({
            let reply = reply_to(taken && !force, goods);
            &&& before.len() < after.len() <= before.len() + reply.len()
            &&& after.take(before.len() as int) == before
            &&& forall|k: int|
                before.len() <= k < after.len() ==> (#[trigger] after[k]).call == reply[k
                    - before.len()]
            &&& match after.last().answer {
                Ok(_) => after.len() == before.len() + reply.len() && result == (if taken && !force {
                    Err::<SessionView, ErrorView>(ErrorView::DestExists(dest))
                } else {
                    Ok::<SessionView, ErrorView>(terms(cfg, steps, goods))
                }),
                Err(e) => result == Err::<SessionView, ErrorView>(e),
            }
        }),
{
    law_what_follows_a_poll_for_go(cfg, now, steps);
    let offered = machine::after(link_recv::accept_start(cfg, now), steps);
    let start = offered.decided(taken, force);
    let (end, outcome) = choose|end: AcceptState, outcome: std::result::Result<(), ErrorView>|
        #[trigger] machine::ran_on(start, before, after, end, outcome) && result == match outcome {
            Ok(_) => end.verdict(dest),
            Err(e) => Err(e),
        };
    let more = machine::law_runs_go_to_their_end(start, before, after, end, outcome);
    let reply = reply_to(taken && !force, goods);
    replying(start, more, goods, taken && !force);
    assert(after.take(before.len() as int) =~= before);
    if more.len() > 0 {
        delivery::lawful_step(start, more, more.len() - 1);
        assert(more.last() == more[more.len() - 1]);
    }
}

proof fn replying(start: AcceptState, more: Seq<Step>, goods: GoodsView, refused: bool)
    requires
        machine::lawful(start, more),
        start.goods == Some(goods),
        start.at.phase == (if refused {
            AcceptPhase::Refuse
        } else {
            AcceptPhase::LogOffer
        }),
    ensures
        ({
            let s = machine::after(start, more);
            let reply = reply_to(refused, goods);
            &&& more.len() <= reply.len()
            &&& forall|k: int|
                0 <= k < more.len() ==> (#[trigger] more[k]).turn.call == reply[k]
            &&& s.goods == start.goods
            &&& s.at.qr_version == start.at.qr_version
            &&& s.at.dwell_ms == start.at.dwell_ms
            &&& more.len() < reply.len() ==> s.pending() == Some(reply[more.len() as int])
            &&& more.len() == reply.len() ==> s.at.phase == AcceptPhase::Over(
                if refused {
                    LinkEnd::Exists
                } else {
                    LinkEnd::Linked
                },
            )
            &&& !refused && more.len() == 0 ==> s.at.phase is LogOffer
            &&& !refused && more.len() == 1 ==> s.at.phase is Accept
            &&& refused && more.len() == 0 ==> s.at.phase is Refuse
        }),
    decreases more.len(),
{
    if more.len() > 0 {
        let fewer = more.drop_last();
        replying(start, fewer, goods, refused);
        assert forall|k: int| 0 <= k < more.len() implies (#[trigger] more[k]).turn.call
            == reply_to(refused, goods)[k] by {
            if k < fewer.len() {
                assert(fewer[k] == more[k]);
            }
        }
    }
}

/// The receiver's handshake is a run from its start to its end, unless a request
/// fails, which is then the result. If it ends with an offer, that is looked up
/// under its name and answered by what was found.
pub proof fn law_accepting_goes_to_its_end(
    outdir: Seq<char>,
    force: bool,
    cfg: LinkConfig,
    before: Seq<Turn>,
    after: Seq<Turn>,
    result: std::result::Result<SessionView, ErrorView>,
) -> (run: (u64, Seq<Step>))
    requires
        link_recv::offer_taken(outdir, force, cfg, before, after, result),
    ensures
        ({
            let start = link_recv::accept_start(cfg, run.0);
            let s = machine::after(start, run.1);
            &&& machine::lawful(start, run.1)
            &&& {
                ||| s.pending() is None && !(s.at.phase is Offered) && result == s.verdict(
                    Seq::empty(),
                ) && machine::recorded(start, run.1, before, after, None)
                ||| s.pending() is None && s.at.phase is Offered && exists|
                    dest: Seq<char>,
                    taken: bool,
                |
                    #[trigger] link_recv::offer_answered(
                        dest,
                        force,
                        taken,
                        s,
                        before + machine::turns_of(run.1),
                        after,
                        result,
                    ) && pack::path_joins(outdir, s.goods->0.basename).contains(dest)
                        && pack::exists_answers(dest).contains(taken)
                ||| result is Err && machine::recorded(
                    start,
                    run.1,
                    before,
                    after,
                    Some(result->Err_0),
                )
                ||| run.1.len() == 0xffff_ffff_ffff_ffff && result == Err::<SessionView, ErrorView>(
                    ErrorView::HandshakeFailed,
                )
            }
        }),
{
    let (now, mid, offered, outcome) = choose|
        now: u64,
        mid: Seq<Turn>,
        offered: AcceptState,
        outcome: std::result::Result<(), ErrorView>,
    |
        #[trigger] machine::ran_on(
            link_recv::accept_start(cfg, now),
            before,
            mid,
            offered,
            outcome,
        ) && match outcome {
            Ok(_) => if offered.at.phase is Offered {
                exists|dest: Seq<char>, taken: bool| #[trigger]
                    link_recv::offer_answered(dest, force, taken, offered, mid, after, result)
                        && pack::looked_up(outdir, offered.goods->0.basename, dest, taken)
            } else {
                after == mid && result == offered.verdict(Seq::empty())
            },
            Err(e) => after == mid && result == Err::<SessionView, ErrorView>(e),
        };
    let start = link_recv::accept_start(cfg, now);
    let steps = machine::law_runs_go_to_their_end(start, before, mid, offered, outcome);
    if outcome is Ok && offered.at.phase is Offered {
        let (dest, taken) = choose|dest: Seq<char>, taken: bool| #[trigger]
            link_recv::offer_answered(dest, force, taken, offered, mid, after, result)
                && pack::looked_up(outdir, offered.goods->0.basename, dest, taken);
        assert(link_recv::offer_answered(
            dest,
            force,
            taken,
            machine::after(start, steps),
            before + machine::turns_of(steps),
            after,
            result,
        ));
    }
    (now, steps)
}

} // verus!
