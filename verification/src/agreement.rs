//! What the handshake guarantees: the laws of its two halves, over every run
//! they can make.
use crate::delivery;
use crate::delivery::{polled, shown};
use crate::error::ErrorView;
use crate::frame;
use crate::frame::{PayloadView, FAIL_ABORTED};
use crate::link;
use crate::link::{LinkConfig, LinkEnd, SessionView, PROBES};
use crate::link_recv;
use crate::link_recv::{AcceptPhase, AcceptState, Seen};
use crate::link_send;
use crate::link_send::{OfferPhase, OfferState};
use crate::machine;
use crate::machine::{Protocol, Step};
use crate::optical::{Answer, Call, Turn};
use crate::transport;
use crate::window;
use vstd::prelude::*;

verus! {

proof fn offer_keeps_inv(s: OfferState, now: u64, answer: Answer)
    requires
        s.inv(),
    ensures
        s.next(now, answer).inv(),
        s.next(now, answer).cfg == s.cfg,
        s.next(now, answer).basename == s.basename,
        s.next(now, answer).uncompressed_hint == s.uncompressed_hint,
        s.next(now, answer).compressed_size == s.compressed_size,
        s.next(now, answer).sha256 == s.sha256,
{
}

/// In every run of the sender's handshake its invariant holds and the offer
/// stays the same.
pub proof fn law_offer_invariant(start: OfferState, steps: Seq<Step>)
    requires
        start.inv(),
        machine::lawful(start, steps),
    ensures
        machine::after(start, steps).inv(),
        machine::after(start, steps).cfg == start.cfg,
        machine::after(start, steps).basename == start.basename,
        machine::after(start, steps).uncompressed_hint == start.uncompressed_hint,
        machine::after(start, steps).compressed_size == start.compressed_size,
        machine::after(start, steps).sha256 == start.sha256,
    decreases steps.len(),
{
    if steps.len() > 0 {
        law_offer_invariant(start, steps.drop_last());
        offer_keeps_inv(
            machine::after(start, steps.drop_last()),
            steps.last().at,
            steps.last().turn.answer->Ok_0,
        );
    }
}

/// The sender offers only probes of the table that its own display can draw,
/// and flags exactly the largest of those as the last.
pub proof fn law_no_probe_beyond_the_display(start: OfferState, steps: Seq<Step>, i: int)
    requires
        start.inv(),
        machine::lawful(start, steps),
        0 <= i < steps.len(),
        shown(steps[i].turn) is Some,
        shown(steps[i].turn)->0 is Probe,
    ensures
        shown(steps[i].turn) matches Some(PayloadView::Probe { id, qr_version, dwell_ms, last }) && {
            &&& id < 6
            &&& PROBES@[id as int] == (id, qr_version, dwell_ms)
            &&& qr_version <= start.cfg.max_qr_version
            &&& last <==> forall|j: int|
                0 <= j < 6 && (#[trigger] PROBES@[j]).1 <= start.cfg.max_qr_version ==> j <= id
        },
{
    delivery::lawful_step(start, steps, i);
    law_offer_invariant(start, steps.take(i));
    let s = machine::after(start, steps.take(i));
    link::probes_are_a_prefix(s.cfg.max_qr_version, None);
    let k = s.at.phase->Probe_0;
    assert(link::probe_counts(k as int, s.cfg.max_qr_version, None));
    assert forall|j: int| 0 <= j < 6 implies ((#[trigger] PROBES@[j]).1 <= s.cfg.max_qr_version
        <==> j < s.offered()) by {
        assert(link::probe_counts(j, s.cfg.max_qr_version, None) <==> j < s.offered());
    }
    if k + 1 < s.offered() {
        assert(PROBES@[k + 1].1 <= s.cfg.max_qr_version);
    }
}

/// Neither the wait for HELLO, nor the probes, nor the offer ever asks the
/// operator anything.
pub proof fn law_sender_handshake_asks_nothing(start: OfferState, steps: Seq<Step>, i: int)
    requires
        machine::lawful(start, steps),
        0 <= i < steps.len(),
    ensures
        !(steps[i].turn.call is Gate),
{
    delivery::lawful_step(start, steps, i);
}

/// Nor does the receiver's half.
pub proof fn law_receiver_handshake_asks_nothing(start: AcceptState, steps: Seq<Step>, i: int)
    requires
        machine::lawful(start, steps),
        0 <= i < steps.len(),
    ensures
        !(steps[i].turn.call is Gate),
{
    delivery::lawful_step(start, steps, i);
}

/// Whether `version` was locked somewhere in `steps`.
pub open spec fn locked(steps: Seq<Step>, version: u8) -> bool {
    exists|j: int| 0 <= j < steps.len() && (#[trigger] steps[j]).turn.call == Call::SetVersion(
        version,
    )
}

/// Whether `steps` polled a LINK that names `version`.
pub open spec fn linked(steps: Seq<Step>, version: u8) -> bool {
    exists|j: int| 0 <= j < steps.len() && names(#[trigger] steps[j], version)
}

pub open spec fn names(step: Step, version: u8) -> bool {
    polled(step.turn) matches Some(PayloadView::Link { qr_version, .. }) && qr_version == version
}

proof fn locked_grows(steps: Seq<Step>, version: u8)
    requires
        steps.len() > 0,
        locked(steps.drop_last(), version),
    ensures
        locked(steps, version),
{
    let before = steps.drop_last();
    let j = choose|j: int| 0 <= j < before.len() && (#[trigger] before[j]).turn.call
        == Call::SetVersion(version);
    assert(steps[j] == before[j]);
}

proof fn linked_grows(steps: Seq<Step>, version: u8)
    requires
        steps.len() > 0,
        linked(steps.drop_last(), version),
    ensures
        linked(steps, version),
{
    let before = steps.drop_last();
    let j = choose|j: int| 0 <= j < before.len() && names(#[trigger] before[j], version);
    assert(steps[j] == before[j]);
}

proof fn offer_locks_what_was_linked(start: OfferState, steps: Seq<Step>)
    requires
        start.at.phase is AwaitHello,
        machine::lawful(start, steps),
    ensures
        ({
            let s = machine::after(start, steps);
            match s.at.phase {
                OfferPhase::LockVersion => linked(steps, s.at.qr_version),
                OfferPhase::LogLinked
                | OfferPhase::ShowGo
                | OfferPhase::AwaitAccept(_)
                | OfferPhase::LogAccepted
                | OfferPhase::Over(LinkEnd::Linked) => linked(steps, s.at.qr_version) && locked(
                    steps,
                    s.at.qr_version,
                ),
                _ => true,
            }
        }),
    decreases steps.len(),
{
    if steps.len() > 0 {
        let before = steps.drop_last();
        let s = machine::after(start, before);
        offer_locks_what_was_linked(start, before);
        let last = steps[steps.len() - 1];
        assert(last.turn.answer == Ok::<Answer, ErrorView>(last.turn.answer->Ok_0));
        if locked(before, s.at.qr_version) {
            locked_grows(steps, s.at.qr_version);
        }
        if linked(before, s.at.qr_version) {
            linked_grows(steps, s.at.qr_version);
        }
        match s.at.phase {
            OfferPhase::AwaitLink(_) => {
                let t = machine::after(start, steps);
                if t.at.phase is LockVersion {
                    assert(names(last, t.at.qr_version));
                }
            },
            OfferPhase::LockVersion => {
                assert(last.turn.call == Call::SetVersion(s.at.qr_version));
            },
            _ => {},
        }
    }
}

/// GO goes out only after the version that LINK named was locked, so that GO
/// and everything after it is encoded at the negotiated version.
pub proof fn law_version_is_locked_before_go(
    start: OfferState,
    steps: Seq<Step>,
    i: int,
)
    requires
        start.at.phase is AwaitHello,
        machine::lawful(start, steps),
        0 <= i < steps.len(),
        shown(steps[i].turn) is Some,
        shown(steps[i].turn)->0 is Go,
    ensures
        ({
            let version = machine::after(start, steps.take(i)).at.qr_version;
            &&& linked(steps.take(i), version)
            &&& locked(steps.take(i), version)
        }),
{
    delivery::lawful_step(start, steps, i);
    offer_locks_what_was_linked(start, steps.take(i));
}

/// The sender's session is its offer at the linked version, which its display
/// can draw, with a dwell no shorter than its floor, and with a chunk count
/// that the blob really has, one for an empty blob.
pub proof fn law_sender_session(
    basename: Seq<char>,
    uncompressed_hint: u64,
    compressed_size: u64,
    sha256: Seq<u8>,
    cfg: LinkConfig,
    now: u64,
    steps: Seq<Step>,
)
    requires
        machine::lawful(
            link_send::offer_start(basename, uncompressed_hint, compressed_size, sha256, cfg, now),
            steps,
        ),
        machine::after(
            link_send::offer_start(basename, uncompressed_hint, compressed_size, sha256, cfg, now),
            steps,
        ).verdict() is Ok,
    ensures
        ({
            let session = machine::after(
                link_send::offer_start(
                    basename,
                    uncompressed_hint,
                    compressed_size,
                    sha256,
                    cfg,
                    now,
                ),
                steps,
            ).verdict()->Ok_0;
            &&& session.basename == basename
            &&& session.uncompressed_hint == uncompressed_hint
            &&& session.compressed_size == compressed_size
            &&& session.sha256 == sha256
            &&& session.qr_version <= cfg.max_qr_version
            &&& session.dwell_ms >= cfg.dwell_floor_ms
            &&& frame::chunk_room(session.qr_version) > 0
            &&& linked(steps, session.qr_version)
            &&& session.chunk_count == link_send::offer_count(
                compressed_size,
                frame::chunk_room(session.qr_version),
            )
        }),
{
    let start = link_send::offer_start(
        basename,
        uncompressed_hint,
        compressed_size,
        sha256,
        cfg,
        now,
    );
    law_offer_invariant(start, steps);
    offer_locks_what_was_linked(start, steps);
}

/// The best of several probes is one of them, and none has a higher version.
pub proof fn best_probe_is_best(probes: Seq<Seen>)
    ensures
        link_recv::best_probe(probes) is None <==> probes.len() == 0,
        link_recv::best_probe(probes) matches Some(best) ==> probes.contains(best) && forall|i: int|
            0 <= i < probes.len() ==> (#[trigger] probes[i]).1 <= best.1,
    decreases probes.len(),
{
    if probes.len() > 0 {
        let rest = probes.drop_last();
        best_probe_is_best(rest);
        assert(forall|i: int| 0 <= i < rest.len() ==> #[trigger] probes[i] == rest[i]);
        if let Some(best) = link_recv::best_probe(rest) {
            let k = choose|k: int| 0 <= k < rest.len() && rest[k] == best;
            assert(probes[k] == best);
        }
        assert(probes[probes.len() - 1] == probes.last());
    }
}

proof fn usable_probes_are_usable(probes: Seq<Seen>, max: u8)
    ensures
        forall|i: int|
            0 <= i < link_recv::usable_probes(probes, max).len() ==> link_recv::usable(
                #[trigger] link_recv::usable_probes(probes, max)[i],
                max,
            ) && probes.contains(link_recv::usable_probes(probes, max)[i]),
        forall|i: int|
            0 <= i < probes.len() && link_recv::usable(#[trigger] probes[i], max)
                ==> link_recv::usable_probes(probes, max).contains(probes[i]),
    decreases probes.len(),
{
    if probes.len() > 0 {
        let rest = probes.drop_last();
        let kept = link_recv::usable_probes(rest, max);
        let all = link_recv::usable_probes(probes, max);
        usable_probes_are_usable(rest, max);
        assert(probes[probes.len() - 1] == probes.last());
        assert forall|i: int| 0 <= i < all.len() implies link_recv::usable(
            #[trigger] all[i],
            max,
        ) && probes.contains(all[i]) by {
            if i < kept.len() {
                assert(all[i] == kept[i]);
                let k = choose|k: int| 0 <= k < rest.len() && rest[k] == kept[i];
                assert(probes[k] == kept[i]);
            }
        }
        assert forall|i: int|
            0 <= i < probes.len() && link_recv::usable(
                #[trigger] probes[i],
                max,
            ) implies all.contains(probes[i]) by {
            if i < rest.len() {
                assert(rest[i] == probes[i]);
                let k = choose|k: int| 0 <= k < kept.len() && kept[k] == rest[i];
                assert(all[k] == kept[k]);
            } else {
                assert(all[kept.len() as int] == probes[i]);
            }
        }
    }
}

/// The session that a sender links with is one under which its blob can be
/// sent, unless the blob is empty or has more chunks than can be numbered.
pub proof fn law_a_linked_session_describes_its_blob(
    basename: Seq<char>,
    uncompressed_hint: u64,
    compressed_size: u64,
    sha256: Seq<u8>,
    cfg: LinkConfig,
    now: u64,
    steps: Seq<Step>,
    session: SessionView,
)
    requires
        machine::lawful(
            link_send::offer_start(basename, uncompressed_hint, compressed_size, sha256, cfg, now),
            steps,
        ),
        machine::after(
            link_send::offer_start(basename, uncompressed_hint, compressed_size, sha256, cfg, now),
            steps,
        ).verdict() == Ok::<SessionView, ErrorView>(session),
        compressed_size > 0,
        window::chunk_total(compressed_size as nat, frame::chunk_room(session.qr_version))
            <= u32::MAX,
    ensures
        transport::describes(session, compressed_size as nat),
{
    law_sender_session(basename, uncompressed_hint, compressed_size, sha256, cfg, now, steps);
    let len = compressed_size as int;
    let size = frame::chunk_room(session.qr_version) as int;
    vstd::arithmetic::div_mod::lemma_fundamental_div_mod(len, size);
    assert(len % size == 0 ==> len / size > 0) by (nonlinear_arith)
        requires
            len > 0,
            size > 0,
            len == size * (len / size) + len % size,
    ;
}

/// The receiver picks a version that its display can draw and that really
/// arrived, and no higher usable one arrived; without a usable probe the
/// handshake ends with "no usable probe".
pub proof fn law_receiver_picks_the_best_readable_version(s: AcceptState)
    ensures
        ({
            let t = s.chosen();
            let max = s.cfg.max_qr_version;
            if exists|i: int| 0 <= i < s.probes.len() && link_recv::usable(#[trigger] s.probes[i], max)
            {
                &&& t.at.phase is Suggest
                &&& t.at.qr_version <= max
                &&& exists|i: int|
                    0 <= i < s.probes.len() && (#[trigger] s.probes[i]).1 == t.at.qr_version
                        && s.probes[i].2 == t.at.dwell_ms && link_recv::usable(s.probes[i], max)
                &&& forall|i: int|
                    0 <= i < s.probes.len() && link_recv::usable(#[trigger] s.probes[i], max)
                        ==> s.probes[i].1 <= t.at.qr_version
            } else {
                t.at.phase == AcceptPhase::Over(LinkEnd::NoProbe)
            }
        }),
{
    let max = s.cfg.max_qr_version;
    let seen = link_recv::usable_probes(s.probes, max);
    usable_probes_are_usable(s.probes, max);
    best_probe_is_best(seen);
    if let Some(best) = link_recv::best_probe(seen) {
        let k = choose|k: int| 0 <= k < seen.len() && seen[k] == best;
        assert(link_recv::usable(seen[k], max));
        let i = choose|i: int| 0 <= i < s.probes.len() && s.probes[i] == seen[k];
        assert(link_recv::usable(s.probes[i], max));
        assert forall|i: int|
            0 <= i < s.probes.len() && link_recv::usable(#[trigger] s.probes[i], max) implies
            s.probes[i].1 <= best.1 by {
            let j = choose|j: int| 0 <= j < seen.len() && seen[j] == s.probes[i];
            assert(seen[j].1 <= best.1);
        }
    } else {
        assert forall|i: int| 0 <= i < s.probes.len() implies !link_recv::usable(
            #[trigger] s.probes[i],
            max,
        ) by {
            if link_recv::usable(s.probes[i], max) {
                assert(seen.contains(s.probes[i]));
            }
        }
    }
}

/// The loss is a percentage; it is nothing exactly when every probe that could
/// have counted arrived, and everything exactly when none did.
pub proof fn law_loss_is_a_percentage(eligible: nat, arrived: nat)
    requires
        eligible <= 6,
    ensures
        link_recv::loss_percent(eligible, arrived) <= 100,
        link_recv::loss_percent(eligible, arrived) == 0 <==> arrived >= eligible,
        link_recv::loss_percent(eligible, arrived) == 100 <==> eligible > 0 && arrived == 0,
{
    if arrived < eligible {
        let lost = eligible - arrived;
        let e = eligible as int;
        assert(1 <= 100 * lost / e <= 100 && (100 * lost / e == 100 <==> lost == e))
            by (nonlinear_arith)
            requires
                0 < lost <= e <= 6,
        ;
    }
}

/// The receiver's dwell is never shorter than what the picked probe, the floor
/// of the attempt, or its own camera asks for, and no longer than the longest
/// of them.
pub proof fn law_receiver_owns_the_dwell(s: AcceptState, now: u64, suggested: u16)
    requires
        s.at.phase is Suggest,
    ensures
        ({
            let t = s.next(now, Answer::Dwell(suggested));
            &&& t.at.phase is LockVersion
            &&& t.at.dwell_ms >= s.at.dwell_ms
            &&& t.at.dwell_ms >= s.cfg.dwell_floor_ms
            &&& t.at.dwell_ms >= suggested
            &&& t.at.dwell_ms == s.at.dwell_ms || t.at.dwell_ms == s.cfg.dwell_floor_ms
                || t.at.dwell_ms == suggested
        }),
{
}

/// An offer whose destination is taken is answered with FAIL "aborted" and
/// nothing else, and the handshake ends with the destination's path, unless
/// `force` says to replace it.
pub proof fn law_taken_destination_is_refused(
    dest: Seq<char>,
    offered: AcceptState,
    before: Seq<Turn>,
    after: Seq<Turn>,
    result: std::result::Result<SessionView, ErrorView>,
)
    requires
        offered.at.phase is Offered,
        offered.goods is Some,
        link_recv::offer_answered(dest, false, true, offered, before, after, result),
    ensures
        result is Err,
        after.len() == before.len() + 1,
        after.last().call == Call::Show(PayloadView::Fail { reason: FAIL_ABORTED }),
        after.last().answer is Ok ==> result == Err::<SessionView, ErrorView>(
            ErrorView::DestExists(dest),
        ),
        after.last().answer matches Err(e) ==> result == Err::<SessionView, ErrorView>(e),
{
    let (end, outcome) = choose|end: AcceptState, outcome: std::result::Result<(), ErrorView>|
        #[trigger] machine::ran_on(offered.decided(true, false), before, after, end, outcome)
            && result == match outcome {
            Ok(_) => end.verdict(dest),
            Err(e) => Err(e),
        };
    let start = offered.decided(true, false);
    let steps = choose|steps: Seq<Step>|
        after == before + machine::turns_of(steps) && #[trigger] machine::ran(
            start,
            steps,
            end,
            outcome,
        );
    refusal_is_one_step(start, steps);
    assert(after.last() == machine::turns_of(steps).last());
    assert(machine::turns_of(steps).last() == steps.last().turn);
}

proof fn refusal_is_one_step(start: AcceptState, steps: Seq<Step>)
    requires
        start.at.phase is Refuse,
        start.goods is Some,
    ensures
        machine::lawful(start, steps) ==> {
            &&& steps.len() <= 1
            &&& machine::after(start, steps).goods == start.goods
            &&& steps.len() == 0 ==> machine::after(start, steps) == start
            &&& steps.len() == 1 ==> machine::after(start, steps).at.phase == AcceptPhase::Over(
                LinkEnd::Exists,
            ) && steps[0].turn.call == Call::Show(PayloadView::Fail { reason: FAIL_ABORTED })
        },
        steps.len() > 0 && machine::lawful(start, steps.drop_last()) && machine::after(
            start,
            steps.drop_last(),
        ).pending() == Some(steps.last().turn.call) ==> steps.len() == 1 && steps.last().turn.call
            == Call::Show(PayloadView::Fail { reason: FAIL_ABORTED }),
    decreases steps.len(),
{
    if steps.len() > 0 {
        refusal_is_one_step(start, steps.drop_last());
    }
}

/// Whether the handshake's LINK is out, so that its terms no longer change.
spec fn link_is_out(phase: AcceptPhase) -> bool {
    match phase {
        AcceptPhase::AwaitGo(_)
        | AcceptPhase::Offered
        | AcceptPhase::Refuse
        | AcceptPhase::LogOffer
        | AcceptPhase::Accept
        | AcceptPhase::Over(_) => true,
        _ => false,
    }
}

proof fn link_terms_stay(start: AcceptState, steps: Seq<Step>, i: int)
    requires
        machine::lawful(start, steps),
        0 <= i < steps.len(),
        shown(steps[i].turn) is Some,
        shown(steps[i].turn)->0 is Link,
    ensures
        ({
            let s = machine::after(start, steps);
            &&& link_is_out(s.at.phase)
            &&& shown(steps[i].turn) matches Some(PayloadView::Link { qr_version, dwell_ms, .. })
                && qr_version == s.at.qr_version && dwell_ms == s.at.dwell_ms
        }),
    decreases steps.len(),
{
    if i < steps.len() - 1 {
        assert(steps.drop_last()[i] == steps[i]);
        link_terms_stay(start, steps.drop_last(), i);
    }
}

/// The GO that `goods` came in.
pub open spec fn go_of(goods: link_recv::GoodsView) -> PayloadView {
    PayloadView::Go {
        basename: goods.basename,
        uncompressed_hint: goods.uncompressed_hint,
        compressed_size: goods.compressed_size,
        chunk_count: goods.chunk_count,
        sha256: goods.sha256,
    }
}

proof fn goods_were_polled(start: AcceptState, steps: Seq<Step>) -> (j: int)
    requires
        start.goods is None,
        machine::lawful(start, steps),
        machine::after(start, steps).goods is Some,
    ensures
        0 <= j < steps.len(),
        polled(steps[j].turn) == Some(go_of(machine::after(start, steps).goods->0)),
    decreases steps.len(),
{
    let before = steps.drop_last();
    let s = machine::after(start, before);
    let t = machine::after(start, steps);
    let last = steps[steps.len() - 1];
    assert(last.turn.answer == Ok::<Answer, ErrorView>(last.turn.answer->Ok_0));
    if s.goods == t.goods {
        let j = goods_were_polled(start, before);
        assert(before[j] == steps[j]);
        j
    } else {
        steps.len() - 1
    }
}

spec fn link_is_in(phase: OfferPhase) -> bool {
    match phase {
        OfferPhase::LockVersion
        | OfferPhase::LogLinked
        | OfferPhase::ShowGo
        | OfferPhase::AwaitAccept(_)
        | OfferPhase::LogAccepted
        | OfferPhase::Over(LinkEnd::Linked) => true,
        _ => false,
    }
}

proof fn link_was_polled(start: OfferState, steps: Seq<Step>) -> (j: int)
    requires
        start.at.phase is AwaitHello,
        machine::lawful(start, steps),
        link_is_in(machine::after(start, steps).at.phase),
    ensures
        0 <= j < steps.len(),
        polled(steps[j].turn) matches Some(PayloadView::Link { qr_version, dwell_ms, .. }) && {
            let s = machine::after(start, steps);
            qr_version == s.at.qr_version && s.at.dwell_ms == link_recv::longer(
                dwell_ms,
                start.cfg.dwell_floor_ms,
            )
        },
        machine::after(start, steps).cfg == start.cfg,
    decreases steps.len(),
{
    let before = steps.drop_last();
    let s = machine::after(start, before);
    let last = steps[steps.len() - 1];
    assert(last.turn.answer == Ok::<Answer, ErrorView>(last.turn.answer->Ok_0));
    if link_is_in(s.at.phase) {
        let j = link_was_polled(start, before);
        assert(before[j] == steps[j]);
        j
    } else {
        offer_cfg_stays(start, before);
        steps.len() - 1
    }
}

proof fn offer_cfg_stays(start: OfferState, steps: Seq<Step>)
    ensures
        machine::after(start, steps).cfg == start.cfg,
    decreases steps.len(),
{
    if steps.len() > 0 {
        offer_cfg_stays(start, steps.drop_last());
    }
}

spec fn go_is_out(phase: OfferPhase) -> bool {
    match phase {
        OfferPhase::AwaitAccept(_) | OfferPhase::LogAccepted | OfferPhase::Over(_) => true,
        _ => false,
    }
}

proof fn go_terms_stay(start: OfferState, steps: Seq<Step>, i: int)
    requires
        machine::lawful(start, steps),
        0 <= i < steps.len(),
        shown(steps[i].turn) is Some,
        shown(steps[i].turn)->0 is Go,
    ensures
        go_is_out(machine::after(start, steps).at.phase),
        shown(steps[i].turn) == Some(machine::after(start, steps).go()),
    decreases steps.len(),
{
    if i < steps.len() - 1 {
        assert(steps.drop_last()[i] == steps[i]);
        go_terms_stay(start, steps.drop_last(), i);
    }
}

proof fn answering_keeps_terms(start: AcceptState, steps: Seq<Step>)
    requires
        start.at.phase is Refuse || start.at.phase is LogOffer,
        machine::lawful(start, steps),
    ensures
        ({
            let s = machine::after(start, steps);
            &&& s.goods == start.goods
            &&& s.at.qr_version == start.at.qr_version
            &&& s.at.dwell_ms == start.at.dwell_ms
            &&& s.at.phase is Refuse || s.at.phase is LogOffer || s.at.phase is Accept
                || s.at.phase is Over
        }),
    decreases steps.len(),
{
    if steps.len() > 0 {
        answering_keeps_terms(start, steps.drop_last());
    }
}

/// Whether every LINK (or GO) that `reader` polled was shown in `writer`.
pub open spec fn reads_from(reader: Seq<Turn>, writer: Seq<Turn>) -> bool {
    forall|i: int|
        0 <= i < reader.len() && (polled(#[trigger] reader[i]) matches Some(p) && (p is Link || p
            is Go)) ==> exists|j: int|
            0 <= j < writer.len() && shown(#[trigger] writer[j]) == polled(reader[i])
}

/// The GO that announces `session`.
pub open spec fn go_for(session: SessionView) -> PayloadView {
    PayloadView::Go {
        basename: session.basename,
        uncompressed_hint: session.uncompressed_hint,
        compressed_size: session.compressed_size,
        chunk_count: session.chunk_count,
        sha256: session.sha256,
    }
}

proof fn sender_run_facts(start: OfferState, steps: Seq<Step>) -> (l: int)
    requires
        start.at.phase is AwaitHello,
        machine::lawful(start, steps),
        machine::after(start, steps).verdict() is Ok,
    ensures
        ({
            let session = machine::after(start, steps).verdict()->Ok_0;
            &&& 0 <= l < steps.len()
            &&& polled(steps[l].turn) matches Some(PayloadView::Link { qr_version, dwell_ms, .. })
                && qr_version == session.qr_version && session.dwell_ms == link_recv::longer(
                dwell_ms,
                start.cfg.dwell_floor_ms,
            )
            &&& forall|h: int|
                0 <= h < steps.len() && (shown((#[trigger] steps[h]).turn) matches Some(p) && p
                    is Go) ==> shown(steps[h].turn) == Some(go_for(session))
        }),
{
    let session = machine::after(start, steps).verdict()->Ok_0;
    assert forall|h: int|
        0 <= h < steps.len() && (shown((#[trigger] steps[h]).turn) matches Some(p) && p
            is Go) implies shown(steps[h].turn) == Some(go_for(session)) by {
        go_terms_stay(start, steps, h);
    }
    link_was_polled(start, steps)
}

/// The sender took the terms of its session from a LINK it read, and every GO
/// it showed announces that session.
pub proof fn law_sender_keeps_to_its_session(
    basename: Seq<char>,
    uncompressed_hint: u64,
    compressed_size: u64,
    sha256: Seq<u8>,
    cfg: LinkConfig,
    before: Seq<Turn>,
    sent: Seq<Turn>,
    session: SessionView,
) -> (l: int)
    requires
        link_send::offer_made(
            basename,
            uncompressed_hint,
            compressed_size,
            sha256,
            cfg,
            before,
            before + sent,
            Ok(session),
        ),
    ensures
        0 <= l < sent.len(),
        polled(sent[l]) matches Some(PayloadView::Link { qr_version, dwell_ms, .. }) && qr_version
            == session.qr_version && session.dwell_ms == link_recv::longer(
            dwell_ms,
            cfg.dwell_floor_ms,
        ),
        forall|h: int|
            0 <= h < sent.len() && (shown(#[trigger] sent[h]) matches Some(p) && p is Go)
                ==> shown(sent[h]) == Some(go_for(session)),
{
    let (now, end, outcome) = choose|
        now: u64,
        end: OfferState,
        outcome: std::result::Result<(), ErrorView>,
    |
        #[trigger] machine::ran_on(
            link_send::offer_start(basename, uncompressed_hint, compressed_size, sha256, cfg, now),
            before,
            before + sent,
            end,
            outcome,
        ) && Ok::<SessionView, ErrorView>(session) == match outcome {
            Ok(_) => end.verdict(),
            Err(e) => Err(e),
        };
    let start = link_send::offer_start(
        basename,
        uncompressed_hint,
        compressed_size,
        sha256,
        cfg,
        now,
    );
    let steps = choose|steps: Seq<Step>|
        before + sent == before + machine::turns_of(steps) && #[trigger] machine::ran(
            start,
            steps,
            end,
            outcome,
        );
    same_suffix(before, sent, machine::turns_of(steps));
    assert(forall|i: int| 0 <= i < sent.len() ==> #[trigger] sent[i] == steps[i].turn);
    sender_run_facts(start, steps)
}

proof fn receiver_run_facts(
    start: AcceptState,
    steps: Seq<Step>,
    taken: bool,
    force: bool,
    more: Seq<Step>,
    dest: Seq<char>,
) -> (g: int)
    requires
        start.at.phase is Hello,
        start.goods is None,
        machine::lawful(start, steps),
        machine::after(start, steps).at.phase is Offered,
        machine::lawful(machine::after(start, steps).decided(taken, force), more),
        machine::after(
            machine::after(start, steps).decided(taken, force),
            more,
        ).verdict(dest) is Ok,
    ensures
        ({
            let session = machine::after(
                machine::after(start, steps).decided(taken, force),
                more,
            ).verdict(dest)->Ok_0;
            &&& 0 <= g < steps.len()
            &&& polled(steps[g].turn) == Some(go_for(session))
            &&& forall|m: int|
                0 <= m < steps.len() && (shown((#[trigger] steps[m]).turn) matches Some(p) && p
                    is Link) ==> (shown(steps[m].turn) matches Some(
                    PayloadView::Link { qr_version, dwell_ms, .. },
                ) && qr_version == session.qr_version && dwell_ms == session.dwell_ms)
            &&& forall|m: int|
                0 <= m < more.len() ==> !(shown((#[trigger] more[m]).turn) matches Some(p) && p
                    is Link)
        }),
{
    let offered = machine::after(start, steps);
    let a_start = offered.decided(taken, force);
    receiver_is_linked_only_when_answered(start, steps);
    answering_keeps_terms(a_start, more);
    assert forall|m: int|
        0 <= m < steps.len() && (shown((#[trigger] steps[m]).turn) matches Some(p) && p
            is Link) implies (shown(steps[m].turn) matches Some(
        PayloadView::Link { qr_version, dwell_ms, .. },
    ) && qr_version == offered.at.qr_version && dwell_ms == offered.at.dwell_ms) by {
        link_terms_stay(start, steps, m);
    }
    assert forall|m: int| 0 <= m < more.len() implies !(shown((#[trigger] more[m]).turn) matches Some(
        p,
    ) && p is Link) by {
        delivery::lawful_step(a_start, more, m);
        answering_keeps_terms(a_start, more.take(m));
    }
    goods_were_polled(start, steps)
}

/// The receiver took its session from a GO it read, and every LINK it showed
/// names the session's version and dwell.
pub proof fn law_receiver_keeps_to_its_session(
    outdir: Seq<char>,
    force: bool,
    cfg: LinkConfig,
    before: Seq<Turn>,
    received: Seq<Turn>,
    session: SessionView,
) -> (g: int)
    requires
        link_recv::offer_taken(outdir, force, cfg, before, before + received, Ok(session)),
    ensures
        0 <= g < received.len(),
        polled(received[g]) == Some(go_for(session)),
        forall|m: int|
            0 <= m < received.len() && (shown(#[trigger] received[m]) matches Some(p) && p is Link)
                ==> (shown(received[m]) matches Some(
                PayloadView::Link { qr_version, dwell_ms, .. },
            ) && qr_version == session.qr_version && dwell_ms == session.dwell_ms),
{
    let after = before + received;
    let (now, mid, offered, outcome) = choose|
        now: u64,
        mid: Seq<Turn>,
        offered: AcceptState,
        outcome: std::result::Result<(), ErrorView>,
    |
        #[trigger] machine::ran_on(
            link_recv::accept_start(cfg, now),
            before,
            mid,
            offered,
            outcome,
        ) && match outcome {
            Ok(_) => if offered.at.phase is Offered {
                exists|dest: Seq<char>, taken: bool| #[trigger]
                    link_recv::offer_answered(
                        dest,
                        force,
                        taken,
                        offered,
                        mid,
                        after,
                        Ok(session),
                    )
            } else {
                after == mid && Ok::<SessionView, ErrorView>(session) == offered.verdict(Seq::empty())
            },
            Err(e) => after == mid && Ok::<SessionView, ErrorView>(session) == Err::<
                SessionView,
                ErrorView,
            >(e),
        };
    let start = link_recv::accept_start(cfg, now);
    let steps = choose|steps: Seq<Step>|
        mid == before + machine::turns_of(steps) && #[trigger] machine::ran(
            start,
            steps,
            offered,
            outcome,
        );
    receiver_is_linked_only_when_answered(start, steps);
    assert(offered.at.phase is Offered);
    let (dest, taken) = choose|dest: Seq<char>, taken: bool| #[trigger]
        link_recv::offer_answered(dest, force, taken, offered, mid, after, Ok(session));
    let (end, outcome2) = choose|end: AcceptState, outcome: std::result::Result<(), ErrorView>|
        #[trigger] machine::ran_on(offered.decided(taken, force), mid, after, end, outcome)
            && Ok::<SessionView, ErrorView>(session) == match outcome {
            Ok(_) => end.verdict(dest),
            Err(e) => Err(e),
        };
    let more = choose|steps: Seq<Step>|
        after == mid + machine::turns_of(steps) && #[trigger] machine::ran(
            offered.decided(taken, force),
            steps,
            end,
            outcome2,
        );
    let turns = machine::turns_of(steps) + machine::turns_of(more);
    assert(before + turns =~= after);
    same_suffix(before, received, turns);
    assert forall|i: int| 0 <= i < received.len() implies #[trigger] received[i] == (if i
        < steps.len() {
        steps[i].turn
    } else {
        more[i - steps.len()].turn
    }) by {}
    receiver_run_facts(start, steps, taken, force, more, dest)
}

/// Two sides whose LINK and GO came from each other, and who both report a
/// link, agree on its terms: the version, the name, the sizes, the chunk count
/// and the digest are the same, and the sender's dwell is the receiver's
/// raised to the sender's own floor.
pub proof fn law_both_sides_agree(
    basename: Seq<char>,
    uncompressed_hint: u64,
    compressed_size: u64,
    sha256: Seq<u8>,
    send_cfg: LinkConfig,
    send_before: Seq<Turn>,
    sent: Seq<Turn>,
    sender: SessionView,
    outdir: Seq<char>,
    force: bool,
    recv_cfg: LinkConfig,
    recv_before: Seq<Turn>,
    received: Seq<Turn>,
    receiver: SessionView,
)
    requires
        link_send::offer_made(
            basename,
            uncompressed_hint,
            compressed_size,
            sha256,
            send_cfg,
            send_before,
            send_before + sent,
            Ok(sender),
        ),
        link_recv::offer_taken(
            outdir,
            force,
            recv_cfg,
            recv_before,
            recv_before + received,
            Ok(receiver),
        ),
        reads_from(sent, received),
        reads_from(received, sent),
    ensures
        sender == (SessionView { dwell_ms: sender.dwell_ms, ..receiver }),
        sender.dwell_ms == link_recv::longer(receiver.dwell_ms, send_cfg.dwell_floor_ms),
{
    let l = law_sender_keeps_to_its_session(
        basename,
        uncompressed_hint,
        compressed_size,
        sha256,
        send_cfg,
        send_before,
        sent,
        sender,
    );
    let g = law_receiver_keeps_to_its_session(
        outdir,
        force,
        recv_cfg,
        recv_before,
        received,
        receiver,
    );
    let h = choose|h: int| 0 <= h < sent.len() && shown(#[trigger] sent[h]) == polled(received[g]);
    let m = choose|m: int|
        0 <= m < received.len() && shown(#[trigger] received[m]) == polled(sent[l]);
    assert(shown(sent[h]) == Some(go_for(sender)));
    assert(go_for(sender) == go_for(receiver));
}

proof fn same_suffix(before: Seq<Turn>, a: Seq<Turn>, b: Seq<Turn>)
    requires
        before + a == before + b,
    ensures
        a == b,
{
    assert((before + a).skip(before.len() as int) =~= a);
    assert((before + b).skip(before.len() as int) =~= b);
}

proof fn receiver_is_linked_only_when_answered(start: AcceptState, steps: Seq<Step>)
    requires
        start.at.phase is Hello,
        machine::lawful(start, steps),
    ensures
        ({
            let s = machine::after(start, steps);
            &&& s.at.phase != AcceptPhase::Over(LinkEnd::Linked)
            &&& !(s.at.phase is Refuse)
            &&& !(s.at.phase is LogOffer)
            &&& !(s.at.phase is Accept)
            &&& s.at.phase is Offered ==> s.goods is Some
        }),
    decreases steps.len(),
{
    if steps.len() > 0 {
        receiver_is_linked_only_when_answered(start, steps.drop_last());
    }
}

/// An error of the channel (an interrupt, a dead camera, a peer that is gone)
/// ends the sender's handshake at once and is passed on as it is; it never
/// turns into a timeout.
pub proof fn law_sender_handshake_passes_errors_on(
    basename: Seq<char>,
    uncompressed_hint: u64,
    compressed_size: u64,
    sha256: Seq<u8>,
    cfg: LinkConfig,
    before: Seq<Turn>,
    after: Seq<Turn>,
    result: std::result::Result<SessionView, ErrorView>,
    i: int,
)
    requires
        link_send::offer_made(
            basename,
            uncompressed_hint,
            compressed_size,
            sha256,
            cfg,
            before,
            after,
            result,
        ),
        before.len() <= i < after.len(),
        after[i].answer is Err,
    ensures
        i == after.len() - 1,
        result == Err::<SessionView, ErrorView>(after[i].answer->Err_0),
{
    let (now, end, outcome) = choose|
        now: u64,
        end: OfferState,
        outcome: std::result::Result<(), ErrorView>,
    |
        #[trigger] machine::ran_on(
            link_send::offer_start(basename, uncompressed_hint, compressed_size, sha256, cfg, now),
            before,
            after,
            end,
            outcome,
        ) && result == match outcome {
            Ok(_) => end.verdict(),
            Err(e) => Err(e),
        };
    machine::law_channel_errors_end_the_run(
        link_send::offer_start(basename, uncompressed_hint, compressed_size, sha256, cfg, now),
        before,
        after,
        end,
        outcome,
        i,
    );
}

/// And so with the receiver's half.
pub proof fn law_receiver_handshake_passes_errors_on(
    outdir: Seq<char>,
    force: bool,
    cfg: LinkConfig,
    before: Seq<Turn>,
    after: Seq<Turn>,
    result: std::result::Result<SessionView, ErrorView>,
    i: int,
)
    requires
        link_recv::offer_taken(outdir, force, cfg, before, after, result),
        before.len() <= i < after.len(),
        after[i].answer is Err,
    ensures
        i == after.len() - 1,
        result == Err::<SessionView, ErrorView>(after[i].answer->Err_0),
{
    let (now, mid, offered, outcome) = choose|
        now: u64,
        mid: Seq<Turn>,
        offered: AcceptState,
        outcome: std::result::Result<(), ErrorView>,
    |
        #[trigger] machine::ran_on(
            link_recv::accept_start(cfg, now),
            before,
            mid,
            offered,
            outcome,
        ) && match outcome {
            Ok(_) => if offered.at.phase is Offered {
                exists|dest: Seq<char>, taken: bool| #[trigger]
                    link_recv::offer_answered(dest, force, taken, offered, mid, after, result)
            } else {
                after == mid && result == offered.verdict(Seq::empty())
            },
            Err(e) => after == mid && result == Err::<SessionView, ErrorView>(e),
        };
    let start = link_recv::accept_start(cfg, now);
    if outcome is Ok && offered.at.phase is Offered {
        let (dest, taken) = choose|dest: Seq<char>, taken: bool| #[trigger]
            link_recv::offer_answered(dest, force, taken, offered, mid, after, result);
        let second = offered.decided(taken, force);
        let (end, last) = choose|end: AcceptState, last: std::result::Result<(), ErrorView>|
            #[trigger] machine::ran_on(second, mid, after, end, last) && result == match last {
                Ok(_) => end.verdict(dest),
                Err(e) => Err(e),
            };
        machine::runs_extend(second, mid, after, end, last);
        if i < mid.len() {
            assert(after[i] == mid[i]);
            machine::law_channel_errors_end_the_run(start, before, mid, offered, outcome, i);
        } else {
            machine::law_channel_errors_end_the_run(second, mid, after, end, last, i);
        }
    } else {
        machine::law_channel_errors_end_the_run(start, before, mid, offered, outcome, i);
    }
}

} // verus!
