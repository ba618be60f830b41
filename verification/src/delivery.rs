//! What a transfer guarantees: the laws of the sender's and the receiver's
//! protocols, over every run they can make.
use crate::digest;
use crate::error::ErrorView;
use crate::frame;
use crate::frame::{PayloadView, FAIL_HASH};
use crate::link::SessionView;
use crate::machine;
use crate::machine::{Protocol, Step};
use crate::optical::{Answer, Call, Turn};
use crate::receive;
use crate::receive::{RecvEnd, RecvPhase, RecvState};
use crate::transport;
use crate::transport::{SendEnd, SendPhase, SendState, TransportConfig};
use crate::window;
use vstd::prelude::*;

verus! {

/// The payload that `turn` put on screen, if it did.
pub open spec fn shown(turn: Turn) -> Option<PayloadView> {
    match turn.call {
        Call::Show(payload) => Some(payload),
        _ => None,
    }
}

/// The payload that `turn` polled, if it did.
pub open spec fn polled(turn: Turn) -> Option<PayloadView> {
    match turn.answer {
        Ok(Answer::Polled(payload)) => payload,
        _ => None,
    }
}

proof fn send_keeps_inv(s: SendState, now: u64, answer: Answer)
    requires
        s.inv(),
    ensures
        s.next(now, answer).inv(),
        s.next(now, answer).blob == s.blob,
        s.next(now, answer).session == s.session,
        s.next(now, answer).cfg == s.cfg,
{
    match s.at.phase {
        SendPhase::Show(seq) | SendPhase::Hold(seq) => {
            window::next_unset_is_first(s.at.base, s.end(), s.at.bitmap, (seq + 1) as u32);
        },
        SendPhase::Report => {
            window::next_unset_is_first(s.at.base, s.end(), s.at.bitmap, s.at.base);
        },
        _ => {},
    }
}

/// In every run of the sender its invariant holds and what it sends stays the
/// same.
pub proof fn law_sender_invariant(start: SendState, steps: Seq<Step>)
    requires
        start.inv(),
        machine::lawful(start, steps),
    ensures
        machine::after(start, steps).inv(),
        machine::after(start, steps).blob == start.blob,
        machine::after(start, steps).session == start.session,
        machine::after(start, steps).cfg == start.cfg,
    decreases steps.len(),
{
    if steps.len() > 0 {
        law_sender_invariant(start, steps.drop_last());
        send_keeps_inv(
            machine::after(start, steps.drop_last()),
            steps.last().at,
            steps.last().turn.answer->Ok_0,
        );
    }
}

/// Every step of a lawful run is the request of the state before it.
pub proof fn lawful_step<S: Protocol>(start: S, steps: Seq<Step>, i: int)
    requires
        machine::lawful(start, steps),
        0 <= i < steps.len(),
    ensures
        machine::lawful(start, steps.take(i)),
        machine::after(start, steps.take(i)).pending() == Some(steps[i].turn.call),
        steps[i].turn.answer is Ok,
    decreases steps.len(),
{
    if i == steps.len() - 1 {
        assert(steps.take(i) == steps.drop_last());
    } else {
        lawful_step(start, steps.drop_last(), i);
        assert(steps.drop_last().take(i) == steps.take(i));
    }
}

/// A transfer whose session describes the blob starts within the invariant.
pub proof fn send_starts_well(blob: Seq<u8>, session: SessionView, cfg: TransportConfig, now: u64)
    requires
        transport::describes(session, blob.len()),
    ensures
        transport::send_start(blob, session, cfg, now).inv(),
        transport::send_start(blob, session, cfg, now).blob == blob,
        transport::send_start(blob, session, cfg, now).session == session,
{
}

/// The sender shows nothing but chunks of the blob, each under its own
/// number, and the FIN of the session.
pub proof fn law_sender_shows_only_the_blob(
    blob: Seq<u8>,
    session: SessionView,
    cfg: TransportConfig,
    now: u64,
    steps: Seq<Step>,
    i: int,
)
    requires
        transport::describes(session, blob.len()),
        machine::lawful(transport::send_start(blob, session, cfg, now), steps),
        0 <= i < steps.len(),
        shown(steps[i].turn) is Some,
    ensures
        match shown(steps[i].turn)->0 {
            PayloadView::Data { seq, chunk } => seq < session.chunk_count && chunk
                == window::chunk_at(blob, frame::chunk_room(session.qr_version), seq as nat),
            PayloadView::Fin { sha256 } => sha256 == session.sha256,
            _ => false,
        },
{
    let start = transport::send_start(blob, session, cfg, now);
    send_starts_well(blob, session, cfg, now);
    lawful_step(start, steps, i);
    law_sender_invariant(start, steps.take(i));
}

/// Whether the operator said yes to the sender's prompt somewhere in `steps`.
pub open spec fn confirmed(session: SessionView, steps: Seq<Step>) -> bool {
    exists|j: int|
        0 <= j < steps.len() && (#[trigger] steps[j]).turn == (Turn {
            call: Call::Gate(transport::gate_prompt(session.basename, session.chunk_count)),
            answer: Ok(Answer::Gated(true)),
        })
}

proof fn gate_comes_first(start: SendState, steps: Seq<Step>)
    requires
        start.inv(),
        start.at.phase is Gate,
        machine::lawful(start, steps),
    ensures
        ({
            let s = machine::after(start, steps);
            ||| s.at.phase is Gate
            ||| s.at.phase == SendPhase::Over(SendEnd::Aborted)
            ||| confirmed(start.session, steps)
        }),
    decreases steps.len(),
{
    if steps.len() > 0 {
        let before = steps.drop_last();
        gate_comes_first(start, before);
        law_sender_invariant(start, before);
        if confirmed(start.session, before) {
            let j = choose|j: int|
                0 <= j < before.len() && (#[trigger] before[j]).turn == (Turn {
                    call: Call::Gate(
                        transport::gate_prompt(start.session.basename, start.session.chunk_count),
                    ),
                    answer: Ok(Answer::Gated(true)),
                });
            assert(steps[j] == before[j]);
        } else if machine::after(start, before).at.phase is Gate {
            let last = steps.last();
            assert(steps[steps.len() - 1] == last);
            assert(last.turn.answer == Ok::<Answer, ErrorView>(last.turn.answer->Ok_0));
        }
    }
}

/// A gated transfer puts no code on screen before the operator's go-ahead.
pub proof fn law_nothing_is_shown_before_the_go_ahead(
    blob: Seq<u8>,
    session: SessionView,
    cfg: TransportConfig,
    now: u64,
    steps: Seq<Step>,
    i: int,
)
    requires
        cfg.gated,
        transport::describes(session, blob.len()),
        machine::lawful(transport::send_start(blob, session, cfg, now), steps),
        0 <= i < steps.len(),
        shown(steps[i].turn) is Some,
    ensures
        confirmed(session, steps.take(i)),
{
    let start = transport::send_start(blob, session, cfg, now);
    lawful_step(start, steps, i);
    gate_comes_first(start, steps.take(i));
}

proof fn the_gate_is_left(start: SendState, steps: Seq<Step>)
    requires
        machine::lawful(start, steps),
    ensures
        machine::after(start, steps).at.phase is Gate ==> steps.len() == 0 && start.at.phase is Gate,
    decreases steps.len(),
{
    if steps.len() > 0 {
        the_gate_is_left(start, steps.drop_last());
    }
}

/// The operator is asked at most once in a transfer: only the first request of
/// a gated one asks for the go-ahead, and no later request ever will.
pub proof fn law_the_operator_is_asked_once(
    blob: Seq<u8>,
    session: SessionView,
    cfg: TransportConfig,
    now: u64,
    steps: Seq<Step>,
)
    requires
        machine::lawful(transport::send_start(blob, session, cfg, now), steps),
    ensures
        forall|i: int|
            0 <= i < steps.len() && (#[trigger] steps[i]).turn.call is Gate ==> i == 0
                && cfg.gated,
        machine::after(transport::send_start(blob, session, cfg, now), steps).pending() matches Some(
            call,
        ) && call is Gate ==> steps.len() == 0 && cfg.gated,
{
    let start = transport::send_start(blob, session, cfg, now);
    the_gate_is_left(start, steps);
    assert forall|i: int|
        0 <= i < steps.len() && (#[trigger] steps[i]).turn.call is Gate implies i == 0
        && cfg.gated by {
        lawful_step(start, steps, i);
        the_gate_is_left(start, steps.take(i));
    }
}

/// A declined go-ahead ends the transfer as aborted, and nothing was shown.
pub proof fn law_declining_aborts(
    blob: Seq<u8>,
    session: SessionView,
    cfg: TransportConfig,
    now: u64,
    at: u64,
)
    requires
        cfg.gated,
        transport::describes(session, blob.len()),
    ensures
        ({
            let s = transport::send_start(blob, session, cfg, now);
            let end = s.next(at, Answer::Gated(false));
            &&& s.pending() == Some(
                Call::Gate(transport::gate_prompt(session.basename, session.chunk_count)),
            )
            &&& end.pending() is None
            &&& end.verdict() == Err::<(), ErrorView>(ErrorView::Aborted)
        }),
{
}

/// Whether some ACK among `steps` covered chunk `seq`.
pub open spec fn acknowledged(steps: Seq<Step>, seq: u32) -> bool {
    exists|j: int| 0 <= j < steps.len() && acks(#[trigger] steps[j], seq)
}

/// Whether `step` polled an ACK that covers chunk `seq`.
pub open spec fn acks(step: Step, seq: u32) -> bool {
    polled(step.turn) matches Some(PayloadView::Ack { window_base, bitmap }) && window_base <= seq
        && seq - window_base < window::WINDOW && window::bit(bitmap, (seq - window_base) as u32)
}

proof fn acknowledged_grows(steps: Seq<Step>, seq: u32)
    requires
        steps.len() > 0,
        acknowledged(steps.drop_last(), seq),
    ensures
        acknowledged(steps, seq),
{
    let before = steps.drop_last();
    let j = choose|j: int| 0 <= j < before.len() && acks(#[trigger] before[j], seq);
    assert(steps[j] == before[j]);
}

/// What the sender takes to be acknowledged was acknowledged.
pub open spec fn trusts_only_acks(s: SendState, steps: Seq<Step>) -> bool {
    &&& forall|seq: u32| seq < s.at.base ==> #[trigger] acknowledged(steps, seq)
    &&& s.at.base < s.session.chunk_count ==> forall|seq: u32|
        s.at.base <= seq < s.end() && window::bit(s.at.bitmap, (seq - s.at.base) as u32)
            ==> #[trigger] acknowledged(steps, seq)
}

proof fn bits_of_union(a: u32, b: u32, i: u32)
    requires
        i < 32,
    ensures
        window::bit(a | b, i) <==> window::bit(a, i) || window::bit(b, i),
        !window::bit(0, i),
{
    assert((a | b) & (1u32 << i) != 0 <==> (a & (1u32 << i) != 0 || b & (1u32 << i) != 0))
        by (bit_vector);
    assert(0u32 & (1u32 << i) == 0) by (bit_vector);
}

proof fn judging_trusts_only_acks(s: SendState, received: bool, steps: Seq<Step>)
    requires
        s.inv(),
        s.at.base < s.session.chunk_count,
        trusts_only_acks(s, steps),
    ensures
        trusts_only_acks(s.judged(received), steps),
{
    let t = s.judged(received);
    if s.missing().len() == 0 {
        window::unset_seqs_members(s.at.base, s.end(), s.at.bitmap);
        assert forall|seq: u32| seq < t.at.base implies #[trigger] acknowledged(steps, seq) by {
            if seq >= s.at.base && !window::bit(s.at.bitmap, (seq - s.at.base) as u32) {
                assert(s.missing().contains(seq));
            }
        }
        if t.at.base < t.session.chunk_count {
            assert forall|seq: u32|
                t.at.base <= seq < t.end() && window::bit(
                    t.at.bitmap,
                    (seq - t.at.base) as u32,
                ) implies #[trigger] acknowledged(steps, seq) by {
                bits_of_union(0, 0, (seq - t.at.base) as u32);
            }
        }
    }
}

proof fn sender_trusts_only_acks(start: SendState, steps: Seq<Step>)
    requires
        start.inv(),
        start.at.base == 0,
        start.at.bitmap == 0,
        machine::lawful(start, steps),
    ensures
        trusts_only_acks(machine::after(start, steps), steps),
    decreases steps.len(),
{
    if steps.len() == 0 {
        assert forall|seq: u32|
            start.at.base <= seq < start.end() && window::bit(
                start.at.bitmap,
                (seq - start.at.base) as u32,
            ) implies #[trigger] acknowledged(steps, seq) by {
            bits_of_union(0, 0, (seq - start.at.base) as u32);
        }
    } else {
        let before = steps.drop_last();
        let s = machine::after(start, before);
        let last = steps.last();
        sender_trusts_only_acks(start, before);
        law_sender_invariant(start, before);
        assert forall|seq: u32| #[trigger] acknowledged(before, seq) implies acknowledged(
            steps,
            seq,
        ) by {
            acknowledged_grows(steps, seq);
        }
        let s1 = s.at_time(last.at);
        assert(trusts_only_acks(s1, steps)) by {
            assert forall|seq: u32| seq < s1.at.base implies #[trigger] acknowledged(
                steps,
                seq,
            ) by {
                assert(acknowledged(before, seq));
            }
            if s1.at.base < s1.session.chunk_count {
                assert forall|seq: u32|
                    s1.at.base <= seq < s1.end() && window::bit(
                        s1.at.bitmap,
                        (seq - s1.at.base) as u32,
                    ) implies #[trigger] acknowledged(steps, seq) by {
                    assert(acknowledged(before, seq));
                }
            }
        }
        match s.at.phase {
            SendPhase::Gate => {
                let t = s.next(last.at, last.turn.answer->Ok_0);
                if t.at.phase is Opening {
                    assert forall|seq: u32|
                        t.at.base <= seq < t.end() && window::bit(
                            t.at.bitmap,
                            (seq - t.at.base) as u32,
                        ) implies #[trigger] acknowledged(steps, seq) by {
                        bits_of_union(0, 0, (seq - t.at.base) as u32);
                    }
                }
            },
            SendPhase::AwaitAck(deadline) => {
                match last.turn.answer->Ok_0 {
                    Answer::Polled(Some(PayloadView::Ack { window_base, bitmap })) => {
                        if window_base == s1.at.base {
                            let s2 = SendState {
                                at: transport::SendProgress {
                                    bitmap: s1.at.bitmap | bitmap,
                                    ..s1.at
                                },
                                ..s1
                            };
                            assert forall|seq: u32|
                                s2.at.base <= seq < s2.end() && window::bit(
                                    s2.at.bitmap,
                                    (seq - s2.at.base) as u32,
                                ) implies #[trigger] acknowledged(steps, seq) by {
                                let k = (seq - s2.at.base) as u32;
                                bits_of_union(s1.at.bitmap, bitmap, k);
                                if window::bit(bitmap, k) {
                                    assert(acks(steps[steps.len() - 1], seq));
                                }
                            }
                            judging_trusts_only_acks(s2, true, steps);
                        } else {
                            judging_trusts_only_acks(s1, false, steps);
                        }
                    },
                    _ => {
                        judging_trusts_only_acks(s1, false, steps);
                    },
                }
            },
            _ => {},
        }
    }
}

/// FIN is shown only once every chunk was acknowledged by the receiver.
pub proof fn law_fin_comes_after_every_ack(
    blob: Seq<u8>,
    session: SessionView,
    cfg: TransportConfig,
    now: u64,
    steps: Seq<Step>,
    i: int,
    seq: u32,
)
    requires
        transport::describes(session, blob.len()),
        machine::lawful(transport::send_start(blob, session, cfg, now), steps),
        0 <= i < steps.len(),
        shown(steps[i].turn) matches Some(PayloadView::Fin { .. }),
        seq < session.chunk_count,
    ensures
        acknowledged(steps.take(i), seq),
{
    let start = transport::send_start(blob, session, cfg, now);
    send_starts_well(blob, session, cfg, now);
    lawful_step(start, steps, i);
    law_sender_invariant(start, steps.take(i));
    sender_trusts_only_acks(start, steps.take(i));
}

proof fn sent_after_ok(start: SendState, steps: Seq<Step>)
    requires
        start.inv(),
        !(start.at.phase is Over),
        machine::lawful(start, steps),
        machine::after(start, steps).at.phase == SendPhase::Over(SendEnd::Sent),
    ensures
        steps.len() > 0,
        polled(steps.last().turn) == Some(PayloadView::Okay),
{
    law_sender_invariant(start, steps.drop_last());
    let s = machine::after(start, steps.drop_last());
    assert(s.pending() is Some);
}

/// The sender reports success only after the receiver said OK, and only with
/// every chunk acknowledged.
pub proof fn law_success_needs_the_receivers_ok(
    blob: Seq<u8>,
    session: SessionView,
    cfg: TransportConfig,
    now: u64,
    steps: Seq<Step>,
    seq: u32,
)
    requires
        transport::describes(session, blob.len()),
        machine::lawful(transport::send_start(blob, session, cfg, now), steps),
        machine::after(
            transport::send_start(blob, session, cfg, now),
            steps,
        ).verdict() is Ok,
        seq < session.chunk_count,
    ensures
        polled(steps.last().turn) == Some(PayloadView::Okay),
        acknowledged(steps, seq),
{
    let start = transport::send_start(blob, session, cfg, now);
    send_starts_well(blob, session, cfg, now);
    sent_after_ok(start, steps);
    law_sender_invariant(start, steps);
    sender_trusts_only_acks(start, steps);
}

proof fn shows_only_missing(start: SendState, steps: Seq<Step>)
    requires
        start.inv(),
        start.at.phase is Gate || start.at.phase is Opening || start.at.phase is FinStatus,
        machine::lawful(start, steps),
    ensures
        ({
            let s = machine::after(start, steps);
            match s.at.phase {
                SendPhase::Show(seq) | SendPhase::Hold(seq) => s.missing().contains(seq),
                _ => true,
            }
        }),
    decreases steps.len(),
{
    if steps.len() > 0 {
        let before = steps.drop_last();
        shows_only_missing(start, before);
        law_sender_invariant(start, before);
        let s = machine::after(start, before);
        match s.at.phase {
            SendPhase::Opening => {
                window::unset_seqs_members(s.at.base, s.end(), s.at.bitmap);
                bits_of_union(0, 0, 0);
            },
            SendPhase::Show(seq) | SendPhase::Hold(seq) => {
                window::next_unset_is_first(s.at.base, s.end(), s.at.bitmap, (seq + 1) as u32);
            },
            SendPhase::Report => {
                window::next_unset_is_first(s.at.base, s.end(), s.at.bitmap, s.at.base);
            },
            _ => {},
        }
    }
}

/// The sender shows only chunks of its window that no ACK has covered: what
/// has arrived is not shown again.
pub proof fn law_only_holes_are_shown_again(
    blob: Seq<u8>,
    session: SessionView,
    cfg: TransportConfig,
    now: u64,
    steps: Seq<Step>,
    i: int,
)
    requires
        transport::describes(session, blob.len()),
        machine::lawful(transport::send_start(blob, session, cfg, now), steps),
        0 <= i < steps.len(),
        shown(steps[i].turn) matches Some(PayloadView::Data { .. }),
    ensures
        shown(steps[i].turn) matches Some(PayloadView::Data { seq, .. }) && machine::after(
            transport::send_start(blob, session, cfg, now),
            steps.take(i),
        ).missing().contains(seq),
{
    let start = transport::send_start(blob, session, cfg, now);
    send_starts_well(blob, session, cfg, now);
    lawful_step(start, steps, i);
    shows_only_missing(start, steps.take(i));
}

/// A sender that stalls has gone through its limit of fruitless rounds in a
/// row, and names exactly the chunks of its window that no ACK has covered,
/// of which there are some.
pub proof fn law_a_stall_names_the_holes(
    blob: Seq<u8>,
    session: SessionView,
    cfg: TransportConfig,
    now: u64,
    steps: Seq<Step>,
    missing: Seq<u32>,
    seq: u32,
)
    requires
        transport::describes(session, blob.len()),
        machine::lawful(transport::send_start(blob, session, cfg, now), steps),
        machine::after(transport::send_start(blob, session, cfg, now), steps).verdict() == Err::<
            (),
            ErrorView,
        >(ErrorView::Stalled(missing)),
    ensures
        ({
            let s = machine::after(transport::send_start(blob, session, cfg, now), steps);
            &&& s.at.stalls == transport::STALL_LIMIT
            &&& missing.len() > 0
            &&& missing.contains(seq) <==> s.at.base <= seq < s.end() && !window::bit(
                s.at.bitmap,
                (seq - s.at.base) as u32,
            )
        }),
{
    let start = transport::send_start(blob, session, cfg, now);
    send_starts_well(blob, session, cfg, now);
    let s = machine::after(start, steps);
    window::unset_seqs_members(s.at.base, s.end(), s.at.bitmap);
    if steps.len() > 0 {
        law_sender_invariant(start, steps.drop_last());
        assert(machine::after(start, steps.drop_last()).pending() is Some);
    }
}

/// A round counts as fruitless exactly if it brought no ACK for the window or
/// one that says nothing new; any other round starts the count again.
pub proof fn law_new_chunks_reset_the_stall_count(s: SendState, received_ack: bool)
    requires
        s.inv(),
        s.at.phase is AwaitAck,
        s.missing().len() > 0,
    ensures
        !received_ack || s.at.bitmap == s.at.previous ==> s.judged(received_ack).at.stalls
            == s.at.stalls + 1,
        received_ack && s.at.bitmap != s.at.previous ==> s.judged(received_ack).at.stalls == 0,
        s.judged(received_ack).at.phase is Over <==> s.judged(received_ack).at.stalls
            == transport::STALL_LIMIT,
{
}

proof fn recv_keeps_inv(s: RecvState, now: u64, answer: Answer)
    requires
        s.inv(),
    ensures
        s.next(now, answer).inv(),
        s.next(now, answer).session == s.session,
        s.next(now, answer).cfg == s.cfg,
        s.next(now, answer).blob.len() == s.blob.len(),
{
    let t = s.next(now, answer);
    match s.at.phase {
        RecvPhase::Poll => {
            if let Answer::Polled(Some(PayloadView::Data { seq, chunk })) = answer {
                if s.at.base <= seq < s.end() {
                    window::chunk_bounds(s.blob.len(), s.chunk_size(), seq as nat);
                }
            }
        },
        RecvPhase::Status => {
            if s.missing().len() == 0 {
                receive::nothing_missing(s);
            }
        },
        _ => {},
    }
}

/// In every run of the receiver its invariant holds and its terms stay the
/// same.
pub proof fn law_receiver_invariant(start: RecvState, steps: Seq<Step>)
    requires
        start.inv(),
        machine::lawful(start, steps),
    ensures
        machine::after(start, steps).inv(),
        machine::after(start, steps).session == start.session,
        machine::after(start, steps).cfg == start.cfg,
        machine::after(start, steps).blob.len() == start.blob.len(),
    decreases steps.len(),
{
    if steps.len() > 0 {
        law_receiver_invariant(start, steps.drop_last());
        recv_keeps_inv(
            machine::after(start, steps.drop_last()),
            steps.last().at,
            steps.last().turn.answer->Ok_0,
        );
    }
}

/// A transfer whose session is sound starts within the invariant.
pub proof fn recv_starts_well(session: SessionView, cfg: TransportConfig, now: u64)
    requires
        receive::receivable(session),
    ensures
        receive::recv_start(session, cfg, now).inv(),
{
    assert(receive::recv_start(session, cfg, now).blob.len() == session.compressed_size);
}

/// The receiver shows nothing but ACKs and, for a wrong digest, a FAIL: it
/// never says OK by itself.
pub proof fn law_receiver_never_says_ok(
    session: SessionView,
    cfg: TransportConfig,
    now: u64,
    steps: Seq<Step>,
    i: int,
)
    requires
        receive::receivable(session),
        machine::lawful(receive::recv_start(session, cfg, now), steps),
        0 <= i < steps.len(),
        shown(steps[i].turn) is Some,
    ensures
        shown(steps[i].turn)->0 is Ack || shown(steps[i].turn)->0 == (PayloadView::Fail {
            reason: FAIL_HASH,
        }),
{
    lawful_step(receive::recv_start(session, cfg, now), steps, i);
}

/// A chunk that is already here, or that lies beyond the window, changes
/// nothing that was received.
pub proof fn law_duplicates_change_nothing(s: RecvState, seq: u32, chunk: Seq<u8>)
    requires
        s.inv(),
        s.got.contains(seq) || seq >= s.end(),
    ensures
        s.data(seq, chunk).got == s.got,
        s.data(seq, chunk).blob == s.blob,
        s.data(seq, chunk).at.base == s.at.base,
{
}

proof fn windows_are_whole(start: RecvState, steps: Seq<Step>)
    requires
        start.at.base == 0,
        machine::lawful(start, steps),
    ensures
        ({
            let s = machine::after(start, steps);
            &&& s.session == start.session
            &&& s.at.base % window::WINDOW == 0 || s.at.base == s.session.chunk_count
        }),
    decreases steps.len(),
{
    if steps.len() > 0 {
        windows_are_whole(start, steps.drop_last());
    }
}

/// A chunk of an earlier window means that the sender missed the ACK of that
/// window. It is acknowledged again, all of it, unless that was the last thing
/// said about an earlier window.
pub proof fn law_a_lost_ack_is_repeated(
    session: SessionView,
    cfg: TransportConfig,
    now: u64,
    steps: Seq<Step>,
    at: u64,
    seq: u32,
    chunk: Seq<u8>,
    k: u32,
)
    requires
        receive::receivable(session),
        machine::lawful(receive::recv_start(session, cfg, now), steps),
        ({
            let s = machine::after(receive::recv_start(session, cfg, now), steps);
            &&& s.at.phase is Poll
            &&& seq < s.at.base
            &&& s.at.last_old_window != Some((seq / window::WINDOW * window::WINDOW) as u32)
        }),
        k < window::WINDOW,
    ensures
        ({
            let s = machine::after(receive::recv_start(session, cfg, now), steps);
            let t = s.next(at, Answer::Polled(Some(PayloadView::Data { seq, chunk })));
            let base = (seq / window::WINDOW * window::WINDOW) as u32;
            t.pending() matches Some(Call::Show(PayloadView::Ack { window_base, bitmap }))
                && window_base == base && (window::bit(bitmap, k) <==> base + k
                < session.chunk_count)
        }),
{
    let start = receive::recv_start(session, cfg, now);
    recv_starts_well(session, cfg, now);
    law_receiver_invariant(start, steps);
    windows_are_whole(start, steps);
    let s = machine::after(start, steps);
    let base = (seq / window::WINDOW * window::WINDOW) as u32;
    let end = window::window_end_of(base, session.chunk_count);
    assert(s.got.contains(seq));
    window::bitmap_bits(s.got, base, end, k);
    if base + k < session.chunk_count {
        assert(base + k < s.at.base);
        assert(s.got.contains((base + k) as u32));
    }
}

/// Whether every DATA frame polled in `steps` that is numbered within the
/// transfer carries the chunk of `blob` under its number.
pub open spec fn faithful(steps: Seq<Step>, blob: Seq<u8>, session: SessionView) -> bool {
    forall|i: int| 0 <= i < steps.len() ==> honest((#[trigger] steps[i]).turn, blob, session)
}

/// Whether `turn`, if it polled a DATA frame of the transfer, polled the chunk
/// of `blob` under its number.
pub open spec fn honest(turn: Turn, blob: Seq<u8>, session: SessionView) -> bool {
    polled(turn) matches Some(PayloadView::Data { seq, chunk }) ==> seq < session.chunk_count
        ==> chunk == window::chunk_at(blob, frame::chunk_room(session.qr_version), seq as nat)
}

/// Whether the chunks that arrived are those of `blob`.
pub open spec fn agrees(s: RecvState, blob: Seq<u8>) -> bool {
    forall|k: int|
        0 <= k < blob.len() && s.got.contains((k / s.chunk_size() as int) as u32)
            ==> #[trigger] s.blob[k] == blob[k]
}

proof fn chunk_index(len: nat, size: nat, seq: nat, k: int)
    requires
        size > 0,
        seq < window::chunk_total(len, size),
        0 <= k < len,
    ensures
        k / size as int == seq <==> seq * size <= k < window::chunk_end(len, size, seq),
{
    window::chunk_bounds(len, size, seq);
    vstd::arithmetic::div_mod::lemma_fundamental_div_mod(k, size as int);
    let q = k / size as int;
    assert(size as int * q == q * size as int) by (nonlinear_arith);
    if q < seq {
        assert((q + 1) * size as int <= seq * size) by (nonlinear_arith)
            requires
                q + 1 <= seq,
        ;
        assert((q + 1) * size as int == q * size as int + size) by (nonlinear_arith);
    } else if q > seq {
        assert((seq + 1) * size as int <= q * size as int) by (nonlinear_arith)
            requires
                seq + 1 <= q,
        ;
        assert((seq + 1) * size as int == seq * size as int + size) by (nonlinear_arith);
    }
}

proof fn storing_agrees(s: RecvState, seq: u32, blob: Seq<u8>)
    requires
        s.inv(),
        blob.len() == s.blob.len(),
        seq < s.session.chunk_count,
        agrees(s, blob),
    ensures
        agrees(s.stored(seq, window::chunk_at(blob, s.chunk_size(), seq as nat)), blob),
{
    let size = s.chunk_size();
    let len = blob.len();
    let chunk = window::chunk_at(blob, size, seq as nat);
    let t = s.stored(seq, chunk);
    window::chunk_bounds(len, size, seq as nat);
    let start = seq * size;
    assert forall|k: int|
        0 <= k < blob.len() && t.got.contains((k / size as int) as u32) implies #[trigger] t.blob[k]
        == blob[k] by {
        chunk_index(len, size, seq as nat, k);
        let q = k / size as int;
        assert(0 <= q < s.session.chunk_count) by {
            window::law_chunks_hold_the_blob(blob, size, k as nat);
        }
        if start <= k < start + chunk.len() {
            assert(t.blob[k] == chunk[k - start]);
        } else {
            assert(t.blob[k] == s.blob[k]);
            assert(q != seq);
            assert(s.got.contains(q as u32));
        }
    }
}

proof fn receiver_agrees(start: RecvState, steps: Seq<Step>, blob: Seq<u8>)
    requires
        start.inv(),
        start.got == Set::<u32>::empty(),
        start.blob.len() == blob.len(),
        machine::lawful(start, steps),
        faithful(steps, blob, start.session),
    ensures
        agrees(machine::after(start, steps), blob),
    decreases steps.len(),
{
    if steps.len() > 0 {
        let before = steps.drop_last();
        assert(faithful(before, blob, start.session)) by {
            assert forall|i: int| 0 <= i < before.len() implies honest(
                (#[trigger] before[i]).turn,
                blob,
                start.session,
            ) by {
                assert(before[i] == steps[i]);
            }
        }
        receiver_agrees(start, before, blob);
        law_receiver_invariant(start, before);
        let s = machine::after(start, before);
        let last = steps[steps.len() - 1];
        assert(honest(last.turn, blob, start.session));
        let s1 = s.at_time(last.at);
        let t = machine::after(start, steps);
        assert(agrees(s1, blob));
        if t.got != s.got {
            let answer = last.turn.answer->Ok_0;
            assert(s.at.phase is Poll);
            if let Answer::Polled(Some(PayloadView::Data { seq, chunk })) = answer {
                let s2 = RecvState {
                    at: receive::RecvProgress { idle_polls: 0, ..s1.at },
                    ..s1
                };
                assert(agrees(s2, blob));
                assert(t == s2.stored(seq, chunk));
                storing_agrees(s2, seq, blob);
            }
        } else {
            assert(t.blob == s.blob);
        }
    }
}

/// At most `n` numbers are below `n`.
proof fn numbers_below(s: Set<u32>, n: nat)
    requires
        s.finite(),
        forall|x: u32| #[trigger] s.contains(x) ==> x < n,
    ensures
        s.len() <= n,
    decreases n,
{
    if n == 0 {
        assert(s =~= Set::empty());
    } else {
        let m = (n - 1) as u32;
        if n <= u32::MAX + 1 {
            numbers_below(s.remove(m), (n - 1) as nat);
        } else {
            numbers_below(s, (n - 1) as nat);
        }
    }
}

/// A set of `n` numbers below `n` holds all of them.
pub proof fn full_set(s: Set<u32>, n: u32, x: u32)
    requires
        s.finite(),
        forall|y: u32| #[trigger] s.contains(y) ==> y < n,
        s.len() == n,
        x < n,
    ensures
        s.contains(x),
{
    if !s.contains(x) {
        let swapped = if s.contains((n - 1) as u32) {
            s.remove((n - 1) as u32).insert(x)
        } else {
            s
        };
        assert(swapped.len() == n);
        numbers_below(swapped, (n - 1) as nat);
    }
}

proof fn whole_blob(s: RecvState, blob: Seq<u8>)
    requires
        s.inv(),
        s.at.phase == RecvPhase::Over(RecvEnd::Received),
        blob.len() == s.blob.len(),
        agrees(s, blob),
    ensures
        s.blob == blob,
{
    assert forall|k: int| 0 <= k < blob.len() implies s.blob[k] == blob[k] by {
        window::law_chunks_hold_the_blob(blob, s.chunk_size(), k as nat);
        let q = k / s.chunk_size() as int;
        full_set(s.got, s.session.chunk_count, q as u32);
    }
    assert(s.blob =~= blob);
}

/// A receiver that saw only chunks of `blob` under their own numbers, and has
/// all of them, holds exactly `blob`.
pub proof fn faithful_receiver_agrees(start: RecvState, steps: Seq<Step>, blob: Seq<u8>)
    requires
        start.inv(),
        start.got == Set::<u32>::empty(),
        start.blob.len() == blob.len(),
        machine::lawful(start, steps),
        faithful(steps, blob, start.session),
        forall|q: u32|
            q < start.session.chunk_count ==> #[trigger] machine::after(start, steps).got.contains(
                q,
            ),
    ensures
        machine::after(start, steps).blob == blob,
{
    receiver_agrees(start, steps, blob);
    law_receiver_invariant(start, steps);
    let s = machine::after(start, steps);
    assert forall|k: int| 0 <= k < blob.len() implies s.blob[k] == blob[k] by {
        window::law_chunks_hold_the_blob(blob, s.chunk_size(), k as nat);
        let q = k / s.chunk_size() as int;
        assert(s.got.contains(q as u32));
    }
    assert(s.blob =~= blob);
}

/// A receiver that saw only chunks of `blob` under their own numbers, and
/// reports success, holds exactly `blob`; in any case what it reports has the
/// digest of the session.
pub proof fn law_receiver_rebuilds_the_blob(
    session: SessionView,
    cfg: TransportConfig,
    now: u64,
    steps: Seq<Step>,
    blob: Seq<u8>,
)
    requires
        receive::receivable(session),
        machine::lawful(receive::recv_start(session, cfg, now), steps),
        machine::after(receive::recv_start(session, cfg, now), steps).verdict() is Ok,
    ensures
        ({
            let got = machine::after(receive::recv_start(session, cfg, now), steps).verdict();
            &&& got->Ok_0.len() == session.compressed_size
            &&& digest::sha256_of(got->Ok_0) == session.sha256
            &&& blob.len() == session.compressed_size && faithful(steps, blob, session)
                ==> got->Ok_0 == blob
        }),
{
    let start = receive::recv_start(session, cfg, now);
    recv_starts_well(session, cfg, now);
    law_receiver_invariant(start, steps);
    if blob.len() == session.compressed_size && faithful(steps, blob, session) {
        receiver_agrees(start, steps, blob);
        whole_blob(machine::after(start, steps), blob);
    }
}

/// What `recv_blob` hands back has the size and the digest of the session.
pub proof fn law_received_blob_has_the_offered_digest(
    session: SessionView,
    cfg: TransportConfig,
    before: Seq<Turn>,
    after: Seq<Turn>,
    blob: Seq<u8>,
)
    requires
        receive::blob_received(session, cfg, before, after, Ok(blob)),
    ensures
        blob.len() == session.compressed_size,
        digest::sha256_of(blob) == session.sha256,
{
    let (now, end, outcome) = choose|
        now: u64,
        end: RecvState,
        outcome: std::result::Result<(), ErrorView>,
    |
        #[trigger] machine::ran_on(
            receive::recv_start(session, cfg, now),
            before,
            after,
            end,
            outcome,
        ) && Ok::<Seq<u8>, ErrorView>(blob) == match outcome {
            Ok(_) => end.verdict(),
            Err(e) => Err(e),
        };
    let steps = choose|steps: Seq<Step>|
        after == before + machine::turns_of(steps) && #[trigger] machine::ran(
            receive::recv_start(session, cfg, now),
            steps,
            end,
            outcome,
        );
    law_receiver_rebuilds_the_blob(session, cfg, now, steps, blob);
}

/// Whether every DATA frame that `received` polled was shown in `sent`.
pub open spec fn from_the_sender(received: Seq<Turn>, sent: Seq<Turn>) -> bool {
    forall|i: int|
        0 <= i < received.len() && (polled(#[trigger] received[i]) matches Some(
            PayloadView::Data { .. },
        )) ==> exists|j: int| 0 <= j < sent.len() && shown(#[trigger] sent[j]) == polled(received[i])
}

/// The centre of it all: when every DATA frame that the receiver reads was
/// shown by a sender of `blob` under the same terms, then what `recv_blob`
/// hands back is `blob`.
pub proof fn law_transfer_delivers_the_blob(
    session: SessionView,
    blob: Seq<u8>,
    send_cfg: TransportConfig,
    sent_before: Seq<Turn>,
    sent: Seq<Turn>,
    send_result: std::result::Result<(), ErrorView>,
    recv_cfg: TransportConfig,
    recv_before: Seq<Turn>,
    received: Seq<Turn>,
    got: Seq<u8>,
)
    requires
        session.compressed_size == blob.len(),
        transport::describes(session, blob.len()),
        transport::blob_sent(
            blob,
            session,
            send_cfg,
            sent_before,
            sent_before + sent,
            send_result,
        ),
        receive::blob_received(
            session,
            recv_cfg,
            recv_before,
            recv_before + received,
            Ok(got),
        ),
        from_the_sender(received, sent),
    ensures
        got == blob,
{
    let (now, end, outcome) = choose|
        now: u64,
        end: RecvState,
        outcome: std::result::Result<(), ErrorView>,
    |
        #[trigger] machine::ran_on(
            receive::recv_start(session, recv_cfg, now),
            recv_before,
            recv_before + received,
            end,
            outcome,
        ) && Ok::<Seq<u8>, ErrorView>(got) == match outcome {
            Ok(_) => end.verdict(),
            Err(e) => Err(e),
        };
    let steps = choose|steps: Seq<Step>|
        recv_before + received == recv_before + machine::turns_of(steps) && #[trigger] machine::ran(
            receive::recv_start(session, recv_cfg, now),
            steps,
            end,
            outcome,
        );
    assert(machine::turns_of(steps) =~= received) by {
        let both = recv_before + received;
        assert(both.skip(recv_before.len() as int) =~= received);
        assert((recv_before + machine::turns_of(steps)).skip(recv_before.len() as int)
            =~= machine::turns_of(steps));
    }
    assert forall|i: int| 0 <= i < steps.len() implies honest(
        (#[trigger] steps[i]).turn,
        blob,
        session,
    ) by {
        assert(received[i] == steps[i].turn);
        if let Some(PayloadView::Data { seq, chunk }) = polled(received[i]) {
            let j = choose|j: int|
                0 <= j < sent.len() && shown(#[trigger] sent[j]) == polled(received[i]);
            sent_data_is_honest(session, blob, send_cfg, sent_before, sent, send_result, j);
        }
    }
    law_receiver_rebuilds_the_blob(session, recv_cfg, now, steps, blob);
}

proof fn sent_data_is_honest(
    session: SessionView,
    blob: Seq<u8>,
    cfg: TransportConfig,
    before: Seq<Turn>,
    sent: Seq<Turn>,
    result: std::result::Result<(), ErrorView>,
    j: int,
)
    requires
        transport::describes(session, blob.len()),
        transport::blob_sent(blob, session, cfg, before, before + sent, result),
        0 <= j < sent.len(),
        shown(sent[j]) is Some,
    ensures
        match shown(sent[j])->0 {
            PayloadView::Data { seq, chunk } => chunk == window::chunk_at(
                blob,
                frame::chunk_room(session.qr_version),
                seq as nat,
            ),
            _ => true,
        },
{
    let (now, end, outcome) = choose|
        now: u64,
        end: SendState,
        outcome: std::result::Result<(), ErrorView>,
    |
        #[trigger] machine::ran_on(
            transport::send_start(blob, session, cfg, now),
            before,
            before + sent,
            end,
            outcome,
        ) && result == match outcome {
            Ok(_) => end.verdict(),
            Err(e) => Err(e),
        };
    let start = transport::send_start(blob, session, cfg, now);
    let steps = choose|steps: Seq<Step>|
        before + sent == before + machine::turns_of(steps) && #[trigger] machine::ran(
            start,
            steps,
            end,
            outcome,
        );
    assert(machine::turns_of(steps) =~= sent) by {
        assert((before + sent).skip(before.len() as int) =~= sent);
        assert((before + machine::turns_of(steps)).skip(before.len() as int) =~= machine::turns_of(
            steps,
        ));
    }
    assert(sent[j] == steps[j].turn);
    send_starts_well(blob, session, cfg, now);
    if machine::lawful(start, steps) {
        law_sender_shows_only_the_blob(blob, session, cfg, now, steps, j);
    } else {
        // The last request failed; the ones before it were lawful.
        let done = steps.drop_last();
        if j < done.len() {
            assert(done[j] == steps[j]);
            law_sender_shows_only_the_blob(blob, session, cfg, now, done, j);
        } else {
            law_sender_invariant(start, done);
        }
    }
}

/// Whether some DATA frame numbered `seq` was polled among `steps`.
pub open spec fn arrived(steps: Seq<Step>, seq: u32) -> bool {
    exists|j: int|
        0 <= j < steps.len() && (polled((#[trigger] steps[j]).turn) matches Some(
            PayloadView::Data { seq: number, .. },
        ) && number == seq)
}

proof fn got_only_what_arrived(start: RecvState, steps: Seq<Step>, seq: u32)
    requires
        start.got == Set::<u32>::empty(),
        machine::lawful(start, steps),
        machine::after(start, steps).got.contains(seq),
    ensures
        arrived(steps, seq),
    decreases steps.len(),
{
    if steps.len() > 0 {
        let before = steps.drop_last();
        let s = machine::after(start, before);
        if s.got.contains(seq) {
            got_only_what_arrived(start, before, seq);
            let j = choose|j: int|
                0 <= j < before.len() && (polled((#[trigger] before[j]).turn) matches Some(
                    PayloadView::Data { seq: number, .. },
                ) && number == seq);
            assert(steps[j] == before[j]);
        } else {
            let last = steps[steps.len() - 1];
            assert(last.turn.answer == Ok::<Answer, ErrorView>(last.turn.answer->Ok_0));
        }
    }
}

/// An ACK never claims a chunk that did not arrive.
pub proof fn law_acks_are_truthful(
    session: SessionView,
    cfg: TransportConfig,
    now: u64,
    steps: Seq<Step>,
    i: int,
    k: u32,
)
    requires
        receive::receivable(session),
        machine::lawful(receive::recv_start(session, cfg, now), steps),
        0 <= i < steps.len(),
        k < window::WINDOW,
        shown(steps[i].turn) matches Some(PayloadView::Ack { bitmap, .. }) && window::bit(
            bitmap,
            k,
        ),
    ensures
        shown(steps[i].turn) matches Some(PayloadView::Ack { window_base, .. }) && window_base + k
            < session.chunk_count && arrived(steps.take(i), (window_base + k) as u32),
{
    let start = receive::recv_start(session, cfg, now);
    recv_starts_well(session, cfg, now);
    lawful_step(start, steps, i);
    law_receiver_invariant(start, steps.take(i));
    let s = machine::after(start, steps.take(i));
    let base = shown(steps[i].turn)->0->window_base;
    let end = window::window_end_of(base, session.chunk_count);
    window::bitmap_bits(s.got, base, end, k);
    got_only_what_arrived(start, steps.take(i), (base + k) as u32);
}

/// An error of the channel ends the sending of a blob at once and is passed on
/// as it is.
pub proof fn law_sending_passes_errors_on(
    blob: Seq<u8>,
    session: SessionView,
    cfg: TransportConfig,
    before: Seq<Turn>,
    after: Seq<Turn>,
    result: std::result::Result<(), ErrorView>,
    i: int,
)
    requires
        transport::blob_sent(blob, session, cfg, before, after, result),
        before.len() <= i < after.len(),
        after[i].answer is Err,
    ensures
        i == after.len() - 1,
        result == Err::<(), ErrorView>(after[i].answer->Err_0),
{
    let (now, end, outcome) = choose|
        now: u64,
        end: SendState,
        outcome: std::result::Result<(), ErrorView>,
    |
        #[trigger] machine::ran_on(
            transport::send_start(blob, session, cfg, now),
            before,
            after,
            end,
            outcome,
        ) && result == match outcome {
            Ok(_) => end.verdict(),
            Err(e) => Err(e),
        };
    machine::law_channel_errors_end_the_run(
        transport::send_start(blob, session, cfg, now),
        before,
        after,
        end,
        outcome,
        i,
    );
}

/// And so with the receiving of one.
pub proof fn law_receiving_passes_errors_on(
    session: SessionView,
    cfg: TransportConfig,
    before: Seq<Turn>,
    after: Seq<Turn>,
    result: std::result::Result<Seq<u8>, ErrorView>,
    i: int,
)
    requires
        receive::blob_received(session, cfg, before, after, result),
        before.len() <= i < after.len(),
        after[i].answer is Err,
    ensures
        i == after.len() - 1,
        result == Err::<Seq<u8>, ErrorView>(after[i].answer->Err_0),
{
    let (now, end, outcome) = choose|
        now: u64,
        end: RecvState,
        outcome: std::result::Result<(), ErrorView>,
    |
        #[trigger] machine::ran_on(
            receive::recv_start(session, cfg, now),
            before,
            after,
            end,
            outcome,
        ) && result == match outcome {
            Ok(_) => end.verdict(),
            Err(e) => Err(e),
        };
    machine::law_channel_errors_end_the_run(
        receive::recv_start(session, cfg, now),
        before,
        after,
        end,
        outcome,
        i,
    );
}

} // verus!
