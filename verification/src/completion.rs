//! That a handshake and a transfer over a channel that loses nothing complete.
use crate::delivery;
use crate::delivery::{polled, shown};
use crate::digest;
use crate::error::ErrorView;
use crate::frame;
use crate::frame::PayloadView;
use crate::link;
use crate::link::{LinkConfig, SessionView, PROBES};
use crate::link_recv;
use crate::link_recv::{AcceptState, GoodsView, Seen};
use crate::link_send;
use crate::link_send::{OfferPhase, OfferState};
use crate::machine;
use crate::machine::{Protocol, Step};
use crate::optical;
use crate::optical::{Answer, Call};
use crate::receive;
use crate::receive::RecvState;
use crate::transport;
use crate::transport::{SendPhase, SendState, TransportConfig};
use crate::window;
use vstd::prelude::*;

verus! {

/// The payloads that `steps` put on screen, in order.
pub open spec fn shows(steps: Seq<Step>) -> Seq<PayloadView>
    decreases steps.len(),
{
    if steps.len() == 0 {
        Seq::empty()
    } else {
        match shown(steps.last().turn) {
            Some(payload) => shows(steps.drop_last()).push(payload),
            None => shows(steps.drop_last()),
        }
    }
}

/// The payloads that `steps` read off the other side's screen, in order.
pub open spec fn reads(steps: Seq<Step>) -> Seq<PayloadView>
    decreases steps.len(),
{
    if steps.len() == 0 {
        Seq::empty()
    } else {
        match polled(steps.last().turn) {
            Some(payload) => reads(steps.drop_last()).push(payload),
            None => reads(steps.drop_last()),
        }
    }
}

/// The step that answers `call` with `answer` at `at`.
pub open spec fn answer_at(call: Call, answer: Answer, at: u64) -> Step {
    Step { turn: optical::answered(call, answer), at }
}

/// A lawful run goes on with a fitting answer to the request that it waits on.
pub proof fn go_on<S: Protocol>(start: S, steps: Seq<Step>, answer: Answer, at: u64) -> (out: Seq<Step>)
    requires
        machine::lawful(start, steps),
        machine::after(start, steps).pending() is Some,
        machine::fits(machine::after(start, steps).pending()->0, answer),
    ensures
        machine::lawful(start, out),
        machine::after(start, out) == machine::after(start, steps).next(at, answer),
        shows(out) == match machine::after(start, steps).pending()->0 {
            Call::Show(payload) => shows(steps).push(payload),
            _ => shows(steps),
        },
        reads(out) == match answer {
            Answer::Polled(Some(payload)) => reads(steps).push(payload),
            _ => reads(steps),
        },
        out.len() == steps.len() + 1,
        out.drop_last() == steps,
        out.last() == answer_at(machine::after(start, steps).pending()->0, answer, at),
{
    let out = steps.push(answer_at(machine::after(start, steps).pending()->0, answer, at));
    assert(out.drop_last() == steps);
    out
}

/// The numbers below `n`.
pub open spec fn below(n: u32) -> Set<u32> {
    Set::new(|x: u32| x < n)
}

/// There are `n` numbers below `n`.
pub proof fn below_len(n: u32)
    ensures
        below(n).finite(),
        below(n).len() == n,
    decreases n,
{
    if n == 0 {
        assert(below(n) =~= Set::empty());
    } else {
        let m = (n - 1) as u32;
        below_len(m);
        assert(below(n) =~= below(m).insert(m));
    }
}

/// The ACK of the complete window that starts at `base`.
pub open spec fn full_ack(base: u32, chunk_count: u32) -> PayloadView {
    let end = window::window_end_of(base, chunk_count);
    PayloadView::Ack { window_base: base, bitmap: window::bitmap_of(below(end), base, end) }
}

/// The DATA frame of chunk `seq`.
pub open spec fn data_frame(blob: Seq<u8>, session: SessionView, seq: u32) -> PayloadView {
    PayloadView::Data {
        seq,
        chunk: window::chunk_at(blob, frame::chunk_room(session.qr_version), seq as nat),
    }
}

/// The DATA frames of the first `n` chunks.
pub open spec fn data_frames(blob: Seq<u8>, session: SessionView, n: u32) -> Seq<PayloadView> {
    Seq::new(n as nat, |i: int| data_frame(blob, session, i as u32))
}

/// The ACKs of all windows before the one that starts at `base`.
pub open spec fn full_acks(base: u32, chunk_count: u32) -> Seq<PayloadView> {
    Seq::new(
        ((base + window::WINDOW - 1) / window::WINDOW as int) as nat,
        |i: int| full_ack((window::WINDOW * i) as u32, chunk_count),
    )
}

/// The ACK of a complete window leaves nothing missing.
pub proof fn full_ack_leaves_nothing_missing(base: u32, chunk_count: u32)
    requires
        base < chunk_count,
    ensures
        ({
            let end = window::window_end_of(base, chunk_count);
            window::unset_seqs(base, end, 0 | window::bitmap_of(below(end), base, end)).len() == 0
        }),
{
    let end = window::window_end_of(base, chunk_count);
    let bitmap = window::bitmap_of(below(end), base, end);
    assert(0 | bitmap == bitmap) by (bit_vector);
    let missing = window::unset_seqs(base, end, bitmap);
    if missing.len() > 0 {
        let seq = missing[0];
        assert(missing.contains(seq));
        window::law_ack_tells_what_is_missing(below(end), base, end, seq);
    }
}

/// From the first chunk of a window on, the sender shows one chunk after the
/// other until it waits for the ACK.
proof fn show_window(start: SendState, steps: Seq<Step>, seq: u32, now: u64) -> (out: Seq<Step>)
    requires
        machine::lawful(start, steps),
        ({
            let s = machine::after(start, steps);
            &&& s.inv()
            &&& s.at.phase == SendPhase::Show(seq)
            &&& s.at.bitmap == 0
            &&& s.at.now == now
            &&& shows(steps) == data_frames(s.blob, s.session, seq)
        }),
    ensures
        machine::lawful(start, out),
        ({
            let s = machine::after(start, steps);
            let t = machine::after(start, out);
            &&& t == s.in_phase(t.at.phase)
            &&& t.at.phase is AwaitAck
            &&& shows(out) == data_frames(s.blob, s.session, s.end())
            &&& reads(out) == reads(steps)
        }),
    decreases u32::MAX - seq,
{
    let s = machine::after(start, steps);
    let mut out = go_on(start, steps, Answer::Done, now);
    if !s.cfg.fast {
        out = go_on(start, out, Answer::Done, now);
    }
    let t = machine::after(start, out);
    assert(s.at_time(now) == s);
    assert(s.data(seq) == data_frame(s.blob, s.session, seq));
    assert(data_frames(s.blob, s.session, (seq + 1) as u32) =~= data_frames(
        s.blob,
        s.session,
        seq,
    ).push(data_frame(s.blob, s.session, seq)));
    if seq + 1 < s.end() {
        nothing_covered((seq + 1 - s.at.base) as u32);
        assert(t.at.phase == SendPhase::Show((seq + 1) as u32));
        show_window(start, out, (seq + 1) as u32, now)
    } else {
        out
    }
}

/// No bit of zero is set.
pub proof fn nothing_covered(i: u32)
    requires
        i < 32,
    ensures
        !window::bit(0, i),
{
    assert(0u32 & (1u32 << i) == 0) by (bit_vector);
}

/// The ACKs up to the end of a window are those before it, and its own.
proof fn one_more_ack(base: u32, chunk_count: u32)
    requires
        base % window::WINDOW == 0,
        base < chunk_count,
    ensures
        ({
            let end = window::window_end_of(base, chunk_count);
            full_acks(end, chunk_count) == full_acks(base, chunk_count).push(
                full_ack(base, chunk_count),
            )
        }),
{
    let end = window::window_end_of(base, chunk_count);
    assert(full_acks(end, chunk_count) =~= full_acks(base, chunk_count).push(
        full_ack(base, chunk_count),
    ));
}

/// With every window acknowledged in full, the sender gets from one to the
/// next, and to FIN.
proof fn show_windows(start: SendState, steps: Seq<Step>, now: u64) -> (out: Seq<Step>)
    requires
        start.inv(),
        machine::lawful(start, steps),
        ({
            let s = machine::after(start, steps);
            &&& s.at.phase is Opening || s.at.phase is FinStatus
            &&& s.at.base % window::WINDOW == 0 || s.at.base == s.session.chunk_count
            &&& s.at.now == now
            &&& shows(steps) == data_frames(s.blob, s.session, s.at.base)
            &&& reads(steps) == full_acks(s.at.base, s.session.chunk_count)
        }),
    ensures
        machine::lawful(start, out),
        ({
            let s = machine::after(start, steps);
            let t = machine::after(start, out);
            &&& t.at.phase is FinStatus
            &&& shows(out) == data_frames(s.blob, s.session, s.session.chunk_count)
            &&& reads(out) == full_acks(s.session.chunk_count, s.session.chunk_count)
        }),
    decreases u32::MAX - machine::after(start, steps).at.base,
{
    let s = machine::after(start, steps);
    delivery::law_sender_invariant(start, steps);
    if s.at.phase is FinStatus {
        steps
    } else {
        let base = s.at.base;
        let count = s.session.chunk_count;
        let opened = go_on(start, steps, Answer::Done, now);
        assert(s.at_time(now) == s);
        assert(machine::after(start, opened) == s.in_phase(SendPhase::Show(base)));
        delivery::law_sender_invariant(start, opened);
        let waiting = show_window(start, opened, base, now);
        let w = machine::after(start, waiting);
        let out = go_on(start, waiting, Answer::Polled(Some(full_ack(base, count))), now);
        full_ack_leaves_nothing_missing(base, count);
        one_more_ack(base, count);
        let t = machine::after(start, out);
        assert(t == w.at_time(now).heard(w.at.phase->AwaitAck_0, Some(full_ack(base, count))));
        assert(t.at.base == s.end());
        show_windows(start, out, now)
    }
}

/// The run of a sender whose every window is acknowledged in full, and whose
/// FIN is answered with OK.
proof fn sender_completes(blob: Seq<u8>, session: SessionView, cfg: TransportConfig, now: u64) -> (
    out: Seq<Step>)
    requires
        transport::describes(session, blob.len()),
    ensures
        machine::lawful(transport::send_start(blob, session, cfg, now), out),
        machine::after(transport::send_start(blob, session, cfg, now), out).verdict() is Ok,
        shows(out) == data_frames(blob, session, session.chunk_count).push(
            PayloadView::Fin { sha256: session.sha256 },
        ),
        reads(out) == full_acks(session.chunk_count, session.chunk_count).push(PayloadView::Okay),
{
    let start = transport::send_start(blob, session, cfg, now);
    delivery::send_starts_well(blob, session, cfg, now);
    let none = Seq::<Step>::empty();
    let begun = if cfg.gated {
        go_on(start, none, Answer::Gated(true), now)
    } else {
        none
    };
    assert(data_frames(blob, session, 0) =~= Seq::empty());
    assert(full_acks(0, session.chunk_count) =~= Seq::empty());
    let sent = show_windows(start, begun, now);
    delivery::law_sender_invariant(start, sent);
    let told = go_on(start, sent, Answer::Done, now);
    let finished = go_on(start, told, Answer::Done, now);
    go_on(start, finished, Answer::Polled(Some(PayloadView::Okay)), now)
}

/// Where the receiver stands after the first `seq` chunks of `blob` arrived in
/// order.
pub open spec fn holds_first(s: RecvState, steps: Seq<Step>, blob: Seq<u8>, seq: u32) -> bool {
    &&& s.at.phase is Poll
    &&& s.got == below(seq)
    &&& s.at.base <= seq <= s.end()
    &&& seq == s.end() ==> seq == s.session.chunk_count && s.at.base == seq
    &&& s.at.base % window::WINDOW == 0 || s.at.base == s.session.chunk_count
    &&& reads(steps) == data_frames(blob, s.session, seq)
    &&& shows(steps) == full_acks(s.at.base, s.session.chunk_count)
    &&& delivery::faithful(steps, blob, s.session)
}

/// One more honest answer keeps a history faithful.
pub proof fn faithful_so_far(steps: Seq<Step>, out: Seq<Step>, blob: Seq<u8>, session: SessionView)
    requires
        delivery::faithful(steps, blob, session),
        out.len() == steps.len() + 1,
        out.drop_last() == steps,
        delivery::honest(out.last().turn, blob, session),
    ensures
        delivery::faithful(out, blob, session),
{
    assert forall|i: int| 0 <= i < out.len() implies delivery::honest(
        (#[trigger] out[i]).turn,
        blob,
        session,
    ) by {
        if i < steps.len() {
            assert(out[i] == steps[i]);
        }
    }
}

/// The receiver stores the next chunk, and acknowledges the window if that was
/// its last.
proof fn take_chunk(start: RecvState, steps: Seq<Step>, blob: Seq<u8>, seq: u32, now: u64) -> (out:
    Seq<Step>)
    requires
        start.inv(),
        start.blob.len() == blob.len(),
        machine::lawful(start, steps),
        holds_first(machine::after(start, steps), steps, blob, seq),
        seq < start.session.chunk_count,
    ensures
        machine::lawful(start, out),
        holds_first(machine::after(start, out), out, blob, (seq + 1) as u32),
{
    let s = machine::after(start, steps);
    let session = s.session;
    let frame = data_frame(blob, session, seq);
    delivery::law_receiver_invariant(start, steps);
    window::chunk_bounds(blob.len(), s.chunk_size(), seq as nat);
    let stored = go_on(start, steps, Answer::Polled(Some(frame)), now);
    faithful_so_far(steps, stored, blob, session);
    let a = machine::after(start, stored);
    assert(a.got =~= below((seq + 1) as u32));
    assert(a.at.phase is Status);
    assert(data_frames(blob, session, (seq + 1) as u32) =~= data_frames(blob, session, seq).push(
        frame,
    ));
    let told = go_on(start, stored, Answer::Done, now);
    faithful_so_far(stored, told, blob, session);
    if seq + 1 < s.end() {
        window::law_ack_tells_what_is_missing(a.got, a.at.base, a.end(), (seq + 1) as u32);
        assert(a.missing().len() > 0);
        told
    } else {
        if a.missing().len() > 0 {
            let hole = a.missing()[0];
            assert(a.missing().contains(hole));
            window::law_ack_tells_what_is_missing(a.got, a.at.base, a.end(), hole);
        }
        let out = go_on(start, told, Answer::Done, now);
        faithful_so_far(told, out, blob, session);
        one_more_ack(s.at.base, session.chunk_count);
        out
    }
}

proof fn take_chunks(start: RecvState, steps: Seq<Step>, blob: Seq<u8>, seq: u32, now: u64) -> (out:
    Seq<Step>)
    requires
        start.inv(),
        start.blob.len() == blob.len(),
        machine::lawful(start, steps),
        holds_first(machine::after(start, steps), steps, blob, seq),
        seq <= start.session.chunk_count,
    ensures
        machine::lawful(start, out),
        holds_first(machine::after(start, out), out, blob, start.session.chunk_count),
    decreases start.session.chunk_count - seq,
{
    if seq < start.session.chunk_count {
        let out = take_chunk(start, steps, blob, seq, now);
        take_chunks(start, out, blob, (seq + 1) as u32, now)
    } else {
        steps
    }
}

/// The run of a receiver that reads every chunk in order, and then FIN.
proof fn receiver_completes(blob: Seq<u8>, session: SessionView, cfg: TransportConfig, now: u64)
    -> (out: Seq<Step>)
    requires
        receive::receivable(session),
        session.compressed_size == blob.len(),
        session.sha256 == digest::sha256_of(blob),
    ensures
        machine::lawful(receive::recv_start(session, cfg, now), out),
        machine::after(receive::recv_start(session, cfg, now), out).verdict() == Ok::<
            Seq<u8>,
            ErrorView,
        >(blob),
        reads(out) == data_frames(blob, session, session.chunk_count).push(
            PayloadView::Fin { sha256: session.sha256 },
        ),
        shows(out) == full_acks(session.chunk_count, session.chunk_count),
{
    let start = receive::recv_start(session, cfg, now);
    delivery::recv_starts_well(session, cfg, now);
    let none = Seq::<Step>::empty();
    assert(below(0) =~= Set::empty());
    assert(data_frames(blob, session, 0) =~= Seq::empty());
    assert(full_acks(0, session.chunk_count) =~= Seq::empty());
    let got = take_chunks(start, none, blob, 0, now);
    let s = machine::after(start, got);
    delivery::law_receiver_invariant(start, got);
    below_len(session.chunk_count);
    delivery::faithful_receiver_agrees(start, got, blob);
    assert(s.blob =~= blob);
    go_on(start, got, Answer::Polled(Some(PayloadView::Fin { sha256: session.sha256 })), now)
}

/// A transfer over a channel that loses nothing completes. Whatever the blob
/// and the settings, there is a run of the sender and one of the receiver in
/// which each reads exactly what the other shows, in order, up to the OK that
/// the receiver's caller shows once the blob is safe; both end well, and the
/// receiver hands back the blob.
pub proof fn law_a_lossless_transfer_completes(
    blob: Seq<u8>,
    session: SessionView,
    send_cfg: TransportConfig,
    recv_cfg: TransportConfig,
    now: u64,
) -> (runs: (Seq<Step>, Seq<Step>))
    requires
        receive::receivable(session),
        session.compressed_size == blob.len(),
        session.sha256 == digest::sha256_of(blob),
    ensures
        ({
            let (sender, receiver) = runs;
            let sent = machine::after(
                transport::send_start(blob, session, send_cfg, now),
                sender,
            );
            let received = machine::after(
                receive::recv_start(session, recv_cfg, now),
                receiver,
            );
            &&& machine::lawful(transport::send_start(blob, session, send_cfg, now), sender)
            &&& machine::lawful(receive::recv_start(session, recv_cfg, now), receiver)
            &&& reads(receiver) == shows(sender)
            &&& reads(sender) == shows(receiver).push(PayloadView::Okay)
            &&& sent.verdict() is Ok
            &&& received.verdict() == Ok::<Seq<u8>, ErrorView>(blob)
        }),
{
    (
        sender_completes(blob, session, send_cfg, now),
        receiver_completes(blob, session, recv_cfg, now),
    )
}

/// The first `n` probes of the table.
pub open spec fn table(n: nat) -> Seq<Seen> {
    PROBES@.take(n as int)
}

/// The frame of probe `i` of the table, when `n` are offered.
pub open spec fn probe_frame(i: int, n: nat) -> PayloadView {
    PayloadView::Probe {
        id: PROBES@[i].0,
        qr_version: PROBES@[i].1,
        dwell_ms: PROBES@[i].2,
        last: i + 1 == n,
    }
}

/// The frames of the first `k` probes, when `n` are offered.
pub open spec fn probe_frames(k: nat, n: nat) -> Seq<PayloadView> {
    Seq::new(k, |i: int| probe_frame(i, n))
}

/// How many probes of the table a display that draws up to `max` has room for.
pub open spec fn drawable_probes(max: u8) -> nat {
    link::probes_counting(6, max, None)
}

/// The number of probes that both displays have room for.
pub open spec fn common_probes(send_max: u8, recv_max: u8) -> nat {
    if drawable_probes(send_max) < drawable_probes(recv_max) {
        drawable_probes(send_max)
    } else {
        drawable_probes(recv_max)
    }
}

proof fn usable_part_of_the_table(n: nat, max: u8)
    requires
        n <= 6,
    ensures
        link_recv::usable_probes(table(n), max) == table(
            if n < drawable_probes(max) {
                n
            } else {
                drawable_probes(max)
            },
        ),
    decreases n,
{
    link::probes_are_a_prefix(max, None);
    if n > 0 {
        let m = (n - 1) as nat;
        usable_part_of_the_table(m, max);
        assert(table(n).drop_last() =~= table(m));
        assert(table(n).last() == PROBES@[n - 1]);
        assert(link::probe_counts(n - 1, max, None) <==> n - 1 < drawable_probes(max));
        assert(table(m).push(PROBES@[n - 1]) =~= table(n));
    } else {
        assert(table(0) =~= Seq::empty());
    }
}

proof fn best_of_the_table(n: nat)
    requires
        0 < n <= 6,
    ensures
        link_recv::best_probe(table(n)) == Some(PROBES@[n - 1]),
        link_recv::probe_ids(table(n)).finite(),
        link_recv::probe_ids(table(n)).len() == n,
        forall|id: u8| #[trigger] link_recv::probe_ids(table(n)).contains(id) ==> id < n,
    decreases n,
{
    let m = (n - 1) as nat;
    link::probes_are_a_prefix(0, None);
    assert(PROBES@[n - 1].0 == n - 1);
    assert(table(n).drop_last() =~= table(m));
    assert(table(n).last() == PROBES@[n - 1]);
    let ids = link_recv::probe_ids(table(m));
    assert(link_recv::probe_ids(table(n)) == ids.insert((n - 1) as u8));
    if m > 0 {
        best_of_the_table(m);
        assert(!ids.contains((n - 1) as u8));
    } else {
        assert(table(0) =~= Seq::empty());
        assert(ids == Set::<u8>::empty());
    }
}

proof fn counted_up_to(n: nat, max: u8)
    requires
        0 < n <= 6,
    ensures
        link::probes_counting(6, max, Some((n - 1) as u8)) == if n < drawable_probes(max) {
            n
        } else {
            drawable_probes(max)
        },
{
    let last = Some((n - 1) as u8);
    link::probes_are_a_prefix(max, None);
    link::probes_are_a_prefix(max, last);
    let a = link::probes_counting(6, max, last);
    let b = drawable_probes(max);
    let c = if n < b {
        n
    } else {
        b
    };
    let i = if a < c {
        a as int
    } else {
        c as int
    };
    if a != c {
        assert(link::probe_counts(i, max, last) <==> i < a);
        assert(link::probe_counts(i, max, None) <==> i < b);
        assert(PROBES@[i].0 == i);
    }
}

/// The sender shows its probes one after the other, until it waits for LINK.
proof fn show_probes(start: OfferState, steps: Seq<Step>, i: usize, now: u64) -> (out: Seq<Step>)
    requires
        machine::lawful(start, steps),
        ({
            let s = machine::after(start, steps);
            &&& s.at.phase == OfferPhase::Probe(i)
            &&& i < s.offered() <= 6
            &&& s.at.now == now
            &&& shows(steps) == probe_frames(i as nat, s.offered())
        }),
    ensures
        machine::lawful(start, out),
        ({
            let s = machine::after(start, steps);
            let t = machine::after(start, out);
            &&& t == s.in_phase(t.at.phase)
            &&& t.at.phase is AwaitLink
            &&& shows(out) == probe_frames(s.offered(), s.offered())
            &&& reads(out) == reads(steps)
        }),
    decreases 6 - i,
{
    let s = machine::after(start, steps);
    let mut out = go_on(start, steps, Answer::Done, now);
    if !s.cfg.fast {
        out = go_on(start, out, Answer::Done, now);
    }
    assert(s.at_time(now) == s);
    assert(probe_frames((i + 1) as nat, s.offered()) =~= probe_frames(i as nat, s.offered()).push(
        probe_frame(i as int, s.offered()),
    ));
    if i + 1 < s.offered() {
        show_probes(start, out, (i + 1) as usize, now)
    } else {
        out
    }
}

/// The receiver reads the probes one after the other, and picks from them.
proof fn take_probes(start: AcceptState, steps: Seq<Step>, i: nat, n: nat, now: u64) -> (out: Seq<
    Step,
>)
    requires
        machine::lawful(start, steps),
        i < n <= 6,
        ({
            let s = machine::after(start, steps);
            &&& s.at.phase is AwaitProbe || s.at.phase is MoreProbes
            &&& s.probes == table(i)
            &&& reads(steps) == probe_frames(i, n)
        }),
    ensures
        machine::lawful(start, out),
        ({
            let s = machine::after(start, steps);
            let t = machine::after(start, out);
            let full = AcceptState {
                probes: table(n),
                last_offered: Some((n - 1) as u8),
                ..s
            };
            &&& t == full.at_time(now).chosen()
            &&& reads(out) == probe_frames(n, n)
            &&& shows(out) == shows(steps)
        }),
    decreases n - i,
{
    let s = machine::after(start, steps);
    let frame = probe_frame(i as int, n);
    link::probes_are_a_prefix(0, None);
    assert(PROBES@[i as int].0 == i);
    let out = go_on(start, steps, Answer::Polled(Some(frame)), now);
    assert(table(i + 1) =~= table(i).push(PROBES@[i as int]));
    assert(probe_frames(i + 1, n) =~= probe_frames(i, n).push(frame));
    if i + 1 < n {
        let t = machine::after(start, out);
        let rest = take_probes(start, out, i + 1, n, now);
        let a = AcceptState { probes: table(n), last_offered: Some((n - 1) as u8), ..s };
        let b = AcceptState { probes: table(n), last_offered: Some((n - 1) as u8), ..t };
        chosen_forgets_the_phase(a.at_time(now), b.at_time(now));
        rest
    } else {
        out
    }
}

/// The pick does not depend on the phase in which it is made.
proof fn chosen_forgets_the_phase(a: AcceptState, b: AcceptState)
    requires
        b == a.in_phase(b.at.phase),
    ensures
        a.chosen() == b.chosen(),
{
}

/// The GO frame of an offer.
pub open spec fn go_frame(session: SessionView) -> PayloadView {
    PayloadView::Go {
        basename: session.basename,
        uncompressed_hint: session.uncompressed_hint,
        compressed_size: session.compressed_size,
        chunk_count: session.chunk_count,
        sha256: session.sha256,
    }
}

/// The receiver's greeting.
pub open spec fn hello_frame() -> PayloadView {
    PayloadView::Hello { protocol_ver: 1, role: frame::ROLE_RECV }
}

/// The receiver's word that it takes the offer.
pub open spec fn accept_frame() -> PayloadView {
    PayloadView::Ack { window_base: 0, bitmap: 0 }
}

/// The LINK frame of a receiver that read all probes up to number `m` of the
/// table, and none that it can use beyond that.
pub open spec fn link_frame(m: nat, cfg: LinkConfig, suggested: u16) -> PayloadView {
    PayloadView::Link {
        qr_version: PROBES@[m - 1].1,
        dwell_ms: link_recv::longer(
            link_recv::longer(PROBES@[m - 1].2, cfg.dwell_floor_ms),
            suggested,
        ),
        probe_loss: 0,
    }
}

/// The run of a sender that is greeted, gets `linked` for its probes, and is
/// taken up on its offer.
proof fn offer_completes(
    basename: Seq<char>,
    uncompressed_hint: u64,
    compressed_size: u64,
    sha256: Seq<u8>,
    cfg: LinkConfig,
    linked: PayloadView,
    now: u64,
) -> (out: Seq<Step>)
    requires
        drawable_probes(cfg.max_qr_version) > 0,
        linked matches PayloadView::Link { qr_version, .. } && qr_version <= cfg.max_qr_version
            && frame::chunk_room(qr_version) > 0,
    ensures
        ({
            let start = link_send::offer_start(
                basename,
                uncompressed_hint,
                compressed_size,
                sha256,
                cfg,
                now,
            );
            let n = drawable_probes(cfg.max_qr_version);
            let end = machine::after(start, out);
            &&& machine::lawful(start, out)
            &&& end.verdict() is Ok
            &&& end.verdict()->Ok_0.qr_version == linked->Link_qr_version
            &&& shows(out) == probe_frames(n, n).push(go_frame(end.verdict()->Ok_0))
            &&& reads(out) == seq![hello_frame(), linked, accept_frame()]
        }),
{
    let start = link_send::offer_start(
        basename,
        uncompressed_hint,
        compressed_size,
        sha256,
        cfg,
        now,
    );
    let n = drawable_probes(cfg.max_qr_version);
    link::probes_are_a_prefix(cfg.max_qr_version, None);
    let none = Seq::<Step>::empty();
    let greeted = go_on(start, none, Answer::Polled(Some(hello_frame())), now);
    let logged = go_on(start, greeted, Answer::Done, now);
    assert(probe_frames(0, n) =~= Seq::empty());
    let probed = show_probes(start, logged, 0, now);
    let picked = go_on(start, probed, Answer::Polled(Some(linked)), now);
    let locked = go_on(start, picked, Answer::Done, now);
    let noted = go_on(start, locked, Answer::Done, now);
    let offered = go_on(start, noted, Answer::Done, now);
    let taken = go_on(start, offered, Answer::Polled(Some(accept_frame())), now);
    let out = go_on(start, taken, Answer::Done, now);
    assert(reads(out) =~= seq![hello_frame(), linked, accept_frame()]);
    out
}

/// The run of a receiver that reads all `n` probes of a sender and its offer,
/// up to the question whether the destination is free.
proof fn acceptance_hears_the_offer(
    cfg: LinkConfig,
    n: nat,
    suggested: u16,
    goods: GoodsView,
    now: u64,
) -> (out: Seq<Step>)
    requires
        0 < n <= 6,
        drawable_probes(cfg.max_qr_version) > 0,
    ensures
        ({
            let start = link_recv::accept_start(cfg, now);
            let m = if n < drawable_probes(cfg.max_qr_version) {
                n
            } else {
                drawable_probes(cfg.max_qr_version)
            };
            let end = machine::after(start, out);
            let linked = link_frame(m, cfg, suggested);
            &&& machine::lawful(start, out)
            &&& end.at.phase is Offered
            &&& end.goods == Some(goods)
            &&& end.at.qr_version == linked->Link_qr_version
            &&& end.at.dwell_ms == linked->Link_dwell_ms
            &&& shows(out) == seq![hello_frame(), linked]
            &&& reads(out) == probe_frames(n, n).push(
                PayloadView::Go {
                    basename: goods.basename,
                    uncompressed_hint: goods.uncompressed_hint,
                    compressed_size: goods.compressed_size,
                    chunk_count: goods.chunk_count,
                    sha256: goods.sha256,
                },
            )
        }),
{
    let start = link_recv::accept_start(cfg, now);
    let max = cfg.max_qr_version;
    let m = if n < drawable_probes(max) {
        n
    } else {
        drawable_probes(max)
    };
    let none = Seq::<Step>::empty();
    let greeting = go_on(start, none, Answer::Done, now);
    assert(table(0) =~= Seq::empty());
    assert(probe_frames(0, n) =~= Seq::empty());
    let probed = take_probes(start, greeting, 0, n, now);
    link::probes_are_a_prefix(max, None);
    usable_part_of_the_table(n, max);
    best_of_the_table(m);
    counted_up_to(n, max);
    let asked = go_on(start, probed, Answer::Dwell(suggested), now);
    let locked = go_on(start, asked, Answer::Done, now);
    let noted = go_on(start, locked, Answer::Done, now);
    let linked = go_on(start, noted, Answer::Done, now);
    let go = PayloadView::Go {
        basename: goods.basename,
        uncompressed_hint: goods.uncompressed_hint,
        compressed_size: goods.compressed_size,
        chunk_count: goods.chunk_count,
        sha256: goods.sha256,
    };
    let out = go_on(start, linked, Answer::Polled(Some(go)), now);
    assert(shows(out) =~= seq![hello_frame(), link_frame(m, cfg, suggested)]);
    out
}

/// The run of a receiver whose destination is free, from the offer on.
proof fn acceptance_completes(offered: AcceptState, force: bool, dest: Seq<char>, now: u64) -> (
    out: Seq<Step>)
    requires
        offered.at.phase is Offered,
        offered.goods is Some,
    ensures
        ({
            let start = offered.decided(false, force);
            let end = machine::after(start, out);
            &&& machine::lawful(start, out)
            &&& end.verdict(dest) == Ok::<SessionView, ErrorView>(offered.session())
            &&& shows(out) == seq![accept_frame()]
            &&& reads(out) == Seq::<PayloadView>::empty()
        }),
{
    let start = offered.decided(false, force);
    let none = Seq::<Step>::empty();
    let noted = go_on(start, none, Answer::Done, now);
    let out = go_on(start, noted, Answer::Done, now);
    assert(shows(out) =~= seq![accept_frame()]);
    out
}

proof fn probes_carry_chunks(m: nat)
    requires
        0 < m <= 6,
    ensures
        frame::chunk_room(PROBES@[m - 1].1) > 0,
{
}

/// A handshake over a channel that loses nothing completes. Whatever is
/// offered, as long as both displays can draw some version of the table and
/// the destination is free, there is a run of the sender and one of the
/// receiver in which each reads exactly what the other shows, in order. Both
/// link at the highest version that both can draw, with no loss reported, and
/// the receiver's session is what the sender offered.
pub proof fn law_a_lossless_handshake_links(
    basename: Seq<char>,
    uncompressed_hint: u64,
    compressed_size: u64,
    sha256: Seq<u8>,
    send_cfg: LinkConfig,
    recv_cfg: LinkConfig,
    suggested: u16,
    dest: Seq<char>,
    force: bool,
    now: u64,
) -> (runs: (Seq<Step>, Seq<Step>, Seq<Step>))
    requires
        common_probes(send_cfg.max_qr_version, recv_cfg.max_qr_version) > 0,
    ensures
        ({
            let (sender, hearing, taking) = runs;
            let send_start = link_send::offer_start(
                basename,
                uncompressed_hint,
                compressed_size,
                sha256,
                send_cfg,
                now,
            );
            let recv_start = link_recv::accept_start(recv_cfg, now);
            let offered = machine::after(recv_start, hearing);
            let m = common_probes(send_cfg.max_qr_version, recv_cfg.max_qr_version);
            let sent = machine::after(send_start, sender).verdict();
            let received = machine::after(offered.decided(false, force), taking).verdict(dest);
            &&& machine::lawful(send_start, sender)
            &&& machine::lawful(recv_start, hearing)
            &&& offered.at.phase is Offered
            &&& machine::lawful(offered.decided(false, force), taking)
            &&& reads(hearing) + reads(taking) == shows(sender)
            &&& reads(sender) == shows(hearing) + shows(taking)
            &&& shows(hearing)[1] == link_frame(m, recv_cfg, suggested)
            &&& sent is Ok
            &&& received is Ok
            &&& sent->Ok_0.qr_version == PROBES@[m - 1].1
            &&& received->Ok_0.qr_version == PROBES@[m - 1].1
            &&& received->Ok_0 == (SessionView {
                dwell_ms: received->Ok_0.dwell_ms,
                ..sent->Ok_0
            })
        }),
{
    let n = drawable_probes(send_cfg.max_qr_version);
    let m = common_probes(send_cfg.max_qr_version, recv_cfg.max_qr_version);
    link::probes_are_a_prefix(send_cfg.max_qr_version, None);
    link::probes_are_a_prefix(recv_cfg.max_qr_version, None);
    probes_carry_chunks(m);
    assert(link::probe_counts(m - 1, send_cfg.max_qr_version, None));
    let linked = link_frame(m, recv_cfg, suggested);
    let sender = offer_completes(
        basename,
        uncompressed_hint,
        compressed_size,
        sha256,
        send_cfg,
        linked,
        now,
    );
    let send_start = link_send::offer_start(
        basename,
        uncompressed_hint,
        compressed_size,
        sha256,
        send_cfg,
        now,
    );
    let session = machine::after(send_start, sender).verdict()->Ok_0;
    let goods = GoodsView {
        basename: session.basename,
        uncompressed_hint: session.uncompressed_hint,
        compressed_size: session.compressed_size,
        chunk_count: session.chunk_count,
        sha256: session.sha256,
    };
    let hearing = acceptance_hears_the_offer(recv_cfg, n, suggested, goods, now);
    let offered = machine::after(link_recv::accept_start(recv_cfg, now), hearing);
    let taking = acceptance_completes(offered, force, dest, now);
    assert(reads(hearing) + reads(taking) =~= shows(sender));
    assert(reads(sender) =~= shows(hearing) + shows(taking));
    (sender, hearing, taking)
}

} // verus!
