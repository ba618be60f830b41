//! That a transfer completes although a chunk gets lost on the way.
use crate::completion;
use crate::completion::{below, data_frame, full_ack, reads, shows};
use crate::delivery;
use crate::digest;
use crate::error::ErrorView;
use crate::frame::PayloadView;
use crate::link::SessionView;
use crate::machine;
use crate::machine::{Protocol, Step};
use crate::optical::Answer;
use crate::receive;
use crate::receive::RecvState;
use crate::transport;
use crate::transport::{SendPhase, SendState, TransportConfig};
use crate::window;
use vstd::prelude::*;

verus! {

/// The DATA frames of the chunks from `from` up to `to`.
#[verifier::opaque]
pub open spec fn frames(blob: Seq<u8>, session: SessionView, from: u32, to: u32) -> Seq<PayloadView> {
    Seq::new((to - from) as nat, |i: int| data_frame(blob, session, (from + i) as u32))
}

/// The ACKs of the windows from the one that starts at `from` up to `to`, each
/// complete.
#[verifier::opaque]
pub open spec fn acks(from: u32, to: u32, chunk_count: u32) -> Seq<PayloadView>
    decreases u32::MAX - from,
{
    if from >= to || window::window_end_of(from, chunk_count) <= from {
        Seq::empty()
    } else {
        seq![full_ack(from, chunk_count)] + acks(
            window::window_end_of(from, chunk_count),
            to,
            chunk_count,
        )
    }
}

/// The first chunk of the window of chunk `seq`.
pub open spec fn window_of(seq: u32) -> u32 {
    (seq - seq % 32) as u32
}

/// The chunks up to `end` but for `lost`.
pub open spec fn all_but(end: u32, lost: u32) -> Set<u32> {
    below(end).remove(lost)
}

/// The bits of an ACK of the window of `lost` when all of it but that arrived.
#[verifier::opaque]
pub open spec fn partial(lost: u32, chunk_count: u32) -> u32 {
    let end = window::window_end_of(window_of(lost), chunk_count);
    window::bitmap_of(all_but(end, lost), window_of(lost), end)
}

proof fn frames_join(blob: Seq<u8>, session: SessionView, from: u32, mid: u32, to: u32)
    requires
        from <= mid <= to,
    ensures
        frames(blob, session, from, mid) + frames(blob, session, mid, to) == frames(
            blob,
            session,
            from,
            to,
        ),
        frames(blob, session, from, from) == Seq::<PayloadView>::empty(),
        from < to ==> frames(blob, session, from, (from + 1) as u32) == seq![
            data_frame(blob, session, from),
        ],
{
    reveal(frames);
    assert(frames(blob, session, from, mid) + frames(blob, session, mid, to) =~= frames(
        blob,
        session,
        from,
        to,
    ));
    assert(frames(blob, session, from, from) =~= Seq::<PayloadView>::empty());
    if from < to {
        assert(frames(blob, session, from, (from + 1) as u32) =~= seq![
            data_frame(blob, session, from),
        ]);
    }
}

proof fn acks_unfold(from: u32, to: u32, chunk_count: u32)
    ensures
        acks(to, to, chunk_count) == Seq::<PayloadView>::empty(),
        from < to && from < window::window_end_of(from, chunk_count) ==> acks(from, to, chunk_count)
            == seq![full_ack(from, chunk_count)] + acks(
            window::window_end_of(from, chunk_count),
            to,
            chunk_count,
        ),
{
    reveal(acks);
}

proof fn grouped(a: Seq<PayloadView>, b: Seq<PayloadView>, c: Seq<PayloadView>)
    ensures
        (a + b) + c == a + (b + c),
        a + Seq::<PayloadView>::empty() == a,
        Seq::<PayloadView>::empty() + a == a,
{
    assert((a + b) + c =~= a + (b + c));
    assert(a + Seq::<PayloadView>::empty() =~= a);
    assert(Seq::<PayloadView>::empty() + a =~= a);
}

proof fn one_more(a: Seq<PayloadView>, x: PayloadView)
    ensures
        a.push(x) == a + seq![x],
{
    assert(a.push(x) =~= a + seq![x]);
}

/// A chunk of a window of which nothing is covered is shown, and then the next
/// one, or the ACK is waited for.
proof fn show_one(start: SendState, steps: Seq<Step>, seq: u32, now: u64) -> (out: Seq<Step>)
    requires
        start.inv(),
        machine::lawful(start, steps),
        ({
            let s = machine::after(start, steps);
            s.at.phase == SendPhase::Show(seq) && s.at.bitmap == 0 && s.at.now == now
        }),
    ensures
        machine::lawful(start, out),
        ({
            let s = machine::after(start, steps);
            let t = machine::after(start, out);
            &&& s.at.base <= seq < s.end()
            &&& t == s.in_phase(t.at.phase)
            &&& seq + 1 < s.end() ==> t.at.phase == SendPhase::Show((seq + 1) as u32)
            &&& seq + 1 >= s.end() ==> t.at.phase is AwaitAck
            &&& shows(out) == shows(steps).push(data_frame(s.blob, s.session, seq))
            &&& reads(out) == reads(steps)
        }),
{
    delivery::law_sender_invariant(start, steps);
    let s = machine::after(start, steps);
    let mut out = completion::go_on(start, steps, Answer::Done, now);
    if !s.cfg.fast {
        out = completion::go_on(start, out, Answer::Done, now);
    }
    assert(s.at_time(now) == s);
    assert(s.data(seq) == data_frame(s.blob, s.session, seq));
    if seq + 1 < s.end() {
        completion::nothing_covered((seq + 1 - s.at.base) as u32);
    }
    out
}

/// With no chunk of the window covered, the sender shows one after the other.
proof fn show_rest(start: SendState, steps: Seq<Step>, seq: u32, now: u64) -> (out: Seq<Step>)
    requires
        start.inv(),
        machine::lawful(start, steps),
        ({
            let s = machine::after(start, steps);
            s.at.phase == SendPhase::Show(seq) && s.at.bitmap == 0 && s.at.now == now
        }),
    ensures
        machine::lawful(start, out),
        ({
            let s = machine::after(start, steps);
            let t = machine::after(start, out);
            &&& t == s.in_phase(t.at.phase)
            &&& t.at.phase is AwaitAck
            &&& shows(out) == shows(steps) + frames(s.blob, s.session, seq, s.end())
            &&& reads(out) == reads(steps)
        }),
    decreases u32::MAX - seq,
{
    let s = machine::after(start, steps);
    let out = show_one(start, steps, seq, now);
    let next = (seq + 1) as u32;
    let frame = data_frame(s.blob, s.session, seq);
    frames_join(s.blob, s.session, seq, next, s.end());
    one_more(shows(steps), frame);
    if next < s.end() {
        let more = show_rest(start, out, next, now);
        grouped(shows(steps), seq![frame], frames(s.blob, s.session, next, s.end()));
        more
    } else {
        out
    }
}

/// A window is opened and shown.
proof fn show_window(start: SendState, steps: Seq<Step>, now: u64) -> (out: Seq<Step>)
    requires
        start.inv(),
        machine::lawful(start, steps),
        machine::after(start, steps).at.phase is Opening,
        machine::after(start, steps).at.now == now,
    ensures
        machine::lawful(start, out),
        ({
            let s = machine::after(start, steps);
            let t = machine::after(start, out);
            &&& t == s.in_phase(t.at.phase)
            &&& s.at.bitmap == 0
            &&& t.at.phase is AwaitAck
            &&& shows(out) == shows(steps) + frames(s.blob, s.session, s.at.base, s.end())
            &&& reads(out) == reads(steps)
        }),
{
    let s = machine::after(start, steps);
    delivery::law_sender_invariant(start, steps);
    let opened = completion::go_on(start, steps, Answer::Done, now);
    assert(s.at_time(now) == s);
    assert(machine::after(start, opened) == s.in_phase(SendPhase::Show(s.at.base)));
    show_rest(start, opened, s.at.base, now)
}

/// An ACK that leaves nothing missing ends the window.
proof fn window_done(start: SendState, steps: Seq<Step>, bitmap: u32, now: u64) -> (out: Seq<Step>)
    requires
        start.inv(),
        machine::lawful(start, steps),
        ({
            let s = machine::after(start, steps);
            &&& s.at.phase is AwaitAck
            &&& s.at.now == now
            &&& window::unset_seqs(s.at.base, s.end(), s.at.bitmap | bitmap).len() == 0
        }),
    ensures
        machine::lawful(start, out),
        ({
            let s = machine::after(start, steps);
            let t = machine::after(start, out);
            &&& t.at.base == s.end()
            &&& t.at.phase is Opening || t.at.phase is FinStatus
            &&& s.end() < s.session.chunk_count ==> t.at.phase is Opening
            &&& t.at.now == now
            &&& t.blob == s.blob
            &&& t.session == s.session
            &&& shows(out) == shows(steps)
            &&& reads(out) == reads(steps).push(
                PayloadView::Ack { window_base: s.at.base, bitmap },
            )
        }),
{
    delivery::law_sender_invariant(start, steps);
    let s = machine::after(start, steps);
    let ack = PayloadView::Ack { window_base: s.at.base, bitmap };
    completion::go_on(start, steps, Answer::Polled(Some(ack)), now)
}

/// A window that loses nothing.
proof fn send_window(start: SendState, steps: Seq<Step>, now: u64) -> (out: Seq<Step>)
    requires
        start.inv(),
        machine::lawful(start, steps),
        machine::after(start, steps).at.phase is Opening,
        machine::after(start, steps).at.now == now,
    ensures
        machine::lawful(start, out),
        ({
            let s = machine::after(start, steps);
            let t = machine::after(start, out);
            &&& s.at.base < s.end() <= s.session.chunk_count
            &&& t.at.base == s.end()
            &&& t.at.phase is Opening || t.at.phase is FinStatus
            &&& s.end() < s.session.chunk_count ==> t.at.phase is Opening
            &&& t.at.now == now
            &&& t.blob == s.blob
            &&& t.session == s.session
            &&& shows(out) == shows(steps) + frames(s.blob, s.session, s.at.base, s.end())
            &&& reads(out) == reads(steps).push(full_ack(s.at.base, s.session.chunk_count))
        }),
{
    let s = machine::after(start, steps);
    let waiting = show_window(start, steps, now);
    opens_below_the_end(start, steps);
    completion::full_ack_leaves_nothing_missing(s.at.base, s.session.chunk_count);
    window_done(start, waiting, window::bitmap_of(below(s.end()), s.at.base, s.end()), now)
}

proof fn opens_below_the_end(start: SendState, steps: Seq<Step>)
    requires
        start.inv(),
        machine::lawful(start, steps),
        machine::after(start, steps).at.phase is Opening,
    ensures
        machine::after(start, steps).at.base < machine::after(start, steps).session.chunk_count,
{
    delivery::law_sender_invariant(start, steps);
}

/// Windows that are acknowledged in full follow each other up to `to`.
#[verifier::rlimit(30)]
proof fn show_windows(start: SendState, steps: Seq<Step>, to: u32, now: u64) -> (out: Seq<Step>)
    requires
        start.inv(),
        machine::lawful(start, steps),
        ({
            let s = machine::after(start, steps);
            &&& s.at.phase is Opening || s.at.phase is FinStatus
            &&& s.at.base < s.session.chunk_count ==> s.at.phase is Opening
            &&& s.at.base % 32 == 0 || s.at.base == s.session.chunk_count
            &&& to % 32 == 0 || to == s.session.chunk_count
            &&& s.at.base <= to <= s.session.chunk_count
            &&& s.at.now == now
        }),
    ensures
        machine::lawful(start, out),
        ({
            let s = machine::after(start, steps);
            let t = machine::after(start, out);
            &&& t.at.base == to
            &&& t.at.phase is Opening || t.at.phase is FinStatus
            &&& to < s.session.chunk_count ==> t.at.phase is Opening
            &&& t.at.now == now
            &&& t.blob == s.blob
            &&& t.session == s.session
            &&& shows(out) == shows(steps) + frames(s.blob, s.session, s.at.base, to)
            &&& reads(out) == reads(steps) + acks(s.at.base, to, s.session.chunk_count)
        }),
    decreases to - machine::after(start, steps).at.base,
{
    let s = machine::after(start, steps);
    let count = s.session.chunk_count;
    let base = s.at.base;
    acks_unfold(base, to, count);
    if base == to {
        frames_join(s.blob, s.session, to, to, to);
        grouped(shows(steps), Seq::empty(), Seq::empty());
        grouped(reads(steps), Seq::empty(), Seq::empty());
        steps
    } else {
        let out = send_window(start, steps, now);
        let end = s.end();
        assert(end == base + 32 || end == count);
        let more = show_windows(start, out, to, now);
        frames_join(s.blob, s.session, base, end, to);
        grouped(
            shows(steps),
            frames(s.blob, s.session, base, end),
            frames(s.blob, s.session, end, to),
        );
        one_more(reads(steps), full_ack(base, count));
        grouped(reads(steps), seq![full_ack(base, count)], acks(end, to, count));
        more
    }
}

#[verifier::rlimit(30)]
proof fn only_one_is_missing(lost: u32, count: u32)
    requires
        lost < count,
    ensures
        ({
            let base = window_of(lost);
            let end = window::window_end_of(base, count);
            let bits = partial(lost, count);
            &&& base <= lost < end
            &&& end <= base + 32
            &&& base % 32 == 0
            &&& end % 32 == 0 || end == count
            &&& window::unset_seqs(base, end, bits) == seq![lost]
            &&& window::next_unset(base, end, bits, base) == Some(lost)
            &&& window::next_unset(base, end, bits, (lost + 1) as u32) is None
            &&& end - base == 1 ==> bits == 0
            &&& end - base > 1 ==> bits != 0
            &&& window::unset_seqs(
                base,
                end,
                bits | window::bitmap_of(below(end), base, end),
            ).len() == 0
            &&& 0 | bits == bits
        }),
{
    reveal(partial);
    let base = window_of(lost);
    let end = window::window_end_of(base, count);
    let bits = partial(lost, count);
    let missing = window::unset_seqs(base, end, bits);
    window::unset_seqs_members(base, end, bits);
    assert forall|seq: u32| #[trigger] missing.contains(seq) <==> seq == lost by {
        window::law_ack_tells_what_is_missing(all_but(end, lost), base, end, seq);
    }
    assert(missing.contains(lost));
    if missing.len() > 1 {
        assert(missing.contains(missing[0]) && missing.contains(missing[1]));
        assert(missing[0] < missing[1]);
    }
    assert(missing =~= seq![lost]);
    window::next_unset_is_first(base, end, bits, base);
    window::next_unset_is_first(base, end, bits, (lost + 1) as u32);
    if end - base == 1 {
        reveal_with_fuel(window::bitmap_of, 2);
    } else {
        let other: u32 = if lost == base {
            (base + 1) as u32
        } else {
            base
        };
        let k = (other - base) as u32;
        window::bitmap_bits(all_but(end, lost), base, end, k);
        completion::nothing_covered(k);
    }
    let all = window::bitmap_of(below(end), base, end);
    let both = bits | all;
    let none = window::unset_seqs(base, end, both);
    window::unset_seqs_members(base, end, both);
    if none.len() > 0 {
        let seq = none[0];
        assert(none.contains(seq));
        let k = (seq - base) as u32;
        window::bitmap_bits(below(end), base, end, k);
        assert((bits | all) & (1u32 << k) != 0) by (bit_vector)
            requires
                all & (1u32 << k) != 0,
        ;
    }
    assert(0 | bits == bits) by (bit_vector);
}

proof fn window_edges(lost: u32, count: u32)
    requires
        lost < count,
    ensures
        ({
            let base = window_of(lost);
            let end = window::window_end_of(base, count);
            &&& base <= lost < end <= count
            &&& end <= base + 32
            &&& base % 32 == 0
            &&& end % 32 == 0 || end == count
        }),
{
    only_one_is_missing(lost, count);
}

proof fn the_rest_covers_the_window(lost: u32, count: u32)
    requires
        lost < count,
    ensures
        ({
            let base = window_of(lost);
            let end = window::window_end_of(base, count);
            window::unset_seqs(
                base,
                end,
                partial(lost, count) | window::bitmap_of(below(end), base, end),
            ).len() == 0
        }),
{
    only_one_is_missing(lost, count);
}

/// What the sender reads about the window of a lost chunk: the ACK of the rest of
/// it, if there is a rest, and the ACK of all of it.
pub open spec fn acks_with_loss(lost: u32, count: u32) -> Seq<PayloadView> {
    let base = window_of(lost);
    let end = window::window_end_of(base, count);
    if end - base > 1 {
        seq![
            PayloadView::Ack { window_base: base, bitmap: partial(lost, count) },
            full_ack(base, count),
        ]
    } else {
        seq![full_ack(base, count)]
    }
}

/// The ACK of the rest of the window, or no ACK if there is no rest, leaves the
/// sender with a hole.
proof fn hear_of_loss(start: SendState, steps: Seq<Step>, lost: u32, now: u64) -> (out: Seq<Step>)
    requires
        start.inv(),
        machine::lawful(start, steps),
        ({
            let s = machine::after(start, steps);
            &&& s.at.phase is AwaitAck
            &&& lost < s.session.chunk_count
            &&& s.at.base == window_of(lost)
            &&& s.at.bitmap == 0
            &&& s.at.previous == 0
            &&& s.at.stalls == 0
            &&& s.at.now == now
        }),
    ensures
        machine::lawful(start, out),
        ({
            let s = machine::after(start, steps);
            let t = machine::after(start, out);
            let ack = PayloadView::Ack {
                window_base: s.at.base,
                bitmap: partial(lost, s.session.chunk_count),
            };
            &&& t.at.phase is Report
            &&& t.at.base == s.at.base
            &&& t.at.bitmap == partial(lost, s.session.chunk_count)
            &&& t.at.now == now
            &&& t.blob == s.blob
            &&& t.session == s.session
            &&& shows(out) == shows(steps)
            &&& reads(out) == (if s.end() - s.at.base > 1 {
                reads(steps).push(ack)
            } else {
                reads(steps)
            })
        }),
{
    let s = machine::after(start, steps);
    delivery::law_sender_invariant(start, steps);
    only_one_is_missing(lost, s.session.chunk_count);
    let bits = partial(lost, s.session.chunk_count);
    let answer = if s.end() - s.at.base > 1 {
        Answer::Polled(Some(PayloadView::Ack { window_base: s.at.base, bitmap: bits }))
    } else {
        Answer::Polled(None)
    };
    let out = completion::go_on(start, steps, answer, now);
    let t = machine::after(start, out);
    assert(t.at.bitmap == bits);
    out
}

/// The hole is shown again.
#[verifier::rlimit(30)]
proof fn show_again(start: SendState, steps: Seq<Step>, lost: u32, now: u64) -> (out: Seq<Step>)
    requires
        start.inv(),
        machine::lawful(start, steps),
        ({
            let s = machine::after(start, steps);
            &&& s.at.phase is Report
            &&& lost < s.session.chunk_count
            &&& s.at.base == window_of(lost)
            &&& s.at.bitmap == partial(lost, s.session.chunk_count)
            &&& s.at.now == now
        }),
    ensures
        machine::lawful(start, out),
        ({
            let s = machine::after(start, steps);
            let t = machine::after(start, out);
            &&& t == s.in_phase(t.at.phase)
            &&& t.at.phase is AwaitAck
            &&& shows(out) == shows(steps).push(data_frame(s.blob, s.session, lost))
            &&& reads(out) == reads(steps)
        }),
{
    let s = machine::after(start, steps);
    delivery::law_sender_invariant(start, steps);
    only_one_is_missing(lost, s.session.chunk_count);
    assert(s.at_time(now) == s);
    let reported = completion::go_on(start, steps, Answer::Done, now);
    let r = machine::after(start, reported);
    assert(r == s.in_phase(SendPhase::Show(lost)));
    assert(r.data(lost) == data_frame(s.blob, s.session, lost));
    let out = completion::go_on(start, reported, Answer::Done, now);
    if s.cfg.fast {
        out
    } else {
        completion::go_on(start, out, Answer::Done, now)
    }
}

/// The window of a lost chunk: that chunk is shown again.
#[verifier::rlimit(30)]
proof fn send_lossy_window(start: SendState, steps: Seq<Step>, lost: u32, now: u64) -> (out: Seq<
    Step,
>)
    requires
        start.inv(),
        machine::lawful(start, steps),
        ({
            let s = machine::after(start, steps);
            &&& s.at.phase is Opening
            &&& lost < s.session.chunk_count
            &&& s.at.base == window_of(lost)
            &&& s.at.now == now
            &&& s.at.stalls == 0
            &&& s.at.previous == 0
        }),
    ensures
        machine::lawful(start, out),
        ({
            let s = machine::after(start, steps);
            let t = machine::after(start, out);
            let count = s.session.chunk_count;
            &&& t.at.base == s.end()
            &&& t.at.phase is Opening || t.at.phase is FinStatus
            &&& s.end() < count ==> t.at.phase is Opening
            &&& t.at.now == now
            &&& t.blob == s.blob
            &&& t.session == s.session
            &&& shows(out) == shows(steps) + frames(s.blob, s.session, s.at.base, s.end()) + seq![
                data_frame(s.blob, s.session, lost),
            ]
            &&& reads(out) == reads(steps) + acks_with_loss(lost, count)
        }),
{
    let s = machine::after(start, steps);
    let count = s.session.chunk_count;
    let base = s.at.base;
    let waiting = show_window(start, steps, now);
    let judged = hear_of_loss(start, waiting, lost, now);
    let again = show_again(start, judged, lost, now);
    the_rest_covers_the_window(lost, count);
    let out = window_done(start, again, window::bitmap_of(below(s.end()), base, s.end()), now);
    one_more(
        shows(steps) + frames(s.blob, s.session, base, s.end()),
        data_frame(s.blob, s.session, lost),
    );
    let ack = PayloadView::Ack { window_base: base, bitmap: partial(lost, count) };
    let whole = full_ack(base, count);
    two_more(reads(steps), ack, whole);
    one_more(reads(steps), whole);
    out
}

proof fn two_more(a: Seq<PayloadView>, x: PayloadView, y: PayloadView)
    ensures
        a.push(x).push(y) == a + seq![x, y],
{
    assert(a.push(x).push(y) =~= a + seq![x, y]);
}

/// What the sender shows in all.
pub open spec fn all_shown(blob: Seq<u8>, session: SessionView, lost: u32) -> Seq<PayloadView> {
    let end = window::window_end_of(window_of(lost), session.chunk_count);
    (frames(blob, session, 0, end) + seq![data_frame(blob, session, lost)] + frames(
        blob,
        session,
        end,
        session.chunk_count,
    )).push(PayloadView::Fin { sha256: session.sha256 })
}

/// What the receiver acknowledges in all.
pub open spec fn all_acks(session: SessionView, lost: u32) -> Seq<PayloadView> {
    let count = session.chunk_count;
    acks(0, window_of(lost), count) + acks_with_loss(lost, count) + acks(
        window::window_end_of(window_of(lost), count),
        count,
        count,
    )
}

/// FIN, and the OK that answers it.
proof fn conclude(start: SendState, steps: Seq<Step>, now: u64) -> (out: Seq<Step>)
    requires
        start.inv(),
        machine::lawful(start, steps),
        machine::after(start, steps).at.base == start.session.chunk_count,
        machine::after(start, steps).at.phase is Opening || machine::after(
            start,
            steps,
        ).at.phase is FinStatus,
    ensures
        machine::lawful(start, out),
        machine::after(start, out).pending() is None,
        machine::after(start, out).verdict() is Ok,
        shows(out) == shows(steps).push(PayloadView::Fin { sha256: start.session.sha256 }),
        reads(out) == reads(steps).push(PayloadView::Okay),
{
    delivery::law_sender_invariant(start, steps);
    let told = completion::go_on(start, steps, Answer::Done, now);
    let finished = completion::go_on(start, told, Answer::Done, now);
    completion::go_on(start, finished, Answer::Polled(Some(PayloadView::Okay)), now)
}

proof fn fresh_window(start: SendState, steps: Seq<Step>)
    requires
        machine::lawful(start, steps),
        start.at.stalls == 0,
        start.at.previous == 0,
    ensures
        machine::after(start, steps).at.phase is Opening ==> machine::after(start, steps).at.stalls
            == 0 && machine::after(start, steps).at.previous == 0,
    decreases steps.len(),
{
    if steps.len() > 0 {
        fresh_window(start, steps.drop_last());
    }
}

/// A sender whose go-ahead is given is at its first window.
proof fn begin(blob: Seq<u8>, session: SessionView, cfg: TransportConfig, now: u64) -> (out: Seq<
    Step,
>)
    requires
        transport::describes(session, blob.len()),
        session.chunk_count > 0,
    ensures
        ({
            let start = transport::send_start(blob, session, cfg, now);
            let s = machine::after(start, out);
            &&& start.inv()
            &&& start.session == session
            &&& start.at.stalls == 0
            &&& start.at.previous == 0
            &&& machine::lawful(start, out)
            &&& s.at.phase is Opening
            &&& s.at.base == 0
            &&& s.at.now == now
            &&& s.blob == blob
            &&& s.session == session
            &&& shows(out) == Seq::<PayloadView>::empty()
            &&& reads(out) == Seq::<PayloadView>::empty()
        }),
{
    let start = transport::send_start(blob, session, cfg, now);
    delivery::send_starts_well(blob, session, cfg, now);
    let none = Seq::<Step>::empty();
    if cfg.gated {
        completion::go_on(start, none, Answer::Gated(true), now)
    } else {
        none
    }
}

proof fn sender_recovers(
    blob: Seq<u8>,
    session: SessionView,
    cfg: TransportConfig,
    now: u64,
    lost: u32,
) -> (out: Seq<Step>)
    requires
        transport::describes(session, blob.len()),
        lost < session.chunk_count,
    ensures
        machine::lawful(transport::send_start(blob, session, cfg, now), out),
        machine::after(transport::send_start(blob, session, cfg, now), out).pending() is None,
        machine::after(transport::send_start(blob, session, cfg, now), out).verdict() is Ok,
        shows(out) == all_shown(blob, session, lost),
        reads(out) == all_acks(session, lost).push(PayloadView::Okay),
{
    let start = transport::send_start(blob, session, cfg, now);
    let count = session.chunk_count;
    let base = window_of(lost);
    let end = window::window_end_of(base, count);
    window_edges(lost, count);
    let begun = begin(blob, session, cfg, now);
    let before = show_windows(start, begun, base, now);
    fresh_window(start, before);
    let past = send_lossy_window(start, before, lost, now);
    let sent = show_windows(start, past, count, now);
    frames_join(blob, session, 0, base, end);
    grouped(frames(blob, session, 0, base), Seq::empty(), Seq::empty());
    grouped(acks(0, base, count), Seq::empty(), Seq::empty());
    conclude(start, sent, now)
}

/// A chunk arrives, and another one of its window is still missing.
#[verifier::rlimit(30)]
proof fn take_part(
    start: RecvState,
    steps: Seq<Step>,
    blob: Seq<u8>,
    seq: u32,
    missing: u32,
    at: u64,
) -> (out: Seq<Step>)
    requires
        start.inv(),
        start.blob.len() == blob.len(),
        machine::lawful(start, steps),
        delivery::faithful(steps, blob, start.session),
        ({
            let s = machine::after(start, steps);
            &&& s.at.phase is Poll
            &&& s.at.base <= seq < s.end()
            &&& s.at.base <= missing < s.end()
            &&& seq != missing
            &&& !s.got.contains(seq)
            &&& !s.got.contains(missing)
        }),
    ensures
        machine::lawful(start, out),
        delivery::faithful(out, blob, start.session),
        ({
            let s = machine::after(start, steps);
            let t = machine::after(start, out);
            &&& t.at.phase is Poll
            &&& t.at.base == s.at.base
            &&& t.got == s.got.insert(seq)
            &&& t.session == s.session
            &&& t.cfg == s.cfg
            &&& t.at.unacked
            &&& t.at.last_new == at
            &&& shows(out) == shows(steps)
            &&& reads(out) == reads(steps).push(data_frame(blob, s.session, seq))
        }),
{
    let s = machine::after(start, steps);
    delivery::law_receiver_invariant(start, steps);
    window::chunk_bounds(blob.len(), s.chunk_size(), seq as nat);
    let frame = data_frame(blob, s.session, seq);
    let stored = completion::go_on(start, steps, Answer::Polled(Some(frame)), at);
    completion::faithful_so_far(steps, stored, blob, s.session);
    let a = machine::after(start, stored);
    assert(a.at.phase is Status);
    window::law_ack_tells_what_is_missing(a.got, a.at.base, a.end(), missing);
    assert(a.missing().contains(missing));
    let out = completion::go_on(start, stored, Answer::Done, at);
    completion::faithful_so_far(stored, out, blob, s.session);
    out
}

/// The last chunk of a window arrives, and the window is acknowledged.
#[verifier::rlimit(30)]
proof fn take_last(start: RecvState, steps: Seq<Step>, blob: Seq<u8>, seq: u32, at: u64) -> (out:
    Seq<Step>)
    requires
        start.inv(),
        start.blob.len() == blob.len(),
        machine::lawful(start, steps),
        delivery::faithful(steps, blob, start.session),
        ({
            let s = machine::after(start, steps);
            &&& s.at.phase is Poll
            &&& s.at.base <= seq < s.end()
            &&& !s.got.contains(seq)
            &&& s.got.insert(seq) == below(s.end())
        }),
    ensures
        machine::lawful(start, out),
        delivery::faithful(out, blob, start.session),
        ({
            let s = machine::after(start, steps);
            let t = machine::after(start, out);
            &&& t.at.phase is Poll
            &&& t.at.base == s.end()
            &&& t.got == below(s.end())
            &&& t.session == s.session
            &&& t.cfg == s.cfg
            &&& shows(out) == shows(steps).push(full_ack(s.at.base, s.session.chunk_count))
            &&& reads(out) == reads(steps).push(data_frame(blob, s.session, seq))
        }),
{
    let s = machine::after(start, steps);
    delivery::law_receiver_invariant(start, steps);
    window::chunk_bounds(blob.len(), s.chunk_size(), seq as nat);
    let frame = data_frame(blob, s.session, seq);
    let stored = completion::go_on(start, steps, Answer::Polled(Some(frame)), at);
    completion::faithful_so_far(steps, stored, blob, s.session);
    let a = machine::after(start, stored);
    assert(a.at.phase is Status);
    if a.missing().len() > 0 {
        let hole = a.missing()[0];
        assert(a.missing().contains(hole));
        window::law_ack_tells_what_is_missing(a.got, a.at.base, a.end(), hole);
    }
    let told = completion::go_on(start, stored, Answer::Done, at);
    completion::faithful_so_far(stored, told, blob, s.session);
    let out = completion::go_on(start, told, Answer::Done, at);
    completion::faithful_so_far(told, out, blob, s.session);
    out
}

/// Chunks arrive one after the other, and another one of their window is still
/// missing.
proof fn gather(
    start: RecvState,
    steps: Seq<Step>,
    blob: Seq<u8>,
    from: u32,
    to: u32,
    missing: u32,
    at: u64,
) -> (out: Seq<Step>)
    requires
        start.inv(),
        start.blob.len() == blob.len(),
        machine::lawful(start, steps),
        delivery::faithful(steps, blob, start.session),
        ({
            let s = machine::after(start, steps);
            &&& s.at.phase is Poll
            &&& s.at.base <= from <= to <= s.end()
            &&& s.at.base <= missing < s.end()
            &&& missing < from || missing >= to
            &&& !s.got.contains(missing)
            &&& forall|q: u32| from <= q < to ==> !#[trigger] s.got.contains(q)
        }),
    ensures
        machine::lawful(start, out),
        delivery::faithful(out, blob, start.session),
        ({
            let s = machine::after(start, steps);
            let t = machine::after(start, out);
            &&& t.at.phase is Poll
            &&& t.at.base == s.at.base
            &&& forall|q: u32| #[trigger]
                t.got.contains(q) <==> s.got.contains(q) || from <= q < to
            &&& t.session == s.session
            &&& t.cfg == s.cfg
            &&& from < to ==> t.at.unacked && t.at.last_new == at
            &&& from == to ==> t == s
            &&& shows(out) == shows(steps)
            &&& reads(out) == reads(steps) + frames(blob, s.session, from, to)
        }),
    decreases to - from,
{
    let s = machine::after(start, steps);
    frames_join(blob, s.session, from, from, to);
    if from == to {
        grouped(reads(steps), Seq::empty(), Seq::empty());
        steps
    } else {
        let next = (from + 1) as u32;
        let one = take_part(start, steps, blob, from, missing, at);
        let out = gather(start, one, blob, next, to, missing, at);
        frames_join(blob, s.session, from, next, to);
        one_more(reads(steps), data_frame(blob, s.session, from));
        grouped(
            reads(steps),
            seq![data_frame(blob, s.session, from)],
            frames(blob, s.session, next, to),
        );
        out
    }
}

/// A window of which nothing is lost arrives.
proof fn take_window(start: RecvState, steps: Seq<Step>, blob: Seq<u8>, at: u64) -> (out: Seq<Step>)
    requires
        start.inv(),
        start.blob.len() == blob.len(),
        machine::lawful(start, steps),
        delivery::faithful(steps, blob, start.session),
        ({
            let s = machine::after(start, steps);
            &&& s.at.phase is Poll
            &&& s.at.base < s.end()
            &&& s.got == below(s.at.base)
        }),
    ensures
        machine::lawful(start, out),
        delivery::faithful(out, blob, start.session),
        ({
            let s = machine::after(start, steps);
            let t = machine::after(start, out);
            &&& t.at.phase is Poll
            &&& t.at.base == s.end()
            &&& t.got == below(s.end())
            &&& t.session == s.session
            &&& t.cfg == s.cfg
            &&& shows(out) == shows(steps).push(full_ack(s.at.base, s.session.chunk_count))
            &&& reads(out) == reads(steps) + frames(blob, s.session, s.at.base, s.end())
        }),
{
    let s = machine::after(start, steps);
    let last = (s.end() - 1) as u32;
    let most = gather(start, steps, blob, s.at.base, last, last, at);
    let m = machine::after(start, most);
    assert(m.got.insert(last) =~= below(s.end()));
    let out = take_last(start, most, blob, last, at);
    frames_join(blob, s.session, s.at.base, last, s.end());
    frames_join(blob, s.session, last, s.end(), s.end());
    one_more(
        reads(steps) + frames(blob, s.session, s.at.base, last),
        data_frame(blob, s.session, last),
    );
    grouped(
        reads(steps),
        frames(blob, s.session, s.at.base, last),
        seq![data_frame(blob, s.session, last)],
    );
    out
}

/// Windows of which nothing is lost follow each other up to `to`.
#[verifier::rlimit(30)]
proof fn take_windows(start: RecvState, steps: Seq<Step>, blob: Seq<u8>, to: u32, at: u64) -> (out:
    Seq<Step>)
    requires
        start.inv(),
        start.blob.len() == blob.len(),
        machine::lawful(start, steps),
        delivery::faithful(steps, blob, start.session),
        ({
            let s = machine::after(start, steps);
            &&& s.at.phase is Poll
            &&& s.got == below(s.at.base)
            &&& s.at.base % 32 == 0 || s.at.base == s.session.chunk_count
            &&& to % 32 == 0 || to == s.session.chunk_count
            &&& s.at.base <= to <= s.session.chunk_count
        }),
    ensures
        machine::lawful(start, out),
        delivery::faithful(out, blob, start.session),
        ({
            let s = machine::after(start, steps);
            let t = machine::after(start, out);
            &&& t.at.phase is Poll
            &&& t.at.base == to
            &&& t.got == below(to)
            &&& t.session == s.session
            &&& t.cfg == s.cfg
            &&& shows(out) == shows(steps) + acks(s.at.base, to, s.session.chunk_count)
            &&& reads(out) == reads(steps) + frames(blob, s.session, s.at.base, to)
        }),
    decreases to - machine::after(start, steps).at.base,
{
    let s = machine::after(start, steps);
    let count = s.session.chunk_count;
    let base = s.at.base;
    acks_unfold(base, to, count);
    if base == to {
        frames_join(blob, s.session, to, to, to);
        grouped(shows(steps), Seq::empty(), Seq::empty());
        grouped(reads(steps), Seq::empty(), Seq::empty());
        steps
    } else {
        let end = s.end();
        assert(end == base + 32 || end == count);
        let out = take_window(start, steps, blob, at);
        let more = take_windows(start, out, blob, to, at);
        frames_join(blob, s.session, base, end, to);
        grouped(
            reads(steps),
            frames(blob, s.session, base, end),
            frames(blob, s.session, end, to),
        );
        one_more(shows(steps), full_ack(base, count));
        grouped(shows(steps), seq![full_ack(base, count)], acks(end, to, count));
        more
    }
}

/// A burst that has gone quiet is acknowledged.
proof fn burst_ends(start: RecvState, steps: Seq<Step>, blob: Seq<u8>, at: u64) -> (out: Seq<Step>)
    requires
        start.inv(),
        machine::lawful(start, steps),
        delivery::faithful(steps, blob, start.session),
        at + 100_000_000_000 <= u64::MAX,
        ({
            let s = machine::after(start, steps);
            s.at.phase is Poll && s.at.unacked && s.at.last_new == at
        }),
    ensures
        machine::lawful(start, out),
        delivery::faithful(out, blob, start.session),
        ({
            let s = machine::after(start, steps);
            let t = machine::after(start, out);
            &&& t.at.phase is Poll
            &&& t.at.base == s.at.base
            &&& t.got == s.got
            &&& t.session == s.session
            &&& t.cfg == s.cfg
            &&& shows(out) == shows(steps).push(
                PayloadView::Ack {
                    window_base: s.at.base,
                    bitmap: window::bitmap_of(s.got, s.at.base, s.end()),
                },
            )
            &&& reads(out) == reads(steps)
        }),
{
    let s = machine::after(start, steps);
    delivery::law_receiver_invariant(start, steps);
    let later = (at + 100_000_000_000) as u64;
    let quiet = completion::go_on(start, steps, Answer::Polled(None), later);
    completion::faithful_so_far(steps, quiet, blob, s.session);
    assert(s.quiet() <= 100_000_000_000);
    assert(machine::after(start, quiet).at.phase is AckBurst);
    let out = completion::go_on(start, quiet, Answer::Done, later);
    completion::faithful_so_far(quiet, out, blob, s.session);
    out
}

/// What the receiver reads of the window of a lost chunk.
pub open spec fn frames_with_loss(blob: Seq<u8>, session: SessionView, lost: u32) -> Seq<
    PayloadView,
> {
    let base = window_of(lost);
    let end = window::window_end_of(base, session.chunk_count);
    frames(blob, session, base, lost) + frames(blob, session, (lost + 1) as u32, end) + seq![
        data_frame(blob, session, lost),
    ]
}

/// The rest of the window of a lost chunk arrives.
proof fn take_rest(start: RecvState, steps: Seq<Step>, blob: Seq<u8>, lost: u32, at: u64) -> (out:
    Seq<Step>)
    requires
        start.inv(),
        start.blob.len() == blob.len(),
        machine::lawful(start, steps),
        delivery::faithful(steps, blob, start.session),
        ({
            let s = machine::after(start, steps);
            &&& s.at.phase is Poll
            &&& s.at.base <= lost < s.end()
            &&& s.got == below(s.at.base)
        }),
    ensures
        machine::lawful(start, out),
        delivery::faithful(out, blob, start.session),
        ({
            let s = machine::after(start, steps);
            let t = machine::after(start, out);
            &&& t.at.phase is Poll
            &&& t.at.base == s.at.base
            &&& t.got == all_but(s.end(), lost)
            &&& t.got.insert(lost) == below(s.end())
            &&& t.session == s.session
            &&& t.cfg == s.cfg
            &&& s.end() - s.at.base > 1 ==> t.at.unacked && t.at.last_new == at
            &&& shows(out) == shows(steps)
            &&& reads(out) == reads(steps) + (frames(blob, s.session, s.at.base, lost) + frames(
                blob,
                s.session,
                (lost + 1) as u32,
                s.end(),
            ))
        }),
{
    let s = machine::after(start, steps);
    let next = (lost + 1) as u32;
    let first = gather(start, steps, blob, s.at.base, lost, lost, at);
    let out = gather(start, first, blob, next, s.end(), lost, at);
    let t = machine::after(start, out);
    assert(t.got =~= all_but(s.end(), lost));
    assert(t.got.insert(lost) =~= below(s.end()));
    grouped(
        reads(steps),
        frames(blob, s.session, s.at.base, lost),
        frames(blob, s.session, next, s.end()),
    );
    out
}

/// The window of a lost chunk: the rest of it is acknowledged, and when the chunk
/// arrives after all, so is the whole.
#[verifier::rlimit(30)]
proof fn take_lossy_window(start: RecvState, steps: Seq<Step>, blob: Seq<u8>, lost: u32, at: u64)
    -> (out: Seq<Step>)
    requires
        start.inv(),
        start.blob.len() == blob.len(),
        machine::lawful(start, steps),
        delivery::faithful(steps, blob, start.session),
        at + 100_000_000_000 <= u64::MAX,
        ({
            let s = machine::after(start, steps);
            &&& s.at.phase is Poll
            &&& lost < s.session.chunk_count
            &&& s.at.base == window_of(lost)
            &&& s.got == below(s.at.base)
        }),
    ensures
        machine::lawful(start, out),
        delivery::faithful(out, blob, start.session),
        ({
            let s = machine::after(start, steps);
            let t = machine::after(start, out);
            &&& t.at.phase is Poll
            &&& t.at.base == s.end()
            &&& t.got == below(s.end())
            &&& t.session == s.session
            &&& t.cfg == s.cfg
            &&& shows(out) == shows(steps) + acks_with_loss(lost, s.session.chunk_count)
            &&& reads(out) == reads(steps) + frames_with_loss(blob, s.session, lost)
        }),
{
    let s = machine::after(start, steps);
    let count = s.session.chunk_count;
    let base = s.at.base;
    let end = s.end();
    let next = (lost + 1) as u32;
    window_edges(lost, count);
    let rest = take_rest(start, steps, blob, lost, at);
    let part = PayloadView::Ack { window_base: base, bitmap: partial(lost, count) };
    let whole = full_ack(base, count);
    reveal(partial);
    let told = if end - base > 1 {
        burst_ends(start, rest, blob, at)
    } else {
        rest
    };
    let out = take_last(start, told, blob, lost, at);
    let rest_frames = frames(blob, s.session, base, lost) + frames(blob, s.session, next, end);
    let frame = data_frame(blob, s.session, lost);
    one_more(reads(steps) + rest_frames, frame);
    grouped(reads(steps), rest_frames, seq![frame]);
    two_more(shows(steps), part, whole);
    one_more(shows(steps), whole);
    out
}

/// FIN, once all chunks are there.
proof fn take_fin(start: RecvState, steps: Seq<Step>, blob: Seq<u8>, at: u64) -> (out: Seq<Step>)
    requires
        start.inv(),
        start.got == Set::<u32>::empty(),
        start.blob.len() == blob.len(),
        start.session.sha256 == digest::sha256_of(blob),
        machine::lawful(start, steps),
        delivery::faithful(steps, blob, start.session),
        machine::after(start, steps).at.phase is Poll,
        machine::after(start, steps).got == below(start.session.chunk_count),
    ensures
        machine::lawful(start, out),
        machine::after(start, out).pending() is None,
        machine::after(start, out).verdict() == Ok::<Seq<u8>, ErrorView>(blob),
        shows(out) == shows(steps),
        reads(out) == reads(steps).push(PayloadView::Fin { sha256: start.session.sha256 }),
{
    delivery::law_receiver_invariant(start, steps);
    completion::below_len(start.session.chunk_count);
    delivery::faithful_receiver_agrees(start, steps, blob);
    let fin = PayloadView::Fin { sha256: start.session.sha256 };
    completion::go_on(start, steps, Answer::Polled(Some(fin)), at)
}

/// What the receiver reads in all.
pub open spec fn all_read(blob: Seq<u8>, session: SessionView, lost: u32) -> Seq<PayloadView> {
    let base = window_of(lost);
    let end = window::window_end_of(base, session.chunk_count);
    (frames(blob, session, 0, base) + frames_with_loss(blob, session, lost) + frames(
        blob,
        session,
        end,
        session.chunk_count,
    )).push(PayloadView::Fin { sha256: session.sha256 })
}

proof fn receiver_recovers(
    blob: Seq<u8>,
    session: SessionView,
    cfg: TransportConfig,
    now: u64,
    lost: u32,
) -> (out: Seq<Step>)
    requires
        receive::receivable(session),
        session.compressed_size == blob.len(),
        session.sha256 == digest::sha256_of(blob),
        lost < session.chunk_count,
        now + 100_000_000_000 <= u64::MAX,
    ensures
        machine::lawful(receive::recv_start(session, cfg, now), out),
        machine::after(receive::recv_start(session, cfg, now), out).pending() is None,
        machine::after(receive::recv_start(session, cfg, now), out).verdict() == Ok::<
            Seq<u8>,
            ErrorView,
        >(blob),
        shows(out) == all_acks(session, lost),
        reads(out) == all_read(blob, session, lost),
{
    let start = receive::recv_start(session, cfg, now);
    let count = session.chunk_count;
    let base = window_of(lost);
    delivery::recv_starts_well(session, cfg, now);
    window_edges(lost, count);
    let none = Seq::<Step>::empty();
    assert(below(0) =~= Set::empty());
    let before = take_windows(start, none, blob, base, now);
    let past = take_lossy_window(start, before, blob, lost, now);
    let got = take_windows(start, past, blob, count, now);
    grouped(frames(blob, session, 0, base), Seq::empty(), Seq::empty());
    grouped(acks(0, base, count), Seq::empty(), Seq::empty());
    take_fin(start, got, blob, now)
}

proof fn one_frame_less(blob: Seq<u8>, session: SessionView, lost: u32)
    requires
        lost < session.chunk_count,
    ensures
        all_read(blob, session, lost) == all_shown(blob, session, lost).remove(lost as int),
        all_shown(blob, session, lost)[lost as int] == data_frame(blob, session, lost),
{
    reveal(frames);
    window_edges(lost, session.chunk_count);
    assert(all_read(blob, session, lost) =~= all_shown(blob, session, lost).remove(lost as int));
}

/// A transfer over a channel that loses a chunk once completes. Whatever the
/// blob and the settings, and whichever chunk is lost, there is a run of the
/// sender and one of the receiver in which the receiver reads what the sender
/// shows, in order, but for the first showing of that chunk, and the sender reads
/// what the receiver shows. Both end well, and the receiver hands back the blob.
pub proof fn law_a_lost_chunk_is_recovered(
    blob: Seq<u8>,
    session: SessionView,
    send_cfg: TransportConfig,
    recv_cfg: TransportConfig,
    now: u64,
    lost: u32,
) -> (runs: (Seq<Step>, Seq<Step>))
    requires
        receive::receivable(session),
        session.compressed_size == blob.len(),
        session.sha256 == digest::sha256_of(blob),
        lost < session.chunk_count,
        now + 100_000_000_000 <= u64::MAX,
    ensures
        ({
            let (sender, receiver) = runs;
            let sent = machine::after(
                transport::send_start(blob, session, send_cfg, now),
                sender,
            );
            let received = machine::after(
                receive::recv_start(session, recv_cfg, now),
                receiver,
            );
            &&& machine::lawful(transport::send_start(blob, session, send_cfg, now), sender)
            &&& machine::lawful(receive::recv_start(session, recv_cfg, now), receiver)
            &&& shows(sender)[lost as int] == data_frame(blob, session, lost)
            &&& reads(receiver) == shows(sender).remove(lost as int)
            &&& reads(sender) == shows(receiver).push(PayloadView::Okay)
            &&& sent.pending() is None
            &&& sent.verdict() is Ok
            &&& received.pending() is None
            &&& received.verdict() == Ok::<Seq<u8>, ErrorView>(blob)
        }),
{
    one_frame_less(blob, session, lost);
    (
        sender_recovers(blob, session, send_cfg, now, lost),
        receiver_recovers(blob, session, recv_cfg, now, lost),
    )
}

} // verus!
