//! What the receiver of a blob does next, told from what it asked of the
//! channel and what it was answered so far.
//!
//! As for the sender, nothing here looks into the receiver: the history of its
//! requests and answers alone says which request follows, or how the transfer
//! ended.
use crate::clock;
use crate::delivery;
use crate::digest;
use crate::error::ErrorView;
use crate::frame;
use crate::frame::PayloadView;
use crate::link::SessionView;
use crate::machine;
use crate::machine::{Protocol, Step};
use crate::optical::{Answer, Call, Progress, Turn};
use crate::receive;
use crate::receive::{RecvEnd, RecvPhase, RecvState};
use crate::sending;
use crate::transport::TransportConfig;
use crate::window;
use vstd::prelude::*;

verus! {

/// How many bytes chunk `seq` has: as many as a code of the session's version
/// has room for, or what is left of the blob.
pub open spec fn chunk_span(session: SessionView, seq: u32) -> int {
    let room = frame::chunk_room(session.qr_version);
    if session.compressed_size - seq * room < room {
        session.compressed_size - seq * room
    } else {
        room as int
    }
}

/// Whether all chunks below `to` are among `held`.
pub open spec fn all_below(held: Set<u32>, to: int) -> bool {
    forall|seq: u32| seq < to ==> #[trigger] held.contains(seq)
}

/// The first chunk of the window of chunk `seq`: windows have 32 chunks.
pub open spec fn window_start(seq: u32) -> int {
    seq - seq % 32
}

/// One past the last chunk of the window that starts at `base`.
pub open spec fn window_stop(session: SessionView, base: int) -> int {
    if base + 32 < session.chunk_count {
        base + 32
    } else {
        session.chunk_count as int
    }
}

/// Whether chunk `seq` is new to a receiver that holds `held`, and its turn has
/// come: everything before its window is there.
pub open spec fn due(session: SessionView, held: Set<u32>, seq: u32) -> bool {
    &&& seq < session.chunk_count
    &&& !held.contains(seq)
    &&& all_below(held, window_start(seq))
}

/// The chunks that arrived in their turn and with the right length.
pub open spec fn held(session: SessionView, steps: Seq<Step>) -> Set<u32>
    decreases steps.len(),
{
    if steps.len() == 0 {
        Set::empty()
    } else {
        let so_far = held(session, steps.drop_last());
        match sending::heard(steps) {
            Some(PayloadView::Data { seq, chunk }) => if due(session, so_far, seq) && chunk.len()
                == chunk_span(session, seq) {
                so_far.insert(seq)
            } else {
                so_far
            },
            _ => so_far,
        }
    }
}

/// Whether the latest answer brought a new chunk.
pub open spec fn gained(session: SessionView, steps: Seq<Step>) -> bool {
    held(session, steps) != held(session, steps.drop_last())
}

/// Whether `base` starts the window that a receiver of `held` is at: the first
/// that is not complete, or the end if all are.
pub open spec fn current(session: SessionView, held: Set<u32>, base: u32) -> bool {
    &&& all_below(held, base as int)
    &&& base == session.chunk_count || (base < session.chunk_count && base % 32 == 0 && !all_below(
        held,
        window_stop(session, base as int),
    ))
}

/// Whether the window that starts at `base` is complete.
pub open spec fn complete(session: SessionView, held: Set<u32>, base: int) -> bool {
    all_below(held, window_stop(session, base))
}

/// Whether the latest request answered an old chunk by acknowledging its window
/// once more.
pub open spec fn repeats(session: SessionView, steps: Seq<Step>) -> bool {
    steps.last().turn.call matches Call::Show(PayloadView::Ack { window_base, .. })
        && window_base < session.chunk_count && complete(
        session,
        held(session, steps),
        window_base as int,
    ) && steps.len() > 1 && steps.drop_last().last().turn.call is Poll
}

/// The window that was acknowledged once more last.
pub open spec fn repeated_last(session: SessionView, steps: Seq<Step>) -> Option<u32>
    decreases steps.len(),
{
    if steps.len() == 0 {
        None
    } else if repeats(session, steps) {
        match steps.last().turn.call {
            Call::Show(PayloadView::Ack { window_base, .. }) => Some(window_base),
            _ => None,
        }
    } else {
        repeated_last(session, steps.drop_last())
    }
}

/// Whether a chunk arrived that no ACK has told the sender about.
pub open spec fn ack_owed(session: SessionView, steps: Seq<Step>) -> bool
    decreases steps.len(),
{
    if steps.len() == 0 {
        false
    } else if gained(session, steps) {
        true
    } else if steps.last().turn.call is Show && !repeats(session, steps) {
        false
    } else {
        ack_owed(session, steps.drop_last())
    }
}

/// When the latest new chunk arrived.
pub open spec fn gained_at(session: SessionView, now: u64, steps: Seq<Step>) -> u64
    decreases steps.len(),
{
    if steps.len() == 0 {
        now
    } else if gained(session, steps) {
        steps.last().at
    } else {
        gained_at(session, now, steps.drop_last())
    }
}

/// How many polls in a row, DATA frames starting the count again, brought
/// nothing while nothing was owed.
pub open spec fn idle_polls(session: SessionView, steps: Seq<Step>) -> nat
    decreases steps.len(),
{
    if steps.len() == 0 {
        0
    } else {
        let so_far = idle_polls(session, steps.drop_last());
        match sending::heard(steps) {
            Some(PayloadView::Data { .. }) => 0,
            _ => if steps.last().turn.call is Poll && !ack_owed(session, steps.drop_last())
                && held(session, steps) != Set::<u32>::empty() {
                so_far + 1
            } else {
                so_far
            },
        }
    }
}

/// How long a burst must have been quiet before it is acknowledged: one and a
/// half times the dwell, in whole milliseconds and at least 80 of them; not at
/// all on an in-process channel.
pub open spec fn quiet_time(session: SessionView, cfg: TransportConfig) -> int {
    let ms = session.dwell_ms * 3 / 2;
    if cfg.fast {
        0
    } else if ms < 80 {
        80_000_000
    } else {
        ms * 1_000_000
    }
}

/// How long the receiver waits for the first chunk: ten minutes, or one second
/// on an in-process channel.
pub open spec fn first_chunk_span(cfg: TransportConfig) -> int {
    if cfg.fast {
        1_000_000_000
    } else {
        600_000_000_000
    }
}

/// Whether an ACK is owed and the burst has been quiet for long enough.
pub open spec fn burst_is_over(
    session: SessionView,
    cfg: TransportConfig,
    now: u64,
    steps: Seq<Step>,
) -> bool {
    ack_owed(session, steps) && sending::left(
        sending::read_last(now, steps),
        gained_at(session, now, steps),
    ) >= quiet_time(session, cfg)
}

/// The poll of a receiver: while an ACK is owed on a live channel it takes what
/// is left of the quiet time, at least five milliseconds; otherwise five
/// seconds, or 50 ms on an in-process channel.
pub open spec fn listening(
    session: SessionView,
    cfg: TransportConfig,
    now: u64,
    steps: Seq<Step>,
) -> Call {
    let quiet_for = sending::left(
        sending::read_last(now, steps),
        gained_at(session, now, steps),
    );
    let rest = quiet_time(session, cfg) - quiet_for;
    Call::Poll(
        clock::nanos_duration(
            if cfg.fast {
                50_000_000
            } else if !ack_owed(session, steps) {
                5_000_000_000
            } else if rest < 5_000_000 {
                5_000_000
            } else {
                rest as u64
            },
        ),
    )
}

/// Whether `call` shows the ACK of the window at `base`, with a bit for each
/// chunk of it that is among `held` and no other bit.
pub open spec fn acknowledges(session: SessionView, held: Set<u32>, base: u32, call: Call) -> bool {
    call matches Call::Show(PayloadView::Ack { window_base, bitmap }) && window_base == base
        && forall|i: u32|
        i < 32 ==> (#[trigger] (bitmap & (1u32 << i)) != 0 <==> base + i < window_stop(
            session,
            base as int,
        ) && held.contains((base + i) as u32))
}

/// Whether `list` names the chunks of the window at `base` that are not among
/// `held`, each once, in order.
pub open spec fn names_the_missing(
    session: SessionView,
    held: Set<u32>,
    base: u32,
    list: Seq<u32>,
) -> bool {
    &&& forall|i: int, j: int| 0 <= i < j < list.len() ==> list[i] < list[j]
    &&& forall|seq: u32| #[trigger]
        list.contains(seq) <==> base <= seq < window_stop(session, base as int) && !held.contains(seq)
}

/// Whether the transfer ended as stalled, naming what the window that the
/// receiver of `held` is at lacks.
pub open spec fn gave_up(session: SessionView, held: Set<u32>, s: RecvState) -> bool {
    &&& s.pending() is None
    &&& exists|base: u32, missing: Seq<u32>|
        current(session, held, base) && #[trigger] names_the_missing(session, held, base, missing)
            && s.verdict() == Err::<Seq<u8>, ErrorView>(ErrorView::Stalled(missing))
}

/// Whether the transfer ended with `err`.
pub open spec fn ended_with(s: RecvState, err: ErrorView) -> bool {
    s.pending() is None && s.verdict() == Err::<Seq<u8>, ErrorView>(err)
}

spec fn told_by(s: RecvState, now: u64, steps: Seq<Step>) -> bool {
    &&& s.at.now == sending::read_last(now, steps)
    &&& s.at.started == now
    &&& s.got == held(s.session, steps)
    &&& !(s.at.phase is Over) ==> {
        &&& s.at.seen_data == (s.got != Set::<u32>::empty())
        &&& s.at.unacked ==> s.at.seen_data
        &&& s.at.last_new == gained_at(s.session, now, steps)
        &&& s.at.base == s.session.chunk_count || s.at.base % 32 == 0
        &&& match s.at.phase {
            RecvPhase::Poll => {
                &&& s.at.unacked == ack_owed(s.session, steps)
                &&& s.at.unacked ==> s.at.base < s.session.chunk_count
                &&& current(s.session, s.got, s.at.base)
                &&& s.at.last_old_window == repeated_last(s.session, steps)
                &&& s.at.idle_polls == idle_polls(s.session, steps)
            },
            RecvPhase::Status => {
                &&& s.at.unacked == ack_owed(s.session, steps)
                &&& s.at.unacked
                &&& s.at.base < s.session.chunk_count
                &&& s.at.last_old_window == repeated_last(s.session, steps)
                &&& s.at.idle_polls == idle_polls(s.session, steps)
            },
            RecvPhase::AckOld(old) => {
                &&& s.at.unacked == ack_owed(s.session, steps)
                &&& s.at.unacked ==> s.at.base < s.session.chunk_count
                &&& current(s.session, s.got, s.at.base)
                &&& old < s.session.chunk_count
                &&& complete(s.session, s.got, old as int)
                &&& steps.len() > 0
                &&& steps.last().turn.call is Poll
                &&& s.at.last_old_window == repeated_last(s.session, steps)
                &&& s.at.idle_polls == idle_polls(s.session, steps)
            },
            RecvPhase::AckBurst => {
                &&& current(s.session, s.got, s.at.base)
                &&& s.at.base < s.session.chunk_count
                &&& s.at.last_old_window == repeated_last(s.session, steps)
                &&& s.at.idle_polls == idle_polls(s.session, steps)
            },
            RecvPhase::AckWindow => {
                &&& s.at.base < s.session.chunk_count
                &&& complete(s.session, s.got, s.at.base as int)
                &&& steps.len() > 0
                &&& steps.last().turn.call is SetStatus
                &&& s.at.last_old_window == repeated_last(s.session, steps)
                &&& s.at.idle_polls == idle_polls(s.session, steps)
            },
            _ => true,
        }
    }
}

proof fn full_count(s: Set<u32>, n: nat)
    requires
        n <= u32::MAX + 1,
        s.finite(),
        forall|x: u32| #[trigger] s.contains(x) <==> x < n,
    ensures
        s.len() == n,
    decreases n,
{
    if n == 0 {
        assert(s =~= Set::empty());
    } else {
        let top = (n - 1) as u32;
        assert(s.contains(top));
        let rest = s.remove(top);
        assert forall|x: u32| #[trigger] rest.contains(x) <==> x < n - 1 by {
            assert(s.contains(x) <==> x < n);
        }
        full_count(rest, (n - 1) as nat);
    }
}

proof fn all_held(s: RecvState)
    requires
        s.inv(),
    ensures
        s.got.len() == s.session.chunk_count <==> all_below(s.got, s.session.chunk_count as int),
{
    if s.got.len() == s.session.chunk_count {
        assert forall|seq: u32| seq < s.session.chunk_count implies #[trigger] s.got.contains(
            seq,
        ) by {
            delivery::full_set(s.got, s.session.chunk_count, seq);
        }
    }
    if all_below(s.got, s.session.chunk_count as int) {
        assert(forall|x: u32| #[trigger] s.got.contains(x) <==> x < s.session.chunk_count);
        full_count(s.got, s.session.chunk_count as nat);
    }
}

proof fn spans_agree(s: RecvState, seq: u32)
    requires
        s.inv(),
        seq < s.session.chunk_count,
    ensures
        window::chunk_end(s.blob.len(), s.chunk_size(), seq as nat) - seq * s.chunk_size()
            == chunk_span(s.session, seq),
{
    window::chunk_bounds(s.blob.len(), s.chunk_size(), seq as nat);
}

/// Which chunks are due, and which are old, to a receiver that waits for more.
proof fn turns_of_chunks(s: RecvState, seq: u32)
    requires
        s.inv(),
        current(s.session, s.got, s.at.base),
    ensures
        due(s.session, s.got, seq) <==> s.at.base <= seq < s.end() && !s.got.contains(seq),
        s.got.contains(seq) && complete(s.session, s.got, window_start(seq)) <==> seq < s.at.base,
        window_start(seq) == (seq / window::WINDOW * window::WINDOW) as u32,
{
    let base = s.at.base;
    let start = window_start(seq);
    assert(start == seq / 32 * 32);
    if base < s.session.chunk_count {
        let gap = choose|t: u32|
            t < window_stop(s.session, base as int) && !#[trigger] s.got.contains(t);
        assert(base <= gap);
        assert(s.end() == window_stop(s.session, base as int));
        if seq < base {
            assert(start + 32 <= base);
        } else {
            assert(start >= base);
            assert(window_stop(s.session, start) >= window_stop(s.session, base as int));
            if seq >= base + 32 {
                assert(start >= base + 32);
            }
        }
    } else {
        assert(s.end() == base);
    }
}

proof fn holes_are_missing(s: RecvState)
    requires
        s.inv(),
    ensures
        s.end() == window_stop(s.session, s.at.base as int),
        names_the_missing(s.session, s.got, s.at.base, s.missing()),
        s.missing().len() <= 32,
        s.missing().len() == 0 <==> complete(s.session, s.got, s.at.base as int),
{
    let bits = window::bitmap_of(s.got, s.at.base, s.end());
    window::unset_seqs_members(s.at.base, s.end(), bits);
    assert forall|seq: u32| #[trigger] s.missing().contains(seq) <==> s.at.base <= seq
        < window_stop(s.session, s.at.base as int) && !s.got.contains(seq) by {
        window::law_ack_tells_what_is_missing(s.got, s.at.base, s.end(), seq);
    }
    if s.missing().len() > 0 {
        let seq = s.missing()[0];
        assert(s.missing().contains(seq));
        assert(!s.got.contains(seq));
    } else {
        receive::nothing_missing(s);
    }
}

proof fn acks_tell(s: RecvState, base: u32)
    requires
        base <= s.session.chunk_count,
    ensures
        acknowledges(s.session, s.got, base, Call::Show(s.ack(base))),
{
    let end = window::window_end_of(base, s.session.chunk_count);
    assert(end == window_stop(s.session, base as int));
    let bits = window::bitmap_of(s.got, base, end);
    assert forall|i: u32| i < 32 implies (#[trigger] (bits & (1u32 << i)) != 0 <==> base + i
        < window_stop(s.session, base as int) && s.got.contains((base + i) as u32)) by {
        window::bitmap_bits(s.got, base, end, i);
    }
}

#[verifier::rlimit(30)]
proof fn the_history_tells(session: SessionView, cfg: TransportConfig, now: u64, steps: Seq<Step>)
    requires
        receive::receivable(session),
        machine::lawful(receive::recv_start(session, cfg, now), steps),
    ensures
        ({
            let s = machine::after(receive::recv_start(session, cfg, now), steps);
            &&& s.inv()
            &&& s.session == session
            &&& s.cfg == cfg
            &&& told_by(s, now, steps)
        }),
    decreases steps.len(),
{
    let start = receive::recv_start(session, cfg, now);
    delivery::recv_starts_well(session, cfg, now);
    delivery::law_receiver_invariant(start, steps);
    if steps.len() == 0 {
        if session.chunk_count > 0 {
            assert(!start.got.contains(0u32));
        }
    } else {
        let old_steps = steps.drop_last();
        the_history_tells(session, cfg, now, old_steps);
        let s = machine::after(start, old_steps);
        let t = machine::after(start, steps);
        match s.at.phase {
            RecvPhase::Poll => {
                match sending::heard(steps) {
                    Some(PayloadView::Data { seq, chunk }) => {
                        turns_of_chunks(s, seq);
                        if due(session, s.got, seq) {
                            spans_agree(s, seq);
                            if chunk.len() == chunk_span(session, seq) {
                                assert(s.got.insert(seq).contains(seq));
                                assert(gained(session, steps));
                            }
                        } else {
                            assert(!gained(session, steps));
                        }
                    },
                    _ => {
                        assert(!gained(session, steps));
                    },
                }
            },
            RecvPhase::Status => {
                assert(!gained(session, steps));
                holes_are_missing(s);
            },
            RecvPhase::AckOld(_) => {
                assert(!gained(session, steps));
            },
            RecvPhase::AckBurst => {
                assert(!gained(session, steps));
            },
            RecvPhase::AckWindow => {
                assert(!gained(session, steps));
                let base = t.at.base;
                if base < session.chunk_count {
                    assert(!s.got.contains(base));
                }
                assert(current(session, t.got, t.at.base));
            },
            _ => {},
        }
    }
}

/// Whether the session's sizes agree with each other and fit this machine.
pub open spec fn sound(session: SessionView) -> bool {
    let room = frame::chunk_room(session.qr_version);
    &&& session.compressed_size <= usize::MAX
    &&& room > 0
    &&& session.chunk_count * room >= session.compressed_size
    &&& session.chunk_count == 0 || (session.chunk_count - 1) * room < session.compressed_size
}

proof fn sound_sessions(session: SessionView)
    ensures
        sound(session) <==> receive::receivable(session),
{
    let blob = Seq::new(session.compressed_size as nat, |i: int| 0u8);
    sending::fitting_sessions(blob, session);
}

/// A receiver starts by listening.
pub proof fn law_how_receiving_starts(session: SessionView, cfg: TransportConfig, now: u64)
    requires
        sound(session),
    ensures
        machine::after(receive::recv_start(session, cfg, now), Seq::empty()).pending() == Some(
            listening(session, cfg, now, Seq::empty()),
        ),
{
}

/// A DATA frame that is due is counted in a status line, if it has the right
/// length, and ends the transfer if not. One of a window that is complete tells
/// that the sender missed an ACK: the window is acknowledged once more, but not
/// twice in a row. Any other is passed over, unless the burst is over and an ACK
/// owed.
#[verifier::rlimit(30)]
pub proof fn law_what_follows_a_data_frame(
    session: SessionView,
    cfg: TransportConfig,
    now: u64,
    steps: Seq<Step>,
    seq: u32,
    chunk: Seq<u8>,
)
    requires
        sound(session),
        machine::lawful(receive::recv_start(session, cfg, now), steps),
        steps.len() > 0,
        steps.last().turn.answer == Ok::<Answer, ErrorView>(
            Answer::Polled(Some(PayloadView::Data { seq, chunk })),
        ),
    ensures
        ({
            let s = machine::after(receive::recv_start(session, cfg, now), steps);
            let had = held(session, steps.drop_last());
            let has = held(session, steps);
            if due(session, had, seq) {
                if chunk.len() == chunk_span(session, seq) {
                    exists|base: u32, missing: Seq<u32>|
                        current(session, had, base) && #[trigger] names_the_missing(
                            session,
                            has,
                            base,
                            missing,
                        ) && s.pending() == Some(
                            Call::SetStatus(
                                Progress {
                                    base,
                                    end: window_stop(session, base as int) as u32,
                                    chunk_count: session.chunk_count,
                                    holes: missing.len() as usize,
                                    elapsed: sending::left(steps.last().at, now),
                                },
                            ),
                        )
                } else {
                    ended_with(s, ErrorView::HandshakeFailed)
                }
            } else if had.contains(seq) && complete(session, had, window_start(seq)) {
                if repeated_last(session, steps.drop_last()) == Some(window_start(seq) as u32) {
                    s.pending() == Some(listening(session, cfg, now, steps))
                } else {
                    s.pending() is Some && acknowledges(
                        session,
                        has,
                        window_start(seq) as u32,
                        s.pending()->0,
                    )
                }
            } else if burst_is_over(session, cfg, now, steps) {
                s.pending() is Some && exists|base: u32| #[trigger]
                    current(session, has, base) && acknowledges(session, has, base, s.pending()->0)
            } else {
                s.pending() == Some(listening(session, cfg, now, steps))
            }
        }),
{
    sound_sessions(session);
    let start = receive::recv_start(session, cfg, now);
    the_history_tells(session, cfg, now, steps.drop_last());
    the_history_tells(session, cfg, now, steps);
    let before = machine::after(start, steps.drop_last());
    let s = machine::after(start, steps);
    assert(before.at.phase is Poll);
    turns_of_chunks(before, seq);
    if due(session, before.got, seq) {
        spans_agree(before, seq);
        holes_are_missing(s);
    } else if seq < before.at.base {
        acks_tell(s, window_start(seq) as u32);
    } else {
        acks_tell(s, s.at.base);
    }
}

/// FAIL ends the transfer. FIN does so once all chunks are there: with the blob
/// if its digest is the session's, and by telling the sender if it is not.
/// Anything else, silence too, leads to an ACK if the burst is over and one is
/// owed. Before the first chunk it ends the transfer only once ten minutes (one
/// second on an in-process channel) have passed since the start; after it, only
/// at the twentieth such poll in a row with nothing owed.
#[verifier::rlimit(30)]
pub proof fn law_what_follows_another_poll(
    session: SessionView,
    cfg: TransportConfig,
    now: u64,
    steps: Seq<Step>,
)
    requires
        sound(session),
        machine::lawful(receive::recv_start(session, cfg, now), steps),
        steps.len() > 0,
        steps.last().turn.call is Poll,
        !(sending::heard(steps) matches Some(PayloadView::Data { .. })),
    ensures
        ({
            let s = machine::after(receive::recv_start(session, cfg, now), steps);
            let has = held(session, steps);
            let frame = sending::heard(steps);
            if frame matches Some(PayloadView::Fail { .. }) {
                ended_with(
                    s,
                    if frame == Some(PayloadView::Fail { reason: 1 }) {
                        ErrorView::HashMismatch
                    } else {
                        ErrorView::HandshakeFailed
                    },
                )
            } else if (frame matches Some(PayloadView::Fin { .. })) && all_below(
                has,
                session.chunk_count as int,
            ) {
                if digest::sha256_of(s.blob) == session.sha256 {
                    s.pending() is None && s.verdict() == Ok::<Seq<u8>, ErrorView>(s.blob)
                } else {
                    s.pending() == Some(Call::Show(PayloadView::Fail { reason: 1 }))
                }
            } else if burst_is_over(session, cfg, now, steps) {
                s.pending() is Some && exists|base: u32| #[trigger]
                    current(session, has, base) && acknowledges(session, has, base, s.pending()->0)
            } else if (has == Set::<u32>::empty() && sending::left(steps.last().at, now)
                >= first_chunk_span(cfg)) || (has != Set::<u32>::empty() && !ack_owed(session, steps)
                && idle_polls(session, steps) >= 20) {
                gave_up(session, has, s)
            } else {
                s.pending() == Some(listening(session, cfg, now, steps))
            }
        }),
{
    sound_sessions(session);
    let start = receive::recv_start(session, cfg, now);
    the_history_tells(session, cfg, now, steps.drop_last());
    the_history_tells(session, cfg, now, steps);
    let before = machine::after(start, steps.drop_last());
    let s = machine::after(start, steps);
    assert(before.at.phase is Poll);
    assert(!gained(session, steps));
    all_held(before);
    holes_are_missing(s);
    acks_tell(s, s.at.base);
    if s.at.phase == RecvPhase::Over(RecvEnd::Stalled) {
        assert(current(session, held(session, steps), s.at.base));
        assert(names_the_missing(session, held(session, steps), s.at.base, s.missing()));
    }
}

/// A status line is followed by the ACK of its window once that is complete,
/// and by more listening before; so is every ACK. Telling the sender that the
/// digest is wrong is the end of it.
pub proof fn law_what_follows_a_receivers_word(
    session: SessionView,
    cfg: TransportConfig,
    now: u64,
    steps: Seq<Step>,
)
    requires
        sound(session),
        machine::lawful(receive::recv_start(session, cfg, now), steps),
        steps.len() > 0,
        !(steps.last().turn.call is Poll),
    ensures
        ({
            let s = machine::after(receive::recv_start(session, cfg, now), steps);
            let has = held(session, steps);
            match steps.last().turn.call {
                Call::SetStatus(status) => if complete(session, has, status.base as int) {
                    s.pending() is Some && acknowledges(session, has, status.base, s.pending()->0)
                } else {
                    s.pending() == Some(listening(session, cfg, now, steps))
                },
                Call::Show(PayloadView::Ack { .. }) => s.pending() == Some(
                    listening(session, cfg, now, steps),
                ),
                Call::Show(PayloadView::Fail { .. }) => ended_with(s, ErrorView::HashMismatch),
                _ => false,
            }
        }),
{
    sound_sessions(session);
    let start = receive::recv_start(session, cfg, now);
    the_history_tells(session, cfg, now, steps.drop_last());
    the_history_tells(session, cfg, now, steps);
    let before = machine::after(start, steps.drop_last());
    let s = machine::after(start, steps);
    holes_are_missing(before);
    acks_tell(s, s.at.base);
}

/// A receiver that gives up as stalled either never got a chunk, and waited ten
/// minutes for it (one second on an in-process channel), or has polled twenty
/// times in a row for nothing.
pub proof fn law_receiving_stalls_only_when_its_time_is_up(
    session: SessionView,
    cfg: TransportConfig,
    now: u64,
    steps: Seq<Step>,
    missing: Seq<u32>,
)
    requires
        sound(session),
        machine::lawful(receive::recv_start(session, cfg, now), steps),
        machine::after(receive::recv_start(session, cfg, now), steps).pending() is None,
        machine::after(receive::recv_start(session, cfg, now), steps).verdict() == Err::<
            Seq<u8>,
            ErrorView,
        >(ErrorView::Stalled(missing)),
    ensures
        steps.len() > 0,
        held(session, steps) == Set::<u32>::empty() ==> steps.last().at - now >= (if cfg.fast {
            1_000_000_000
        } else {
            600_000_000_000int
        }),
        held(session, steps) != Set::<u32>::empty() ==> idle_polls(session, steps) >= 20,
        exists|base: u32|
            current(session, held(session, steps), base) && #[trigger] names_the_missing(
                session,
                held(session, steps),
                base,
                missing,
            ),
{
    assert(steps.len() > 0);
    if steps.last().turn.call is Poll {
        match sending::heard(steps) {
            Some(PayloadView::Data { seq, chunk }) => {
                law_what_follows_a_data_frame(session, cfg, now, steps, seq, chunk);
            },
            _ => {
                law_what_follows_another_poll(session, cfg, now, steps);
            },
        }
    } else {
        law_what_follows_a_receivers_word(session, cfg, now, steps);
    }
}

/// Receiving a blob is a run of the receiver from its start to its end, unless a
/// request fails, which is then the result. Only a session that is not sound is
/// turned down, and then nothing is asked of the channel.
pub proof fn law_receiving_goes_to_its_end(
    session: SessionView,
    cfg: TransportConfig,
    before: Seq<Turn>,
    after: Seq<Turn>,
    result: std::result::Result<Seq<u8>, ErrorView>,
) -> (run: (u64, Seq<Step>))
    requires
        receive::blob_received(session, cfg, before, after, result),
    ensures
        ({
            let start = receive::recv_start(session, cfg, run.0);
            let s = machine::after(start, run.1);
            if !sound(session) {
                after == before && result == Err::<Seq<u8>, ErrorView>(ErrorView::HandshakeFailed)
            } else {
                &&& machine::lawful(start, run.1)
                &&& {
                    ||| s.pending() is None && result == s.verdict() && machine::recorded(
                        start,
                        run.1,
                        before,
                        after,
                        None,
                    )
                    ||| result is Err && machine::recorded(
                        start,
                        run.1,
                        before,
                        after,
                        Some(result->Err_0),
                    )
                    ||| run.1.len() == 0xffff_ffff_ffff_ffff && result == Err::<Seq<u8>, ErrorView>(
                        ErrorView::HandshakeFailed,
                    )
                }
            }
        }),
{
    sound_sessions(session);
    if sound(session) {
        let (now, end, outcome) = choose|
            now: u64,
            end: RecvState,
            outcome: std::result::Result<(), ErrorView>,
        |
            #[trigger] machine::ran_on(
                receive::recv_start(session, cfg, now),
                before,
                after,
                end,
                outcome,
            ) && result == match outcome {
                Ok(_) => end.verdict(),
                Err(e) => Err(e),
            };
        let start = receive::recv_start(session, cfg, now);
        (now, machine::law_runs_go_to_their_end(start, before, after, end, outcome))
    } else {
        (0, Seq::empty())
    }
}

} // verus!
