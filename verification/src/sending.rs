//! What the sender of a blob does next, told from what it asked of the channel
//! and what it was answered so far.
//!
//! Nothing here looks into the sender. A history is the list of its requests
//! with their answers and the times at which those came; from that alone the
//! laws say which request follows, or how the transfer ended.
use crate::clock;
use crate::delivery;
use crate::error::ErrorView;
use crate::frame;
use crate::frame::PayloadView;
use crate::link::SessionView;
use crate::machine;
use crate::machine::{Protocol, Step};
use crate::optical::{Answer, Call, Progress, Turn};
use crate::text;
use crate::transport;
use crate::transport::{SendEnd, SendPhase, SendState, TransportConfig};
use crate::window;
use vstd::prelude::*;

verus! {

/// The first chunk of the window that the latest status line names.
pub open spec fn open_base(steps: Seq<Step>) -> u32
    decreases steps.len(),
{
    if steps.len() == 0 {
        0
    } else {
        match steps.last().turn.call {
            Call::SetStatus(status) => status.base,
            _ => open_base(steps.drop_last()),
        }
    }
}

/// The frame that the latest request brought.
pub open spec fn heard(steps: Seq<Step>) -> Option<PayloadView> {
    match steps.last().turn.answer {
        Ok(Answer::Polled(polled)) => polled,
        _ => None,
    }
}

/// The bits of an ACK of the open window, if that is what came last.
pub open spec fn ack_heard(steps: Seq<Step>) -> Option<u32> {
    match heard(steps) {
        Some(PayloadView::Ack { window_base, bitmap }) => if window_base == open_base(steps) {
            Some(bitmap)
        } else {
            None
        },
        _ => None,
    }
}

/// The bits that the ACKs of the open window have set so far. A status line
/// without holes opens a window.
pub open spec fn acked_bits(steps: Seq<Step>) -> u32
    decreases steps.len(),
{
    if steps.len() == 0 {
        0
    } else {
        let so_far = acked_bits(steps.drop_last());
        match steps.last().turn.call {
            Call::SetStatus(status) => if status.holes == 0 {
                0
            } else {
                so_far
            },
            Call::Poll(_) => match ack_heard(steps) {
                Some(bitmap) => so_far | bitmap,
                None => so_far,
            },
            _ => so_far,
        }
    }
}

/// One past the last chunk of the open window: a window has up to 32 chunks.
pub open spec fn open_end(session: SessionView, steps: Seq<Step>) -> int {
    if open_base(steps) + 32 < session.chunk_count {
        open_base(steps) + 32
    } else {
        session.chunk_count as int
    }
}

/// Whether `seq` is a chunk of the open window that no ACK has covered. Bit
/// `i` of an ACK stands for the chunk `i` places into the window.
pub open spec fn hole(session: SessionView, steps: Seq<Step>, seq: u32) -> bool {
    &&& open_base(steps) <= seq < open_end(session, steps)
    &&& acked_bits(steps) & (1u32 << ((seq - open_base(steps)) as u32)) == 0
}

/// Whether `list` names the holes of the open window, each once, in order.
pub open spec fn names_the_holes(session: SessionView, steps: Seq<Step>, list: Seq<u32>) -> bool {
    &&& forall|i: int, j: int| 0 <= i < j < list.len() ==> list[i] < list[j]
    &&& forall|seq: u32| #[trigger] list.contains(seq) <==> hole(session, steps, seq)
}

/// Whether `seq` is the first hole from `from` on.
pub open spec fn first_hole(session: SessionView, steps: Seq<Step>, from: int, seq: u32) -> bool {
    &&& from <= seq
    &&& hole(session, steps, seq)
    &&& forall|other: u32| from <= other < seq ==> !#[trigger] hole(session, steps, other)
}

/// The DATA frame of chunk `seq`: as many bytes as a code of the session's
/// version has room for, or what is left of the blob.
pub open spec fn chunk_frame(blob: Seq<u8>, session: SessionView, seq: u32) -> PayloadView {
    let room = frame::chunk_room(session.qr_version);
    let from = seq * room;
    PayloadView::Data {
        seq,
        chunk: blob.subrange(
            from as int,
            if from + room < blob.len() {
                from + room
            } else {
                blob.len() as int
            },
        ),
    }
}

/// Whether the session names as many chunks as the blob has.
pub open spec fn fits_blob(blob: Seq<u8>, session: SessionView) -> bool {
    let room = frame::chunk_room(session.qr_version);
    &&& room > 0
    &&& session.chunk_count * room >= blob.len()
    &&& session.chunk_count == 0 || (session.chunk_count - 1) * room < blob.len()
}

/// The time of the latest answer; `now`, if there is none yet.
pub open spec fn read_last(now: u64, steps: Seq<Step>) -> u64 {
    if steps.len() == 0 {
        now
    } else {
        steps.last().at
    }
}

/// The time of the latest answer to a request that was no poll: a wait counts
/// from there.
pub open spec fn wait_began(now: u64, steps: Seq<Step>) -> u64
    decreases steps.len(),
{
    if steps.len() == 0 {
        now
    } else {
        match steps.last().turn.call {
            Call::Poll(_) => wait_began(now, steps.drop_last()),
            _ => steps.last().at,
        }
    }
}

/// The end of a wait of `span` nanoseconds that began at `from`.
pub open spec fn until(from: u64, span: int) -> u64 {
    if from + span > u64::MAX {
        u64::MAX
    } else {
        (from + span) as u64
    }
}

/// What is left at `at` of a wait that ends at `deadline`.
pub open spec fn left(deadline: u64, at: u64) -> u64 {
    if at < deadline {
        (deadline - at) as u64
    } else {
        0
    }
}

/// How long the sender waits for an ACK: five seconds, or 50 ms on an
/// in-process channel.
pub open spec fn ack_span(cfg: TransportConfig) -> int {
    if cfg.fast {
        50_000_000
    } else {
        5_000_000_000
    }
}

/// How long the sender waits for OK or FAIL, fifteen seconds, or 50 ms on an
/// in-process channel.
pub open spec fn verdict_span(cfg: TransportConfig) -> int {
    if cfg.fast {
        50_000_000
    } else {
        15_000_000_000
    }
}

/// Whether the latest poll ended a wait for an ACK: it brought nothing, or an
/// ACK of the open window, or something else after the time was up.
pub open spec fn wait_is_over(cfg: TransportConfig, now: u64, steps: Seq<Step>) -> bool {
    ||| heard(steps) is None
    ||| ack_heard(steps) is Some
    ||| steps.last().at > until(wait_began(now, steps), ack_span(cfg))
}

/// How many waits in a row, in the open window, brought no ACK or one that set
/// no new bit.
pub open spec fn barren_waits(cfg: TransportConfig, now: u64, steps: Seq<Step>) -> nat
    decreases steps.len(),
{
    if steps.len() == 0 {
        0
    } else {
        let so_far = barren_waits(cfg, now, steps.drop_last());
        match steps.last().turn.call {
            Call::SetStatus(status) => if status.holes == 0 {
                0
            } else {
                so_far
            },
            Call::Poll(_) => if !wait_is_over(cfg, now, steps) {
                so_far
            } else if acked_bits(steps) != acked_bits(steps.drop_last()) {
                0
            } else {
                so_far + 1
            },
            _ => so_far,
        }
    }
}

/// When the transfer itself began: after the operator's go-ahead, if there was
/// one to wait for.
pub open spec fn began(cfg: TransportConfig, now: u64, steps: Seq<Step>) -> u64 {
    if cfg.gated && steps.len() > 0 {
        steps[0].at
    } else {
        now
    }
}

/// The status line about the chunks from `base` up to `end`, `holes` of which
/// are missing.
pub open spec fn status(
    session: SessionView,
    cfg: TransportConfig,
    now: u64,
    steps: Seq<Step>,
    base: int,
    end: int,
    holes: nat,
) -> Call {
    Call::SetStatus(
        Progress {
            base: base as u32,
            end: end as u32,
            chunk_count: session.chunk_count,
            holes: holes as usize,
            elapsed: left(read_last(now, steps), began(cfg, now, steps)),
        },
    )
}

/// The status line that opens the window at `base`; past the last chunk there
/// is no window, and the line says that all were sent.
pub open spec fn opening(
    session: SessionView,
    cfg: TransportConfig,
    now: u64,
    steps: Seq<Step>,
    base: int,
) -> Call {
    let end = if base + 32 < session.chunk_count {
        base + 32
    } else {
        session.chunk_count as int
    };
    status(session, cfg, now, steps, base, end, 0)
}

/// A poll that waits until `span` after the latest answer that was no poll's.
pub open spec fn waiting(now: u64, steps: Seq<Step>, span: int) -> Call {
    Call::Poll(
        clock::nanos_duration(left(until(wait_began(now, steps), span), read_last(now, steps))),
    )
}

/// A session fits a blob exactly if it describes one of that length.
pub proof fn fitting_sessions(blob: Seq<u8>, session: SessionView)
    ensures
        fits_blob(blob, session) <==> transport::describes(session, blob.len()),
{
    let room = frame::chunk_room(session.qr_version);
    let len = blob.len() as int;
    let count = session.chunk_count as int;
    if room > 0 {
        vstd::arithmetic::div_mod::lemma_fundamental_div_mod(len, room as int);
        let q = len / room as int;
        let r = len % room as int;
        assert(room * q == q * room) by (nonlinear_arith);
        assert((count - 1) * room == count * room - room) by (nonlinear_arith);
        assert(count < q ==> count * room <= q * room - room) by (nonlinear_arith)
            requires
                room > 0,
        ;
        assert(count > q ==> count * room >= q * room + room) by (nonlinear_arith)
            requires
                room > 0,
        ;
        assert(count > q + 1 ==> count * room >= q * room + 2 * room) by (nonlinear_arith)
            requires
                room > 0,
        ;
    }
}

proof fn frames_agree(blob: Seq<u8>, session: SessionView, seq: u32)
    ensures
        chunk_frame(blob, session, seq) == (PayloadView::Data {
            seq,
            chunk: window::chunk_at(blob, frame::chunk_room(session.qr_version), seq as nat),
        }),
{
    let room = frame::chunk_room(session.qr_version);
    assert((seq + 1) * room == seq * room + room) by (nonlinear_arith);
}

spec fn counted(s: SendState, now: u64, steps: Seq<Step>) -> bool {
    &&& s.at.base == open_base(steps)
    &&& s.at.bitmap == acked_bits(steps)
    &&& s.at.previous == s.at.bitmap
    &&& s.at.stalls == barren_waits(s.cfg, now, steps)
}

spec fn told_by(s: SendState, now: u64, steps: Seq<Step>) -> bool {
    &&& s.at.now == read_last(now, steps)
    &&& s.at.phase is Gate || s.at.phase is Over || s.at.started == began(s.cfg, now, steps)
    &&& match s.at.phase {
        SendPhase::Gate => steps.len() == 0 && s.cfg.gated,
        SendPhase::Opening => s.at.bitmap == 0 && s.at.previous == 0 && s.at.stalls == 0,
        SendPhase::Show(seq) => counted(s, now, steps) && hole(s.session, steps, seq),
        SendPhase::Hold(seq) => counted(s, now, steps) && !s.cfg.fast && steps.len() > 0
            && steps.last().turn.call == Call::Show(s.data(seq)) && hole(s.session, steps, seq),
        SendPhase::AwaitAck(deadline) => counted(s, now, steps) && deadline == until(
            wait_began(now, steps),
            ack_span(s.cfg),
        ),
        SendPhase::Report => counted(s, now, steps),
        SendPhase::FinStatus => true,
        SendPhase::FinShow => open_base(steps) == s.session.chunk_count,
        SendPhase::AwaitEnd(deadline) => open_base(steps) == s.session.chunk_count && deadline
            == until(wait_began(now, steps), verdict_span(s.cfg)),
        SendPhase::Over(_) => true,
    }
}

proof fn holes_are_missing(s: SendState, steps: Seq<Step>)
    requires
        s.inv(),
        s.at.base == open_base(steps),
        s.at.bitmap == acked_bits(steps),
    ensures
        s.end() == open_end(s.session, steps),
        forall|seq: u32| #[trigger] s.missing().contains(seq) <==> hole(s.session, steps, seq),
        names_the_holes(s.session, steps, s.missing()),
        s.missing().len() <= 32,
        s.missing().len() == 0 <==> forall|seq: u32| !#[trigger] hole(s.session, steps, seq),
{
    window::unset_seqs_members(s.at.base, s.end(), s.at.bitmap);
    if s.missing().len() > 0 {
        let seq = s.missing()[0];
        assert(s.missing().contains(seq));
        assert(hole(s.session, steps, seq));
    } else {
        assert forall|seq: u32| !#[trigger] hole(s.session, steps, seq) by {
            assert(!s.missing().contains(seq));
        }
    }
}

proof fn next_hole(s: SendState, steps: Seq<Step>, from: u32)
    requires
        s.inv(),
        s.at.base == open_base(steps),
        s.at.bitmap == acked_bits(steps),
        s.at.base <= from,
    ensures
        match window::next_unset(s.at.base, s.end(), s.at.bitmap, from) {
            Some(seq) => first_hole(s.session, steps, from as int, seq),
            None => forall|seq: u32| from <= seq ==> !#[trigger] hole(s.session, steps, seq),
        },
{
    holes_are_missing(s, steps);
    window::next_unset_is_first(s.at.base, s.end(), s.at.bitmap, from);
    match window::next_unset(s.at.base, s.end(), s.at.bitmap, from) {
        Some(seq) => {
            assert forall|other: u32| from <= other < seq implies !#[trigger] hole(
                s.session,
                steps,
                other,
            ) by {
                assert(window::bit(s.at.bitmap, (other - s.at.base) as u32));
            }
        },
        None => {
            assert forall|other: u32| from <= other implies !#[trigger] hole(
                s.session,
                steps,
                other,
            ) by {
                if other < s.end() {
                    assert(window::bit(s.at.bitmap, (other - s.at.base) as u32));
                }
            }
        },
    }
}

#[verifier::rlimit(30)]
proof fn the_history_tells(
    blob: Seq<u8>,
    session: SessionView,
    cfg: TransportConfig,
    now: u64,
    steps: Seq<Step>,
)
    requires
        transport::describes(session, blob.len()),
        machine::lawful(transport::send_start(blob, session, cfg, now), steps),
    ensures
        ({
            let s = machine::after(transport::send_start(blob, session, cfg, now), steps);
            &&& s.inv()
            &&& s.blob == blob
            &&& s.session == session
            &&& s.cfg == cfg
            &&& told_by(s, now, steps)
        }),
    decreases steps.len(),
{
    let start = transport::send_start(blob, session, cfg, now);
    delivery::send_starts_well(blob, session, cfg, now);
    delivery::law_sender_invariant(start, steps);
    if steps.len() > 0 {
        let old_steps = steps.drop_last();
        the_history_tells(blob, session, cfg, now, old_steps);
        let s = machine::after(start, old_steps);
        match s.at.phase {
            SendPhase::Opening => {
                assert(open_base(steps) == s.at.base);
                assert(acked_bits(steps) == 0);
                assert(0u32 & (1u32 << 0u32) == 0) by (bit_vector);
            },
            SendPhase::Show(seq) | SendPhase::Hold(seq) => {
                assert(acked_bits(steps) == acked_bits(old_steps));
                assert(open_base(steps) == open_base(old_steps));
                next_hole(s, steps, (seq + 1) as u32);
                assert(hole(session, steps, seq));
            },
            SendPhase::Report => {
                holes_are_missing(s, old_steps);
                assert(acked_bits(steps) == acked_bits(old_steps));
                window::next_unset_is_first(s.at.base, s.end(), s.at.bitmap, s.at.base);
                next_hole(s, steps, s.at.base);
            },
            SendPhase::AwaitAck(_) => {
                assert(open_base(steps) == open_base(old_steps));
                assert(wait_began(now, steps) == wait_began(now, old_steps));
            },
            SendPhase::AwaitEnd(_) => {
                assert(open_base(steps) == open_base(old_steps));
                assert(wait_began(now, steps) == wait_began(now, old_steps));
            },
            SendPhase::Gate => {
                assert(steps[0] == steps.last());
            },
            _ => {},
        }
    }
}

/// Before anything else a gated sender asks the operator for the go-ahead, and
/// any other opens the first window.
pub proof fn law_how_sending_starts(
    blob: Seq<u8>,
    session: SessionView,
    cfg: TransportConfig,
    now: u64,
)
    requires
        fits_blob(blob, session),
    ensures
        machine::after(transport::send_start(blob, session, cfg, now), Seq::empty()).pending()
            == Some(
            if cfg.gated {
                Call::Gate(
                    "Ready to send "@ + session.basename + " in "@ + text::decimal(
                        session.chunk_count as nat,
                    ) + " chunks. Enter to start the transfer"@,
                )
            } else {
                opening(session, cfg, now, Seq::empty(), 0)
            },
        ),
{
}

/// The operator's yes opens the first window; a no ends the transfer.
pub proof fn law_what_follows_the_go_ahead(
    blob: Seq<u8>,
    session: SessionView,
    cfg: TransportConfig,
    now: u64,
    steps: Seq<Step>,
)
    requires
        fits_blob(blob, session),
        machine::lawful(transport::send_start(blob, session, cfg, now), steps),
        steps.len() > 0,
        steps.last().turn.call is Gate,
    ensures
        ({
            let s = machine::after(transport::send_start(blob, session, cfg, now), steps);
            match steps.last().turn.answer->Ok_0 {
                Answer::Gated(true) => s.pending() == Some(opening(session, cfg, now, steps, 0)),
                _ => s.pending() is None && s.verdict() == Err::<(), ErrorView>(ErrorView::Aborted),
            }
        }),
{
    fitting_sessions(blob, session);
    the_history_tells(blob, session, cfg, now, steps.drop_last());
    the_history_tells(blob, session, cfg, now, steps);
}

/// A status line about a window is followed by the first chunk of it that no
/// ACK has covered; the one that says that all were sent, by FIN.
pub proof fn law_what_follows_a_status_line(
    blob: Seq<u8>,
    session: SessionView,
    cfg: TransportConfig,
    now: u64,
    steps: Seq<Step>,
)
    requires
        fits_blob(blob, session),
        machine::lawful(transport::send_start(blob, session, cfg, now), steps),
        steps.len() > 0,
        steps.last().turn.call is SetStatus,
    ensures
        ({
            let next = machine::after(
                transport::send_start(blob, session, cfg, now),
                steps,
            ).pending();
            if open_base(steps) < session.chunk_count {
                exists|seq: u32| #[trigger]
                    first_hole(session, steps, 0, seq) && next == Some(
                        Call::Show(chunk_frame(blob, session, seq)),
                    )
            } else {
                next == Some(Call::Show(PayloadView::Fin { sha256: session.sha256 }))
            }
        }),
{
    fitting_sessions(blob, session);
    let start = transport::send_start(blob, session, cfg, now);
    the_history_tells(blob, session, cfg, now, steps.drop_last());
    the_history_tells(blob, session, cfg, now, steps);
    let s = machine::after(start, steps);
    let before = machine::after(start, steps.drop_last());
    match s.at.phase {
        SendPhase::Show(seq) => {
            frames_agree(blob, session, seq);
            if before.at.phase is Report {
                next_hole(before, steps, before.at.base);
            }
            assert(first_hole(session, steps, 0, seq));
        },
        _ => {},
    }
}

/// Each chunk is held on screen for the session's dwell, except on an
/// in-process channel. Then comes the next chunk of the window that no ACK has
/// covered; after the last of them the sender waits for an ACK.
pub proof fn law_what_follows_a_chunk(
    blob: Seq<u8>,
    session: SessionView,
    cfg: TransportConfig,
    now: u64,
    steps: Seq<Step>,
    seq: u32,
    chunk: Seq<u8>,
)
    requires
        fits_blob(blob, session),
        machine::lawful(transport::send_start(blob, session, cfg, now), steps),
        ({
            let shown = Call::Show(PayloadView::Data { seq, chunk });
            ||| steps.len() > 0 && steps.last().turn.call == shown
            ||| steps.len() > 1 && steps.last().turn.call is Hold && steps.drop_last().last().turn.call
                == shown
        }),
    ensures
        ({
            let next = machine::after(
                transport::send_start(blob, session, cfg, now),
                steps,
            ).pending();
            if !cfg.fast && steps.last().turn.call is Show {
                next == Some(Call::Hold(session.dwell_ms))
            } else if exists|later: u32| seq < later && hole(session, steps, later) {
                exists|later: u32| #[trigger]
                    first_hole(session, steps, seq + 1, later) && next == Some(
                        Call::Show(chunk_frame(blob, session, later)),
                    )
            } else {
                next == Some(waiting(now, steps, ack_span(cfg)))
            }
        }),
{
    fitting_sessions(blob, session);
    let start = transport::send_start(blob, session, cfg, now);
    the_history_tells(blob, session, cfg, now, steps.drop_last());
    the_history_tells(blob, session, cfg, now, steps);
    let s = machine::after(start, steps);
    let before = machine::after(start, steps.drop_last());
    if cfg.fast || steps.last().turn.call is Hold {
        assert(before.at.phase == SendPhase::Show(seq) || before.at.phase == SendPhase::Hold(seq));
        next_hole(before, steps, (seq + 1) as u32);
        match s.at.phase {
            SendPhase::Show(later) => {
                frames_agree(blob, session, later);
                assert(first_hole(session, steps, seq + 1, later));
            },
            _ => {},
        }
    }
}

/// What follows a poll for an ACK. As long as the wait is not over, the next
/// poll takes what is left of it. A window without holes makes room for the
/// next one. Twenty waits in a row that brought nothing new end the transfer,
/// which then names the holes. Any other wait is followed by a status line that
/// counts the holes, and so by their being shown again.
#[verifier::rlimit(30)]
pub proof fn law_what_follows_a_wait(
    blob: Seq<u8>,
    session: SessionView,
    cfg: TransportConfig,
    now: u64,
    steps: Seq<Step>,
)
    requires
        fits_blob(blob, session),
        machine::lawful(transport::send_start(blob, session, cfg, now), steps),
        steps.len() > 0,
        steps.last().turn.call is Poll,
        open_base(steps) < session.chunk_count,
    ensures
        ({
            let s = machine::after(transport::send_start(blob, session, cfg, now), steps);
            if !wait_is_over(cfg, now, steps) {
                s.pending() == Some(waiting(now, steps, ack_span(cfg)))
            } else if forall|seq: u32| !#[trigger] hole(session, steps, seq) {
                s.pending() == Some(
                    opening(session, cfg, now, steps, open_end(session, steps)),
                )
            } else if barren_waits(cfg, now, steps) >= 20 {
                &&& s.pending() is None
                &&& exists|missing: Seq<u32>| #[trigger]
                    names_the_holes(session, steps, missing) && s.verdict() == Err::<(), ErrorView>(
                        ErrorView::Stalled(missing),
                    )
            } else {
                exists|missing: Seq<u32>| #[trigger]
                    names_the_holes(session, steps, missing) && s.pending() == Some(
                        status(
                            session,
                            cfg,
                            now,
                            steps,
                            open_base(steps) as int,
                            open_end(session, steps),
                            missing.len(),
                        ),
                    )
            }
        }),
{
    fitting_sessions(blob, session);
    let start = transport::send_start(blob, session, cfg, now);
    let old_steps = steps.drop_last();
    the_history_tells(blob, session, cfg, now, old_steps);
    the_history_tells(blob, session, cfg, now, steps);
    let before = machine::after(start, old_steps);
    assert(open_base(steps) == open_base(old_steps));
    assert(wait_began(now, steps) == wait_began(now, old_steps));
    assert(before.at.phase is AwaitAck);
    let heard_all = SendState {
        at: transport::SendProgress {
            bitmap: acked_bits(steps),
            now: steps.last().at,
            ..before.at
        },
        ..before
    };
    holes_are_missing(heard_all, steps);
}

/// FIN is followed by a wait for the verdict. OK is success, FAIL "hash" a
/// mismatch, any other FAIL a refusal, and so is silence; other frames are
/// passed over as long as the wait lasts.
pub proof fn law_what_follows_fin(
    blob: Seq<u8>,
    session: SessionView,
    cfg: TransportConfig,
    now: u64,
    steps: Seq<Step>,
)
    requires
        fits_blob(blob, session),
        machine::lawful(transport::send_start(blob, session, cfg, now), steps),
        steps.len() > 0,
        open_base(steps) >= session.chunk_count,
        steps.last().turn.call is Poll || steps.last().turn.call is Show,
    ensures
        ({
            let s = machine::after(transport::send_start(blob, session, cfg, now), steps);
            if steps.last().turn.call is Show {
                s.pending() == Some(waiting(now, steps, verdict_span(cfg)))
            } else {
                match heard(steps) {
                    Some(PayloadView::Okay) => s.pending() is None && s.verdict() == Ok::<
                        (),
                        ErrorView,
                    >(()),
                    Some(PayloadView::Fail { reason }) => s.pending() is None && s.verdict() == Err::<
                        (),
                        ErrorView,
                    >(
                        if reason == 1 {
                            ErrorView::HashMismatch
                        } else {
                            ErrorView::HandshakeFailed
                        },
                    ),
                    _ => if heard(steps) is Some && steps.last().at <= until(
                        wait_began(now, steps),
                        verdict_span(cfg),
                    ) {
                        s.pending() == Some(waiting(now, steps, verdict_span(cfg)))
                    } else {
                        s.pending() is None && s.verdict() == Err::<(), ErrorView>(
                            ErrorView::HandshakeFailed,
                        )
                    },
                }
            }
        }),
{
    fitting_sessions(blob, session);
    the_history_tells(blob, session, cfg, now, steps.drop_last());
    the_history_tells(blob, session, cfg, now, steps);
    assert(steps.last().turn.call is Poll ==> wait_began(now, steps) == wait_began(
        now,
        steps.drop_last(),
    ));
}

/// Sending a blob is a run of the sender from its start to its end, unless a
/// request fails, which is then the result. Only a session that does not fit the
/// blob is turned down, and then nothing is asked of the channel.
pub proof fn law_sending_goes_to_its_end(
    blob: Seq<u8>,
    session: SessionView,
    cfg: TransportConfig,
    before: Seq<Turn>,
    after: Seq<Turn>,
    result: std::result::Result<(), ErrorView>,
) -> (run: (u64, Seq<Step>))
    requires
        transport::blob_sent(blob, session, cfg, before, after, result),
    ensures
        ({
            let start = transport::send_start(blob, session, cfg, run.0);
            let s = machine::after(start, run.1);
            if !fits_blob(blob, session) {
                after == before && result == Err::<(), ErrorView>(ErrorView::HandshakeFailed)
            } else {
                &&& machine::lawful(start, run.1)
                &&& {
                    ||| s.pending() is None && result == s.verdict() && machine::recorded(
                        start,
                        run.1,
                        before,
                        after,
                        None,
                    )
                    ||| result is Err && machine::recorded(
                        start,
                        run.1,
                        before,
                        after,
                        Some(result->Err_0),
                    )
                    ||| run.1.len() == 0xffff_ffff_ffff_ffff && result == Err::<(), ErrorView>(
                        ErrorView::HandshakeFailed,
                    )
                }
            }
        }),
{
    fitting_sessions(blob, session);
    if fits_blob(blob, session) {
        let (now, end, outcome) = choose|
            now: u64,
            end: SendState,
            outcome: std::result::Result<(), ErrorView>,
        |
            #[trigger] machine::ran_on(
                transport::send_start(blob, session, cfg, now),
                before,
                after,
                end,
                outcome,
            ) && result == match outcome {
                Ok(_) => end.verdict(),
                Err(e) => Err(e),
            };
        let start = transport::send_start(blob, session, cfg, now);
        (now, machine::law_runs_go_to_their_end(start, before, after, end, outcome))
    } else {
        (0, Seq::empty())
    }
}

/// Whether `payload` was shown after the latest status line.
pub open spec fn shown_since_status(steps: Seq<Step>, payload: PayloadView) -> bool
    decreases steps.len(),
{
    steps.len() > 0 && !(steps.last().turn.call is SetStatus) && (steps.last().turn.call
        == Call::Show(payload) || shown_since_status(steps.drop_last(), payload))
}

#[verifier::rlimit(30)]
proof fn holes_get_shown(
    blob: Seq<u8>,
    session: SessionView,
    cfg: TransportConfig,
    now: u64,
    steps: Seq<Step>,
)
    requires
        transport::describes(session, blob.len()),
        machine::lawful(transport::send_start(blob, session, cfg, now), steps),
    ensures
        ({
            let s = machine::after(transport::send_start(blob, session, cfg, now), steps);
            forall|seq: u32| #[trigger]
                hole(session, steps, seq) && match s.at.phase {
                    SendPhase::Show(next) => seq < next,
                    SendPhase::Hold(last) => seq <= last,
                    SendPhase::AwaitAck(_) => true,
                    _ => false,
                } ==> shown_since_status(steps, chunk_frame(blob, session, seq))
        }),
    decreases steps.len(),
{
    if steps.len() > 0 {
        let start = transport::send_start(blob, session, cfg, now);
        let old_steps = steps.drop_last();
        holes_get_shown(blob, session, cfg, now, old_steps);
        the_history_tells(blob, session, cfg, now, old_steps);
        the_history_tells(blob, session, cfg, now, steps);
        let s = machine::after(start, old_steps);
        let t = machine::after(start, steps);
        match s.at.phase {
            SendPhase::Opening => {},
            SendPhase::Report => {
                next_hole(s, steps, s.at.base);
            },
            SendPhase::Show(seq) | SendPhase::Hold(seq) => {
                frames_agree(blob, session, seq);
                next_hole(s, steps, (seq + 1) as u32);
                assert forall|other: u32| #[trigger]
                    hole(session, steps, other) && match t.at.phase {
                        SendPhase::Show(next) => other < next,
                        SendPhase::Hold(last) => other <= last,
                        SendPhase::AwaitAck(_) => true,
                        _ => false,
                    } implies shown_since_status(steps, chunk_frame(blob, session, other)) by {
                    assert(hole(session, old_steps, other));
                    assert(other <= seq);
                }
            },
            SendPhase::AwaitAck(_) => {
                assert forall|other: u32| #[trigger]
                    hole(session, steps, other) && t.at.phase
                        is AwaitAck implies shown_since_status(
                    steps,
                    chunk_frame(blob, session, other),
                ) by {
                    assert(acked_bits(steps) == acked_bits(old_steps));
                    assert(hole(session, old_steps, other));
                }
            },
            _ => {},
        }
    }
}

proof fn shown_where(steps: Seq<Step>, payload: PayloadView) -> (k: int)
    requires
        shown_since_status(steps, payload),
    ensures
        0 <= k < steps.len(),
        steps[k].turn.call == Call::Show(payload),
        forall|m: int| k < m < steps.len() ==> !((#[trigger] steps[m]).turn.call is SetStatus),
    decreases steps.len(),
{
    if steps.last().turn.call == Call::Show(payload) {
        steps.len() - 1
    } else {
        let k = shown_where(steps.drop_last(), payload);
        assert forall|m: int| k < m < steps.len() implies !((#[trigger] steps[m]).turn.call
            is SetStatus) by {
            if m < steps.len() - 1 {
                assert(steps.drop_last()[m] == steps[m]);
            }
        }
        assert(steps.drop_last()[k] == steps[k]);
        k
    }
}

/// Whenever the sender polls for an ACK, it has shown every chunk of the window
/// that no ACK has covered: since its poll before, unless that belongs to the
/// same wait, which is not over yet. What was lost is shown again before the
/// sender waits again, whatever the settings.
pub proof fn law_holes_are_shown_between_two_waits(
    blob: Seq<u8>,
    session: SessionView,
    cfg: TransportConfig,
    now: u64,
    steps: Seq<Step>,
    i: int,
    j: int,
    seq: u32,
)
    requires
        fits_blob(blob, session),
        machine::lawful(transport::send_start(blob, session, cfg, now), steps),
        -1 <= i < j < steps.len(),
        i >= 0 ==> steps[i].turn.call is Poll,
        steps[j].turn.call is Poll,
        forall|m: int| i < m < j ==> !((#[trigger] steps[m]).turn.call is Poll),
        hole(session, steps.take(j), seq),
    ensures
        ({
            ||| exists|k: int|
                i < k < j && (#[trigger] steps[k]).turn.call == Call::Show(
                    chunk_frame(blob, session, seq),
                )
            ||| i >= 0 && j == i + 1 && !wait_is_over(cfg, now, steps.take(i + 1))
        }),
{
    fitting_sessions(blob, session);
    let start = transport::send_start(blob, session, cfg, now);
    let history = steps.take(j);
    let payload = chunk_frame(blob, session, seq);
    delivery::lawful_step(start, steps, j);
    the_history_tells(blob, session, cfg, now, history);
    holes_get_shown(blob, session, cfg, now, history);
    let k = shown_where(history, payload);
    assert(steps[k] == history[k]);
    if k <= i {
        let past = steps.take(i + 1);
        delivery::lawful_step(start, steps, i + 1);
        assert(past.last() == steps[i]);
        if i + 1 < j {
            assert(history[i + 1] == steps[i + 1]);
        }
        same_window(history, i + 1);
        assert(history.take(i + 1) == past);
        law_what_follows_a_wait(blob, session, cfg, now, past);
        assert(!(steps[i + 1].turn.call is SetStatus));
    }
}

proof fn same_window(steps: Seq<Step>, from: int)
    requires
        0 <= from <= steps.len(),
        forall|m: int| from <= m < steps.len() ==> !((#[trigger] steps[m]).turn.call is SetStatus),
    ensures
        open_base(steps) == open_base(steps.take(from)),
    decreases steps.len(),
{
    if from < steps.len() {
        assert forall|m: int| from <= m < steps.drop_last().len() implies !((
        #[trigger] steps.drop_last()[m]).turn.call is SetStatus) by {
            assert(steps.drop_last()[m] == steps[m]);
        }
        same_window(steps.drop_last(), from);
        assert(steps.drop_last().take(from) == steps.take(from));
        assert(!(steps[steps.len() - 1].turn.call is SetStatus));
    } else {
        assert(steps.take(from) == steps);
    }
}

/// A sender that gives up as stalled has waited twenty times in a row, each time
/// after showing the holes, without an ACK that says anything new; it names the
/// holes, and there are some.
pub proof fn law_sending_stalls_only_after_twenty_waits(
    blob: Seq<u8>,
    session: SessionView,
    cfg: TransportConfig,
    now: u64,
    steps: Seq<Step>,
    missing: Seq<u32>,
)
    requires
        fits_blob(blob, session),
        machine::lawful(transport::send_start(blob, session, cfg, now), steps),
        machine::after(transport::send_start(blob, session, cfg, now), steps).pending() is None,
        machine::after(transport::send_start(blob, session, cfg, now), steps).verdict() == Err::<
            (),
            ErrorView,
        >(ErrorView::Stalled(missing)),
    ensures
        barren_waits(cfg, now, steps) >= 20,
        names_the_holes(session, steps, missing),
        missing.len() > 0,
{
    fitting_sessions(blob, session);
    let start = transport::send_start(blob, session, cfg, now);
    assert(steps.len() > 0);
    the_history_tells(blob, session, cfg, now, steps.drop_last());
    the_history_tells(blob, session, cfg, now, steps);
    let before = machine::after(start, steps.drop_last());
    let s = machine::after(start, steps);
    assert(s.at.phase == SendPhase::Over(SendEnd::Stalled));
    assert(before.at.phase is AwaitAck);
    assert(open_base(steps) == open_base(steps.drop_last()));
    law_what_follows_a_wait(blob, session, cfg, now, steps);
    if missing.len() == 0 {
        assert forall|seq: u32| !#[trigger] hole(session, steps, seq) by {
            assert(!missing.contains(seq));
        }
    }
}

} // verus!
