//! When the operator is asked: once at most in sending, however often the
//! transfer is tried, and never in receiving.
use crate::delivery;
use crate::error::ErrorView;
use crate::link::{LinkConfig, SessionView, MAX_ATTEMPTS};
use crate::link_recv;
use crate::link_recv::AcceptState;
use crate::link_send;
use crate::link_send::OfferState;
use crate::machine;
use crate::machine::{Protocol, Step};
use crate::optical::Turn;
use crate::receive;
use crate::receive::RecvState;
use crate::session;
use crate::session::Cargo;
use crate::transport;
use crate::transport::{SendState, TransportConfig};
use vstd::prelude::*;

verus! {

/// Whether `turn` asked the operator something.
pub open spec fn asks(turn: Turn) -> bool {
    turn.call is Gate
}

/// Whether `now` is `before` and then some.
pub open spec fn grown(before: Seq<Turn>, now: Seq<Turn>) -> bool {
    &&& before.len() <= now.len()
    &&& forall|i: int| 0 <= i < before.len() ==> #[trigger] now[i] == before[i]
}

/// Whether nothing was asked while the trace went from `before` to `now`.
pub open spec fn silent(before: Seq<Turn>, now: Seq<Turn>) -> bool {
    &&& grown(before, now)
    &&& forall|i: int| before.len() <= i < now.len() ==> !asks(#[trigger] now[i])
}

/// Whether at most one thing was asked while the trace went from `before` to
/// `now`.
pub open spec fn asked_once(before: Seq<Turn>, now: Seq<Turn>) -> bool {
    &&& grown(before, now)
    &&& forall|i: int, j: int|
        before.len() <= i < now.len() && before.len() <= j < now.len() && asks(#[trigger] now[i])
            && asks(#[trigger] now[j]) ==> i == j
}

proof fn offering_is_silent(
    basename: Seq<char>,
    uncompressed_hint: u64,
    compressed_size: u64,
    sha256: Seq<u8>,
    cfg: LinkConfig,
    before: Seq<Turn>,
    after: Seq<Turn>,
    result: std::result::Result<SessionView, ErrorView>,
)
    requires
        link_send::offer_made(
            basename,
            uncompressed_hint,
            compressed_size,
            sha256,
            cfg,
            before,
            after,
            result,
        ),
    ensures
        silent(before, after),
{
    let (now, end, outcome) = choose|
        now: u64,
        end: OfferState,
        outcome: std::result::Result<(), ErrorView>,
    |
        #[trigger] machine::ran_on(
            link_send::offer_start(
                basename,
                uncompressed_hint,
                compressed_size,
                sha256,
                cfg,
                now,
            ),
            before,
            after,
            end,
            outcome,
        ) && result == match outcome {
            Ok(_) => end.verdict(),
            Err(e) => Err(e),
        };
    let start = link_send::offer_start(
        basename,
        uncompressed_hint,
        compressed_size,
        sha256,
        cfg,
        now,
    );
    machine::runs_extend(start, before, after, end, outcome);
    assert forall|i: int| before.len() <= i < after.len() implies !asks(#[trigger] after[i]) by {
        let state = machine::requests_are_pending(start, before, after, end, outcome, i);
        assert(!(state.pending()->0 is Gate));
    }
}

/// A transfer asks the operator at most once, and only if it is gated.
pub proof fn law_a_transfer_asks_once(
    blob: Seq<u8>,
    session: SessionView,
    cfg: TransportConfig,
    before: Seq<Turn>,
    after: Seq<Turn>,
    result: std::result::Result<(), ErrorView>,
)
    requires
        transport::blob_sent(blob, session, cfg, before, after, result),
    ensures
        asked_once(before, after),
        !cfg.gated ==> silent(before, after),
{
    if transport::describes(session, blob.len()) {
        let (now, end, outcome) = choose|
            now: u64,
            end: SendState,
            outcome: std::result::Result<(), ErrorView>,
        |
            #[trigger] machine::ran_on(
                transport::send_start(blob, session, cfg, now),
                before,
                after,
                end,
                outcome,
            ) && result == match outcome {
                Ok(_) => end.verdict(),
                Err(e) => Err(e),
            };
        let start = transport::send_start(blob, session, cfg, now);
        let steps = choose|steps: Seq<Step>|
            after == before + machine::turns_of(steps) && #[trigger] machine::ran(
                start,
                steps,
                end,
                outcome,
            );
        let answered = if machine::lawful(start, steps) {
            steps
        } else {
            steps.drop_last()
        };
        delivery::law_the_operator_is_asked_once(blob, session, cfg, now, answered);
        assert forall|i: int| before.len() <= i < after.len() && asks(#[trigger] after[i]) implies i
            == before.len() && cfg.gated by {
            let k = i - before.len();
            assert(after[i] == steps[k].turn);
            if k < answered.len() {
                assert(answered[k] == steps[k]);
            }
        }
    }
}

proof fn an_attempt_asks_once(
    cargo: Cargo,
    terminal_max: u8,
    attempt: nat,
    before: Seq<Turn>,
    after: Seq<Turn>,
    outcome: std::result::Result<SessionView, ErrorView>,
)
    requires
        session::send_attempted(cargo, terminal_max, attempt, before, after, outcome),
    ensures
        asked_once(before, after),
        attempt > 0 ==> silent(before, after),
{
    let (mid, offer) = choose|
        mid: Seq<Turn>,
        offer: std::result::Result<SessionView, ErrorView>,
    |
        #[trigger] link_send::offer_made(
            cargo.basename,
            cargo.uncompressed_hint,
            cargo.blob.len() as u64,
            cargo.sha256,
            session::link_settings(attempt, terminal_max),
            before,
            mid,
            offer,
        ) && match offer {
            Ok(session) => session::send_concluded(
                cargo.blob,
                attempt,
                session,
                mid,
                after,
                outcome,
            ),
            Err(e) => after == mid && outcome == Err::<SessionView, ErrorView>(e),
        };
    offering_is_silent(
        cargo.basename,
        cargo.uncompressed_hint,
        cargo.blob.len() as u64,
        cargo.sha256,
        session::link_settings(attempt, terminal_max),
        before,
        mid,
        offer,
    );
    if let Ok(terms) = offer {
        let sent = choose|sent: std::result::Result<(), ErrorView>|
            #[trigger] transport::blob_sent(
                cargo.blob,
                terms,
                session::transport_settings(attempt),
                mid,
                after,
                sent,
            ) && outcome == match sent {
                Ok(_) => Ok(terms),
                Err(e) => Err(e),
            };
        law_a_transfer_asks_once(
            cargo.blob,
            terms,
            session::transport_settings(attempt),
            mid,
            after,
            sent,
        );
        silent_then_once(before, mid, after);
        if attempt > 0 {
            silent_then_silent(before, mid, after);
        }
    }
}

proof fn silent_then_once(before: Seq<Turn>, mid: Seq<Turn>, after: Seq<Turn>)
    requires
        silent(before, mid),
        asked_once(mid, after),
    ensures
        asked_once(before, after),
{
    assert forall|i: int| 0 <= i < before.len() implies #[trigger] after[i] == before[i] by {
        assert(mid[i] == before[i]);
    }
    assert forall|i: int| before.len() <= i < after.len() && asks(#[trigger] after[i]) implies
        mid.len() <= i by {
        if i < mid.len() {
            assert(after[i] == mid[i]);
        }
    }
}

proof fn once_then_silent(before: Seq<Turn>, mid: Seq<Turn>, after: Seq<Turn>)
    requires
        asked_once(before, mid),
        silent(mid, after),
    ensures
        asked_once(before, after),
{
    assert forall|i: int| 0 <= i < before.len() implies #[trigger] after[i] == before[i] by {
        assert(mid[i] == before[i]);
    }
    assert forall|i: int, j: int|
        before.len() <= i < after.len() && before.len() <= j < after.len() && asks(
            #[trigger] after[i],
        ) && asks(#[trigger] after[j]) implies i == j by {
        assert(i < mid.len() && j < mid.len());
        assert(after[i] == mid[i] && after[j] == mid[j]);
    }
}

proof fn silent_then_silent(before: Seq<Turn>, mid: Seq<Turn>, after: Seq<Turn>)
    requires
        silent(before, mid),
        silent(mid, after),
    ensures
        silent(before, after),
{
    assert forall|i: int| 0 <= i < before.len() implies #[trigger] after[i] == before[i] by {
        assert(mid[i] == before[i]);
    }
    assert forall|i: int| before.len() <= i < after.len() implies !asks(#[trigger] after[i]) by {
        if i < mid.len() {
            assert(after[i] == mid[i]);
        }
    }
}

proof fn notes_are_silent(attempt: nat, terminal_max: u8, err: ErrorView, before: Seq<Turn>)
    ensures
        silent(before, before + session::retry_notes(attempt, terminal_max, err)),
{
}

/// Sending asks the operator at most once, over all attempts, and an attempt
/// after the first asks nothing.
pub proof fn law_sending_asks_once(
    cargo: Cargo,
    terminal_max: u8,
    attempt: nat,
    before: Seq<Turn>,
    after: Seq<Turn>,
    result: std::result::Result<(SessionView, nat), ErrorView>,
)
    requires
        session::sent_from(cargo, terminal_max, attempt, before, after, result),
    ensures
        asked_once(before, after),
        attempt > 0 ==> silent(before, after),
    decreases MAX_ATTEMPTS - attempt,
{
    let (mid, outcome) = choose|
        mid: Seq<Turn>,
        outcome: std::result::Result<SessionView, ErrorView>,
    |
        #[trigger] session::send_attempted(cargo, terminal_max, attempt, before, mid, outcome)
            && match outcome {
            Ok(session) => after == mid && result == Ok::<(SessionView, nat), ErrorView>(
                (session, attempt),
            ),
            Err(e) => if session::goes_on(attempt, e) {
                session::sent_from(
                    cargo,
                    terminal_max,
                    attempt + 1,
                    mid + session::retry_notes(attempt, terminal_max, e),
                    after,
                    result,
                )
            } else {
                after == mid && result == Err::<(SessionView, nat), ErrorView>(e)
            },
        };
    an_attempt_asks_once(cargo, terminal_max, attempt, before, mid, outcome);
    if let Err(e) = outcome {
        if session::goes_on(attempt, e) {
            let noted = mid + session::retry_notes(attempt, terminal_max, e);
            notes_are_silent(attempt, terminal_max, e, mid);
            law_sending_asks_once(cargo, terminal_max, attempt + 1, noted, after, result);
            silent_then_silent(mid, noted, after);
            once_then_silent(before, mid, after);
            if attempt > 0 {
                silent_then_silent(before, mid, after);
            }
        }
    }
}

proof fn accepting_is_silent(
    start: AcceptState,
    before: Seq<Turn>,
    after: Seq<Turn>,
    end: AcceptState,
    outcome: std::result::Result<(), ErrorView>,
)
    requires
        machine::ran_on(start, before, after, end, outcome),
    ensures
        silent(before, after),
{
    machine::runs_extend(start, before, after, end, outcome);
    assert forall|i: int| before.len() <= i < after.len() implies !asks(#[trigger] after[i]) by {
        let state = machine::requests_are_pending(start, before, after, end, outcome, i);
        assert(!(state.pending()->0 is Gate));
    }
}

proof fn taking_is_silent(
    outdir: Seq<char>,
    force: bool,
    cfg: LinkConfig,
    before: Seq<Turn>,
    after: Seq<Turn>,
    result: std::result::Result<SessionView, ErrorView>,
)
    requires
        link_recv::offer_taken(outdir, force, cfg, before, after, result),
    ensures
        silent(before, after),
{
    let (now, mid, offered, outcome) = choose|
        now: u64,
        mid: Seq<Turn>,
        offered: AcceptState,
        outcome: std::result::Result<(), ErrorView>,
    |
        #[trigger] machine::ran_on(
            link_recv::accept_start(cfg, now),
            before,
            mid,
            offered,
            outcome,
        ) && match outcome {
            Ok(_) => if offered.at.phase is Offered {
                exists|dest: Seq<char>, taken: bool| #[trigger]
                    link_recv::offer_answered(dest, force, taken, offered, mid, after, result)
            } else {
                after == mid && result == offered.verdict(Seq::empty())
            },
            Err(e) => after == mid && result == Err::<SessionView, ErrorView>(e),
        };
    accepting_is_silent(link_recv::accept_start(cfg, now), before, mid, offered, outcome);
    if outcome is Ok && offered.at.phase is Offered {
        let (dest, taken) = choose|dest: Seq<char>, taken: bool| #[trigger]
            link_recv::offer_answered(dest, force, taken, offered, mid, after, result);
        let second = offered.decided(taken, force);
        let (end, last) = choose|end: AcceptState, last: std::result::Result<(), ErrorView>|
            #[trigger] machine::ran_on(second, mid, after, end, last) && result == match last {
                Ok(_) => end.verdict(dest),
                Err(e) => Err(e),
            };
        accepting_is_silent(second, mid, after, end, last);
        silent_then_silent(before, mid, after);
    }
}

proof fn receiving_is_silent(
    terms: SessionView,
    cfg: TransportConfig,
    before: Seq<Turn>,
    after: Seq<Turn>,
    result: std::result::Result<Seq<u8>, ErrorView>,
)
    requires
        receive::blob_received(terms, cfg, before, after, result),
    ensures
        silent(before, after),
{
    if receive::receivable(terms) {
        let (now, end, outcome) = choose|
            now: u64,
            end: RecvState,
            outcome: std::result::Result<(), ErrorView>,
        |
            #[trigger] machine::ran_on(
                receive::recv_start(terms, cfg, now),
                before,
                after,
                end,
                outcome,
            ) && result == match outcome {
                Ok(_) => end.verdict(),
                Err(e) => Err(e),
            };
        let start = receive::recv_start(terms, cfg, now);
        machine::runs_extend(start, before, after, end, outcome);
        assert forall|i: int| before.len() <= i < after.len() implies !asks(#[trigger] after[i]) by {
            let state = machine::requests_are_pending(start, before, after, end, outcome, i);
            assert(!(state.pending()->0 is Gate));
        }
    }
}

/// Receiving asks the operator nothing, over all attempts.
pub proof fn law_receiving_asks_nothing(
    outdir: Seq<char>,
    force: bool,
    terminal_max: u8,
    attempt: nat,
    before: Seq<Turn>,
    after: Seq<Turn>,
    result: std::result::Result<(SessionView, nat, Seq<u8>), ErrorView>,
)
    requires
        session::received_from(outdir, force, terminal_max, attempt, before, after, result),
    ensures
        silent(before, after),
    decreases MAX_ATTEMPTS - attempt,
{
    let (mid, outcome) = choose|
        mid: Seq<Turn>,
        outcome: std::result::Result<(SessionView, Seq<u8>), ErrorView>,
    |
        #[trigger] session::recv_attempted(
            outdir,
            force,
            terminal_max,
            attempt,
            before,
            mid,
            outcome,
        ) && match outcome {
            Ok(got) => after == mid && result == Ok::<(SessionView, nat, Seq<u8>), ErrorView>(
                (got.0, attempt, got.1),
            ),
            Err(e) => if session::goes_on(attempt, e) {
                session::received_from(
                    outdir,
                    force,
                    terminal_max,
                    attempt + 1,
                    mid + session::retry_notes(attempt, terminal_max, e),
                    after,
                    result,
                )
            } else {
                after == mid && result == Err::<(SessionView, nat, Seq<u8>), ErrorView>(e)
            },
        };
    let cfg = session::link_settings(attempt, terminal_max);
    let (agreed, offer) = choose|
        agreed: Seq<Turn>,
        offer: std::result::Result<SessionView, ErrorView>,
    |
        #[trigger] link_recv::offer_taken(outdir, force, cfg, before, agreed, offer)
            && match offer {
            Ok(session) => session::recv_concluded(attempt, session, agreed, mid, outcome),
            Err(e) => mid == agreed && outcome == Err::<(SessionView, Seq<u8>), ErrorView>(e),
        };
    taking_is_silent(outdir, force, cfg, before, agreed, offer);
    if let Ok(terms) = offer {
        let transport_cfg = session::transport_settings(attempt);
        let received = choose|received: std::result::Result<Seq<u8>, ErrorView>|
            #[trigger] receive::blob_received(terms, transport_cfg, agreed, mid, received)
                && outcome == match received {
                Ok(blob) => Ok((terms, blob)),
                Err(e) => Err(e),
            };
        receiving_is_silent(terms, transport_cfg, agreed, mid, received);
        silent_then_silent(before, agreed, mid);
    }
    if let Err(e) = outcome {
        if session::goes_on(attempt, e) {
            let noted = mid + session::retry_notes(attempt, terminal_max, e);
            notes_are_silent(attempt, terminal_max, e, mid);
            law_receiving_asks_nothing(
                outdir,
                force,
                terminal_max,
                attempt + 1,
                noted,
                after,
                result,
            );
            silent_then_silent(mid, noted, after);
            silent_then_silent(before, mid, after);
        }
    }
}

} // verus!
