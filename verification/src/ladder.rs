//! How a transfer that fails is tried again: which failures lead to another
//! attempt, under which settings, and when the last word is said.
use crate::error;
use crate::error::ErrorView;
use crate::link;
use crate::link::{LinkConfig, SessionView};
use crate::link_recv;
use crate::link_send;
use crate::optical::{Answer, Call, Turn};
use crate::qr::SUPPORTED_VERSIONS;
use crate::receive;
use crate::session;
use crate::session::Cargo;
use crate::text;
use crate::transport;
use crate::transport::TransportConfig;
use vstd::prelude::*;

verus! {

/// Whether a more conservative attempt could fix `err`: something on the way was
/// not read, or not in time, or not as it was shown.
pub open spec fn mendable(err: ErrorView) -> bool {
    ||| err is Stalled
    ||| err is HandshakeTimeout
    ||| err is HandshakeFailed
    ||| err is NoUsableProbe
    ||| err is BadFrame
    ||| err is HashMismatch
}

/// The next smaller version.
pub open spec fn one_rung_down(version: u8) -> u8 {
    if version == 40 {
        30
    } else if version == 30 {
        25
    } else if version == 25 {
        20
    } else if version == 20 {
        15
    } else {
        10
    }
}

/// The largest version that a terminal can draw; the smallest there is, if it
/// can draw none.
pub open spec fn top_rung(terminal_max: u8) -> u8 {
    if terminal_max >= 40 {
        40
    } else if terminal_max >= 30 {
        30
    } else if terminal_max >= 25 {
        25
    } else if terminal_max >= 20 {
        20
    } else if terminal_max >= 15 {
        15
    } else {
        10
    }
}

/// The largest version of attempt `attempt`: one rung further down each time.
pub open spec fn rung(attempt: nat, terminal_max: u8) -> u8
    decreases attempt,
{
    if attempt == 0 {
        top_rung(terminal_max)
    } else {
        one_rung_down(rung((attempt - 1) as nat, terminal_max))
    }
}

/// How long each code of attempt `attempt` stays on screen at least, in
/// milliseconds: no matter at first, then longer each time, up to 1.5 s.
pub open spec fn dwell_floor(attempt: nat) -> u16 {
    if attempt == 0 {
        0
    } else if attempt >= 9 {
        1500
    } else {
        (150 + 150 * attempt) as u16
    }
}

/// The settings of the handshake of attempt `attempt`.
pub open spec fn easier_link(attempt: nat, terminal_max: u8) -> LinkConfig {
    LinkConfig {
        fast: false,
        patient: true,
        max_qr_version: rung(attempt, terminal_max),
        dwell_floor_ms: dwell_floor(attempt),
    }
}

/// The settings of the transfer of attempt `attempt`: only the first one asks
/// for the operator's go-ahead.
pub open spec fn transfer_settings(attempt: nat) -> TransportConfig {
    TransportConfig { fast: false, gated: attempt == 0 }
}

/// The turn that puts `line` into the transcript.
pub open spec fn noted(line: Seq<char>) -> Turn {
    Turn { call: Call::Log(line), answer: Ok(Answer::Done) }
}

/// What the transcript says between attempt `attempt`, which failed with `err`,
/// and the next one.
pub open spec fn interlude(attempt: nat, terminal_max: u8, err: ErrorView) -> Seq<Turn> {
    seq![
        noted("attempt "@ + text::decimal(attempt + 1) + " failed: "@ + error::message_of(err)),
        noted(
            "retry "@ + text::decimal(attempt + 2) + "/"@ + text::decimal(10) + ": QR v"@
                + text::decimal(rung(attempt + 1, terminal_max) as nat) + " max, "@ + text::decimal(
                dwell_floor(attempt + 1) as nat,
            ) + " ms per code"@,
        ),
    ]
}

proof fn rungs_of_the_table(terminal_max: u8)
    ensures
        SUPPORTED_VERSIONS@.len() == 6,
        SUPPORTED_VERSIONS@[0] == 10,
        SUPPORTED_VERSIONS@[1] == 15,
        SUPPORTED_VERSIONS@[2] == 20,
        SUPPORTED_VERSIONS@[3] == 25,
        SUPPORTED_VERSIONS@[4] == 30,
        SUPPORTED_VERSIONS@[5] == 40,
{
}

/// Each attempt is easier to read than the one before: the version goes down one
/// rung at a time from the largest that the terminal can draw to the smallest
/// there is, and the dwell goes up to its ceiling.
pub proof fn law_each_attempt_takes_the_next_rung(attempt: nat, terminal_max: u8)
    ensures
        link::plan_for(attempt, terminal_max).max_qr_version == rung(attempt, terminal_max),
        link::plan_for(attempt, terminal_max).dwell_floor_ms == dwell_floor(attempt),
        session::link_settings(attempt, terminal_max) == easier_link(attempt, terminal_max),
        session::transport_settings(attempt) == transfer_settings(attempt),
    decreases attempt,
{
    rungs_of_the_table(terminal_max);
    link::rungs_are_a_prefix(terminal_max);
    let n = link::rungs_below(terminal_max, 6);
    assert(SUPPORTED_VERSIONS@[0] <= terminal_max <==> 0 < n);
    assert(SUPPORTED_VERSIONS@[1] <= terminal_max <==> 1 < n);
    assert(SUPPORTED_VERSIONS@[2] <= terminal_max <==> 2 < n);
    assert(SUPPORTED_VERSIONS@[3] <= terminal_max <==> 3 < n);
    assert(SUPPORTED_VERSIONS@[4] <= terminal_max <==> 4 < n);
    assert(SUPPORTED_VERSIONS@[5] <= terminal_max <==> 5 < n);
    if attempt > 0 {
        law_each_attempt_takes_the_next_rung((attempt - 1) as nat, terminal_max);
    }
}

/// Another attempt is made for the failures that one could fix, and for no
/// others.
pub proof fn law_what_is_worth_another_attempt(err: ErrorView)
    ensures
        link::retryable(err) <==> mendable(err),
{
}

/// One attempt at sending: a handshake under the attempt's settings and, if that
/// links, a transfer of the whole blob under the terms it arrived at. What goes
/// wrong in either is the outcome; otherwise it is the session.
pub open spec fn tried_to_send(
    cargo: Cargo,
    terminal_max: u8,
    attempt: nat,
    before: Seq<Turn>,
    mid: Seq<Turn>,
    after: Seq<Turn>,
    outcome: std::result::Result<SessionView, ErrorView>,
) -> bool {
    ||| after == mid && outcome is Err && link_send::offer_made(
        cargo.basename,
        cargo.uncompressed_hint,
        cargo.blob.len() as u64,
        cargo.sha256,
        easier_link(attempt, terminal_max),
        before,
        mid,
        outcome,
    )
    ||| exists|session: SessionView, sent: std::result::Result<(), ErrorView>|
        {
            &&& link_send::offer_made(
                cargo.basename,
                cargo.uncompressed_hint,
                cargo.blob.len() as u64,
                cargo.sha256,
                easier_link(attempt, terminal_max),
                before,
                mid,
                Ok(session),
            )
            &&& #[trigger] transport::blob_sent(
                cargo.blob,
                session,
                transfer_settings(attempt),
                mid,
                after,
                sent,
            )
            &&& sent is Ok ==> outcome == Ok::<SessionView, ErrorView>(session)
            &&& sent is Err ==> outcome == Err::<SessionView, ErrorView>(sent->Err_0)
        }
}

/// One attempt at receiving.
pub open spec fn tried_to_receive(
    outdir: Seq<char>,
    force: bool,
    terminal_max: u8,
    attempt: nat,
    before: Seq<Turn>,
    mid: Seq<Turn>,
    after: Seq<Turn>,
    outcome: std::result::Result<(SessionView, Seq<u8>), ErrorView>,
) -> bool {
    ||| after == mid && outcome is Err && link_recv::offer_taken(
        outdir,
        force,
        easier_link(attempt, terminal_max),
        before,
        mid,
        Err(outcome->Err_0),
    )
    ||| exists|session: SessionView, received: std::result::Result<Seq<u8>, ErrorView>|
        {
            &&& link_recv::offer_taken(
                outdir,
                force,
                easier_link(attempt, terminal_max),
                before,
                mid,
                Ok(session),
            )
            &&& #[trigger] receive::blob_received(
                session,
                transfer_settings(attempt),
                mid,
                after,
                received,
            )
            &&& received is Ok ==> outcome == Ok::<(SessionView, Seq<u8>), ErrorView>(
                (session, received->Ok_0),
            )
            &&& received is Err ==> outcome == Err::<(SessionView, Seq<u8>), ErrorView>(
                received->Err_0,
            )
        }
}

/// One attempt of a ladder as the channel saw it: what the trace was before,
/// when the handshake was over, and after, and the error it failed with, if it
/// did.
#[verifier::ext_equal]
pub struct Rung {
    pub before: Seq<Turn>,
    pub mid: Seq<Turn>,
    pub after: Seq<Turn>,
    pub failure: Option<ErrorView>,
}

/// Whether `rungs` are attempts that follow each other from number `first` on:
/// each but the last failed in a way that another could mend, and the next one
/// began where the transcript said so.
pub open spec fn climbed(
    terminal_max: u8,
    first: nat,
    before: Seq<Turn>,
    after: Seq<Turn>,
    rungs: Seq<Rung>,
) -> bool {
    &&& 0 < rungs.len() <= 10 - first
    &&& rungs[0].before == before
    &&& rungs.last().after == after
    &&& forall|k: int|
        0 <= k < rungs.len() - 1 ==> (#[trigger] rungs[k]).failure is Some && mendable(
            rungs[k].failure->0,
        ) && rungs[k + 1].before == rungs[k].after + interlude(
            (first + k) as nat,
            terminal_max,
            rungs[k].failure->0,
        )
    &&& rungs.last().failure matches Some(err) ==> mendable(err) ==> rungs.len() == 10 - first
}

proof fn climbing_on(
    terminal_max: u8,
    first: nat,
    after: Seq<Turn>,
    here: Rung,
    rest: Seq<Rung>,
)
    requires
        here.failure is Some,
        mendable(here.failure->0),
        climbed(
            terminal_max,
            first + 1,
            here.after + interlude(first, terminal_max, here.failure->0),
            after,
            rest,
        ),
    ensures
        climbed(terminal_max, first, here.before, after, seq![here] + rest),
        (seq![here] + rest).last() == rest.last(),
{
    let rungs = seq![here] + rest;
    assert(rungs.last() == rest.last());
    assert forall|k: int| 0 <= k < rungs.len() - 1 implies (#[trigger] rungs[k]).failure is Some
        && mendable(rungs[k].failure->0) && rungs[k + 1].before == rungs[k].after + interlude(
        (first + k) as nat,
        terminal_max,
        rungs[k].failure->0,
    ) by {
        assert(rungs[k + 1] == rest[k]);
        if k > 0 {
            assert(rungs[k] == rest[k - 1]);
            assert((first + 1 + (k - 1)) as nat == (first + k) as nat);
        }
    }
}

/// What `send_with_fallback` does as a whole. Attempts follow each other, each
/// under the settings of its rung, as long as they fail in a way that another
/// could mend: a stall, a handshake that timed out or failed, no usable probe, a
/// bad frame, a wrong digest. Such a failure is the result only of the tenth
/// attempt. Any other failure, and every success, is the result at once, and a
/// success names the attempt.
#[verifier::rlimit(40)]
pub proof fn law_sending_climbs_down_the_ladder(
    cargo: Cargo,
    terminal_max: u8,
    first: nat,
    before: Seq<Turn>,
    after: Seq<Turn>,
    result: std::result::Result<(SessionView, nat), ErrorView>,
) -> (rungs: Seq<Rung>)
    requires
        first < 10,
        session::sent_from(cargo, terminal_max, first, before, after, result),
    ensures
        climbed(terminal_max, first, before, after, rungs),
        forall|k: int|
            0 <= k < rungs.len() && (#[trigger] rungs[k]).failure is Some ==> tried_to_send(
                cargo,
                terminal_max,
                (first + k) as nat,
                rungs[k].before,
                rungs[k].mid,
                rungs[k].after,
                Err(rungs[k].failure->0),
            ),
        match rungs.last().failure {
            Some(err) => result == Err::<(SessionView, nat), ErrorView>(err),
            None => result is Ok && ({
                let (session, attempt) = result->Ok_0;
                &&& attempt == first + rungs.len() - 1
                &&& tried_to_send(
                    cargo,
                    terminal_max,
                    attempt,
                    rungs.last().before,
                    rungs.last().mid,
                    rungs.last().after,
                    Ok(session),
                )
            }),
        },
    decreases 10 - first,
{
    let (stop, outcome) = choose|
        mid: Seq<Turn>,
        outcome: std::result::Result<SessionView, ErrorView>,
    |
        #[trigger] session::send_attempted(cargo, terminal_max, first, before, mid, outcome)
            && match outcome {
            Ok(session) => after == mid && result == Ok::<(SessionView, nat), ErrorView>(
                (session, first),
            ),
            Err(e) => if session::goes_on(first, e) {
                session::sent_from(
                    cargo,
                    terminal_max,
                    first + 1,
                    mid + session::retry_notes(first, terminal_max, e),
                    after,
                    result,
                )
            } else {
                after == mid && result == Err::<(SessionView, nat), ErrorView>(e)
            },
        };
    let mid = a_sending_attempt(cargo, terminal_max, first, before, stop, outcome);
    let failure = match outcome {
        Ok(_) => None,
        Err(e) => Some(e),
    };
    let here = Rung { before, mid, after: stop, failure };
    if outcome is Err && session::goes_on(first, outcome->Err_0) {
        let e = outcome->Err_0;
        law_each_attempt_takes_the_next_rung(first + 1, terminal_max);
        assert(session::retry_notes(first, terminal_max, e) =~= interlude(first, terminal_max, e));
        let rest = law_sending_climbs_down_the_ladder(
            cargo,
            terminal_max,
            first + 1,
            stop + session::retry_notes(first, terminal_max, e),
            after,
            result,
        );
        let rungs = seq![here] + rest;
        climbing_on(terminal_max, first, after, here, rest);
        assert forall|k: int|
            0 <= k < rungs.len() && (#[trigger] rungs[k]).failure is Some implies tried_to_send(
            cargo,
            terminal_max,
            (first + k) as nat,
            rungs[k].before,
            rungs[k].mid,
            rungs[k].after,
            Err(rungs[k].failure->0),
        ) by {
            if k > 0 {
                assert(rungs[k] == rest[k - 1]);
                assert((first + 1 + (k - 1)) as nat == (first + k) as nat);
            }
        }
        rungs
    } else {
        seq![here]
    }
}

proof fn a_sending_attempt(
    cargo: Cargo,
    terminal_max: u8,
    attempt: nat,
    before: Seq<Turn>,
    after: Seq<Turn>,
    outcome: std::result::Result<SessionView, ErrorView>,
) -> (mid: Seq<Turn>)
    requires
        session::send_attempted(cargo, terminal_max, attempt, before, after, outcome),
    ensures
        tried_to_send(cargo, terminal_max, attempt, before, mid, after, outcome),
{
    law_each_attempt_takes_the_next_rung(attempt, terminal_max);
    let (mid, offer) = choose|mid: Seq<Turn>, offer: std::result::Result<SessionView, ErrorView>|
        #[trigger] link_send::offer_made(
            cargo.basename,
            cargo.uncompressed_hint,
            cargo.blob.len() as u64,
            cargo.sha256,
            session::link_settings(attempt, terminal_max),
            before,
            mid,
            offer,
        ) && match offer {
            Ok(session) => session::send_concluded(
                cargo.blob,
                attempt,
                session,
                mid,
                after,
                outcome,
            ),
            Err(e) => after == mid && outcome == Err::<SessionView, ErrorView>(e),
        };
    mid
}

/// What `recv_with_fallback` does as a whole: it climbs down the same ladder.
#[verifier::rlimit(40)]
pub proof fn law_receiving_climbs_down_the_ladder(
    outdir: Seq<char>,
    force: bool,
    terminal_max: u8,
    first: nat,
    before: Seq<Turn>,
    after: Seq<Turn>,
    result: std::result::Result<(SessionView, nat, Seq<u8>), ErrorView>,
) -> (rungs: Seq<Rung>)
    requires
        first < 10,
        session::received_from(outdir, force, terminal_max, first, before, after, result),
    ensures
        climbed(terminal_max, first, before, after, rungs),
        forall|k: int|
            0 <= k < rungs.len() && (#[trigger] rungs[k]).failure is Some ==> tried_to_receive(
                outdir,
                force,
                terminal_max,
                (first + k) as nat,
                rungs[k].before,
                rungs[k].mid,
                rungs[k].after,
                Err(rungs[k].failure->0),
            ),
        match rungs.last().failure {
            Some(err) => result == Err::<(SessionView, nat, Seq<u8>), ErrorView>(err),
            None => result is Ok && ({
                let (session, attempt, blob) = result->Ok_0;
                &&& attempt == first + rungs.len() - 1
                &&& tried_to_receive(
                    outdir,
                    force,
                    terminal_max,
                    attempt,
                    rungs.last().before,
                    rungs.last().mid,
                    rungs.last().after,
                    Ok((session, blob)),
                )
            }),
        },
    decreases 10 - first,
{
    let (stop, outcome) = choose|
        mid: Seq<Turn>,
        outcome: std::result::Result<(SessionView, Seq<u8>), ErrorView>,
    |
        #[trigger] session::recv_attempted(
            outdir,
            force,
            terminal_max,
            first,
            before,
            mid,
            outcome,
        ) && match outcome {
            Ok(got) => after == mid && result == Ok::<(SessionView, nat, Seq<u8>), ErrorView>(
                (got.0, first, got.1),
            ),
            Err(e) => if session::goes_on(first, e) {
                session::received_from(
                    outdir,
                    force,
                    terminal_max,
                    first + 1,
                    mid + session::retry_notes(first, terminal_max, e),
                    after,
                    result,
                )
            } else {
                after == mid && result == Err::<(SessionView, nat, Seq<u8>), ErrorView>(e)
            },
        };
    let mid = a_receiving_attempt(outdir, force, terminal_max, first, before, stop, outcome);
    let failure = match outcome {
        Ok(_) => None,
        Err(e) => Some(e),
    };
    let here = Rung { before, mid, after: stop, failure };
    if outcome is Err && session::goes_on(first, outcome->Err_0) {
        let e = outcome->Err_0;
        law_each_attempt_takes_the_next_rung(first + 1, terminal_max);
        assert(session::retry_notes(first, terminal_max, e) =~= interlude(first, terminal_max, e));
        let rest = law_receiving_climbs_down_the_ladder(
            outdir,
            force,
            terminal_max,
            first + 1,
            stop + session::retry_notes(first, terminal_max, e),
            after,
            result,
        );
        let rungs = seq![here] + rest;
        climbing_on(terminal_max, first, after, here, rest);
        assert forall|k: int|
            0 <= k < rungs.len() && (#[trigger] rungs[k]).failure is Some implies tried_to_receive(
            outdir,
            force,
            terminal_max,
            (first + k) as nat,
            rungs[k].before,
            rungs[k].mid,
            rungs[k].after,
            Err(rungs[k].failure->0),
        ) by {
            if k > 0 {
                assert(rungs[k] == rest[k - 1]);
                assert((first + 1 + (k - 1)) as nat == (first + k) as nat);
            }
        }
        rungs
    } else {
        seq![here]
    }
}

proof fn a_receiving_attempt(
    outdir: Seq<char>,
    force: bool,
    terminal_max: u8,
    attempt: nat,
    before: Seq<Turn>,
    after: Seq<Turn>,
    outcome: std::result::Result<(SessionView, Seq<u8>), ErrorView>,
) -> (mid: Seq<Turn>)
    requires
        session::recv_attempted(outdir, force, terminal_max, attempt, before, after, outcome),
    ensures
        tried_to_receive(outdir, force, terminal_max, attempt, before, mid, after, outcome),
{
    law_each_attempt_takes_the_next_rung(attempt, terminal_max);
    let (mid, offer) = choose|mid: Seq<Turn>, offer: std::result::Result<SessionView, ErrorView>|
        #[trigger] link_recv::offer_taken(
            outdir,
            force,
            session::link_settings(attempt, terminal_max),
            before,
            mid,
            offer,
        ) && match offer {
            Ok(session) => session::recv_concluded(attempt, session, mid, after, outcome),
            Err(e) => after == mid && outcome == Err::<(SessionView, Seq<u8>), ErrorView>(e),
        };
    mid
}

} // verus!
