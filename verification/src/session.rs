//! One complete transfer attempt, and the fallback ladder around it.
//!
//! A stall means the receiver's camera did not get a readable look at every
//! code the sender put on screen. Nothing about that is fixable by trying the
//! same settings again, so each retry makes the optical channel easier to
//! read: a smaller QR version (fewer, larger modules) held on screen for
//! longer (more camera frames per code).
//!
//! Both sides walk the same ladder independently. They do not need to agree on
//! which rung they are on: the handshake re-runs from scratch every attempt,
//! and the negotiated version is whatever the *more* constrained side can
//! manage, so one peer stepping down is enough to bring the other with it.
use crate::delivery;
use crate::digest;
use crate::error;
use crate::error::{Error, ErrorView, Result};
use crate::link;
use crate::link::{Attempt, LinkConfig, Session, SessionView, MAX_ATTEMPTS};
use crate::link_recv;
use crate::link_send;
use crate::machine;
use crate::optical;
use crate::optical::{Answer, Call, Optical, Turn};
use crate::receive;
use crate::text;
use crate::transport;
use crate::transport::TransportConfig;
use vstd::prelude::*;

verus! {

/// What an attempt settled on, for the operator-facing summary.
#[derive(Debug)]
pub struct Completed {
    pub session: Session,
    /// Zero-based index of the attempt that worked.
    pub attempt: usize,
}

impl Clone for Completed {
    fn clone(&self) -> (copy: Self)
        ensures
            copy.session@ == self.session@,
            copy.attempt == self.attempt,
    {
        Completed { session: self.session.clone(), attempt: self.attempt }
    }
}

/// The link settings for attempt `attempt`.
pub open spec fn link_settings(attempt: nat, terminal_max: u8) -> LinkConfig {
    let plan = link::plan_for(attempt, terminal_max);
    LinkConfig {
        patient: true,
        max_qr_version: plan.max_qr_version,
        dwell_floor_ms: plan.dwell_floor_ms,
        ..link::default_link()
    }
}

/// The transport settings for attempt `attempt`.
pub open spec fn transport_settings(attempt: nat) -> TransportConfig {
    TransportConfig { fast: false, gated: attempt == 0 }
}

/// The link and transport settings for attempt `n`.
///
/// The first attempt is the interactive one: it waits for the operator to
/// confirm aiming, then (on the sender) to start the file. Handshake phases
/// and the receive side run unattended. Every retry is fully unattended:
/// having committed to the transfer once, being asked to re-confirm each
/// rung of the ladder would defeat the point of retrying automatically.
pub fn configs_for(attempt: usize, terminal_max: u8) -> (configs: (
    LinkConfig,
    TransportConfig,
    Attempt,
))
    ensures
        configs.0 == link_settings(attempt as nat, terminal_max),
        configs.1 == transport_settings(attempt as nat),
        configs.2 == link::plan_for(attempt as nat, terminal_max),
{
    let plan: Attempt = link::attempt_plan(attempt, terminal_max);
    let link_cfg: LinkConfig = if attempt == 0 {
        LinkConfig::gated(plan.max_qr_version)
    } else {
        LinkConfig::retry(plan)
    };
    let transport_cfg = TransportConfig { fast: false, gated: attempt == 0 };
    (link_cfg, transport_cfg, plan)
}

/// Only the first attempt asks the operator anything; every attempt waits as
/// patiently for the peer.
pub proof fn law_only_the_first_attempt_asks(attempt: nat, terminal_max: u8)
    ensures
        transport_settings(attempt).gated <==> attempt == 0,
        link_settings(attempt, terminal_max).patient,
        !link_settings(attempt, terminal_max).fast,
        link::hello_wait(link_settings(attempt, terminal_max)) == link::GATED_TIMEOUT,
{
}

pub open spec fn failed_line(attempt: nat, err: ErrorView) -> Seq<char> {
    "attempt "@ + text::decimal(attempt + 1) + " failed: "@ + error::message_of(err)
}

pub open spec fn retry_line(attempt: nat, next: Attempt) -> Seq<char> {
    "retry "@ + text::decimal(attempt + 2) + "/"@ + text::decimal(MAX_ATTEMPTS as nat) + ": QR v"@
        + text::decimal(next.max_qr_version as nat) + " max, "@ + text::decimal(
        next.dwell_floor_ms as nat,
    ) + " ms per code"@
}

/// What goes into the transcript when attempt `attempt` failed with `err`.
pub open spec fn retry_notes(attempt: nat, terminal_max: u8, err: ErrorView) -> Seq<Turn> {
    seq![
        optical::answered(Call::Log(failed_line(attempt, err)), Answer::Done),
        optical::answered(
            Call::Log(retry_line(attempt, link::plan_for(attempt + 1, terminal_max))),
            Answer::Done,
        ),
    ]
}

fn note_retry<O: Optical>(opt: &mut O, attempt: usize, next: Attempt, err: &Error)
    requires
        attempt < MAX_ATTEMPTS,
    ensures
        final(opt).trace() == old(opt).trace().push(
            optical::answered(Call::Log(failed_line(attempt as nat, err@)), Answer::Done),
        ).push(optical::answered(Call::Log(retry_line(attempt as nat, next)), Answer::Done)),
{
    let mut line = String::from_str("attempt ");
    text::push_decimal(&mut line, attempt as u64 + 1);
    line.append(" failed: ");
    line.append(err.message().as_str());
    opt.log(line.as_str());
    let mut line = String::from_str("retry ");
    text::push_decimal(&mut line, attempt as u64 + 2);
    line.append("/");
    text::push_decimal(&mut line, MAX_ATTEMPTS as u64);
    line.append(": QR v");
    text::push_decimal(&mut line, next.max_qr_version as u64);
    line.append(" max, ");
    text::push_decimal(&mut line, next.dwell_floor_ms as u64);
    line.append(" ms per code");
    opt.log(line.as_str());
}

/// Whether a failed attempt is followed by another one.
pub open spec fn goes_on(attempt: nat, err: ErrorView) -> bool {
    link::retryable(err) && attempt + 1 < MAX_ATTEMPTS
}

/// What is to be sent.
#[verifier::ext_equal]
pub struct Cargo {
    pub basename: Seq<char>,
    pub uncompressed_hint: u64,
    pub blob: Seq<u8>,
    pub sha256: Seq<u8>,
}

/// Whether a channel whose trace went from `before` to `after` saw the blob of
/// attempt `attempt` sent under the terms of `session`, with `outcome`.
pub open spec fn send_concluded(
    blob: Seq<u8>,
    attempt: nat,
    session: SessionView,
    before: Seq<Turn>,
    after: Seq<Turn>,
    outcome: std::result::Result<SessionView, ErrorView>,
) -> bool {
    exists|sent: std::result::Result<(), ErrorView>|
        #[trigger] transport::blob_sent(
            blob,
            session,
            transport_settings(attempt),
            before,
            after,
            sent,
        ) && outcome == match sent {
            Ok(_) => Ok(session),
            Err(e) => Err(e),
        }
}

/// Whether a channel whose trace went from `before` to `after` saw attempt
/// `attempt` at sending `cargo`, with `outcome`.
pub open spec fn send_attempted(
    cargo: Cargo,
    terminal_max: u8,
    attempt: nat,
    before: Seq<Turn>,
    after: Seq<Turn>,
    outcome: std::result::Result<SessionView, ErrorView>,
) -> bool {
    exists|mid: Seq<Turn>, offer: std::result::Result<SessionView, ErrorView>|
        #[trigger] link_send::offer_made(
            cargo.basename,
            cargo.uncompressed_hint,
            cargo.blob.len() as u64,
            cargo.sha256,
            link_settings(attempt, terminal_max),
            before,
            mid,
            offer,
        ) && match offer {
            Ok(session) => send_concluded(cargo.blob, attempt, session, mid, after, outcome),
            Err(e) => after == mid && outcome == Err::<SessionView, ErrorView>(e),
        }
}

/// Whether a channel whose trace went from `before` to `after` saw the ladder
/// walked from attempt `attempt` on, with `result`: each failure that another
/// attempt could fix is noted and followed by the next attempt, and anything
/// else is the result.
pub open spec fn sent_from(
    cargo: Cargo,
    terminal_max: u8,
    attempt: nat,
    before: Seq<Turn>,
    after: Seq<Turn>,
    result: std::result::Result<(SessionView, nat), ErrorView>,
) -> bool
    decreases MAX_ATTEMPTS - attempt,
{
    exists|mid: Seq<Turn>, outcome: std::result::Result<SessionView, ErrorView>|
        #[trigger] send_attempted(cargo, terminal_max, attempt, before, mid, outcome)
            && match outcome {
            Ok(session) => after == mid && result == Ok::<(SessionView, nat), ErrorView>(
                (session, attempt),
            ),
            Err(e) => if goes_on(attempt, e) {
                sent_from(
                    cargo,
                    terminal_max,
                    attempt + 1,
                    mid + retry_notes(attempt, terminal_max, e),
                    after,
                    result,
                )
            } else {
                after == mid && result == Err::<(SessionView, nat), ErrorView>(e)
            },
        }
}

/// A completed transfer as mathematical data.
pub open spec fn completed_outcome(result: Result<Completed>) -> std::result::Result<
    (SessionView, nat),
    ErrorView,
> {
    match result {
        Ok(done) => Ok((done.session@, done.attempt as nat)),
        Err(e) => Err(e@),
    }
}

fn send_attempt<O: Optical>(
    opt: &mut O,
    basename: &str,
    uncompressed_hint: u64,
    blob: &[u8],
    sha256: [u8; 32],
    terminal_max: u8,
    attempt: usize,
) -> (outcome: Result<Session>)
    ensures
        send_attempted(
            Cargo { basename: basename@, uncompressed_hint, blob: blob@, sha256: sha256@ },
            terminal_max,
            attempt as nat,
            old(opt).trace(),
            final(opt).trace(),
            link_send::session_outcome(outcome),
        ),
{
    let (link_cfg, transport_cfg, _) = configs_for(attempt, terminal_max);
    let name = String::from_str(basename);
    let ghost cargo = Cargo {
        basename: basename@,
        uncompressed_hint,
        blob: blob@,
        sha256: sha256@,
    };
    let offer: Result<Session> = link::run_send_handshake(
        opt,
        name,
        uncompressed_hint,
        blob,
        sha256,
        link_cfg,
    );
    assert(link_send::offer_made(
        cargo.basename,
        cargo.uncompressed_hint,
        cargo.blob.len() as u64,
        cargo.sha256,
        link_settings(attempt as nat, terminal_max),
        old(opt).trace(),
        opt.trace(),
        link_send::session_outcome(offer),
    ));
    let session: Session = match offer {
        Ok(session) => session,
        Err(e) => return Err(e),
    };
    let ghost mid: Seq<Turn> = opt.trace();
    let sent: Result<()> = transport::send_blob(opt, &session, blob, transport_cfg);
    assert(transport::blob_sent(
        cargo.blob,
        session@,
        transport_settings(attempt as nat),
        mid,
        opt.trace(),
        machine::outcome_of(sent),
    ));
    match sent {
        Ok(_) => Ok(session),
        Err(e) => Err(e),
    }
}

fn send_from<O: Optical>(
    opt: &mut O,
    basename: &str,
    uncompressed_hint: u64,
    blob: &[u8],
    sha256: [u8; 32],
    terminal_max: u8,
    attempt: usize,
) -> (result: Result<Completed>)
    requires
        attempt < MAX_ATTEMPTS,
    ensures
        sent_from(
            Cargo { basename: basename@, uncompressed_hint, blob: blob@, sha256: sha256@ },
            terminal_max,
            attempt as nat,
            old(opt).trace(),
            final(opt).trace(),
            completed_outcome(result),
        ),
    decreases MAX_ATTEMPTS - attempt,
{
    let outcome: Result<Session> = send_attempt(
        opt,
        basename,
        uncompressed_hint,
        blob,
        sha256,
        terminal_max,
        attempt,
    );
    let ghost mid: Seq<Turn> = opt.trace();
    match outcome {
        Ok(session) => Ok(Completed { session, attempt }),
        Err(err) => {
            if link::is_retryable(&err) && attempt + 1 < MAX_ATTEMPTS {
                let next: Attempt = link::attempt_plan(attempt + 1, terminal_max);
                note_retry(opt, attempt, next, &err);
                assert(opt.trace() == mid + retry_notes(attempt as nat, terminal_max, err@));
                send_from(
                    opt,
                    basename,
                    uncompressed_hint,
                    blob,
                    sha256,
                    terminal_max,
                    attempt + 1,
                )
            } else {
                Err(err)
            }
        },
    }
}

/// Sends `blob`, stepping down the ladder until it lands or the attempts run
/// out.
pub fn send_with_fallback<O: Optical>(
    opt: &mut O,
    basename: &str,
    uncompressed_hint: u64,
    blob: &[u8],
    sha256: [u8; 32],
    terminal_max: u8,
) -> (result: Result<Completed>)
    ensures
        sent_from(
            Cargo { basename: basename@, uncompressed_hint, blob: blob@, sha256: sha256@ },
            terminal_max,
            0,
            old(opt).trace(),
            final(opt).trace(),
            completed_outcome(result),
        ),
{
    send_from(opt, basename, uncompressed_hint, blob, sha256, terminal_max, 0)
}

/// Whether a channel whose trace went from `before` to `after` saw the blob of
/// attempt `attempt` received under the terms of `session`, with `outcome`.
pub open spec fn recv_concluded(
    attempt: nat,
    session: SessionView,
    before: Seq<Turn>,
    after: Seq<Turn>,
    outcome: std::result::Result<(SessionView, Seq<u8>), ErrorView>,
) -> bool {
    exists|received: std::result::Result<Seq<u8>, ErrorView>|
        #[trigger] receive::blob_received(
            session,
            transport_settings(attempt),
            before,
            after,
            received,
        ) && outcome == match received {
            Ok(blob) => Ok((session, blob)),
            Err(e) => Err(e),
        }
}

/// Whether a channel whose trace went from `before` to `after` saw attempt
/// `attempt` at receiving into `outdir`, with `outcome`.
pub open spec fn recv_attempted(
    outdir: Seq<char>,
    force: bool,
    terminal_max: u8,
    attempt: nat,
    before: Seq<Turn>,
    after: Seq<Turn>,
    outcome: std::result::Result<(SessionView, Seq<u8>), ErrorView>,
) -> bool {
    exists|mid: Seq<Turn>, offer: std::result::Result<SessionView, ErrorView>|
        #[trigger] link_recv::offer_taken(
            outdir,
            force,
            link_settings(attempt, terminal_max),
            before,
            mid,
            offer,
        ) && match offer {
            Ok(session) => recv_concluded(attempt, session, mid, after, outcome),
            Err(e) => after == mid && outcome == Err::<(SessionView, Seq<u8>), ErrorView>(e),
        }
}

/// Whether a channel whose trace went from `before` to `after` saw the ladder
/// walked from attempt `attempt` on, with `result`.
pub open spec fn received_from(
    outdir: Seq<char>,
    force: bool,
    terminal_max: u8,
    attempt: nat,
    before: Seq<Turn>,
    after: Seq<Turn>,
    result: std::result::Result<(SessionView, nat, Seq<u8>), ErrorView>,
) -> bool
    decreases MAX_ATTEMPTS - attempt,
{
    exists|mid: Seq<Turn>, outcome: std::result::Result<(SessionView, Seq<u8>), ErrorView>|
        #[trigger] recv_attempted(outdir, force, terminal_max, attempt, before, mid, outcome)
            && match outcome {
            Ok(got) => after == mid && result == Ok::<(SessionView, nat, Seq<u8>), ErrorView>(
                (got.0, attempt, got.1),
            ),
            Err(e) => if goes_on(attempt, e) {
                received_from(
                    outdir,
                    force,
                    terminal_max,
                    attempt + 1,
                    mid + retry_notes(attempt, terminal_max, e),
                    after,
                    result,
                )
            } else {
                after == mid && result == Err::<(SessionView, nat, Seq<u8>), ErrorView>(e)
            },
        }
}

/// A completed receipt as mathematical data.
pub open spec fn receipt_outcome(result: Result<(Completed, Vec<u8>)>) -> std::result::Result<
    (SessionView, nat, Seq<u8>),
    ErrorView,
> {
    match result {
        Ok(got) => Ok((got.0.session@, got.0.attempt as nat, got.1@)),
        Err(e) => Err(e@),
    }
}

pub open spec fn attempt_outcome(result: Result<(Session, Vec<u8>)>) -> std::result::Result<
    (SessionView, Seq<u8>),
    ErrorView,
> {
    match result {
        Ok(got) => Ok((got.0@, got.1@)),
        Err(e) => Err(e@),
    }
}

fn recv_attempt<O: Optical>(
    opt: &mut O,
    outdir: &str,
    force: bool,
    terminal_max: u8,
    attempt: usize,
) -> (outcome: Result<(Session, Vec<u8>)>)
    ensures
        recv_attempted(
            outdir@,
            force,
            terminal_max,
            attempt as nat,
            old(opt).trace(),
            final(opt).trace(),
            attempt_outcome(outcome),
        ),
{
    let (link_cfg, transport_cfg, _) = configs_for(attempt, terminal_max);
    let session: Session = match link::run_recv_handshake(opt, outdir, force, link_cfg) {
        Ok(session) => session,
        Err(e) => return Err(e),
    };
    let ghost mid: Seq<Turn> = opt.trace();
    let received: Result<Vec<u8>> = transport::recv_blob(opt, &session, transport_cfg);
    assert(receive::blob_received(
        session@,
        transport_settings(attempt as nat),
        mid,
        opt.trace(),
        receive::blob_outcome(received),
    ));
    match received {
        Ok(blob) => Ok((session, blob)),
        Err(e) => Err(e),
    }
}

fn recv_from<O: Optical>(
    opt: &mut O,
    outdir: &str,
    force: bool,
    terminal_max: u8,
    attempt: usize,
) -> (result: Result<(Completed, Vec<u8>)>)
    requires
        attempt < MAX_ATTEMPTS,
    ensures
        received_from(
            outdir@,
            force,
            terminal_max,
            attempt as nat,
            old(opt).trace(),
            final(opt).trace(),
            receipt_outcome(result),
        ),
    decreases MAX_ATTEMPTS - attempt,
{
    let outcome: Result<(Session, Vec<u8>)> = recv_attempt(
        opt,
        outdir,
        force,
        terminal_max,
        attempt,
    );
    let ghost mid: Seq<Turn> = opt.trace();
    match outcome {
        Ok((session, blob)) => Ok((Completed { session, attempt }, blob)),
        Err(err) => {
            if link::is_retryable(&err) && attempt + 1 < MAX_ATTEMPTS {
                let next: Attempt = link::attempt_plan(attempt + 1, terminal_max);
                note_retry(opt, attempt, next, &err);
                assert(opt.trace() == mid + retry_notes(attempt as nat, terminal_max, err@));
                recv_from(opt, outdir, force, terminal_max, attempt + 1)
            } else {
                Err(err)
            }
        },
    }
}

/// Receives a blob into `outdir`'s namespace, stepping down the same ladder.
///
/// Returns the blob rather than writing it: the caller owns the durable write
/// and is the only thing that may tell the sender OK.
pub fn recv_with_fallback<O: Optical>(
    opt: &mut O,
    outdir: &str,
    force: bool,
    terminal_max: u8,
) -> (result: Result<(Completed, Vec<u8>)>)
    ensures
        received_from(
            outdir@,
            force,
            terminal_max,
            0,
            old(opt).trace(),
            final(opt).trace(),
            receipt_outcome(result),
        ),
{
    recv_from(opt, outdir, force, terminal_max, 0)
}

/// A transfer that lands does so within the attempts there are.
pub proof fn law_attempts_are_bounded(
    cargo: Cargo,
    terminal_max: u8,
    attempt: nat,
    before: Seq<Turn>,
    after: Seq<Turn>,
    result: std::result::Result<(SessionView, nat), ErrorView>,
)
    requires
        attempt < MAX_ATTEMPTS,
        sent_from(cargo, terminal_max, attempt, before, after, result),
    ensures
        result matches Ok(done) ==> attempt <= done.1 < MAX_ATTEMPTS,
    decreases MAX_ATTEMPTS - attempt,
{
    let (mid, outcome) = choose|
        mid: Seq<Turn>,
        outcome: std::result::Result<SessionView, ErrorView>,
    |
        #[trigger] send_attempted(cargo, terminal_max, attempt, before, mid, outcome)
            && match outcome {
            Ok(session) => after == mid && result == Ok::<(SessionView, nat), ErrorView>(
                (session, attempt),
            ),
            Err(e) => if goes_on(attempt, e) {
                sent_from(
                    cargo,
                    terminal_max,
                    attempt + 1,
                    mid + retry_notes(attempt, terminal_max, e),
                    after,
                    result,
                )
            } else {
                after == mid && result == Err::<(SessionView, nat), ErrorView>(e)
            },
        };
    if let Err(e) = outcome {
        if goes_on(attempt, e) {
            law_attempts_are_bounded(
                cargo,
                terminal_max,
                attempt + 1,
                mid + retry_notes(attempt, terminal_max, e),
                after,
                result,
            );
        }
    }
}

/// What `recv_with_fallback` hands back was taken within the attempts there
/// are, has the size that was offered, and has the digest that was offered.
pub proof fn law_receipt_is_verified(
    outdir: Seq<char>,
    force: bool,
    terminal_max: u8,
    attempt: nat,
    before: Seq<Turn>,
    after: Seq<Turn>,
    session: SessionView,
    landed: nat,
    blob: Seq<u8>,
)
    requires
        attempt < MAX_ATTEMPTS,
        received_from(
            outdir,
            force,
            terminal_max,
            attempt,
            before,
            after,
            Ok((session, landed, blob)),
        ),
    ensures
        attempt <= landed < MAX_ATTEMPTS,
        blob.len() == session.compressed_size,
        digest::sha256_of(blob) == session.sha256,
    decreases MAX_ATTEMPTS - attempt,
{
    let (mid, outcome) = choose|
        mid: Seq<Turn>,
        outcome: std::result::Result<(SessionView, Seq<u8>), ErrorView>,
    |
        #[trigger] recv_attempted(outdir, force, terminal_max, attempt, before, mid, outcome)
            && match outcome {
            Ok(got) => after == mid && Ok::<(SessionView, nat, Seq<u8>), ErrorView>(
                (session, landed, blob),
            ) == Ok::<(SessionView, nat, Seq<u8>), ErrorView>((got.0, attempt, got.1)),
            Err(e) => if goes_on(attempt, e) {
                received_from(
                    outdir,
                    force,
                    terminal_max,
                    attempt + 1,
                    mid + retry_notes(attempt, terminal_max, e),
                    after,
                    Ok((session, landed, blob)),
                )
            } else {
                after == mid && Ok::<(SessionView, nat, Seq<u8>), ErrorView>(
                    (session, landed, blob),
                ) == Err::<(SessionView, nat, Seq<u8>), ErrorView>(e)
            },
        };
    match outcome {
        Ok(got) => {
            let (linked, offer) = choose|
                linked: Seq<Turn>,
                offer: std::result::Result<SessionView, ErrorView>,
            |
                #[trigger] link_recv::offer_taken(
                    outdir,
                    force,
                    link_settings(attempt, terminal_max),
                    before,
                    linked,
                    offer,
                ) && match offer {
                    Ok(terms) => recv_concluded(attempt, terms, linked, mid, outcome),
                    Err(e) => mid == linked && outcome == Err::<
                        (SessionView, Seq<u8>),
                        ErrorView,
                    >(e),
                };
            let received = choose|received: std::result::Result<Seq<u8>, ErrorView>|
                #[trigger] receive::blob_received(
                    offer->Ok_0,
                    transport_settings(attempt),
                    linked,
                    mid,
                    received,
                ) && outcome == match received {
                    Ok(b) => Ok((offer->Ok_0, b)),
                    Err(e) => Err(e),
                };
            delivery::law_received_blob_has_the_offered_digest(
                offer->Ok_0,
                transport_settings(attempt),
                linked,
                mid,
                blob,
            );
        },
        Err(e) => {
            law_receipt_is_verified(
                outdir,
                force,
                terminal_max,
                attempt + 1,
                mid + retry_notes(attempt, terminal_max, e),
                after,
                session,
                landed,
                blob,
            );
        },
    }
}

/// What a ladder comes to is told as it is: the session, the attempt and the
/// blob, or the error.
pub proof fn law_outcomes_are_told_as_they_are(
    sent: Result<Completed>,
    received: Result<(Completed, Vec<u8>)>,
    once: Result<(Session, Vec<u8>)>,
    linked: Result<Session>,
    blob: Result<Vec<u8>>,
    done: Result<()>,
)
    ensures
        sent matches Ok(c) ==> completed_outcome(sent) == Ok::<(SessionView, nat), ErrorView>(
            (c.session@, c.attempt as nat),
        ),
        sent matches Err(e) ==> completed_outcome(sent) == Err::<(SessionView, nat), ErrorView>(e@),
        received matches Ok(got) ==> receipt_outcome(received) == Ok::<
            (SessionView, nat, Seq<u8>),
            ErrorView,
        >((got.0.session@, got.0.attempt as nat, got.1@)),
        received matches Err(e) ==> receipt_outcome(received) == Err::<
            (SessionView, nat, Seq<u8>),
            ErrorView,
        >(e@),
        once matches Ok(got) ==> attempt_outcome(once) == Ok::<(SessionView, Seq<u8>), ErrorView>(
            (got.0@, got.1@),
        ),
        once matches Err(e) ==> attempt_outcome(once) == Err::<(SessionView, Seq<u8>), ErrorView>(
            e@,
        ),
        linked matches Ok(s) ==> link_send::session_outcome(linked) == Ok::<SessionView, ErrorView>(
            s@,
        ),
        linked matches Err(e) ==> link_send::session_outcome(linked) == Err::<
            SessionView,
            ErrorView,
        >(e@),
        blob matches Ok(b) ==> receive::blob_outcome(blob) == Ok::<Seq<u8>, ErrorView>(b@),
        blob matches Err(e) ==> receive::blob_outcome(blob) == Err::<Seq<u8>, ErrorView>(e@),
        done is Ok ==> machine::outcome_of(done) == Ok::<(), ErrorView>(()),
        done matches Err(e) ==> machine::outcome_of(done) == Err::<(), ErrorView>(e@),
{
}

} // verus!
