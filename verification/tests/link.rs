use std::time::Duration;

use airgap_xfer::error::{Error, Result};
use airgap_xfer::frame::{Payload, FAIL_ABORTED, ROLE_RECV};
use airgap_xfer::link::{
    attempt_plan, eligible_probe_count, go_timeout, hello_timeout, is_retryable, link_timeout,
    quiet_timeout, run_recv_handshake, run_send_handshake, Attempt, LinkConfig, Session,
    GATED_TIMEOUT, MAX_ATTEMPTS, PROBES,
};
use airgap_xfer::optical::{pair, Optical, Progress};
use airgap_xfer::qr;
use airgap_xfer::session::configs_for;

/// A directory that does not exist, so that nothing in it does.
const NOWHERE: &str = "no-such-directory-for-airgap-xfer";

/// A channel that plays back what the peer would say, one frame per poll, and
/// writes down everything it is asked to do.
struct Script {
    replies: Vec<Option<Payload>>,
    shown: Vec<Payload>,
    events: Vec<String>,
    dwell_ms: u16,
    polls: usize,
}

impl Script {
    fn new(replies: Vec<Option<Payload>>) -> Self {
        Script {
            replies,
            shown: Vec::new(),
            events: Vec::new(),
            dwell_ms: 0,
            polls: 0,
        }
    }
}

impl Optical for Script {
    fn show(&mut self, payload: &Payload) -> Result<()> {
        self.shown.push(payload.clone());
        self.events.push(format!("show {payload:?}"));
        Ok(())
    }

    fn poll(&mut self, _timeout: Duration) -> Result<Option<Payload>> {
        self.polls += 1;
        if self.replies.is_empty() {
            return Ok(None);
        }
        Ok(self.replies.remove(0))
    }

    fn hold(&mut self, dwell_ms: u16) {
        self.events.push(format!("hold {dwell_ms}"));
    }

    fn set_status(&mut self, _status: &Progress) {}

    fn set_version(&mut self, version: u8) {
        self.events.push(format!("version {version}"));
    }

    fn log(&mut self, line: &str) {
        self.events.push(format!("log {line}"));
    }

    fn suggested_dwell_ms(&mut self) -> u16 {
        self.dwell_ms
    }

    fn gate(&mut self, prompt: &str) -> Result<bool> {
        self.events.push(format!("gate {prompt}"));
        Ok(true)
    }
}

fn probe(id: u8, qr_version: u8, dwell_ms: u16, last: bool) -> Option<Payload> {
    Some(Payload::Probe {
        id,
        qr_version,
        dwell_ms,
        last,
    })
}

fn hello() -> Option<Payload> {
    Some(Payload::Hello {
        protocol_ver: 1,
        role: ROLE_RECV,
    })
}

fn go() -> Option<Payload> {
    Some(Payload::Go {
        basename: "dir".into(),
        uncompressed_hint: 10,
        compressed_size: 3,
        chunk_count: 1,
        sha256: [7; 32],
    })
}

fn link(qr_version: u8, dwell_ms: u16) -> Option<Payload> {
    Some(Payload::Link {
        qr_version,
        dwell_ms,
        probe_loss: 0,
    })
}

fn ack(window_base: u32) -> Option<Payload> {
    Some(Payload::Ack {
        window_base,
        bitmap: 0,
    })
}

fn send(script: &mut Script, cfg: LinkConfig) -> Result<Session> {
    run_send_handshake(script, "dir".into(), 10, &[1u8, 2, 3], [7; 32], cfg)
}

#[test]
fn losing_an_offered_probe_still_counts_against_the_link() {
    // Two probes offered (cap v15), only the second arrives.
    let cfg = LinkConfig {
        fast: true,
        max_qr_version: 15,
        ..LinkConfig::default()
    };
    assert_eq!(eligible_probe_count(cfg, Some(1)), 2);

    // Capping at v15 alone does not shrink the denominator below what the
    // sender offered, so a probe that really was lost still shows up.
    assert_eq!(eligible_probe_count(cfg, None), 2);

    // Uncapped, with the sender's `last` flag lost: fall back to the full
    // probe ladder rather than silently shrinking the denominator.
    assert_eq!(
        eligible_probe_count(LinkConfig::default(), None),
        PROBES.len()
    );
}

#[test]
fn gated_configs_wait_minutes_so_a_human_can_read_the_screen() {
    let cfg = LinkConfig::gated(15);
    assert_eq!(hello_timeout(cfg), GATED_TIMEOUT);
    assert_eq!(link_timeout(cfg), GATED_TIMEOUT);
    assert_eq!(go_timeout(cfg), GATED_TIMEOUT);
    // The ungated live path has tighter budgets.
    assert_eq!(
        Duration::from_nanos(hello_timeout(LinkConfig::default())),
        Duration::from_secs(30)
    );
    assert_eq!(Duration::from_nanos(GATED_TIMEOUT), Duration::from_secs(600));
}

#[test]
fn handshake_timeouts() {
    let fast = LinkConfig::fast();
    let live = LinkConfig::default();
    assert_eq!(Duration::from_nanos(hello_timeout(fast)), Duration::from_millis(100));
    assert_eq!(Duration::from_nanos(link_timeout(fast)), Duration::from_millis(50));
    assert_eq!(Duration::from_nanos(go_timeout(fast)), Duration::from_millis(50));
    assert_eq!(Duration::from_nanos(quiet_timeout(fast)), Duration::from_millis(20));
    assert_eq!(Duration::from_nanos(link_timeout(live)), Duration::from_secs(5));
    assert_eq!(Duration::from_nanos(go_timeout(live)), Duration::from_secs(15));
    assert_eq!(Duration::from_nanos(quiet_timeout(live)), Duration::from_secs(2));
}

#[test]
fn the_ladder_shrinks_the_code_then_slows_it_down() {
    // Six usable versions, so the version bottoms out after five steps and
    // later attempts buy time on screen instead.
    let plans: Vec<Attempt> = (0..MAX_ATTEMPTS)
        .map(|attempt| attempt_plan(attempt, 40))
        .collect();

    assert_eq!(plans[0].max_qr_version, 40);
    assert_eq!(plans[0].dwell_floor_ms, 0, "the first try uses probe dwell");
    for pair in plans.windows(2) {
        assert!(
            pair[1].max_qr_version <= pair[0].max_qr_version,
            "the code must never grow between attempts"
        );
        assert!(
            pair[1].dwell_floor_ms >= pair[0].dwell_floor_ms,
            "the dwell must never shrink between attempts"
        );
    }
    assert_eq!(plans[MAX_ATTEMPTS - 1].max_qr_version, qr::smallest_version());
    assert!(plans[MAX_ATTEMPTS - 1].dwell_floor_ms >= 1000);
}

#[test]
fn a_small_terminal_starts_lower_and_still_bottoms_out_safely() {
    // A terminal that can only draw v15 has two rungs, not six.
    let plans: Vec<Attempt> = (0..MAX_ATTEMPTS)
        .map(|attempt| attempt_plan(attempt, 15))
        .collect();
    assert_eq!(plans[0].max_qr_version, 15);
    assert_eq!(plans[1].max_qr_version, 10);
    assert!(plans[2..]
        .iter()
        .all(|plan| plan.max_qr_version == qr::smallest_version()));
}

#[test]
fn plans_have_exactly_these_values() {
    assert_eq!(
        attempt_plan(1, 40),
        Attempt {
            max_qr_version: 30,
            dwell_floor_ms: 300
        }
    );
    assert_eq!(
        attempt_plan(8, 40),
        Attempt {
            max_qr_version: 10,
            dwell_floor_ms: 1350
        }
    );
    assert_eq!(attempt_plan(9, 40).dwell_floor_ms, 1500);
    assert_eq!(attempt_plan(70_000, 40).dwell_floor_ms, 1500);
    // A terminal too small for any version still gets the smallest.
    assert_eq!(attempt_plan(0, 9).max_qr_version, 10);
}

#[test]
fn operator_decisions_are_never_retried_away() {
    // Aborting or interrupting must end the transfer, not walk the ladder.
    assert!(!is_retryable(&Error::Aborted));
    assert!(!is_retryable(&Error::Interrupted));
    assert!(!is_retryable(&Error::DestExists("x".into())));
    // Whereas everything the ladder exists for is fair game.
    assert!(is_retryable(&Error::Stalled(vec![3])));
    assert!(is_retryable(&Error::HandshakeTimeout));
    assert!(is_retryable(&Error::HashMismatch));
}

#[test]
fn only_the_first_attempt_asks_the_operator_anything() {
    let (first_link, first_transport, _) = configs_for(0, 40);
    assert!(
        first_link.patient,
        "the first attempt still waits for a human to aim"
    );
    assert!(
        first_transport.gated,
        "the sender confirms once before the file goes"
    );
    for attempt in 1..MAX_ATTEMPTS {
        let (link_cfg, transport_cfg, _) = configs_for(attempt, 40);
        assert!(!transport_cfg.gated, "attempt {attempt} must not prompt");
        assert!(
            link_cfg.patient,
            "attempt {attempt} still needs long timeouts: the peer may be \
             finishing its own stall detection"
        );
    }
}

#[test]
fn the_sender_offers_probes_locks_the_version_and_then_offers_the_file() {
    let mut script = Script::new(vec![hello(), link(25, 180), ack(0)]);
    let session = send(&mut script, LinkConfig::fast()).unwrap();
    assert_eq!(session.qr_version, 25);
    assert_eq!(session.dwell_ms, 180);
    assert_eq!(session.chunk_count, 1);
    assert_eq!(session.compressed_size, 3);
    let probes: Vec<&Payload> = script
        .shown
        .iter()
        .filter(|p| matches!(p, Payload::Probe { .. }))
        .collect();
    assert_eq!(probes.len(), 6);
    assert_eq!(probes[5], &probe(5, 40, 150, true).unwrap());
    assert_eq!(probes[0], &probe(0, 10, 250, false).unwrap());
    let locked = script.events.iter().position(|e| e == "version 25").unwrap();
    let offered = script
        .events
        .iter()
        .position(|e| e.starts_with("show Go"))
        .unwrap();
    assert!(locked < offered);
    assert!(script.events.contains(&"log receiver said HELLO".to_string()));
    assert!(script
        .events
        .contains(&"log linked at QR v25, 180 ms dwell".to_string()));
    assert!(script
        .events
        .contains(&"log receiver accepted the offer".to_string()));
    assert!(!script.events.iter().any(|e| e.starts_with("gate")));
    assert!(!script.events.iter().any(|e| e.starts_with("hold")));
}

#[test]
fn a_live_sender_holds_each_probe_for_its_dwell() {
    let cfg = LinkConfig {
        max_qr_version: 20,
        ..LinkConfig::default()
    };
    let mut script = Script::new(vec![hello(), link(20, 100), ack(0)]);
    send(&mut script, cfg).unwrap();
    let holds: Vec<&String> = script
        .events
        .iter()
        .filter(|e| e.starts_with("hold"))
        .collect();
    assert_eq!(holds, ["hold 250", "hold 250", "hold 200"]);
}

#[test]
fn the_sender_raises_the_dwell_to_its_floor() {
    let cfg = LinkConfig {
        dwell_floor_ms: 900,
        ..LinkConfig::fast()
    };
    let mut script = Script::new(vec![hello(), link(10, 180), ack(0)]);
    assert_eq!(send(&mut script, cfg).unwrap().dwell_ms, 900);
}

#[test]
fn the_sender_gives_up_where_it_should() {
    // Nobody says HELLO.
    let mut script = Script::new(vec![]);
    assert!(matches!(
        send(&mut script, LinkConfig::fast()),
        Err(Error::HandshakeTimeout)
    ));
    // A display that cannot draw any probe.
    let tiny = LinkConfig {
        max_qr_version: 9,
        ..LinkConfig::fast()
    };
    let mut script = Script::new(vec![hello()]);
    assert!(matches!(send(&mut script, tiny), Err(Error::NoUsableProbe)));
    assert!(script.shown.is_empty());
    // No LINK.
    let mut script = Script::new(vec![hello(), None]);
    assert!(matches!(
        send(&mut script, LinkConfig::fast()),
        Err(Error::HandshakeFailed)
    ));
    // A LINK beyond the display.
    let capped = LinkConfig {
        max_qr_version: 15,
        ..LinkConfig::fast()
    };
    let mut script = Script::new(vec![hello(), link(20, 100)]);
    assert!(matches!(send(&mut script, capped), Err(Error::NoUsableProbe)));
    // A LINK for a version that carries nothing.
    let mut script = Script::new(vec![hello(), link(11, 100)]);
    assert!(matches!(
        send(&mut script, LinkConfig::fast()),
        Err(Error::HandshakeFailed)
    ));
    // An offer that nobody accepts: an ACK for another window is no answer.
    let mut script = Script::new(vec![hello(), link(10, 100), ack(32), None]);
    assert!(matches!(
        send(&mut script, LinkConfig::fast()),
        Err(Error::HandshakeFailed)
    ));
}

#[test]
fn an_empty_blob_is_offered_as_one_chunk() {
    let mut script = Script::new(vec![hello(), link(10, 100), ack(0)]);
    let session =
        run_send_handshake(&mut script, "e".into(), 0, &[], [0; 32], LinkConfig::fast()).unwrap();
    assert_eq!(session.chunk_count, 1);
    assert_eq!(session.compressed_size, 0);
}

#[test]
fn the_receiver_picks_the_best_probe_and_takes_the_offer() {
    let mut script = Script::new(vec![
        None,
        probe(0, 10, 250, false),
        probe(3, 25, 200, false),
        probe(2, 20, 200, true),
        go(),
    ]);
    script.dwell_ms = 700;
    let session = run_recv_handshake(&mut script, NOWHERE, false, LinkConfig::fast()).unwrap();
    assert_eq!(session.qr_version, 25);
    // The probe table would have said 200 ms.
    assert_eq!(session.dwell_ms, 700);
    assert_eq!(session.basename, "dir");
    assert_eq!(session.sha256, [7; 32]);
    // Four probes counted as offered up to id 2, and three arrived.
    assert_eq!(
        script.shown[script.shown.len() - 2],
        Payload::Link {
            qr_version: 25,
            dwell_ms: 700,
            probe_loss: 0
        }
    );
    assert_eq!(script.shown.last(), ack(0).as_ref());
    let locked = script.events.iter().position(|e| e == "version 25").unwrap();
    let linked = script
        .events
        .iter()
        .position(|e| e.starts_with("show Link"))
        .unwrap();
    assert!(locked < linked);
    assert!(script
        .events
        .contains(&"log sender found: best readable QR v25, 0% probe loss".to_string()));
    assert!(script
        .events
        .contains(&"log offer: dir, 3 B compressed, 1 chunks".to_string()));
    assert!(!script.events.iter().any(|e| e.starts_with("gate")));
}

#[test]
fn a_lost_probe_shows_up_as_loss() {
    // Three probes on the table, one of them lost.
    let mut script = Script::new(vec![probe(0, 10, 250, false), probe(2, 20, 200, true), go()]);
    run_recv_handshake(&mut script, NOWHERE, false, LinkConfig::fast()).unwrap();
    assert!(script.shown.contains(&Payload::Link {
        qr_version: 20,
        dwell_ms: 200,
        probe_loss: 33
    }));
}

#[test]
fn of_two_probes_at_one_version_the_later_dwell_counts() {
    let mut script = Script::new(vec![probe(1, 15, 250, false), probe(2, 15, 90, true), go()]);
    let session = run_recv_handshake(&mut script, NOWHERE, false, LinkConfig::fast()).unwrap();
    assert_eq!(session.dwell_ms, 90);
}

#[test]
fn a_receiver_never_picks_a_version_it_cannot_draw() {
    let cfg = LinkConfig {
        max_qr_version: 15,
        ..LinkConfig::fast()
    };
    let mut script = Script::new(vec![probe(1, 15, 250, false), probe(5, 40, 150, true), go()]);
    let session = run_recv_handshake(&mut script, NOWHERE, false, cfg).unwrap();
    assert_eq!(session.qr_version, 15);
    let mut script = Script::new(vec![probe(5, 40, 150, true), go()]);
    assert!(matches!(
        run_recv_handshake(&mut script, NOWHERE, false, cfg),
        Err(Error::NoUsableProbe)
    ));
}

#[test]
fn receiver_rejects_only_unknown_probe() {
    let mut script = Script::new(vec![probe(99, 40, 150, true)]);
    let err =
        run_recv_handshake(&mut script, NOWHERE, false, LinkConfig::fast()).unwrap_err();
    assert!(matches!(err, Error::NoUsableProbe));
}

/// Offers one last probe, and the file once it has seen LINK.
struct LastProbe {
    poll_count: usize,
    link_shown: bool,
}

impl Optical for LastProbe {
    fn show(&mut self, payload: &Payload) -> Result<()> {
        if matches!(payload, Payload::Link { .. }) {
            self.link_shown = true;
        }
        Ok(())
    }

    fn poll(&mut self, _timeout: Duration) -> Result<Option<Payload>> {
        self.poll_count += 1;
        match self.poll_count {
            1 => Ok(probe(0, 10, 250, true)),
            _ if self.link_shown => Ok(Some(Payload::Go {
                basename: "file".into(),
                uncompressed_hint: 0,
                compressed_size: 1,
                chunk_count: 1,
                sha256: [0; 32],
            })),
            _ => Ok(None),
        }
    }

    fn hold(&mut self, _: u16) {}

    fn set_status(&mut self, _: &Progress) {}

    fn set_version(&mut self, _: u8) {}

    fn log(&mut self, _: &str) {}

    fn suggested_dwell_ms(&mut self) -> u16 {
        0
    }

    fn gate(&mut self, _: &str) -> Result<bool> {
        Ok(true)
    }
}

#[test]
fn receiver_skips_quiet_wait_after_last_probe() {
    let mut opt = LastProbe {
        poll_count: 0,
        link_shown: false,
    };
    run_recv_handshake(&mut opt, NOWHERE, false, LinkConfig::fast()).unwrap();
    assert_eq!(opt.poll_count, 2);
}

#[test]
fn handshake_no_probe_response_times_out() {
    // Keep the peer alive but silent: HELLO sends succeed and poll just
    // keeps timing out, so this must become HandshakeTimeout once the
    // deadline passes rather than erroring out early.
    let (_send_end, mut recv_end) = pair();
    let err =
        run_recv_handshake(&mut recv_end, NOWHERE, false, LinkConfig::fast()).unwrap_err();
    assert!(matches!(err, Error::HandshakeTimeout));
}

struct FailingPoll;

impl Optical for FailingPoll {
    fn show(&mut self, _: &Payload) -> Result<()> {
        Ok(())
    }

    fn poll(&mut self, _: Duration) -> Result<Option<Payload>> {
        Err(Error::Message("boom".into()))
    }

    fn hold(&mut self, _: u16) {}

    fn set_status(&mut self, _: &Progress) {}

    fn set_version(&mut self, _: u8) {}

    fn log(&mut self, _: &str) {}

    fn suggested_dwell_ms(&mut self) -> u16 {
        0
    }

    fn gate(&mut self, _: &str) -> Result<bool> {
        Ok(true)
    }
}

#[test]
fn hello_loop_propagates_real_errors_instead_of_masking_as_timeout() {
    let mut opt = FailingPoll;
    let err = run_recv_handshake(&mut opt, NOWHERE, false, LinkConfig::fast()).unwrap_err();
    assert!(matches!(err, Error::Message(m) if m == "boom"));
}

#[test]
fn hello_loop_propagates_disconnect_instead_of_masking_as_timeout() {
    let (send_end, mut recv_end) = pair();
    drop(send_end);
    let err =
        run_recv_handshake(&mut recv_end, NOWHERE, false, LinkConfig::fast()).unwrap_err();
    assert!(matches!(err, Error::Message(_)));
}

#[test]
fn a_taken_destination_is_refused_unless_forced() {
    let offer = Some(Payload::Go {
        basename: ".".into(),
        uncompressed_hint: 0,
        compressed_size: 1,
        chunk_count: 1,
        sha256: [0; 32],
    });
    let mut script = Script::new(vec![probe(0, 10, 250, true), offer.clone()]);
    match run_recv_handshake(&mut script, ".", false, LinkConfig::fast()) {
        Err(Error::DestExists(path)) => assert_eq!(path, "./."),
        other => panic!("{other:?}"),
    }
    assert_eq!(
        script.shown.last(),
        Some(&Payload::Fail {
            reason: FAIL_ABORTED
        })
    );
    let mut script = Script::new(vec![probe(0, 10, 250, true), offer]);
    assert!(run_recv_handshake(&mut script, ".", true, LinkConfig::fast()).is_ok());
    assert_eq!(script.shown.last(), ack(0).as_ref());
}

#[test]
fn no_offer_fails_the_handshake() {
    let mut script = Script::new(vec![probe(0, 10, 250, true), None]);
    assert!(matches!(
        run_recv_handshake(&mut script, NOWHERE, false, LinkConfig::fast()),
        Err(Error::HandshakeFailed)
    ));
}

#[test]
fn sessions_compare_by_value() {
    let mut script = Script::new(vec![probe(0, 10, 250, true), go()]);
    let session = run_recv_handshake(&mut script, NOWHERE, false, LinkConfig::fast()).unwrap();
    let mut other = session.clone();
    assert_eq!(session, other);
    other.sha256[31] = 0;
    assert_ne!(session, other);
}
