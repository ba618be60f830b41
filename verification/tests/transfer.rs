use std::collections::{HashSet, VecDeque};
use std::time::Duration;

use airgap_xfer::clock::MILLISECOND;
use airgap_xfer::digest;
use airgap_xfer::error::{Error, Result};
use airgap_xfer::frame::{data_chunk_size, decode, encode, Payload, FAIL_PROTOCOL};
use airgap_xfer::link::{attempt_plan, is_retryable, LinkConfig, Session, MAX_ATTEMPTS};
use airgap_xfer::link_recv::Acceptance;
use airgap_xfer::link_send::Offer;
use airgap_xfer::machine::{Action, Machine, Reply};
use airgap_xfer::optical::{pair, Optical, PairEnd, Progress};
use airgap_xfer::receive::{burst_quiet, first_data_budget, BlobReceiver};
use airgap_xfer::session::{recv_with_fallback, send_with_fallback};
use airgap_xfer::transport::{
    ack_timeout, fin_timeout, recv_blob, send_blob, BlobSender, TransportConfig, WINDOW,
};
use airgap_xfer::window::{
    expected_chunk_count, missing_seqs, next_missing, window_bitmap, window_end,
};

fn session_for(blob: &[u8], version: u8) -> Session {
    let cs = data_chunk_size(version);
    let chunk_count = ((blob.len() + cs - 1) / cs) as u32;
    Session {
        qr_version: version,
        dwell_ms: 1,
        basename: "dir".into(),
        uncompressed_hint: blob.len() as u64,
        compressed_size: blob.len() as u64,
        chunk_count,
        sha256: digest::sha256(blob),
    }
}

fn bytes(n: u32) -> Vec<u8> {
    (0..n).map(|i| i as u8).collect()
}

/// Two protocols on one simulated clock, with a channel between them that may
/// lose frames.
struct Wire {
    now: u64,
    to_a: VecDeque<Payload>,
    to_b: VecDeque<Payload>,
    prompts: Vec<String>,
    allow: bool,
    dwell_ms: u16,
    data_shown: usize,
    shown_by_a: Vec<Payload>,
    shown_by_b: Vec<Payload>,
    logs: Vec<String>,
    /// Whether everything on its way to `b` is lost whenever `b` shows a code.
    deaf_while_showing: bool,
    /// Whether each side had locked its version when it showed its offer or
    /// its LINK.
    version_set_a: bool,
    version_set_b: bool,
    version_set_before_go: Option<bool>,
    version_set_before_link: Option<bool>,
}

enum Progressed {
    Yes,
    /// Waiting for a frame for this long.
    Waiting(u64),
    Over,
}

impl Wire {
    fn new() -> Self {
        Wire {
            now: 0,
            to_a: VecDeque::new(),
            to_b: VecDeque::new(),
            prompts: Vec::new(),
            allow: true,
            dwell_ms: 0,
            data_shown: 0,
            shown_by_a: Vec::new(),
            shown_by_b: Vec::new(),
            logs: Vec::new(),
            deaf_while_showing: false,
            version_set_a: false,
            version_set_b: false,
            version_set_before_go: None,
            version_set_before_link: None,
        }
    }

    fn turn<M: Machine>(
        &mut self,
        machine: &mut M,
        is_a: bool,
        lose: &mut dyn FnMut(bool, &Payload) -> bool,
    ) -> Progressed {
        let Some(action) = machine.action() else {
            return Progressed::Over;
        };
        let reply = match action {
            Action::Show(payload) => {
                if matches!(payload, Payload::Data { .. }) {
                    self.data_shown += 1;
                }
                if matches!(payload, Payload::Go { .. }) && self.version_set_before_go.is_none() {
                    self.version_set_before_go = Some(self.version_set_a);
                }
                if matches!(payload, Payload::Link { .. })
                    && self.version_set_before_link.is_none()
                {
                    self.version_set_before_link = Some(self.version_set_b);
                }
                if !is_a && self.deaf_while_showing {
                    self.to_b.clear();
                }
                if !lose(is_a, &payload) {
                    let arrived = decode(&encode(&payload).unwrap()).unwrap();
                    if is_a {
                        self.to_b.push_back(arrived);
                    } else {
                        self.to_a.push_back(arrived);
                    }
                }
                if is_a {
                    self.shown_by_a.push(payload);
                } else {
                    self.shown_by_b.push(payload);
                }
                Reply::Done
            }
            Action::Poll(nanos) => {
                let inbox = if is_a { &mut self.to_a } else { &mut self.to_b };
                match inbox.pop_front() {
                    Some(payload) => Reply::Polled(Some(payload)),
                    None => return Progressed::Waiting(nanos),
                }
            }
            Action::Hold(ms) => {
                self.now += ms as u64 * MILLISECOND;
                Reply::Done
            }
            Action::Gate(prompt) => {
                self.prompts.push(prompt);
                Reply::Gated(self.allow)
            }
            Action::SuggestDwell => Reply::Dwell(self.dwell_ms),
            Action::Log(line) => {
                self.logs.push(line);
                Reply::Done
            }
            Action::SetVersion(_) => {
                if is_a {
                    self.version_set_a = true;
                } else {
                    self.version_set_b = true;
                }
                Reply::Done
            }
            Action::SetStatus(_) => Reply::Done,
        };
        machine.step(self.now, reply);
        Progressed::Yes
    }

    /// Runs `machine` until it has to wait for a frame, and gives the time at
    /// which that wait runs out, or nothing if it is over. A wait that was
    /// already under way keeps its deadline.
    fn advance<M: Machine>(
        &mut self,
        machine: &mut M,
        is_a: bool,
        waiting: Option<u64>,
        lose: &mut dyn FnMut(bool, &Payload) -> bool,
    ) -> Option<u64> {
        let mut waiting = waiting;
        loop {
            match self.turn(machine, is_a, lose) {
                Progressed::Yes => waiting = None,
                Progressed::Waiting(nanos) => return waiting.or(Some(self.now + nanos)),
                Progressed::Over => return None,
            }
        }
    }

    /// Runs both until `b` is over, or both are.
    fn run<A: Machine, B: Machine>(
        &mut self,
        a: &mut A,
        b: &mut B,
        lose: &mut dyn FnMut(bool, &Payload) -> bool,
    ) {
        let mut a_waits = None;
        let mut b_waits = None;
        loop {
            a_waits = self.advance(a, true, a_waits, lose);
            b_waits = self.advance(b, false, b_waits, lose);
            let Some(b_until) = b_waits else {
                return;
            };
            if a_waits.is_some() && !self.to_a.is_empty() {
                continue;
            }
            // Nothing is under way: the wait that ends first runs out.
            match a_waits {
                Some(a_until) if a_until <= b_until => {
                    self.now = self.now.max(a_until);
                    a.step(self.now, Reply::Polled(None));
                    a_waits = None;
                }
                _ => {
                    self.now = self.now.max(b_until);
                    b.step(self.now, Reply::Polled(None));
                    b_waits = None;
                }
            }
        }
    }

    /// Lets `a` run on alone, with nothing but time passing.
    fn finish<A: Machine>(&mut self, a: &mut A) {
        let mut lose = |_: bool, _: &Payload| false;
        loop {
            match self.turn(a, true, &mut lose) {
                Progressed::Yes => {}
                Progressed::Waiting(nanos) => {
                    self.now += nanos;
                    a.step(self.now, Reply::Polled(None));
                }
                Progressed::Over => return,
            }
        }
    }
}

fn transfer(
    blob: &[u8],
    cfg: TransportConfig,
    lose: &mut dyn FnMut(bool, &Payload) -> bool,
) -> (Result<()>, Result<Vec<u8>>, Wire) {
    transfer_over(Wire::new(), blob, cfg, lose)
}

fn transfer_over(
    wire: Wire,
    blob: &[u8],
    cfg: TransportConfig,
    lose: &mut dyn FnMut(bool, &Payload) -> bool,
) -> (Result<()>, Result<Vec<u8>>, Wire) {
    let session = session_for(blob, 10);
    let mut wire = wire;
    let mut sender = BlobSender::new(blob, &session, cfg, 0).unwrap();
    let mut receiver = BlobReceiver::new(&session, cfg, 0).unwrap();
    wire.run(&mut sender, &mut receiver, lose);
    let received = receiver.result();
    if received.is_ok() {
        wire.to_a.push_back(Payload::Okay);
    }
    wire.finish(&mut sender);
    (sender.result(), received, wire)
}

#[test]
fn transfer_zero_loss() {
    let blob = bytes(2000);
    let (sent, got, wire) = transfer(&blob, TransportConfig::fast(), &mut |_, _| false);
    sent.unwrap();
    assert_eq!(got.unwrap(), blob);
    assert_eq!(wire.data_shown, 16);
    assert!(!wire.shown_by_b.contains(&Payload::Okay));
}

#[test]
fn acking_must_not_drop_the_rest_of_the_window() {
    let blob = bytes(2000);
    let mut wire = Wire::new();
    wire.deaf_while_showing = true;
    let (sent, got, _) = transfer_over(wire, &blob, TransportConfig::fast(), &mut |_, _| false);
    sent.unwrap();
    assert_eq!(got.unwrap(), blob);
}

#[test]
fn a_live_transfer_without_loss() {
    let blob = bytes(2000);
    let (sent, got, _) = transfer(&blob, TransportConfig::default(), &mut |_, _| false);
    sent.unwrap();
    assert_eq!(got.unwrap(), blob);
}

#[test]
fn transfer_drops_seq_zero_then_recovers() {
    let blob = bytes(2000);
    let mut dropped = false;
    let (sent, got, wire) = transfer(&blob, TransportConfig::fast(), &mut |_, p| {
        if matches!(p, Payload::Data { seq: 0, .. }) && !dropped {
            dropped = true;
            return true;
        }
        false
    });
    sent.unwrap();
    assert_eq!(got.unwrap(), blob);
    assert!(wire.data_shown >= 17);
}

#[test]
fn transfer_burst_of_eight_drops() {
    let blob = bytes(4000);
    let mut drop_data_seq: HashSet<u32> = (2..10).collect();
    let (sent, got, _) = transfer(&blob, TransportConfig::fast(), &mut |_, p| match p {
        Payload::Data { seq, .. } => drop_data_seq.remove(seq),
        _ => false,
    });
    sent.unwrap();
    assert_eq!(got.unwrap(), blob);
}

#[test]
fn transfer_crosses_ack_window_boundary() {
    let blob = bytes(6401);
    assert!(session_for(&blob, 10).chunk_count > WINDOW);
    let (sent, got, _) = transfer(&blob, TransportConfig::fast(), &mut |_, _| false);
    sent.unwrap();
    assert_eq!(got.unwrap(), blob);
}

#[test]
fn transfer_recovers_when_completed_window_ack_is_lost() {
    let blob = bytes(6401);
    let mut dropped = false;
    let (sent, got, _) = transfer(&blob, TransportConfig::fast(), &mut |_, p| {
        if matches!(p, Payload::Ack { bitmap: u32::MAX, .. }) && !dropped {
            dropped = true;
            return true;
        }
        false
    });
    sent.unwrap();
    assert_eq!(got.unwrap(), blob);
    assert!(dropped);
}

#[test]
fn hash_mismatch_does_not_return_blob() {
    let blob = vec![1, 2, 3, 4];
    let mut session = session_for(&blob, 10);
    session.sha256 = [0u8; 32];
    let cfg = TransportConfig::fast();
    let mut wire = Wire::new();
    let mut sender = BlobSender::new(&blob, &session, cfg, 0).unwrap();
    let mut receiver = BlobReceiver::new(&session, cfg, 0).unwrap();
    wire.run(&mut sender, &mut receiver, &mut |_, _| false);
    assert!(matches!(receiver.result(), Err(Error::HashMismatch)));
    wire.finish(&mut sender);
    assert!(matches!(sender.result(), Err(Error::HashMismatch)));
}

#[test]
fn a_dead_link_stalls_the_sender_with_what_is_missing() {
    let blob = bytes(300);
    let session = session_for(&blob, 10);
    assert_eq!(session.chunk_count, 3);
    let mut wire = Wire::new();
    let mut sender = BlobSender::new(&blob, &session, TransportConfig::fast(), 0).unwrap();
    // One ACK, for the middle chunk, and then nothing.
    wire.to_a.push_back(Payload::Ack {
        window_base: 0,
        bitmap: 0b010,
    });
    wire.finish(&mut sender);
    match sender.result() {
        Err(Error::Stalled(missing)) => assert_eq!(missing, vec![0, 2]),
        other => panic!("{other:?}"),
    }
    // The first round shows three chunks, each later one the two that are
    // missing.
    assert_eq!(wire.data_shown, 3 + 2 * 20);
}

#[test]
fn news_from_the_receiver_resets_the_stall_count() {
    let blob = bytes(300);
    let session = session_for(&blob, 10);
    let mut wire = Wire::new();
    let mut sender = BlobSender::new(&blob, &session, TransportConfig::fast(), 0).unwrap();
    let mut rounds = 0;
    loop {
        match wire.turn(&mut sender, true, &mut |_, _| false) {
            Progressed::Yes => {}
            Progressed::Waiting(nanos) => {
                rounds += 1;
                wire.now += nanos;
                let news = Payload::Ack {
                    window_base: 0,
                    bitmap: 1,
                };
                let polled = if rounds == 20 { Some(news) } else { None };
                sender.step(wire.now, Reply::Polled(polled));
            }
            Progressed::Over => break,
        }
    }
    assert_eq!(rounds, 40);
    match sender.result() {
        Err(Error::Stalled(missing)) => assert_eq!(missing, vec![1, 2]),
        other => panic!("{other:?}"),
    }
}

#[test]
fn duplicates_and_strays_change_nothing() {
    let blob = bytes(200);
    let sess = session_for(&blob, 10);
    let (mut s, mut r) = pair();
    let first = Payload::Data {
        seq: 0,
        chunk: blob[..129].to_vec(),
    };
    s.show(&first).unwrap();
    s.show(&Payload::Data { seq: 0, chunk: vec![9; 5] }).unwrap();
    s.show(&Payload::Data { seq: 2, chunk: vec![9; 129] }).unwrap();
    s.show(&Payload::Data { seq: 1, chunk: blob[129..].to_vec() }).unwrap();
    s.show(&first).unwrap();
    s.show(&Payload::Fin { sha256: sess.sha256 }).unwrap();
    assert_eq!(recv_blob(&mut r, &sess, TransportConfig::fast()).unwrap(), blob);
}

#[test]
fn bits_past_the_last_chunk_are_ignored() {
    let blob = bytes(300);
    let session = session_for(&blob, 10);
    let mut wire = Wire::new();
    let mut sender = BlobSender::new(&blob, &session, TransportConfig::fast(), 0).unwrap();
    wire.to_a.push_back(Payload::Ack {
        window_base: 0,
        bitmap: 0xffff_ffff,
    });
    wire.to_a.push_back(Payload::Okay);
    wire.finish(&mut sender);
    sender.result().unwrap();
    assert_eq!(wire.shown_by_a.last(), Some(&Payload::Fin { sha256: session.sha256 }));
}

#[test]
fn a_refusal_ends_the_transfer_for_the_sender() {
    let blob = bytes(100);
    let session = session_for(&blob, 10);
    let mut wire = Wire::new();
    let mut sender = BlobSender::new(&blob, &session, TransportConfig::fast(), 0).unwrap();
    wire.to_a.push_back(Payload::Ack {
        window_base: 0,
        bitmap: 1,
    });
    wire.to_a.push_back(Payload::Fail { reason: 2 });
    wire.finish(&mut sender);
    assert!(matches!(sender.result(), Err(Error::HandshakeFailed)));
}

#[test]
fn the_operator_confirms_once_before_the_first_chunk_not_once_per_chunk() {
    let blob = bytes(2000);
    let session = session_for(&blob, 10);
    let (sent, got, wire) = transfer(
        &blob,
        TransportConfig {
            fast: true,
            gated: true,
        },
        &mut |_, _| false,
    );
    sent.unwrap();
    assert_eq!(got.unwrap(), blob);
    assert_eq!(wire.prompts.len(), 1, "{:?}", wire.prompts);
    assert!(wire.prompts[0].contains(&format!("{} chunks", session.chunk_count)));
    assert_eq!(
        wire.prompts[0],
        "Ready to send dir in 16 chunks. Enter to start the transfer"
    );
    assert!(wire.data_shown >= session.chunk_count as usize);
}

struct Gated<T> {
    inner: T,
    prompts: Vec<String>,
    allow: bool,
    data_shown: usize,
}

impl<T: Optical> Optical for Gated<T> {
    fn show(&mut self, payload: &Payload) -> Result<()> {
        if matches!(payload, Payload::Data { .. }) {
            self.data_shown += 1;
        }
        self.inner.show(payload)
    }

    fn poll(&mut self, timeout: Duration) -> Result<Option<Payload>> {
        self.inner.poll(timeout)
    }

    fn hold(&mut self, dwell_ms: u16) {
        self.inner.hold(dwell_ms)
    }

    fn set_status(&mut self, status: &Progress) {
        self.inner.set_status(status)
    }

    fn set_version(&mut self, version: u8) {
        self.inner.set_version(version)
    }

    fn log(&mut self, line: &str) {
        self.inner.log(line)
    }

    fn suggested_dwell_ms(&mut self) -> u16 {
        0
    }

    fn gate(&mut self, prompt: &str) -> Result<bool> {
        self.prompts.push(prompt.to_string());
        Ok(self.allow)
    }
}

#[test]
fn declining_the_start_gate_sends_no_data_at_all() {
    let blob = bytes(2000);
    let sess = session_for(&blob, 10);
    let (s, _r) = pair();
    let mut s = Gated {
        inner: s,
        prompts: Vec::new(),
        allow: false,
        data_shown: 0,
    };
    let err = send_blob(
        &mut s,
        &sess,
        &blob,
        TransportConfig {
            fast: true,
            gated: true,
        },
    )
    .unwrap_err();
    assert!(matches!(err, Error::Aborted), "{err:?}");
    assert_eq!(
        s.data_shown, 0,
        "a declined transfer must not blast frames at a receiver that moved on"
    );
    assert_eq!(s.prompts.len(), 1);
}

#[test]
fn recv_rejects_wrong_sized_data_chunk() {
    let blob = vec![1; 159];
    let mut sess = session_for(&blob, 10);
    sess.compressed_size = 160;
    let (mut s, mut r) = pair();
    s.show(&Payload::Data {
        seq: 0,
        chunk: blob,
    })
    .unwrap();
    s.show(&Payload::Fin {
        sha256: sess.sha256,
    })
    .unwrap();

    assert!(matches!(
        recv_blob(&mut r, &sess, TransportConfig::fast()),
        Err(Error::HandshakeFailed)
    ));
}

#[test]
fn recv_blob_stops_when_the_sender_reports_fail() {
    let blob = vec![1u8; 10];
    let sess = session_for(&blob, 10);
    let (mut s, mut r) = pair();
    s.show(&Payload::Fail {
        reason: FAIL_PROTOCOL,
    })
    .unwrap();
    let err = recv_blob(&mut r, &sess, TransportConfig::fast()).unwrap_err();
    assert!(matches!(err, Error::HandshakeFailed), "{err:?}");
}

#[test]
fn recv_blob_aborts_after_sustained_idle_polls_instead_of_looping_forever() {
    let blob = vec![1u8; 10];
    let sess = session_for(&blob, 10);
    // Keep the peer alive but silent: poll always times out (Ok(None)).
    // This must abort with a bounded number of idle polls instead of hanging.
    let (_send_end, mut recv_end) = pair();
    let cfg = TransportConfig::fast();
    let err = recv_blob(&mut recv_end, &sess, cfg).unwrap_err();
    assert!(matches!(err, Error::Stalled(_)));
}

#[test]
fn recv_blob_returns_what_was_queued_and_acknowledges_it() {
    let blob = bytes(200);
    let sess = session_for(&blob, 10);
    let (mut s, mut r) = pair();
    s.show(&Payload::Data { seq: 1, chunk: blob[129..].to_vec() }).unwrap();
    s.show(&Payload::Data { seq: 0, chunk: blob[..129].to_vec() }).unwrap();
    s.show(&Payload::Fin { sha256: sess.sha256 }).unwrap();
    assert_eq!(recv_blob(&mut r, &sess, TransportConfig::fast()).unwrap(), blob);
    assert_eq!(
        s.poll(Duration::from_millis(1)).unwrap(),
        Some(Payload::Ack { window_base: 0, bitmap: 0b11 })
    );
    assert!(s.poll(Duration::from_millis(1)).unwrap().is_none());
}

#[test]
fn an_earlier_window_is_acknowledged_again_once() {
    let blob = bytes(129 * 33);
    let session = session_for(&blob, 10);
    let mut wire = Wire::new();
    let mut receiver = BlobReceiver::new(&session, TransportConfig::fast(), 0).unwrap();
    let chunk = |seq: u32| Payload::Data {
        seq,
        chunk: blob[seq as usize * 129..(seq as usize + 1) * 129].to_vec(),
    };
    let mut lose = |_: bool, _: &Payload| false;
    for seq in 0..32 {
        wire.to_b.push_back(chunk(seq));
    }
    wire.to_b.push_back(chunk(3));
    wire.to_b.push_back(chunk(4));
    while !matches!(wire.turn(&mut receiver, false, &mut lose), Progressed::Waiting(_)) {}
    let full = Payload::Ack {
        window_base: 0,
        bitmap: u32::MAX,
    };
    assert_eq!(wire.shown_by_b, vec![full.clone(), full]);
}

#[test]
fn a_session_that_does_not_describe_the_blob_is_refused() {
    let blob = bytes(300);
    let mut sess = session_for(&blob, 10);
    sess.chunk_count = 4;
    let (mut s, mut r) = pair();
    let cfg = TransportConfig::fast();
    assert!(matches!(
        send_blob(&mut s, &sess, &blob, cfg),
        Err(Error::HandshakeFailed)
    ));
    assert!(matches!(
        recv_blob(&mut r, &sess, cfg),
        Err(Error::HandshakeFailed)
    ));
    sess.qr_version = 11;
    assert!(matches!(
        recv_blob(&mut r, &sess, cfg),
        Err(Error::HandshakeFailed)
    ));
}

#[test]
fn transfer_timeouts() {
    let fast = TransportConfig::fast();
    let live = TransportConfig::gated();
    assert_eq!(ack_timeout(fast), 50 * MILLISECOND);
    assert_eq!(ack_timeout(live), 5_000 * MILLISECOND);
    assert_eq!(fin_timeout(live), 15_000 * MILLISECOND);
    assert_eq!(first_data_budget(fast), 1_000 * MILLISECOND);
    assert_eq!(first_data_budget(live), 600_000 * MILLISECOND);
    assert_eq!(burst_quiet(fast, 700), 0);
    assert_eq!(burst_quiet(live, 10), 80 * MILLISECOND);
    assert_eq!(burst_quiet(live, 151), 226 * MILLISECOND);
}

#[test]
fn windows_and_bitmaps() {
    assert_eq!(expected_chunk_count(0, 129), Some(0));
    assert_eq!(expected_chunk_count(129, 129), Some(1));
    assert_eq!(expected_chunk_count(130, 129), Some(2));
    assert_eq!(expected_chunk_count(5, 0), None);
    assert_eq!(window_end(32, 40), 40);
    assert_eq!(window_end(0, 40), 32);
    let got: HashSet<u32> = [32, 34].into_iter().collect();
    let bitmap = window_bitmap(&got, 32, 36);
    assert_eq!(bitmap, 0b101);
    assert_eq!(missing_seqs(32, 36, bitmap), vec![33, 35]);
    assert_eq!(next_missing(32, 36, bitmap, 34), Some(35));
    assert_eq!(next_missing(32, 36, 0b1111, 32), None);
}

fn handshake(
    send_cfg: LinkConfig,
    recv_cfg: LinkConfig,
    hint: u64,
    blob: &[u8],
    sha256: [u8; 32],
    wire: &mut Wire,
) -> (Result<Session>, Result<Session>) {
    let mut offer = Offer::new("dir".into(), hint, blob.len() as u64, sha256, send_cfg, wire.now);
    let mut acceptance = Acceptance::new(recv_cfg, wire.now);
    wire.run(&mut offer, &mut acceptance, &mut |_, _| false);
    if acceptance.offered().is_some() {
        acceptance.decide(false, false);
        wire.run(&mut offer, &mut acceptance, &mut |_, _| false);
    }
    let received = acceptance.result("out");
    wire.finish(&mut offer);
    (offer.result(), received)
}

#[test]
fn handshake_picks_highest_passing_probe() {
    let mut wire = Wire::new();
    let (s, r) = handshake(
        LinkConfig::fast(),
        LinkConfig::fast(),
        10,
        &[1u8, 2, 3, 4, 5],
        [1; 32],
        &mut wire,
    );
    let s = s.unwrap();
    let r = r.unwrap();
    assert_eq!(s.qr_version, 40);
    assert_eq!(r.qr_version, 40);
    assert_eq!(s.basename, "dir");
    assert_eq!(r.chunk_count, 1);
    assert_eq!(s, r);
}

#[test]
fn a_slow_camera_gets_the_dwell_it_asks_for_on_both_sides() {
    let mut wire = Wire::new();
    wire.dwell_ms = 700;
    let (s, r) = handshake(LinkConfig::fast(), LinkConfig::fast(), 10, &[1u8, 2, 3], [7; 32], &mut wire);
    // The probe table would have said 150 ms for v40.
    assert_eq!(r.unwrap().dwell_ms, 700);
    assert_eq!(
        s.unwrap().dwell_ms,
        700,
        "LINK must carry the receiver's dwell to the sender"
    );
}

#[test]
fn the_retry_floor_wins_when_it_is_higher_than_the_camera_suggests() {
    let cfg = LinkConfig {
        fast: true,
        dwell_floor_ms: 900,
        ..LinkConfig::default()
    };
    let mut wire = Wire::new();
    wire.dwell_ms = 200;
    let (s, r) = handshake(cfg, cfg, 10, &[1u8, 2, 3], [7; 32], &mut wire);
    s.unwrap();
    assert_eq!(r.unwrap().dwell_ms, 900);
}

#[test]
fn send_handshake_sets_version_before_go_is_shown() {
    let cfg = LinkConfig::fast();
    let mut wire = Wire::new();
    let (s, r) = handshake(cfg, cfg, 5, &[1u8, 2, 3, 4, 5], [1; 32], &mut wire);
    s.unwrap();
    r.unwrap();
    assert_eq!(wire.version_set_before_go, Some(true));
}

#[test]
fn recv_handshake_sets_version_before_link_is_shown() {
    let cfg = LinkConfig::fast();
    let mut wire = Wire::new();
    let (s, r) = handshake(cfg, cfg, 5, &[1u8, 2, 3, 4, 5], [1; 32], &mut wire);
    s.unwrap();
    r.unwrap();
    assert_eq!(wire.version_set_before_link, Some(true));
}

#[test]
fn handshake_does_not_stop_for_the_operator() {
    let mut wire = Wire::new();
    let (s, r) = handshake(LinkConfig::fast(), LinkConfig::fast(), 10, &[1u8, 2, 3], [7; 32], &mut wire);
    s.unwrap();
    r.unwrap();
    assert!(wire.prompts.is_empty());
    for wanted in ["receiver said HELLO", "linked at QR v", "sender found", "offer: dir"] {
        assert!(wire.logs.iter().any(|line| line.contains(wanted)), "{:?}", wire.logs);
    }
}

#[test]
fn a_terminal_that_cannot_draw_large_codes_never_offers_or_picks_them() {
    let cfg = LinkConfig {
        fast: true,
        max_qr_version: 15,
        ..LinkConfig::default()
    };
    let mut wire = Wire::new();
    let (s, r) = handshake(cfg, cfg, 10, &[1u8, 2, 3], [7; 32], &mut wire);
    assert_eq!(r.unwrap().qr_version, 15);
    assert_eq!(s.unwrap().qr_version, 15);
    assert!(
        wire.shown_by_a
            .iter()
            .all(|payload| !matches!(payload, Payload::Probe { qr_version, .. } if *qr_version > 15)),
        "probes above the display limit must never be offered"
    );
    // The four probes above v15 were never on the table, so they are not
    // losses: a clean capped link must report 0%, not 66%.
    assert!(
        wire.logs.iter().any(|line| line.contains("0% probe loss")),
        "{:?}",
        wire.logs
    );
}

#[test]
fn a_link_that_cannot_sustain_big_codes_is_walked_down_until_it_can() {
    let blob = bytes(1200);
    // Probes pass at every version, but DATA only survives at v15 or less.
    const CEILING: u8 = 15;
    let cfg = TransportConfig::fast();
    for attempt in 0..MAX_ATTEMPTS {
        let plan = attempt_plan(attempt, 40);
        let link_cfg = LinkConfig {
            fast: true,
            max_qr_version: plan.max_qr_version,
            dwell_floor_ms: plan.dwell_floor_ms,
            ..LinkConfig::default()
        };
        let mut wire = Wire::new();
        let (s, r) = handshake(
            link_cfg,
            link_cfg,
            blob.len() as u64,
            &blob,
            digest::sha256(&blob),
            &mut wire,
        );
        let (s, r) = (s.unwrap(), r.unwrap());
        let mut sender = BlobSender::new(&blob, &s, cfg, wire.now).unwrap();
        let mut receiver = BlobReceiver::new(&r, cfg, wire.now).unwrap();
        let version = s.qr_version;
        wire.run(&mut sender, &mut receiver, &mut |_, p| {
            matches!(p, Payload::Data { .. }) && version > CEILING
        });
        match receiver.result() {
            Ok(got) => {
                wire.to_a.push_back(Payload::Okay);
                wire.finish(&mut sender);
                sender.result().unwrap();
                assert_eq!(got, blob, "the file must arrive intact");
                assert!(version <= CEILING);
                assert!(
                    attempt > 0,
                    "the first attempt was supposed to stall and trigger a retry"
                );
                return;
            }
            Err(err) => {
                assert!(is_retryable(&err));
                wire.finish(&mut sender);
                assert!(is_retryable(&sender.result().unwrap_err()));
            }
        }
    }
    panic!("the ladder should reach a workable rung");
}

/// Answers like a peer, but declines to start.
struct Declining {
    inner: PairEnd,
    step: usize,
    logs: Vec<String>,
}

impl Optical for Declining {
    fn show(&mut self, payload: &Payload) -> Result<()> {
        self.inner.show(payload)
    }

    fn poll(&mut self, _timeout: Duration) -> Result<Option<Payload>> {
        self.step += 1;
        Ok(match self.step {
            1 => Some(Payload::Hello { protocol_ver: 1, role: 2 }),
            2 => Some(Payload::Link { qr_version: 10, dwell_ms: 1, probe_loss: 0 }),
            _ => Some(Payload::Ack { window_base: 0, bitmap: 0 }),
        })
    }

    fn hold(&mut self, _dwell_ms: u16) {}

    fn set_status(&mut self, _status: &Progress) {}

    fn set_version(&mut self, _version: u8) {}

    fn log(&mut self, line: &str) {
        self.logs.push(line.to_string());
    }

    fn suggested_dwell_ms(&mut self) -> u16 {
        0
    }

    fn gate(&mut self, _prompt: &str) -> Result<bool> {
        Ok(false)
    }
}

#[test]
fn a_declined_transfer_does_not_walk_the_ladder() {
    let (a, _b) = pair();
    let mut opt = Declining {
        inner: a,
        step: 0,
        logs: Vec::new(),
    };
    let blob = bytes(100);
    let err = send_with_fallback(&mut opt, "dir", 100, &blob, digest::sha256(&blob), 40)
        .unwrap_err();
    assert!(matches!(err, Error::Aborted));
    assert!(!opt.logs.iter().any(|line| line.starts_with("retry")));
}

/// Never sees a usable probe.
struct Hopeless {
    logs: Vec<String>,
}

impl Optical for Hopeless {
    fn show(&mut self, _payload: &Payload) -> Result<()> {
        Ok(())
    }

    fn poll(&mut self, _timeout: Duration) -> Result<Option<Payload>> {
        Ok(Some(Payload::Probe { id: 77, qr_version: 10, dwell_ms: 1, last: true }))
    }

    fn hold(&mut self, _dwell_ms: u16) {}

    fn set_status(&mut self, _status: &Progress) {}

    fn set_version(&mut self, _version: u8) {}

    fn log(&mut self, line: &str) {
        self.logs.push(line.to_string());
    }

    fn suggested_dwell_ms(&mut self) -> u16 {
        0
    }

    fn gate(&mut self, _prompt: &str) -> Result<bool> {
        Ok(true)
    }
}

#[test]
fn the_ladder_ends_after_its_last_rung() {
    let mut opt = Hopeless { logs: Vec::new() };
    let err = recv_with_fallback(&mut opt, "nowhere-at-all", false, 40).unwrap_err();
    assert!(matches!(err, Error::NoUsableProbe));
    assert_eq!(opt.logs.len(), 2 * (MAX_ATTEMPTS - 1));
    assert_eq!(
        opt.logs[0],
        "attempt 1 failed: no usable QR version (lighting, distance, or font)"
    );
    assert_eq!(opt.logs[1], "retry 2/10: QR v30 max, 300 ms per code");
}

#[test]
fn the_digest_is_sha256() {
    let digest = digest::sha256(b"abc");
    assert_eq!(digest[..4], [0xba, 0x78, 0x16, 0xbf]);
    assert_eq!(digest[28..], [0xf2, 0x00, 0x15, 0xad]);
}
