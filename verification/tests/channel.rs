use std::collections::HashSet;
use std::time::Duration;

use airgap_xfer::error::{Error, Result};
use airgap_xfer::frame::Payload;
use airgap_xfer::optical::{pair, Lossy, Optical, PairEnd, Progress};

#[test]
fn pair_delivers_hello() {
    let (mut a, mut b) = pair();
    a.show(&Payload::Hello {
        protocol_ver: 1,
        role: 2,
    })
    .unwrap();
    match b.poll(Duration::from_millis(1)).unwrap() {
        Some(Payload::Hello { role, .. }) => assert_eq!(role, 2),
        other => panic!("{other:?}"),
    }
}

#[test]
fn lossy_drops_configured_data_seq() {
    let (mut send, recv) = pair();
    let mut recv = Lossy::new(recv, [3].into_iter().collect());
    send.show(&Payload::Data {
        seq: 3,
        chunk: vec![1],
    })
    .unwrap();
    assert!(recv.poll(Duration::from_millis(1)).unwrap().is_none());
    send.show(&Payload::Data {
        seq: 4,
        chunk: vec![2],
    })
    .unwrap();
    match recv.poll(Duration::from_millis(1)).unwrap() {
        Some(Payload::Data { seq, .. }) => assert_eq!(seq, 4),
        other => panic!("{other:?}"),
    }
}

#[test]
fn lossy_drops_each_seq_once() {
    let (mut send, recv) = pair();
    let drop_data_seq: HashSet<u32> = [3].into_iter().collect();
    let mut recv = Lossy::new(recv, drop_data_seq);
    let data = Payload::Data {
        seq: 3,
        chunk: vec![1],
    };
    send.show(&data).unwrap();
    send.show(&data).unwrap();
    assert!(recv.poll(Duration::from_millis(1)).unwrap().is_none());
    assert_eq!(recv.poll(Duration::from_millis(1)).unwrap(), Some(data));
    assert!(recv.drop_data_seq.is_empty());
}

#[test]
fn a_silent_peer_is_nothing_and_a_missing_one_an_error() {
    let (a, mut b) = pair();
    assert!(b.poll(Duration::from_millis(1)).unwrap().is_none());
    drop(a);
    match b.poll(Duration::from_millis(1)) {
        Err(Error::Message(m)) => assert_eq!(m, "optical peer disconnected"),
        other => panic!("{other:?}"),
    }
    match b.show(&Payload::Okay) {
        Err(Error::Message(m)) => assert_eq!(m, "optical peer disconnected"),
        other => panic!("{other:?}"),
    }
}

#[test]
fn what_one_end_shows_the_other_polls_in_order() {
    let (mut a, mut b) = pair();
    let frames: Vec<Payload> = (0..5)
        .map(|seq| Payload::Data {
            seq,
            chunk: vec![seq as u8; 3],
        })
        .collect();
    for frame in &frames {
        a.show(frame).unwrap();
    }
    b.show(&Payload::Okay).unwrap();
    for frame in frames {
        assert_eq!(b.poll(Duration::from_millis(1)).unwrap(), Some(frame));
    }
    assert_eq!(b.poll(Duration::from_millis(1)).unwrap(), None);
    // Nothing of its own comes back to an end.
    assert_eq!(a.poll(Duration::from_millis(1)).unwrap(), Some(Payload::Okay));
    assert_eq!(a.poll(Duration::from_millis(1)).unwrap(), None);
}

#[test]
fn a_peer_that_left_is_read_out_before_it_is_missed() {
    let (mut a, mut b) = pair();
    a.show(&Payload::Okay).unwrap();
    a.show(&Payload::Fail { reason: 2 }).unwrap();
    drop(a);
    assert_eq!(b.poll(Duration::from_millis(1)).unwrap(), Some(Payload::Okay));
    assert_eq!(
        b.poll(Duration::from_millis(1)).unwrap(),
        Some(Payload::Fail { reason: 2 })
    );
    assert!(b.poll(Duration::from_millis(1)).is_err());
}

#[test]
fn a_frame_that_cannot_be_encoded_is_not_sent() {
    let (mut a, mut b) = pair();
    let chunk = vec![0u8; 0x10000];
    assert!(matches!(
        a.show(&Payload::Data { seq: 0, chunk }),
        Err(Error::BadFrame)
    ));
    assert!(b.poll(Duration::from_millis(1)).unwrap().is_none());
}

#[test]
fn show_many_shows_in_order() {
    let (mut a, mut b) = pair();
    let payloads = vec![Payload::Okay, Payload::Fail { reason: 3 }];
    a.show_many(&payloads).unwrap();
    assert_eq!(b.poll(Duration::from_millis(1)).unwrap(), Some(Payload::Okay));
    assert_eq!(
        b.poll(Duration::from_millis(1)).unwrap(),
        Some(Payload::Fail { reason: 3 })
    );
    assert_eq!(a.tile_count(), 1);
}

struct Refusing {
    inner: PairEnd,
    shown: usize,
}

impl Optical for Refusing {
    fn show(&mut self, payload: &Payload) -> Result<()> {
        if self.shown == 1 {
            return Err(Error::Message("no more".into()));
        }
        self.shown += 1;
        self.inner.show(payload)
    }

    fn poll(&mut self, timeout: Duration) -> Result<Option<Payload>> {
        self.inner.poll(timeout)
    }

    fn hold(&mut self, _dwell_ms: u16) {}

    fn set_status(&mut self, _status: &Progress) {}

    fn set_version(&mut self, _version: u8) {}

    fn log(&mut self, _line: &str) {}

    fn suggested_dwell_ms(&mut self) -> u16 {
        0
    }

    fn gate(&mut self, prompt: &str) -> Result<bool> {
        Ok(prompt == "go")
    }
}

#[test]
fn show_many_stops_at_the_first_failure() {
    let (a, mut b) = pair();
    let mut a = Refusing { inner: a, shown: 0 };
    let payloads = vec![Payload::Okay, Payload::Okay, Payload::Okay];
    assert!(matches!(a.show_many(&payloads), Err(Error::Message(_))));
    assert!(b.poll(Duration::from_millis(1)).unwrap().is_some());
    assert!(b.poll(Duration::from_millis(1)).unwrap().is_none());
}

#[test]
fn aiming_gates_are_ordinary_gates_by_default() {
    let (a, _b) = pair();
    let mut a = Refusing { inner: a, shown: 0 };
    assert!(a.gate_locked("go").unwrap());
    assert!(!a.wait_locked("stop").unwrap());
    let (mut c, _d) = pair();
    assert!(c.gate("anything").unwrap());
    assert_eq!(c.suggested_dwell_ms(), 0);
}
