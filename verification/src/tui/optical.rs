//! What the display's side of the channel decides.
use crate::error::{Error, ErrorView, Result};
use crate::frame;
use crate::frame::{Payload, PayloadView};
use crate::live;
use crate::qr;
use crate::qr::GrayImage;
use crate::text;
use vstd::prelude::*;

verus! {

/// Decode attempts each displayed code should get. One would mean every missed
/// frame is a lost chunk; three leaves room for glare, focus hunting, and the
/// occasional dropped frame.
pub const DECODE_ATTEMPTS_PER_CODE: u64 = 3;

/// Bounds on the dwell we will ask the sender for.
pub const MIN_SUGGESTED_DWELL_MS: u64 = 120;

pub const MAX_SUGGESTED_DWELL_MS: u64 = 1200;

/// What the operator chose at a turn boundary.
#[derive(Clone, Copy, Debug, PartialEq, Eq, Structural)]
pub enum GateReply {
    Proceed,
    Abort,
}

/// A short human label for a payload.
pub open spec fn label_of(payload: PayloadView) -> Seq<char> {
    match payload {
        PayloadView::Hello { .. } => "HELLO"@,
        PayloadView::Probe { id, qr_version, .. } => "PROBE "@ + text::decimal(id as nat) + " (v"@
            + text::decimal(qr_version as nat) + ")"@,
        PayloadView::Link { qr_version, .. } => "LINK (v"@ + text::decimal(qr_version as nat)
            + ")"@,
        PayloadView::Go { basename, .. } => "GO "@ + basename,
        PayloadView::Ack { window_base, .. } => "ACK @"@ + text::decimal(window_base as nat),
        PayloadView::Data { seq, .. } => "DATA #"@ + text::decimal(seq as nat),
        PayloadView::Fin { .. } => "FIN"@,
        PayloadView::Okay => "OK"@,
        PayloadView::Fail { reason } => "FAIL "@ + text::decimal(reason as nat),
    }
}

/// A short human label for the payload currently on screen.
pub fn payload_label(payload: &Payload) -> (label: String)
    ensures
        label@ == label_of(payload@),
{
    let mut label = String::new();
    match payload {
        Payload::Hello { .. } => label.append("HELLO"),
        Payload::Probe { id, qr_version, .. } => {
            label.append("PROBE ");
            text::push_decimal(&mut label, *id as u64);
            label.append(" (v");
            text::push_decimal(&mut label, *qr_version as u64);
            label.append(")");
        },
        Payload::Link { qr_version, .. } => {
            label.append("LINK (v");
            text::push_decimal(&mut label, *qr_version as u64);
            label.append(")");
        },
        Payload::Go { basename, .. } => {
            label.append("GO ");
            label.append(basename.as_str());
        },
        Payload::Ack { window_base, .. } => {
            label.append("ACK @");
            text::push_decimal(&mut label, *window_base as u64);
        },
        Payload::Data { seq, .. } => {
            label.append("DATA #");
            text::push_decimal(&mut label, *seq as u64);
        },
        Payload::Fin { .. } => label.append("FIN"),
        Payload::Okay => label.append("OK"),
        Payload::Fail { reason } => {
            label.append("FAIL ");
            text::push_decimal(&mut label, *reason as u64);
        },
    }
    label
}

/// The dwell to ask for, given the typical gap between decodes: enough for
/// several attempts, within bounds; no opinion without a gap.
pub open spec fn dwell_for(gap_ms: Option<u64>) -> u16 {
    match gap_ms {
        None => 0,
        Some(gap) => if gap * DECODE_ATTEMPTS_PER_CODE < MIN_SUGGESTED_DWELL_MS {
            120
        } else if gap * DECODE_ATTEMPTS_PER_CODE > MAX_SUGGESTED_DWELL_MS {
            1200
        } else {
            (gap * DECODE_ATTEMPTS_PER_CODE) as u16
        },
    }
}

/// The dwell this side should ask the sender for.
pub fn suggested_dwell(gap_ms: Option<u64>) -> (dwell_ms: u16)
    ensures
        dwell_ms == dwell_for(gap_ms),
{
    match gap_ms {
        None => 0,
        Some(gap) => {
            // Anything this slow is beyond the upper bound already.
            if gap > MAX_SUGGESTED_DWELL_MS {
                return 1200;
            }
            let wanted: u64 = gap * DECODE_ATTEMPTS_PER_CODE;
            if wanted < MIN_SUGGESTED_DWELL_MS {
                120
            } else if wanted > MAX_SUGGESTED_DWELL_MS {
                1200
            } else {
                wanted as u16
            }
        },
    }
}

/// The error to report when the UI side of a channel goes away.
///
/// The UI drops its queue as soon as the operator quits, which usually beats
/// the protocol's next interrupt check by a few milliseconds. Reporting a
/// plumbing failure there would mask a deliberate Ctrl-C or `q`.
pub fn display_closed(interrupted: bool) -> (err: Error)
    ensures
        err@ == (if interrupted {
            ErrorView::Interrupted
        } else {
            ErrorView::Message("display closed"@)
        }),
{
    if interrupted {
        Error::Interrupted
    } else {
        Error::Message(String::from_str("display closed"))
    }
}

/// Why `payload` cannot be put on screen, if it cannot.
pub open spec fn unshowable(payload: PayloadView, locked: u8) -> Option<ErrorView> {
    if !frame::frameable(payload) {
        Some(ErrorView::BadFrame)
    } else {
        qr::refusal(frame::frame_bytes(payload).len(), live::version_for(payload, locked))
    }
}

/// The code that puts `payload` on screen when `locked` is the negotiated
/// version.
pub fn paint(payload: &Payload, locked: u8) -> (image: Result<GrayImage>)
    ensures
        match image {
            Ok(img) => unshowable(payload@, locked) is None && qr::is_raster_of(
                img,
                frame::frame_bytes(payload@),
                live::version_for(payload@, locked),
            ),
            Err(e) => unshowable(payload@, locked) == Some(e@),
        },
{
    let bytes: Vec<u8> = match frame::encode(payload) {
        Ok(bytes) => bytes,
        Err(e) => return Err(e),
    };
    qr::encode_version(bytes.as_slice(), live::encode_version_for(payload, locked))
}

/// The state of a question put to the UI.
pub enum Answered<T> {
    Yes(T),
    NotYet,
    /// The UI is gone.
    Never,
}

/// What waiting for a code to be painted comes to; nothing while it is not.
pub fn painted_verdict(interrupted: bool, drawn: Answered<()>) -> (verdict: Option<Result<()>>)
    ensures
        match verdict {
            Some(Ok(_)) => !interrupted && drawn is Yes,
            Some(Err(e)) => if interrupted {
                e@ == ErrorView::Interrupted
            } else {
                drawn is Never && e@ == ErrorView::Message("display closed"@)
            },
            None => !interrupted && drawn is NotYet,
        },
{
    if interrupted {
        return Some(Err(Error::Interrupted));
    }
    match drawn {
        Answered::Yes(_) => Some(Ok(())),
        Answered::NotYet => None,
        Answered::Never => Some(Err(display_closed(false))),
    }
}

/// What waiting for the operator comes to; nothing while they think.
pub fn gate_verdict(interrupted: bool, reply: Answered<GateReply>) -> (verdict: Option<
    Result<bool>,
>)
    ensures
        match verdict {
            Some(Ok(go)) => !interrupted && reply == Answered::Yes(
                if go {
                    GateReply::Proceed
                } else {
                    GateReply::Abort
                },
            ),
            Some(Err(e)) => if interrupted {
                e@ == ErrorView::Interrupted
            } else {
                reply is Never && e@ == ErrorView::Message("display closed"@)
            },
            None => !interrupted && reply is NotYet,
        },
{
    if interrupted {
        return Some(Err(Error::Interrupted));
    }
    match reply {
        Answered::Yes(GateReply::Proceed) => Some(Ok(true)),
        Answered::Yes(GateReply::Abort) => Some(Ok(false)),
        Answered::NotYet => None,
        Answered::Never => Some(Err(display_closed(false))),
    }
}

/// Whether a poll is over before the camera's queue is even looked at: an
/// interrupt or a dead camera ends it.
pub fn poll_blocked(interrupted: bool, failure: Option<String>) -> (blocked: Option<Error>)
    ensures
        match blocked {
            Some(e) => if interrupted {
                e@ == ErrorView::Interrupted
            } else {
                failure matches Some(text) && e@ == ErrorView::Camera(text@)
            },
            None => !interrupted && failure is None,
        },
{
    if interrupted {
        return Some(Error::Interrupted);
    }
    match failure {
        Some(text) => Some(Error::Camera(text)),
        None => None,
    }
}

/// What a look at the queue comes to: a payload ends the poll, and so does the
/// deadline; otherwise there is another look.
pub fn poll_verdict(next: Option<Payload>, expired: bool) -> (verdict: Option<Option<Payload>>)
    ensures
        match next {
            Some(payload) => verdict == Some(Some(payload)),
            None => if expired {
                verdict == Some(None::<Payload>)
            } else {
                verdict is None
            },
        },
{
    match next {
        Some(payload) => Some(Some(payload)),
        None => if expired {
            Some(None)
        } else {
            None
        },
    }
}

/// What is said of the code on screen.
pub proof fn law_labels_name_the_code(payload: PayloadView)
    ensures
        payload is Hello ==> label_of(payload) == "HELLO"@,
        payload matches PayloadView::Probe { id, qr_version, .. } ==> label_of(payload) == "PROBE "@
            + text::decimal(id as nat) + " (v"@ + text::decimal(qr_version as nat) + ")"@,
        payload matches PayloadView::Link { qr_version, .. } ==> label_of(payload) == "LINK (v"@
            + text::decimal(qr_version as nat) + ")"@,
        payload matches PayloadView::Go { basename, .. } ==> label_of(payload) == "GO "@ + basename,
        payload matches PayloadView::Ack { window_base, .. } ==> label_of(payload) == "ACK @"@
            + text::decimal(window_base as nat),
        payload is Data ==> label_of(payload) == "DATA #"@ + text::decimal(payload->seq as nat),
        payload is Fin ==> label_of(payload) == "FIN"@,
        payload is Okay ==> label_of(payload) == "OK"@,
        payload matches PayloadView::Fail { reason } ==> label_of(payload) == "FAIL "@
            + text::decimal(reason as nat),
{
}

/// The dwell that is asked for gives the camera three attempts at each code,
/// within 120 and 1200 ms; without a known pace nothing is asked for.
pub proof fn law_the_dwell_allows_three_attempts(gap_ms: u64)
    ensures
        dwell_for(None) == 0,
        120 <= dwell_for(Some(gap_ms)) <= 1200,
        40 <= gap_ms <= 400 ==> dwell_for(Some(gap_ms)) == 3 * gap_ms,
        gap_ms < 40 ==> dwell_for(Some(gap_ms)) == 120,
        gap_ms > 400 ==> dwell_for(Some(gap_ms)) == 1200,
{
}

/// A payload can be shown if it can be framed and its frame fits the version it
/// is shown at.
pub proof fn law_what_can_be_shown(payload: PayloadView, locked: u8)
    ensures
        ({
            let version = match payload {
                PayloadView::Probe { qr_version, .. } => qr_version,
                _ => locked,
            };
            let len = frame::frame_bytes(payload).len();
            &&& unshowable(payload, locked) is None <==> frame::frameable(payload) && len
                <= frame::frame_room(version) && 1 <= version <= 40
            &&& !frame::frameable(payload) ==> unshowable(payload, locked) == Some(
                ErrorView::BadFrame,
            )
            &&& frame::frameable(payload) ==> unshowable(payload, locked) == qr::refusal(
                len,
                version,
            )
        }),
{
}

} // verus!
