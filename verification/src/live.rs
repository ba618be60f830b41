//! Interrupts, camera errors, and which version a frame is shown at.
use crate::error::{Error, ErrorView, Result};
use crate::frame::{Payload, PayloadView};
use vstd::prelude::*;

verus! {

/// Stops here if the operator asked to.
pub fn check_interrupted(interrupted: bool) -> (outcome: Result<()>)
    ensures
        match outcome {
            Ok(_) => !interrupted,
            Err(e) => interrupted && e@ == ErrorView::Interrupted,
        },
{
    if interrupted {
        return Err(Error::Interrupted);
    }
    Ok(())
}

/// A camera error, with a hint about permissions.
pub fn camera_error(err: &str, hint: &str) -> (error: Error)
    ensures
        error@ == ErrorView::Camera(err@ + " ("@ + hint@ + ")"@),
{
    let mut line = String::from_str(err);
    line.append(" (");
    line.append(hint);
    line.append(")");
    Error::Camera(line)
}

/// The version that `payload` is shown at when `locked` is the negotiated one.
pub open spec fn version_for(payload: PayloadView, locked: u8) -> u8 {
    match payload {
        PayloadView::Probe { qr_version, .. } => qr_version,
        _ => locked,
    }
}

/// Selects the QR version to encode `payload` at: probes always use their own
/// advertised version; every other payload kind uses the currently `locked`
/// version.
pub fn encode_version_for(payload: &Payload, locked: u8) -> (version: u8)
    ensures
        version == version_for(payload@, locked),
{
    match payload {
        Payload::Probe { qr_version, .. } => *qr_version,
        _ => locked,
    }
}

/// A probe is shown at the version it advertises, everything else at the version
/// that was agreed on.
pub proof fn law_only_probes_choose_their_version(payload: PayloadView, locked: u8)
    ensures
        payload matches PayloadView::Probe { qr_version, .. } ==> version_for(payload, locked)
            == qr_version,
        !(payload is Probe) ==> version_for(payload, locked) == locked,
{
}

} // verus!
