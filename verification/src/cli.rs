//! What the command line tells the operator and the peer.
use crate::error::{Error, ErrorView, Result};
use crate::frame;
use crate::frame::{Payload, PayloadView};
use crate::link;
use crate::link::SessionView;
use crate::pack;
use crate::session::Completed;
use crate::text;
use vstd::prelude::*;

verus! {

/// Whether a run ended because the operator asked it to.
pub fn is_interrupted(result: &Result<()>) -> (interrupted: bool)
    ensures
        interrupted == (*result matches Err(e) && e@ == ErrorView::Interrupted),
{
    match result {
        Err(Error::Interrupted) => true,
        _ => false,
    }
}

/// The exit status of a run: 130 after an interrupt, 1 after any other error.
pub fn exit_code(result: &Result<()>) -> (code: i32)
    ensures
        code == match *result {
            Ok(_) => 0i32,
            Err(e) => if e@ == ErrorView::Interrupted {
                130
            } else {
                1
            },
        },
{
    match result {
        Ok(_) => 0,
        Err(_) => if is_interrupted(result) {
            130
        } else {
            1
        },
    }
}

pub open spec fn note_text(attempt: nat) -> Seq<char> {
    if attempt == 0 {
        Seq::empty()
    } else {
        ", attempt "@ + text::decimal(attempt + 1) + "/"@ + text::decimal(
            link::MAX_ATTEMPTS as nat,
        )
    }
}

/// Mentions which rung of the fallback ladder finally worked, and says nothing
/// when the first attempt did.
pub fn attempt_note(attempt: usize) -> (note: String)
    requires
        attempt < usize::MAX,
    ensures
        note@ == note_text(attempt as nat),
{
    let mut note = String::new();
    if attempt > 0 {
        note.append(", attempt ");
        text::push_decimal(&mut note, (attempt + 1) as u64);
        note.append("/");
        text::push_decimal(&mut note, link::MAX_ATTEMPTS as u64);
    }
    note
}

/// The title of the sender's screen.
pub fn send_title(basename: &str) -> (title: String)
    ensures
        title@ == "airgap-xfer · SEND "@ + basename@,
{
    let mut title = String::from_str("airgap-xfer · SEND ");
    title.append(basename);
    title
}

/// The title of the receiver's screen.
pub fn recv_title(outdir: &str) -> (title: String)
    ensures
        title@ == "airgap-xfer · RECV into "@ + outdir@,
{
    let mut title = String::from_str("airgap-xfer · RECV into ");
    title.append(outdir);
    title
}

pub open spec fn sent_text(session: SessionView, attempt: nat) -> Seq<char> {
    "sent "@ + session.basename + " ("@ + text::decimal(session.compressed_size as nat) + " B in "@
        + text::decimal(session.chunk_count as nat) + " chunks at QR v"@ + text::decimal(
        session.qr_version as nat,
    ) + note_text(attempt) + ")"@
}

/// The sender's closing line.
pub fn sent_summary(done: &Completed) -> (summary: String)
    requires
        done.attempt < usize::MAX,
    ensures
        summary@ == sent_text(done.session@, done.attempt as nat),
{
    let mut summary = String::from_str("sent ");
    summary.append(done.session.basename.as_str());
    summary.append(" (");
    text::push_decimal(&mut summary, done.session.compressed_size);
    summary.append(" B in ");
    text::push_decimal(&mut summary, done.session.chunk_count as u64);
    summary.append(" chunks at QR v");
    text::push_decimal(&mut summary, done.session.qr_version as u64);
    summary.append(attempt_note(done.attempt).as_str());
    summary.append(")");
    summary
}

pub open spec fn received_text(outdir: Seq<char>, basename: Seq<char>, attempt: nat) -> Seq<char> {
    "received "@ + pack::archive_name(basename) + " into "@ + outdir + " (unpacked "@ + basename
        + ")"@ + note_text(attempt)
}

/// The receiver's closing line.
pub fn received_summary(done: &Completed, outdir: &str) -> (summary: String)
    requires
        done.attempt < usize::MAX,
    ensures
        summary@ == received_text(outdir@, done.session@.basename, done.attempt as nat),
{
    let mut summary = String::from_str("received ");
    summary.append(pack::archive_filename(done.session.basename.as_str()).as_str());
    summary.append(" into ");
    summary.append(outdir);
    summary.append(" (unpacked ");
    summary.append(done.session.basename.as_str());
    summary.append(")");
    summary.append(attempt_note(done.attempt).as_str());
    summary
}

/// What the receiver tells the sender after writing and unpacking.
pub open spec fn reply_of(written: Result<()>) -> PayloadView {
    match written {
        Ok(_) => PayloadView::Okay,
        Err(e) => match e@ {
            ErrorView::Io { disk_full: true, .. } => PayloadView::Fail {
                reason: frame::FAIL_DISK,
            },
            _ => PayloadView::Fail { reason: frame::FAIL_PROTOCOL },
        },
    }
}

/// What to tell the sender once the blob is written and unpacked, or could not
/// be: it must not see OK before the data is durably on disk.
pub fn reply_for(written: &Result<()>) -> (reply: Payload)
    ensures
        reply@ == reply_of(*written),
{
    match written {
        Ok(_) => Payload::Okay,
        Err(Error::Io { disk_full: true, .. }) => Payload::Fail { reason: frame::FAIL_DISK },
        Err(_) => Payload::Fail { reason: frame::FAIL_PROTOCOL },
    }
}

/// The sender is told OK exactly when everything was written.
pub proof fn law_ok_means_written(written: Result<()>)
    ensures
        reply_of(written) == PayloadView::Okay <==> written is Ok,
{
}

/// The transcript line before the archive is written.
pub fn writing_line(basename: &str) -> (line: String)
    ensures
        line@ == "writing "@ + pack::archive_name(basename@),
{
    let mut line = String::from_str("writing ");
    line.append(pack::archive_filename(basename).as_str());
    line
}

/// A failure to write is told to the sender as what it is: a full disk, or
/// anything else.
pub proof fn law_a_full_disk_is_told_apart(written: Result<()>)
    ensures
        written matches Err(e) ==> {
            let full = e@ matches ErrorView::Io { disk_full: true, .. };
            reply_of(written) == PayloadView::Fail { reason: if full { 2 } else { 3 } }
        },
{
}

/// The closing lines say what was moved, where to, and at which version; the
/// attempt is mentioned only if it was not the first.
pub proof fn law_what_the_closing_lines_say(session: SessionView, outdir: Seq<char>, attempt: nat)
    ensures
        ({
            let note = if attempt == 0 {
                Seq::<char>::empty()
            } else {
                ", attempt "@ + text::decimal(attempt + 1) + "/"@ + text::decimal(10)
            };
            &&& sent_text(session, attempt) == "sent "@ + session.basename + " ("@ + text::decimal(
                session.compressed_size as nat,
            ) + " B in "@ + text::decimal(session.chunk_count as nat) + " chunks at QR v"@
                + text::decimal(session.qr_version as nat) + note + ")"@
            &&& received_text(outdir, session.basename, attempt) == "received "@ + (session.basename
                + ".tar.zst"@) + " into "@ + outdir + " (unpacked "@ + session.basename + ")"@ + note
        }),
{
}

} // verus!
