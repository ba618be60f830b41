//! Everything that can end a transfer.
use crate::text;
use vstd::prelude::*;

verus! {

/// Why a transfer, or a step of one, did not complete.
#[derive(Debug)]
pub enum Error {
    /// A file operation failed; `disk_full` tells a full disk from the rest.
    Io { disk_full: bool, text: String },
    HandshakeTimeout,
    HandshakeFailed,
    NoUsableProbe,
    Camera(String),
    DestExists(String),
    EmptyArchive,
    HashMismatch,
    Stalled(Vec<u32>),
    BadFrame,
    /// The operator asked the program to stop.
    Interrupted,
    /// The operator declined to go on.
    Aborted,
    TerminalTooSmall { need_cols: u16, need_rows: u16, have_cols: u16, have_rows: u16 },
    Message(String),
}

/// What an [`Error`] says, without its representation.
#[verifier::ext_equal]
pub enum ErrorView {
    Io { disk_full: bool, text: Seq<char> },
    HandshakeTimeout,
    HandshakeFailed,
    NoUsableProbe,
    Camera(Seq<char>),
    DestExists(Seq<char>),
    EmptyArchive,
    HashMismatch,
    Stalled(Seq<u32>),
    BadFrame,
    Interrupted,
    Aborted,
    TerminalTooSmall { need_cols: u16, need_rows: u16, have_cols: u16, have_rows: u16 },
    Message(Seq<char>),
}

impl View for Error {
    type V = ErrorView;

    open spec fn view(&self) -> ErrorView {
        match *self {
            Error::Io { disk_full, text } => ErrorView::Io { disk_full, text: text@ },
            Error::HandshakeTimeout => ErrorView::HandshakeTimeout,
            Error::HandshakeFailed => ErrorView::HandshakeFailed,
            Error::NoUsableProbe => ErrorView::NoUsableProbe,
            Error::Camera(text) => ErrorView::Camera(text@),
            Error::DestExists(path) => ErrorView::DestExists(path@),
            Error::EmptyArchive => ErrorView::EmptyArchive,
            Error::HashMismatch => ErrorView::HashMismatch,
            Error::Stalled(missing) => ErrorView::Stalled(missing@),
            Error::BadFrame => ErrorView::BadFrame,
            Error::Interrupted => ErrorView::Interrupted,
            Error::Aborted => ErrorView::Aborted,
            Error::TerminalTooSmall { need_cols, need_rows, have_cols, have_rows } =>
                ErrorView::TerminalTooSmall { need_cols, need_rows, have_cols, have_rows },
            Error::Message(text) => ErrorView::Message(text@),
        }
    }
}

/// A result whose error is the library's own.
pub type Result<T> = std::result::Result<T, Error>;

/// The line shown to the operator for `err`.
pub open spec fn message_of(err: ErrorView) -> Seq<char> {
    match err {
        ErrorView::Io { text, .. } => "I/O: "@ + text,
        ErrorView::HandshakeTimeout => "point the other webcam at this terminal"@,
        ErrorView::HandshakeFailed => "handshake failed"@,
        ErrorView::NoUsableProbe => "no usable QR version (lighting, distance, or font)"@,
        ErrorView::Camera(text) => "camera: "@ + text,
        ErrorView::DestExists(path) => "destination exists: "@ + path + " (use --force)"@,
        ErrorView::EmptyArchive => "empty archive"@,
        ErrorView::HashMismatch => "hash mismatch"@,
        ErrorView::Stalled(missing) => "stalled: missing seqs "@ + "["@ + text::decimal_list(missing)
            + "]"@,
        ErrorView::BadFrame => "bad frame"@,
        ErrorView::Interrupted => "interrupted"@,
        ErrorView::Aborted => "aborted"@,
        ErrorView::TerminalTooSmall { need_cols, need_rows, have_cols, have_rows } =>
            "terminal too small: need "@ + text::decimal(need_cols as nat) + "x"@ + text::decimal(
                need_rows as nat,
            ) + " cells, have "@ + text::decimal(have_cols as nat) + "x"@ + text::decimal(
                have_rows as nat,
            ),
        ErrorView::Message(text) => text,
    }
}

impl Error {
    /// The line shown to the operator.
    pub fn message(&self) -> (line: String)
        ensures
            line@ == message_of(self@),
    {
        let mut line = String::new();
        match self {
            Error::Io { text, .. } => {
                line.append("I/O: ");
                line.append(text.as_str());
            },
            Error::HandshakeTimeout => line.append("point the other webcam at this terminal"),
            Error::HandshakeFailed => line.append("handshake failed"),
            Error::NoUsableProbe => line.append(
                "no usable QR version (lighting, distance, or font)",
            ),
            Error::Camera(text) => {
                line.append("camera: ");
                line.append(text.as_str());
            },
            Error::DestExists(path) => {
                line.append("destination exists: ");
                line.append(path.as_str());
                line.append(" (use --force)");
            },
            Error::EmptyArchive => line.append("empty archive"),
            Error::HashMismatch => line.append("hash mismatch"),
            Error::Stalled(missing) => {
                line.append("stalled: missing seqs ");
                text::push_decimal_list(&mut line, missing);
            },
            Error::BadFrame => line.append("bad frame"),
            Error::Interrupted => line.append("interrupted"),
            Error::Aborted => line.append("aborted"),
            Error::TerminalTooSmall { need_cols, need_rows, have_cols, have_rows } => {
                line.append("terminal too small: need ");
                text::push_decimal(&mut line, *need_cols as u64);
                line.append("x");
                text::push_decimal(&mut line, *need_rows as u64);
                line.append(" cells, have ");
                text::push_decimal(&mut line, *have_cols as u64);
                line.append("x");
                text::push_decimal(&mut line, *have_rows as u64);
            },
            Error::Message(text) => line.append(text.as_str()),
        }
        line
    }
}

/// What the operator reads of each failure.
pub proof fn law_what_the_operator_reads(err: ErrorView)
    ensures
        message_of(err) == match err {
            ErrorView::Io { disk_full, text } => "I/O: "@ + text,
            ErrorView::HandshakeTimeout => "point the other webcam at this terminal"@,
            ErrorView::HandshakeFailed => "handshake failed"@,
            ErrorView::NoUsableProbe => "no usable QR version (lighting, distance, or font)"@,
            ErrorView::Camera(text) => "camera: "@ + text,
            ErrorView::DestExists(path) => "destination exists: "@ + path + " (use --force)"@,
            ErrorView::EmptyArchive => "empty archive"@,
            ErrorView::HashMismatch => "hash mismatch"@,
            ErrorView::Stalled(missing) => "stalled: missing seqs "@ + "["@ + text::decimal_list(
                missing,
            ) + "]"@,
            ErrorView::BadFrame => "bad frame"@,
            ErrorView::Interrupted => "interrupted"@,
            ErrorView::Aborted => "aborted"@,
            ErrorView::TerminalTooSmall { need_cols, need_rows, have_cols, have_rows } =>
                "terminal too small: need "@ + text::decimal(need_cols as nat) + "x"@
                    + text::decimal(need_rows as nat) + " cells, have "@ + text::decimal(
                    have_cols as nat,
                ) + "x"@ + text::decimal(have_rows as nat),
            ErrorView::Message(text) => text,
        },
{
}

} // verus!
