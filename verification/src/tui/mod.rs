//! What the terminal interface decides: how the screen is divided, what it
//! says, and what a key does.
//!
//! A QR code is unforgiving about the size of the terminal it is drawn in, so
//! the layout sheds everything else first. The transfer is not turn-based
//! after aiming: Enter confirms that the camera is tracking the other
//! terminal, and once more on the sender to start the file. Handshake probes,
//! ACKs, and the receive side then run unattended.
pub mod camera;
pub mod optical;
pub mod widget;

use crate::error;
use crate::error::{Error, ErrorView, Result};
use crate::qr;
use crate::qr::SUPPORTED_VERSIONS;
use crate::text;
use crate::tui::optical::GateReply;
use vstd::prelude::*;

verus! {

/// Rows the frame around the QR pane can never give up: the title line and a
/// single line for the prompt. Everything else (the QR block's border, the
/// footer hints, the prompt's own border, the transcript) is dropped as the
/// terminal gets shorter, because the QR code is the one element that cannot
/// shrink without becoming undecodable.
pub const FLOOR_CHROME_ROWS: u16 = 2;

/// Rows the transcript takes when there is room to spare.
pub const LOG_ROWS: u16 = 6;

/// Rows (and columns) a bordered block consumes.
pub const BORDER: u16 = 2;

/// Below this the preview is dropped and the QR pane takes the full width.
pub const MIN_PREVIEW_COLS: u16 = 24;

/// How many transcript lines to keep.
pub const LOG_LINES: usize = 200;

/// The rows that are left for a code on a terminal of `rows` rows.
pub open spec fn pane_rows(rows: u16) -> u16 {
    if rows < FLOOR_CHROME_ROWS {
        0
    } else {
        (rows - FLOOR_CHROME_ROWS) as u16
    }
}

/// Largest QR version this terminal can display in full, given its size.
///
/// Measured against [`FLOOR_CHROME_ROWS`] rather than the full frame: the
/// layout sheds its borders and transcript to make room, so refusing a code
/// that fits the stripped-down frame would reject terminals that work fine.
pub fn max_qr_version(cols: u16, rows: u16) -> (version: Result<u8>)
    ensures
        match version {
            Ok(v) => {
                &&& qr::fits_area(v, cols, pane_rows(rows))
                &&& exists|i: int| 0 <= i < 6 && #[trigger] SUPPORTED_VERSIONS@[i] == v
                &&& forall|i: int|
                    0 <= i < 6 && qr::fits_area(
                        #[trigger] SUPPORTED_VERSIONS@[i],
                        cols,
                        pane_rows(rows),
                    ) ==> SUPPORTED_VERSIONS@[i] <= v
            },
            Err(e) => {
                &&& forall|i: int|
                    0 <= i < 6 ==> !qr::fits_area(
                        #[trigger] SUPPORTED_VERSIONS@[i],
                        cols,
                        pane_rows(rows),
                    )
                &&& e@ == ErrorView::TerminalTooSmall {
                    need_cols: 65,
                    need_rows: 35,
                    have_cols: cols,
                    have_rows: rows,
                }
            },
        },
{
    let pane: u16 = rows.saturating_sub(FLOOR_CHROME_ROWS);
    match qr::max_version_for_area(cols, pane) {
        Some(version) => Ok(version),
        None => {
            let (need_cols, need_rows) = qr::cell_size_for_version(qr::smallest_version());
            Err(
                Error::TerminalTooSmall {
                    need_cols,
                    need_rows: need_rows + FLOOR_CHROME_ROWS,
                    have_cols: cols,
                    have_rows: rows,
                },
            )
        },
    }
}

/// The terminal size that the complaint asks for is exactly the smallest that
/// works.
pub proof fn law_minimum_terminal_size(cols: u16, rows: u16)
    ensures
        (exists|i: int|
            0 <= i < 6 && qr::fits_area(
                #[trigger] SUPPORTED_VERSIONS@[i],
                cols,
                pane_rows(rows),
            )) <==> cols >= 65 && rows >= 35,
{
    if cols >= 65 && rows >= 35 {
        assert(qr::fits_area(SUPPORTED_VERSIONS@[0], cols, pane_rows(rows)));
    }
}

/// How much of the frame this terminal can afford around a code, in rows
/// (columns only for the QR block's border).
#[derive(Clone, Copy, Debug, PartialEq, Eq, Structural)]
pub struct Chrome {
    /// Border around the QR pane: 0 or [`BORDER`].
    pub qr_border: u16,
    /// Transcript height including its border, or 0.
    pub log: u16,
    /// Prompt height: 1 bare, or 1 + [`BORDER`] when boxed.
    pub prompt: u16,
    /// Key-hint footer: 0 or 1.
    pub footer: u16,
}

/// What is left of `spare` rows after `cost` of them, if they can be had.
pub open spec fn spend(spare: int, cost: int, wanted: bool) -> int {
    if wanted && spare >= cost {
        spare - cost
    } else {
        spare
    }
}

/// The decoration for a terminal with `spare` rows beyond the code, the title
/// and a prompt line; `wide` says whether a border fits beside the code.
/// In order: a transcript of one line, the code's border, the footer, the
/// prompt's border, and then a longer transcript.
pub open spec fn decoration(spare: int, wide: bool) -> Chrome {
    let after_log = spend(spare, 3, true);
    let after_border = spend(after_log, 2, wide);
    let after_footer = spend(after_border, 1, true);
    let after_prompt = spend(after_footer, 2, true);
    Chrome {
        qr_border: if wide && after_log >= 2 {
            2
        } else {
            0
        },
        log: if spare < 3 {
            0
        } else if after_prompt > 3 {
            6
        } else {
            (3 + after_prompt) as u16
        },
        prompt: if after_footer >= 2 {
            3
        } else {
            1
        },
        footer: if after_border >= 1 {
            1
        } else {
            0
        },
    }
}

impl Chrome {
    /// Rows taken by everything but the code itself, the title line included.
    pub open spec fn used(self) -> int {
        1 + self.log + self.prompt + self.footer + self.qr_border
    }

    /// Adds decoration in descending order of usefulness, stopping as soon as
    /// the next piece would eat into the QR code.
    ///
    /// The transcript comes first because it is the only piece that carries
    /// information the operator cannot get elsewhere; the title line already
    /// names the frame on screen, and the key hints fold into the prompt when
    /// there is no footer row, so both of those are decoration.
    pub fn fit(width: u16, height: u16, qr_cols: u16, qr_rows: u16) -> (chrome: Chrome)
        requires
            qr_cols <= u16::MAX - BORDER,
            qr_rows <= u16::MAX - FLOOR_CHROME_ROWS,
        ensures
            chrome == decoration(
                if height > FLOOR_CHROME_ROWS + qr_rows {
                    height - FLOOR_CHROME_ROWS - qr_rows
                } else {
                    0
                },
                width >= qr_cols + BORDER,
            ),
    {
        let mut chrome = Chrome { qr_border: 0, log: 0, prompt: 1, footer: 0 };
        let mut spare: u16 = height.saturating_sub(FLOOR_CHROME_ROWS + qr_rows);
        // A boxed transcript needs its border plus at least one line.
        if spare > BORDER {
            chrome.log = BORDER + 1;
            spare = spare - (BORDER + 1);
        }
        if spare >= BORDER && width >= qr_cols + BORDER {
            chrome.qr_border = BORDER;
            spare = spare - BORDER;
        }
        if spare >= 1 {
            chrome.footer = 1;
            spare = spare - 1;
        }
        if spare >= BORDER {
            chrome.prompt = chrome.prompt + BORDER;
            spare = spare - BORDER;
        }
        // Anything still going spare grows the transcript back up.
        if chrome.log > 0 {
            let room: u16 = LOG_ROWS.saturating_sub(chrome.log);
            chrome.log = chrome.log + if spare < room {
                spare
            } else {
                room
            };
        }
        chrome
    }
}

/// Whatever decoration is chosen, the code keeps its full height: all of it
/// together never takes more rows than there are, wherever the bare frame
/// fits.
pub proof fn law_chrome_never_squeezes_the_code(spare: int, wide: bool)
    requires
        0 <= spare,
    ensures
        decoration(spare, wide).used() <= spare + FLOOR_CHROME_ROWS,
{
}

/// Spare rows go to the transcript before anything else, then to the code's
/// border if the terminal is wide enough, the footer and the prompt's border;
/// a bare terminal has none of them, and a roomy one all.
pub proof fn law_chrome_sheds_from_the_outside_in(spare: int, wide: bool)
    requires
        0 <= spare,
    ensures
        decoration(0, wide) == (Chrome { qr_border: 0, log: 0, prompt: 1, footer: 0 }),
        spare >= 3 <==> decoration(spare, wide).log >= 3,
        3 <= spare < 5 ==> decoration(spare, wide).qr_border == 0,
        spare >= 5 && wide ==> decoration(spare, wide).qr_border == BORDER,
        spare >= 6 ==> decoration(spare, wide).footer == 1,
        spare >= 8 ==> decoration(spare, wide).prompt == 1 + BORDER,
        spare >= 11 ==> decoration(spare, wide).log == LOG_ROWS,
        !wide ==> decoration(spare, wide).qr_border == 0,
        decoration(spare, wide).prompt > 1 ==> decoration(spare, wide).footer == 1,
{
}

/// A confirmation that the protocol waits for.
#[derive(Debug)]
pub struct Gate {
    pub prompt: String,
    /// Whether Enter counts only while the peer's screen is being tracked.
    pub require_lock: bool,
}

/// What the screen shows, apart from the code and the camera picture.
#[derive(Debug)]
pub struct Ui {
    pub title: String,
    pub camera_index: u32,
    /// The largest code this terminal agreed to display. The frame is sized
    /// for it from the first draw, so the layout does not lurch when the first
    /// QR appears or when a smaller version is negotiated.
    pub max_version: u8,
    pub invert: bool,
    /// Names the code on screen.
    pub label: String,
    pub status: String,
    /// The transcript.
    pub log: Vec<String>,
    pub gate: Option<Gate>,
    /// The line to leave on screen, once the transfer is over.
    pub done: Option<String>,
}

/// A [`Ui`] as mathematical data.
#[verifier::ext_equal]
pub struct UiView {
    pub title: Seq<char>,
    pub camera_index: u32,
    pub max_version: u8,
    pub invert: bool,
    pub label: Seq<char>,
    pub status: Seq<char>,
    pub log: Seq<Seq<char>>,
    pub gate: Option<(Seq<char>, bool)>,
    pub done: Option<Seq<char>>,
}

/// The lines of a transcript.
pub open spec fn lines(log: Seq<String>) -> Seq<Seq<char>> {
    log.map_values(|line: String| line@)
}

impl View for Ui {
    type V = UiView;

    open spec fn view(&self) -> UiView {
        UiView {
            title: self.title@,
            camera_index: self.camera_index,
            max_version: self.max_version,
            invert: self.invert,
            label: self.label@,
            status: self.status@,
            log: lines(self.log@),
            gate: match self.gate {
                Some(gate) => Some((gate.prompt@, gate.require_lock)),
                None => None,
            },
            done: match self.done {
                Some(summary) => Some(summary@),
                None => None,
            },
        }
    }
}

/// `log` with `line` at its end; the oldest line goes when there are too many.
pub open spec fn logged(log: Seq<Seq<char>>, line: Seq<char>) -> Seq<Seq<char>> {
    let longer = log.push(line);
    if longer.len() > LOG_LINES {
        longer.skip(1)
    } else {
        longer
    }
}

/// The transcript keeps its latest lines, and never more than its limit.
pub proof fn law_transcript_is_bounded(log: Seq<Seq<char>>, line: Seq<char>)
    requires
        log.len() <= LOG_LINES,
    ensures
        logged(log, line).len() <= LOG_LINES,
        logged(log, line).last() == line,
        log.len() < LOG_LINES ==> logged(log, line) == log.push(line),
{
}

/// A key that the operator pressed.
#[derive(Clone, Copy, Debug, PartialEq, Eq, Structural)]
pub enum Key {
    Enter,
    Esc,
    Char(char),
    Other,
}

/// What a key press leads to.
#[derive(Clone, Copy, Debug, PartialEq, Eq, Structural)]
pub enum KeyEffect {
    Nothing,
    /// The transfer is over and the screen can be left.
    Leave,
    /// The operator quits: an interrupt, not a decline. A waiting
    /// prompt stays unanswered so the protocol unwinds through its interrupt check.
    Interrupt,
    /// A waiting prompt gets this answer.
    Answer(GateReply),
}

/// Whether a key means to quit.
pub open spec fn quits(key: Key, control: bool) -> bool {
    key == Key::Char('q') || (control && key == Key::Char('c'))
}

/// What a key press does to a screen, and what it leads to. `locked` says
/// whether the peer's screen is being tracked.
pub open spec fn pressed(ui: UiView, key: Key, control: bool, locked: bool) -> (UiView, KeyEffect) {
    if ui.done is Some {
        (ui, KeyEffect::Leave)
    } else if quits(key, control) {
        (UiView { gate: None, ..ui }, KeyEffect::Interrupt)
    } else {
        match (key, ui.gate) {
            (Key::Enter, Some((_, require_lock))) => if require_lock && !locked {
                (ui, KeyEffect::Nothing)
            } else {
                (UiView { gate: None, ..ui }, KeyEffect::Answer(GateReply::Proceed))
            },
            (Key::Esc, Some(_)) => (
                UiView { gate: None, ..ui },
                KeyEffect::Answer(GateReply::Abort),
            ),
            _ => (ui, KeyEffect::Nothing),
        }
    }
}

/// A gate that needs a lock is answered "proceed" only while there is one, and
/// no key answers a gate that is not there.
pub proof fn law_enter_waits_for_the_lock(ui: UiView, key: Key, control: bool, locked: bool)
    ensures
        pressed(ui, key, control, locked).1 == KeyEffect::Answer(GateReply::Proceed) ==> ui.done
            is None && key == Key::Enter && (ui.gate matches Some(gate) && (gate.1 ==> locked)),
        pressed(ui, key, control, locked).1 is Answer ==> ui.gate is Some && pressed(
            ui,
            key,
            control,
            locked,
        ).0.gate is None,
{
}

/// A message from the protocol to the screen.
pub enum Message {
    /// A code went up.
    Show { invert: bool, label: String },
    Status(String),
    Log(String),
    Gate { prompt: String, require_lock: bool },
    Finished { summary: String },
}

/// What a message does to a screen.
pub open spec fn told(ui: UiView, message: Message) -> UiView {
    match message {
        Message::Show { invert, label } => UiView { invert, label: label@, ..ui },
        Message::Status(status) => UiView { status: status@, ..ui },
        Message::Log(line) => UiView { log: logged(ui.log, line@), ..ui },
        Message::Gate { prompt, require_lock } => UiView {
            gate: Some((prompt@, require_lock)),
            ..ui
        },
        Message::Finished { summary } => UiView {
            log: logged(ui.log, summary@),
            done: Some(summary@),
            gate: None,
            ..ui
        },
    }
}

impl Ui {
    pub fn new(title: &str, camera_index: u32, max_version: u8, invert: bool) -> (ui: Ui)
        ensures
            ui@ == (UiView {
                title: title@,
                camera_index,
                max_version,
                invert,
                label: Seq::empty(),
                status: Seq::empty(),
                log: Seq::empty(),
                gate: None,
                done: None,
            }),
    {
        Ui {
            title: String::from_str(title),
            camera_index,
            max_version,
            invert,
            label: String::new(),
            status: String::new(),
            log: Vec::new(),
            gate: None,
            done: None,
        }
    }

    /// Appends a line to the transcript.
    pub fn push_log(&mut self, line: String)
        ensures
            final(self)@ == (UiView { log: logged(old(self)@.log, line@), ..old(self)@ }),
    {
        self.log.push(line);
        assert(lines(self.log@) =~= old(self)@.log.push(line@));
        if self.log.len() > LOG_LINES {
            let ghost longer: Seq<String> = self.log@;
            self.log.remove(0);
            assert(self.log@ =~= longer.skip(1));
            assert(lines(self.log@) =~= lines(longer).skip(1));
        }
    }

    /// Handles a key press.
    pub fn press(&mut self, key: Key, control: bool, locked: bool) -> (effect: KeyEffect)
        ensures
            (final(self)@, effect) == pressed(old(self)@, key, control, locked),
    {
        let quit: bool = match key {
            Key::Char(c) => c == 'q' || (control && c == 'c'),
            _ => false,
        };
        if self.done.is_some() {
            return KeyEffect::Leave;
        }
        if quit {
            self.gate = None;
            return KeyEffect::Interrupt;
        }
        let reply: Option<GateReply> = match (key, &self.gate) {
            (Key::Enter, Some(gate)) => if gate.require_lock && !locked {
                None
            } else {
                Some(GateReply::Proceed)
            },
            (Key::Esc, Some(_)) => Some(GateReply::Abort),
            _ => None,
        };
        match reply {
            Some(reply) => {
                self.gate = None;
                KeyEffect::Answer(reply)
            },
            None => KeyEffect::Nothing,
        }
    }

    /// Handles a message; `true` means that a code went up, whose
    /// acknowledgement must follow the draw that actually puts it on screen.
    pub fn tell(&mut self, message: Message) -> (shown: bool)
        ensures
            final(self)@ == told(old(self)@, message),
            shown == (message is Show),
    {
        match message {
            Message::Show { invert, label } => {
                self.invert = invert;
                self.label = label;
                return true;
            },
            Message::Status(status) => {
                self.status = status;
            },
            Message::Log(line) => {
                self.push_log(line);
            },
            Message::Gate { prompt, require_lock } => {
                self.gate = Some(Gate { prompt, require_lock });
            },
            Message::Finished { summary } => {
                self.push_log(summary.clone());
                self.done = Some(summary);
                self.gate = None;
            },
        }
        false
    }

    /// Whether the loop ends when the protocol's side of the queue is gone: it
    /// goes on only to leave the closing line on screen.
    pub fn ends_without_protocol(&self) -> (ends: bool)
        ensures
            ends == (self@.done is None),
    {
        self.done.is_none()
    }
}

/// How long the screen may go without being drawn again, in milliseconds.
pub const REDRAW_MS: u64 = 80;

/// Whether to draw: something changed, or the picture is getting old.
pub fn needs_draw(dirty: bool, since_ms: u64) -> (draw: bool)
    ensures
        draw == (dirty || since_ms >= REDRAW_MS),
{
    dirty || since_ms >= REDRAW_MS
}

/// How the prompt is set off.
#[derive(Clone, Copy, Debug, PartialEq, Eq, Structural)]
pub enum Tone {
    /// The transfer is over.
    Done,
    /// The operator is wanted.
    Waiting,
    /// The operator is wanted, and the camera is tracking.
    Locked,
    /// Nothing to do but watch.
    Working,
}

/// The key hints.
pub open spec fn hints_text(ui: UiView, locked: bool) -> Seq<char> {
    match (ui.done, ui.gate) {
        (Some(_), _) => "any key: exit"@,
        (None, Some((_, require_lock))) => if require_lock && !locked {
            "keep aiming until ● tracking   Esc: abort   q: quit"@
        } else {
            "Enter: continue   Esc: abort   q: quit"@
        },
        (None, None) => "q: quit"@,
    }
}

/// How the prompt is set off.
pub open spec fn prompt_tone(ui: UiView, locked: bool) -> Tone {
    match (ui.done, ui.gate) {
        (Some(_), _) => Tone::Done,
        (None, Some((_, require_lock))) => if require_lock && locked {
            Tone::Locked
        } else {
            Tone::Waiting
        },
        (None, None) => Tone::Working,
    }
}

/// What the prompt says, without the key hints.
pub open spec fn prompt_base(ui: UiView, locked: bool) -> Seq<char> {
    match (ui.done, ui.gate) {
        (Some(summary), _) => summary,
        (None, Some((prompt, require_lock))) => if require_lock && !locked {
            "▶ Aim at the other terminal until tracking locks, then press Enter"@
        } else if require_lock {
            "▶ Tracking locked. "@ + prompt
        } else {
            "▶ "@ + prompt
        },
        (None, None) => if ui.status.len() == 0 {
            "working…"@
        } else {
            ui.status
        },
    }
}

/// What the prompt says: without a footer row, the key hints fold into it, so
/// the operator can still see that Enter is what moves things along.
pub open spec fn prompt_text(ui: UiView, locked: bool, footer: bool) -> Seq<char> {
    if footer {
        prompt_base(ui, locked)
    } else {
        prompt_base(ui, locked) + "   ["@ + hints_text(ui, locked) + "]"@
    }
}

pub open spec fn camera_text(camera_index: u32) -> Seq<char> {
    "  cam "@ + text::decimal(camera_index as nat) + "  ·  "@
}

pub open spec fn tracking_text(locked: bool) -> Seq<char> {
    if locked {
        "● tracking"@
    } else {
        "○ searching"@
    }
}

pub open spec fn counters_text(frames: u64, decodes: u64, label: Seq<char>) -> Seq<char> {
    let counts = "  ·  "@ + text::decimal(frames as nat) + " frames  ·  "@ + text::decimal(
        decodes as nat,
    ) + " decodes"@;
    if label.len() == 0 {
        counts
    } else {
        counts + "  ·  showing "@ + label
    }
}

/// Everything a draw needs to know, besides the code and the picture.
#[derive(Debug)]
pub struct Scene {
    pub chrome: Chrome,
    /// Cells of the largest code this terminal agreed to.
    pub qr_cols: u16,
    pub qr_rows: u16,
    /// Columns of the QR pane, its border included.
    pub pane_cols: u16,
    /// Whether there is room for the camera picture beside it.
    pub preview: bool,
    pub camera: String,
    pub tracking: String,
    pub counters: String,
    /// First transcript line that is visible.
    pub log_start: usize,
    pub hints: String,
    pub tone: Tone,
    pub prompt: String,
}

/// The decoration of a screen.
pub open spec fn scene_chrome(ui: UiView, width: u16, height: u16) -> Chrome {
    let cells = qr::cells_of(ui.max_version);
    decoration(
        if height > FLOOR_CHROME_ROWS + cells.1 {
            height - FLOOR_CHROME_ROWS - cells.1
        } else {
            0
        },
        width >= cells.0 + BORDER,
    )
}

/// How many transcript lines are visible.
pub open spec fn visible_lines(chrome: Chrome) -> nat {
    if chrome.log < BORDER {
        0
    } else {
        (chrome.log - BORDER) as nat
    }
}

impl Scene {
    /// Whether this is the scene of `ui` on a terminal of `width` by `height`
    /// cells.
    pub open spec fn shows(
        &self,
        ui: UiView,
        width: u16,
        height: u16,
        locked: bool,
        frames: u64,
        decodes: u64,
    ) -> bool {
        &&& self.chrome == scene_chrome(ui, width, height)
        &&& (self.qr_cols, self.qr_rows) == qr::cells_of(ui.max_version)
        &&& self.pane_cols == self.qr_cols + self.chrome.qr_border
        &&& self.preview == (width - self.pane_cols >= MIN_PREVIEW_COLS)
        &&& self.camera@ == camera_text(ui.camera_index)
        &&& self.tracking@ == tracking_text(locked)
        &&& self.counters@ == counters_text(frames, decodes, ui.label)
        &&& self.log_start == (if ui.log.len() > visible_lines(self.chrome) {
            ui.log.len() - visible_lines(self.chrome)
        } else {
            0
        })
        &&& self.hints@ == hints_text(ui, locked)
        &&& self.tone == prompt_tone(ui, locked)
        &&& self.prompt@ == prompt_text(ui, locked, self.chrome.footer > 0)
    }
}

impl Ui {
    fn hints(&self, locked: bool) -> (hints: &'static str)
        ensures
            hints@ == hints_text(self@, locked),
    {
        match (&self.done, &self.gate) {
            (Some(_), _) => "any key: exit",
            (None, Some(gate)) => if gate.require_lock && !locked {
                "keep aiming until ● tracking   Esc: abort   q: quit"
            } else {
                "Enter: continue   Esc: abort   q: quit"
            },
            (None, None) => "q: quit",
        }
    }

    fn tone(&self, locked: bool) -> (tone: Tone)
        ensures
            tone == prompt_tone(self@, locked),
    {
        match (&self.done, &self.gate) {
            (Some(_), _) => Tone::Done,
            (None, Some(gate)) => if gate.require_lock && locked {
                Tone::Locked
            } else {
                Tone::Waiting
            },
            (None, None) => Tone::Working,
        }
    }

    fn prompt(&self, locked: bool, footer: bool) -> (prompt: String)
        ensures
            prompt@ == prompt_text(self@, locked, footer),
    {
        let mut prompt = String::new();
        match (&self.done, &self.gate) {
            (Some(summary), _) => prompt.append(summary.as_str()),
            (None, Some(gate)) => if gate.require_lock && !locked {
                prompt.append("▶ Aim at the other terminal until tracking locks, then press Enter");
            } else if gate.require_lock {
                prompt.append("▶ Tracking locked. ");
                prompt.append(gate.prompt.as_str());
            } else {
                prompt.append("▶ ");
                prompt.append(gate.prompt.as_str());
            },
            (None, None) => if self.status.as_str().unicode_len() == 0 {
                prompt.append("working…");
            } else {
                prompt.append(self.status.as_str());
            },
        }
        assert(prompt@ =~= prompt_base(self@, locked));
        if !footer {
            prompt.append("   [");
            prompt.append(self.hints(locked));
            prompt.append("]");
        }
        prompt
    }

    fn counters(&self, frames: u64, decodes: u64) -> (counters: String)
        ensures
            counters@ == counters_text(frames, decodes, self@.label),
    {
        let mut counters = String::from_str("  ·  ");
        text::push_decimal(&mut counters, frames);
        counters.append(" frames  ·  ");
        text::push_decimal(&mut counters, decodes);
        counters.append(" decodes");
        if self.label.as_str().unicode_len() > 0 {
            counters.append("  ·  showing ");
            counters.append(self.label.as_str());
        }
        counters
    }

    /// Works out what a draw on a terminal of `width` by `height` cells shows.
    pub fn scene(&self, width: u16, height: u16, locked: bool, frames: u64, decodes: u64) -> (scene:
        Scene)
        ensures
            scene.shows(self@, width, height, locked, frames, decodes),
    {
        let (qr_cols, qr_rows) = qr::cell_size_for_version(self.max_version);
        let chrome: Chrome = Chrome::fit(width, height, qr_cols, qr_rows);
        let pane_cols: u16 = qr_cols + chrome.qr_border;
        let visible: usize = chrome.log.saturating_sub(BORDER) as usize;
        let mut camera = String::from_str("  cam ");
        text::push_decimal(&mut camera, self.camera_index as u64);
        camera.append("  ·  ");
        let tracking = String::from_str(
            if locked {
                "● tracking"
            } else {
                "○ searching"
            },
        );
        Scene {
            chrome,
            qr_cols,
            qr_rows,
            pane_cols,
            preview: width.saturating_sub(pane_cols) >= MIN_PREVIEW_COLS,
            camera,
            tracking,
            counters: self.counters(frames, decodes),
            log_start: self.log.len().saturating_sub(visible),
            hints: String::from_str(self.hints(locked)),
            tone: self.tone(locked),
            prompt: self.prompt(locked, chrome.footer > 0),
        }
    }
}

/// The line that asks the operator to aim.
pub open spec fn aim_text(camera_index: u32) -> Seq<char> {
    "Aim camera "@ + text::decimal(camera_index as nat)
        + " at the other terminal until tracking locks, then press Enter"@
}

pub fn aim_prompt(camera_index: u32) -> (prompt: String)
    ensures
        prompt@ == aim_text(camera_index),
{
    let mut prompt = String::from_str("Aim camera ");
    text::push_decimal(&mut prompt, camera_index as u64);
    prompt.append(" at the other terminal until tracking locks, then press Enter");
    prompt
}

/// Whether the transfer starts after aiming: only if the operator confirmed;
/// a decline aborts it.
pub fn after_aiming(confirmed: Result<bool>) -> (go: Result<()>)
    ensures
        match go {
            Ok(_) => confirmed matches Ok(true),
            Err(e) => match confirmed {
                Ok(yes) => !yes && e@ == ErrorView::Aborted,
                Err(cause) => e == cause,
            },
        },
{
    match confirmed {
        Ok(true) => Ok(()),
        Ok(false) => Err(Error::Aborted),
        Err(e) => Err(e),
    }
}

/// The closing line of a transfer.
pub open spec fn closing_text(result: Result<String>) -> Seq<char> {
    match result {
        Ok(summary) => "done — "@ + summary@,
        Err(e) => "failed — "@ + error::message_of(e@),
    }
}

pub fn closing_line(result: &Result<String>) -> (line: String)
    ensures
        line@ == closing_text(*result),
{
    let mut line = String::new();
    match result {
        Ok(summary) => {
            line.append("done — ");
            line.append(summary.as_str());
        },
        Err(e) => {
            line.append("failed — ");
            line.append(e.message().as_str());
        },
    }
    line
}

/// What a run comes to. The protocol's own error is the interesting one; a
/// screen error only matters if the protocol somehow succeeded anyway.
pub fn run_result(work: Result<String>, screen: Result<()>) -> (result: Result<String>)
    ensures
        match (work, screen) {
            (Err(e), _) => result == Err::<String, Error>(e),
            (Ok(_), Err(e)) => result == Err::<String, Error>(e),
            (Ok(summary), Ok(_)) => result == Ok::<String, Error>(summary),
        },
{
    match (work, screen) {
        (Err(e), _) => Err(e),
        (Ok(_), Err(e)) => Err(e),
        (Ok(summary), Ok(_)) => Ok(summary),
    }
}

/// The frame around a code takes two rows at least, the title and the prompt.
pub proof fn law_rows_left_for_a_code(rows: u16)
    ensures
        rows >= 2 ==> pane_rows(rows) == rows - 2,
        rows < 2 ==> pane_rows(rows) == 0,
{
}

/// How spare rows are spent: three on a transcript of one line, two on the
/// code's border if the terminal is wide enough, one on the footer, two on the
/// prompt's border, and what is left on up to three more lines of transcript.
pub proof fn law_how_spare_rows_are_spent(spare: int, wide: bool)
    requires
        0 <= spare,
    ensures
        ({
            let chrome = decoration(spare, wide);
            let border = if wide {
                2int
            } else {
                0
            };
            &&& spare < 3 ==> chrome.log == 0
            &&& chrome.qr_border == (if wide && (spare >= 5 || spare == 2) {
                2int
            } else {
                0
            })
            &&& spare == 1 ==> chrome.footer == 1 && chrome.prompt == 1
            &&& spare == 2 && !wide ==> chrome.footer == 1 && chrome.prompt == 1
            &&& spare == 2 && wide ==> chrome.footer == 0 && chrome.prompt == 1
            &&& spare == 3 ==> chrome == (Chrome { qr_border: 0, log: 3, prompt: 1, footer: 0 })
            &&& spare == 4 ==> chrome == (Chrome { qr_border: 0, log: 3, prompt: 1, footer: 1 })
            &&& spare >= 5 ==> {
                let rest = spare - 3 - border;
                &&& chrome.footer == (if rest >= 1 {
                    1int
                } else {
                    0
                })
                &&& chrome.prompt == (if rest >= 3 {
                    3int
                } else {
                    1
                })
                &&& chrome.log == (if rest >= 6 {
                    6int
                } else if rest >= 3 {
                    rest
                } else if rest == 2 {
                    4
                } else {
                    3
                })
            }
        }),
{
}

/// What a key does. Once the transfer is over any key leaves the screen. Before
/// that `q` and Ctrl-C interrupt it; Enter goes on, unless there is a lock to
/// wait for; Esc aborts; and any other key, or any key when nothing is asked,
/// does nothing.
pub proof fn law_what_keys_do(ui: UiView, key: Key, control: bool, locked: bool)
    ensures
        ({
            let (after, effect) = pressed(ui, key, control, locked);
            let quit = key == Key::Char('q') || key == Key::Char('c') && control;
            &&& ui.done is Some ==> after == ui && effect == KeyEffect::Leave
            &&& ui.done is None && quit ==> after == (UiView { gate: None, ..ui }) && effect
                == KeyEffect::Interrupt
            &&& ui.done is None && !quit ==> {
                &&& ui.gate matches Some(gate) ==> {
                    &&& key == Key::Enter && (locked || !gate.1) ==> after == (UiView {
                        gate: None,
                        ..ui
                    }) && effect == KeyEffect::Answer(GateReply::Proceed)
                    &&& key == Key::Enter && !locked && gate.1 ==> after == ui && effect
                        == KeyEffect::Nothing
                    &&& key == Key::Esc ==> after == (UiView { gate: None, ..ui }) && effect
                        == KeyEffect::Answer(GateReply::Abort)
                    &&& key != Key::Enter && key != Key::Esc ==> after == ui && effect
                        == KeyEffect::Nothing
                }
                &&& ui.gate is None ==> after == ui && effect == KeyEffect::Nothing
            }
        }),
{
}

/// The transcript keeps the latest 200 lines, in order.
pub proof fn law_the_transcript_keeps_its_order(log: Seq<Seq<char>>, line: Seq<char>)
    ensures
        log.len() < 200 ==> logged(log, line) == log.push(line),
        log.len() >= 200 ==> logged(log, line) == log.push(line).skip(1),
{
}

/// A message changes what it is about and nothing else.
pub proof fn law_what_messages_change(ui: UiView, message: Message)
    ensures
        ({
            let after = told(ui, message);
            &&& after.title == ui.title
            &&& after.camera_index == ui.camera_index
            &&& after.max_version == ui.max_version
            &&& message matches Message::Show { invert, label } ==> after.invert == invert
                && after.label == label@
            &&& !(message is Show) ==> after.invert == ui.invert && after.label == ui.label
            &&& message matches Message::Status(status) ==> after.status == status@
            &&& !(message is Status) ==> after.status == ui.status
            &&& message matches Message::Log(line) ==> after.log == logged(ui.log, line@)
            &&& message matches Message::Finished { summary } ==> after.log == logged(
                ui.log,
                summary@,
            ) && after.done == Some(summary@) && after.gate is None
            &&& !(message is Log) && !(message is Finished) ==> after.log == ui.log
            &&& !(message is Finished) ==> after.done == ui.done
            &&& message matches Message::Gate { prompt, require_lock } ==> after.gate == Some(
                (prompt@, require_lock),
            )
            &&& !(message is Gate) && !(message is Finished) ==> after.gate == ui.gate
        }),
{
}

/// What the prompt and the key hints say, and how they are set off: the closing
/// line once the transfer is over; what is asked, while something is; and how
/// far it has come otherwise. Without a footer the hints stand in the prompt.
pub proof fn law_what_the_prompt_says(ui: UiView, locked: bool)
    ensures
        prompt_text(ui, locked, true) == prompt_base(ui, locked),
        prompt_text(ui, locked, false) == prompt_base(ui, locked) + "   ["@ + hints_text(ui, locked)
            + "]"@,
        ui.done matches Some(summary) ==> prompt_base(ui, locked) == summary && hints_text(
            ui,
            locked,
        ) == "any key: exit"@ && prompt_tone(ui, locked) == Tone::Done,
        ui.done is None && ui.gate is None ==> {
            &&& prompt_tone(ui, locked) == Tone::Working
            &&& hints_text(ui, locked) == "q: quit"@
            &&& ui.status.len() > 0 ==> prompt_base(ui, locked) == ui.status
            &&& ui.status.len() == 0 ==> prompt_base(ui, locked) == "working…"@
        },
        ui.done is None ==> (ui.gate matches Some(gate) ==> {
            &&& !gate.1 ==> {
                &&& prompt_tone(ui, locked) == Tone::Waiting
                &&& prompt_base(ui, locked) == "▶ "@ + gate.0
            }
            &&& gate.1 && locked ==> {
                &&& prompt_tone(ui, locked) == Tone::Locked
                &&& prompt_base(ui, locked) == "▶ Tracking locked. "@ + gate.0
            }
            &&& gate.1 && !locked ==> {
                &&& prompt_tone(ui, locked) == Tone::Waiting
                &&& prompt_base(ui, locked)
                    == "▶ Aim at the other terminal until tracking locks, then press Enter"@
                &&& hints_text(ui, locked)
                    == "keep aiming until ● tracking   Esc: abort   q: quit"@
            }
            &&& locked || !gate.1 ==> hints_text(ui, locked)
                == "Enter: continue   Esc: abort   q: quit"@
        }),
{
}

/// What the title line says of the camera and the code.
pub proof fn law_what_the_title_line_says(
    camera_index: u32,
    frames: u64,
    decodes: u64,
    label: Seq<char>,
)
    ensures
        camera_text(camera_index) == "  cam "@ + text::decimal(camera_index as nat) + "  ·  "@,
        tracking_text(true) == "● tracking"@,
        tracking_text(false) == "○ searching"@,
        ({
            let counts = "  ·  "@ + text::decimal(frames as nat) + " frames  ·  "@ + text::decimal(
                decodes as nat,
            ) + " decodes"@;
            &&& label.len() == 0 ==> counters_text(frames, decodes, label) == counts
            &&& label.len() > 0 ==> counters_text(frames, decodes, label) == counts
                + "  ·  showing "@ + label
        }),
        aim_text(camera_index) == "Aim camera "@ + text::decimal(camera_index as nat)
            + " at the other terminal until tracking locks, then press Enter"@,
{
}

/// The closing line tells a success from a failure, and says what there is to
/// say of it.
pub proof fn law_what_the_closing_line_says(result: Result<String>)
    ensures
        result matches Ok(summary) ==> closing_text(result) == "done — "@ + summary@,
        result matches Err(e) ==> closing_text(result) == "failed — "@ + error::message_of(e@),
{
}

/// A screen is laid out for the largest code that the terminal agreed to. The
/// picture of the camera is beside it if 24 columns are left, and the transcript
/// shows its latest lines, as many as fit inside its border.
pub proof fn law_how_a_screen_is_laid_out(
    scene: Scene,
    ui: UiView,
    width: u16,
    height: u16,
    locked: bool,
    frames: u64,
    decodes: u64,
)
    requires
        scene.shows(ui, width, height, locked, frames, decodes),
    ensures
        scene.qr_cols == 25 + 4 * ui.max_version,
        2 * scene.qr_rows == 26 + 4 * ui.max_version,
        scene.chrome == decoration(
            if height >= 2 + scene.qr_rows {
                height - 2 - scene.qr_rows
            } else {
                0
            },
            width >= scene.qr_cols + 2,
        ),
        scene.pane_cols == scene.qr_cols + scene.chrome.qr_border,
        scene.preview <==> width >= scene.pane_cols + 24,
        scene.log_start <= ui.log.len(),
        ui.log.len() - scene.log_start <= visible_lines(scene.chrome),
        scene.log_start > 0 ==> ui.log.len() - scene.log_start == visible_lines(scene.chrome),
        scene.chrome.log >= 2 ==> visible_lines(scene.chrome) == scene.chrome.log - 2,
        scene.chrome.log < 2 ==> visible_lines(scene.chrome) == 0,
        scene.camera@ == camera_text(ui.camera_index),
        scene.tracking@ == tracking_text(locked),
        scene.counters@ == counters_text(frames, decodes, ui.label),
        scene.hints@ == hints_text(ui, locked),
        scene.tone == prompt_tone(ui, locked),
        scene.prompt@ == prompt_text(ui, locked, scene.chrome.footer == 1),
{
}

/// The screen is drawn again at least every 80 ms.
pub proof fn law_how_old_the_screen_gets(since_ms: u64)
    ensures
        since_ms >= REDRAW_MS <==> since_ms >= 80,
{
}

} // verus!
