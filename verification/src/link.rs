//! The terms of a link: what the handshake offers, and what a retry changes.
use crate::clock;
use crate::error::{Error, ErrorView};
use crate::qr;
use crate::qr::SUPPORTED_VERSIONS;
use vstd::prelude::*;

pub use crate::link_recv::run_recv_handshake;
pub use crate::link_send::run_send_handshake;

verus! {

/// Probe id, QR version, and display dwell time in milliseconds.
pub const PROBES: [(u8, u8, u16); 6] = [
    (0, 10, 250),
    (1, 15, 250),
    (2, 20, 200),
    (3, 25, 200),
    (4, 30, 150),
    (5, 40, 150),
];

#[derive(Clone, Copy, Debug, PartialEq, Eq, Structural)]
pub struct LinkConfig {
    /// Shortens HELLO/LINK/GO timeouts to 100/50/50 ms, quiet time to 20 ms,
    /// and skips probe dwells.
    pub fast: bool,
    /// Stretches the HELLO/LINK/GO timeouts to [`GATED_TIMEOUT`]. Set whenever
    /// the peer might be slow to arrive: a human reading the screen, or a
    /// stalled peer still working through its own retry. That is every
    /// interactive path, gated or not.
    pub patient: bool,
    /// Highest QR version this side can display without clipping. Probes above
    /// it are never offered, and never chosen from the other peer's offers: a
    /// clipped code is undecodable.
    pub max_qr_version: u8,
    /// Lower bound on how long each code stays on screen, overriding the probe
    /// table. Raised on retries: the receiver's camera needs several frames per
    /// displayed code to have a fair chance at every one of them.
    pub dwell_floor_ms: u16,
}

/// Timeout for peer replies when a human sits between the phases, in
/// nanoseconds.
pub const GATED_TIMEOUT: u64 = 600_000_000_000;

pub open spec fn default_link() -> LinkConfig {
    LinkConfig { fast: false, patient: false, max_qr_version: 40, dwell_floor_ms: 0 }
}

impl Default for LinkConfig {
    fn default() -> (cfg: Self)
        ensures
            cfg == default_link(),
    {
        LinkConfig { fast: false, patient: false, max_qr_version: 40, dwell_floor_ms: 0 }
    }
}

impl LinkConfig {
    /// Millisecond timeouts and no dwells, for in-process channels.
    pub fn fast() -> (cfg: Self)
        ensures
            cfg == (LinkConfig { fast: true, ..default_link() }),
    {
        LinkConfig { fast: true, patient: false, max_qr_version: 40, dwell_floor_ms: 0 }
    }

    /// The first, interactive attempt: generous timeouts so a human can aim,
    /// and QR versions capped to what this terminal can draw. Handshake phases
    /// themselves do not wait for Enter.
    pub fn gated(max_qr_version: u8) -> (cfg: Self)
        ensures
            cfg == (LinkConfig { patient: true, max_qr_version, ..default_link() }),
    {
        LinkConfig { fast: false, patient: true, max_qr_version, dwell_floor_ms: 0 }
    }

    /// A retry: same generous timeouts, but no prompts. Once the operator has
    /// committed to the transfer, asking them to re-confirm every rung of the
    /// fallback ladder would defeat the point of retrying automatically.
    pub fn retry(plan: Attempt) -> (cfg: Self)
        ensures
            cfg == (LinkConfig {
                patient: true,
                max_qr_version: plan.max_qr_version,
                dwell_floor_ms: plan.dwell_floor_ms,
                ..default_link()
            }),
    {
        LinkConfig {
            fast: false,
            patient: true,
            max_qr_version: plan.max_qr_version,
            dwell_floor_ms: plan.dwell_floor_ms,
        }
    }
}

/// How many times a stalled transfer is tried before giving up.
pub const MAX_ATTEMPTS: usize = 10;

/// Ceiling on the per-code dwell the ladder will climb to.
pub const MAX_DWELL_MS: u16 = 1500;

/// The optical settings to try on a given attempt.
#[derive(Clone, Copy, Debug, PartialEq, Eq, Structural)]
pub struct Attempt {
    pub max_qr_version: u8,
    pub dwell_floor_ms: u16,
}

/// How many of the first `n` supported versions are at most `max`.
pub open spec fn rungs_below(max: u8, n: nat) -> nat
    decreases n,
{
    if n == 0 {
        0
    } else if SUPPORTED_VERSIONS@[n - 1] <= max {
        rungs_below(max, (n - 1) as nat) + 1
    } else {
        rungs_below(max, (n - 1) as nat)
    }
}

/// The supported versions are in ascending order, so that those up to `max`
/// are the first [`rungs_below`] of them.
pub proof fn rungs_are_a_prefix(max: u8)
    ensures
        rungs_below(max, 6) <= 6,
        forall|i: int|
            0 <= i < 6 ==> (#[trigger] SUPPORTED_VERSIONS@[i] <= max <==> i < rungs_below(max, 6)),
{
    reveal_with_fuel(rungs_below, 7);
}

/// The settings for attempt `attempt` on a terminal that can draw up to
/// `terminal_max`.
pub open spec fn plan_for(attempt: nat, terminal_max: u8) -> Attempt {
    let rungs = rungs_below(terminal_max, 6);
    let top = rungs - 1;
    Attempt {
        max_qr_version: SUPPORTED_VERSIONS@[if attempt < top {
            top - attempt
        } else {
            0
        }],
        dwell_floor_ms: if attempt == 0 {
            0
        } else if 150 * (attempt + 1) < MAX_DWELL_MS {
            (150 * (attempt + 1)) as u16
        } else {
            MAX_DWELL_MS
        },
    }
}

/// Settings for attempt `n`, each rung trading throughput for legibility.
///
/// Missing sequence numbers mean the receiver's camera did not get a readable
/// look at every code, so both levers point the same way: a smaller QR version
/// (fewer, larger modules) held on screen for longer (more camera frames per
/// code). The version steps down one rung per attempt until it bottoms out at
/// the smallest usable one; after that only the dwell keeps growing.
pub fn attempt_plan(attempt: usize, terminal_max: u8) -> (plan: Attempt)
    ensures
        plan == plan_for(attempt as nat, terminal_max),
{
    proof {
        rungs_are_a_prefix(terminal_max);
    }
    let mut rungs: usize = 0;
    while rungs < 6 && SUPPORTED_VERSIONS[rungs] <= terminal_max
        invariant
            rungs <= rungs_below(terminal_max, 6) <= 6,
            forall|i: int|
                0 <= i < 6 ==> (#[trigger] SUPPORTED_VERSIONS@[i] <= terminal_max <==> i
                    < rungs_below(terminal_max, 6)),
        decreases 6 - rungs,
    {
        rungs = rungs + 1;
    }
    let top: usize = rungs.saturating_sub(1);
    let rung: usize = top.saturating_sub(attempt);
    let max_qr_version: u8 = if rungs == 0 {
        qr::smallest_version()
    } else {
        SUPPORTED_VERSIONS[rung]
    };
    let dwell_floor_ms: u16 = if attempt == 0 {
        0
    } else if attempt < 9 {
        150 * (attempt as u16 + 1)
    } else {
        MAX_DWELL_MS
    };
    Attempt { max_qr_version, dwell_floor_ms }
}

/// Each rung of the ladder is no harder to read than the one before: the
/// version never grows and the dwell never shrinks.
pub proof fn law_ladder_only_gets_easier(attempt: nat, later: nat, terminal_max: u8)
    requires
        attempt <= later,
    ensures
        plan_for(later, terminal_max).max_qr_version <= plan_for(
            attempt,
            terminal_max,
        ).max_qr_version,
        plan_for(later, terminal_max).dwell_floor_ms >= plan_for(
            attempt,
            terminal_max,
        ).dwell_floor_ms,
{
    rungs_are_a_prefix(terminal_max);
    assert(forall|i: int, j: int|
        0 <= i <= j < 6 ==> #[trigger] SUPPORTED_VERSIONS@[i] <= #[trigger] SUPPORTED_VERSIONS@[j]);
}

/// Every rung is a version the protocol supports, and one that the terminal
/// can draw whenever it can draw any.
pub proof fn law_ladder_stays_drawable(attempt: nat, terminal_max: u8)
    ensures
        exists|i: int|
            0 <= i < 6 && plan_for(attempt, terminal_max).max_qr_version
                == #[trigger] SUPPORTED_VERSIONS@[i],
        terminal_max >= SUPPORTED_VERSIONS@[0] ==> plan_for(attempt, terminal_max).max_qr_version
            <= terminal_max,
        terminal_max < SUPPORTED_VERSIONS@[0] ==> plan_for(attempt, terminal_max).max_qr_version
            == SUPPORTED_VERSIONS@[0],
{
    rungs_are_a_prefix(terminal_max);
}

/// The first attempt uses the largest version the terminal can draw and no
/// dwell floor; each of the next ones steps down one rung.
pub proof fn law_ladder_steps_one_rung(attempt: nat, terminal_max: u8)
    requires
        attempt < rungs_below(terminal_max, 6),
    ensures
        plan_for(attempt, terminal_max).max_qr_version == SUPPORTED_VERSIONS@[rungs_below(
            terminal_max,
            6,
        ) - 1 - attempt],
        forall|i: int|
            0 <= i < 6 && #[trigger] SUPPORTED_VERSIONS@[i] <= terminal_max
                ==> SUPPORTED_VERSIONS@[i] <= plan_for(0, terminal_max).max_qr_version,
        plan_for(0, terminal_max).dwell_floor_ms == 0,
{
    rungs_are_a_prefix(terminal_max);
    assert(forall|i: int, j: int|
        0 <= i <= j < 6 ==> #[trigger] SUPPORTED_VERSIONS@[i] <= #[trigger] SUPPORTED_VERSIONS@[j]);
}

/// From the rung at which the version bottoms out on, only the dwell changes,
/// and it stops at its ceiling.
pub proof fn law_ladder_bottoms_out(attempt: nat, terminal_max: u8)
    requires
        attempt + 1 >= rungs_below(terminal_max, 6),
    ensures
        plan_for(attempt, terminal_max).max_qr_version == SUPPORTED_VERSIONS@[0],
        plan_for(attempt, terminal_max).dwell_floor_ms <= MAX_DWELL_MS,
        attempt >= 9 ==> plan_for(attempt, terminal_max).dwell_floor_ms == MAX_DWELL_MS,
{
}

/// The failures that a more conservative attempt could plausibly fix.
pub open spec fn retryable(err: ErrorView) -> bool {
    match err {
        ErrorView::Stalled(_) => true,
        ErrorView::HandshakeTimeout => true,
        ErrorView::HandshakeFailed => true,
        ErrorView::NoUsableProbe => true,
        ErrorView::BadFrame => true,
        ErrorView::HashMismatch => true,
        _ => false,
    }
}

/// Whether `err` is the kind of failure another, more conservative attempt
/// could plausibly fix, as opposed to one that will fail identically forever.
pub fn is_retryable(err: &Error) -> (retry: bool)
    ensures
        retry == retryable(err@),
{
    match err {
        Error::Stalled(_) => true,
        Error::HandshakeTimeout => true,
        Error::HandshakeFailed => true,
        Error::NoUsableProbe => true,
        Error::BadFrame => true,
        Error::HashMismatch => true,
        _ => false,
    }
}

/// What the operator decided, and what no rung of the ladder can change, is
/// never retried away.
pub proof fn law_decisions_are_never_retried(err: ErrorView)
    requires
        err is Interrupted || err is Aborted || err is DestExists || err is EmptyArchive || err
            is Camera || err is Io || err is TerminalTooSmall || err is Message,
    ensures
        !retryable(err),
{
}

/// What the two sides agreed on.
#[derive(Debug)]
pub struct Session {
    pub qr_version: u8,
    pub dwell_ms: u16,
    pub basename: String,
    pub uncompressed_hint: u64,
    pub compressed_size: u64,
    pub chunk_count: u32,
    pub sha256: [u8; 32],
}

/// A [`Session`] as mathematical data.
#[verifier::ext_equal]
pub struct SessionView {
    pub qr_version: u8,
    pub dwell_ms: u16,
    pub basename: Seq<char>,
    pub uncompressed_hint: u64,
    pub compressed_size: u64,
    pub chunk_count: u32,
    pub sha256: Seq<u8>,
}

impl View for Session {
    type V = SessionView;

    open spec fn view(&self) -> SessionView {
        SessionView {
            qr_version: self.qr_version,
            dwell_ms: self.dwell_ms,
            basename: self.basename@,
            uncompressed_hint: self.uncompressed_hint,
            compressed_size: self.compressed_size,
            chunk_count: self.chunk_count,
            sha256: self.sha256@,
        }
    }
}

impl Clone for Session {
    fn clone(&self) -> (copy: Self)
        ensures
            copy@ == self@,
    {
        Session {
            qr_version: self.qr_version,
            dwell_ms: self.dwell_ms,
            basename: self.basename.clone(),
            uncompressed_hint: self.uncompressed_hint,
            compressed_size: self.compressed_size,
            chunk_count: self.chunk_count,
            sha256: self.sha256,
        }
    }
}

impl PartialEq for Session {
    fn eq(&self, other: &Self) -> (same: bool) {
        self.qr_version == other.qr_version && self.dwell_ms == other.dwell_ms && self.basename
            == other.basename && self.uncompressed_hint == other.uncompressed_hint
            && self.compressed_size == other.compressed_size && self.chunk_count
            == other.chunk_count && crate::frame::same_bytes(
            self.sha256.as_slice(),
            other.sha256.as_slice(),
        )
    }
}

impl vstd::std_specs::cmp::PartialEqSpecImpl for Session {
    open spec fn obeys_eq_spec() -> bool {
        true
    }

    open spec fn eq_spec(&self, other: &Self) -> bool {
        self@ == other@
    }
}

impl Eq for Session {
}

/// How long a handshake waits for the peer's first frame, in nanoseconds.
pub open spec fn hello_wait(cfg: LinkConfig) -> u64 {
    if cfg.fast {
        100_000_000
    } else if cfg.patient {
        GATED_TIMEOUT
    } else {
        30_000_000_000
    }
}

pub fn hello_timeout(cfg: LinkConfig) -> (nanos: u64)
    ensures
        nanos == hello_wait(cfg),
{
    // `fast` is for in-process channels and wins: patient timeouts are minutes
    // long because a human (or a peer working through its own retry) is in
    // the loop.
    if cfg.fast {
        100 * clock::MILLISECOND
    } else if cfg.patient {
        GATED_TIMEOUT
    } else {
        30 * clock::SECOND
    }
}

/// How long the sender waits for LINK, in nanoseconds.
pub open spec fn link_wait(cfg: LinkConfig) -> u64 {
    if cfg.fast {
        50_000_000
    } else if cfg.patient {
        GATED_TIMEOUT
    } else {
        5_000_000_000
    }
}

pub fn link_timeout(cfg: LinkConfig) -> (nanos: u64)
    ensures
        nanos == link_wait(cfg),
{
    if cfg.fast {
        50 * clock::MILLISECOND
    } else if cfg.patient {
        GATED_TIMEOUT
    } else {
        5 * clock::SECOND
    }
}

/// How long each side waits for the other around GO, in nanoseconds.
pub open spec fn go_wait(cfg: LinkConfig) -> u64 {
    if cfg.fast {
        50_000_000
    } else if cfg.patient {
        GATED_TIMEOUT
    } else {
        15_000_000_000
    }
}

pub fn go_timeout(cfg: LinkConfig) -> (nanos: u64)
    ensures
        nanos == go_wait(cfg),
{
    if cfg.fast {
        50 * clock::MILLISECOND
    } else if cfg.patient {
        GATED_TIMEOUT
    } else {
        15 * clock::SECOND
    }
}

/// How long the receiver waits for another probe, in nanoseconds.
pub open spec fn quiet_wait(cfg: LinkConfig) -> u64 {
    if cfg.fast {
        20_000_000
    } else {
        2_000_000_000
    }
}

pub fn quiet_timeout(cfg: LinkConfig) -> (nanos: u64)
    ensures
        nanos == quiet_wait(cfg),
{
    if cfg.fast {
        20 * clock::MILLISECOND
    } else {
        2 * clock::SECOND
    }
}

/// How a handshake ended.
#[derive(Clone, Copy, Debug, PartialEq, Eq, Structural)]
pub enum LinkEnd {
    Linked,
    Timeout,
    Failed,
    NoProbe,
    /// The destination exists and may not be replaced.
    Exists,
}

/// Whether probe `i` of the table counts for a terminal that can draw up to
/// `max`, when the sender's last offer was `last_offered` (if that is known).
pub open spec fn probe_counts(i: int, max: u8, last_offered: Option<u8>) -> bool {
    PROBES@[i].1 <= max && match last_offered {
        Some(last_id) => PROBES@[i].0 <= last_id,
        None => true,
    }
}

/// How many of the first `n` probes of the table count.
pub open spec fn probes_counting(n: nat, max: u8, last_offered: Option<u8>) -> nat
    decreases n,
{
    if n == 0 {
        0
    } else if probe_counts(n - 1, max, last_offered) {
        probes_counting((n - 1) as nat, max, last_offered) + 1
    } else {
        probes_counting((n - 1) as nat, max, last_offered)
    }
}

/// The probes that count are the first ones of the table.
pub proof fn probes_are_a_prefix(max: u8, last_offered: Option<u8>)
    ensures
        probes_counting(6, max, last_offered) <= 6,
        forall|i: int|
            0 <= i < 6 ==> (#[trigger] probe_counts(i, max, last_offered) <==> i < probes_counting(
                6,
                max,
                last_offered,
            )),
        forall|i: int| 0 <= i < 6 ==> (#[trigger] PROBES@[i]).0 == i,
{
    reveal_with_fuel(probes_counting, 7);
}

/// Number of probes that could plausibly have been received: those the sender
/// offered (inferred from the id it flagged `last`, when that frame arrived)
/// and that this terminal is large enough to display.
pub fn eligible_probe_count(cfg: LinkConfig, last_offered_id: Option<u8>) -> (count: usize)
    ensures
        count == probes_counting(6, cfg.max_qr_version, last_offered_id),
{
    let mut count: usize = 0;
    let mut i: usize = 0;
    while i < 6
        invariant
            i <= 6,
            count <= i,
            count == probes_counting(i as nat, cfg.max_qr_version, last_offered_id),
        decreases 6 - i,
    {
        let offered: bool = match last_offered_id {
            Some(last_id) => PROBES[i].0 <= last_id,
            None => true,
        };
        if PROBES[i].1 <= cfg.max_qr_version && offered {
            count = count + 1;
        }
        i = i + 1;
    }
    count
}

/// Unless told otherwise a side is neither quick nor patient, can draw every
/// version, and asks for no dwell.
pub proof fn law_what_a_link_is_by_default()
    ensures
        default_link() == (LinkConfig {
            fast: false,
            patient: false,
            max_qr_version: 40,
            dwell_floor_ms: 0,
        }),
{
}

} // verus!
