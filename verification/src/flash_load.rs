//! The flash download: find the flash, erase it once, write the segments
//! that the host supplies, report progress, finish.
//!
//! The download is a state machine. The host drives it: it does what
//! `LoadState::request` asks for and hands the outcome to
//! `LoadState::advance`, which talks to the target and moves on.

use crate::client::{
    continues, heard, lemma_scripted_round_trip_keeps, lemma_traffic_joins, said, GdbClient,
};
use crate::error::{ErrorKind, GdbError};
use crate::flash::{
    confirmed_round_trip, done_command, erase_command, scripted_confirm, scripted_write,
    status_view, write_run,
};
use crate::memory_map::{info_view, map_round_trip, scripted_query, FlashRegion};
use crate::transport::{GdbTransport, Script};
use vstd::arithmetic::div_mod::{lemma_fundamental_div_mod, lemma_mod_multiples_basic};
use vstd::prelude::*;

verus! {

/// The block size of a region that names none.
pub const DEFAULT_BLOCK_SIZE: u64 = 1024;

/// The most bytes of data that one write frame carries.
pub const WRITE_CHUNK: usize = 256;

/// The upper end of the progress range.
pub const PROGRESS_FULL: i32 = 100;

/// What a progress report is about.
#[derive(Debug, Clone, Copy, PartialEq, Eq)]
pub enum ProgressPhase {
    /// The download begins.
    Init,
    /// The download has come to a new position.
    SetPos,
    /// The download is over.
    Kill,
}

/// A notice to the host about how far the download is.
#[derive(Debug)]
pub struct ProgressReport {
    pub phase: ProgressPhase,
    pub position: i32,
    pub range_low: i32,
    pub range_high: i32,
    pub label: Option<String>,
    pub text: Option<String>,
}

/// The mathematical value of a `ProgressReport`.
pub struct Report {
    pub phase: ProgressPhase,
    pub position: i32,
    pub range_low: i32,
    pub range_high: i32,
    pub label: Option<Seq<char>>,
    pub text: Option<Seq<char>>,
}

impl View for ProgressReport {
    type V = Report;

    open spec fn view(&self) -> Report {
        Report {
            phase: self.phase,
            position: self.position,
            range_low: self.range_low,
            range_high: self.range_high,
            label: match self.label {
                Some(t) => Some(t@),
                None => None,
            },
            text: match self.text {
                Some(t) => Some(t@),
                None => None,
            },
        }
    }
}

/// The report that opens a download.
pub open spec fn init_report(label: Seq<char>) -> Report {
    Report {
        phase: ProgressPhase::Init,
        position: 0,
        range_low: 0,
        range_high: PROGRESS_FULL,
        label: Some(label),
        text: None,
    }
}

/// The report that the download stands at `position`.
pub open spec fn position_report(position: i32) -> Report {
    Report {
        phase: ProgressPhase::SetPos,
        position,
        range_low: 0,
        range_high: PROGRESS_FULL,
        label: None,
        text: None,
    }
}

/// The report that closes a download.
pub open spec fn kill_report() -> Report {
    Report {
        phase: ProgressPhase::Kill,
        position: 0,
        range_low: 0,
        range_high: PROGRESS_FULL,
        label: None,
        text: None,
    }
}

/// One piece of the image, as the host supplies it. A segment without data
/// says that the image is complete.
#[derive(Debug)]
pub struct FlashSegment {
    pub start_address: u32,
    pub data: Vec<u8>,
    pub total_expected_size: u32,
    pub has_more: bool,
}

/// The mathematical value of a `FlashSegment`.
pub struct Segment {
    pub start_address: u32,
    pub data: Seq<u8>,
    pub total_expected_size: u32,
    pub has_more: bool,
}

impl View for FlashSegment {
    type V = Segment;

    open spec fn view(&self) -> Segment {
        Segment {
            start_address: self.start_address,
            data: self.data@,
            total_expected_size: self.total_expected_size,
            has_more: self.has_more,
        }
    }
}

/// `value` rounded up to the next multiple of `align`.
pub open spec fn round_up(value: nat, align: nat) -> nat {
    if align == 0 || value % align == 0 {
        value
    } else {
        (value + align - value % align) as nat
    }
}

/// The length of the erase that covers an image of `total` bytes in a
/// region with blocks of `block_size` bytes: `total` rounded up to whole
/// blocks. `None` where the block size is 0 and where the length does not
/// fit the erase command.
pub open spec fn erase_len(total: u32, block_size: u64) -> Option<u32> {
    if block_size == 0 {
        None
    } else if round_up(total as nat, block_size as nat) <= u32::MAX {
        Some(round_up(total as nat, block_size as nat) as u32)
    } else {
        None
    }
}

/// The progress in percent when `written` bytes of `total` are written,
/// capped at `i32::MAX`.
pub open spec fn progress_of(written: u64, total: u32) -> i32 {
    if total == 0 {
        0
    } else if written * 100 / (total as int) <= i32::MAX {
        (written * 100 / (total as int)) as i32
    } else {
        i32::MAX
    }
}

/// The block size to erase by: that of the first region, or the default
/// where it names none. `None` where there is no region.
pub open spec fn block_size_of(regions: Seq<FlashRegion>) -> Option<u64> {
    if regions.len() == 0 {
        None
    } else {
        match regions[0].blocksize {
            Some(size) => Some(size),
            None => Some(DEFAULT_BLOCK_SIZE),
        }
    }
}

/// Rounding up gives a multiple of `align` that is not below `value` and
/// less than `align` above it.
pub proof fn law_round_up(value: nat, align: nat)
    requires
        align > 0,
    ensures
        round_up(value, align) % align == 0,
        value <= round_up(value, align) < value + align,
{
    let q = value / align;
    let rest = value % align;
    lemma_fundamental_div_mod(value as int, align as int);
    assert(value == align * q + rest);
    if rest != 0 {
        assert(round_up(value, align) == align * q + align);
        assert(align * q + align == (q + 1) * align) by (nonlinear_arith);
        lemma_mod_multiples_basic(q as int + 1, align as int);
    }
}

/// No multiple of `align` lies between `value` and `value` rounded up.
pub proof fn law_round_up_is_least(value: nat, align: nat, m: nat)
    requires
        align > 0,
        m % align == 0,
        value <= m,
    ensures
        round_up(value, align) <= m,
{
    let q = value / align;
    let rest = value % align;
    let k = m / align;
    lemma_fundamental_div_mod(value as int, align as int);
    lemma_fundamental_div_mod(m as int, align as int);
    if rest != 0 {
        assert(k > q) by (nonlinear_arith)
            requires
                align * k >= align * q + rest,
                rest > 0,
                align > 0,
        ;
        assert(align * k >= align * q + align) by (nonlinear_arith)
            requires
                k >= q + 1,
                align > 0,
        ;
    }
}

/// `value` rounded up to the next multiple of `align`.
pub fn align_up(value: u32, align: u32) -> (r: u32)
    requires
        align > 0,
        round_up(value as nat, align as nat) <= u32::MAX,
    ensures
        r == round_up(value as nat, align as nat),
{
    let rest: u32 = value % align;
    if rest == 0 {
        value
    } else {
        value + (align - rest)
    }
}

/// The length of the erase for an image of `total` bytes and blocks of
/// `block_size` bytes.
pub fn erase_span(total: u32, block_size: u64) -> (r: Option<u32>)
    ensures
        r == erase_len(total, block_size),
{
    if block_size == 0 {
        return None;
    }
    let rest: u64 = total as u64 % block_size;
    if rest == 0 {
        return Some(total);
    }
    let fill: u64 = block_size - rest;
    if fill > (u32::MAX - total) as u64 {
        return None;
    }
    Some(total + fill as u32)
}

/// The progress in percent when `written` bytes of `total` are written.
pub fn progress_position(written: u64, total: u32) -> (r: i32)
    ensures
        r == progress_of(written, total),
{
    if total == 0 {
        return 0;
    }
    let scaled: u128 = written as u128 * 100;
    let percent: u128 = scaled / total as u128;
    if percent > i32::MAX as u128 {
        i32::MAX
    } else {
        percent as i32
    }
}

/// The block size to erase by.
pub fn first_block_size(regions: &Vec<FlashRegion>) -> (r: Option<u64>)
    ensures
        r == block_size_of(regions@),
{
    if regions.len() == 0 {
        return None;
    }
    match regions[0].blocksize {
        Some(size) => Some(size),
        None => Some(DEFAULT_BLOCK_SIZE),
    }
}

/// What the download does with the segment that it holds or waits for,
/// once at least one segment is written.
#[derive(Debug)]
pub enum WriteStage {
    /// The position is being reported.
    Reporting,
    /// The next segment is being fetched.
    Fetching,
    /// The segment is being written.
    Sending(FlashSegment),
}

/// Where a download stands.
#[derive(Debug)]
pub enum LoadState {
    /// Nothing is known of the target yet. The opening report goes out
    /// first (`reported` is false), then the memory map is asked for.
    Init { label: String, reported: bool },
    /// The flash is known. The first segment is fetched (`first` is
    /// `None`), then the erase for the whole image is under way.
    RegionsDiscovered { block_size: u64, first: Option<FlashSegment> },
    /// The flash is erased and the first segment is being written.
    Erased { segment: FlashSegment },
    /// `written` bytes are written; `total` is the size of the image as the
    /// segment written last gave it.
    Writing { written: u64, total: u32, stage: WriteStage },
    /// All segments are written. The session is being ended (`finalized` is
    /// false), then the closing report goes out.
    Done { finalized: bool },
    /// The download is complete.
    Success,
    /// The download was given up.
    Failed { error: GdbError },
}

/// The mathematical value of a `WriteStage`.
pub enum Stage {
    Reporting,
    Fetching,
    Sending(Segment),
}

/// The mathematical value of a `LoadState`.
pub enum Load {
    Init { label: Seq<char>, reported: bool },
    RegionsDiscovered { block_size: u64, first: Option<Segment> },
    Erased { segment: Segment },
    Writing { written: u64, total: u32, stage: Stage },
    Done { finalized: bool },
    Success,
    Failed { error: ErrorKind },
}

impl View for WriteStage {
    type V = Stage;

    open spec fn view(&self) -> Stage {
        match self {
            WriteStage::Reporting => Stage::Reporting,
            WriteStage::Fetching => Stage::Fetching,
            WriteStage::Sending(segment) => Stage::Sending(segment@),
        }
    }
}

impl View for LoadState {
    type V = Load;

    open spec fn view(&self) -> Load {
        match self {
            LoadState::Init { label, reported } => Load::Init { label: label@, reported: *reported },
            LoadState::RegionsDiscovered { block_size, first } => Load::RegionsDiscovered {
                block_size: *block_size,
                first: match first {
                    Some(segment) => Some(segment@),
                    None => None,
                },
            },
            LoadState::Erased { segment } => Load::Erased { segment: segment@ },
            LoadState::Writing { written, total, stage } => Load::Writing {
                written: *written,
                total: *total,
                stage: stage@,
            },
            LoadState::Done { finalized } => Load::Done { finalized: *finalized },
            LoadState::Success => Load::Success,
            LoadState::Failed { error } => Load::Failed { error: error@ },
        }
    }
}

/// What the host hands to the download.
#[derive(Debug)]
pub enum HostEvent {
    /// The report that was asked for is delivered.
    Reported,
    /// The segment that was asked for.
    Segment(FlashSegment),
}

/// The mathematical value of a `HostEvent`.
pub enum HostInput {
    Reported,
    Segment(Segment),
}

impl View for HostEvent {
    type V = HostInput;

    open spec fn view(&self) -> HostInput {
        match self {
            HostEvent::Reported => HostInput::Reported,
            HostEvent::Segment(segment) => HostInput::Segment(segment@),
        }
    }
}

/// What a command to the target came to.
pub enum TargetInput {
    /// The outcome of the memory map query.
    Regions(Result<Seq<FlashRegion>, ErrorKind>),
    /// The outcome of an erase, a write or the end of the session.
    Status(Result<(), ErrorKind>),
}

/// What a download waits for.
pub enum Awaited {
    /// The host is to deliver this report.
    Report(Report),
    /// The host is to supply the next segment.
    Segment,
    /// The target is to give its memory map.
    Regions,
    /// The target is to erase `len` bytes from `addr` on.
    Erase { addr: u32, len: u32 },
    /// The target is to take this segment.
    Write(Segment),
    /// The target is to end the flash session.
    Finalize,
    /// Nothing: the download is over.
    Nothing,
}

impl Awaited {
    /// Whether it is the target that the download waits for.
    pub open spec fn of_target(self) -> bool {
        self is Regions || self is Erase || self is Write || self is Finalize
    }
}

impl Load {
    /// What the download waits for in this state.
    pub open spec fn awaited(self) -> Awaited {
        match self {
            Load::Init { label, reported } => if reported {
                Awaited::Regions
            } else {
                Awaited::Report(init_report(label))
            },
            Load::RegionsDiscovered { block_size, first } => match first {
                Some(segment) => Awaited::Erase {
                    addr: segment.start_address,
                    len: match erase_len(segment.total_expected_size, block_size) {
                        Some(len) => len,
                        None => 0,
                    },
                },
                None => Awaited::Segment,
            },
            Load::Erased { segment } => Awaited::Write(segment),
            Load::Writing { written, total, stage } => match stage {
                Stage::Reporting => Awaited::Report(position_report(progress_of(written, total))),
                Stage::Fetching => Awaited::Segment,
                Stage::Sending(segment) => Awaited::Write(segment),
            },
            Load::Done { finalized } => if finalized {
                Awaited::Report(kill_report())
            } else {
                Awaited::Finalize
            },
            Load::Success => Awaited::Nothing,
            Load::Failed { .. } => Awaited::Nothing,
        }
    }

    /// The state that follows when a segment arrives while `written` bytes
    /// of an image of `total` bytes are written: a segment without data
    /// ends the writing, any other is written next.
    pub open spec fn take_segment(written: u64, total: u32, segment: Segment) -> Load {
        if segment.data.len() == 0 {
            Load::Done { finalized: false }
        } else {
            Load::Writing { written, total, stage: Stage::Sending(segment) }
        }
    }

    /// The state that follows when the host delivers `input`. An input that
    /// the state does not wait for changes nothing.
    pub open spec fn after_host(self, input: HostInput) -> Load {
        match (self, input) {
            (Load::Init { label, reported: false }, HostInput::Reported) => Load::Init {
                label,
                reported: true,
            },
            (
                Load::RegionsDiscovered { block_size, first: None },
                HostInput::Segment(segment),
            ) => if segment.data.len() == 0 {
                Load::Done { finalized: false }
            } else if erase_len(segment.total_expected_size, block_size) is Some {
                Load::RegionsDiscovered { block_size, first: Some(segment) }
            } else {
                Load::Failed { error: ErrorKind::MalformedMemoryMap }
            },
            (Load::Writing { written, total, stage: Stage::Reporting }, HostInput::Reported) => {
                Load::Writing { written, total, stage: Stage::Fetching }
            },
            (
                Load::Writing { written, total, stage: Stage::Fetching },
                HostInput::Segment(segment),
            ) => Load::take_segment(written, total, segment),
            (Load::Done { finalized: true }, HostInput::Reported) => Load::Success,
            _ => self,
        }
    }

    /// The count of bytes written after a segment of `len` bytes more,
    /// capped at `u64::MAX`.
    pub open spec fn count(written: u64, len: nat) -> u64 {
        if written + len <= u64::MAX {
            (written + len) as u64
        } else {
            u64::MAX
        }
    }

    /// The state that follows when a command to the target comes to
    /// `input`. A failed command ends the download with its error. An input
    /// that the state does not wait for changes nothing.
    pub open spec fn after_target(self, input: TargetInput) -> Load {
        match (self, input) {
            (Load::Init { label, reported: true }, TargetInput::Regions(r)) => match r {
                Ok(regions) => match block_size_of(regions) {
                    Some(block_size) => Load::RegionsDiscovered { block_size, first: None },
                    None => Load::Failed { error: ErrorKind::NoFlashRegion },
                },
                Err(error) => Load::Failed { error },
            },
            (
                Load::RegionsDiscovered { block_size, first: Some(segment) },
                TargetInput::Status(r),
            ) => match r {
                Ok(()) => Load::Erased { segment },
                Err(error) => Load::Failed { error },
            },
            (Load::Erased { segment }, TargetInput::Status(r)) => match r {
                Ok(()) => Load::Writing {
                    written: Load::count(0, segment.data.len()),
                    total: segment.total_expected_size,
                    stage: Stage::Reporting,
                },
                Err(error) => Load::Failed { error },
            },
            (
                Load::Writing { written, total, stage: Stage::Sending(segment) },
                TargetInput::Status(r),
            ) => match r {
                Ok(()) => Load::Writing {
                    written: Load::count(written, segment.data.len()),
                    total: segment.total_expected_size,
                    stage: Stage::Reporting,
                },
                Err(error) => Load::Failed { error },
            },
            (Load::Done { finalized: false }, TargetInput::Status(r)) => match r {
                Ok(()) => Load::Done { finalized: true },
                Err(error) => Load::Failed { error },
            },
            _ => self,
        }
    }
}

/// A command to the target that fails ends the download at once, with the
/// error of the command.
pub proof fn law_failure_ends_download(state: Load, error: ErrorKind)
    requires
        state.awaited().of_target(),
    ensures
        state.awaited() is Regions ==> state.after_target(TargetInput::Regions(Err(error)))
            == (Load::Failed { error }),
        !(state.awaited() is Regions) ==> state.after_target(TargetInput::Status(Err(error)))
            == (Load::Failed { error }),
{
}

/// A download that is over stays as it is, whatever comes.
pub proof fn law_over_stays_over(state: Load, host: HostInput, target: TargetInput)
    requires
        state.awaited() is Nothing,
    ensures
        state is Success || state is Failed,
        state.after_host(host) == state,
        state.after_target(target) == state,
{
}

/// The closing report is asked for in one state only: when the session has
/// been ended with success. A download that failed never asks for it.
pub proof fn law_kill_follows_success(state: Load)
    ensures
        state.awaited() == Awaited::Report(kill_report()) <==> state == (Load::Done {
            finalized: true,
        }),
        state is Failed ==> state.awaited() is Nothing,
{
}

/// The erase is made once, before the first write: only the state that
/// holds the first segment waits for it, and it leads to a state that
/// writes that segment.
pub proof fn law_erase_comes_first(state: Load)
    requires
        state.awaited() is Erase,
    ensures
        state matches Load::RegionsDiscovered { block_size, first: Some(segment) }
            && state.awaited()->Erase_addr == segment.start_address && state.after_target(
            TargetInput::Status(Ok(())),
        ).awaited() == Awaited::Write(segment),
{
}

/// The first segment that holds data starts the erase, from its address on
/// and for the whole image rounded up to blocks; where that length cannot
/// be had, the download fails and nothing is erased.
pub proof fn law_first_segment_starts_erase(block_size: u64, segment: Segment)
    requires
        segment.data.len() > 0,
    ensures
        ({
            let state = Load::RegionsDiscovered { block_size, first: None };
            match erase_len(segment.total_expected_size, block_size) {
                Some(len) => state.after_host(HostInput::Segment(segment)).awaited()
                    == (Awaited::Erase { addr: segment.start_address, len }),
                None => state.after_host(HostInput::Segment(segment)) == (Load::Failed {
                    error: ErrorKind::MalformedMemoryMap,
                }),
            }
        }),
{
}

/// What the download asks of the host.
#[derive(Debug)]
pub enum HostRequest {
    /// Deliver this report, then hand back `HostEvent::Reported`.
    Report(ProgressReport),
    /// Fetch the next segment and hand it back.
    FetchSegment,
    /// Nothing more: the download is over, with or without success.
    Finished { success: bool },
    /// Nothing yet: a command to the target is to be made first.
    Busy,
}

/// The request that `awaited` stands for.
pub open spec fn request_of(awaited: Awaited, success: bool, r: HostRequest) -> bool {
    match awaited {
        Awaited::Report(report) => r matches HostRequest::Report(given) && given@ == report,
        Awaited::Segment => r is FetchSegment,
        Awaited::Nothing => r matches HostRequest::Finished { success: s } && s == success,
        _ => r is Busy,
    }
}

/// The command to the target that a state waits for.
enum Duty {
    Discover,
    Erase,
    Write,
    Finalize,
    Idle,
}

/// Adds `len` to `written`, up to `u64::MAX`.
fn count_bytes(written: u64, len: usize) -> (r: u64)
    ensures
        r == Load::count(written, len as nat),
{
    let more: u64 = len as u64;
    if more > u64::MAX - written {
        u64::MAX
    } else {
        written + more
    }
}

impl LoadState {
    /// A download that has not begun; `label` goes into the opening report.
    pub fn new(label: String) -> (state: Self)
        ensures
            state@ == (Load::Init { label: label@, reported: false }),
    {
        LoadState::Init { label, reported: false }
    }

    /// What the host is to do next.
    pub fn request(&self) -> (r: HostRequest)
        ensures
            request_of(self@.awaited(), self@ is Success, r),
    {
        match self {
            LoadState::Init { label, reported } => {
                if *reported {
                    HostRequest::Busy
                } else {
                    HostRequest::Report(
                        ProgressReport {
                            phase: ProgressPhase::Init,
                            position: 0,
                            range_low: 0,
                            range_high: PROGRESS_FULL,
                            label: Some(label.clone()),
                            text: None,
                        },
                    )
                }
            },
            LoadState::RegionsDiscovered { block_size, first } => match first {
                Some(_) => HostRequest::Busy,
                None => HostRequest::FetchSegment,
            },
            LoadState::Erased { .. } => HostRequest::Busy,
            LoadState::Writing { written, total, stage } => match stage {
                WriteStage::Reporting => HostRequest::Report(
                    ProgressReport {
                        phase: ProgressPhase::SetPos,
                        position: progress_position(*written, *total),
                        range_low: 0,
                        range_high: PROGRESS_FULL,
                        label: None,
                        text: None,
                    },
                ),
                WriteStage::Fetching => HostRequest::FetchSegment,
                WriteStage::Sending(_) => HostRequest::Busy,
            },
            LoadState::Done { finalized } => {
                if *finalized {
                    HostRequest::Report(
                        ProgressReport {
                            phase: ProgressPhase::Kill,
                            position: 0,
                            range_low: 0,
                            range_high: PROGRESS_FULL,
                            label: None,
                            text: None,
                        },
                    )
                } else {
                    HostRequest::Busy
                }
            },
            LoadState::Success => HostRequest::Finished { success: true },
            LoadState::Failed { .. } => HostRequest::Finished { success: false },
        }
    }

    /// Whether the download is over.
    pub fn is_over(&self) -> (over: bool)
        ensures
            over == (self@.awaited() is Nothing),
    {
        match self {
            LoadState::Success => true,
            LoadState::Failed { .. } => true,
            _ => false,
        }
    }

    /// How the download ended: `Ok` after `Success`, the error after
    /// `Failed`, and `None` while it is not over.
    pub fn outcome(self) -> (r: Option<Result<(), GdbError>>)
        ensures
            match self@ {
                Load::Success => r matches Some(Ok(())),
                Load::Failed { error } => r matches Some(Err(e)) && e@ == error,
                _ => r is None,
            },
    {
        match self {
            LoadState::Success => Some(Ok(())),
            LoadState::Failed { error } => Some(Err(error)),
            _ => None,
        }
    }

    /// Takes what the host delivers.
    pub fn on_host(self, event: HostEvent) -> (next: Self)
        ensures
            next@ == self@.after_host(event@),
    {
        match self {
            LoadState::Init { label, reported } => match event {
                HostEvent::Reported => LoadState::Init { label, reported: true },
                HostEvent::Segment(_) => LoadState::Init { label, reported },
            },
            LoadState::RegionsDiscovered { block_size, first } => match first {
                None => match event {
                    HostEvent::Segment(segment) => {
                        if segment.data.len() == 0 {
                            LoadState::Done { finalized: false }
                        } else if erase_span(segment.total_expected_size, block_size).is_some() {
                            LoadState::RegionsDiscovered { block_size, first: Some(segment) }
                        } else {
                            LoadState::Failed { error: GdbError::MalformedMemoryMap }
                        }
                    },
                    HostEvent::Reported => LoadState::RegionsDiscovered { block_size, first: None },
                },
                Some(segment) => LoadState::RegionsDiscovered { block_size, first: Some(segment) },
            },
            LoadState::Writing { written, total, stage } => match stage {
                WriteStage::Reporting => match event {
                    HostEvent::Reported => LoadState::Writing {
                        written,
                        total,
                        stage: WriteStage::Fetching,
                    },
                    HostEvent::Segment(_) => LoadState::Writing {
                        written,
                        total,
                        stage: WriteStage::Reporting,
                    },
                },
                WriteStage::Fetching => match event {
                    HostEvent::Segment(segment) => {
                        if segment.data.len() == 0 {
                            LoadState::Done { finalized: false }
                        } else {
                            LoadState::Writing {
                                written,
                                total,
                                stage: WriteStage::Sending(segment),
                            }
                        }
                    },
                    HostEvent::Reported => LoadState::Writing {
                        written,
                        total,
                        stage: WriteStage::Fetching,
                    },
                },
                WriteStage::Sending(segment) => LoadState::Writing {
                    written,
                    total,
                    stage: WriteStage::Sending(segment),
                },
            },
            LoadState::Done { finalized } => match event {
                HostEvent::Reported => {
                    if finalized {
                        LoadState::Success
                    } else {
                        LoadState::Done { finalized }
                    }
                },
                HostEvent::Segment(_) => LoadState::Done { finalized },
            },
            LoadState::Erased { segment } => LoadState::Erased { segment },
            LoadState::Success => LoadState::Success,
            LoadState::Failed { error } => LoadState::Failed { error },
        }
    }

    /// Takes the outcome of the memory map query.
    pub fn on_regions(self, r: Result<Vec<FlashRegion>, GdbError>) -> (next: Self)
        ensures
            next@ == self@.after_target(TargetInput::Regions(info_view(r))),
    {
        match self {
            LoadState::Init { label, reported } => {
                if reported {
                    match r {
                        Ok(regions) => match first_block_size(&regions) {
                            Some(block_size) => LoadState::RegionsDiscovered {
                                block_size,
                                first: None,
                            },
                            None => LoadState::Failed { error: GdbError::NoFlashRegion },
                        },
                        Err(error) => LoadState::Failed { error },
                    }
                } else {
                    LoadState::Init { label, reported }
                }
            },
            other => other,
        }
    }

    /// Takes the outcome of an erase, a write or the end of the session.
    pub fn on_status(self, r: Result<(), GdbError>) -> (next: Self)
        ensures
            next@ == self@.after_target(TargetInput::Status(status_view(r))),
    {
        match self {
            LoadState::RegionsDiscovered { block_size, first } => match first {
                Some(segment) => match r {
                    Ok(()) => LoadState::Erased { segment },
                    Err(error) => LoadState::Failed { error },
                },
                None => LoadState::RegionsDiscovered { block_size, first: None },
            },
            LoadState::Erased { segment } => match r {
                Ok(()) => LoadState::Writing {
                    written: count_bytes(0, segment.data.len()),
                    total: segment.total_expected_size,
                    stage: WriteStage::Reporting,
                },
                Err(error) => LoadState::Failed { error },
            },
            LoadState::Writing { written, total, stage } => match stage {
                WriteStage::Sending(segment) => match r {
                    Ok(()) => LoadState::Writing {
                        written: count_bytes(written, segment.data.len()),
                        total: segment.total_expected_size,
                        stage: WriteStage::Reporting,
                    },
                    Err(error) => LoadState::Failed { error },
                },
                WriteStage::Reporting => LoadState::Writing {
                    written,
                    total,
                    stage: WriteStage::Reporting,
                },
                WriteStage::Fetching => LoadState::Writing {
                    written,
                    total,
                    stage: WriteStage::Fetching,
                },
            },
            LoadState::Done { finalized } => {
                if finalized {
                    LoadState::Done { finalized }
                } else {
                    match r {
                        Ok(()) => LoadState::Done { finalized: true },
                        Err(error) => LoadState::Failed { error },
                    }
                }
            },
            other => other,
        }
    }
}


/// The traffic of an erase that is confirmed and of the write of `segment`
/// that follows it: the first `i` bytes received belong to the erase, and
/// the write comes to `r`.
pub open spec fn erase_then_write(
    segment: Segment,
    len: u32,
    tx: Seq<Seq<u8>>,
    rx: Seq<u8>,
    i: int,
    r: Result<(), ErrorKind>,
) -> bool {
    &&& 0 <= i <= rx.len()
    &&& tx.len() >= 2
    &&& confirmed_round_trip(
        erase_command(segment.start_address, len),
        erase_command(segment.start_address, len),
        tx.take(2),
        rx.take(i),
        Ok(()),
    )
    &&& write_run(
        segment.start_address,
        segment.data,
        WRITE_CHUNK as nat,
        0,
        tx.skip(2),
        rx.skip(i),
        r,
    )
}

/// What the download does while it waits for the target: `tx` is what the
/// client sent, `rx` what it received, `end` the state in which the
/// download waits for the host again or is over.
///
/// The memory map query, a write and the end of the session are one command
/// each, and the state takes its outcome. An erase is followed at once by
/// the write of the segment that it was made for, unless it fails. A state
/// that does not wait for the target stays as it is, without traffic.
pub open spec fn settles(state: Load, tx: Seq<Seq<u8>>, rx: Seq<u8>, end: Load) -> bool {
    match state.awaited() {
        Awaited::Regions => exists|r: Result<Seq<FlashRegion>, ErrorKind>|
            map_round_trip(tx, rx, r) && #[trigger] state.after_target(TargetInput::Regions(r))
                == end,
        Awaited::Erase { addr, len } => {
            ||| exists|e: ErrorKind|
                confirmed_round_trip(
                    erase_command(addr, len),
                    erase_command(addr, len),
                    tx,
                    rx,
                    Err(e),
                ) && #[trigger] state.after_target(TargetInput::Status(Err(e))) == end
            ||| exists|i: int, r: Result<(), ErrorKind>| #[trigger]
                erase_then_write(state->RegionsDiscovered_first->0, len, tx, rx, i, r)
                    && state.after_target(TargetInput::Status(Ok(()))).after_target(
                    TargetInput::Status(r),
                ) == end
        },
        Awaited::Write(segment) => exists|r: Result<(), ErrorKind>|
            write_run(segment.start_address, segment.data, WRITE_CHUNK as nat, 0, tx, rx, r)
                && #[trigger] state.after_target(TargetInput::Status(r)) == end,
        Awaited::Finalize => exists|r: Result<(), ErrorKind>|
            confirmed_round_trip(done_command(), done_command(), tx, rx, r)
                && #[trigger] state.after_target(TargetInput::Status(r)) == end,
        _ => tx.len() == 0 && rx.len() == 0 && end == state,
    }
}

/// What the download comes to while it waits for the target, on a scripted
/// stream: the state in which it waits for the host again or is over, and
/// the stream afterwards.
pub open spec fn scripted_settle(state: Load, m: Script) -> (Load, Script) {
    match state.awaited() {
        Awaited::Regions => (
            state.after_target(TargetInput::Regions(scripted_query(m).0)),
            scripted_query(m).1,
        ),
        Awaited::Erase { addr, len } => {
            let erase = scripted_confirm(erase_command(addr, len), erase_command(addr, len), m);
            let erased = state.after_target(TargetInput::Status(erase.0));
            match erased.awaited() {
                Awaited::Write(segment) => {
                    let write = scripted_write(
                        segment.start_address,
                        segment.data,
                        WRITE_CHUNK as nat,
                        0,
                        erase.1,
                    );
                    (erased.after_target(TargetInput::Status(write.0)), write.1)
                },
                _ => (erased, erase.1),
            }
        },
        Awaited::Write(segment) => {
            let write = scripted_write(
                segment.start_address,
                segment.data,
                WRITE_CHUNK as nat,
                0,
                m,
            );
            (state.after_target(TargetInput::Status(write.0)), write.1)
        },
        Awaited::Finalize => {
            let done = scripted_confirm(done_command(), done_command(), m);
            (state.after_target(TargetInput::Status(done.0)), done.1)
        },
        _ => (state, m),
    }
}

/// The outcome of the write that takes a state that waits for one to `end`.
pub proof fn lemma_write_settled(state: Load, tx: Seq<Seq<u8>>, rx: Seq<u8>, end: Load) -> (r:
    Result<(), ErrorKind>)
    requires
        state.awaited() is Write,
        settles(state, tx, rx, end),
    ensures
        write_run(
            state.awaited()->Write_0.start_address,
            state.awaited()->Write_0.data,
            WRITE_CHUNK as nat,
            0,
            tx,
            rx,
            r,
        ),
        state.after_target(TargetInput::Status(r)) == end,
{
    let segment = state.awaited()->Write_0;
    choose|r: Result<(), ErrorKind>|
        write_run(segment.start_address, segment.data, WRITE_CHUNK as nat, 0, tx, rx, r)
            && #[trigger] state.after_target(TargetInput::Status(r)) == end
}

/// A confirmed erase and the write that follows it settle the state that
/// waits for the erase.
#[verifier::rlimit(50)]
pub proof fn lemma_erase_settled(
    state: Load,
    tx1: Seq<Seq<u8>>,
    rx1: Seq<u8>,
    tx2: Seq<Seq<u8>>,
    rx2: Seq<u8>,
    r: Result<(), ErrorKind>,
)
    requires
        state matches Load::RegionsDiscovered { block_size, first: Some(segment) },
        state.awaited() matches Awaited::Erase { addr, len } && {
            &&& confirmed_round_trip(
                erase_command(addr, len),
                erase_command(addr, len),
                tx1,
                rx1,
                Ok(()),
            )
            &&& write_run(
                addr,
                state->RegionsDiscovered_first->0.data,
                WRITE_CHUNK as nat,
                0,
                tx2,
                rx2,
                r,
            )
        },
    ensures
        settles(
            state,
            tx1 + tx2,
            rx1 + rx2,
            state.after_target(TargetInput::Status(Ok(()))).after_target(TargetInput::Status(r)),
        ),
{
    let tx = tx1 + tx2;
    let rx = rx1 + rx2;
    let i = rx1.len() as int;
    let len = state.awaited()->Erase_len;
    assert(tx1.len() == 2);
    assert(tx.take(2) == tx1);
    assert(tx.skip(2) == tx2);
    assert(rx.take(i) == rx1);
    assert(rx.skip(i) == rx2);
    assert(erase_then_write(state->RegionsDiscovered_first->0, len, tx, rx, i, r));
}

impl LoadState {
    /// Writes the segment that the state holds, where it waits for that.
    fn write_segment<T: GdbTransport>(self, client: &mut GdbClient<T>) -> (next: Self)
        requires
            self@.awaited() is Write,
        ensures
            final(client).connected() == old(client).connected(),
            continues(old(client).traffic(), final(client).traffic()),
            settles(
                self@,
                said(old(client).traffic(), final(client).traffic()),
                heard(old(client).traffic(), final(client).traffic()),
                next@,
            ),
            !next@.awaited().of_target(),
            old(client).link().script() matches Some(m) ==> m.fits() ==> {
                &&& next@ == scripted_settle(self@, m).0
                &&& final(client).link().script() == Some(scripted_settle(self@, m).1)
            },
    {
        let ghost start = self@;
        let r = match &self {
            LoadState::Erased { segment } => client.flash_write(
                segment.start_address,
                segment.data.as_slice(),
                WRITE_CHUNK,
            ),
            LoadState::Writing { stage: WriteStage::Sending(segment), .. } => client.flash_write(
                segment.start_address,
                segment.data.as_slice(),
                WRITE_CHUNK,
            ),
            _ => Ok(()),
        };
        let ghost outcome = status_view(r);
        let next = self.on_status(r);
        proof {
            assert(start.after_target(TargetInput::Status(outcome)) == next@);
        }
        next
    }

    /// Asks for the memory map, where the state waits for that.
    fn discover<T: GdbTransport>(self, client: &mut GdbClient<T>) -> (next: Self)
        requires
            self@.awaited() is Regions,
        ensures
            final(client).connected() == old(client).connected(),
            continues(old(client).traffic(), final(client).traffic()),
            settles(
                self@,
                said(old(client).traffic(), final(client).traffic()),
                heard(old(client).traffic(), final(client).traffic()),
                next@,
            ),
            !next@.awaited().of_target(),
            old(client).link().script() matches Some(m) ==> m.fits() ==> {
                &&& next@ == scripted_settle(self@, m).0
                &&& final(client).link().script() == Some(scripted_settle(self@, m).1)
            },
    {
        let ghost start = self@;
        let r = client.get_flash_info();
        let ghost outcome = info_view(r);
        let next = self.on_regions(r);
        proof {
            assert(start.after_target(TargetInput::Regions(outcome)) == next@);
        }
        next
    }

    /// Ends the flash session, where the state waits for that.
    fn finalize<T: GdbTransport>(self, client: &mut GdbClient<T>) -> (next: Self)
        requires
            self@.awaited() is Finalize,
        ensures
            final(client).connected() == old(client).connected(),
            continues(old(client).traffic(), final(client).traffic()),
            settles(
                self@,
                said(old(client).traffic(), final(client).traffic()),
                heard(old(client).traffic(), final(client).traffic()),
                next@,
            ),
            !next@.awaited().of_target(),
            old(client).link().script() matches Some(m) ==> m.fits() ==> {
                &&& next@ == scripted_settle(self@, m).0
                &&& final(client).link().script() == Some(scripted_settle(self@, m).1)
            },
    {
        let ghost start = self@;
        let r = client.flash_done();
        let ghost outcome = status_view(r);
        let next = self.on_status(r);
        proof {
            assert(start.after_target(TargetInput::Status(outcome)) == next@);
        }
        next
    }

    /// Erases the flash and writes the first segment, where the state waits
    /// for that.
    #[verifier::rlimit(50)]
    fn erase_and_write<T: GdbTransport>(self, client: &mut GdbClient<T>) -> (next: Self)
        requires
            self@.awaited() is Erase,
        ensures
            final(client).connected() == old(client).connected(),
            continues(old(client).traffic(), final(client).traffic()),
            settles(
                self@,
                said(old(client).traffic(), final(client).traffic()),
                heard(old(client).traffic(), final(client).traffic()),
                next@,
            ),
            !next@.awaited().of_target(),
            old(client).link().script() matches Some(m) ==> m.fits() ==> {
                &&& next@ == scripted_settle(self@, m).0
                &&& final(client).link().script() == Some(scripted_settle(self@, m).1)
            },
    {
        let ghost start = self@;
        let ghost before = client.traffic();
        let ghost held = start->RegionsDiscovered_first->0;
        let (addr, len) = match &self {
            LoadState::RegionsDiscovered { block_size, first: Some(segment) } => (
                segment.start_address,
                match erase_span(segment.total_expected_size, *block_size) {
                    Some(len) => len,
                    None => 0,
                },
            ),
            _ => (0, 0),
        };
        proof {
            if client.link().script() is Some {
                lemma_scripted_round_trip_keeps(
                    erase_command(addr, len),
                    client.link().script()->0,
                );
            }
        }
        let r = client.flash_erase(addr, len);
        let ghost erased = status_view(r);
        let ghost mid = client.traffic();
        let state = self.on_status(r);
        proof {
            assert(start.after_target(TargetInput::Status(erased)) == state@);
        }
        if state.is_over() {
            proof {
                assert(erased is Err);
            }
            return state;
        }
        let ghost then = state@;
        proof {
            assert(erased == Ok::<(), ErrorKind>(()));
            assert(then == Load::Erased { segment: held });
        }
        let next = state.write_segment(client);
        proof {
            let now = client.traffic();
            let r2 = lemma_write_settled(then, said(mid, now), heard(mid, now), next@);
            lemma_traffic_joins(before, mid, now);
            lemma_erase_settled(
                start,
                said(before, mid),
                heard(before, mid),
                said(mid, now),
                heard(mid, now),
                r2,
            );
        }
        next
    }

    /// Which command to the target the state waits for, if any.
    fn duty(&self) -> (d: Duty)
        ensures
            d is Discover <==> self@.awaited() is Regions,
            d is Erase <==> self@.awaited() is Erase,
            d is Write <==> self@.awaited() is Write,
            d is Finalize <==> self@.awaited() is Finalize,
    {
        match self {
            LoadState::Init { reported, .. } => if *reported {
                Duty::Discover
            } else {
                Duty::Idle
            },
            LoadState::RegionsDiscovered { first, .. } => match first {
                Some(_) => Duty::Erase,
                None => Duty::Idle,
            },
            LoadState::Erased { .. } => Duty::Write,
            LoadState::Writing { stage, .. } => match stage {
                WriteStage::Sending(_) => Duty::Write,
                _ => Duty::Idle,
            },
            LoadState::Done { finalized } => if *finalized {
                Duty::Idle
            } else {
                Duty::Finalize
            },
            _ => Duty::Idle,
        }
    }

    /// Makes the commands to the target that the state waits for, until it
    /// waits for the host again or the download is over.
    pub fn settle<T: GdbTransport>(self, client: &mut GdbClient<T>) -> (next: Self)
        ensures
            final(client).connected() == old(client).connected(),
            continues(old(client).traffic(), final(client).traffic()),
            settles(
                self@,
                said(old(client).traffic(), final(client).traffic()),
                heard(old(client).traffic(), final(client).traffic()),
                next@,
            ),
            !next@.awaited().of_target(),
            old(client).link().script() matches Some(m) ==> m.fits() ==> {
                &&& next@ == scripted_settle(self@, m).0
                &&& final(client).link().script() == Some(scripted_settle(self@, m).1)
            },
    {
        match self.duty() {
            Duty::Discover => self.discover(client),
            Duty::Erase => self.erase_and_write(client),
            Duty::Write => self.write_segment(client),
            Duty::Finalize => self.finalize(client),
            Duty::Idle => self,
        }
    }

    /// Takes what the host delivers and goes on until the download waits
    /// for the host again or is over.
    pub fn advance<T: GdbTransport>(self, client: &mut GdbClient<T>, event: HostEvent) -> (next:
        Self)
        ensures
            final(client).connected() == old(client).connected(),
            continues(old(client).traffic(), final(client).traffic()),
            settles(
                self@.after_host(event@),
                said(old(client).traffic(), final(client).traffic()),
                heard(old(client).traffic(), final(client).traffic()),
                next@,
            ),
            !next@.awaited().of_target(),
            old(client).link().script() matches Some(m) ==> m.fits() ==> {
                &&& next@ == scripted_settle(self@.after_host(event@), m).0
                &&& final(client).link().script() == Some(
                    scripted_settle(self@.after_host(event@), m).1,
                )
            },
    {
        self.on_host(event).settle(client)
    }
}


} // verus!
