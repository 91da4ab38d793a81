//! The codes of the debugger interface that hosts the download, and what
//! they ask for.

use crate::flash_load::ProgressPhase;
use vstd::prelude::*;

verus! {

/// The class of calls that set up features.
pub const AG_INITFEATURES: u16 = 0x0100;

/// The class of calls that ask for a feature.
pub const AG_GETFEATURE: u16 = 0x0200;

/// The class of calls that set up one item.
pub const AG_INITITEM: u16 = 0x0300;

/// The item: the host's callback.
pub const AG_INITCALLBACK: u16 = 0x0012;

/// The item: prepare a flash download.
pub const AG_INITFLASHLOAD: u16 = 0x0013;

/// The item: run a flash download.
pub const AG_STARTFLASHLOAD: u16 = 0x0014;

/// The status of a call that went well.
pub const AG_OK: u32 = 0;

/// The status of a call that failed.
pub const AG_ERR_GENERIC: u32 = 1;

/// The status of a call that could not reach the target.
pub const AG_NOACCESS: u32 = 1;

/// The callback code for a progress report.
pub const AG_CB_PROGRESS: u32 = 2;

/// The callback code for the next piece of the image.
pub const AG_CB_GETFLASHPARAM: u32 = 15;

/// The progress job that opens the display.
pub const PROGRESS_INIT: i32 = 1;

/// The progress job that closes the display.
pub const PROGRESS_KILL: i32 = 2;

/// The progress job that sets the position.
pub const PROGRESS_SETPOS: i32 = 3;

/// What an initialisation call asks for.
#[derive(Debug, Clone, Copy, PartialEq, Eq)]
pub enum InitRequest {
    /// Install the host's callback.
    InitCallback,
    /// Connect to the target.
    InitFlashLoad,
    /// Run the download.
    StartFlashLoad,
    /// Tell about a feature.
    GetFeature,
    /// Nothing that concerns the download.
    Nothing,
}

/// What the initialisation code `n_code` asks for: its high byte is the
/// class of the call, its low byte the item.
pub open spec fn init_request_of(n_code: u16) -> InitRequest {
    if n_code / 256 == 3 {
        if n_code % 256 == 0x12 {
            InitRequest::InitCallback
        } else if n_code % 256 == 0x13 {
            InitRequest::InitFlashLoad
        } else if n_code % 256 == 0x14 {
            InitRequest::StartFlashLoad
        } else {
            InitRequest::Nothing
        }
    } else if n_code / 256 == 2 {
        InitRequest::GetFeature
    } else {
        InitRequest::Nothing
    }
}

/// What the initialisation code `n_code` asks for.
pub fn init_request(n_code: u16) -> (r: InitRequest)
    ensures
        r == init_request_of(n_code),
{
    let class: u16 = n_code & 0xFF00;
    let item: u16 = n_code & 0x00FF;
    proof {
        assert(n_code & 0xFF00 == (n_code / 256) * 256) by (bit_vector);
        assert(n_code & 0x00FF == n_code % 256) by (bit_vector);
    }
    if class == AG_INITITEM {
        if item == AG_INITCALLBACK {
            InitRequest::InitCallback
        } else if item == AG_INITFLASHLOAD {
            InitRequest::InitFlashLoad
        } else if item == AG_STARTFLASHLOAD {
            InitRequest::StartFlashLoad
        } else {
            InitRequest::Nothing
        }
    } else if class == AG_GETFEATURE {
        InitRequest::GetFeature
    } else {
        InitRequest::Nothing
    }
}

/// The capability that the driver reports for the query `n_code`: it is a
/// target driver for ARM and can download to flash.
pub fn dll_uv3_cap(n_code: u32) -> (r: i32)
    ensures
        r == if n_code == 1 {
            1i32
        } else if n_code == 2 {
            7i32
        } else if n_code == 100 {
            1i32
        } else {
            0i32
        },
{
    if n_code == 1 {
        1
    } else if n_code == 2 {
        7
    } else if n_code == 100 {
        1
    } else {
        0
    }
}

/// The processor family that the driver reports for the query `n_code`.
pub fn enum_uv_arm7(n_code: u16) -> (r: u32)
    ensures
        r == if n_code == 2 {
            7u32
        } else {
            0u32
        },
{
    if n_code == 2 {
        7
    } else {
        0
    }
}

/// The job code of a progress report.
pub fn progress_job(phase: ProgressPhase) -> (job: i32)
    ensures
        job == match phase {
            ProgressPhase::Init => PROGRESS_INIT,
            ProgressPhase::SetPos => PROGRESS_SETPOS,
            ProgressPhase::Kill => PROGRESS_KILL,
        },
{
    match phase {
        ProgressPhase::Init => PROGRESS_INIT,
        ProgressPhase::SetPos => PROGRESS_SETPOS,
        ProgressPhase::Kill => PROGRESS_KILL,
    }
}

/// The status that the host gets for a call: every failure is reported as
/// `AG_NOACCESS`.
pub fn status_code(success: bool) -> (status: u32)
    ensures
        status == if success {
            AG_OK
        } else {
            AG_NOACCESS
        },
{
    if success {
        AG_OK
    } else {
        AG_NOACCESS
    }
}

} // verus!
