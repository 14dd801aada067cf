use vstd::prelude::*;
use super::sdk::{VmExecutionResult, STATUS_SUCCESS, STATUS_FAILED, FLAG_RELOAD_REQUIRED, FLAG_MEMORY_CORRUPTED,
    FLAG_CRITICAL_ERROR, has_flag};

verus! {

/// What can go wrong while running a worker module.
#[derive(Debug, Clone, Copy, PartialEq, Eq)]
pub enum VMError {
    WASMEngineCreateError,
    WASMEntryPointNotFound,
    WASMFailedToCallFunction,
    WASMFailedToParseFunctionResponse,
    WASMInvalidStatusReturned,
    WASMFailedToGetMemory,
    WASMFailedWhileWritingInMemory,
    WASMFailedToGetInstance,
    WASMProvidedWebAssemblyBytecodeIsNotValid,
}

/// The outcome of a worker run.
pub enum WorkerResult {
    Success { logs: String, output: Vec<u8>, is_reload_required: bool },
    Failed { is_memory_corrupted: bool, is_critical_error: bool },
}

/// The outcome of a worker run from what the host read back: a success
/// (with its output and whether a reload was asked for), a failure (with
/// its memory and critical flags), or `WASMInvalidStatusReturned` for any
/// other status.
pub fn classify_result(result: VmExecutionResult) -> (r: Result<WorkerResult, VMError>)
    ensures
        result.status == STATUS_SUCCESS ==> (r matches Ok(WorkerResult::Success { logs, output, is_reload_required })
            && logs@.len() == 0 && output@ == result.output@
            && is_reload_required == (result.flags & FLAG_RELOAD_REQUIRED != 0)),
        result.status == STATUS_FAILED ==> (r matches Ok(WorkerResult::Failed { is_memory_corrupted, is_critical_error })
            && is_memory_corrupted == (result.flags & FLAG_MEMORY_CORRUPTED != 0)
            && is_critical_error == (result.flags & FLAG_CRITICAL_ERROR != 0)),
        result.status != STATUS_SUCCESS && result.status != STATUS_FAILED
            ==> r == Err::<WorkerResult, VMError>(VMError::WASMInvalidStatusReturned),
{
    if result.status == STATUS_SUCCESS {
        let is_reload_required = has_flag(result.flags, FLAG_RELOAD_REQUIRED);
        Ok(WorkerResult::Success { logs: String::new(), output: result.output, is_reload_required })
    } else if result.status == STATUS_FAILED {
        let is_memory_corrupted = has_flag(result.flags, FLAG_MEMORY_CORRUPTED);
        let is_critical_error = has_flag(result.flags, FLAG_CRITICAL_ERROR);
        Ok(WorkerResult::Failed { is_memory_corrupted, is_critical_error })
    } else {
        Err(VMError::WASMInvalidStatusReturned)
    }
}

} // verus!
