//! The process system calls: their numbers, the checks the kernel makes on
//! the arguments of `exec`, and how its result travels back to user space.

use vstd::prelude::*;

verus! {

/// The number of the exit system call.
pub const EXIT_SYSCALL_NUM: u64 = 1;

/// The number of the get_pid system call.
pub const GET_PID_SYSCALL_NUM: u64 = 2;

/// The number of the exec system call.
pub const EXEC_SYSCALL_NUM: u64 = 3;

/// The alignment `exec` asks of the name pointer: that of a pointer.
pub const POINTER_ALIGN: u64 = 8;

/// The possible process related errors.
#[derive(Clone, Copy, Debug, PartialEq, Eq, Structural)]
pub enum ProcessError {
    /// The error is not further specified.
    Unspecified,
}

/// The register value that reports an error.
pub const ERROR_RESULT: i64 = -1;

/// Checks the arguments of `exec`: the name pointer must be aligned to a
/// pointer and the name must not be empty.
pub fn check_exec_args(name_ptr: u64, name_len: u64) -> (r: Result<(), ProcessError>)
    ensures
        r.is_ok() <==> name_ptr % POINTER_ALIGN == 0 && name_len > 0,
{
    if name_ptr % POINTER_ALIGN != 0 || name_len == 0 {
        Err(ProcessError::Unspecified)
    } else {
        Ok(())
    }
}

/// The register value the kernel returns for the outcome of `exec`: the
/// process id, or a negative number for an error.
pub fn encode_exec_result(r: Result<u64, ProcessError>) -> (v: i64)
    requires
        r matches Ok(pid) ==> pid <= i64::MAX,
    ensures
        r matches Ok(pid) ==> v == pid,
        r.is_err() ==> v == ERROR_RESULT,
{
    match r {
        Ok(pid) => pid as i64,
        Err(_) => ERROR_RESULT,
    }
}

/// What user space makes of the register value `exec` returned: a negative
/// value is an error, any other the id of the new process.
pub fn exec_result(raw: i64) -> (r: Result<u64, ProcessError>)
    ensures
        raw < 0 ==> r == Err::<u64, ProcessError>(ProcessError::Unspecified),
        raw >= 0 ==> r == Ok::<u64, ProcessError>(raw as u64),
{
    if raw < 0 {
        Err(ProcessError::Unspecified)
    } else {
        Ok(raw as u64)
    }
}

/// What the kernel returns from `exec` reaches user space unchanged: a
/// process id as that id, an error as an error.
pub proof fn lemma_exec_result_round_trip(r: Result<u64, ProcessError>, v: i64)
    requires
        r matches Ok(pid) ==> pid <= i64::MAX && v == pid,
        r.is_err() ==> v == ERROR_RESULT,
    ensures
        r matches Ok(pid) ==> v >= 0 && v as u64 == pid,
        r.is_err() ==> v < 0,
{
}

} // verus!
