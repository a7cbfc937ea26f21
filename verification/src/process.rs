//! Ownership attribution and termination-target checks.
//!
//! The account-database lookup itself is an OS service; the library's part
//! is the fallback rule (an unresolvable uid shows as its number) and the
//! refusal rules the termination primitive must apply before any native
//! call.

use vstd::prelude::*;

use crate::text::{spec_dec_digits, u64_to_string};

verus! {

/// The display name of a process owner: the account name the system
/// database resolved, or the numeric uid when it could not.
pub fn username_or_uid(looked_up: Option<String>, uid: u32) -> (r: String)
    ensures
        match looked_up {
            Some(name) => r@ == name@,
            None => r@ == spec_dec_digits(uid as nat),
        },
{
    match looked_up {
        Some(name) => name,
        None => u64_to_string(uid as u64),
    }
}

/// Why a termination request is refused before any native call is made.
#[derive(Clone, Copy, Debug, PartialEq, Eq, Structural)]
pub enum KillRefusal {
    /// Pid 0 would signal the whole process group.
    ZeroPid,
    /// The pid does not fit the native signed pid type.
    OutOfRange,
}

/// Check a termination target: pid 0 and pids over the native signed range
/// are refused; any other pid passes through as the value the native call
/// takes.
pub fn validate_kill_target(pid: u32) -> (r: Result<i32, KillRefusal>)
    ensures
        pid == 0 ==> r == Result::<i32, KillRefusal>::Err(KillRefusal::ZeroPid),
        pid > i32::MAX as u32 ==> r == Result::<i32, KillRefusal>::Err(KillRefusal::OutOfRange),
        0 < pid <= i32::MAX as u32 ==> r == Result::<i32, KillRefusal>::Ok(pid as i32),
{
    if pid == 0 {
        Err(KillRefusal::ZeroPid)
    } else if pid > i32::MAX as u32 {
        Err(KillRefusal::OutOfRange)
    } else {
        Ok(pid as i32)
    }
}

} // verus!
