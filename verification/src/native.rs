//! The status codes and row fields of the native adapter interface.

use vstd::prelude::*;

use crate::text::{chars_of};

verus! {

/// How a call on the shared manager went.
#[derive(Clone, Copy, PartialEq, Eq, Structural, Debug)]
pub enum CallOutcome {
    /// No manager was passed.
    NoManager,
    Done,
    /// The operation reported an error, or the manager's lock was poisoned.
    Failed,
    /// The operation panicked.
    Panicked,
}

/// The status a call returns: `0` on success, `-1` without a manager, `-2`
/// for a failure and `-3` for a panic.
pub fn status_code(outcome: CallOutcome) -> (r: i32)
    ensures
        r == match outcome {
            CallOutcome::NoManager => -1i32,
            CallOutcome::Done => 0i32,
            CallOutcome::Failed => -2i32,
            CallOutcome::Panicked => -3i32,
        },
{
    match outcome {
        CallOutcome::NoManager => -1,
        CallOutcome::Done => 0,
        CallOutcome::Failed => -2,
        CallOutcome::Panicked => -3,
    }
}

/// The id a row carries across the interface: its catalog id, or
/// `u32::MAX` for a row without one.
pub fn exported_id(id: Option<u32>) -> (r: u32)
    ensures
        r == match id {
            Some(v) => v,
            None => u32::MAX,
        },
{
    match id {
        Some(v) => v,
        None => u32::MAX,
    }
}

/// The byte a flag crosses the interface as.
pub fn exported_flag(b: bool) -> (r: u8)
    ensures
        r == if b {
            1u8
        } else {
            0u8
        },
{
    if b {
        1
    } else {
        0
    }
}

fn nul_free(s: &str) -> (r: bool)
    ensures
        r == !s@.contains('\0'),
{
    let c = chars_of(s);
    let mut k: usize = 0;
    while k < c.len()
        invariant
            k <= c@.len(),
            c@ == s@,
            forall|m: int| 0 <= m < k ==> c@[m] != '\0',
        decreases c@.len() - k,
    {
        if c[k] == '\0' {
            return false;
        }
        k = k + 1;
    }
    true
}

/// Whether a row can cross the interface: its name and path, passed as
/// C strings, hold no NUL.  Rows that cannot are skipped.
pub fn exportable(name: &str, path: &str) -> (r: bool)
    ensures
        r == (!name@.contains('\0') && !path@.contains('\0')),
{
    nul_free(name) && nul_free(path)
}

} // verus!
