//! The entry point of the system-call layer.
//!
//! A caller names a capability by its index in a capability space and an
//! operation by its number. Both are checked here, and what comes back is the
//! effect to perform or a small error number.

use vstd::prelude::*;
use crate::arena::{live, Arena};
use crate::caps::{exercise_spec, fetch, CapError, CapId, CapabilityEntryPtr, Effect, Operation};
use crate::kptr::KPtr;
use crate::retyping::RetypeTable;

verus! {

/// The number that reports success across the system-call boundary.
pub const SUCCESS: isize = 0;

/// What exercising the capability at index `cap` of the space rooted at `root`
/// with the operation of number `op` comes to. The number of the operation is
/// checked first, then the capability is looked up, then the operation is
/// matched against the resource.
pub open spec fn exercise_outcome(m: Arena, root: KPtr, cap: usize, op: usize) -> Result<
    Effect,
    CapError,
> {
    match Operation::from_id(op) {
        None => Err(CapError::InvalidOp),
        Some(operation) => if cap > u32::MAX {
            Err(CapError::NotFound)
        } else {
            match fetch(m, root, cap as u32) {
                Err(fault) => Err(fault),
                Ok(capability) => exercise_spec(capability.resource(), operation),
            }
        },
    }
}

/// The number under which an outcome crosses the system-call boundary: zero
/// for success, the number of the error otherwise.
pub open spec fn outcome_code(outcome: Result<Effect, CapError>) -> int {
    match outcome {
        Ok(_) => SUCCESS as int,
        Err(fault) => fault.errno(),
    }
}

/// Decides what exercising the capability at index `cap` of the space rooted
/// at `root` with the operation of number `op` comes to. The table is only
/// read; the caller performs the effect. A thread that is to be activated is
/// there: no capability in the table outlives its object.
pub fn exercise(table: &RetypeTable, root: &CapabilityEntryPtr, cap: CapId, op: usize) -> (res:
    Result<Effect, CapError>)
    requires
        table.wf(),
    ensures
        res == exercise_outcome(table@, root@, cap@, op),
        res matches Ok(Effect::ActivateThread(thread)) ==> thread.tag() is Thread && live(
            table@,
            thread,
        ),
{
    let operation = match Operation::try_from_primitive(op) {
        Ok(operation) => operation,
        Err(invalid) => {
            return Err(CapError::from(invalid));
        },
    };
    let index: usize = cap.index();
    if index > u32::MAX as usize {
        return Err(CapError::NotFound);
    }
    match root.get(table, index as u32) {
        Ok(capability) => capability.exercise(operation),
        Err(fault) => Err(fault),
    }
}

/// The number under which an outcome crosses the system-call boundary.
pub fn return_code(outcome: &Result<Effect, CapError>) -> (code: isize)
    ensures
        code == outcome_code(*outcome),
        0 <= code <= 4,
        code == 0 <==> outcome is Ok,
{
    match outcome {
        Ok(_) => SUCCESS,
        Err(fault) => fault.to_errno(),
    }
}

} // verus!
