//! The slot of the running transaction, as the runtime's clock reports it.

use anchor_lang::prelude::{Clock, ProgramError, SolanaSysvar};
use vstd::prelude::*;

verus! {

/// `ProgramError` of `anchor_lang::prelude`, the error of the runtime. The library
/// carries such a value through and never looks inside.
#[verifier::external_type_specification]
#[verifier::external_body]
pub struct ExProgramError(ProgramError);

/// Asks the runtime for its clock with `Clock::get()` of `anchor_lang::prelude` and hands
/// back the `slot` field of the answer, or the error that the runtime gave. Nothing is
/// claimed of the slot or of when an error comes: both depend on where the program
/// runs. Outside the runtime the request is answered by the process-wide syscall
/// stubs, which by default report that the sysvar is not supported.
#[verifier::external_body]
pub(crate) fn current_slot() -> (r: Result<u64, ProgramError>) {
    match Clock::get() {
        Ok(clock) => Ok(clock.slot),
        Err(e) => Err(e),
    }
}

} // verus!
