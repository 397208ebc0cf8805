//! Host side of a function-as-a-service runtime: length-prefixed framing of
//! the host/guest channel, the DC label algebra that travels with each
//! execution, the syscall dispatch decisions of a VM session, and the
//! assembly of the VMM command line.
use vstd::prelude::*;

pub mod frame;
pub mod label;
pub mod session;
pub mod vmm;

verus! {

} // verus!
