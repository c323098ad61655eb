//! The values the chain host hands to every invocation.

use vstd::prelude::*;

verus! {

/// A 20-byte account identifier.
pub type Address = [u8; 20];

/// The all-zero account: the host's default caller, which owns a module
/// constructed without an explicit caller.
pub open spec fn is_zero_address(a: Address) -> bool {
    forall|i: int| 0 <= i < 20 ==> a@[i] == 0
}

/// The host-supplied context of one invocation: who calls, and where in the
/// chain the enclosing block sits. The host is trusted for these three values;
/// every operation of the core is verified for all of them.
#[derive(Clone, Copy)]
pub struct Env {
    /// The account that signed the invocation.
    pub caller: Address,
    /// Height of the block the invocation executes in.
    pub block_number: u32,
    /// Timestamp of that block, in the host's time unit.
    pub block_timestamp: u64,
}

} // verus!
