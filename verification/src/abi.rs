//! ABI bridge: the single crossing point between host code and
//! guest-resident code.
//!
//! The execution engine that would actually run guest instructions is a
//! separate component and is treated as a blocking black box. This core
//! models a crossing as a record appended to the bridge's call log, in
//! send order: every guest-resident implementation address is invoked
//! through [`Bridge::call_guest`] and nowhere else, so the log is the
//! complete, ordered history of host-to-guest transfers. The opposite
//! direction — making host code callable with the guest's calling
//! convention — is served by registering a host-native implementation
//! in a class's selector table, which the dispatch engine then invokes
//! directly.

use vstd::prelude::*;

verus! {

/// A guest-resident function: an address in guest memory, callable only
/// through the ABI bridge, never directly by host code.
#[derive(Clone, Copy, PartialEq, Eq, Structural, Debug)]
pub struct GuestFunction {
    /// Guest address of the function's first instruction.
    pub addr: u32,
}

/// One recorded crossing into guest execution: the callee's address and
/// the argument words handed over in the guest calling convention's
/// order.
pub struct GuestCall {
    /// Address of the guest function that was invoked.
    pub addr: u32,
    /// Argument words, already marshalled to the guest convention.
    pub args: Vec<u32>,
}

/// The bridge between the host's and the guest's calling conventions.
pub struct Bridge {
    /// Every crossing into guest execution so far, oldest first.
    pub calls: Vec<GuestCall>,
}

impl Bridge {
    /// A bridge over which no call has crossed yet.
    pub fn new() -> (b: Bridge)
        ensures
            b.calls@.len() == 0,
    {
        Bridge { calls: Vec::new() }
    }

    /// Transfer control to the guest function `f`, handing over `args`.
    /// The crossing is recorded; the engine that would execute the
    /// callee is outside this core, so the returned word is fixed at
    /// zero here and carries no meaning of its own.
    pub fn call_guest(&mut self, f: GuestFunction, args: Vec<u32>) -> (r: u32)
        ensures
            final(self).calls@ == old(self).calls@.push(GuestCall { addr: f.addr, args: args }),
            r == 0,
    {
        self.calls.push(GuestCall { addr: f.addr, args });
        0
    }
}

} // verus!
