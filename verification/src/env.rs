//! The emulated process: guest memory, the object model, view
//! bookkeeping and the ABI bridge, bundled with the invariant that ties
//! them together.
//!
//! All operations on this state are synchronous; if several host
//! threads drive independent guest logical threads, the whole
//! `Environment` must sit behind one coarse critical section, since
//! dispatch, allocation and reference counting all mutate it.

use vstd::prelude::*;

use crate::abi::Bridge;
use crate::mem::GuestMem;
use crate::objc::Runtime;
use crate::views::State;

verus! {

/// The process-scoped state of the emulated process, created once at
/// startup and torn down with the process.
pub struct Environment {
    /// The emulated address space.
    pub mem: GuestMem,
    /// Class, selector and object registries.
    pub objc: Runtime,
    /// View bookkeeping.
    pub views: State,
    /// The host/guest calling-convention bridge.
    pub bridge: Bridge,
}

impl Environment {
    /// The cross-component invariant: memory and registries are
    /// well-formed, the default zone exists, and every live object's
    /// guest header lies inside what the default zone has handed out,
    /// so a header access can never leave mapped memory and a fresh
    /// allocation can never collide with a live reference.
    pub open spec fn inv(self) -> bool {
        &&& self.mem.wf()
        &&& self.objc.wf()
        &&& self.mem.zones@.len() >= 1
        &&& forall|i: int|
            0 <= i < self.objc.objects@.len() ==> self.mem.zones@[0].base <= (
            #[trigger] self.objc.objects@[i]).oid && self.objc.objects@[i].oid + 4
                <= self.mem.zones@[0].base + self.mem.zones@[0].used
    }

    /// A fresh emulated process with `mem_size` bytes of guest memory
    /// and empty registries.
    pub fn new(mem_size: u32) -> (env: Environment)
        requires
            mem_size >= 8,
        ensures
            env.inv(),
            env.mem.bytes@.len() == mem_size,
            env.objc.selectors@.len() == 1,
            env.objc.classes@.len() == 0,
            env.objc.objects@.len() == 0,
            env.views.views@.len() == 0,
            env.bridge.calls@.len() == 0,
            env.objc.selectors@[crate::objc::DEALLOC_SEL as int]@ == "dealloc"@,
    {
        Environment {
            mem: GuestMem::new(mem_size),
            objc: Runtime::new(),
            views: State::new(),
            bridge: Bridge::new(),
        }
    }
}


/// An environment whose registry keeps every entry's reference, class
/// and ledger count (only payloads may differ), over unchanged memory,
/// classes and selectors, satisfies the invariant again.
pub proof fn lemma_inv_same_skeleton(a: Environment, b: Environment)
    requires
        a.inv(),
        b.mem == a.mem,
        b.objc.classes@ == a.objc.classes@,
        b.objc.selectors@ == a.objc.selectors@,
        b.objc.objects@.len() == a.objc.objects@.len(),
        forall|m: int|
            0 <= m < a.objc.objects@.len() ==> (#[trigger] b.objc.objects@[m]).oid
                == a.objc.objects@[m].oid && b.objc.objects@[m].class == a.objc.objects@[m].class
                && b.objc.objects@[m].refcount == a.objc.objects@[m].refcount,
    ensures
        b.inv(),
{
    assert forall|i: int, j: int|
        0 <= i < b.objc.objects@.len() && 0 <= j < b.objc.objects@.len() && i != j implies (
    #[trigger] b.objc.objects@[i]).oid != (#[trigger] b.objc.objects@[j]).oid by {
        assert(a.objc.objects@[i].oid != a.objc.objects@[j].oid);
    }
    assert forall|i: int| 0 <= i < b.objc.objects@.len() implies (
    #[trigger] b.objc.objects@[i]).wf_in(b.objc.classes@.len() as int) by {
        assert(a.objc.objects@[i].wf_in(a.objc.classes@.len() as int));
    }
}

} // verus!
