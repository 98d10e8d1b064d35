//! One-shot initialization primitive over a guest-visible record.
//!
//! The record's binary layout is part of the ABI: a fixed magic word,
//! then a flag word that is zero while uninitialized and all-ones once
//! initialized, both little-endian. The flag is written back to guest
//! memory before the initializer is invoked, so a re-entrant call made
//! by the initializer itself observes the initialized state and does
//! not recurse. Any other magic or flag value is malformed guest data
//! and a fatal integrity violation, not a recoverable error.

use vstd::prelude::*;

use crate::abi::{Bridge, GuestFunction};
use crate::mem::{word_at, GuestMem, MemError};

verus! {

/// Magic word of an initialization record. This is part of the ABI.
pub const MAGIC_ONCE: u32 = 0x30B1BCBA;

/// Flag value marking a record whose initializer has run.
pub const ONCE_DONE: u32 = 0xFFFF_FFFF;

/// A failure of the one-shot primitive. `BadMagic` and `BadFlag` are
/// guest-data integrity violations: the host embedding must abort the
/// emulated process rather than go on.
#[derive(Clone, Copy, PartialEq, Eq, Structural, Debug)]
pub enum OnceError {
    /// Reading or writing the record failed.
    Mem(MemError),
    /// The record's magic word is not the documented value.
    BadMagic,
    /// The record's flag holds neither recognized state.
    BadFlag,
}

/// Ensure the guest routine `init_routine` has run exactly once for
/// the record at `once_control`: on the first call the flag moves from
/// zero to initialized — written back before the routine is invoked
/// through the bridge — and every later call returns without invoking
/// anything. Returns zero on success, as the guest ABI expects.
///
/// A `BadMagic` or `BadFlag` result marks malformed guest data: the
/// host embedding is obliged to treat the emulated process as faulted
/// and abort it rather than call again. The contract guarantees that
/// on such a record nothing was invoked, memory is unchanged, and no
/// success value stands in for the missing initialization.
pub fn pthread_once(
    mem: &mut GuestMem,
    bridge: &mut Bridge,
    once_control: u32,
    init_routine: GuestFunction,
) -> (r: Result<i32, OnceError>)
    requires
        old(mem).wf(),
    ensures
        once_control % 4 != 0 ==> r == Err::<i32, OnceError>(OnceError::Mem(MemError::Unaligned)),
        once_control % 4 == 0 && once_control + 8 > old(mem).bytes@.len() ==> r == Err::<
            i32,
            OnceError,
        >(OnceError::Mem(MemError::OutOfBounds)),
        r is Err ==> *final(mem) == *old(mem) && *final(bridge) == *old(bridge),
        once_control % 4 == 0 && once_control + 8 <= old(mem).bytes@.len() ==> {
            let magic = word_at(old(mem).bytes@, once_control as int);
            let flag = word_at(old(mem).bytes@, once_control + 4);
            &&& (magic != MAGIC_ONCE ==> r == Err::<i32, OnceError>(OnceError::BadMagic))
            &&& (magic == MAGIC_ONCE && flag != 0 && flag != ONCE_DONE ==> r == Err::<
                i32,
                OnceError,
            >(OnceError::BadFlag))
            &&& (magic == MAGIC_ONCE && flag == ONCE_DONE ==> r == Ok::<i32, OnceError>(0)
                && *final(mem) == *old(mem) && *final(bridge) == *old(bridge))
            &&& (magic == MAGIC_ONCE && flag == 0 ==> {
                &&& r == Ok::<i32, OnceError>(0)
                &&& final(mem).bytes@.len() == old(mem).bytes@.len()
                &&& word_at(final(mem).bytes@, once_control as int) == MAGIC_ONCE
                &&& word_at(final(mem).bytes@, once_control + 4) == ONCE_DONE
                &&& forall|b: int|
                    0 <= b < old(mem).bytes@.len() && (b < once_control + 4 || b >= once_control
                        + 8) ==> final(mem).bytes@[b] == old(mem).bytes@[b]
                &&& final(mem).zones@ == old(mem).zones@
                &&& final(bridge).calls@.len() == old(bridge).calls@.len() + 1
                &&& forall|k: int|
                    0 <= k < old(bridge).calls@.len() ==> final(bridge).calls@[k] == old(
                        bridge,
                    ).calls@[k]
                &&& final(bridge).calls@.last().addr == init_routine.addr
                &&& final(bridge).calls@.last().args@.len() == 0
            })
        },
{
    if once_control > 0xFFFF_FFF7 {
        // The record cannot fit below the top of the address space.
        if once_control % 4 != 0 {
            return Err(OnceError::Mem(MemError::Unaligned));
        }
        return Err(OnceError::Mem(MemError::OutOfBounds));
    }
    let magic = match mem.read_u32(once_control) {
        Err(e) => {
            return Err(OnceError::Mem(e));
        },
        Ok(m) => m,
    };
    let flag = match mem.read_u32(once_control + 4) {
        Err(e) => {
            return Err(OnceError::Mem(e));
        },
        Ok(f) => f,
    };
    if magic != MAGIC_ONCE {
        return Err(OnceError::BadMagic);
    }
    if flag == 0 {
        // The flag is written back before the initializer runs, so a
        // re-entrant call from the initializer observes it as set.
        let w = mem.write_u32(once_control + 4, ONCE_DONE);
        if w.is_err() {
            proof {
                assert(false);
            }
            return Err(OnceError::Mem(MemError::OutOfBounds));
        }
        bridge.call_guest(init_routine, Vec::new());
        Ok(0)
    } else if flag == ONCE_DONE {
        // Already initialized: nothing to do.
        Ok(0)
    } else {
        Err(OnceError::BadFlag)
    }
}

/// The one-shot law: starting from a record with valid magic and a
/// freshly zeroed flag, the first ensure-initialized call leaves the
/// flag initialized and the magic intact — exactly the state from
/// which `pthread_once`'s contract makes every further call return
/// without crossing the bridge. Two sequential calls on one record
/// therefore invoke the guest initializer exactly once, and both
/// callers observe the initialized flag afterwards.
pub proof fn lemma_once_invoked_exactly_once(m0: Seq<u8>, m1: Seq<u8>, a: u32)
    requires
        a % 4 == 0,
        a + 8 <= m0.len(),
        word_at(m0, a as int) == MAGIC_ONCE,
        word_at(m0, a + 4) == 0,
        m1.len() == m0.len(),
        word_at(m1, a + 4) == ONCE_DONE,
        forall|b: int| 0 <= b < m0.len() && (b < a + 4 || b >= a + 8) ==> m1[b] == m0[b],
    ensures
        word_at(m1, a as int) == MAGIC_ONCE,
        word_at(m1, a + 4) == ONCE_DONE,
        word_at(m1, a + 4) != 0,
{
    assert(m1[a as int] == m0[a as int]);
    assert(m1[a + 1] == m0[a + 1]);
    assert(m1[a + 2] == m0[a + 2]);
    assert(m1[a + 3] == m0[a + 3]);
}

} // verus!
