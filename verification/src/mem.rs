//! Guest memory model: typed, bounds-checked access to an emulated flat
//! address space, plus zone-scoped allocation.
//!
//! Guest-visible words are stored little-endian. All accesses are checked:
//! an address range that is not mapped fails with [`MemError::OutOfBounds`],
//! and a word access off its alignment fails with [`MemError::Unaligned`].
//! No raw host-pointer arithmetic is exposed to callers.

use vstd::prelude::*;

verus! {

/// A memory-range error. Both conditions are fatal for the emulated
/// process: this component never services them by returning placeholder
/// data.
#[derive(Clone, Copy, PartialEq, Eq, Debug, Structural)]
pub enum MemError {
    /// The requested range is not inside the mapped address space.
    OutOfBounds,
    /// The address breaks the alignment rule of the accessed layout.
    Unaligned,
}

/// A named allocation arena inside the guest address space. Allocation
/// bumps `used`; deallocated ranges are recorded in `freed` (free-list
/// bookkeeping; ranges are not recycled, so a previously handed-out
/// address is never handed out again).
pub struct Zone {
    /// First guest address of the zone.
    pub base: u32,
    /// Number of bytes the zone spans.
    pub size: u32,
    /// Bytes handed out so far, always a multiple of four.
    pub used: u32,
    /// Ranges returned to the zone, as (address, length) pairs.
    pub freed: Vec<(u32, u32)>,
}

impl Zone {
    /// The zone lies inside a mapped space of `len` bytes and keeps
    /// word alignment for every address it hands out.
    pub open spec fn wf_in(self, len: int) -> bool {
        &&& self.used <= self.size
        &&& self.base + self.size <= len
        &&& self.base % 4 == 0
        &&& self.used % 4 == 0
        &&& self.base >= 4
    }

    /// `self` with its cursor advanced by `n` bytes.
    pub open spec fn bumped(self, n: int) -> Zone {
        Zone { base: self.base, size: self.size, used: (self.used + n) as u32, freed: self.freed }
    }

}

/// The emulated flat address space with its allocation zones.
pub struct GuestMem {
    /// Backing bytes; index = guest address.
    pub bytes: Vec<u8>,
    /// Allocation arenas; index 0 is the default zone.
    pub zones: Vec<Zone>,
}

/// The little-endian word formed by four bytes.
pub open spec fn word_of_bytes(b0: u8, b1: u8, b2: u8, b3: u8) -> u32 {
    (b0 as u32) | ((b1 as u32) << 8) | ((b2 as u32) << 16) | ((b3 as u32) << 24)
}

/// The little-endian word stored at `addr`.
pub open spec fn word_at(bytes: Seq<u8>, addr: int) -> u32 {
    word_of_bytes(bytes[addr], bytes[addr + 1], bytes[addr + 2], bytes[addr + 3])
}

/// `n` rounded up to a multiple of four.
pub open spec fn round_to_word(n: int) -> int {
    ((n + 3) / 4) * 4
}

/// Rounding up to a whole word moves an amount by less than a word and
/// keeps it word-aligned.
pub proof fn lemma_round_to_word(n: int)
    requires
        n >= 0,
    ensures
        n <= round_to_word(n) < n + 4,
        round_to_word(n) % 4 == 0,
{
    assert(n <= ((n + 3) / 4) * 4 < n + 4 && (((n + 3) / 4) * 4) % 4 == 0) by (nonlinear_arith)
        requires
            n >= 0,
    ;
}

impl GuestMem {
    /// Every zone lies inside the mapped bytes, and the space is small
    /// enough that every address fits in a guest word.
    pub open spec fn wf(self) -> bool {
        &&& self.bytes@.len() <= 0xFFFF_FFFF
        &&& forall|z: int|
            0 <= z < self.zones@.len() ==> (#[trigger] self.zones@[z]).wf_in(
                self.bytes@.len() as int,
            )
    }

    /// A word-sized access at `addr` stays inside the mapped bytes.
    pub open spec fn word_in_bounds(self, addr: u32) -> bool {
        addr + 4 <= self.bytes@.len()
    }

    /// Create an address space of `size` zeroed bytes with one default
    /// zone covering everything above the reserved low addresses; the
    /// null address is never inside any zone.
    pub fn new(size: u32) -> (m: GuestMem)
        requires
            size >= 8,
        ensures
            m.wf(),
            m.bytes@ == Seq::new(size as nat, |i: int| 0u8),
            m.zones@.len() == 1,
            m.zones@[0].base == 8,
            m.zones@[0].size == size - 8,
            m.zones@[0].used == 0,
    {
        let bytes: Vec<u8> = vec![0u8; size as usize];
        let zone = Zone { base: 8, size: size - 8, used: 0, freed: Vec::new() };
        let mut zones: Vec<Zone> = Vec::new();
        zones.push(zone);
        proof {
            assert(bytes@ =~= Seq::new(size as nat, |i: int| 0u8));
        }
        GuestMem { bytes, zones }
    }

    /// Read the byte at `addr`.
    pub fn read_u8(&self, addr: u32) -> (r: Result<u8, MemError>)
        ensures
            r is Ok <==> addr < self.bytes@.len(),
            r matches Ok(v) ==> v == self.bytes@[addr as int],
            r is Err ==> r == Err::<u8, MemError>(MemError::OutOfBounds),
    {
        if (addr as usize) < self.bytes.len() {
            Ok(self.bytes[addr as usize])
        } else {
            Err(MemError::OutOfBounds)
        }
    }

    /// Write the byte at `addr`.
    pub fn write_u8(&mut self, addr: u32, v: u8) -> (r: Result<(), MemError>)
        ensures
            r is Ok <==> addr < old(self).bytes@.len(),
            r is Ok ==> final(self).bytes@ == old(self).bytes@.update(addr as int, v),
            r is Err ==> r == Err::<(), MemError>(MemError::OutOfBounds) && *final(self) == *old(self),
            final(self).zones@ == old(self).zones@,
    {
        if (addr as usize) < self.bytes.len() {
            self.bytes[addr as usize] = v;
            Ok(())
        } else {
            Err(MemError::OutOfBounds)
        }
    }

    /// Read the little-endian word at `addr`, which must be word-aligned.
    pub fn read_u32(&self, addr: u32) -> (r: Result<u32, MemError>)
        ensures
            addr % 4 != 0 ==> r == Err::<u32, MemError>(MemError::Unaligned),
            addr % 4 == 0 && !self.word_in_bounds(addr) ==> r == Err::<u32, MemError>(
                MemError::OutOfBounds,
            ),
            addr % 4 == 0 && self.word_in_bounds(addr) ==> r == Ok::<u32, MemError>(
                word_at(self.bytes@, addr as int),
            ),
    {
        if addr % 4 != 0 {
            return Err(MemError::Unaligned);
        }
        let len = self.bytes.len();
        if !(addr as usize <= len && len - (addr as usize) >= 4) {
            return Err(MemError::OutOfBounds);
        }
        let a = addr as usize;
        let b0 = self.bytes[a];
        let b1 = self.bytes[a + 1];
        let b2 = self.bytes[a + 2];
        let b3 = self.bytes[a + 3];
        Ok((b0 as u32) | ((b1 as u32) << 8) | ((b2 as u32) << 16) | ((b3 as u32) << 24))
    }

    /// Write the little-endian word `v` at `addr`, which must be
    /// word-aligned. Bytes outside the written range keep their values.
    pub fn write_u32(&mut self, addr: u32, v: u32) -> (r: Result<(), MemError>)
        ensures
            addr % 4 != 0 ==> r == Err::<(), MemError>(MemError::Unaligned),
            addr % 4 == 0 && !old(self).word_in_bounds(addr) ==> r == Err::<(), MemError>(
                MemError::OutOfBounds,
            ),
            r is Err ==> *final(self) == *old(self),
            r is Ok <==> addr % 4 == 0 && old(self).word_in_bounds(addr),
            r is Ok ==> {
                &&& final(self).bytes@.len() == old(self).bytes@.len()
                &&& word_at(final(self).bytes@, addr as int) == v
                &&& forall|i: int|
                    0 <= i < old(self).bytes@.len() && (i < addr || i >= addr + 4) ==> final(self).bytes@[i] == old(self).bytes@[i]
            },
            final(self).zones@ == old(self).zones@,
    {
        if addr % 4 != 0 {
            return Err(MemError::Unaligned);
        }
        let len = self.bytes.len();
        if !(addr as usize <= len && len - (addr as usize) >= 4) {
            return Err(MemError::OutOfBounds);
        }
        let a = addr as usize;
        let b0 = (v & 0xff) as u8;
        let b1 = ((v >> 8) & 0xff) as u8;
        let b2 = ((v >> 16) & 0xff) as u8;
        let b3 = ((v >> 24) & 0xff) as u8;
        self.bytes[a] = b0;
        self.bytes[a + 1] = b1;
        self.bytes[a + 2] = b2;
        self.bytes[a + 3] = b3;
        proof {
            assert(((b0 as u32) | ((b1 as u32) << 8) | ((b2 as u32) << 16) | ((b3 as u32) << 24))
                == v) by (bit_vector)
                requires
                    b0 == (v & 0xff) as u8,
                    b1 == ((v >> 8) & 0xff) as u8,
                    b2 == ((v >> 16) & 0xff) as u8,
                    b3 == ((v >> 24) & 0xff) as u8,
            ;
        }
        Ok(())
    }

    /// Reserve `size` bytes (rounded up to whole words) from zone
    /// `zone`, bumping its cursor; the returned address was never handed
    /// out before. Fails with `OutOfBounds` if the zone does not exist
    /// or has too little room left.
    pub fn allocate(&mut self, zone: usize, size: u32) -> (r: Result<u32, MemError>)
        requires
            old(self).wf(),
        ensures
            r is Err ==> r == Err::<u32, MemError>(MemError::OutOfBounds) && *final(self) == *old(self),
            r is Ok <==> zone < old(self).zones@.len() && round_to_word(size as int) <= old(self).zones@[zone as int].size - old(self).zones@[zone as int].used,
            r matches Ok(a) ==> {
                &&& a == old(self).zones@[zone as int].base + old(self).zones@[zone as int].used
                &&& final(self).zones@ == old(self).zones@.update(
                    zone as int,
                    old(self).zones@[zone as int].bumped(round_to_word(size as int)),
                )
            },
            final(self).bytes@ == old(self).bytes@,
            final(self).wf(),
    {
        if zone >= self.zones.len() {
            return Err(MemError::OutOfBounds);
        }
        if size > 0xFFFF_FFFC {
            // Even an empty zone cannot admit this request: the rounded
            // amount would exceed what a guest word can span.
            proof {
                lemma_round_to_word(size as int);
            }
            return Err(MemError::OutOfBounds);
        }
        let rounded: u32 = (size + 3) / 4 * 4;
        proof {
            lemma_round_to_word(size as int);
            assert(rounded == round_to_word(size as int));
        }
        let base = self.zones[zone].base;
        let used = self.zones[zone].used;
        let zsize = self.zones[zone].size;
        if rounded > zsize - used {
            return Err(MemError::OutOfBounds);
        }
        let ghost s0 = self.zones@;
        let mut z = self.zones.remove(zone);
        z.used = used + rounded;
        let ghost s1 = self.zones@;
        self.zones.insert(zone, z);
        proof {
            s0.remove_ensures(zone as int);
            s1.insert_ensures(zone as int, z);
            assert(self.zones@ =~= old(self).zones@.update(
                zone as int,
                old(self).zones@[zone as int].bumped(round_to_word(size as int)),
            ));
        }
        Ok(base + used)
    }

    /// Return the range `[addr, addr + size)` of zone `zone` to the
    /// zone's free list. This is bookkeeping only: the range must have
    /// been handed out by `alloc`, and the bytes themselves are left
    /// untouched.
    pub fn free(&mut self, zone: usize, addr: u32, size: u32) -> (r: Result<(), MemError>)
        requires
            old(self).wf(),
        ensures
            r is Ok <==> zone < old(self).zones@.len() && old(self).zones@[zone as int].base <= addr
                && addr + size <= old(self).zones@[zone as int].base + old(self).zones@[zone as int].used,
            r is Err ==> r == Err::<(), MemError>(MemError::OutOfBounds) && *final(self) == *old(self),
            r is Ok ==> {
                &&& final(self).zones@.len() == old(self).zones@.len()
                &&& forall|j: int|
                    0 <= j < old(self).zones@.len() && j != zone ==> final(self).zones@[j] == old(
                        self,
                    ).zones@[j]
                &&& final(self).zones@[zone as int].base == old(self).zones@[zone as int].base
                &&& final(self).zones@[zone as int].size == old(self).zones@[zone as int].size
                &&& final(self).zones@[zone as int].used == old(self).zones@[zone as int].used
                &&& final(self).zones@[zone as int].freed@ == old(
                    self,
                ).zones@[zone as int].freed@.push((addr, size))
            },
            final(self).bytes@ == old(self).bytes@,
            final(self).wf(),
    {
        if zone >= self.zones.len() {
            return Err(MemError::OutOfBounds);
        }
        let zbase = self.zones[zone].base;
        let zused = self.zones[zone].used;
        if !(zbase <= addr && addr - zbase <= zused && size <= zused - (addr - zbase)) {
            return Err(MemError::OutOfBounds);
        }
        let ghost s0 = self.zones@;
        let mut z = self.zones.remove(zone);
        z.freed.push((addr, size));
        let ghost s1 = self.zones@;
        self.zones.insert(zone, z);
        proof {
            s0.remove_ensures(zone as int);
            s1.insert_ensures(zone as int, z);
        }
        Ok(())
    }
}

} // verus!
