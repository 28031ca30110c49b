//! The block-storage capability the updater runs against, and an in-memory
//! device implementing it.
//!
//! The capability exposes the three primitives of a NOR-flash-like medium:
//! bounded reads, writes, and erases that clear a range to the erased byte
//! 0xFF.  Any operation may fail with a device-specific error; a failed
//! operation never touches bytes outside its target range.

use vstd::prelude::*;
pub use vstd::seq::Seq;

verus! {

/// The byte value an erased flash range holds.
pub const ERASED_BYTE: u8 = 0xFF;

/// `v` with the bytes at `off .. off + data.len()` replaced by `data`.
pub open spec fn overwrite(v: Seq<u8>, off: int, data: Seq<u8>) -> Seq<u8> {
    Seq::new(
        v.len(),
        |i: int|
            if off <= i < off + data.len() {
                data[i - off]
            } else {
                v[i]
            },
    )
}

/// `v` with the bytes at `from .. to` cleared to the erased value.
pub open spec fn erased(v: Seq<u8>, from: int, to: int) -> Seq<u8> {
    Seq::new(
        v.len(),
        |i: int|
            if from <= i < to {
                ERASED_BYTE
            } else {
                v[i]
            },
    )
}

/// Whether `w` agrees with `v` everywhere outside `lo .. hi`: a failed
/// operation on that range has mutated nothing beyond it.
pub open spec fn untouched_outside(v: Seq<u8>, w: Seq<u8>, lo: int, hi: int) -> bool {
    forall|i: int| #![auto] 0 <= i < v.len() && !(lo <= i < hi) ==> w[i] == v[i]
}

/// Raw block-storage access, supplied by the caller.
///
/// `E` is the device's error type.  A read never changes the device; a
/// write or erase that fails leaves every byte outside its target range
/// unchanged, so an error means "no mutation beyond what was flushed".
pub trait FlashStorage<E>: Sized {
    /// The device contents, one byte per address.
    spec fn view(&self) -> Seq<u8>;

    /// Read `len` bytes starting at `offset`.
    fn read(&mut self, offset: u64, len: usize) -> (r: Result<Vec<u8>, E>)
        ensures
            final(self).view() == old(self).view(),
            match r {
                Ok(data) => offset + len <= old(self).view().len() && data@ == old(
                    self,
                ).view().subrange(offset as int, offset + len),
                Err(_) => true,
            },
    ;

    /// Write `data` starting at `offset`.
    fn write(&mut self, offset: u64, data: &[u8]) -> (r: Result<(), E>)
        ensures
            final(self).view().len() == old(self).view().len(),
            match r {
                Ok(u) => offset + data@.len() <= old(self).view().len() && final(self).view()
                    == overwrite(old(self).view(), offset as int, data@),
                Err(_) => forall|i: int|
                    #![auto]
                    0 <= i < old(self).view().len() && !(offset <= i < offset + data@.len())
                        ==> final(self).view()[i] == old(self).view()[i],
            },
    ;

    /// Clear the range `from .. to` to the erased value.
    fn erase(&mut self, from: u64, to: u64) -> (r: Result<(), E>)
        ensures
            final(self).view().len() == old(self).view().len(),
            match r {
                Ok(u) => from <= to && to <= old(self).view().len() && final(self).view() == erased(
                    old(self).view(),
                    from as int,
                    to as int,
                ),
                Err(_) => forall|i: int|
                    #![auto]
                    0 <= i < old(self).view().len() && !(from <= i < to) ==> final(self).view()[i]
                        == old(self).view()[i],
            },
    ;
}

/// Error of the in-memory device: the access left the device's bounds.
#[derive(Clone, Copy, Debug, PartialEq, Eq, Structural)]
pub struct OutOfBounds;

/// An in-memory flash device, for tests and simulation.
pub struct RamFlash {
    mem: Vec<u8>,
}

impl RamFlash {
    /// A fresh device of `size` bytes, fully erased.
    pub fn new(size: usize) -> (r: RamFlash)
        ensures
            r.view().len() == size,
            forall|i: int| #![auto] 0 <= i < size ==> r.view()[i] == ERASED_BYTE,
    {
        let mut mem: Vec<u8> = Vec::new();
        while mem.len() < size
            invariant
                mem@.len() <= size,
                forall|i: int| #![auto] 0 <= i < mem@.len() ==> mem@[i] == ERASED_BYTE,
            decreases size - mem@.len(),
        {
            mem.push(ERASED_BYTE);
        }
        RamFlash { mem }
    }

    /// Total size of the device in bytes.
    pub fn capacity(&self) -> (r: usize)
        ensures
            r == self.view().len(),
    {
        self.mem.len()
    }

    /// The byte stored at `offset`; lets a caller inspect the device.
    pub fn peek(&self, offset: usize) -> (r: u8)
        requires
            offset < self.view().len(),
        ensures
            r == self.view()[offset as int],
    {
        self.mem[offset]
    }

    /// Overwrite the byte at `offset`, bypassing erase semantics; lets a
    /// caller model corruption of the medium.
    pub fn poke(&mut self, offset: usize, value: u8)
        requires
            offset < old(self).view().len(),
        ensures
            final(self).view() == old(self).view().update(offset as int, value),
    {
        self.mem[offset] = value;
    }
}

impl FlashStorage<OutOfBounds> for RamFlash {
    closed spec fn view(&self) -> Seq<u8> {
        self.mem@
    }

    fn read(&mut self, offset: u64, len: usize) -> (r: Result<Vec<u8>, OutOfBounds>)
        ensures
            r is Ok <==> offset + len <= old(self).view().len(),
    {
        if offset > self.mem.len() as u64 {
            return Err(OutOfBounds);
        }
        let off = offset as usize;
        if len > self.mem.len() - off {
            return Err(OutOfBounds);
        }
        let mut data: Vec<u8> = Vec::new();
        let mut i: usize = 0;
        while i < len
            invariant
                self.mem@.len() <= usize::MAX,
                off + len <= self.mem@.len(),
                i <= len,
                data@ == self.mem@.subrange(off as int, off + i),
            decreases len - i,
        {
            data.push(self.mem[off + i]);
            proof {
                assert(self.mem@.subrange(off as int, off + i + 1) =~= self.mem@.subrange(
                    off as int,
                    off + i,
                ).push(self.mem@[off + i]));
            }
            i += 1;
        }
        Ok(data)
    }

    fn write(&mut self, offset: u64, data: &[u8]) -> (r: Result<(), OutOfBounds>)
        ensures
            r is Ok <==> offset + data@.len() <= old(self).view().len(),
    {
        if offset > self.mem.len() as u64 {
            return Err(OutOfBounds);
        }
        let off = offset as usize;
        if data.len() > self.mem.len() - off {
            return Err(OutOfBounds);
        }
        let mut i: usize = 0;
        while i < data.len()
            invariant
                self.mem@.len() <= usize::MAX,
                off + data@.len() <= self.mem@.len(),
                i <= data@.len(),
                self.mem@.len() == old(self).mem@.len(),
                forall|j: int|
                    #![auto]
                    0 <= j < self.mem@.len() ==> self.mem@[j] == (if off <= j < off + i {
                        data@[j - off]
                    } else {
                        old(self).mem@[j]
                    }),
            decreases data@.len() - i,
        {
            let b = data[i];
            self.mem[off + i] = b;
            i += 1;
        }
        proof {
            assert(self.mem@ =~= overwrite(old(self).mem@, off as int, data@));
        }
        Ok(())
    }

    fn erase(&mut self, from: u64, to: u64) -> (r: Result<(), OutOfBounds>)
        ensures
            r is Ok <==> from <= to && to <= old(self).view().len(),
    {
        if from > to || to > self.mem.len() as u64 {
            return Err(OutOfBounds);
        }
        let lo = from as usize;
        let hi = to as usize;
        let mut i: usize = lo;
        while i < hi
            invariant
                lo <= i <= hi <= self.mem@.len(),
                self.mem@.len() == old(self).mem@.len(),
                forall|j: int|
                    #![auto]
                    0 <= j < self.mem@.len() ==> self.mem@[j] == (if lo <= j < i {
                        ERASED_BYTE
                    } else {
                        old(self).mem@[j]
                    }),
            decreases hi - i,
        {
            self.mem[i] = ERASED_BYTE;
            i += 1;
        }
        proof {
            assert(self.mem@ =~= erased(old(self).mem@, lo as int, hi as int));
        }
        Ok(())
    }
}

} // verus!
