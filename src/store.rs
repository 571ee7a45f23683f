//! Growable byte-addressable store holding one row of the automaton; byte `k`
//! is cell `k`. Its contents are loaded from and flushed to a backing file by
//! the caller.

use vstd::prelude::*;

verus! {

/// Length after one grow from `cur` bytes to hold at least `need` bytes: the
/// length doubles when that is enough and fits in `usize`, else it becomes
/// `need`.
pub open spec fn grown_len(cur: int, need: int) -> int {
    if need <= cur {
        cur
    } else if need <= 2 * cur && 2 * cur <= usize::MAX {
        2 * cur
    } else {
        need
    }
}

/// Growable byte store.
pub struct MappedStorage {
    bytes: Vec<u8>,
}

impl View for MappedStorage {
    type V = Seq<u8>;

    closed spec fn view(&self) -> Seq<u8> {
        self.bytes@
    }
}

impl MappedStorage {
    /// A store holding `bytes`, as read from its backing file.
    pub fn from_bytes(bytes: Vec<u8>) -> (r: MappedStorage)
        ensures
            r@ == bytes@,
    {
        MappedStorage { bytes }
    }

    /// Current logical length.
    pub fn len(&self) -> (r: usize)
        ensures
            r == self@.len(),
    {
        self.bytes.len()
    }

    /// The whole contents, to be flushed to the backing file.
    pub fn as_bytes(&self) -> (r: &Vec<u8>)
        ensures
            r@ == self@,
    {
        &self.bytes
    }

    /// Byte at `offset`.
    pub fn read(&self, offset: usize) -> (r: u8)
        requires
            offset < self@.len(),
        ensures
            r == self@[offset as int],
    {
        self.bytes[offset]
    }

    /// Grows the store so that it holds at least `need` bytes, doubling its
    /// length where that suffices; the old bytes are kept and the new ones are
    /// zero.
    pub fn grow(&mut self, need: usize)
        ensures
            final(self)@.len() == grown_len(old(self)@.len() as int, need as int),
            final(self)@.subrange(0, old(self)@.len() as int) == old(self)@,
            forall|i: int|
                old(self)@.len() <= i < final(self)@.len() ==> #[trigger] final(self)@[i] == 0,
    {
        let cur = self.bytes.len();
        if need <= cur {
            assert(self.bytes@.subrange(0, cur as int) =~= self.bytes@);
            return;
        }
        let target: usize = if cur <= usize::MAX - cur && need - cur <= cur {
            cur + cur
        } else {
            need
        };
        assert(target == grown_len(cur as int, need as int));
        let ghost before = self.bytes@;
        while self.bytes.len() < target
            invariant
                cur <= self.bytes.len() <= target,
                self.bytes@.subrange(0, cur as int) == before,
                before.len() == cur,
                forall|i: int| cur <= i < self.bytes.len() ==> #[trigger] self.bytes@[i] == 0,
            decreases target - self.bytes.len(),
        {
            self.bytes.push(0);
            assert(self.bytes@.subrange(0, cur as int) =~= before);
        }
    }

    /// Writes `value` at `offset`. A write below the current length changes
    /// that byte alone; a write at or beyond it first grows the store once
    /// and returns `true`.
    pub fn write(&mut self, offset: usize, value: u8) -> (grew: bool)
        requires
            offset < usize::MAX,
        ensures
            grew == (offset >= old(self)@.len()),
            !grew ==> final(self)@ == old(self)@.update(offset as int, value),
            grew ==> {
                &&& final(self)@.len() == grown_len(old(self)@.len() as int, offset + 1)
                &&& final(self)@.subrange(0, old(self)@.len() as int) == old(self)@
                &&& final(self)@[offset as int] == value
                &&& forall|i: int|
                    old(self)@.len() <= i < final(self)@.len() && i != offset
                        ==> #[trigger] final(self)@[i] == 0
            },
    {
        let grew = offset >= self.bytes.len();
        if grew {
            self.grow(offset + 1);
        }
        self.bytes.set(offset, value);
        grew
    }

    /// Copy of the bytes in `[start, end)`.
    pub fn read_range(&self, start: usize, end: usize) -> (r: Vec<u8>)
        requires
            start <= end <= self@.len(),
        ensures
            r@ == self@.subrange(start as int, end as int),
    {
        let mut out: Vec<u8> = Vec::new();
        let mut i: usize = start;
        while i < end
            invariant
                start <= i <= end,
                end <= self@.len(),
                out@ == self@.subrange(start as int, i as int),
            decreases end - i,
        {
            out.push(self.bytes[i]);
            i = i + 1;
            assert(out@ =~= self@.subrange(start as int, i as int));
        }
        out
    }

    /// Overwrites the bytes from `start` on with `data`; nothing else changes.
    pub fn write_range(&mut self, start: usize, data: &Vec<u8>)
        requires
            start + data@.len() <= old(self)@.len(),
        ensures
            final(self)@.len() == old(self)@.len(),
            forall|i: int|
                0 <= i < old(self)@.len() ==> #[trigger] final(self)@[i] == if start <= i < start
                    + data@.len() {
                    data@[i - start]
                } else {
                    old(self)@[i]
                },
    {
        let ghost before = self.bytes@;
        let n = self.bytes.len();
        let mut j: usize = 0;
        while j < data.len()
            invariant
                before.len() == n,
                start + data@.len() <= before.len(),
                self.bytes@.len() == before.len(),
                0 <= j <= data@.len(),
                forall|i: int|
                    0 <= i < before.len() ==> #[trigger] self.bytes@[i] == if start <= i < start
                        + j {
                        data@[i - start]
                    } else {
                        before[i]
                    },
            decreases data.len() - j,
        {
            self.bytes.set(start + j, data[j]);
            j = j + 1;
        }
    }

    /// Mutable view of the whole contents, for the lane repair pass.
    pub fn bytes_mut(&mut self) -> (r: &mut Vec<u8>)
        ensures
            r@ == old(self)@,
            final(self)@ == final(r)@,
    {
        &mut self.bytes
    }
}

} // verus!
