//! The machine's addressable, auto-extending store of signed integers.
//!
//! The mathematical model is a `Seq<i64>` indexed from 0.  Reading at or
//! beyond the current length yields 0; writing beyond the current length first
//! extends the store with zero-valued cells up to and including the written
//! address.  A negative address is a hard failure, never clamped.

use vstd::prelude::*;

use crate::errors::Failure;

verus! {

/// What a read of address `a` returns: the stored value, or 0 for any address
/// at or beyond the current length.
pub open spec fn mem_read(m: Seq<i64>, a: int) -> i64
    recommends
        0 <= a,
{
    if 0 <= a < m.len() {
        m[a]
    } else {
        0
    }
}

/// The store after growing just enough (with zero-valued cells) to make
/// address `a` valid.  A store that already covers `a` is unchanged.
pub open spec fn mem_grown(m: Seq<i64>, a: int) -> Seq<i64>
    recommends
        0 <= a,
{
    if a < m.len() {
        m
    } else {
        m + Seq::new((a + 1 - m.len()) as nat, |i: int| 0i64)
    }
}

/// The store after writing `v` at address `a`, extending first if needed.
pub open spec fn mem_write(m: Seq<i64>, a: int, v: i64) -> Seq<i64>
    recommends
        0 <= a,
{
    mem_grown(m, a).update(a, v)
}

/// The growable store, owned exclusively by one machine instance.
pub struct Memory {
    cells: Vec<i64>,
}

impl View for Memory {
    type V = Seq<i64>;

    closed spec fn view(&self) -> Seq<i64> {
        self.cells@
    }
}

impl Memory {
    /// Wraps an initial memory image.
    pub fn new(image: Vec<i64>) -> (m: Memory)
        ensures
            m@ == image@,
    {
        Memory { cells: image }
    }

    /// Reads by unsigned index; an index at or beyond the length reads as 0.
    pub fn read_at(&self, idx: u64) -> (r: i64)
        ensures
            r == mem_read(self@, idx as int),
    {
        let n = self.cells.len();
        if idx < n as u64 {
            self.cells[idx as usize]
        } else {
            0
        }
    }

    /// Reads the cell at `addr`, failing on a negative address.
    pub fn read(&self, addr: i64) -> (r: Result<i64, Failure>)
        ensures
            addr >= 0 ==> r == Ok::<i64, Failure>(mem_read(self@, addr as int)),
            addr < 0 ==> r == Err::<i64, Failure>(Failure::NegativeAddress),
    {
        if addr < 0 {
            Err(Failure::NegativeAddress)
        } else {
            Ok(self.read_at(addr as u64))
        }
    }

    /// Writes `v` at `addr`, extending the store with zeros as needed so that
    /// `addr` becomes valid.  Fails on a negative address, leaving the store
    /// unchanged.
    pub fn write(&mut self, addr: i64, v: i64) -> (r: Result<(), Failure>)
        ensures
            addr >= 0 ==> r == Ok::<(), Failure>(())
                && final(self)@ == mem_write(old(self)@, addr as int, v),
            addr < 0 ==> r == Err::<(), Failure>(Failure::NegativeAddress)
                && final(self)@ == old(self)@,
    {
        if addr < 0 {
            return Err(Failure::NegativeAddress);
        }
        let a = addr as u64;
        while (self.cells.len() as u64) <= a
            invariant
                old(self)@.len() <= self.cells@.len(),
                self.cells@.len() <= a + 1 || self.cells@.len() == old(self)@.len(),
                forall|j: int| 0 <= j < old(self)@.len() ==> self.cells@[j] == old(self)@[j],
                forall|j: int|
                    old(self)@.len() <= j < self.cells@.len() ==> self.cells@[j] == 0i64,
            decreases a + 1 - self.cells.len(),
        {
            self.cells.push(0);
        }
        proof {
            assert(self.cells@ =~= mem_grown(old(self)@, addr as int));
        }
        self.cells[a as usize] = v;
        Ok(())
    }
}

/// Reading after writing: the written cell holds the new value and every other
/// cell reads exactly as it did before the write.
pub proof fn lemma_write_read(m: Seq<i64>, a: int, v: i64, j: int)
    requires
        0 <= a,
        0 <= j,
    ensures
        mem_read(mem_write(m, a, v), j) == if j == a {
            v
        } else {
            mem_read(m, j)
        },
{
}

/// Writing beyond the current length transparently grows the store: it then
/// covers exactly the addresses up to the written one, and every cell that was
/// never written — whether inside the newly grown region or still beyond the
/// end — reads as 0.
pub proof fn lemma_grow_reads_zero(m: Seq<i64>, a: int, v: i64, j: int)
    requires
        m.len() <= a,
        m.len() <= j,
        j != a,
        0 <= j,
    ensures
        mem_write(m, a, v).len() == a + 1,
        mem_read(mem_write(m, a, v), j) == 0,
{
}

} // verus!
