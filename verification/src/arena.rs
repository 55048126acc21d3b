use vstd::prelude::*;

verus! {

/// Why an arena write was refused.
#[derive(Clone, Copy, PartialEq, Eq, Structural, Debug)]
pub enum ArenaError {
    /// The write would pass the declared capacity of the caller's region.
    BufferTooSmall,
}

/// A bump allocator over a caller-bounded byte region. Bytes are appended at
/// a cursor and addressed by the offset, from the start of the region, at
/// which they were placed; a write that would pass the declared capacity is
/// refused whole, and the region is never overrun.
pub struct OutputArena {
    data: Vec<u8>,
    capacity: usize,
}

impl OutputArena {
    /// The bytes written so far, in write order from offset zero.
    pub closed spec fn data_spec(&self) -> Seq<u8> {
        self.data@
    }

    /// The declared capacity of the region, in bytes.
    pub closed spec fn capacity_spec(&self) -> nat {
        self.capacity as nat
    }

    /// An arena never holds more bytes than its declared capacity.
    pub closed spec fn wf(&self) -> bool {
        self.data@.len() <= self.capacity
    }

    /// A fresh, empty arena over a region of `capacity` bytes.
    pub fn new(capacity: usize) -> (a: OutputArena)
        ensures
            a.wf(),
            a.data_spec() == Seq::<u8>::empty(),
            a.capacity_spec() == capacity,
    {
        OutputArena { data: Vec::new(), capacity }
    }

    /// The number of bytes written so far; the next write starts here.
    pub fn len(&self) -> (n: usize)
        ensures
            n == self.data_spec().len(),
    {
        self.data.len()
    }

    /// The declared capacity of the region.
    pub fn capacity(&self) -> (n: usize)
        ensures
            n == self.capacity_spec(),
    {
        self.capacity
    }

    /// The number of bytes still free.
    pub fn remaining(&self) -> (n: usize)
        requires
            self.wf(),
        ensures
            n == self.capacity_spec() - self.data_spec().len(),
    {
        self.capacity - self.data.len()
    }

    /// Read access to the written region, for copying it back to the caller.
    pub fn bytes(&self) -> (b: &Vec<u8>)
        ensures
            b@ == self.data_spec(),
    {
        &self.data
    }

    /// Copies `bytes` to the cursor and returns the offset at which they now
    /// start. The write succeeds exactly when it fits the remaining capacity;
    /// otherwise it is refused whole and the arena is unchanged.
    pub fn write_bytes(&mut self, bytes: &Vec<u8>) -> (r: Result<usize, ArenaError>)
        requires
            old(self).wf(),
        ensures
            final(self).wf(),
            final(self).capacity_spec() == old(self).capacity_spec(),
            (r is Ok) <==> old(self).data_spec().len() + bytes@.len()
                <= old(self).capacity_spec(),
            (r matches Ok(off) ==> off == old(self).data_spec().len()
                && final(self).data_spec() == old(self).data_spec() + bytes@),
            r is Err ==> final(self).data_spec() == old(self).data_spec()
                && r == Err::<usize, ArenaError>(ArenaError::BufferTooSmall),
    {
        if bytes.len() > self.capacity - self.data.len() {
            return Err(ArenaError::BufferTooSmall);
        }
        let off = self.data.len();
        let mut i: usize = 0;
        while i < bytes.len()
            invariant
                0 <= i <= bytes@.len(),
                self.capacity == old(self).capacity,
                old(self).data_spec().len() + bytes@.len() <= self.capacity,
                self.data@ == old(self).data_spec() + bytes@.take(i as int),
            decreases bytes@.len() - i,
        {
            self.data.push(bytes[i]);
            proof {
                assert(old(self).data_spec() + bytes@.take(i as int) + seq![bytes@[i as int]]
                    =~= old(self).data_spec() + bytes@.take(i + 1));
            }
            i += 1;
        }
        proof {
            assert(bytes@.take(bytes@.len() as int) =~= bytes@);
        }
        Ok(off)
    }

    /// Serializes `value` as a null-terminated byte string at the cursor and
    /// returns the offset of its first byte. The write succeeds exactly when
    /// the value plus its one terminator byte fits the remaining capacity;
    /// otherwise it is refused whole and the arena is unchanged.
    pub fn write_text(&mut self, value: &Vec<u8>) -> (r: Result<usize, ArenaError>)
        requires
            old(self).wf(),
        ensures
            final(self).wf(),
            final(self).capacity_spec() == old(self).capacity_spec(),
            (r is Ok) <==> old(self).data_spec().len() + value@.len() + 1
                <= old(self).capacity_spec(),
            (r matches Ok(off) ==> off == old(self).data_spec().len()
                && final(self).data_spec() == old(self).data_spec() + value@ + seq![0u8]),
            r is Err ==> final(self).data_spec() == old(self).data_spec()
                && r == Err::<usize, ArenaError>(ArenaError::BufferTooSmall),
    {
        if value.len() >= self.capacity - self.data.len() {
            return Err(ArenaError::BufferTooSmall);
        }
        let off = match self.write_bytes(value) {
            Ok(off) => off,
            Err(e) => {
                return Err(e);
            },
        };
        self.data.push(0);
        proof {
            assert(old(self).data_spec() + value@ + seq![0u8]
                =~= (old(self).data_spec() + value@).push(0u8));
        }
        Ok(off)
    }
}

} // verus!
