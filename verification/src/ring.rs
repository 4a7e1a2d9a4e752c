//! A fixed-capacity, append-only byte store. An append that does not fit in
//! the space left behind the write position starts over at offset zero and
//! overwrites the oldest bytes.

use vstd::prelude::*;

verus! {

/// What a ring holds: every byte of its storage and the offset at which the
/// next append lands.
pub struct RingView {
    pub bytes: Seq<u8>,
    pub head: nat,
}

impl RingView {
    /// The number of bytes that the ring holds.
    pub open spec fn capacity(self) -> nat {
        self.bytes.len()
    }

    /// A ring of `capacity` zero bytes with nothing written yet.
    pub open spec fn fresh(capacity: nat) -> RingView {
        RingView { bytes: Seq::new(capacity, |i: int| 0u8), head: 0 }
    }

    /// Whether an append of `len` bytes has to start over at offset zero.
    pub open spec fn wraps(self, len: nat) -> bool {
        self.head + len > self.capacity()
    }

    /// The offset at which an append of `len` bytes starts.
    pub open spec fn start_of(self, len: nat) -> nat {
        if self.wraps(len) {
            0
        } else {
            self.head
        }
    }

    /// The ring after `data` has been appended.
    pub open spec fn append(self, data: Seq<u8>) -> RingView {
        let start = self.start_of(data.len()) as int;
        RingView {
            bytes: self.bytes.subrange(0, start) + data + self.bytes.subrange(
                start + data.len(),
                self.capacity() as int,
            ),
            head: (start + data.len()) as nat,
        }
    }

    /// The bytes of the region `[start, start + len)`.
    pub open spec fn region(self, start: nat, len: nat) -> Seq<u8> {
        self.bytes.subrange(start as int, (start + len) as int)
    }
}

/// The ring of one shard.
#[derive(Debug)]
pub struct Ring {
    data: Vec<u8>,
    head: usize,
}

impl View for Ring {
    type V = RingView;

    closed spec fn view(&self) -> RingView {
        RingView { bytes: self.data@, head: self.head as nat }
    }
}

impl Ring {
    /// A ring of `capacity` zero bytes.
    pub fn new(capacity: usize) -> (ring: Ring)
        ensures
            ring@ == RingView::fresh(capacity as nat),
    {
        let data = vec![0u8; capacity];
        assert(data@ =~= Seq::new(capacity as nat, |i: int| 0u8));
        Ring { data, head: 0 }
    }

    /// The number of bytes that the ring holds.
    pub fn capacity(&self) -> (n: usize)
        ensures
            n == self@.capacity(),
    {
        self.data.len()
    }

    /// The offset at which the next append lands unless it has to wrap.
    pub fn head(&self) -> (n: usize)
        ensures
            n == self@.head,
    {
        self.head
    }

    /// The whole storage, for resolving a queued region to its bytes.
    pub fn as_slice(&self) -> (bytes: &[u8])
        ensures
            bytes@ == self@.bytes,
    {
        self.data.as_slice()
    }

    /// Copies `data` into the ring and returns the offset of its first byte.
    /// The bytes land behind the previous append when they fit there, and at
    /// offset zero otherwise.
    pub fn append(&mut self, data: &[u8]) -> (start: usize)
        requires
            data@.len() <= old(self)@.capacity(),
        ensures
            start == old(self)@.start_of(data@.len()),
            start + data@.len() <= old(self)@.capacity(),
            final(self)@ == old(self)@.append(data@),
    {
        let len = data.len();
        let capacity = self.data.len();
        let start: usize = if self.head <= capacity && len <= capacity - self.head {
            self.head
        } else {
            0
        };
        let ghost before = self.data@;
        let mut i: usize = 0;
        while i < len
            invariant
                i <= len,
                len == data@.len(),
                start + len <= self.data@.len(),
                self.data@.len() == before.len(),
                capacity == before.len(),
                self.data@ =~= before.subrange(0, start as int) + data@.subrange(0, i as int)
                    + before.subrange(start + i, before.len() as int),
            decreases len - i,
        {
            self.data.set(start + i, data[i]);
            i += 1;
        }
        assert(data@.subrange(0, len as int) =~= data@);
        self.head = start + len;
        start
    }
}

} // verus!
