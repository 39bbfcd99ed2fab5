use vstd::prelude::*;
use crate::buffer::Buffer;
use crate::model::{insert_evicts, insert_result, remove_result, remove_returns};
use crate::text::{decimal, push_decimal};
use vstd::string::StringExecFns;

verus! {

/// Reduces `index` to a slot position of a ring with `size` slots.
pub fn mask_modulo(index: usize, size: usize) -> (r: usize)
    requires
        size > 0,
    ensures
        r == index % size,
        r < size,
{
    index % size
}

/// One step forward around a ring of `size` slots.
fn next_slot(index: usize, size: usize) -> (r: usize)
    requires
        index < size,
    ensures
        r == (if index + 1 < size { index + 1 } else { 0 }),
{
    let r = mask_modulo(index + 1, size);
    proof {
        if index + 1 < size {
            vstd::arithmetic::div_mod::lemma_small_mod((index + 1) as nat, size as nat);
        } else {
            vstd::arithmetic::div_mod::lemma_mod_self_0(size as int);
        }
    }
    r
}

/// The diagnostic text of a buffer with `len` live elements, write
/// position `w` and read position `r`.
pub open spec fn debug_text(len: nat, w: nat, r: nat) -> Seq<char> {
    "RingBuffer { len: "@ + decimal(len) + ", writeptr: "@ + decimal(w) + ", readptr: "@
        + decimal(r) + " }"@
}

/// Why a buffer could not be built.
#[derive(Debug, Clone, Copy, PartialEq, Eq, Structural)]
pub enum RingBufferError {
    /// The capacity is zero.
    InvalidCapacity,
}

/// A buffer of at most `S` elements, first in, first out, that overwrites
/// its oldest element when an insert finds it full.
pub struct RingBuffer<T: Copy, const S: usize> {
    /// `S` slots; exactly the live ones hold a value.
    buffer: Vec<Option<T>>,
    /// The number of live elements.
    len: usize,
    /// The slot the next insert writes.
    writeptr: usize,
    /// The slot of the oldest live element.
    readptr: usize,
}

impl<T: Copy, const S: usize> RingBuffer<T, S> {
    /// The slot that holds the live element at position `k`, oldest first,
    /// for `0 <= k <= S`.
    closed spec fn slot(&self, k: int) -> int {
        let p = self.readptr + k;
        if p < S {
            p
        } else {
            p - S
        }
    }

    /// The number of live elements.
    pub closed spec fn spec_len(&self) -> nat {
        self.len as nat
    }

    /// The slot the next insert writes.
    pub closed spec fn spec_write_index(&self) -> nat {
        self.writeptr as nat
    }

    /// The slot of the oldest live element.
    pub closed spec fn spec_read_index(&self) -> nat {
        self.readptr as nat
    }

    /// The positions of a well-formed buffer: the count is that of the
    /// live elements and at most `S`, both positions lie inside the ring,
    /// and the write position is `count` slots past the read position.
    pub proof fn lemma_positions(&self)
        requires
            self.well_formed(),
        ensures
            self.spec_len() == self.contents().len(),
            self.spec_len() <= S,
            self.spec_read_index() < S,
            self.spec_write_index() < S,
            self.spec_write_index() == (self.spec_read_index() + self.spec_len()) % (S as nat),
    {
        let p = self.readptr + self.len;
        if p < S {
            vstd::arithmetic::div_mod::lemma_small_mod(p as nat, S as nat);
        } else {
            vstd::arithmetic::div_mod::lemma_mod_sub_multiples_vanish(p as int, S as int);
            vstd::arithmetic::div_mod::lemma_small_mod((p - S) as nat, S as nat);
        }
    }

    /// An empty buffer: no live element, both positions at slot zero.
    pub fn new() -> (r: Self)
        requires
            S > 0,
        ensures
            r.well_formed(),
            r.capacity() == S,
            r.contents() == Seq::<T>::empty(),
            r.spec_len() == 0,
            r.spec_write_index() == 0,
            r.spec_read_index() == 0,
    {
        let mut buffer: Vec<Option<T>> = Vec::new();
        let mut i: usize = 0;
        while i < S
            invariant
                i <= S,
                buffer@.len() == i,
                forall|j: int| 0 <= j < i ==> buffer@[j] is None,
            decreases S - i,
        {
            buffer.push(None);
            i = i + 1;
        }
        let r = RingBuffer { buffer, len: 0, writeptr: 0, readptr: 0 };
        assert(r.contents() =~= Seq::<T>::empty());
        r
    }

    /// A diagnostic description: the count and both positions, never the
    /// stored elements.
    pub fn debug_string(&self) -> (r: String)
        ensures
            r@ == debug_text(self.spec_len(), self.spec_write_index(), self.spec_read_index()),
    {
        let mut s = String::from_str("RingBuffer { len: ");
        push_decimal(&mut s, self.len);
        s.append(", writeptr: ");
        push_decimal(&mut s, self.writeptr);
        s.append(", readptr: ");
        push_decimal(&mut s, self.readptr);
        s.append(" }");
        s
    }

    /// An empty buffer, or `InvalidCapacity` when `S` is zero.
    pub fn try_new() -> (r: Result<Self, RingBufferError>)
        ensures
            S == 0 <==> r is Err,
            r matches Err(e) ==> e == RingBufferError::InvalidCapacity,
            r matches Ok(b) ==> {
                &&& b.well_formed()
                &&& b.capacity() == S
                &&& b.contents() == Seq::<T>::empty()
            },
    {
        if S == 0 {
            Err(RingBufferError::InvalidCapacity)
        } else {
            Ok(Self::new())
        }
    }
}

impl<T: Copy, const S: usize> Buffer<T> for RingBuffer<T, S> {
    closed spec fn contents(&self) -> Seq<T> {
        Seq::new(self.len as nat, |k: int| self.buffer@[self.slot(k)]->0)
    }

    open spec fn capacity(&self) -> nat {
        S as nat
    }

    closed spec fn well_formed(&self) -> bool {
        &&& S > 0
        &&& self.buffer@.len() == S
        &&& self.len <= S
        &&& self.readptr < S
        &&& self.writeptr == self.slot(self.len as int)
        &&& forall|k: int|
            0 <= k < S ==> ((#[trigger] self.buffer@[self.slot(k)]) is Some <==> k < self.len)
    }

    fn push(&mut self, elem: T) -> (evicted: Option<T>)
        ensures
            old(self).spec_len() < S ==> {
                &&& final(self).spec_read_index() == old(self).spec_read_index()
                &&& final(self).spec_len() == old(self).spec_len() + 1
            },
            old(self).spec_len() == S ==> {
                &&& final(self).spec_len() == S
                &&& final(self).spec_read_index() == final(self).spec_write_index()
            },
    {
        let ghost pre = *self;
        let overwritten = if self.is_full() {
            self.buffer[self.readptr]
        } else {
            self.len = self.len + 1;
            None
        };
        let w = self.writeptr;
        self.buffer.set(w, Some(elem));
        self.writeptr = next_slot(w, S);
        if overwritten.is_some() {
            self.readptr = next_slot(self.readptr, S);
        }
        proof {
            if pre.len < S {
                assert forall|k: int| 0 <= k < S implies
                    (#[trigger] self.buffer@[self.slot(k)]) is Some <==> k < self.len by {
                    assert(self.slot(k) == pre.slot(k));
                    if k != pre.len {
                        assert(pre.buffer@[pre.slot(k)] is Some <==> k < pre.len);
                    }
                }
                assert forall|k: int| 0 <= k < pre.len implies
                    #[trigger] self.buffer@[self.slot(k)] == pre.buffer@[pre.slot(k)] by {
                    assert(self.slot(k) == pre.slot(k));
                }
                assert(self.contents() =~= pre.contents().push(elem));
            } else {
                assert(pre.buffer@[pre.slot(0)] is Some);
                assert forall|k: int| 0 <= k < S implies
                    (#[trigger] self.buffer@[self.slot(k)]) is Some <==> k < self.len by {
                    if k + 1 < S {
                        assert(self.slot(k) == pre.slot(k + 1));
                        assert(pre.buffer@[pre.slot(k + 1)] is Some);
                    }
                }
                assert forall|k: int| 0 <= k < S - 1 implies
                    #[trigger] self.buffer@[self.slot(k)] == pre.buffer@[pre.slot(k + 1)] by {
                    assert(self.slot(k) == pre.slot(k + 1));
                }
                assert(self.contents() =~= pre.contents().drop_first().push(elem));
            }
        }
        overwritten
    }

    fn get(&mut self) -> (r: Option<T>)
        ensures
            old(self).spec_len() > 0 ==> {
                &&& final(self).spec_write_index() == old(self).spec_write_index()
                &&& final(self).spec_len() + 1 == old(self).spec_len()
            },
    {
        if self.is_empty() {
            return None;
        }
        let ghost pre = *self;
        let r = self.readptr;
        let elem = self.buffer[r];
        self.buffer.set(r, None);
        self.readptr = next_slot(r, S);
        self.len = self.len - 1;
        proof {
            assert(pre.buffer@[pre.slot(0)] is Some);
            assert forall|k: int| 0 <= k < S implies
                (#[trigger] self.buffer@[self.slot(k)]) is Some <==> k < self.len by {
                if k + 1 < S {
                    assert(self.slot(k) == pre.slot(k + 1));
                    assert(pre.buffer@[pre.slot(k + 1)] is Some <==> k + 1 < pre.len);
                }
            }
            assert forall|k: int| 0 <= k < self.len implies
                #[trigger] self.buffer@[self.slot(k)] == pre.buffer@[pre.slot(k + 1)] by {
                assert(self.slot(k) == pre.slot(k + 1));
            }
            assert(self.contents() =~= pre.contents().drop_first());
        }
        elem
    }

    fn is_full(&self) -> (r: bool) {
        self.len == S
    }

    fn is_empty(&self) -> (r: bool) {
        self.len == 0
    }
}

} // verus!
