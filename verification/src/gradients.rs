//! The gradient ledger: one lazily allocated buffer per tensor identity.

use crate::dtype::{zeros, Dtype};
use crate::error::Error;
use crate::tensor::GhostTensor;
use std::collections::TryReserveError;
use vstd::prelude::*;

verus! {

/// The gradients of one backward pass, keyed by the tensors they belong to.
///
/// Each buffer lives in a slot of its own, so two different keys never share
/// memory and one buffer can be written while another is read.
pub struct Gradients<E> {
    keys: Vec<GhostTensor>,
    bufs: Vec<Vec<E>>,
}

impl<E> View for Gradients<E> {
    type V = Map<GhostTensor, Seq<E>>;

    closed spec fn view(&self) -> Map<GhostTensor, Seq<E>> {
        Map::new(
            |k: GhostTensor| self.keys@.contains(k),
            |k: GhostTensor| self.bufs@[self.keys@.index_of(k)]@,
        )
    }
}

/// The ledger with a gradient for the key: the one it has, or else zeros of
/// the length that the key names.
pub open spec fn allocated<E: Dtype>(ledger: Map<GhostTensor, Seq<E>>, key: GhostTensor) -> Map<
    GhostTensor,
    Seq<E>,
> {
    if ledger.contains_key(key) {
        ledger
    } else {
        ledger.insert(key, zeros::<E>(key.len as nat))
    }
}

/// What the attempt to reserve room for a buffer of `len` elements comes
/// to: the buffer filled with zeros when room was granted, and
/// [`Error::OutOfMemory`] when it was refused.
pub fn zeros_in<E: Dtype>(buf: Vec<E>, reserved: Result<(), TryReserveError>, len: usize) -> (r:
    Result<Vec<E>, Error>)
    requires
        buf@.len() == 0,
    ensures
        reserved is Ok ==> r is Ok && r->Ok_0@ == zeros::<E>(len as nat),
        reserved is Err ==> r == Err::<Vec<E>, Error>(Error::OutOfMemory),
{
    match reserved {
        Ok(_) => {
            let mut buf = buf;
            let mut i: usize = 0;
            while i < len
                invariant
                    i <= len,
                    buf@.len() == i,
                    forall|j: int| 0 <= j < i ==> buf@[j] == E::spec_zero(),
                decreases len - i,
            {
                buf.push(E::zero());
                i += 1;
            }
            Ok(buf)
        },
        Err(_) => Err(Error::OutOfMemory),
    }
}

/// A buffer of `len` zeros, or [`Error::OutOfMemory`] when the allocator
/// refuses the room. A buffer without elements needs no room.
pub fn try_zeros<E: Dtype>(len: usize) -> (r: Result<Vec<E>, Error>)
    ensures
        r matches Ok(buf) ==> buf@ == zeros::<E>(len as nat),
        r matches Err(e) ==> e == Error::OutOfMemory,
        len == 0 ==> r is Ok,
{
    let mut buf: Vec<E> = Vec::new();
    if len == 0 {
        return Ok(buf);
    }
    let reserved = buf.try_reserve(len);
    zeros_in(buf, reserved, len)
}

impl<E> Gradients<E> {
    /// No two slots have the same key, and each buffer has the length that
    /// its key names.
    pub closed spec fn wf(&self) -> bool {
        &&& self.keys@.len() == self.bufs@.len()
        &&& self.keys@.no_duplicates()
        &&& forall|i: int| 0 <= i < self.keys@.len() ==> self.bufs@[i]@.len() == self.keys@[i].len
    }

    /// Each gradient has the length that its key names.
    pub proof fn lemma_lengths(&self)
        requires
            self.wf(),
        ensures
            forall|k: GhostTensor| #[trigger] self@.contains_key(k) ==> self@[k].len() == k.len,
    {
    }

    /// A ledger without gradients.
    pub fn leaky() -> (r: Self)
        ensures
            r.wf(),
            r@ == Map::<GhostTensor, Seq<E>>::empty(),
    {
        let r = Gradients { keys: Vec::new(), bufs: Vec::new() };
        r
    }

    /// The slot of the key, if it is kept.
    fn position(&self, key: &GhostTensor) -> (r: Option<usize>)
        requires
            self.wf(),
        ensures
            r matches Some(i) ==> i < self.keys@.len() && self.keys@[i as int] == *key,
            r is Some == self@.contains_key(*key),
    {
        let n = self.keys.len();
        let mut i: usize = 0;
        while i < n
            invariant
                n == self.keys@.len(),
                i <= n,
                forall|j: int| 0 <= j < i ==> self.keys@[j] != *key,
            decreases n - i,
        {
            if self.keys[i] == *key {
                return Some(i);
            }
            i += 1;
        }
        None
    }

    /// Whether a gradient is kept for the key.
    pub fn contains(&self, key: &GhostTensor) -> (r: bool)
        requires
            self.wf(),
        ensures
            r == self@.contains_key(*key),
    {
        self.position(key).is_some()
    }

    /// The gradient kept for the key, if there is one.
    pub fn get_ref_checked(&self, key: &GhostTensor) -> (r: Option<&[E]>)
        requires
            self.wf(),
        ensures
            r is Some == self@.contains_key(*key),
            r matches Some(g) ==> g@ == self@[*key] && g@.len() == key.len,
    {
        match self.position(key) {
            Some(i) => {
                Some(self.bufs[i].as_slice())
            },
            None => None,
        }
    }

    /// The gradient kept for the key.
    pub fn get(&self, key: &GhostTensor) -> (r: &[E])
        requires
            self.wf(),
            self@.contains_key(*key),
        ensures
            r@ == self@[*key],
            r@.len() == key.len,
    {
        let found = self.position(key);
        let i = found.unwrap();
        self.bufs[i].as_slice()
    }
}

impl<E: Dtype> Gradients<E> {
    /// Makes sure that a gradient is kept for the key. A key that has a
    /// gradient keeps it as it is, and nothing is allocated. A key without
    /// one gets a buffer of zeros of the length that it names, unless the
    /// allocator refuses: the ledger is then as it was.
    pub fn try_alloc_for(&mut self, key: &GhostTensor) -> (r: Result<(), Error>)
        requires
            old(self).wf(),
        ensures
            final(self).wf(),
            old(self)@.contains_key(*key) ==> r is Ok,
            r is Ok ==> final(self)@ == allocated(old(self)@, *key),
            r matches Err(e) ==> e == Error::OutOfMemory && final(self)@ == old(self)@,
    {
        if self.position(key).is_some() {
            return Ok(());
        }
        let buf = match try_zeros::<E>(key.len) {
            Ok(buf) => buf,
            Err(e) => {
                return Err(e);
            },
        };
        if self.keys.try_reserve(1).is_err() {
            return Err(Error::OutOfMemory);
        }
        if self.bufs.try_reserve(1).is_err() {
            return Err(Error::OutOfMemory);
        }
        self.keys.push(*key);
        self.bufs.push(buf);
        proof {
            let before = *old(self);
            let n = before.keys@.len() as int;
            assert forall|q: GhostTensor| #[trigger]
                self@.contains_key(q) == (q == *key || before@.contains_key(q)) by {
                if before.keys@.contains(q) {
                    let j = before.keys@.index_of(q);
                    assert(self.keys@[j] == q);
                }
                if q == *key {
                    assert(self.keys@[n] == q);
                }
            }
        }
        Ok(())
    }

    /// The gradient kept for the key, to be written, after an allocation as
    /// by [`Gradients::try_alloc_for`]. The ledger ends up with what the
    /// caller leaves in the buffer.
    pub fn get_or_alloc_mut(&mut self, key: &GhostTensor) -> (r: Result<&mut [E], Error>)
        requires
            old(self).wf(),
        ensures
            old(self)@.contains_key(*key) ==> r is Ok,
            r matches Ok(g) ==> {
                &&& g@ == allocated(old(self)@, *key)[*key]
                &&& g@.len() == key.len
                &&& final(self)@ == old(self)@.insert(*key, final(g)@)
                &&& final(g)@.len() == g@.len() ==> final(self).wf()
            },
            r matches Err(e) ==> {
                &&& e == Error::OutOfMemory
                &&& final(self)@ == old(self)@
                &&& final(self).wf()
            },
    {
        match self.try_alloc_for(key) {
            Ok(_) => {},
            Err(e) => {
                return Err(e);
            },
        }
        let found = self.position(key);
        let i = found.unwrap();
        proof {
            lemma_slot_writable(*self, i as int);
        }
        let g = self.bufs[i].as_mut_slice();
        Ok(g)
    }

    /// The gradient of one key to be written, and that of another key to be
    /// read, at once. The ledger ends up with what the caller leaves in the
    /// first.
    pub fn mut_and_ref(&mut self, l: &GhostTensor, r: &GhostTensor) -> (views: (&mut [E], &[E]))
        requires
            old(self).wf(),
            *l != *r,
            old(self)@.contains_key(*l),
            old(self)@.contains_key(*r),
        ensures
            views.0@ == old(self)@[*l],
            views.0@.len() == l.len,
            views.1@ == old(self)@[*r],
            views.1@.len() == r.len,
            final(self)@ == old(self)@.insert(*l, final(views.0)@),
            final(views.0)@.len() == views.0@.len() ==> final(self).wf(),
    {
        let found_l = self.position(l);
        let found_r = self.position(r);
        let a = found_l.unwrap();
        let b = found_r.unwrap();
        let slots = self.bufs.as_mut_slice();
        if a < b {
            let (lo, hi) = slots.split_at_mut(b);
            (lo[a].as_mut_slice(), hi[0].as_slice())
        } else {
            let (lo, hi) = slots.split_at_mut(a);
            (hi[0].as_mut_slice(), lo[b].as_slice())
        }
    }
}

/// The second ledger is the first but for what the buffer of slot `i` holds.
spec fn slot_written<E>(before: Gradients<E>, after: Gradients<E>, i: int) -> bool {
    &&& after.keys@ == before.keys@
    &&& after.bufs@.len() == before.bufs@.len()
    &&& forall|j: int| 0 <= j < before.bufs@.len() && j != i ==> after.bufs@[j] == before.bufs@[j]
}

/// Whatever is written to the buffer of one slot, the other gradients stay.
proof fn lemma_slot_writable<E>(before: Gradients<E>, i: int)
    requires
        before.wf(),
        0 <= i < before.keys@.len(),
    ensures
        forall|after: Gradients<E>|
            slot_written(before, after, i) ==> #[trigger] after@ == before@.insert(
                before.keys@[i],
                after.bufs@[i]@,
            ),
        forall|after: Gradients<E>|
            slot_written(before, after, i) && after.bufs@[i]@.len() == before.bufs@[i]@.len()
                ==> #[trigger] after.wf(),
{
}

} // verus!
