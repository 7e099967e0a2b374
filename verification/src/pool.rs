//! A pool of byte buffers of one size. Buffers that were handed back are
//! handed out again before new ones are made, and no more than a fixed
//! number are in use at a time.

use crate::boxed::into_boxed_slice;
use std::collections::VecDeque;
use std::rc::Rc;
use vstd::prelude::*;

verus! {

/// Prepares a buffer that the pool has just made, before it is handed out
/// for the first time.
pub trait BufCallback {
    /// Prepares `buf`. It may write to the buffer; the buffer keeps its
    /// length.
    fn callback(&self, buf: &mut [u8])
        ensures
            final(buf)@.len() == old(buf)@.len(),
    ;
}

/// `VecDeque::capacity`: the number of buffers the queue has room for, which
/// is never less than the number it holds.
#[verifier::external_body]
fn capacity_of(queue: &VecDeque<Box<[u8]>>) -> (n: usize)
    ensures
        n >= queue@.len(),
{
    queue.capacity()
}

/// A pool of byte buffers of one size.
pub struct Pool<C: BufCallback> {
    freeq: VecDeque<Box<[u8]>>,
    obj_size: usize,
    nused: usize,
    nmax: usize,
    initfn: Rc<C>,
}

impl<C: BufCallback> Pool<C> {
    /// The buffers that wait to be handed out, the next one first.
    pub closed spec fn free(&self) -> Seq<Seq<u8>> {
        Seq::new(self.freeq@.len(), |i: int| self.freeq@[i]@)
    }

    /// The number of buffers handed out and not handed back.
    pub closed spec fn used(&self) -> nat {
        self.nused as nat
    }

    /// The number of buffers that may be in use at a time.
    pub closed spec fn limit(&self) -> nat {
        self.nmax as nat
    }

    /// The length of the buffers this pool makes.
    pub closed spec fn buf_len(&self) -> nat {
        self.obj_size as nat
    }

    /// A pool of buffers of `obj_size` bytes, of which at most `nmax` may be
    /// in use at a time; `nmax == 0` stands for no limit. The pool starts
    /// without any buffer.
    pub fn new(obj_size: usize, nmax: usize, initfn: Rc<C>) -> (p: Pool<C>)
        requires
            nmax * 16 <= isize::MAX,
        ensures
            p.free() == Seq::<Seq<u8>>::empty(),
            p.used() == 0,
            p.limit() == if nmax == 0 {
                usize::MAX as nat
            } else {
                nmax as nat
            },
            p.buf_len() == obj_size,
    {
        let p = Pool {
            freeq: VecDeque::with_capacity(nmax),
            nused: 0,
            nmax: match nmax {
                0 => usize::MAX,
                _ => nmax,
            },
            obj_size,
            initfn,
        };
        assert(p.free() =~= Seq::<Seq<u8>>::empty());
        p
    }

    /// Makes buffers until `size` of them wait to be handed out. The limit
    /// on buffers in use plays no part in this.
    pub fn prealloc(&mut self, size: usize)
        requires
            old(self).buf_len() <= isize::MAX,
            size * 16 <= isize::MAX,
        ensures
            final(self).free().len() == if old(self).free().len() < size {
                size as nat
            } else {
                old(self).free().len()
            },
            final(self).free().take(old(self).free().len() as int) == old(self).free(),
            forall|i: int|
                old(self).free().len() <= i < final(self).free().len() ==> (
                #[trigger] final(self).free()[i]).len() == old(self).buf_len(),
            final(self).used() == old(self).used(),
            final(self).limit() == old(self).limit(),
            final(self).buf_len() == old(self).buf_len(),
    {
        while self.freeq.len() < size
            invariant
                self.obj_size == old(self).obj_size,
                self.nused == old(self).nused,
                self.nmax == old(self).nmax,
                old(self).free().len() <= self.free().len(),
                self.free().len() <= size || self.free().len() == old(self).free().len(),
                self.free().take(old(self).free().len() as int) == old(self).free(),
                forall|i: int|
                    old(self).free().len() <= i < self.free().len() ==> (#[trigger] self.free()[i]).len()
                        == old(self).buf_len(),
            decreases size - self.freeq@.len(),
        {
            let ghost before = self.free();
            let v = self.allocate_one();
            self.freeq.push_back(v);
            assert(self.free() =~= before.push(v@));
            assert(self.free().take(old(self).free().len() as int) =~= before.take(
                old(self).free().len() as int,
            ));
        }
    }

    /// A new buffer of the pool's size, filled with zeros and then prepared
    /// by the callback.
    fn allocate_one(&mut self) -> (buf: Box<[u8]>)
        ensures
            buf@.len() == old(self).buf_len(),
            *final(self) == *old(self),
    {
        let mut bs: Vec<u8> = vec![0u8; self.obj_size];
        self.initfn.callback(bs.as_mut_slice());
        into_boxed_slice(bs)
    }

    /// Hands out a buffer: the one that has waited longest, or a new one if
    /// none waits and fewer buffers are in use than the limit allows, or
    /// nothing.
    pub fn take(&mut self) -> (item: Option<Box<[u8]>>)
        requires
            old(self).used() < usize::MAX,
            old(self).buf_len() <= isize::MAX,
        ensures
            final(self).limit() == old(self).limit(),
            final(self).buf_len() == old(self).buf_len(),
            old(self).free().len() > 0 ==> {
                &&& item is Some
                &&& item->Some_0@ == old(self).free()[0]
                &&& final(self).free() == old(self).free().skip(1)
                &&& final(self).used() == old(self).used() + 1
            },
            old(self).free().len() == 0 && old(self).used() < old(self).limit() ==> {
                &&& item is Some
                &&& item->Some_0@.len() == old(self).buf_len()
                &&& final(self).free() == old(self).free()
                &&& final(self).used() == old(self).used() + 1
            },
            old(self).free().len() == 0 && old(self).used() >= old(self).limit() ==> {
                &&& item is None
                &&& final(self).free() == old(self).free()
                &&& final(self).used() == old(self).used()
            },
    {
        let ghost before = self.free();
        let item = match self.freeq.pop_front() {
            Some(b) => {
                assert(self.free() =~= before.skip(1));
                Some(b)
            },
            None => {
                assert(self.free() =~= before);
                if self.nused < self.nmax {
                    Some(self.allocate_one())
                } else {
                    None  // we are over capacity
                }
            },
        };

        if item.is_some() {
            self.nused += 1;
        }
        item
    }

    /// Takes a buffer back. It waits behind those that wait already.
    pub fn put(&mut self, item: Box<[u8]>)
        requires
            old(self).used() > 0,
        ensures
            final(self).free() == old(self).free().push(item@),
            final(self).used() == old(self).used() - 1,
            final(self).limit() == old(self).limit(),
            final(self).buf_len() == old(self).buf_len(),
    {
        let ghost before = self.free();
        self.freeq.push_back(item);
        self.nused -= 1;
        assert(self.free() =~= before.push(item@));
    }

    /// The number of buffers in use.
    pub fn nused(&self) -> (n: usize)
        ensures
            n == self.used(),
    {
        self.nused
    }

    /// The number of buffers that may be in use at a time.
    pub fn nmax(&self) -> (n: usize)
        ensures
            n == self.limit(),
    {
        self.nmax
    }

    /// The number of buffers that wait to be handed out.
    pub fn free_len(&self) -> (n: usize)
        ensures
            n == self.free().len(),
    {
        self.freeq.len()
    }

    /// The number of buffers the pool has room for among those that wait,
    /// before it has to make more room.
    pub fn free_capacity(&self) -> (n: usize)
        ensures
            n >= self.free().len(),
    {
        capacity_of(&self.freeq)
    }

    /// The `i`-th of the buffers that wait to be handed out.
    pub fn free_buf(&self, i: usize) -> (buf: &[u8])
        requires
            i < self.free().len(),
        ensures
            buf@ == self.free()[i as int],
    {
        let b = &self.freeq[i];
        &b[0..b.len()]
    }
}

} // verus!
