//! A queue that holds no more than a fixed number of elements.

use std::slice::Iter;
use vstd::prelude::*;
use vstd::std_specs::slice::into_iter_elts;

verus! {

/// A first-in, first-out queue with a greatest length. When a full queue is
/// given one more element, its oldest element leaves.
pub struct FixedSizeQueue<T> {
    size: usize,
    elements: Vec<T>,
}

impl<T> View for FixedSizeQueue<T> {
    type V = Seq<T>;

    closed spec fn view(&self) -> Seq<T> {
        self.elements@
    }
}

/// What stays of `before` when only the elements are kept of which `f` says
/// so, in their order.
pub open spec fn kept_by<T, F: Fn(&T) -> bool>(f: F, before: Seq<T>, after: Seq<T>) -> bool
    decreases before.len(),
{
    if before.len() == 0 {
        after.len() == 0
    } else {
        ||| (f.ensures((&before[0],), true) && after.len() > 0 && after[0] == before[0] && kept_by(
            f,
            before.skip(1),
            after.skip(1),
        ))
        ||| (f.ensures((&before[0],), false) && kept_by(f, before.skip(1), after))
    }
}

impl<T> FixedSizeQueue<T> {
    /// The greatest length of the queue.
    pub closed spec fn capacity(&self) -> nat {
        self.size as nat
    }

    /// The queue can hold an element and holds no more than it can.
    pub open spec fn wf(&self) -> bool {
        1 <= self.capacity() && self@.len() <= self.capacity()
    }

    /// An empty queue for `size` elements; for one element where `size` is 0.
    pub fn new(size: usize) -> (queue: FixedSizeQueue<T>)
        ensures
            queue@ == Seq::<T>::empty(),
            queue.capacity() == (if size == 0 {
                1nat
            } else {
                size as nat
            }),
            queue.wf(),
    {
        let size = if size == 0 {
            1
        } else {
            size
        };
        FixedSizeQueue { size, elements: Vec::with_capacity(size) }
    }

    /// How many elements the queue holds.
    pub fn len(&self) -> (n: usize)
        ensures
            n == self@.len(),
    {
        self.elements.len()
    }

    /// Keeps the elements of which `f` says so, in their order, and drops the
    /// others. The elements are asked from the newest to the oldest.
    pub fn retain<F>(&mut self, f: F) where F: Fn(&T) -> bool
        requires
            forall|x: &T| #[trigger] f.requires((x,)),
        ensures
            final(self).capacity() == old(self).capacity(),
            kept_by(f, old(self)@, final(self)@),
            final(self)@.len() <= old(self)@.len(),
            old(self).wf() ==> final(self).wf(),
    {
        let mut i: usize = self.elements.len();
        let ghost mut tail = Seq::<T>::empty();
        proof {
            assert(self.elements@.take(i as int) =~= self.elements@);
            assert(old(self)@.skip(i as int).len() == 0);
        }
        while i > 0
            invariant
                i <= old(self)@.len(),
                self.size == old(self).size,
                forall|x: &T| #[trigger] f.requires((x,)),
                self.elements@ == old(self)@.take(i as int) + tail,
                kept_by(f, old(self)@.skip(i as int), tail),
                tail.len() <= old(self)@.len() - i,
            decreases i,
        {
            let ghost before = old(self)@.skip(i as int - 1);
            proof {
                assert(self.elements@[i as int - 1] == old(self)@[i as int - 1]);
                assert(before[0] == old(self)@[i as int - 1]);
                assert(before.skip(1) =~= old(self)@.skip(i as int));
            }
            let keep = f(&self.elements[i - 1]);
            if keep {
                proof {
                    let grown = seq![old(self)@[i as int - 1]] + tail;
                    assert(grown.skip(1) =~= tail);
                    assert(self.elements@ =~= old(self)@.take(i as int - 1) + grown);
                    tail = grown;
                }
            } else {
                self.elements.remove(i - 1);
                proof {
                    assert(self.elements@ =~= old(self)@.take(i as int - 1) + tail);
                }
            }
            i = i - 1;
        }
        proof {
            assert(old(self)@.skip(0) =~= old(self)@);
            assert(self.elements@ =~= tail);
        }
    }

    /// Adds an element at the back. From a queue that is full the oldest
    /// element leaves first and is handed back.
    pub fn push(&mut self, element: T) -> (popped: Option<T>)
        requires
            old(self).wf(),
        ensures
            final(self).wf(),
            final(self).capacity() == old(self).capacity(),
            old(self)@.len() == old(self).capacity() ==> popped == Some(old(self)@[0])
                && final(self)@ == old(self)@.skip(1).push(element),
            old(self)@.len() != old(self).capacity() ==> popped is None && final(self)@ == old(
                self,
            )@.push(element),
    {
        let popped_value = if self.elements.len() == self.size {
            let first = self.elements.remove(0);
            proof {
                assert(self.elements@ =~= old(self)@.skip(1));
            }
            Some(first)
        } else {
            None
        };
        self.elements.push(element);
        popped_value
    }

    /// The elements from the oldest to the newest.
    pub fn iter(&self) -> (r: Iter<'_, T>)
        ensures
            into_iter_elts(r) == self@,
    {
        broadcast use vstd::std_specs::slice::axiom_spec_slice_iter;

        let r = self.elements.as_slice().iter();
        proof {
            assert(into_iter_elts(r) =~= self@);
        }
        r
    }
}

} // verus!
