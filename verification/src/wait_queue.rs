//! A queue with one waiter and multiple producers. On the machine the
//! queue sits behind a spinlock and a single-waiter condition variable;
//! the verified queue is the content those primitives guard, and an
//! empty `pop_front` reports `None` where the waiter would block.

use vstd::prelude::*;

verus! {

/// A queue with one waiter and multiple producers.
pub struct WaitQueue<T> {
    pub items: Vec<T>,
}

impl<T> WaitQueue<T> {
    /// Creates a new `WaitQueue`.
    pub fn new() -> (r: WaitQueue<T>)
        ensures
            r.items@.len() == 0,
    {
        WaitQueue { items: Vec::new() }
    }

    /// Appends an element to the back. On the machine this notifies the
    /// waiter.
    pub fn push_back(&mut self, t: T)
        ensures
            final(self).items@ == old(self).items@.push(t),
    {
        self.items.push(t);
    }

    /// Pops the element at the front; `None` when the queue is empty and
    /// the caller would have to wait.
    pub fn pop_front(&mut self) -> (r: Option<T>)
        ensures
            match r {
                Some(t) => old(self).items@.len() > 0 && t == old(self).items@[0] && final(self).items@ == old(self).items@.drop_first(),
                None => old(self).items@.len() == 0 && final(self).items@ == old(self).items@,
            },
    {
        if self.items.len() == 0 {
            return None;
        }
        let t = self.items.remove(0);
        Some(t)
    }
}

} // verus!
