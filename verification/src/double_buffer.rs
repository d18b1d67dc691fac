//! Generic double buffer.

use vstd::prelude::*;

verus! {

/// Generic double buffer.
///
/// Two items are held at all times: the current one and the older one.
#[derive(Copy, Clone, Debug)]
pub struct DoubleBuffer<T> {
    /// Whether the second item is the current one.
    swapped: bool,
    items: [T; 2],
}

impl<T: Default> Default for DoubleBuffer<T> {
    /// Both items are default values.
    fn default() -> (buffer: DoubleBuffer<T>)
        ensures
            call_ensures(T::default, (), buffer.latest()),
            call_ensures(T::default, (), buffer.older()),
    {
        DoubleBuffer { swapped: false, items: [T::default(), T::default()] }
    }
}

impl<T> DoubleBuffer<T> {
    /// The item that `get` returns.
    pub closed spec fn latest(self) -> T {
        self.items@[if self.swapped { 1int } else { 0int }]
    }

    /// The item that `get_old` returns.
    pub closed spec fn older(self) -> T {
        self.items@[if self.swapped { 0int } else { 1int }]
    }

    /// Sets both items to the same initial value.
    pub fn new(initial: T) -> (buffer: DoubleBuffer<T>) where T: Clone
        ensures
            cloned(initial, buffer.latest()),
            cloned(initial, buffer.older()),
    {
        DoubleBuffer { swapped: false, items: [initial.clone(), initial.clone()] }
    }

    fn current_index(&self) -> (index: usize)
        ensures
            index == (if self.swapped { 1int } else { 0int }),
    {
        if self.swapped {
            1
        } else {
            0
        }
    }

    fn older_index(&self) -> (index: usize)
        ensures
            index == (if self.swapped { 0int } else { 1int }),
    {
        if self.swapped {
            0
        } else {
            1
        }
    }

    /// Swaps current and next items.
    pub fn swap(&mut self)
        ensures
            final(self).latest() == old(self).older(),
            final(self).older() == old(self).latest(),
    {
        self.swapped = !self.swapped;
    }

    /// Inserts a value, replacing the older item.
    ///
    /// This does not automatically swap the buffers.
    pub fn insert(&mut self, item: T)
        ensures
            final(self).older() == item,
            final(self).latest() == old(self).latest(),
    {
        let index: usize = self.older_index();
        self.items[index] = item;
    }

    /// Gets the latest item.
    pub fn get(&self) -> (item: &T)
        ensures
            *item == self.latest(),
    {
        &self.items[self.current_index()]
    }

    /// Gets the older item.
    pub fn get_old(&self) -> (item: &T)
        ensures
            *item == self.older(),
    {
        &self.items[self.older_index()]
    }
}

} // verus!
