//! Bounded history.

use std::collections::VecDeque;

use vstd::prelude::*;

verus! {

/// How many entries are kept where no limit is configured.
pub const DEFAULT_BACKSTOP: usize = 10_000;

/// The last `cap` entries of `s`, all of them where there are fewer.
pub open spec fn newest<T>(s: Seq<T>, cap: nat) -> Seq<T> {
    if s.len() <= cap {
        s
    } else {
        s.skip(s.len() - cap)
    }
}

/// A history that keeps a number of entries and drops the oldest beyond it.
#[derive(Debug)]
pub struct CountBounded<T> {
    cap: usize,
    items: VecDeque<T>,
}

impl<T> CountBounded<T> {
    /// The entries, oldest first.
    pub closed spec fn entries(self) -> Seq<T> {
        self.items@
    }

    /// How many entries are kept.
    pub closed spec fn capacity(self) -> nat {
        self.cap as nat
    }

    pub open spec fn wf(self) -> bool {
        self.entries().len() <= self.capacity()
    }

    pub fn new(cap: usize) -> (r: CountBounded<T>)
        ensures
            r.wf(),
            r.capacity() == cap,
            r.entries() == Seq::<T>::empty(),
    {
        CountBounded { cap, items: VecDeque::new() }
    }

    /// Adds an entry, and drops the oldest where there would be too many.
    pub fn push(&mut self, item: T)
        requires
            old(self).wf(),
        ensures
            final(self).wf(),
            final(self).capacity() == old(self).capacity(),
            final(self).entries() == newest(old(self).entries().push(item), old(self).capacity()),
    {
        self.items.push_back(item);
        if self.items.len() > self.cap {
            let _ = self.items.pop_front();
        }
        assert(self.items@ =~= newest(old(self).items@.push(item), self.cap as nat));
    }

    /// The number of entries.
    pub fn len(&self) -> (r: usize)
        ensures
            r == self.entries().len(),
    {
        self.items.len()
    }

    /// The `i`-th entry.
    pub fn get(&self, i: usize) -> (r: &T)
        requires
            i < self.entries().len(),
        ensures
            *r == self.entries()[i as int],
    {
        &self.items[i]
    }

    /// Drops all entries.
    pub fn clear(&mut self)
        ensures
            final(self).wf(),
            final(self).capacity() == old(self).capacity(),
            final(self).entries() == Seq::<T>::empty(),
    {
        self.items.clear();
        assert(self.items@ =~= Seq::empty());
    }
}

} // verus!
