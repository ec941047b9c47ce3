//! Callbacks that the caller registers to hear of the engine's progress.
use vstd::prelude::*;

use std::marker::PhantomData;

verus! {

/// A list of subscribers, each called with every value emitted.
pub struct Event<T: Copy, F: Fn(T)> {
    subscribers: Vec<F>,
    arg: PhantomData<T>,
}

impl<T: Copy, F: Fn(T)> Event<T, F> {
    /// The subscribers, in the order they subscribed.
    pub closed spec fn view(&self) -> Seq<F> {
        self.subscribers@
    }

    /// An event with no subscribers.
    pub fn new() -> (e: Event<T, F>)
        ensures
            e.view() == Seq::<F>::empty(),
    {
        Event { subscribers: Vec::new(), arg: PhantomData }
    }

    /// Calls every subscriber with `arg`, in the order they subscribed.
    pub fn emit(&self, arg: T)
        requires
            forall|i: int| 0 <= i < self.view().len() ==> (#[trigger] self.view()[i]).requires((arg,)),
        ensures
            forall|i: int|
                0 <= i < self.view().len() ==> (#[trigger] self.view()[i]).ensures((arg,), ()),
    {
        let mut i: usize = 0;
        while i < self.subscribers.len()
            invariant
                i <= self.subscribers@.len(),
                self.view() == self.subscribers@,
                forall|j: int|
                    0 <= j < self.view().len() ==> (#[trigger] self.view()[j]).requires((arg,)),
                forall|j: int| 0 <= j < i ==> (#[trigger] self.view()[j]).ensures((arg,), ()),
            decreases self.subscribers@.len() - i,
        {
            let f = &self.subscribers[i];
            f(arg);
            i = i + 1;
        }
    }

    /// Adds `callback` as the last subscriber.
    pub fn subscribe(&mut self, callback: F)
        ensures
            final(self).view() == old(self).view().push(callback),
    {
        self.subscribers.push(callback);
    }
}

/// What the hash check of all pieces found.
#[derive(Debug, Clone, Copy, PartialEq, Eq, Structural)]
pub struct HashCheck {
    /// The pieces that are here.
    pub available: u32,
    /// All pieces.
    pub total: u32,
}

/// The events of the piece store: preallocation starting and ending (with
/// the number of files), and the hash check ending (with the number of pieces
/// here and in all).
pub struct ContentEvents<F: Fn(u32), G: Fn(HashCheck)> {
    pub preallocaion_start: Event<u32, F>,
    pub preallocaion_end: Event<u32, F>,
    pub hash_checked: Event<HashCheck, G>,
}

impl<F: Fn(u32), G: Fn(HashCheck)> ContentEvents<F, G> {
    /// No subscribers to any event.
    pub fn new() -> (e: ContentEvents<F, G>)
        ensures
            e.preallocaion_start.view() == Seq::<F>::empty(),
            e.preallocaion_end.view() == Seq::<F>::empty(),
            e.hash_checked.view() == Seq::<G>::empty(),
    {
        ContentEvents {
            preallocaion_start: Event::new(),
            preallocaion_end: Event::new(),
            hash_checked: Event::new(),
        }
    }
}

} // verus!
