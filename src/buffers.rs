//! The simulation state store: two equally long vertex buffers whose roles
//! (read this step, written this step) the step scheduler assigns by slot.
use vstd::prelude::*;

verus! {

/// Two buffers of the same length, slot 0 and slot 1. They are separate
/// vectors, so a step that reads one and writes the other never sees its
/// own writes.
pub struct PingPong<T> {
    first: Vec<T>,
    second: Vec<T>,
}

impl<T> View for PingPong<T> {
    type V = (Seq<T>, Seq<T>);

    closed spec fn view(&self) -> (Seq<T>, Seq<T>) {
        (self.first@, self.second@)
    }
}

/// The contents of slot `i` of a pair.
pub open spec fn slot_of<T>(pair: (Seq<T>, Seq<T>), i: usize) -> Seq<T> {
    if i == 0 {
        pair.0
    } else {
        pair.1
    }
}

impl<T> PingPong<T> {
    #[verifier::type_invariant]
    spec fn same_length(&self) -> bool {
        self.first.len() == self.second.len()
    }

    /// A pair holding `first` in slot 0 and `second` in slot 1.
    pub fn new(first: Vec<T>, second: Vec<T>) -> (r: Self)
        requires
            first@.len() == second@.len(),
        ensures
            r@ == (first@, second@),
    {
        PingPong { first, second }
    }

    /// The number of vertices in each buffer.
    pub fn len(&self) -> (r: usize)
        ensures
            r == self@.0.len(),
            r == self@.1.len(),
    {
        proof {
            use_type_invariant(self);
        }
        self.first.len()
    }

    /// The buffer in slot `i`.
    pub fn slot(&self, i: usize) -> (r: &Vec<T>)
        requires
            i < 2,
        ensures
            r@ == slot_of(self@, i),
    {
        if i == 0 {
            &self.first
        } else {
            &self.second
        }
    }

    /// Puts `data` into slot `i` and returns what the slot held; the other
    /// slot is untouched.
    pub fn replace(&mut self, i: usize, data: Vec<T>) -> (r: Vec<T>)
        requires
            i < 2,
            data@.len() == old(self)@.0.len(),
        ensures
            r@ == slot_of(old(self)@, i),
            slot_of(final(self)@, i) == data@,
            slot_of(final(self)@, (1 - i) as usize) == slot_of(old(self)@, (1 - i) as usize),
    {
        proof {
            use_type_invariant(&*self);
        }
        let mut data = data;
        if i == 0 {
            std::mem::swap(&mut self.first, &mut data);
        } else {
            std::mem::swap(&mut self.second, &mut data);
        }
        data
    }
}

} // verus!
