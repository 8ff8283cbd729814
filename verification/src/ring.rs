//! The frame history ring: a fixed-capacity window of the most recent input
//! spectra, newest at index 0.
//!
//! The engine owns one slot per filter-bank segment.  Every incoming block
//! spectrum is pushed to the front and the oldest slot is evicted, so the
//! capacity chosen at construction never changes.

use vstd::prelude::*;

verus! {

/// A fixed-capacity sequence of the most recent entries, newest first.
pub struct HistoryRing<T> {
    slots: Vec<T>,
}

impl<T> View for HistoryRing<T> {
    type V = Seq<T>;

    closed spec fn view(&self) -> Seq<T> {
        self.slots@
    }
}

impl<T> HistoryRing<T> {
    /// A ring holding exactly the given slots; the caller hands in one
    /// silence spectrum per filter-bank segment, and that count stays the
    /// ring's capacity for good.
    pub fn new(slots: Vec<T>) -> (r: Self)
        ensures
            r@ == slots@,
    {
        HistoryRing { slots }
    }

    /// The fixed capacity.
    pub fn len(&self) -> (r: usize)
        ensures
            r == self@.len(),
    {
        self.slots.len()
    }

    /// The entry `i` pushes ago: 0 is the newest.
    pub fn get(&self, i: usize) -> (r: &T)
        requires
            i < self@.len(),
        ensures
            *r == self@[i as int],
    {
        &self.slots[i]
    }

    /// Insert `x` as the newest entry and evict the oldest; the length never
    /// changes.
    pub fn push(&mut self, x: T)
        requires
            old(self)@.len() >= 1,
        ensures
            final(self)@.len() == old(self)@.len(),
            final(self)@ == seq![x] + old(self)@.drop_last(),
            final(self)@ == ring_after(old(self)@, seq![x]),
    {
        self.slots.insert(0, x);
        let _ = self.slots.pop();
        proof {
            assert(self.slots@ =~= seq![x] + old(self)@.drop_last());
            let stepped = seq![x] + old(self)@.drop_last();
            assert(seq![x].drop_first() =~= Seq::<T>::empty());
            assert(ring_after(old(self)@, seq![x]) == ring_after(stepped, Seq::<T>::empty()));
            assert(ring_after(stepped, Seq::<T>::empty()) == stepped);
        }
    }
}

/// The ring's contents after pushing each entry of `inputs` in order onto a
/// ring holding `s`.
pub open spec fn ring_after<T>(s: Seq<T>, inputs: Seq<T>) -> Seq<T>
    decreases inputs.len(),
{
    if inputs.len() == 0 {
        s
    } else {
        ring_after(seq![inputs[0]] + s.drop_last(), inputs.drop_first())
    }
}

/// Ringing in: pushing `j <= K` block spectra onto a ring of `K` initial
/// (silence) slots leaves the pushed spectra newest-first followed by the
/// `K - j` oldest initial slots.  So until `K` blocks have arrived part of
/// the initial silence still takes part in the accumulation, after exactly
/// `K` blocks none of it does, and the capacity `K` never changes.
pub proof fn lemma_ring_in<T>(s: Seq<T>, inputs: Seq<T>)
    requires
        s.len() >= 1,
        inputs.len() <= s.len(),
    ensures
        ring_after(s, inputs).len() == s.len(),
        ring_after(s, inputs) == inputs.reverse() + s.take(s.len() - inputs.len()),
    decreases inputs.len(),
{
    if inputs.len() == 0 {
        assert(ring_after(s, inputs) =~= inputs.reverse() + s.take(s.len() - inputs.len()));
    } else {
        let s1 = seq![inputs[0]] + s.drop_last();
        let rest = inputs.drop_first();
        assert(s1.len() == s.len());
        lemma_ring_in(s1, rest);
        assert(s1.take(s1.len() - rest.len()) =~= seq![inputs[0]] + s.take(
            s.len() - inputs.len(),
        ));
        assert(rest.reverse() + (seq![inputs[0]] + s.take(s.len() - inputs.len()))
            =~= inputs.reverse() + s.take(s.len() - inputs.len()));
    }
}

} // verus!
