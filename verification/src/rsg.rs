//! Random shape generators: the sequence of piece indices, one step ahead.
//!
//! A generator always knows the index it will hand out next. Drawing hands
//! that index out and picks a new one; peeking reads it and changes nothing.

use vstd::prelude::*;

verus! {

/// A source of piece indices with one step of lookahead.
pub trait RSG {
    /// The number of pieces to choose from.
    spec fn piece_count(&self) -> usize;

    /// The index that the next draw hands out.
    spec fn upcoming(&self) -> usize;

    /// Hands out the index that was upcoming and picks the one after it.
    fn get(&mut self) -> (drawn: usize)
        ensures
            drawn == old(self).upcoming(),
            final(self).piece_count() == old(self).piece_count(),
            old(self).piece_count() > 0 ==> drawn < old(self).piece_count(),
            old(self).piece_count() > 0 ==> final(self).upcoming() < old(self).piece_count(),
    ;

    /// The index that the next call of `get` hands out. Nothing is consumed.
    fn next(&self) -> (peeked: usize)
        ensures
            peeked == self.upcoming(),
            self.piece_count() > 0 ==> peeked < self.piece_count(),
    ;
}

/// Trusted: `macroquad::rand::srand` (the crate `quad-rand`, which macroquad
/// hands on), which stores a new state derived from `seed` in the
/// process-wide generator. It returns nothing, and nothing is claimed of it.
#[verifier::external_body]
fn srand(seed: u64) {
    macroquad::rand::srand(seed)
}

/// Trusted: `macroquad::rand::gen_range` on `usize` (the crate `quad-rand`,
/// which macroquad hands on). The source computes
/// `low + (high - low) * f` in double precision for a fraction `f` that is at
/// least 0 and less than 1, and truncates. With `low` equal to 0 the product
/// is below `high` whenever `high` is positive, so the result is an index
/// into `high` items. Which index comes back depends on the state of the
/// process-wide generator: nothing more is claimed.
#[verifier::external_body]
fn gen_range(low: usize, high: usize) -> (picked: usize)
    requires
        low == 0,
    ensures
        high > 0 ==> picked < high,
{
    macroquad::rand::gen_range(low, high)
}

/// The plain generator: every index is an independent pick over all pieces.
#[derive(Debug, Clone, Copy)]
pub struct TSR {
    next: usize,
    n_shapes: usize,
}

impl TSR {
    #[verifier::type_invariant]
    spec fn in_range(self) -> bool {
        self.n_shapes > 0 ==> self.next < self.n_shapes
    }

    /// A generator over `n_shapes` pieces, after seeding the process-wide
    /// random source with `seed`.
    pub fn new(n_shapes: usize, seed: u64) -> (g: Self)
        ensures
            g.piece_count() == n_shapes,
            n_shapes > 0 ==> g.upcoming() < n_shapes,
    {
        srand(seed);
        Self::resume(n_shapes)
    }

    /// A generator over `n_shapes` pieces that goes on with the random source
    /// as it stands.
    pub fn resume(n_shapes: usize) -> (g: Self)
        ensures
            g.piece_count() == n_shapes,
            n_shapes > 0 ==> g.upcoming() < n_shapes,
    {
        Self::starting_with(n_shapes, gen_range(0, n_shapes))
    }

    /// A generator over `n_shapes` pieces that hands out `first` first.
    pub fn starting_with(n_shapes: usize, first: usize) -> (g: Self)
        requires
            n_shapes > 0 ==> first < n_shapes,
        ensures
            g.piece_count() == n_shapes,
            g.upcoming() == first,
    {
        Self { next: first, n_shapes }
    }

    /// Hands out the index that was upcoming and makes `picked` the one
    /// after it.
    pub fn advance(&mut self, picked: usize) -> (drawn: usize)
        requires
            old(self).piece_count() > 0 ==> picked < old(self).piece_count(),
        ensures
            drawn == old(self).upcoming(),
            final(self).upcoming() == picked,
            final(self).piece_count() == old(self).piece_count(),
            old(self).piece_count() > 0 ==> drawn < old(self).piece_count(),
    {
        proof {
            use_type_invariant(&*self);
        }
        let current = self.next;
        self.next = picked;
        current
    }
}

impl RSG for TSR {
    closed spec fn piece_count(&self) -> usize {
        self.n_shapes
    }

    closed spec fn upcoming(&self) -> usize {
        self.next
    }

    fn get(&mut self) -> (drawn: usize) {
        let picked = gen_range(0, self.n_shapes);
        self.advance(picked)
    }

    fn next(&self) -> (peeked: usize) {
        proof {
            use_type_invariant(self);
        }
        self.next
    }
}

} // verus!
