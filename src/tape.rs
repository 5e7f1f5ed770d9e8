//! A bit tape that grows at either end in amortized constant time.
use vstd::prelude::*;

verus! {

/// A sequence of bits held as two vectors around a base point: `front` holds
/// the cells before the base in reverse order, `back` the cells from the base
/// on. Adding a cell at either end is a push onto one of them.
pub struct Tape {
    front: Vec<bool>,
    back: Vec<bool>,
}

impl View for Tape {
    type V = Seq<bool>;

    /// The cells of the tape, in order.
    closed spec fn view(&self) -> Seq<bool> {
        let f = self.front@.len();
        Seq::new(
            f + self.back@.len(),
            |i: int|
                if i < f {
                    self.front@[f - 1 - i]
                } else {
                    self.back@[i - f]
                },
        )
    }
}

impl Tape {
    /// The two halves together fit the address space.
    pub closed spec fn wf(&self) -> bool {
        self.front@.len() + self.back@.len() <= usize::MAX
    }

    /// A tape of `n` zero cells.
    pub fn new(n: usize) -> (t: Tape)
        ensures
            t.wf(),
            t@ == Seq::new(n as nat, |i: int| false),
    {
        let mut back: Vec<bool> = Vec::new();
        for i in 0..n
            invariant
                back@ == Seq::new(i as nat, |k: int| false),
        {
            back.push(false);
            assert(back@ =~= Seq::new((i + 1) as nat, |k: int| false));
        }
        let t = Tape { front: Vec::new(), back };
        assert(t@ =~= Seq::new(n as nat, |i: int| false));
        t
    }

    /// The number of cells.
    pub fn len(&self) -> (r: usize)
        requires
            self.wf(),
        ensures
            r == self@.len(),
    {
        self.front.len() + self.back.len()
    }

    /// The cell at index `i`.
    pub fn get(&self, i: usize) -> (b: bool)
        requires
            self.wf(),
            i < self@.len(),
        ensures
            b == self@[i as int],
    {
        let f = self.front.len();
        if i < f {
            self.front[f - 1 - i]
        } else {
            self.back[i - f]
        }
    }

    /// Stores `b` in the cell at index `i`.
    pub fn set(&mut self, i: usize, b: bool)
        requires
            old(self).wf(),
            i < old(self)@.len(),
        ensures
            final(self).wf(),
            final(self)@ == old(self)@.update(i as int, b),
    {
        let f = self.front.len();
        if i < f {
            self.front[f - 1 - i] = b;
        } else {
            self.back[i - f] = b;
        }
        assert(self@ =~= old(self)@.update(i as int, b));
    }

    /// Adds a zero cell after the last one.
    pub fn grow_back(&mut self)
        requires
            old(self).wf(),
            old(self)@.len() < usize::MAX,
        ensures
            final(self).wf(),
            final(self)@ == old(self)@.push(false),
    {
        self.back.push(false);
        assert(self@ =~= old(self)@.push(false));
    }

    /// Adds a zero cell before the first one; every other cell moves up by one.
    pub fn grow_front(&mut self)
        requires
            old(self).wf(),
            old(self)@.len() < usize::MAX,
        ensures
            final(self).wf(),
            final(self)@ == seq![false] + old(self)@,
    {
        self.front.push(false);
        assert(self@ =~= seq![false] + old(self)@);
    }
}

} // verus!
