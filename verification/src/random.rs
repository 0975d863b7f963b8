//! Sources of random field elements.
use vstd::prelude::*;

use crate::field::{self, Fr};

verus! {

/// A source of field elements, drawn one after the other.
pub trait ScalarSource {
    /// The residues drawn so far.
    spec fn drawn(&self) -> Seq<int>;

    /// Draws the next element.
    fn next_scalar(&mut self) -> (r: Fr)
        ensures
            final(self).drawn() == old(self).drawn().push(r@),
    ;
}

/// Elements from the random numbers of the operating system.
pub struct OsScalars {
    log: Ghost<Seq<int>>,
}

impl OsScalars {
    /// A source that nothing was drawn from yet.
    pub fn new() -> (r: OsScalars)
        ensures
            r.drawn() == Seq::<int>::empty(),
    {
        OsScalars { log: Ghost(Seq::empty()) }
    }
}

impl ScalarSource for OsScalars {
    closed spec fn drawn(&self) -> Seq<int> {
        self.log@
    }

    fn next_scalar(&mut self) -> (r: Fr) {
        let x = Fr::random();
        self.log = Ghost(self.log@.push(x@));
        x
    }
}

/// Elements that were prepared in advance, in their order, and after the last
/// one those of the operating system.
pub struct PreparedScalars {
    prepared: Vec<Fr>,
    next: usize,
    log: Ghost<Seq<int>>,
}

impl PreparedScalars {
    #[verifier::type_invariant]
    spec fn in_range(self) -> bool {
        self.next <= self.prepared@.len()
    }

    /// The residues that are still prepared.
    pub closed spec fn upcoming(&self) -> Seq<int> {
        field::residues(self.prepared@).skip(self.next as int)
    }

    /// A source that hands out the given elements first.
    pub fn new(prepared: Vec<Fr>) -> (r: PreparedScalars)
        ensures
            r.drawn() == Seq::<int>::empty(),
            r.upcoming() == field::residues(prepared@),
    {
        let r = PreparedScalars { prepared, next: 0, log: Ghost(Seq::empty()) };
        assert(r.upcoming() =~= field::residues(prepared@));
        r
    }
}

impl ScalarSource for PreparedScalars {
    closed spec fn drawn(&self) -> Seq<int> {
        self.log@
    }

    fn next_scalar(&mut self) -> (r: Fr)
        ensures
            old(self).upcoming().len() > 0 ==> r@ == old(self).upcoming()[0]
                && final(self).upcoming() == old(self).upcoming().skip(1),
            old(self).upcoming().len() == 0 ==> final(self).upcoming().len() == 0,
    {
        proof {
            use_type_invariant(&*self);
        }
        let x = if self.next < self.prepared.len() {
            let x = self.prepared[self.next];
            self.next = self.next + 1;
            x
        } else {
            Fr::random()
        };
        self.log = Ghost(self.log@.push(x@));
        assert(old(self).upcoming().len() > 0 ==> self.upcoming() =~= old(self).upcoming().skip(
            1,
        ));
        x
    }
}

} // verus!
