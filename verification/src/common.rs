//! Identifiers and the domains that hand them out.

use vstd::prelude::*;

verus! {

/// An identifier that is counted up from a first one.
pub trait TId: Sized {
    /// The number the identifier stands for.
    spec fn number(&self) -> nat;

    /// The first identifier of a domain.
    fn zero() -> (id: Self)
        ensures
            id.number() == 0,
    ;

    /// The identifier that follows this one.
    fn next_id(&self) -> (id: Self)
        requires
            self.number() < usize::MAX,
        ensures
            id.number() == self.number() + 1,
    ;
}

/// A supply of identifiers: it holds the next one that nobody has been given.
pub struct IdDomain<T> {
    next: T,
}

impl<T: TId> IdDomain<T> {
    /// How many identifiers have been handed out, which is also the number of
    /// the next one.
    pub closed spec fn issued(&self) -> nat {
        self.next.number()
    }

    /// A domain that has handed out nothing yet.
    pub fn new() -> (domain: Self)
        ensures
            domain.issued() == 0,
    {
        IdDomain { next: T::zero() }
    }

    /// Hand out one identifier, and the domain that will never hand it out again.
    pub fn next_id(self) -> (res: (IdDomain<T>, T))
        requires
            self.issued() < usize::MAX,
        ensures
            res.1.number() == self.issued(),
            res.0.issued() == self.issued() + 1,
    {
        let following = self.next.next_id();
        (IdDomain { next: following }, self.next)
    }
}

} // verus!
