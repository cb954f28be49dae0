//! Matchers made of other matchers.

use vstd::prelude::*;
use crate::parser::Bite;
use crate::parser::ChompMatcher;

verus! {

/// Tries the first matcher and, only where that does not apply, the second.
pub struct Or<T1, T2>(pub T1, pub T2);

impl<T1: ChompMatcher, T2: ChompMatcher> Or<T1, T2> {
    /// The first matcher, or the second where the first does not apply.
    pub fn new(first: T1, second: T2) -> (r: Self)
        ensures
            r.0 == first,
            r.1 == second,
    {
        Self(first, second)
    }
}

impl<T1: ChompMatcher, T2: ChompMatcher> ChompMatcher for Or<T1, T2> {
    open spec fn match_len(&self, input: Seq<char>) -> Option<nat> {
        match self.0.match_len(input) {
            Some(n) => Some(n),
            None => self.1.match_len(input),
        }
    }

    fn consume<'a>(&self, bite: Bite<'a>) -> (r: Option<(&'a str, Bite<'a>)>) {
        match self.0.consume(bite) {
            Some(found) => Some(found),
            None => self.1.consume(bite),
        }
    }
}

} // verus!
