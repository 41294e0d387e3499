//! Tiny demonstration types for the kind of crate whose readme this engine
//! rewrites: a readme example calls [`StuffDoer::do_stuff`] and
//! [`StuffDoer::do_stuff_that_might_fail`] with the `?` operator, and the
//! inserted marker line lets that example run as a doctest unchanged.

use vstd::prelude::*;

verus! {

/// A type for other things to do stuff with.
pub struct StuffDoer;

impl StuffDoer {
    /// Does some stuff. Nothing, in fact.
    pub fn do_stuff() {
    }

    /// Does some stuff, but fallibly. Nothing will ever fail.
    pub fn do_stuff_that_might_fail() -> (r: Result<(), SomeError>)
        ensures
            r is Ok,
    {
        Ok(())
    }
}

/// The error that [`StuffDoer::do_stuff_that_might_fail`] never returns.
#[derive(Debug)]
pub struct SomeError;

} // verus!
