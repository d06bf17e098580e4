//! Asking the world for something that no argument determines: the time, the name
//! of the machine. A contract can then say that a result is made from an answer
//! that the question can have.
use vstd::prelude::*;

verus! {

/// The answer of `ask`, whatever it is.
pub(crate) fn observed<R, F: Fn() -> R>(ask: F) -> (r: R)
    requires
        call_requires(ask, ()),
    ensures
        call_ensures(ask, (), r),
{
    ask()
}

/// The answer of `ask` about `subject`, whatever it is.
pub(crate) fn observed_of<'a, S, R, F: Fn(&'a S) -> R>(ask: F, subject: &'a S) -> (r: R)
    requires
        call_requires(ask, (subject,)),
    ensures
        call_ensures(ask, (subject,), r),
{
    ask(subject)
}

} // verus!
