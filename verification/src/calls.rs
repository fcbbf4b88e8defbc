//! Calls of which a contract can say what was asked and what came back.
use vstd::prelude::*;

verus! {

/// Call `f` with one argument: what comes back is an answer of `f` to that argument.
pub(crate) fn ask<A, T, F: Fn(A) -> T>(f: F, a: A) -> (answer: T)
    requires
        call_requires(f, (a,)),
    ensures
        call_ensures(f, (a,), answer),
{
    f(a)
}

/// Call `f` with two arguments: what comes back is an answer of `f` to those arguments.
pub(crate) fn ask_both<A, B, T, F: Fn(A, B) -> T>(f: F, a: A, b: B) -> (answer: T)
    requires
        call_requires(f, (a, b)),
    ensures
        call_ensures(f, (a, b), answer),
{
    f(a, b)
}

} // verus!
