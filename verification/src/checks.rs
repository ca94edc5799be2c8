//! Small pieces of contracts for checks that refuse at the first fault.
use vstd::prelude::*;

verus! {

/// The first of two checks that refuses.
pub open spec fn first<E>(a: Option<E>, b: Option<E>) -> Option<E> {
    if a is Some {
        a
    } else {
        b
    }
}

/// Refuses with `fault` when `bad` holds.
pub open spec fn refused_if<E>(bad: bool, fault: E) -> Option<E> {
    if bad {
        Some(fault)
    } else {
        None
    }
}

/// The refusal of a result.
pub open spec fn refusal<T, E>(r: Result<T, E>) -> Option<E> {
    match r {
        Ok(_) => None,
        Err(fault) => Some(fault),
    }
}

} // verus!
