use vstd::prelude::*;

verus! {

/// Always true. It marks the value with which an `exists` of the library's
/// relations is to be shown.
pub open spec fn witness<T>(x: T) -> bool {
    true
}

} // verus!
