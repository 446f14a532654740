//! Running a piece of work that was handed over whole.

use vstd::prelude::*;

verus! {

/// Calls `f`, which is consumed by the call. What `f` asks of its caller is
/// asked of the caller of `c`, and what `f` brings about has come about when
/// `c` returns.
pub fn c<F: FnOnce() + 'static>(f: F)
    requires
        f.requires(()),
    ensures
        f.ensures((), ()),
{
    f();
}

} // verus!
