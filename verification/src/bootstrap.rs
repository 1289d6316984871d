//! The store's initial on-disk skeleton.
//!
//! Initialization creates the root directory with `objects/` and
//! `refs/` inside it and writes a `HEAD` file holding a symbolic
//! reference. The directory creation itself is filesystem work left to
//! the caller; this module pins down the exact bytes `HEAD` carries.

use vstd::prelude::*;

verus! {

/// The symbolic reference `HEAD` holds after initialization.
pub open spec fn head_ref() -> Seq<char> {
    "ref: refs/heads/main\n"@
}

/// The exact content of the `HEAD` file a fresh store starts with.
pub fn head_content() -> (r: &'static str)
    ensures
        r@ == head_ref(),
{
    "ref: refs/heads/main\n"
}

} // verus!
