//! Sizing of the background diff loader's worker pool.

use vstd::prelude::*;

verus! {

/// Worker count for `total` files on a machine with `cores` cores: a small
/// pool that leaves a core free for the UI thread (at least 1, at most 8),
/// never more workers than files, and none for no files.
pub open spec fn pool_size_spec(total: int, cores: int) -> int {
    if total == 0 {
        0
    } else {
        let free = if cores >= 1 { cores - 1 } else { 0 };
        let c = if free < 1 { 1 } else if free > 8 { 8 } else { free };
        if c <= total { c } else { total }
    }
}

/// Worker count for a load of `total` files with `cores` available (see
/// [`pool_size_spec`]).
pub fn pool_size_for(total: usize, cores: usize) -> (r: usize)
    ensures
        r == pool_size_spec(total as int, cores as int),
        r <= total,
        total > 0 ==> 1 <= r <= 8,
{
    if total == 0 {
        return 0;
    }
    let free = if cores >= 1 { cores - 1 } else { 0 };
    let c = if free < 1 { 1 } else if free > 8 { 8 } else { free };
    if c <= total { c } else { total }
}

} // verus!
