//! Back-off for the listeners that reconnect to the compositor: how long to
//! wait after a run of failures, and which failures are worth a warning.
use vstd::prelude::*;

verus! {

/// Seconds to wait after the `failures`-th failure in a row: 5 for the first
/// three, 15 for the next three, 30 from then on.
pub fn retry_delay_secs(failures: u64) -> (r: u64)
    ensures
        r == (if 1 <= failures <= 3 {
            5u64
        } else if 4 <= failures <= 6 {
            15u64
        } else {
            30u64
        }),
{
    if 1 <= failures && failures <= 3 {
        5
    } else if 4 <= failures && failures <= 6 {
        15
    } else {
        30
    }
}

/// Whether the `failures`-th failure in a row is logged as a warning (the
/// others at debug level): the first three, then one in six.
pub fn retry_warns(failures: u64) -> (r: bool)
    ensures
        r == (failures <= 3 || failures % 6 == 1),
{
    failures <= 3 || failures % 6 == 1
}

} // verus!
