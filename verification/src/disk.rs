//! Disk space: how much a download needs, and whether that much is there.
use crate::error::{cat, SparklingError};
use vstd::prelude::*;

verus! {

/// The space that a file of `total` bytes needs: two percent more than its size.
pub open spec fn space_needed(total: int) -> int {
    total + total / 50
}

/// The space for a file is its size and a fiftieth of it, rounded down.
pub proof fn space_leaves_two_percent(total: int)
    requires
        total >= 0,
    ensures
        space_needed(total) >= total,
        50 * (space_needed(total) - total) <= total,
        total < 50 * (space_needed(total) - total + 1),
{
}

/// The space that a file of `total` bytes needs.
pub fn required_space(total: u64) -> (r: u64)
    requires
        space_needed(total as int) <= u64::MAX,
    ensures
        r == space_needed(total as int),
{
    total + total / 50
}

/// Whether `required` bytes fit, given what the system said of the free space: the
/// number of bytes, or why it could not be found out.
pub fn check_space(available: Result<u64, String>, required: u64) -> (r: Result<
    (),
    SparklingError,
>)
    ensures
        match available {
            Err(why) => r is Err && r->Err_0@ == crate::error::ErrorView::DiskWrite(
                "无法查询磁盘剩余空间: "@ + why@,
            ),
            Ok(free) => if free < required {
                r is Err && r->Err_0@ == (crate::error::ErrorView::InsufficientDisk {
                    required,
                    available: free,
                })
            } else {
                r is Ok
            },
        },
{
    match available {
        Err(why) => Err(SparklingError::DiskWrite(cat("无法查询磁盘剩余空间: ", why.as_str()))),
        Ok(free) => {
            if free < required {
                Err(SparklingError::InsufficientDisk { required, available: free })
            } else {
                Ok(())
            }
        },
    }
}

} // verus!
