//! Progress and age of transfers.

use crate::protocol::ClipboardItem;
use vstd::prelude::*;

verus! {

/// The share of a transfer that is done, in whole percent.
pub open spec fn percent(transferred: u64, total: u64) -> int {
    if total == 0 {
        0
    } else {
        let hundredfold = if transferred * 100 > u64::MAX {
            u64::MAX as int
        } else {
            transferred * 100
        };
        if hundredfold / total as int > 100 {
            100
        } else {
            hundredfold / total as int
        }
    }
}

/// The share of a transfer that is done, in whole percent.
pub fn percent_for(transferred_bytes: u64, total_bytes: u64) -> (share: u8)
    ensures
        share == percent(transferred_bytes, total_bytes),
        share <= 100,
{
    if total_bytes == 0 {
        return 0;
    }
    let hundredfold: u64 = match transferred_bytes.checked_mul(100) {
        Some(product) => product,
        None => u64::MAX,
    };
    let share: u64 = hundredfold / total_bytes;
    if share > 100 {
        100
    } else {
        share as u8
    }
}

/// A transfer that is done shows 100 percent, one that has not begun shows 0,
/// and progress never shows as regress.
pub proof fn percent_follows_progress(before: u64, after: u64, total: u64)
    requires
        before <= after,
        0 < total,
    ensures
        percent(0, total) == 0,
        total <= u64::MAX / 100 ==> percent(total, total) == 100,
        percent(before, total) <= percent(after, total),
        0 <= percent(after, total) <= 100,
{
    let x = if before * 100 > u64::MAX { u64::MAX as int } else { before * 100 };
    let y = if after * 100 > u64::MAX { u64::MAX as int } else { after * 100 };
    let t = total as int;
    assert(x / t <= y / t && 0 <= y / t && (t * 100) / t == 100) by (nonlinear_arith)
        requires
            0 <= x <= y,
            0 < t,
    ;
}

/// How long ago an item was copied, in milliseconds.
pub fn item_age_ms(item: &ClipboardItem, now_us: u64) -> (age: u64)
    ensures
        age == if now_us >= item.created_at_us {
            (now_us - item.created_at_us) / 1_000
        } else {
            0
        },
{
    now_us.saturating_sub(item.created_at_us) / 1_000
}

/// Between its ends, the share shown is the largest whole number of percent that was reached.
pub proof fn percent_is_rounded_down(transferred: u64, total: u64)
    requires
        transferred <= total,
        0 < total <= u64::MAX / 100,
    ensures
        percent(transferred, total) * total <= transferred * 100,
        transferred * 100 < (percent(transferred, total) + 1) * total,
{
    let x = transferred * 100;
    let t = total as int;
    assert(x / t * t <= x < (x / t + 1) * t) by (nonlinear_arith)
        requires
            0 < t,
            0 <= x,
    ;
    assert(x / t <= 100) by (nonlinear_arith)
        requires
            0 < t,
            0 <= x <= 100 * t,
    ;
}

} // verus!
