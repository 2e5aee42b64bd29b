//! When a price movement meets a condition.

use vstd::prelude::*;
use crate::arith::fits;
use crate::call_registry::types::ConditionType;

verus! {

/// Whether the movement from `start_price` to `end_price` meets `condition`.
pub open spec fn condition_met(condition: ConditionType, start_price: int, end_price: int) -> bool {
    match condition {
        ConditionType::TargetAbove(target) => end_price > target,
        ConditionType::TargetBelow(target) => end_price < target,
        ConditionType::PercentUp(percent) => start_price > 0 && end_price * 100 >= start_price * (
        100 + percent),
        ConditionType::PercentDown(percent) => start_price > 0 && end_price * 100 <= start_price * (
        100 - percent),
        ConditionType::Range(min, max) => min <= end_price <= max,
    }
}

/// Whether the percentages that `condition` asks for can be worked out within an `i128`.
pub open spec fn condition_computable(
    condition: ConditionType,
    start_price: int,
    end_price: int,
) -> bool {
    match condition {
        ConditionType::PercentUp(percent) => start_price > 0 ==> fits(end_price * 100) && fits(
            start_price * (100 + percent),
        ),
        ConditionType::PercentDown(percent) => start_price > 0 ==> fits(end_price * 100) && fits(
            start_price * (100 - percent),
        ),
        _ => true,
    }
}

/// Decides whether [`evaluate_condition_impl`] can work out what `condition` asks for.
pub fn is_computable(condition: &ConditionType, start_price: i128, end_price: i128) -> (r: bool)
    ensures
        r == condition_computable(*condition, start_price as int, end_price as int),
{
    match condition {
        ConditionType::PercentUp(percent) => {
            start_price <= 0 || (end_price.checked_mul(100).is_some() && start_price.checked_mul(
                100 + *percent as i128,
            ).is_some())
        },
        ConditionType::PercentDown(percent) => {
            start_price <= 0 || (end_price.checked_mul(100).is_some() && start_price.checked_mul(
                100 - *percent as i128,
            ).is_some())
        },
        _ => true,
    }
}

/// Decides whether a price movement meets a condition. A percentage of a price that is not
/// positive is never met, nor is a range whose bounds are the wrong way round.
pub fn evaluate_condition_impl(condition: &ConditionType, start_price: i128, end_price: i128) -> (r:
    bool)
    requires
        condition_computable(*condition, start_price as int, end_price as int),
    ensures
        r == condition_met(*condition, start_price as int, end_price as int),
{
    match condition {
        ConditionType::TargetAbove(target) => end_price > *target,
        ConditionType::TargetBelow(target) => end_price < *target,
        ConditionType::PercentUp(percent) => {
            if start_price <= 0 {
                return false;
            }
            end_price * 100 >= start_price * (100 + *percent as i128)
        },
        ConditionType::PercentDown(percent) => {
            if start_price <= 0 {
                return false;
            }
            end_price * 100 <= start_price * (100 - *percent as i128)
        },
        ConditionType::Range(min, max) => {
            if *min > *max {
                return false;
            }
            end_price >= *min && end_price <= *max
        },
    }
}

} // verus!
