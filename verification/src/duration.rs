//! Durations in words.

use vstd::prelude::*;
use crate::text::{concat, decimal, u64_to_string};

verus! {

/// A duration of that many whole seconds, as the list of eggs shows it:
/// in months of 30 days, else in days, hours, minutes or seconds, by the
/// largest unit of which it holds at least one.
pub open spec fn humanized(seconds: nat) -> Seq<char> {
    let days = seconds / 86400;
    let hours = seconds / 3600;
    let minutes = seconds / 60;
    if days >= 30 {
        decimal(days / 30) + " month"@ + (if days / 30 > 1 {
            "s"@
        } else {
            ""@
        })
    } else if days > 0 {
        decimal(days) + "d"@
    } else if hours > 0 {
        decimal(hours) + "h"@
    } else if minutes > 0 {
        decimal(minutes) + "m"@
    } else if seconds > 0 {
        decimal(seconds) + "s"@
    } else {
        "< 1 second"@
    }
}

/// Says a duration of `seconds` whole seconds in words.
pub fn humanize_duration(seconds: u64) -> (r: String)
    ensures
        r@ == humanized(seconds as nat),
{
    let days = seconds / 86400;
    let hours = seconds / 3600;
    let minutes = seconds / 60;
    if days >= 30 {
        let months = days / 30;
        let n = u64_to_string(months);
        let a = concat(n.as_str(), " month");
        if months > 1 {
            concat(a.as_str(), "s")
        } else {
            concat(a.as_str(), "")
        }
    } else if days > 0 {
        let n = u64_to_string(days);
        concat(n.as_str(), "d")
    } else if hours > 0 {
        let n = u64_to_string(hours);
        concat(n.as_str(), "h")
    } else if minutes > 0 {
        let n = u64_to_string(minutes);
        concat(n.as_str(), "m")
    } else if seconds > 0 {
        let n = u64_to_string(seconds);
        concat(n.as_str(), "s")
    } else {
        "< 1 second".to_string()
    }
}

} // verus!
