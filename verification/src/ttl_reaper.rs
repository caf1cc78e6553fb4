//! When a rule with a time to live has run out.

use crate::store::records::RuleView;
use crate::store::Rule;
use crate::timestamp::{Timestamp, NANOS_PER_SEC};
use vstd::prelude::*;

verus! {

/// Whether the time to live of a rule has run out. A rule without one lives on.
pub open spec fn ttl_expired(r: RuleView, now: Timestamp) -> bool {
    match r.expires_after_secs {
        Some(ttl) => r.created_at.instant() + ttl * NANOS_PER_SEC <= now.instant(),
        None => false,
    }
}

/// Whether the time to live of a rule has run out.
pub fn is_ttl_expired(rule: &Rule, now: &Timestamp) -> (r: bool)
    ensures
        r == ttl_expired(rule@, *now),
{
    match rule.expires_after_secs {
        Some(ttl) => {
            let made: i128 = rule.created_at.secs as i128 * 1_000_000_000
                + rule.created_at.nanos as i128;
            let end: i128 = made + ttl as i128 * 1_000_000_000;
            let at: i128 = now.secs as i128 * 1_000_000_000 + now.nanos as i128;
            end <= at
        },
        None => false,
    }
}

} // verus!
