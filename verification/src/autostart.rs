//! Whether the notifier starts with the session.

use vstd::prelude::*;

verus! {

/// What to do to the launch-at-login entry.
#[derive(Clone, Copy, Debug, PartialEq, Eq, Structural)]
pub enum LaunchChange {
    Keep,
    Enable,
    Disable,
}

/// What brings the launch-at-login entry to `flag` when it is `enabled`
/// now: nothing where it already is as wanted.
pub fn update(flag: bool, enabled: bool) -> (change: LaunchChange)
    ensures
        change == if enabled == flag {
            LaunchChange::Keep
        } else if flag {
            LaunchChange::Enable
        } else {
            LaunchChange::Disable
        },
{
    if enabled == flag {
        return LaunchChange::Keep;
    }
    if flag {
        LaunchChange::Enable
    } else {
        LaunchChange::Disable
    }
}

} // verus!
