//! The time at which something is recorded.
use crate::bindings::{self, utc_now};
use vstd::prelude::*;

verus! {

/// Whether the machine's clock can give that time.
pub closed spec fn is_now(time: Seq<char>) -> bool {
    exists|now: String| #[trigger] call_ensures(utc_now, (), now) && now@ == time
}

/// The time by the machine's clock.
pub(crate) fn now() -> (time: String)
    ensures
        is_now(time@),
{
    utc_now()
}

/// A time that the clock gives reads back as a moment, unless its year has a sign.
pub proof fn now_is_readable(time: Seq<char>)
    requires
        is_now(time),
    ensures
        bindings::has_sign(time) || bindings::rfc3339_seconds(time) is Some,
{
}

}
