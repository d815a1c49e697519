//! Calendar days of instants, as `jiff` renders them.

use vstd::prelude::*;

verus! {

/// The smallest second `jiff` represents as a timestamp.
pub const MIN_SECOND: i64 = -377705023201;

/// The largest second `jiff` represents as a timestamp.
pub const MAX_SECOND: i64 = 253402207200;

/// Whether `second` and `nanosecond` make an instant `jiff::Timestamp::new` accepts.
pub open spec fn valid_instant(second: i64, nanosecond: i32) -> bool {
    &&& MIN_SECOND <= second <= MAX_SECOND
    &&& -999_999_999 <= nanosecond <= 999_999_999
    &&& (second == MIN_SECOND ==> nanosecond >= 0)
}

/// The UTC calendar day of an instant, written `YYYY-MM-DD` by `jiff`'s `strftime`.
pub uninterp spec fn utc_day(second: i64, nanosecond: i32) -> Seq<char>;

/// `jiff::Timestamp::new` followed by `strftime("%Y-%m-%d")`: the UTC calendar day of the
/// instant. Its result is named `utc_day` of the same instant and nothing more is claimed.
#[verifier::external_body]
pub(crate) fn day_of(second: i64, nanosecond: i32) -> (d: String)
    requires
        valid_instant(second, nanosecond),
    ensures
        d@ == utc_day(second, nanosecond),
{
    match jiff::Timestamp::new(second, nanosecond) {
        Ok(t) => t.strftime("%Y-%m-%d").to_string(),
        Err(_) => String::new(),
    }
}

} // verus!
