//! The calendar year of the machine's clock.

use chrono::Datelike;
use vstd::prelude::*;

verus! {

/// `chrono::Utc::now` followed by `Datelike::year`: the calendar year of the
/// current moment in UTC. The result depends on the machine's clock, so
/// nothing is promised of it. `Utc::now` panics on a machine whose clock
/// stands before 1970.
#[verifier::external_body]
pub(crate) fn current_year() -> (year: i32) {
    chrono::Utc::now().year()
}

} // verus!
