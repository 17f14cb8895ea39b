//! Metric naming shared by every binary.

use vstd::prelude::*;

verus! {

/// The prefix every hand-emitted metric name carries.
pub open spec fn metric_prefix() -> Seq<char> {
    seq!['n', 'r', '_', 's', 't', 'a', 't', 'u', 's', '_']
}

/// Builds a metric's full name: the shared `nr_status_` prefix followed by
/// `suffix`, which is never inspected (an already prefixed suffix gets the
/// prefix a second time).
pub fn metric_name(suffix: &str) -> (name: String)
    ensures
        name@ == metric_prefix() + suffix@,
{
    let prefix = String::from_str("nr_status_");
    proof {
        reveal_strlit("nr_status_");
    }
    let name = prefix.concat(suffix);
    name
}

} // verus!
