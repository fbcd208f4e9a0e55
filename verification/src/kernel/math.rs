//! Contract durations.

use vstd::prelude::*;

verus! {

/// The correlation group of a contract duration.
pub open spec fn duration_group(minutes: int) -> Seq<char> {
    if minutes <= 5 {
        "5m"@
    } else if minutes <= 15 {
        "15m"@
    } else if minutes <= 60 {
        "1h"@
    } else if minutes <= 240 {
        "4h"@
    } else if minutes <= 1440 {
        "daily"@
    } else {
        "weekly"@
    }
}

/// Maps a contract duration to its correlation group. Positions on the same oracle in the same
/// group are correlated.
pub fn correlation_group(duration_minutes: i64) -> (r: &'static str)
    ensures
        r@ == duration_group(duration_minutes as int),
{
    if duration_minutes <= 5 {
        "5m"
    } else if duration_minutes <= 15 {
        "15m"
    } else if duration_minutes <= 60 {
        "1h"
    } else if duration_minutes <= 240 {
        "4h"
    } else if duration_minutes <= 1440 {
        "daily"
    } else {
        "weekly"
    }
}

/// Durations of up to five minutes, a quarter of an hour, an hour, four hours and a day are a group
/// each, and all longer ones are another.
pub proof fn groups_split_at_their_names(minutes: int)
    ensures
        (minutes <= 5) <==> duration_group(minutes) == "5m"@,
        (5 < minutes <= 15) <==> duration_group(minutes) == "15m"@,
        (15 < minutes <= 60) <==> duration_group(minutes) == "1h"@,
        (60 < minutes <= 4 * 60) <==> duration_group(minutes) == "4h"@,
        (4 * 60 < minutes <= 24 * 60) <==> duration_group(minutes) == "daily"@,
        minutes > 24 * 60 <==> duration_group(minutes) == "weekly"@,
{
    reveal_strlit("5m");
    reveal_strlit("15m");
    reveal_strlit("1h");
    reveal_strlit("4h");
    reveal_strlit("daily");
    reveal_strlit("weekly");
    assert("5m"@[0] == '5' && "1h"@[0] == '1' && "4h"@[0] == '4');
    assert("5m"@.len() == 2 && "15m"@.len() == 3 && "1h"@.len() == 2 && "4h"@.len() == 2);
    assert("daily"@.len() == 5 && "weekly"@.len() == 6);
}

} // verus!
