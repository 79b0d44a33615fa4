use vstd::prelude::*;

verus! {

/// The menu page and weekday index that show the day `diff` days after this week's Monday.
/// Days 0 to 6 are on this week's page, days 7 to 13 on next week's; weekends and days out
/// of that range have no menu.
pub fn menu_slot(diff: i64) -> (r: Option<(bool, usize)>)
    ensures
        r is Some <==> (0 <= diff < 14 && diff % 7 < 5),
        r matches Some((next_week, idx)) ==> next_week == (diff > 6) && idx == diff % 7,
{
    if diff < 0 || diff >= 14 {
        return None;
    }
    let idx = diff % 7;
    if idx >= 5 {
        None
    } else {
        Some((diff > 6, idx as usize))
    }
}

/// The slot of the day after today, where `day_n` numbers today's weekday from 1 (Monday) to
/// 7 (Sunday): on a weekend that is next Monday; after Friday there is none.
pub fn next_day_slot(day_n: u32) -> (r: Option<(bool, usize)>)
    requires
        1 <= day_n <= 7,
    ensures
        r is Some <==> day_n != 5,
        r matches Some((next_week, idx)) ==> next_week == (day_n > 5) && idx == (if day_n > 5 {
            0
        } else {
            day_n as int
        }),
{
    if day_n > 5 {
        Some((true, 0))
    } else if day_n == 5 {
        None
    } else {
        Some((false, day_n as usize))
    }
}

} // verus!
