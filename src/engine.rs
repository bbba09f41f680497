//! The next-occurrence engine: per-field lookups and the calendar search.
use crate::calendar::{
    key_of, lemma_after_day, lemma_in_month, lemma_on_day, lemma_weekday_later_in_month, max_days,
    month_length, weekday_after, weekday_of, DateTime, MAX_YEAR,
};
use crate::cron::{in_progression, ints, Pattern, Schedule, ScheduleView, Value};
use vstd::arithmetic::div_mod::{
    lemma_fundamental_div_mod, lemma_mod_add_multiples_vanish, lemma_small_mod,
};
use vstd::prelude::*;

verus! {

/// Two members of one progression lie at least one step apart.
proof fn lemma_progression_gap(start: int, step: int, x: int, y: int)
    requires
        step > 0,
        (x - start) % step == 0,
        (y - start) % step == 0,
        x <= y < x + step,
    ensures
        x == y,
{
    let a = x - start;
    let b = y - start;
    lemma_fundamental_div_mod(a, step);
    lemma_fundamental_div_mod(b, step);
    let q = b / step - a / step;
    assert(b - a == step * q) by (nonlinear_arith)
        requires
            a == step * (a / step) + 0,
            b == step * (b / step) + 0,
            q == b / step - a / step,
    ;
    assert(q == 0) by (nonlinear_arith)
        requires
            step * q >= 0,
            step * q < step,
            step > 0,
    ;
}

/// The smallest member of the progression `start, start + step, ...` (up to
/// `stop`) that is at least `current`, if any.
fn next_in_progression(current: i32, start: i32, stop: i32, step: i32) -> (r: Option<i32>)
    requires
        0 <= start <= 59,
        stop <= 59,
        1 <= step <= 59,
        0 <= current <= 60,
    ensures
        match r {
            Some(x) => {
                &&& current <= x
                &&& in_progression(x as int, start as int, stop as int, step as int)
                &&& forall|y: int|
                    current <= y < x ==> !in_progression(y, start as int, stop as int, step as int)
            },
            None => forall|y: int|
                current <= y ==> !in_progression(y, start as int, stop as int, step as int),
        },
{
    let mut x = start;
    proof {
        lemma_small_mod(0, step as nat);
    }
    while x < current && x <= stop
        invariant
            0 <= start <= x <= 59 + step,
            stop <= 59,
            1 <= step <= 59,
            0 <= current <= 60,
            (x - start) % (step as int) == 0,
            forall|y: int|
                in_progression(y, start as int, stop as int, step as int) && y < x ==> y < current,
        decreases 120 - x,
    {
        proof {
            lemma_mod_add_multiples_vanish(x - start, step as int);
            assert forall|y: int|
                in_progression(y, start as int, stop as int, step as int) && y < x + step implies y
                < current by {
                if y >= x {
                    lemma_progression_gap(start as int, step as int, x as int, y);
                }
            }
        }
        x = x + step;
    }
    if x <= stop {
        Some(x)
    } else {
        None
    }
}

/// The smallest member of `vs` within `[lo, hi]`, if any.
fn least_within(vs: &Vec<i32>, lo: i32, hi: i32) -> (r: Option<i32>)
    ensures
        match r {
            Some(x) => {
                &&& lo <= x <= hi
                &&& ints(vs@).contains(x as int)
                &&& forall|y: int| lo <= y < x ==> !ints(vs@).contains(y)
            },
            None => forall|y: int| lo <= y <= hi ==> !ints(vs@).contains(y),
        },
{
    let mut best: Option<i32> = None;
    let mut i: usize = 0;
    while i < vs.len()
        invariant
            0 <= i <= vs.len(),
            match best {
                Some(x) => {
                    &&& lo <= x <= hi
                    &&& ints(vs@).contains(x as int)
                    &&& forall|j: int| 0 <= j < i && lo <= #[trigger] vs@[j] ==> x <= vs@[j]
                },
                None => forall|j: int| 0 <= j < i ==> !(lo <= #[trigger] vs@[j] <= hi),
            },
        decreases vs.len() - i,
    {
        let v = vs[i];
        assert(ints(vs@)[i as int] == v as int);
        if lo <= v && v <= hi {
            match best {
                Some(x) => {
                    if v < x {
                        best = Some(v);
                    }
                },
                None => {
                    best = Some(v);
                },
            }
        }
        i = i + 1;
    }
    proof {
        match best {
            Some(x) => {
                assert forall|y: int| lo <= y < x implies !ints(vs@).contains(y) by {
                    if ints(vs@).contains(y) {
                        let j = choose|j: int| 0 <= j < ints(vs@).len() && ints(vs@)[j] == y;
                        assert(vs@[j] as int == y);
                    }
                }
            },
            None => {
                assert forall|y: int| lo <= y <= hi implies !ints(vs@).contains(y) by {
                    if ints(vs@).contains(y) {
                        let j = choose|j: int| 0 <= j < ints(vs@).len() && ints(vs@)[j] == y;
                        assert(vs@[j] as int == y);
                    }
                }
            },
        }
    }
    best
}

/// `r` is the lookup's answer for field value `p` in `[min, max]` from
/// `current` on.
pub open spec fn next_value_post(current: int, min: int, max: int, p: Pattern, r: (i32, bool)) -> bool {
    &&& min <= r.0 <= max
    &&& forall|x: int| current <= x < r.0 ==> !p.matches(x, min, max)
    &&& !r.1 ==> current <= r.0 && p.matches(r.0 as int, min, max)
    &&& r.1 ==> forall|x: int| current <= x <= max ==> !p.matches(x, min, max)
    &&& r.1 ==> forall|x: int| min <= x < r.0 ==> !p.matches(x, min, max)
    &&& r.1 ==> p.matches(r.0 as int, min, max) || forall|x: int| min <= x <= max ==> !p.matches(x, min, max)
}

/// The smallest value at least `current` that `value` matches in `[min, max]`,
/// paired with `false`; when there is none, the smallest value it matches in
/// `[min, max]` (or `min` if it matches none there), paired with `true`.
pub fn next_value(current: i32, min: i32, max: i32, value: &Value) -> (r: (i32, bool))
    requires
        0 <= min <= max <= 59,
        min <= current <= max + 1,
        value@.wf(min as int, 59),
    ensures
        next_value_post(current as int, min as int, max as int, value@, r),
{
    match value {
        Value::Wildcard => {
            if current <= max {
                (current, false)
            } else {
                (min, true)
            }
        },
        Value::Single(v) => {
            let v = *v;
            if current <= v && v <= max {
                (v, false)
            } else if v <= max {
                (v, true)
            } else {
                (min, true)
            }
        },
        Value::List(vs) => {
            assert(forall|x: int| (value@.matches(x, min as int, max as int) <==> ints(vs@).contains(x)));
            let r = match least_within(vs, current, max) {
                Some(x) => (x, false),
                None => match least_within(vs, min, max) {
                    Some(x) => (x, true),
                    None => (min, true),
                },
            };
            r
        },
        Value::Range(a, b, step) => {
            let s = match step {
                Some(s) => *s,
                None => 1,
            };
            let stop = if *b < max {
                *b
            } else {
                max
            };
            proof {
                lemma_small_mod(0, s as nat);
            }
            assert(forall|x: int| x <= max ==> (value@.matches(x, min as int, max as int) <==> in_progression(x, *a as int, stop as int, s as int)));
            let r = match next_in_progression(current, *a, stop, s) {
                Some(x) => (x, false),
                None => {
                    if *a <= max {
                        (*a, true)
                    } else {
                        (min, true)
                    }
                },
            };
            assert forall|x: int|
                current <= x <= max && #[trigger] value@.matches(x, min as int, max as int) implies !r.1
                && r.0 <= x by {
                assert(in_progression(x, *a as int, stop as int, s as int));
            }
            r
        },
        Value::Step(start, step) => {
            let a = match start {
                Some(a) => *a,
                None => min,
            };
            proof {
                lemma_small_mod(0, *step as nat);
            }
            assert(forall|x: int| (value@.matches(x, min as int, max as int) <==> in_progression(x, a as int, max as int, *step as int)));
            let r = match next_in_progression(current, a, max, *step) {
                Some(x) => (x, false),
                None => {
                    if a <= max {
                        (a, true)
                    } else {
                        (min, true)
                    }
                },
            };
            r
        },
    }
}

/// Whether `value` matches `x` when its domain is `[lo, hi]`.
fn matches_value(value: &Value, x: i32, lo: i32, hi: i32) -> (r: bool)
    requires
        0 <= lo <= hi <= 59,
        0 <= x <= 60,
        value@.wf(lo as int, 59),
    ensures
        r == value@.matches(x as int, lo as int, hi as int),
{
    match value {
        Value::Wildcard => lo <= x && x <= hi,
        Value::Single(v) => x == *v,
        Value::List(vs) => {
            let mut i: usize = 0;
            while i < vs.len()
                invariant
                    0 <= i <= vs.len(),
                    value@ == Pattern::List(ints(vs@)),
                    forall|j: int| 0 <= j < i ==> vs@[j] != x,
                decreases vs.len() - i,
            {
                if vs[i] == x {
                    assert(ints(vs@)[i as int] == x as int);
                    assert(ints(vs@).contains(x as int));
                    return true;
                }
                i = i + 1;
            }
            proof {
                if ints(vs@).contains(x as int) {
                    let j = choose|j: int| 0 <= j < ints(vs@).len() && ints(vs@)[j] == x as int;
                    assert(vs@[j] == x);
                }
            }
            false
        },
        Value::Range(a, b, step) => {
            let s = match step {
                Some(s) => *s,
                None => 1,
            };
            *a <= x && x <= *b && (x - *a) % s == 0
        },
        Value::Step(start, step) => {
            let a = match start {
                Some(a) => *a,
                None => lo,
            };
            a <= x && x <= hi && (x - a) % *step == 0
        },
    }
}

/// Whether the day-of-week field accepts ISO weekday `w`.
fn weekday_accepted(schedule: &Schedule, w: u8) -> (r: bool)
    requires
        schedule.wf(),
        1 <= w <= 7,
    ensures
        r == schedule@.weekday_matches(w as int),
{
    matches_value(&schedule.day_of_week.value, w as i32, 0, 7) || (w == 7 && matches_value(
        &schedule.day_of_week.value,
        0,
        0,
        7,
    ))
}

/// The first day from `t`'s day to the end of its month whose weekday the
/// day-of-week field accepts, paired with `false`; paired with `true` when
/// none of those days qualifies.
fn next_day_of_week(t: &DateTime, schedule: &Schedule) -> (r: (u8, bool))
    requires
        t.wf(),
        schedule.wf(),
    ensures
        !r.1 ==> {
            &&& t.day <= r.0 <= month_length(t.year as int, t.month as int)
            &&& schedule@.weekday_matches(weekday_of(t.year as int, t.month as int, r.0 as int))
            &&& forall|j: int|
                t.day <= j < r.0 ==> !schedule@.weekday_matches(
                    weekday_of(t.year as int, t.month as int, j),
                )
        },
        r.1 ==> forall|j: int|
            t.day <= j <= month_length(t.year as int, t.month as int) ==> !schedule@.weekday_matches(
                weekday_of(t.year as int, t.month as int, j),
            ),
{
    let ghost (y, m, d) = (t.year as int, t.month as int, t.day as int);
    let w = t.weekday_number();
    let last = max_days(t.year, t.month);
    let mut k: u8 = 0;
    while k < 7
        invariant
            0 <= k <= 7,
            1 <= w <= 7,
            w as int == weekday_of(y, m, d),
            forall|i: int| 0 <= i < k ==> !schedule@.weekday_matches(#[trigger] weekday_after(w as int, i)),
            t.wf(),
            schedule.wf(),
            y == t.year,
            m == t.month,
            d == t.day,
            last as int == month_length(y, m),
        decreases 7 - k,
    {
        let wk = (w - 1 + k) % 7 + 1;
        assert(wk as int == weekday_after(w as int, k as int));
        if weekday_accepted(schedule, wk) {
            proof {
                assert forall|j: int| d <= j < d + k implies !schedule@.weekday_matches(
                    weekday_of(y, m, j),
                ) by {
                    lemma_weekday_later_in_month(y, m, d, j - d);
                }
                lemma_weekday_later_in_month(y, m, d, k as int);
            }
            if t.day + k <= last {
                return (t.day + k, false);
            } else {
                return (t.day, true);
            }
        }
        k = k + 1;
    }
    proof {
        assert forall|j: int| d <= j <= month_length(y, m) implies !schedule@.weekday_matches(
            weekday_of(y, m, j),
        ) by {
            lemma_weekday_later_in_month(y, m, d, j - d);
            vstd::arithmetic::div_mod::lemma_mod_bound(j - d, 7);
            assert(!schedule@.weekday_matches(weekday_after(w as int, (j - d) % 7)));
        }
    }
    (t.day, true)
}

/// Within one month, matching against the month's own length or against
/// the whole day-of-month domain agrees.
proof fn lemma_day_domain(p: Pattern, x: int, last: int)
    requires
        1 <= x <= last <= 31,
    ensures
        p.matches(x, 1, last) == p.matches(x, 1, 31),
{
}

/// The first day from `t`'s day to the end of its month that the
/// day-of-month field matches, paired with `false`; paired with `true` when
/// none of those days qualifies.
fn next_day_of_month(t: &DateTime, schedule: &Schedule) -> (r: (u8, bool))
    requires
        t.wf(),
        schedule.wf(),
    ensures
        !r.1 ==> {
            &&& t.day <= r.0 <= month_length(t.year as int, t.month as int)
            &&& schedule@.day_of_month.matches(r.0 as int, 1, 31)
            &&& forall|j: int| t.day <= j < r.0 ==> !schedule@.day_of_month.matches(j, 1, 31)
        },
        r.1 ==> forall|j: int|
            t.day <= j <= month_length(t.year as int, t.month as int)
                ==> !schedule@.day_of_month.matches(j, 1, 31),
{
    let last = max_days(t.year, t.month);
    let (day, wrapped) = next_value(t.day as i32, 1, last as i32, &schedule.day_of_month.value);
    proof {
        assert forall|j: int| 1 <= j <= last implies schedule@.day_of_month.matches(j, 1, last as int)
            == schedule@.day_of_month.matches(j, 1, 31) by {
            lemma_day_domain(schedule@.day_of_month, j, last as int);
        }
    }
    (day as u8, wrapped)
}

/// The first day from `t`'s day to the end of its month on which the
/// schedule may fire, paired with `false`; paired with `true` when none of
/// those days qualifies. When both day fields are restricted, each yields a
/// candidate and the nearer one wins; a candidate past the month's end is
/// never nearer than one within it.
fn next_day(t: &DateTime, schedule: &Schedule) -> (r: (u8, bool))
    requires
        t.wf(),
        schedule.wf(),
    ensures
        !r.1 ==> {
            &&& t.day <= r.0 <= month_length(t.year as int, t.month as int)
            &&& schedule@.day_matches(t.year as int, t.month as int, r.0 as int)
            &&& forall|j: int|
                t.day <= j < r.0 ==> !schedule@.day_matches(t.year as int, t.month as int, j)
        },
        r.1 ==> forall|j: int|
            t.day <= j <= month_length(t.year as int, t.month as int) ==> !schedule@.day_matches(
                t.year as int,
                t.month as int,
                j,
            ),
{
    let by_month_wild = match schedule.day_of_month.value {
        Value::Wildcard => true,
        _ => false,
    };
    let by_week_wild = match schedule.day_of_week.value {
        Value::Wildcard => true,
        _ => false,
    };
    if by_month_wild {
        next_day_of_week(t, schedule)
    } else if by_week_wild {
        next_day_of_month(t, schedule)
    } else {
        let (by_week, week_wrapped) = next_day_of_week(t, schedule);
        let (by_month, month_wrapped) = next_day_of_month(t, schedule);
        if !week_wrapped && (month_wrapped || by_week < by_month) {
            (by_week, false)
        } else if !month_wrapped {
            (by_month, false)
        } else {
            (t.day, true)
        }
    }
}

/// Why a search for the next firing failed.
#[derive(Clone, Copy, Debug, PartialEq, Eq, Structural)]
pub enum EngineError {
    /// The next firing would lie after the last supported day.
    OutOfCalendarRange,
}

/// The key of the first minute at which a search from `from` may fire: the
/// minute after the one that holds `from`.
pub open spec fn start_key(from: DateTime) -> int {
    from.key() + 1
}

/// `t` is the earliest instant, from the minute at which a search from `from`
/// starts, at which `s` fires.
pub open spec fn is_next_occurrence(s: ScheduleView, from: DateTime, t: DateTime) -> bool {
    &&& t.wf()
    &&& t.second == 0
    &&& t.offset_seconds == from.offset_seconds
    &&& s.matches(t)
    &&& start_key(from) <= t.key()
    &&& forall|u: DateTime| u.wf() && start_key(from) <= u.key() < t.key() ==> !#[trigger] s.matches(u)
}

/// `s` fires at no supported instant from the minute at which a search from
/// `from` starts.
pub open spec fn never_fires_from(s: ScheduleView, from: DateTime) -> bool {
    forall|u: DateTime| u.wf() && start_key(from) <= u.key() ==> !#[trigger] s.matches(u)
}

/// The earliest instant strictly after the start of `from_time`'s minute at
/// which `schedule` fires; an error when there is none up to the last
/// supported day.
pub fn next_occurrence(from_time: DateTime, schedule: &Schedule) -> (r: Result<DateTime, EngineError>)
    requires
        from_time.wf(),
        schedule.wf(),
    ensures
        match r {
            Ok(t) => is_next_occurrence(schedule@, from_time, t),
            Err(_) => never_fires_from(schedule@, from_time),
        },
{
    let ghost s = schedule@;
    let ghost start = start_key(from_time);
    let minute_start = DateTime { second: 0, ..from_time };
    let mut cur = match minute_start.next_minute() {
        Some(n) => n,
        None => {
            return Err(EngineError::OutOfCalendarRange);
        },
    };
    loop
        invariant
            from_time.wf(),
            schedule.wf(),
            s == schedule@,
            start == start_key(from_time),
            cur.wf(),
            cur.second == 0,
            cur.offset_seconds == from_time.offset_seconds,
            start <= cur.key(),
            forall|u: DateTime| u.wf() && start <= u.key() < cur.key() ==> !#[trigger] s.matches(u),
        decreases key_of(MAX_YEAR + 1, 1, 1, 0, 0) - cur.key(),
    {
        let ghost (y, m, d, h) = (cur.year as int, cur.month as int, cur.day as int, cur.hour as int);
        // Month: the first matching month from the current one, maybe next year.
        let (month, wrapped) = next_value(cur.month as i32, 1, 12, &schedule.month.value);
        if wrapped || month != cur.month as i32 {
            if wrapped && cur.year == MAX_YEAR {
                proof {
                    assert forall|u: DateTime|
                        u.wf() && start <= u.key() implies !#[trigger] s.matches(u) by {
                        if u.key() >= cur.key() {
                            lemma_in_month(u, y, u.month as int);
                        }
                    }
                }
                return Err(EngineError::OutOfCalendarRange);
            }
            let year = if wrapped {
                cur.year + 1
            } else {
                cur.year
            };
            let next = DateTime {
                year,
                month: month as u8,
                day: 1,
                hour: 0,
                minute: 0,
                second: 0,
                offset_seconds: cur.offset_seconds,
            };
            proof {
                assert forall|u: DateTime|
                    u.wf() && cur.key() <= u.key() < next.key() implies !#[trigger] s.matches(u) by {
                    assert(u.year == y || u.year == y + 1);
                }
            }
            cur = next;
            continue;
        }
        // Day: by day of month, by day of week, or by either.
        let (day, wrapped) = next_day(&cur, schedule);
        if wrapped {
            let ghost last = month_length(y, m);
            proof {
                assert forall|u: DateTime|
                    u.wf() && cur.key() <= u.key() < key_of(y, m, last + 1, 0, 0) implies !#[trigger] s.matches(u) by {
                    lemma_in_month(u, y, m);
                }
            }
            match cur.next_month_start() {
                Some(n) => {
                    cur = n;
                    continue;
                },
                None => {
                    return Err(EngineError::OutOfCalendarRange);
                },
            }
        }
        if day != cur.day {
            let next = DateTime { day, hour: 0, minute: 0, second: 0, ..cur };
            proof {
                assert forall|u: DateTime|
                    u.wf() && cur.key() <= u.key() < next.key() implies !#[trigger] s.matches(u) by {
                    lemma_in_month(u, y, m);
                }
            }
            cur = next;
            continue;
        }
        // Hour: the first matching hour from the current one, maybe tomorrow.
        let (hour, wrapped) = next_value(cur.hour as i32, 0, 23, &schedule.hour.value);
        if wrapped {
            proof {
                assert forall|u: DateTime|
                    u.wf() && cur.key() <= u.key() < key_of(y, m, d + 1, 0, 0) implies !#[trigger] s.matches(u) by {
                    lemma_on_day(u, y, m, d);
                }
            }
            match cur.next_day_at(hour as u8) {
                Some(n) => {
                    proof {
                        assert forall|u: DateTime|
                            u.wf() && cur.key() <= u.key() < n.key() implies !#[trigger] s.matches(u) by {
                            if u.key() >= key_of(y, m, d + 1, 0, 0) {
                                lemma_after_day(u, y, m, d);
                                lemma_on_day(u, n.year as int, n.month as int, n.day as int);
                            }
                        }
                    }
                    cur = n;
                    continue;
                },
                None => {
                    proof {
                        assert forall|u: DateTime|
                            u.wf() && start <= u.key() implies !#[trigger] s.matches(u) by {
                            if u.key() >= key_of(y, m, d + 1, 0, 0) {
                                lemma_after_day(u, y, m, d);
                            }
                        }
                    }
                    return Err(EngineError::OutOfCalendarRange);
                },
            }
        }
        if hour != cur.hour as i32 {
            let next = DateTime { hour: hour as u8, minute: 0, second: 0, ..cur };
            proof {
                assert forall|u: DateTime|
                    u.wf() && cur.key() <= u.key() < next.key() implies !#[trigger] s.matches(u) by {
                    lemma_on_day(u, y, m, d);
                }
            }
            cur = next;
            continue;
        }
        // Minute: the first matching minute from the current one, maybe in the next hour.
        let (minute, wrapped) = next_value(cur.minute as i32, 0, 59, &schedule.minute.value);
        if wrapped {
            proof {
                assert forall|u: DateTime|
                    u.wf() && cur.key() <= u.key() < key_of(y, m, d, h + 1, 0) implies !#[trigger] s.matches(u) by {
                    lemma_on_day(u, y, m, d);
                }
            }
            match cur.next_hour_at(minute as u8) {
                Some(n) => {
                    proof {
                        assert forall|u: DateTime|
                            u.wf() && cur.key() <= u.key() < n.key() implies !#[trigger] s.matches(u) by {
                            if u.key() >= key_of(y, m, d, h + 1, 0) {
                                lemma_on_day(u, n.year as int, n.month as int, n.day as int);
                            }
                        }
                    }
                    cur = n;
                    continue;
                },
                None => {
                    return Err(EngineError::OutOfCalendarRange);
                },
            }
        }
        if minute != cur.minute as i32 {
            let next = DateTime { minute: minute as u8, second: 0, ..cur };
            proof {
                assert forall|u: DateTime|
                    u.wf() && cur.key() <= u.key() < next.key() implies !#[trigger] s.matches(u) by {
                    lemma_on_day(u, y, m, d);
                }
            }
            cur = next;
            continue;
        }
        return Ok(cur);
    }
}

} // verus!
