//! The English description of a schedule.
use crate::cron::{ints, Pattern, Schedule, ScheduleView, Value};
use crate::parser::FieldKind;
use crate::text::{decimal, push_decimal};
use vstd::prelude::*;

verus! {

/// The English name of month `i`; any number outside 2-12 reads as January.
pub open spec fn month_name(i: int) -> Seq<char> {
    if i == 2 {
        "February"@
    } else if i == 3 {
        "March"@
    } else if i == 4 {
        "April"@
    } else if i == 5 {
        "May"@
    } else if i == 6 {
        "June"@
    } else if i == 7 {
        "July"@
    } else if i == 8 {
        "August"@
    } else if i == 9 {
        "September"@
    } else if i == 10 {
        "October"@
    } else if i == 11 {
        "November"@
    } else if i == 12 {
        "December"@
    } else {
        "January"@
    }
}

/// The English name of ISO weekday `i`; 0, 7 and any other number outside
/// 1-6 read as Sunday.
pub open spec fn weekday_name(i: int) -> Seq<char> {
    if i == 1 {
        "Monday"@
    } else if i == 2 {
        "Tuesday"@
    } else if i == 3 {
        "Wednesday"@
    } else if i == 4 {
        "Thursday"@
    } else if i == 5 {
        "Friday"@
    } else if i == 6 {
        "Saturday"@
    } else {
        "Sunday"@
    }
}

/// The ordinal prefix of a step, with its trailing space: empty for 1,
/// `2nd `, `3rd `, `11th `, `21st `, and so on.
pub open spec fn ordinal_text(n: int) -> Seq<char> {
    if n == 1 {
        Seq::empty()
    } else if n % 10 == 1 && n % 100 != 11 {
        decimal(n as nat) + "st "@
    } else if n % 10 == 2 && n % 100 != 12 {
        decimal(n as nat) + "nd "@
    } else if n % 10 == 3 && n % 100 != 13 {
        decimal(n as nat) + "rd "@
    } else {
        decimal(n as nat) + "th "@
    }
}

pub open spec fn optional_ordinal(step: Option<int>) -> Seq<char> {
    match step {
        Some(s) => ordinal_text(s),
        None => Seq::empty(),
    }
}

/// `items` joined by `, `.
pub open spec fn join_commas(items: Seq<Seq<char>>) -> Seq<char>
    decreases items.len(),
{
    if items.len() == 0 {
        Seq::empty()
    } else if items.len() == 1 {
        items[0]
    } else {
        join_commas(items.drop_last()) + ", "@ + items.last()
    }
}

/// `items` as an English enumeration with the serial comma: ``, `A`,
/// `A and B`, `A, B, and C`.
pub open spec fn oxford(items: Seq<Seq<char>>) -> Seq<char> {
    if items.len() == 0 {
        Seq::empty()
    } else if items.len() == 1 {
        items[0]
    } else if items.len() == 2 {
        items[0] + " and "@ + items[1]
    } else {
        join_commas(items.drop_last()) + ", and "@ + items.last()
    }
}

/// How a value of the field reads: a decimal, or a month or weekday name.
pub open spec fn item_name(kind: FieldKind, v: int) -> Seq<char> {
    match kind {
        FieldKind::Month => month_name(v),
        FieldKind::DayOfWeek => weekday_name(v),
        _ => decimal(v as nat),
    }
}

/// How the field's largest value reads.
pub open spec fn last_name(kind: FieldKind) -> Seq<char> {
    match kind {
        FieldKind::Minute => "59"@,
        FieldKind::Hour => "23"@,
        FieldKind::DayOfMonth => "31"@,
        FieldKind::Month => "December"@,
        FieldKind::DayOfWeek => "Sunday"@,
    }
}

pub open spec fn unit_name(kind: FieldKind) -> Seq<char> {
    match kind {
        FieldKind::Minute => "minute"@,
        FieldKind::Hour => "hour"@,
        FieldKind::DayOfMonth => "day-of-month"@,
        FieldKind::Month => "month"@,
        FieldKind::DayOfWeek => "day-of-week"@,
    }
}

/// The opening of a clause about several values of the field.
pub open spec fn every_lead(kind: FieldKind, prefix: Seq<char>) -> Seq<char> {
    match kind {
        FieldKind::Minute => "At every "@,
        FieldKind::Hour => " past every "@,
        FieldKind::DayOfMonth => " on every "@,
        FieldKind::Month => " in every "@,
        FieldKind::DayOfWeek => " "@ + prefix + "on every "@,
    }
}

/// The opening of a clause that names the field's values.
pub open spec fn single_lead(kind: FieldKind, prefix: Seq<char>) -> Seq<char> {
    match kind {
        FieldKind::Minute => "At minute "@,
        FieldKind::Hour => " past hour "@,
        FieldKind::DayOfMonth => " on day-of-month "@,
        FieldKind::Month => " in "@,
        FieldKind::DayOfWeek => " "@ + prefix + "on "@,
    }
}

/// The clause that describes field value `p` of kind `kind`; `prefix` goes
/// before the day-of-week conditions.
pub open spec fn clause(p: Pattern, kind: FieldKind, prefix: Seq<char>) -> Seq<char> {
    match p {
        Pattern::Step(start, s) => every_lead(kind, prefix) + ordinal_text(s) + unit_name(kind) + match start {
            Some(a) => " from "@ + item_name(kind, a) + " through "@ + last_name(kind),
            None => Seq::empty(),
        },
        Pattern::Range(a, b, step) => every_lead(kind, prefix) + optional_ordinal(step) + unit_name(kind) + " from "@
            + item_name(kind, a) + " through "@ + item_name(kind, b),
        Pattern::List(vs) => single_lead(kind, prefix) + oxford(vs.map_values(|v: int| item_name(kind, v))),
        Pattern::Single(v) => single_lead(kind, prefix) + item_name(kind, v),
        Pattern::Wildcard => if kind is Minute {
            "At every minute"@
        } else {
            Seq::empty()
        },
    }
}

/// What precedes the day-of-week conditions: they are an alternative when
/// the day of month is an open-ended step, an addition when it is otherwise
/// restricted.
pub open spec fn weekday_prefix(day_of_month: Pattern) -> Seq<char> {
    match day_of_month {
        Pattern::Step(None, _) => "if it's "@,
        Pattern::Wildcard => Seq::empty(),
        _ => "and "@,
    }
}

/// The sentence that describes a schedule.
pub open spec fn describe(s: ScheduleView) -> Seq<char> {
    clause(s.minute, FieldKind::Minute, Seq::empty()) + clause(s.hour, FieldKind::Hour, Seq::empty()) + clause(
        s.day_of_month,
        FieldKind::DayOfMonth,
        Seq::empty(),
    ) + clause(s.month, FieldKind::Month, Seq::empty()) + clause(
        s.day_of_week,
        FieldKind::DayOfWeek,
        weekday_prefix(s.day_of_month),
    ) + "."@
}

/// The English name of month `i`.
pub fn month_string(i: i32) -> (r: String)
    ensures
        r@ == month_name(i as int),
{
    if i == 2 {
        "February".to_owned()
    } else if i == 3 {
        "March".to_owned()
    } else if i == 4 {
        "April".to_owned()
    } else if i == 5 {
        "May".to_owned()
    } else if i == 6 {
        "June".to_owned()
    } else if i == 7 {
        "July".to_owned()
    } else if i == 8 {
        "August".to_owned()
    } else if i == 9 {
        "September".to_owned()
    } else if i == 10 {
        "October".to_owned()
    } else if i == 11 {
        "November".to_owned()
    } else if i == 12 {
        "December".to_owned()
    } else {
        "January".to_owned()
    }
}

/// The English name of ISO weekday `i`, reading 0 as Sunday.
pub fn day_of_week_string(i: i32) -> (r: String)
    ensures
        r@ == weekday_name(i as int),
{
    if i == 1 {
        "Monday".to_owned()
    } else if i == 2 {
        "Tuesday".to_owned()
    } else if i == 3 {
        "Wednesday".to_owned()
    } else if i == 4 {
        "Thursday".to_owned()
    } else if i == 5 {
        "Friday".to_owned()
    } else if i == 6 {
        "Saturday".to_owned()
    } else {
        "Sunday".to_owned()
    }
}

/// The decimal text of `i`.
pub fn decimal_string(i: i32) -> (r: String)
    requires
        i >= 0,
    ensures
        r@ == decimal(i as nat),
{
    let mut s = String::new();
    push_decimal(&mut s, i as u32);
    assert(s@ =~= decimal(i as nat));
    s
}

/// The ordinal prefix of a step: empty for 1, else `2nd `, `3rd `, `4th `, ...
pub fn ordinal(i: i32) -> (r: String)
    requires
        i >= 0,
    ensures
        r@ == ordinal_text(i as int),
{
    if i == 1 {
        return String::new();
    }
    let mut s = String::new();
    push_decimal(&mut s, i as u32);
    if i % 10 == 1 && i % 100 != 11 {
        s.append("st ");
    } else if i % 10 == 2 && i % 100 != 12 {
        s.append("nd ");
    } else if i % 10 == 3 && i % 100 != 13 {
        s.append("rd ");
    } else {
        s.append("th ");
    }
    s
}

/// Joins the texts of `vec`'s items, as `to_string` renders them, into an
/// English enumeration with the serial comma.
pub fn join_oxford<F: Fn(i32) -> String>(vec: &Vec<i32>, to_string: F) -> (r: String)
    requires
        forall|i: int| 0 <= i < vec.len() ==> to_string.requires((vec[i],)),
    ensures
        exists|parts: Seq<String>|
            {
                &&& parts.len() == vec.len()
                &&& forall|i: int| 0 <= i < vec.len() ==> to_string.ensures((vec[i],), #[trigger] parts[i])
                &&& r@ == oxford(parts.map_values(|p: String| p@))
            },
{
    let mut parts: Vec<String> = Vec::new();
    let mut i: usize = 0;
    while i < vec.len()
        invariant
            0 <= i <= vec.len(),
            parts.len() == i,
            forall|k: int| 0 <= k < vec.len() ==> to_string.requires((vec[k],)),
            forall|k: int| 0 <= k < i ==> to_string.ensures((vec[k],), #[trigger] parts@[k]),
        decreases vec.len() - i,
    {
        let p = to_string(vec[i]);
        parts.push(p);
        i = i + 1;
    }
    let ghost texts = parts@.map_values(|p: String| p@);
    let n = parts.len();
    let mut out = String::new();
    if n == 0 {
    } else if n == 1 {
        out.append(parts[0].as_str());
    } else if n == 2 {
        out.append(parts[0].as_str());
        out.append(" and ");
        out.append(parts[1].as_str());
    } else {
        let mut j: usize = 0;
        while j < n - 1
            invariant
                0 <= j <= n - 1,
                n == parts.len(),
                n >= 3,
                texts == parts@.map_values(|p: String| p@),
                out@ == join_commas(texts.take(j as int)),
            decreases n - 1 - j,
        {
            if j > 0 {
                out.append(", ");
            }
            out.append(parts[j].as_str());
            proof {
                let t = texts.take(j + 1);
                assert(t.drop_last() =~= texts.take(j as int));
                assert(t.last() == parts@[j as int]@);
                if j == 0 {
                    assert(out@ =~= join_commas(t));
                }
            }
            j = j + 1;
        }
        out.append(", and ");
        out.append(parts[n - 1].as_str());
        assert(texts.drop_last() =~= texts.take(n - 1));
    }
    assert(out@ =~= oxford(texts));
    out
}

/// The text of one value of the field.
fn item_string(kind: FieldKind, v: i32) -> (r: String)
    requires
        v >= 0,
    ensures
        r@ == item_name(kind, v as int),
{
    match kind {
        FieldKind::Month => month_string(v),
        FieldKind::DayOfWeek => day_of_week_string(v),
        _ => decimal_string(v),
    }
}

fn last_str(kind: FieldKind) -> (r: &'static str)
    ensures
        r@ == last_name(kind),
{
    match kind {
        FieldKind::Minute => "59",
        FieldKind::Hour => "23",
        FieldKind::DayOfMonth => "31",
        FieldKind::Month => "December",
        FieldKind::DayOfWeek => "Sunday",
    }
}

fn unit_str(kind: FieldKind) -> (r: &'static str)
    ensures
        r@ == unit_name(kind),
{
    match kind {
        FieldKind::Minute => "minute",
        FieldKind::Hour => "hour",
        FieldKind::DayOfMonth => "day-of-month",
        FieldKind::Month => "month",
        FieldKind::DayOfWeek => "day-of-week",
    }
}

fn push_every_lead(out: &mut String, kind: FieldKind, prefix: &str)
    ensures
        final(out)@ == old(out)@ + every_lead(kind, prefix@),
{
    let ghost start = out@;
    match kind {
        FieldKind::Minute => out.append("At every "),
        FieldKind::Hour => out.append(" past every "),
        FieldKind::DayOfMonth => out.append(" on every "),
        FieldKind::Month => out.append(" in every "),
        FieldKind::DayOfWeek => {
            out.append(" ");
            out.append(prefix);
            out.append("on every ");
        },
    }
    assert(out@ =~= start + every_lead(kind, prefix@));
}

fn push_single_lead(out: &mut String, kind: FieldKind, prefix: &str)
    ensures
        final(out)@ == old(out)@ + single_lead(kind, prefix@),
{
    let ghost start = out@;
    match kind {
        FieldKind::Minute => out.append("At minute "),
        FieldKind::Hour => out.append(" past hour "),
        FieldKind::DayOfMonth => out.append(" on day-of-month "),
        FieldKind::Month => out.append(" in "),
        FieldKind::DayOfWeek => {
            out.append(" ");
            out.append(prefix);
            out.append("on ");
        },
    }
    assert(out@ =~= start + single_lead(kind, prefix@));
}

/// The values of `vs` as an English enumeration.
fn oxford_items(vs: &Vec<i32>, kind: FieldKind) -> (r: String)
    requires
        forall|i: int| 0 <= i < vs.len() ==> vs[i] >= 0,
    ensures
        r@ == oxford(ints(vs@).map_values(|v: int| item_name(kind, v))),
{
    if kind == FieldKind::Month {
    let joined = join_oxford(vs, month_string);
    proof {
        let parts = choose|parts: Seq<String>|
            {
                &&& parts.len() == vs.len()
                &&& forall|i: int| 0 <= i < vs.len() ==> call_ensures(month_string, (vs[i],), #[trigger] parts[i])
                &&& joined@ == oxford(parts.map_values(|p: String| p@))
            };
        assert(parts.map_values(|p: String| p@) =~= ints(vs@).map_values(|v: int| item_name(kind, v)));
    }
    joined
    } else if kind == FieldKind::DayOfWeek {
    let joined = join_oxford(vs, day_of_week_string);
    proof {
        let parts = choose|parts: Seq<String>|
            {
                &&& parts.len() == vs.len()
                &&& forall|i: int| 0 <= i < vs.len() ==> call_ensures(day_of_week_string, (vs[i],), #[trigger] parts[i])
                &&& joined@ == oxford(parts.map_values(|p: String| p@))
            };
        assert(parts.map_values(|p: String| p@) =~= ints(vs@).map_values(|v: int| item_name(kind, v)));
    }
    joined
    } else {
    let joined = join_oxford(vs, decimal_string);
    proof {
        let parts = choose|parts: Seq<String>|
            {
                &&& parts.len() == vs.len()
                &&& forall|i: int| 0 <= i < vs.len() ==> call_ensures(decimal_string, (vs[i],), #[trigger] parts[i])
                &&& joined@ == oxford(parts.map_values(|p: String| p@))
            };
        assert(parts.map_values(|p: String| p@) =~= ints(vs@).map_values(|v: int| item_name(kind, v)));
    }
    joined
    }
}

/// Appends the clause that describes `value`, a field of kind `kind`.
fn push_clause(out: &mut String, value: &Value, kind: FieldKind, prefix: &str)
    requires
        value@.wf(kind.lo(), kind.hi()),
    ensures
        final(out)@ == old(out)@ + clause(value@, kind, prefix@),
{
    let ghost start = out@;
    match value {
        Value::Step(start_value, step) => {
            push_every_lead(out, kind, prefix);
            let ord = ordinal(*step);
            out.append(ord.as_str());
            out.append(unit_str(kind));
            match start_value {
                Some(a) => {
                    out.append(" from ");
                    let name = item_string(kind, *a);
                    out.append(name.as_str());
                    out.append(" through ");
                    out.append(last_str(kind));
                },
                None => {},
            }
        },
        Value::Range(a, b, step) => {
            push_every_lead(out, kind, prefix);
            match step {
                Some(s) => {
                    let ord = ordinal(*s);
                    out.append(ord.as_str());
                },
                None => {},
            }
            out.append(unit_str(kind));
            out.append(" from ");
            let first = item_string(kind, *a);
            out.append(first.as_str());
            out.append(" through ");
            let last = item_string(kind, *b);
            out.append(last.as_str());
        },
        Value::List(vs) => {
            push_single_lead(out, kind, prefix);
            assert forall|i: int| 0 <= i < vs.len() implies vs[i] >= 0 by {
                assert(ints(vs@)[i] == vs@[i] as int);
            }
            let joined = oxford_items(vs, kind);
            out.append(joined.as_str());
        },
        Value::Single(v) => {
            push_single_lead(out, kind, prefix);
            let name = item_string(kind, *v);
            out.append(name.as_str());
        },
        Value::Wildcard => {
            if kind == FieldKind::Minute {
                out.append("At every minute");
            }
        },
    }
    assert(out@ =~= start + clause(value@, kind, prefix@));
}

/// The English sentence that describes `schedule`.
pub fn human_readable(schedule: &Schedule) -> (r: String)
    requires
        schedule.wf(),
    ensures
        r@ == describe(schedule@),
{
    proof {
        reveal_strlit("");
    }
    let mut result = String::new();
    push_clause(&mut result, &schedule.minute.value, FieldKind::Minute, "");
    push_clause(&mut result, &schedule.hour.value, FieldKind::Hour, "");
    push_clause(&mut result, &schedule.day_of_month.value, FieldKind::DayOfMonth, "");
    push_clause(&mut result, &schedule.month.value, FieldKind::Month, "");
    let prefix = match &schedule.day_of_month.value {
        Value::Step(None, _) => "if it's ",
        Value::Wildcard => "",
        _ => "and ",
    };
    push_clause(&mut result, &schedule.day_of_week.value, FieldKind::DayOfWeek, prefix);
    result.append(".");
    assert(result@ =~= describe(schedule@));
    result
}

} // verus!
