//! The schedule model: five field values and what each of them matches.
use crate::calendar::{weekday_of, DateTime};
use crate::parser::{
    lemma_parsed_wf, parse_field, parse_field_text, parse_value, ErrorKind, FieldKind, ParseError,
    ParseErrorView,
};
use crate::text::{chars_of, decimal, push_decimal, word_bounds, words};
use vstd::prelude::*;

verus! {

/// The mathematical content of a field value.
pub enum Pattern {
    Wildcard,
    Single(int),
    List(Seq<int>),
    Range(int, int, Option<int>),
    Step(Option<int>, int),
}

/// Whether `x` is one of `start`, `start + step`, ... that do not exceed `stop`.
pub open spec fn in_progression(x: int, start: int, stop: int, step: int) -> bool {
    start <= x <= stop && (x - start) % step == 0
}

pub open spec fn step_or_one(step: Option<int>) -> int {
    match step {
        Some(s) => s,
        None => 1,
    }
}

impl Pattern {
    /// Whether the field matches `x` when its domain is `[lo, hi]`.
    pub open spec fn matches(self, x: int, lo: int, hi: int) -> bool {
        match self {
            Pattern::Wildcard => lo <= x <= hi,
            Pattern::Single(v) => x == v,
            Pattern::List(vs) => vs.contains(x),
            Pattern::Range(a, b, step) => in_progression(x, a, b, step_or_one(step)),
            Pattern::Step(start, step) => match start {
                Some(a) => in_progression(x, a, hi, step),
                None => in_progression(x, lo, hi, step),
            },
        }
    }

    /// The shape invariants, with every number inside the domain `[lo, hi]`.
    pub open spec fn wf(self, lo: int, hi: int) -> bool {
        match self {
            Pattern::Wildcard => true,
            Pattern::Single(v) => lo <= v <= hi,
            Pattern::List(vs) => vs.len() > 0 && forall|i: int| 0 <= i < vs.len() ==> lo <= #[trigger] vs[i] <= hi,
            Pattern::Range(a, b, step) => lo <= a <= b <= hi && 1 <= step_or_one(step) <= hi,
            Pattern::Step(start, step) => 1 <= step <= hi && match start {
                Some(a) => lo <= a <= hi,
                None => true,
            },
        }
    }
}

/// One field of a schedule.
#[derive(Debug)]
pub enum Value {
    Step(Option<i32>, i32),
    Range(i32, i32, Option<i32>),
    List(Vec<i32>),
    Single(i32),
    Wildcard,
}

pub open spec fn ints(vs: Seq<i32>) -> Seq<int> {
    vs.map_values(|v: i32| v as int)
}

pub open spec fn option_int(o: Option<i32>) -> Option<int> {
    match o {
        Some(v) => Some(v as int),
        None => None,
    }
}

impl View for Value {
    type V = Pattern;

    open spec fn view(&self) -> Pattern {
        match self {
            Value::Step(start, step) => Pattern::Step(option_int(*start), *step as int),
            Value::Range(a, b, step) => Pattern::Range(*a as int, *b as int, option_int(*step)),
            Value::List(vs) => Pattern::List(ints(vs@)),
            Value::Single(v) => Pattern::Single(*v as int),
            Value::Wildcard => Pattern::Wildcard,
        }
    }
}

/// The minute field, domain 0-59.
pub struct Minute {
    pub value: Value,
}

/// The hour field, domain 0-23.
pub struct Hour {
    pub value: Value,
}

/// The day-of-month field, domain 1-31.
pub struct DayOfMonth {
    pub value: Value,
}

/// The month field, domain 1-12.
pub struct Month {
    pub value: Value,
}

/// The day-of-week field, domain 0-7: Monday is 1, and both 0 and 7 are Sunday.
pub struct DayOfWeek {
    pub value: Value,
}

/// A five-field cron schedule.
pub struct Schedule {
    pub minute: Minute,
    pub hour: Hour,
    pub day_of_month: DayOfMonth,
    pub month: Month,
    pub day_of_week: DayOfWeek,
}

/// The mathematical content of a schedule.
pub struct ScheduleView {
    pub minute: Pattern,
    pub hour: Pattern,
    pub day_of_month: Pattern,
    pub month: Pattern,
    pub day_of_week: Pattern,
}

impl View for Schedule {
    type V = ScheduleView;

    open spec fn view(&self) -> ScheduleView {
        ScheduleView {
            minute: self.minute.value@,
            hour: self.hour.value@,
            day_of_month: self.day_of_month.value@,
            month: self.month.value@,
            day_of_week: self.day_of_week.value@,
        }
    }
}

impl ScheduleView {
    /// Every field keeps the shape invariants within its domain.
    pub open spec fn wf(self) -> bool {
        &&& self.minute.wf(0, 59)
        &&& self.hour.wf(0, 23)
        &&& self.day_of_month.wf(1, 31)
        &&& self.month.wf(1, 12)
        &&& self.day_of_week.wf(0, 7)
    }

    /// Whether the day-of-week field accepts ISO weekday `w`, reading 0 as Sunday.
    pub open spec fn weekday_matches(self, w: int) -> bool {
        self.day_of_week.matches(w, 0, 7) || (w == 7 && self.day_of_week.matches(0, 0, 7))
    }

    /// Whether the schedule fires on a date. When both day fields are
    /// restricted, either one suffices.
    pub open spec fn day_matches(self, year: int, month: int, day: int) -> bool {
        let by_month = self.day_of_month.matches(day, 1, 31);
        let by_week = self.weekday_matches(weekday_of(year, month, day));
        if self.day_of_month is Wildcard {
            by_week
        } else if self.day_of_week is Wildcard {
            by_month
        } else {
            by_month || by_week
        }
    }

    /// Whether the schedule fires in the minute that holds `t`.
    pub open spec fn matches(self, t: DateTime) -> bool {
        &&& self.minute.matches(t.minute as int, 0, 59)
        &&& self.hour.matches(t.hour as int, 0, 23)
        &&& self.month.matches(t.month as int, 1, 12)
        &&& self.day_matches(t.year as int, t.month as int, t.day as int)
    }
}

impl Schedule {
    pub open spec fn wf(&self) -> bool {
        self@.wf()
    }
}

impl Value {
    /// Parses the text of a field of kind `kind`.
    pub fn from_str(value: &str, kind: FieldKind) -> (r: Result<Value, ParseError>)
        ensures
            match r {
                Ok(v) => parse_field(value@, kind) == Ok::<Pattern, ErrorKind>(v@) && v@.wf(kind.lo(), kind.hi()),
                Err(e) => parse_field_text(value@, kind) == Err::<Pattern, ParseErrorView>(e@),
            },
    {
        let chars = chars_of(value);
        proof {
            lemma_parsed_wf(value@, kind);
        }
        match parse_value(&chars, kind) {
            Ok(v) => Ok(v),
            Err(k) => Err(ParseError { kind: k, field: Some(kind), text: value.to_owned() }),
        }
    }
}

impl Minute {
    /// Parses the text of a minute field.
    pub fn from_str(value: &str) -> (r: Result<Minute, ParseError>)
        ensures
            match r {
                Ok(f) => {
                    &&& parse_field(value@, FieldKind::Minute) == Ok::<Pattern, ErrorKind>(f.value@)
                    &&& f.value@.wf(FieldKind::Minute.lo(), FieldKind::Minute.hi())
                },
                Err(e) => parse_field_text(value@, FieldKind::Minute) == Err::<Pattern, ParseErrorView>(e@),
            },
    {
        match Value::from_str(value, FieldKind::Minute) {
            Ok(v) => Ok(Minute { value: v }),
            Err(e) => Err(e),
        }
    }
}

impl Hour {
    /// Parses the text of an hour field.
    pub fn from_str(value: &str) -> (r: Result<Hour, ParseError>)
        ensures
            match r {
                Ok(f) => {
                    &&& parse_field(value@, FieldKind::Hour) == Ok::<Pattern, ErrorKind>(f.value@)
                    &&& f.value@.wf(FieldKind::Hour.lo(), FieldKind::Hour.hi())
                },
                Err(e) => parse_field_text(value@, FieldKind::Hour) == Err::<Pattern, ParseErrorView>(e@),
            },
    {
        match Value::from_str(value, FieldKind::Hour) {
            Ok(v) => Ok(Hour { value: v }),
            Err(e) => Err(e),
        }
    }
}

impl DayOfMonth {
    /// Parses the text of a day-of-month field.
    pub fn from_str(value: &str) -> (r: Result<DayOfMonth, ParseError>)
        ensures
            match r {
                Ok(f) => {
                    &&& parse_field(value@, FieldKind::DayOfMonth) == Ok::<Pattern, ErrorKind>(f.value@)
                    &&& f.value@.wf(FieldKind::DayOfMonth.lo(), FieldKind::DayOfMonth.hi())
                },
                Err(e) => parse_field_text(value@, FieldKind::DayOfMonth) == Err::<Pattern, ParseErrorView>(e@),
            },
    {
        match Value::from_str(value, FieldKind::DayOfMonth) {
            Ok(v) => Ok(DayOfMonth { value: v }),
            Err(e) => Err(e),
        }
    }
}

impl Month {
    /// Parses the text of a month field.
    pub fn from_str(value: &str) -> (r: Result<Month, ParseError>)
        ensures
            match r {
                Ok(f) => {
                    &&& parse_field(value@, FieldKind::Month) == Ok::<Pattern, ErrorKind>(f.value@)
                    &&& f.value@.wf(FieldKind::Month.lo(), FieldKind::Month.hi())
                },
                Err(e) => parse_field_text(value@, FieldKind::Month) == Err::<Pattern, ParseErrorView>(e@),
            },
    {
        match Value::from_str(value, FieldKind::Month) {
            Ok(v) => Ok(Month { value: v }),
            Err(e) => Err(e),
        }
    }
}

impl DayOfWeek {
    /// Parses the text of a day-of-week field.
    pub fn from_str(value: &str) -> (r: Result<DayOfWeek, ParseError>)
        ensures
            match r {
                Ok(f) => {
                    &&& parse_field(value@, FieldKind::DayOfWeek) == Ok::<Pattern, ErrorKind>(f.value@)
                    &&& f.value@.wf(FieldKind::DayOfWeek.lo(), FieldKind::DayOfWeek.hi())
                },
                Err(e) => parse_field_text(value@, FieldKind::DayOfWeek) == Err::<Pattern, ParseErrorView>(e@),
            },
    {
        match Value::from_str(value, FieldKind::DayOfWeek) {
            Ok(v) => Ok(DayOfWeek { value: v }),
            Err(e) => Err(e),
        }
    }
}

/// The schedule that `s` denotes: exactly five blank-separated fields, parsed
/// in order; the first failure is the result.
pub open spec fn parse_schedule(s: Seq<char>) -> Result<ScheduleView, ParseErrorView> {
    let w = words(s);
    if w.len() != 5 {
        Err(ParseErrorView { kind: ErrorKind::WrongFieldCount, field: None, text: s })
    } else {
        match parse_field_text(w[0], FieldKind::Minute) {
            Err(e) => Err(e),
            Ok(minute) => match parse_field_text(w[1], FieldKind::Hour) {
                Err(e) => Err(e),
                Ok(hour) => match parse_field_text(w[2], FieldKind::DayOfMonth) {
                    Err(e) => Err(e),
                    Ok(day_of_month) => match parse_field_text(w[3], FieldKind::Month) {
                        Err(e) => Err(e),
                        Ok(month) => match parse_field_text(w[4], FieldKind::DayOfWeek) {
                            Err(e) => Err(e),
                            Ok(day_of_week) => Ok(ScheduleView { minute, hour, day_of_month, month, day_of_week }),
                        },
                    },
                },
            },
        }
    }
}

impl Schedule {
    /// Parses a five-field schedule.
    pub fn from_str(s: &str) -> (r: Result<Schedule, ParseError>)
        ensures
            match r {
                Ok(sch) => parse_schedule(s@) == Ok::<ScheduleView, ParseErrorView>(sch@) && sch.wf(),
                Err(e) => parse_schedule(s@) == Err::<ScheduleView, ParseErrorView>(e@),
            },
    {
        let chars = chars_of(s);
        let bounds = word_bounds(&chars);
        if bounds.len() != 5 {
            return Err(ParseError { kind: ErrorKind::WrongFieldCount, field: None, text: s.to_owned() });
        }
        let minute = match Minute::from_str(s.substring_char(bounds[0].0, bounds[0].1)) {
            Ok(f) => f,
            Err(e) => {
                return Err(e);
            },
        };
        let hour = match Hour::from_str(s.substring_char(bounds[1].0, bounds[1].1)) {
            Ok(f) => f,
            Err(e) => {
                return Err(e);
            },
        };
        let day_of_month = match DayOfMonth::from_str(s.substring_char(bounds[2].0, bounds[2].1)) {
            Ok(f) => f,
            Err(e) => {
                return Err(e);
            },
        };
        let month = match Month::from_str(s.substring_char(bounds[3].0, bounds[3].1)) {
            Ok(f) => f,
            Err(e) => {
                return Err(e);
            },
        };
        let day_of_week = match DayOfWeek::from_str(s.substring_char(bounds[4].0, bounds[4].1)) {
            Ok(f) => f,
            Err(e) => {
                return Err(e);
            },
        };
        Ok(Schedule { minute, hour, day_of_month, month, day_of_week })
    }
}

/// The decimals of `vs` joined by commas.
pub open spec fn join_decimals(vs: Seq<int>) -> Seq<char>
    decreases vs.len(),
{
    if vs.len() == 0 {
        Seq::empty()
    } else if vs.len() == 1 {
        decimal(vs[0] as nat)
    } else {
        join_decimals(vs.drop_last()) + seq![','] + decimal(vs.last() as nat)
    }
}

/// The canonical text of a field value.
pub open spec fn canonical(p: Pattern) -> Seq<char> {
    match p {
        Pattern::Step(Some(a), s) => decimal(a as nat) + seq!['/'] + decimal(s as nat),
        Pattern::Step(None, s) => seq!['*', '/'] + decimal(s as nat),
        Pattern::Range(a, b, None) => decimal(a as nat) + seq!['-'] + decimal(b as nat),
        Pattern::Range(a, b, Some(s)) => decimal(a as nat) + seq!['-'] + decimal(b as nat) + seq!['/'] + decimal(s as nat),
        Pattern::List(vs) => join_decimals(vs),
        Pattern::Single(v) => decimal(v as nat),
        Pattern::Wildcard => seq!['*'],
    }
}

/// The canonical text of a schedule: its fields' texts joined by spaces.
pub open spec fn canonical_schedule(s: ScheduleView) -> Seq<char> {
    canonical(s.minute) + seq![' '] + canonical(s.hour) + seq![' '] + canonical(s.day_of_month) + seq![' ']
        + canonical(s.month) + seq![' '] + canonical(s.day_of_week)
}

/// A field valid in a domain within `[lo, hi]` is valid in `[lo, hi]` too.
pub proof fn lemma_wf_widen(p: Pattern, lo: int, hi: int, lo2: int, hi2: int)
    requires
        p.wf(lo, hi),
        lo2 <= lo,
        hi <= hi2,
    ensures
        p.wf(lo2, hi2),
{
}

fn push_str_lit(out: &mut String, lit: &str)
    ensures
        final(out)@ == old(out)@ + lit@,
{
    out.append(lit);
}

impl Value {
    /// Appends the canonical text of the value to `out`.
    pub fn push_canonical(&self, out: &mut String)
        requires
            self@.wf(0, 59),
        ensures
            final(out)@ == old(out)@ + canonical(self@),
    {
        proof {
            reveal_strlit("/");
            reveal_strlit("-");
            reveal_strlit(",");
            reveal_strlit("*");
            reveal_strlit("*/");
        }
        let ghost start = out@;
        match self {
            Value::Step(Some(a), s) => {
                push_decimal(out, *a as u32);
                out.append("/");
                push_decimal(out, *s as u32);
            },
            Value::Step(None, s) => {
                out.append("*/");
                push_decimal(out, *s as u32);
            },
            Value::Range(a, b, step) => {
                push_decimal(out, *a as u32);
                out.append("-");
                push_decimal(out, *b as u32);
                match step {
                    Some(s) => {
                        out.append("/");
                        push_decimal(out, *s as u32);
                    },
                    None => {},
                }
            },
            Value::List(vs) => {
                let mut i: usize = 0;
                while i < vs.len()
                    invariant
                        0 <= i <= vs.len(),
                        self@ == Pattern::List(ints(vs@)),
                        self@.wf(0, 59),
                        out@ == start + join_decimals(ints(vs@).take(i as int)),
                    decreases vs.len() - i,
                {
                    let ghost before = out@;
                    assert(ints(vs@)[i as int] == vs@[i as int] as int);
                    assert(0 <= vs@[i as int] <= 59);
                    if i > 0 {
                        out.append(",");
                    }
                    push_decimal(out, vs[i] as u32);
                    proof {
                        reveal_strlit(",");
                        let t = ints(vs@).take(i + 1);
                        assert(t.drop_last() =~= ints(vs@).take(i as int));
                        assert(t.last() == vs@[i as int] as int);
                        assert(out@ =~= start + join_decimals(t));
                    }
                    i = i + 1;
                }
                assert(ints(vs@).take(vs.len() as int) =~= ints(vs@));
            },
            Value::Single(v) => {
                push_decimal(out, *v as u32);
            },
            Value::Wildcard => {
                out.append("*");
            },
        }
        assert(out@ =~= start + canonical(self@));
    }

    /// The canonical text of the value: `*`, `n`, `a,b,...`, `a-b`, `a-b/s`,
    /// `a/s` or `*/s`.
    pub fn to_string(&self) -> (r: String)
        requires
            self@.wf(0, 59),
        ensures
            r@ == canonical(self@),
    {
        let mut out = String::new();
        self.push_canonical(&mut out);
        assert(out@ =~= canonical(self@));
        out
    }
}

impl Schedule {
    /// The canonical text of the schedule, which parses back to an equal schedule.
    pub fn to_string(&self) -> (r: String)
        requires
            self.wf(),
        ensures
            r@ == canonical_schedule(self@),
    {
        proof {
            lemma_wf_widen(self@.hour, 0, 23, 0, 59);
            lemma_wf_widen(self@.day_of_month, 1, 31, 0, 59);
            lemma_wf_widen(self@.month, 1, 12, 0, 59);
            lemma_wf_widen(self@.day_of_week, 0, 7, 0, 59);
            reveal_strlit(" ");
        }
        let mut out = String::new();
        self.minute.value.push_canonical(&mut out);
        out.append(" ");
        self.hour.value.push_canonical(&mut out);
        out.append(" ");
        self.day_of_month.value.push_canonical(&mut out);
        out.append(" ");
        self.month.value.push_canonical(&mut out);
        out.append(" ");
        self.day_of_week.value.push_canonical(&mut out);
        assert(out@ =~= canonical_schedule(self@));
        out
    }
}

} // verus!
