use explaincron::{
    day_of_month, day_of_week, day_of_week_string, hour, human_readable, is_leap_year, max_days,
    minute, month, month_string, next_occurrence, next_value, ordinal, random_value, value_from_draws, DateTime,
    DayOfWeek, EngineError, ErrorKind, FieldKind, Minute, Month, ParseError, Schedule, Value,
};

fn at(year: i32, month: u8, day: u8, hour: u8, minute: u8, second: u8) -> DateTime {
    DateTime { year, month, day, hour, minute, second, offset_seconds: 0 }
}

fn next(text: &str, from: DateTime) -> DateTime {
    next_occurrence(from, &Schedule::from_str(text).unwrap()).unwrap()
}

fn error_kind(text: &str) -> ErrorKind {
    Schedule::from_str(text).err().unwrap().kind
}

fn same_value(a: &Value, b: &Value) -> bool {
    match (a, b) {
        (Value::Wildcard, Value::Wildcard) => true,
        (Value::Single(x), Value::Single(y)) => x == y,
        (Value::List(x), Value::List(y)) => x == y,
        (Value::Range(a1, b1, s1), Value::Range(a2, b2, s2)) => a1 == a2 && b1 == b2 && s1 == s2,
        (Value::Step(s1, t1), Value::Step(s2, t2)) => s1 == s2 && t1 == t2,
        _ => false,
    }
}

#[test]
fn six_fields_are_a_wrong_field_count() {
    let e = Schedule::from_str("5 5 5 5 5 5").err().unwrap();
    assert_eq!(e.kind, ErrorKind::WrongFieldCount);
    assert_eq!(e.field, None);
    assert_eq!(e.text, "5 5 5 5 5 5");
    assert_eq!(error_kind("5 5 5 5"), ErrorKind::WrongFieldCount);
    assert_eq!(error_kind(""), ErrorKind::WrongFieldCount);
}

#[test]
fn blanks_between_fields_may_repeat() {
    let s = Schedule::from_str("  5\t4  * *   *  ").unwrap();
    assert_eq!(s.to_string(), "5 4 * * *");
}

#[test]
fn field_errors_name_field_and_text() {
    let e: ParseError = Schedule::from_str("* 24 * * *").err().unwrap();
    assert_eq!(e.kind, ErrorKind::OutOfRange);
    assert_eq!(e.field, Some(FieldKind::Hour));
    assert_eq!(e.text, "24");
    assert_eq!(error_kind("1/2/3 * * * *"), ErrorKind::InvalidSyntax);
    assert_eq!(error_kind("1-2-3 * * * *"), ErrorKind::InvalidSyntax);
    assert_eq!(error_kind("1-5/2/3 * * * *"), ErrorKind::InvalidSyntax);
    assert_eq!(error_kind("x * * * *"), ErrorKind::InvalidSyntax);
    assert_eq!(error_kind("1,,2 * * * *"), ErrorKind::InvalidSyntax);
    assert_eq!(error_kind("5-3 * * * *"), ErrorKind::OutOfRange);
    assert_eq!(error_kind("*/0 * * * *"), ErrorKind::OutOfRange);
    assert_eq!(error_kind("* * 0 * *"), ErrorKind::OutOfRange);
    assert_eq!(error_kind("* * * FOO *"), ErrorKind::UnknownName);
    assert_eq!(error_kind("* * * * FUN"), ErrorKind::UnknownName);
    assert_eq!(error_kind("* * * 13 *"), ErrorKind::OutOfRange);
}

#[test]
fn element_resolvers() {
    assert_eq!(minute("59").unwrap(), 59);
    assert_eq!(minute("60").err().unwrap().kind, ErrorKind::OutOfRange);
    assert_eq!(minute("1x").err().unwrap().kind, ErrorKind::InvalidSyntax);
    assert_eq!(hour("23").unwrap(), 23);
    assert_eq!(day_of_month("31").unwrap(), 31);
    assert_eq!(day_of_month("0").err().unwrap().kind, ErrorKind::OutOfRange);
    assert_eq!(month("jan").unwrap(), 1);
    assert_eq!(month("Dec").unwrap(), 12);
    assert_eq!(month("12").unwrap(), 12);
    assert_eq!(month("JANUARY").err().unwrap().kind, ErrorKind::UnknownName);
    assert_eq!(day_of_week("SUN").unwrap(), 7);
    assert_eq!(day_of_week("0").unwrap(), 0);
    assert_eq!(day_of_week("7").unwrap(), 7);
    assert_eq!(day_of_week("8").err().unwrap().kind, ErrorKind::OutOfRange);
}

#[test]
fn field_shapes() {
    assert!(same_value(&Minute::from_str("*").unwrap().value, &Value::Wildcard));
    assert!(same_value(&Minute::from_str("7").unwrap().value, &Value::Single(7)));
    assert!(same_value(&Minute::from_str("3,1,3").unwrap().value, &Value::List(vec![3, 1, 3])));
    assert!(same_value(&Minute::from_str("1-5").unwrap().value, &Value::Range(1, 5, None)));
    assert!(same_value(&Minute::from_str("1-5/2").unwrap().value, &Value::Range(1, 5, Some(2))));
    assert!(same_value(&Minute::from_str("*/15").unwrap().value, &Value::Step(None, 15)));
    assert!(same_value(&Minute::from_str("4/15").unwrap().value, &Value::Step(Some(4), 15)));
    assert!(same_value(&Month::from_str("FEB-apr").unwrap().value, &Value::Range(2, 4, None)));
    assert!(same_value(&DayOfWeek::from_str("MON,fri").unwrap().value, &Value::List(vec![1, 5])));
}

#[test]
fn canonical_text_round_trips() {
    for text in ["*", "7", "3,1,3", "1-5", "1-5/2", "*/15", "4/15", "JAN-MAR/2", "DEC,jan"] {
        let kind = if text.chars().any(|c| c.is_ascii_alphabetic()) { FieldKind::Month } else { FieldKind::Minute };
        let v = Value::from_str(text, kind).unwrap();
        let again = Value::from_str(&v.to_string(), kind).unwrap();
        assert!(same_value(&v, &again), "{}", text);
    }
    assert_eq!(Month::from_str("JAN-MAR/2").unwrap().value.to_string(), "1-3/2");
    let s = Schedule::from_str("*/5 1-3 1,15 JAN MON-FRI").unwrap();
    assert_eq!(s.to_string(), "*/5 1-3 1,15 1 1-5");
}

#[test]
fn parsed_values_stay_in_domain() {
    let schedule = Schedule::from_str("*/7 * * * *").unwrap();
    // Minutes 0, 7, ..., 56 only.
    let mut t = at(2023, 5, 1, 10, 57, 0);
    t = next_occurrence(t, &schedule).unwrap();
    assert_eq!(t, at(2023, 5, 1, 11, 0, 0));
    t.minute = 1;
    assert_eq!(next_occurrence(t, &schedule).unwrap(), at(2023, 5, 1, 11, 7, 0));
}

#[test]
fn result_is_after_the_minute_of_the_start() {
    let from = at(2023, 3, 21, 8, 30, 10);
    let r = next("30 8 * * *", from);
    assert_eq!(r, at(2023, 3, 22, 8, 30, 0));
    // A start at the firing minute itself moves on to the next firing.
    let exact = at(2023, 3, 21, 8, 30, 0);
    assert_eq!(next("30 8 * * *", exact), at(2023, 3, 22, 8, 30, 0));
}

#[test]
fn wildcards_give_the_next_whole_minute() {
    assert_eq!(next("* * * * *", at(2024, 2, 28, 23, 59, 1)), at(2024, 2, 29, 0, 0, 0));
    assert_eq!(next("* * * * *", at(2024, 2, 28, 23, 59, 0)), at(2024, 2, 29, 0, 0, 0));
    assert_eq!(next("* * * * *", at(2024, 2, 28, 13, 5, 0)), at(2024, 2, 28, 13, 6, 0));
    assert_eq!(next("* * * * *", at(2023, 2, 28, 23, 59, 30)), at(2023, 3, 1, 0, 0, 0));
}

#[test]
fn day_of_month_or_day_of_week() {
    // From a Tuesday: the next Monday comes before the 3rd.
    assert_eq!(next("* * 3 * 1", at(2023, 3, 21, 10, 0, 30)), at(2023, 3, 27, 0, 0, 0));
    // From Tuesday 2023-05-30: Saturday the 3rd comes before Monday the 5th.
    assert_eq!(next("* * 3 * 1", at(2023, 5, 30, 10, 0, 30)), at(2023, 6, 3, 0, 0, 0));
    // From Saturday 2023-04-29: Monday the 1st of May.
    assert_eq!(next("* * 3 * 1", at(2023, 4, 29, 0, 0, 0)), at(2023, 5, 1, 0, 0, 0));
    // Either condition alone is enough.
    assert_eq!(next("* * 3 * 1", at(2023, 6, 3, 10, 0, 30)), at(2023, 6, 3, 10, 1, 0));
}

#[test]
fn day_choices_respect_month_lengths_and_leap_years() {
    assert_eq!(next("0 0 29 2 *", at(2023, 3, 1, 0, 0, 0)), at(2024, 2, 29, 0, 0, 0));
    assert_eq!(next("0 0 31 * *", at(2023, 4, 1, 0, 0, 0)), at(2023, 5, 31, 0, 0, 0));
    assert_eq!(next("0 12 * 2 *", at(2023, 12, 25, 0, 0, 0)), at(2024, 2, 1, 12, 0, 0));
    assert_eq!(next("59 23 31 12 *", at(2023, 1, 1, 0, 0, 0)), at(2023, 12, 31, 23, 59, 0));
    assert_eq!(next("* * * * 0", at(2023, 3, 21, 0, 0, 0)), at(2023, 3, 26, 0, 0, 0));
    assert_eq!(next("* * * * SUN", at(2023, 3, 21, 0, 0, 0)), at(2023, 3, 26, 0, 0, 0));
}

#[test]
fn list_wraps_to_its_smallest_member() {
    assert_eq!(next("24,39,42,13 * * * *", at(2023, 3, 21, 5, 50, 0)), at(2023, 3, 21, 6, 13, 0));
    assert_eq!(next("24,39,42,13 * * * *", at(2023, 3, 21, 5, 10, 0)), at(2023, 3, 21, 5, 13, 0));
}

#[test]
fn never_firing_schedule_is_an_error() {
    let schedule = Schedule::from_str("0 0 30 2 *").unwrap();
    assert_eq!(next_occurrence(at(2023, 1, 1, 0, 0, 0), &schedule), Err(EngineError::OutOfCalendarRange));
    let every = Schedule::from_str("* * * * *").unwrap();
    assert_eq!(next_occurrence(at(9999, 12, 31, 23, 59, 30), &every), Err(EngineError::OutOfCalendarRange));
    assert_eq!(next_occurrence(at(9999, 12, 31, 23, 59, 0), &every), Err(EngineError::OutOfCalendarRange));
    assert_eq!(next_occurrence(at(9999, 12, 31, 23, 58, 0), &every), Ok(at(9999, 12, 31, 23, 59, 0)));
}

#[test]
fn offset_is_carried_through() {
    let mut from = at(2023, 3, 21, 0, 0, 30);
    from.offset_seconds = 3600;
    let r = next_occurrence(from, &Schedule::from_str("0 * * * *").unwrap()).unwrap();
    assert_eq!(r.offset_seconds, 3600);
    assert_eq!((r.hour, r.minute), (1, 0));
}

#[test]
fn weekday_numbers() {
    assert_eq!(at(2023, 3, 21, 0, 0, 0).weekday_number(), 2);
    assert_eq!(at(2023, 1, 1, 0, 0, 0).weekday_number(), 7);
    assert_eq!(at(2000, 2, 29, 0, 0, 0).weekday_number(), 2);
    assert_eq!(at(1970, 1, 1, 0, 0, 0).weekday_number(), 4);
    assert_eq!(at(-9999, 1, 1, 0, 0, 0).weekday_number(), 1);
    assert_eq!(at(9999, 12, 31, 0, 0, 0).weekday_number(), 5);
}

#[test]
fn leap_years_and_month_lengths() {
    assert!(is_leap_year(2000));
    assert!(is_leap_year(2024));
    assert!(!is_leap_year(1900));
    assert!(!is_leap_year(2023));
    assert_eq!(max_days(2024, 2), 29);
    assert_eq!(max_days(2023, 2), 28);
    assert_eq!(max_days(2023, 4), 30);
    assert_eq!(max_days(2023, 12), 31);
}

#[test]
fn ordinals_and_names() {
    assert_eq!(ordinal(1), "");
    assert_eq!(ordinal(2), "2nd ");
    assert_eq!(ordinal(3), "3rd ");
    assert_eq!(ordinal(4), "4th ");
    assert_eq!(ordinal(11), "11th ");
    assert_eq!(ordinal(12), "12th ");
    assert_eq!(ordinal(13), "13th ");
    assert_eq!(ordinal(21), "21st ");
    assert_eq!(ordinal(22), "22nd ");
    assert_eq!(ordinal(23), "23rd ");
    assert_eq!(month_string(1), "January");
    assert_eq!(month_string(12), "December");
    assert_eq!(day_of_week_string(0), "Sunday");
    assert_eq!(day_of_week_string(1), "Monday");
    assert_eq!(day_of_week_string(7), "Sunday");
}

#[test]
fn descriptions_of_every_shape() {
    let d = |t: &str| human_readable(&Schedule::from_str(t).unwrap());
    assert_eq!(d("*/15 * * * *"), "At every 15th minute.");
    assert_eq!(d("0-30/10 * * * *"), "At every 10th minute from 0 through 30.");
    assert_eq!(d("5 */2 * * *"), "At minute 5 past every 2nd hour.");
    assert_eq!(d("5 1,2 * * *"), "At minute 5 past hour 1 and 2.");
    assert_eq!(d("5 9-17 * * *"), "At minute 5 past every hour from 9 through 17.");
    assert_eq!(d("5 4/6 * * *"), "At minute 5 past every 6th hour from 4 through 23.");
    assert_eq!(d("* * 1,15 * *"), "At every minute on day-of-month 1 and 15.");
    assert_eq!(d("* * 10/5 * *"), "At every minute on every 5th day-of-month from 10 through 31.");
    assert_eq!(d("* * * JAN,APR,JUL *"), "At every minute in January, April, and July.");
    assert_eq!(d("* * * 3-5 *"), "At every minute in every month from March through May.");
    assert_eq!(d("* * * */3 *"), "At every minute in every 3rd month.");
    assert_eq!(d("* * * 2/3 *"), "At every minute in every 3rd month from February through December.");
    assert_eq!(d("* * * * MON-FRI"), "At every minute on every day-of-week from Monday through Friday.");
    assert_eq!(d("* * * * 1-5/2"), "At every minute on every 2nd day-of-week from Monday through Friday.");
    assert_eq!(d("* * 1 * 1,3"), "At every minute on day-of-month 1 and on Monday and Wednesday.");
}

#[test]
fn next_value_lookups() {
    let list = Value::List(vec![24, 39, 42, 13]);
    assert_eq!(next_value(10, 0, 59, &list), (13, false));
    assert_eq!(next_value(25, 0, 59, &list), (39, false));
    assert_eq!(next_value(50, 0, 59, &list), (13, true));
    assert_eq!(next_value(60, 0, 59, &Value::Wildcard), (0, true));
    assert_eq!(next_value(7, 0, 59, &Value::Single(5)), (5, true));
    assert_eq!(next_value(3, 0, 23, &Value::Range(0, 20, Some(2))), (4, false));
    assert_eq!(next_value(21, 0, 23, &Value::Range(0, 20, Some(2))), (0, true));
    assert_eq!(next_value(5, 0, 6, &Value::Step(Some(3), 2)), (5, false));
    assert_eq!(next_value(6, 0, 6, &Value::Step(Some(3), 2)), (3, true));
}

#[test]
fn random_values_are_valid() {
    for _ in 0..200 {
        for (kind, lo, hi) in [
            (FieldKind::Minute, 0, 59),
            (FieldKind::Hour, 0, 23),
            (FieldKind::DayOfMonth, 1, 31),
            (FieldKind::Month, 1, 12),
            (FieldKind::DayOfWeek, 0, 6),
        ] {
            let v = random_value(lo, hi);
            let text = v.to_string();
            let again = Value::from_str(&text, kind).unwrap();
            assert!(same_value(&v, &again), "{}", text);
        }
    }
}

#[test]
fn draws_select_the_shape() {
    assert!(same_value(&value_from_draws(0, vec![4, 9], 0, 0, 0, 0), &Value::List(vec![4, 9])));
    assert!(same_value(&value_from_draws(1, vec![], 3, 8, 4, 2), &Value::Range(3, 8, Some(2))));
    assert!(same_value(&value_from_draws(1, vec![], 3, 8, 1, 2), &Value::Range(3, 8, None)));
    assert!(same_value(&value_from_draws(2, vec![], 7, 0, 0, 0), &Value::Single(7)));
    assert!(same_value(&value_from_draws(3, vec![], 5, 10, 0, 0), &Value::Step(Some(5), 10)));
    assert!(same_value(&value_from_draws(7, vec![1], 5, 10, 4, 2), &Value::Wildcard));
}
