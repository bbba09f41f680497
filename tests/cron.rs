use explaincron::{human_readable, join_oxford, next_occurrence, DateTime, Schedule};

fn describe(text: &str) -> String {
    human_readable(&Schedule::from_str(text).unwrap())
}

fn at(year: i32, month: u8, day: u8, hour: u8, minute: u8, second: u8) -> DateTime {
    DateTime { year, month, day, hour, minute, second, offset_seconds: 0 }
}

#[test]
fn only_wildcards() {
    assert_eq!(describe("* * * * *"), "At every minute.");
}

#[test]
fn minute_1() {
    assert_eq!(describe("1 * * * *"), "At minute 1.");
}

#[test]
fn minute_2() {
    assert_eq!(describe("2 * * * *"), "At minute 2.");
}

#[test]
fn minute_step() {
    assert_eq!(describe("2/3 * * * *"), "At every 3rd minute from 2 through 59.");
}

#[test]
fn minute_step_hour_23() {
    assert_eq!(
        describe("2/3 23 * * *"),
        "At every 3rd minute from 2 through 59 past hour 23."
    );
}

#[test]
fn minute_range() {
    assert_eq!(describe("24-39 * * * *"), "At every minute from 24 through 39.");
}

#[test]
fn minute_list() {
    assert_eq!(describe("24,39,42,13 * * * *"), "At minute 24, 39, 42, and 13.");
}

#[test]
fn day_of_week_step() {
    assert_eq!(
        describe("* * * * 4/5"),
        "At every minute on every 5th day-of-week from Thursday through Sunday."
    );
}

#[test]
fn day_of_week_str() {
    assert_eq!(describe("* * * * WED"), "At every minute on Wednesday.");
}

#[test]
fn month_str() {
    assert_eq!(describe("* * * MAY *"), "At every minute in May.");
}

#[test]
fn cron_bug_test() {
    assert_eq!(
        describe("* * 3 * 1"),
        "At every minute on day-of-month 3 and on Monday."
    );
    assert_eq!(
        describe("* * */2 * 1"),
        "At every minute on every 2nd day-of-month if it's on Monday."
    );
    assert_eq!(
        describe("* * 1-3 * 1"),
        "At every minute on every day-of-month from 1 through 3 and on Monday."
    );
}

#[test]
fn join_oxford_test() {
    assert_eq!(join_oxford(&Vec::<i32>::new(), |i| i.to_string()), "");
    assert_eq!(join_oxford(&vec![1], |i| i.to_string()), "1");
    assert_eq!(join_oxford(&vec![1, 2], |i| i.to_string()), "1 and 2");
    assert_eq!(join_oxford(&vec![1, 2, 3], |i| i.to_string()), "1, 2, and 3");
}

#[test]
fn ignore_case() {
    assert_eq!(describe("* * * * Sun"), "At every minute on Sunday.");
    assert_eq!(describe("* * * * mon"), "At every minute on Monday.");
    assert_eq!(describe("* * * mar *"), "At every minute in March.");
}

#[test]
fn next_occ() {
    let datetime = at(2022, 1, 1, 13, 0, 55);
    let schedule = Schedule::from_str("* * * * *").unwrap();
    assert_eq!(at(2022, 1, 1, 13, 1, 0), next_occurrence(datetime, &schedule).unwrap());
}

#[test]
fn next_occ_wrap_hour() {
    let datetime = at(2022, 1, 1, 13, 59, 55);
    let schedule = Schedule::from_str("* * * * *").unwrap();
    assert_eq!(at(2022, 1, 1, 14, 0, 0), next_occurrence(datetime, &schedule).unwrap());
}

#[test]
fn next_occ_all_wrap() {
    let datetime = at(2022, 12, 31, 23, 59, 55);
    let schedule = Schedule::from_str("* * * * *").unwrap();
    assert_eq!(at(2023, 1, 1, 0, 0, 0), next_occurrence(datetime, &schedule).unwrap());
}

#[test]
fn next_occ_all_wrap2() {
    let datetime = at(2022, 12, 31, 23, 59, 55);
    let schedule = Schedule::from_str("* * * * MON").unwrap();
    assert_eq!(at(2023, 1, 2, 0, 0, 0), next_occurrence(datetime, &schedule).unwrap());
}

#[test]
fn next_occ_union() {
    // A Tuesday.
    let datetime = at(2023, 3, 21, 0, 0, 55);
    let schedule = Schedule::from_str("34 * 1 * MON,FRI").unwrap();
    assert_eq!(at(2023, 3, 24, 0, 34, 0), next_occurrence(datetime, &schedule).unwrap());
}

#[test]
fn next_occ_union2() {
    // A Tuesday.
    let datetime = at(2023, 3, 21, 0, 55, 55);
    let schedule = Schedule::from_str("34 * 1 * MON,FRI").unwrap();
    assert_eq!(at(2023, 3, 24, 0, 34, 0), next_occurrence(datetime, &schedule).unwrap());
}

#[test]
fn next_occ_from_crontab_guru_1() {
    let datetime = at(2023, 3, 22, 12, 12, 55);
    let schedule = Schedule::from_str("15 14 1 * *").unwrap();
    assert_eq!(at(2023, 4, 1, 14, 15, 0), next_occurrence(datetime, &schedule).unwrap());
}

#[test]
fn next_occ_from_crontab_guru_2() {
    let datetime = at(2023, 3, 22, 12, 12, 55);
    let schedule = Schedule::from_str("0 22 * * 1-5").unwrap();
    assert_eq!(at(2023, 3, 22, 22, 0, 0), next_occurrence(datetime, &schedule).unwrap());
}

#[test]
fn next_occ_from_crontab_guru_3() {
    let datetime = at(2023, 3, 22, 12, 12, 55);
    let schedule = Schedule::from_str("23 0-20/2 * * *").unwrap();
    assert_eq!(at(2023, 3, 22, 12, 23, 0), next_occurrence(datetime, &schedule).unwrap());
}
