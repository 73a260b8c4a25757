use skuld::entry::LineError;
use skuld::matcher::ParseError;
use skuld::scheduler::{due_commands, parse_rules, Scheduler};
use skuld::entry::{RuleField, Timestamp};

fn rules(lines: &[&str]) -> Vec<String> {
    lines.iter().map(|l| l.to_string()).collect()
}

#[test]
fn first_tick_advances_and_sleeps_to_the_nominal_minute() {
    let es = parse_rules(&rules(&["* * * * echo hi"])).unwrap();
    let mut s = Scheduler::new(es, 0);
    assert_eq!(s.current, 0);
    assert_eq!(s.next, 60);
    let t = s.tick(5);
    assert_eq!(s.current, 60);
    assert_eq!(s.next, 120);
    // The sleep runs to one minute past the new nominal minute: 120 - 5.
    assert_eq!(t.sleep_seconds, 115);
    assert_eq!(t.due, vec!["echo hi".to_string()]);
}

#[test]
fn overrun_tick_does_not_sleep() {
    let es = parse_rules(&rules(&["* * * * echo hi"])).unwrap();
    let mut s = Scheduler::new(es, 0);
    let t = s.tick(500);
    assert_eq!(t.sleep_seconds, 0);
    assert_eq!(s.current, 60);
}

#[test]
fn sixty_ticks_advance_one_minute_each() {
    let es = parse_rules(&rules(&["* * * 0 echo hour"])).unwrap();
    let mut s = Scheduler::new(es, 0);
    for k in 0..60u32 {
        let before = s.current;
        // However late the wall clock runs, the nominal cadence is anchored
        // to the previous nominal tick, never to the wall clock.
        let late_now = i64::from(k) * 61 + 17;
        let t = s.tick(late_now);
        assert_eq!(s.current, before + 60);
        assert_eq!(s.next, s.current + 60);
        let target = s.current + 60;
        let expected_sleep = if target > late_now { (target - late_now) as u64 } else { 0 };
        assert_eq!(t.sleep_seconds, expected_sleep);
    }
    assert_eq!(s.current, 3600);
}

#[test]
fn due_commands_at_epoch_minute_one() {
    // 1970-01-01 was a Thursday; one tick from the epoch lands on 00:01.
    let es = parse_rules(&rules(&[
        "1 * * * a",
        "31 * * * b",
        "* 4 * * c",
        "* 5 * * d",
        "* * 0 * e",
        "* * /2 * f",
        "* * * 1 g",
        "* * * /2 h",
    ]))
    .unwrap();
    let mut s = Scheduler::new(es, 0);
    let t = s.tick(0);
    assert_eq!(t.due, vec!["a", "c", "e", "f", "g"]);
}

#[test]
fn due_commands_on_a_known_monday() {
    // 1970-01-05, four days past the epoch, was a Monday.
    let es = parse_rules(&rules(&[
        "* 1 * * monday",
        "* 2 * * tuesday",
        "5 * * * fifth",
        "4 * * * fourth",
    ]))
    .unwrap();
    let monday = 4 * 86400;
    let mut s = Scheduler::new(es, monday - 60);
    let t = s.tick(monday - 60);
    assert_eq!(s.current, monday);
    assert_eq!(t.due, vec!["monday", "fifth"]);
}

#[test]
fn due_evaluation_reaches_every_rule() {
    // The first due command may well fail to spawn later; the decision which
    // rules fire is taken for all of them, before and regardless of any
    // dispatch outcome.
    let es = parse_rules(&rules(&[
        "* * * * /nonexistent/command --that-fails",
        "* * * * echo still evaluated",
    ]))
    .unwrap();
    let mut s = Scheduler::new(es, 0);
    let t = s.tick(0);
    assert_eq!(t.due.len(), 2);
    assert_eq!(t.due[1], "echo still evaluated");
}

#[test]
fn due_commands_function_matches_timestamp_directly() {
    let es = parse_rules(&rules(&["10 * * * x", "* * * /20 y"])).unwrap();
    let at = Timestamp { day_of_month: 10, day_of_week: 6, hour: 3, minute: 40 };
    let due = due_commands(&es, &at);
    assert_eq!(due, vec!["x", "y"]);
    let off = Timestamp { day_of_month: 11, day_of_week: 6, hour: 3, minute: 41 };
    assert!(due_commands(&es, &off).is_empty());
}

#[test]
fn mid_minute_start_evaluates_the_calendar_minute() {
    // Starting 30 seconds into the epoch minute, the first nominal tick lands
    // on 00:01:30, whose calendar minute is 1.
    let es = parse_rules(&rules(&["* * * 1 at-one", "* * * 0 at-zero"])).unwrap();
    let mut s = Scheduler::new(es, 30);
    let t = s.tick(30);
    assert_eq!(s.current, 90);
    assert_eq!(t.due, vec!["at-one"]);
}

#[test]
fn parse_rules_is_all_or_nothing() {
    let r = parse_rules(&rules(&["* * * * ok", "* * bad * cmd", "* * * * ok2"]));
    let se = r.err().unwrap();
    assert_eq!(se.line, 1);
    assert!(matches!(
        se.error,
        LineError::BadField(RuleField::Hour, ParseError::MalformedNumber)
    ));
}

#[test]
fn parse_rules_reports_the_first_bad_line() {
    let r = parse_rules(&rules(&["too few", "* * /0 * cmd"]));
    let se = r.err().unwrap();
    assert_eq!(se.line, 0);
    assert!(matches!(se.error, LineError::WrongFieldCount(2)));
}

#[test]
fn parse_rules_keeps_order() {
    let es = parse_rules(&rules(&["* * * * one", "* * * * two"])).unwrap();
    assert_eq!(es.len(), 2);
    assert_eq!(es[0].command, "one");
    assert_eq!(es[1].command, "two");
}
