use skuld::entry::{Entry, Timestamp};
use skuld::matcher::TimeConfig;

fn ts(day_of_month: u32, day_of_week: u32, hour: u32, minute: u32) -> Timestamp {
    Timestamp { day_of_month, day_of_week, hour, minute }
}

#[test]
fn matcher_semantics() {
    assert!(TimeConfig::Any.matches(&0));
    assert!(TimeConfig::Any.matches(&59));
    assert!(TimeConfig::Exact(7).matches(&7));
    assert!(!TimeConfig::Exact(7).matches(&8));
    assert!(TimeConfig::DividableBy(3).matches(&0));
    assert!(TimeConfig::DividableBy(3).matches(&9));
    assert!(!TimeConfig::DividableBy(3).matches(&10));
    assert!(TimeConfig::DividableBy(1).matches(&u32::MAX));
}

#[test]
fn wildcard_rule_matches_every_timestamp() {
    let e = Entry::parse(&String::from("* * * * echo hi")).unwrap();
    assert_eq!(e.command, "echo hi");
    for day in 1..=31 {
        for weekday in 1..=7 {
            for hour in 0..24 {
                for minute in 0..60 {
                    assert!(e.should_run(&ts(day, weekday, hour, minute)));
                }
            }
        }
    }
}

#[test]
fn day_of_month_rule_matches_only_that_day() {
    let e = Entry::parse(&String::from("1 * * * cmd")).unwrap();
    for day in 1..=31 {
        for hour in 0..24 {
            assert_eq!(e.should_run(&ts(day, 1 + day % 7, hour, 30)), day == 1);
        }
    }
}

#[test]
fn divisible_hour_rule_matches_even_hours() {
    let e = Entry::parse(&String::from("* * /2 * cmd")).unwrap();
    for hour in 0..24 {
        assert_eq!(e.should_run(&ts(15, 3, hour, 0)), hour % 2 == 0);
    }
}

#[test]
fn divisible_minute_rule_matches_quarter_hours() {
    let e = Entry::parse(&String::from("* * * /15 cmd")).unwrap();
    for minute in 0..60 {
        assert_eq!(
            e.should_run(&ts(28, 7, 23, minute)),
            minute == 0 || minute == 15 || minute == 30 || minute == 45
        );
    }
}

#[test]
fn weekday_rule_matches_only_that_weekday() {
    let e = Entry::parse(&String::from("* 7 * * cmd")).unwrap();
    for weekday in 1..=7 {
        assert_eq!(e.should_run(&ts(4, weekday, 12, 0)), weekday == 7);
    }
}

#[test]
fn conjunction_needs_all_four_fields() {
    let e = Entry::parse(&String::from("1 2 3 4 cmd")).unwrap();
    assert!(e.should_run(&ts(1, 2, 3, 4)));
    assert!(!e.should_run(&ts(2, 2, 3, 4)));
    assert!(!e.should_run(&ts(1, 3, 3, 4)));
    assert!(!e.should_run(&ts(1, 2, 4, 4)));
    assert!(!e.should_run(&ts(1, 2, 3, 5)));
}
