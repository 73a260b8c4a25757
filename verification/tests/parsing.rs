use skuld::entry::{Entry, LineError, RuleField};
use skuld::matcher::{ParseError, TimeConfig};

#[test]
fn parse_star_is_any() {
    assert_eq!(TimeConfig::parse("*"), Ok(TimeConfig::Any));
}

#[test]
fn parse_exact_number() {
    assert_eq!(TimeConfig::parse("5"), Ok(TimeConfig::Exact(5)));
    assert_eq!(TimeConfig::parse("0"), Ok(TimeConfig::Exact(0)));
    assert_eq!(TimeConfig::parse("57"), Ok(TimeConfig::Exact(57)));
    assert_eq!(TimeConfig::parse("007"), Ok(TimeConfig::Exact(7)));
    assert_eq!(TimeConfig::parse("4294967295"), Ok(TimeConfig::Exact(u32::MAX)));
}

#[test]
fn parse_exact_accepts_leading_plus() {
    // `str::parse::<u32>` accepts one leading plus sign, and so does the library.
    assert_eq!(TimeConfig::parse("+5"), Ok(TimeConfig::Exact(5)));
    assert_eq!(TimeConfig::parse("++5"), Err(ParseError::MalformedNumber));
    assert_eq!(TimeConfig::parse("+"), Err(ParseError::MalformedNumber));
}

#[test]
fn parse_divisor() {
    assert_eq!(TimeConfig::parse("/2"), Ok(TimeConfig::DividableBy(2)));
    assert_eq!(TimeConfig::parse("/15"), Ok(TimeConfig::DividableBy(15)));
    assert_eq!(TimeConfig::parse("/+3"), Ok(TimeConfig::DividableBy(3)));
}

#[test]
fn parse_divisor_zero_rejected() {
    assert_eq!(TimeConfig::parse("/0"), Err(ParseError::MalformedDivisor));
    assert_eq!(TimeConfig::parse("/00"), Err(ParseError::MalformedDivisor));
}

#[test]
fn parse_divisor_malformed() {
    assert_eq!(TimeConfig::parse("/"), Err(ParseError::MalformedDivisor));
    assert_eq!(TimeConfig::parse("/x"), Err(ParseError::MalformedDivisor));
    assert_eq!(TimeConfig::parse("/-2"), Err(ParseError::MalformedDivisor));
    assert_eq!(TimeConfig::parse("/4294967296"), Err(ParseError::MalformedDivisor));
}

#[test]
fn parse_empty_field() {
    assert_eq!(TimeConfig::parse(""), Err(ParseError::EmptyField));
}

#[test]
fn parse_malformed_number() {
    assert_eq!(TimeConfig::parse("abc"), Err(ParseError::MalformedNumber));
    assert_eq!(TimeConfig::parse("1x"), Err(ParseError::MalformedNumber));
    assert_eq!(TimeConfig::parse("-1"), Err(ParseError::MalformedNumber));
    assert_eq!(TimeConfig::parse("4294967296"), Err(ParseError::MalformedNumber));
    assert_eq!(TimeConfig::parse("*5"), Err(ParseError::MalformedNumber));
}

#[test]
fn entry_parse_plain_line() {
    let line = String::from("1 2 3 4 echo hi");
    let e = Entry::parse(&line).unwrap();
    assert_eq!(e.day_of_month, TimeConfig::Exact(1));
    assert_eq!(e.day_of_week, TimeConfig::Exact(2));
    assert_eq!(e.hour, TimeConfig::Exact(3));
    assert_eq!(e.minute, TimeConfig::Exact(4));
    assert_eq!(e.command, "echo hi");
}

#[test]
fn entry_command_keeps_spaces() {
    let line = String::from("* /2 * /15 echo a  b   c");
    let e = Entry::parse(&line).unwrap();
    assert_eq!(e.day_of_month, TimeConfig::Any);
    assert_eq!(e.day_of_week, TimeConfig::DividableBy(2));
    assert_eq!(e.hour, TimeConfig::Any);
    assert_eq!(e.minute, TimeConfig::DividableBy(15));
    assert_eq!(e.command, "echo a  b   c");
}

#[test]
fn entry_wrong_field_count() {
    let r = Entry::parse(&String::from("a b c"));
    assert!(matches!(r, Err(LineError::WrongFieldCount(3))));
    let r = Entry::parse(&String::from("* * * *"));
    assert!(matches!(r, Err(LineError::WrongFieldCount(4))));
    let r = Entry::parse(&String::from(""));
    assert!(matches!(r, Err(LineError::WrongFieldCount(1))));
    let r = Entry::parse(&String::from("echo"));
    assert!(matches!(r, Err(LineError::WrongFieldCount(1))));
}

#[test]
fn entry_empty_command_parses() {
    // Exactly four delimiters and nothing after the last one: the command is
    // the empty string, kept rather than rejected.
    let e = Entry::parse(&String::from("* * * * ")).unwrap();
    assert_eq!(e.command, "");
}

#[test]
fn parse_rejects_non_ascii_text() {
    assert_eq!(TimeConfig::parse("é"), Err(ParseError::MalformedNumber));
    assert_eq!(TimeConfig::parse("€5"), Err(ParseError::MalformedNumber));
    assert_eq!(TimeConfig::parse("/é"), Err(ParseError::MalformedDivisor));
}

#[test]
fn entry_command_may_hold_non_ascii_text() {
    let e = Entry::parse(&String::from("* * * * echo héllo wörld")).unwrap();
    assert_eq!(e.command, "echo héllo wörld");
}

#[test]
fn entry_field_error_names_the_field() {
    let r = Entry::parse(&String::from("* x * * cmd"));
    assert!(matches!(r, Err(LineError::BadField(RuleField::DayOfWeek, ParseError::MalformedNumber))));
    // A double space makes the field between the two spaces empty.
    let r = Entry::parse(&String::from("* *  * * cmd"));
    assert!(matches!(r, Err(LineError::BadField(RuleField::Hour, ParseError::EmptyField))));
    let r = Entry::parse(&String::from("x * * * cmd"));
    assert!(matches!(r, Err(LineError::BadField(RuleField::DayOfMonth, ParseError::MalformedNumber))));
    let r = Entry::parse(&String::from("* * * /0 cmd"));
    assert!(matches!(r, Err(LineError::BadField(RuleField::Minute, ParseError::MalformedDivisor))));
}
