//! A rule line: four field matchers (day-of-month, day-of-week, hour,
//! minute) and a command string, parsed from one whitespace-delimited line
//! and evaluated against a timestamp.

use vstd::prelude::*;
use vstd::string::StrSliceExecFns;
use crate::matcher::{TimeConfig, ParseError, spec_parse_field, lemma_parse_field_wf};

verus! {

/// The calendar fields of one UTC minute, as plain values. Day-of-month
/// starts at 1; day-of-week is 1 (Monday) through 7 (Sunday); hour is 0-23;
/// minute is 0-59. The ranges are a convention of whoever supplies the
/// value: matching itself never depends on them.
#[derive(Clone, Copy, Debug, PartialEq, Eq, Structural)]
pub struct Timestamp {
    pub day_of_month: u32,
    pub day_of_week: u32,
    pub hour: u32,
    pub minute: u32,
}

/// Which of the four time fields of a rule line a parse error belongs to.
#[derive(Clone, Copy, Debug, PartialEq, Eq, Structural)]
pub enum RuleField {
    DayOfMonth,
    DayOfWeek,
    Hour,
    Minute,
}

/// Why a whole rule line was rejected.
#[derive(Clone, Copy, Debug, PartialEq, Eq, Structural)]
pub enum LineError {
    /// The line did not split into exactly five fields; the payload is the
    /// number of fields that were observed.
    WrongFieldCount(usize),
    /// One of the four time fields was rejected, with its position and the
    /// field-level reason.
    BadField(RuleField, ParseError),
}

/// One scheduled rule: the four field matchers and the command to dispatch.
///
/// The command is opaque text handed verbatim to a shell at dispatch time; an
/// empty command is kept and dispatched like any other, never silently
/// dropped.
pub struct Entry {
    pub day_of_month: TimeConfig,
    pub day_of_week: TimeConfig,
    pub hour: TimeConfig,
    pub minute: TimeConfig,
    pub command: String,
}

/// The mathematical image of an [`Entry`]: the same matchers, with the
/// command as a sequence of characters.
pub struct EntryView {
    pub day_of_month: TimeConfig,
    pub day_of_week: TimeConfig,
    pub hour: TimeConfig,
    pub minute: TimeConfig,
    pub command: Seq<char>,
}

impl View for Entry {
    type V = EntryView;

    open spec fn view(&self) -> EntryView {
        EntryView {
            day_of_month: self.day_of_month,
            day_of_week: self.day_of_week,
            hour: self.hour,
            minute: self.minute,
            command: self.command@,
        }
    }
}

impl EntryView {
    /// All four matchers are well formed (no zero divisor anywhere).
    pub open spec fn wf(&self) -> bool {
        self.day_of_month.wf() && self.day_of_week.wf() && self.hour.wf() && self.minute.wf()
    }

    /// Whether the rule fires at the given timestamp: the conjunction of all
    /// four field matchers.
    pub open spec fn spec_should_run(&self, t: Timestamp) -> bool {
        self.day_of_month.spec_matches(t.day_of_month) && self.day_of_week.spec_matches(
            t.day_of_week,
        ) && self.hour.spec_matches(t.hour) && self.minute.spec_matches(t.minute)
    }
}

/// The position of the first space in `s`, if any.
pub open spec fn find_space(s: Seq<char>) -> Option<int>
    decreases s.len(),
{
    if s.len() == 0 {
        None
    } else if s[0] == ' ' {
        Some(0int)
    } else {
        match find_space(s.skip(1)) {
            None => None,
            Some(i) => Some(i + 1),
        }
    }
}

/// If position `i` holds the first space of `s`, then `find_space` says so.
proof fn lemma_find_space_at(s: Seq<char>, i: int)
    requires
        0 <= i < s.len(),
        s[i] == ' ',
        forall|j: int| 0 <= j < i ==> s[j] != ' ',
    ensures
        find_space(s) == Some(i),
    decreases i,
{
    if i > 0 {
        lemma_find_space_at(s.skip(1), i - 1);
    }
}

/// If `s` holds no space at all, `find_space` finds none.
proof fn lemma_find_space_none(s: Seq<char>)
    requires
        forall|j: int| 0 <= j < s.len() ==> s[j] != ' ',
    ensures
        find_space(s) == None::<int>,
    decreases s.len(),
{
    if s.len() > 0 {
        lemma_find_space_none(s.skip(1));
    }
}

/// Splitting on single spaces into at most `n` pieces, the way
/// `str::splitn(n, " ")` splits: the last piece keeps the rest of the text
/// verbatim, spaces included.
pub open spec fn spec_splitn(s: Seq<char>, n: nat) -> Seq<Seq<char>>
    decreases n,
{
    if n <= 1 {
        seq![s]
    } else {
        match find_space(s) {
            None => seq![s],
            Some(i) => seq![s.take(i)] + spec_splitn(s.skip(i + 1), (n - 1) as nat),
        }
    }
}

/// What parsing a rule line yields, as a mathematical function of the line:
/// exactly five space-delimited fields, the first four read as field
/// matchers, the fifth kept verbatim as the command.
pub open spec fn spec_parse_line(s: Seq<char>) -> Result<EntryView, LineError> {
    let parts = spec_splitn(s, 5);
    if parts.len() != 5 {
        Err(LineError::WrongFieldCount(parts.len() as usize))
    } else {
        match spec_parse_field(parts[0]) {
            Err(e) => Err(LineError::BadField(RuleField::DayOfMonth, e)),
            Ok(dom) => match spec_parse_field(parts[1]) {
                Err(e) => Err(LineError::BadField(RuleField::DayOfWeek, e)),
                Ok(dow) => match spec_parse_field(parts[2]) {
                    Err(e) => Err(LineError::BadField(RuleField::Hour, e)),
                    Ok(hour) => match spec_parse_field(parts[3]) {
                        Err(e) => Err(LineError::BadField(RuleField::Minute, e)),
                        Ok(minute) => Ok(
                            EntryView {
                                day_of_month: dom,
                                day_of_week: dow,
                                hour,
                                minute,
                                command: parts[4],
                            },
                        ),
                    },
                },
            },
        }
    }
}

/// A rule that parses is well formed in every field.
pub proof fn lemma_parse_line_wf(s: Seq<char>, e: EntryView)
    requires
        spec_parse_line(s) == Ok::<EntryView, LineError>(e),
    ensures
        e.wf(),
{
    let parts = spec_splitn(s, 5);
    lemma_parse_field_wf(parts[0], e.day_of_month);
    lemma_parse_field_wf(parts[1], e.day_of_week);
    lemma_parse_field_wf(parts[2], e.hour);
    lemma_parse_field_wf(parts[3], e.minute);
}

/// Finds the first space of `s` at position `from` or later.
fn find_space_from(s: &str, n: usize, from: usize) -> (r: Option<usize>)
    requires
        n == s@.len(),
        from <= n,
    ensures
        match r {
            Some(i) => from <= i < n && s@[i as int] == ' ' && (forall|j: int|
                from <= j < i ==> s@[j] != ' '),
            None => forall|j: int| from <= j < n ==> s@[j] != ' ',
        },
{
    let mut i: usize = from;
    while i < n
        invariant
            n == s@.len(),
            from <= i <= n,
            forall|j: int| from <= j < i ==> s@[j] != ' ',
        decreases n - i,
    {
        if s.get_char(i) == ' ' {
            return Some(i);
        }
        i = i + 1;
    }
    None
}

impl Entry {
    /// Reads one rule line: exactly five space-delimited fields, the first
    /// four as field matchers, the fifth as the command, kept verbatim even
    /// if it contains further spaces or is empty.
    #[verifier::rlimit(100)]
    pub fn parse(line: &String) -> (r: Result<Self, LineError>)
        ensures
            match r {
                Ok(e) => spec_parse_line(line@) == Ok::<EntryView, LineError>(e@) && e@.wf(),
                Err(er) => spec_parse_line(line@) == Err::<EntryView, LineError>(er),
            },
    {
        let s = line.as_str();
        let n = s.unicode_len();
        let i1 = match find_space_from(s, n, 0) {
            None => {
                proof {
                    lemma_find_space_none(s@);
                }
                return Err(LineError::WrongFieldCount(1));
            },
            Some(i) => i,
        };
        proof {
            lemma_find_space_at(s@, i1 as int);
        }
        let ghost t1 = s@.skip(i1 + 1);
        let i2 = match find_space_from(s, n, i1 + 1) {
            None => {
                proof {
                    assert(forall|j: int| 0 <= j < t1.len() ==> t1[j] != ' ');
                    lemma_find_space_none(t1);
                    assert(spec_splitn(s@, 5) == seq![s@.take(i1 as int)] + spec_splitn(t1, 4));
                    assert(spec_splitn(t1, 4) == seq![t1]);
                    assert(spec_splitn(s@, 5).len() == 2);
                }
                return Err(LineError::WrongFieldCount(2));
            },
            Some(i) => i,
        };
        proof {
            assert(t1[i2 - (i1 + 1)] == ' ');
            assert(forall|j: int| 0 <= j < i2 - (i1 + 1) ==> t1[j] != ' ');
            lemma_find_space_at(t1, i2 - (i1 + 1));
            assert(t1.skip(i2 - i1) =~= s@.skip(i2 + 1));
            assert(spec_splitn(s@, 5) == seq![s@.take(i1 as int)] + spec_splitn(t1, 4));
            assert(spec_splitn(t1, 4) == seq![t1.take(i2 - (i1 + 1))] + spec_splitn(
                s@.skip(i2 + 1),
                3,
            ));
        }
        let ghost t2 = s@.skip(i2 + 1);
        let i3 = match find_space_from(s, n, i2 + 1) {
            None => {
                proof {
                    assert(forall|j: int| 0 <= j < t2.len() ==> t2[j] != ' ');
                    lemma_find_space_none(t2);
                    assert(spec_splitn(t2, 3) == seq![t2]);
                    assert(spec_splitn(s@, 5).len() == 3);
                }
                return Err(LineError::WrongFieldCount(3));
            },
            Some(i) => i,
        };
        proof {
            assert(t2[i3 - (i2 + 1)] == ' ');
            assert(forall|j: int| 0 <= j < i3 - (i2 + 1) ==> t2[j] != ' ');
            lemma_find_space_at(t2, i3 - (i2 + 1));
            assert(t2.skip(i3 - i2) =~= s@.skip(i3 + 1));
            assert(spec_splitn(t2, 3) == seq![t2.take(i3 - (i2 + 1))] + spec_splitn(
                s@.skip(i3 + 1),
                2,
            ));
        }
        let ghost t3 = s@.skip(i3 + 1);
        let i4 = match find_space_from(s, n, i3 + 1) {
            None => {
                proof {
                    assert(forall|j: int| 0 <= j < t3.len() ==> t3[j] != ' ');
                    lemma_find_space_none(t3);
                    assert(spec_splitn(t3, 2) == seq![t3]);
                    assert(spec_splitn(s@, 5).len() == 4);
                }
                return Err(LineError::WrongFieldCount(4));
            },
            Some(i) => i,
        };
        proof {
            assert(t3[i4 - (i3 + 1)] == ' ');
            assert(forall|j: int| 0 <= j < i4 - (i3 + 1) ==> t3[j] != ' ');
            lemma_find_space_at(t3, i4 - (i3 + 1));
            assert(t3.skip(i4 - i3) =~= s@.skip(i4 + 1));
            assert(spec_splitn(t3, 2) == seq![t3.take(i4 - (i3 + 1))] + spec_splitn(
                s@.skip(i4 + 1),
                1,
            ));
            assert(spec_splitn(s@.skip(i4 + 1), 1) == seq![s@.skip(i4 + 1)]);
        }
        let ghost parts = spec_splitn(s@, 5);
        proof {
            assert(t1.take(i2 - (i1 + 1)) =~= s@.subrange(i1 + 1, i2 as int));
            assert(t2.take(i3 - (i2 + 1)) =~= s@.subrange(i2 + 1, i3 as int));
            assert(t3.take(i4 - (i3 + 1)) =~= s@.subrange(i3 + 1, i4 as int));
            assert(parts =~= seq![
                s@.take(i1 as int),
                s@.subrange(i1 + 1, i2 as int),
                s@.subrange(i2 + 1, i3 as int),
                s@.subrange(i3 + 1, i4 as int),
                s@.skip(i4 + 1),
            ]);
        }
        let f0 = s.substring_char(0, i1);
        let f1 = s.substring_char(i1 + 1, i2);
        let f2 = s.substring_char(i2 + 1, i3);
        let f3 = s.substring_char(i3 + 1, i4);
        let day_of_month = match TimeConfig::parse(f0) {
            Ok(m) => m,
            Err(e) => {
                return Err(LineError::BadField(RuleField::DayOfMonth, e));
            },
        };
        let day_of_week = match TimeConfig::parse(f1) {
            Ok(m) => m,
            Err(e) => {
                return Err(LineError::BadField(RuleField::DayOfWeek, e));
            },
        };
        let hour = match TimeConfig::parse(f2) {
            Ok(m) => m,
            Err(e) => {
                return Err(LineError::BadField(RuleField::Hour, e));
            },
        };
        let minute = match TimeConfig::parse(f3) {
            Ok(m) => m,
            Err(e) => {
                return Err(LineError::BadField(RuleField::Minute, e));
            },
        };
        let command = s.substring_char(i4 + 1, n).to_owned();
        Ok(Entry { day_of_month, day_of_week, hour, minute, command })
    }

    /// Whether this rule fires at the given timestamp: all four field
    /// matchers must accept their field, checked in the fixed order
    /// day-of-month, day-of-week, hour, minute, stopping at the first
    /// mismatch (the order only affects speed, never the outcome of the
    /// conjunction).
    pub fn should_run(&self, time: &Timestamp) -> (r: bool)
        requires
            self@.wf(),
        ensures
            r == self@.spec_should_run(*time),
    {
        if !self.day_of_month.matches(&time.day_of_month) {
            return false;
        }
        if !self.day_of_week.matches(&time.day_of_week) {
            return false;
        }
        if !self.hour.matches(&time.hour) {
            return false;
        }
        if !self.minute.matches(&time.minute) {
            return false;
        }
        true
    }
}

/// A line whose first four spaces stand exactly at `i1` to `i4` splits into
/// the four field texts between them and the verbatim remainder.
proof fn lemma_line_parts(s: Seq<char>, i1: int, i2: int, i3: int, i4: int)
    requires
        0 <= i1 < i2 < i3 < i4 < s.len(),
        s[i1] == ' ',
        s[i2] == ' ',
        s[i3] == ' ',
        s[i4] == ' ',
        forall|j: int| 0 <= j < i4 && j != i1 && j != i2 && j != i3 ==> s[j] != ' ',
    ensures
        spec_splitn(s, 5) == seq![
            s.subrange(0, i1),
            s.subrange(i1 + 1, i2),
            s.subrange(i2 + 1, i3),
            s.subrange(i3 + 1, i4),
            s.skip(i4 + 1),
        ],
{
    lemma_find_space_at(s, i1);
    let t1 = s.skip(i1 + 1);
    assert(t1[i2 - (i1 + 1)] == ' ');
    assert(forall|j: int| 0 <= j < i2 - (i1 + 1) ==> t1[j] != ' ');
    lemma_find_space_at(t1, i2 - (i1 + 1));
    assert(t1.skip(i2 - i1) =~= s.skip(i2 + 1));
    let t2 = s.skip(i2 + 1);
    assert(t2[i3 - (i2 + 1)] == ' ');
    assert(forall|j: int| 0 <= j < i3 - (i2 + 1) ==> t2[j] != ' ');
    lemma_find_space_at(t2, i3 - (i2 + 1));
    assert(t2.skip(i3 - i2) =~= s.skip(i3 + 1));
    let t3 = s.skip(i3 + 1);
    assert(t3[i4 - (i3 + 1)] == ' ');
    assert(forall|j: int| 0 <= j < i4 - (i3 + 1) ==> t3[j] != ' ');
    lemma_find_space_at(t3, i4 - (i3 + 1));
    assert(t3.skip(i4 - i3) =~= s.skip(i4 + 1));
    assert(spec_splitn(s, 5) == seq![s.take(i1)] + spec_splitn(t1, 4));
    assert(spec_splitn(t1, 4) == seq![t1.take(i2 - (i1 + 1))] + spec_splitn(s.skip(i2 + 1), 3));
    assert(spec_splitn(t2, 3) == seq![t2.take(i3 - (i2 + 1))] + spec_splitn(s.skip(i3 + 1), 2));
    assert(spec_splitn(t3, 2) == seq![t3.take(i4 - (i3 + 1))] + spec_splitn(s.skip(i4 + 1), 1));
    assert(spec_splitn(s.skip(i4 + 1), 1) == seq![s.skip(i4 + 1)]);
    assert(s.take(i1) =~= s.subrange(0, i1));
    assert(t1.take(i2 - (i1 + 1)) =~= s.subrange(i1 + 1, i2));
    assert(t2.take(i3 - (i2 + 1)) =~= s.subrange(i2 + 1, i3));
    assert(t3.take(i4 - (i3 + 1)) =~= s.subrange(i3 + 1, i4));
    assert(spec_splitn(s, 5) =~= seq![
        s.subrange(0, i1),
        s.subrange(i1 + 1, i2),
        s.subrange(i2 + 1, i3),
        s.subrange(i3 + 1, i4),
        s.skip(i4 + 1),
    ]);
}

/// The one-field texts that the literal rules below use, pinned to their
/// parsed matchers.
proof fn lemma_small_field_texts()
    ensures
        spec_parse_field(seq!['*']) == Ok::<TimeConfig, ParseError>(TimeConfig::Any),
        spec_parse_field(seq!['1']) == Ok::<TimeConfig, ParseError>(TimeConfig::Exact(1)),
        spec_parse_field(seq!['/', '2']) == Ok::<TimeConfig, ParseError>(
            TimeConfig::DividableBy(2),
        ),
        spec_parse_field(seq!['/', '1', '5']) == Ok::<TimeConfig, ParseError>(
            TimeConfig::DividableBy(15),
        ),
{
    reveal_with_fuel(crate::matcher::dec_val, 4);
    assert(seq!['1'].drop_last() =~= Seq::<char>::empty());
    assert(crate::matcher::dec_val(seq!['1']) == 1);
    assert(seq!['/', '2'].skip(1) =~= seq!['2']);
    assert(seq!['2'].drop_last() =~= Seq::<char>::empty());
    assert(crate::matcher::dec_val(seq!['2']) == 2);
    assert(seq!['/', '1', '5'].skip(1) =~= seq!['1', '5']);
    assert(seq!['1', '5'].drop_last() =~= seq!['1']);
    assert(crate::matcher::dec_val(seq!['1', '5']) == 15);
}

/// The rule line `* * * * echo hi` parses, and the rule it yields fires at
/// every timestamp whatsoever.
pub proof fn lemma_wildcard_line_fires_always(t: Timestamp)
    ensures
        spec_parse_line("* * * * echo hi"@) matches Ok(e) && e.spec_should_run(t),
{
    reveal_strlit("* * * * echo hi");
    let s = "* * * * echo hi"@;
    lemma_line_parts(s, 1, 3, 5, 7);
    lemma_small_field_texts();
    assert(s.subrange(0, 1) =~= seq!['*']);
    assert(s.subrange(2, 3) =~= seq!['*']);
    assert(s.subrange(4, 5) =~= seq!['*']);
    assert(s.subrange(6, 7) =~= seq!['*']);
}

/// The rule line `1 * * * cmd` parses, and the rule it yields fires at
/// exactly the timestamps whose day-of-month is 1.
pub proof fn lemma_day_one_line(t: Timestamp)
    ensures
        spec_parse_line("1 * * * cmd"@) matches Ok(e) && (e.spec_should_run(t) <==> t.day_of_month
            == 1),
{
    reveal_strlit("1 * * * cmd");
    let s = "1 * * * cmd"@;
    lemma_line_parts(s, 1, 3, 5, 7);
    lemma_small_field_texts();
    assert(s.subrange(0, 1) =~= seq!['1']);
    assert(s.subrange(2, 3) =~= seq!['*']);
    assert(s.subrange(4, 5) =~= seq!['*']);
    assert(s.subrange(6, 7) =~= seq!['*']);
}

/// The rule line `* * /2 * cmd` parses, and the rule it yields fires at
/// exactly the timestamps with an even hour.
pub proof fn lemma_even_hours_line(t: Timestamp)
    ensures
        spec_parse_line("* * /2 * cmd"@) matches Ok(e) && (e.spec_should_run(t) <==> t.hour % 2
            == 0),
{
    reveal_strlit("* * /2 * cmd");
    let s = "* * /2 * cmd"@;
    lemma_line_parts(s, 1, 3, 6, 8);
    lemma_small_field_texts();
    assert(s.subrange(0, 1) =~= seq!['*']);
    assert(s.subrange(2, 3) =~= seq!['*']);
    assert(s.subrange(4, 6) =~= seq!['/', '2']);
    assert(s.subrange(7, 8) =~= seq!['*']);
}

/// The rule line `* * * /15 cmd` parses, and the rule it yields fires at
/// exactly the timestamps whose minute is a multiple of 15; among the
/// minutes of an hour those are 0, 15, 30 and 45 only.
pub proof fn lemma_quarter_minutes_line(t: Timestamp)
    ensures
        spec_parse_line("* * * /15 cmd"@) matches Ok(e) && (e.spec_should_run(t) <==> t.minute % 15
            == 0),
        spec_parse_line("* * * /15 cmd"@) matches Ok(e) && (t.minute < 60 ==> (e.spec_should_run(t)
            <==> (t.minute == 0 || t.minute == 15 || t.minute == 30 || t.minute == 45))),
{
    reveal_strlit("* * * /15 cmd");
    let s = "* * * /15 cmd"@;
    lemma_line_parts(s, 1, 3, 5, 9);
    lemma_small_field_texts();
    assert(s.subrange(0, 1) =~= seq!['*']);
    assert(s.subrange(2, 3) =~= seq!['*']);
    assert(s.subrange(4, 5) =~= seq!['*']);
    assert(s.subrange(6, 9) =~= seq!['/', '1', '5']);
}

/// A rule whose four fields all accept any value fires at every timestamp.
pub proof fn lemma_wildcard_rule_fires_always(e: EntryView, t: Timestamp)
    requires
        e.day_of_month is Any,
        e.day_of_week is Any,
        e.hour is Any,
        e.minute is Any,
    ensures
        e.spec_should_run(t),
{
}

/// A rule exact in its day-of-month and wildcarded everywhere else fires at
/// exactly the timestamps with that day-of-month.
pub proof fn lemma_day_of_month_rule(e: EntryView, t: Timestamp, n: u32)
    requires
        e.day_of_month == TimeConfig::Exact(n),
        e.day_of_week is Any,
        e.hour is Any,
        e.minute is Any,
    ensures
        e.spec_should_run(t) <==> t.day_of_month == n,
{
}

/// A rule with a divisibility hour field and wildcards everywhere else fires
/// at exactly the timestamps whose hour the divisor divides.
pub proof fn lemma_divisible_hour_rule(e: EntryView, t: Timestamp, n: u32)
    requires
        e.day_of_month is Any,
        e.day_of_week is Any,
        e.hour == TimeConfig::DividableBy(n),
        e.minute is Any,
    ensures
        e.spec_should_run(t) <==> t.hour % n == 0,
{
}

/// A rule with a divisibility minute field and wildcards everywhere else
/// fires at exactly the timestamps whose minute the divisor divides.
pub proof fn lemma_divisible_minute_rule(e: EntryView, t: Timestamp, n: u32)
    requires
        e.day_of_month is Any,
        e.day_of_week is Any,
        e.hour is Any,
        e.minute == TimeConfig::DividableBy(n),
    ensures
        e.spec_should_run(t) <==> t.minute % n == 0,
{
}

/// The number of spaces in `s`.
pub open spec fn count_spaces(s: Seq<char>) -> nat
    decreases s.len(),
{
    if s.len() == 0 {
        0nat
    } else {
        count_spaces(s.skip(1)) + if s[0] == ' ' {
            1nat
        } else {
            0nat
        }
    }
}

/// A space-free text has a space count of zero.
proof fn lemma_count_spaces_none(s: Seq<char>)
    requires
        find_space(s) == None::<int>,
    ensures
        count_spaces(s) == 0,
    decreases s.len(),
{
    if s.len() > 0 {
        lemma_count_spaces_none(s.skip(1));
    }
}

/// Cutting a text at its first space removes exactly one space.
proof fn lemma_count_spaces_some(s: Seq<char>, i: int)
    requires
        find_space(s) == Some(i),
    ensures
        0 <= i < s.len(),
        count_spaces(s) == 1 + count_spaces(s.skip(i + 1)),
    decreases s.len(),
{
    if s[0] != ' ' {
        lemma_count_spaces_some(s.skip(1), i - 1);
        assert(s.skip(1).skip(i) =~= s.skip(i + 1));
    }
}

/// Splitting into at most `n` pieces yields one piece more than the number
/// of spaces, capped at `n`.
proof fn lemma_splitn_len(s: Seq<char>, n: nat)
    requires
        n >= 1,
    ensures
        spec_splitn(s, n).len() == 1 + vstd::math::min((n - 1) as int, count_spaces(s) as int),
    decreases n,
{
    if n > 1 {
        match find_space(s) {
            None => {
                lemma_count_spaces_none(s);
            },
            Some(i) => {
                lemma_count_spaces_some(s, i);
                lemma_splitn_len(s.skip(i + 1), (n - 1) as nat);
            },
        }
    }
}

/// A line with fewer than four spaces never parses: it fails with
/// `WrongFieldCount`, carrying the number of fields that were observed.
pub proof fn lemma_wrong_field_count(s: Seq<char>)
    requires
        count_spaces(s) < 4,
    ensures
        spec_parse_line(s) == Err::<EntryView, LineError>(
            LineError::WrongFieldCount((count_spaces(s) + 1) as usize),
        ),
{
    lemma_splitn_len(s, 5);
}

} // verus!
