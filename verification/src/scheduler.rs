//! The scheduler: the parsed rule set, the two nominal timestamps of the
//! minute cadence, and the per-tick decision of what to sleep and what to
//! dispatch.
//!
//! Nominal time is kept as whole seconds since the Unix epoch and advances by
//! exactly one minute per tick, anchored to the previous nominal tick rather
//! than to the wall clock, so that dispatch latency never accumulates into
//! drift. The caller performs the sleeping and the spawning; the scheduler
//! only decides, so one command's spawn failure can never affect another
//! rule's evaluation, in the same tick or later ones.

use vstd::prelude::*;
use crate::entry::{Entry, EntryView, LineError, Timestamp, spec_parse_line};
use chrono::{Datelike, Timelike};

verus! {

/// The last representable second (23:59:59 on the last day of year 9999):
/// every nominal timestamp the scheduler handles stays below this bound.
pub const MAX_UTC_SECONDS: i64 = 253_402_300_799;

/// The four calendar fields (day-of-month, day-of-week from Monday, hour,
/// minute) of a UTC timestamp in seconds, as the proleptic Gregorian
/// calendar determines them. Named but not written out here: the calendar
/// computation is chrono's, and the trusted accessor below is the one place
/// that relates a timestamp to these fields.
pub uninterp spec fn utc_fields_of(seconds: int) -> (u32, u32, u32, u32);

/// The timestamp value holding the calendar fields of a UTC second.
pub open spec fn timestamp_at(seconds: int) -> Timestamp {
    Timestamp {
        day_of_month: utc_fields_of(seconds).0,
        day_of_week: utc_fields_of(seconds).1,
        hour: utc_fields_of(seconds).2,
        minute: utc_fields_of(seconds).3,
    }
}

/// Relies on `chrono::DateTime::<Utc>::from_timestamp` and the `Datelike` /
/// `Timelike` accessors `day`, `weekday().number_from_monday()`, `hour` and
/// `minute`: the UTC calendar fields of a Unix timestamp depend on the
/// timestamp alone, and `from_timestamp` documents `Some` for every
/// in-range number of seconds, which the bound up to year 9999 guarantees.
#[verifier::external_body]
fn utc_timestamp(seconds: i64) -> (t: Timestamp)
    requires
        0 <= seconds <= MAX_UTC_SECONDS,
    ensures
        (t.day_of_month, t.day_of_week, t.hour, t.minute) == utc_fields_of(seconds as int),
{
    let dt = chrono::DateTime::<chrono::Utc>::from_timestamp(seconds, 0).unwrap();
    Timestamp {
        day_of_month: dt.day(),
        day_of_week: dt.weekday().number_from_monday(),
        hour: dt.hour(),
        minute: dt.minute(),
    }
}

/// The commands of the rules among `es` that fire at `t`, in rule order.
pub open spec fn spec_due(es: Seq<Entry>, t: Timestamp) -> Seq<Seq<char>>
    decreases es.len(),
{
    if es.len() == 0 {
        Seq::empty()
    } else {
        spec_due(es.drop_last(), t) + if es.last()@.spec_should_run(t) {
            seq![es.last().command@]
        } else {
            Seq::empty()
        }
    }
}

/// Evaluates every rule against one timestamp and collects the commands of
/// those that fire, in rule order. Every rule is evaluated: nothing that
/// happens to one command's dispatch can keep a later rule from being
/// considered, because dispatching is not this function's business at all.
pub fn due_commands(entries: &Vec<Entry>, time: &Timestamp) -> (r: Vec<String>)
    requires
        forall|i: int| 0 <= i < entries@.len() ==> (#[trigger] entries@[i])@.wf(),
    ensures
        r.deep_view() == spec_due(entries@, *time),
{
    let ghost es = entries@;
    let mut r: Vec<String> = Vec::new();
    let mut i: usize = 0;
    while i < entries.len()
        invariant
            es == entries@,
            0 <= i <= es.len(),
            forall|k: int| 0 <= k < es.len() ==> (#[trigger] es[k])@.wf(),
            r.deep_view() == spec_due(es.take(i as int), *time),
        decreases entries.len() - i,
    {
        let ghost pre = es.take(i as int);
        let ghost old_dv = r.deep_view();
        proof {
            assert(es.take(i + 1).drop_last() =~= pre);
            assert(es.take(i + 1).last() == es[i as int]);
            assert(spec_due(es.take(i + 1), *time) == spec_due(pre, *time) + (
            if es[i as int]@.spec_should_run(*time) {
                seq![es[i as int].command@]
            } else {
                Seq::<Seq<char>>::empty()
            }));
        }
        let e = &entries[i];
        if e.should_run(time) {
            r.push(e.command.clone());
            proof {
                assert(r.deep_view() =~= old_dv.push(es[i as int].command@));
                assert(r.deep_view() =~= spec_due(es.take(i + 1), *time));
            }
        } else {
            proof {
                assert(r.deep_view() =~= spec_due(es.take(i + 1), *time));
            }
        }
        i = i + 1;
    }
    proof {
        assert(es.take(es.len() as int) =~= es);
    }
    r
}

/// Where startup parsing failed: the first offending line and its reason.
#[derive(Clone, Copy, Debug, PartialEq, Eq, Structural)]
pub struct StartupError {
    /// The index of the first line that was rejected.
    pub line: usize,
    /// Why that line was rejected.
    pub error: LineError,
}

/// Parses the whole rule set, all or nothing: the first bad line aborts with
/// its index and reason, and no partial rule set is ever produced.
pub fn parse_rules(lines: &Vec<String>) -> (r: Result<Vec<Entry>, StartupError>)
    ensures
        match r {
            Ok(es) => es@.len() == lines@.len() && forall|i: int|
                0 <= i < lines@.len() ==> spec_parse_line(lines@[i]@) == Ok::<
                    EntryView,
                    LineError,
                >((#[trigger] es@[i])@) && es@[i]@.wf(),
            Err(se) => se.line < lines@.len() && spec_parse_line(lines@[se.line as int]@)
                == Err::<EntryView, LineError>(se.error) && forall|j: int|
                0 <= j < se.line ==> (#[trigger] spec_parse_line(lines@[j]@)) is Ok,
        },
{
    let mut es: Vec<Entry> = Vec::new();
    let mut i: usize = 0;
    while i < lines.len()
        invariant
            0 <= i <= lines@.len(),
            es@.len() == i,
            forall|k: int| 0 <= k < i ==> spec_parse_line(lines@[k]@) == Ok::<
                EntryView,
                LineError,
            >((#[trigger] es@[k])@) && es@[k]@.wf(),
        decreases lines.len() - i,
    {
        match Entry::parse(&lines[i]) {
            Ok(e) => {
                es.push(e);
            },
            Err(er) => {
                proof {
                    assert forall|j: int| 0 <= j < i implies (#[trigger] spec_parse_line(
                        lines@[j]@,
                    )) is Ok by {
                        assert(spec_parse_line(lines@[j]@) == Ok::<EntryView, LineError>(es@[j]@));
                    }
                }
                return Err(StartupError { line: i, error: er });
            },
        }
        i = i + 1;
    }
    Ok(es)
}

/// What one tick decides: how long to suspend before the nominal minute is
/// reached, and which commands are due at it.
pub struct Tick {
    /// Whole seconds to sleep before dispatching; zero when the nominal
    /// minute has already passed, in which case the loop catches up without
    /// sleeping.
    pub sleep_seconds: u64,
    /// The commands of the rules that fire at the nominal minute, in rule
    /// order.
    pub due: Vec<String>,
}

/// The scheduler's whole state: the immutable rule set and the two nominal
/// timestamps of the minute cadence, in seconds since the Unix epoch.
pub struct Scheduler {
    /// The parsed rule set, owned by the loop and read-only after startup.
    pub entries: Vec<Entry>,
    /// The nominal timestamp whose rules the last tick evaluated.
    pub current: i64,
    /// The nominal timestamp one minute later, which the next tick makes
    /// current.
    pub next: i64,
}

impl Scheduler {
    /// The state invariant: nominal time is in range and `next` trails
    /// `current` by exactly one minute, whatever the wall clock does; and
    /// every rule is well formed.
    pub open spec fn wf(&self) -> bool {
        &&& 0 <= self.current
        &&& self.next == self.current + 60
        &&& self.next <= MAX_UTC_SECONDS
        &&& forall|i: int| 0 <= i < self.entries@.len() ==> (#[trigger] self.entries@[i])@.wf()
    }

    /// Starts the cadence at the given wall-clock second: the first tick
    /// will evaluate the minute after `start_seconds`.
    pub fn new(entries: Vec<Entry>, start_seconds: i64) -> (s: Scheduler)
        requires
            0 <= start_seconds,
            start_seconds + 60 <= MAX_UTC_SECONDS,
            forall|i: int| 0 <= i < entries@.len() ==> (#[trigger] entries@[i])@.wf(),
        ensures
            s.entries == entries,
            s.current == start_seconds,
            s.next == start_seconds + 60,
            s.wf(),
    {
        Scheduler { entries, current: start_seconds, next: start_seconds + 60 }
    }

    /// One tick of the steady-state cycle: the nominal minute advances by
    /// exactly one minute, anchored to the previous nominal tick and not to
    /// `now_seconds`, so per-tick latency never accumulates; the sleep lasts
    /// until one minute past the new nominal minute, or not at all when the
    /// wall clock has already overrun it; and the due commands are those of
    /// the rules that fire at the new nominal minute. The sleep amount is
    /// proved non-negative and representable, so no conversion to the sleep
    /// primitive can fail.
    pub fn tick(&mut self, now_seconds: i64) -> (r: Tick)
        requires
            old(self).wf(),
            old(self).next + 120 <= MAX_UTC_SECONDS,
            0 <= now_seconds,
        ensures
            final(self).current == old(self).next,
            final(self).next == old(self).next + 60,
            final(self).entries == old(self).entries,
            final(self).wf(),
            r.sleep_seconds == (if old(self).next + 60 > now_seconds {
                old(self).next + 60 - now_seconds
            } else {
                0int
            }),
            r.due.deep_view() == spec_due(old(self).entries@, timestamp_at(old(self).next as int)),
    {
        self.current = self.next;
        self.next = self.next + 60;
        let sleep_seconds: u64 = if self.next > now_seconds {
            (self.next - now_seconds) as u64
        } else {
            0
        };
        let ts = utc_timestamp(self.current);
        proof {
            assert(ts == timestamp_at(old(self).next as int));
        }
        let due = due_commands(&self.entries, &ts);
        Tick { sleep_seconds, due }
    }
}

} // verus!
