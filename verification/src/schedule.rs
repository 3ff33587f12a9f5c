//! When the scheduled runs are due.

use vstd::prelude::*;
use vstd::string::StringExecFns;
use chrono::{DateTime, Local, TimeDelta};
use crate::clock;
use crate::clock::{wait_until, CivilTime, Moment, Wait, FIRST_SECOND, LAST_SECOND};
use crate::refusal::Refusal;
use crate::text;
use crate::text::{pieces, CharClass};

verus! {

/// The schedule of the `cron` crate.
#[verifier::external_type_specification]
#[verifier::external_body]
pub struct ExSchedule(cron::Schedule);

/// What a schedule holds: the expression that says in which years, months,
/// days, hours, minutes and seconds it is due.
pub uninterp spec fn schedule_source(schedule: cron::Schedule) -> Seq<char>;

/// Whether the `cron` crate takes an expression of six or seven fields.
pub uninterp spec fn cron_accepts(expression: Seq<char>) -> bool;

/// The error that the `cron` crate gives for an expression that it does not
/// take.
pub uninterp spec fn cron_error(expression: Seq<char>) -> cron::error::Error;

/// `cron::Schedule::from_str`. Whether it takes an expression, and which error
/// it gives otherwise, depends on the expression alone, and the schedule it
/// gives keeps that expression as its source.
#[verifier::external_body]
fn read_cron(expression: &str) -> (r: Result<cron::Schedule, cron::error::Error>)
    ensures
        r is Ok <==> cron_accepts(expression@),
        r matches Ok(schedule) ==> schedule_source(schedule) == expression@,
        r matches Err(error) ==> error == cron_error(expression@),
{
    expression.parse::<cron::Schedule>()
}

/// The expression in full, with a field for the seconds: expressions of five
/// fields are due in second 0, those of six or seven are taken as they are,
/// and others are none.
pub open spec fn full_expression(expression: Seq<char>) -> Option<Seq<char>> {
    let fields = pieces(expression, CharClass::WhiteSpace).len();
    if fields == 5 {
        Some("0 "@ + expression)
    } else if fields == 6 || fields == 7 {
        Some(expression)
    } else {
        None
    }
}

/// Writes the expression in full, with a field for the seconds.
pub fn complete_expression(expression: &str) -> (r: Result<String, Refusal>)
    ensures
        match full_expression(expression@) {
            Some(full) => r matches Ok(s) && s@ == full,
            None => r matches Err(Refusal::CronFieldCount),
        },
{
    let fields: usize = text::split(expression, CharClass::WhiteSpace).len();
    if fields == 5 {
        let mut full = "0 ".to_owned();
        full.append(expression);
        Ok(full)
    } else if fields == 6 || fields == 7 {
        Ok(expression.to_owned())
    } else {
        Err(Refusal::CronFieldCount)
    }
}

/// Gives the schedule that was read from `expression`, or the reason why none
/// was.
pub fn schedule_or_error(
    expression: &str,
    read: Result<cron::Schedule, cron::error::Error>,
) -> (r: Result<cron::Schedule, Refusal>)
    ensures
        match read {
            Ok(schedule) => r matches Ok(s) && s == schedule,
            Err(error) => r matches Err(Refusal::CronSyntax { expression: e, cause }) && e@
                == expression@ && cause == error,
        },
{
    match read {
        Ok(schedule) => Ok(schedule),
        Err(cause) => Err(Refusal::CronSyntax { expression: expression.to_owned(), cause }),
    }
}

/// Reads a cron expression of five, six or seven fields.
pub fn parse_schedule(expression: &str) -> (r: Result<cron::Schedule, Refusal>)
    ensures
        match full_expression(expression@) {
            Some(full) => if cron_accepts(full) {
                r matches Ok(schedule) && schedule_source(schedule) == full
            } else {
                r matches Err(Refusal::CronSyntax { expression: e, cause }) && e@ == expression@
                    && cause == cron_error(full)
            },
            None => r matches Err(Refusal::CronFieldCount),
        },
{
    match complete_expression(expression) {
        Ok(full) => schedule_or_error(expression, read_cron(full.as_str())),
        Err(error) => Err(error),
    }
}

/// A second as the clocks of a place show it.
#[derive(Clone, Copy, Debug, PartialEq, Eq, Structural)]
pub struct LocalTime {
    pub year: i32,
    pub month: u32,
    pub day: u32,
    pub hour: u32,
    pub minute: u32,
    pub second: u32,
}

impl View for LocalTime {
    type V = CivilTime;

    open spec fn view(&self) -> CivilTime {
        CivilTime {
            year: self.year as int,
            month: self.month as int,
            day: self.day as int,
            hour: self.hour as int,
            minute: self.minute as int,
            second: self.second as int,
        }
    }
}

/// A run that a schedule provides for.
#[derive(Debug)]
pub struct NextRun {
    /// When it is due.
    pub at: Moment,
    /// The same in local time.
    pub local: LocalTime,
    /// The local time for people to read.
    pub shown: String,
}

/// How far from the ends of the calendar a time has to be so that its local time
/// and what follows it are on the calendar.
pub const MARGIN_SECONDS: i64 = 172_800;

/// Whether a schedule can be asked for what follows `now`: the calendar covers
/// `now` and the two days on either side of it.
pub open spec fn can_follow(now: Moment) -> bool {
    now.valid() && FIRST_SECOND + MARGIN_SECONDS <= now.seconds <= LAST_SECOND - MARGIN_SECONDS
}

/// Whether the schedule of an expression, as `cron::Schedule::includes` tells,
/// provides for a run at a local time.
pub uninterp spec fn schedule_includes(source: Seq<char>, local: CivilTime) -> bool;

/// Whether `run` can come after `now` in some place: it falls on a whole second
/// of a local year from 1970 to 2100, and local times are less than a day away
/// from universal time.
pub open spec fn can_come_after(now: Moment, run: NextRun) -> bool {
    &&& run.at.nanos == 0
    &&& run.local@.valid()
    &&& 1970 <= run.local.year <= 2100
    &&& -86_400 < run.local@.unix_seconds() - run.at.seconds < 86_400
    &&& run.local@.unix_seconds() > now.seconds - 86_400
}

/// A run as it is counted in seconds since the start of 1970.
#[derive(Debug)]
pub struct CronRun {
    /// When it is due.
    pub at: i64,
    /// The same as the clocks of the place show it.
    pub local: i64,
    /// The local time for people to read.
    pub shown: String,
}

/// What came of asking for the first run of a schedule after a time. Local times
/// are counted in seconds since the start of 1970 as the clocks of the place show
/// it.
#[derive(Debug)]
pub struct CronAnswer {
    /// The local time of the time asked for.
    pub here: i64,
    /// The local time one second later.
    pub soon: i64,
    /// The first local time after `here` that the schedule provides for.
    pub first: Option<i64>,
    /// Whether the clocks of the place ever show `first`.
    pub on_clocks: bool,
    /// The run.
    pub run: Option<CronRun>,
}

/// `cron::Schedule::after` and the first run that it yields, in the local time
/// zone of the machine. The run falls on a whole second, at a local time that
/// `cron::Schedule::includes` takes. Asked on the same clock readings without
/// regard to a zone, it yields the first local time that the schedule provides
/// for; where the clocks show that time, and are not moved in the second after
/// `now`, the run falls on it. The zone is taken to stay the same during the
/// call. Where the clocks are moved, which run it is and whether there is one
/// rests on the zone and is left unsaid, and so is the text that shows it.
#[verifier::external_body]
pub fn run_after(schedule: &cron::Schedule, now: Moment) -> (answer: CronAnswer)
    requires
        can_follow(now),
    ensures
        answer.run matches Some(run) ==> 0 <= run.local < 4_133_980_800,
        answer.run matches Some(run) ==> -86_400 < run.local - run.at < 86_400,
        answer.run matches Some(run) ==> run.local > now.seconds - 86_400,
        answer.run matches Some(run) ==> forall|t: CivilTime|
            #![trigger t.valid()]
            t.valid() && t.unix_seconds() == run.local ==> schedule_includes(
                schedule_source(*schedule),
                t,
            ),
        -86_400 < answer.here - now.seconds < 86_400,
        answer.first matches Some(first) ==> answer.here < first,
        answer.first matches Some(first) ==> forall|t: CivilTime|
            #![trigger t.valid()]
            t.valid() && 1970 <= t.year <= 2100 && answer.here < t.unix_seconds() < first
                ==> !schedule_includes(schedule_source(*schedule), t),
        answer.first is None && answer.here >= 0 ==> forall|t: CivilTime|
            #![trigger t.valid()]
            t.valid() && 1970 <= t.year <= 2100 && answer.here < t.unix_seconds()
                ==> !schedule_includes(schedule_source(*schedule), t),
        answer.soon == answer.here + 1 ==> (answer.run matches Some(run) ==> answer.here
            < run.local),
        answer.soon == answer.here + 1 && answer.on_clocks ==> (answer.run matches Some(run)
            && answer.first == Some(run.local)),
{
    let now = DateTime::from_timestamp(now.seconds, now.nanos).unwrap().with_timezone(&Local);
    let here = now.naive_local().and_utc();
    let soon = (now + TimeDelta::seconds(1)).naive_local().and_utc().timestamp();
    let first = schedule.after(&here).next();
    let run = schedule.after(&now).next().map(|t| CronRun {
        at: t.timestamp(),
        local: t.naive_local().and_utc().timestamp(),
        shown: t.to_string(),
    });
    CronAnswer {
        here: here.timestamp(), soon, first: first.map(|t| t.timestamp()),
        on_clocks: first.and_then(|t| t.naive_utc().and_local_timezone(Local).earliest()).is_some(),
        run,
    }
}

/// Whether `next` is the run that `answer` tells of.
pub open spec fn is_told(answer: CronAnswer, next: Option<NextRun>) -> bool {
    match answer.run {
        Some(told) => {
            &&& next matches Some(run)
            &&& run.at.seconds == told.at
            &&& run.at.nanos == 0
            &&& run.local@.valid()
            &&& run.local@.unix_seconds() == told.local
            &&& run.shown@ == told.shown@
        },
        None => next is None,
    }
}

/// Whether `next` is what the `cron` crate gave when it was asked for the first
/// run of the schedule after `now`.
pub open spec fn yields(schedule: cron::Schedule, now: Moment, next: Option<NextRun>) -> bool {
    exists|answer: CronAnswer| #[trigger]
        call_ensures(run_after, (&schedule, now), answer) && is_told(answer, next)
}

/// Whether `run` is one that the schedule provides for after `now`.
pub open spec fn is_run_of(schedule: cron::Schedule, now: Moment, run: NextRun) -> bool {
    schedule_includes(schedule_source(schedule), run.local@) && can_come_after(now, run)
}

/// Tells how many days the year `y` has.
fn year_length(y: i32) -> (days: i64)
    ensures
        days == if clock::is_leap(y as int) {
            366int
        } else {
            365int
        },
{
    if y % 4 == 0 && (y % 100 != 0 || y % 400 == 0) {
        366
    } else {
        365
    }
}

/// Tells how many days the month `m` of the year `y` has.
fn month_length(y: i32, m: u32) -> (days: i64)
    ensures
        days == clock::days_in_month(y as int, m as int),
{
    if m == 2 {
        if year_length(y) == 366 {
            29
        } else {
            28
        }
    } else if m == 4 || m == 6 || m == 9 || m == 11 {
        30
    } else {
        31
    }
}

/// Finds the date and time of day that is `seconds` after the start of 1970, for
/// the years 1970 to 2100.
fn read_local(seconds: i64) -> (local: LocalTime)
    requires
        0 <= seconds < 4_133_980_800,
    ensures
        local@.valid(),
        local@.unix_seconds() == seconds,
        1970 <= local.year <= 2100,
{
    let mut day: i64 = seconds / 86_400;
    let rest: i64 = seconds % 86_400;
    let ghost all = day as int;
    let mut year: i32 = 1970;
    let mut length: i64 = 365;
    assert(clock::days_before_year(2101) - clock::days_before_year(1970) == 47847);
    while day >= length
        invariant
            1970 <= year <= 2100,
            0 <= day <= all < 47847,
            clock::days_before_year(2101) - clock::days_before_year(1970) == 47847,
            all == clock::days_before_year(year as int) - clock::days_before_year(1970) + day,
            length == if clock::is_leap(year as int) {
                366int
            } else {
                365int
            },
        decreases day,
    {
        proof {
            clock::lemma_year_length(year as int);
            if year == 2100 {
                assert(false);
            }
        }
        day = day - length;
        year = year + 1;
        length = year_length(year);
    }
    proof {
        clock::lemma_months_fill_year(year as int);
    }
    let mut month: u32 = 1;
    let ghost in_year = day as int;
    let mut size: i64 = 31;
    assert(clock::days_before_month(year as int, 1) == 0);
    while day >= size
        invariant
            1 <= month <= 12,
            1970 <= year <= 2100,
            0 <= day <= in_year < clock::days_before_month(year as int, 13),
            in_year == clock::days_before_month(year as int, month as int) + day,
            size == clock::days_in_month(year as int, month as int),
        decreases day,
    {
        assert(clock::days_before_month(year as int, month + 1) == clock::days_before_month(
            year as int,
            month as int,
        ) + clock::days_in_month(year as int, month as int));
        day = day - size;
        month = month + 1;
        size = month_length(year, month);
    }
    LocalTime {
        year,
        month,
        day: (day + 1) as u32,
        hour: (rest / 3_600) as u32,
        minute: (rest % 3_600 / 60) as u32,
        second: (rest % 60) as u32,
    }
}

/// Asks for the first run of the schedule after `now`.
pub fn next_run(schedule: &cron::Schedule, now: Moment) -> (next: Option<NextRun>)
    requires
        can_follow(now),
    ensures
        yields(*schedule, now, next),
        exists|answer: CronAnswer| #[trigger]
            call_ensures(run_after, (schedule, now), answer) && is_told(answer, next),
        next matches Some(run) ==> is_run_of(*schedule, now, run),
{
    let ask = run_after;
    let answer = ask(schedule, now);
    let ghost whole = answer;
    let next = match answer.run {
        Some(told) => {
            let local = read_local(told.local);
            Some(NextRun { at: Moment { seconds: told.at, nanos: 0 }, local, shown: told.shown })
        },
        None => None,
    };
    assert(call_ensures(run_after, (schedule, now), whole) && is_told(whole, next));
    next
}

/// The next run is the first. It is due at the moment that cron was found to give
/// for the time asked for, and its local time is the one that the clocks of the
/// place show then. Where the clocks are not moved in the second after `now` and
/// show the first local time that the schedule provides for, there is a run if
/// the schedule provides for any later local time, and it provides for none
/// between the local time of `now` and that of the run. The local time of `now`
/// is less than a day away from `now`.
pub proof fn law_the_next_run_is_the_first(
    schedule: cron::Schedule,
    now: Moment,
    next: Option<NextRun>,
)
    requires
        can_follow(now),
        call_ensures(next_run, (&schedule, now), next),
    ensures
        exists|answer: CronAnswer|
            {
                &&& #[trigger] call_ensures(run_after, (&schedule, now), answer)
                &&& match (answer.run, next) {
                    (Some(told), Some(run)) => {
                        &&& run.at.seconds == told.at && run.at.nanos == 0
                        &&& run.local@.valid() && run.local@.unix_seconds() == told.local
                        &&& run.shown@ == told.shown@
                    },
                    (None, None) => true,
                    _ => false,
                }
                &&& -86_400 < answer.here - now.seconds < 86_400
                &&& next matches Some(run) ==> schedule_includes(
                    schedule_source(schedule),
                    run.local@,
                )
                &&& answer.soon == answer.here + 1 ==> (next matches Some(run) ==> answer.here
                    < run.local@.unix_seconds())
                &&& answer.soon == answer.here + 1 && answer.on_clocks ==> {
                    &&& next matches Some(run)
                    &&& forall|t: CivilTime|
                        #![trigger t.valid()]
                        t.valid() && 1970 <= t.year <= 2100 && answer.here < t.unix_seconds()
                            < run.local@.unix_seconds() ==> !schedule_includes(
                            schedule_source(schedule),
                            t,
                        )
                }
                &&& answer.here >= 0 && next is None && answer.soon == answer.here + 1 ==> {
                    ||| answer.first is Some && !answer.on_clocks
                    ||| forall|t: CivilTime|
                        #![trigger t.valid()]
                        t.valid() && 1970 <= t.year <= 2100 && answer.here < t.unix_seconds()
                            ==> !schedule_includes(schedule_source(schedule), t)
                }
            },
{
    let answer = choose|answer: CronAnswer| #[trigger]
        call_ensures(run_after, (&schedule, now), answer) && is_told(answer, next);
    assert(call_ensures(run_after, (&schedule, now), answer));
}

/// A wait for a run.
#[derive(Debug)]
pub struct PlannedRun {
    /// How long to wait.
    pub wait: Wait,
    /// The run.
    pub run: NextRun,
}

/// Works out the wait from `now` for a schedule's next run.
pub fn plan_run(now: Moment, next: Option<NextRun>) -> (r: Result<PlannedRun, Refusal>)
    requires
        now.valid(),
        next matches Some(run) ==> run.at.valid(),
    ensures
        plans(now, next, r),
{
    match next {
        Some(run) => match wait_until(now, run.at) {
            Some(wait) => Ok(PlannedRun { wait, run }),
            None => Err(Refusal::RunHasPassed { shown: run.shown }),
        },
        None => Err(Refusal::NoFutureRun),
    }
}

/// Whether `r` is the wait from `now` for the run `next`: as long as it is until
/// then, refused where the run has passed or there is none.
pub open spec fn plans(
    now: Moment,
    next: Option<NextRun>,
    r: Result<PlannedRun, Refusal>,
) -> bool {
    match next {
        Some(run) => if now.nanoseconds() <= run.at.nanoseconds() {
            r matches Ok(planned) && planned.run == run && planned.wait.valid()
                && planned.wait.nanoseconds() == run.at.nanoseconds() - now.nanoseconds()
        } else {
            r matches Err(Refusal::RunHasPassed { shown }) && shown@ == run.shown@
        },
        None => r matches Err(Refusal::NoFutureRun),
    }
}

/// A cron expression is taken by the number of its fields, which white space
/// parts: with five it is read with a `0` for the seconds in front, with six or
/// seven as it is, and otherwise it is refused; what cron does not take is refused
/// with the reason that cron gave.
pub proof fn law_expressions_are_read_by_their_fields(
    expression: &str,
    r: Result<cron::Schedule, Refusal>,
)
    requires
        call_ensures(parse_schedule, (expression,), r),
    ensures
        ({
            let separates = |c: char| CharClass::WhiteSpace.has(c);
            exists|fields: Seq<Seq<char>>, starts: Seq<int>|
                {
                    &&& #[trigger] text::is_split(expression@, fields, starts, separates)
                    &&& if 5 <= fields.len() <= 7 {
                        let full = if fields.len() == 5 {
                            seq!['0', ' '] + expression@
                        } else {
                            expression@
                        };
                        if cron_accepts(full) {
                            r matches Ok(schedule) && schedule_source(schedule) == full
                        } else {
                            &&& r matches Err(Refusal::CronSyntax { expression: e, cause })
                            &&& e@ == expression@
                            &&& cause == cron_error(full)
                        }
                    } else {
                        r matches Err(Refusal::CronFieldCount)
                    }
                }
        }),
{
    reveal_strlit("0 ");
    assert("0 "@ =~= seq!['0', ' ']);
    let class = CharClass::WhiteSpace;
    text::lemma_pieces_split(expression@, class);
    let separates = |c: char| CharClass::WhiteSpace.has(c);
    assert(separates =~= (|c: char| class.has(c)));
    assert(text::is_split(
        expression@,
        pieces(expression@, class),
        text::piece_starts(expression@, class),
        separates,
    ));
}

/// A run is waited for as long as it is from `now` until it is due; a run that
/// has passed, and the want of one, are refused.
pub proof fn law_a_run_is_waited_for(
    now: Moment,
    next: Option<NextRun>,
    r: Result<PlannedRun, Refusal>,
)
    requires
        call_ensures(plan_run, (now, next), r),
    ensures
        match next {
            Some(run) => {
                let ahead = run.at.seconds * 1_000_000_000 + run.at.nanos - (now.seconds
                    * 1_000_000_000 + now.nanos);
                if ahead >= 0 {
                    &&& r matches Ok(planned)
                    &&& planned.run == run
                    &&& planned.wait.nanos < 1_000_000_000
                    &&& planned.wait.seconds * 1_000_000_000 + planned.wait.nanos == ahead
                } else {
                    r matches Err(Refusal::RunHasPassed { shown }) && shown@ == run.shown@
                }
            },
            None => r matches Err(Refusal::NoFutureRun),
        },
{
}

} // verus!
