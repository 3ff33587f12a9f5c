//! The scheduler: wait for the next run, back up every volume, clean up, and
//! wait again.

use vstd::prelude::*;
use crate::clock::Moment;
use crate::config::{copy_path, is_policy_of, policy_of, retention_policy, Config};
use crate::jobs::{
    backup_all, cleanup_all, continues, Ask, Progress, Reply, Request, Run, RunState, Task,
};
use crate::refusal::{Failure, Refusal};
use crate::retention::RetentionPolicy;
use crate::schedule::{
    can_follow, cron_accepts, cron_error, full_expression, is_run_of, next_run, parse_schedule,
    plan_run, plans, schedule_source, yields, NextRun, PlannedRun,
};

verus! {

/// What the program is to do for the scheduler.
#[derive(Debug)]
pub enum SchedulerRequest {
    /// Read the clock.
    ReadClock,
    /// Sleep until the run.
    Sleep(PlannedRun),
    /// Build the storage.
    OpenStorage,
    /// Carry out a request of a job, with the storage that was built last.
    Job(Request),
}

/// What came of a [`SchedulerRequest`].
#[derive(Debug)]
pub enum SchedulerReply<F> {
    /// The time.
    Clock(Moment),
    /// It was done.
    Done,
    /// The storage could not be built.
    NotOpened(Failure<F>),
    /// What came of the request of the job.
    Job(Reply<F>),
}

/// What the scheduler does, by the request that it made last.
#[derive(Debug)]
enum Stage {
    Clock,
    Sleep,
    Open,
    Backup(Run),
    Cleanup(Run),
}

/// What the scheduler does, by the request that it made last.
pub enum StageState {
    /// It asked for the time.
    Clock,
    /// It sleeps until the run.
    Sleep,
    /// It has the storage built.
    Open,
    /// It backs up the volumes.
    Backup(RunState),
    /// It cleans up the volumes.
    Cleanup(RunState),
}

impl View for Stage {
    type V = StageState;

    closed spec fn view(&self) -> StageState {
        match *self {
            Stage::Clock => StageState::Clock,
            Stage::Sleep => StageState::Sleep,
            Stage::Open => StageState::Open,
            Stage::Backup(run) => StageState::Backup(run@),
            Stage::Cleanup(run) => StageState::Cleanup(run@),
        }
    }
}

/// The scheduler, which waits for what comes of its last request.
#[derive(Debug)]
pub struct Scheduler {
    schedule: cron::Schedule,
    root: Vec<u8>,
    policy: RetentionPolicy,
    stage: Stage,
}

/// What a [`Scheduler`] holds.
pub struct SchedulerState {
    pub schedule: cron::Schedule,
    /// The directory of the volumes.
    pub root: Seq<u8>,
    pub policy: RetentionPolicy,
    pub stage: StageState,
}

impl View for Scheduler {
    type V = SchedulerState;

    closed spec fn view(&self) -> SchedulerState {
        SchedulerState {
            schedule: self.schedule,
            root: self.root@,
            policy: self.policy,
            stage: self.stage@,
        }
    }
}

/// Where the scheduler stands. It never finishes.
#[derive(Debug)]
pub enum SchedulerProgress<F> {
    /// A request waits to be carried out, and the failure of a run may have to
    /// be reported.
    Waiting { scheduler: Scheduler, request: SchedulerRequest, warning: Option<Failure<F>> },
    /// There is no run to wait for.
    Stopped(Refusal),
}

impl SchedulerState {
    /// The same at another stage.
    pub open spec fn at(self, stage: StageState) -> SchedulerState {
        SchedulerState { stage, ..self }
    }

    /// Whether `reply` answers the request that was made last.
    pub open spec fn is_answered_by<F>(self, reply: SchedulerReply<F>) -> bool {
        match self.stage {
            StageState::Clock => reply matches SchedulerReply::Clock(now) && can_follow(now),
            StageState::Sleep => reply is Done,
            StageState::Open => reply is Done || reply is NotOpened,
            StageState::Backup(run) => reply matches SchedulerReply::Job(r)
                && run.is_answered_by(r@),
            StageState::Cleanup(run) => reply matches SchedulerReply::Job(r)
                && run.is_answered_by(r@),
        }
    }

    /// Whether the scheduler asks for the time again, with this to report.
    pub open spec fn starts_over<F>(
        self,
        progress: SchedulerProgress<F>,
        report: Option<Failure<F>>,
    ) -> bool {
        progress matches SchedulerProgress::Waiting { scheduler, request, warning } && scheduler@
            == self.at(StageState::Clock) && request is ReadClock && warning == report
    }

    /// Whether the scheduler makes a request of a job, with nothing to report.
    pub open spec fn has_job_done<F>(self, progress: SchedulerProgress<F>, ask: Ask) -> bool {
        progress matches SchedulerProgress::Waiting {
            scheduler,
            request: SchedulerRequest::Job(request),
            warning,
        } && scheduler@ == self && request@ == ask && warning is None
    }

    /// Whether the scheduler sleeps until the run `next`, or stops where there
    /// is none or it has passed.
    pub open spec fn sleeps_until<F>(
        self,
        progress: SchedulerProgress<F>,
        now: Moment,
        next: Option<NextRun>,
    ) -> bool {
        match progress {
            SchedulerProgress::Waiting { scheduler, request, warning } => {
                &&& request matches SchedulerRequest::Sleep(planned)
                &&& plans(now, next, Ok(planned))
                &&& scheduler@ == self.at(StageState::Sleep)
                &&& warning is None
            },
            SchedulerProgress::Stopped(refusal) => plans(now, next, Err(refusal)),
        }
    }

    /// Whether `progress` is how the scheduler goes on from `reply`.
    pub open spec fn moves<F>(
        self,
        reply: SchedulerReply<F>,
        progress: SchedulerProgress<F>,
    ) -> bool {
        match (self.stage, reply) {
            (StageState::Clock, SchedulerReply::Clock(now)) => exists|next: Option<NextRun>|
                {
                    &&& #[trigger] self.sleeps_until(progress, now, next)
                    &&& yields(self.schedule, now, next)
                    &&& call_ensures(next_run, (&self.schedule, now), next)
                    &&& next matches Some(run) ==> is_run_of(self.schedule, now, run)
                },
            (StageState::Sleep, SchedulerReply::Done) => {
                &&& progress matches SchedulerProgress::Waiting { scheduler, request, warning }
                &&& scheduler@ == self.at(StageState::Open)
                &&& request is OpenStorage
                &&& warning is None
            },
            (StageState::Open, SchedulerReply::Done) => self.at(
                StageState::Backup(RunState::first(self.root, Task::Backup)),
            ).has_job_done(progress, Ask::ReadVolumes),
            (StageState::Open, SchedulerReply::NotOpened(failure)) => self.starts_over(
                progress,
                Some(failure),
            ),
            (StageState::Backup(run), SchedulerReply::Job(reply)) => exists|
                job: Progress<Run, F>,
            |
                #[trigger] continues(run, reply@, job) && match job {
                    Progress::Waiting(next, request) => self.at(
                        StageState::Backup(next@),
                    ).has_job_done(progress, request@),
                    Progress::Finished => self.at(
                        StageState::Cleanup(
                            RunState::first(self.root, Task::Cleanup { policy: self.policy }),
                        ),
                    ).has_job_done(progress, Ask::ReadVolumes),
                    Progress::Stopped(failure) => self.starts_over(progress, Some(failure)),
                },
            (StageState::Cleanup(run), SchedulerReply::Job(reply)) => exists|
                job: Progress<Run, F>,
            |
                #[trigger] continues(run, reply@, job) && match job {
                    Progress::Waiting(next, request) => self.at(
                        StageState::Cleanup(next@),
                    ).has_job_done(progress, request@),
                    Progress::Finished => self.starts_over(progress, None),
                    Progress::Stopped(failure) => self.starts_over(progress, Some(failure)),
                },
            _ => false,
        }
    }
}

impl Scheduler {
    /// Goes on from the time and the next run that the schedule provides for:
    /// sleeps until then.
    pub fn plan<F>(self, now: Moment, next: Option<NextRun>) -> (progress: SchedulerProgress<F>)
        requires
            now.valid(),
            next matches Some(run) ==> run.at.valid(),
        ensures
            self@.sleeps_until(progress, now, next),
    {
        let Scheduler { schedule, root, policy, stage: _ } = self;
        match plan_run(now, next) {
            Ok(planned) => SchedulerProgress::Waiting {
                scheduler: Scheduler { schedule, root, policy, stage: Stage::Sleep },
                request: SchedulerRequest::Sleep(planned),
                warning: None,
            },
            Err(refusal) => SchedulerProgress::Stopped(refusal),
        }
    }

    /// Goes on from what came of the last request. The failure of a run is
    /// reported, and the next run is waited for; a cleanup follows a backup that
    /// went well.
    pub fn resume<F>(self, reply: SchedulerReply<F>) -> (progress: SchedulerProgress<F>)
        requires
            self@.is_answered_by(reply),
        ensures
            self@.moves(reply, progress),
    {
        let ghost state = self@;
        let Scheduler { schedule, root, policy, stage } = self;
        let (stage, request, warning) = match (stage, reply) {
            (Stage::Clock, SchedulerReply::Clock(now)) => {
                let ask = next_run;
                let next = ask(&schedule, now);
                let ghost found = next;
                let scheduler = Scheduler { schedule, root, policy, stage: Stage::Clock };
                let progress = scheduler.plan(now, next);
                assert(state.sleeps_until(progress, now, found));
                return progress;
            },
            (Stage::Sleep, SchedulerReply::Done) => (
                Stage::Open,
                SchedulerRequest::OpenStorage,
                None,
            ),
            (Stage::Open, SchedulerReply::NotOpened(failure)) => (
                Stage::Clock,
                SchedulerRequest::ReadClock,
                Some(failure),
            ),
            (Stage::Backup(run), SchedulerReply::Job(reply)) => {
                let ghost before = (run@, reply@);
                let job = run.resume(reply);
                assert(continues(before.0, before.1, job));
                match job {
                    Progress::Waiting(run, request) => (
                        Stage::Backup(run),
                        SchedulerRequest::Job(request),
                        None,
                    ),
                    Progress::Finished => {
                        let (run, request) = cleanup_all(copy_path(&root), policy);
                        (Stage::Cleanup(run), SchedulerRequest::Job(request), None)
                    },
                    Progress::Stopped(failure) => (
                        Stage::Clock,
                        SchedulerRequest::ReadClock,
                        Some(failure),
                    ),
                }
            },
            (Stage::Cleanup(run), SchedulerReply::Job(reply)) => {
                let ghost before = (run@, reply@);
                let job = run.resume(reply);
                assert(continues(before.0, before.1, job));
                match job {
                    Progress::Waiting(run, request) => (
                        Stage::Cleanup(run),
                        SchedulerRequest::Job(request),
                        None,
                    ),
                    Progress::Finished => (Stage::Clock, SchedulerRequest::ReadClock, None),
                    Progress::Stopped(failure) => (
                        Stage::Clock,
                        SchedulerRequest::ReadClock,
                        Some(failure),
                    ),
                }
            },
            _ => {
                let (run, request) = backup_all(copy_path(&root));
                (Stage::Backup(run), SchedulerRequest::Job(request), None)
            },
        };
        let scheduler = Scheduler { schedule, root, policy, stage };
        SchedulerProgress::Waiting { scheduler, request, warning }
    }
}

/// Begins to run the scheduler, unless the schedule cannot be read.
pub fn run_scheduler(config: &Config) -> (r: Result<(Scheduler, SchedulerRequest), Refusal>)
    ensures
        match full_expression(config.backup_cron@) {
            Some(full) => if cron_accepts(full) {
                &&& r matches Ok((scheduler, request))
                &&& schedule_source(scheduler@.schedule) == full
                &&& scheduler@.root == config.volumes_root@
                &&& scheduler@.policy == policy_of(*config)
                &&& scheduler@.stage is Clock
                &&& request is ReadClock
            } else {
                r matches Err(Refusal::CronSyntax { expression, cause }) && expression@
                    == config.backup_cron@ && cause == cron_error(full)
            },
            None => r matches Err(Refusal::CronFieldCount),
        },
{
    match parse_schedule(config.backup_cron.as_str()) {
        Ok(schedule) => {
            let scheduler = Scheduler {
                schedule,
                root: copy_path(&config.volumes_root),
                policy: retention_policy(config),
                stage: Stage::Clock,
            };
            Ok((scheduler, SchedulerRequest::ReadClock))
        },
        Err(refusal) => Err(refusal),
    }
}

/// Only the want of a run to wait for stops the scheduler: no failure of a run
/// does.
pub proof fn law_failures_do_not_stop_the_scheduler<F>(
    state: SchedulerState,
    reply: SchedulerReply<F>,
    progress: SchedulerProgress<F>,
)
    requires
        state.moves(reply, progress),
        progress is Stopped,
    ensures
        state.stage is Clock,
        progress matches SchedulerProgress::Stopped(refusal) && (refusal is NoFutureRun || refusal
            is RunHasPassed),
{
}

/// What makes a run fail is reported, and the next run is waited for.
pub proof fn law_a_failed_run_is_reported<F>(
    state: SchedulerState,
    reply: SchedulerReply<F>,
    progress: SchedulerProgress<F>,
    f: F,
)
    requires
        state.moves(reply, progress),
        reply matches SchedulerReply::Job(Reply::Failed(e)) && e == f,
    ensures
        state.starts_over(progress, Some(Failure::Outside(f))),
{
}

/// A cleanup begins only when a backup of all volumes has finished.
pub proof fn law_a_cleanup_follows_a_finished_backup<F>(
    state: SchedulerState,
    reply: SchedulerReply<F>,
    progress: SchedulerProgress<F>,
)
    requires
        state.moves(reply, progress),
        progress matches SchedulerProgress::Waiting { scheduler, .. } && scheduler@.stage
            is Cleanup,
        !(state.stage is Cleanup),
    ensures
        state.stage matches StageState::Backup(run) && reply matches SchedulerReply::Job(answer)
            && continues(run, answer@, Progress::<Run, F>::Finished),
{
}

/// The scheduler sleeps for as long as it is from the time that it was told to
/// the run that the schedule gave for that time.
pub proof fn law_the_scheduler_sleeps_until_the_next_run<F>(
    state: SchedulerState,
    reply: SchedulerReply<F>,
    progress: SchedulerProgress<F>,
)
    requires
        state.moves(reply, progress),
        progress matches SchedulerProgress::Waiting { scheduler, .. } && scheduler@.stage is Sleep,
    ensures
        ({
            &&& state.stage is Clock
            &&& reply matches SchedulerReply::Clock(now)
            &&& progress matches SchedulerProgress::Waiting {
                request: SchedulerRequest::Sleep(planned),
                ..
            }
            &&& yields(state.schedule, now, Some(planned.run))
            &&& is_run_of(state.schedule, now, planned.run)
            &&& planned.wait.nanoseconds() == planned.run.at.nanoseconds() - now.nanoseconds()
        }),
{
}

/// Where the scheduler stops, the schedule gave no run for the time that it was
/// told, or one that has passed.
pub proof fn law_the_scheduler_stops_without_a_run<F>(
    state: SchedulerState,
    now: Moment,
    progress: SchedulerProgress<F>,
)
    requires
        state.moves(SchedulerReply::Clock(now), progress),
        progress is Stopped,
    ensures
        exists|next: Option<NextRun>| #[trigger]
            yields(state.schedule, now, next) && match next {
                Some(run) => run.at.nanoseconds() < now.nanoseconds(),
                None => true,
            },
{
    let next = choose|next: Option<NextRun>|
        {
            &&& #[trigger] state.sleeps_until(progress, now, next)
            &&& yields(state.schedule, now, next)
        };
    assert(yields(state.schedule, now, next));
}

/// The steps of a round follow each other: storage is built after the sleep, a
/// backup begins when the storage has been built, and then the cleanup may
/// begin.
pub proof fn law_the_steps_of_a_round_follow_each_other<F>(
    state: SchedulerState,
    reply: SchedulerReply<F>,
    progress: SchedulerProgress<F>,
)
    requires
        state.moves(reply, progress),
    ensures
        progress matches SchedulerProgress::Waiting { scheduler, .. } ==> match scheduler@.stage {
            StageState::Clock => !(state.stage is Clock || state.stage is Sleep),
            StageState::Sleep => state.stage is Clock,
            StageState::Open => state.stage is Sleep,
            StageState::Backup(_) => state.stage is Backup || (state.stage is Open && reply
                is Done),
            StageState::Cleanup(_) => state.stage is Backup || state.stage is Cleanup,
        },
{
}

/// Told the time, the scheduler sleeps until the next run: the request is for the
/// run that [`next_run`] gave for that time, and the wait is as long as it is
/// from that time to the run. It stops only where there was no run, or one that
/// had passed.
pub proof fn law_a_round_begins_with_the_next_run<F>(
    scheduler: Scheduler,
    now: Moment,
    progress: SchedulerProgress<F>,
)
    requires
        scheduler@.stage is Clock,
        call_ensures(Scheduler::resume::<F>, (scheduler, SchedulerReply::Clock(now)), progress),
    ensures
        match progress {
            SchedulerProgress::Waiting { scheduler: after, request, warning } => {
                &&& request matches SchedulerRequest::Sleep(planned)
                &&& call_ensures(next_run, (&scheduler@.schedule, now), Some(planned.run))
                &&& planned.wait.nanos < 1_000_000_000
                &&& planned.wait.seconds * 1_000_000_000 + planned.wait.nanos
                    == planned.run.at.seconds * 1_000_000_000 + planned.run.at.nanos - (now.seconds
                    * 1_000_000_000 + now.nanos)
                &&& after@ == (SchedulerState { stage: StageState::Sleep, ..scheduler@ })
                &&& warning is None
            },
            SchedulerProgress::Stopped(refusal) => exists|next: Option<NextRun>| #[trigger]
                call_ensures(next_run, (&scheduler@.schedule, now), next) && match next {
                    Some(run) => {
                        &&& run.at.seconds * 1_000_000_000 + run.at.nanos < now.seconds
                            * 1_000_000_000 + now.nanos
                        &&& refusal matches Refusal::RunHasPassed { shown }
                        &&& shown@ == run.shown@
                    },
                    None => refusal is NoFutureRun,
                },
        },
{
    let state = scheduler@;
    let next = choose|next: Option<NextRun>|
        {
            &&& #[trigger] state.sleeps_until(progress, now, next)
            &&& call_ensures(next_run, (&state.schedule, now), next)
        };
    assert(call_ensures(next_run, (&state.schedule, now), next));
}

/// Only the want of a run to wait for stops the scheduler, and only when it was
/// told the time: nothing else that it is told does.
pub proof fn law_only_the_want_of_a_run_stops_the_scheduler<F>(
    scheduler: Scheduler,
    reply: SchedulerReply<F>,
    progress: SchedulerProgress<F>,
)
    requires
        call_ensures(Scheduler::resume::<F>, (scheduler, reply), progress),
        progress is Stopped,
    ensures
        scheduler@.stage is Clock,
        reply is Clock,
{
}

/// Where the next run is known, the scheduler sleeps until then, or stops where
/// there is none or it has passed.
pub proof fn law_the_scheduler_plans_a_run<F>(
    scheduler: Scheduler,
    now: Moment,
    next: Option<NextRun>,
    progress: SchedulerProgress<F>,
)
    requires
        call_ensures(Scheduler::plan::<F>, (scheduler, now, next), progress),
    ensures
        match next {
            Some(run) => {
                let ahead = run.at.seconds * 1_000_000_000 + run.at.nanos - (now.seconds
                    * 1_000_000_000 + now.nanos);
                if ahead >= 0 {
                    &&& progress matches SchedulerProgress::Waiting {
                        scheduler: after,
                        request: SchedulerRequest::Sleep(planned),
                        warning,
                    }
                    &&& planned.run == run
                    &&& planned.wait.nanos < 1_000_000_000
                    &&& planned.wait.seconds * 1_000_000_000 + planned.wait.nanos == ahead
                    &&& after@ == (SchedulerState { stage: StageState::Sleep, ..scheduler@ })
                    &&& warning is None
                } else {
                    &&& progress matches SchedulerProgress::Stopped(
                        Refusal::RunHasPassed { shown },
                    )
                    &&& shown@ == run.shown@
                }
            },
            None => progress matches SchedulerProgress::Stopped(Refusal::NoFutureRun),
        },
{
}

/// After the sleep the storage is built; when it has been built, the backup of
/// all volumes begins by reading the directory of the volumes; where it could not
/// be built, that is reported, and the time is asked for again.
pub proof fn law_storage_and_backup_follow_the_sleep<F>(
    scheduler: Scheduler,
    reply: SchedulerReply<F>,
    after: Scheduler,
    request: SchedulerRequest,
    warning: Option<Failure<F>>,
)
    requires
        call_ensures(
            Scheduler::resume::<F>,
            (scheduler, reply),
            SchedulerProgress::Waiting { scheduler: after, request, warning },
        ),
    ensures
        after@.schedule == scheduler@.schedule,
        after@.root == scheduler@.root,
        after@.policy == scheduler@.policy,
        scheduler@.stage is Sleep ==> after@.stage is Open && request is OpenStorage && warning
            is None,
        scheduler@.stage is Open && reply is Done ==> {
            &&& after@.stage matches StageState::Backup(run)
            &&& run.task is Backup
            &&& run.root == scheduler@.root
            &&& run.rest.len() == 0
            &&& run.current is None
            &&& request matches SchedulerRequest::Job(Request::ReadVolumes)
            &&& warning is None
        },
        scheduler@.stage is Open ==> (reply matches SchedulerReply::NotOpened(failure)
            ==> after@.stage is Clock && request is ReadClock && warning == Some(failure)),
{
}

/// What a job makes of a reply while the scheduler backs up or cleans up: its
/// next request is handed on; a backup that has finished is followed by a cleanup
/// with the scheduler's policy, which begins by reading the directory of the
/// volumes; a cleanup that has finished, and a job that has stopped, are followed
/// by a request for the time, and what a job stopped for is reported.
pub proof fn law_a_round_is_a_backup_and_then_a_cleanup<F>(
    scheduler: Scheduler,
    reply: Reply<F>,
    run: RunState,
    after: Scheduler,
    request: SchedulerRequest,
    warning: Option<Failure<F>>,
)
    requires
        scheduler@.stage == StageState::Backup(run) || scheduler@.stage == StageState::Cleanup(run),
        call_ensures(
            Scheduler::resume::<F>,
            (scheduler, SchedulerReply::Job(reply)),
            SchedulerProgress::Waiting { scheduler: after, request, warning },
        ),
    ensures
        exists|job: Progress<Run, F>| #[trigger]
            continues(run, reply@, job) && match job {
                Progress::Waiting(next, asked) => {
                    &&& after@.stage == if scheduler@.stage is Backup {
                        StageState::Backup(next@)
                    } else {
                        StageState::Cleanup(next@)
                    }
                    &&& request matches SchedulerRequest::Job(r)
                    &&& r@ == asked@
                    &&& warning is None
                },
                Progress::Finished => if scheduler@.stage is Backup {
                    &&& after@.stage matches StageState::Cleanup(cleanup)
                    &&& cleanup.task == (Task::Cleanup { policy: scheduler@.policy })
                    &&& cleanup.root == scheduler@.root
                    &&& cleanup.rest.len() == 0
                    &&& cleanup.current is None
                    &&& request matches SchedulerRequest::Job(Request::ReadVolumes)
                    &&& warning is None
                } else {
                    after@.stage is Clock && request is ReadClock && warning is None
                },
                Progress::Stopped(failure) => after@.stage is Clock && request is ReadClock
                    && warning == Some(failure),
            },
{
}

/// The scheduler keeps its schedule, its volumes and its policy.
pub proof fn law_the_scheduler_keeps_its_settings<F>(
    state: SchedulerState,
    reply: SchedulerReply<F>,
    progress: SchedulerProgress<F>,
)
    requires
        state.moves(reply, progress),
    ensures
        progress matches SchedulerProgress::Waiting { scheduler, .. } ==> {
            &&& scheduler@.schedule == state.schedule
            &&& scheduler@.root == state.root
            &&& scheduler@.policy == state.policy
        },
{
}

/// The scheduler begins by asking for the time, with the schedule that
/// [`parse_schedule`] reads, the volumes of the settings and their policy, and is
/// refused where the schedule cannot be read.
pub proof fn law_the_scheduler_has_the_settings(
    config: Config,
    expression: &str,
    r: Result<(Scheduler, SchedulerRequest), Refusal>,
    schedule: Result<cron::Schedule, Refusal>,
)
    requires
        call_ensures(run_scheduler, (&config,), r),
        expression@ == config.backup_cron@,
        call_ensures(parse_schedule, (expression,), schedule),
    ensures
        r is Ok <==> schedule is Ok,
        r matches Ok((scheduler, request)) ==> {
            &&& schedule_source(scheduler@.schedule) == schedule_source(schedule->Ok_0)
            &&& scheduler@.root == config.volumes_root@
            &&& is_policy_of(scheduler@.policy, config)
            &&& scheduler@.stage is Clock
            &&& request is ReadClock
        },
{
}

} // verus!
