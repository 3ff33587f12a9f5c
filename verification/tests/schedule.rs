use fileserver_backup::clock::{Moment, Wait};
use fileserver_backup::config::{
    validate_config, Config, RetentionPolicyKind, StorageDriverKind, DEFAULT_BACKUP_CRON,
};
use fileserver_backup::jobs::{Reply, Request};
use fileserver_backup::refusal::{Failure, Refusal};
use fileserver_backup::retention::ArchiveInfo;
use fileserver_backup::schedule::{next_run, parse_schedule, plan_run, LocalTime, NextRun};
use fileserver_backup::scheduler::{
    run_scheduler, Scheduler, SchedulerProgress, SchedulerReply, SchedulerRequest,
};
use fileserver_backup::volumes::Found;

type Step = (Scheduler, SchedulerRequest, Option<Failure<&'static str>>);

fn config(backup_cron: &str) -> Config {
    Config {
        volumes_root: b"/volumes".to_vec(),
        storage_driver: StorageDriverKind::Local,
        local_storage_root: b"/backups".to_vec(),
        sftp_url: None,
        sftp_password: None,
        sftp_password_file: Vec::new(),
        sftp_private_key: None,
        sftp_private_key_file: Vec::new(),
        sftp_private_key_passphrase: None,
        sftp_private_key_passphrase_file: Vec::new(),
        retention_policy: RetentionPolicyKind::Count,
        retention_count: 1,
        retention_min_count: 2,
        retention_max_total_size: 0,
        backup_cron: backup_cron.to_owned(),
    }
}

fn step(scheduler: Scheduler, reply: SchedulerReply<&'static str>) -> Step {
    match scheduler.resume(reply) {
        SchedulerProgress::Waiting {
            scheduler,
            request,
            warning,
        } => (scheduler, request, warning),
        SchedulerProgress::Stopped(refusal) => panic!("{refusal:?}"),
    }
}

fn job(scheduler: Scheduler, reply: Reply<&'static str>) -> Step {
    step(scheduler, SchedulerReply::Job(reply))
}

fn noon() -> Moment {
    Moment {
        seconds: 1_767_268_800,
        nanos: 500_000_000,
    }
}

fn opened() -> Scheduler {
    let (scheduler, request) = run_scheduler(&config("0 1 * * *")).unwrap();
    assert!(matches!(request, SchedulerRequest::ReadClock));
    let (scheduler, request, _) = step(scheduler, SchedulerReply::Clock(noon()));
    assert!(matches!(request, SchedulerRequest::Sleep(_)));
    let (scheduler, request, _) = step(scheduler, SchedulerReply::Done);
    assert!(matches!(request, SchedulerRequest::OpenStorage));
    scheduler
}

fn one_volume() -> Reply<&'static str> {
    Reply::Volumes(vec![Found::Entry {
        name: "app".to_owned(),
        is_dir: true,
    }])
}

fn archives(names: &[&str]) -> Reply<&'static str> {
    let archives = names
        .iter()
        .map(|name| ArchiveInfo {
            name: (*name).to_owned(),
            size: 1,
        })
        .collect();
    Reply::Archives(archives)
}

#[test]
fn five_field_cron_is_accepted() {
    parse_schedule("0 1 * * *").unwrap();
}

#[test]
fn five_fields_are_due_in_second_zero() {
    assert_eq!(parse_schedule("0 1 * * *").unwrap().source(), "0 0 1 * * *");
    assert_eq!(parse_schedule(" 0\t1 *  * * ").unwrap().source(), "0  0\t1 *  * * ");
    assert_eq!(parse_schedule("30 0 1 * * *").unwrap().source(), "30 0 1 * * *");
    assert_eq!(parse_schedule("0 0 1 * * * 2030").unwrap().source(), "0 0 1 * * * 2030");
}

#[test]
fn other_numbers_of_fields_are_refused() {
    for expression in ["", "*", "* * * *", "@daily", "0 0 1 * * * 2030 *"] {
        let refusal = parse_schedule(expression).unwrap_err();
        assert!(matches!(refusal, Refusal::CronFieldCount));
        assert_eq!(refusal.message(), "cron expression must have 5, 6, or 7 fields");
    }
}

#[test]
fn fields_that_mean_nothing_are_refused() {
    let refusal = parse_schedule("x 1 * * *").unwrap_err();
    assert_eq!(refusal.message(), "failed to parse cron expression \"x 1 * * *\"");
    let Refusal::CronSyntax { expression, cause } = refusal else {
        panic!("not a syntax error");
    };
    assert_eq!(expression, "x 1 * * *");
    assert_eq!(
        cause.to_string(),
        "0 x 1 * * *".parse::<cron::Schedule>().unwrap_err().to_string()
    );
    let refusal = parse_schedule("\" 1 * * *").unwrap_err();
    assert_eq!(refusal.message(), "failed to parse cron expression \"\\\" 1 * * *\"");
}

#[test]
fn settings_are_checked_in_order() {
    assert!(validate_config(&config(DEFAULT_BACKUP_CRON)).is_ok());
    let mut wrong = config("x");
    assert!(matches!(validate_config(&wrong), Err(Refusal::CronFieldCount)));
    wrong.backup_cron = "x x x x x".to_owned();
    let expected = "0 x x x x x".parse::<cron::Schedule>().unwrap_err().to_string();
    assert!(matches!(
        validate_config(&wrong),
        Err(Refusal::CronSyntax { cause, .. }) if cause.to_string() == expected
    ));
    assert!(matches!(
        run_scheduler(&wrong),
        Err(Refusal::CronSyntax { cause, .. }) if cause.to_string() == expected
    ));
    wrong.retention_min_count = 0;
    let refusal = validate_config(&wrong).unwrap_err();
    assert_eq!(refusal.message(), "RETENTION_MIN_COUNT must be greater than 0");
    wrong.retention_count = 0;
    let refusal = validate_config(&wrong).unwrap_err();
    assert_eq!(refusal.message(), "RETENTION_COUNT must be greater than 0");
}

#[test]
fn the_default_is_daily_at_one_in_local_time() {
    let (scheduler, _) = run_scheduler(&config(DEFAULT_BACKUP_CRON)).unwrap();
    let (_, request, warning) = step(scheduler, SchedulerReply::Clock(noon()));
    assert!(warning.is_none());
    let SchedulerRequest::Sleep(planned) = request else {
        panic!("no sleep");
    };
    let local = planned.run.local;
    assert_eq!((local.hour, local.minute, local.second), (1, 0, 0));
    assert_eq!(planned.run.at.nanos, 0);
    assert!(planned.run.at.seconds > noon().seconds);
    assert!(planned.run.at.seconds - noon().seconds <= 2 * 86_400);
    assert_eq!(planned.wait.nanos, 500_000_000);
    assert_eq!(
        planned.wait.seconds as i64,
        planned.run.at.seconds - noon().seconds - 1
    );
    let date = format!("{:04}-{:02}-{:02} 01:00:00", local.year, local.month, local.day);
    assert!(planned.run.shown.starts_with(&date), "{}", planned.run.shown);
}

#[test]
fn the_next_run_is_the_first_after_the_time_asked_for() {
    let schedule = parse_schedule("0 1 * * *").unwrap();
    let later = Moment {
        seconds: noon().seconds + 864_000,
        nanos: 0,
    };
    let run = next_run(&schedule, noon()).unwrap();
    let later_run = next_run(&schedule, later).unwrap();
    assert!(run.at.seconds < later.seconds);
    assert!(later_run.at.seconds > later.seconds);
    let past = parse_schedule("0 0 1 * * * 2020").unwrap();
    assert!(next_run(&past, noon()).is_none());
}

#[test]
fn a_schedule_without_a_future_stops_the_scheduler() {
    let (scheduler, _) = run_scheduler(&config("0 0 1 * * * 2020")).unwrap();
    let SchedulerProgress::Stopped(refusal) =
        scheduler.resume::<&str>(SchedulerReply::Clock(noon()))
    else {
        panic!("a run in the past");
    };
    assert_eq!(refusal.message(), "cron expression produced no future run");
    assert!(matches!(
        run_scheduler(&config("1")),
        Err(Refusal::CronFieldCount)
    ));
}

#[test]
fn a_run_that_has_passed_is_refused() {
    let run = |seconds| NextRun {
        at: Moment { seconds, nanos: 0 },
        local: LocalTime {
            year: 2026,
            month: 1,
            day: 1,
            hour: 12,
            minute: 0,
            second: 1,
        },
        shown: "2026-01-01 12:00:01 UTC".to_owned(),
    };
    let planned = plan_run(noon(), Some(run(noon().seconds + 1))).unwrap();
    assert_eq!(
        planned.wait,
        Wait {
            seconds: 0,
            nanos: 500_000_000
        }
    );
    assert_eq!(planned.run.shown, "2026-01-01 12:00:01 UTC");
    assert_eq!(
        plan_run(noon(), Some(run(noon().seconds))).unwrap_err().message(),
        "failed to calculate sleep duration until scheduled run 2026-01-01 12:00:01 UTC"
    );
    assert!(matches!(plan_run(noon(), None), Err(Refusal::NoFutureRun)));
    let (scheduler, _) = run_scheduler(&config("0 1 * * *")).unwrap();
    assert!(matches!(
        scheduler.plan::<&str>(noon(), Some(run(noon().seconds))),
        SchedulerProgress::Stopped(Refusal::RunHasPassed { .. })
    ));
}

#[test]
fn a_run_backs_up_and_then_cleans_up() {
    let (scheduler, request, _) = step(opened(), SchedulerReply::Done);
    assert!(matches!(request, SchedulerRequest::Job(Request::ReadVolumes)));
    let (scheduler, request, _) = job(scheduler, one_volume());
    assert!(matches!(
        request,
        SchedulerRequest::Job(Request::CheckSource { source }) if source == b"/volumes/app"
    ));
    let (scheduler, _, _) = job(scheduler, Reply::Directory(true));
    let (scheduler, request, _) = job(scheduler, Reply::Clock(0));
    assert!(matches!(
        request,
        SchedulerRequest::Job(Request::WriteArchive { volume, archive, .. })
            if volume == "app" && archive == "1970-01-01T00-00-00Z.tar.xz"
    ));
    let (scheduler, request, warning) = job(scheduler, Reply::Done);
    assert!(warning.is_none());
    assert!(matches!(request, SchedulerRequest::Job(Request::ReadVolumes)));
    let (scheduler, request, _) = job(scheduler, one_volume());
    assert!(matches!(request, SchedulerRequest::Job(Request::ListArchives { .. })));
    let (scheduler, request, _) = job(scheduler, archives(&["a.tar.xz", "b.tar.xz"]));
    assert!(matches!(
        request,
        SchedulerRequest::Job(Request::RemoveArchive { volume, archive })
            if volume == "app" && archive == "a.tar.xz"
    ));
    let (_, request, warning) = job(scheduler, Reply::Done);
    assert!(warning.is_none());
    assert!(matches!(request, SchedulerRequest::ReadClock));
}

#[test]
fn a_failed_run_is_reported_and_the_next_one_awaited() {
    let refusal = Failure::Refused(Refusal::SftpUrlMissing);
    let (scheduler, request, warning) = step(opened(), SchedulerReply::NotOpened(refusal));
    assert!(matches!(warning, Some(Failure::Refused(Refusal::SftpUrlMissing))));
    assert!(matches!(request, SchedulerRequest::ReadClock));
    let (_, request, _) = step(scheduler, SchedulerReply::Clock(noon()));
    assert!(matches!(request, SchedulerRequest::Sleep(_)));

    let (scheduler, _, _) = step(opened(), SchedulerReply::Done);
    let (_, request, warning) = job(scheduler, Reply::Failed("no volumes"));
    assert!(matches!(warning, Some(Failure::Outside("no volumes"))));
    assert!(matches!(request, SchedulerRequest::ReadClock));

    let (scheduler, _, _) = step(opened(), SchedulerReply::Done);
    let (scheduler, _, _) = job(scheduler, Reply::Volumes(Vec::new()));
    let (scheduler, _, _) = job(scheduler, one_volume());
    let (_, request, warning) = job(scheduler, Reply::Failed("no list"));
    assert!(matches!(warning, Some(Failure::Outside("no list"))));
    assert!(matches!(request, SchedulerRequest::ReadClock));
}
