use std::collections::BTreeMap;

use fileserver_backup::jobs::{
    backup_all, backup_volume, cleanup_all, cleanup_volume, latest_archive, restore_all,
    restore_volume, Progress, Reply, Request, Run, VolumeRun,
};
use fileserver_backup::refusal::{Failure, Refusal};
use fileserver_backup::retention::{ArchiveInfo, RetentionPolicy};
use fileserver_backup::volumes::Found;

type F = &'static str;

/// Volumes and their archives in memory.
struct World {
    clock: i64,
    volumes: BTreeMap<Vec<u8>, String>,
    archives: BTreeMap<(String, String), String>,
}

impl World {
    fn new() -> World {
        let mut volumes = BTreeMap::new();
        volumes.insert(b"/volumes/app".to_vec(), "old app".to_owned());
        volumes.insert(b"/volumes/media".to_vec(), "old media".to_owned());
        World {
            clock: 1_767_225_600,
            volumes,
            archives: BTreeMap::new(),
        }
    }

    fn answer(&mut self, request: Request) -> Reply<F> {
        match request {
            Request::ReadVolumes => Reply::Volumes(
                ["media", "app"]
                    .iter()
                    .map(|name| Found::Entry {
                        name: (*name).to_owned(),
                        is_dir: true,
                    })
                    .collect(),
            ),
            Request::CheckSource { source } => Reply::Directory(self.volumes.contains_key(&source)),
            Request::ReadClock => {
                self.clock += 1;
                Reply::Clock(self.clock)
            }
            Request::WriteArchive {
                volume,
                archive,
                source,
            } => {
                self.archives.insert((volume, archive), self.volumes[&source].clone());
                Reply::Done
            }
            Request::CreateTarget { target } => {
                self.volumes.entry(target).or_default();
                Reply::Done
            }
            Request::ListArchives { volume } => Reply::Archives(
                self.archives
                    .iter()
                    .filter(|((v, _), _)| *v == volume)
                    .map(|((_, name), content)| ArchiveInfo {
                        name: name.clone(),
                        size: content.len() as u64,
                    })
                    .collect(),
            ),
            Request::UnpackArchive {
                volume,
                archive,
                target,
            } => match self.archives.get(&(volume, archive)) {
                Some(content) => {
                    self.volumes.insert(target, content.clone());
                    Reply::Done
                }
                None => Reply::Failed("no such archive"),
            },
            Request::RemoveArchive { volume, archive } => {
                self.archives.remove(&(volume, archive));
                Reply::Done
            }
        }
    }

    fn run(&mut self, (mut run, mut request): (Run, Request)) -> Result<(), Failure<F>> {
        loop {
            let reply = self.answer(request);
            match run.resume(reply) {
                Progress::Waiting(next, next_request) => {
                    run = next;
                    request = next_request;
                }
                Progress::Finished => return Ok(()),
                Progress::Stopped(failure) => return Err(failure),
            }
        }
    }

    fn run_volume(&mut self, (mut run, mut request): (VolumeRun, Request)) -> Result<(), Failure<F>> {
        loop {
            let reply = self.answer(request);
            match run.resume(reply) {
                Progress::Waiting(next, next_request) => {
                    run = next;
                    request = next_request;
                }
                Progress::Finished => return Ok(()),
                Progress::Stopped(failure) => return Err(failure),
            }
        }
    }
}

fn root() -> Vec<u8> {
    b"/volumes".to_vec()
}

#[test]
fn a_restore_brings_back_what_the_backup_wrote() {
    let mut world = World::new();
    world.run(backup_all(root())).unwrap();
    world.volumes.insert(b"/volumes/app".to_vec(), "new app".to_owned());
    world.volumes.insert(b"/volumes/media".to_vec(), "new media".to_owned());
    world.run(restore_all(root(), None)).unwrap();
    assert_eq!(world.volumes[&b"/volumes/app"[..]], "old app");
    assert_eq!(world.volumes[&b"/volumes/media"[..]], "old media");
}

#[test]
fn volumes_are_backed_up_in_the_order_of_their_names() {
    let mut world = World::new();
    world.run(backup_all(root())).unwrap();
    let names: Vec<(String, String)> = world.archives.keys().cloned().collect();
    assert_eq!(
        names,
        vec![
            ("app".to_owned(), "2026-01-01T00-00-01Z.tar.xz".to_owned()),
            ("media".to_owned(), "2026-01-01T00-00-02Z.tar.xz".to_owned()),
        ]
    );
}

#[test]
fn a_restore_reads_the_newest_archive_or_the_named_one() {
    let mut world = World::new();
    world.run_volume(backup_volume(&root(), "app").unwrap()).unwrap();
    world.volumes.insert(b"/volumes/app".to_vec(), "newer app".to_owned());
    world.run_volume(backup_volume(&root(), "app").unwrap()).unwrap();
    world.volumes.remove(&b"/volumes/app"[..]);
    world.run_volume(restore_volume(&root(), "app", None).unwrap()).unwrap();
    assert_eq!(world.volumes[&b"/volumes/app"[..]], "newer app");
    let first = Some("2026-01-01T00-00-01Z.tar.xz");
    world.run_volume(restore_volume(&root(), "app", first).unwrap()).unwrap();
    assert_eq!(world.volumes[&b"/volumes/app"[..]], "old app");
    let failure = world.run(restore_all(root(), first.map(str::to_owned))).unwrap_err();
    assert!(matches!(failure, Failure::Outside("no such archive")));
}

#[test]
fn a_restore_without_archives_is_refused() {
    let mut world = World::new();
    let failure = world.run(restore_all(root(), None)).unwrap_err();
    let Failure::Refused(refusal) = failure else {
        panic!("an outside failure");
    };
    assert_eq!(refusal.message(), "no backup archives found");
}

#[test]
fn a_volume_without_a_directory_is_not_backed_up() {
    let mut world = World::new();
    let run = backup_volume(b"/volumes", "mus\u{ed}c").unwrap();
    let Err(Failure::Refused(refusal)) = world.run_volume(run) else {
        panic!("a backup of nothing");
    };
    assert_eq!(
        refusal.message(),
        "volume mus\u{ed}c does not exist at /volumes/mus\u{ed}c"
    );
    let run = backup_volume(b"/vol\xffumes", "x").unwrap();
    let Err(Failure::Refused(refusal)) = world.run_volume(run) else {
        panic!("a backup of nothing");
    };
    assert_eq!(refusal.message(), "volume x does not exist at /vol\u{fffd}umes/x");
    assert!(world.archives.is_empty());
}

#[test]
fn names_of_volumes_are_checked_first() {
    assert!(matches!(
        backup_volume(b"/volumes", "../etc"),
        Err(Refusal::InvalidVolumeName { volume }) if volume == "../etc"
    ));
    assert!(matches!(
        restore_volume(b"/volumes", "", None),
        Err(Refusal::InvalidVolumeName { volume }) if volume.is_empty()
    ));
}

#[test]
fn a_cleanup_applies_the_policy_to_every_volume() {
    let mut world = World::new();
    for _ in 0..3 {
        world.run(backup_all(root())).unwrap();
    }
    world.run(cleanup_all(root(), RetentionPolicy::Count { keep: 2 })).unwrap();
    let names: Vec<&str> = world.archives.keys().map(|(_, name)| name.as_str()).collect();
    assert_eq!(
        names,
        vec![
            "2026-01-01T00-00-03Z.tar.xz",
            "2026-01-01T00-00-05Z.tar.xz",
            "2026-01-01T00-00-04Z.tar.xz",
            "2026-01-01T00-00-06Z.tar.xz",
        ]
    );
    let policy = RetentionPolicy::Size {
        min_count: 1,
        max_total_size: 10,
    };
    world.run_volume(cleanup_volume("app", policy)).unwrap();
    assert_eq!(world.archives.len(), 3);
    world.run(restore_all(root(), None)).unwrap();
}

#[test]
fn a_failure_stops_a_run_where_it_is() {
    let (run, _) = backup_all(root());
    assert!(matches!(
        run.resume(Reply::Failed("unreadable")),
        Progress::Stopped(Failure::Outside("unreadable"))
    ));
    let (run, request) = cleanup_volume("app", RetentionPolicy::Count { keep: 0 });
    assert!(matches!(request, Request::ListArchives { volume } if volume == "app"));
    let archive = |name: &str| ArchiveInfo {
        name: name.to_owned(),
        size: 1,
    };
    let listing: Reply<F> = Reply::Archives(vec![archive("a.tar.xz"), archive("b.tar.xz")]);
    let Progress::Waiting(run, request) = run.resume(listing) else {
        panic!("nothing to remove");
    };
    assert!(matches!(request, Request::RemoveArchive { archive, .. } if archive == "a.tar.xz"));
    assert!(matches!(
        run.resume(Reply::Failed("denied")),
        Progress::Stopped(Failure::Outside("denied"))
    ));
}

#[test]
fn a_directory_that_is_no_volume_stops_a_run() {
    let (run, _) = restore_all(root(), None);
    let found: Vec<Found<F>> = vec![Found::Entry {
        name: "a\\b".to_owned(),
        is_dir: true,
    }];
    assert!(matches!(
        run.resume(Reply::Volumes(found)),
        Progress::Stopped(Failure::Refused(Refusal::InvalidVolumeName { volume })) if volume == "a\\b"
    ));
}

#[test]
fn the_latest_archive_is_the_last_one() {
    assert!(latest_archive(Vec::new()).is_none());
    let archives = vec![
        ArchiveInfo {
            name: "a.tar.xz".to_owned(),
            size: 2,
        },
        ArchiveInfo {
            name: "b.tar.xz".to_owned(),
            size: 1,
        },
    ];
    assert_eq!(latest_archive(archives).unwrap(), "b.tar.xz");
}
