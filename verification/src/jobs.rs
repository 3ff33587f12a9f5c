//! Backing up, restoring and cleaning up volumes.
//!
//! A job on a volume, or on all volumes, is a series of requests. Each run of a
//! job waits for what came of its last request and then makes the next one,
//! finishes or stops.

use vstd::prelude::*;
use crate::clock;
use crate::clock::{archive_name_at, is_archive_of, FIRST_SECOND, LAST_SECOND};
use crate::paths;
use crate::paths::{entry_path, leads_to};
use crate::refusal::{Failure, Refusal};
use crate::retention::{
    archives_to_remove, listed, removals, sizes_fit, Archive, ArchiveInfo, RetentionPolicy,
};
use crate::sorting::{sorted, sorts, Named};
use crate::text;
use crate::text::{optional_text, texts};
use crate::volumes::{
    directories, discover_volumes, is_volume_name, lemma_volume_names, names_one_entry, offends,
    reports, validate_volume_name, Found,
};

verus! {

/// What the program is to do for a job.
#[derive(Debug)]
pub enum Request {
    /// Read the directory of the volumes.
    ReadVolumes,
    /// Find out whether `source` is a directory.
    CheckSource { source: Vec<u8> },
    /// Read the clock.
    ReadClock,
    /// Write what the directory `source` holds to an archive of a volume.
    WriteArchive { volume: String, archive: String, source: Vec<u8> },
    /// Make the directory `target` and those above it, if they are not there.
    CreateTarget { target: Vec<u8> },
    /// List the archives of a volume.
    ListArchives { volume: String },
    /// Unpack an archive of a volume into the directory `target`.
    UnpackArchive { volume: String, archive: String, target: Vec<u8> },
    /// Remove an archive of a volume.
    RemoveArchive { volume: String, archive: String },
}

/// What a [`Request`] says.
pub enum Ask {
    ReadVolumes,
    CheckSource { source: Seq<u8> },
    ReadClock,
    WriteArchive { volume: Seq<char>, archive: Seq<char>, source: Seq<u8> },
    CreateTarget { target: Seq<u8> },
    ListArchives { volume: Seq<char> },
    UnpackArchive { volume: Seq<char>, archive: Seq<char>, target: Seq<u8> },
    RemoveArchive { volume: Seq<char>, archive: Seq<char> },
}

impl View for Request {
    type V = Ask;

    open spec fn view(&self) -> Ask {
        match *self {
            Request::ReadVolumes => Ask::ReadVolumes,
            Request::CheckSource { source } => Ask::CheckSource { source: source@ },
            Request::ReadClock => Ask::ReadClock,
            Request::WriteArchive { volume, archive, source } => Ask::WriteArchive {
                volume: volume@,
                archive: archive@,
                source: source@,
            },
            Request::CreateTarget { target } => Ask::CreateTarget { target: target@ },
            Request::ListArchives { volume } => Ask::ListArchives { volume: volume@ },
            Request::UnpackArchive { volume, archive, target } => Ask::UnpackArchive {
                volume: volume@,
                archive: archive@,
                target: target@,
            },
            Request::RemoveArchive { volume, archive } => Ask::RemoveArchive {
                volume: volume@,
                archive: archive@,
            },
        }
    }
}

/// What came of a [`Request`].
#[derive(Debug)]
pub enum Reply<F> {
    /// What was found in the directory of the volumes.
    Volumes(Vec<Found<F>>),
    /// Whether it is a directory.
    Directory(bool),
    /// The seconds since the start of 1970.
    Clock(i64),
    /// The archives of the volume, in the order of their names.
    Archives(Vec<ArchiveInfo>),
    /// It was done.
    Done,
    /// It failed.
    Failed(F),
}

/// What a [`Reply`] says.
pub enum Answer<F> {
    Volumes(Seq<Found<F>>),
    Directory(bool),
    Clock(int),
    Archives(Seq<Archive>),
    Done,
    Failed(F),
}

impl<F> View for Reply<F> {
    type V = Answer<F>;

    open spec fn view(&self) -> Answer<F> {
        match *self {
            Reply::Volumes(found) => Answer::Volumes(found@),
            Reply::Directory(is_dir) => Answer::Directory(is_dir),
            Reply::Clock(seconds) => Answer::Clock(seconds as int),
            Reply::Archives(archives) => Answer::Archives(listed(archives@)),
            Reply::Done => Answer::Done,
            Reply::Failed(f) => Answer::Failed(f),
        }
    }
}

/// Where a run stands.
#[derive(Debug)]
pub enum Progress<R, F> {
    /// A request waits to be carried out.
    Waiting(R, Request),
    /// The job is done.
    Finished,
    /// The job came to nothing.
    Stopped(Failure<F>),
}

/// Why a run stops.
pub enum Stop<F> {
    /// The name is no volume's.
    InvalidName(Seq<char>),
    /// There is no directory of the volume.
    NoSource { volume: Seq<char>, path: Seq<u8> },
    /// The volume has no archive.
    NoArchives,
    /// A request failed.
    Outside(F),
}

/// What happens next in a run.
pub enum Outcome<S, F> {
    /// A request is made.
    Ask(S, Ask),
    /// The job is done.
    Finish,
    /// The job came to nothing.
    Stop(Stop<F>),
}

/// Whether `failure` says why a run stops.
pub open spec fn says<F>(failure: Failure<F>, stop: Stop<F>) -> bool {
    match stop {
        Stop::InvalidName(name) => failure matches Failure::Refused(
            Refusal::InvalidVolumeName { volume },
        ) && volume@ == name,
        Stop::NoSource { volume, path } => failure matches Failure::Refused(
            Refusal::VolumeMissing { volume: v, path: p },
        ) && v@ == volume && p@ == path,
        Stop::NoArchives => failure matches Failure::Refused(Refusal::NoArchives),
        Stop::Outside(f) => failure matches Failure::Outside(e) && e == f,
    }
}

/// Whether `progress` is what `outcome` says.
pub open spec fn amounts_to<R: View, F>(
    progress: Progress<R, F>,
    outcome: Outcome<R::V, F>,
) -> bool {
    match outcome {
        Outcome::Ask(state, ask) => progress matches Progress::Waiting(run, request) && run@
            == state && request@ == ask,
        Outcome::Finish => progress is Finished,
        Outcome::Stop(stop) => progress matches Progress::Stopped(failure) && says(failure, stop),
    }
}

/// What is being done for a volume, by the request that was made last.
#[derive(Debug)]
enum Work {
    CheckSource { source: Vec<u8> },
    ReadClock { source: Vec<u8> },
    WriteArchive,
    CreateTarget { target: Vec<u8>, archive: Option<String> },
    ListForRestore { target: Vec<u8> },
    Unpack,
    ListForCleanup { policy: RetentionPolicy },
    Remove { rest: Vec<String> },
}

/// What is being done for a volume, by the request that was made last.
pub enum WorkState {
    /// A backup asked whether there is a directory.
    CheckSource { source: Seq<u8> },
    /// A backup asked for the time.
    ReadClock { source: Seq<u8> },
    /// A backup had its archive written.
    WriteArchive,
    /// A restore had the directory made.
    CreateTarget { target: Seq<u8>, archive: Option<Seq<char>> },
    /// A restore asked for the archives.
    ListForRestore { target: Seq<u8> },
    /// A restore had its archive unpacked.
    Unpack,
    /// A cleanup asked for the archives.
    ListForCleanup { policy: RetentionPolicy },
    /// A cleanup had an archive removed, with these to follow.
    Remove { rest: Seq<Seq<char>> },
}

impl View for Work {
    type V = WorkState;

    closed spec fn view(&self) -> WorkState {
        match *self {
            Work::CheckSource { source } => WorkState::CheckSource { source: source@ },
            Work::ReadClock { source } => WorkState::ReadClock { source: source@ },
            Work::WriteArchive => WorkState::WriteArchive,
            Work::CreateTarget { target, archive } => WorkState::CreateTarget {
                target: target@,
                archive: optional_text(archive),
            },
            Work::ListForRestore { target } => WorkState::ListForRestore { target: target@ },
            Work::Unpack => WorkState::Unpack,
            Work::ListForCleanup { policy } => WorkState::ListForCleanup { policy },
            Work::Remove { rest } => WorkState::Remove { rest: texts(rest@) },
        }
    }
}

/// A job on one volume that waits for what comes of its last request.
#[derive(Debug)]
pub struct VolumeRun {
    volume: String,
    work: Work,
}

/// What a [`VolumeRun`] holds.
pub struct VolumeState {
    pub volume: Seq<char>,
    pub work: WorkState,
}

impl View for VolumeRun {
    type V = VolumeState;

    closed spec fn view(&self) -> VolumeState {
        VolumeState { volume: self.volume@, work: self.work@ }
    }
}

impl VolumeState {
    /// The same volume with other work.
    pub open spec fn with(self, work: WorkState) -> VolumeState {
        VolumeState { work, ..self }
    }

    /// Has an archive of a volume unpacked into `target`.
    pub open spec fn unpack<F>(
        volume: Seq<char>,
        archive: Seq<char>,
        target: Seq<u8>,
    ) -> Outcome<VolumeState, F> {
        Outcome::Ask(
            VolumeState { volume, work: WorkState::Unpack },
            Ask::UnpackArchive { volume, archive, target },
        )
    }

    /// Has archives of a volume removed, one after the other.
    pub open spec fn remove<F>(volume: Seq<char>, archives: Seq<Seq<char>>) -> Outcome<
        VolumeState,
        F,
    > {
        if archives.len() == 0 {
            Outcome::Finish
        } else {
            Outcome::Ask(
                VolumeState { volume, work: WorkState::Remove { rest: archives.drop_first() } },
                Ask::RemoveArchive { volume, archive: archives[0] },
            )
        }
    }

    /// Whether `answer` is one to the request that was made last.
    pub open spec fn is_answered_by<F>(self, answer: Answer<F>) -> bool {
        answer is Failed || match self.work {
            WorkState::CheckSource { .. } => answer is Directory,
            WorkState::ReadClock { .. } => answer matches Answer::Clock(seconds) && FIRST_SECOND
                <= seconds <= LAST_SECOND,
            WorkState::ListForRestore { .. } => answer is Archives,
            WorkState::ListForCleanup { policy } => answer matches Answer::Archives(archives)
                && sizes_fit(archives, policy),
            _ => answer is Done,
        }
    }

    /// What happens next.
    pub open spec fn after<F>(self, answer: Answer<F>) -> Outcome<VolumeState, F> {
        match (self.work, answer) {
            (_, Answer::Failed(f)) => Outcome::Stop(Stop::Outside(f)),
            (WorkState::CheckSource { source }, Answer::Directory(is_dir)) => if is_dir {
                Outcome::Ask(self.with(WorkState::ReadClock { source }), Ask::ReadClock)
            } else {
                Outcome::Stop(Stop::NoSource { volume: self.volume, path: source })
            },
            (WorkState::ReadClock { source }, Answer::Clock(seconds)) => Outcome::Ask(
                self.with(WorkState::WriteArchive),
                Ask::WriteArchive {
                    volume: self.volume,
                    archive: archive_name_at(seconds),
                    source,
                },
            ),
            (WorkState::CreateTarget { target, archive }, _) => match archive {
                Some(archive) => VolumeState::unpack(self.volume, archive, target),
                None => Outcome::Ask(
                    self.with(WorkState::ListForRestore { target }),
                    Ask::ListArchives { volume: self.volume },
                ),
            },
            (WorkState::ListForRestore { target }, Answer::Archives(archives)) => if archives.len()
                == 0 {
                Outcome::Stop(Stop::NoArchives)
            } else {
                VolumeState::unpack(self.volume, archives.last().name, target)
            },
            (WorkState::ListForCleanup { policy }, Answer::Archives(archives)) =>
                VolumeState::remove(self.volume, removals(archives, policy)),
            (WorkState::Remove { rest }, _) => VolumeState::remove(self.volume, rest),
            _ => Outcome::Finish,
        }
    }
}

/// Gives the name of the newest of archives that are in the order of their
/// names.
pub fn latest_archive(archives: Vec<ArchiveInfo>) -> (latest: Option<String>)
    ensures
        latest is Some <==> archives@.len() > 0,
        latest matches Some(name) ==> name@ == archives@.last().name@,
{
    let mut archives = archives;
    match archives.pop() {
        Some(archive) => Some(archive.name),
        None => None,
    }
}

impl VolumeRun {
    /// Has an archive of a volume unpacked into `target`.
    fn unpack<F>(volume: String, archive: String, target: Vec<u8>) -> (progress: Progress<
        VolumeRun,
        F,
    >)
        ensures
            amounts_to(progress, VolumeState::unpack(volume@, archive@, target@)),
    {
        let request = Request::UnpackArchive { volume: volume.clone(), archive, target };
        Progress::Waiting(VolumeRun { volume, work: Work::Unpack }, request)
    }

    /// Has archives of a volume removed, one after the other.
    fn remove<F>(volume: String, archives: Vec<String>) -> (progress: Progress<VolumeRun, F>)
        ensures
            amounts_to(progress, VolumeState::remove(volume@, texts(archives@))),
    {
        let mut rest = archives;
        if rest.len() == 0 {
            return Progress::Finished;
        }
        let archive = rest.remove(0);
        assert(texts(rest@) =~= texts(archives@).drop_first());
        let request = Request::RemoveArchive { volume: volume.clone(), archive };
        Progress::Waiting(VolumeRun { volume, work: Work::Remove { rest } }, request)
    }

    /// Goes on from what came of the last request. A failure stops the run.
    pub fn resume<F>(self, reply: Reply<F>) -> (progress: Progress<VolumeRun, F>)
        requires
            self@.is_answered_by(reply@),
        ensures
            amounts_to(progress, self@.after(reply@)),
    {
        let volume = self.volume;
        match (self.work, reply) {
            (_, Reply::Failed(f)) => Progress::Stopped(Failure::Outside(f)),
            (Work::CheckSource { source }, Reply::Directory(is_dir)) => {
                if is_dir {
                    Progress::Waiting(
                        VolumeRun { volume, work: Work::ReadClock { source } },
                        Request::ReadClock,
                    )
                } else {
                    Progress::Stopped(
                        Failure::Refused(Refusal::VolumeMissing { volume, path: source }),
                    )
                }
            },
            (Work::ReadClock { source }, Reply::Clock(seconds)) => {
                let archive = clock::archive_name(seconds);
                let request = Request::WriteArchive { volume: volume.clone(), archive, source };
                Progress::Waiting(VolumeRun { volume, work: Work::WriteArchive }, request)
            },
            (Work::CreateTarget { target, archive }, _) => match archive {
                Some(archive) => VolumeRun::unpack(volume, archive, target),
                None => {
                    let request = Request::ListArchives { volume: volume.clone() };
                    Progress::Waiting(
                        VolumeRun { volume, work: Work::ListForRestore { target } },
                        request,
                    )
                },
            },
            (Work::ListForRestore { target }, Reply::Archives(archives)) => match latest_archive(
                archives,
            ) {
                Some(archive) => VolumeRun::unpack(volume, archive, target),
                None => Progress::Stopped(Failure::Refused(Refusal::NoArchives)),
            },
            (Work::ListForCleanup { policy }, Reply::Archives(archives)) => {
                let to_remove = archives_to_remove(archives.as_slice(), policy);
                VolumeRun::remove(volume, to_remove)
            },
            (Work::Remove { rest }, _) => VolumeRun::remove(volume, rest),
            _ => Progress::Finished,
        }
    }
}

/// Begins the backup of a volume below the directory `root`.
pub fn backup_volume(root: &[u8], volume: &str) -> (r: Result<(VolumeRun, Request), Refusal>)
    ensures
        if is_volume_name(volume@) {
            r matches Ok((run, request)) && (run@, request@) == start(
                Task::Backup,
                root@,
                volume@,
            )
        } else {
            r matches Err(Refusal::InvalidVolumeName { volume: v }) && v@ == volume@
        },
{
    match validate_volume_name(volume) {
        Err(refusal) => Err(refusal),
        Ok(()) => {
            let source = paths::join(root, volume);
            let request = Request::CheckSource { source: paths::join(root, volume) };
            let work = Work::CheckSource { source };
            Ok((VolumeRun { volume: volume.to_owned(), work }, request))
        },
    }
}

/// Begins the restore of a volume below the directory `root` from `archive`, or
/// from its newest archive if none is named.
pub fn restore_volume(root: &[u8], volume: &str, archive: Option<&str>) -> (r: Result<
    (VolumeRun, Request),
    Refusal,
>)
    ensures
        if is_volume_name(volume@) {
            r matches Ok((run, request)) && (run@, request@) == start(
                Task::Restore {
                    archive: match archive {
                        Some(archive) => Some(archive@),
                        None => None,
                    },
                },
                root@,
                volume@,
            )
        } else {
            r matches Err(Refusal::InvalidVolumeName { volume: v }) && v@ == volume@
        },
{
    match validate_volume_name(volume) {
        Err(refusal) => Err(refusal),
        Ok(()) => {
            let target = paths::join(root, volume);
            let request = Request::CreateTarget { target: paths::join(root, volume) };
            let archive = match archive {
                Some(archive) => Some(archive.to_owned()),
                None => None,
            };
            let work = Work::CreateTarget { target, archive };
            Ok((VolumeRun { volume: volume.to_owned(), work }, request))
        },
    }
}

/// Begins the cleanup of a volume's archives.
pub fn cleanup_volume(volume: &str, policy: RetentionPolicy) -> (r: (VolumeRun, Request))
    ensures
        r.0@ == (VolumeState { volume: volume@, work: WorkState::ListForCleanup { policy } }),
        r.1@ == (Ask::ListArchives { volume: volume@ }),
{
    let request = Request::ListArchives { volume: volume.to_owned() };
    let work = Work::ListForCleanup { policy };
    (VolumeRun { volume: volume.to_owned(), work }, request)
}

/// A job on all volumes.
#[derive(Debug)]
enum Job {
    Backup,
    Restore { archive: Option<String> },
    Cleanup { policy: RetentionPolicy },
}

/// A job on all volumes.
pub enum Task {
    /// Back them up.
    Backup,
    /// Restore them from the archive of this name, or from the newest one of
    /// each.
    Restore { archive: Option<Seq<char>> },
    /// Remove what the policy does not keep.
    Cleanup { policy: RetentionPolicy },
}

impl View for Job {
    type V = Task;

    closed spec fn view(&self) -> Task {
        match *self {
            Job::Backup => Task::Backup,
            Job::Restore { archive } => Task::Restore { archive: optional_text(archive) },
            Job::Cleanup { policy } => Task::Cleanup { policy },
        }
    }
}

/// How a job on a volume begins.
pub open spec fn start(task: Task, root: Seq<u8>, volume: Seq<char>) -> (VolumeState, Ask) {
    let path = entry_path(root, volume);
    match task {
        Task::Backup => (
            VolumeState { volume, work: WorkState::CheckSource { source: path } },
            Ask::CheckSource { source: path },
        ),
        Task::Restore { archive } => (
            VolumeState { volume, work: WorkState::CreateTarget { target: path, archive } },
            Ask::CreateTarget { target: path },
        ),
        Task::Cleanup { policy } => (
            VolumeState { volume, work: WorkState::ListForCleanup { policy } },
            Ask::ListArchives { volume },
        ),
    }
}

/// A job on all volumes that waits for what comes of its last request.
#[derive(Debug)]
pub struct Run {
    root: Vec<u8>,
    job: Job,
    rest: Vec<String>,
    current: Option<VolumeRun>,
}

/// What a [`Run`] holds.
pub struct RunState {
    /// The directory of the volumes.
    pub root: Seq<u8>,
    /// The job.
    pub task: Task,
    /// The volumes that follow.
    pub rest: Seq<Seq<char>>,
    /// The job on the current volume; there is none before the volumes are
    /// known.
    pub current: Option<VolumeState>,
}

impl View for Run {
    type V = RunState;

    closed spec fn view(&self) -> RunState {
        RunState {
            root: self.root@,
            task: self.job@,
            rest: texts(self.rest@),
            current: match self.current {
                Some(run) => Some(run@),
                None => None,
            },
        }
    }
}

/// Whether all of these are names of volumes.
pub open spec fn are_volumes(names: Seq<Seq<char>>) -> bool {
    forall|i: int| 0 <= i < names.len() ==> is_volume_name(#[trigger] names[i])
}

/// Goes on with the first of the volumes that follow, if any do.
pub open spec fn next_volume<F>(root: Seq<u8>, task: Task, rest: Seq<Seq<char>>) -> Outcome<
    RunState,
    F,
> {
    if rest.len() == 0 {
        Outcome::Finish
    } else {
        let (state, ask) = start(task, root, rest[0]);
        Outcome::Ask(RunState { root, task, rest: rest.drop_first(), current: Some(state) }, ask)
    }
}

impl RunState {
    /// A run that has asked for the volumes.
    pub open spec fn first(root: Seq<u8>, task: Task) -> RunState {
        RunState { root, task, rest: Seq::empty(), current: None }
    }

    /// Whether `answer` is one to the request that was made last.
    pub open spec fn is_answered_by<F>(self, answer: Answer<F>) -> bool {
        match self.current {
            Some(state) => state.is_answered_by(answer),
            None => answer is Volumes || answer is Failed,
        }
    }

    /// What happens next, once the volumes are known.
    pub open spec fn after<F>(self, answer: Answer<F>) -> Outcome<RunState, F>
        recommends
            self.current is Some,
    {
        match self.current->0.after(answer) {
            Outcome::Ask(state, ask) => Outcome::Ask(
                RunState { current: Some(state), ..self },
                ask,
            ),
            Outcome::Finish => next_volume(self.root, self.task, self.rest),
            Outcome::Stop(stop) => Outcome::Stop(stop),
        }
    }
}

/// What happens once the directory of the volumes has been read: the job goes
/// on with its first volume, in the order of their names, unless something that
/// was found ends the search for them.
pub open spec fn goes_on_with<F>(
    progress: Progress<Run, F>,
    root: Seq<u8>,
    task: Task,
    found: Seq<Found<F>>,
) -> bool {
    if forall|i: int| 0 <= i < found.len() ==> !offends(#[trigger] found[i]) {
        exists|volumes: Seq<String>|
            {
                &&& #[trigger] sorts(directories(found), volumes)
                &&& amounts_to(progress, next_volume(root, task, texts(volumes)))
            }
    } else {
        exists|i: int|
            {
                &&& 0 <= i < found.len()
                &&& offends(#[trigger] found[i])
                &&& progress matches Progress::Stopped(failure) && reports(failure, found[i])
                &&& forall|j: int| 0 <= j < i ==> !offends(#[trigger] found[j])
            }
    }
}

/// Whether `progress` is how a run goes on from an answer.
pub open spec fn continues<F>(
    state: RunState,
    answer: Answer<F>,
    progress: Progress<Run, F>,
) -> bool {
    match (state.current, answer) {
        (Some(_), answer) => amounts_to(progress, state.after(answer)),
        (None, Answer::Volumes(found)) => goes_on_with(progress, state.root, state.task, found),
        (None, Answer::Failed(f)) => progress matches Progress::Stopped(Failure::Outside(e)) && e
            == f,
        _ => false,
    }
}

impl Run {
    /// Whether the volumes that follow have names of volumes.
    #[verifier::type_invariant]
    spec fn volumes_are_named(self) -> bool {
        are_volumes(texts(self.rest@))
    }

    /// A run that has the directory of the volumes read first.
    fn begin(root: Vec<u8>, job: Job) -> (r: (Run, Request))
        ensures
            r.0@ == RunState::first(root@, job@),
            r.1@ == Ask::ReadVolumes,
    {
        let rest: Vec<String> = Vec::new();
        assert(texts(rest@) =~= Seq::<Seq<char>>::empty());
        (Run { root, job, rest, current: None }, Request::ReadVolumes)
    }

    /// Goes on with the first of the volumes that follow, if any do.
    fn next_volume<F>(root: Vec<u8>, job: Job, rest: Vec<String>) -> (progress: Progress<Run, F>)
        requires
            are_volumes(texts(rest@)),
        ensures
            amounts_to(progress, next_volume(root@, job@, texts(rest@))),
    {
        let ghost all = texts(rest@);
        let mut rest = rest;
        if rest.len() == 0 {
            return Progress::Finished;
        }
        let volume = rest.remove(0);
        proof {
            assert(volume@ == all[0]);
            assert(texts(rest@) =~= all.drop_first());
            assert forall|i: int| 0 <= i < texts(rest@).len() implies is_volume_name(
                #[trigger] texts(rest@)[i],
            ) by {
                assert(texts(rest@)[i] == all[i + 1]);
            }
        }
        let begun = match &job {
            Job::Backup => backup_volume(root.as_slice(), volume.as_str()),
            Job::Restore { archive } => restore_volume(
                root.as_slice(),
                volume.as_str(),
                match archive {
                    Some(archive) => Some(archive.as_str()),
                    None => None,
                },
            ),
            Job::Cleanup { policy } => Ok(cleanup_volume(volume.as_str(), *policy)),
        };
        match begun {
            Ok((run, request)) => {
                let ghost expected = start(job@, root@, volume@);
                assert((run@, request@) == expected);
                Progress::Waiting(Run { root, job, rest, current: Some(run) }, request)
            },
            Err(refusal) => Progress::Stopped(Failure::Refused(refusal)),
        }
    }

    /// Goes on from what came of the last request. A failure stops the run; the
    /// volumes that follow are left as they are.
    pub fn resume<F>(self, reply: Reply<F>) -> (progress: Progress<Run, F>)
        requires
            self@.is_answered_by(reply@),
        ensures
            continues(self@, reply@, progress),
    {
        proof {
            use_type_invariant(&self);
        }
        let Run { root, job, rest, current } = self;
        match current {
            Some(run) => match run.resume(reply) {
                Progress::Waiting(run, request) => Progress::Waiting(
                    Run { root, job, rest, current: Some(run) },
                    request,
                ),
                Progress::Finished => Run::next_volume(root, job, rest),
                Progress::Stopped(failure) => Progress::Stopped(failure),
            },
            None => match reply {
                Reply::Volumes(found) => match discover_volumes(found) {
                    Ok(volumes) => {
                        assert forall|i: int| 0 <= i < texts(volumes@).len() implies is_volume_name(
                            #[trigger] texts(volumes@)[i],
                        ) by {
                            assert(texts(volumes@)[i] == volumes@[i]@);
                        }
                        Run::next_volume(root, job, volumes)
                    },
                    Err(failure) => Progress::Stopped(failure),
                },
                Reply::Failed(f) => Progress::Stopped(Failure::Outside(f)),
                _ => Progress::Finished,
            },
        }
    }
}

/// Begins the backup of every volume below the directory `root`.
pub fn backup_all(root: Vec<u8>) -> (r: (Run, Request))
    ensures
        r.0@ == RunState::first(root@, Task::Backup),
        r.1@ == Ask::ReadVolumes,
{
    Run::begin(root, Job::Backup)
}

/// Begins the restore of every volume below the directory `root`, from the
/// archive of the name `archive` or from the newest one of each.
pub fn restore_all(root: Vec<u8>, archive: Option<String>) -> (r: (Run, Request))
    ensures
        r.0@ == RunState::first(root@, Task::Restore { archive: optional_text(archive) }),
        r.1@ == Ask::ReadVolumes,
{
    Run::begin(root, Job::Restore { archive })
}

/// Begins the cleanup of every volume below the directory `root`.
pub fn cleanup_all(root: Vec<u8>, policy: RetentionPolicy) -> (r: (Run, Request))
    ensures
        r.0@ == RunState::first(root@, Task::Cleanup { policy }),
        r.1@ == Ask::ReadVolumes,
{
    Run::begin(root, Job::Cleanup { policy })
}

/// A backup of a volume looks for the volume's directory below the root, asks for
/// the time, writes what that directory holds to the archive of that time, and is
/// then done; without a directory nothing is written.
pub proof fn law_a_backup_writes_the_volume<F>(
    root: &[u8],
    volume: &str,
    begun: VolumeRun,
    first: Request,
    is_dir: bool,
    looked: Progress<VolumeRun, F>,
)
    requires
        call_ensures(backup_volume, (root, volume), Ok((begun, first))),
        call_ensures(VolumeRun::resume::<F>, (begun, Reply::Directory(is_dir)), looked),
    ensures
        names_one_entry(volume@),
        first matches Request::CheckSource { source } && leads_to(source@, root@, volume@),
        !is_dir ==> {
            &&& looked matches Progress::Stopped(
                Failure::Refused(Refusal::VolumeMissing { volume: v, path }),
            )
            &&& v@ == volume@
            &&& leads_to(path@, root@, volume@)
        },
        is_dir ==> {
            &&& looked matches Progress::Waiting(found, second)
            &&& second is ReadClock
            &&& forall|seconds: i64, told: Progress<VolumeRun, F>| #[trigger]
                call_ensures(VolumeRun::resume::<F>, (found, Reply::Clock(seconds)), told) ==> {
                    &&& told matches Progress::Waiting(writing, third)
                    &&& writes(third, volume@, first, seconds)
                    &&& forall|last: Progress<VolumeRun, F>| #[trigger]
                        call_ensures(VolumeRun::resume::<F>, (writing, Reply::Done), last)
                            ==> last is Finished
                }
        },
{
    lemma_volume_names(volume@);
    paths::lemma_entry_path(root@, volume@);
    if is_dir {
        let found = looked->Waiting_0;
        assert forall|seconds: i64, told: Progress<VolumeRun, F>| #[trigger]
            call_ensures(VolumeRun::resume::<F>, (found, Reply::Clock(seconds)), told) implies {
            &&& told matches Progress::Waiting(writing, third)
            &&& writes(third, volume@, first, seconds)
            &&& forall|last: Progress<VolumeRun, F>| #[trigger]
                call_ensures(VolumeRun::resume::<F>, (writing, Reply::Done), last) ==> last
                    is Finished
        } by {
            clock::law_every_second_has_one_name(archive_name_at(seconds as int), seconds as int);
            assert(amounts_to(told, found@.after(Answer::<F>::Clock(seconds as int))));
        }
    }
}

/// Whether a request has the directory that was looked for written to the archive
/// of a volume that is named after a second.
pub open spec fn writes(
    request: Request,
    volume: Seq<char>,
    looked: Request,
    seconds: i64,
) -> bool {
    &&& request matches Request::WriteArchive { volume: v, archive, source }
    &&& v@ == volume
    &&& is_archive_of(archive@, seconds as int)
    &&& looked matches Request::CheckSource { source: s }
    &&& source@ == s@
}

/// Whether a request has an archive of a volume unpacked into the directory that
/// was made.
pub open spec fn unpacks(
    request: Request,
    volume: Seq<char>,
    archive: Seq<char>,
    made: Request,
) -> bool {
    &&& request matches Request::UnpackArchive { volume: v, archive: a, target }
    &&& v@ == volume
    &&& a@ == archive
    &&& made matches Request::CreateTarget { target: t }
    &&& target@ == t@
}

/// A backup or restore of a volume is refused exactly where its name does not
/// name one entry of a directory.
pub proof fn law_jobs_are_refused_for_other_names(
    root: &[u8],
    volume: &str,
    archive: Option<&str>,
    backup: Result<(VolumeRun, Request), Refusal>,
    restore: Result<(VolumeRun, Request), Refusal>,
)
    requires
        call_ensures(backup_volume, (root, volume), backup),
        call_ensures(restore_volume, (root, volume, archive), restore),
    ensures
        backup is Ok <==> names_one_entry(volume@),
        restore is Ok <==> names_one_entry(volume@),
        backup matches Err(refusal) ==> (refusal matches Refusal::InvalidVolumeName { volume: v }
            && v@ == volume@),
        restore matches Err(refusal) ==> (refusal matches Refusal::InvalidVolumeName { volume: v }
            && v@ == volume@),
{
    lemma_volume_names(volume@);
}

/// A restore of a volume from a named archive makes the volume's directory below
/// the root, unpacks that archive into it, and is then done.
pub proof fn law_a_restore_unpacks_the_named_archive<F>(
    root: &[u8],
    volume: &str,
    archive: &str,
    begun: VolumeRun,
    first: Request,
    made: Progress<VolumeRun, F>,
)
    requires
        call_ensures(restore_volume, (root, volume, Some(archive)), Ok((begun, first))),
        call_ensures(VolumeRun::resume::<F>, (begun, Reply::Done), made),
    ensures
        first matches Request::CreateTarget { target } && leads_to(target@, root@, volume@),
        ({
            &&& made matches Progress::Waiting(unpacking, second)
            &&& unpacks(second, volume@, archive@, first)
            &&& forall|last: Progress<VolumeRun, F>| #[trigger]
                call_ensures(VolumeRun::resume::<F>, (unpacking, Reply::Done), last) ==> last
                    is Finished
        }),
{
    paths::lemma_entry_path(root@, volume@);
}

/// A restore of a volume without a named archive makes the volume's directory
/// below the root, asks for the archives, unpacks the last that is listed, and is
/// then done; where none is listed it is refused.
pub proof fn law_a_restore_unpacks_the_last_archive<F>(
    root: &[u8],
    volume: &str,
    begun: VolumeRun,
    first: Request,
    made: Progress<VolumeRun, F>,
)
    requires
        call_ensures(restore_volume, (root, volume, None), Ok((begun, first))),
        call_ensures(VolumeRun::resume::<F>, (begun, Reply::Done), made),
    ensures
        first matches Request::CreateTarget { target } && leads_to(target@, root@, volume@),
        ({
            &&& made matches Progress::Waiting(listing, second)
            &&& second matches Request::ListArchives { volume: v }
            &&& v@ == volume@
            &&& forall|archives: Vec<ArchiveInfo>, next: Progress<VolumeRun, F>| #[trigger]
                call_ensures(VolumeRun::resume::<F>, (listing, Reply::Archives(archives)), next)
                    ==> if archives@.len() == 0 {
                    next matches Progress::Stopped(Failure::Refused(Refusal::NoArchives))
                } else {
                    &&& next matches Progress::Waiting(unpacking, third)
                    &&& unpacks(third, volume@, archives@.last().name@, first)
                    &&& forall|last: Progress<VolumeRun, F>| #[trigger]
                        call_ensures(VolumeRun::resume::<F>, (unpacking, Reply::Done), last)
                            ==> last is Finished
                }
        }),
{
    paths::lemma_entry_path(root@, volume@);
    let listing = made->Waiting_0;
    assert forall|archives: Vec<ArchiveInfo>, next: Progress<VolumeRun, F>| #[trigger]
        call_ensures(VolumeRun::resume::<F>, (listing, Reply::Archives(archives)), next) implies if
        archives@.len() == 0 {
        next matches Progress::Stopped(Failure::Refused(Refusal::NoArchives))
    } else {
        &&& next matches Progress::Waiting(unpacking, third)
        &&& unpacks(third, volume@, archives@.last().name@, first)
        &&& forall|last: Progress<VolumeRun, F>| #[trigger]
            call_ensures(VolumeRun::resume::<F>, (unpacking, Reply::Done), last) ==> last
                is Finished
    } by {
        assert(amounts_to(next, listing@.after(Answer::<F>::Archives(listed(archives@)))));
    }
}

/// The latest archive is the last of those that are listed.
pub proof fn law_the_latest_archive_is_the_last(
    archives: Vec<ArchiveInfo>,
    latest: Option<String>,
)
    requires
        call_ensures(latest_archive, (archives,), latest),
    ensures
        match latest {
            Some(name) => archives@.len() > 0 && name@ == archives@[archives@.len() - 1].name@,
            None => archives@.len() == 0,
        },
{
}

/// Whether `runs` and `requests` are the course of a job on a volume that goes on
/// as long as everything is done.
pub open spec fn is_done_course<F>(runs: Seq<VolumeRun>, requests: Seq<Request>) -> bool {
    &&& runs.len() == requests.len()
    &&& forall|i: int| 0 <= i < runs.len() - 1 ==> #[trigger] goes_on::<F>(runs, requests, i)
}

/// Whether a course goes on from its place `i` when what was asked for is done.
pub open spec fn goes_on<F>(runs: Seq<VolumeRun>, requests: Seq<Request>, i: int) -> bool {
    call_ensures(
        VolumeRun::resume::<F>,
        (runs[i], Reply::Done),
        Progress::Waiting(runs[i + 1], requests[i + 1]),
    )
}

/// What is left to remove in the course of a cleanup.
proof fn lemma_cleanup_course<F>(
    volume: Seq<char>,
    to_remove: Seq<Seq<char>>,
    runs: Seq<VolumeRun>,
    requests: Seq<Request>,
    i: int,
)
    requires
        is_done_course::<F>(runs, requests),
        0 <= i < runs.len(),
        to_remove.len() > 0,
        runs[0]@ == (VolumeState {
            volume,
            work: WorkState::Remove { rest: to_remove.drop_first() },
        }),
        requests[0]@ == (Ask::RemoveArchive { volume, archive: to_remove[0] }),
    ensures
        i < to_remove.len(),
        runs[i]@ == (VolumeState {
            volume,
            work: WorkState::Remove { rest: to_remove.skip(i + 1) },
        }),
        requests[i]@ == (Ask::RemoveArchive { volume, archive: to_remove[i] }),
    decreases i,
{
    if i == 0 {
        assert(to_remove.drop_first() =~= to_remove.skip(1));
    } else {
        lemma_cleanup_course::<F>(volume, to_remove, runs, requests, i - 1);
        let run = runs[i - 1];
        assert(goes_on::<F>(runs, requests, i - 1));
        assert(amounts_to(
            Progress::<VolumeRun, F>::Waiting(runs[i], requests[i]),
            run@.after(Answer::<F>::Done),
        ));
        let rest = to_remove.skip(i);
        assert(rest.drop_first() =~= to_remove.skip(i + 1));
        assert(rest[0] == to_remove[i]);
    }
}

/// A cleanup of a volume asks for its archives and removes those that
/// [`archives_to_remove`] names, all of them, in that order, and is then done.
pub proof fn law_a_cleanup_removes_what_the_policy_names<F>(
    volume: &str,
    policy: RetentionPolicy,
    begun: (VolumeRun, Request),
    archives: Vec<ArchiveInfo>,
    slice: &[ArchiveInfo],
    named: Vec<String>,
    next: Progress<VolumeRun, F>,
    runs: Seq<VolumeRun>,
    requests: Seq<Request>,
    i: int,
    last: Progress<VolumeRun, F>,
)
    requires
        call_ensures(cleanup_volume, (volume, policy), begun),
        call_ensures(VolumeRun::resume::<F>, (begun.0, Reply::Archives(archives)), next),
        slice@ == archives@,
        call_ensures(archives_to_remove, (slice, policy), named),
        is_done_course::<F>(runs, requests),
        runs.len() > 0,
        0 <= i < runs.len(),
        call_ensures(VolumeRun::resume::<F>, (runs.last(), Reply::Done), last),
    ensures
        begun.1 matches Request::ListArchives { volume: v } && v@ == volume@,
        named@.len() == 0 ==> next is Finished,
        named@.len() > 0 ==> next is Waiting,
        next == Progress::<VolumeRun, F>::Waiting(runs[0], requests[0]) ==> {
            &&& i < named@.len()
            &&& requests[i] matches Request::RemoveArchive { volume: v, archive }
            &&& v@ == volume@
            &&& archive@ == named@[i]@
            &&& last is Finished <==> runs.len() == named@.len()
            &&& !(last is Stopped)
        },
{
    let to_remove = texts(named@);
    assert(to_remove == removals(listed(archives@), policy));
    assert(amounts_to(next, begun.0@.after(Answer::<F>::Archives(listed(archives@)))));
    if next == Progress::<VolumeRun, F>::Waiting(runs[0], requests[0]) {
        lemma_cleanup_course::<F>(volume@, to_remove, runs, requests, i);
        lemma_cleanup_course::<F>(volume@, to_remove, runs, requests, runs.len() - 1);
        assert(amounts_to(last, runs.last()@.after(Answer::<F>::Done)));
    }
}

/// The failure of a request ends a job on a volume, and is what it reports.
pub proof fn law_a_failed_request_ends_the_job<F>(
    run: VolumeRun,
    f: F,
    progress: Progress<VolumeRun, F>,
)
    requires
        call_ensures(VolumeRun::resume::<F>, (run, Reply::Failed(f)), progress),
    ensures
        progress == Progress::<VolumeRun, F>::Stopped(Failure::Outside(f)),
{
}

/// A failure to read the directory of the volumes ends a job on all volumes, and
/// so does the failure of a request for one of them.
pub proof fn law_a_failure_ends_a_job_on_all_volumes<F>(
    run: Run,
    f: F,
    progress: Progress<Run, F>,
)
    requires
        call_ensures(Run::resume::<F>, (run, Reply::Failed(f)), progress),
    ensures
        progress == Progress::<Run, F>::Stopped(Failure::Outside(f)),
{
}

/// A job on all volumes begins by reading the directory of the volumes.
pub proof fn law_jobs_on_all_volumes_begin_with_the_directory(
    root: Vec<u8>,
    archive: Option<String>,
    policy: RetentionPolicy,
    backup: (Run, Request),
    restore: (Run, Request),
    cleanup: (Run, Request),
)
    requires
        call_ensures(backup_all, (root,), backup),
        call_ensures(restore_all, (root, archive), restore),
        call_ensures(cleanup_all, (root, policy), cleanup),
    ensures
        backup.1 is ReadVolumes && restore.1 is ReadVolumes && cleanup.1 is ReadVolumes,
        backup.0@.root == root@ && restore.0@.root == root@ && cleanup.0@.root == root@,
        backup.0@.current is None && restore.0@.current is None && cleanup.0@.current is None,
        backup.0@.task is Backup,
        restore.0@.task matches Task::Restore { archive: a } && match archive {
            Some(archive) => a == Some(archive@),
            None => a is None,
        },
        cleanup.0@.task == (Task::Cleanup { policy }),
{
}

/// A job on all volumes goes on as the job on its current volume does, and when
/// that is done, with the next volume; it is done when there is none.
pub proof fn law_a_job_goes_from_volume_to_volume<F>(
    run: Run,
    reply: Reply<F>,
    progress: Progress<Run, F>,
)
    requires
        run@.current is Some,
        call_ensures(Run::resume::<F>, (run, reply), progress),
    ensures
        match run@.current->0.after(reply@) {
            Outcome::Ask(state, ask) => {
                &&& progress matches Progress::Waiting(next, request)
                &&& request@ == ask
                &&& next@.current == Some(state)
                &&& next@.root == run@.root && next@.task == run@.task && next@.rest == run@.rest
            },
            Outcome::Finish => if run@.rest.len() == 0 {
                progress is Finished
            } else {
                &&& progress matches Progress::Waiting(next, request)
                &&& next@.root == run@.root && next@.task == run@.task
                &&& next@.rest == run@.rest.drop_first()
                &&& next@.current matches Some(state)
                &&& state.volume == run@.rest[0]
                &&& begins_job(run@.task, run@.root, run@.rest[0], state, request)
            },
            Outcome::Stop(stop) => {
                &&& progress matches Progress::Stopped(failure)
                &&& match stop {
                    Stop::InvalidName(name) => failure matches Failure::Refused(
                        Refusal::InvalidVolumeName { volume },
                    ) && volume@ == name,
                    Stop::NoSource { volume, path } => failure matches Failure::Refused(
                        Refusal::VolumeMissing { volume: v, path: p },
                    ) && v@ == volume && p@ == path,
                    Stop::NoArchives => failure matches Failure::Refused(Refusal::NoArchives),
                    Stop::Outside(f) => failure == Failure::Outside(f),
                }
            },
        },
{
    if run@.rest.len() > 0 {
        paths::lemma_entry_path(run@.root, run@.rest[0]);
    }
}

/// Whether a job on a volume begins with this request.
pub open spec fn begins_job(
    task: Task,
    root: Seq<u8>,
    volume: Seq<char>,
    state: VolumeState,
    request: Request,
) -> bool {
    match task {
        Task::Backup => {
            &&& request matches Request::CheckSource { source }
            &&& leads_to(source@, root, volume)
            &&& state.work == (WorkState::CheckSource { source: source@ })
        },
        Task::Restore { archive } => {
            &&& request matches Request::CreateTarget { target }
            &&& leads_to(target@, root, volume)
            &&& state.work == (WorkState::CreateTarget { target: target@, archive })
        },
        Task::Cleanup { policy } => {
            &&& request matches Request::ListArchives { volume: v }
            &&& v@ == volume
            &&& state.work == (WorkState::ListForCleanup { policy })
        },
    }
}

/// Once the directory of the volumes has been read, a job begins with the first
/// of the volumes that [`discover_volumes`] finds, with the others to follow in
/// their order, and is done where there are none; where the search for them
/// fails, so does the job, for the same reason.
pub proof fn law_a_job_takes_every_volume<F>(
    run: Run,
    found: Vec<Found<F>>,
    progress: Progress<Run, F>,
    discovered: Result<Vec<String>, Failure<F>>,
)
    requires
        run@.current is None,
        call_ensures(Run::resume::<F>, (run, Reply::Volumes(found)), progress),
        call_ensures(discover_volumes::<F>, (found,), discovered),
    ensures
        match discovered {
            Ok(volumes) => if volumes@.len() == 0 {
                progress is Finished
            } else {
                &&& progress matches Progress::Waiting(next, request)
                &&& next@.root == run@.root && next@.task == run@.task
                &&& next@.rest.len() == volumes@.len() - 1
                &&& forall|i: int|
                    0 <= i < next@.rest.len() ==> #[trigger] next@.rest[i] == volumes@[i + 1]@
                &&& next@.current matches Some(state)
                &&& state.volume == volumes@[0]@
                &&& begins_job(run@.task, run@.root, volumes@[0]@, state, request)
            },
            Err(failure) => {
                &&& progress matches Progress::Stopped(reported)
                &&& match failure {
                    Failure::Outside(f) => reported == Failure::Outside(f),
                    Failure::Refused(refusal) => {
                        &&& refusal matches Refusal::InvalidVolumeName { volume }
                        &&& reported matches Failure::Refused(
                            Refusal::InvalidVolumeName { volume: v },
                        )
                        &&& v@ == volume@
                    },
                }
            },
        },
{
    if let Ok(volumes) = discovered {
        let others = choose|others: Seq<String>|
            {
                &&& #[trigger] sorts(directories(found@), others)
                &&& amounts_to(progress, next_volume(run@.root, run@.task, texts(others)))
            };
        assert(sorts(directories(found@), others));
        lemma_one_order(directories(found@), volumes@, others);
        if volumes@.len() > 0 {
            paths::lemma_entry_path(run@.root, volumes@[0]@);
            assert(texts(others)[0] == volumes@[0]@);
            let rest = texts(others).drop_first();
            assert forall|i: int| 0 <= i < rest.len() implies #[trigger] rest[i] == volumes@[i
                + 1]@ by {
                assert(texts(others)[i + 1] == texts(volumes@)[i + 1]);
            }
        }
    } else {
        let failure = discovered->Err_0;
        let i = choose|i: int|
            {
                &&& 0 <= i < found@.len()
                &&& offends(#[trigger] found@[i])
                &&& reports(failure, found@[i])
                &&& forall|j: int| 0 <= j < i ==> !offends(#[trigger] found@[j])
            };
        let j = choose|i: int|
            {
                &&& 0 <= i < found@.len()
                &&& offends(#[trigger] found@[i])
                &&& progress matches Progress::Stopped(failure) && reports(failure, found@[i])
                &&& forall|j: int| 0 <= j < i ==> !offends(#[trigger] found@[j])
            };
        assert(offends(found@[i]));
        assert(offends(found@[j]));
        assert(i == j);
    }
}

/// There is one order of names.
proof fn lemma_one_order(names: Seq<String>, a: Seq<String>, b: Seq<String>)
    requires
        sorts(names, a),
        sorts(names, b),
    ensures
        texts(a) == texts(b),
{
    lemma_sorted_alike(a, b);
    assert(texts(a) =~= texts(b));
}

/// Names in order that are as many of each are the same.
proof fn lemma_sorted_alike(a: Seq<String>, b: Seq<String>)
    requires
        sorted(a),
        sorted(b),
        a.to_multiset() == b.to_multiset(),
    ensures
        a.len() == b.len(),
        forall|i: int| 0 <= i < a.len() ==> (#[trigger] a[i])@ == b[i]@,
    decreases a.len(),
{
    a.to_multiset_ensures();
    b.to_multiset_ensures();
    if a.len() > 0 {
        let n = a.len() - 1;
        assert(b.to_multiset().count(a[n]) > 0) by {
            assert(a.contains(a[n]));
        }
        assert(b.contains(a[n]));
        let j = choose|j: int| 0 <= j < b.len() && b[j] == a[n];
        assert(a.to_multiset().count(b[n]) > 0) by {
            assert(b.contains(b[n]));
        }
        assert(a.contains(b[n]));
        let i = choose|i: int| 0 <= i < a.len() && a[i] == b[n];
        if j < n {
            assert(text::in_order(b[j].key(), b[n].key()));
        } else {
            text::lemma_order_reflexive(b[n]@);
        }
        if i < n {
            assert(text::in_order(a[i].key(), a[n].key()));
        } else {
            text::lemma_order_reflexive(a[n]@);
        }
        text::lemma_order_antisymmetric(a[n]@, b[n]@);
        let c = a.remove(n);
        let d = b.remove(j);
        lemma_without_one(b, j);
        assert(c.to_multiset() == d.to_multiset());
        assert(sorted(c));
        lemma_sorted_alike(c, d);
        assert forall|k: int| 0 <= k < a.len() implies (#[trigger] a[k])@ == b[k]@ by {
            if k < n {
                assert(a[k] == c[k]);
                if k < j {
                    assert(d[k] == b[k]);
                } else {
                    assert(d[k] == b[k + 1]);
                    assert(text::in_order(b[j].key(), b[k].key())) by {
                        if k == j {
                            text::lemma_order_reflexive(b[j]@);
                        }
                    }
                    assert(text::in_order(b[k].key(), b[n].key()));
                    text::lemma_order_antisymmetric(b[k]@, b[n]@);
                    if k + 1 < n {
                        assert(text::in_order(b[j].key(), b[k + 1].key()));
                        assert(text::in_order(b[k + 1].key(), b[n].key()));
                        text::lemma_order_antisymmetric(b[k + 1]@, b[n]@);
                    }
                }
            }
        }
    }
}

/// Names in order stay so without one of them.
proof fn lemma_without_one(names: Seq<String>, j: int)
    requires
        sorted(names),
        0 <= j < names.len(),
    ensures
        sorted(names.remove(j)),
{
    let rest = names.remove(j);
    assert forall|x: int, y: int| 0 <= x < y < rest.len() implies text::in_order(
        (#[trigger] rest[x]).key(),
        (#[trigger] rest[y]).key(),
    ) by {
        let p = if x < j {
            x
        } else {
            x + 1
        };
        let q = if y < j {
            y
        } else {
            y + 1
        };
        assert(rest[x] == names[p]);
        assert(rest[y] == names[q]);
    }
}

} // verus!
