//! What whole runs of jobs amount to.

use vstd::prelude::*;
use crate::clock;
use crate::clock::{archive_name_at, CivilTime};
use crate::jobs::{
    next_volume, Answer, Ask, Outcome, RunState, Stop, Task, VolumeState, WorkState,
};
use crate::paths::entry_path;
use crate::retention::{listed, removals, Archive, ArchiveInfo, RetentionPolicy};
use crate::sorting::{sorted, Named};
use crate::text;
use crate::text::in_order;

verus! {

/// The requests that are made while `answers` come in.
pub open spec fn asks<F>(outcome: Outcome<RunState, F>, answers: Seq<Answer<F>>) -> Seq<Ask>
    decreases answers.len(),
{
    match outcome {
        Outcome::Ask(state, ask) => if answers.len() == 0 {
            seq![ask]
        } else {
            seq![ask] + asks(state.after(answers[0]), answers.drop_first())
        },
        _ => Seq::empty(),
    }
}

/// Where a run stands when `answers` have come in.
pub open spec fn end<F>(outcome: Outcome<RunState, F>, answers: Seq<Answer<F>>) -> Outcome<
    RunState,
    F,
>
    decreases answers.len(),
{
    match outcome {
        Outcome::Ask(state, _) => if answers.len() == 0 {
            outcome
        } else {
            end(state.after(answers[0]), answers.drop_first())
        },
        _ => outcome,
    }
}

/// One answer more.
proof fn lemma_answer<F>(
    state: RunState,
    ask: Ask,
    first: Answer<F>,
    rest: Seq<Answer<F>>,
)
    ensures
        asks(Outcome::Ask(state, ask), seq![first] + rest) == seq![ask] + asks(
            state.after(first),
            rest,
        ),
        end(Outcome::Ask(state, ask), seq![first] + rest) == end(state.after(first), rest),
{
    assert((seq![first] + rest).drop_first() == rest);
}

/// A failed request is the last one that a run makes, and the run reports the
/// failure.
pub proof fn law_a_failure_stops_the_run<F>(
    outcome: Outcome<RunState, F>,
    answers: Seq<Answer<F>>,
    f: F,
)
    requires
        end(outcome, answers) matches Outcome::Ask(state, _) && state.current is Some,
    ensures
        end(outcome, answers.push(Answer::Failed(f))) == Outcome::<RunState, F>::Stop(
            Stop::Outside(f),
        ),
        asks(outcome, answers.push(Answer::Failed(f))) == asks(outcome, answers),
    decreases answers.len(),
{
    reveal_with_fuel(asks, 2);
    reveal_with_fuel(end, 2);
    let more = answers.push(Answer::Failed(f));
    match outcome {
        Outcome::Ask(state, ask) => {
            if answers.len() == 0 {
                assert(more.drop_first() == Seq::<Answer<F>>::empty());
                assert(more[0] == Answer::Failed(f));
                assert(asks(outcome, more) =~= asks(outcome, answers));
            } else {
                assert(more.drop_first() == answers.drop_first().push(Answer::Failed(f)));
                law_a_failure_stops_the_run(
                    state.after(answers[0]),
                    answers.drop_first(),
                    f,
                );
            }
        },
        _ => {},
    }
}

/// The answers to the requests of a backup of as many volumes as there are
/// times: each has a directory, is begun at its time, and is written.
pub open spec fn backup_answers<F>(times: Seq<int>) -> Seq<Answer<F>>
    decreases times.len(),
{
    if times.len() == 0 {
        Seq::empty()
    } else {
        seq![Answer::Directory(true)] + (seq![Answer::Clock(times[0])] + (seq![Answer::Done]
            + backup_answers(times.drop_first())))
    }
}

/// The requests of a backup: each volume's directory is looked for, the time is
/// read, and what the directory holds is written to the archive of that time.
pub open spec fn backup_asks(root: Seq<u8>, volumes: Seq<Seq<char>>, times: Seq<int>) -> Seq<Ask>
    decreases volumes.len(),
{
    if volumes.len() == 0 {
        Seq::empty()
    } else {
        let source = entry_path(root, volumes[0]);
        let archive = archive_name_at(times[0]);
        seq![Ask::CheckSource { source }] + (seq![Ask::ReadClock] + (seq![
            Ask::WriteArchive { volume: volumes[0], archive, source },
        ] + backup_asks(root, volumes.drop_first(), times.drop_first())))
    }
}

/// A backup of all volumes in which nothing fails writes an archive of every
/// volume, one after the other, and finishes.
pub proof fn law_every_volume_is_backed_up<F>(
    root: Seq<u8>,
    volumes: Seq<Seq<char>>,
    times: Seq<int>,
)
    requires
        volumes.len() == times.len(),
    ensures
        asks(next_volume::<F>(root, Task::Backup, volumes), backup_answers(times)) == backup_asks(
            root,
            volumes,
            times,
        ),
        end(next_volume::<F>(root, Task::Backup, volumes), backup_answers(times)) is Finish,
    decreases volumes.len(),
{
    if volumes.len() > 0 {
        let rest = volumes.drop_first();
        let volume = volumes[0];
        let source = entry_path(root, volume);
        let behind = backup_answers::<F>(times.drop_first());
        law_every_volume_is_backed_up::<F>(root, rest, times.drop_first());
        let s0 = RunState {
            root,
            task: Task::Backup,
            rest,
            current: Some(VolumeState { volume, work: WorkState::CheckSource { source } }),
        };
        let s1 = RunState {
            current: Some(VolumeState { volume, work: WorkState::ReadClock { source } }),
            ..s0
        };
        let s2 = RunState {
            current: Some(VolumeState { volume, work: WorkState::WriteArchive }),
            ..s0
        };
        let write = Ask::WriteArchive { volume, archive: archive_name_at(times[0]), source };
        lemma_answer(
            s0,
            Ask::CheckSource { source },
            Answer::<F>::Directory(true),
            seq![Answer::Clock(times[0])] + (seq![Answer::Done] + behind),
        );
        lemma_answer(
            s1,
            Ask::ReadClock,
            Answer::<F>::Clock(times[0]),
            seq![Answer::Done] + behind,
        );
        lemma_answer(s2, write, Answer::<F>::Done, behind);
    }
}

/// The answers to the requests of a restore from the newest archives: each
/// volume's directory is made, its archives are listed, and one is unpacked.
pub open spec fn restore_answers<F>(listings: Seq<Seq<Archive>>) -> Seq<Answer<F>>
    decreases listings.len(),
{
    if listings.len() == 0 {
        Seq::empty()
    } else {
        seq![Answer::Done] + (seq![Answer::Archives(listings[0])] + (seq![Answer::Done]
            + restore_answers(listings.drop_first())))
    }
}

/// The requests of a restore from the newest archives: each volume's directory
/// is made, its archives are asked for, and the last of them is unpacked.
pub open spec fn restore_asks(
    root: Seq<u8>,
    volumes: Seq<Seq<char>>,
    listings: Seq<Seq<Archive>>,
) -> Seq<Ask>
    decreases volumes.len(),
{
    if volumes.len() == 0 {
        Seq::empty()
    } else {
        let volume = volumes[0];
        let target = entry_path(root, volume);
        seq![Ask::CreateTarget { target }] + (seq![Ask::ListArchives { volume }] + (seq![
            Ask::UnpackArchive { volume, archive: listings[0].last().name, target },
        ] + restore_asks(root, volumes.drop_first(), listings.drop_first())))
    }
}

/// A restore of all volumes in which nothing fails and every volume has an
/// archive unpacks the last archive of every volume into the volume's
/// directory, and finishes.
pub proof fn law_every_volume_is_restored<F>(
    root: Seq<u8>,
    volumes: Seq<Seq<char>>,
    listings: Seq<Seq<Archive>>,
)
    requires
        volumes.len() == listings.len(),
        forall|i: int| 0 <= i < listings.len() ==> (#[trigger] listings[i]).len() > 0,
    ensures
        ({
            let begun = next_volume::<F>(root, Task::Restore { archive: None }, volumes);
            &&& asks(begun, restore_answers(listings)) == restore_asks(root, volumes, listings)
            &&& end(begun, restore_answers(listings)) is Finish
        }),
    decreases volumes.len(),
{
    if volumes.len() > 0 {
        let rest = volumes.drop_first();
        let volume = volumes[0];
        let target = entry_path(root, volume);
        let listing = listings[0];
        assert forall|i: int| 0 <= i < listings.drop_first().len() implies (
        #[trigger] listings.drop_first()[i]).len() > 0 by {
            assert(listings.drop_first()[i] == listings[i + 1]);
        }
        law_every_volume_is_restored::<F>(root, rest, listings.drop_first());
        let behind = restore_answers::<F>(listings.drop_first());
        let s0 = RunState {
            root,
            task: Task::Restore { archive: None },
            rest,
            current: Some(
                VolumeState { volume, work: WorkState::CreateTarget { target, archive: None } },
            ),
        };
        let s1 = RunState {
            current: Some(VolumeState { volume, work: WorkState::ListForRestore { target } }),
            ..s0
        };
        let s2 = RunState {
            current: Some(VolumeState { volume, work: WorkState::Unpack }),
            ..s0
        };
        let unpack = Ask::UnpackArchive { volume, archive: listing.last().name, target };
        lemma_answer(
            s0,
            Ask::CreateTarget { target },
            Answer::<F>::Done,
            seq![Answer::Archives(listing)] + (seq![Answer::Done] + behind),
        );
        lemma_answer(
            s1,
            Ask::ListArchives { volume },
            Answer::<F>::Archives(listing),
            seq![Answer::Done] + behind,
        );
        lemma_answer(s2, unpack, Answer::<F>::Done, behind);
    }
}

/// The requests of a restore from the archive of one name: each volume's
/// directory is made, and the volume's archive of that name is unpacked.
pub open spec fn named_restore_asks(
    root: Seq<u8>,
    archive: Seq<char>,
    volumes: Seq<Seq<char>>,
) -> Seq<Ask>
    decreases volumes.len(),
{
    if volumes.len() == 0 {
        Seq::empty()
    } else {
        let volume = volumes[0];
        let target = entry_path(root, volume);
        seq![Ask::CreateTarget { target }] + (seq![Ask::UnpackArchive { volume, archive, target }]
            + named_restore_asks(root, archive, volumes.drop_first()))
    }
}

/// A restore of all volumes from the archive of one name, in which nothing
/// fails, unpacks that archive of every volume into the volume's directory, and
/// finishes without a look at what other archives there are.
pub proof fn law_every_volume_is_restored_from_the_named_archive<F>(
    root: Seq<u8>,
    archive: Seq<char>,
    volumes: Seq<Seq<char>>,
)
    ensures
        ({
            let begun = next_volume::<F>(root, Task::Restore { archive: Some(archive) }, volumes);
            let answers = dones(2 * volumes.len());
            &&& asks(begun, answers) == named_restore_asks(root, archive, volumes)
            &&& end(begun, answers) is Finish
        }),
    decreases volumes.len(),
{
    if volumes.len() > 0 {
        let rest = volumes.drop_first();
        let volume = volumes[0];
        let target = entry_path(root, volume);
        law_every_volume_is_restored_from_the_named_archive::<F>(root, archive, rest);
        let behind = dones::<F>(2 * rest.len());
        let s0 = RunState {
            root,
            task: Task::Restore { archive: Some(archive) },
            rest,
            current: Some(
                VolumeState {
                    volume,
                    work: WorkState::CreateTarget { target, archive: Some(archive) },
                },
            ),
        };
        let s1 = RunState {
            current: Some(VolumeState { volume, work: WorkState::Unpack }),
            ..s0
        };
        lemma_answer(
            s0,
            Ask::CreateTarget { target },
            Answer::<F>::Done,
            seq![Answer::Done] + behind,
        );
        lemma_answer(
            s1,
            Ask::UnpackArchive { volume, archive, target },
            Answer::<F>::Done,
            behind,
        );
        reveal_with_fuel(dones, 3);
        assert((2 * volumes.len() - 2) as nat == 2 * rest.len());
    }
}

/// As many answers that say it was done.
pub open spec fn dones<F>(n: nat) -> Seq<Answer<F>>
    decreases n,
{
    if n == 0 {
        Seq::empty()
    } else {
        seq![Answer::Done] + dones((n - 1) as nat)
    }
}

/// The answers to the requests of a cleanup: the archives of each volume, and
/// that each one to remove was removed.
pub open spec fn cleanup_answers<F>(
    policy: RetentionPolicy,
    listings: Seq<Seq<Archive>>,
) -> Seq<Answer<F>>
    decreases listings.len(),
{
    if listings.len() == 0 {
        Seq::empty()
    } else {
        seq![Answer::Archives(listings[0])] + (dones(removals(listings[0], policy).len())
            + cleanup_answers(policy, listings.drop_first()))
    }
}

/// The requests that remove archives of a volume.
pub open spec fn remove_asks(volume: Seq<char>, archives: Seq<Seq<char>>) -> Seq<Ask> {
    archives.map_values(|archive: Seq<char>| Ask::RemoveArchive { volume, archive })
}

/// The requests of a cleanup: the archives of each volume are asked for, and
/// those that the policy removes are removed.
pub open spec fn cleanup_asks(
    policy: RetentionPolicy,
    volumes: Seq<Seq<char>>,
    listings: Seq<Seq<Archive>>,
) -> Seq<Ask>
    decreases volumes.len(),
{
    if volumes.len() == 0 {
        Seq::empty()
    } else {
        seq![Ask::ListArchives { volume: volumes[0] }] + (remove_asks(
            volumes[0],
            removals(listings[0], policy),
        ) + cleanup_asks(policy, volumes.drop_first(), listings.drop_first()))
    }
}

/// Archives are removed one after the other, and then the next volume's turn
/// has come.
proof fn lemma_removals<F>(
    state: RunState,
    volume: VolumeState,
    archives: Seq<Seq<char>>,
    behind: Seq<Answer<F>>,
)
    requires
        state.current == Some(volume),
    ensures
        ({
            let begun = match VolumeState::remove::<F>(volume.volume, archives) {
                Outcome::Ask(v, ask) => Outcome::Ask(RunState { current: Some(v), ..state }, ask),
                _ => next_volume(state.root, state.task, state.rest),
            };
            let next = next_volume(state.root, state.task, state.rest);
            &&& asks(begun, dones(archives.len()) + behind) == remove_asks(volume.volume, archives)
                + asks(next, behind)
            &&& end(begun, dones(archives.len()) + behind) == end(next, behind)
        }),
    decreases archives.len(),
{
    let next = next_volume::<F>(state.root, state.task, state.rest);
    if archives.len() == 0 {
        assert(dones::<F>(0) + behind == behind);
        assert(remove_asks(volume.volume, archives) + asks(next, behind) =~= asks(next, behind));
    } else {
        let rest = archives.drop_first();
        let after = volume.with(WorkState::Remove { rest });
        let s = RunState { current: Some(after), ..state };
        let ask = Ask::RemoveArchive { volume: volume.volume, archive: archives[0] };
        lemma_removals(s, after, rest, behind);
        lemma_answer(s, ask, Answer::<F>::Done, dones(rest.len()) + behind);
        assert(dones::<F>(archives.len()) + behind =~= seq![Answer::Done] + (dones(rest.len())
            + behind));
        assert(remove_asks(volume.volume, archives) =~= seq![ask] + remove_asks(
            volume.volume,
            rest,
        ));
        assert(seq![ask] + (remove_asks(volume.volume, rest) + asks(next, behind))
            =~= remove_asks(volume.volume, archives) + asks(next, behind));
    }
}

/// A cleanup of all volumes in which nothing fails removes of every volume the
/// archives that the policy removes, the oldest first, and no others, and
/// finishes.
pub proof fn law_every_volume_is_cleaned_up<F>(
    root: Seq<u8>,
    policy: RetentionPolicy,
    volumes: Seq<Seq<char>>,
    listings: Seq<Seq<Archive>>,
)
    requires
        volumes.len() == listings.len(),
    ensures
        ({
            let begun = next_volume::<F>(root, Task::Cleanup { policy }, volumes);
            &&& asks(begun, cleanup_answers(policy, listings)) == cleanup_asks(
                policy,
                volumes,
                listings,
            )
            &&& end(begun, cleanup_answers(policy, listings)) is Finish
        }),
    decreases volumes.len(),
{
    if volumes.len() > 0 {
        let rest = volumes.drop_first();
        let volume = volumes[0];
        let listing = listings[0];
        law_every_volume_is_cleaned_up::<F>(root, policy, rest, listings.drop_first());
        let behind = cleanup_answers::<F>(policy, listings.drop_first());
        let v = VolumeState { volume, work: WorkState::ListForCleanup { policy } };
        let s = RunState { root, task: Task::Cleanup { policy }, rest, current: Some(v) };
        lemma_answer(
            s,
            Ask::ListArchives { volume },
            Answer::<F>::Archives(listing),
            dones(removals(listing, policy).len()) + behind,
        );
        lemma_removals(s, v, removals(listing, policy), behind);
    }
}

/// Whether archives are listed in the order of their names.
pub open spec fn in_name_order(archives: Seq<Archive>) -> bool {
    forall|i: int, j: int|
        0 <= i < j < archives.len() ==> in_order(
            (#[trigger] archives[i]).name,
            (#[trigger] archives[j]).name,
        )
}

/// What storage lists is in the order of the names.
pub proof fn law_listings_are_in_name_order(archives: Seq<ArchiveInfo>)
    requires
        sorted(archives),
    ensures
        in_name_order(listed(archives)),
{
    let view = listed(archives);
    assert forall|i: int, j: int| 0 <= i < j < view.len() implies in_order(
        (#[trigger] view[i]).name,
        (#[trigger] view[j]).name,
    ) by {
        assert(view[i].name == archives[i].key());
        assert(view[j].name == archives[j].key());
    }
}

/// Whether the archives were begun at these times, and in the years 0 to 9999.
pub open spec fn begun_at(archives: Seq<Archive>, times: Seq<CivilTime>) -> bool {
    &&& archives.len() == times.len()
    &&& forall|k: int|
        0 <= k < times.len() ==> {
            &&& (#[trigger] times[k]).valid()
            &&& 0 <= times[k].year <= 9999
            &&& archives[k].name == times[k].archive_name()
        }
}

/// Of archives that are listed in the order of their names, and were begun in
/// the years 0 to 9999, the last is the newest; so a restore that names none
/// reads the newest.
pub proof fn law_the_last_archive_is_the_newest(
    archives: Seq<Archive>,
    times: Seq<CivilTime>,
    i: int,
)
    requires
        in_name_order(archives),
        begun_at(archives, times),
        0 <= i < archives.len(),
    ensures
        times[i].unix_seconds() <= times.last().unix_seconds(),
{
    let n = archives.len() - 1;
    assert(times[n].valid() && times[i].valid());
    if times[i].unix_seconds() > times[n].unix_seconds() {
        clock::law_later_archives_sort_later(times[n], times[i]);
        text::lemma_order_antisymmetric(archives[i].name, archives[n].name);
        clock::law_names_tell_the_second(times[i], times[n]);
    }
}

/// The archive that a backup wrote is the one that a restore reads, as long as
/// it is listed and no archive was begun later.
pub proof fn law_a_restore_reads_the_last_backup(
    archives: Seq<Archive>,
    times: Seq<CivilTime>,
    i: int,
)
    requires
        in_name_order(archives),
        begun_at(archives, times),
        0 <= i < archives.len(),
        forall|k: int|
            0 <= k < times.len() ==> (#[trigger] times[k]).unix_seconds()
                <= times[i].unix_seconds(),
    ensures
        archives.last().name == archive_name_at(times[i].unix_seconds()),
{
    law_the_last_archive_is_the_newest(archives, times, i);
    let last = times[times.len() - 1];
    assert(last.valid());
    let seconds = times[i].unix_seconds();
    assert(last.unix_seconds() == seconds);
    assert(clock::is_archive_of(last.archive_name(), seconds));
    clock::law_every_second_has_one_name(last.archive_name(), seconds);
}

/// The requests of a backup, volume by volume.
proof fn lemma_backup_of(root: Seq<u8>, volumes: Seq<Seq<char>>, times: Seq<int>, i: int)
    requires
        volumes.len() == times.len(),
        0 <= i < volumes.len(),
    ensures
        backup_asks(root, volumes, times).len() == 3 * volumes.len(),
        backup_asks(root, volumes, times)[3 * i + 2] == (Ask::WriteArchive {
            volume: volumes[i],
            archive: archive_name_at(times[i]),
            source: entry_path(root, volumes[i]),
        }),
    decreases volumes.len(),
{
    let rest = backup_asks(root, volumes.drop_first(), times.drop_first());
    if volumes.len() > 1 {
        lemma_backup_of(
            root,
            volumes.drop_first(),
            times.drop_first(),
            if i == 0 {
                0
            } else {
                i - 1
            },
        );
    }
    if i > 0 {
        assert(backup_asks(root, volumes, times)[3 * i + 2] == rest[3 * (i - 1) + 2]);
    }
}

/// The requests of a restore, volume by volume.
proof fn lemma_restore_of(
    root: Seq<u8>,
    volumes: Seq<Seq<char>>,
    listings: Seq<Seq<Archive>>,
    i: int,
)
    requires
        volumes.len() == listings.len(),
        0 <= i < volumes.len(),
    ensures
        restore_asks(root, volumes, listings).len() == 3 * volumes.len(),
        restore_asks(root, volumes, listings)[3 * i + 2] == (Ask::UnpackArchive {
            volume: volumes[i],
            archive: listings[i].last().name,
            target: entry_path(root, volumes[i]),
        }),
    decreases volumes.len(),
{
    let rest = restore_asks(root, volumes.drop_first(), listings.drop_first());
    if volumes.len() > 1 {
        lemma_restore_of(
            root,
            volumes.drop_first(),
            listings.drop_first(),
            if i == 0 {
                0
            } else {
                i - 1
            },
        );
    }
    if i > 0 {
        assert(restore_asks(root, volumes, listings)[3 * i + 2] == rest[3 * (i - 1) + 2]);
    }
}

/// A restore of all volumes reads what the last backup of all volumes wrote:
/// for every volume it unpacks the archive that the backup wrote, into the
/// directory that the backup read, as long as that archive is the newest that
/// is listed.
pub proof fn law_a_restore_reads_what_the_backup_wrote(
    root: Seq<u8>,
    volumes: Seq<Seq<char>>,
    times: Seq<int>,
    listings: Seq<Seq<Archive>>,
    i: int,
)
    requires
        volumes.len() == times.len(),
        volumes.len() == listings.len(),
        0 <= i < volumes.len(),
        listings[i].last().name == archive_name_at(times[i]),
    ensures
        ({
            let written = backup_asks(root, volumes, times)[3 * i + 2];
            let unpacked = restore_asks(root, volumes, listings)[3 * i + 2];
            &&& written matches Ask::WriteArchive { volume, archive, source }
            &&& volume == volumes[i]
            &&& unpacked == Ask::UnpackArchive { volume, archive, target: source }
        }),
{
    lemma_backup_of(root, volumes, times, i);
    lemma_restore_of(root, volumes, listings, i);
}

} // verus!
