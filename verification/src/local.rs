//! Storage in a directory of the local file system.

use vstd::prelude::*;
use vstd::utf8::{encode_utf8, encode_utf8_decode_utf8};
use crate::clock;
use crate::clock::{CivilTime, ARCHIVE_SUFFIX};
use crate::lists;
use crate::paths;
use crate::paths::{entry_path, leads_to, SEPARATOR};
use crate::retention::{is_archive, ArchiveInfo};
use crate::sorting::{sort_by_name, sorts, Named};
use crate::text::{ends_with, in_order};
use crate::volumes;
use crate::volumes::{
    is_archive_name, is_called_as_archives_are, is_volume_name, names_one_entry,
};

verus! {

/// Storage that keeps each volume's archives in a directory below `root`.
#[derive(Debug)]
pub struct LocalStorage {
    /// The directory that holds the directories of the volumes.
    pub root: Vec<u8>,
}

/// Where a new archive goes.
#[derive(Debug)]
pub struct LocalTarget {
    /// The directory, which has to be made if it is not there.
    pub dir: Vec<u8>,
    /// The file to create.
    pub path: Vec<u8>,
}

/// One step of reading the directory of a volume's archives.
#[derive(Debug)]
pub enum LocalEntry<F> {
    /// An entry.
    Entry { name: String, is_file: bool, size: u64 },
    /// The entry could not be read.
    Failed(F),
}

/// What came of reading the directory of a volume's archives.
#[derive(Debug)]
pub enum LocalListing<F> {
    /// There is no such directory.
    Missing,
    /// The directory could not be read.
    Unreadable(F),
    /// The entries, up to the first that could not be read.
    Entries(Vec<LocalEntry<F>>),
}

/// The archives among the entries: the files that are called as archives are.
pub open spec fn local_archives<F>(entries: Seq<LocalEntry<F>>) -> Seq<ArchiveInfo>
    decreases entries.len(),
{
    if entries.len() == 0 {
        Seq::empty()
    } else {
        let before = local_archives(entries.drop_last());
        match entries.last() {
            LocalEntry::Entry { name, is_file, size } => if is_file && ends_with(
                name@,
                ARCHIVE_SUFFIX@,
            ) {
                before.push(ArchiveInfo { name, size })
            } else {
                before
            },
            LocalEntry::Failed(_) => before,
        }
    }
}

impl LocalStorage {
    /// The path of an archive.
    pub open spec fn archive_path(self, volume: Seq<char>, archive: Seq<char>) -> Seq<u8> {
        entry_path(entry_path(self.root@, volume), archive)
    }

    /// Storage below `root`.
    pub fn new(root: Vec<u8>) -> (storage: LocalStorage)
        ensures
            storage.root == root,
    {
        LocalStorage { root }
    }

    /// Gives the directory of a volume's archives.
    pub fn volume_dir(&self, volume: &str) -> (dir: Vec<u8>)
        ensures
            dir@ == entry_path(self.root@, volume@),
    {
        paths::join(self.root.as_slice(), volume)
    }

    /// Tells where a new archive goes.
    pub fn put(&self, volume: &str, archive: &str) -> (target: LocalTarget)
        ensures
            target.dir@ == entry_path(self.root@, volume@),
            target.path@ == self.archive_path(volume@, archive@),
    {
        let dir = self.volume_dir(volume);
        let path = paths::join(dir.as_slice(), archive);
        LocalTarget { dir, path }
    }

    /// Tells which file to read for an archive.
    pub fn get(&self, volume: &str, archive: &str) -> (path: Vec<u8>)
        ensures
            path@ == self.archive_path(volume@, archive@),
    {
        paths::join(self.volume_dir(volume).as_slice(), archive)
    }

    /// Lists the archives in the order of their names. A volume without a
    /// directory has none, and the first failure ends the listing.
    pub fn list<F>(listing: LocalListing<F>) -> (r: Result<Vec<ArchiveInfo>, F>)
        ensures
            match listing {
                LocalListing::Missing => r matches Ok(archives) && archives@.len() == 0,
                LocalListing::Unreadable(f) => r matches Err(e) && e == f,
                LocalListing::Entries(entries) => match r {
                    Ok(archives) => {
                        &&& forall|i: int|
                            0 <= i < entries@.len() ==> (#[trigger] entries@[i]) is Entry
                        &&& sorts(local_archives(entries@), archives@)
                    },
                    Err(e) => exists|i: int|
                        {
                            &&& 0 <= i < entries@.len()
                            &&& #[trigger] entries@[i] == LocalEntry::Failed(e)
                            &&& forall|j: int|
                                0 <= j < i ==> (#[trigger] entries@[j]) is Entry
                        },
                },
            },
    {
        match listing {
            LocalListing::Missing => Ok(Vec::new()),
            LocalListing::Unreadable(f) => Err(f),
            LocalListing::Entries(entries) => list_local(entries),
        }
    }

    /// Tells which file to remove for an archive.
    pub fn remove(&self, volume: &str, archive: &str) -> (path: Vec<u8>)
        ensures
            path@ == self.archive_path(volume@, archive@),
    {
        self.get(volume, archive)
    }
}

/// Picks the archives out of the entries and sorts them.
fn list_local<F>(entries: Vec<LocalEntry<F>>) -> (r: Result<Vec<ArchiveInfo>, F>)
    ensures
        match r {
            Ok(archives) => {
                &&& forall|i: int| 0 <= i < entries@.len() ==> (#[trigger] entries@[i]) is Entry
                &&& sorts(local_archives(entries@), archives@)
            },
            Err(e) => exists|i: int|
                {
                    &&& 0 <= i < entries@.len()
                    &&& #[trigger] entries@[i] == LocalEntry::Failed(e)
                    &&& forall|j: int| 0 <= j < i ==> (#[trigger] entries@[j]) is Entry
                },
        },
{
    let ghost all = entries@;
    let mut rest = entries;
    let mut archives: Vec<ArchiveInfo> = Vec::new();
    let ghost mut done: int = 0;
    assert(all.skip(0) == all);
    assert(all.take(0) == Seq::<LocalEntry<F>>::empty());
    while rest.len() > 0
        invariant
            0 <= done <= all.len(),
            all == entries@,
            rest@ == all.skip(done),
            archives@ == local_archives(all.take(done)),
            forall|i: int| 0 <= i < done ==> (#[trigger] all[i]) is Entry,
        decreases rest.len(),
    {
        let next = rest.remove(0);
        proof {
            lists::lemma_take_next(all, done);
        }
        match next {
            LocalEntry::Entry { name, is_file, size } => {
                if is_file && is_archive_name(name.as_str()) {
                    archives.push(ArchiveInfo { name, size });
                }
            },
            LocalEntry::Failed(f) => {
                assert(entries@[done] == LocalEntry::Failed(f));
                return Err(f);
            },
        }
        proof {
            done = done + 1;
        }
    }
    assert(all.take(done) == all);
    Ok(sort_by_name(archives))
}

/// An archive among the entries is among the archives.
proof fn lemma_listed<F>(entries: Seq<LocalEntry<F>>, i: int, archive: ArchiveInfo)
    requires
        0 <= i < entries.len(),
        entries[i] == (LocalEntry::<F>::Entry {
            name: archive.name,
            is_file: true,
            size: archive.size,
        }),
        ends_with(archive.name@, ARCHIVE_SUFFIX@),
    ensures
        local_archives(entries).contains(archive),
    decreases entries.len(),
{
    let before = local_archives(entries.drop_last());
    let all = local_archives(entries);
    if i == entries.len() - 1 {
        assert(all.last() == archive);
    } else {
        lemma_listed(entries.drop_last(), i, archive);
        let k = choose|k: int| 0 <= k < before.len() && before[k] == archive;
        assert(all[k] == archive);
    }
}

/// A file that a backup wrote is listed, with the size that it has.
pub proof fn law_a_stored_backup_is_listed<F>(
    entries: Seq<LocalEntry<F>>,
    archives: Seq<ArchiveInfo>,
    i: int,
    t: CivilTime,
    archive: ArchiveInfo,
)
    requires
        sorts(local_archives(entries), archives),
        0 <= i < entries.len(),
        entries[i] == (LocalEntry::<F>::Entry {
            name: archive.name,
            is_file: true,
            size: archive.size,
        }),
        archive.name@ == t.archive_name(),
    ensures
        archives.contains(archive),
{
    volumes::law_backups_are_called_as_archives_are(t);
    lemma_listed(entries, i, archive);
    broadcast use vstd::seq_lib::group_to_multiset_ensures;

    assert(local_archives(entries).to_multiset().count(archive) > 0);
}

/// A backup of a volume goes into the volume's directory, under the name of the
/// archive: its path is the directory's, a separator and that name, which holds
/// no separator.
pub proof fn law_where_backups_lie(storage: LocalStorage, volume: Seq<char>, t: CivilTime)
    requires
        is_volume_name(volume),
        t.valid(),
    ensures
        storage.archive_path(volume, t.archive_name()) == entry_path(storage.root@, volume) + seq![
            SEPARATOR,
        ] + encode_utf8(t.archive_name()),
        !encode_utf8(t.archive_name()).contains(SEPARATOR),
{
    let name = t.archive_name();
    let dir = entry_path(storage.root@, volume);
    volumes::law_volumes_lie_in_the_root(storage.root@, volume);
    volumes::lemma_no_separator(volume);
    clock::law_archive_names_are_entries(t);
    volumes::lemma_no_separator(name);
    let bytes = encode_utf8(volume);
    assert(bytes.contains(bytes.last()));
    assert(dir.last() == bytes.last());
    let file = encode_utf8(name);
    assert(file.contains(file[0]));
}

/// The archives of a volume lie in the volume's directory, which lies in the
/// directory of the storage; an archive is read from where it was written to, and
/// removed there.
pub proof fn law_archives_are_found_where_they_were_put(
    storage: LocalStorage,
    volume: &str,
    archive: &str,
    dir: Vec<u8>,
    target: LocalTarget,
    read: Vec<u8>,
    removed: Vec<u8>,
)
    requires
        call_ensures(LocalStorage::volume_dir, (&storage, volume), dir),
        call_ensures(LocalStorage::put, (&storage, volume, archive), target),
        call_ensures(LocalStorage::get, (&storage, volume, archive), read),
        call_ensures(LocalStorage::remove, (&storage, volume, archive), removed),
    ensures
        leads_to(dir@, storage.root@, volume@),
        target.dir@ == dir@,
        leads_to(target.path@, dir@, archive@),
        read@ == target.path@,
        removed@ == target.path@,
{
    paths::lemma_entry_path(storage.root@, volume@);
    paths::lemma_entry_path(dir@, archive@);
}

/// New storage is in the directory that it was made with.
pub proof fn law_storage_is_where_it_was_made(root: Vec<u8>, storage: LocalStorage)
    requires
        call_ensures(LocalStorage::new, (root,), storage),
    ensures
        storage.root@ == root@,
{
}

/// Archives of different volumes, and different archives of a volume, have
/// different paths.
pub proof fn law_archives_have_paths_of_their_own(
    storage: LocalStorage,
    volume: &str,
    archive: &str,
    other_volume: &str,
    other_archive: &str,
    path: Vec<u8>,
)
    requires
        names_one_entry(volume@),
        names_one_entry(other_volume@),
        names_one_entry(archive@),
        names_one_entry(other_archive@),
        call_ensures(LocalStorage::get, (&storage, volume, archive), path),
        call_ensures(LocalStorage::get, (&storage, other_volume, other_archive), path),
    ensures
        volume@ == other_volume@,
        archive@ == other_archive@,
{
    volumes::lemma_volume_names(volume@);
    volumes::lemma_volume_names(other_volume@);
    lemma_path_of_entry(storage, volume@, archive@);
    lemma_path_of_entry(storage, other_volume@, other_archive@);
    let a = encode_utf8(archive@);
    let b = encode_utf8(other_archive@);
    let n = path@.len();
    if a.len() < b.len() {
        assert(b.contains(b[b.len() - a.len() - 1]));
        assert(path@[n - a.len() - 1] == SEPARATOR);
    } else if b.len() < a.len() {
        assert(a.contains(a[a.len() - b.len() - 1]));
        assert(path@[n - b.len() - 1] == SEPARATOR);
    }
    let dir = entry_path(storage.root@, volume@);
    let other = entry_path(storage.root@, other_volume@);
    assert(dir =~= path@.take(n - a.len() - 1));
    assert(other =~= path@.take(n - b.len() - 1));
    assert(a =~= path@.skip(n - a.len()));
    assert(b =~= path@.skip(n - b.len()));
    volumes::law_volumes_have_directories_of_their_own(storage.root@, volume@, other_volume@);
    encode_utf8_decode_utf8(archive@);
    encode_utf8_decode_utf8(other_archive@);
}

/// The path of an entry of a volume's directory.
proof fn lemma_path_of_entry(storage: LocalStorage, volume: Seq<char>, archive: Seq<char>)
    requires
        is_volume_name(volume),
        names_one_entry(archive),
    ensures
        storage.archive_path(volume, archive) == entry_path(storage.root@, volume) + seq![SEPARATOR]
            + encode_utf8(archive),
        !encode_utf8(archive).contains(SEPARATOR),
        encode_utf8(archive).len() > 0,
{
    volumes::lemma_volume_names(archive);
    volumes::law_volumes_lie_in_the_root(storage.root@, volume);
    volumes::lemma_no_separator(volume);
    volumes::lemma_no_separator(archive);
    let dir = entry_path(storage.root@, volume);
    let bytes = encode_utf8(volume);
    assert(bytes.contains(bytes.last()));
    assert(dir.last() == bytes.last());
    let file = encode_utf8(archive);
    assert(file.contains(file[0]));
}

/// Tells the files of archives with this name and size from other entries.
pub open spec fn stores<F>(name: Seq<char>, size: u64) -> spec_fn(LocalEntry<F>) -> bool {
    |entry: LocalEntry<F>|
        entry matches LocalEntry::Entry { name: n, is_file, size: s } && is_file && n@ == name && s
            == size && is_called_as_archives_are(name)
}

/// The archives are counted as they were found.
proof fn lemma_archives_count<F>(entries: Seq<LocalEntry<F>>, name: Seq<char>, size: u64)
    ensures
        local_archives(entries).filter(is_archive(name, size)).len() == entries.filter(
            stores::<F>(name, size),
        ).len(),
    decreases entries.len(),
{
    if entries.len() == 0 {
        assert(entries.filter(stores::<F>(name, size)) =~= Seq::<LocalEntry<F>>::empty());
    } else {
        let front = entries.drop_last();
        lemma_archives_count(front, name, size);
        assert(entries =~= front.push(entries.last()));
        lists::lemma_filter_push(front, entries.last(), stores::<F>(name, size));
        if let LocalEntry::Entry { name: n, size: s, .. } = entries.last() {
            volumes::lemma_archive_suffix(n@);
            lists::lemma_filter_push(
                local_archives(front),
                ArchiveInfo { name: n, size: s },
                is_archive(name, size),
            );
        }
    }
}

/// A listing holds every file that is called as archives are, with its size, as
/// often as it was found, and nothing else, in the order of the names. There is
/// one exactly where every entry could be read.
pub proof fn law_a_listing_holds_the_archives<F>(
    entries: Vec<LocalEntry<F>>,
    archives: Vec<ArchiveInfo>,
    name: Seq<char>,
    size: u64,
)
    requires
        call_ensures(LocalStorage::list::<F>, (LocalListing::Entries(entries),), Ok(archives)),
    ensures
        archives@.filter(is_archive(name, size)).len() == entries@.filter(
            stores::<F>(name, size),
        ).len(),
        forall|i: int, j: int|
            0 <= i < j < archives@.len() ==> in_order(
                (#[trigger] archives@[i]).name@,
                (#[trigger] archives@[j]).name@,
            ),
        forall|i: int| 0 <= i < entries@.len() ==> (#[trigger] entries@[i]) is Entry,
{
    lemma_archives_count(entries@, name, size);
    lists::lemma_same_things(archives@, local_archives(entries@), is_archive(name, size));
    assert forall|i: int, j: int| 0 <= i < j < archives@.len() implies in_order(
        (#[trigger] archives@[i]).name@,
        (#[trigger] archives@[j]).name@,
    ) by {
        assert(archives@[i].key() == archives@[i].name@);
        assert(archives@[j].key() == archives@[j].name@);
    }
}

/// A volume without a directory has no archives, and otherwise the first failure
/// is handed on.
pub proof fn law_a_listing_may_fail<F>(
    listing: LocalListing<F>,
    r: Result<Vec<ArchiveInfo>, F>,
)
    requires
        call_ensures(LocalStorage::list::<F>, (listing,), r),
    ensures
        listing is Missing ==> (r matches Ok(archives) && archives@.len() == 0),
        listing matches LocalListing::Unreadable(f) ==> r matches Err(e) && e == f,
        listing matches LocalListing::Entries(entries) ==> (r matches Err(e) ==> exists|i: int|
            {
                &&& 0 <= i < entries@.len()
                &&& #[trigger] entries@[i] == LocalEntry::Failed(e)
                &&& forall|j: int| 0 <= j < i ==> (#[trigger] entries@[j]) is Entry
            }),
{
}

} // verus!
