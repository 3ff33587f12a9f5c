//! Storage on a server that is reached by SFTP.

use vstd::prelude::*;
use vstd::string::StringExecFns;
use crate::clock::{CivilTime, ARCHIVE_SUFFIX};
use crate::lists;
use crate::retention::{is_archive, ArchiveInfo};
use crate::sorting::{sort_by_name, sorts, Named};
use crate::text;
use crate::text::{ends_with, in_order, pieces, texts, trimmed_end, CharClass};
use crate::volumes;
use crate::volumes::{is_archive_name, is_called_as_archives_are, names_one_entry};

verus! {

/// The session's code for a file that is not there.
pub const NO_SUCH_FILE: i32 = -16;

/// The session's code for a request that the server refused, as it does where a
/// directory exists already.
pub const REFUSED_BY_SERVER: i32 = -31;

/// The permissions of a new directory.
pub const DIRECTORY_MODE: i32 = 0o755;

/// The bits of a file mode that hold the type.
pub const FILE_TYPE_BITS: u32 = 0o170000;

/// The type of a regular file.
pub const REGULAR_FILE: u32 = 0o100000;

/// The code of a failed request.
#[derive(Clone, Copy, Debug, PartialEq, Eq, Structural)]
pub enum RemoteCode {
    /// The session failed.
    Session(i32),
    /// The server's SFTP subsystem failed.
    Sftp(i32),
}

/// A directory of the server without the slashes at its end; what is nothing
/// but slashes, or nothing at all, is the root directory.
pub open spec fn normalized_dir(path: Seq<char>) -> Seq<char> {
    let dir = trimmed_end(path, CharClass::Slash);
    if dir.len() == 0 {
        "/"@
    } else {
        dir
    }
}

/// Takes the slashes off the end of a directory of the server.
pub fn normalize_remote_dir(path: &str) -> (dir: String)
    ensures
        dir@ == normalized_dir(path@),
{
    let dir = text::trim_end(path, CharClass::Slash);
    if dir.is_empty() {
        "/".to_owned()
    } else {
        dir.to_owned()
    }
}

/// Whether `dir` is `path` without the slashes at its end, or a slash where there
/// is nothing else.
pub open spec fn is_without_end_slashes(dir: Seq<char>, path: Seq<char>) -> bool {
    if forall|i: int| 0 <= i < path.len() ==> path[i] == '/' {
        dir == seq!['/']
    } else {
        &&& 0 < dir.len() <= path.len()
        &&& dir == path.take(dir.len() as int)
        &&& dir.last() != '/'
        &&& forall|i: int| dir.len() <= i < path.len() ==> path[i] == '/'
    }
}

/// What is left of a path without the slashes at its end.
proof fn lemma_trimmed_slashes(path: Seq<char>)
    ensures
        ({
            let dir = trimmed_end(path, CharClass::Slash);
            &&& dir.len() <= path.len()
            &&& dir == path.take(dir.len() as int)
            &&& dir.len() > 0 ==> dir.last() != '/'
            &&& forall|i: int| dir.len() <= i < path.len() ==> path[i] == '/'
        }),
    decreases path.len(),
{
    if path.len() > 0 && CharClass::Slash.has(path.last()) {
        let front = path.drop_last();
        lemma_trimmed_slashes(front);
        let dir = trimmed_end(front, CharClass::Slash);
        assert(front.take(dir.len() as int) =~= path.take(dir.len() as int));
        assert forall|i: int| dir.len() <= i < path.len() implies path[i] == '/' by {
            if i < front.len() {
                assert(front[i] == path[i]);
            }
        }
    } else {
        assert(path.take(path.len() as int) =~= path);
    }
}

/// A directory of the server has no slashes at its end, unless it is the root.
pub proof fn lemma_end_slashes(path: Seq<char>)
    ensures
        is_without_end_slashes(normalized_dir(path), path),
{
    lemma_trimmed_slashes(path);
    reveal_strlit("/");
    let dir = trimmed_end(path, CharClass::Slash);
    assert("/"@ =~= seq!['/']);
    if dir.len() > 0 {
        assert(path[dir.len() - 1] == dir.last());
    }
}

/// Taking the slashes off the end of a directory leaves it without them, and
/// nothing but slashes is the root directory.
pub proof fn law_slashes_come_off_the_end(path: &str, dir: String)
    requires
        call_ensures(normalize_remote_dir, (path,), dir),
    ensures
        is_without_end_slashes(dir@, path@),
{
    lemma_end_slashes(path@);
}

/// Tells whether a file mode is that of a regular file; without a mode a file
/// is none.
pub fn is_regular_file(perm: Option<u32>) -> (b: bool)
    ensures
        b == (perm matches Some(mode) && mode & FILE_TYPE_BITS == REGULAR_FILE),
{
    match perm {
        Some(mode) => mode & FILE_TYPE_BITS == REGULAR_FILE,
        None => false,
    }
}

/// Storage that keeps each volume's archives in a directory of a server.
#[derive(Debug)]
pub struct SftpStorage {
    /// The directory that holds the directories of the volumes.
    pub root: String,
}

/// Where a new archive goes.
#[derive(Debug)]
pub struct RemoteTarget {
    /// The directory, which has to be made if it is not there.
    pub dir: String,
    /// The file to create.
    pub path: String,
}

/// An entry of a directory of the server.
#[derive(Debug)]
pub struct RemoteEntry {
    /// The name, if it is text.
    pub name: Option<String>,
    /// The file mode, if the server told it.
    pub perm: Option<u32>,
    /// The size, if the server told it.
    pub size: Option<u64>,
}

/// What came of reading the directory of a volume's archives.
#[derive(Debug)]
pub enum RemoteListing<F> {
    /// The directory could not be read.
    Failed { code: RemoteCode, error: F },
    /// The entries.
    Entries(Vec<RemoteEntry>),
}

/// Whether an entry is an archive: a regular file that is called as archives
/// are.
pub open spec fn is_remote_archive(entry: RemoteEntry) -> bool {
    &&& entry.name matches Some(name)
    &&& ends_with(name@, ARCHIVE_SUFFIX@)
    &&& entry.perm matches Some(mode)
    &&& mode & FILE_TYPE_BITS == REGULAR_FILE
}

/// The archives among the entries. A size that the server did not tell counts
/// as nothing.
pub open spec fn remote_archives(entries: Seq<RemoteEntry>) -> Seq<ArchiveInfo>
    decreases entries.len(),
{
    if entries.len() == 0 {
        Seq::empty()
    } else {
        let before = remote_archives(entries.drop_last());
        let entry = entries.last();
        if is_remote_archive(entry) {
            before.push(
                ArchiveInfo {
                    name: entry.name->0,
                    size: match entry.size {
                        Some(size) => size,
                        None => 0,
                    },
                },
            )
        } else {
            before
        }
    }
}

impl SftpStorage {
    /// The path of a volume's directory, or of an archive in it.
    pub open spec fn remote_path(self, volume: Seq<char>, archive: Option<Seq<char>>) -> Seq<
        char,
    > {
        match archive {
            Some(archive) => self.root@ + "/"@ + volume + "/"@ + archive,
            None => self.root@ + "/"@ + volume,
        }
    }

    /// Gives the path of a volume's directory, or of an archive in it.
    pub fn path(&self, volume: &str, archive: Option<&str>) -> (path: String)
        ensures
            path@ == self.remote_path(
                volume@,
                match archive {
                    Some(archive) => Some(archive@),
                    None => None,
                },
            ),
    {
        let mut path = self.root.clone();
        path.append("/");
        path.append(volume);
        match archive {
            Some(archive) => {
                path.append("/");
                path.append(archive);
            },
            None => {},
        }
        path
    }

    /// Tells where a new archive goes.
    pub fn put(&self, volume: &str, archive: &str) -> (target: RemoteTarget)
        ensures
            target.dir@ == self.remote_path(volume@, None),
            target.path@ == self.remote_path(volume@, Some(archive@)),
    {
        RemoteTarget { dir: self.path(volume, None), path: self.path(volume, Some(archive)) }
    }

    /// Tells which file to read for an archive.
    pub fn get(&self, volume: &str, archive: &str) -> (path: String)
        ensures
            path@ == self.remote_path(volume@, Some(archive@)),
    {
        self.path(volume, Some(archive))
    }

    /// Lists the archives in the order of their names. A volume without a
    /// directory has none.
    pub fn list<F>(listing: RemoteListing<F>) -> (r: Result<Vec<ArchiveInfo>, F>)
        ensures
            match listing {
                RemoteListing::Failed { code, error } => if code == RemoteCode::Session(
                    NO_SUCH_FILE,
                ) {
                    r matches Ok(archives) && archives@.len() == 0
                } else {
                    r matches Err(e) && e == error
                },
                RemoteListing::Entries(entries) => r matches Ok(archives) && sorts(
                    remote_archives(entries@),
                    archives@,
                ),
            },
    {
        match listing {
            RemoteListing::Failed { code, error } => if code == RemoteCode::Session(NO_SUCH_FILE) {
                Ok(Vec::new())
            } else {
                Err(error)
            },
            RemoteListing::Entries(entries) => Ok(list_remote(entries)),
        }
    }

    /// Tells which file to remove for an archive.
    pub fn remove(&self, volume: &str, archive: &str) -> (path: String)
        ensures
            path@ == self.remote_path(volume@, Some(archive@)),
    {
        self.path(volume, Some(archive))
    }
}

/// Picks the archives out of the entries and sorts them.
fn list_remote(entries: Vec<RemoteEntry>) -> (archives: Vec<ArchiveInfo>)
    ensures
        sorts(remote_archives(entries@), archives@),
{
    let ghost all = entries@;
    let mut rest = entries;
    let mut archives: Vec<ArchiveInfo> = Vec::new();
    let ghost mut done: int = 0;
    assert(all.skip(0) == all);
    assert(all.take(0) == Seq::<RemoteEntry>::empty());
    while rest.len() > 0
        invariant
            0 <= done <= all.len(),
            rest@ == all.skip(done),
            archives@ == remote_archives(all.take(done)),
        decreases rest.len(),
    {
        let entry = rest.remove(0);
        proof {
            lists::lemma_take_next(all, done);
        }
        let size: u64 = match entry.size {
            Some(size) => size,
            None => 0,
        };
        match entry.name {
            Some(name) => {
                if is_regular_file(entry.perm) && is_archive_name(name.as_str()) {
                    archives.push(ArchiveInfo { name, size });
                }
            },
            None => {},
        }
        proof {
            done = done + 1;
        }
    }
    assert(all.take(done) == all);
    sort_by_name(archives)
}

/// An archive among the entries is among the archives.
proof fn lemma_listed(entries: Seq<RemoteEntry>, i: int, archive: ArchiveInfo)
    requires
        0 <= i < entries.len(),
        is_remote_archive(entries[i]),
        entries[i].name == Some(archive.name),
        entries[i].size == Some(archive.size),
    ensures
        remote_archives(entries).contains(archive),
    decreases entries.len(),
{
    let before = remote_archives(entries.drop_last());
    let all = remote_archives(entries);
    if i == entries.len() - 1 {
        assert(all.last() == archive);
    } else {
        lemma_listed(entries.drop_last(), i, archive);
        let k = choose|k: int| 0 <= k < before.len() && before[k] == archive;
        assert(all[k] == archive);
    }
}

/// A regular file that a backup wrote is listed, with the size that the server
/// tells.
pub proof fn law_a_stored_backup_is_listed(
    entries: Seq<RemoteEntry>,
    archives: Seq<ArchiveInfo>,
    i: int,
    t: CivilTime,
    archive: ArchiveInfo,
)
    requires
        sorts(remote_archives(entries), archives),
        0 <= i < entries.len(),
        entries[i].perm matches Some(mode) && mode & FILE_TYPE_BITS == REGULAR_FILE,
        entries[i].name == Some(archive.name),
        entries[i].size == Some(archive.size),
        archive.name@ == t.archive_name(),
    ensures
        archives.contains(archive),
{
    volumes::law_backups_are_called_as_archives_are(t);
    lemma_listed(entries, i, archive);
    broadcast use vstd::seq_lib::group_to_multiset_ensures;

    assert(remote_archives(entries).to_multiset().count(archive) > 0);
}

/// Names put one behind the other, each behind a slash.
pub open spec fn slashed(names: Seq<Seq<char>>) -> Seq<char>
    decreases names.len(),
{
    if names.len() == 0 {
        Seq::empty()
    } else {
        slashed(names.drop_last()) + "/"@ + names.last()
    }
}

/// The directories on the way to `path`, from the topmost one down to `path`
/// itself.
pub open spec fn directory_chain(path: Seq<char>) -> Seq<Seq<char>> {
    let names = pieces(path, CharClass::Slash);
    Seq::new(names.len(), |i: int| slashed(names.take(i + 1)))
}

/// What came of making a directory.
#[derive(Debug)]
pub enum MkdirOutcome<F> {
    /// The directory was made.
    Made,
    /// It was not.
    Failed { code: RemoteCode, error: F },
}

/// The making of the directories on the way to a path.
#[derive(Debug)]
pub struct RemoteDirs {
    dirs: Vec<String>,
    next: usize,
}

impl RemoteDirs {
    /// The directories that are to be made, in this order.
    pub closed spec fn dirs(self) -> Seq<Seq<char>> {
        texts(self.dirs@)
    }

    /// How many of them have been dealt with.
    pub closed spec fn done(self) -> nat {
        self.next as nat
    }

    /// The directory to make next, unless all have been dealt with.
    pub fn pending(&self) -> (dir: Option<&String>)
        ensures
            dir is Some <==> self.done() < self.dirs().len(),
            dir matches Some(d) ==> d@ == self.dirs()[self.done() as int],
    {
        if self.next < self.dirs.len() {
            Some(&self.dirs[self.next])
        } else {
            None
        }
    }

    /// Takes note of what came of making the pending directory. Where the
    /// server refused, the directory may be there already, and the next one is
    /// tried; any other failure ends it.
    pub fn resume<F>(&mut self, outcome: MkdirOutcome<F>) -> (r: Result<(), F>)
        requires
            old(self).done() < old(self).dirs().len(),
        ensures
            final(self).dirs() == old(self).dirs(),
            match outcome {
                MkdirOutcome::Failed { code, error } if code != RemoteCode::Session(
                    REFUSED_BY_SERVER,
                ) => r matches Err(e) && e == error && final(self).done() == old(self).done(),
                _ => r is Ok && final(self).done() == old(self).done() + 1,
            },
    {
        assert(self.next < self.dirs.len());
        match outcome {
            MkdirOutcome::Made => {
                self.next = self.next + 1;
                Ok(())
            },
            MkdirOutcome::Failed { code, error } => {
                if code == RemoteCode::Session(REFUSED_BY_SERVER) {
                    self.next = self.next + 1;
                    Ok(())
                } else {
                    Err(error)
                }
            },
        }
    }
}

/// Begins to make the directories on the way to `path`.
pub fn create_remote_dir_all(path: &str) -> (dirs: RemoteDirs)
    ensures
        dirs.dirs() == directory_chain(path@),
        dirs.done() == 0,
{
    let parts = text::split(path, CharClass::Slash);
    let ghost names = pieces(path@, CharClass::Slash);
    let mut current = String::new();
    let mut dirs: Vec<String> = Vec::new();
    let mut i: usize = 0;
    while i < parts.len()
        invariant
            i <= parts.len(),
            parts@.len() == names.len(),
            names == pieces(path@, CharClass::Slash),
            forall|k: int| 0 <= k < parts@.len() ==> (#[trigger] parts@[k])@ == names[k],
            current@ == slashed(names.take(i as int)),
            dirs@.len() == i,
            forall|k: int|
                0 <= k < i ==> (#[trigger] dirs@[k])@ == slashed(names.take(k + 1)),
        decreases parts.len() - i,
    {
        current.append("/");
        current.append(parts[i].as_str());
        proof {
            assert(names.take(i + 1).drop_last() == names.take(i as int));
            assert(names.take(i + 1).last() == parts@[i as int]@);
        }
        dirs.push(current.clone());
        i = i + 1;
    }
    assert(texts(dirs@) =~= directory_chain(path@));
    RemoteDirs { dirs, next: 0 }
}

/// Each directory on the way lies in the one before it, so that every directory
/// is made after the one that holds it.
pub proof fn law_directories_are_made_top_down(path: Seq<char>, i: int)
    requires
        0 <= i,
        i + 1 < directory_chain(path).len(),
    ensures
        directory_chain(path)[i + 1] == directory_chain(path)[i] + "/"@ + pieces(
            path,
            CharClass::Slash,
        )[i + 1],
{
    let names = pieces(path, CharClass::Slash);
    assert(names.take(i + 2).drop_last() == names.take(i + 1));
}

/// Names behind slashes are the pieces between the slashes.
proof fn lemma_pieces_of_slashed(names: Seq<Seq<char>>)
    requires
        forall|i: int|
            0 <= i < names.len() ==> text::is_piece(#[trigger] names[i], CharClass::Slash),
    ensures
        pieces(slashed(names), CharClass::Slash) == names,
    decreases names.len(),
{
    if names.len() == 0 {
        assert(names =~= Seq::<Seq<char>>::empty());
    } else {
        reveal_strlit("/");
        let front = names.drop_last();
        let name = names.last();
        lemma_pieces_of_slashed(front);
        let s = slashed(front) + "/"@;
        let all = s + name;
        assert(slashed(names) == all);
        assert(s.drop_last() == slashed(front));
        assert(text::is_piece(name, CharClass::Slash));
        text::lemma_last_piece(all, s.len() as int, CharClass::Slash);
        assert(all.take(s.len() as int) == s);
        assert(all.skip(s.len() as int) == name);
        assert(names == front.push(name));
    }
}

/// The last directory made is the one that the path leads to: it has the same
/// names between its slashes.
pub proof fn law_the_path_itself_is_made(path: Seq<char>)
    requires
        directory_chain(path).len() > 0,
    ensures
        pieces(directory_chain(path).last(), CharClass::Slash) == pieces(path, CharClass::Slash),
{
    let names = pieces(path, CharClass::Slash);
    text::lemma_pieces(path, CharClass::Slash);
    assert(names.take(names.len() as int) == names);
    lemma_pieces_of_slashed(names);
}

/// A volume's directory is the directory of the storage, a slash and the volume's
/// name, and an archive's file is the volume's directory, a slash and the
/// archive's name; an archive is read from where it was written to, and removed
/// there.
pub proof fn law_remote_archives_lie_in_their_volumes_directory(
    storage: SftpStorage,
    volume: &str,
    archive: &str,
    dir: String,
    file: String,
    target: RemoteTarget,
    read: String,
    removed: String,
)
    requires
        call_ensures(SftpStorage::path, (&storage, volume, None), dir),
        call_ensures(SftpStorage::path, (&storage, volume, Some(archive)), file),
        call_ensures(SftpStorage::put, (&storage, volume, archive), target),
        call_ensures(SftpStorage::get, (&storage, volume, archive), read),
        call_ensures(SftpStorage::remove, (&storage, volume, archive), removed),
    ensures
        dir@ == storage.root@ + seq!['/'] + volume@,
        file@ == dir@ + seq!['/'] + archive@,
        target.dir@ == dir@,
        target.path@ == file@,
        read@ == file@,
        removed@ == file@,
{
    reveal_strlit("/");
    assert("/"@ =~= seq!['/']);
}

/// Archives of different volumes, and different archives of a volume, have
/// different paths.
pub proof fn law_remote_archives_have_paths_of_their_own(
    storage: SftpStorage,
    volume: &str,
    archive: &str,
    other_volume: &str,
    other_archive: &str,
    path: String,
)
    requires
        names_one_entry(volume@),
        names_one_entry(other_volume@),
        call_ensures(SftpStorage::path, (&storage, volume, Some(archive)), path),
        call_ensures(SftpStorage::path, (&storage, other_volume, Some(other_archive)), path),
    ensures
        volume@ == other_volume@,
        archive@ == other_archive@,
{
    reveal_strlit("/");
    assert("/"@ =~= seq!['/']);
    let n = storage.root@.len() as int + 1;
    let v = volume@;
    let w = other_volume@;
    let rest = path@.skip(n);
    assert(rest =~= v + seq!['/'] + archive@);
    assert(rest =~= w + seq!['/'] + other_archive@);
    if v.len() < w.len() {
        assert(rest[v.len() as int] == '/');
        assert(w[v.len() as int] == rest[v.len() as int]);
    } else if w.len() < v.len() {
        assert(rest[w.len() as int] == '/');
        assert(v[w.len() as int] == rest[w.len() as int]);
    }
    assert(v =~= rest.take(v.len() as int));
    assert(w =~= rest.take(w.len() as int));
    assert(archive@ =~= rest.skip(v.len() as int + 1));
    assert(other_archive@ =~= rest.skip(w.len() as int + 1));
}

/// A file is regular exactly if its mode is known and the type in it is that of
/// regular files.
pub proof fn law_regular_files_have_their_type(perm: Option<u32>, b: bool)
    requires
        call_ensures(is_regular_file, (perm,), b),
    ensures
        b <==> (perm matches Some(mode) && mode & 0o170000u32 == 0o100000u32),
{
}

/// Tells the files of archives with this name and size from other entries. A size
/// that is not known counts as nothing.
pub open spec fn stores(name: Seq<char>, size: u64) -> spec_fn(RemoteEntry) -> bool {
    |entry: RemoteEntry|
        {
            &&& entry.name matches Some(n)
            &&& n@ == name
            &&& is_called_as_archives_are(name)
            &&& entry.perm matches Some(mode)
            &&& mode & 0o170000u32 == 0o100000u32
            &&& match entry.size {
                Some(s) => s == size,
                None => size == 0,
            }
        }
}

/// The archives are counted as they were found.
proof fn lemma_archives_count(entries: Seq<RemoteEntry>, name: Seq<char>, size: u64)
    ensures
        remote_archives(entries).filter(is_archive(name, size)).len() == entries.filter(
            stores(name, size),
        ).len(),
    decreases entries.len(),
{
    if entries.len() == 0 {
        assert(entries.filter(stores(name, size)) =~= Seq::<RemoteEntry>::empty());
    } else {
        let front = entries.drop_last();
        let entry = entries.last();
        lemma_archives_count(front, name, size);
        assert(entries =~= front.push(entry));
        lists::lemma_filter_push(front, entry, stores(name, size));
        if let Some(n) = entry.name {
            volumes::lemma_archive_suffix(n@);
            let s = match entry.size {
                Some(s) => s,
                None => 0,
            };
            lists::lemma_filter_push(
                remote_archives(front),
                ArchiveInfo { name: n, size: s },
                is_archive(name, size),
            );
        }
    }
}

/// A listing holds every regular file that is called as archives are, with its
/// size, as often as it was found, and nothing else, in the order of the names.
pub proof fn law_a_remote_listing_holds_the_archives<F>(
    entries: Vec<RemoteEntry>,
    r: Result<Vec<ArchiveInfo>, F>,
    name: Seq<char>,
    size: u64,
)
    requires
        call_ensures(SftpStorage::list::<F>, (RemoteListing::Entries(entries),), r),
    ensures
        r matches Ok(archives) && archives@.filter(is_archive(name, size)).len()
            == entries@.filter(stores(name, size)).len(),
        r matches Ok(archives) && forall|i: int, j: int|
            0 <= i < j < archives@.len() ==> in_order(
                (#[trigger] archives@[i]).name@,
                (#[trigger] archives@[j]).name@,
            ),
{
    let archives = r->Ok_0;
    lemma_archives_count(entries@, name, size);
    lists::lemma_same_things(archives@, remote_archives(entries@), is_archive(name, size));
    assert forall|i: int, j: int| 0 <= i < j < archives@.len() implies in_order(
        (#[trigger] archives@[i]).name@,
        (#[trigger] archives@[j]).name@,
    ) by {
        assert(archives@[i].key() == archives@[i].name@);
        assert(archives@[j].key() == archives@[j].name@);
    }
}

/// Where the session says that there is no such file, the volume has no archives,
/// and any other failure is handed on.
pub proof fn law_a_remote_listing_may_fail<F>(
    code: RemoteCode,
    error: F,
    r: Result<Vec<ArchiveInfo>, F>,
)
    requires
        call_ensures(SftpStorage::list::<F>, (RemoteListing::Failed { code, error },), r),
    ensures
        if code matches RemoteCode::Session(c) && c == -16 {
            r matches Ok(archives) && archives@.len() == 0
        } else {
            r matches Err(e) && e == error
        },
{
}

/// The directories on the way to a path are those of the names between its
/// slashes: the first is a slash and the first name, and each of the others is
/// the one before it, a slash and the next name.
pub proof fn law_every_directory_on_the_way_is_made(path: &str, dirs: RemoteDirs)
    requires
        call_ensures(create_remote_dir_all, (path,), dirs),
    ensures
        dirs.done() == 0,
        ({
            let separates = |c: char| c == '/';
            exists|names: Seq<Seq<char>>, starts: Seq<int>|
                {
                    &&& #[trigger] text::is_split(path@, names, starts, separates)
                    &&& dirs.dirs().len() == names.len()
                    &&& names.len() > 0 ==> dirs.dirs()[0] == seq!['/'] + names[0]
                    &&& forall|i: int|
                        0 < i < names.len() ==> #[trigger] dirs.dirs()[i] == dirs.dirs()[i - 1]
                            + seq!['/'] + names[i]
                }
        }),
{
    reveal_strlit("/");
    assert("/"@ =~= seq!['/']);
    let class = CharClass::Slash;
    let names = pieces(path@, class);
    let starts = text::piece_starts(path@, class);
    text::lemma_pieces_split(path@, class);
    let separates = |c: char| c == '/';
    assert(separates =~= (|c: char| class.has(c)));
    assert(text::is_split(path@, names, starts, separates));
    if names.len() > 0 {
        assert(names.take(1).drop_last() =~= Seq::<Seq<char>>::empty());
        assert(names.take(1).last() == names[0]);
        assert(slashed(names.take(1)) == slashed(names.take(1).drop_last()) + "/"@ + names[0]);
        assert(slashed(Seq::<Seq<char>>::empty()) == Seq::<char>::empty());
        assert(dirs.dirs()[0] =~= seq!['/'] + names[0]);
    }
    assert forall|i: int| 0 < i < names.len() implies #[trigger] dirs.dirs()[i] == dirs.dirs()[i
        - 1] + seq!['/'] + names[i] by {
        assert(names.take(i + 1).drop_last() =~= names.take(i));
        assert(names.take(i + 1).last() == names[i]);
    }
}

/// The directory to make next is the first that has not been dealt with.
pub proof fn law_directories_are_made_in_turn(before: RemoteDirs, pending: Option<&String>)
    requires
        call_ensures(RemoteDirs::pending, (&before,), pending),
    ensures
        before.done() < before.dirs().len() ==> (pending matches Some(dir) && dir@
            == before.dirs()[before.done() as int]),
        before.done() >= before.dirs().len() ==> pending is None,
{
}

} // verus!
