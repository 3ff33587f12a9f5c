use fileserver_backup::local::{LocalEntry, LocalListing, LocalStorage};
use fileserver_backup::retention::ArchiveInfo;
use fileserver_backup::sftp::{
    create_remote_dir_all, is_regular_file, normalize_remote_dir, MkdirOutcome, RemoteCode,
    RemoteEntry, RemoteListing, SftpStorage,
};

fn names(archives: Vec<ArchiveInfo>) -> Vec<(String, u64)> {
    archives.into_iter().map(|archive| (archive.name, archive.size)).collect()
}

fn local_entry(name: &str, is_file: bool, size: u64) -> LocalEntry<&'static str> {
    LocalEntry::Entry {
        name: name.to_owned(),
        is_file,
        size,
    }
}

fn remote_entry(name: Option<&str>, perm: Option<u32>, size: Option<u64>) -> RemoteEntry {
    RemoteEntry {
        name: name.map(str::to_owned),
        perm,
        size,
    }
}

#[test]
fn local_archives_lie_below_the_volume() {
    let storage = LocalStorage::new(b"/backups".to_vec());
    assert_eq!(storage.volume_dir("app"), b"/backups/app");
    let target = storage.put("app", "x.tar.xz");
    assert_eq!(target.dir, b"/backups/app");
    assert_eq!(target.path, b"/backups/app/x.tar.xz");
    assert_eq!(storage.get("app", "x.tar.xz"), b"/backups/app/x.tar.xz");
    assert_eq!(storage.remove("app", "x.tar.xz"), b"/backups/app/x.tar.xz");
}

#[test]
fn paths_are_joined_as_paths() {
    assert_eq!(LocalStorage::new(b"/".to_vec()).volume_dir("app"), b"/app");
    assert_eq!(LocalStorage::new(b"".to_vec()).volume_dir("app"), b"app");
    assert_eq!(LocalStorage::new(b"a/".to_vec()).volume_dir("\u{e4}"), "a/\u{e4}".as_bytes());
    assert_eq!(LocalStorage::new(vec![0xff]).volume_dir("b"), b"\xff/b");
    let storage = LocalStorage::new(b"/backups".to_vec());
    assert_eq!(storage.get("app", "/etc/x.tar.xz"), b"/etc/x.tar.xz");
    assert_eq!(storage.get("app", "../b/x.tar.xz"), b"/backups/app/../b/x.tar.xz");
}

#[test]
fn local_listings_hold_the_archives_in_order() {
    let entries = vec![
        local_entry("b.tar.xz", true, 2),
        local_entry("notes.txt", true, 9),
        local_entry("a.tar.xz", true, 1),
        local_entry("c.tar.xz", false, 3),
    ];
    assert_eq!(
        names(LocalStorage::list(LocalListing::Entries(entries)).unwrap()),
        vec![("a.tar.xz".to_owned(), 1), ("b.tar.xz".to_owned(), 2)]
    );
}

#[test]
fn local_listings_may_be_missing_or_fail() {
    assert!(LocalStorage::list::<&str>(LocalListing::Missing).unwrap().is_empty());
    assert_eq!(
        LocalStorage::list(LocalListing::Unreadable("denied")).unwrap_err(),
        "denied"
    );
    let entries = vec![
        local_entry("b.tar.xz", true, 2),
        LocalEntry::Failed("first"),
        LocalEntry::Failed("second"),
    ];
    assert_eq!(LocalStorage::list(LocalListing::Entries(entries)).unwrap_err(), "first");
}

#[test]
fn archives_of_one_name_keep_their_order() {
    let entries = vec![
        local_entry("b.tar.xz", true, 1),
        local_entry("a.tar.xz", true, 2),
        local_entry("b.tar.xz", true, 3),
        local_entry("a.tar.xz", true, 4),
    ];
    let sizes: Vec<u64> = LocalStorage::list(LocalListing::Entries(entries))
        .unwrap()
        .into_iter()
        .map(|archive| archive.size)
        .collect();
    assert_eq!(sizes, vec![2, 4, 1, 3]);
}

#[test]
fn remote_archives_lie_below_the_volume() {
    let storage = SftpStorage {
        root: "/server-a".to_owned(),
    };
    assert_eq!(storage.path("app", None), "/server-a/app");
    assert_eq!(storage.path("app", Some("x.tar.xz")), "/server-a/app/x.tar.xz");
    let target = storage.put("app", "x.tar.xz");
    assert_eq!(target.dir, "/server-a/app");
    assert_eq!(target.path, "/server-a/app/x.tar.xz");
    assert_eq!(storage.get("app", "x.tar.xz"), "/server-a/app/x.tar.xz");
    assert_eq!(storage.remove("app", "x.tar.xz"), "/server-a/app/x.tar.xz");
}

#[test]
fn remote_listings_hold_the_regular_archives_in_order() {
    let entries = vec![
        remote_entry(Some("b.tar.xz"), Some(0o100644), Some(2)),
        remote_entry(None, Some(0o100644), Some(9)),
        remote_entry(Some("a.tar.xz"), Some(0o100600), None),
        remote_entry(Some("c.tar.xz"), Some(0o040755), Some(3)),
        remote_entry(Some("d.tar.xz"), None, Some(4)),
        remote_entry(Some("e.tar"), Some(0o100644), Some(5)),
    ];
    let listing: RemoteListing<&str> = RemoteListing::Entries(entries);
    assert_eq!(
        names(SftpStorage::list(listing).unwrap()),
        vec![("a.tar.xz".to_owned(), 0), ("b.tar.xz".to_owned(), 2)]
    );
}

#[test]
fn a_remote_directory_that_is_not_there_is_empty() {
    let failed = |code| SftpStorage::list(RemoteListing::Failed { code, error: "failed" });
    assert!(failed(RemoteCode::Session(-16)).unwrap().is_empty());
    assert_eq!(failed(RemoteCode::Session(-31)).unwrap_err(), "failed");
    assert_eq!(failed(RemoteCode::Sftp(-16)).unwrap_err(), "failed");
    assert_eq!(failed(RemoteCode::Sftp(2)).unwrap_err(), "failed");
}

#[test]
fn regular_files_are_told_by_their_mode() {
    assert!(is_regular_file(Some(0o100644)));
    assert!(is_regular_file(Some(0o100000)));
    assert!(!is_regular_file(Some(0o120777)));
    assert!(!is_regular_file(Some(0o040755)));
    assert!(!is_regular_file(Some(0o140755)));
    assert!(!is_regular_file(Some(0o644)));
    assert!(!is_regular_file(None));
    for mode in [0o100644, 0o120777, 0o040755, 0o140755, 0o060660, 0o644, 0o177777] {
        let stat = ssh2::FileStat {
            size: None,
            uid: None,
            gid: None,
            perm: Some(mode),
            atime: None,
            mtime: None,
        };
        assert_eq!(is_regular_file(stat.perm), stat.file_type().is_file());
    }
}

#[test]
fn slashes_come_off_the_end_of_a_remote_directory() {
    assert_eq!(normalize_remote_dir("/backups"), "/backups");
    assert_eq!(normalize_remote_dir("/backups//"), "/backups");
    assert_eq!(normalize_remote_dir("//a//b/"), "//a//b");
    assert_eq!(normalize_remote_dir("///"), "/");
    assert_eq!(normalize_remote_dir(""), "/");
}

#[test]
fn remote_directories_are_made_from_the_top() {
    let mut dirs = create_remote_dir_all("/server-a//app/");
    assert_eq!(dirs.pending().unwrap(), "/server-a");
    assert!(dirs.resume::<&str>(MkdirOutcome::Made).is_ok());
    assert_eq!(dirs.pending().unwrap(), "/server-a/app");
    let refused = MkdirOutcome::Failed {
        code: RemoteCode::Session(-31),
        error: "exists",
    };
    assert!(dirs.resume(refused).is_ok());
    assert!(dirs.pending().is_none());
    assert!(create_remote_dir_all("//").pending().is_none());
    assert_eq!(create_remote_dir_all("a/b").pending().unwrap(), "/a");
}

#[test]
fn other_failures_end_the_making_of_directories() {
    let mut dirs = create_remote_dir_all("/a/b");
    let failed = MkdirOutcome::Failed {
        code: RemoteCode::Sftp(3),
        error: "denied",
    };
    assert_eq!(dirs.resume(failed), Err("denied"));
    assert_eq!(dirs.pending().unwrap(), "/a");
}
