use fileserver_backup::refusal::{Failure, Refusal};
use fileserver_backup::volumes::{
    discover_volumes, is_archive_name, validate_volume_name, Found,
};

fn dir(name: &str) -> Found<&'static str> {
    Found::Entry {
        name: name.to_owned(),
        is_dir: true,
    }
}

fn file(name: &str) -> Found<&'static str> {
    Found::Entry {
        name: name.to_owned(),
        is_dir: false,
    }
}

#[test]
fn volumes_are_entries_of_a_directory() {
    for name in ["app", "media data", "...", ".hidden", "a.b", "\u{e4}\u{1f4be}", "-x"] {
        assert!(validate_volume_name(name).is_ok(), "{name}");
    }
    for (name, message) in [
        ("", "invalid volume name \"\""),
        (".", "invalid volume name \".\""),
        ("..", "invalid volume name \"..\""),
        ("a/b", "invalid volume name \"a/b\""),
        ("/", "invalid volume name \"/\""),
        ("a\\b", "invalid volume name \"a\\\\b\""),
    ] {
        assert_eq!(validate_volume_name(name).unwrap_err().message(), message);
    }
}

#[test]
fn archives_are_known_by_their_suffix() {
    assert!(is_archive_name("2025-12-31T23-59-59Z.tar.xz"));
    assert!(is_archive_name(".tar.xz"));
    assert!(!is_archive_name("tar.xz"));
    assert!(!is_archive_name("a.tar.xz.part"));
    assert!(!is_archive_name("a.TAR.XZ"));
    assert!(!is_archive_name(""));
}

#[test]
fn directories_are_volumes_in_the_order_of_their_names() {
    let found = vec![dir("media"), file("a note"), dir("app"), dir("Zoo"), dir("app-2"), file("/")];
    assert_eq!(
        discover_volumes(found).unwrap(),
        vec!["Zoo", "app", "app-2", "media"]
    );
    let none: Vec<Found<&'static str>> = Vec::new();
    assert!(discover_volumes(none).unwrap().is_empty());
}

#[test]
fn names_are_ordered_as_texts() {
    let mut names = vec!["b", "a\u{1f4be}", "a\u{ffff}", "", "a", "ab", "B", "a"];
    let found = names.iter().filter(|name| !name.is_empty()).map(|name| dir(name)).collect();
    names.retain(|name| !name.is_empty());
    names.sort();
    assert_eq!(discover_volumes(found).unwrap(), names);
}

#[test]
fn the_first_offence_ends_the_search() {
    let found = vec![dir("b"), Found::Failed("no entry"), dir("a\\b")];
    assert!(matches!(discover_volumes(found), Err(Failure::Outside("no entry"))));
    let found = vec![dir("b"), file("a\\b"), dir("a\\b"), Found::Failed("no entry")];
    assert!(matches!(
        discover_volumes(found),
        Err(Failure::Refused(Refusal::InvalidVolumeName { volume })) if volume == "a\\b"
    ));
}
