use fileserver_backup::retention::{
    archives_to_remove, archives_to_remove_for_size, sum_sizes, ArchiveInfo, RetentionPolicy,
};

fn archive(name: &str, size: u64) -> ArchiveInfo {
    ArchiveInfo {
        name: name.to_owned(),
        size,
    }
}

fn three() -> Vec<ArchiveInfo> {
    vec![archive("1.tar.xz", 10), archive("2.tar.xz", 20), archive("3.tar.xz", 30)]
}

#[test]
fn size_retention_keeps_minimum_count() {
    let archives = vec![
        ArchiveInfo {
            name: "1.tar.xz".to_owned(),
            size: 10,
        },
        ArchiveInfo {
            name: "2.tar.xz".to_owned(),
            size: 10,
        },
        ArchiveInfo {
            name: "3.tar.xz".to_owned(),
            size: 10,
        },
    ];
    assert_eq!(
        archives_to_remove_for_size(&archives, 2, 15),
        vec!["1.tar.xz".to_owned()]
    );
}

#[test]
fn size_retention_removes_as_few_as_will_do() {
    let none: Vec<String> = Vec::new();
    assert_eq!(archives_to_remove_for_size(&three(), 1, 60), none);
    assert_eq!(archives_to_remove_for_size(&three(), 1, 59), vec!["1.tar.xz"]);
    assert_eq!(archives_to_remove_for_size(&three(), 1, 50), vec!["1.tar.xz"]);
    assert_eq!(archives_to_remove_for_size(&three(), 1, 49), vec!["1.tar.xz", "2.tar.xz"]);
    assert_eq!(archives_to_remove_for_size(&three(), 1, 0), vec!["1.tar.xz", "2.tar.xz"]);
    assert_eq!(
        archives_to_remove_for_size(&three(), 0, 0),
        vec!["1.tar.xz", "2.tar.xz", "3.tar.xz"]
    );
    assert_eq!(archives_to_remove_for_size(&three(), 5, 0), none);
    assert_eq!(archives_to_remove_for_size(&[], 0, 0), none);
}

#[test]
fn count_retention_keeps_the_newest() {
    let none: Vec<String> = Vec::new();
    let keep = |keep| archives_to_remove(&three(), RetentionPolicy::Count { keep });
    assert_eq!(keep(0), vec!["1.tar.xz", "2.tar.xz", "3.tar.xz"]);
    assert_eq!(keep(1), vec!["1.tar.xz", "2.tar.xz"]);
    assert_eq!(keep(3), none);
    assert_eq!(keep(7), none);
}

#[test]
fn cleaning_up_twice_removes_nothing_more() {
    for policy in [
        RetentionPolicy::Count { keep: 2 },
        RetentionPolicy::Size {
            min_count: 1,
            max_total_size: 50,
        },
    ] {
        let mut archives = three();
        let removed = archives_to_remove(&archives, policy);
        assert_eq!(removed, vec!["1.tar.xz"]);
        archives.retain(|archive| !removed.contains(&archive.name));
        assert!(archives_to_remove(&archives, policy).is_empty());
        assert_eq!(archives.last().unwrap().name, "3.tar.xz");
    }
}

#[test]
fn sizes_are_added_up_in_64_bits() {
    assert_eq!(sum_sizes(&[]), Some(0));
    assert_eq!(sum_sizes(&three()), Some(60));
    let large = [archive("a.tar.xz", u64::MAX), archive("b.tar.xz", 0)];
    assert_eq!(sum_sizes(&large), Some(u64::MAX));
    let larger = [archive("a.tar.xz", u64::MAX), archive("b.tar.xz", 1)];
    assert_eq!(sum_sizes(&larger), None);
}
