use fileserver_backup::clock::{
    archive_name, wait_until, Moment, Wait, FIRST_SECOND, LAST_SECOND,
};

#[test]
fn archives_are_named_after_the_second() {
    assert_eq!(archive_name(0), "1970-01-01T00-00-00Z.tar.xz");
    assert_eq!(archive_name(951_827_696), "2000-02-29T12-34-56Z.tar.xz");
    assert_eq!(archive_name(1_767_225_599), "2025-12-31T23-59-59Z.tar.xz");
    assert_eq!(archive_name(4_107_542_400), "2100-03-01T00-00-00Z.tar.xz");
    assert_eq!(archive_name(-1), "1969-12-31T23-59-59Z.tar.xz");
}

#[test]
fn years_beyond_four_digits_have_a_sign() {
    assert_eq!(archive_name(253_402_300_799), "9999-12-31T23-59-59Z.tar.xz");
    assert_eq!(archive_name(253_402_300_800), "+10000-01-01T00-00-00Z.tar.xz");
    assert_eq!(archive_name(-62_167_219_200), "0000-01-01T00-00-00Z.tar.xz");
    assert_eq!(archive_name(-62_167_219_201), "-0001-12-31T23-59-59Z.tar.xz");
    assert_eq!(archive_name(FIRST_SECOND), "-262143-01-01T00-00-00Z.tar.xz");
    assert_eq!(archive_name(LAST_SECOND), "+262142-12-31T23-59-59Z.tar.xz");
}

#[test]
fn later_archives_have_later_names() {
    let mut seconds: i64 = -62_167_219_200;
    let mut last = archive_name(seconds);
    while seconds < 253_402_300_799 {
        seconds = (seconds + 123_456_789).min(253_402_300_799);
        let name = archive_name(seconds);
        assert!(last < name, "{last} {name}");
        last = name;
    }
    assert!(archive_name(1_767_225_599) < archive_name(1_767_225_600));
    assert!(archive_name(253_402_300_800) < archive_name(0));
}

#[test]
fn waits_are_exact() {
    let now = Moment {
        seconds: 10,
        nanos: 250_000_000,
    };
    let until = |seconds, nanos| wait_until(now, Moment { seconds, nanos });
    assert_eq!(
        until(12, 0),
        Some(Wait {
            seconds: 1,
            nanos: 750_000_000
        })
    );
    assert_eq!(
        until(12, 300_000_000),
        Some(Wait {
            seconds: 2,
            nanos: 50_000_000
        })
    );
    assert_eq!(
        until(10, 250_000_000),
        Some(Wait {
            seconds: 0,
            nanos: 0
        })
    );
    assert_eq!(until(10, 0), None);
    assert_eq!(until(9, 999_999_999), None);
    assert_eq!(
        wait_until(
            Moment {
                seconds: i64::MIN,
                nanos: 0
            },
            Moment {
                seconds: i64::MAX,
                nanos: 0
            }
        ),
        Some(Wait {
            seconds: u64::MAX,
            nanos: 0
        })
    );
}
