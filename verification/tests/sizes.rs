use fileserver_backup::size::parse_size;
use fileserver_backup::text::CharClass;

#[test]
fn parses_binary_sizes() {
    assert_eq!(parse_size("10GiB").unwrap(), 10 * 1024_u64.pow(3));
    assert_eq!(parse_size("5mb").unwrap(), 5_000_000);
}

#[test]
fn every_unit_has_its_size() {
    let units: [(&str, u64); 18] = [
        ("", 1),
        ("B", 1),
        ("K", 1_000),
        ("KB", 1_000),
        ("M", 1_000_000),
        ("MB", 1_000_000),
        ("G", 1_000_000_000),
        ("GB", 1_000_000_000),
        ("T", 1_000_000_000_000),
        ("TB", 1_000_000_000_000),
        ("Ki", 1 << 10),
        ("KiB", 1 << 10),
        ("Mi", 1 << 20),
        ("MiB", 1 << 20),
        ("Gi", 1 << 30),
        ("GiB", 1 << 30),
        ("Ti", 1 << 40),
        ("TiB", 1 << 40),
    ];
    for (unit, bytes) in units {
        assert_eq!(parse_size(&format!("3{unit}")), Ok(3 * bytes));
        assert_eq!(parse_size(&format!("3{}", unit.to_uppercase())), Ok(3 * bytes));
        assert_eq!(parse_size(&format!("3{}", unit.to_lowercase())), Ok(3 * bytes));
    }
}

#[test]
fn space_around_number_and_unit_is_ignored() {
    assert_eq!(parse_size(" \t7 \u{2003}kib\u{a0}\n"), Ok(7168));
    assert_eq!(parse_size("0"), Ok(0));
    assert_eq!(parse_size("007"), Ok(7));
}

#[test]
fn a_size_needs_a_number() {
    assert_eq!(parse_size(""), Err("size cannot be empty".to_owned()));
    assert_eq!(parse_size(" \u{3000} "), Err("size cannot be empty".to_owned()));
    let empty = "".parse::<u64>().unwrap_err();
    assert_eq!(parse_size("GiB"), Err(format!("invalid size number: {empty}")));
    assert_eq!(parse_size("-1"), Err(format!("invalid size number: {empty}")));
    assert_eq!(parse_size("+1"), Err(format!("invalid size number: {empty}")));
}

#[test]
fn numbers_beyond_64_bits_are_refused() {
    assert_eq!(parse_size("18446744073709551615"), Ok(u64::MAX));
    let overflow = "18446744073709551616".parse::<u64>().unwrap_err();
    assert_eq!(
        parse_size("18446744073709551616"),
        Err(format!("invalid size number: {overflow}"))
    );
    assert_eq!(parse_size("18446744073709551615b"), Ok(u64::MAX));
    assert_eq!(parse_size("18446744073709551615k"), Err("size is too large".to_owned()));
    assert_eq!(parse_size("16777215TiB"), Ok(16_777_215 * (1 << 40)));
    assert_eq!(parse_size("16777216TiB"), Err("size is too large".to_owned()));
}

#[test]
fn unknown_units_are_quoted_in_lower_case() {
    assert_eq!(parse_size("5 PiB"), Err("unsupported size unit \"pib\"".to_owned()));
    assert_eq!(parse_size("1.5GB"), Err("unsupported size unit \".5gb\"".to_owned()));
    assert_eq!(parse_size("1 \"Q"), Err("unsupported size unit \"\\\"q\"".to_owned()));
    assert_eq!(parse_size("1\u{c4}"), Err("unsupported size unit \"\u{c4}\"".to_owned()));
}

#[test]
fn white_space_is_that_of_unicode() {
    for c in '\0'..=char::MAX {
        assert_eq!(CharClass::WhiteSpace.contains(c), c.is_whitespace(), "{c:?}");
        assert_eq!(CharClass::Digit.contains(c), c.is_ascii_digit(), "{c:?}");
    }
}
