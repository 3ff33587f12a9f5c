//! Points in time: the stamps that name archives, the times of files and the
//! wait until a scheduled run.

use vstd::prelude::*;
use vstd::string::StringExecFns;
use crate::text;
use crate::text::in_order;

verus! {

/// The earliest second that the calendar covers.
pub const FIRST_SECOND: i64 = -8_334_601_228_800;

/// The latest second that the calendar covers.
pub const LAST_SECOND: i64 = 8_210_266_876_799;

/// What follows the stamp in the name of an archive.
pub const ARCHIVE_SUFFIX: &'static str = ".tar.xz";

/// Whether the year `y` of the Gregorian calendar has 366 days.
pub open spec fn is_leap(y: int) -> bool {
    y % 4 == 0 && (y % 100 != 0 || y % 400 == 0)
}

/// The days of the month `m` of the year `y`.
pub open spec fn days_in_month(y: int, m: int) -> int {
    if m == 2 {
        if is_leap(y) {
            29
        } else {
            28
        }
    } else if m == 4 || m == 6 || m == 9 || m == 11 {
        30
    } else {
        31
    }
}

/// The days of the year `y` before its month `m`.
pub open spec fn days_before_month(y: int, m: int) -> int
    decreases m,
{
    if m <= 1 {
        0
    } else {
        days_before_month(y, m - 1) + days_in_month(y, m - 1)
    }
}

/// The days from the start of the year 0 to the start of the year `y`: 365 for
/// each year, and one for each leap year.
pub open spec fn days_before_year(y: int) -> int {
    365 * y + (y + 3) / 4 - (y + 99) / 100 + (y + 399) / 400
}

/// The decimal digit `d`.
pub open spec fn digit(d: int) -> char {
    ('0' as int + d) as char
}

/// `n` in two digits.
pub open spec fn two_digits(n: int) -> Seq<char> {
    seq![digit(n / 10), digit(n % 10)]
}

/// `n` in decimal digits, at least `width` of them.
pub open spec fn digits(n: nat, width: nat) -> Seq<char>
    decreases n, width,
{
    if n < 10 && width <= 1 {
        seq![digit(n as int)]
    } else {
        digits(
            n / 10,
            if width > 0 {
                (width - 1) as nat
            } else {
                0
            },
        ).push(digit(n as int % 10))
    }
}

/// The year `y` in at least four digits, with a sign unless it is one of the
/// years 0 to 9999.
pub open spec fn year_text(y: int) -> Seq<char> {
    if 0 <= y <= 9999 {
        digits(y as nat, 4)
    } else if y < 0 {
        seq!['-'] + digits((-y) as nat, 4)
    } else {
        seq!['+'] + digits(y as nat, 4)
    }
}

/// A second of the Gregorian calendar, extended to all years, in UTC.
pub struct CivilTime {
    pub year: int,
    pub month: int,
    pub day: int,
    pub hour: int,
    pub minute: int,
    pub second: int,
}

impl CivilTime {
    /// Whether the calendar has this second.
    pub open spec fn valid(self) -> bool {
        &&& 1 <= self.month <= 12
        &&& 1 <= self.day <= days_in_month(self.year, self.month)
        &&& 0 <= self.hour < 24
        &&& 0 <= self.minute < 60
        &&& 0 <= self.second < 60
    }

    /// The days from the start of the year 0.
    pub open spec fn days(self) -> int {
        days_before_year(self.year) + days_before_month(self.year, self.month) + self.day - 1
    }

    /// The seconds of the day before this one.
    pub open spec fn second_of_day(self) -> int {
        self.hour * 3600 + self.minute * 60 + self.second
    }

    /// The seconds since the start of the year 1970.
    pub open spec fn unix_seconds(self) -> int {
        (self.days() - days_before_year(1970)) * 86400 + self.second_of_day()
    }

    /// The second written as `2026-01-31T23-59-58Z`.
    pub open spec fn stamp(self) -> Seq<char> {
        year_text(self.year) + seq!['-'] + two_digits(self.month) + seq!['-'] + two_digits(self.day)
            + seq!['T'] + two_digits(self.hour) + seq!['-'] + two_digits(self.minute) + seq!['-']
            + two_digits(self.second) + seq!['Z']
    }

    /// The name of an archive that was begun in this second.
    pub open spec fn archive_name(self) -> Seq<char> {
        self.stamp() + ARCHIVE_SUFFIX@
    }
}

/// Whether `stamp` writes the second that is `seconds` after the start of 1970.
pub open spec fn is_stamp_of(stamp: Seq<char>, seconds: int) -> bool {
    exists|t: CivilTime| #[trigger]
        t.valid() && t.unix_seconds() == seconds && stamp == t.stamp()
}

/// Whether `name` is the name of an archive that was begun `seconds` after the
/// start of 1970.
pub open spec fn is_archive_of(name: Seq<char>, seconds: int) -> bool {
    exists|t: CivilTime| #[trigger]
        t.valid() && t.unix_seconds() == seconds && name == t.archive_name()
}

/// `chrono::DateTime::<Utc>::format` with the pattern `%Y-%m-%dT%H-%M-%SZ`: the
/// second that is `seconds` after the start of 1970, in the Gregorian calendar
/// extended to all years, with every field in two digits and the year in four,
/// or in four or more behind a sign where it is not one of 0 to 9999.
#[verifier::external_body]
fn format_utc(seconds: i64) -> (stamp: String)
    requires
        FIRST_SECOND <= seconds <= LAST_SECOND,
    ensures
        is_stamp_of(stamp@, seconds as int),
{
    chrono::DateTime::from_timestamp(seconds, 0).unwrap().format("%Y-%m-%dT%H-%M-%SZ").to_string()
}

/// The name of an archive that was begun `seconds` after the start of 1970.
pub open spec fn archive_name_at(seconds: int) -> Seq<char> {
    choose|name: Seq<char>| is_archive_of(name, seconds)
}

/// Names an archive after the second in which it is begun, which is `seconds`
/// after the start of 1970.
pub fn archive_name(seconds: i64) -> (name: String)
    requires
        FIRST_SECOND <= seconds <= LAST_SECOND,
    ensures
        is_archive_of(name@, seconds as int),
        name@ == archive_name_at(seconds as int),
{
    let mut name = format_utc(seconds);
    let ghost t = choose|t: CivilTime| #[trigger]
        t.valid() && t.unix_seconds() == seconds && name@ == t.stamp();
    name.append(ARCHIVE_SUFFIX);
    proof {
        assert(t.valid() && name@ == t.archive_name());
        law_every_second_has_one_name(name@, seconds as int);
    }
    name
}

/// The next year begins when this one's days are over.
pub proof fn lemma_year_length(y: int)
    ensures
        days_before_year(y + 1) == days_before_year(y) + if is_leap(y) {
            366int
        } else {
            365int
        },
{
    assert((y + 4) / 4 == (y + 3) / 4 + if y % 4 == 0 {
        1int
    } else {
        0int
    });
    assert((y + 100) / 100 == (y + 99) / 100 + if y % 100 == 0 {
        1int
    } else {
        0int
    });
    assert((y + 400) / 400 == (y + 399) / 400 + if y % 400 == 0 {
        1int
    } else {
        0int
    });
    assert(y % 100 == 0 ==> y % 4 == 0);
    assert(y % 400 == 0 ==> y % 100 == 0);
}

/// A later year begins later.
proof fn lemma_years_grow(a: int, b: int)
    requires
        a <= b,
    ensures
        days_before_year(a) <= days_before_year(b),
    decreases b - a,
{
    if a < b {
        lemma_years_grow(a, b - 1);
        lemma_year_length(b - 1);
    }
}

/// The days before a later month cover those of an earlier one.
proof fn lemma_months_grow(y: int, a: int, b: int)
    requires
        1 <= a < b <= 13,
    ensures
        days_before_month(y, a) + days_in_month(y, a) <= days_before_month(y, b),
    decreases b - a,
{
    if a + 1 < b {
        lemma_months_grow(y, a, b - 1);
    }
}

/// The months of a year make up its days.
pub proof fn lemma_months_fill_year(y: int)
    ensures
        days_before_month(y, 13) == if is_leap(y) {
            366int
        } else {
            365int
        },
{
    reveal_with_fuel(days_before_month, 14);
}

/// The days before a month are none or more.
proof fn lemma_before_month_natural(y: int, m: int)
    ensures
        days_before_month(y, m) >= 0,
    decreases m,
{
    if m > 1 {
        lemma_before_month_natural(y, m - 1);
    }
}

/// A second lies within its year.
proof fn lemma_within_year(t: CivilTime)
    requires
        t.valid(),
    ensures
        days_before_year(t.year) <= t.days() < days_before_year(t.year + 1),
{
    lemma_months_grow(t.year, t.month, 13);
    lemma_months_fill_year(t.year);
    lemma_year_length(t.year);
    lemma_before_month_natural(t.year, t.month);
}

/// Whether `a` comes before `b` by the first of year, month, day, hour, minute
/// and second that differs.
pub open spec fn comes_before(a: CivilTime, b: CivilTime) -> bool {
    ||| a.year < b.year
    ||| a.year == b.year && a.month < b.month
    ||| a.year == b.year && a.month == b.month && a.day < b.day
    ||| a.year == b.year && a.month == b.month && a.day == b.day && a.hour < b.hour
    ||| a.year == b.year && a.month == b.month && a.day == b.day && a.hour == b.hour && a.minute
        < b.minute
    ||| a.year == b.year && a.month == b.month && a.day == b.day && a.hour == b.hour && a.minute
        == b.minute && a.second < b.second
}

/// What comes before by its fields is earlier.
proof fn lemma_fields_order_seconds(a: CivilTime, b: CivilTime)
    requires
        a.valid(),
        b.valid(),
        comes_before(a, b),
    ensures
        a.unix_seconds() < b.unix_seconds(),
{
    if a.year < b.year {
        lemma_within_year(a);
        lemma_within_year(b);
        lemma_years_grow(a.year + 1, b.year);
    } else if a.month < b.month {
        lemma_months_grow(a.year, a.month, b.month);
    }
}

/// Earlier seconds come before by their fields.
proof fn lemma_seconds_order_fields(a: CivilTime, b: CivilTime)
    requires
        a.valid(),
        b.valid(),
        a.unix_seconds() < b.unix_seconds(),
    ensures
        comes_before(a, b),
{
    if !comes_before(a, b) {
        if comes_before(b, a) {
            lemma_fields_order_seconds(b, a);
        }
    }
}

/// The year, from `y` on, in which a day lies.
proof fn find_year(day: int, y: int) -> (year: int)
    requires
        days_before_year(y) <= day,
    ensures
        days_before_year(year) <= day < days_before_year(year + 1),
    decreases day - days_before_year(y),
{
    lemma_year_length(y);
    if day < days_before_year(y + 1) {
        y
    } else {
        find_year(day, y + 1)
    }
}

/// The month, from `m` on, in which a day of the year `y` lies.
proof fn find_month(y: int, day: int, m: int) -> (month: int)
    requires
        1 <= m <= 12,
        days_before_month(y, m) <= day < days_before_month(y, 13),
    ensures
        1 <= month <= 12,
        days_before_month(y, month) <= day < days_before_month(y, month) + days_in_month(y, month),
    decreases 12 - m,
{
    if day < days_before_month(y, m + 1) {
        m
    } else {
        find_month(y, day, m + 1)
    }
}

/// The calendar has every second.
proof fn find_second(seconds: int) -> (t: CivilTime)
    ensures
        t.valid(),
        t.unix_seconds() == seconds,
{
    let day = seconds / 86400 + days_before_year(1970);
    let first = if day < 0 {
        day
    } else {
        0
    };
    let year = find_year(day, first);
    lemma_year_length(year);
    lemma_months_fill_year(year);
    let rest = day - days_before_year(year);
    assert(days_before_month(year, 1) == 0);
    let month = find_month(year, rest, 1);
    let second = seconds % 86400;
    CivilTime {
        year,
        month,
        day: rest - days_before_month(year, month) + 1,
        hour: second / 3600,
        minute: second % 3600 / 60,
        second: second % 60,
    }
}

/// Every second has a name for the archives that are begun in it, and only one:
/// the calendar has each second once.
pub proof fn law_every_second_has_one_name(name: Seq<char>, seconds: int)
    ensures
        is_archive_of(archive_name_at(seconds), seconds),
        is_archive_of(name, seconds) ==> name == archive_name_at(seconds),
{
    let t = find_second(seconds);
    assert(t.valid());
    assert(is_archive_of(t.archive_name(), seconds));
    let x = choose|t: CivilTime| #[trigger]
        t.valid() && t.unix_seconds() == seconds && archive_name_at(seconds) == t.archive_name();
    if is_archive_of(name, seconds) {
        let y = choose|t: CivilTime| #[trigger]
            t.valid() && t.unix_seconds() == seconds && name == t.archive_name();
        if comes_before(x, y) {
            lemma_fields_order_seconds(x, y);
        } else if comes_before(y, x) {
            lemma_fields_order_seconds(y, x);
        } else {
            assert(x == y);
        }
    }
}

/// Decimal digits write their number, and nothing but digits.
proof fn lemma_digits(n: nat, width: nat)
    ensures
        text::decimal(digits(n, width)) == n,
        text::all_digits(digits(n, width)),
        digits(n, width).len() > 0,
    decreases n, width,
{
    let s = digits(n, width);
    if n < 10 && width <= 1 {
        assert(s.drop_last() == Seq::<char>::empty());
        assert(text::decimal(s.drop_last()) == 0);
        assert(s.last() == digit(n as int));
    } else {
        let w = if width > 0 {
            (width - 1) as nat
        } else {
            0
        };
        lemma_digits(n / 10, w);
        let front = digits(n / 10, w);
        assert(s.drop_last() == front);
        assert(s.last() == digit(n as int % 10));
        assert forall|i: int| 0 <= i < s.len() implies text::CharClass::Digit.has(
            #[trigger] s[i],
        ) by {
            if i < front.len() {
                assert(s[i] == front[i]);
            }
        }
    }
}

/// Of two texts that begin alike, the rest decides the order.
proof fn lemma_same_front(front: Seq<char>, x: Seq<char>, y: Seq<char>)
    ensures
        in_order(front + x, front + y) == in_order(x, y),
    decreases front.len(),
{
    if front.len() == 0 {
        assert(front + x == x);
        assert(front + y == y);
    } else {
        assert((front + x).drop_first() == front.drop_first() + x);
        assert((front + y).drop_first() == front.drop_first() + y);
        lemma_same_front(front.drop_first(), x, y);
    }
}

/// A smaller number in two digits comes first, whatever follows.
proof fn lemma_two_digits_order(n: int, m: int, x: Seq<char>, y: Seq<char>)
    requires
        0 <= n < m < 100,
    ensures
        in_order(two_digits(n) + x, two_digits(m) + y),
{
    let a = two_digits(n) + x;
    let b = two_digits(m) + y;
    assert(a[0] == digit(n / 10) && b[0] == digit(m / 10));
    assert(a.drop_first()[0] == digit(n % 10) && b.drop_first()[0] == digit(m % 10));
    assert(in_order(a.drop_first(), b.drop_first()) || n / 10 < m / 10);
}

/// A smaller number in as many digits comes first, whatever follows.
proof fn lemma_digits_order(n: nat, m: nat, width: nat, x: Seq<char>, y: Seq<char>)
    requires
        n < m,
        digits(n, width).len() == digits(m, width).len(),
    ensures
        in_order(digits(n, width) + x, digits(m, width) + y),
    decreases m, width,
{
    let w = if width > 0 {
        (width - 1) as nat
    } else {
        0
    };
    let a = digits(n, width) + x;
    let b = digits(m, width) + y;
    if n < 10 && width <= 1 {
        if m < 10 {
            assert(a[0] == digit(n as int) && b[0] == digit(m as int));
        } else {
            lemma_digits(m / 10, w);
        }
    } else {
        let c = seq![digit(n as int % 10)] + x;
        let d = seq![digit(m as int % 10)] + y;
        assert(a == digits(n / 10, w) + c);
        assert(b == digits(m / 10, w) + d);
        if n / 10 == m / 10 {
            assert(c[0] == digit(n as int % 10) && d[0] == digit(m as int % 10));
            assert(in_order(c, d));
            lemma_same_front(digits(n / 10, w), c, d);
        } else {
            lemma_digits_order(n / 10, m / 10, w, c, d);
        }
    }
}

/// The years from 0 to 9999 sort as texts as they do as numbers.
pub proof fn law_four_digit_years_sort(a: int, b: int)
    requires
        0 <= a <= b <= 9999,
    ensures
        in_order(year_text(a), year_text(b)),
{
    if a == b {
        text::lemma_order_reflexive(year_text(a));
    } else {
        reveal_with_fuel(digits, 5);
        let none = Seq::<char>::empty();
        lemma_digits_order(a as nat, b as nat, 4, none, none);
        assert(digits(a as nat, 4) + none == year_text(a));
        assert(digits(b as nat, 4) + none == year_text(b));
    }
}

/// A text that comes first does so with more behind it, if what follows begins
/// before every character of the other text but the first.
proof fn lemma_order_extends(a: Seq<char>, b: Seq<char>, x: Seq<char>, y: Seq<char>)
    requires
        in_order(a, b),
        a != b,
        x.len() > 0,
        a.len() > 0 || (b.len() > 0 && x[0] < b[0]),
        forall|i: int| 0 < i < b.len() ==> x[0] < #[trigger] b[i],
    ensures
        in_order(a + x, b + y),
        a + x != b + y,
    decreases a.len(),
{
    if a.len() == 0 {
        assert((a + x)[0] == x[0]);
        assert((b + y)[0] == b[0]);
    } else {
        assert((a + x)[0] == a[0]);
        assert((b + y)[0] == b[0]);
        if a[0] == b[0] {
            let c = a.drop_first();
            let d = b.drop_first();
            assert((a + x).drop_first() == c + x);
            assert((b + y).drop_first() == d + y);
            if c == d {
                assert(a == seq![a[0]] + c);
                assert(b == seq![b[0]] + d);
            }
            assert(c.len() > 0 || d.len() > 0) by {
                assert(c.len() == 0 && d.len() == 0 ==> c =~= d);
            }
            assert forall|i: int| 0 <= i < d.len() implies x[0] < #[trigger] d[i] by {
                assert(d[i] == b[i + 1]);
            }
            lemma_order_extends(c, d, x, y);
        }
    }
}

/// A text that does not come first does not do so with more behind it, unless
/// the other text is the beginning of it.
proof fn lemma_order_stays(a: Seq<char>, b: Seq<char>, x: Seq<char>, y: Seq<char>)
    requires
        !in_order(a, b),
        y.len() > 0,
        b.len() > 0 || (a.len() > 0 && y[0] < a[0]),
        forall|i: int| 0 < i < a.len() ==> y[0] < #[trigger] a[i],
    ensures
        !in_order(a + x, b + y),
{
    text::lemma_order_total(a, b);
    if a == b {
        text::lemma_order_reflexive(a);
    }
    lemma_order_extends(b, a, y, x);
    if in_order(a + x, b + y) {
        text::lemma_order_antisymmetric(a + x, b + y);
    }
}

/// What follows the year in the name of an archive.
spec fn behind_year(t: CivilTime) -> Seq<char> {
    seq!['-'] + (two_digits(t.month) + (seq!['-'] + (two_digits(t.day) + behind_day(t))))
}

/// What follows the day in the name of an archive.
spec fn behind_day(t: CivilTime) -> Seq<char> {
    seq!['T'] + (two_digits(t.hour) + (seq!['-'] + (two_digits(t.minute) + (seq!['-'] + (two_digits(
        t.second,
    ) + (seq!['Z'] + ARCHIVE_SUFFIX@))))))
}

/// Of two seconds of one year, the name of the earlier comes first.
proof fn lemma_order_in_a_year(a: CivilTime, b: CivilTime)
    requires
        a.valid(),
        b.valid(),
        comes_before(a, b),
        a.year == b.year,
    ensures
        in_order(behind_year(a), behind_year(b)),
{
    let end = seq!['Z'] + ARCHIVE_SUFFIX@;
    let second_a = two_digits(a.second) + end;
    let second_b = two_digits(b.second) + end;
    let minute_a = two_digits(a.minute) + (seq!['-'] + second_a);
    let minute_b = two_digits(b.minute) + (seq!['-'] + second_b);
    let hour_a = two_digits(a.hour) + (seq!['-'] + minute_a);
    let hour_b = two_digits(b.hour) + (seq!['-'] + minute_b);
    let day_a = two_digits(a.day) + (seq!['T'] + hour_a);
    let day_b = two_digits(b.day) + (seq!['T'] + hour_b);
    let month_a = two_digits(a.month) + (seq!['-'] + day_a);
    let month_b = two_digits(b.month) + (seq!['-'] + day_b);
    lemma_same_front(seq!['-'], month_a, month_b);
    if a.month < b.month {
        lemma_two_digits_order(a.month, b.month, seq!['-'] + day_a, seq!['-'] + day_b);
    } else {
        lemma_same_front(two_digits(a.month), seq!['-'] + day_a, seq!['-'] + day_b);
        lemma_same_front(seq!['-'], day_a, day_b);
        if a.day < b.day {
            lemma_two_digits_order(a.day, b.day, seq!['T'] + hour_a, seq!['T'] + hour_b);
        } else {
            lemma_same_front(two_digits(a.day), seq!['T'] + hour_a, seq!['T'] + hour_b);
            lemma_same_front(seq!['T'], hour_a, hour_b);
            if a.hour < b.hour {
                lemma_two_digits_order(a.hour, b.hour, seq!['-'] + minute_a, seq!['-'] + minute_b);
            } else {
                lemma_same_front(two_digits(a.hour), seq!['-'] + minute_a, seq!['-'] + minute_b);
                lemma_same_front(seq!['-'], minute_a, minute_b);
                if a.minute < b.minute {
                    lemma_two_digits_order(
                        a.minute,
                        b.minute,
                        seq!['-'] + second_a,
                        seq!['-'] + second_b,
                    );
                } else {
                    lemma_same_front(
                        two_digits(a.minute),
                        seq!['-'] + second_a,
                        seq!['-'] + second_b,
                    );
                    lemma_same_front(seq!['-'], second_a, second_b);
                    lemma_two_digits_order(a.second, b.second, end, end);
                }
            }
        }
    }
}

/// The text of a year is not empty, has digits behind its first character, and
/// tells the year.
proof fn lemma_year_text(y: int)
    ensures
        year_text(y).len() > 0,
        forall|i: int| 0 < i < year_text(y).len() ==> '-' < #[trigger] year_text(y)[i],
        forall|z: int| #[trigger] year_text(z) == year_text(y) ==> z == y,
{
    let n = if y < 0 {
        (-y) as nat
    } else {
        y as nat
    };
    lemma_digits(n, 4);
    let d = digits(n, 4);
    assert forall|i: int| 0 < i < year_text(y).len() implies '-' < #[trigger] year_text(y)[i] by {
        if 0 <= y <= 9999 {
            assert(text::CharClass::Digit.has(d[i]));
        } else {
            assert(text::CharClass::Digit.has(d[i - 1]));
            assert(year_text(y)[i] == d[i - 1]);
        }
    }
    assert forall|z: int| #[trigger] year_text(z) == year_text(y) implies z == y by {
        let m = if z < 0 {
            (-z) as nat
        } else {
            z as nat
        };
        lemma_digits(m, 4);
        let e = digits(m, 4);
        assert(text::CharClass::Digit.has(d[0]));
        assert(text::CharClass::Digit.has(e[0]));
        assert(year_text(z)[0] == year_text(y)[0]);
        if 0 <= y <= 9999 {
            assert(d == e);
        } else {
            assert(year_text(y).drop_first() == d);
            assert(year_text(z).drop_first() == e);
        }
    }
}

/// The name of an archive is its year and what follows.
proof fn lemma_name_parts(t: CivilTime)
    ensures
        t.archive_name() == year_text(t.year) + behind_year(t),
        behind_year(t).len() > 0,
        behind_year(t)[0] == '-',
{
    assert(t.archive_name() =~= year_text(t.year) + behind_year(t));
}

/// Of two archives the name of the later sorts behind that of the earlier,
/// exactly where their years do so as texts.
pub proof fn law_archives_sort_as_their_years(a: CivilTime, b: CivilTime)
    requires
        a.valid(),
        b.valid(),
        a.unix_seconds() < b.unix_seconds(),
    ensures
        in_order(a.archive_name(), b.archive_name()) == in_order(
            year_text(a.year),
            year_text(b.year),
        ),
{
    lemma_seconds_order_fields(a, b);
    lemma_name_parts(a);
    lemma_name_parts(b);
    lemma_year_text(a.year);
    lemma_year_text(b.year);
    if a.year == b.year {
        text::lemma_order_reflexive(year_text(a.year));
        lemma_order_in_a_year(a, b);
        lemma_same_front(year_text(a.year), behind_year(a), behind_year(b));
    } else if in_order(year_text(a.year), year_text(b.year)) {
        lemma_order_extends(year_text(a.year), year_text(b.year), behind_year(a), behind_year(b));
    } else {
        lemma_order_stays(year_text(a.year), year_text(b.year), behind_year(a), behind_year(b));
    }
}

/// Of two archives of the years 0 to 9999 the name of the later sorts behind
/// that of the earlier.
pub proof fn law_later_archives_sort_later(a: CivilTime, b: CivilTime)
    requires
        a.valid(),
        b.valid(),
        a.unix_seconds() < b.unix_seconds(),
        0 <= a.year,
        b.year <= 9999,
    ensures
        in_order(a.archive_name(), b.archive_name()),
{
    lemma_seconds_order_fields(a, b);
    law_four_digit_years_sort(a.year, b.year);
    law_archives_sort_as_their_years(a, b);
}

/// Two digits at the front of a text, behind one character, tell their number
/// and what follows.
proof fn lemma_front_tells(c: char, n: int, m: int, x: Seq<char>, y: Seq<char>)
    requires
        0 <= n < 100,
        0 <= m < 100,
        seq![c] + (two_digits(n) + x) == seq![c] + (two_digits(m) + y),
    ensures
        n == m,
        x == y,
{
    let p = seq![c] + (two_digits(n) + x);
    let q = seq![c] + (two_digits(m) + y);
    assert(p[1] == digit(n / 10) && p[2] == digit(n % 10));
    assert(q[1] == digit(m / 10) && q[2] == digit(m % 10));
    assert(p.skip(3) == x);
    assert(q.skip(3) == y);
}

/// Archives begun in different seconds have different names.
pub proof fn law_names_tell_the_second(a: CivilTime, b: CivilTime)
    requires
        a.valid(),
        b.valid(),
        a.archive_name() == b.archive_name(),
    ensures
        a.unix_seconds() == b.unix_seconds(),
{
    lemma_name_parts(a);
    lemma_name_parts(b);
    lemma_year_text(a.year);
    lemma_year_text(b.year);
    let x = year_text(a.year);
    let y = year_text(b.year);
    if a.year != b.year {
        text::lemma_order_total(x, y);
        if in_order(x, y) {
            lemma_order_extends(x, y, behind_year(a), behind_year(b));
        } else {
            lemma_order_extends(y, x, behind_year(b), behind_year(a));
        }
    } else {
        let p = behind_year(a);
        let q = behind_year(b);
        assert(p == a.archive_name().skip(x.len() as int));
        assert(q == b.archive_name().skip(x.len() as int));
        let end = seq!['Z'] + ARCHIVE_SUFFIX@;
        let second_a = seq!['-'] + (two_digits(a.second) + end);
        let second_b = seq!['-'] + (two_digits(b.second) + end);
        let minute_a = seq!['-'] + (two_digits(a.minute) + second_a);
        let minute_b = seq!['-'] + (two_digits(b.minute) + second_b);
        lemma_front_tells(
            '-',
            a.month,
            b.month,
            seq!['-'] + (two_digits(a.day) + behind_day(a)),
            seq!['-'] + (two_digits(b.day) + behind_day(b)),
        );
        lemma_front_tells('-', a.day, b.day, behind_day(a), behind_day(b));
        lemma_front_tells('T', a.hour, b.hour, minute_a, minute_b);
        lemma_front_tells('-', a.minute, b.minute, second_a, second_b);
        lemma_front_tells('-', a.second, b.second, end, end);
    }
}

/// The name of an archive is not empty and holds no path separator.
pub proof fn law_archive_names_are_entries(t: CivilTime)
    requires
        t.valid(),
    ensures
        t.archive_name().len() > 0,
        !t.archive_name().contains('/'),
{
    reveal_strlit(".tar.xz");
    let n = if t.year < 0 {
        (-t.year) as nat
    } else {
        t.year as nat
    };
    lemma_digits(n, 4);
    let d = digits(n, 4);
    let y = year_text(t.year);
    assert forall|i: int| 0 <= i < y.len() implies y[i] != '/' by {
        if 0 <= t.year <= 9999 {
            assert(text::CharClass::Digit.has(d[i]));
        } else if i > 0 {
            assert(text::CharClass::Digit.has(d[i - 1]));
        }
    }
    lemma_name_parts(t);
    let rest = behind_year(t);
    assert(rest.len() == 23);
    assert(forall|i: int| 0 <= i < 16 ==> rest[i] != '/');
    assert forall|i: int| 16 <= i < 23 implies rest[i] != '/' by {
        assert(rest[i] == ARCHIVE_SUFFIX@[i - 16]);
    }
    assert forall|i: int| 0 <= i < t.archive_name().len() implies t.archive_name()[i] != '/' by {
        if i >= y.len() {
            assert(t.archive_name()[i] == rest[i - y.len()]);
        }
    }
}

/// A point in time: whole seconds since the start of 1970 and nanoseconds.
#[derive(Clone, Copy, Debug, PartialEq, Eq, Structural)]
pub struct Moment {
    pub seconds: i64,
    pub nanos: u32,
}

impl Moment {
    /// Whether the nanoseconds are less than a second.
    pub open spec fn valid(self) -> bool {
        self.nanos < 1_000_000_000
    }

    /// The nanoseconds since the start of 1970.
    pub open spec fn nanoseconds(self) -> int {
        self.seconds * 1_000_000_000 + self.nanos
    }
}

/// A length of time.
#[derive(Clone, Copy, Debug, PartialEq, Eq, Structural)]
pub struct Wait {
    pub seconds: u64,
    pub nanos: u32,
}

impl Wait {
    /// Whether the nanoseconds are less than a second.
    pub open spec fn valid(self) -> bool {
        self.nanos < 1_000_000_000
    }

    /// The length in nanoseconds.
    pub open spec fn nanoseconds(self) -> int {
        self.seconds * 1_000_000_000 + self.nanos
    }
}

/// Works out how long it is from `now` until `next`, unless `next` has passed.
pub fn wait_until(now: Moment, next: Moment) -> (wait: Option<Wait>)
    requires
        now.valid(),
        next.valid(),
    ensures
        wait is Some <==> now.nanoseconds() <= next.nanoseconds(),
        wait matches Some(w) ==> w.valid() && w.nanoseconds() == next.nanoseconds()
            - now.nanoseconds(),
{
    let seconds: i128 = next.seconds as i128 - now.seconds as i128;
    if next.nanos >= now.nanos {
        if seconds >= 0 {
            Some(Wait { seconds: seconds as u64, nanos: next.nanos - now.nanos })
        } else {
            None
        }
    } else if seconds >= 1 {
        Some(
            Wait {
                seconds: (seconds - 1) as u64,
                nanos: 1_000_000_000 - now.nanos + next.nanos,
            },
        )
    } else {
        None
    }
}

/// An archive is named after the second of the calendar in which it is begun: the
/// year in four digits, or more behind a sign, and the month, day, hour, minute
/// and second in two, as in `2026-01-31T23-59-58Z.tar.xz`.
pub proof fn law_an_archive_is_named_after_its_second(seconds: i64, name: String)
    requires
        call_ensures(archive_name, (seconds,), name),
    ensures
        exists|t: CivilTime|
            {
                &&& #[trigger] t.valid()
                &&& t.unix_seconds() == seconds
                &&& name@ == year_text(t.year) + seq!['-'] + two_digits(t.month) + seq!['-']
                    + two_digits(t.day) + seq!['T'] + two_digits(t.hour) + seq!['-'] + two_digits(
                    t.minute,
                ) + seq!['-'] + two_digits(t.second) + seq![
                    'Z',
                    '.',
                    't',
                    'a',
                    'r',
                    '.',
                    'x',
                    'z',
                ]
            },
{
    reveal_strlit(".tar.xz");
    let t = choose|t: CivilTime| #[trigger]
        t.valid() && t.unix_seconds() == seconds && name@ == t.archive_name();
    assert(t.valid());
    assert(name@ =~= year_text(t.year) + seq!['-'] + two_digits(t.month) + seq!['-'] + two_digits(
        t.day,
    ) + seq!['T'] + two_digits(t.hour) + seq!['-'] + two_digits(t.minute) + seq!['-']
        + two_digits(t.second) + seq!['Z', '.', 't', 'a', 'r', '.', 'x', 'z']);
}

/// The seconds are counted from the start of 1970: there the count is 0, within a
/// day it goes by hours, minutes and seconds, and from a day to the next it grows
/// by 86400, over the ends of months and years, with 29 days in February of the
/// years that 4 divides and 100 does not, and of those that 400 divides.
pub proof fn law_seconds_follow_the_calendar(t: CivilTime)
    requires
        t.valid(),
    ensures
        (CivilTime {
            year: 1970,
            month: 1,
            day: 1,
            hour: 0,
            minute: 0,
            second: 0,
        }).unix_seconds() == 0,
        t.unix_seconds() == (CivilTime { hour: 0, minute: 0, second: 0, ..t }).unix_seconds()
            + t.hour * 3600 + t.minute * 60 + t.second,
        ({
            let length: int = if t.month == 2 {
                if (t.year % 4 == 0 && t.year % 100 != 0) || t.year % 400 == 0 {
                    29
                } else {
                    28
                }
            } else if t.month == 4 || t.month == 6 || t.month == 9 || t.month == 11 {
                30
            } else {
                31
            };
            let next = if t.day < length {
                CivilTime { day: t.day + 1, ..t }
            } else if t.month < 12 {
                CivilTime { day: 1, month: t.month + 1, ..t }
            } else {
                CivilTime { day: 1, month: 1, year: t.year + 1, ..t }
            };
            next.valid() && next.unix_seconds() == t.unix_seconds() + 86400
        }),
{
    let next_year = CivilTime { day: 1, month: 1, year: t.year + 1, ..t };
    assert(days_before_month(1970, 1) == 0);
    assert(days_before_month(t.year + 1, 1) == 0);
    lemma_year_length(t.year);
    lemma_months_fill_year(t.year);
    assert(days_before_month(t.year, 13) == days_before_month(t.year, 12) + days_in_month(
        t.year,
        12,
    ));
    assert(days_before_month(t.year, t.month + 1) == days_before_month(t.year, t.month)
        + days_in_month(t.year, t.month));
}

/// The wait is as long as it is from `now` to `next`, and there is one exactly
/// where `next` is not before `now`.
pub proof fn law_a_wait_reaches_from_now_to_then(now: Moment, next: Moment, wait: Option<Wait>)
    requires
        now.nanos < 1_000_000_000,
        next.nanos < 1_000_000_000,
        call_ensures(wait_until, (now, next), wait),
    ensures
        wait is Some <==> now.seconds < next.seconds || (now.seconds == next.seconds && now.nanos
            <= next.nanos),
        wait matches Some(w) ==> w.nanos < 1_000_000_000 && (now.seconds + w.seconds)
            * 1_000_000_000 + now.nanos + w.nanos == next.seconds * 1_000_000_000 + next.nanos,
{
}

} // verus!
