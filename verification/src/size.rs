//! Sizes such as `10GiB` or `5mb`.

use vstd::prelude::*;
use vstd::string::StringExecFns;
use vstd::string::StrSliceExecFns;
use crate::text;
use crate::text::{
    all_digits, debug_quoted, decimal, leading, lower_char, lowered, trimmed, trimmed_end,
    trimmed_start, CharClass,
};

verus! {

/// How many bytes one of the unit called `unit`, in lower case, stands for.
pub open spec fn unit_bytes(unit: Seq<char>) -> Option<u64> {
    if unit == ""@ || unit == "b"@ {
        Some(1)
    } else if unit == "k"@ || unit == "kb"@ {
        Some(1_000)
    } else if unit == "m"@ || unit == "mb"@ {
        Some(1_000_000)
    } else if unit == "g"@ || unit == "gb"@ {
        Some(1_000_000_000)
    } else if unit == "t"@ || unit == "tb"@ {
        Some(1_000_000_000_000)
    } else if unit == "ki"@ || unit == "kib"@ {
        Some(1_024)
    } else if unit == "mi"@ || unit == "mib"@ {
        Some(1_048_576)
    } else if unit == "gi"@ || unit == "gib"@ {
        Some(1_073_741_824)
    } else if unit == "ti"@ || unit == "tib"@ {
        Some(1_099_511_627_776)
    } else {
        None
    }
}

/// The digits at the front of a size without surrounding white space.
pub open spec fn number_part(size: Seq<char>) -> Seq<char> {
    size.take(leading(size, CharClass::Digit) as int)
}

/// What follows the digits of a size, in lower case and without the white
/// space around it.
pub open spec fn unit_part(size: Seq<char>) -> Seq<char> {
    lowered(trimmed(size.skip(leading(size, CharClass::Digit) as int)))
}

/// The size that `value` writes in bytes, or the message that refuses it.
pub open spec fn size_of_text(value: Seq<char>) -> Result<u64, Seq<char>> {
    let size = trimmed(value);
    let number = number_part(size);
    let unit = unit_part(size);
    if size.len() == 0 {
        Err("size cannot be empty"@)
    } else if number.len() == 0 {
        Err("invalid size number: cannot parse integer from empty string"@)
    } else if decimal(number) > u64::MAX {
        Err("invalid size number: number too large to fit in target type"@)
    } else {
        match unit_bytes(unit) {
            None => Err("unsupported size unit "@ + debug_quoted(unit)),
            Some(bytes) => if decimal(number) * bytes > u64::MAX {
                Err("size is too large"@)
            } else {
                Ok((decimal(number) * bytes) as u64)
            },
        }
    }
}

/// The digits counted at the front of a text are digits.
pub proof fn lemma_leading_digits(s: Seq<char>)
    ensures
        leading(s, CharClass::Digit) <= s.len(),
        all_digits(s.take(leading(s, CharClass::Digit) as int)),
    decreases s.len(),
{
    if s.len() > 0 && CharClass::Digit.has(s[0]) {
        let rest = s.drop_first();
        lemma_leading_digits(rest);
        let n = leading(s, CharClass::Digit) as int;
        let front = s.take(n);
        assert forall|i: int| 0 <= i < front.len() implies CharClass::Digit.has(
            #[trigger] front[i],
        ) by {
            if i > 0 {
                assert(front[i] == rest.take(n - 1)[i - 1]);
            }
        }
    }
}

/// Finds how many bytes one of the unit called `unit`, in lower case, stands
/// for.
fn find_unit(unit: &str) -> (bytes: Option<u64>)
    ensures
        bytes == unit_bytes(unit@),
{
    if text::equal(unit, "") || text::equal(unit, "b") {
        Some(1)
    } else if text::equal(unit, "k") || text::equal(unit, "kb") {
        Some(1_000)
    } else if text::equal(unit, "m") || text::equal(unit, "mb") {
        Some(1_000_000)
    } else if text::equal(unit, "g") || text::equal(unit, "gb") {
        Some(1_000_000_000)
    } else if text::equal(unit, "t") || text::equal(unit, "tb") {
        Some(1_000_000_000_000)
    } else if text::equal(unit, "ki") || text::equal(unit, "kib") {
        Some(1_024)
    } else if text::equal(unit, "mi") || text::equal(unit, "mib") {
        Some(1_048_576)
    } else if text::equal(unit, "gi") || text::equal(unit, "gib") {
        Some(1_073_741_824)
    } else if text::equal(unit, "ti") || text::equal(unit, "tib") {
        Some(1_099_511_627_776)
    } else {
        None
    }
}

/// Reads a size: digits, then a unit in any case, with white space allowed
/// around either.
pub fn parse_size(value: &str) -> (r: Result<u64, String>)
    ensures
        match (r, size_of_text(value@)) {
            (Ok(n), Ok(m)) => n == m,
            (Err(message), Err(text)) => message@ == text,
            _ => false,
        },
{
    let size = text::trim(value);
    if size.is_empty() {
        return Err("size cannot be empty".to_owned());
    }
    let digits: usize = text::count_leading(size, CharClass::Digit);
    let number = size.substring_char(0, digits);
    let rest = size.substring_char(digits, size.unicode_len());
    proof {
        lemma_leading_digits(size@);
        assert(number@ == number_part(size@));
        assert(rest@ == size@.skip(digits as int));
    }
    if digits == 0 {
        return Err("invalid size number: cannot parse integer from empty string".to_owned());
    }
    let count: u64 = match text::read_decimal(number) {
        Some(count) => count,
        None => {
            return Err("invalid size number: number too large to fit in target type".to_owned());
        },
    };
    let unit = text::trim(rest).to_ascii_lowercase();
    match find_unit(unit.as_str()) {
        None => {
            let mut message = "unsupported size unit ".to_owned();
            message.append(text::quoted(unit.as_str()).as_str());
            Err(message)
        },
        Some(bytes) => match count.checked_mul(bytes) {
            Some(total) => Ok(total),
            None => Err("size is too large".to_owned()),
        },
    }
}

/// White space in front of a text does not change what is left of it without
/// white space in front.
proof fn lemma_space_in_front(space: Seq<char>, s: Seq<char>)
    requires
        forall|i: int| 0 <= i < space.len() ==> CharClass::WhiteSpace.has(#[trigger] space[i]),
    ensures
        trimmed_start(space + s, CharClass::WhiteSpace) == trimmed_start(s, CharClass::WhiteSpace),
    decreases space.len(),
{
    if space.len() == 0 {
        assert(space + s == s);
    } else {
        assert(CharClass::WhiteSpace.has(space[0]));
        assert((space + s).drop_first() == space.drop_first() + s);
        lemma_space_in_front(space.drop_first(), s);
    }
}

/// White space behind a text does not change what is left of it without white
/// space behind.
proof fn lemma_space_behind(s: Seq<char>, space: Seq<char>)
    requires
        forall|i: int| 0 <= i < space.len() ==> CharClass::WhiteSpace.has(#[trigger] space[i]),
    ensures
        trimmed_end(s + space, CharClass::WhiteSpace) == trimmed_end(s, CharClass::WhiteSpace),
    decreases space.len(),
{
    if space.len() == 0 {
        assert(s + space == s);
    } else {
        assert(CharClass::WhiteSpace.has(space.last()));
        assert((s + space).drop_last() == s + space.drop_last());
        lemma_space_behind(s, space.drop_last());
    }
}

/// White space behind a text does not change what is left of it without white
/// space at either end.
proof fn lemma_space_behind_trimmed(s: Seq<char>, space: Seq<char>)
    requires
        forall|i: int| 0 <= i < space.len() ==> CharClass::WhiteSpace.has(#[trigger] space[i]),
    ensures
        trimmed(s + space) == trimmed(s),
    decreases s.len(),
{
    if s.len() == 0 {
        assert(s + space == space);
        let none = Seq::<char>::empty();
        assert(space + none == space);
        lemma_space_in_front(space, none);
        assert(s == none);
    } else if CharClass::WhiteSpace.has(s[0]) {
        assert((s + space).drop_first() == s.drop_first() + space);
        lemma_space_behind_trimmed(s.drop_first(), space);
    } else {
        lemma_space_behind(s, space);
    }
}

/// White space around a size does not change what it means.
pub proof fn law_space_around_a_size(front: Seq<char>, value: Seq<char>, behind: Seq<char>)
    requires
        forall|i: int| 0 <= i < front.len() ==> CharClass::WhiteSpace.has(#[trigger] front[i]),
        forall|i: int| 0 <= i < behind.len() ==> CharClass::WhiteSpace.has(#[trigger] behind[i]),
    ensures
        size_of_text(front + value + behind) == size_of_text(value),
{
    assert(front + value + behind == front + (value + behind));
    lemma_space_in_front(front, value + behind);
    lemma_space_behind_trimmed(value, behind);
}

/// A change of case and trimming at the front can change places, and the
/// characters of a class at the front stay as many.
proof fn lemma_lowered_start(s: Seq<char>, class: CharClass)
    ensures
        trimmed_start(lowered(s), class) == lowered(trimmed_start(s, class)),
        leading(lowered(s), class) == leading(s, class),
    decreases s.len(),
{
    if s.len() > 0 {
        assert(lowered(s)[0] == lower_char(s[0]));
        assert(lowered(s).drop_first() == lowered(s.drop_first()));
        lemma_lowered_start(s.drop_first(), class);
    }
}

/// A change of case and trimming at the end can change places.
proof fn lemma_lowered_end(s: Seq<char>, class: CharClass)
    ensures
        trimmed_end(lowered(s), class) == lowered(trimmed_end(s, class)),
    decreases s.len(),
{
    if s.len() > 0 {
        assert(lowered(s).last() == lower_char(s.last()));
        assert(lowered(s).drop_last() == lowered(s.drop_last()));
        lemma_lowered_end(s.drop_last(), class);
    }
}

/// A change of case and trimming at both ends can change places.
proof fn lemma_lowered_trimmed(s: Seq<char>)
    ensures
        trimmed(lowered(s)) == lowered(trimmed(s)),
{
    lemma_lowered_start(s, CharClass::WhiteSpace);
    lemma_lowered_end(trimmed_start(s, CharClass::WhiteSpace), CharClass::WhiteSpace);
}

/// Lower-casing a second time changes nothing.
proof fn lemma_lowered_twice(s: Seq<char>)
    ensures
        lowered(lowered(s)) == lowered(s),
{
    assert forall|i: int| 0 <= i < s.len() implies lowered(lowered(s))[i] == lowered(s)[i] by {
        assert(lowered(s)[i] == lower_char(s[i]));
    }
    assert(lowered(lowered(s)) =~= lowered(s));
}

/// The case of the letters of a size does not change what it means.
pub proof fn law_case_of_a_size(value: Seq<char>)
    ensures
        size_of_text(lowered(value)) == size_of_text(value),
{
    lemma_lowered_trimmed(value);
    let size = trimmed(value);
    lemma_lowered_start(size, CharClass::Digit);
    let n = leading(size, CharClass::Digit) as int;
    lemma_leading_digits(size);
    assert(lowered(size).take(n) =~= size.take(n)) by {
        assert forall|i: int| 0 <= i < n implies lowered(size).take(n)[i] == size.take(n)[i] by {
            assert(CharClass::Digit.has(size.take(n)[i]));
        }
    }
    assert(lowered(size).skip(n) == lowered(size.skip(n)));
    lemma_lowered_trimmed(size.skip(n));
    lemma_lowered_twice(trimmed(size.skip(n)));
}

/// A text that begins and ends with characters that are not white space is
/// left whole.
proof fn lemma_nothing_to_trim(s: Seq<char>)
    requires
        s.len() > 0 ==> !CharClass::WhiteSpace.has(s[0]) && !CharClass::WhiteSpace.has(s.last()),
    ensures
        trimmed(s) == s,
{
}

/// The digits in front of what begins with no digit are counted exactly.
proof fn lemma_count_digits(digits: Seq<char>, rest: Seq<char>)
    requires
        all_digits(digits),
        rest.len() > 0 ==> !CharClass::Digit.has(rest[0]),
    ensures
        leading(digits + rest, CharClass::Digit) == digits.len(),
    decreases digits.len(),
{
    if digits.len() == 0 {
        assert(digits + rest == rest);
    } else {
        assert(CharClass::Digit.has(digits[0]));
        assert((digits + rest).drop_first() == digits.drop_first() + rest);
        assert forall|i: int| 0 <= i < digits.drop_first().len() implies CharClass::Digit.has(
            #[trigger] digits.drop_first()[i],
        ) by {
            assert(digits.drop_first()[i] == digits[i + 1]);
        }
        lemma_count_digits(digits.drop_first(), rest);
    }
}

/// The names of the units are made of letters.
proof fn lemma_units_are_letters(unit: Seq<char>)
    requires
        unit_bytes(unit) is Some,
    ensures
        forall|i: int| 0 <= i < unit.len() ==> 'a' <= #[trigger] unit[i] <= 'z',
{
    reveal_strlit("");
    reveal_strlit("b");
    reveal_strlit("k");
    reveal_strlit("kb");
    reveal_strlit("m");
    reveal_strlit("mb");
    reveal_strlit("g");
    reveal_strlit("gb");
    reveal_strlit("t");
    reveal_strlit("tb");
    reveal_strlit("ki");
    reveal_strlit("kib");
    reveal_strlit("mi");
    reveal_strlit("mib");
    reveal_strlit("gi");
    reveal_strlit("gib");
    reveal_strlit("ti");
    reveal_strlit("tib");
}

/// A number followed by the name of a unit, in any case, is that many of the
/// unit, as long as the product fits in 64 bits.
pub proof fn law_number_and_unit(digits: Seq<char>, unit: Seq<char>)
    requires
        digits.len() > 0,
        all_digits(digits),
        unit_bytes(lowered(unit)) is Some,
        decimal(digits) * unit_bytes(lowered(unit))->0 <= u64::MAX,
    ensures
        size_of_text(digits + unit) == Ok::<u64, Seq<char>>(
            (decimal(digits) * unit_bytes(lowered(unit))->0) as u64,
        ),
{
    let bytes = unit_bytes(lowered(unit))->0;
    lemma_units_are_letters(lowered(unit));
    assert forall|i: int| 0 <= i < unit.len() implies {
        ||| 'a' <= #[trigger] unit[i] <= 'z'
        ||| 'A' <= unit[i] <= 'Z'
    } by {
        assert(lowered(unit)[i] == lower_char(unit[i]));
    }
    let size = digits + unit;
    assert(CharClass::Digit.has(digits[0]));
    assert(CharClass::Digit.has(digits.last()));
    assert(size.last() == if unit.len() > 0 {
        unit.last()
    } else {
        digits.last()
    });
    lemma_nothing_to_trim(size);
    lemma_count_digits(digits, unit);
    assert(size.take(digits.len() as int) == digits);
    assert(size.skip(digits.len() as int) == unit);
    lemma_nothing_to_trim(unit);
    assert(decimal(digits) <= decimal(digits) * bytes) by (nonlinear_arith)
        requires
            bytes >= 1,
    ;
}

/// `base` multiplied with itself, `n` times in all.
pub open spec fn power(base: nat, n: nat) -> nat
    decreases n,
{
    if n == 0 {
        1
    } else {
        base * power(base, (n - 1) as nat)
    }
}

/// Which power the letter of a unit stands for: kilo, mega, giga and tera.
pub open spec fn rank(letter: char) -> nat {
    if letter == 'k' {
        1
    } else if letter == 'm' {
        2
    } else if letter == 'g' {
        3
    } else if letter == 't' {
        4
    } else {
        0
    }
}

/// Whether a unit in lower case stands for so many bytes: nothing and `b` for
/// one, a letter with or without `b` for a power of 1000, and a letter with `i`
/// or `ib` for a power of 1024.
pub open spec fn stands_for(unit: Seq<char>, bytes: nat) -> bool {
    if unit.len() == 0 || unit == seq!['b'] {
        bytes == 1
    } else {
        let letter = unit[0];
        &&& rank(letter) > 0
        &&& if unit == seq![letter] || unit == seq![letter, 'b'] {
            bytes == power(1000, rank(letter))
        } else {
            &&& unit == seq![letter, 'i'] || unit == seq![letter, 'i', 'b']
            &&& bytes == power(1024, rank(letter))
        }
    }
}

/// The units stand for what their names say.
proof fn lemma_units(unit: Seq<char>, bytes: nat)
    ensures
        stands_for(unit, bytes) <==> (unit_bytes(unit) matches Some(b) && b == bytes),
{
    reveal_strlit("");
    reveal_strlit("b");
    reveal_strlit("k");
    reveal_strlit("kb");
    reveal_strlit("m");
    reveal_strlit("mb");
    reveal_strlit("g");
    reveal_strlit("gb");
    reveal_strlit("t");
    reveal_strlit("tb");
    reveal_strlit("ki");
    reveal_strlit("kib");
    reveal_strlit("mi");
    reveal_strlit("mib");
    reveal_strlit("gi");
    reveal_strlit("gib");
    reveal_strlit("ti");
    reveal_strlit("tib");
    reveal_with_fuel(power, 5);
    assert(""@ =~= Seq::<char>::empty());
    assert("b"@ =~= seq!['b']);
    assert("k"@ =~= seq!['k']);
    assert("kb"@ =~= seq!['k', 'b']);
    assert("m"@ =~= seq!['m']);
    assert("mb"@ =~= seq!['m', 'b']);
    assert("g"@ =~= seq!['g']);
    assert("gb"@ =~= seq!['g', 'b']);
    assert("t"@ =~= seq!['t']);
    assert("tb"@ =~= seq!['t', 'b']);
    assert("ki"@ =~= seq!['k', 'i']);
    assert("kib"@ =~= seq!['k', 'i', 'b']);
    assert("mi"@ =~= seq!['m', 'i']);
    assert("mib"@ =~= seq!['m', 'i', 'b']);
    assert("gi"@ =~= seq!['g', 'i']);
    assert("gib"@ =~= seq!['g', 'i', 'b']);
    assert("ti"@ =~= seq!['t', 'i']);
    assert("tib"@ =~= seq!['t', 'i', 'b']);
    if unit.len() == 0 {
        assert(unit =~= Seq::<char>::empty());
    }
}

/// Whether every character of a text is white space.
pub open spec fn is_space(s: Seq<char>) -> bool {
    forall|i: int| 0 <= i < s.len() ==> CharClass::WhiteSpace.has(#[trigger] s[i])
}

/// The value of digits: each digit counts ten times what the one behind it does.
pub proof fn law_digits_count_in_tens(digits: Seq<char>, digit: char)
    requires
        '0' <= digit <= '9',
    ensures
        decimal(Seq::<char>::empty()) == 0,
        decimal(digits.push(digit)) == 10 * decimal(digits) + (digit as nat - '0' as nat),
{
    assert(digits.push(digit).drop_last() =~= digits);
}

/// Whether a text consists of these parts: digits and a unit with white space
/// between and around them, the unit being all that follows the digits.
pub open spec fn has_parts(
    value: Seq<char>,
    front: Seq<char>,
    digits: Seq<char>,
    gap: Seq<char>,
    unit: Seq<char>,
    behind: Seq<char>,
) -> bool {
    &&& value == front + (digits + (gap + unit)) + behind
    &&& is_space(front) && is_space(gap) && is_space(behind)
    &&& forall|i: int| 0 <= i < digits.len() ==> '0' <= #[trigger] digits[i] <= '9'
    &&& unit.len() > 0 ==> !CharClass::WhiteSpace.has(unit[0]) && !CharClass::WhiteSpace.has(
        unit.last(),
    )
    &&& unit.len() > 0 && gap.len() == 0 ==> !('0' <= unit[0] <= '9')
    &&& digits.len() == 0 || unit.len() == 0 ==> gap.len() == 0
}

/// A size is read by its parts: the number of units that the digits write, times
/// what the unit stands for in any case. It is refused where there is nothing,
/// where there are no digits, where the number or the product exceeds 64 bits, and
/// where the unit stands for nothing.
pub proof fn law_sizes_are_read_by_their_parts(
    value: &str,
    front: Seq<char>,
    digits: Seq<char>,
    gap: Seq<char>,
    unit: Seq<char>,
    behind: Seq<char>,
    bytes: nat,
    r: Result<u64, String>,
)
    requires
        call_ensures(parse_size, (value,), r),
        has_parts(value@, front, digits, gap, unit, behind),
    ensures
        if digits.len() == 0 && unit.len() == 0 {
            r matches Err(e) && e@ == "size cannot be empty"@
        } else if digits.len() == 0 {
            r matches Err(e) && e@
                == "invalid size number: cannot parse integer from empty string"@
        } else if decimal(digits) > u64::MAX {
            r matches Err(e) && e@
                == "invalid size number: number too large to fit in target type"@
        } else if stands_for(lowered(unit), bytes) {
            if decimal(digits) * bytes > u64::MAX {
                r matches Err(e) && e@ == "size is too large"@
            } else {
                r matches Ok(n) && n == decimal(digits) * bytes
            }
        } else {
            (forall|b: nat| !stands_for(lowered(unit), b)) ==> (r matches Err(e) && e@
                == "unsupported size unit "@ + debug_quoted(lowered(unit)))
        },
{
    let core = digits + (gap + unit);
    assert(front + core + behind == value@);
    law_space_around_a_size(front, core, behind);
    assert(all_digits(digits)) by {
        assert forall|i: int| 0 <= i < digits.len() implies CharClass::Digit.has(
            #[trigger] digits[i],
        ) by {}
    }
    if digits.len() > 0 {
        assert(CharClass::Digit.has(digits[0]));
        assert(CharClass::Digit.has(digits.last()));
        assert(core[0] == digits[0]);
        assert(core.last() == if unit.len() > 0 {
            unit.last()
        } else {
            digits.last()
        });
    } else if unit.len() > 0 {
        assert(core =~= unit);
    }
    lemma_nothing_to_trim(core);
    let rest = gap + unit;
    if rest.len() > 0 {
        if gap.len() > 0 {
            assert(CharClass::WhiteSpace.has(gap[0]));
            assert(rest[0] == gap[0]);
        } else {
            assert(rest =~= unit);
        }
    }
    lemma_count_digits(digits, rest);
    let n = digits.len() as int;
    assert(core.take(n) =~= digits);
    assert(core.skip(n) =~= rest);
    if unit.len() > 0 {
        lemma_space_in_front(gap, unit);
        lemma_nothing_to_trim(unit);
        assert(trimmed_start(unit, CharClass::WhiteSpace) == unit);
        assert(trimmed(rest) == unit);
    } else {
        assert(rest =~= unit);
        assert(trimmed(rest) == unit);
    }
    lemma_units(lowered(unit), bytes);
    if let Some(b) = unit_bytes(lowered(unit)) {
        lemma_units(lowered(unit), b as nat);
    }
}

/// Every text has such parts.
pub proof fn law_every_text_has_parts(value: Seq<char>)
    ensures
        exists|
            front: Seq<char>,
            digits: Seq<char>,
            gap: Seq<char>,
            unit: Seq<char>,
            behind: Seq<char>,
        | #[trigger] has_parts(value, front, digits, gap, unit, behind),
{
    let class = CharClass::WhiteSpace;
    let m = trimmed_start(value, class);
    let core = trimmed_end(m, class);
    text::lemma_trimmed_start(value, class);
    text::lemma_trimmed_end(m, class);
    let front = value.take(value.len() - m.len());
    let behind = m.skip(core.len() as int);
    lemma_leading_digits(core);
    let n = leading(core, CharClass::Digit) as int;
    lemma_leading_stops(core);
    let digits = core.take(n);
    let rest = core.skip(n);
    let (gap, unit) = if n == 0 {
        (Seq::<char>::empty(), rest)
    } else {
        let unit = trimmed_start(rest, class);
        (rest.take(rest.len() - unit.len()), unit)
    };
    text::lemma_trimmed_start(rest, class);
    assert(rest =~= gap + unit);
    assert(core =~= digits + (gap + unit));
    assert(m =~= core + behind);
    assert(value =~= front + (digits + (gap + unit)) + behind);
    assert(is_space(front));
    assert(is_space(behind)) by {
        assert forall|i: int| 0 <= i < behind.len() implies class.has(#[trigger] behind[i]) by {
            assert(behind[i] == m[core.len() + i]);
        }
    }
    assert(is_space(gap));
    assert forall|i: int| 0 <= i < digits.len() implies '0' <= #[trigger] digits[i] <= '9' by {
        assert(CharClass::Digit.has(digits[i]));
    }
    if unit.len() > 0 {
        assert(unit.last() == core.last());
        if n == 0 {
            assert(core[0] == m[0]);
            assert(unit[0] == core[0]);
        } else if gap.len() == 0 {
            assert(unit[0] == core[n]);
        }
    } else if gap.len() > 0 {
        assert(gap.last() == core.last());
        assert(class.has(gap[gap.len() - 1]));
    }
    assert(has_parts(value, front, digits, gap, unit, behind));
}

/// Behind the digits at the front of a text there is no digit.
proof fn lemma_leading_stops(s: Seq<char>)
    ensures
        leading(s, CharClass::Digit) < s.len() ==> !CharClass::Digit.has(
            s[leading(s, CharClass::Digit) as int],
        ),
    decreases s.len(),
{
    if s.len() > 0 && CharClass::Digit.has(s[0]) {
        lemma_leading_stops(s.drop_first());
        lemma_leading_digits(s.drop_first());
    }
}

} // verus!
