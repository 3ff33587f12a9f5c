//! Text as a sequence of characters: classes of characters, trimming,
//! splitting, decimal numbers and the order of names.

use vstd::prelude::*;
use vstd::string::StrSliceExecFns;

verus! {

/// Classes of characters that text is trimmed or split by.
#[derive(Clone, Copy, Debug, PartialEq, Eq, Structural)]
pub enum CharClass {
    /// The characters with the Unicode property `White_Space`.
    WhiteSpace,
    /// The path separator `/`.
    Slash,
    /// Carriage return and line feed.
    LineEnd,
    /// The ASCII digits.
    Digit,
}

impl CharClass {
    /// Whether `c` belongs to the class.
    pub open spec fn has(self, c: char) -> bool {
        match self {
            CharClass::WhiteSpace => {
                ||| '\u{9}' <= c <= '\u{d}'
                ||| c == ' '
                ||| c == '\u{85}'
                ||| c == '\u{a0}'
                ||| c == '\u{1680}'
                ||| '\u{2000}' <= c <= '\u{200a}'
                ||| c == '\u{2028}'
                ||| c == '\u{2029}'
                ||| c == '\u{202f}'
                ||| c == '\u{205f}'
                ||| c == '\u{3000}'
            },
            CharClass::Slash => c == '/',
            CharClass::LineEnd => c == '\r' || c == '\n',
            CharClass::Digit => '0' <= c <= '9',
        }
    }

    /// Tells whether `c` belongs to the class.
    pub fn contains(self, c: char) -> (b: bool)
        ensures
            b == self.has(c),
    {
        match self {
            CharClass::WhiteSpace => {
                ('\u{9}' <= c && c <= '\u{d}') || c == ' ' || c == '\u{85}' || c == '\u{a0}' || c
                    == '\u{1680}' || ('\u{2000}' <= c && c <= '\u{200a}') || c == '\u{2028}' || c
                    == '\u{2029}' || c == '\u{202f}' || c == '\u{205f}' || c == '\u{3000}'
            },
            CharClass::Slash => c == '/',
            CharClass::LineEnd => c == '\r' || c == '\n',
            CharClass::Digit => '0' <= c && c <= '9',
        }
    }
}

/// `s` without its leading characters of `class`.
pub open spec fn trimmed_start(s: Seq<char>, class: CharClass) -> Seq<char>
    decreases s.len(),
{
    if s.len() > 0 && class.has(s[0]) {
        trimmed_start(s.drop_first(), class)
    } else {
        s
    }
}

/// `s` without its trailing characters of `class`.
pub open spec fn trimmed_end(s: Seq<char>, class: CharClass) -> Seq<char>
    decreases s.len(),
{
    if s.len() > 0 && class.has(s.last()) {
        trimmed_end(s.drop_last(), class)
    } else {
        s
    }
}

/// `s` without white space at either end.
pub open spec fn trimmed(s: Seq<char>) -> Seq<char> {
    trimmed_end(trimmed_start(s, CharClass::WhiteSpace), CharClass::WhiteSpace)
}

/// How many characters of `class` stand at the front of `s`.
pub open spec fn leading(s: Seq<char>, class: CharClass) -> nat
    decreases s.len(),
{
    if s.len() > 0 && class.has(s[0]) {
        1 + leading(s.drop_first(), class)
    } else {
        0
    }
}

/// The texts that strings hold.
pub open spec fn texts(strings: Seq<String>) -> Seq<Seq<char>> {
    strings.map_values(|s: String| s@)
}

/// The text that an optional string holds.
pub open spec fn optional_text(s: Option<String>) -> Option<Seq<char>> {
    match s {
        Some(s) => Some(s@),
        None => None,
    }
}

/// Collects the characters of `s`.
pub fn characters(s: &str) -> (v: Vec<char>)
    ensures
        v@ == s@,
{
    let mut v: Vec<char> = Vec::new();
    for c in it: s.chars()
        invariant
            v@ == s@.take(it.index() as int),
            it.seq() == s@,
    {
        v.push(c);
    }
    v
}

/// Trims the leading characters of `class` off `s`.
pub fn trim_start(s: &str, class: CharClass) -> (t: &str)
    ensures
        t@ == trimmed_start(s@, class),
{
    let v = characters(s);
    let mut i: usize = 0;
    assert(s@.skip(0) == s@);
    while i < v.len() && class.contains(v[i])
        invariant
            i <= v.len(),
            v@ == s@,
            trimmed_start(s@, class) == trimmed_start(s@.skip(i as int), class),
        decreases v.len() - i,
    {
        assert(s@.skip(i as int).drop_first() == s@.skip(i + 1));
        i = i + 1;
    }
    assert(s@.skip(i as int) == s@.subrange(i as int, s@.len() as int));
    s.substring_char(i, v.len())
}

/// Trims the trailing characters of `class` off `s`.
pub fn trim_end(s: &str, class: CharClass) -> (t: &str)
    ensures
        t@ == trimmed_end(s@, class),
{
    let v = characters(s);
    let mut i: usize = v.len();
    assert(s@.take(i as int) == s@);
    while i > 0 && class.contains(v[i - 1])
        invariant
            i <= v.len(),
            v@ == s@,
            trimmed_end(s@, class) == trimmed_end(s@.take(i as int), class),
        decreases i,
    {
        assert(s@.take(i as int).drop_last() == s@.take(i - 1));
        i = i - 1;
    }
    assert(s@.take(i as int) == s@.subrange(0, i as int));
    s.substring_char(0, i)
}

/// Trims white space off both ends of `s`.
pub fn trim(s: &str) -> (t: &str)
    ensures
        t@ == trimmed(s@),
{
    trim_end(trim_start(s, CharClass::WhiteSpace), CharClass::WhiteSpace)
}

/// Counts the characters of `class` at the front of `s`.
pub fn count_leading(s: &str, class: CharClass) -> (n: usize)
    ensures
        n == leading(s@, class),
        n <= s@.len(),
{
    let v = characters(s);
    let mut i: usize = 0;
    assert(s@.skip(0) == s@);
    while i < v.len() && class.contains(v[i])
        invariant
            i <= v.len(),
            v@ == s@,
            leading(s@, class) == i + leading(s@.skip(i as int), class),
        decreases v.len() - i,
    {
        assert(s@.skip(i as int).drop_first() == s@.skip(i + 1));
        i = i + 1;
    }
    i
}

/// Tells whether two texts are the same.
pub fn equal(a: &str, b: &str) -> (e: bool)
    ensures
        e == (a@ == b@),
{
    let x = characters(a);
    let y = characters(b);
    if x.len() != y.len() {
        return false;
    }
    let mut i: usize = 0;
    while i < x.len()
        invariant
            i <= x.len(),
            x.len() == y.len(),
            x@ == a@,
            y@ == b@,
            forall|j: int| 0 <= j < i ==> a@[j] == b@[j],
        decreases x.len() - i,
    {
        if x[i] != y[i] {
            return false;
        }
        i = i + 1;
    }
    assert(a@ =~= b@);
    true
}

/// Tells whether `c` occurs in `s`.
pub fn has_char(s: &str, c: char) -> (b: bool)
    ensures
        b == s@.contains(c),
{
    let v = characters(s);
    let mut i: usize = 0;
    while i < v.len()
        invariant
            i <= v.len(),
            v@ == s@,
            forall|j: int| 0 <= j < i ==> s@[j] != c,
        decreases v.len() - i,
    {
        if v[i] == c {
            return true;
        }
        i = i + 1;
    }
    false
}

/// Whether `s` ends with `suffix`.
pub open spec fn ends_with(s: Seq<char>, suffix: Seq<char>) -> bool {
    s.len() >= suffix.len() && s.skip(s.len() - suffix.len()) == suffix
}

/// Tells whether `s` ends with `suffix`.
pub fn has_suffix(s: &str, suffix: &str) -> (b: bool)
    ensures
        b == ends_with(s@, suffix@),
{
    let n: usize = s.unicode_len();
    let m: usize = suffix.unicode_len();
    if n < m {
        return false;
    }
    assert(s@.skip(n - m) == s@.subrange(n - m, n as int));
    equal(s.substring_char(n - m, n), suffix)
}

/// The longest runs of characters outside `class`, from left to right.
pub open spec fn pieces(s: Seq<char>, class: CharClass) -> Seq<Seq<char>>
    decreases s.len(),
{
    if s.len() == 0 {
        Seq::empty()
    } else {
        let before = pieces(s.drop_last(), class);
        let c = s.last();
        if class.has(c) {
            before
        } else if s.len() == 1 || class.has(s[s.len() - 2]) {
            before.push(seq![c])
        } else {
            before.drop_last().push(before.last().push(c))
        }
    }
}

/// Whether `s` can be a piece of a text: it is not empty and holds no character
/// of `class`.
pub open spec fn is_piece(s: Seq<char>, class: CharClass) -> bool {
    s.len() > 0 && forall|i: int| 0 <= i < s.len() ==> !class.has(#[trigger] s[i])
}

/// Every piece of a text is one, and a text that ends outside `class` ends in a
/// piece.
pub proof fn lemma_pieces(s: Seq<char>, class: CharClass)
    ensures
        forall|i: int|
            0 <= i < pieces(s, class).len() ==> is_piece(#[trigger] pieces(s, class)[i], class),
        s.len() > 0 && !class.has(s.last()) ==> pieces(s, class).len() > 0,
    decreases s.len(),
{
    if s.len() > 0 {
        let t = s.drop_last();
        lemma_pieces(t, class);
        let before = pieces(t, class);
        if !class.has(s.last()) && s.len() > 1 && !class.has(s[s.len() - 2]) {
            assert(t.last() == s[s.len() - 2]);
            assert(is_piece(before[before.len() - 1], class));
            assert(is_piece(before.last().push(s.last()), class));
        }
    }
}

/// The piece of a text that reaches its end, if the text ends in a piece.
pub proof fn lemma_last_piece(s: Seq<char>, start: int, class: CharClass)
    requires
        0 <= start < s.len(),
        start == 0 || class.has(s[start - 1]),
        forall|j: int| start <= j < s.len() ==> !class.has(s[j]),
    ensures
        pieces(s, class) == pieces(s.take(start), class).push(s.skip(start)),
    decreases s.len(),
{
    if start == s.len() - 1 {
        assert(s.take(start) == s.drop_last());
        assert(s.skip(start) == seq![s.last()]);
    } else {
        let t = s.drop_last();
        lemma_last_piece(t, start, class);
        assert(t.take(start) == s.take(start));
        assert(!class.has(s[s.len() - 2]));
        let before = pieces(t, class);
        assert(before.drop_last() == pieces(s.take(start), class));
        assert(before.last().push(s.last()) == s.skip(start));
    }
}

/// Splits `s` into its pieces outside `class`.
pub fn split(s: &str, class: CharClass) -> (parts: Vec<String>)
    ensures
        parts@.len() == pieces(s@, class).len(),
        forall|i: int|
            0 <= i < parts@.len() ==> (#[trigger] parts@[i])@ == pieces(s@, class)[i],
{
    let v = characters(s);
    let n: usize = v.len();
    let mut parts: Vec<String> = Vec::new();
    let mut i: usize = 0;
    assert(s@.take(0) == Seq::<char>::empty());
    while i < n
        invariant
            i <= n,
            n == v@.len(),
            v@ == s@,
            i == 0 || i == n || class.has(s@[i - 1]),
            parts@.len() == pieces(s@.take(i as int), class).len(),
            forall|k: int|
                0 <= k < parts@.len() ==> (#[trigger] parts@[k])@ == pieces(
                    s@.take(i as int),
                    class,
                )[k],
        decreases n - i,
    {
        if class.contains(v[i]) {
            assert(s@.take(i + 1).drop_last() == s@.take(i as int));
            i = i + 1;
        } else {
            let start: usize = i;
            while i < n && !class.contains(v[i])
                invariant
                    start <= i <= n,
                    n == v@.len(),
                    v@ == s@,
                    forall|j: int| start <= j < i ==> !class.has(s@[j]),
                decreases n - i,
            {
                i = i + 1;
            }
            let part = s.substring_char(start, i);
            proof {
                let t = s@.take(i as int);
                lemma_last_piece(t, start as int, class);
                assert(t.take(start as int) == s@.take(start as int));
                assert(t.skip(start as int) == s@.subrange(start as int, i as int));
            }
            parts.push(part.to_owned());
            if i < n {
                assert(s@.take(i + 1).drop_last() == s@.take(i as int));
                i = i + 1;
            }
        }
    }
    assert(s@.take(n as int) == s@);
    parts
}

/// The number that the digits `s` write in base ten.
pub open spec fn decimal(s: Seq<char>) -> nat
    decreases s.len(),
{
    if s.len() == 0 {
        0
    } else {
        10 * decimal(s.drop_last()) + (s.last() as nat - '0' as nat) as nat
    }
}

/// Whether every character of `s` is an ASCII digit.
pub open spec fn all_digits(s: Seq<char>) -> bool {
    forall|i: int| 0 <= i < s.len() ==> CharClass::Digit.has(#[trigger] s[i])
}

/// More digits never make the number smaller.
proof fn lemma_decimal_grows(s: Seq<char>, n: int)
    requires
        0 <= n <= s.len(),
        all_digits(s),
    ensures
        decimal(s.take(n)) <= decimal(s),
    decreases s.len(),
{
    if n == s.len() {
        assert(s.take(n) == s);
    } else {
        let t = s.drop_last();
        assert(all_digits(t));
        lemma_decimal_grows(t, n);
        assert(t.take(n) == s.take(n));
    }
}

/// Reads the digits `s` as a number, unless it exceeds 64 bits.
pub fn read_decimal(s: &str) -> (value: Option<u64>)
    requires
        all_digits(s@),
    ensures
        value matches Some(n) ==> n == decimal(s@),
        value is None <==> decimal(s@) > u64::MAX,
{
    let v = characters(s);
    let mut n: u64 = 0;
    let mut i: usize = 0;
    while i < v.len()
        invariant
            i <= v.len(),
            v@ == s@,
            all_digits(s@),
            n == decimal(s@.take(i as int)),
        decreases v.len() - i,
    {
        let digit: u64 = v[i] as u64 - '0' as u64;
        proof {
            assert(CharClass::Digit.has(s@[i as int]));
            assert(s@.take(i + 1).drop_last() == s@.take(i as int));
            assert(s@.take(i + 1).last() == s@[i as int]);
            lemma_decimal_grows(s@, i + 1);
        }
        match n.checked_mul(10) {
            Some(tens) => match tens.checked_add(digit) {
                Some(sum) => {
                    n = sum;
                },
                None => {
                    return None;
                },
            },
            None => {
                return None;
            },
        }
        i = i + 1;
    }
    assert(s@.take(i as int) == s@);
    Some(n)
}

/// `c` with the letters `A` to `Z` in lower case.
pub open spec fn lower_char(c: char) -> char {
    if 'A' <= c <= 'Z' {
        (c as u32 + 32) as char
    } else {
        c
    }
}

/// `s` with the letters `A` to `Z` in lower case.
pub open spec fn lowered(s: Seq<char>) -> Seq<char> {
    s.map_values(|c: char| lower_char(c))
}

/// `str::to_ascii_lowercase` maps the letters `A` to `Z` to `a` to `z` and
/// leaves every other character as it is.
pub assume_specification[ str::to_ascii_lowercase ](s: &str) -> (t: String)
    ensures
        t@ == lowered(s@),
;

/// What the `Debug` format writes for a text: the text in double quotes, with
/// the characters that need it escaped.
pub uninterp spec fn debug_quoted(s: Seq<char>) -> Seq<char>;

/// The `Debug` format of `str`. Nothing is claimed of it but that the output
/// depends on the text alone.
#[verifier::external_body]
pub(crate) fn quoted(s: &str) -> (t: String)
    ensures
        t@ == debug_quoted(s@),
{
    format!("{s:?}")
}

/// Whether `a` stands before `b`, or is the same, in the order of names:
/// the first character that differs decides by its code point, and a prefix
/// stands before what it begins.
pub open spec fn in_order(a: Seq<char>, b: Seq<char>) -> bool
    decreases a.len(),
{
    if a.len() == 0 {
        true
    } else if b.len() == 0 {
        false
    } else if a[0] != b[0] {
        a[0] < b[0]
    } else {
        in_order(a.drop_first(), b.drop_first())
    }
}

/// Every name stands in order with itself.
pub proof fn lemma_order_reflexive(a: Seq<char>)
    ensures
        in_order(a, a),
    decreases a.len(),
{
    if a.len() > 0 {
        lemma_order_reflexive(a.drop_first());
    }
}

/// Of two names one stands before the other.
pub proof fn lemma_order_total(a: Seq<char>, b: Seq<char>)
    ensures
        in_order(a, b) || in_order(b, a),
    decreases a.len(),
{
    if a.len() > 0 && b.len() > 0 && a[0] == b[0] {
        lemma_order_total(a.drop_first(), b.drop_first());
    }
}

/// The order of names is transitive.
pub proof fn lemma_order_transitive(a: Seq<char>, b: Seq<char>, c: Seq<char>)
    requires
        in_order(a, b),
        in_order(b, c),
    ensures
        in_order(a, c),
    decreases a.len(),
{
    if a.len() > 0 && b.len() > 0 && c.len() > 0 && a[0] == b[0] && b[0] == c[0] {
        lemma_order_transitive(a.drop_first(), b.drop_first(), c.drop_first());
    }
}

/// Two names that stand before each other are the same.
pub proof fn lemma_order_antisymmetric(a: Seq<char>, b: Seq<char>)
    requires
        in_order(a, b),
        in_order(b, a),
    ensures
        a == b,
    decreases a.len(),
{
    if a.len() > 0 && b.len() > 0 {
        lemma_order_antisymmetric(a.drop_first(), b.drop_first());
        assert(a == seq![a[0]] + a.drop_first());
        assert(b == seq![b[0]] + b.drop_first());
    } else {
        assert(a == b);
    }
}

/// Tells whether `a` stands before `b`, or is the same.
pub fn ordered(a: &str, b: &str) -> (r: bool)
    ensures
        r == in_order(a@, b@),
{
    let x = characters(a);
    let y = characters(b);
    let mut i: usize = 0;
    assert(a@.skip(0) == a@);
    assert(b@.skip(0) == b@);
    while i < x.len() && i < y.len()
        invariant
            i <= x.len(),
            i <= y.len(),
            x@ == a@,
            y@ == b@,
            in_order(a@, b@) == in_order(a@.skip(i as int), b@.skip(i as int)),
        decreases x.len() - i,
    {
        if x[i] != y[i] {
            return x[i] < y[i];
        }
        assert(a@.skip(i as int).drop_first() == a@.skip(i + 1));
        assert(b@.skip(i as int).drop_first() == b@.skip(i + 1));
        i = i + 1;
    }
    i == x.len()
}

/// What the order of names means: up to some place the two are the same, and
/// there the first ends or has the character with the smaller code point.
pub proof fn lemma_order_meaning(a: Seq<char>, b: Seq<char>)
    ensures
        in_order(a, b) <==> exists|i: int|
            {
                &&& 0 <= i <= a.len()
                &&& i <= b.len()
                &&& #[trigger] a.take(i) == b.take(i)
                &&& i == a.len() || (i < b.len() && a[i] < b[i])
            },
    decreases a.len(),
{
    if a.len() == 0 {
        assert(a.take(0) =~= b.take(0));
    } else if b.len() == 0 {
    } else if a[0] != b[0] {
        if a[0] < b[0] {
            assert(a.take(0) =~= b.take(0));
        }
        assert forall|i: int|
            0 <= i <= a.len() && i <= b.len() && #[trigger] a.take(i) == b.take(i) implies i
            == 0 by {
            if i > 0 {
                assert(a.take(i)[0] == b.take(i)[0]);
            }
        }
    } else {
        let x = a.drop_first();
        let y = b.drop_first();
        lemma_order_meaning(x, y);
        if in_order(x, y) {
            let i = choose|i: int|
                {
                    &&& 0 <= i <= x.len()
                    &&& i <= y.len()
                    &&& #[trigger] x.take(i) == y.take(i)
                    &&& i == x.len() || (i < y.len() && x[i] < y[i])
                };
            assert forall|k: int| 0 <= k < i + 1 implies a[k] == b[k] by {
                if k > 0 {
                    assert(x.take(i)[k - 1] == y.take(i)[k - 1]);
                }
            }
            assert(a.take(i + 1) =~= b.take(i + 1));
        }
        assert forall|i: int|
            {
                &&& 0 <= i <= a.len()
                &&& i <= b.len()
                &&& #[trigger] a.take(i) == b.take(i)
                &&& i == a.len() || (i < b.len() && a[i] < b[i])
            } implies in_order(x, y) by {
            assert(i > 0);
            assert forall|k: int| 0 <= k < i - 1 implies x[k] == y[k] by {
                assert(a.take(i)[k + 1] == b.take(i)[k + 1]);
            }
            assert(x.take(i - 1) =~= y.take(i - 1));
        }
    }
}

/// Names are in order exactly if, where they first differ, the first of them ends
/// or has the character with the smaller code point.
pub proof fn law_names_are_ordered_by_their_characters(a: &str, b: &str, r: bool)
    requires
        call_ensures(ordered, (a, b), r),
    ensures
        r <==> exists|i: int|
            {
                &&& 0 <= i <= a@.len()
                &&& i <= b@.len()
                &&& #[trigger] a@.take(i) == b@.take(i)
                &&& i == a@.len() || (i < b@.len() && a@[i] < b@[i])
            },
{
    lemma_order_meaning(a@, b@);
}

/// Whether `parts` are what lies between the separators of a text, from left to
/// right: each stands where `starts` says, holds no separator, has a separator or
/// an end of the text on either side, and nothing but separators is left out.
pub open spec fn is_split(
    s: Seq<char>,
    parts: Seq<Seq<char>>,
    starts: Seq<int>,
    separates: spec_fn(char) -> bool,
) -> bool {
    &&& starts.len() == parts.len()
    &&& forall|k: int|
        0 <= k < parts.len() ==> {
            &&& (#[trigger] parts[k]).len() > 0
            &&& 0 <= starts[k]
            &&& starts[k] + parts[k].len() <= s.len()
            &&& parts[k] == s.subrange(starts[k], starts[k] + parts[k].len())
            &&& starts[k] > 0 ==> separates(s[starts[k] - 1])
            &&& starts[k] + parts[k].len() < s.len() ==> separates(s[starts[k] + parts[k].len()])
            &&& forall|i: int| 0 <= i < parts[k].len() ==> !separates(#[trigger] parts[k][i])
        }
    &&& forall|k: int|
        0 <= k < parts.len() - 1 ==> starts[k] + (#[trigger] parts[k]).len() < starts[k + 1]
    &&& forall|i: int|
        0 <= i < s.len() && !separates(#[trigger] s[i]) ==> exists|k: int|
            0 <= k < parts.len() && starts[k] <= i < starts[k] + (#[trigger] parts[k]).len()
}

/// Where the pieces of a text begin.
pub open spec fn piece_starts(s: Seq<char>, class: CharClass) -> Seq<int>
    decreases s.len(),
{
    if s.len() == 0 {
        Seq::empty()
    } else {
        let before = piece_starts(s.drop_last(), class);
        if !class.has(s.last()) && (s.len() == 1 || class.has(s[s.len() - 2])) {
            before.push(s.len() - 1)
        } else {
            before
        }
    }
}

/// The pieces of a text are what lies between the characters of a class.
pub proof fn lemma_pieces_split(s: Seq<char>, class: CharClass)
    ensures
        is_split(s, pieces(s, class), piece_starts(s, class), |c: char| class.has(c)),
        s.len() > 0 && !class.has(s.last()) ==> pieces(s, class).len() > 0 && piece_starts(
            s,
            class,
        ).last() + pieces(s, class).last().len() == s.len(),
    decreases s.len(),
{
    if s.len() > 0 {
        let t = s.drop_last();
        lemma_pieces_split(t, class);
        let before = pieces(t, class);
        let first = piece_starts(t, class);
        let parts = pieces(s, class);
        let starts = piece_starts(s, class);
        let c = s.last();
        let n = parts.len() - 1;
        if s.len() > 1 {
            assert(t.last() == s[s.len() - 2]);
        }
        if class.has(c) {
            assert forall|k: int| 0 <= k < parts.len() implies (#[trigger] parts[k])
                == s.subrange(starts[k], starts[k] + parts[k].len()) by {
                assert(t.subrange(starts[k], starts[k] + parts[k].len()) =~= s.subrange(
                    starts[k],
                    starts[k] + parts[k].len(),
                ));
            }
        } else if s.len() == 1 || class.has(s[s.len() - 2]) {
            assert(parts[n] =~= s.subrange(starts[n], starts[n] + 1));
            assert forall|k: int| 0 <= k < n implies (#[trigger] parts[k]) == s.subrange(
                starts[k],
                starts[k] + parts[k].len(),
            ) && starts[k] + parts[k].len() < s.len() - 1 by {
                assert(parts[k] == before[k]);
                assert(t.subrange(starts[k], starts[k] + parts[k].len()) =~= s.subrange(
                    starts[k],
                    starts[k] + parts[k].len(),
                ));
                if starts[k] + parts[k].len() == t.len() {
                    assert(before[k][before[k].len() - 1] == t.last());
                }
            }
        } else {
            assert(before.len() > 0);
            assert(parts[n] =~= s.subrange(starts[n], starts[n] + parts[n].len())) by {
                assert(before.last() == t.subrange(first[n], first[n] + before[n].len()));
            }
            assert(before.last() == before[n]);
            assert forall|i: int| 0 <= i < parts[n].len() implies !class.has(
                #[trigger] parts[n][i],
            ) by {
                if i < before[n].len() {
                    assert(parts[n][i] == before[n][i]);
                }
            }
            assert forall|k: int| 0 <= k < n implies (#[trigger] parts[k]) == s.subrange(
                starts[k],
                starts[k] + parts[k].len(),
            ) by {
                assert(parts[k] == before[k]);
                assert(t.subrange(starts[k], starts[k] + parts[k].len()) =~= s.subrange(
                    starts[k],
                    starts[k] + parts[k].len(),
                ));
            }
            assert forall|k: int| 0 <= k < parts.len() - 1 implies starts[k] + (
            #[trigger] parts[k]).len() < starts[k + 1] by {
                assert(parts[k] == before[k]);
            }
        }
        let separates = |c: char| class.has(c);
        assert forall|k: int| 0 <= k < parts.len() implies {
            &&& (#[trigger] parts[k]).len() > 0
            &&& 0 <= starts[k]
            &&& starts[k] + parts[k].len() <= s.len()
            &&& parts[k] == s.subrange(starts[k], starts[k] + parts[k].len())
            &&& starts[k] > 0 ==> separates(s[starts[k] - 1])
            &&& starts[k] + parts[k].len() < s.len() ==> separates(s[starts[k] + parts[k].len()])
            &&& forall|i: int| 0 <= i < parts[k].len() ==> !separates(#[trigger] parts[k][i])
        } by {
            if k < before.len() {
                assert(before[k].len() > 0);
                assert(starts[k] == first[k]);
                if starts[k] > 0 {
                    assert(t[starts[k] - 1] == s[starts[k] - 1]);
                }
                let e = first[k] + before[k].len();
                if e < t.len() {
                    assert(t[e] == s[e]);
                }
                assert forall|i: int| 0 <= i < parts[k].len() implies !separates(
                    #[trigger] parts[k][i],
                ) by {
                    if i < before[k].len() {
                        assert(!class.has(before[k][i]));
                        assert(parts[k][i] == before[k][i]);
                    }
                }
                if k < n {
                    assert(parts[k] == before[k]);
                    assert(e <= t.len());
                    if e == t.len() && !class.has(c) {
                        assert(k + 1 < before.len());
                        assert(first[k] + before[k].len() < first[k + 1]);
                        assert(before[k + 1].len() > 0);
                    }
                }
            } else {
                assert(starts[k] == s.len() - 1);
                assert(parts[k] =~= seq![c]);
            }
        }
        assert forall|i: int| 0 <= i < s.len() && !class.has(#[trigger] s[i]) implies exists|
            k: int,
        |
            0 <= k < parts.len() && starts[k] <= i < starts[k] + (#[trigger] parts[k]).len() by {
            if i < t.len() {
                assert(t[i] == s[i]);
                let k = choose|k: int|
                    0 <= k < before.len() && first[k] <= i < first[k] + (
                    #[trigger] before[k]).len();
                assert(starts[k] <= i < starts[k] + parts[k].len());
            } else {
                assert(starts[n] <= i < starts[n] + parts[n].len());
            }
        }
    }
}

/// A text is split into what lies between the characters of the class.
pub proof fn law_a_text_is_split_at_its_separators(
    s: &str,
    class: CharClass,
    parts: Vec<String>,
)
    requires
        call_ensures(split, (s, class), parts),
    ensures
        ({
            let separates = |c: char| class.has(c);
            exists|starts: Seq<int>| #[trigger] is_split(s@, texts(parts@), starts, separates)
        }),
{
    lemma_pieces_split(s@, class);
    assert(texts(parts@) =~= pieces(s@, class));
    assert(is_split(s@, texts(parts@), piece_starts(s@, class), |c: char| class.has(c)));
}

/// Trimming the end of a text leaves what stands before the last characters of
/// the class.
pub proof fn lemma_trimmed_end(s: Seq<char>, class: CharClass)
    ensures
        ({
            let t = trimmed_end(s, class);
            &&& t.len() <= s.len()
            &&& t == s.take(t.len() as int)
            &&& t.len() > 0 ==> !class.has(t.last())
            &&& forall|i: int| t.len() <= i < s.len() ==> class.has(#[trigger] s[i])
        }),
    decreases s.len(),
{
    if s.len() > 0 && class.has(s.last()) {
        let front = s.drop_last();
        lemma_trimmed_end(front, class);
        let t = trimmed_end(front, class);
        assert(front.take(t.len() as int) =~= s.take(t.len() as int));
        assert forall|i: int| t.len() <= i < s.len() implies class.has(#[trigger] s[i]) by {
            if i < front.len() {
                assert(front[i] == s[i]);
            }
        }
    } else {
        assert(s.take(s.len() as int) =~= s);
    }
}

/// Trimming the front of a text leaves what stands behind the first characters of
/// the class.
pub proof fn lemma_trimmed_start(s: Seq<char>, class: CharClass)
    ensures
        ({
            let t = trimmed_start(s, class);
            &&& t.len() <= s.len()
            &&& t == s.skip(s.len() - t.len())
            &&& t.len() > 0 ==> !class.has(t[0])
            &&& forall|i: int| 0 <= i < s.len() - t.len() ==> class.has(#[trigger] s[i])
        }),
    decreases s.len(),
{
    if s.len() > 0 && class.has(s[0]) {
        let rest = s.drop_first();
        lemma_trimmed_start(rest, class);
        let t = trimmed_start(rest, class);
        assert(rest.skip(rest.len() - t.len()) =~= s.skip(s.len() - t.len()));
        assert forall|i: int| 0 <= i < s.len() - t.len() implies class.has(#[trigger] s[i]) by {
            if i > 0 {
                assert(rest[i - 1] == s[i]);
            }
        }
    } else {
        assert(s.skip(0) =~= s);
    }
}

/// What is left of a text without white space around it: it stands between two
/// runs of white space, and neither begins nor ends with any.
pub proof fn law_white_space_is_trimmed(s: &str, t: &str)
    requires
        call_ensures(trim, (s,), t),
    ensures
        exists|from: int, to: int|
            {
                &&& 0 <= from <= to <= s@.len()
                &&& t@ == #[trigger] s@.subrange(from, to)
                &&& forall|i: int|
                    0 <= i < from || to <= i < s@.len() ==> CharClass::WhiteSpace.has(
                        #[trigger] s@[i],
                    )
            },
        t@.len() > 0 ==> !CharClass::WhiteSpace.has(t@[0]) && !CharClass::WhiteSpace.has(
            t@.last(),
        ),
{
    let class = CharClass::WhiteSpace;
    let m = trimmed_start(s@, class);
    lemma_trimmed_start(s@, class);
    lemma_trimmed_end(m, class);
    let from = s@.len() - m.len();
    let to = from + t@.len();
    assert(t@ =~= s@.subrange(from, to));
    assert forall|i: int| 0 <= i < from || to <= i < s@.len() implies class.has(
        #[trigger] s@[i],
    ) by {
        if i >= to {
            assert(s@[i] == m[i - from]);
        }
    }
    if t@.len() > 0 {
        assert(t@[0] == m[0]);
    }
}

} // verus!
