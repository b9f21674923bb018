//! Character-level views of strings, and the few operations the rest of the
//! library builds on.

use vstd::prelude::*;

verus! {

/// `String::push` appends one character.
pub assume_specification[ String::push ](s: &mut String, c: char)
    ensures
        final(s)@ == old(s)@.push(c),
;

/// `==` on `str` compares the characters.
pub assume_specification[ <str as PartialEq>::eq ](a: &str, b: &str) -> (equal: bool)
    ensures
        equal == (a@ == b@),
;

/// The character of a decimal digit.
pub open spec fn digit_char(d: nat) -> char {
    (48 + d) as char
}

/// The decimal spelling of a number, without leading zeros.
pub open spec fn decimal(n: nat) -> Seq<char>
    decreases n,
{
    if n < 10 {
        seq![digit_char(n)]
    } else {
        decimal(n / 10).push(digit_char(n % 10))
    }
}

/// The characters of a string.
pub fn chars_of(s: &str) -> (out: Vec<char>)
    ensures
        out@ == s@,
{
    let mut out: Vec<char> = Vec::new();
    for c in it: s.chars()
        invariant
            it.seq() == s@,
            out@ == s@.take(it.index()),
    {
        out.push(c);
        assert(s@.take(it.index() + 1) =~= s@.take(it.index()).push(c));
    }
    assert(s@.take(s@.len() as int) =~= s@);
    out
}

/// The string holding `chars[from..to]`.
pub fn string_of(chars: &[char], from: usize, to: usize) -> (out: String)
    requires
        from <= to <= chars@.len(),
    ensures
        out@ == chars@.subrange(from as int, to as int),
{
    let mut out = String::new();
    let mut i: usize = from;
    while i < to
        invariant
            from <= i <= to <= chars@.len(),
            out@ == chars@.subrange(from as int, i as int),
        decreases to - i,
    {
        out.push(chars[i]);
        assert(chars@.subrange(from as int, i + 1) =~= chars@.subrange(from as int, i as int).push(chars@[i as int]));
        i += 1;
    }
    out
}

/// Appends the decimal spelling of `n`.
pub fn push_decimal(out: &mut String, n: u64)
    ensures
        final(out)@ == old(out)@ + decimal(n as nat),
    decreases n,
{
    if n >= 10 {
        push_decimal(out, n / 10);
    }
    let d: u8 = (n % 10) as u8;
    let c: char = (48u8 + d) as char;
    out.push(c);
    proof {
        assert(c == digit_char((n % 10) as nat));
    }
    assert(out@ =~= old(out)@ + decimal(n as nat));
}

/// Whether `s` begins with `prefix`.
pub open spec fn starts_with(s: Seq<char>, prefix: Seq<char>) -> bool {
    prefix.len() <= s.len() && s.take(prefix.len() as int) == prefix
}

/// Whether `s` ends with `suffix`.
pub open spec fn ends_with(s: Seq<char>, suffix: Seq<char>) -> bool {
    suffix.len() <= s.len() && s.skip(s.len() - suffix.len()) == suffix
}

/// Whether two character slices are equal.
pub fn eq_chars(a: &[char], b: &[char]) -> (equal: bool)
    ensures
        equal == (a@ == b@),
{
    if a.len() != b.len() {
        return false;
    }
    let mut i: usize = 0;
    while i < a.len()
        invariant
            i <= a@.len(),
            a@.len() == b@.len(),
            forall|j: int| 0 <= j < i ==> a@[j] == b@[j],
        decreases a@.len() - i,
    {
        if a[i] != b[i] {
            return false;
        }
        i += 1;
    }
    assert(a@ =~= b@);
    true
}

/// Whether a string holds exactly the given characters.
pub fn eq_str_chars(a: &str, b: &[char]) -> (equal: bool)
    ensures
        equal == (a@ == b@),
{
    let mut i: usize = 0;
    for c in it: a.chars()
        invariant
            it.seq() == a@,
            i == it.index(),
            i <= b@.len(),
            forall|j: int| 0 <= j < i ==> a@[j] == b@[j],
    {
        if i >= b.len() || b[i] != c {
            return false;
        }
        i += 1;
    }
    if i == b.len() {
        assert(a@ =~= b@);
        true
    } else {
        false
    }
}

/// Whether `s` begins with `prefix`.
pub fn starts_with_chars(s: &[char], prefix: &[char]) -> (found: bool)
    ensures
        found == starts_with(s@, prefix@),
{
    if s.len() < prefix.len() {
        return false;
    }
    eq_chars(vstd::slice::slice_subrange(s, 0, prefix.len()), prefix)
}

/// Whether `s` ends with `suffix`.
pub fn ends_with_chars(s: &[char], suffix: &[char]) -> (found: bool)
    ensures
        found == ends_with(s@, suffix@),
{
    if s.len() < suffix.len() {
        return false;
    }
    eq_chars(vstd::slice::slice_subrange(s, s.len() - suffix.len(), s.len()), suffix)
}

/// The views of the strings of a list.
pub open spec fn views(list: Seq<String>) -> Seq<Seq<char>> {
    list.map_values(|s: String| s@)
}

/// The set of strings that a list holds.
pub open spec fn members(list: Seq<String>) -> Set<Seq<char>> {
    views(list).to_set()
}

/// Whether a list holds a string with the given characters.
pub fn list_contains(list: &[String], text: &[char]) -> (found: bool)
    ensures
        found == members(list@).contains(text@),
{
    let mut i: usize = 0;
    while i < list.len()
        invariant
            i <= list@.len(),
            forall|j: int| 0 <= j < i ==> (#[trigger] list@[j])@ != text@,
        decreases list@.len() - i,
    {
        if eq_str_chars(list[i].as_str(), text) {
            assert(views(list@)[i as int] == text@);
            return true;
        }
        i += 1;
    }
    assert(forall|j: int| 0 <= j < list@.len() ==> views(list@)[j] == (#[trigger] list@[j])@);
    false
}

/// The characters with the Unicode `White_Space` property.
pub open spec fn is_space(c: char) -> bool {
    ||| '\u{9}' <= c && c <= '\u{d}'
    ||| c == ' '
    ||| c == '\u{85}'
    ||| c == '\u{a0}'
    ||| c == '\u{1680}'
    ||| '\u{2000}' <= c && c <= '\u{200a}'
    ||| c == '\u{2028}'
    ||| c == '\u{2029}'
    ||| c == '\u{202f}'
    ||| c == '\u{205f}'
    ||| c == '\u{3000}'
}

pub fn space(c: char) -> (r: bool)
    ensures
        r == is_space(c),
{
    ('\u{9}' <= c && c <= '\u{d}') || c == ' ' || c == '\u{85}' || c == '\u{a0}' || c == '\u{1680}' || (
    '\u{2000}' <= c && c <= '\u{200a}') || c == '\u{2028}' || c == '\u{2029}' || c == '\u{202f}' || c
        == '\u{205f}' || c == '\u{3000}'
}

/// `s` without the leading characters that satisfy `p`.
pub open spec fn trim_start_by(s: Seq<char>, p: spec_fn(char) -> bool) -> Seq<char>
    decreases s.len(),
{
    if s.len() > 0 && p(s[0]) {
        trim_start_by(s.skip(1), p)
    } else {
        s
    }
}

/// `s` without the trailing characters that satisfy `p`.
pub open spec fn trim_end_by(s: Seq<char>, p: spec_fn(char) -> bool) -> Seq<char>
    decreases s.len(),
{
    if s.len() > 0 && p(s.last()) {
        trim_end_by(s.drop_last(), p)
    } else {
        s
    }
}

/// Whitespace, as a predicate.
pub open spec fn spaces() -> spec_fn(char) -> bool {
    |c: char| is_space(c)
}

/// The characters of `set`, as a predicate.
pub open spec fn any_of(set: Seq<char>) -> spec_fn(char) -> bool {
    |c: char| set.contains(c)
}

/// `s` without leading and trailing whitespace.
pub open spec fn trim(s: Seq<char>) -> Seq<char> {
    trim_end_by(trim_start_by(s, spaces()), spaces())
}

/// `s` without leading whitespace.
pub fn trim_start_slice(s: &[char]) -> (r: &[char])
    ensures
        r@ == trim_start_by(s@, spaces()),
{
    let mut i: usize = 0;
    assert(s@.skip(0) =~= s@);
    while i < s.len() && space(s[i])
        invariant
            i <= s@.len(),
            trim_start_by(s@.skip(i as int), spaces()) == trim_start_by(s@, spaces()),
        decreases s@.len() - i,
    {
        assert(s@.skip(i as int).skip(1) =~= s@.skip(i + 1));
        i += 1;
    }
    vstd::slice::slice_subrange(s, i, s.len())
}

/// `s` without trailing whitespace.
pub fn trim_end_slice(s: &[char]) -> (r: &[char])
    ensures
        r@ == trim_end_by(s@, spaces()),
{
    let mut i: usize = s.len();
    assert(s@.take(i as int) =~= s@);
    while i > 0 && space(s[i - 1])
        invariant
            i <= s@.len(),
            trim_end_by(s@.take(i as int), spaces()) == trim_end_by(s@, spaces()),
        decreases i,
    {
        assert(s@.take(i as int).drop_last() =~= s@.take(i - 1));
        i -= 1;
    }
    vstd::slice::slice_subrange(s, 0, i)
}

/// `s` without leading and trailing whitespace.
pub fn trim_slice(s: &[char]) -> (r: &[char])
    ensures
        r@ == trim(s@),
{
    trim_end_slice(trim_start_slice(s))
}

/// `s` without the leading characters found in `set`.
pub fn trim_start_set<'a>(s: &'a [char], set: &[char]) -> (r: &'a [char])
    ensures
        r@ == trim_start_by(s@, any_of(set@)),
{
    let mut i: usize = 0;
    assert(s@.skip(0) =~= s@);
    while i < s.len() && has_char(set, s[i])
        invariant
            i <= s@.len(),
            trim_start_by(s@.skip(i as int), any_of(set@)) == trim_start_by(s@, any_of(set@)),
        decreases s@.len() - i,
    {
        assert(s@.skip(i as int).skip(1) =~= s@.skip(i + 1));
        i += 1;
    }
    vstd::slice::slice_subrange(s, i, s.len())
}

/// `s` without the trailing characters found in `set`.
pub fn trim_end_set<'a>(s: &'a [char], set: &[char]) -> (r: &'a [char])
    ensures
        r@ == trim_end_by(s@, any_of(set@)),
{
    let mut i: usize = s.len();
    assert(s@.take(i as int) =~= s@);
    while i > 0 && has_char(set, s[i - 1])
        invariant
            i <= s@.len(),
            trim_end_by(s@.take(i as int), any_of(set@)) == trim_end_by(s@, any_of(set@)),
        decreases i,
    {
        assert(s@.take(i as int).drop_last() =~= s@.take(i - 1));
        i -= 1;
    }
    vstd::slice::slice_subrange(s, 0, i)
}

/// Whether a slice holds a character.
pub fn has_char(s: &[char], c: char) -> (found: bool)
    ensures
        found == s@.contains(c),
{
    let mut i: usize = 0;
    while i < s.len()
        invariant
            i <= s@.len(),
            forall|j: int| 0 <= j < i ==> s@[j] != c,
        decreases s@.len() - i,
    {
        if s[i] == c {
            assert(s@[i as int] == c);
            return true;
        }
        i += 1;
    }
    false
}

/// Position of the first `c` at or after `i`, or the length of `s`.
pub open spec fn position_from(s: Seq<char>, i: int, c: char) -> int
    decreases s.len() - i,
{
    if 0 <= i < s.len() && s[i] != c {
        position_from(s, i + 1, c)
    } else {
        i
    }
}

pub proof fn lemma_position_from(s: Seq<char>, i: int, c: char)
    requires
        0 <= i <= s.len(),
    ensures
        i <= position_from(s, i, c) <= s.len(),
        forall|j: int| i <= j < position_from(s, i, c) ==> #[trigger] s[j] != c,
        position_from(s, i, c) < s.len() ==> s[position_from(s, i, c)] == c,
    decreases s.len() - i,
{
    if i < s.len() && s[i] != c {
        lemma_position_from(s, i + 1, c);
    }
}

/// The first position that holds `c` is what `position_from` gives.
pub proof fn lemma_position_is(s: Seq<char>, i: int, c: char, e: int)
    requires
        0 <= i <= e <= s.len(),
        e < s.len() ==> s[e] == c,
        forall|j: int| i <= j < e ==> s[j] != c,
    ensures
        position_from(s, i, c) == e,
    decreases e - i,
{
    if i < e {
        lemma_position_is(s, i + 1, c, e);
    }
}

/// Position of the first `c` at or after `from`, or the length of `s`.
pub fn find_char(s: &[char], from: usize, c: char) -> (r: usize)
    requires
        from <= s@.len(),
    ensures
        r == position_from(s@, from as int, c),
        from <= r <= s@.len(),
{
    let mut i: usize = from;
    while i < s.len() && s[i] != c
        invariant
            from <= i <= s@.len(),
            position_from(s@, from as int, c) == position_from(s@, i as int, c),
        decreases s@.len() - i,
    {
        i += 1;
    }
    i
}

pub open spec fn is_ascii_digit(c: char) -> bool {
    '0' <= c && c <= '9'
}

pub fn ascii_digit(c: char) -> (r: bool)
    ensures
        r == is_ascii_digit(c),
{
    '0' <= c && c <= '9'
}

/// Whether `s` consists of decimal digits.
pub open spec fn all_digits(s: Seq<char>) -> bool {
    forall|i: int| 0 <= i < s.len() ==> is_ascii_digit(#[trigger] s[i])
}

/// The number that a run of decimal digits spells.
pub open spec fn digits_value(s: Seq<char>) -> nat
    decreases s.len(),
{
    if s.len() == 0 {
        0
    } else {
        (10 * digits_value(s.drop_last()) + (s.last() as int - 48)) as nat
    }
}

/// A decimal spelling is a non-empty run of digits, and spells its number.
pub proof fn decimal_spells(n: nat)
    ensures
        decimal(n).len() > 0,
        all_digits(decimal(n)),
        digits_value(decimal(n)) == n,
    decreases n,
{
    if n < 10 {
        let d = decimal(n);
        assert(d =~= seq![digit_char(n)]);
        assert(d.drop_last() =~= Seq::<char>::empty());
        assert(digits_value(d.drop_last()) == 0);
    } else {
        decimal_spells(n / 10);
        let d = decimal(n);
        assert(d.drop_last() =~= decimal(n / 10));
        assert(d.last() == digit_char(n % 10));
        assert forall|i: int| 0 <= i < d.len() implies is_ascii_digit(#[trigger] d[i]) by {
            if i < d.len() - 1 {
                assert(d[i] == decimal(n / 10)[i]);
            }
        }
    }
}

/// The value of a run of digits, when it fits.
pub fn parse_digits(s: &[char]) -> (r: Option<u128>)
    ensures
        r is Some <==> s@.len() > 0 && all_digits(s@) && digits_value(s@) <= u128::MAX,
        r matches Some(v) ==> v == digits_value(s@),
{
    if s.len() == 0 {
        return None;
    }
    let mut value: u128 = 0;
    let mut i: usize = 0;
    let mut fits: bool = true;
    while i < s.len()
        invariant
            i <= s@.len(),
            all_digits(s@.take(i as int)),
            fits ==> value == digits_value(s@.take(i as int)),
            !fits ==> digits_value(s@.take(i as int)) > u128::MAX,
        decreases s@.len() - i,
    {
        let c: char = s[i];
        if !ascii_digit(c) {
            assert(!is_ascii_digit(s@[i as int]));
            return None;
        }
        let d: u128 = (c as u32 - 48) as u128;
        assert(s@.take(i + 1).drop_last() =~= s@.take(i as int));
        assert(s@.take(i + 1).last() == c);
        assert forall|j: int| 0 <= j < i + 1 implies is_ascii_digit(#[trigger] s@.take(i + 1)[j]) by {
            if j < i {
                assert(s@.take(i + 1)[j] == s@.take(i as int)[j]);
            }
        }
        if fits {
            if value <= (u128::MAX - d) / 10 {
                value = value * 10 + d;
            } else {
                fits = false;
            }
        }
        i += 1;
    }
    assert(s@.take(i as int) =~= s@);
    if fits {
        Some(value)
    } else {
        None
    }
}

/// The number that a text spells: digits, after an optional plus sign.
pub open spec fn unsigned(s: Seq<char>) -> Option<nat> {
    let digits = if s.len() > 0 && s[0] == '+' {
        s.skip(1)
    } else {
        s
    };
    if digits.len() > 0 && all_digits(digits) {
        Some(digits_value(digits))
    } else {
        None
    }
}

/// The number that a text spells, if it is at most `max`.
pub fn parse_bounded(s: &[char], max: u64) -> (r: Option<u64>)
    ensures
        r is Some <==> (unsigned(s@) is Some && unsigned(s@)->Some_0 <= max),
        r matches Some(v) ==> unsigned(s@) == Some(v as nat),
{
    let digits = if s.len() > 0 && s[0] == '+' {
        let rest = vstd::slice::slice_subrange(s, 1, s.len());
        assert(rest@ =~= s@.skip(1));
        rest
    } else {
        s
    };
    match parse_digits(digits) {
        None => None,
        Some(v) => if v <= max as u128 {
            Some(v as u64)
        } else {
            None
        },
    }
}

/// Number of bytes of a character in UTF-8.
pub open spec fn char_width(c: char) -> nat {
    if c as u32 <= 0x7f {
        1
    } else if c as u32 <= 0x7ff {
        2
    } else if c as u32 <= 0xffff {
        3
    } else {
        4
    }
}

/// Number of bytes of a text in UTF-8.
pub open spec fn byte_len(s: Seq<char>) -> nat
    decreases s.len(),
{
    if s.len() == 0 {
        0
    } else {
        char_width(s[0]) + byte_len(s.skip(1))
    }
}

/// Number of characters that the first `n` bytes of a text hold, if the text
/// is that long and the `n`-th byte ends a character.
pub open spec fn chars_in_bytes(s: Seq<char>, n: nat) -> Option<int>
    decreases s.len(),
{
    if n == 0 {
        Some(0)
    } else if s.len() == 0 || char_width(s[0]) > n {
        None
    } else {
        match chars_in_bytes(s.skip(1), (n - char_width(s[0])) as nat) {
            Some(k) => Some(k + 1),
            None => None,
        }
    }
}

pub proof fn lemma_chars_in_bytes(s: Seq<char>, n: nat)
    ensures
        chars_in_bytes(s, n) matches Some(k) ==> 0 <= k <= s.len() && n <= 4 * s.len(),
    decreases s.len(),
{
    if n == 0 || s.len() == 0 || char_width(s[0]) > n {
    } else {
        lemma_chars_in_bytes(s.skip(1), (n - char_width(s[0])) as nat);
    }
}

/// The bytes of a text hold its characters.
pub proof fn lemma_chars_in_bytes_of(s: Seq<char>, rest: Seq<char>)
    ensures
        chars_in_bytes(s + rest, byte_len(s)) == Some(s.len() as int),
    decreases s.len(),
{
    if s.len() > 0 {
        lemma_chars_in_bytes_of(s.skip(1), rest);
        assert((s + rest).skip(1) =~= s.skip(1) + rest);
        assert((s + rest)[0] == s[0]);
    }
}

pub fn width_of(c: char) -> (r: u8)
    ensures
        r == char_width(c),
{
    let u: u32 = c as u32;
    if u <= 0x7f {
        1
    } else if u <= 0x7ff {
        2
    } else if u <= 0xffff {
        3
    } else {
        4
    }
}

/// Number of bytes of a text in UTF-8.
pub fn byte_length(s: &[char]) -> (r: u128)
    ensures
        r == byte_len(s@),
        r <= 4 * s@.len(),
{
    let mut total: u128 = 0;
    let mut i: usize = s.len();
    assert(s@.skip(i as int) =~= Seq::<char>::empty());
    while i > 0
        invariant
            i <= s@.len(),
            total == byte_len(s@.skip(i as int)),
            total <= 4 * (s@.len() - i),
        decreases i,
    {
        i -= 1;
        assert(s@.skip(i as int).skip(1) =~= s@.skip(i + 1));
        assert(s@.skip(i as int)[0] == s@[i as int]);
        total += width_of(s[i]) as u128;
    }
    assert(s@.skip(0) =~= s@);
    total
}

/// Number of characters that the first `n` bytes of a text hold.
pub fn count_chars_in_bytes(s: &[char], n: u128) -> (r: Option<usize>)
    ensures
        r is Some <==> chars_in_bytes(s@, n as nat) is Some,
        r matches Some(k) ==> chars_in_bytes(s@, n as nat) == Some(k as int) && k <= s@.len(),
{
    let mut left: u128 = n;
    let mut i: usize = 0;
    assert(s@.skip(0) =~= s@);
    while left > 0
        invariant
            i <= s@.len(),
            chars_in_bytes(s@, n as nat) == match chars_in_bytes(s@.skip(i as int), left as nat) {
                Some(k) => Some(k + i),
                None => None::<int>,
            },
        decreases left,
    {
        if i >= s.len() {
            return None;
        }
        let w: u128 = width_of(s[i]) as u128;
        assert(s@.skip(i as int)[0] == s@[i as int]);
        if w > left {
            return None;
        }
        assert(s@.skip(i as int).skip(1) =~= s@.skip(i + 1));
        left -= w;
        i += 1;
    }
    Some(i)
}

/// The first line of `s`, without its line feed.
pub open spec fn first_line(s: Seq<char>) -> Seq<char> {
    s.take(position_from(s, 0, '\n'))
}

/// What follows the first line of `s`.
pub open spec fn after_line(s: Seq<char>) -> Seq<char> {
    let p = position_from(s, 0, '\n');
    if p < s.len() {
        s.skip(p + 1)
    } else {
        Seq::empty()
    }
}

pub proof fn lemma_after_line(s: Seq<char>)
    ensures
        s.len() > 0 ==> after_line(s).len() < s.len(),
        0 <= position_from(s, 0, '\n') <= s.len(),
{
    lemma_position_from(s, 0, '\n');
}

/// A line as `str::lines` gives it: without the carriage return of `\r\n`.
pub open spec fn without_return(s: Seq<char>) -> Seq<char> {
    let p = position_from(s, 0, '\n');
    if 0 < p < s.len() && s[p - 1] == '\r' {
        s.take(p - 1)
    } else {
        s.take(p)
    }
}

/// The lines of a text, as `str::lines` gives them.
pub open spec fn lines(s: Seq<char>) -> Seq<Seq<char>>
    decreases s.len() via lines_decreases
{
    if s.len() == 0 {
        Seq::empty()
    } else {
        seq![without_return(s)] + lines(after_line(s))
    }
}

#[via_fn]
proof fn lines_decreases(s: Seq<char>) {
    lemma_after_line(s);
}

/// Reads the first line of `s`: where it ends, and where the next one starts.
pub fn read_line(s: &[char]) -> (r: (usize, usize))
    requires
        s@.len() > 0,
    ensures
        r.0 <= r.1 <= s@.len(),
        0 < r.1,
        s@.take(r.0 as int) == without_return(s@),
        s@.skip(r.1 as int) == after_line(s@),
{
    let p = find_char(s, 0, '\n');
    if p < s.len() {
        let end: usize = if p > 0 && s[p - 1] == '\r' {
            p - 1
        } else {
            p
        };
        (end, p + 1)
    } else {
        assert(s@.skip(p as int) =~= Seq::<char>::empty());
        (p, p)
    }
}

/// Position of the first character at or after `i` that satisfies `p`, or the
/// length of `s`.
pub open spec fn first_where(s: Seq<char>, i: int, p: spec_fn(char) -> bool) -> int
    decreases s.len() - i,
{
    if 0 <= i < s.len() && !p(s[i]) {
        first_where(s, i + 1, p)
    } else {
        i
    }
}

pub proof fn lemma_first_where(s: Seq<char>, i: int, p: spec_fn(char) -> bool)
    requires
        0 <= i <= s.len(),
    ensures
        i <= first_where(s, i, p) <= s.len(),
        forall|j: int| i <= j < first_where(s, i, p) ==> !p(#[trigger] s[j]),
        first_where(s, i, p) < s.len() ==> p(s[first_where(s, i, p)]),
    decreases s.len() - i,
{
    if i < s.len() && !p(s[i]) {
        lemma_first_where(s, i + 1, p);
    }
}

/// The parts of `s` between the characters that satisfy `p`.
pub open spec fn split_by(s: Seq<char>, p: spec_fn(char) -> bool) -> Seq<Seq<char>>
    decreases s.len() via split_by_decreases
{
    let k = first_where(s, 0, p);
    if k >= s.len() {
        seq![s]
    } else {
        seq![s.take(k)] + split_by(s.skip(k + 1), p)
    }
}

#[via_fn]
proof fn split_by_decreases(s: Seq<char>, p: spec_fn(char) -> bool) {
    lemma_first_where(s, 0, p);
}

/// Position of the first character at or after `from` that is in `set`, or is
/// whitespace where `blank` says so.
pub fn find_any(s: &[char], from: usize, set: &[char], blank: bool) -> (r: usize)
    requires
        from <= s@.len(),
    ensures
        r == first_where(s@, from as int, separators(set@, blank)),
        from <= r <= s@.len(),
{
    let ghost p = separators(set@, blank);
    let mut i: usize = from;
    while i < s.len() && !(has_char(set, s[i]) || (blank && space(s[i])))
        invariant
            p == separators(set@, blank),
            from <= i <= s@.len(),
            first_where(s@, from as int, p) == first_where(s@, i as int, p),
        decreases s@.len() - i,
    {
        i += 1;
    }
    i
}

/// The characters of `set`, and whitespace where `blank` says so.
pub open spec fn separators(set: Seq<char>, blank: bool) -> spec_fn(char) -> bool {
    |c: char| set.contains(c) || (blank && is_space(c))
}

/// The texts of a list of character lists.
pub open spec fn texts(list: Seq<Vec<char>>) -> Seq<Seq<char>> {
    list.map_values(|v: Vec<char>| v@)
}

/// The parts of `s` between the given separators.
pub fn split(s: &[char], set: &[char], blank: bool) -> (out: Vec<Vec<char>>)
    ensures
        texts(out@) == split_by(s@, separators(set@, blank)),
        out@.len() > 0,
{
    let ghost p = separators(set@, blank);
    let mut out: Vec<Vec<char>> = Vec::new();
    let mut from: usize = 0;
    assert(s@.skip(0) =~= s@);
    assert(texts(out@) + split_by(s@, p) =~= split_by(s@, p));
    loop
        invariant
            p == separators(set@, blank),
            from <= s@.len(),
            texts(out@) + split_by(s@.skip(from as int), p) == split_by(s@, p),
        decreases s@.len() - from,
    {
        let rest = vstd::slice::slice_subrange(s, from, s.len());
        let ghost suffix = s@.skip(from as int);
        assert(rest@ =~= suffix);
        let ghost before = texts(out@);
        let k = find_any(rest, 0, set, blank);
        let part = vstd::slice::slice_subrange(rest, 0, k);
        assert(part@ =~= suffix.take(k as int));
        out.push(vstd::slice::slice_to_vec(part));
        assert(texts(out@) =~= before.push(suffix.take(k as int)));
        if k >= rest.len() {
            assert(suffix.take(k as int) =~= suffix);
            assert(texts(out@) =~= before + split_by(suffix, p));
            return out;
        }
        assert(suffix.skip(k + 1) =~= s@.skip(from + k + 1));
        assert(before + (seq![suffix.take(k as int)] + split_by(suffix.skip(k + 1), p)) =~= texts(
            out@,
        ) + split_by(suffix.skip(k + 1), p));
        from = from + k + 1;
    }
}

/// The first word of `s`, or nothing.
pub open spec fn first_word(s: Seq<char>) -> Seq<char> {
    let t = trim_start_by(s, spaces());
    t.take(first_where(t, 0, separators(Seq::empty(), true)))
}

/// The first word of `s`, or nothing.
pub fn word_slice(s: &[char]) -> (r: &[char])
    ensures
        r@ == first_word(s@),
{
    let t = trim_start_slice(s);
    let none: Vec<char> = Vec::new();
    assert(none@ =~= Seq::empty());
    let k = find_any(t, 0, none.as_slice(), true);
    vstd::slice::slice_subrange(t, 0, k)
}

/// The words of a text: its longest parts without whitespace.
pub open spec fn words(s: Seq<char>) -> Seq<Seq<char>>
    decreases s.len() via words_decreases
{
    let t = trim_start_by(s, spaces());
    if t.len() == 0 {
        Seq::empty()
    } else {
        seq![first_word(s)] + words(t.skip(first_word(s).len() as int))
    }
}

#[via_fn]
proof fn words_decreases(s: Seq<char>) {
    lemma_first_word(s);
}

pub proof fn lemma_first_word(s: Seq<char>)
    ensures
        trim_start_by(s, spaces()).len() <= s.len(),
        first_word(s).len() <= trim_start_by(s, spaces()).len(),
        trim_start_by(s, spaces()).len() > 0 ==> first_word(s).len() > 0,
    decreases s.len(),
{
    if s.len() > 0 && is_space(s[0]) {
        lemma_first_word(s.skip(1));
    } else {
        lemma_first_where(s, 0, separators(Seq::empty(), true));
    }
}

/// The words of a text.
pub fn split_words(s: &[char]) -> (out: Vec<Vec<char>>)
    ensures
        texts(out@) == words(s@),
{
    let mut out: Vec<Vec<char>> = Vec::new();
    let mut rest = s;
    assert(texts(out@) + words(s@) =~= words(s@));
    loop
        invariant
            texts(out@) + words(rest@) == words(s@),
        decreases rest@.len(),
    {
        let t = trim_start_slice(rest);
        if t.len() == 0 {
            assert(texts(out@) =~= texts(out@) + words(rest@));
            return out;
        }
        proof {
            lemma_first_word(rest@);
        }
        let word = word_slice(rest);
        let ghost before = texts(out@);
        out.push(vstd::slice::slice_to_vec(word));
        let next = vstd::slice::slice_subrange(t, word.len(), t.len());
        proof {
            assert(texts(out@) =~= before.push(word@));
            assert(next@ =~= t@.skip(word@.len() as int));
            assert(before + (seq![word@] + words(next@)) =~= texts(out@) + words(next@));
        }
        rest = next;
    }
}

/// Whether `s` holds `part` at or after `i`, and where: the first place, or -1.
pub open spec fn find_text(s: Seq<char>, part: Seq<char>, i: int) -> int
    decreases s.len() + 1 - i,
{
    if i < 0 || i > s.len() {
        -1
    } else if starts_with(s.skip(i), part) {
        i
    } else {
        find_text(s, part, i + 1)
    }
}

/// Where `part` first stands in `s`.
pub fn find_part(s: &[char], part: &[char]) -> (r: Option<usize>)
    ensures
        r is Some <==> find_text(s@, part@, 0) >= 0,
        r matches Some(k) ==> k == find_text(s@, part@, 0) && k + part@.len() <= s@.len(),
{
    let mut i: usize = 0;
    loop
        invariant
            i <= s@.len(),
            find_text(s@, part@, 0) == find_text(s@, part@, i as int),
        decreases s@.len() - i,
    {
        let rest = vstd::slice::slice_subrange(s, i, s.len());
        assert(rest@ =~= s@.skip(i as int));
        if starts_with_chars(rest, part) {
            return Some(i);
        }
        if i >= s.len() {
            assert(find_text(s@, part@, i + 1) == -1);
            return None;
        }
        i += 1;
    }
}

/// Whether `s` holds `part`.
pub open spec fn holds_text(s: Seq<char>, part: Seq<char>) -> bool {
    find_text(s, part, 0) >= 0
}

/// `s` without the copies of `part` it begins with.
pub open spec fn trim_start_text(s: Seq<char>, part: Seq<char>) -> Seq<char>
    decreases s.len(),
{
    if part.len() > 0 && starts_with(s, part) {
        trim_start_text(s.skip(part.len() as int), part)
    } else {
        s
    }
}

/// `s` without the copies of `part` it ends with.
pub open spec fn trim_end_text(s: Seq<char>, part: Seq<char>) -> Seq<char>
    decreases s.len(),
{
    if part.len() > 0 && ends_with(s, part) {
        trim_end_text(s.take(s.len() - part.len()), part)
    } else {
        s
    }
}

pub fn trim_start_part<'a>(s: &'a [char], part: &[char]) -> (r: &'a [char])
    ensures
        r@ == trim_start_text(s@, part@),
{
    let mut t = s;
    while part.len() > 0 && starts_with_chars(t, part)
        invariant
            trim_start_text(t@, part@) == trim_start_text(s@, part@),
        decreases t@.len(),
    {
        let ghost before = t@;
        t = vstd::slice::slice_subrange(t, part.len(), t.len());
        assert(t@ =~= before.skip(part@.len() as int));
    }
    t
}

pub fn trim_end_part<'a>(s: &'a [char], part: &[char]) -> (r: &'a [char])
    ensures
        r@ == trim_end_text(s@, part@),
{
    let mut t = s;
    while part.len() > 0 && ends_with_chars(t, part)
        invariant
            trim_end_text(t@, part@) == trim_end_text(s@, part@),
        decreases t@.len(),
    {
        let ghost before = t@;
        t = vstd::slice::slice_subrange(t, 0, t.len() - part.len());
        assert(t@ =~= before.take(before.len() - part@.len()));
    }
    t
}

/// `s` with every `from` replaced by `to`, from left to right.
pub open spec fn replaced(s: Seq<char>, from: Seq<char>, to: Seq<char>) -> Seq<char>
    decreases s.len(),
{
    if s.len() == 0 {
        s
    } else if from.len() > 0 && starts_with(s, from) {
        to + replaced(s.skip(from.len() as int), from, to)
    } else {
        seq![s[0]] + replaced(s.skip(1), from, to)
    }
}

/// `s` with every `from` replaced by `to`.
pub fn replace_all(s: &[char], from: &[char], to: &[char]) -> (out: Vec<char>)
    ensures
        out@ == replaced(s@, from@, to@),
{
    let mut out: Vec<char> = Vec::new();
    let mut i: usize = 0;
    assert(s@.skip(0) =~= s@);
    assert(out@ + replaced(s@, from@, to@) =~= replaced(s@, from@, to@));
    while i < s.len()
        invariant
            i <= s@.len(),
            out@ + replaced(s@.skip(i as int), from@, to@) == replaced(s@, from@, to@),
        decreases s@.len() - i,
    {
        let rest = vstd::slice::slice_subrange(s, i, s.len());
        let ghost suffix = s@.skip(i as int);
        let ghost before = out@;
        assert(rest@ =~= suffix);
        if from.len() > 0 && starts_with_chars(rest, from) {
            push_chars(&mut out, to);
            i += from.len();
            assert(suffix.skip(from@.len() as int) =~= s@.skip(i as int));
            assert(out@ + replaced(s@.skip(i as int), from@, to@) =~= before + (to@ + replaced(
                s@.skip(i as int),
                from@,
                to@,
            )));
        } else {
            out.push(rest[0]);
            i += 1;
            assert(suffix.skip(1) =~= s@.skip(i as int));
            assert(out@ + replaced(s@.skip(i as int), from@, to@) =~= before + (seq![suffix[0]]
                + replaced(s@.skip(i as int), from@, to@)));
        }
    }
    assert(s@.skip(i as int) =~= Seq::<char>::empty());
    assert(out@ =~= out@ + replaced(s@.skip(i as int), from@, to@));
    out
}

/// Appends characters.
pub fn push_chars(out: &mut Vec<char>, more: &[char])
    ensures
        final(out)@ == old(out)@ + more@,
{
    let mut i: usize = 0;
    let ghost before = out@;
    assert(out@ =~= before + more@.take(0));
    while i < more.len()
        invariant
            i <= more@.len(),
            out@ == before + more@.take(i as int),
        decreases more@.len() - i,
    {
        out.push(more[i]);
        assert(out@ =~= before + more@.take(i + 1));
        i += 1;
    }
    assert(more@.take(i as int) =~= more@);
}

/// An ASCII capital as its small letter.
pub open spec fn lower(c: char) -> char {
    if 'A' <= c && c <= 'Z' {
        (c as u32 + 32) as char
    } else {
        c
    }
}

/// `s` with ASCII capitals as small letters.
pub open spec fn lowered(s: Seq<char>) -> Seq<char> {
    s.map_values(|c: char| lower(c))
}

pub fn lower_char(c: char) -> (r: char)
    ensures
        r == lower(c),
{
    if 'A' <= c && c <= 'Z' {
        (c as u8 + 32) as char
    } else {
        c
    }
}

/// `s` with ASCII capitals as small letters.
pub fn lower_chars(s: &[char]) -> (out: Vec<char>)
    ensures
        out@ == lowered(s@),
{
    let mut out: Vec<char> = Vec::new();
    let mut i: usize = 0;
    while i < s.len()
        invariant
            i <= s@.len(),
            out@.len() == i,
            forall|j: int| 0 <= j < i ==> #[trigger] out@[j] == lower(s@[j]),
        decreases s@.len() - i,
    {
        out.push(lower_char(s[i]));
        i += 1;
    }
    assert(out@ =~= lowered(s@));
    out
}

/// Whether `a` comes before `b` in the order of their characters.
pub open spec fn lex_less(a: Seq<char>, b: Seq<char>) -> bool
    decreases a.len(),
{
    if b.len() == 0 {
        false
    } else if a.len() == 0 {
        true
    } else if a[0] != b[0] {
        a[0] < b[0]
    } else {
        lex_less(a.skip(1), b.skip(1))
    }
}

pub proof fn lemma_lex_total(a: Seq<char>, b: Seq<char>)
    ensures
        a == b || lex_less(a, b) || lex_less(b, a),
        !(lex_less(a, b) && lex_less(b, a)),
        a == b ==> !lex_less(a, b),
    decreases a.len(),
{
    if a.len() > 0 && b.len() > 0 && a[0] == b[0] {
        lemma_lex_total(a.skip(1), b.skip(1));
        if a.skip(1) == b.skip(1) {
            assert(a =~= seq![a[0]] + a.skip(1));
            assert(b =~= seq![b[0]] + b.skip(1));
        }
    } else if a.len() == 0 && b.len() == 0 {
        assert(a =~= b);
    }
}

pub proof fn lemma_lex_trans(a: Seq<char>, b: Seq<char>, c: Seq<char>)
    requires
        lex_less(a, b),
        lex_less(b, c),
    ensures
        lex_less(a, c),
    decreases a.len(),
{
    if a.len() > 0 && b.len() > 0 && c.len() > 0 && a[0] == b[0] && b[0] == c[0] {
        lemma_lex_trans(a.skip(1), b.skip(1), c.skip(1));
    }
}

/// Whether `a` comes before `b` in the order of their characters.
pub fn comes_before(a: &[char], b: &[char]) -> (r: bool)
    ensures
        r == lex_less(a@, b@),
{
    let mut i: usize = 0;
    assert(a@.skip(0) =~= a@);
    assert(b@.skip(0) =~= b@);
    loop
        invariant
            i <= a@.len(),
            i <= b@.len(),
            lex_less(a@, b@) == lex_less(a@.skip(i as int), b@.skip(i as int)),
        decreases a@.len() - i,
    {
        if i >= b.len() {
            return false;
        }
        if i >= a.len() {
            return true;
        }
        if a[i] != b[i] {
            return a[i] < b[i];
        }
        assert(a@.skip(i as int).skip(1) =~= a@.skip(i + 1));
        assert(b@.skip(i as int).skip(1) =~= b@.skip(i + 1));
        i += 1;
    }
}

/// Whether texts are listed in ascending order, each once.
pub open spec fn ascending(list: Seq<Seq<char>>) -> bool {
    forall|i: int, j: int| 0 <= i < j < list.len() ==> lex_less(#[trigger] list[i], #[trigger] list[j])
}

/// Puts a text into its place in an ascending list, unless it is there.
pub fn insert_ascending(list: &mut Vec<String>, text: String)
    requires
        ascending(views(old(list)@)),
    ensures
        ascending(views(final(list)@)),
        members(final(list)@) == members(old(list)@).insert(text@),
{
    let ghost before = views(list@);
    let chars = chars_of(text.as_str());
    let mut i: usize = 0;
    while i < list.len() && comes_before(
        chars_of(list[i].as_str()).as_slice(),
        chars.as_slice(),
    )
        invariant
            list@ == old(list)@,
            before == views(list@),
            ascending(before),
            chars@ == text@,
            i <= list@.len(),
            forall|j: int| 0 <= j < i ==> lex_less(#[trigger] before[j], text@),
        decreases list@.len() - i,
    {
        assert(before[i as int] == list@[i as int]@);
        i += 1;
    }
    if i < list.len() {
        assert(before[i as int] == list@[i as int]@);
        if eq_str_chars(list[i].as_str(), chars.as_slice()) {
            proof {
                assert(before.contains(text@));
                assert(members(list@) =~= members(list@).insert(text@));
            }
            return;
        }
    }
    proof {
        assert forall|j: int| i <= j < before.len() implies lex_less(text@, #[trigger] before[j]) by {
            lemma_lex_total(before[i as int], text@);
            if i < j {
                lemma_lex_trans(text@, before[i as int], before[j]);
            }
        }
    }
    list.insert(i, text);
    proof {
        let after = views(list@);
        assert(after =~= before.insert(i as int, text@));
        assert forall|a: int, b: int| 0 <= a < b < after.len() implies lex_less(
            #[trigger] after[a],
            #[trigger] after[b],
        ) by {
            let x = if a < i { a } else { a - 1 };
            let y = if b < i { b } else { b - 1 };
            if a != i {
                assert(after[a] == before[x]);
            }
            if b != i {
                assert(after[b] == before[y]);
            }
        }
        assert forall|t: Seq<char>| members(list@).contains(t) == members(old(list)@).insert(
            text@,
        ).contains(t) by {
            if after.contains(t) {
                let a = choose|a: int| 0 <= a < after.len() && after[a] == t;
                if a < i {
                    assert(before[a] == t);
                } else if a > i {
                    assert(before[a - 1] == t);
                }
            }
            if before.contains(t) {
                let a = choose|a: int| 0 <= a < before.len() && before[a] == t;
                if a < i {
                    assert(after[a] == t);
                } else {
                    assert(after[a + 1] == t);
                }
            }
            assert(after[i as int] == text@);
        }
        assert(members(list@) =~= members(old(list)@).insert(text@));
    }
}

/// Texts one after another, with a separator between them.
pub open spec fn joined(list: Seq<Seq<char>>, separator: Seq<char>) -> Seq<char>
    decreases list.len(),
{
    if list.len() == 0 {
        Seq::empty()
    } else if list.len() == 1 {
        list[0]
    } else {
        joined(list.drop_last(), separator) + separator + list.last()
    }
}

/// Texts one after another, with a separator between them.
pub fn join(list: &[String], separator: &str) -> (out: String)
    ensures
        out@ == joined(views(list@), separator@),
{
    let ghost all = views(list@);
    let mut out = String::new();
    let mut i: usize = 0;
    assert(out@ =~= joined(all.take(0), separator@));
    while i < list.len()
        invariant
            all == views(list@),
            i <= list@.len(),
            out@ == joined(all.take(i as int), separator@),
        decreases list@.len() - i,
    {
        assert(all.take(i + 1).drop_last() =~= all.take(i as int));
        assert(all.take(i + 1).last() == list@[i as int]@);
        if i > 0 {
            out.append(separator);
            out.append(list[i].as_str());
        } else {
            out.append(list[i].as_str());
            assert(out@ =~= list@[0]@);
        }
        i += 1;
    }
    assert(all.take(i as int) =~= all);
    out
}

/// A text that may be missing, as a sequence.
pub open spec fn given(text: Option<&str>) -> Option<Seq<char>> {
    match text {
        Some(text) => Some(text@),
        None => None,
    }
}

/// A copy of a text that may be missing.
pub fn copied(text: &Option<String>) -> (out: Option<String>)
    ensures
        shown_as(out) == shown_as(*text),
{
    match text {
        Some(text) => Some(text.clone()),
        None => None,
    }
}

/// A text that may be missing, as a sequence.
pub open spec fn shown_as(text: Option<String>) -> Option<Seq<char>> {
    match text {
        Some(text) => Some(text@),
        None => None,
    }
}

/// The lines of a text.
pub fn split_lines(s: &[char]) -> (out: Vec<Vec<char>>)
    ensures
        texts(out@) == lines(s@),
{
    let mut out: Vec<Vec<char>> = Vec::new();
    let mut rest = s;
    assert(texts(out@) + lines(s@) =~= lines(s@));
    while rest.len() > 0
        invariant
            texts(out@) + lines(rest@) == lines(s@),
        decreases rest@.len(),
    {
        let (end, next) = read_line(rest);
        let line = vstd::slice::slice_subrange(rest, 0, end);
        assert(line@ =~= rest@.take(end as int));
        let after = vstd::slice::slice_subrange(rest, next, rest.len());
        assert(after@ =~= rest@.skip(next as int));
        let ghost before = texts(out@);
        out.push(vstd::slice::slice_to_vec(line));
        assert(texts(out@) =~= before.push(line@));
        assert(texts(out@) + lines(after@) =~= before + (seq![line@] + lines(after@)));
        rest = after;
    }
    assert(texts(out@) + Seq::<Seq<char>>::empty() =~= texts(out@));
    out
}

pub proof fn lemma_find_text(s: Seq<char>, part: Seq<char>, i: int)
    ensures
        find_text(s, part, i) >= 0 ==> i <= find_text(s, part, i) && find_text(s, part, i)
            + part.len() <= s.len(),
    decreases s.len() + 1 - i,
{
    if 0 <= i <= s.len() && !starts_with(s.skip(i), part) {
        lemma_find_text(s, part, i + 1);
    }
}

/// The parts of `s` between copies of a separator that is not empty.
pub open spec fn split_text(s: Seq<char>, separator: Seq<char>) -> Seq<Seq<char>>
    decreases s.len() via split_text_decreases
{
    let k = find_text(s, separator, 0);
    if separator.len() == 0 || k < 0 {
        seq![s]
    } else {
        seq![s.take(k)] + split_text(s.skip(k + separator.len()), separator)
    }
}

#[via_fn]
proof fn split_text_decreases(s: Seq<char>, separator: Seq<char>) {
    lemma_find_text(s, separator, 0);
}

/// The parts of `s` between copies of a separator that is not empty.
pub fn split_at_text(s: &[char], separator: &[char]) -> (out: Vec<Vec<char>>)
    requires
        separator@.len() > 0,
    ensures
        texts(out@) == split_text(s@, separator@),
{
    let mut out: Vec<Vec<char>> = Vec::new();
    let mut rest = s;
    assert(texts(out@) + split_text(s@, separator@) =~= split_text(s@, separator@));
    loop
        invariant
            separator@.len() > 0,
            texts(out@) + split_text(rest@, separator@) == split_text(s@, separator@),
        decreases rest@.len(),
    {
        let ghost before = texts(out@);
        match find_part(rest, separator) {
            Some(k) => {
                let part = vstd::slice::slice_subrange(rest, 0, k);
                assert(part@ =~= rest@.take(k as int));
                let n: usize = rest.len();
                let after = vstd::slice::slice_subrange(rest, k + separator.len(), n);
                assert(after@ =~= rest@.skip(k + separator@.len()));
                out.push(vstd::slice::slice_to_vec(part));
                assert(texts(out@) =~= before.push(part@));
                assert(texts(out@) + split_text(after@, separator@) =~= before + (seq![part@]
                    + split_text(after@, separator@)));
                rest = after;
            },
            None => {
                out.push(vstd::slice::slice_to_vec(rest));
                assert(texts(out@) =~= before + seq![rest@]);
                return out;
            },
        }
    }
}

/// A text with every `from` replaced by `to`.
pub fn replace_text(text: &str, from: &str, to: &str) -> (out: String)
    ensures
        out@ == replaced(text@, from@, to@),
{
    let made = replace_all(
        chars_of(text).as_slice(),
        chars_of(from).as_slice(),
        chars_of(to).as_slice(),
    );
    let out = string_of(made.as_slice(), 0, made.len());
    assert(out@ =~= made@);
    out
}

} // verus!
