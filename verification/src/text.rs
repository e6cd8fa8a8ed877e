//! Text: digits, trimming, searching.

use vstd::prelude::*;

verus! {

/// The character that stands for the digit `d`.
pub open spec fn digit_char(d: nat) -> char {
    if d < 10 {
        (48 + d) as char
    } else {
        (87 + d) as char
    }
}

/// `n` written in `base`, most significant digit first, without leading zeros.
pub open spec fn digits(n: nat, base: nat) -> Seq<char>
    decreases n,
{
    if base < 2 || n < base {
        seq![digit_char(n)]
    } else {
        proof {
            assert(n / base < n) by (nonlinear_arith)
                requires
                    n >= base,
                    base >= 2,
            ;
        }
        digits(n / base, base).push(digit_char(n % base))
    }
}

/// `n` in decimal.
pub open spec fn decimal(n: nat) -> Seq<char> {
    digits(n, 10)
}

/// `n` in lower-case hexadecimal behind `0x`.
pub open spec fn prefixed_hex(n: nat) -> Seq<char> {
    seq!['0', 'x'] + digits(n, 16)
}

fn digit_text(d: u64) -> (r: &'static str)
    requires
        d < 16,
    ensures
        r@ == seq![digit_char(d as nat)],
{
    proof {
        reveal_strlit("0");
        reveal_strlit("1");
        reveal_strlit("2");
        reveal_strlit("3");
        reveal_strlit("4");
        reveal_strlit("5");
        reveal_strlit("6");
        reveal_strlit("7");
        reveal_strlit("8");
        reveal_strlit("9");
        reveal_strlit("a");
        reveal_strlit("b");
        reveal_strlit("c");
        reveal_strlit("d");
        reveal_strlit("e");
        reveal_strlit("f");
    }
    let r = if d == 0 {
        "0"
    } else if d == 1 {
        "1"
    } else if d == 2 {
        "2"
    } else if d == 3 {
        "3"
    } else if d == 4 {
        "4"
    } else if d == 5 {
        "5"
    } else if d == 6 {
        "6"
    } else if d == 7 {
        "7"
    } else if d == 8 {
        "8"
    } else if d == 9 {
        "9"
    } else if d == 10 {
        "a"
    } else if d == 11 {
        "b"
    } else if d == 12 {
        "c"
    } else if d == 13 {
        "d"
    } else if d == 14 {
        "e"
    } else {
        "f"
    };
    assert(r@ =~= seq![digit_char(d as nat)]);
    r
}

fn append_digits(out: &mut String, n: u64, base: u64)
    requires
        2 <= base <= 16,
    ensures
        final(out)@ == old(out)@ + digits(n as nat, base as nat),
    decreases n,
{
    let ghost before = out@;
    if n < base {
        out.append(digit_text(n));
    } else {
        assert(n / base < n) by (nonlinear_arith)
            requires
                n >= base,
                base >= 2,
        ;
        append_digits(out, n / base, base);
        out.append(digit_text(n % base));
        assert(out@ =~= before + digits(n as nat, base as nat));
    }
}

/// Appends `n` in decimal.
pub fn append_decimal(out: &mut String, n: u64)
    ensures
        final(out)@ == old(out)@ + decimal(n as nat),
{
    append_digits(out, n, 10);
}

/// Appends `n` in lower-case hexadecimal behind `0x`.
pub fn append_prefixed_hex(out: &mut String, n: u64)
    ensures
        final(out)@ == old(out)@ + prefixed_hex(n as nat),
{
    let ghost before = out@;
    proof {
        reveal_strlit("0x");
    }
    out.append("0x");
    append_digits(out, n, 16);
    assert(out@ =~= before + prefixed_hex(n as nat));
}

/// `b` as two lower-case hexadecimal digits.
pub open spec fn hex_pair(b: u8) -> Seq<char> {
    seq![digit_char((b / 16) as nat), digit_char((b % 16) as nat)]
}

/// Appends `b` as two lower-case hexadecimal digits.
pub fn append_hex_pair(out: &mut String, b: u8)
    ensures
        final(out)@ == old(out)@ + hex_pair(b),
{
    let ghost before = out@;
    out.append(digit_text((b / 16) as u64));
    out.append(digit_text((b % 16) as u64));
    assert(out@ =~= before + hex_pair(b));
}

/// Whether `c` is one of the ten decimal digits.
pub open spec fn is_digit(c: char) -> bool {
    48 <= c as int <= 57
}

/// The value of a decimal digit.
pub open spec fn digit_value(c: char) -> int {
    c as int - 48
}

/// The digit that `c` stands for, if it is a decimal digit.
pub fn decimal_digit(c: char) -> (r: Option<u8>)
    ensures
        r == (if is_digit(c) { Some(digit_value(c) as u8) } else { None }),
{
    let v = c as u32;
    if v >= 48 && v <= 57 {
        Some((v - 48) as u8)
    } else {
        None
    }
}

/// How a number below one thousand reads in decimal.
pub proof fn lemma_decimal_short(n: nat)
    requires
        n < 1000,
    ensures
        n < 10 ==> decimal(n) == seq![digit_char(n)],
        10 <= n < 100 ==> decimal(n) == seq![digit_char(n / 10), digit_char(n % 10)],
        100 <= n ==> decimal(n) == seq![
            digit_char(n / 100),
            digit_char(n / 10 % 10),
            digit_char(n % 10),
        ],
{
    reveal_with_fuel(digits, 4);
    if 10 <= n && n < 100 {
        assert(decimal(n) =~= seq![digit_char(n / 10), digit_char(n % 10)]);
    }
    if 100 <= n {
        assert(n / 10 / 10 == n / 100);
        assert(decimal(n) =~= seq![
            digit_char(n / 100),
            digit_char(n / 10 % 10),
            digit_char(n % 10),
        ]);
    }
}

/// The characters of `s`.
pub fn chars_of(s: &str) -> (r: Vec<char>)
    ensures
        r@ == s@,
{
    let mut out: Vec<char> = Vec::new();
    for c in it: s.chars()
        invariant
            out@ == it.seq().take(it.index()),
            it.seq() == s@,
    {
        out.push(c);
        assert(out@ =~= it.seq().take(it.index() + 1));
    }
    assert(out@ =~= s@);
    out
}

/// Whether two texts are the same.
pub fn same_text(a: &str, b: &str) -> (r: bool)
    ensures
        r == (a@ == b@),
{
    a.to_owned() == b.to_owned()
}

/// Whether a text holds ASCII characters only.
pub open spec fn is_ascii_text(s: Seq<char>) -> bool {
    forall|i: int| 0 <= i < s.len() ==> (#[trigger] s[i]) as int <= 127
}

/// Whether `c` is one of the 26 capital letters of ASCII.
pub open spec fn is_capital(c: char) -> bool {
    65 <= c as int <= 90
}

/// The small letter for a capital letter of ASCII; any other character itself.
pub open spec fn small_letter(c: char) -> char {
    if is_capital(c) {
        (c as int + 32) as char
    } else {
        c
    }
}

/// A text with small letters in place of the capital letters of ASCII.
pub open spec fn ascii_lower(s: Seq<char>) -> Seq<char> {
    s.map_values(|c: char| small_letter(c))
}

/// Whether `c` is white space: a character with the Unicode property
/// `White_Space`.
pub open spec fn is_space(c: char) -> bool {
    let v = c as int;
    ||| 0x09 <= v <= 0x0D
    ||| v == 0x20
    ||| v == 0x85
    ||| v == 0xA0
    ||| v == 0x1680
    ||| 0x2000 <= v <= 0x200A
    ||| v == 0x2028
    ||| v == 0x2029
    ||| v == 0x202F
    ||| v == 0x205F
    ||| v == 0x3000
}

/// Whether `c` is white space.
pub fn space(c: char) -> (r: bool)
    ensures
        r == is_space(c),
{
    let v = c as u32;
    (v >= 0x09 && v <= 0x0D) || v == 0x20 || v == 0x85 || v == 0xA0 || v == 0x1680 || (v >= 0x2000
        && v <= 0x200A) || v == 0x2028 || v == 0x2029 || v == 0x202F || v == 0x205F || v == 0x3000
}

/// `s` without the white space at its start.
pub open spec fn trim_start(s: Seq<char>) -> Seq<char>
    decreases s.len(),
{
    if s.len() > 0 && is_space(s.first()) {
        trim_start(s.drop_first())
    } else {
        s
    }
}

/// `s` without the white space at its end.
pub open spec fn trim_end(s: Seq<char>) -> Seq<char>
    decreases s.len(),
{
    if s.len() > 0 && is_space(s.last()) {
        trim_end(s.drop_last())
    } else {
        s
    }
}

/// `s` without the white space around it.
pub open spec fn trim(s: Seq<char>) -> Seq<char> {
    trim_end(trim_start(s))
}

/// Where the text between `start` and `end` lies once the white space around it
/// is left out.
pub fn trim_range(s: &[char], start: usize, end: usize) -> (r: (usize, usize))
    requires
        start <= end <= s@.len(),
    ensures
        start <= r.0 <= r.1 <= end,
        s@.subrange(r.0 as int, r.1 as int) == trim(s@.subrange(start as int, end as int)),
{
    let ghost whole = s@.subrange(start as int, end as int);
    let mut a = start;
    while a < end && space(s[a])
        invariant
            start <= a <= end <= s@.len(),
            trim_start(whole) == trim_start(s@.subrange(a as int, end as int)),
        decreases end - a,
    {
        assert(s@.subrange(a as int, end as int).drop_first() =~= s@.subrange(a + 1, end as int));
        a = a + 1;
    }
    let ghost rest = s@.subrange(a as int, end as int);
    assert(trim_start(whole) == rest);
    let mut b = end;
    while b > a && space(s[b - 1])
        invariant
            a <= b <= end <= s@.len(),
            trim_end(rest) == trim_end(s@.subrange(a as int, b as int)),
        decreases b,
    {
        assert(s@.subrange(a as int, b as int).drop_last() =~= s@.subrange(a as int, b - 1));
        b = b - 1;
    }
    (a, b)
}

/// Where `c` stands first in `s` at or behind position `i`; the end of `s` if
/// nowhere.
pub open spec fn find_from(s: Seq<char>, c: char, i: int) -> int
    decreases s.len() - i,
{
    if i < 0 || i >= s.len() || s[i] == c {
        i
    } else {
        find_from(s, c, i + 1)
    }
}

/// Where `c` stands first between `start` and `end`; `end` if nowhere.
pub fn find_char(s: &[char], c: char, start: usize, end: usize) -> (r: usize)
    requires
        start <= end <= s@.len(),
    ensures
        start <= r <= end,
        r - start == find_from(s@.subrange(start as int, end as int), c, 0),
        r < end ==> s@[r as int] == c,
{
    let ghost part = s@.subrange(start as int, end as int);
    let mut i = start;
    while i < end && s[i] != c
        invariant
            start <= i <= end <= s@.len(),
            part == s@.subrange(start as int, end as int),
            find_from(part, c, 0) == find_from(part, c, i - start),
        decreases end - i,
    {
        assert(part[i - start] == s@[i as int]);
        i = i + 1;
    }
    if i < end {
        assert(part[i - start] == s@[i as int]);
    }
    i
}

/// Whether the text between `start` and `end` is `t`.
pub fn range_is(s: &[char], start: usize, end: usize, t: &str) -> (r: bool)
    requires
        start <= end <= s@.len(),
    ensures
        r == (s@.subrange(start as int, end as int) == t@),
{
    let other = chars_of(t);
    if other.len() != end - start {
        assert(s@.subrange(start as int, end as int).len() == end - start);
        return false;
    }
    let mut i: usize = 0;
    while i < other.len()
        invariant
            start <= end <= s@.len(),
            i <= other@.len(),
            other@.len() == end - start,
            other@ == t@,
            forall|k: int| 0 <= k < i ==> s@[start + k] == other@[k],
        decreases other@.len() - i,
    {
        if s[start + i] != other[i] {
            assert(s@.subrange(start as int, end as int)[i as int] != t@[i as int]);
            return false;
        }
        i = i + 1;
    }
    assert(s@.subrange(start as int, end as int) =~= t@);
    true
}

/// The number that a row of decimal digits stands for.
pub open spec fn number(s: Seq<char>) -> nat
    decreases s.len(),
{
    if s.len() == 0 {
        0
    } else {
        number(s.drop_last()) * 10 + digit_value(s.last()) as nat
    }
}

/// Whether all characters are decimal digits.
pub open spec fn all_digits(s: Seq<char>) -> bool {
    forall|i: int| 0 <= i < s.len() ==> is_digit(#[trigger] s[i])
}

/// The number below 65536 that a text stands for: one or more decimal digits,
/// with at most one plus sign in front.
pub open spec fn read_u16(s: Seq<char>) -> Option<u16> {
    let digits = if s.len() > 0 && s[0] == '+' {
        s.drop_first()
    } else {
        s
    };
    if digits.len() > 0 && all_digits(digits) && number(digits) <= 65535 {
        Some(number(digits) as u16)
    } else {
        None
    }
}

proof fn lemma_number_grows(s: Seq<char>, k: int)
    requires
        0 <= k <= s.len(),
        all_digits(s),
    ensures
        number(s.take(k)) <= number(s),
    decreases s.len() - k,
{
    if k < s.len() {
        lemma_number_grows(s, k + 1);
        assert(s.take(k + 1).drop_last() =~= s.take(k));
        assert(is_digit(s[k]));
    } else {
        assert(s.take(k) =~= s);
    }
}

/// The number below 65536 that the text between `start` and `end` stands for.
pub fn parse_u16(s: &[char], start: usize, end: usize) -> (r: Option<u16>)
    requires
        start <= end <= s@.len(),
    ensures
        r == read_u16(s@.subrange(start as int, end as int)),
{
    let ghost whole = s@.subrange(start as int, end as int);
    let first = if start < end && s[start] == '+' {
        start + 1
    } else {
        start
    };
    let ghost digits = s@.subrange(first as int, end as int);
    proof {
        if first > start {
            assert(whole.drop_first() =~= digits);
        }
    }
    if first == end {
        return None;
    }
    let mut value: u32 = 0;
    let mut i = first;
    assert(digits.take(0) =~= Seq::empty());
    while i < end
        invariant
            first <= i <= end <= s@.len(),
            digits == s@.subrange(first as int, end as int),
            forall|k: int| 0 <= k < i - first ==> is_digit(#[trigger] digits[k]),
            value == number(digits.take(i - first)),
            value <= 65535,
            whole == s@.subrange(start as int, end as int),
            read_u16(whole) == (if digits.len() > 0 && all_digits(digits) && number(digits)
                <= 65535 {
                Some(number(digits) as u16)
            } else {
                None
            }),
        decreases end - i,
    {
        let d = match decimal_digit(s[i]) {
            Some(d) => d,
            None => {
                assert(!is_digit(digits[i - first]));
                return None;
            },
        };
        assert(digits.take(i - first + 1).drop_last() =~= digits.take(i - first));
        assert(digits[i - first] == s@[i as int]);
        value = value * 10 + d as u32;
        if value > 65535 {
            proof {
                if all_digits(digits) {
                    lemma_number_grows(digits, i - first + 1);
                }
            }
            return None;
        }
        i = i + 1;
    }
    assert(digits.take(end - first) =~= digits);
    Some(value as u16)
}

/// A number in decimal consists of digits, has no zero in front unless it is
/// zero, and reads as that number.
pub proof fn lemma_decimal_reads_back(n: nat)
    ensures
        decimal(n).len() > 0,
        all_digits(decimal(n)),
        number(decimal(n)) == n,
        n > 0 ==> decimal(n)[0] != '0',
        n == 0 ==> decimal(n) == seq!['0'],
    decreases n,
{
    let s = decimal(n);
    if n < 10 {
        assert(s =~= seq![digit_char(n)]);
        assert(s.drop_last() =~= Seq::empty());
        assert(number(s.drop_last()) == 0);
    } else {
        lemma_decimal_reads_back(n / 10);
        let front = decimal(n / 10);
        assert(s =~= front.push(digit_char(n % 10)));
        assert(s.drop_last() =~= front);
        assert(s[0] == front[0]);
        assert forall|i: int| 0 <= i < s.len() implies is_digit(#[trigger] s[i]) by {
            if i < front.len() {
                assert(s[i] == front[i]);
            }
        }
    }
}

/// The value of a digit in hexadecimal with small letters; none for any other
/// character.
pub open spec fn hex_value(c: char) -> Option<int> {
    if 48 <= c as int <= 57 {
        Some(c as int - 48)
    } else if 97 <= c as int <= 102 {
        Some(c as int - 87)
    } else {
        None
    }
}

/// A byte as two digits has the value of the two digits.
pub proof fn lemma_hex_pair_reads_back(b: u8)
    ensures
        hex_pair(b).len() == 2,
        hex_value(hex_pair(b)[0]) is Some,
        hex_value(hex_pair(b)[1]) is Some,
        16 * hex_value(hex_pair(b)[0])->0 + hex_value(hex_pair(b)[1])->0 == b,
{
}

/// The number that a row of hexadecimal digits stands for.
pub open spec fn hex_number(s: Seq<char>) -> int
    decreases s.len(),
{
    if s.len() == 0 {
        0
    } else {
        hex_number(s.drop_last()) * 16 + hex_value(s.last())->0
    }
}

proof fn lemma_hex_digits(n: nat)
    ensures
        digits(n, 16).len() > 0,
        hex_number(digits(n, 16)) == n,
        forall|i: int|
            0 <= i < digits(n, 16).len() ==> hex_value(#[trigger] digits(n, 16)[i]) is Some,
    decreases n,
{
    let s = digits(n, 16);
    if n < 16 {
        assert(s =~= seq![digit_char(n)]);
        assert(s.drop_last() =~= Seq::empty());
        assert(hex_number(s.drop_last()) == 0);
    } else {
        lemma_hex_digits(n / 16);
        let front = digits(n / 16, 16);
        assert(s =~= front.push(digit_char(n % 16)));
        assert(s.drop_last() =~= front);
        assert forall|i: int| 0 <= i < s.len() implies hex_value(#[trigger] s[i]) is Some by {
            if i < front.len() {
                assert(s[i] == front[i]);
            }
        }
    }
}

/// A number in hexadecimal has `0x` in front, and reads as that number.
pub proof fn lemma_hex_reads_back(n: nat)
    ensures
        prefixed_hex(n).len() > 2,
        prefixed_hex(n)[0] == '0' && prefixed_hex(n)[1] == 'x',
        hex_number(prefixed_hex(n).subrange(2, prefixed_hex(n).len() as int)) == n,
{
    lemma_hex_digits(n);
    assert(prefixed_hex(n).subrange(2, prefixed_hex(n).len() as int) =~= digits(n, 16));
}

/// A number below 65536 in decimal is read as that number, with or without a
/// plus sign in front.
pub proof fn lemma_number_is_read(n: u16)
    ensures
        read_u16(decimal(n as nat)) == Some(n),
        read_u16(seq!['+'] + decimal(n as nat)) == Some(n),
{
    lemma_decimal_reads_back(n as nat);
    let s = decimal(n as nat);
    assert(is_digit(s[0]));
    assert((seq!['+'] + s).drop_first() =~= s);
}

/// What is found first is there, and does not stand before.
pub proof fn lemma_found_first(s: Seq<char>, c: char, i: int)
    requires
        0 <= i <= s.len(),
    ensures
        i <= find_from(s, c, i) <= s.len(),
        find_from(s, c, i) < s.len() ==> s[find_from(s, c, i)] == c,
        forall|k: int| i <= k < find_from(s, c, i) ==> s[k] != c,
    decreases s.len() - i,
{
    if i < s.len() && s[i] != c {
        lemma_found_first(s, c, i + 1);
    }
}

/// White space around a text is left out, and nothing else: a text that neither
/// begins nor ends with white space comes out as it is.
pub proof fn lemma_trimmed(before: Seq<char>, s: Seq<char>, after: Seq<char>)
    requires
        forall|i: int| 0 <= i < before.len() ==> is_space(#[trigger] before[i]),
        forall|i: int| 0 <= i < after.len() ==> is_space(#[trigger] after[i]),
        s.len() > 0 ==> !is_space(s.first()) && !is_space(s.last()),
    ensures
        trim(before + s + after) == s,
    decreases before.len() + after.len(),
{
    let t = before + s + after;
    if before.len() > 0 {
        assert(is_space(before[0]));
        assert(t.first() == before[0]);
        assert(t.drop_first() =~= before.drop_first() + s + after);
        lemma_trimmed(before.drop_first(), s, after);
    } else if s.len() > 0 {
        assert(t.first() == s.first());
        lemma_end_trimmed(s, after);
        assert(t =~= s + after);
    } else if after.len() > 0 {
        assert(is_space(after[0]));
        assert(t.first() == after[0]);
        assert(t.drop_first() =~= before + s + after.drop_first());
        lemma_trimmed(before, s, after.drop_first());
    } else {
        assert(t =~= s);
    }
}

proof fn lemma_end_trimmed(s: Seq<char>, after: Seq<char>)
    requires
        forall|i: int| 0 <= i < after.len() ==> is_space(#[trigger] after[i]),
        s.len() > 0,
        !is_space(s.last()),
    ensures
        trim_end(s + after) == s,
    decreases after.len(),
{
    let t = s + after;
    if after.len() > 0 {
        assert(is_space(after[after.len() - 1]));
        assert(t.last() == after[after.len() - 1]);
        assert(t.drop_last() =~= s + after.drop_last());
        lemma_end_trimmed(s, after.drop_last());
    } else {
        assert(t =~= s);
    }
}

/// In lower case each character stands where it stood; the capital letters of
/// ASCII become the small letters 32 places on, and no other changes.
pub proof fn lemma_letters_in_place(s: Seq<char>)
    ensures
        ascii_lower(s).len() == s.len(),
        forall|i: int|
            0 <= i < s.len() && 65 <= s[i] as int <= 90 ==> (#[trigger] ascii_lower(s)[i]) as int
                == s[i] as int + 32,
        forall|i: int|
            0 <= i < s.len() && !(65 <= s[i] as int <= 90) ==> (#[trigger] ascii_lower(s)[i])
                == s[i],
{
}

/// The characters that count as white space, and the decimal digits.
pub proof fn lemma_character_classes(c: char)
    ensures
        is_space(c) <==> seq![
            0x09int,
            0x0A,
            0x0B,
            0x0C,
            0x0D,
            0x20,
            0x85,
            0xA0,
            0x1680,
            0x2000,
            0x2001,
            0x2002,
            0x2003,
            0x2004,
            0x2005,
            0x2006,
            0x2007,
            0x2008,
            0x2009,
            0x200A,
            0x2028,
            0x2029,
            0x202F,
            0x205F,
            0x3000,
        ].contains(c as int),
        is_digit(c) <==> '0' as int <= c as int <= '9' as int,
        is_digit(c) ==> digit_value(c) == c as int - '0' as int,
{
    let list = seq![
        0x09int,
        0x0A,
        0x0B,
        0x0C,
        0x0D,
        0x20,
        0x85,
        0xA0,
        0x1680,
        0x2000,
        0x2001,
        0x2002,
        0x2003,
        0x2004,
        0x2005,
        0x2006,
        0x2007,
        0x2008,
        0x2009,
        0x200A,
        0x2028,
        0x2029,
        0x202F,
        0x205F,
        0x3000,
    ];
    let v = c as int;
    if is_space(c) {
        let i = if v <= 0x0D {
            v - 9
        } else if v == 0x20 {
            5
        } else if v == 0x85 {
            6
        } else if v == 0xA0 {
            7
        } else if v == 0x1680 {
            8
        } else if v <= 0x200A {
            v - 0x2000 + 9
        } else if v == 0x2028 {
            20
        } else if v == 0x2029 {
            21
        } else if v == 0x202F {
            22
        } else if v == 0x205F {
            23
        } else {
            24
        };
        assert(list[i] == v);
    }
    if list.contains(v) {
        let i = choose|i: int| 0 <= i < list.len() && list[i] == v;
        assert(0 <= i < 25);
    }
}

/// A number is read only from decimal digits with at most one plus sign in
/// front, and only if it is below 65536; each digit counts ten times as much as
/// the next one.
pub proof fn lemma_only_numbers_are_read(s: Seq<char>, digit: char)
    ensures
        read_u16(s) matches Some(n) ==> {
            let row = if s[0] == '+' {
                s.drop_first()
            } else {
                s
            };
            &&& row.len() > 0
            &&& forall|i: int| 0 <= i < row.len() ==> is_digit(#[trigger] row[i])
            &&& number(row) == n
        },
        (s.len() > 0 && (forall|i: int| 0 <= i < s.len() ==> is_digit(#[trigger] s[i])) && number(s)
            > 65535) ==> read_u16(s) is None,
        is_digit(digit) ==> number(s.push(digit)) == 10 * number(s) + digit_value(digit),
        number(Seq::empty()) == 0,
{
    assert(s.push(digit).drop_last() =~= s);
    if s.len() > 0 && s[0] == '+' {
        assert(!is_digit(s[0]));
    }
}

} // verus!
