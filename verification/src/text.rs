//! Character and string primitives shared by every text projection of the
//! schema model: char classification, char-sequence joins, decimal and hex
//! rendering, and the few std string operations the library builds on.

use vstd::prelude::*;

verus! {

/// Whether `c` is an ASCII uppercase letter.
pub open spec fn is_ascii_upper(c: char) -> bool {
    'A' <= c <= 'Z'
}

/// Whether `c` is an ASCII lowercase letter.
pub open spec fn is_ascii_lower(c: char) -> bool {
    'a' <= c <= 'z'
}

/// Whether `c` is an ASCII decimal digit.
pub open spec fn is_ascii_digit(c: char) -> bool {
    '0' <= c <= '9'
}

/// Whether `c` is an ASCII letter or digit.
pub open spec fn is_ascii_alphanumeric(c: char) -> bool {
    is_ascii_upper(c) || is_ascii_lower(c) || is_ascii_digit(c)
}

/// The ASCII lowercase form of `c`; any other character is unchanged.
pub open spec fn ascii_lower(c: char) -> char {
    if is_ascii_upper(c) {
        ((c as u32 + 32) as u8) as char
    } else {
        c
    }
}

/// The ASCII uppercase form of `c`; any other character is unchanged.
pub open spec fn ascii_upper(c: char) -> char {
    if is_ascii_lower(c) {
        ((c as u32 - 32) as u8) as char
    } else {
        c
    }
}

/// Whether `c` carries the Unicode `White_Space` property: the 25 code
/// points the Unicode Character Database lists for it.
pub open spec fn unicode_white_space(c: char) -> bool {
    let v = c as u32;
    ||| 0x09 <= v <= 0x0D
    ||| v == 0x20
    ||| v == 0x85
    ||| v == 0xA0
    ||| v == 0x1680
    ||| 0x2000 <= v <= 0x200A
    ||| v == 0x2028
    ||| v == 0x2029
    ||| v == 0x202F
    ||| v == 0x205F
    ||| v == 0x3000
}

/// Whether `c` is whitespace in the Unicode sense.
pub(crate) fn char_is_whitespace(c: char) -> (r: bool)
    ensures
        r == unicode_white_space(c),
        c == ' ' ==> r,
        c == '\n' ==> r,
{
    let v = c as u32;
    (0x09 <= v && v <= 0x0D) || v == 0x20 || v == 0x85 || v == 0xA0 || v == 0x1680 || (0x2000 <= v && v
        <= 0x200A) || v == 0x2028 || v == 0x2029 || v == 0x202F || v == 0x205F || v == 0x3000
}

/// `String::push`: appends one character at the end of the string.
#[verifier::external_body]
pub(crate) fn push_char(s: &mut String, c: char)
    ensures
        final(s)@ == old(s)@.push(c),
{
    s.push(c);
}

pub(crate) fn is_upper(c: char) -> (r: bool)
    ensures
        r == is_ascii_upper(c),
{
    c >= 'A' && c <= 'Z'
}

pub(crate) fn is_lower(c: char) -> (r: bool)
    ensures
        r == is_ascii_lower(c),
{
    c >= 'a' && c <= 'z'
}

pub(crate) fn is_digit(c: char) -> (r: bool)
    ensures
        r == is_ascii_digit(c),
{
    c >= '0' && c <= '9'
}

pub(crate) fn is_alphanumeric(c: char) -> (r: bool)
    ensures
        r == is_ascii_alphanumeric(c),
{
    is_upper(c) || is_lower(c) || is_digit(c)
}

pub(crate) fn to_lower(c: char) -> (r: char)
    ensures
        r == ascii_lower(c),
{
    if is_upper(c) {
        let v: u8 = (c as u32 + 32) as u8;
        v as char
    } else {
        c
    }
}

pub(crate) fn to_upper(c: char) -> (r: char)
    ensures
        r == ascii_upper(c),
{
    if is_lower(c) {
        let v: u8 = (c as u32 - 32) as u8;
        v as char
    } else {
        c
    }
}

/// The characters of `s`, in order.
pub(crate) fn chars_of(s: &str) -> (v: Vec<char>)
    ensures
        v@ == s@,
{
    let n = s.unicode_len();
    let mut v: Vec<char> = Vec::new();
    let mut i: usize = 0;
    while i < n
        invariant
            i <= n,
            n == s@.len(),
            v@ == s@.subrange(0, i as int),
        decreases n - i,
    {
        v.push(s.get_char(i));
        i += 1;
    }
    v
}

/// A string holding exactly the characters `chars`.
pub(crate) fn string_of(chars: &[char]) -> (s: String)
    ensures
        s@ == chars@,
{
    let mut s = String::new();
    let mut i: usize = 0;
    while i < chars.len()
        invariant
            i <= chars@.len(),
            s@ == chars@.subrange(0, i as int),
        decreases chars.len() - i,
    {
        push_char(&mut s, chars[i]);
        i += 1;
    }
    s
}

/// An owned copy of `s`.
pub(crate) fn owned(s: &str) -> (r: String)
    ensures
        r@ == s@,
{
    s.to_owned()
}

/// Character-wise equality of two string slices.
pub(crate) fn str_eq(a: &str, b: &str) -> (r: bool)
    ensures
        r == (a@ == b@),
{
    a.to_owned() == b.to_owned()
}

/// Whether `s` contains the character `c`.
pub(crate) fn contains_char(s: &str, c: char) -> (r: bool)
    ensures
        r == s@.contains(c),
{
    let chars = chars_of(s);
    let mut i: usize = 0;
    while i < chars.len()
        invariant
            i <= chars@.len(),
            chars@ == s@,
            forall|j: int| 0 <= j < i ==> chars@[j] != c,
        decreases chars.len() - i,
    {
        if chars[i] == c {
            return true;
        }
        i += 1;
    }
    assert(!s@.contains(c)) by {
        if s@.contains(c) {
            let k = choose|k: int| 0 <= k < s@.len() && s@[k] == c;
            assert(chars@[k] == c);
        }
    }
    false
}

/// `parts` joined with `sep` between consecutive parts.
pub open spec fn join_seq(parts: Seq<Seq<char>>, sep: Seq<char>) -> Seq<char>
    decreases parts.len(),
{
    if parts.len() == 0 {
        Seq::empty()
    } else if parts.len() == 1 {
        parts[0]
    } else {
        join_seq(parts.drop_last(), sep) + sep + parts.last()
    }
}

/// The character sequences of a list of strings.
pub open spec fn views_of(parts: Seq<String>) -> Seq<Seq<char>> {
    parts.map_values(|p: String| p@)
}

/// Viewing a list grown by one string grows its view by that string's view.
pub proof fn lemma_views_of_push(s: Seq<String>, x: String)
    ensures
        views_of(s.push(x)) == views_of(s).push(x@),
{
    assert(views_of(s.push(x)) =~= views_of(s).push(x@));
}

/// The parts joined with `sep` between consecutive parts.
pub(crate) fn join(parts: &Vec<String>, sep: &str) -> (s: String)
    ensures
        s@ == join_seq(views_of(parts@), sep@),
{
    let mut s = String::new();
    let ghost views = views_of(parts@);
    let mut i: usize = 0;
    while i < parts.len()
        invariant
            i <= parts@.len(),
            views == views_of(parts@),
            views.len() == parts@.len(),
            s@ == join_seq(views.take(i as int), sep@),
        decreases parts.len() - i,
    {
        assert(views.take(i + 1).drop_last() =~= views.take(i as int));
        if i != 0 {
            s.append(sep);
        }
        s.append(parts[i].as_str());
        i += 1;
    }
    assert(views.take(parts@.len() as int) =~= views);
    s
}

/// The decimal digit character of `d`.
pub open spec fn digit_char(d: nat) -> char {
    ((d + 48) as u8) as char
}

/// The decimal rendering of `v`, without sign or leading zeros.
pub open spec fn decimal_seq(v: nat) -> Seq<char>
    decreases v,
{
    if v < 10 {
        seq![digit_char(v)]
    } else {
        decimal_seq(v / 10).push(digit_char(v % 10))
    }
}

/// The decimal text of `v`.
pub(crate) fn decimal_text(v: u64) -> (s: String)
    ensures
        s@ == decimal_seq(v as nat),
    decreases v,
{
    if v < 10 {
        let mut s = String::new();
        let d: u8 = (v as u8) + 48;
        push_char(&mut s, d as char);
        s
    } else {
        let mut s = decimal_text(v / 10);
        let d: u8 = ((v % 10) as u8) + 48;
        push_char(&mut s, d as char);
        s
    }
}

/// The value of a run of decimal digits.
pub open spec fn digits_value(s: Seq<char>) -> nat
    decreases s.len(),
{
    if s.len() == 0 {
        0
    } else {
        digits_value(s.drop_last()) * 10 + ((s.last() as u32 - 48) as nat)
    }
}

/// Whether every character of `s` is a decimal digit.
pub open spec fn all_digits(s: Seq<char>) -> bool {
    forall|i: int| 0 <= i < s.len() ==> is_ascii_digit(#[trigger] s[i])
}

/// The digits an unsigned decimal literal carries: `s` without a leading `+`.
pub open spec fn unsigned_digits(s: Seq<char>) -> Seq<char> {
    if s.len() > 0 && s[0] == '+' {
        s.drop_first()
    } else {
        s
    }
}

/// The value `u64::from_str` gives `s`: an optional `+` followed by at least
/// one decimal digit, whose value fits in 64 bits.
pub open spec fn parse_unsigned(s: Seq<char>) -> Option<u64> {
    let digits = unsigned_digits(s);
    if digits.len() > 0 && all_digits(digits) && digits_value(digits) <= u64::MAX {
        Some(digits_value(digits) as u64)
    } else {
        None
    }
}

/// Parse an unsigned decimal literal.
pub(crate) fn parse_u64(s: &str) -> (r: Option<u64>)
    ensures
        r == parse_unsigned(s@),
{
    let chars = chars_of(s);
    let start: usize = if chars.len() > 0 && chars[0] == '+' {
        1
    } else {
        0
    };
    let ghost digits = unsigned_digits(s@);
    assert(digits =~= chars@.subrange(start as int, chars@.len() as int));
    if start >= chars.len() {
        return None;
    }
    let mut value: u64 = 0;
    let mut i: usize = start;
    while i < chars.len()
        invariant
            start <= i <= chars@.len(),
            chars@ == s@,
            digits =~= chars@.subrange(start as int, chars@.len() as int),
            digits == unsigned_digits(s@),
            all_digits(chars@.subrange(start as int, i as int)),
            value as nat == digits_value(chars@.subrange(start as int, i as int)),
        decreases chars.len() - i,
    {
        let c = chars[i];
        let prefix = Ghost(chars@.subrange(start as int, i as int));
        let next = Ghost(chars@.subrange(start as int, i + 1));
        assert(next@.drop_last() =~= prefix@);
        if !is_digit(c) {
            assert(!all_digits(digits)) by {
                assert(digits[i - start] == c);
                assert(!is_ascii_digit(digits[i - start]));
            }
            assert(parse_unsigned(s@) is None);
            return None;
        }
        let d: u64 = (c as u32 - 48) as u64;
        if value > (u64::MAX - d) / 10 {
            proof {
                if all_digits(digits) {
                    lemma_digits_value_monotone(digits, (i + 1 - start) as nat);
                }
                assert(digits.subrange(0, (i + 1 - start) as int) =~= next@);
                assert(value * 10 + d > u64::MAX) by (nonlinear_arith)
                    requires
                        value > (u64::MAX - d) / 10,
                        d <= 9,
                ;
            }
            return None;
        }
        assert(value * 10 + d <= u64::MAX) by (nonlinear_arith)
            requires
                value <= (u64::MAX - d) / 10,
                d <= 9,
        ;
        value = value * 10 + d;
        i += 1;
        assert(all_digits(chars@.subrange(start as int, i as int))) by {
            assert forall|j: int| 0 <= j < i - start implies is_ascii_digit(
                #[trigger] chars@.subrange(start as int, i as int)[j],
            ) by {
                if j < i - 1 - start {
                    assert(chars@.subrange(start as int, i as int)[j] == prefix@[j]);
                }
            }
        }
    }
    assert(chars@.subrange(start as int, chars@.len() as int) =~= digits);
    Some(value)
}

/// A prefix of a digit run never exceeds the value of the whole run.
pub proof fn lemma_digits_value_monotone(s: Seq<char>, k: nat)
    requires
        k <= s.len(),
        all_digits(s),
    ensures
        digits_value(s.subrange(0, k as int)) <= digits_value(s),
    decreases s.len() - k,
{
    if k < s.len() {
        lemma_digits_value_monotone(s, k + 1);
        let a = s.subrange(0, k as int);
        let b = s.subrange(0, (k + 1) as int);
        assert(b.drop_last() =~= a);
        assert(is_ascii_digit(s[k as int]));
        assert(digits_value(b) == digits_value(a) * 10 + ((b.last() as u32 - 48) as nat));
        assert(digits_value(a) <= digits_value(a) * 10) by (nonlinear_arith);
    } else {
        assert(s.subrange(0, k as int) =~= s);
    }
}

/// The lowercase hexadecimal digit character of a nibble.
pub open spec fn hex_digit(n: nat) -> char {
    if n < 10 {
        ((n + 48) as u8) as char
    } else {
        ((n + 87) as u8) as char
    }
}

/// The two-character lowercase hexadecimal rendering of each byte, in order.
pub open spec fn hex_seq(bytes: Seq<u8>) -> Seq<char>
    decreases bytes.len(),
{
    if bytes.len() == 0 {
        Seq::empty()
    } else {
        hex_seq(bytes.drop_last()).push(hex_digit((bytes.last() / 16) as nat)).push(
            hex_digit((bytes.last() % 16) as nat),
        )
    }
}

fn hex_char(n: u8) -> (c: char)
    requires
        n < 16,
    ensures
        c == hex_digit(n as nat),
{
    if n < 10 {
        (n + 48) as char
    } else {
        (n + 87) as char
    }
}

/// The lowercase hexadecimal text of `bytes`, two digits per byte.
pub(crate) fn hex_text(bytes: &[u8]) -> (s: String)
    ensures
        s@ == hex_seq(bytes@),
{
    let mut s = String::new();
    let mut i: usize = 0;
    while i < bytes.len()
        invariant
            i <= bytes@.len(),
            s@ == hex_seq(bytes@.subrange(0, i as int)),
        decreases bytes.len() - i,
    {
        let b = bytes[i];
        assert(bytes@.subrange(0, i + 1).drop_last() =~= bytes@.subrange(0, i as int));
        push_char(&mut s, hex_char(b / 16));
        push_char(&mut s, hex_char(b % 16));
        i += 1;
    }
    assert(bytes@.subrange(0, bytes@.len() as int) =~= bytes@);
    s
}

/// The value of a hexadecimal digit character (either case), if it is one.
pub open spec fn hex_value(c: char) -> Option<u8> {
    if is_ascii_digit(c) {
        Some((c as u32 - 48) as u8)
    } else if 'a' <= c <= 'f' {
        Some((c as u32 - 87) as u8)
    } else if 'A' <= c <= 'F' {
        Some((c as u32 - 55) as u8)
    } else {
        None
    }
}

/// The value of a lowercase hexadecimal digit character, if it is one.
pub open spec fn lower_hex_value(c: char) -> Option<u8> {
    if is_ascii_digit(c) {
        Some((c as u32 - 48) as u8)
    } else if 'a' <= c <= 'f' {
        Some((c as u32 - 87) as u8)
    } else {
        None
    }
}

pub(crate) fn lower_hex_value_of(c: char) -> (r: Option<u8>)
    ensures
        r == lower_hex_value(c),
{
    if is_digit(c) {
        Some((c as u32 - 48) as u8)
    } else if c >= 'a' && c <= 'f' {
        Some((c as u32 - 87) as u8)
    } else {
        None
    }
}

pub(crate) fn hex_value_of(c: char) -> (r: Option<u8>)
    ensures
        r == hex_value(c),
{
    if is_digit(c) {
        Some((c as u32 - 48) as u8)
    } else if c >= 'a' && c <= 'f' {
        Some((c as u32 - 87) as u8)
    } else if c >= 'A' && c <= 'F' {
        Some((c as u32 - 55) as u8)
    } else {
        None
    }
}

} // verus!
