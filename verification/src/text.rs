//! Character- and string-level helpers shared by the rest of the library.

use vstd::prelude::*;

verus! {

/// The ASCII digit character for a value below ten.
pub open spec fn digit_char(d: nat) -> char
    recommends
        d < 10,
{
    ((d + 48) as u8) as char
}

/// The decimal rendering of a natural number, most significant digit first,
/// without leading zeros (zero renders as `"0"`).
pub open spec fn decimal_chars(n: nat) -> Seq<char>
    decreases n,
{
    if n < 10 {
        seq![digit_char(n)]
    } else {
        decimal_chars(n / 10).push(digit_char(n % 10))
    }
}

/// Appends one character to a `String` with std's `String::push`.  Trusted
/// claim: the string grows by exactly that character at its end.
#[verifier::external_body]
pub(crate) fn push_char(s: &mut String, c: char)
    ensures
        final(s)@ == old(s)@.push(c),
{
    s.push(c);
}

fn push_digits(s: &mut String, n: u64)
    ensures
        final(s)@ == old(s)@ + decimal_chars(n as nat),
    decreases n,
{
    if n < 10 {
        let c: char = (n as u8 + 48) as char;
        push_char(s, c);
    } else {
        push_digits(s, n / 10);
        let d: u8 = (n % 10) as u8;
        push_char(s, (d + 48) as char);
    }
}

/// Renders `n` in decimal.
pub fn u64_to_decimal(n: u64) -> (res: String)
    ensures
        res@ == decimal_chars(n as nat),
{
    let mut s = String::new();
    push_digits(&mut s, n);
    s
}

} // verus!

verus! {

/// Whether a byte is one of the ASCII digits `0`..`9`.
pub open spec fn is_digit_byte(b: u8) -> bool {
    48 <= b <= 57
}

/// The number of ASCII digits at the front of `s`.
pub open spec fn digit_prefix_len(s: Seq<u8>) -> nat
    decreases s.len(),
{
    if s.len() > 0 && is_digit_byte(s[0]) {
        1 + digit_prefix_len(s.drop_first())
    } else {
        0
    }
}

/// The value of a sequence of ASCII digits read in base ten.
pub open spec fn digits_value(d: Seq<u8>) -> int
    decreases d.len(),
{
    if d.len() == 0 {
        0
    } else {
        digits_value(d.drop_last()) * 10 + (d.last() - 48)
    }
}

/// The value of the digits at the front of `s`.
pub open spec fn leading_value(s: Seq<u8>) -> int {
    digits_value(s.take(digit_prefix_len(s) as int))
}

/// What `atoi::atoi::<u64>` returns on `text`: an optional sign byte, then
/// the longest run of ASCII digits (whatever follows is ignored).  Without a
/// sign at least one digit is needed; a value above `u64::MAX` gives `None`;
/// after `-` only a value of zero is representable.
pub open spec fn atoi_u64(text: Seq<u8>) -> Option<u64> {
    if text.len() > 0 && text[0] == 43u8 {
        let v = leading_value(text.drop_first());
        if v <= u64::MAX { Some(v as u64) } else { None }
    } else if text.len() > 0 && text[0] == 45u8 {
        if leading_value(text.drop_first()) == 0 { Some(0u64) } else { None }
    } else if digit_prefix_len(text) == 0 {
        None
    } else {
        let v = leading_value(text);
        if v <= u64::MAX { Some(v as u64) } else { None }
    }
}

/// Parses the decimal number at the front of `text` with `atoi::atoi::<u64>`.
/// Trusted claim: the result is exactly `atoi_u64(text@)` (see that spec
/// function for the rules the crate's source implements).
#[verifier::external_body]
pub(crate) fn parse_decimal_prefix(text: &[u8]) -> (res: Option<u64>)
    ensures
        res == atoi_u64(text@),
{
    atoi::atoi::<u64>(text)
}

/// Decodes UTF-8 with std's `String::from_utf8`.  Trusted claim: it succeeds
/// exactly on valid UTF-8, and then holds the decoded characters.
#[verifier::external_body]
pub(crate) fn string_from_utf8(bytes: Vec<u8>) -> (res: Option<String>)
    ensures
        res is Some <==> vstd::utf8::valid_utf8(bytes@),
        res matches Some(s) ==> s@ == vstd::utf8::decode_utf8(bytes@),
{
    String::from_utf8(bytes).ok()
}

} // verus!

verus! {

/// What `str::to_uppercase` gives for a string (Unicode's uppercase
/// mapping, character by character).
pub uninterp spec fn uppercase_chars(s: Seq<char>) -> Seq<char>;

/// What `str::to_lowercase` gives for a string (Unicode's lowercase
/// mapping, with its context rules).
pub uninterp spec fn lowercase_chars(s: Seq<char>) -> Seq<char>;

/// std's `str::to_uppercase`.  Trusted claim: the result depends on the
/// characters of `s` alone; what it is stays named, not stated.
#[verifier::external_body]
pub(crate) fn to_uppercase(s: &str) -> (res: String)
    ensures
        res@ == uppercase_chars(s@),
{
    s.to_uppercase()
}

/// std's `str::to_lowercase`.  Trusted claim: the result depends on the
/// characters of `s` alone; what it is stays named, not stated.
#[verifier::external_body]
pub(crate) fn to_lowercase(s: &str) -> (res: String)
    ensures
        res@ == lowercase_chars(s@),
{
    s.to_lowercase()
}

/// The ASCII whitespace characters of `str::split_ascii_whitespace`:
/// space, tab, line feed, form feed and carriage return.
pub open spec fn is_ascii_whitespace(c: char) -> bool {
    c == ' ' || c == '\t' || c == '\n' || c == '\x0C' || c == '\r'
}

/// The words of `s` from index `i` on, given the word `cur` being read and
/// the words `acc` already complete.
pub open spec fn words_from(s: Seq<char>, i: int, cur: Seq<char>, acc: Seq<Seq<char>>) -> Seq<
    Seq<char>,
>
    decreases s.len() - i,
{
    if i >= s.len() {
        if cur.len() > 0 { acc.push(cur) } else { acc }
    } else if is_ascii_whitespace(s[i]) {
        words_from(s, i + 1, Seq::empty(), if cur.len() > 0 { acc.push(cur) } else { acc })
    } else {
        words_from(s, i + 1, cur.push(s[i]), acc)
    }
}

/// The maximal runs of non-whitespace characters of `s`, in order.
pub open spec fn ascii_words(s: Seq<char>) -> Seq<Seq<char>> {
    words_from(s, 0, Seq::empty(), Seq::empty())
}

/// The views of a sequence of strings.
pub open spec fn strings_view(v: Seq<String>) -> Seq<Seq<char>> {
    v.map_values(|x: String| x@)
}

/// Splits `s` at runs of ASCII whitespace, as `str::split_ascii_whitespace`.
pub fn split_ascii_whitespace(s: &str) -> (res: Vec<String>)
    ensures
        strings_view(res@) == ascii_words(s@),
{
    let n = s.unicode_len();
    let mut acc: Vec<String> = Vec::new();
    let mut cur = String::new();
    let mut i: usize = 0;
    assert(strings_view(acc@) =~= Seq::<Seq<char>>::empty());
    while i < n
        invariant
            n == s@.len(),
            i <= n,
            words_from(s@, i as int, cur@, strings_view(acc@)) == ascii_words(s@),
        decreases n - i,
    {
        let c = s.get_char(i);
        if c == ' ' || c == '\t' || c == '\n' || c == '\x0C' || c == '\r' {
            if cur.unicode_len() > 0 {
                let ghost old_acc = acc@;
                acc.push(cur);
                assert(strings_view(acc@) =~= strings_view(old_acc).push(cur@));
            }
            cur = String::new();
        } else {
            push_char(&mut cur, c);
        }
        i = i + 1;
    }
    if cur.unicode_len() > 0 {
        let ghost old_acc = acc@;
        acc.push(cur);
        assert(strings_view(acc@) =~= strings_view(old_acc).push(cur@));
    }
    acc
}

} // verus!

verus! {

/// A character with ASCII `a`..`z` mapped to `A`..`Z`.
pub open spec fn ascii_upper_char(c: char) -> char {
    if 'a' <= c <= 'z' { ((c as u32) - 32) as char } else { c }
}

/// The characters with ASCII letters in upper case, as
/// `str::to_ascii_uppercase`.
pub open spec fn ascii_upper(s: Seq<char>) -> Seq<char> {
    s.map_values(|c: char| ascii_upper_char(c))
}

/// `s` with its ASCII letters in upper case.
pub fn to_ascii_uppercase(s: &str) -> (res: String)
    ensures
        res@ == ascii_upper(s@),
{
    let n = s.unicode_len();
    let mut out = String::new();
    let mut i: usize = 0;
    while i < n
        invariant
            n == s@.len(),
            i <= n,
            out@ == ascii_upper(s@.take(i as int)),
        decreases n - i,
    {
        let c = s.get_char(i);
        let u = if 'a' <= c && c <= 'z' {
            ((c as u32) - 32) as u8 as char
        } else {
            c
        };
        assert(u == ascii_upper_char(c));
        push_char(&mut out, u);
        assert(ascii_upper(s@.take(i + 1)) =~= ascii_upper(s@.take(i as int)).push(u));
        i = i + 1;
    }
    assert(s@.take(n as int) =~= s@);
    out
}

/// Whether every character is an ASCII digit.
pub open spec fn all_digit_chars(s: Seq<char>) -> bool {
    forall|i: int| 0 <= i < s.len() ==> '0' <= #[trigger] s[i] <= '9'
}

/// The value of a sequence of ASCII digit characters in base ten.
pub open spec fn char_digits_value(s: Seq<char>) -> int
    decreases s.len(),
{
    if s.len() == 0 {
        0
    } else {
        char_digits_value(s.drop_last()) * 10 + ((s.last() as u32) - 48)
    }
}

/// What `str::parse::<i32>` accepts: an optional `+` or `-`, then one or
/// more ASCII digits and nothing else, of a value that fits in `i32`.
pub open spec fn parse_i32_chars(s: Seq<char>) -> Option<i32> {
    let signed = s.len() > 0 && (s[0] == '+' || s[0] == '-');
    let body = if signed { s.drop_first() } else { s };
    let magnitude = char_digits_value(body);
    let v = if s.len() > 0 && s[0] == '-' { -magnitude } else { magnitude };
    if body.len() == 0 || !all_digit_chars(body) {
        None
    } else if i32::MIN <= v <= i32::MAX {
        Some(v as i32)
    } else {
        None
    }
}

/// std's `str::parse::<i32>`.  Trusted claim: it succeeds exactly as
/// `parse_i32_chars` says, with that value.
#[verifier::external_body]
pub(crate) fn parse_i32(s: &str) -> (res: Option<i32>)
    ensures
        res == parse_i32_chars(s@),
{
    s.parse::<i32>().ok()
}

} // verus!
