//! Texts: taking them apart, putting them together, and writing numbers.

use vstd::prelude::*;

verus! {

/// The characters of a text.
pub fn chars_of(text: &str) -> (r: Vec<char>)
    ensures
        r@ == text@,
{
    let mut chars: Vec<char> = Vec::new();
    for ch in it: text.chars()
        invariant
            it.seq() == text@,
            chars@ == text@.take(it.index() as int),
    {
        chars.push(ch);
        assert(chars@ =~= text@.take(it.index() + 1));
    }
    assert(text@.take(text@.len() as int) =~= text@);
    chars
}

/// Appends one character with `String::push`.
#[verifier::external_body]
fn push_char(text: &mut String, ch: char)
    ensures
        final(text)@ == old(text)@.push(ch),
{
    text.push(ch);
}

/// The text that some characters make.
pub fn text_of(chars: &[char]) -> (r: String)
    ensures
        r@ == chars@,
{
    let mut text = String::new();
    let mut i: usize = 0;
    while i < chars.len()
        invariant
            0 <= i <= chars@.len(),
            text@ == chars@.take(i as int),
        decreases chars@.len() - i,
    {
        push_char(&mut text, chars[i]);
        assert(text@ =~= chars@.take(i + 1));
        i += 1;
    }
    assert(chars@.take(chars@.len() as int) =~= chars@);
    text
}

/// Appends some characters to others.
pub fn append_chars(text: &mut Vec<char>, more: &[char])
    ensures
        final(text)@ == old(text)@ + more@,
{
    let mut i: usize = 0;
    while i < more.len()
        invariant
            0 <= i <= more@.len(),
            text@ == old(text)@ + more@.take(i as int),
        decreases more@.len() - i,
    {
        text.push(more[i]);
        assert(text@ =~= old(text)@ + more@.take(i + 1));
        i += 1;
    }
    assert(more@.take(more@.len() as int) =~= more@);
}

/// Appends the characters of a text to others.
pub fn append_text(text: &mut Vec<char>, more: &str)
    ensures
        final(text)@ == old(text)@ + more@,
{
    let more = chars_of(more);
    append_chars(text, more.as_slice());
}

/// Whether two texts are the same.
pub fn same_text(one: &str, other: &str) -> (r: bool)
    ensures
        r == (one@ == other@),
{
    let left = chars_of(one);
    let right = chars_of(other);
    if left.len() != right.len() {
        return false;
    }
    let mut i: usize = 0;
    while i < left.len()
        invariant
            left@ == one@,
            right@ == other@,
            left.len() == right.len(),
            0 <= i <= left.len(),
            forall|k: int| 0 <= k < i ==> left[k] == right[k],
        decreases left.len() - i,
    {
        if left[i] != right[i] {
            assert(one@[i as int] != other@[i as int]);
            return false;
        }
        i += 1;
    }
    assert(left@ =~= right@);
    true
}

/// Whether `text` ends with `suffix`.
pub open spec fn is_suffix(text: Seq<char>, suffix: Seq<char>) -> bool {
    suffix.len() <= text.len() && text.subrange(text.len() - suffix.len(), text.len() as int) == suffix
}

/// Whether some characters end with others.
pub fn ends_with(chars: &Vec<char>, suffix: &[char]) -> (r: bool)
    ensures
        r == is_suffix(chars@, suffix@),
{
    if suffix.len() > chars.len() {
        return false;
    }
    let start: usize = chars.len() - suffix.len();
    let mut i: usize = 0;
    while i < suffix.len()
        invariant
            start + suffix@.len() == chars@.len(),
            chars@.len() <= usize::MAX,
            0 <= i <= suffix@.len(),
            forall|k: int| 0 <= k < i ==> chars@[start + k] == suffix@[k],
        decreases suffix@.len() - i,
    {
        if chars[start + i] != suffix[i] {
            assert(chars@.subrange(start as int, chars@.len() as int)[i as int] != suffix@[i as int]);
            return false;
        }
        i += 1;
    }
    assert(chars@.subrange(start as int, chars@.len() as int) =~= suffix@);
    true
}

/// The kind of content that a file holds, told by the end of its name.
pub open spec fn mime_of(path: Seq<char>) -> Seq<char> {
    if is_suffix(path, ".html"@) {
        "text/html"@
    } else if is_suffix(path, ".css"@) {
        "text/css"@
    } else if is_suffix(path, ".js"@) {
        "text/javascript"@
    } else if is_suffix(path, ".svg"@) {
        "image/svg+xml"@
    } else if is_suffix(path, ".woff"@) {
        "font/woff"@
    } else if is_suffix(path, ".woff2"@) {
        "font/woff2"@
    } else if is_suffix(path, ".ttf"@) {
        "font/ttf"@
    } else if is_suffix(path, ".eot"@) {
        "application/vnd.ms-fontobject"@
    } else {
        "application/octet-stream"@
    }
}

fn named_like(path: &Vec<char>, ending: &str) -> (r: bool)
    ensures
        r == is_suffix(path@, ending@),
{
    let ending = chars_of(ending);
    ends_with(path, ending.as_slice())
}

/// The kind of content that a file holds, told by the end of its name.
pub fn guess_mime(path: &str) -> (r: &'static str)
    ensures
        r@ == mime_of(path@),
{
    let path = chars_of(path);
    if named_like(&path, ".html") {
        return "text/html";
    }
    if named_like(&path, ".css") {
        return "text/css";
    }
    if named_like(&path, ".js") {
        return "text/javascript";
    }
    if named_like(&path, ".svg") {
        return "image/svg+xml";
    }
    if named_like(&path, ".woff") {
        return "font/woff";
    }
    if named_like(&path, ".woff2") {
        return "font/woff2";
    }
    if named_like(&path, ".ttf") {
        return "font/ttf";
    }
    if named_like(&path, ".eot") {
        return "application/vnd.ms-fontobject";
    }
    "application/octet-stream"
}

/// The digit that stands for a number below sixteen.
pub open spec fn digit_of(value: u8, upper: bool) -> char {
    match value {
        0 => '0',
        1 => '1',
        2 => '2',
        3 => '3',
        4 => '4',
        5 => '5',
        6 => '6',
        7 => '7',
        8 => '8',
        9 => '9',
        10 => if upper { 'A' } else { 'a' },
        11 => if upper { 'B' } else { 'b' },
        12 => if upper { 'C' } else { 'c' },
        13 => if upper { 'D' } else { 'd' },
        14 => if upper { 'E' } else { 'e' },
        _ => if upper { 'F' } else { 'f' },
    }
}

fn digit(value: u8, upper: bool) -> (r: char)
    ensures
        r == digit_of(value, upper),
{
    match value {
        0 => '0',
        1 => '1',
        2 => '2',
        3 => '3',
        4 => '4',
        5 => '5',
        6 => '6',
        7 => '7',
        8 => '8',
        9 => '9',
        10 => if upper { 'A' } else { 'a' },
        11 => if upper { 'B' } else { 'b' },
        12 => if upper { 'C' } else { 'c' },
        13 => if upper { 'D' } else { 'd' },
        14 => if upper { 'E' } else { 'e' },
        _ => if upper { 'F' } else { 'f' },
    }
}

/// Bytes in hexadecimal: two lower-case digits for each byte.
pub open spec fn hex_of(bytes: Seq<u8>) -> Seq<char>
    decreases bytes.len(),
{
    if bytes.len() == 0 {
        Seq::empty()
    } else {
        hex_of(bytes.drop_last()).push(digit_of(bytes.last() / 16, false)).push(
            digit_of(bytes.last() % 16, false),
        )
    }
}

/// Writes bytes in hexadecimal, two lower-case digits for each byte.
pub fn to_hex(bytes: &[u8]) -> (r: String)
    ensures
        r@ == hex_of(bytes@),
{
    let mut text = String::new();
    let mut i: usize = 0;
    while i < bytes.len()
        invariant
            0 <= i <= bytes@.len(),
            text@ == hex_of(bytes@.take(i as int)),
        decreases bytes@.len() - i,
    {
        let byte: u8 = bytes[i];
        assert(bytes@.take(i + 1).drop_last() =~= bytes@.take(i as int));
        push_char(&mut text, digit(byte / 16, false));
        push_char(&mut text, digit(byte % 16, false));
        i += 1;
    }
    assert(bytes@.take(bytes@.len() as int) =~= bytes@);
    text
}

/// The last `width` digits of a number written to the base `base`, with
/// zeros in front where the number has fewer.
pub open spec fn digits_of(value: u64, base: u64, width: nat, upper: bool) -> Seq<char>
    decreases width,
{
    if width == 0 {
        Seq::empty()
    } else {
        digits_of(value / base, base, (width - 1) as nat, upper).push(
            digit_of((value % base) as u8, upper),
        )
    }
}

/// How many digits a number has to the base ten.
pub open spec fn decimal_width(value: u64) -> nat
    decreases value,
{
    if value < 10 {
        1
    } else {
        1 + decimal_width(value / 10)
    }
}

/// Writes the last `width` digits of a number to the base ten or sixteen.
fn write_digits(value: u64, base: u64, width: usize, upper: bool) -> (r: String)
    requires
        base == 10 || base == 16,
    ensures
        r@ == digits_of(value, base, width as nat, upper),
{
    let mut reversed: Vec<char> = Vec::new();
    let mut rest: u64 = value;
    let mut i: usize = 0;
    while i < width
        invariant
            base == 10 || base == 16,
            0 <= i <= width,
            reversed.len() == i,
            digits_of(value, base, width as nat, upper) == digits_of(
                rest,
                base,
                (width - i) as nat,
                upper,
            ) + reversed@.reverse(),
        decreases width - i,
    {
        let ghost before = reversed@;
        reversed.push(digit((rest % base) as u8, upper));
        proof {
            let head = digits_of(rest / base, base, (width - i - 1) as nat, upper);
            let last = digit_of((rest % base) as u8, upper);
            assert(digits_of(rest, base, (width - i) as nat, upper) == head.push(last));
            assert(reversed@.reverse() =~= seq![last] + before.reverse());
            assert(head.push(last) + before.reverse() =~= head + reversed@.reverse());
        }
        rest = rest / base;
        i += 1;
    }
    let mut text = String::new();
    let mut k: usize = 0;
    while k < width
        invariant
            reversed.len() == width,
            0 <= k <= width,
            text@ == reversed@.reverse().take(k as int),
        decreases width - k,
    {
        push_char(&mut text, reversed[width - 1 - k]);
        assert(text@ =~= reversed@.reverse().take(k + 1));
        k += 1;
    }
    assert(reversed@.reverse().take(width as int) =~= reversed@.reverse());
    assert(digits_of(rest, base, 0, upper) + reversed@.reverse() =~= reversed@.reverse());
    text
}

/// Writes a number with sixteen upper-case hexadecimal digits.
pub fn to_hex_u64(value: u64) -> (r: String)
    ensures
        r@ == digits_of(value, 16, 16, true),
{
    write_digits(value, 16, 16, true)
}

/// No number has more than twenty digits to the base ten.
proof fn lemma_decimal_width_bounded(value: u64)
    ensures
        1 <= decimal_width(value) <= 20,
{
    reveal_with_fuel(decimal_width, 21);
}

/// Writes a number to the base ten, with no more digits than it needs.
pub fn to_decimal(value: u64) -> (r: String)
    ensures
        r@ == digits_of(value, 10, decimal_width(value), false),
{
    let mut width: usize = 1;
    let mut rest: u64 = value;
    proof {
        lemma_decimal_width_bounded(value);
    }
    while rest >= 10
        invariant
            1 <= width,
            1 <= decimal_width(value) <= 20,
            decimal_width(value) == width - 1 + decimal_width(rest),
        decreases rest,
    {
        proof {
            lemma_decimal_width_bounded(rest / 10);
        }
        rest = rest / 10;
        width += 1;
    }
    write_digits(value, 10, width, false)
}

/// How many digits a number is written with where it is filled up to
/// sixteen: sixteen, or as many as it has where it has more.
pub open spec fn padded_width(value: u64) -> nat {
    if decimal_width(value) > 16 {
        decimal_width(value)
    } else {
        16
    }
}

/// Writes a number to the base ten with sixteen digits at least: zeros
/// stand in front of a number that has fewer.
pub fn to_padded_decimal(value: u64) -> (r: String)
    ensures
        r@ == digits_of(value, 10, padded_width(value), false),
{
    let mut width: usize = 1;
    let mut rest: u64 = value;
    proof {
        lemma_decimal_width_bounded(value);
    }
    while rest >= 10
        invariant
            1 <= width,
            1 <= decimal_width(value) <= 20,
            decimal_width(value) == width - 1 + decimal_width(rest),
        decreases rest,
    {
        proof {
            lemma_decimal_width_bounded(rest / 10);
        }
        rest = rest / 10;
        width += 1;
    }
    if width < 16 {
        width = 16;
    }
    write_digits(value, 10, width, false)
}

} // verus!
