//! Building and taking apart short texts: numerals, padding, joining, trimming.
//!
//! Every function here states the characters of its result exactly, so that the texts of
//! the rest of the library can be stated as concatenations.

use vstd::arithmetic::div_mod::lemma_div_decreases;
use vstd::prelude::*;

verus! {

/// `String::push`: appends one character at the end.
pub assume_specification[ String::push ](text: &mut String, c: char)
    ensures
        final(text)@ == old(text)@.push(c),
;

/// The character of one digit, `0`-`9` and then letters.
pub open spec fn digit_char(d: int, upper: bool) -> char {
    if d < 10 {
        (d + 48) as char
    } else if upper {
        (d + 55) as char
    } else {
        (d + 87) as char
    }
}

/// The digits of `n` in `base`, most significant first, without leading zeros.
pub open spec fn numeral(n: nat, base: nat, upper: bool) -> Seq<char>
    decreases n,
{
    if base < 2 || n < base {
        seq![digit_char(n as int, upper)]
    } else {
        proof {
            lemma_div_decreases(n as int, base as int);
        }
        numeral(n / base, base, upper).push(digit_char((n % base) as int, upper))
    }
}

/// `n` as `{}` prints it.
pub open spec fn decimal(n: int) -> Seq<char> {
    if n < 0 {
        seq!['-'] + numeral((-n) as nat, 10, false)
    } else {
        numeral(n as nat, 10, false)
    }
}

/// `n` as `{:x}` prints it.
pub open spec fn hex(n: nat) -> Seq<char> {
    numeral(n, 16, false)
}

/// `s` with zeros in front up to `width` characters.
pub open spec fn zero_padded(s: Seq<char>, width: nat) -> Seq<char> {
    if s.len() < width {
        Seq::new((width - s.len()) as nat, |i: int| '0') + s
    } else {
        s
    }
}

fn digit(d: u8, upper: bool) -> (c: char)
    requires
        d < 16,
    ensures
        c == digit_char(d as int, upper),
{
    if d < 10 {
        (d + 48) as char
    } else if upper {
        (d + 55) as char
    } else {
        (d + 87) as char
    }
}

/// Appends the numeral of `n`.
pub fn push_numeral(out: &mut String, n: u128, base: u8, upper: bool)
    requires
        2 <= base <= 16,
    ensures
        final(out)@ == old(out)@ + numeral(n as nat, base as nat, upper),
    decreases n,
{
    if n < base as u128 {
        out.push(digit(n as u8, upper));
        assert(out@ =~= old(out)@ + numeral(n as nat, base as nat, upper));
    } else {
        proof {
            lemma_div_decreases(n as int, base as int);
        }
        push_numeral(out, n / (base as u128), base, upper);
        out.push(digit((n % (base as u128)) as u8, upper));
        assert(out@ =~= old(out)@ + numeral(n as nat, base as nat, upper));
    }
}

/// Appends `n` in decimal.
pub fn push_decimal(out: &mut String, n: u64)
    ensures
        final(out)@ == old(out)@ + decimal(n as int),
{
    push_numeral(out, n as u128, 10, false);
}

/// Appends `n` in decimal, with a sign where it is negative.
pub fn push_signed(out: &mut String, n: i64)
    ensures
        final(out)@ == old(out)@ + decimal(n as int),
{
    if n < 0 {
        out.push('-');
        let magnitude: u128 = (-(n as i128)) as u128;
        push_numeral(out, magnitude, 10, false);
        assert(out@ =~= old(out)@ + decimal(n as int));
    } else {
        push_numeral(out, n as u128, 10, false);
    }
}

/// Appends `text` with zeros in front up to `width` characters.
pub fn push_padded(out: &mut String, text: &str, width: usize)
    ensures
        final(out)@ == old(out)@ + zero_padded(text@, width as nat),
{
    let length: usize = text.unicode_len();
    let mut at: usize = length;
    while at < width
        invariant
            length == text@.len(),
            length <= at,
            at <= width || at == length,
            out@ == old(out)@ + Seq::new((at - length) as nat, |i: int| '0'),
        decreases width - at,
    {
        out.push('0');
        at = at + 1;
        assert(out@ =~= old(out)@ + Seq::new((at - length) as nat, |i: int| '0'));
    }
    out.append(text);
    assert(out@ =~= old(out)@ + zero_padded(text@, width as nat));
}

/// The hexadecimal numeral of `n`, padded with zeros to `width` digits.
pub fn padded_hex(n: u64, upper: bool, width: usize) -> (text: String)
    ensures
        text@ == zero_padded(numeral(n as nat, 16, upper), width as nat),
{
    let mut digits = String::new();
    push_numeral(&mut digits, n as u128, 16, upper);
    let mut text = String::new();
    push_padded(&mut text, digits.as_str(), width);
    assert(digits@ =~= numeral(n as nat, 16, upper));
    assert(text@ =~= zero_padded(digits@, width as nat));
    text
}

/// The decimal numeral of `n`.
pub fn decimal_text(n: u64) -> (text: String)
    ensures
        text@ == decimal(n as int),
{
    let mut text = String::new();
    push_decimal(&mut text, n);
    assert(text@ =~= decimal(n as int));
    text
}

/// The characters of `text`.
pub fn chars_of(text: &str) -> (chars: Vec<char>)
    ensures
        chars@ == text@,
{
    let mut chars: Vec<char> = Vec::new();
    for c in it: text.chars()
        invariant
            chars@ == text@.take(it.index()),
            it.seq() == text@,
    {
        chars.push(c);
    }
    assert(text@.take(text@.len() as int) =~= text@);
    chars
}

/// The text that `chars[from..to]` spells.
pub fn text_of(chars: &[char], from: usize, to: usize) -> (text: String)
    requires
        from <= to <= chars@.len(),
    ensures
        text@ == chars@.subrange(from as int, to as int),
{
    let mut text = String::new();
    let mut at: usize = from;
    while at < to
        invariant
            from <= at <= to <= chars@.len(),
            text@ == chars@.subrange(from as int, at as int),
        decreases to - at,
    {
        text.push(chars[at]);
        at = at + 1;
        assert(text@ =~= chars@.subrange(from as int, at as int));
    }
    text
}

/// Whether two texts hold the same characters.
pub fn same(a: &str, b: &str) -> (equal: bool)
    ensures
        equal == (a@ == b@),
{
    a.to_owned() == b.to_owned()
}

/// The characters of the Unicode property White_Space.
pub open spec fn is_white(c: char) -> bool {
    let n = c as int;
    9 <= n <= 13 || n == 32 || n == 0x85 || n == 0xa0 || n == 0x1680 || 0x2000 <= n <= 0x200a || n
        == 0x2028 || n == 0x2029 || n == 0x202f || n == 0x205f || n == 0x3000
}

/// Whether `c` is white space.
pub fn is_white_space(c: char) -> (white: bool)
    ensures
        white == is_white(c),
{
    let n: u32 = c as u32;
    (9 <= n && n <= 13) || n == 32 || n == 0x85 || n == 0xa0 || n == 0x1680 || (0x2000 <= n && n
        <= 0x200a) || n == 0x2028 || n == 0x2029 || n == 0x202f || n == 0x205f || n == 0x3000
}

/// `s` without white space at its two ends.
pub open spec fn trimmed(s: Seq<char>) -> Seq<char>
    decreases s.len(),
{
    if s.len() == 0 {
        s
    } else if is_white(s.first()) {
        trimmed(s.drop_first())
    } else if is_white(s.last()) {
        trimmed(s.drop_last())
    } else {
        s
    }
}

/// `text` without white space at its two ends.
pub fn trim(text: &str) -> (inner: String)
    ensures
        inner@ == trimmed(text@),
{
    let chars: Vec<char> = chars_of(text);
    let mut from: usize = 0;
    assert(chars@.subrange(0, chars@.len() as int) =~= chars@);
    while from < chars.len() && is_white_space(chars[from])
        invariant
            from <= chars@.len(),
            trimmed(chars@) == trimmed(chars@.subrange(from as int, chars@.len() as int)),
        decreases chars@.len() - from,
    {
        assert(chars@.subrange(from as int, chars@.len() as int).drop_first() =~= chars@.subrange(
            from + 1,
            chars@.len() as int,
        ));
        from = from + 1;
    }
    let mut to: usize = chars.len();
    while from < to && is_white_space(chars[to - 1])
        invariant
            from <= to <= chars@.len(),
            from < to ==> !is_white(chars@[from as int]),
            trimmed(chars@) == trimmed(chars@.subrange(from as int, to as int)),
        decreases to - from,
    {
        assert(chars@.subrange(from as int, to as int).drop_last() =~= chars@.subrange(
            from as int,
            to - 1,
        ));
        to = to - 1;
    }
    text_of(chars.as_slice(), from, to)
}

/// The pieces in order, with `separator` between each two.
pub open spec fn joined(pieces: Seq<Seq<char>>, separator: Seq<char>) -> Seq<char>
    decreases pieces.len(),
{
    if pieces.len() == 0 {
        seq![]
    } else if pieces.len() == 1 {
        pieces[0]
    } else {
        joined(pieces.drop_last(), separator) + separator + pieces.last()
    }
}

/// The characters of each of the texts.
pub open spec fn texts(list: Seq<String>) -> Seq<Seq<char>> {
    list.map_values(|text: String| text@)
}

/// Joins the pieces with `separator` between each two.
pub fn join(pieces: &Vec<String>, separator: &str) -> (text: String)
    ensures
        text@ == joined(texts(pieces@), separator@),
{
    let mut text = String::new();
    let mut at: usize = 0;
    assert(texts(pieces@.take(0)) =~= seq![]);
    while at < pieces.len()
        invariant
            at <= pieces@.len(),
            text@ == joined(texts(pieces@.take(at as int)), separator@),
        decreases pieces@.len() - at,
    {
        if at > 0 {
            text.append(separator);
        }
        text.append(pieces[at].as_str());
        proof {
            let next = texts(pieces@.take(at + 1));
            assert(next.drop_last() =~= texts(pieces@.take(at as int)));
            assert(next.last() == pieces@[at as int]@);
            if at == 0 {
                assert(text@ =~= pieces@[0]@);
                assert(next[0] == pieces@[0]@);
            }
        }
        at = at + 1;
    }
    assert(pieces@.take(pieces@.len() as int) =~= pieces@);
    text
}

/// The characters of a text that may be missing.
pub open spec fn text_or_none(text: Option<String>) -> Option<Seq<char>> {
    match text {
        Some(text) => Some(text@),
        None => None,
    }
}

/// What is left between the white space: a part of the text that begins and ends with no white
/// space, and all that was before and after it is white.
pub proof fn only_outer_white_space_is_cut(s: Seq<char>) -> (cut: (int, int))
    ensures
        0 <= cut.0 <= cut.1 <= s.len(),
        trimmed(s) == s.subrange(cut.0, cut.1),
        forall|i: int| 0 <= i < cut.0 ==> is_white(#[trigger] s[i]),
        forall|i: int| cut.1 <= i < s.len() ==> is_white(#[trigger] s[i]),
        cut.0 < cut.1 ==> !is_white(s[cut.0]) && !is_white(s[cut.1 - 1]),
    decreases s.len(),
{
    if s.len() == 0 {
        assert(s.subrange(0, 0) =~= s);
        (0, 0)
    } else if is_white(s.first()) {
        let rest = s.drop_first();
        let (from, to) = only_outer_white_space_is_cut(rest);
        assert(rest.subrange(from, to) =~= s.subrange(from + 1, to + 1));
        assert forall|i: int| 0 <= i < from + 1 implies is_white(#[trigger] s[i]) by {
            if i > 0 {
                assert(is_white(rest[i - 1]));
            }
        }
        assert forall|i: int| to + 1 <= i < s.len() implies is_white(#[trigger] s[i]) by {
            assert(is_white(rest[i - 1]));
        }
        (from + 1, to + 1)
    } else if is_white(s.last()) {
        let rest = s.drop_last();
        let (from, to) = only_outer_white_space_is_cut(rest);
        assert(rest.subrange(from, to) =~= s.subrange(from, to));
        assert forall|i: int| 0 <= i < from implies is_white(#[trigger] s[i]) by {
            assert(is_white(rest[i]));
        }
        assert forall|i: int| to <= i < s.len() implies is_white(#[trigger] s[i]) by {
            if i < rest.len() {
                assert(is_white(rest[i]));
            }
        }
        (from, to)
    } else {
        assert(s.subrange(0, s.len() as int) =~= s);
        (0, s.len() as int)
    }
}

/// Tabs, line ends and spaces are white, and nothing that is seen is: no letter, digit or sign of
/// ASCII, and no character from Chinese, Japanese or Korean.
pub proof fn white_space_is_not_seen(c: char)
    ensures
        c == ' ' || c == '\t' || c == '\n' || c == '\r' || c == '\u{3000}' ==> is_white(c),
        33 <= c as int <= 126 ==> !is_white(c),
        0x3001 <= c as int ==> !is_white(c),
{
}

/// The value of a digit.
pub open spec fn digit_value(c: char) -> int {
    if c <= '9' {
        c as int - 48
    } else if c <= 'Z' {
        c as int - 55
    } else {
        c as int - 87
    }
}

/// The value of some digits, the highest one first.
pub open spec fn digits_read(digits: Seq<char>, base: int) -> int
    decreases digits.len(),
{
    if digits.len() == 0 {
        0
    } else {
        digits_read(digits.drop_last(), base) * base + digit_value(digits.last())
    }
}

/// A numeral reads as its number: its digits have the value of the number, they are letters beyond
/// nine, large or small as asked for, and no zero stands in front of them.
pub proof fn numerals_read_as_their_number(n: nat, base: nat, upper: bool)
    requires
        2 <= base <= 16,
    ensures
        digits_read(numeral(n, base, upper), base as int) == n,
        numeral(n, base, upper).len() > 0,
        n > 0 ==> numeral(n, base, upper)[0] != '0',
        forall|i: int|
            0 <= i < numeral(n, base, upper).len() ==> {
                let c = #[trigger] numeral(n, base, upper)[i];
                ('0' <= c <= '9') || (upper && 'A' <= c <= 'F') || (!upper && 'a' <= c <= 'f')
            },
    decreases n,
{
    let text = numeral(n, base, upper);
    if n < base {
        assert(text.drop_last() =~= seq![]);
        assert(digits_read(text.drop_last(), base as int) == 0);
        assert(0 * base == 0);
    } else {
        lemma_div_decreases(n as int, base as int);
        vstd::arithmetic::div_mod::lemma_div_is_ordered(base as int, n as int, base as int);
        vstd::arithmetic::div_mod::lemma_div_by_self(base as int);
        numerals_read_as_their_number(n / base, base, upper);
        let rest = numeral(n / base, base, upper);
        assert(text.drop_last() =~= rest);
        assert(text[0] == rest[0]);
        vstd::arithmetic::div_mod::lemma_fundamental_div_mod(n as int, base as int);
        vstd::arithmetic::mul::lemma_mul_is_commutative(base as int, (n / base) as int);
        vstd::arithmetic::div_mod::lemma_mod_bound(n as int, base as int);
        assert forall|i: int| 0 <= i < text.len() implies {
            let c = #[trigger] text[i];
            ('0' <= c <= '9') || (upper && 'A' <= c <= 'F') || (!upper && 'a' <= c <= 'f')
        } by {
            if i < rest.len() {
                assert(text[i] == rest[i]);
            }
        }
    }
}

/// Padding only puts zeros in front, up to the width.
pub proof fn padding_only_adds_zeros(s: Seq<char>, width: nat)
    ensures
        ({
            let padded = zero_padded(s, width);
            let zeros = padded.len() - s.len();
            &&& padded.len() == (if s.len() < width {
                width
            } else {
                s.len()
            })
            &&& padded.skip(zeros) == s
            &&& forall|i: int| 0 <= i < zeros ==> padded[i] == '0'
        }),
{
    let padded = zero_padded(s, width);
    assert(padded.skip(padded.len() - s.len()) =~= s);
}

/// A byte has two digits of base sixteen, which read as the byte.
pub proof fn bytes_have_two_digits(byte: u8, upper: bool)
    ensures
        ({
            let digits = zero_padded(numeral(byte as nat, 16, upper), 2);
            &&& digits.len() == 2
            &&& digit_value(digits[0]) * 16 + digit_value(digits[1]) == byte
        }),
{
    reveal_with_fuel(numeral, 3);
    let n = byte as nat;
    let digits = zero_padded(numeral(n, 16, upper), 2);
    if n < 16 {
        assert(numeral(n, 16, upper) =~= seq![digit_char(n as int, upper)]);
        assert(digits =~= seq!['0', digit_char(n as int, upper)]);
    } else {
        assert(digits =~= seq![
            digit_char((n / 16) as int, upper),
            digit_char((n % 16) as int, upper),
        ]);
    }
}

/// Whether a text holds another one.
pub open spec fn says(text: Seq<char>, part: Seq<char>) -> bool {
    exists|i: int|
        0 <= i && i + part.len() <= text.len() && #[trigger] text.subrange(i, i + part.len())
            == part
}

/// What stands between two other texts is held.
pub proof fn the_middle_is_said(before: Seq<char>, part: Seq<char>, after: Seq<char>)
    ensures
        says(before + part + after, part),
{
    let text = before + part + after;
    let i = before.len() as int;
    assert(text.subrange(i, i + part.len()) =~= part);
}

/// A text that goes on with a sign and a number says them, and still says all that it said.
pub proof fn texts_go_on(text: Seq<char>, sign: Seq<char>, number: Seq<char>)
    ensures
        says(text + sign + number, sign + number),
        forall|part: Seq<char>| #[trigger] says(text, part) ==> says(text + sign + number, part),
{
    let longer = text + sign + number;
    let none = Seq::<char>::empty();
    assert(longer =~= text + (sign + number) + none);
    the_middle_is_said(text, sign + number, none);
    assert forall|part: Seq<char>| #[trigger] says(text, part) implies says(longer, part) by {
        let i = choose|i: int|
            0 <= i && i + part.len() <= text.len() && #[trigger] text.subrange(i, i + part.len())
                == part;
        assert(longer.subrange(i, i + part.len()) =~= text.subrange(i, i + part.len()));
    }
}

} // verus!
