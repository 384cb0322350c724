//! Messages on the screen: one line, not too long, for a short or a long time.

use vstd::prelude::*;

use crate::text::{chars_of, is_white, is_white_space, joined};

verus! {

/// How many characters a message has at most.
pub const MESSAGE_LIMIT: usize = 96;

/// For how many milliseconds a short message is shown.
pub const ANNOUNCE_DISPLAY_MILLIS: u32 = 500;

/// For how many milliseconds a message with numbers to read is shown.
pub const LONG_ANNOUNCE_DISPLAY_MILLIS: u32 = 4_000;

/// A text on one line: its words with single spaces between them.
pub open spec fn flat(text: Seq<char>) -> Seq<char>
    decreases text.len(),
{
    if text.len() == 0 {
        seq![]
    } else {
        let rest = text.drop_last();
        let c = text.last();
        let line = flat(rest);
        if is_white(c) {
            line
        } else if line.len() > 0 && is_white(rest.last()) {
            line.push(' ').push(c)
        } else {
            line.push(c)
        }
    }
}

/// A text on one line.
pub fn flatten(text: &str) -> (line: Vec<char>)
    ensures
        line@ == flat(text@),
{
    let chars: Vec<char> = chars_of(text);
    let mut line: Vec<char> = Vec::new();
    let mut gap = false;
    let mut at: usize = 0;
    assert(chars@.take(0) =~= seq![]);
    while at < chars.len()
        invariant
            at <= chars@.len(),
            line@ == flat(chars@.take(at as int)),
            gap == (at > 0 && is_white(chars@[at - 1])),
        decreases chars@.len() - at,
    {
        assert(chars@.take(at + 1).drop_last() =~= chars@.take(at as int));
        let c: char = chars[at];
        let white = is_white_space(c);
        if !white {
            if gap && line.len() > 0 {
                line.push(' ');
            }
            line.push(c);
        }
        proof {
            if at == 0 {
                assert(flat(chars@.take(0)) =~= seq![]);
            } else {
                assert(chars@.take(at as int).last() == chars@[at - 1]);
            }
        }
        gap = white;
        at = at + 1;
    }
    assert(chars@.take(chars@.len() as int) =~= chars@);
    line
}

/// A line that is not too long: the end of a longer one is left out, with a sign for it.
pub open spec fn shortened(line: Seq<char>) -> Seq<char> {
    if line.len() > MESSAGE_LIMIT {
        line.take(MESSAGE_LIMIT - 1).push('…')
    } else {
        line
    }
}

fn shorten(line: &mut Vec<char>)
    ensures
        final(line)@ == shortened(old(line)@),
{
    if line.len() > MESSAGE_LIMIT {
        let ghost all = line@;
        line.truncate(MESSAGE_LIMIT - 1);
        assert(line@ =~= all.take(MESSAGE_LIMIT - 1));
        line.push('…');
    }
}

/// The one or two words of a character.
pub open spec fn utf16_units(c: char) -> Seq<u16> {
    let n = c as int;
    if n < 0x1_0000 {
        seq![n as u16]
    } else {
        seq![(0xD800 + (n - 0x1_0000) / 0x400) as u16, (0xDC00 + (n - 0x1_0000) % 0x400) as u16]
    }
}

/// The words of a text.
pub open spec fn utf16(text: Seq<char>) -> Seq<u16>
    decreases text.len(),
{
    if text.len() == 0 {
        seq![]
    } else {
        utf16(text.drop_last()) + utf16_units(text.last())
    }
}

fn push_units(units: &mut Vec<u16>, c: char)
    ensures
        final(units)@ == old(units)@ + utf16_units(c),
{
    let ghost before = units@;
    let n: u32 = c as u32;
    if n < 0x1_0000 {
        units.push(n as u16);
    } else {
        let rest: u32 = n - 0x1_0000;
        units.push((0xD800 + rest / 0x400) as u16);
        units.push((0xDC00 + rest % 0x400) as u16);
    }
    assert(units@ =~= before + utf16_units(c));
}

/// The words of a text, and a zero after them.
pub fn wide_text(text: &Vec<char>) -> (units: Vec<u16>)
    ensures
        units@ == utf16(text@).push(0),
{
    let mut units: Vec<u16> = Vec::new();
    let mut at: usize = 0;
    assert(units@ =~= utf16(text@.take(0)));
    while at < text.len()
        invariant
            at <= text@.len(),
            units@ == utf16(text@.take(at as int)),
        decreases text@.len() - at,
    {
        assert(text@.take(at + 1).drop_last() =~= text@.take(at as int));
        push_units(&mut units, text[at]);
        at = at + 1;
    }
    assert(text@.take(text@.len() as int) =~= text@);
    units.push(0);
    units
}

/// A message as it is shown.
pub struct Announcement {
    /// The words of the message, and a zero after them.
    pub units: Vec<u16>,
    pub millis: u32,
}

fn announce(text: &str, millis: u32) -> (message: Announcement)
    ensures
        message.units@ == utf16(shortened(flat(text@))).push(0),
        message.millis == millis,
{
    let mut line: Vec<char> = flatten(text);
    shorten(&mut line);
    Announcement { units: wide_text(&line), millis }
}

/// A short message.
pub fn say(text: &str) -> (message: Announcement)
    ensures
        message.units@ == utf16(shortened(flat(text@))).push(0),
        message.millis == ANNOUNCE_DISPLAY_MILLIS,
        message.millis == 500,
{
    announce(text, ANNOUNCE_DISPLAY_MILLIS)
}

/// A message with numbers to read.
pub fn say_long(text: &str) -> (message: Announcement)
    ensures
        message.units@ == utf16(shortened(flat(text@))).push(0),
        message.millis == LONG_ANNOUNCE_DISPLAY_MILLIS,
        message.millis == 4_000,
{
    announce(text, LONG_ANNOUNCE_DISPLAY_MILLIS)
}

/// Where the first character from `from` on is that is white, or that is not; the end where there
/// is none.
pub open spec fn first_white(text: Seq<char>, white: bool, from: int) -> int
    decreases text.len() - from,
{
    if from < 0 || from >= text.len() || is_white(text[from]) == white {
        from
    } else {
        first_white(text, white, from + 1)
    }
}

/// The words of a text: the longest pieces without white space, in order.
pub open spec fn words(text: Seq<char>) -> Seq<Seq<char>>
    decreases text.len(),
    via words_end
{
    let start = first_white(text, false, 0);
    if start >= text.len() {
        seq![]
    } else {
        let end = first_white(text, true, start);
        seq![text.subrange(start, end)] + words(text.skip(end))
    }
}

#[via_fn]
proof fn words_end(text: Seq<char>) {
    first_white_found(text, false, 0);
    let start = first_white(text, false, 0);
    if start < text.len() {
        first_white_found(text, true, start);
    }
}

proof fn first_white_found(text: Seq<char>, white: bool, from: int)
    requires
        0 <= from <= text.len(),
    ensures
        ({
            let at = first_white(text, white, from);
            &&& from <= at <= text.len()
            &&& forall|i: int| from <= i < at ==> is_white(#[trigger] text[i]) != white
            &&& at < text.len() ==> is_white(text[at]) == white
        }),
    decreases text.len() - from,
{
    if from < text.len() && is_white(text[from]) != white {
        first_white_found(text, white, from + 1);
    }
}

proof fn white_is_nothing(gap: Seq<char>)
    requires
        forall|i: int| 0 <= i < gap.len() ==> is_white(#[trigger] gap[i]),
    ensures
        flat(gap) == Seq::<char>::empty(),
    decreases gap.len(),
{
    if gap.len() > 0 {
        assert(is_white(gap[gap.len() - 1]));
        assert forall|i: int| 0 <= i < gap.drop_last().len() implies is_white(
            #[trigger] gap.drop_last()[i],
        ) by {
            assert(gap.drop_last()[i] == gap[i]);
        }
        white_is_nothing(gap.drop_last());
    }
}

/// A word after a gap is on the line as it is.
proof fn a_word_stays(gap: Seq<char>, word: Seq<char>)
    requires
        forall|i: int| 0 <= i < gap.len() ==> is_white(#[trigger] gap[i]),
        forall|i: int| 0 <= i < word.len() ==> !is_white(#[trigger] word[i]),
    ensures
        flat(gap + word) == word,
    decreases word.len(),
{
    if word.len() == 0 {
        assert(gap + word =~= gap);
        white_is_nothing(gap);
    } else {
        let rest = word.drop_last();
        assert forall|i: int| 0 <= i < rest.len() implies !is_white(#[trigger] rest[i]) by {
            assert(rest[i] == word[i]);
        }
        a_word_stays(gap, rest);
        assert((gap + word).drop_last() =~= gap + rest);
        assert((gap + word).last() == word[word.len() - 1]);
        if rest.len() > 0 {
            assert((gap + rest).last() == rest[rest.len() - 1]);
        }
        assert(word =~= rest.push(word[word.len() - 1]));
    }
}

/// What comes after a word follows it after one space, if it is anything.
proof fn the_rest_follows(gap: Seq<char>, word: Seq<char>, rest: Seq<char>)
    requires
        forall|i: int| 0 <= i < gap.len() ==> is_white(#[trigger] gap[i]),
        forall|i: int| 0 <= i < word.len() ==> !is_white(#[trigger] word[i]),
        word.len() > 0,
        rest.len() > 0 ==> is_white(rest[0]),
    ensures
        flat(gap + word + rest) == if flat(rest).len() == 0 {
            word
        } else {
            word + seq![' '] + flat(rest)
        },
    decreases rest.len(),
{
    let all = gap + word + rest;
    if rest.len() == 0 {
        assert(all =~= gap + word);
        a_word_stays(gap, word);
    } else {
        let before = rest.drop_last();
        let c = rest.last();
        the_rest_follows(gap, word, before);
        assert(all.drop_last() =~= gap + word + before);
        assert(all.last() == c);
        if !is_white(c) {
            assert(before.len() > 0);
            assert((gap + word + before).last() == before.last());
            if !is_white(before.last()) {
                assert(flat(before).len() > 0);
            }
            assert(flat(all) =~= word + seq![' '] + flat(rest));
        }
    }
}

proof fn joined_from_the_front(first: Seq<char>, pieces: Seq<Seq<char>>, separator: Seq<char>)
    requires
        pieces.len() > 0,
    ensures
        joined(seq![first] + pieces, separator) == first + separator + joined(pieces, separator),
    decreases pieces.len(),
{
    let all = seq![first] + pieces;
    assert(all.drop_last() =~= seq![first] + pieces.drop_last());
    assert(all.last() == pieces.last());
    if pieces.len() == 1 {
        assert(all.drop_last() =~= seq![first]);
        assert(joined(all.drop_last(), separator) == first);
    } else {
        joined_from_the_front(first, pieces.drop_last(), separator);
    }
    assert(joined(all, separator) =~= first + separator + joined(pieces, separator));
}

proof fn words_are_joined(text: Seq<char>)
    ensures
        words(text).len() == 0 <==> flat(text).len() == 0,
        flat(text) == joined(words(text), seq![' ']),
    decreases text.len(),
{
    first_white_found(text, false, 0);
    let start = first_white(text, false, 0);
    let gap = text.take(start);
    if start >= text.len() {
        assert(gap =~= text);
        white_is_nothing(text);
    } else {
        first_white_found(text, true, start);
        let end = first_white(text, true, start);
        let word = text.subrange(start, end);
        let rest = text.skip(end);
        assert(start < end);
        assert(text =~= gap + word + rest);
        assert forall|i: int| 0 <= i < word.len() implies !is_white(#[trigger] word[i]) by {
            assert(word[i] == text[start + i]);
        }
        the_rest_follows(gap, word, rest);
        words_are_joined(rest);
        assert(words(text) == seq![word] + words(rest));
        if words(rest).len() == 0 {
            assert(seq![word] + words(rest) =~= seq![word]);
        } else {
            joined_from_the_front(word, words(rest), seq![' ']);
        }
    }
}

/// A text on one line is its words with one space between each two.
pub proof fn flat_joins_the_words(text: Seq<char>)
    ensures
        flat(text) == joined(words(text), " "@),
{
    reveal_strlit(" ");
    assert(" "@ =~= seq![' ']);
    words_are_joined(text);
}

/// Whether a line has no white space but single spaces between words.
pub open spec fn is_line(line: Seq<char>) -> bool {
    &&& forall|i: int|
        0 <= i < line.len() && is_white(#[trigger] line[i]) ==> line[i] == ' ' && 0 < i < line.len()
            - 1 && !is_white(line[i - 1])
}

/// A text on one line has no white space but single spaces between its words.
pub proof fn flat_is_a_line(text: Seq<char>)
    ensures
        is_line(flat(text)),
        flat(text).len() > 0 ==> !is_white(flat(text).last()),
    decreases text.len(),
{
    if text.len() > 0 {
        let rest = text.drop_last();
        flat_is_a_line(rest);
        let line = flat(rest);
        let now = flat(text);
        assert forall|i: int| 0 <= i < now.len() && is_white(#[trigger] now[i]) implies now[i] == ' '
            && 0 < i < now.len() - 1 && !is_white(now[i - 1]) by {
            if i < line.len() {
                assert(now[i] == line[i]);
                if i > 0 {
                    assert(now[i - 1] == line[i - 1]);
                }
            } else if line.len() > 0 {
                assert(now[line.len() - 1] == line.last());
            }
        }
    }
}

/// A line stays as it is.
proof fn lines_stay(line: Seq<char>)
    requires
        is_line(line),
    ensures
        flat(line) == line,
    decreases line.len(),
{
    if line.len() > 0 {
        let last = line.len() - 1;
        let rest = line.drop_last();
        assert(!is_white(line[last]));
        if rest.len() > 0 && is_white(rest.last()) {
            let before = rest.drop_last();
            assert(line[last - 1] == rest.last());
            assert(rest.last() == ' ' && before.len() > 0 && !is_white(line[last - 2]));
            assert(before.last() == line[last - 2]);
            assert forall|i: int| 0 <= i < before.len() && is_white(
                #[trigger] before[i],
            ) implies before[i] == ' ' && 0 < i < before.len() - 1 && !is_white(before[i - 1]) by {
                assert(before[i] == line[i]);
            }
            lines_stay(before);
            assert(flat(rest) == before);
            assert(line =~= before.push(' ').push(line[last]));
        } else {
            assert forall|i: int| 0 <= i < rest.len() && is_white(#[trigger] rest[i]) implies rest[i]
                == ' ' && 0 < i < rest.len() - 1 && !is_white(rest[i - 1]) by {
                assert(rest[i] == line[i]);
            }
            lines_stay(rest);
            assert(line =~= rest.push(line[last]));
        }
    }
}

/// Putting a text on one line twice is the same as once.
pub proof fn flattening_again_changes_nothing(text: Seq<char>)
    ensures
        flat(flat(text)) == flat(text),
{
    flat_is_a_line(text);
    lines_stay(flat(text));
}

/// A message is never too long, and a line that is short enough is shown as it is.
pub proof fn messages_are_short(line: Seq<char>)
    ensures
        shortened(line).len() <= MESSAGE_LIMIT,
        line.len() <= MESSAGE_LIMIT ==> shortened(line) == line,
{
}

/// Of a line with more than ninety-six characters the first ninety-five are shown, and a sign that
/// more was left out.
pub proof fn long_lines_end_with_a_sign(line: Seq<char>)
    ensures
        line.len() <= 96 ==> shortened(line) == line,
        line.len() > 96 ==> {
            &&& shortened(line).len() == 96
            &&& shortened(line)[95] == '…'
            &&& forall|i: int| 0 <= i < 95 ==> shortened(line)[i] == line[i]
        },
{
}

/// The words of a character tell which it is: one word that is the character itself, or two that
/// no single character has, which make it up together.
pub proof fn words_tell_the_character(c: char)
    ensures
        ({
            let n = c as int;
            let units = utf16_units(c);
            &&& n < 0x1_0000 ==> units.len() == 1 && units[0] == n
            &&& n >= 0x1_0000 ==> {
                &&& units.len() == 2
                &&& 0xD800 <= units[0] <= 0xDBFF
                &&& 0xDC00 <= units[1] <= 0xDFFF
                &&& 0x1_0000 + (units[0] - 0xD800) * 0x400 + (units[1] - 0xDC00) == n
            }
        }),
{
}

/// The words of two texts one after the other are those of the one and then those of the other.
pub proof fn words_follow_the_text(a: Seq<char>, b: Seq<char>)
    ensures
        utf16(a + b) == utf16(a) + utf16(b),
    decreases b.len(),
{
    if b.len() == 0 {
        assert(a + b =~= a);
        assert(utf16(a) + utf16(b) =~= utf16(a));
    } else {
        words_follow_the_text(a, b.drop_last());
        assert((a + b).drop_last() =~= a + b.drop_last());
        assert((a + b).last() == b.last());
        assert(utf16(a) + (utf16(b.drop_last()) + utf16_units(b.last())) =~= utf16(a) + utf16(
            b.drop_last(),
        ) + utf16_units(b.last()));
    }
}

} // verus!
