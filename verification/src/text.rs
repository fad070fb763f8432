//! Characters, lines, words and number literals of the source text.

use vstd::prelude::*;

verus! {

/// Whether `c` separates words: space, tab, line feed, form feed or carriage return.
pub open spec fn is_space(c: char) -> bool {
    c == ' ' || c == '\t' || c == '\n' || c == '\x0C' || c == '\r'
}

/// Whether `c` is one of the ten decimal digits.
pub open spec fn is_digit(c: char) -> bool {
    '0' <= c <= '9'
}

/// The number that the digit `c` stands for.
pub open spec fn digit_value(c: char) -> nat
    recommends
        is_digit(c),
{
    (c as u32 - '0' as u32) as nat
}

/// `c` with a lower-case letter of the Latin alphabet replaced by its capital.
pub open spec fn upper(c: char) -> char {
    if 'a' <= c <= 'z' {
        ((c as u32 - 32) as u8) as char
    } else {
        c
    }
}

/// Tells whether `c` separates words.
pub fn space(c: char) -> (r: bool)
    ensures
        r == is_space(c),
{
    c == ' ' || c == '\t' || c == '\n' || c == '\x0C' || c == '\r'
}

/// Capitalises a lower-case Latin letter and leaves every other character alone.
pub fn capital(c: char) -> (r: char)
    ensures
        r == upper(c),
{
    if 'a' <= c && c <= 'z' {
        ((c as u32 - 32) as u8) as char
    } else {
        c
    }
}

/// The characters of `s`, one by one.
pub fn chars_of(s: &str) -> (chars: Vec<char>)
    ensures
        chars@ == s@,
{
    let mut chars: Vec<char> = Vec::new();
    for c in it: s.chars()
        invariant
            it.seq() == s@,
            chars@ == s@.take(it.index() as int),
    {
        chars.push(c);
    }
    chars
}

/// The number of characters of `s` that come before its first line feed, or
/// the length of `s` where it has none.
pub open spec fn line_len(s: Seq<char>) -> nat
    decreases s.len(),
{
    if s.len() == 0 || s[0] == '\n' {
        0
    } else {
        1 + line_len(s.drop_first())
    }
}

/// The lines of `s`. A line ends at a line feed, which is not part of it; the
/// last line may do without one. An empty text has no lines. A carriage return
/// before the line feed stays in the line, where it separates words as a space
/// does.
pub open spec fn lines(s: Seq<char>) -> Seq<Seq<char>>
    decreases s.len(),
{
    if s.len() == 0 {
        Seq::empty()
    } else {
        let n = line_len(s) as int;
        if n < s.len() {
            seq![s.take(n)] + lines(s.skip(n + 1))
        } else {
            seq![s]
        }
    }
}

/// The number of characters at the start of `s` that are not separators.
pub open spec fn word_len(s: Seq<char>) -> nat
    decreases s.len(),
{
    if s.len() == 0 || is_space(s[0]) {
        0
    } else {
        1 + word_len(s.drop_first())
    }
}

/// The words of `s`: its longest runs of characters that are not separators,
/// from left to right.
pub open spec fn words(s: Seq<char>) -> Seq<Seq<char>>
    decreases s.len(),
    via words_terminates
{
    if s.len() == 0 {
        Seq::empty()
    } else if is_space(s[0]) {
        words(s.drop_first())
    } else {
        let n = word_len(s) as int;
        seq![s.take(n)] + words(s.skip(n))
    }
}

#[via_fn]
proof fn words_terminates(s: Seq<char>) {
    if s.len() > 0 && !is_space(s[0]) {
        lemma_word_len_bound(s);
    }
}

/// A word is no longer than the text it starts.
proof fn lemma_word_len_bound(s: Seq<char>)
    ensures
        word_len(s) <= s.len(),
    decreases s.len(),
{
    if s.len() > 0 && !is_space(s[0]) {
        lemma_word_len_bound(s.drop_first());
    }
}

/// Whether `spans` gives, in order, the places in `text` where `parts` stand:
/// each span holds the index of the first character of a part and the index
/// after its last.
pub open spec fn locates(spans: Seq<(usize, usize)>, text: Seq<char>, parts: Seq<Seq<char>>) -> bool {
    &&& spans.len() == parts.len()
    &&& forall|i: int|
        #![trigger spans[i]]
        0 <= i < spans.len() ==> {
            &&& spans[i].0 <= spans[i].1 <= text.len()
            &&& text.subrange(spans[i].0 as int, spans[i].1 as int) == parts[i]
        }
}

/// `line_len` is the index of the first line feed.
pub proof fn lemma_line_len(s: Seq<char>, k: int)
    requires
        0 <= k <= s.len(),
        forall|i: int| 0 <= i < k ==> s[i] != '\n',
        k == s.len() || s[k] == '\n',
    ensures
        line_len(s) == k,
    decreases k,
{
    if k > 0 {
        lemma_line_len(s.drop_first(), k - 1);
    }
}

/// `word_len` is the index of the first separator.
pub proof fn lemma_word_len(s: Seq<char>, k: int)
    requires
        0 <= k <= s.len(),
        forall|i: int| 0 <= i < k ==> !is_space(s[i]),
        k == s.len() || is_space(s[k]),
    ensures
        word_len(s) == k,
    decreases k,
{
    if k > 0 {
        lemma_word_len(s.drop_first(), k - 1);
    }
}

/// Finds where the line that starts at `from` ends: the index of the next
/// line feed, or the length of the text.
fn line_end(chars: &Vec<char>, from: usize) -> (end: usize)
    requires
        from <= chars.len(),
    ensures
        from <= end <= chars.len(),
        end - from == line_len(chars@.skip(from as int)),
{
    let mut end = from;
    while end < chars.len() && chars[end] != '\n'
        invariant
            from <= end <= chars.len(),
            forall|i: int| from <= i < end ==> chars@[i] != '\n',
        decreases chars.len() - end,
    {
        end += 1;
    }
    proof {
        lemma_line_len(chars@.skip(from as int), end - from);
    }
    end
}

/// Finds where the word that starts at `from` ends: the index of the next
/// separator, or the length of the text.
fn word_end(chars: &Vec<char>, from: usize) -> (end: usize)
    requires
        from <= chars.len(),
    ensures
        from <= end <= chars.len(),
        end - from == word_len(chars@.skip(from as int)),
{
    let mut end = from;
    while end < chars.len() && !space(chars[end])
        invariant
            from <= end <= chars.len(),
            forall|i: int| from <= i < end ==> !is_space(chars@[i]),
        decreases chars.len() - end,
    {
        end += 1;
    }
    proof {
        lemma_word_len(chars@.skip(from as int), end - from);
    }
    end
}

/// Finds the lines of a text.
pub fn line_spans(chars: &Vec<char>) -> (spans: Vec<(usize, usize)>)
    ensures
        locates(spans@, chars@, lines(chars@)),
{
    let ghost text = chars@;
    let ghost mut found: Seq<Seq<char>> = Seq::empty();
    let mut spans: Vec<(usize, usize)> = Vec::new();
    let mut pos: usize = 0;
    assert(found + lines(text.skip(0)) == lines(text)) by {
        assert(text.skip(0) == text);
    }
    while pos < chars.len()
        invariant
            text == chars@,
            pos <= chars.len(),
            locates(spans@, text, found),
            lines(text) == found + lines(text.skip(pos as int)),
        decreases chars.len() - pos,
    {
        let end = line_end(chars, pos);
        let ghost rest = text.skip(pos as int);
        let ghost line = text.subrange(pos as int, end as int);
        proof {
            assert(rest.take(end - pos) == line);
            if end < chars.len() {
                assert(rest.skip(end - pos + 1) == text.skip(end + 1));
                assert(found + (seq![line] + lines(text.skip(end + 1))) == found.push(line) + lines(
                    text.skip(end + 1),
                ));
            } else {
                assert(rest == line);
                assert(text.skip(end as int).len() == 0);
                assert(found + seq![line] == found.push(line) + lines(text.skip(end as int)));
            }
            found = found.push(line);
        }
        spans.push((pos, end));
        pos = if end < chars.len() {
            end + 1
        } else {
            end
        };
    }
    assert(lines(text.skip(pos as int)) == Seq::<Seq<char>>::empty());
    assert(found + Seq::<Seq<char>>::empty() == found);
    spans
}

/// Finds the words of a text.
pub fn word_spans(chars: &Vec<char>) -> (spans: Vec<(usize, usize)>)
    ensures
        locates(spans@, chars@, words(chars@)),
{
    let ghost text = chars@;
    let ghost mut found: Seq<Seq<char>> = Seq::empty();
    let mut spans: Vec<(usize, usize)> = Vec::new();
    let mut pos: usize = 0;
    assert(found + words(text.skip(0)) == words(text)) by {
        assert(text.skip(0) == text);
    }
    while pos < chars.len()
        invariant
            text == chars@,
            pos <= chars.len(),
            locates(spans@, text, found),
            words(text) == found + words(text.skip(pos as int)),
        decreases chars.len() - pos,
    {
        let ghost rest = text.skip(pos as int);
        if space(chars[pos]) {
            assert(rest.drop_first() == text.skip(pos + 1));
            pos += 1;
        } else {
            let end = word_end(chars, pos);
            let ghost word = text.subrange(pos as int, end as int);
            proof {
                assert(rest.take(end - pos) == word);
                assert(rest.skip(end - pos) == text.skip(end as int));
                assert(found + (seq![word] + words(text.skip(end as int))) == found.push(word)
                    + words(text.skip(end as int)));
                found = found.push(word);
            }
            spans.push((pos, end));
            pos = end;
        }
    }
    assert(words(text.skip(pos as int)) == Seq::<Seq<char>>::empty());
    assert(found + Seq::<Seq<char>>::empty() == found);
    spans
}

/// The number that a sequence of digits stands for in decimal notation.
pub open spec fn decimal(s: Seq<char>) -> nat
    decreases s.len(),
{
    if s.len() == 0 {
        0
    } else {
        decimal(s.drop_last()) * 10 + digit_value(s.last())
    }
}

/// Whether `s` is one digit or more, and nothing else.
pub open spec fn is_number(s: Seq<char>) -> bool {
    s.len() > 0 && forall|i: int| 0 <= i < s.len() ==> is_digit(#[trigger] s[i])
}

/// What is left of `s` when a sign at its start is taken off: `s` itself if it starts
/// with none. A plus sign always counts as a sign, a minus sign only where
/// `minus` says so.
pub open spec fn unsigned_part(s: Seq<char>, minus: bool) -> Seq<char> {
    if s.len() > 0 && (s[0] == '+' || (minus && s[0] == '-')) {
        s.drop_first()
    } else {
        s
    }
}

/// The value of `s` read as an unsigned 16-bit literal: an optional plus sign
/// followed by a number of at most 65535. Anything else is no such literal.
pub open spec fn unsigned_literal(s: Seq<char>) -> Option<u16> {
    let digits = unsigned_part(s, false);
    if is_number(digits) && decimal(digits) <= u16::MAX {
        Some(decimal(digits) as u16)
    } else {
        None
    }
}

/// The value of `s` read as a signed 16-bit literal: an optional plus or minus
/// sign followed by a number, the whole between -32768 and 32767. Anything else
/// is no such literal.
pub open spec fn signed_literal(s: Seq<char>) -> Option<i16> {
    let digits = unsigned_part(s, true);
    let value = if s.len() > 0 && s[0] == '-' {
        -(decimal(digits) as int)
    } else {
        decimal(digits) as int
    };
    if is_number(digits) && i16::MIN <= value <= i16::MAX {
        Some(value as i16)
    } else {
        None
    }
}

/// Digits added at the end never make a number smaller.
proof fn lemma_decimal_grows(s: Seq<char>, k: int)
    requires
        0 <= k <= s.len(),
    ensures
        decimal(s.take(k)) <= decimal(s),
    decreases s.len() - k,
{
    if k < s.len() {
        lemma_decimal_grows(s.drop_last(), k);
        assert(s.drop_last().take(k) == s.take(k));
    } else {
        assert(s.take(k) == s);
    }
}

/// Reads the characters from index `from` on as a number: `Some` of its value
/// if they are digits, at least one, and the value is no greater than `limit`.
fn number(chars: &Vec<char>, from: usize, limit: u32) -> (r: Option<u32>)
    requires
        from <= chars.len(),
        limit <= 0x1000_0000,
    ensures
        r == if is_number(chars@.skip(from as int)) && decimal(chars@.skip(from as int)) <= limit {
            Some(decimal(chars@.skip(from as int)) as u32)
        } else {
            None
        },
{
    let ghost digits = chars@.skip(from as int);
    let mut value: u32 = 0;
    let mut i: usize = from;
    assert(digits.take(0) == Seq::<char>::empty());
    while i < chars.len()
        invariant
            from <= i <= chars.len(),
            digits == chars@.skip(from as int),
            limit <= 0x1000_0000,
            forall|k: int| 0 <= k < i - from ==> is_digit(#[trigger] digits[k]),
            value == decimal(digits.take(i - from)),
            value <= limit,
        decreases chars.len() - i,
    {
        let c = chars[i];
        assert(c == digits[i - from]);
        if !('0' <= c && c <= '9') {
            return None;
        }
        let d: u32 = c as u32 - '0' as u32;
        assert(digits.take(i - from + 1).drop_last() == digits.take(i - from));
        assert(decimal(digits.take(i - from + 1)) == value * 10 + d);
        if value * 10 + d > limit {
            proof {
                lemma_decimal_grows(digits, i - from + 1);
            }
            return None;
        }
        value = value * 10 + d;
        i += 1;
    }
    assert(digits.take(i - from) == digits);
    if i == from {
        None
    } else {
        Some(value)
    }
}

/// Reads `s` as an unsigned 16-bit literal.
pub fn parse_u16(s: &str) -> (r: Option<u16>)
    ensures
        r == unsigned_literal(s@),
{
    let chars = chars_of(s);
    let from: usize = if chars.len() > 0 && chars[0] == '+' {
        1
    } else {
        0
    };
    assert(chars@.skip(from as int) == unsigned_part(s@, false));
    match number(&chars, from, 0xffff) {
        Some(value) => Some(value as u16),
        None => None,
    }
}

/// Reads `s` as a signed 16-bit literal.
pub fn parse_i16(s: &str) -> (r: Option<i16>)
    ensures
        r == signed_literal(s@),
{
    let chars = chars_of(s);
    let negative = chars.len() > 0 && chars[0] == '-';
    let from: usize = if chars.len() > 0 && (chars[0] == '+' || chars[0] == '-') {
        1
    } else {
        0
    };
    assert(chars@.skip(from as int) == unsigned_part(s@, true));
    if negative {
        match number(&chars, from, 0x8000) {
            Some(value) => Some((-(value as i32)) as i16),
            None => None,
        }
    } else {
        match number(&chars, from, 0x7fff) {
            Some(value) => Some(value as i16),
            None => None,
        }
    }
}

} // verus!
