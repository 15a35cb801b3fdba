//! Scanning plain text: lines, fields, words and numbers.

use vstd::prelude::*;
use vstd::string::*;

use crate::text;

verus! {

/// The characters with the Unicode property `White_Space`.
pub open spec fn is_white(c: char) -> bool {
    let code = c as int;
    ||| 0x9 <= code <= 0xd
    ||| code == 0x20
    ||| code == 0x85
    ||| code == 0xa0
    ||| code == 0x1680
    ||| 0x2000 <= code <= 0x200a
    ||| code == 0x2028
    ||| code == 0x2029
    ||| code == 0x202f
    ||| code == 0x205f
    ||| code == 0x3000
}

pub fn white(c: char) -> (yes: bool)
    ensures
        yes == is_white(c),
{
    proof {
        vstd::utf8::char_u32_cast(c, c as u32);
    }
    let code: u32 = c as u32;
    (0x9 <= code && code <= 0xd) || code == 0x20 || code == 0x85 || code == 0xa0 || code == 0x1680
        || (0x2000 <= code && code <= 0x200a) || code == 0x2028 || code == 0x2029 || code == 0x202f
        || code == 0x205f || code == 0x3000
}

/// A copy of the characters from `start` up to `end`.
pub fn part(text: &Vec<char>, start: usize, end: usize) -> (copy: Vec<char>)
    requires
        start <= end <= text@.len(),
    ensures
        copy@ == text@.subrange(start as int, end as int),
{
    let mut copy: Vec<char> = Vec::new();
    for i in start..end
        invariant
            start <= end <= text@.len(),
            copy@ == text@.subrange(start as int, i as int),
    {
        copy.push(text[i]);
        assert(copy@ =~= text@.subrange(start as int, i as int + 1));
    }
    copy
}

// ---------------------------------------------------------------------------
// Trimming
// ---------------------------------------------------------------------------
pub open spec fn trimmed_front(text: Seq<char>) -> Seq<char>
    decreases text.len(),
{
    if text.len() > 0 && is_white(text[0]) {
        trimmed_front(text.skip(1))
    } else {
        text
    }
}

pub open spec fn trimmed_back(text: Seq<char>) -> Seq<char>
    decreases text.len(),
{
    if text.len() > 0 && is_white(text.last()) {
        trimmed_back(text.drop_last())
    } else {
        text
    }
}

/// The text without white space at either end.
pub open spec fn trimmed(text: Seq<char>) -> Seq<char> {
    trimmed_back(trimmed_front(text))
}

pub fn trim(text: &Vec<char>) -> (copy: Vec<char>)
    ensures
        copy@ == trimmed(text@),
{
    let ghost all = text@;
    let mut start: usize = 0;
    assert(all.skip(0) =~= all);
    while start < text.len() && white(text[start])
        invariant
            all == text@,
            start <= all.len(),
            trimmed_front(all) == trimmed_front(all.skip(start as int)),
        decreases all.len() - start,
    {
        assert(all.skip(start as int).skip(1) =~= all.skip(start as int + 1));
        start = start + 1;
    }
    let ghost front = all.skip(start as int);
    assert(trimmed_front(all) == front);
    let mut end: usize = text.len();
    assert(all.subrange(start as int, end as int) =~= front);
    while end > start && white(text[end - 1])
        invariant
            all == text@,
            start <= end <= all.len(),
            trimmed_back(front) == trimmed_back(all.subrange(start as int, end as int)),
        decreases end,
    {
        assert(all.subrange(start as int, end as int).drop_last() =~= all.subrange(
            start as int,
            end - 1,
        ));
        end = end - 1;
    }
    part(text, start, end)
}

// ---------------------------------------------------------------------------
// Searching
// ---------------------------------------------------------------------------
/// The pattern stands in the text at that place.
pub open spec fn occurs_at(text: Seq<char>, pattern: Seq<char>, at: int) -> bool {
    &&& 0 <= at
    &&& at + pattern.len() <= text.len()
    &&& text.subrange(at, at + pattern.len()) == pattern
}

/// The first place of the pattern from `from` on.
pub open spec fn first_place(text: Seq<char>, pattern: Seq<char>, from: int) -> Option<int>
    decreases text.len() + 1 - from,
{
    if from < 0 || from + pattern.len() > text.len() {
        None
    } else if occurs_at(text, pattern, from) {
        Some(from)
    } else {
        first_place(text, pattern, from + 1)
    }
}

/// A place that is found lies behind the start, and the pattern stands there and
/// nowhere in between; where none is found, it stands nowhere.
pub proof fn lemma_first_place(text: Seq<char>, pattern: Seq<char>, from: int)
    requires
        from >= 0,
    ensures
        match first_place(text, pattern, from) {
            Some(at) => {
                &&& from <= at
                &&& occurs_at(text, pattern, at)
                &&& forall|k: int| from <= k < at ==> !occurs_at(text, pattern, k)
            },
            None => forall|k: int| from <= k ==> !occurs_at(text, pattern, k),
        },
    decreases text.len() + 1 - from,
{
    if from + pattern.len() <= text.len() && !occurs_at(text, pattern, from) {
        lemma_first_place(text, pattern, from + 1);
    }
}

fn stands_at(text: &Vec<char>, pattern: &Vec<char>, at: usize) -> (found: bool)
    requires
        at + pattern@.len() <= text@.len(),
    ensures
        found == occurs_at(text@, pattern@, at as int),
{
    let ghost window = text@.subrange(at as int, at + pattern@.len());
    let length: usize = text.len();
    for i in 0..pattern.len()
        invariant
            at + pattern@.len() <= length,
            length == text@.len(),
            window == text@.subrange(at as int, at + pattern@.len()),
            forall|k: int| 0 <= k < i ==> window[k] == #[trigger] pattern@[k],
    {
        if text[at + i] != pattern[i] {
            assert(window[i as int] != pattern@[i as int]);
            return false;
        }
    }
    assert(window =~= pattern@);
    true
}

/// The first place of `pattern` from `from` on.
pub fn find(text: &Vec<char>, pattern: &Vec<char>, from: usize) -> (place: Option<usize>)
    requires
        from <= text@.len(),
    ensures
        match place {
            Some(at) => first_place(text@, pattern@, from as int) == Some(at as int) && from <= at
                && at + pattern@.len() <= text@.len(),
            None => first_place(text@, pattern@, from as int) is None,
        },
{
    let mut at: usize = from;
    while at <= text.len() && pattern.len() <= text.len() - at
        invariant
            from <= at <= text@.len() + 1,
            first_place(text@, pattern@, from as int) == first_place(text@, pattern@, at as int),
        decreases text@.len() + 1 - at,
    {
        if stands_at(text, pattern, at) {
            return Some(at);
        }
        if pattern.len() == 0 {
            assert(text@.subrange(at as int, at as int) =~= pattern@);
        }
        at = at + 1;
    }
    None
}

/// What stands before and behind the first separator.
pub open spec fn split_pair(text: Seq<char>, separator: Seq<char>) -> Option<
    (Seq<char>, Seq<char>),
> {
    match first_place(text, separator, 0) {
        Some(at) => Some((text.take(at), text.skip(at + separator.len()))),
        None => None,
    }
}

pub fn split_once(text: &Vec<char>, separator: &Vec<char>) -> (pair: Option<(Vec<char>, Vec<char>)>)
    ensures
        match pair {
            Some((left, right)) => split_pair(text@, separator@) == Some((left@, right@)),
            None => split_pair(text@, separator@) is None,
        },
{
    match find(text, separator, 0) {
        Some(at) => {
            let left = part(text, 0, at);
            assert(at + separator@.len() <= text.len());
            let right = part(text, at + separator.len(), text.len());
            assert(left@ =~= text@.take(at as int));
            assert(right@ =~= text@.skip(at + separator@.len()));
            Some((left, right))
        },
        None => None,
    }
}

/// The pieces of the text between separators, from `start` on.
pub open spec fn sections_from(text: Seq<char>, separator: Seq<char>, start: int) -> Seq<Seq<char>>
    decreases text.len() - start,
{
    match first_place(text, separator, start) {
        Some(at) => if start < 0 || separator.len() == 0 || at < start || at + separator.len()
            > text.len() {
            Seq::empty()
        } else {
            seq![text.subrange(start, at)] + sections_from(
                text,
                separator,
                at + separator.len(),
            )
        },
        None => seq![text.subrange(start, text.len() as int)],
    }
}

/// The pieces of the text between separators.
pub open spec fn sections(text: Seq<char>, separator: Seq<char>) -> Seq<Seq<char>> {
    sections_from(text, separator, 0)
}

pub fn split_text(text: &Vec<char>, separator: &Vec<char>) -> (parts: Vec<Vec<char>>)
    requires
        separator@.len() > 0,
    ensures
        text::pieces(parts@) == sections(text@, separator@),
{
    let mut parts: Vec<Vec<char>> = Vec::new();
    let mut start: usize = 0;
    let ghost expected = sections(text@, separator@);
    assert(expected =~= text::pieces(parts@) + sections_from(text@, separator@, 0));
    loop
        invariant_except_break
            separator@.len() > 0,
            start <= text@.len(),
            expected == text::pieces(parts@) + sections_from(text@, separator@, start as int),
        ensures
            expected == text::pieces(parts@),
        decreases text@.len() - start,
    {
        let ghost before = text::pieces(parts@);
        match find(text, separator, start) {
            Some(at) => {
                let piece = part(text, start, at);
                let ghost content = piece@;
                parts.push(piece);
                assert(text::pieces(parts@) =~= before.push(content));
                assert(expected =~= text::pieces(parts@) + sections_from(
                    text@,
                    separator@,
                    at + separator@.len(),
                ));
                assert(at + separator@.len() <= text.len());
                start = at + separator.len();
            },
            None => {
                let piece = part(text, start, text.len());
                let ghost content = piece@;
                parts.push(piece);
                assert(text::pieces(parts@) =~= before.push(content));
                assert(expected =~= text::pieces(parts@));
                break;
            },
        }
    }
    parts
}

/// The text from `start` on with every occurrence of the pattern replaced.
pub open spec fn replaced_from(
    text: Seq<char>,
    pattern: Seq<char>,
    with: Seq<char>,
    start: int,
) -> Seq<char>
    decreases text.len() - start,
{
    match first_place(text, pattern, start) {
        Some(at) => if start < 0 || pattern.len() == 0 || at < start || at + pattern.len()
            > text.len() {
            Seq::empty()
        } else {
            text.subrange(start, at) + with + replaced_from(
                text,
                pattern,
                with,
                at + pattern.len(),
            )
        },
        None => text.subrange(start, text.len() as int),
    }
}

/// The text with every occurrence of the pattern replaced, from left to right.
pub open spec fn replaced(text: Seq<char>, pattern: Seq<char>, with: Seq<char>) -> Seq<char> {
    replaced_from(text, pattern, with, 0)
}

fn push_all(out: &mut Vec<char>, more: &Vec<char>)
    ensures
        final(out)@ == old(out)@ + more@,
{
    for i in 0..more.len()
        invariant
            out@ == old(out)@ + more@.take(i as int),
    {
        out.push(more[i]);
        assert(out@ =~= old(out)@ + more@.take(i as int + 1));
    }
    assert(more@.take(more@.len() as int) =~= more@);
}

pub fn replace(text: &Vec<char>, pattern: &Vec<char>, with: &Vec<char>) -> (out: Vec<char>)
    requires
        pattern@.len() > 0,
    ensures
        out@ == replaced(text@, pattern@, with@),
{
    let mut out: Vec<char> = Vec::new();
    let mut start: usize = 0;
    let ghost expected = replaced(text@, pattern@, with@);
    assert(expected =~= out@ + replaced_from(text@, pattern@, with@, 0));
    loop
        invariant_except_break
            pattern@.len() > 0,
            start <= text@.len(),
            expected == out@ + replaced_from(text@, pattern@, with@, start as int),
        ensures
            expected == out@,
        decreases text@.len() - start,
    {
        let ghost before = out@;
        match find(text, pattern, start) {
            Some(at) => {
                let piece = part(text, start, at);
                push_all(&mut out, &piece);
                push_all(&mut out, with);
                assert(expected =~= out@ + replaced_from(
                    text@,
                    pattern@,
                    with@,
                    at + pattern@.len(),
                ));
                assert(at + pattern@.len() <= text.len());
                start = at + pattern.len();
            },
            None => {
                let piece = part(text, start, text.len());
                push_all(&mut out, &piece);
                break;
            },
        }
    }
    out
}

// ---------------------------------------------------------------------------
// Lines and words
// ---------------------------------------------------------------------------
/// A line without the carriage return before its line feed.
pub open spec fn without_return(line: Seq<char>) -> Seq<char> {
    if line.len() > 0 && line.last() == '\r' {
        line.drop_last()
    } else {
        line
    }
}

/// The lines of the text: each ends in a line feed, alone or behind a carriage
/// return; the last may lack it and is dropped where it is empty.
pub open spec fn lines(text: Seq<char>) -> Seq<Seq<char>> {
    let parts = text::split_on(text, '\n');
    let ended = Seq::new((parts.len() - 1) as nat, |i: int| without_return(parts[i]));
    if parts.last().len() == 0 {
        ended
    } else {
        ended.push(parts.last())
    }
}

fn drop_return(line: &Vec<char>) -> (copy: Vec<char>)
    ensures
        copy@ == without_return(line@),
{
    if line.len() > 0 && line[line.len() - 1] == '\r' {
        let copy = part(line, 0, line.len() - 1);
        assert(copy@ =~= line@.drop_last());
        copy
    } else {
        let copy = part(line, 0, line.len());
        assert(copy@ =~= line@);
        copy
    }
}

pub fn split_lines(text: &Vec<char>) -> (found: Vec<Vec<char>>)
    ensures
        text::pieces(found@) == lines(text@),
{
    let parts = text::split_chars(text, '\n');
    proof {
        text::lemma_split_nonempty(text@, '\n');
    }
    let ghost pieces = text::pieces(parts@);
    let last: usize = parts.len() - 1;
    let mut found: Vec<Vec<char>> = Vec::new();
    for i in 0..last
        invariant
            pieces == text::pieces(parts@),
            last == parts@.len() - 1,
            text::pieces(found@) == Seq::new(i as nat, |k: int| without_return(pieces[k])),
    {
        let ghost before = text::pieces(found@);
        let line = drop_return(&parts[i]);
        let ghost content = line@;
        found.push(line);
        assert(text::pieces(found@) =~= before.push(content));
        assert(text::pieces(found@) =~= Seq::new(
            (i + 1) as nat,
            |k: int| without_return(pieces[k]),
        ));
    }
    let ghost ended = text::pieces(found@);
    if parts[last].len() > 0 {
        let line = part(&parts[last], 0, parts[last].len());
        let ghost content = line@;
        found.push(line);
        assert(content =~= pieces[last as int]);
        assert(text::pieces(found@) =~= ended.push(content));
    }
    assert(pieces.last() == parts@[last as int]@);
    assert(text::pieces(found@) =~= lines(text@));
    found
}

/// The place where a word that begins at `at` ends.
pub open spec fn word_end(text: Seq<char>, at: int) -> int
    decreases text.len() - at,
{
    if 0 <= at < text.len() && !is_white(text[at]) {
        word_end(text, at + 1)
    } else {
        at
    }
}

/// The runs of other characters between white space, from `at` on.
pub open spec fn words_from(text: Seq<char>, at: int) -> Seq<Seq<char>>
    decreases text.len() - at,
{
    if at < 0 || at >= text.len() {
        Seq::empty()
    } else if is_white(text[at]) {
        words_from(text, at + 1)
    } else {
        let end = word_end(text, at + 1);
        if end <= at || end > text.len() {
            Seq::empty()
        } else {
            seq![text.subrange(at, end)] + words_from(text, end)
        }
    }
}

pub open spec fn words(text: Seq<char>) -> Seq<Seq<char>> {
    words_from(text, 0)
}

pub fn split_words(text: &Vec<char>) -> (found: Vec<Vec<char>>)
    ensures
        text::pieces(found@) == words(text@),
{
    let mut found: Vec<Vec<char>> = Vec::new();
    let mut at: usize = 0;
    let ghost expected = words(text@);
    assert(expected =~= text::pieces(found@) + words_from(text@, 0));
    while at < text.len()
        invariant
            at <= text@.len(),
            expected == text::pieces(found@) + words_from(text@, at as int),
        decreases text@.len() - at,
    {
        if white(text[at]) {
            at = at + 1;
        } else {
            let mut end: usize = at + 1;
            while end < text.len() && !white(text[end])
                invariant
                    at < end <= text@.len(),
                    word_end(text@, at + 1) == word_end(text@, end as int),
                decreases text@.len() - end,
            {
                end = end + 1;
            }
            let ghost before = text::pieces(found@);
            let word = part(text, at, end);
            let ghost content = word@;
            found.push(word);
            assert(text::pieces(found@) =~= before.push(content));
            assert(expected =~= text::pieces(found@) + words_from(text@, end as int));
            at = end;
        }
    }
    assert(expected =~= text::pieces(found@));
    found
}

// ---------------------------------------------------------------------------
// Numbers
// ---------------------------------------------------------------------------
/// Every character is a decimal digit.
pub open spec fn all_digits(text: Seq<char>) -> bool {
    forall|i: int| 0 <= i < text.len() ==> text::is_decimal_digit(#[trigger] text[i])
}

/// What a sequence of digits stands for.
pub open spec fn digits_value(digits: Seq<char>) -> int
    decreases digits.len(),
{
    if digits.len() == 0 {
        0
    } else {
        digits_value(digits.drop_last()) * 10 + (digits.last() as int - '0' as int)
    }
}

/// The digits of a number, behind an optional plus sign.
pub open spec fn unsigned(text: Seq<char>) -> Seq<char> {
    if text.len() > 0 && text[0] == '+' {
        text.skip(1)
    } else {
        text
    }
}

/// The number that a text denotes, where it denotes one up to `limit`.
pub open spec fn number(text: Seq<char>, limit: int) -> Option<int> {
    let digits = unsigned(text);
    if digits.len() > 0 && all_digits(digits) && digits_value(digits) <= limit {
        Some(digits_value(digits))
    } else {
        None
    }
}

proof fn lemma_digits_value_grows(digits: Seq<char>, upto: int)
    requires
        0 <= upto <= digits.len(),
        all_digits(digits),
    ensures
        0 <= digits_value(digits.take(upto)) <= digits_value(digits),
    decreases digits.len(),
{
    if digits.len() > 0 {
        let shorter = digits.drop_last();
        assert forall|i: int| 0 <= i < shorter.len() implies text::is_decimal_digit(
            #[trigger] shorter[i],
        ) by {
            assert(shorter[i] == digits[i]);
        }
        assert(text::is_decimal_digit(digits[digits.len() - 1]));
        if upto == digits.len() {
            assert(digits.take(upto) =~= digits);
            lemma_digits_value_grows(shorter, upto - 1);
        } else {
            assert(shorter.take(upto) =~= digits.take(upto));
            lemma_digits_value_grows(shorter, upto);
        }
    } else {
        assert(digits.take(upto) =~= digits);
    }
}

fn digit_value(c: char) -> (value: Option<u64>)
    ensures
        value is Some <==> text::is_decimal_digit(c),
        value is Some ==> value->0 == c as int - '0' as int && value->0 <= 9,
{
    proof {
        vstd::utf8::char_u32_cast(c, c as u32);
    }
    let code: u32 = c as u32;
    if 48 <= code && code <= 57 {
        Some((code - 48) as u64)
    } else {
        None
    }
}

fn parse_digits(text: &Vec<char>, start: usize, limit: u64) -> (value: Option<u64>)
    requires
        start <= text@.len(),
    ensures
        ({
            let digits = text@.skip(start as int);
            match value {
                Some(found) => digits.len() > 0 && all_digits(digits) && digits_value(digits)
                    == found && found <= limit,
                None => digits.len() == 0 || !all_digits(digits) || digits_value(digits) > limit,
            }
        }),
{
    let ghost digits = text@.skip(start as int);
    if start == text.len() {
        return None;
    }
    let mut value: u64 = 0;
    let mut over = false;
    for i in start..text.len()
        invariant
            start <= text@.len(),
            digits == text@.skip(start as int),
            forall|k: int| 0 <= k < i - start ==> text::is_decimal_digit(#[trigger] digits[k]),
            !over ==> value == digits_value(digits.take(i - start)) && value <= limit,
            over ==> digits_value(digits.take(i - start)) > limit,
    {
        let ghost next = digits.take(i + 1 - start);
        assert(next.drop_last() =~= digits.take(i - start));
        assert(next.last() == text@[i as int]);
        assert(digits[i - start] == text@[i as int]);
        match digit_value(text[i]) {
            None => {
                return None;
            },
            Some(digit) => {
                if !over {
                    if value > limit / 10 || (value == limit / 10 && digit > limit % 10) {
                        over = true;
                        assert(digits_value(next) == value * 10 + digit);
                    } else {
                        value = value * 10 + digit;
                    }
                }
            },
        }
    }
    assert(digits.take(digits.len() as int) =~= digits);
    if over {
        None
    } else {
        Some(value)
    }
}

/// Reads an unsigned number up to `limit`.
pub fn parse_unsigned(text: &Vec<char>, limit: u64) -> (value: Option<u64>)
    ensures
        match value {
            Some(found) => number(text@, limit as int) == Some(found as int),
            None => number(text@, limit as int) is None,
        },
{
    if text.len() > 0 && text[0] == '+' {
        parse_digits(text, 1, limit)
    } else {
        assert(text@.skip(0) =~= text@);
        parse_digits(text, 0, limit)
    }
}

/// An upper-case ASCII letter in lower case; other characters as they are.
pub open spec fn lower_char(c: char) -> char {
    if 'A' as int <= c as int <= 'Z' as int {
        (c as int + 32) as char
    } else {
        c
    }
}

pub open spec fn lower(text: Seq<char>) -> Seq<char> {
    Seq::new(text.len(), |i: int| lower_char(text[i]))
}

/// The text in lower case is that literal.
pub fn lower_is(text: &Vec<char>, literal: &str) -> (same: bool)
    ensures
        same == (lower(text@) == literal@),
{
    let other = text::to_chars(literal);
    if text.len() != other.len() {
        assert(lower(text@).len() != literal@.len());
        return false;
    }
    for i in 0..text.len()
        invariant
            other@ == literal@,
            text@.len() == other@.len(),
            forall|k: int| 0 <= k < i ==> lower(text@)[k] == #[trigger] other@[k],
    {
        proof {
            vstd::utf8::char_is_scalar(text@[i as int]);
            vstd::utf8::char_is_scalar(other@[i as int]);
            vstd::utf8::char_u32_cast(text@[i as int], text@[i as int] as u32);
            vstd::utf8::char_u32_cast(other@[i as int], other@[i as int] as u32);
        }
        let code: u32 = text[i] as u32;
        let low: u32 = if 65 <= code && code <= 90 {
            code + 32
        } else {
            code
        };
        if low != other[i] as u32 {
            assert(lower(text@)[i as int] != other@[i as int]);
            return false;
        }
        assert(lower(text@)[i as int] == other@[i as int]);
    }
    assert(lower(text@) =~= literal@);
    true
}

/// A number that is read lies between zero and the limit.
pub proof fn lemma_number_range(text: Seq<char>, limit: int)
    ensures
        number(text, limit) matches Some(value) ==> 0 <= value <= limit,
{
    let digits = unsigned(text);
    if number(text, limit) is Some {
        assert(digits.take(digits.len() as int) =~= digits);
        lemma_digits_value_grows(digits, digits.len() as int);
    }
}

proof fn lemma_decimal_value(value: nat)
    ensures
        digits_value(text::decimal(value)) == value,
    decreases value,
{
    text::lemma_decimal_digits(value);
    if value < 10 {
        assert(text::decimal(value).drop_last() =~= Seq::empty());
        assert(digits_value(Seq::empty()) == 0);
    } else {
        lemma_decimal_value(value / 10);
        assert(text::decimal(value).drop_last() =~= text::decimal(value / 10));
    }
}

/// Reading gives back what decimal notation writes, with or without a plus sign,
/// as far as the limit allows.
pub proof fn lemma_number_reads_decimal(value: nat, limit: int)
    ensures
        number(text::decimal(value), limit) == (if value <= limit {
            Some(value as int)
        } else {
            None
        }),
        number(seq!['+'] + text::decimal(value), limit) == (if value <= limit {
            Some(value as int)
        } else {
            None
        }),
{
    text::lemma_decimal_digits(value);
    lemma_decimal_value(value);
    let digits = text::decimal(value);
    assert(text::is_decimal_digit(digits[0]));
    assert((seq!['+'] + digits).skip(1) =~= digits);
}

/// What is read as a number consists of digits behind at most one plus sign.
pub proof fn lemma_number_needs_digits(text: Seq<char>, limit: int)
    requires
        number(text, limit) is Some,
    ensures
        text.len() > 0,
        forall|i: int|
            0 < i < text.len() ==> text::is_decimal_digit(#[trigger] text[i]),
        text::is_decimal_digit(text[0]) || (text[0] == '+' && text.len() > 1),
{
    let digits = unsigned(text);
    if text.len() > 0 && text[0] == '+' {
        assert forall|i: int| 0 < i < text.len() implies text::is_decimal_digit(
            #[trigger] text[i],
        ) by {
            assert(digits[i - 1] == text[i]);
        }
    } else {
        assert(digits == text);
        assert(text::is_decimal_digit(digits[0]));
    }
}

proof fn lemma_trimmed_front(text: Seq<char>) -> (front: int)
    ensures
        0 <= front <= text.len(),
        trimmed_front(text) == text.skip(front),
        forall|i: int| 0 <= i < front ==> is_white(#[trigger] text[i]),
        front < text.len() ==> !is_white(text[front]),
    decreases text.len(),
{
    if text.len() > 0 && is_white(text[0]) {
        let rest = text.skip(1);
        let found = lemma_trimmed_front(rest);
        assert(rest.skip(found) =~= text.skip(found + 1));
        assert forall|i: int| 0 <= i < found + 1 implies is_white(#[trigger] text[i]) by {
            if i > 0 {
                assert(rest[i - 1] == text[i]);
            }
        }
        if found < rest.len() {
            assert(rest[found] == text[found + 1]);
        }
        found + 1
    } else {
        assert(text.skip(0) =~= text);
        0
    }
}

proof fn lemma_trimmed_back(text: Seq<char>) -> (back: int)
    ensures
        0 <= back <= text.len(),
        trimmed_back(text) == text.take(back),
        forall|i: int| back <= i < text.len() ==> is_white(#[trigger] text[i]),
        back > 0 ==> !is_white(text[back - 1]),
    decreases text.len(),
{
    if text.len() > 0 && is_white(text.last()) {
        let rest = text.drop_last();
        let found = lemma_trimmed_back(rest);
        assert(rest.take(found) =~= text.take(found));
        assert forall|i: int| found <= i < text.len() implies is_white(#[trigger] text[i]) by {
            if i < rest.len() {
                assert(rest[i] == text[i]);
            }
        }
        if found > 0 {
            assert(rest[found - 1] == text[found - 1]);
        }
        found
    } else {
        assert(text.take(text.len() as int) =~= text);
        text.len() as int
    }
}

/// Trimming takes the white space off both ends and nothing else.
pub proof fn lemma_trimmed(text: Seq<char>) -> (ends: (int, int))
    ensures
        0 <= ends.0 <= ends.1 <= text.len(),
        trimmed(text) == text.subrange(ends.0, ends.1),
        forall|i: int| 0 <= i < ends.0 ==> is_white(#[trigger] text[i]),
        forall|i: int| ends.1 <= i < text.len() ==> is_white(#[trigger] text[i]),
        trimmed(text).len() > 0 ==> !is_white(trimmed(text)[0]) && !is_white(trimmed(text).last()),
{
    let front = lemma_trimmed_front(text);
    let rest = text.skip(front);
    let back = lemma_trimmed_back(rest);
    assert(rest.take(back) =~= text.subrange(front, front + back));
    assert forall|i: int| front + back <= i < text.len() implies is_white(#[trigger] text[i]) by {
        assert(rest[i - front] == text[i]);
    }
    if back > 0 {
        assert(rest[0] == text[front]);
        assert(trimmed(text)[0] == text[front]);
        assert(trimmed(text).last() == rest[back - 1]);
    }
    (front, front + back)
}

/// A word is not empty and holds no white space.
pub proof fn lemma_words_solid(text: Seq<char>, at: int, word: int)
    requires
        0 <= at,
        0 <= word < words_from(text, at).len(),
    ensures
        words_from(text, at)[word].len() > 0,
        forall|i: int|
            0 <= i < words_from(text, at)[word].len() ==> !is_white(
                #[trigger] words_from(text, at)[word][i],
            ),
    decreases text.len() - at,
{
    if is_white(text[at]) {
        lemma_words_solid(text, at + 1, word);
    } else {
        let end = word_end(text, at + 1);
        lemma_word_end(text, at + 1);
        if word == 0 {
            assert(words_from(text, at)[0] == text.subrange(at, end));
        } else {
            lemma_words_solid(text, end, word - 1);
            assert(words_from(text, at)[word] == words_from(text, end)[word - 1]);
        }
    }
}

proof fn lemma_word_end(text: Seq<char>, at: int)
    requires
        0 <= at <= text.len(),
    ensures
        at <= word_end(text, at) <= text.len(),
        forall|i: int| at <= i < word_end(text, at) ==> !is_white(#[trigger] text[i]),
        word_end(text, at) < text.len() ==> is_white(text[word_end(text, at)]),
    decreases text.len() - at,
{
    if at < text.len() && !is_white(text[at]) {
        lemma_word_end(text, at + 1);
    }
}

/// Text without white space, up to the end or to white space, is the first word,
/// and the other words are those of what follows.
pub proof fn lemma_words_of_word(word: Seq<char>, rest: Seq<char>)
    requires
        word.len() > 0,
        forall|i: int| 0 <= i < word.len() ==> !is_white(#[trigger] word[i]),
        rest.len() == 0 || is_white(rest[0]),
    ensures
        words(word + rest).len() > 0,
        words(word + rest)[0] == word,
        words(word + rest) == seq![word] + words(rest),
{
    let text = word + rest;
    assert(text[0] == word[0]);
    lemma_word_end(text, 1);
    let end = word_end(text, 1);
    if end < word.len() {
        assert(text[end] == word[end]);
    }
    if end > word.len() {
        assert(text[word.len() as int] == rest[0]);
    }
    assert(end == word.len());
    assert(text.subrange(0, end) =~= word);
    lemma_words_shifted(word, rest, 0);
}

proof fn lemma_words_shifted(front: Seq<char>, rest: Seq<char>, at: int)
    requires
        0 <= at,
    ensures
        words_from(front + rest, front.len() + at) == words_from(rest, at),
    decreases rest.len() - at,
{
    let text = front + rest;
    let place = front.len() + at;
    if at < rest.len() {
        assert(text[place] == rest[at]);
        if is_white(rest[at]) {
            lemma_words_shifted(front, rest, at + 1);
        } else {
            lemma_word_end_shifted(front, rest, at + 1);
            lemma_word_end(rest, at + 1);
            let end = word_end(rest, at + 1);
            assert(text.subrange(place, front.len() + end) =~= rest.subrange(at, end));
            lemma_words_shifted(front, rest, end);
        }
    }
}

proof fn lemma_word_end_shifted(front: Seq<char>, rest: Seq<char>, at: int)
    requires
        0 <= at <= rest.len(),
    ensures
        word_end(front + rest, front.len() + at) == front.len() + word_end(rest, at),
    decreases rest.len() - at,
{
    if at < rest.len() {
        assert((front + rest)[front.len() + at] == rest[at]);
        if !is_white(rest[at]) {
            lemma_word_end_shifted(front, rest, at + 1);
        }
    }
}

/// The lines of a text are its first line, without a carriage return at its end,
/// and the lines of what follows the line feed; a last line without a line feed
/// counts where it is not empty, and as it is.
pub proof fn lemma_lines(line: Seq<char>, rest: Seq<char>)
    requires
        forall|i: int| 0 <= i < line.len() ==> #[trigger] line[i] != '\n',
    ensures
        lines(line.push('\n') + rest) == seq![without_return(line)] + lines(rest),
        line.len() > 0 ==> lines(line) == seq![line],
        lines(Seq::empty()) == Seq::<Seq<char>>::empty(),
        forall|content: Seq<char>| line == #[trigger] content.push('\r') ==> without_return(line)
            == content,
        line.len() == 0 || line.last() != '\r' ==> without_return(line) == line,
{
    text::lemma_split_joined(line, '\n', rest);
    text::lemma_split_pieces(line, '\n');
    text::lemma_split_nonempty(rest, '\n');
    let whole = line.push('\n') + rest;
    let parts = text::split_on(whole, '\n');
    let behind = text::split_on(rest, '\n');
    assert(parts =~= seq![line] + behind);
    assert(parts.last() == behind.last());
    assert(lines(whole) =~= seq![without_return(line)] + lines(rest));
    if line.len() > 0 {
        assert(text::split_on(line, '\n') == seq![line]);
        assert(lines(line) =~= seq![line]);
    }
    let nothing = Seq::<char>::empty();
    assert(text::split_on(nothing, '\n') == seq![nothing]);
    assert(lines(nothing) =~= Seq::<Seq<char>>::empty());
    assert forall|content: Seq<char>| line == #[trigger] content.push('\r') implies without_return(
        line,
    ) == content by {
        assert(content.push('\r').drop_last() =~= content);
    }
}

/// Replacing leaves a text without the pattern as it is.
pub proof fn lemma_replaced_nothing(text: Seq<char>, pattern: Seq<char>, with: Seq<char>)
    requires
        forall|k: int| 0 <= k ==> !occurs_at(text, pattern, k),
    ensures
        replaced(text, pattern, with) == text,
{
    lemma_first_place(text, pattern, 0);
    assert(text.subrange(0, text.len() as int) =~= text);
}

/// Replacing puts the replacement in the place of the first occurrence and goes on
/// behind it.
pub proof fn lemma_replaced_first(
    text: Seq<char>,
    pattern: Seq<char>,
    with: Seq<char>,
    at: int,
)
    requires
        pattern.len() > 0,
        occurs_at(text, pattern, at),
        forall|k: int| 0 <= k < at ==> !occurs_at(text, pattern, k),
    ensures
        replaced(text, pattern, with) == text.take(at) + with + replaced_from(
            text,
            pattern,
            with,
            at + pattern.len(),
        ),
{
    lemma_first_place(text, pattern, 0);
    assert(first_place(text, pattern, 0) == Some(at));
    assert(text.subrange(0, at) =~= text.take(at));
}

/// A pair is split at the first separator: what is before it and what is behind it,
/// with the separator between them, make up the text, and the separator does not
/// begin earlier.
pub proof fn lemma_split_pair(text: Seq<char>, separator: Seq<char>)
    requires
        separator.len() > 0,
    ensures
        split_pair(text, separator) matches Some((left, right)) ==> {
            &&& text == left + separator + right
            &&& forall|k: int| 0 <= k < left.len() ==> !occurs_at(text, separator, k)
        },
        split_pair(text, separator) is None ==> forall|k: int|
            0 <= k ==> !occurs_at(text, separator, k),
{
    lemma_first_place(text, separator, 0);
    if split_pair(text, separator) is Some {
        let at = first_place(text, separator, 0)->0;
        assert(text =~= text.take(at) + separator + text.skip(at + separator.len())) by {
            assert(text.subrange(at, at + separator.len()) == separator);
            assert forall|i: int| at <= i < at + separator.len() implies text[i] == separator[i
                - at] by {
                assert(text.subrange(at, at + separator.len())[i - at] == text[i]);
            }
        }
    }
}

/// Pieces with a separator between them.
pub open spec fn separated(pieces: Seq<Seq<char>>, separator: Seq<char>) -> Seq<char>
    decreases pieces.len(),
{
    if pieces.len() == 0 {
        Seq::empty()
    } else if pieces.len() == 1 {
        pieces[0]
    } else {
        pieces[0] + separator + separated(pieces.skip(1), separator)
    }
}

proof fn lemma_sections_from(text: Seq<char>, separator: Seq<char>, start: int)
    requires
        separator.len() > 0,
        0 <= start <= text.len(),
    ensures
        sections_from(text, separator, start).len() >= 1,
        separated(sections_from(text, separator, start), separator) == text.skip(start),
        forall|k: int, at: int|
            #![trigger occurs_at(sections_from(text, separator, start)[k], separator, at)]
            0 <= k < sections_from(text, separator, start).len() ==> !occurs_at(
                sections_from(text, separator, start)[k],
                separator,
                at,
            ),
    decreases text.len() - start,
{
    lemma_first_place(text, separator, start);
    let pieces = sections_from(text, separator, start);
    let end = match first_place(text, separator, start) {
        Some(at) => at,
        None => text.len() as int,
    };
    let head = text.subrange(start, end);
    assert forall|at: int| !#[trigger] occurs_at(head, separator, at) by {
        if occurs_at(head, separator, at) {
            assert(text.subrange(start + at, start + at + separator.len()) =~= head.subrange(
                at,
                at + separator.len(),
            ));
            assert(occurs_at(text, separator, start + at));
        }
    }
    if first_place(text, separator, start) is Some {
        let behind = end + separator.len();
        lemma_sections_from(text, separator, behind);
        let rest = sections_from(text, separator, behind);
        assert(pieces =~= seq![head] + rest);
        assert(pieces.skip(1) =~= rest);
        assert(text.subrange(end, behind) == separator);
        assert(text.skip(start) =~= head + text.subrange(end, behind) + text.skip(behind));
        assert forall|k: int, at: int|
            #![trigger occurs_at(pieces[k], separator, at)]
            0 <= k < pieces.len() implies !occurs_at(pieces[k], separator, at) by {
            if k > 0 {
                assert(pieces[k] == rest[k - 1]);
                assert(!occurs_at(rest[k - 1], separator, at));
            }
        }
    } else {
        assert(pieces =~= seq![head]);
        assert(head =~= text.skip(start));
    }
}

/// The sections of a text make up the text with the separator between them, and the
/// separator occurs in none of them.
pub proof fn lemma_sections(text: Seq<char>, separator: Seq<char>)
    requires
        separator.len() > 0,
    ensures
        sections(text, separator).len() >= 1,
        separated(sections(text, separator), separator) == text,
        forall|k: int, at: int|
            #![trigger occurs_at(sections(text, separator)[k], separator, at)]
            0 <= k < sections(text, separator).len() ==> !occurs_at(
                sections(text, separator)[k],
                separator,
                at,
            ),
{
    lemma_sections_from(text, separator, 0);
    assert(text.skip(0) =~= text);
}

} // verus!
