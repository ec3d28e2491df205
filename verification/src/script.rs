//! Text handling for the voice front end that turns a spoken request into a
//! generated motion script: cleaning the generated text, numbering and naming
//! the script file, and deciding how a session goes on after a transcript.
//!
//! Texts are sequences of characters. Two questions about characters are left
//! to the standard library, which knows the Unicode tables: whether a
//! character is whitespace, and what the lowercase form of a text is.

use vstd::prelude::*;

verus! {

/// Whether a character has the Unicode property `White_Space`, as
/// `char::is_whitespace` tells it.
pub uninterp spec fn unicode_whitespace(c: char) -> bool;

/// The lowercase form of a text, as `str::to_lowercase` gives it.
pub uninterp spec fn lowercase_of(text: Seq<char>) -> Seq<char>;

/// Calls `char::is_whitespace`. The contract only names the answer: it is the
/// Unicode property `White_Space` of the character.
#[verifier::external_body]
fn is_whitespace(c: char) -> (blank: bool)
    ensures
        blank == unicode_whitespace(c),
{
    c.is_whitespace()
}

/// Calls `str::to_lowercase` on the text made of the given characters. The
/// contract only names the result: it is the lowercase form of the text.
#[verifier::external_body]
fn to_lowercase(text: &Vec<char>) -> (lowered: Vec<char>)
    ensures
        lowered@ == lowercase_of(text@),
{
    let joined: String = text.iter().collect();
    joined.to_lowercase().chars().collect()
}

/// How a session goes on after a transcript.
#[derive(Clone, Copy, Debug, PartialEq, Eq)]
pub enum Reply {
    /// The speaker took leave: say goodbye and end the session.
    Goodbye,
    /// The transcript is a request: generate and run a script for it.
    Run,
    /// Nothing was understood: ask again.
    Retry,
}

/// The marker that opens a fenced block of Python: three backticks and the
/// word `python`.
pub open spec fn fence_mark() -> Seq<char> {
    seq!['`', '`', '`', 'p', 'y', 't', 'h', 'o', 'n']
}

/// The opening line of a fenced block: the marker and a line feed.
pub open spec fn fence_open() -> Seq<char> {
    fence_mark().push('\n')
}

/// The closing line of a fenced block: a line feed and three backticks.
pub open spec fn fence_close() -> Seq<char> {
    seq!['\n', '`', '`', '`']
}

/// The word that ends a session wherever it occurs.
pub open spec fn goodbye_word() -> Seq<char> {
    seq!['g', 'o', 'o', 'd', 'b', 'y', 'e']
}

/// The answer that ends a session when it is all that was said.
pub open spec fn no_word() -> Seq<char> {
    seq!['n', 'o']
}

/// The end of every generated script's file name.
pub open spec fn name_tail() -> Seq<char> {
    seq!['_', 'g', 'e', 'n', 'e', 'r', 'a', 't', 'e', 'd', '.', 'p', 'y']
}

/// `pattern` occurs in `text` at index `at`.
pub open spec fn occurs_at(text: Seq<char>, at: int, pattern: Seq<char>) -> bool {
    0 <= at && at + pattern.len() <= text.len() && text.subrange(at, at + pattern.len())
        == pattern
}

/// `text` begins with `prefix`.
pub open spec fn starts_with(text: Seq<char>, prefix: Seq<char>) -> bool {
    occurs_at(text, 0, prefix)
}

/// `text` ends with `suffix`.
pub open spec fn ends_with(text: Seq<char>, suffix: Seq<char>) -> bool {
    occurs_at(text, text.len() - suffix.len(), suffix)
}

/// `pattern` occurs somewhere in `text`.
pub open spec fn contains(text: Seq<char>, pattern: Seq<char>) -> bool {
    exists|at: int| #[trigger] occurs_at(text, at, pattern)
}

/// For each character of the text, whether it is whitespace.
pub open spec fn whitespace_flags(text: Seq<char>) -> Seq<bool> {
    Seq::new(text.len(), |i: int| unicode_whitespace(text[i]))
}

/// Index of the first character at or after `from` that is not blank, or the
/// length of the flags when there is none.
pub open spec fn solid_start(blank: Seq<bool>, from: int) -> int
    decreases blank.len() - from,
{
    if from < 0 || from >= blank.len() {
        blank.len() as int
    } else if !blank[from] {
        from
    } else {
        solid_start(blank, from + 1)
    }
}

/// Index just behind the last character before `upto` that is not blank, but
/// no less than `floor`.
pub open spec fn solid_end(blank: Seq<bool>, floor: int, upto: int) -> int
    decreases upto - floor,
{
    if upto <= floor || upto > blank.len() {
        floor
    } else if !blank[upto - 1] {
        upto
    } else {
        solid_end(blank, floor, upto - 1)
    }
}

/// The text without its leading and trailing blank characters.
pub open spec fn trimmed(text: Seq<char>, blank: Seq<bool>) -> Seq<char> {
    let start = solid_start(blank, 0);
    text.subrange(start, solid_end(blank, start, text.len() as int))
}

/// The generated text with its code fence removed. A text that does not begin
/// with the fence marker is left as it is. Otherwise the opening line is taken
/// off, then the closing line, and what is left is trimmed; where the closing
/// line is missing the whole text, opening line included, is only trimmed.
pub open spec fn unfenced(text: Seq<char>, blank: Seq<bool>) -> Seq<char> {
    if !starts_with(text, fence_mark()) {
        text
    } else {
        let opened = starts_with(text, fence_open());
        let from = if opened {
            fence_open().len() as int
        } else {
            0
        };
        let body = text.subrange(from, text.len() as int);
        if ends_with(body, fence_close()) {
            let to = text.len() - fence_close().len();
            trimmed(text.subrange(from, to), blank.subrange(from, to))
        } else {
            trimmed(text, blank)
        }
    }
}

/// How the session goes on: a transcript whose lowercase form contains the
/// word "goodbye", or is "no" once trimmed, ends it; any other transcript that
/// is not empty is run; an empty one is asked for again.
pub open spec fn reply_to(transcript_len: nat, lowered: Seq<char>, blank: Seq<bool>) -> Reply {
    if contains(lowered, goodbye_word()) || trimmed(lowered, blank) == no_word() {
        Reply::Goodbye
    } else if transcript_len > 0 {
        Reply::Run
    } else {
        Reply::Retry
    }
}

/// A decimal digit.
pub open spec fn is_digit(c: char) -> bool {
    '0' <= c <= '9'
}

/// The value of a decimal digit; other characters count as zero.
pub open spec fn digit_value(c: char) -> nat {
    if is_digit(c) {
        (c as u32 - '0' as u32) as nat
    } else {
        0
    }
}

/// The number that a sequence of decimal digits writes.
pub open spec fn decimal_value(digits: Seq<char>) -> nat
    decreases digits.len(),
{
    if digits.len() == 0 {
        0
    } else {
        decimal_value(digits.drop_last()) * 10 + digit_value(digits.last())
    }
}

/// The decimal digits of a number, without leading zeros.
pub open spec fn decimal_digits(number: nat) -> Seq<char>
    decreases number,
{
    if number < 10 {
        seq![(number + '0' as u32) as char]
    } else {
        decimal_digits(number / 10).push((number % 10 + '0' as u32) as char)
    }
}

/// Every character is a decimal digit.
pub open spec fn all_digits(digits: Seq<char>) -> bool {
    forall|i: int| 0 <= i < digits.len() ==> is_digit(#[trigger] digits[i])
}

/// The text without the plus sign that may stand in front of it.
pub open spec fn unsigned_part(text: Seq<char>) -> Seq<char> {
    if text.len() > 0 && text[0] == '+' {
        text.subrange(1, text.len() as int)
    } else {
        text
    }
}

/// The number that a text writes: an optional plus sign and at least one
/// decimal digit, with a value that fits 32 bits. Any other text writes none.
pub open spec fn number_of(text: Seq<char>) -> Option<u32> {
    let digits = unsigned_part(text);
    if digits.len() > 0 && all_digits(digits) && decimal_value(digits) <= u32::MAX {
        Some(decimal_value(digits) as u32)
    } else {
        None
    }
}

/// Index of the first underscore of a name, or its length when it has none.
pub open spec fn head_len(name: Seq<char>, from: int) -> int
    decreases name.len() - from,
{
    if from < 0 || from >= name.len() {
        name.len() as int
    } else if name[from] == '_' {
        from
    } else {
        head_len(name, from + 1)
    }
}

/// The number at the head of a file name: what stands before the first
/// underscore, read as a number.
pub open spec fn leading_number_of(name: Seq<char>) -> Option<u32> {
    number_of(name.subrange(0, head_len(name, 0)))
}

/// The highest number at the head of the first `count` names, if any of them
/// has one.
pub open spec fn highest_number(names: Seq<Vec<char>>, count: nat) -> Option<u32>
    decreases count,
{
    if count == 0 {
        None
    } else {
        let earlier = highest_number(names, (count - 1) as nat);
        match (earlier, leading_number_of(names[count - 1]@)) {
            (Some(a), Some(b)) => Some(if a >= b { a } else { b }),
            (Some(a), None) => Some(a),
            (None, other) => other,
        }
    }
}

/// Numbering starts above this number when no script is numbered yet.
pub const NUMBER_FLOOR: u32 = 5;

/// The number of the next script: one more than the highest number in use, or
/// than `NUMBER_FLOOR` when none is in use. There is none when the highest
/// number in use is the largest that fits 32 bits.
pub open spec fn next_number_of(names: Seq<Vec<char>>) -> Option<u32> {
    let highest = match highest_number(names, names.len()) {
        Some(number) => number,
        None => NUMBER_FLOOR,
    };
    if highest < u32::MAX {
        Some((highest + 1) as u32)
    } else {
        None
    }
}

/// The file name of a script: its number in at least two decimal digits, then
/// `_generated.py`.
pub open spec fn file_name_of(number: u32) -> Seq<char> {
    let digits = decimal_digits(number as nat);
    (if number < 10 {
        seq!['0'] + digits
    } else {
        digits
    }) + name_tail()
}

/// Tells whether `pattern` occurs in `text` at index `at`.
pub fn matches_at(text: &Vec<char>, at: usize, pattern: &Vec<char>) -> (found: bool)
    ensures
        found == occurs_at(text@, at as int, pattern@),
{
    if pattern.len() > text.len() || at > text.len() - pattern.len() {
        return false;
    }
    let mut k: usize = 0;
    while k < pattern.len()
        invariant
            k <= pattern@.len(),
            at + pattern@.len() <= text@.len() <= usize::MAX,
            forall|j: int| 0 <= j < k ==> text@[at + j] == pattern@[j],
        decreases pattern@.len() - k,
    {
        if text[at + k] != pattern[k] {
            proof {
                let part = text@.subrange(at as int, at + pattern@.len());
                assert(part[k as int] == text@[at + k]);
            }
            return false;
        }
        k = k + 1;
    }
    proof {
        assert(text@.subrange(at as int, at + pattern@.len()) =~= pattern@);
    }
    true
}

/// Tells whether `pattern` occurs somewhere in `text`.
pub fn find(text: &Vec<char>, pattern: &Vec<char>) -> (found: bool)
    ensures
        found == contains(text@, pattern@),
{
    if pattern.len() > text.len() {
        return false;
    }
    let last: usize = text.len() - pattern.len();
    let mut at: usize = 0;
    while at < last
        invariant
            at <= last,
            last + pattern@.len() == text@.len(),
            forall|i: int| 0 <= i < at ==> !occurs_at(text@, i, pattern@),
        decreases last - at,
    {
        if matches_at(text, at, pattern) {
            return true;
        }
        at = at + 1;
    }
    matches_at(text, last, pattern)
}

/// Tells of each character of a text whether it is whitespace.
pub fn blank_flags(text: &Vec<char>) -> (blank: Vec<bool>)
    ensures
        blank@ == whitespace_flags(text@),
{
    let mut blank: Vec<bool> = Vec::new();
    let mut at: usize = 0;
    while at < text.len()
        invariant
            at <= text@.len(),
            blank@.len() == at,
            forall|i: int| 0 <= i < at ==> blank@[i] == unicode_whitespace(#[trigger] text@[i]),
        decreases text@.len() - at,
    {
        blank.push(is_whitespace(text[at]));
        at = at + 1;
    }
    proof {
        assert(blank@ =~= whitespace_flags(text@));
    }
    blank
}

/// Copies the part of a text between two indices, trimmed of the blank
/// characters at its two ends.
pub fn trim_range(text: &Vec<char>, blank: &Vec<bool>, from: usize, to: usize) -> (part: Vec<char>)
    requires
        from <= to <= text@.len(),
        blank@.len() == text@.len(),
    ensures
        part@ == trimmed(text@.subrange(from as int, to as int), blank@.subrange(from as int, to as int)),
{
    let ghost flags = blank@.subrange(from as int, to as int);
    let mut start: usize = from;
    while start < to && blank[start]
        invariant
            from <= start <= to <= blank@.len(),
            flags == blank@.subrange(from as int, to as int),
            solid_start(flags, 0) == solid_start(flags, start - from),
        decreases to - start,
    {
        start = start + 1;
    }
    let mut end: usize = to;
    while end > start && blank[end - 1]
        invariant
            from <= start <= end <= to <= blank@.len(),
            flags == blank@.subrange(from as int, to as int),
            solid_end(flags, start - from, to - from) == solid_end(flags, start - from, end - from),
        decreases end - start,
    {
        end = end - 1;
    }
    let mut part: Vec<char> = Vec::new();
    let mut at: usize = start;
    while at < end
        invariant
            start <= at <= end <= text@.len(),
            part@ == text@.subrange(start as int, at as int),
        decreases end - at,
    {
        part.push(text[at]);
        proof {
            assert(text@.subrange(start as int, at + 1) =~= text@.subrange(start as int, at as int).push(
                text@[at as int],
            ));
        }
        at = at + 1;
    }
    proof {
        assert(solid_start(flags, 0) == start - from);
        assert(solid_end(flags, start - from, to - from) == end - from);
        assert(text@.subrange(from as int, to as int).subrange(start - from, end - from)
            =~= text@.subrange(start as int, end as int));
    }
    part
}

/// The opening marker of a fenced block, as characters.
fn fence_mark_chars() -> (mark: Vec<char>)
    ensures
        mark@ == fence_mark(),
{
    let mut mark: Vec<char> = Vec::new();
    mark.push('`');
    mark.push('`');
    mark.push('`');
    mark.push('p');
    mark.push('y');
    mark.push('t');
    mark.push('h');
    mark.push('o');
    mark.push('n');
    proof {
        assert(mark@ =~= fence_mark());
    }
    mark
}

/// The closing line of a fenced block, as characters.
fn fence_close_chars() -> (close: Vec<char>)
    ensures
        close@ == fence_close(),
{
    let mut close: Vec<char> = Vec::new();
    close.push('\n');
    close.push('`');
    close.push('`');
    close.push('`');
    proof {
        assert(close@ =~= fence_close());
    }
    close
}

/// Removes the code fence from a generated text, given the whitespace flags
/// of its characters.
pub fn strip_code_fence_with(text: &Vec<char>, blank: &Vec<bool>) -> (code: Vec<char>)
    requires
        blank@.len() == text@.len(),
    ensures
        code@ == unfenced(text@, blank@),
{
    let mark: Vec<char> = fence_mark_chars();
    if !matches_at(text, 0, &mark) {
        return trim_free_copy(text);
    }
    let mut open: Vec<char> = fence_mark_chars();
    open.push('\n');
    let close: Vec<char> = fence_close_chars();
    let from: usize = if matches_at(text, 0, &open) {
        open.len()
    } else {
        0
    };
    let body_len: usize = text.len() - from;
    let closed: bool = body_len >= close.len() && matches_at(text, text.len() - close.len(), &close);
    proof {
        let body = text@.subrange(from as int, text@.len() as int);
        if body_len >= close@.len() {
            let at = text@.len() - close@.len();
            assert(body.subrange(body.len() - close@.len(), body.len() as int) =~= text@.subrange(
                at,
                at + close@.len(),
            ));
        }
        assert(closed == ends_with(body, fence_close()));
    }
    if closed {
        trim_range(text, blank, from, text.len() - close.len())
    } else {
        proof {
            assert(text@.subrange(0, text@.len() as int) =~= text@);
            assert(blank@.subrange(0, blank@.len() as int) =~= blank@);
        }
        trim_range(text, blank, 0, text.len())
    }
}

/// Copies a text as it is.
fn trim_free_copy(text: &Vec<char>) -> (copy: Vec<char>)
    ensures
        copy@ == text@,
{
    let mut copy: Vec<char> = Vec::new();
    let mut at: usize = 0;
    while at < text.len()
        invariant
            at <= text@.len(),
            copy@ == text@.subrange(0, at as int),
        decreases text@.len() - at,
    {
        copy.push(text[at]);
        proof {
            assert(text@.subrange(0, at + 1) =~= text@.subrange(0, at as int).push(text@[at as int]));
        }
        at = at + 1;
    }
    proof {
        assert(text@.subrange(0, text@.len() as int) =~= text@);
    }
    copy
}

/// Removes the code fence from a generated text.
pub fn strip_code_fence(text: &Vec<char>) -> (code: Vec<char>)
    ensures
        code@ == unfenced(text@, whitespace_flags(text@)),
{
    let blank: Vec<bool> = blank_flags(text);
    strip_code_fence_with(text, &blank)
}

/// Decides how the session goes on, given the lowercase form of the
/// transcript and the whitespace flags of that form.
pub fn decide_reply_with(transcript_len: usize, lowered: &Vec<char>, blank: &Vec<bool>) -> (reply:
    Reply)
    requires
        blank@.len() == lowered@.len(),
    ensures
        reply == reply_to(transcript_len as nat, lowered@, blank@),
{
    let mut goodbye: Vec<char> = Vec::new();
    goodbye.push('g');
    goodbye.push('o');
    goodbye.push('o');
    goodbye.push('d');
    goodbye.push('b');
    goodbye.push('y');
    goodbye.push('e');
    proof {
        assert(goodbye@ =~= goodbye_word());
        assert(lowered@.subrange(0, lowered@.len() as int) =~= lowered@);
        assert(blank@.subrange(0, blank@.len() as int) =~= blank@);
    }
    if find(lowered, &goodbye) {
        return Reply::Goodbye;
    }
    let said: Vec<char> = trim_range(lowered, blank, 0, lowered.len());
    let is_no: bool = said.len() == 2 && said[0] == 'n' && said[1] == 'o';
    proof {
        if is_no {
            assert(said@ =~= no_word());
        }
    }
    if is_no {
        Reply::Goodbye
    } else if transcript_len > 0 {
        Reply::Run
    } else {
        Reply::Retry
    }
}

/// Decides how the session goes on after a transcript.
pub fn decide_reply(transcript: &Vec<char>) -> (reply: Reply)
    ensures
        reply == reply_to(
            transcript@.len(),
            lowercase_of(transcript@),
            whitespace_flags(lowercase_of(transcript@)),
        ),
{
    let lowered: Vec<char> = to_lowercase(transcript);
    let blank: Vec<bool> = blank_flags(&lowered);
    decide_reply_with(transcript.len(), &lowered, &blank)
}

/// A number's value does not shrink when more digits follow.
proof fn lemma_decimal_value_grows(digits: Seq<char>, k: int)
    requires
        0 <= k <= digits.len(),
    ensures
        decimal_value(digits.take(k)) <= decimal_value(digits),
    decreases digits.len(),
{
    if k < digits.len() {
        lemma_decimal_value_grows(digits.drop_last(), k);
        assert(digits.drop_last().take(k) =~= digits.take(k));
    } else {
        assert(digits.take(k) =~= digits);
    }
}

/// Reads the first `upto` characters of a text as a number.
pub fn parse_number(text: &Vec<char>, upto: usize) -> (number: Option<u32>)
    requires
        upto <= text@.len(),
    ensures
        number == number_of(text@.subrange(0, upto as int)),
{
    let start: usize = if upto > 0 && text[0] == '+' {
        1
    } else {
        0
    };
    let ghost whole = text@.subrange(0, upto as int);
    let ghost digits = text@.subrange(start as int, upto as int);
    proof {
        if start == 1 {
            assert(whole.subrange(1, whole.len() as int) =~= digits);
        } else {
            assert(whole =~= digits);
        }
        assert(unsigned_part(whole) == digits);
    }
    if start == upto {
        return None;
    }
    let mut value: u64 = 0;
    let mut at: usize = start;
    while at < upto
        invariant
            start <= at <= upto <= text@.len(),
            digits == text@.subrange(start as int, upto as int),
            unsigned_part(text@.subrange(0, upto as int)) == digits,
            value == decimal_value(digits.take(at - start)),
            value <= u32::MAX,
            forall|i: int| 0 <= i < at - start ==> is_digit(#[trigger] digits[i]),
        decreases upto - at,
    {
        let c: char = text[at];
        if c < '0' || c > '9' {
            proof {
                assert(!is_digit(digits[at - start]));
            }
            return None;
        }
        let digit: u64 = (c as u32 - '0' as u32) as u64;
        proof {
            assert(digits.take(at - start + 1).drop_last() =~= digits.take(at - start));
            assert(digits.take(at - start + 1).last() == c);
        }
        value = value * 10 + digit;
        if value > u32::MAX as u64 {
            proof {
                lemma_decimal_value_grows(digits, at - start + 1);
            }
            return None;
        }
        at = at + 1;
    }
    proof {
        assert(digits.take(upto - start) =~= digits);
    }
    Some(value as u32)
}

/// Reads the number at the head of a file name: what stands before the first
/// underscore.
pub fn leading_number(name: &Vec<char>) -> (number: Option<u32>)
    ensures
        number == leading_number_of(name@),
{
    let mut end: usize = 0;
    while end < name.len() && name[end] != '_'
        invariant
            end <= name@.len(),
            head_len(name@, 0) == head_len(name@, end as int),
        decreases name@.len() - end,
    {
        end = end + 1;
    }
    parse_number(name, end)
}

/// Picks the number of the next script from the names of the files at hand.
pub fn next_script_number(names: &Vec<Vec<char>>) -> (number: Option<u32>)
    ensures
        number == next_number_of(names@),
{
    let mut highest: Option<u32> = None;
    let mut at: usize = 0;
    while at < names.len()
        invariant
            at <= names@.len(),
            highest == highest_number(names@, at as nat),
        decreases names@.len() - at,
    {
        let found: Option<u32> = leading_number(&names[at]);
        highest = match (highest, found) {
            (Some(a), Some(b)) => Some(if a >= b { a } else { b }),
            (Some(a), None) => Some(a),
            (None, other) => other,
        };
        at = at + 1;
    }
    let top: u32 = match highest {
        Some(number) => number,
        None => NUMBER_FLOOR,
    };
    if top < u32::MAX {
        Some(top + 1)
    } else {
        None
    }
}

/// Appends the decimal digits of a number to a text.
fn push_decimal(number: u32, out: &mut Vec<char>)
    ensures
        final(out)@ == old(out)@ + decimal_digits(number as nat),
    decreases number,
{
    if number >= 10 {
        push_decimal(number / 10, out);
    }
    let digit: u8 = (number % 10) as u8;
    out.push((48u8 + digit) as char);
    proof {
        if number >= 10 {
            assert(final(out)@ =~= old(out)@ + decimal_digits(number as nat));
        } else {
            assert(final(out)@ =~= old(out)@ + decimal_digits(number as nat));
        }
    }
}

/// Makes the file name of the script with the given number.
pub fn script_file_name(number: u32) -> (name: Vec<char>)
    ensures
        name@ == file_name_of(number),
{
    let mut name: Vec<char> = Vec::new();
    if number < 10 {
        name.push('0');
    }
    push_decimal(number, &mut name);
    let ghost head = name@;
    name.push('_');
    name.push('g');
    name.push('e');
    name.push('n');
    name.push('e');
    name.push('r');
    name.push('a');
    name.push('t');
    name.push('e');
    name.push('d');
    name.push('.');
    name.push('p');
    name.push('y');
    proof {
        assert(name@ =~= head + name_tail());
        assert(head =~= if number < 10 {
            seq!['0'] + decimal_digits(number as nat)
        } else {
            decimal_digits(number as nat)
        });
    }
    name
}

/// The digits of a number are decimal digits, at least one of them, and they
/// write the number.
pub proof fn lemma_decimal_digits(number: nat)
    ensures
        decimal_digits(number).len() >= 1,
        all_digits(decimal_digits(number)),
        decimal_value(decimal_digits(number)) == number,
    decreases number,
{
    let digits = decimal_digits(number);
    if number < 10 {
        assert(digits.drop_last() =~= Seq::<char>::empty());
        assert(decimal_value(digits.drop_last()) == 0);
    } else {
        lemma_decimal_digits(number / 10);
        assert(digits.drop_last() =~= decimal_digits(number / 10));
    }
}

/// A zero in front of a number's digits does not change the number.
proof fn lemma_leading_zero(digits: Seq<char>)
    ensures
        decimal_value(seq!['0'] + digits) == decimal_value(digits),
    decreases digits.len(),
{
    let padded = seq!['0'] + digits;
    if digits.len() == 0 {
        assert(padded.drop_last() =~= Seq::<char>::empty());
        assert(decimal_value(padded.drop_last()) == 0);
    } else {
        lemma_leading_zero(digits.drop_last());
        assert(padded.drop_last() =~= seq!['0'] + digits.drop_last());
    }
}

/// Where no underscore stands before index `at` and one stands at it, the
/// head of the name ends there.
proof fn lemma_head_len(name: Seq<char>, from: int, at: int)
    requires
        0 <= from <= at < name.len(),
        name[at] == '_',
        forall|i: int| from <= i < at ==> name[i] != '_',
    ensures
        head_len(name, from) == at,
    decreases at - from,
{
    if from < at {
        lemma_head_len(name, from + 1, at);
    }
}

/// A script's file name reads back as the script's number: naming and
/// numbering agree.
pub proof fn lemma_file_name_reads_back(number: u32)
    ensures
        leading_number_of(file_name_of(number)) == Some(number),
{
    let digits = decimal_digits(number as nat);
    lemma_decimal_digits(number as nat);
    let head = if number < 10 {
        seq!['0'] + digits
    } else {
        digits
    };
    let name = file_name_of(number);
    assert(name =~= head + name_tail());
    assert(all_digits(head)) by {
        assert forall|i: int| 0 <= i < head.len() implies is_digit(#[trigger] head[i]) by {
            if number < 10 && i > 0 {
                assert(head[i] == digits[i - 1]);
            }
        }
    }
    assert forall|i: int| 0 <= i < head.len() implies name[i] != '_' by {
        assert(is_digit(head[i]));
    }
    assert(name[head.len() as int] == name_tail()[0]);
    lemma_head_len(name, 0, head.len() as int);
    assert(name.subrange(0, head.len() as int) =~= head);
    assert(is_digit(head[0]));
    assert(unsigned_part(head) == head);
    if number < 10 {
        lemma_leading_zero(digits);
    }
}

} // verus!
