//! Reading a request: the words of its first line, and the number of
//! seconds that a time to live is written as.

use crate::text::{chars_of, texts};
use vstd::prelude::*;
use vstd::string::*;

verus! {

/// White space: the characters that separate the words of a request. These
/// are the characters that Unicode marks as `White_Space`.
pub open spec fn is_space(c: char) -> bool {
    let u = c as u32;
    ||| 0x09 <= u <= 0x0d
    ||| u == 0x20
    ||| u == 0x85
    ||| u == 0xa0
    ||| u == 0x1680
    ||| 0x2000 <= u <= 0x200a
    ||| u == 0x2028
    ||| u == 0x2029
    ||| u == 0x202f
    ||| u == 0x205f
    ||| u == 0x3000
}

/// The number of characters before the first line feed, or the length of
/// the text where it has none.
pub open spec fn line_len(text: Seq<char>) -> nat
    decreases text.len(),
{
    if text.len() == 0 || text[0] == '\n' {
        0
    } else {
        1 + line_len(text.drop_first())
    }
}

/// The first line of a text: what stands before its first line feed.
pub open spec fn first_line(text: Seq<char>) -> Seq<char> {
    text.take(line_len(text) as int)
}

/// The number of characters before the first white space, or the length of
/// the text where it has none.
pub open spec fn word_len(text: Seq<char>) -> nat
    decreases text.len(),
{
    if text.len() == 0 || is_space(text[0]) {
        0
    } else {
        1 + word_len(text.drop_first())
    }
}

/// The words of a text: its longest runs of characters other than white
/// space, from left to right.
pub open spec fn words(text: Seq<char>) -> Seq<Seq<char>>
    decreases text.len(),
{
    if text.len() == 0 {
        Seq::empty()
    } else if is_space(text[0]) {
        words(text.drop_first())
    } else {
        let n = word_len(text) as int;
        if 0 < n <= text.len() {
            seq![text.take(n)] + words(text.skip(n))
        } else {
            Seq::empty()
        }
    }
}

/// The place `n` is where the first line of `text` ends, if no line feed
/// stands before it and either the text ends there or a line feed stands
/// there.
proof fn lemma_line_len(text: Seq<char>, n: int)
    requires
        0 <= n <= text.len(),
        forall|k: int| 0 <= k < n ==> text[k] != '\n',
        n == text.len() || text[n] == '\n',
    ensures
        line_len(text) == n,
    decreases n,
{
    if n > 0 {
        let rest = text.drop_first();
        assert forall|k: int| 0 <= k < n - 1 implies rest[k] != '\n' by {
            assert(rest[k] == text[k + 1]);
        }
        lemma_line_len(rest, n - 1);
    }
}

/// The place `n` is where the first word of `text` ends, if no white space
/// stands before it and either the text ends there or white space stands
/// there.
proof fn lemma_word_len(text: Seq<char>, n: int)
    requires
        0 <= n <= text.len(),
        forall|k: int| 0 <= k < n ==> !is_space(#[trigger] text[k]),
        n == text.len() || is_space(text[n]),
    ensures
        word_len(text) == n,
    decreases n,
{
    if n > 0 {
        let rest = text.drop_first();
        assert forall|k: int| 0 <= k < n - 1 implies !is_space(#[trigger] rest[k]) by {
            assert(rest[k] == text[k + 1]);
        }
        lemma_word_len(rest, n - 1);
    }
}

/// Whether a character is white space.
pub fn is_space_char(c: char) -> (space: bool)
    ensures
        space == is_space(c),
{
    let u = c as u32;
    (0x09 <= u && u <= 0x0d) || u == 0x20 || u == 0x85 || u == 0xa0 || u == 0x1680 || (0x2000 <= u
        && u <= 0x200a) || u == 0x2028 || u == 0x2029 || u == 0x202f || u == 0x205f || u == 0x3000
}

/// The words of the first line of a request.
pub fn tokenize(request: &str) -> (tokens: Vec<String>)
    ensures
        texts(tokens@) == words(first_line(request@)),
{
    let chars = chars_of(request);
    let mut end: usize = 0;
    while end < chars.len() && chars[end] != '\n'
        invariant
            end <= chars@.len(),
            forall|k: int| 0 <= k < end ==> chars@[k] != '\n',
        decreases chars@.len() - end,
    {
        end += 1;
    }
    proof {
        lemma_line_len(chars@, end as int);
    }
    let ghost line = request@.take(end as int);
    let mut tokens: Vec<String> = Vec::new();
    let mut i: usize = 0;
    assert(texts(tokens@) + words(line.skip(0)) =~= words(line)) by {
        assert(line.skip(0) =~= line);
    }
    while i < end
        invariant
            i <= end <= chars@.len(),
            chars@ == request@,
            line == request@.take(end as int),
            texts(tokens@) + words(line.skip(i as int)) == words(line),
        decreases end - i,
    {
        if is_space_char(chars[i]) {
            proof {
                assert(line.skip(i as int).drop_first() =~= line.skip(i + 1));
            }
            i += 1;
        } else {
            let mut j: usize = i + 1;
            while j < end && !is_space_char(chars[j])
                invariant
                    i < j <= end <= chars@.len(),
                    forall|k: int| i <= k < j ==> !is_space(#[trigger] chars@[k]),
                decreases end - j,
            {
                j += 1;
            }
            let token = request.substring_char(i, j).to_owned();
            let ghost before = texts(tokens@);
            tokens.push(token);
            proof {
                let rest = line.skip(i as int);
                assert forall|k: int| 0 <= k < j - i implies !is_space(#[trigger] rest[k]) by {
                    assert(rest[k] == chars@[i + k]);
                }
                lemma_word_len(rest, j - i);
                assert(rest.take(j - i) =~= request@.subrange(i as int, j as int));
                assert(rest.skip(j - i) =~= line.skip(j as int));
                assert(texts(tokens@) =~= before.push(token@));
                assert(before.push(token@) + words(line.skip(j as int)) =~= before + (seq![
                    token@,
                ] + words(line.skip(j as int))));
            }
            i = j;
        }
    }
    proof {
        assert(words(line.skip(end as int)) =~= Seq::<Seq<char>>::empty());
        assert(texts(tokens@) =~= words(line));
    }
    tokens
}

/// Whether a character is a decimal digit.
pub open spec fn is_digit(c: char) -> bool {
    '0' <= c <= '9'
}

/// The value of a decimal digit.
pub open spec fn digit_value(c: char) -> nat {
    if is_digit(c) {
        (c as u32 - '0' as u32) as nat
    } else {
        0
    }
}

/// The number that a run of decimal digits denotes.
pub open spec fn number_of(digits: Seq<char>) -> nat
    decreases digits.len(),
{
    if digits.len() == 0 {
        0
    } else {
        number_of(digits.drop_last()) * 10 + digit_value(digits.last())
    }
}

/// A text without the plus sign that may lead it.
pub open spec fn unsigned_part(text: Seq<char>) -> Seq<char> {
    if text.len() > 0 && text[0] == '+' {
        text.skip(1)
    } else {
        text
    }
}

/// The number of seconds that a text denotes: the text is one or more
/// decimal digits, which a plus sign may lead, and the number fits in 64
/// bits. Any other text denotes none.
pub open spec fn seconds_of(text: Seq<char>) -> Option<u64> {
    let digits = unsigned_part(text);
    if digits.len() > 0 && (forall|k: int| 0 <= k < digits.len() ==> is_digit(#[trigger] digits[k]))
        && number_of(digits) <= u64::MAX {
        Some(number_of(digits) as u64)
    } else {
        None
    }
}

/// The number of a run of digits is no less than that of any run it begins
/// with.
proof fn lemma_number_of_prefix(digits: Seq<char>, k: int)
    requires
        0 <= k <= digits.len(),
    ensures
        number_of(digits.take(k)) <= number_of(digits),
    decreases digits.len() - k,
{
    if k < digits.len() {
        assert(digits.drop_last().take(k) =~= digits.take(k));
        lemma_number_of_prefix(digits.drop_last(), k);
    } else {
        assert(digits.take(k) =~= digits);
    }
}

/// Reads a number of seconds.
pub fn parse_seconds(text: &str) -> (seconds: Option<u64>)
    ensures
        seconds == seconds_of(text@),
{
    let chars = chars_of(text);
    let start: usize = if chars.len() > 0 && chars[0] == '+' {
        1
    } else {
        0
    };
    let ghost digits = unsigned_part(text@);
    assert(digits =~= chars@.skip(start as int));
    if start == chars.len() {
        return None;
    }
    let mut value: u64 = 0;
    let mut i: usize = start;
    assert(digits.take(0) =~= Seq::<char>::empty());
    while i < chars.len()
        invariant
            start <= i <= chars@.len(),
            digits == chars@.skip(start as int),
            digits == unsigned_part(text@),
            digits.len() > 0,
            forall|k: int| 0 <= k < i - start ==> is_digit(#[trigger] digits[k]),
            value == number_of(digits.take(i - start)),
        decreases chars@.len() - i,
    {
        let c = chars[i];
        assert(c == digits[i - start]);
        if !('0' <= c && c <= '9') {
            return None;
        }
        let d = (c as u32 - '0' as u32) as u64;
        proof {
            assert(digits.take(i - start + 1).drop_last() =~= digits.take(i - start));
            assert(number_of(digits.take(i - start + 1)) == value * 10 + d);
            lemma_number_of_prefix(digits, i - start + 1);
        }
        if value > (u64::MAX - d) / 10 {
            return None;
        }
        value = value * 10 + d;
        i += 1;
    }
    proof {
        assert(digits.take(i - start) =~= digits);
    }
    Some(value)
}

} // verus!
