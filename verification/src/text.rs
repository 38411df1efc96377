//! Text as sequences of characters: splitting, dropping a character, and
//! reading decimal numbers.

use vstd::prelude::*;

verus! {

/// The test that every character but `unwanted` passes.
pub open spec fn is_not(unwanted: char) -> spec_fn(char) -> bool {
    |c: char| c != unwanted
}

/// `text` without the characters that equal `unwanted`.
pub open spec fn without(text: Seq<char>, unwanted: char) -> Seq<char> {
    text.filter(is_not(unwanted))
}

/// The pieces of `text` between the separators, read from left to right:
/// each separator ends a piece and starts the next, so a text with `n`
/// separators has `n + 1` pieces, some of which may be empty.
pub open spec fn split(text: Seq<char>, separator: char) -> Seq<Seq<char>>
    decreases text.len(),
{
    if text.len() == 0 {
        seq![Seq::empty()]
    } else {
        let before = split(text.drop_last(), separator);
        if text.last() == separator {
            before.push(Seq::empty())
        } else {
            before.update(before.len() - 1, before.last().push(text.last()))
        }
    }
}

pub open spec fn is_digit(c: char) -> bool {
    '0' <= c <= '9'
}

/// The value of a decimal digit; 0 for any other character.
pub open spec fn digit_value(c: char) -> nat {
    if is_digit(c) {
        (c as int - '0' as int) as nat
    } else {
        0
    }
}

pub open spec fn all_digits(text: Seq<char>) -> bool {
    forall|i: int| 0 <= i < text.len() ==> is_digit(#[trigger] text[i])
}

/// The number that a sequence of decimal digits denotes.
pub open spec fn decimal(digits: Seq<char>) -> nat
    decreases digits.len(),
{
    if digits.len() == 0 {
        0
    } else {
        decimal(digits.drop_last()) * 10 + digit_value(digits.last())
    }
}

/// The digits of a number text: the text without one leading `+`.
pub open spec fn unsigned_digits(text: Seq<char>) -> Seq<char> {
    if text.len() > 0 && text[0] == '+' {
        text.skip(1)
    } else {
        text
    }
}

/// The unsigned number that `text` denotes, if it denotes one that is at
/// most `max`: an optional `+`, then one decimal digit or more and nothing
/// else.
pub open spec fn number(text: Seq<char>, max: nat) -> Option<nat> {
    let digits = unsigned_digits(text);
    if digits.len() > 0 && all_digits(digits) && decimal(digits) <= max {
        Some(decimal(digits))
    } else {
        None
    }
}

/// The character sequences of a list of character vectors.
pub open spec fn pieces(parts: Seq<Vec<char>>) -> Seq<Seq<char>> {
    Seq::new(parts.len(), |i: int| parts[i]@)
}

/// The character sequences of a list of strings.
pub open spec fn texts(lines: Seq<String>) -> Seq<Seq<char>> {
    Seq::new(lines.len(), |i: int| lines[i]@)
}

/// A number grows, or stays, when digits are added behind it.
pub proof fn lemma_decimal_grows(digits: Seq<char>, shorter: int)
    requires
        0 <= shorter <= digits.len(),
    ensures
        decimal(digits.take(shorter)) <= decimal(digits),
    decreases digits.len() - shorter,
{
    if shorter < digits.len() {
        lemma_decimal_grows(digits, shorter + 1);
        assert(digits.take(shorter + 1).drop_last() =~= digits.take(shorter));
    } else {
        assert(digits.take(shorter) =~= digits);
    }
}

/// Equality of string slices, by `str`'s `PartialEq::eq` of the standard
/// library: true exactly when both hold the same characters.
#[verifier::external_body]
pub(crate) fn str_eq(a: &str, b: &str) -> (same: bool)
    ensures
        same == (a@ == b@),
{
    a == b
}

/// Appends `c` to `text`, by `String::push` of the standard library.
#[verifier::external_body]
fn push_char(text: &mut String, c: char)
    ensures
        final(text)@ == old(text)@.push(c),
{
    text.push(c);
}

/// The characters of `text`.
pub fn chars_of(text: &str) -> (chars: Vec<char>)
    ensures
        chars@ == text@,
{
    broadcast use vstd::string::group_string_axioms;

    let mut chars: Vec<char> = Vec::new();
    for c in it: text.chars()
        invariant
            it.seq() == text@,
            chars@ == text@.take(it.index()),
    {
        chars.push(c);
        assert(chars@ =~= text@.take(it.index() + 1));
    }
    assert(chars@ =~= text@);
    chars
}

/// The string that holds `chars`.
pub fn string_of(chars: &Vec<char>) -> (text: String)
    ensures
        text@ == chars@,
{
    let mut text = String::new();
    let mut i: usize = 0;
    while i < chars.len()
        invariant
            i <= chars.len(),
            text@ == chars@.take(i as int),
        decreases chars.len() - i,
    {
        push_char(&mut text, chars[i]);
        i += 1;
        assert(text@ =~= chars@.take(i as int));
    }
    assert(text@ =~= chars@);
    text
}

/// Whether `chars` spells `word`.
pub fn spells(chars: &Vec<char>, word: &str) -> (same: bool)
    ensures
        same == (chars@ == word@),
{
    let letters = chars_of(word);
    if letters.len() != chars.len() {
        return false;
    }
    let mut i: usize = 0;
    while i < chars.len()
        invariant
            i <= chars.len(),
            letters.len() == chars.len(),
            letters@ == word@,
            chars@.take(i as int) == letters@.take(i as int),
        decreases chars.len() - i,
    {
        if chars[i] != letters[i] {
            assert(chars@[i as int] != word@[i as int]);
            return false;
        }
        i += 1;
        assert(chars@.take(i as int) =~= letters@.take(i as int)) by {
            assert(chars@.take(i as int).drop_last() =~= chars@.take(i - 1));
            assert(letters@.take(i as int).drop_last() =~= letters@.take(i - 1));
            assert(chars@.take(i as int) =~= chars@.take(i - 1).push(chars@[i - 1]));
            assert(letters@.take(i as int) =~= letters@.take(i - 1).push(letters@[i - 1]));
        }
    }
    assert(chars@ =~= chars@.take(chars.len() as int));
    assert(letters@ =~= letters@.take(chars.len() as int));
    true
}

/// `chars` without the characters that equal `unwanted`.
pub fn remove_char(chars: &Vec<char>, unwanted: char) -> (kept: Vec<char>)
    ensures
        kept@ == without(chars@, unwanted),
{
    let ghost wanted = is_not(unwanted);
    let mut kept: Vec<char> = Vec::new();
    let mut i: usize = 0;
    while i < chars.len()
        invariant
            i <= chars.len(),
            wanted == is_not(unwanted),
            kept@ == chars@.take(i as int).filter(wanted),
        decreases chars.len() - i,
    {
        proof {
            reveal(Seq::filter);
            assert(chars@.take(i + 1).drop_last() =~= chars@.take(i as int));
        }
        if chars[i] != unwanted {
            kept.push(chars[i]);
        }
        i += 1;
    }
    assert(chars@.take(chars.len() as int) =~= chars@);
    kept
}

/// The pieces of `chars` between the separators.
pub fn split_chars(chars: &Vec<char>, separator: char) -> (parts: Vec<Vec<char>>)
    ensures
        pieces(parts@) == split(chars@, separator),
        parts.len() >= 1,
{
    let mut parts: Vec<Vec<char>> = Vec::new();
    let mut current: Vec<char> = Vec::new();
    let mut i: usize = 0;
    while i < chars.len()
        invariant
            i <= chars.len(),
            pieces(parts@).push(current@) == split(chars@.take(i as int), separator),
        decreases chars.len() - i,
    {
        let ghost before = pieces(parts@).push(current@);
        proof {
            assert(chars@.take(i + 1).drop_last() =~= chars@.take(i as int));
        }
        if chars[i] == separator {
            parts.push(current);
            current = Vec::new();
            assert(pieces(parts@).push(current@) =~= before.push(Seq::empty()));
        } else {
            current.push(chars[i]);
            assert(pieces(parts@).push(current@) =~= before.update(
                before.len() - 1,
                before.last().push(chars@[i as int]),
            ));
        }
        i += 1;
    }
    let ghost before = pieces(parts@).push(current@);
    parts.push(current);
    proof {
        assert(chars@.take(chars.len() as int) =~= chars@);
        assert(pieces(parts@) =~= before);
    }
    parts
}

/// Reads `chars` as an unsigned decimal number of at most `max`.
pub fn parse_number(chars: &Vec<char>, max: u64) -> (value: Option<u64>)
    ensures
        match value {
            Some(n) => number(chars@, max as nat) == Some(n as nat),
            None => number(chars@, max as nat) is None,
        },
{
    let start: usize = if chars.len() > 0 && chars[0] == '+' {
        1
    } else {
        0
    };
    let ghost digits = unsigned_digits(chars@);
    assert(digits =~= chars@.skip(start as int));
    if start == chars.len() {
        return None;
    }
    let mut value: u64 = 0;
    let mut i: usize = start;
    while i < chars.len()
        invariant
            start <= i <= chars.len(),
            digits == chars@.skip(start as int),
            digits == unsigned_digits(chars@),
            all_digits(digits.take(i - start)),
            value == decimal(digits.take(i - start)),
            value <= max,
        decreases chars.len() - i,
    {
        let c = chars[i];
        proof {
            assert(digits[i - start] == c);
            assert(digits.take(i - start + 1).drop_last() =~= digits.take(i - start));
            lemma_decimal_grows(digits, i - start + 1);
        }
        if c < '0' || c > '9' {
            assert(!is_digit(digits[i - start]));
            return None;
        }
        let digit: u64 = (c as u32 - '0' as u32) as u64;
        assert(digit == digit_value(c));
        assert(decimal(digits.take(i - start + 1)) == value * 10 + digit);
        if digit > max || value > (max - digit) / 10 {
            assert(value * 10 + digit > max) by (nonlinear_arith)
                requires
                    digit > max || value > (max - digit) / 10,
                    digit <= 9,
                    value >= 0,
            ;
            return None;
        }
        assert(value * 10 + digit <= max) by (nonlinear_arith)
            requires
                value <= (max - digit) / 10,
                digit <= max,
        ;
        value = value * 10 + digit;
        i += 1;
    }
    assert(digits.take(chars.len() - start) =~= digits);
    Some(value)
}

} // verus!
