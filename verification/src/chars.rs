//! ASCII character classes and character-level string editing.
//!
//! Every line the editor and the tokenizer work on is plain text whose
//! content is inspected one character at a time, so the classification
//! predicates and the splice-style editing helpers live here.

use vstd::prelude::*;
use vstd::string::StrSliceExecFns;
use vstd::string::StringExecFns;

verus! {

/// A decimal digit, `'0'` through `'9'`.
pub open spec fn is_digit(c: char) -> bool {
    48 <= c as u32 && c as u32 <= 57
}

/// An ASCII letter, `'A'` through `'Z'` or `'a'` through `'z'`.
pub open spec fn is_letter(c: char) -> bool {
    (65 <= c as u32 && c as u32 <= 90) || (97 <= c as u32 && c as u32 <= 122)
}

/// An ASCII letter or decimal digit: the characters that form a word.
pub open spec fn is_word_char(c: char) -> bool {
    is_digit(c) || is_letter(c)
}

/// ASCII punctuation: `!` through `/`, `:` through `@`, `[` through
/// `` ` ``, or `{` through `~`.
pub open spec fn is_symbol(c: char) -> bool {
    (33 <= c as u32 && c as u32 <= 47) || (58 <= c as u32 && c as u32 <= 64)
        || (91 <= c as u32 && c as u32 <= 96) || (123 <= c as u32 && c as u32 <= 126)
}

/// ASCII whitespace: space, tab, line feed, form feed or carriage return.
pub open spec fn is_space(c: char) -> bool {
    c as u32 == 32 || c as u32 == 9 || c as u32 == 10 || c as u32 == 12 || c as u32 == 13
}

/// Any ASCII character, code point below 128.
pub open spec fn is_ascii_char(c: char) -> bool {
    (c as u32) < 128
}

pub fn digit(c: char) -> (r: bool)
    ensures
        r == is_digit(c),
{
    let u = c as u32;
    48 <= u && u <= 57
}

pub fn letter(c: char) -> (r: bool)
    ensures
        r == is_letter(c),
{
    let u = c as u32;
    (65 <= u && u <= 90) || (97 <= u && u <= 122)
}

pub fn word_char(c: char) -> (r: bool)
    ensures
        r == is_word_char(c),
{
    digit(c) || letter(c)
}

pub fn symbol(c: char) -> (r: bool)
    ensures
        r == is_symbol(c),
{
    let u = c as u32;
    (33 <= u && u <= 47) || (58 <= u && u <= 64) || (91 <= u && u <= 96) || (123 <= u && u
        <= 126)
}

pub fn space(c: char) -> (r: bool)
    ensures
        r == is_space(c),
{
    let u = c as u32;
    u == 32 || u == 9 || u == 10 || u == 12 || u == 13
}

pub fn ascii_char(c: char) -> (r: bool)
    ensures
        r == is_ascii_char(c),
{
    (c as u32) < 128
}

/// Relies on `String::push`: appends one character at the end of the string.
pub assume_specification [ String::push ](s: &mut String, ch: char)
    ensures
        final(s)@ == old(s)@.push(ch),
;

/// A copy of `line` with `c` inserted before position `pos`.
pub fn insert_char(line: &str, pos: usize, c: char) -> (r: String)
    requires
        pos <= line@.len(),
    ensures
        r@ == line@.insert(pos as int, c),
{
    let n = line.unicode_len();
    let mut r = line.substring_char(0, pos).to_owned();
    r.push(c);
    r.append(line.substring_char(pos, n));
    proof {
        assert(r@ =~= line@.insert(pos as int, c));
    }
    r
}

/// A copy of `line` with the character at position `pos` removed.
pub fn remove_char(line: &str, pos: usize) -> (r: String)
    requires
        pos < line@.len(),
    ensures
        r@ == line@.remove(pos as int),
{
    let n = line.unicode_len();
    let mut r = line.substring_char(0, pos).to_owned();
    r.append(line.substring_char(pos + 1, n));
    proof {
        assert(r@ =~= line@.remove(pos as int));
    }
    r
}

/// The sequence with its trailing spaces removed.
pub open spec fn skip_trailing_spaces(s: Seq<char>) -> Seq<char>
    decreases s.len()
{
    if s.len() > 0 && s[s.len() - 1] == ' ' {
        skip_trailing_spaces(s.drop_last())
    } else {
        s
    }
}

/// The sequence with its leading spaces removed.
pub open spec fn skip_leading_spaces(s: Seq<char>) -> Seq<char>
    decreases s.len()
{
    if s.len() > 0 && s[0] == ' ' {
        skip_leading_spaces(s.skip(1))
    } else {
        s
    }
}

/// The sequence with spaces removed at both ends.
pub open spec fn trim_text(s: Seq<char>) -> Seq<char> {
    skip_leading_spaces(skip_trailing_spaces(s))
}

/// A copy of `s` with spaces removed at both ends.
pub fn trim_ascii_spaces(s: &str) -> (r: String)
    ensures
        r@ == trim_text(s@),
{
    let mut end = s.unicode_len();
    proof {
        assert(s@.take(s@.len() as int) =~= s@);
    }
    while end > 0 && s.get_char(end - 1) == ' '
        invariant
            end <= s@.len(),
            skip_trailing_spaces(s@.take(end as int)) == skip_trailing_spaces(s@),
        decreases end,
    {
        proof {
            assert(s@.take(end as int)[s@.take(end as int).len() - 1] == s@[end - 1]);
            assert(s@.take(end as int).drop_last() =~= s@.take(end - 1));
        }
        end = end - 1;
    }
    proof {
        assert(skip_trailing_spaces(s@.take(end as int)) == s@.take(end as int));
        assert(s@.take(end as int).subrange(0, end as int) =~= s@.take(end as int));
    }
    let mut start: usize = 0;
    while start < end && s.get_char(start) == ' '
        invariant
            start <= end <= s@.len(),
            skip_leading_spaces(s@.subrange(start as int, end as int)) == skip_leading_spaces(
                s@.take(end as int),
            ),
        decreases end - start,
    {
        proof {
            assert(s@.subrange(start as int, end as int)[0] == s@[start as int]);
            assert(s@.subrange(start as int, end as int).skip(1) =~= s@.subrange(
                start + 1,
                end as int,
            ));
        }
        start = start + 1;
    }
    proof {
        assert(skip_leading_spaces(s@.subrange(start as int, end as int)) == s@.subrange(
            start as int,
            end as int,
        ));
    }
    s.substring_char(start, end).to_owned()
}

/// A copy of `line` with the range `[from, to)` removed.
pub fn remove_range(line: &str, from: usize, to: usize) -> (r: String)
    requires
        from <= to <= line@.len(),
    ensures
        r@ == line@.subrange(0, from as int) + line@.subrange(to as int, line@.len() as int),
{
    let n = line.unicode_len();
    let mut r = line.substring_char(0, from).to_owned();
    r.append(line.substring_char(to, n));
    r
}

} // verus!
