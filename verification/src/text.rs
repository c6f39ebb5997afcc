//! Strings as sequences of characters.

use vstd::prelude::*;
use vstd::utf8::{decode_utf8, valid_utf8};

verus! {

/// The characters of `s`, in order.
pub fn chars_of(s: &str) -> (chars: Vec<char>)
    ensures
        chars@ == s@,
{
    let mut chars: Vec<char> = Vec::new();
    for c in it: s.chars()
        invariant
            chars@ == it.seq().take(it.index() as int),
            it.seq() == s@,
    {
        chars.push(c);
    }
    chars
}

/// `String::from_utf8` of std: the string that `bytes` encode when they are
/// well-formed UTF-8, and nothing when they are not.
#[verifier::external_body]
pub(crate) fn string_from_utf8(bytes: Vec<u8>) -> (r: Option<String>)
    ensures
        match r {
            Some(s) => valid_utf8(bytes@) && s@ == decode_utf8(bytes@),
            None => !valid_utf8(bytes@),
        },
{
    String::from_utf8(bytes).ok()
}

/// `String::push` of std: appends one character.
#[verifier::external_body]
fn push_char(s: &mut String, c: char)
    ensures
        final(s)@ == old(s)@.push(c),
{
    s.push(c)
}

/// The string made of `chars[from..to]`.
pub fn string_of(chars: &Vec<char>, from: usize, to: usize) -> (s: String)
    requires
        from <= to <= chars@.len(),
    ensures
        s@ == chars@.subrange(from as int, to as int),
{
    let mut s = String::new();
    let mut i: usize = from;
    while i < to
        invariant
            from <= i <= to <= chars@.len(),
            s@ == chars@.subrange(from as int, i as int),
        decreases to - i,
    {
        push_char(&mut s, chars[i]);
        assert(chars@.subrange(from as int, i + 1) =~= chars@.subrange(from as int, i as int).push(
            chars@[i as int],
        ));
        i = i + 1;
    }
    s
}

/// Whether `text` holds `word` at `at`.
pub open spec fn holds_at(text: Seq<char>, at: int, word: Seq<char>) -> bool {
    0 <= at && at + word.len() <= text.len() && text.subrange(at, at + word.len()) == word
}

/// Whether `text` holds `word` at `at`.
pub fn has_at(text: &Vec<char>, at: usize, word: &Vec<char>) -> (r: bool)
    ensures
        r == holds_at(text@, at as int, word@),
{
    if at > text.len() || word.len() > text.len() - at {
        return false;
    }
    let mut i: usize = 0;
    while i < word.len()
        invariant
            i <= word.len(),
            at + word.len() <= text.len(),
            text@.subrange(at as int, at + i) == word@.subrange(0, i as int),
        decreases word.len() - i,
    {
        if text[at + i] != word[i] {
            assert(text@.subrange(at as int, at + word.len())[i as int] != word@[i as int]);
            return false;
        }
        assert(text@.subrange(at as int, at + i + 1) =~= text@.subrange(at as int, at + i).push(
            text@[at + i],
        ));
        assert(word@.subrange(0, i + 1) =~= word@.subrange(0, i as int).push(word@[i as int]));
        i = i + 1;
    }
    assert(word@.subrange(0, word.len() as int) =~= word@);
    true
}

/// White space, as Unicode defines it.
pub open spec fn is_whitespace(c: char) -> bool {
    let n = c as u32;
    (0x09 <= n && n <= 0x0d) || n == 0x20 || n == 0x85 || n == 0xa0 || n == 0x1680 || (0x2000 <= n
        && n <= 0x200a) || n == 0x2028 || n == 0x2029 || n == 0x202f || n == 0x205f || n == 0x3000
}

/// The first position at or behind `from` that holds no white space, or the
/// length of `s` when there is none.
pub open spec fn skip_whitespace(s: Seq<char>, from: int) -> int
    decreases s.len() - from,
{
    if from >= s.len() {
        s.len() as int
    } else if !is_whitespace(s[from]) {
        from
    } else {
        skip_whitespace(s, from + 1)
    }
}

/// The end of `s[from..to]` once the white space at its end is dropped.
pub open spec fn drop_whitespace(s: Seq<char>, from: int, to: int) -> int
    decreases to - from,
{
    if to <= from {
        from
    } else if !is_whitespace(s[to - 1]) {
        to
    } else {
        drop_whitespace(s, from, to - 1)
    }
}

/// `s` without the white space at its start and at its end.
pub open spec fn trimmed(s: Seq<char>) -> Seq<char> {
    let from = skip_whitespace(s, 0);
    s.subrange(from, drop_whitespace(s, from, s.len() as int))
}

fn whitespace(c: char) -> (r: bool)
    ensures
        r == is_whitespace(c),
{
    let n = c as u32;
    (0x09 <= n && n <= 0x0d) || n == 0x20 || n == 0x85 || n == 0xa0 || n == 0x1680 || (0x2000 <= n
        && n <= 0x200a) || n == 0x2028 || n == 0x2029 || n == 0x202f || n == 0x205f || n == 0x3000
}

/// `s` without the white space at its start and at its end.
pub fn trim(s: &str) -> (r: String)
    ensures
        r@ == trimmed(s@),
{
    let chars = chars_of(s);
    let mut from: usize = 0;
    while from < chars.len() && whitespace(chars[from])
        invariant
            from <= chars@.len(),
            skip_whitespace(chars@, from as int) == skip_whitespace(chars@, 0),
        decreases chars@.len() - from,
    {
        from = from + 1;
    }
    let mut to: usize = chars.len();
    while to > from && whitespace(chars[to - 1])
        invariant
            from <= to <= chars@.len(),
            drop_whitespace(chars@, from as int, to as int) == drop_whitespace(
                chars@,
                from as int,
                chars@.len() as int,
            ),
        decreases to - from,
    {
        to = to - 1;
    }
    string_of(&chars, from, to)
}

/// Whether two texts hold the same characters.
pub fn same(a: &str, b: &str) -> (r: bool)
    ensures
        r == (a@ == b@),
{
    a.to_owned() == b.to_owned()
}

} // verus!
