//! Scanning primitives over character sequences: whitespace, trimming
//! and the `::` delimiter, each as an index into the scanned line.

use vstd::prelude::*;
use vstd::std_specs::iter::IteratorSpec;

verus! {

/// The characters that count as whitespace: the Unicode `White_Space` set.
pub open spec fn is_space(c: char) -> bool {
    let n = c as u32;
    (0x09 <= n <= 0x0d) || n == 0x20 || n == 0x85 || n == 0xa0 || n == 0x1680 || (0x2000 <= n
        <= 0x200a) || n == 0x2028 || n == 0x2029 || n == 0x202f || n == 0x205f || n == 0x3000
}

/// The first position in `from..to` that holds no whitespace, or `to`.
pub open spec fn skip_spaces(s: Seq<char>, from: int, to: int) -> int
    decreases to - from,
{
    if 0 <= from < to <= s.len() && is_space(s[from]) {
        skip_spaces(s, from + 1, to)
    } else {
        from
    }
}

/// The first position in `from..to` that holds whitespace, or `to`.
pub open spec fn skip_word(s: Seq<char>, from: int, to: int) -> int
    decreases to - from,
{
    if 0 <= from < to <= s.len() && !is_space(s[from]) {
        skip_word(s, from + 1, to)
    } else {
        from
    }
}

/// The end of `from..to` once the whitespace at its end is dropped.
pub open spec fn drop_spaces(s: Seq<char>, from: int, to: int) -> int
    decreases to,
{
    if 0 <= from < to <= s.len() && is_space(s[to - 1]) {
        drop_spaces(s, from, to - 1)
    } else {
        to
    }
}

/// The position of the first `::` that begins at or after `from`, or the
/// length of `s` where there is none.
pub open spec fn find_delimiter(s: Seq<char>, from: int) -> int
    decreases s.len() - from,
{
    if from < 0 || from + 1 >= s.len() {
        s.len() as int
    } else if s[from] == ':' && s[from + 1] == ':' {
        from
    } else {
        find_delimiter(s, from + 1)
    }
}

/// The part of `from..to` between its leading and trailing whitespace.
pub open spec fn trimmed(s: Seq<char>, from: int, to: int) -> Seq<char> {
    let start = skip_spaces(s, from, to);
    s.subrange(start, drop_spaces(s, start, to))
}

pub fn is_whitespace(c: char) -> (b: bool)
    ensures
        b == is_space(c),
{
    let n: u32 = c as u32;
    (0x09 <= n && n <= 0x0d) || n == 0x20 || n == 0x85 || n == 0xa0 || n == 0x1680 || (0x2000 <= n
        && n <= 0x200a) || n == 0x2028 || n == 0x2029 || n == 0x202f || n == 0x205f || n == 0x3000
}

pub fn scan_spaces(s: &Vec<char>, from: usize, to: usize) -> (at: usize)
    requires
        from <= to <= s.len(),
    ensures
        at == skip_spaces(s@, from as int, to as int),
        from <= at <= to,
{
    let mut at: usize = from;
    while at < to && is_whitespace(s[at])
        invariant
            from <= at <= to <= s.len(),
            skip_spaces(s@, from as int, to as int) == skip_spaces(s@, at as int, to as int),
        decreases to - at,
    {
        at += 1;
    }
    at
}

pub fn scan_word(s: &Vec<char>, from: usize, to: usize) -> (at: usize)
    requires
        from <= to <= s.len(),
    ensures
        at == skip_word(s@, from as int, to as int),
        from <= at <= to,
{
    let mut at: usize = from;
    while at < to && !is_whitespace(s[at])
        invariant
            from <= at <= to <= s.len(),
            skip_word(s@, from as int, to as int) == skip_word(s@, at as int, to as int),
        decreases to - at,
    {
        at += 1;
    }
    at
}

pub fn scan_back(s: &Vec<char>, from: usize, to: usize) -> (end: usize)
    requires
        from <= to <= s.len(),
    ensures
        end == drop_spaces(s@, from as int, to as int),
        from <= end <= to,
{
    let mut end: usize = to;
    while from < end && is_whitespace(s[end - 1])
        invariant
            from <= end <= to <= s.len(),
            drop_spaces(s@, from as int, to as int) == drop_spaces(s@, from as int, end as int),
        decreases end,
    {
        end -= 1;
    }
    end
}

pub fn scan_delimiter(s: &Vec<char>, from: usize) -> (at: usize)
    requires
        from <= s.len(),
    ensures
        at == find_delimiter(s@, from as int),
        from <= at <= s.len(),
        at < s.len() ==> at + 2 <= s.len(),
{
    let mut at: usize = from;
    while at < s.len() && at + 1 < s.len()
        invariant
            from <= at <= s.len(),
            find_delimiter(s@, from as int) == find_delimiter(s@, at as int),
        decreases s.len() - at,
    {
        if s[at] == ':' && s[at + 1] == ':' {
            return at;
        }
        at += 1;
    }
    s.len()
}

/// `String::push` appends the character to the end of the string.
pub assume_specification[ String::push ](s: &mut String, c: char)
    ensures
        final(s)@ == old(s)@.push(c),
;

/// The characters of `from..to` as a string.
pub fn text_of(s: &Vec<char>, from: usize, to: usize) -> (out: String)
    requires
        from <= to <= s.len(),
    ensures
        out@ == s@.subrange(from as int, to as int),
{
    let mut out = String::new();
    let mut at: usize = from;
    while at < to
        invariant
            from <= at <= to <= s.len(),
            out@ == s@.subrange(from as int, at as int),
        decreases to - at,
    {
        out.push(s[at]);
        assert(s@.subrange(from as int, at as int).push(s@[at as int]) =~= s@.subrange(
            from as int,
            at + 1,
        ));
        at += 1;
    }
    out
}

/// The part of `from..to` between its leading and trailing whitespace, as
/// a string.
pub fn trimmed_text(s: &Vec<char>, from: usize, to: usize) -> (out: String)
    requires
        from <= to <= s.len(),
    ensures
        out@ == trimmed(s@, from as int, to as int),
{
    let start = scan_spaces(s, from, to);
    let end = scan_back(s, start, to);
    text_of(s, start, end)
}

/// The characters of a string slice, in order.
pub fn chars_of(text: &str) -> (out: Vec<char>)
    ensures
        out@ == text@,
{
    let mut it = text.chars();
    let mut out: Vec<char> = Vec::new();
    loop
        invariant
            it.obeys_prophetic_iter_laws(),
            it.decrease() is Some,
            out@ + it.remaining() == text@,
        decreases it.decrease()->0,
    {
        let ghost before = it.remaining();
        match it.next() {
            Some(c) => {
                out.push(c);
                assert(out@ + it.remaining() =~= out@.drop_last() + before);
            },
            None => {
                assert(out@ + it.remaining() =~= out@);
                return out;
            },
        }
    }
}

} // verus!
