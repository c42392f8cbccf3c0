//! The flat, line-oriented encoding: one record per line, of the form
//! `# <title> :: <url> <extra text>`; any other line is a free comment.

use vstd::prelude::*;
use crate::error::ParseError;
use crate::text::{
    chars_of, find_delimiter, scan_delimiter, scan_spaces, scan_word, skip_spaces, skip_word,
    text_of, trimmed, trimmed_text,
};

verus! {

/// A record of the flat encoding.
pub struct FlatItem {
    pub title: String,
    pub url: String,
    pub extra: String,
}

/// What a flat record holds.
pub struct Record {
    pub title: Seq<char>,
    pub url: Seq<char>,
    pub extra: Seq<char>,
}

impl View for FlatItem {
    type V = Record;

    open spec fn view(&self) -> Record {
        Record { title: self.title@, url: self.url@, extra: self.extra@ }
    }
}

/// The records that a list of stored records stands for, in order.
pub open spec fn records(items: Seq<FlatItem>) -> Seq<Record> {
    Seq::new(items.len(), |i: int| items[i]@)
}

/// The root of the flat encoding: records only, in line order.
pub struct FlatBookmarks {
    pub items: Vec<FlatItem>,
}

impl View for FlatBookmarks {
    type V = Seq<Record>;

    open spec fn view(&self) -> Seq<Record> {
        records(self.items@)
    }
}

/// What one line comes to.
pub enum Line {
    /// Not a record: skipped.
    Comment,
    Entry(Record),
    /// A record without `::`.
    NoDelimiter,
    /// A record with nothing after `::` but whitespace.
    NoUrl,
}

/// Reads one line. It is a record where its first character after leading
/// whitespace is `#`. The text between `#` and the first `::`, trimmed, is
/// the title; after the `::` and any whitespace comes the URL, up to the
/// next whitespace; the rest, trimmed, is the extra text.
pub open spec fn read_line(s: Seq<char>) -> Line {
    let hash = skip_spaces(s, 0, s.len() as int);
    if hash >= s.len() || s[hash] != '#' {
        Line::Comment
    } else {
        let delimiter = find_delimiter(s, hash + 1);
        if delimiter >= s.len() {
            Line::NoDelimiter
        } else {
            let start = skip_spaces(s, delimiter + 2, s.len() as int);
            let end = skip_word(s, start, s.len() as int);
            if start >= end {
                Line::NoUrl
            } else {
                Line::Entry(
                    Record {
                        title: trimmed(s, hash + 1, delimiter),
                        url: s.subrange(start, end),
                        extra: trimmed(s, end, s.len() as int),
                    },
                )
            }
        }
    }
}

/// The characters after the last line feed of `s`.
pub open spec fn open_line(s: Seq<char>) -> Seq<char>
    decreases s.len(),
{
    if s.len() == 0 || s.last() == '\n' {
        Seq::empty()
    } else {
        open_line(s.drop_last()).push(s.last())
    }
}

/// The lines of `s` that a line feed ends, without their line feeds.
pub open spec fn closed_lines(s: Seq<char>) -> Seq<Seq<char>>
    decreases s.len(),
{
    if s.len() == 0 {
        Seq::empty()
    } else if s.last() == '\n' {
        closed_lines(s.drop_last()).push(open_line(s.drop_last()))
    } else {
        closed_lines(s.drop_last())
    }
}

/// The physical lines of `s`: what stands between line feeds, and what
/// follows the last one unless it is empty.
pub open spec fn lines_of(s: Seq<char>) -> Seq<Seq<char>> {
    if open_line(s).len() > 0 {
        closed_lines(s).push(open_line(s))
    } else {
        closed_lines(s)
    }
}

/// What the first `n` lines come to: their records in order, or the error
/// of the first malformed record with its line number.
pub open spec fn read_lines(lines: Seq<Seq<char>>, n: int) -> Result<Seq<Record>, ParseError>
    decreases n,
{
    if n <= 0 || n > lines.len() {
        Ok(Seq::empty())
    } else {
        match read_lines(lines, n - 1) {
            Err(e) => Err(e),
            Ok(found) => match read_line(lines[n - 1]) {
                Line::Comment => Ok(found),
                Line::Entry(r) => Ok(found.push(r)),
                Line::NoDelimiter => Err(ParseError::MissingDelimiter(n as usize)),
                Line::NoUrl => Err(ParseError::MissingUrl(n as usize)),
            },
        }
    }
}

/// What a whole text comes to.
pub open spec fn read_text(s: Seq<char>) -> Result<Seq<Record>, ParseError> {
    read_lines(lines_of(s), lines_of(s).len() as int)
}

/// The contents of a list of lines.
pub open spec fn rows(lines: Seq<Vec<char>>) -> Seq<Seq<char>> {
    Seq::new(lines.len(), |i: int| lines[i]@)
}

/// Reads the line `line`, whose number is `number`.
pub fn parse_line(line: &Vec<char>, number: usize) -> (r: Result<Option<FlatItem>, ParseError>)
    ensures
        match read_line(line@) {
            Line::Comment => r == Ok::<Option<FlatItem>, ParseError>(None),
            Line::Entry(record) => r matches Ok(Some(item)) && item@ == record && item.url@.len()
                > 0,
            Line::NoDelimiter => r == Err::<Option<FlatItem>, ParseError>(
                ParseError::MissingDelimiter(number),
            ),
            Line::NoUrl => r == Err::<Option<FlatItem>, ParseError>(ParseError::MissingUrl(number)),
        },
{
    let len = line.len();
    let hash = scan_spaces(line, 0, len);
    if hash >= len || line[hash] != '#' {
        return Ok(None);
    }
    let delimiter = scan_delimiter(line, hash + 1);
    if delimiter >= len {
        return Err(ParseError::MissingDelimiter(number));
    }
    let start = scan_spaces(line, delimiter + 2, len);
    let end = scan_word(line, start, len);
    if start >= end {
        return Err(ParseError::MissingUrl(number));
    }
    Ok(
        Some(
            FlatItem {
                title: trimmed_text(line, hash + 1, delimiter),
                url: text_of(line, start, end),
                extra: trimmed_text(line, end, len),
            },
        ),
    )
}

/// Cuts `text` into its physical lines.
pub fn split_lines(text: &Vec<char>) -> (lines: Vec<Vec<char>>)
    ensures
        rows(lines@) == lines_of(text@),
{
    let mut lines: Vec<Vec<char>> = Vec::new();
    let mut current: Vec<char> = Vec::new();
    let mut at: usize = 0;
    assert(rows(lines@) =~= closed_lines(text@.take(0)));
    while at < text.len()
        invariant
            at <= text.len(),
            rows(lines@) == closed_lines(text@.take(at as int)),
            current@ == open_line(text@.take(at as int)),
        decreases text.len() - at,
    {
        let c = text[at];
        proof {
            assert(text@.take(at + 1).drop_last() =~= text@.take(at as int));
            assert(text@.take(at + 1).last() == c);
        }
        let ghost before = rows(lines@);
        if c == '\n' {
            lines.push(current);
            current = Vec::new();
            assert(rows(lines@) =~= before.push(open_line(text@.take(at as int))));
        } else {
            current.push(c);
        }
        at += 1;
    }
    assert(text@.take(at as int) =~= text@);
    if current.len() > 0 {
        let ghost before = rows(lines@);
        lines.push(current);
        assert(rows(lines@) =~= before.push(open_line(text@)));
    }
    lines
}

/// Once a line is malformed, the lines after it change nothing.
proof fn lemma_first_error_stays(lines: Seq<Seq<char>>, k: int, n: int)
    requires
        0 <= k <= n <= lines.len(),
        read_lines(lines, k) is Err,
    ensures
        read_lines(lines, n) == read_lines(lines, k),
    decreases n - k,
{
    if k < n {
        lemma_first_error_stays(lines, k, n - 1);
    }
}

/// Parses a flat bookmarks text: every record line in order, or the error
/// of the first malformed one. No record that comes out has an empty URL.
pub fn parse(raw: &str) -> (r: Result<FlatBookmarks, ParseError>)
    ensures
        match r {
            Ok(bookmarks) => read_text(raw@) == Ok::<Seq<Record>, ParseError>(bookmarks@),
            Err(e) => read_text(raw@) == Err::<Seq<Record>, ParseError>(e),
        },
        r matches Ok(bookmarks) ==> forall|i: int|
            0 <= i < bookmarks@.len() ==> (#[trigger] bookmarks@[i]).url.len() > 0,
{
    let text = chars_of(raw);
    let lines = split_lines(&text);
    let mut items: Vec<FlatItem> = Vec::new();
    let mut at: usize = 0;
    assert(records(items@) =~= Seq::empty());
    while at < lines.len()
        invariant
            at <= lines.len(),
            rows(lines@) == lines_of(raw@),
            read_lines(rows(lines@), at as int) == Ok::<Seq<Record>, ParseError>(records(items@)),
            forall|i: int| 0 <= i < items.len() ==> (#[trigger] items[i]).url@.len() > 0,
        decreases lines.len() - at,
    {
        let ghost before = records(items@);
        assert(rows(lines@)[at as int] == lines@[at as int]@);
        match parse_line(&lines[at], at + 1) {
            Err(e) => {
                proof {
                    lemma_first_error_stays(rows(lines@), at + 1, lines.len() as int);
                }
                return Err(e);
            },
            Ok(None) => {},
            Ok(Some(item)) => {
                items.push(item);
                assert(records(items@) =~= before.push(item@));
            },
        }
        at += 1;
    }
    Ok(FlatBookmarks { items })
}

/// The first record titled `selector`, in line order.
pub open spec fn first_titled(found: Seq<Record>, from: int, selector: Seq<char>) -> Option<Record>
    decreases found.len() - from,
{
    if 0 <= from < found.len() {
        if found[from].title == selector {
            Some(found[from])
        } else {
            first_titled(found, from + 1, selector)
        }
    } else {
        None
    }
}

/// Finds the first record titled `selector`: a linear scan in line order.
pub fn resolve_flat<'a>(items: &'a Vec<FlatItem>, selector: &String) -> (r: Option<&'a FlatItem>)
    ensures
        match r {
            Some(item) => first_titled(records(items@), 0, selector@) == Some(item@),
            None => first_titled(records(items@), 0, selector@) is None,
        },
{
    let mut at: usize = 0;
    while at < items.len()
        invariant
            at <= items.len(),
            first_titled(records(items@), 0, selector@) == first_titled(
                records(items@),
                at as int,
                selector@,
            ),
        decreases items.len() - at,
    {
        assert(records(items@)[at as int] == items@[at as int]@);
        if items[at].title == *selector {
            return Some(&items[at]);
        }
        at += 1;
    }
    None
}

/// Every title that a flat menu lists can be selected in turn: the scan
/// from any position at or before the record finds a record of that
/// title.
pub proof fn lemma_listed_record_resolves(found: Seq<Record>, from: int, i: int)
    requires
        0 <= from <= i < found.len(),
    ensures
        first_titled(found, from, found[i].title) matches Some(r) && r.title == found[i].title,
    decreases i - from,
{
    if from < i && found[from].title != found[i].title {
        lemma_listed_record_resolves(found, from + 1, i);
    }
}

} // verus!
