//! Cache metadata: a text of `Key: Value` lines that says where the archive
//! of an artifact is and how it is packed.

use vstd::prelude::*;
use crate::binary_cache::number::{parse_u64, spec_parse_u64};
use crate::text::{chars_of, has_at, string_of};

verus! {

/// What a cache says about the archive of one artifact.
#[derive(Debug, Clone)]
pub struct NarInfo {
    pub compression: String,
    pub nar_size: u64,
    pub file_size: u64,
    pub url: String,
}

/// A [`NarInfo`] as mathematical values.
pub struct NarInfoView {
    pub compression: Seq<char>,
    pub nar_size: u64,
    pub file_size: u64,
    pub url: Seq<char>,
}

impl View for NarInfo {
    type V = NarInfoView;

    open spec fn view(&self) -> NarInfoView {
        NarInfoView {
            compression: self.compression@,
            nar_size: self.nar_size,
            file_size: self.file_size,
            url: self.url@,
        }
    }
}

/// Why a metadata text is refused.
#[derive(Copy, Clone, Debug, PartialEq, Eq, Structural)]
pub enum NarInfoError {
    /// A line is not of the form `Key: Value`.
    InvalidLine,
    MissingUrl,
    MissingNarSize,
    /// `NarSize` is not a number.
    InvalidNarSize,
    MissingFileSize,
    /// `FileSize` is not a number.
    InvalidFileSize,
    MissingCompression,
}

/// The first position at or behind `from` that holds a newline, or the
/// length of `s` when there is none.
pub open spec fn line_end(s: Seq<char>, from: int) -> int
    decreases s.len() - from,
{
    if from >= s.len() {
        s.len() as int
    } else if s[from] == '\n' {
        from
    } else {
        line_end(s, from + 1)
    }
}

/// The line that starts at `from` and ends before `end`, where a newline or
/// the end of the text stands.  A carriage return before the newline belongs
/// to the line ending.
pub open spec fn line_at(s: Seq<char>, from: int, end: int) -> Seq<char> {
    if end < s.len() && from < end && s[end - 1] == '\r' {
        s.subrange(from, end - 1)
    } else {
        s.subrange(from, end)
    }
}

/// The lines of `s` from `from` on.
pub open spec fn lines_from(s: Seq<char>, from: int) -> Seq<Seq<char>>
    decreases s.len() - from,
    via lines_from_terminates
{
    if from < 0 || from >= s.len() {
        Seq::empty()
    } else if line_end(s, from) >= s.len() {
        seq![line_at(s, from, line_end(s, from))]
    } else {
        seq![line_at(s, from, line_end(s, from))] + lines_from(s, line_end(s, from) + 1)
    }
}

#[via_fn]
proof fn lines_from_terminates(s: Seq<char>, from: int) {
    if 0 <= from < s.len() {
        lemma_line_end(s, from);
    }
}

/// The lines of `s`.  A newline ends a line; the last line needs none.
pub open spec fn spec_lines(s: Seq<char>) -> Seq<Seq<char>> {
    lines_from(s, 0)
}

/// The first position at or behind `from` where `: ` stands in `line`.
pub open spec fn separator(line: Seq<char>, from: int) -> Option<int>
    decreases line.len() - from,
{
    if from < 0 || from + 2 > line.len() {
        None
    } else if line[from] == ':' && line[from + 1] == ' ' {
        Some(from)
    } else {
        separator(line, from + 1)
    }
}

/// The key and the value of a line: what stands before and behind its first
/// `: `.
pub open spec fn key_value(line: Seq<char>) -> Option<(Seq<char>, Seq<char>)> {
    match separator(line, 0) {
        None => None,
        Some(at) => Some((line.subrange(0, at), line.subrange(at + 2, line.len() as int))),
    }
}

/// The value of `key` in `lines`: that of the last line with this key.
pub open spec fn field(lines: Seq<Seq<char>>, key: Seq<char>) -> Option<Seq<char>>
    decreases lines.len(),
{
    if lines.len() == 0 {
        None
    } else {
        match key_value(lines.last()) {
            Some((k, v)) if k == key => Some(v),
            _ => field(lines.drop_last(), key),
        }
    }
}

/// Whether every line is of the form `Key: Value`.
pub open spec fn well_formed_lines(lines: Seq<Seq<char>>) -> bool {
    forall|i: int| 0 <= i < lines.len() ==> key_value(#[trigger] lines[i]) is Some
}

/// What a metadata text says: the values of `URL`, `NarSize`, `FileSize` and
/// `Compression`, of which none may be missing.
pub open spec fn spec_parse(s: Seq<char>) -> Result<NarInfoView, NarInfoError> {
    let lines = spec_lines(s);
    if !well_formed_lines(lines) {
        Err(NarInfoError::InvalidLine)
    } else {
        match field(lines, "URL"@) {
            None => Err(NarInfoError::MissingUrl),
            Some(url) => match field(lines, "NarSize"@) {
                None => Err(NarInfoError::MissingNarSize),
                Some(nar) => match spec_parse_u64(nar) {
                    None => Err(NarInfoError::InvalidNarSize),
                    Some(nar_size) => match field(lines, "FileSize"@) {
                        None => Err(NarInfoError::MissingFileSize),
                        Some(file) => match spec_parse_u64(file) {
                            None => Err(NarInfoError::InvalidFileSize),
                            Some(file_size) => match field(lines, "Compression"@) {
                                None => Err(NarInfoError::MissingCompression),
                                Some(compression) => Ok(
                                    NarInfoView { compression, nar_size, file_size, url },
                                ),
                            },
                        },
                    },
                },
            },
        }
    }
}

pub proof fn lemma_line_end(s: Seq<char>, from: int)
    requires
        0 <= from <= s.len(),
    ensures
        from <= line_end(s, from) <= s.len(),
        line_end(s, from) < s.len() ==> s[line_end(s, from)] == '\n',
    decreases s.len() - from,
{
    if from < s.len() && s[from] != '\n' {
        lemma_line_end(s, from + 1);
    }
}

/// The part of `text` that a pair of positions stands for.
pub open spec fn slice_view(text: Seq<char>, range: Option<(usize, usize)>) -> Option<Seq<char>> {
    match range {
        Some((from, to)) => Some(text.subrange(from as int, to as int)),
        None => None,
    }
}

/// Whether the positions lie in `text`, in order.
pub open spec fn slice_ok(text: Seq<char>, range: Option<(usize, usize)>) -> bool {
    range matches Some((from, to)) ==> from <= to <= text.len()
}

/// Adding a line to those already read changes the value of `key` only if
/// the line has that key.
proof fn lemma_field_push(done: Seq<Seq<char>>, line: Seq<char>, key: Seq<char>)
    ensures
        field(done.push(line), key) == match key_value(line) {
            Some((k, v)) if k == key => Some(v),
            _ => field(done, key),
        },
{
    assert(done.push(line).drop_last() =~= done);
    assert(done.push(line).last() == line);
}

/// Finds the first `: ` in `text[from..to]`.
fn find_separator(text: &Vec<char>, from: usize, to: usize) -> (r: Option<usize>)
    requires
        from <= to <= text@.len(),
    ensures
        match r {
            Some(at) => from <= at && at + 2 <= to && separator(
                text@.subrange(from as int, to as int),
                0,
            ) == Some(at - from),
            None => separator(text@.subrange(from as int, to as int), 0) is None,
        },
{
    let ghost line = text@.subrange(from as int, to as int);
    let mut at: usize = from;
    while to - at >= 2
        invariant
            from <= at <= to <= text@.len(),
            line == text@.subrange(from as int, to as int),
            separator(line, at - from) == separator(line, 0),
        decreases to - at,
    {
        if text[at] == ':' && text[at + 1] == ' ' {
            assert(line[at - from] == ':' && line[at - from + 1] == ' ');
            return Some(at);
        }
        assert(line[at - from] == text@[at as int]);
        assert(line[at - from + 1] == text@[at + 1]);
        at = at + 1;
    }
    None
}

impl NarInfo {
    /// Reads a metadata text.
    pub fn parse(s: &str) -> (r: Result<NarInfo, NarInfoError>)
        ensures
            match r {
                Ok(info) => spec_parse(s@) == Ok::<_, NarInfoError>(info@),
                Err(e) => spec_parse(s@) == Err::<NarInfoView, _>(e),
            },
    {
        let text = chars_of(s);
        let url_key = chars_of("URL");
        let nar_key = chars_of("NarSize");
        let file_key = chars_of("FileSize");
        let compression_key = chars_of("Compression");
        let mut url: Option<(usize, usize)> = None;
        let mut nar: Option<(usize, usize)> = None;
        let mut file: Option<(usize, usize)> = None;
        let mut compression: Option<(usize, usize)> = None;
        let ghost mut done: Seq<Seq<char>> = Seq::empty();
        let mut from: usize = 0;
        assert(done + lines_from(text@, 0) =~= spec_lines(text@));
        while from < text.len()
            invariant
                from <= text@.len(),
                text@ == s@,
                url_key@ == "URL"@,
                nar_key@ == "NarSize"@,
                file_key@ == "FileSize"@,
                compression_key@ == "Compression"@,
                spec_lines(text@) == done + lines_from(text@, from as int),
                well_formed_lines(done),
                slice_ok(text@, url),
                slice_ok(text@, nar),
                slice_ok(text@, file),
                slice_ok(text@, compression),
                slice_view(text@, url) == field(done, "URL"@),
                slice_view(text@, nar) == field(done, "NarSize"@),
                slice_view(text@, file) == field(done, "FileSize"@),
                slice_view(text@, compression) == field(done, "Compression"@),
            decreases text@.len() - from,
        {
            let mut end: usize = from;
            while end < text.len() && text[end] != '\n'
                invariant
                    from <= end <= text@.len(),
                    line_end(text@, end as int) == line_end(text@, from as int),
                decreases text@.len() - end,
            {
                end = end + 1;
            }
            let stop: usize = if end < text.len() && from < end && text[end - 1] == '\r' {
                end - 1
            } else {
                end
            };
            let ghost line = line_at(text@, from as int, end as int);
            assert(line == text@.subrange(from as int, stop as int));
            let ghost rest = if end < text@.len() {
                lines_from(text@, end + 1)
            } else {
                Seq::empty()
            };
            assert(lines_from(text@, from as int) =~= seq![line] + rest);
            assert(spec_lines(text@) =~= done.push(line) + rest);
            let at = match find_separator(&text, from, stop) {
                Some(at) => at,
                None => {
                    assert(spec_lines(text@)[done.len() as int] == line);
                    return Err(NarInfoError::InvalidLine);
                },
            };
            let ghost key = line.subrange(0, at - from);
            let ghost value = line.subrange(at - from + 2, line.len() as int);
            assert(key_value(line) == Some((key, value)));
            assert(key =~= text@.subrange(from as int, at as int));
            assert(value =~= text@.subrange(at + 2, stop as int));
            proof {
                lemma_field_push(done, line, "URL"@);
                lemma_field_push(done, line, "NarSize"@);
                lemma_field_push(done, line, "FileSize"@);
                lemma_field_push(done, line, "Compression"@);
            }
            let size = at - from;
            if size == url_key.len() && has_at(&text, from, &url_key) {
                url = Some((at + 2, stop));
            }
            if size == nar_key.len() && has_at(&text, from, &nar_key) {
                nar = Some((at + 2, stop));
            }
            if size == file_key.len() && has_at(&text, from, &file_key) {
                file = Some((at + 2, stop));
            }
            if size == compression_key.len() && has_at(&text, from, &compression_key) {
                compression = Some((at + 2, stop));
            }
            proof {
                assert forall|i: int| 0 <= i < done.push(line).len() implies key_value(
                    #[trigger] done.push(line)[i],
                ) is Some by {
                    if i < done.len() {
                        assert(done.push(line)[i] == done[i]);
                    }
                }
                done = done.push(line);
            }
            from = if end < text.len() {
                end + 1
            } else {
                end
            };
            assert(rest =~= lines_from(text@, from as int));
        }
        assert(spec_lines(text@) =~= done);
        let (url_from, url_to) = match url {
            Some(range) => range,
            None => {
                return Err(NarInfoError::MissingUrl);
            },
        };
        let (nar_from, nar_to) = match nar {
            Some(range) => range,
            None => {
                return Err(NarInfoError::MissingNarSize);
            },
        };
        let nar_size = match parse_u64(&text, nar_from, nar_to) {
            Some(n) => n,
            None => {
                return Err(NarInfoError::InvalidNarSize);
            },
        };
        let (file_from, file_to) = match file {
            Some(range) => range,
            None => {
                return Err(NarInfoError::MissingFileSize);
            },
        };
        let file_size = match parse_u64(&text, file_from, file_to) {
            Some(n) => n,
            None => {
                return Err(NarInfoError::InvalidFileSize);
            },
        };
        let (compression_from, compression_to) = match compression {
            Some(range) => range,
            None => {
                return Err(NarInfoError::MissingCompression);
            },
        };
        Ok(
            NarInfo {
                compression: string_of(&text, compression_from, compression_to),
                nar_size,
                file_size,
                url: string_of(&text, url_from, url_to),
            },
        )
    }
}

} // verus!
