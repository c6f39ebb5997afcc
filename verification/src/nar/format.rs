//! The grammar of an archive, as functions on byte sequences.
//!
//! Every field is a string: an 8-byte little-endian length, the bytes, and
//! padding up to the next multiple of 8.  A node is `(`, `type`, the kind and
//! its payload, `)`; a directory's payload is a run of `entry ( name <name>
//! node <node> )` groups.

use vstd::prelude::*;
use vstd::utf8::{decode_utf8, valid_utf8};

verus! {

/// Why an archive could not be decoded.
#[derive(Clone, Copy, Debug, PartialEq, Eq, Structural)]
pub enum NarError {
    /// The stream ended inside a field.
    UnexpectedEof,
    /// A string field announced 4096 bytes or more.
    StringTooLong,
    /// A string field was not UTF-8.
    InvalidUtf8,
    /// A keyword of the grammar was expected and something else was read.
    UnexpectedToken,
    /// The kind of a node was none of `regular`, `directory`, `symlink`.
    InvalidEntryType,
}

/// A string field of this many bytes, or more, is refused.
pub const MAX_STRING: u64 = 4096;

/// The number a little-endian byte string of length 8 stands for.
pub open spec fn le_u64(b: Seq<u8>) -> int
    recommends
        b.len() == 8,
{
    b[0] as int + 0x100 * (b[1] as int) + 0x1_0000 * (b[2] as int) + 0x100_0000 * (b[3] as int)
        + 0x1_0000_0000 * (b[4] as int) + 0x100_0000_0000 * (b[5] as int) + 0x1_0000_0000_0000 * (
    b[6] as int) + 0x100_0000_0000_0000 * (b[7] as int)
}

/// `n` rounded up to the next multiple of 8.
pub open spec fn padded(n: int) -> int {
    (n + 7) / 8 * 8
}

/// What an entry holds, as mathematical values.
pub enum ContentsView {
    Regular { executable: bool, size: u64, data: Seq<u8> },
    Symlink { target: Seq<char> },
    Directory,
}

/// One node of the tree: the names that lead to it from the root (none for the
/// root itself) and what it holds.
pub struct EntryView {
    pub path: Seq<Seq<char>>,
    pub contents: ContentsView,
}

/// What a decoder yields from some point on: the entries in the order it
/// meets them, and then either the position at which it stopped reading or
/// the error that stopped it.
#[verifier::ext_equal]
pub struct Trace {
    pub entries: Seq<EntryView>,
    pub end: Result<int, NarError>,
}

/// The trace of a decoder that fails at once.
pub open spec fn failed(e: NarError) -> Trace {
    Trace { entries: Seq::empty(), end: Err(e) }
}

/// The trace of a decoder that stops at `pos` with nothing left to yield.
pub open spec fn finished(pos: int) -> Trace {
    Trace { entries: Seq::empty(), end: Ok(pos) }
}

/// `rest`, after `first` was yielded.
pub open spec fn after(first: Seq<EntryView>, rest: Trace) -> Trace {
    Trace { entries: first + rest.entries, end: rest.end }
}

/// The 8-byte integer at `pos` and the position behind it.
pub open spec fn spec_read_u64(data: Seq<u8>, pos: int) -> Result<(u64, int), NarError> {
    if 0 <= pos && pos + 8 <= data.len() {
        Ok((le_u64(data.subrange(pos, pos + 8)) as u64, pos + 8))
    } else {
        Err(NarError::UnexpectedEof)
    }
}

/// The string field at `pos` and the position behind its padding.  The
/// padding bytes themselves are not looked at.
#[verifier::opaque]
pub open spec fn spec_read_str(data: Seq<u8>, pos: int) -> Result<(Seq<char>, int), NarError> {
    match spec_read_u64(data, pos) {
        Err(e) => Err(e),
        Ok((n, p)) => {
            if n >= MAX_STRING {
                Err(NarError::StringTooLong)
            } else if p + padded(n as int) > data.len() {
                Err(NarError::UnexpectedEof)
            } else if !valid_utf8(data.subrange(p, p + n)) {
                Err(NarError::InvalidUtf8)
            } else {
                Ok((decode_utf8(data.subrange(p, p + n)), p + padded(n as int)))
            }
        },
    }
}

/// The position behind the string field at `pos`, which must read `token`.
pub open spec fn spec_expect(data: Seq<u8>, pos: int, token: Seq<char>) -> Result<int, NarError> {
    match spec_read_str(data, pos) {
        Err(e) => Err(e),
        Ok((s, p)) => if s == token {
            Ok(p)
        } else {
            Err(NarError::UnexpectedToken)
        },
    }
}

/// What follows the kind `regular`: an optional `executable` marker with its
/// empty value, then `contents` and the payload's size.  Gives the marker, the
/// size and the position of the payload's first byte.
#[verifier::opaque]
pub open spec fn spec_regular_header(data: Seq<u8>, pos: int) -> Result<
    (bool, u64, int),
    NarError,
> {
    match spec_read_str(data, pos) {
        Err(e) => Err(e),
        Ok((s, pos1)) => if s == "executable"@ {
            match spec_expect(data, pos1, ""@) {
                Err(e) => Err(e),
                Ok(pos2) => match spec_expect(data, pos2, "contents"@) {
                    Err(e) => Err(e),
                    Ok(pos3) => match spec_read_u64(data, pos3) {
                        Err(e) => Err(e),
                        Ok((size, pos4)) => Ok((true, size, pos4)),
                    },
                },
            }
        } else if s == "contents"@ {
            match spec_read_u64(data, pos1) {
                Err(e) => Err(e),
                Ok((size, pos2)) => Ok((false, size, pos2)),
            }
        } else {
            Err(NarError::UnexpectedToken)
        },
    }
}

/// What closes a regular file whose payload of `size` bytes starts at `pos`:
/// the padding is skipped and `)` is read.
pub open spec fn regular_close(data: Seq<u8>, pos: int, size: u64) -> Result<int, NarError> {
    if pos + padded(size as int) > data.len() {
        Err(NarError::UnexpectedEof)
    } else {
        spec_expect(data, pos + padded(size as int), ")"@)
    }
}

/// A regular file, read from behind its kind.  The entry is yielded once its
/// whole payload is there.
pub open spec fn regular_trace(data: Seq<u8>, pos: int, path: Seq<Seq<char>>) -> Trace {
    match spec_regular_header(data, pos) {
        Err(e) => failed(e),
        Ok((executable, size, p)) => if p + size > data.len() {
            failed(NarError::UnexpectedEof)
        } else {
            let entry = EntryView {
                path,
                contents: ContentsView::Regular {
                    executable,
                    size,
                    data: data.subrange(p, p + size),
                },
            };
            Trace { entries: seq![entry], end: regular_close(data, p, size) }
        },
    }
}

/// A symlink, read from behind its kind.
pub open spec fn symlink_trace(data: Seq<u8>, pos: int, path: Seq<Seq<char>>) -> Trace {
    match spec_expect(data, pos, "target"@) {
        Err(e) => failed(e),
        Ok(pos1) => match spec_read_str(data, pos1) {
            Err(e) => failed(e),
            Ok((target, pos2)) => match spec_expect(data, pos2, ")"@) {
                Err(e) => failed(e),
                Ok(pos3) => Trace {
                    entries: seq![EntryView { path, contents: ContentsView::Symlink { target } }],
                    end: Ok(pos3),
                },
            },
        },
    }
}

/// A node at `pos`, reached by `path`: its own entry and, for a directory,
/// the entries of everything below it, in pre-order.
pub open spec fn node_trace(data: Seq<u8>, pos: int, path: Seq<Seq<char>>) -> Trace
    decreases data.len() - pos, 1int,
    via node_trace_terminates
{
    match spec_expect(data, pos, "("@) {
        Err(e) => failed(e),
        Ok(pos1) => match spec_expect(data, pos1, "type"@) {
            Err(e) => failed(e),
            Ok(pos2) => match spec_read_str(data, pos2) {
                Err(e) => failed(e),
                Ok((kind, pos3)) => if kind == "regular"@ {
                    regular_trace(data, pos3, path)
                } else if kind == "directory"@ {
                    after(
                        seq![EntryView { path, contents: ContentsView::Directory }],
                        dir_trace(data, pos3, path),
                    )
                } else if kind == "symlink"@ {
                    symlink_trace(data, pos3, path)
                } else {
                    failed(NarError::InvalidEntryType)
                },
            },
        },
    }
}

/// The children of the directory at `path`, read from `pos` up to and with
/// the `)` that closes the directory.  (A child always ends behind the place
/// where it began: the test `pos4 > pos` is there to show that the definition
/// is well-founded, and its other branch is never taken.)
pub open spec fn dir_trace(data: Seq<u8>, pos: int, path: Seq<Seq<char>>) -> Trace
    decreases data.len() - pos, 0int,
    via dir_trace_terminates
{
    match spec_read_str(data, pos) {
        Err(e) => failed(e),
        Ok((s, pos1)) => if s == "entry"@ {
            match spec_entry_header(data, pos1) {
                Err(e) => failed(e),
                Ok((name, pos2)) => {
                    let child = node_trace(data, pos2, path.push(name));
                    match child.end {
                        Err(e) => child,
                        Ok(pos3) => match spec_expect(data, pos3, ")"@) {
                            Err(e) => after(child.entries, failed(e)),
                            Ok(pos4) => if pos4 > pos {
                                after(child.entries, dir_trace(data, pos4, path))
                            } else {
                                after(child.entries, failed(NarError::UnexpectedEof))
                            },
                        },
                    }
                },
            }
        } else if s == ")"@ {
            finished(pos1)
        } else {
            failed(NarError::UnexpectedToken)
        },
    }
}

#[via_fn]
proof fn node_trace_terminates(data: Seq<u8>, pos: int, path: Seq<Seq<char>>) {
    lemma_read_str_advances(data, pos);
    if let Ok(pos1) = spec_expect(data, pos, "("@) {
        lemma_read_str_advances(data, pos1);
        if let Ok(pos2) = spec_expect(data, pos1, "type"@) {
            lemma_read_str_advances(data, pos2);
        }
    }
}

#[via_fn]
proof fn dir_trace_terminates(data: Seq<u8>, pos: int, path: Seq<Seq<char>>) {
    lemma_read_str_advances(data, pos);
    if let Ok((s, pos1)) = spec_read_str(data, pos) {
        lemma_entry_header_advances(data, pos1);
    }
    assert forall|p: int|
        (#[trigger] spec_expect(data, p, ")"@) matches Ok(q) ==> q <= data.len()) by {
        lemma_read_str_advances(data, p);
    }
}

/// What follows `entry`: `(`, `name`, the child's name, `node`.
pub open spec fn spec_entry_header(data: Seq<u8>, pos: int) -> Result<(Seq<char>, int), NarError> {
    match spec_expect(data, pos, "("@) {
        Err(e) => Err(e),
        Ok(pos1) => match spec_expect(data, pos1, "name"@) {
            Err(e) => Err(e),
            Ok(pos2) => match spec_read_str(data, pos2) {
                Err(e) => Err(e),
                Ok((name, pos3)) => match spec_expect(data, pos3, "node"@) {
                    Err(e) => Err(e),
                    Ok(pos4) => Ok((name, pos4)),
                },
            },
        },
    }
}

/// A whole archive: the magic string, then the root node.
pub open spec fn archive_trace(data: Seq<u8>) -> Trace {
    match spec_expect(data, 0, "nix-archive-1"@) {
        Err(e) => failed(e),
        Ok(p) => node_trace(data, p, Seq::empty()),
    }
}

/// Rounding up adds less than 8.
pub proof fn lemma_padded(n: int)
    requires
        0 <= n,
    ensures
        n <= padded(n) < n + 8,
        padded(n) % 8 == 0,
        padded(n) == n + (8 - n % 8) % 8,
{
}

/// A string field that is read ends behind its length, inside the data.
pub proof fn lemma_read_str_advances(data: Seq<u8>, pos: int)
    ensures
        spec_read_str(data, pos) matches Ok((_, p)) ==> 0 <= pos && pos + 8 <= p <= data.len(),
        forall|token: Seq<char>| #[trigger]
            spec_expect(data, pos, token) matches Ok(p) ==> 0 <= pos && pos + 8 <= p <= data.len(),
{
    reveal(spec_read_str);
}

/// A node that is read ends behind the place where it began.
pub proof fn lemma_node_trace_advances(data: Seq<u8>, pos: int, path: Seq<Seq<char>>)
    ensures
        node_trace(data, pos, path).end matches Ok(p) ==> 0 <= pos < p <= data.len(),
    decreases data.len() - pos, 1int,
{
    lemma_read_str_advances(data, pos);
    match spec_expect(data, pos, "("@) {
        Err(e) => {},
        Ok(pos1) => {
            lemma_read_str_advances(data, pos1);
            match spec_expect(data, pos1, "type"@) {
                Err(e) => {},
                Ok(pos2) => {
                    lemma_read_str_advances(data, pos2);
                    match spec_read_str(data, pos2) {
                        Err(e) => {},
                        Ok((kind, pos3)) => {
                            if kind == "regular"@ {
                                lemma_regular_trace_advances(data, pos3, path);
                            } else if kind == "directory"@ {
                                lemma_dir_trace_advances(data, pos3, path);
                            } else if kind == "symlink"@ {
                                lemma_read_str_advances(data, pos3);
                                match spec_expect(data, pos3, "target"@) {
                                    Err(e) => {},
                                    Ok(q1) => {
                                        lemma_read_str_advances(data, q1);
                                        match spec_read_str(data, q1) {
                                            Err(e) => {},
                                            Ok((target, q2)) => {
                                                lemma_read_str_advances(data, q2);
                                            },
                                        }
                                    },
                                }
                            }
                        },
                    }
                },
            }
        },
    }
}

/// A regular file that is read ends behind the place where its header began.
pub proof fn lemma_regular_trace_advances(data: Seq<u8>, pos: int, path: Seq<Seq<char>>)
    ensures
        regular_trace(data, pos, path).end matches Ok(p) ==> 0 <= pos < p <= data.len(),
        spec_regular_header(data, pos) matches Ok((_, _, p)) ==> 0 <= pos < p <= data.len(),
{
    reveal(spec_regular_header);
    lemma_read_str_advances(data, pos);
    match spec_read_str(data, pos) {
        Err(e) => {},
        Ok((s, pos1)) => {
            lemma_read_str_advances(data, pos1);
            match spec_expect(data, pos1, ""@) {
                Err(e) => {},
                Ok(pos2) => {
                    lemma_read_str_advances(data, pos2);
                },
            }
        },
    }
    match spec_regular_header(data, pos) {
        Err(e) => {},
        Ok((executable, size, p)) => {
            if p + size <= data.len() {
                lemma_read_str_advances(data, p + padded(size as int));
            }
        },
    }
}

/// A directory's children, when all are read, end behind the place where
/// they began.
pub proof fn lemma_dir_trace_advances(data: Seq<u8>, pos: int, path: Seq<Seq<char>>)
    ensures
        dir_trace(data, pos, path).end matches Ok(p) ==> 0 <= pos < p <= data.len(),
    decreases data.len() - pos, 0int,
{
    lemma_read_str_advances(data, pos);
    match spec_read_str(data, pos) {
        Err(e) => {},
        Ok((s, pos1)) => {
            if s == "entry"@ {
                lemma_entry_header_advances(data, pos1);
                match spec_entry_header(data, pos1) {
                    Err(e) => {},
                    Ok((name, pos2)) => {
                        lemma_node_trace_advances(data, pos2, path.push(name));
                        let child = node_trace(data, pos2, path.push(name));
                        match child.end {
                            Err(e) => {},
                            Ok(pos3) => {
                                lemma_read_str_advances(data, pos3);
                                match spec_expect(data, pos3, ")"@) {
                                    Err(e) => {},
                                    Ok(pos4) => {
                                        lemma_dir_trace_advances(data, pos4, path);
                                    },
                                }
                            },
                        }
                    },
                }
            }
        },
    }
}

/// The header of a directory entry, when it is read, ends behind the place
/// where it began.
pub proof fn lemma_entry_header_advances(data: Seq<u8>, pos: int)
    ensures
        spec_entry_header(data, pos) matches Ok((_, p)) ==> 0 <= pos < p <= data.len(),
{
    lemma_read_str_advances(data, pos);
    match spec_expect(data, pos, "("@) {
        Err(e) => {},
        Ok(pos1) => {
            lemma_read_str_advances(data, pos1);
            match spec_expect(data, pos1, "name"@) {
                Err(e) => {},
                Ok(pos2) => {
                    lemma_read_str_advances(data, pos2);
                    match spec_read_str(data, pos2) {
                        Err(e) => {},
                        Ok((name, pos3)) => {
                            lemma_read_str_advances(data, pos3);
                        },
                    }
                },
            }
        },
    }
}

} // verus!
