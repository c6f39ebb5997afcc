//! What holds of the grammar: the archive of a tree decodes to that tree.

use vstd::prelude::*;
use vstd::utf8::{
    encode_utf8, encode_utf8_decode_utf8, encode_utf8_valid_utf8, is_ascii_chars,
    is_ascii_chars_encode_utf8,
};
use crate::nar::format::{
    archive_trace, dir_trace, le_u64, lemma_padded, node_trace, padded, regular_close,
    regular_trace, spec_entry_header, spec_expect, spec_read_str, spec_read_u64,
    spec_regular_header, symlink_trace, NarError, Trace,
};
use crate::nar::tree::{
    blob, encodable, encodable_children, encode_archive, encode_children, encode_node, entry_of,
    fits, preorder, preorder_children, u64_le, word, zeros, Node,
};

verus! {

/// Whether `data` holds the bytes `part` at `pos`.
pub open spec fn holds(data: Seq<u8>, pos: int, part: Seq<u8>) -> bool {
    0 <= pos && pos + part.len() <= data.len() && data.subrange(pos, pos + part.len()) == part
}

/// Data that holds two parts in a row holds each of them.
pub proof fn lemma_holds_split(data: Seq<u8>, pos: int, first: Seq<u8>, second: Seq<u8>)
    requires
        holds(data, pos, first + second),
    ensures
        holds(data, pos, first),
        holds(data, pos + first.len(), second),
{
    let both = first + second;
    assert(data.subrange(pos, pos + first.len()) =~= both.subrange(0, first.len() as int));
    assert(both.subrange(0, first.len() as int) =~= first);
    assert(data.subrange(pos + first.len(), pos + first.len() + second.len()) =~= both.subrange(
        first.len() as int,
        both.len() as int,
    ));
    assert(both.subrange(first.len() as int, both.len() as int) =~= second);
}

/// The eight bytes of a number stand for that number.
pub proof fn lemma_u64_le(n: u64)
    ensures
        u64_le(n).len() == 8,
        le_u64(u64_le(n)) == n,
{
    let b = u64_le(n);
    let n0 = n as int;
    let n1 = n0 / 0x100;
    let n2 = n1 / 0x100;
    let n3 = n2 / 0x100;
    let n4 = n3 / 0x100;
    let n5 = n4 / 0x100;
    let n6 = n5 / 0x100;
    let n7 = n6 / 0x100;
    assert(n1 == n0 / 0x100 && n2 == n0 / 0x1_0000 && n3 == n0 / 0x100_0000);
    assert(n4 == n0 / 0x1_0000_0000 && n5 == n0 / 0x100_0000_0000);
    assert(n6 == n0 / 0x1_0000_0000_0000 && n7 == n0 / 0x100_0000_0000_0000);
    assert(n7 < 0x100);
    assert(b[0] == n0 % 0x100);
    assert(b[1] == n1 % 0x100);
    assert(b[2] == n2 % 0x100);
    assert(b[3] == n3 % 0x100);
    assert(b[4] == n4 % 0x100);
    assert(b[5] == n5 % 0x100);
    assert(b[6] == n6 % 0x100);
    assert(b[7] == n7 % 0x100);
}

/// A field is as long as its length, its bytes and its padding.
pub proof fn lemma_blob_len(bytes: Seq<u8>)
    ensures
        blob(bytes).len() == 8 + padded(bytes.len() as int),
        blob(bytes).len() >= 8,
{
    lemma_padded(bytes.len() as int);
    lemma_u64_le(bytes.len() as u64);
}

/// Data that holds a field holds the field's length and then its bytes.
pub proof fn lemma_read_blob(data: Seq<u8>, pos: int, bytes: Seq<u8>)
    requires
        holds(data, pos, blob(bytes)),
        bytes.len() <= u64::MAX,
    ensures
        spec_read_u64(data, pos) == Ok::<_, NarError>((bytes.len() as u64, pos + 8)),
        pos + 8 + padded(bytes.len() as int) == pos + blob(bytes).len(),
        pos + blob(bytes).len() <= data.len(),
        data.subrange(pos + 8, pos + 8 + bytes.len()) == bytes,
{
    let n = bytes.len() as u64;
    lemma_blob_len(bytes);
    lemma_u64_le(n);
    lemma_padded(bytes.len() as int);
    let pad = zeros(padded(bytes.len() as int) - bytes.len());
    assert(blob(bytes) =~= u64_le(n) + (bytes + pad));
    lemma_holds_split(data, pos, u64_le(n), bytes + pad);
    lemma_holds_split(data, pos + 8, bytes, pad);
}

/// Data that holds the field of a string reads as that string.
pub proof fn lemma_read_word(data: Seq<u8>, pos: int, s: Seq<char>)
    requires
        holds(data, pos, word(s)),
        fits(s),
    ensures
        spec_read_str(data, pos) == Ok::<_, NarError>((s, pos + word(s).len())),
        forall|token: Seq<char>| #[trigger]
            spec_expect(data, pos, token) == if s == token {
                Ok::<int, NarError>(pos + word(s).len())
            } else {
                Err(NarError::UnexpectedToken)
            },
        word(s).len() >= 8,
{
    reveal(spec_read_str);
    let bytes = encode_utf8(s);
    lemma_read_blob(data, pos, bytes);
    lemma_blob_len(bytes);
    encode_utf8_valid_utf8(s);
    encode_utf8_decode_utf8(s);
}

/// A keyword of the grammar: short and plain.
pub open spec fn keyword(s: Seq<char>) -> bool {
    s.len() <= 16 && is_ascii_chars(s)
}

/// Keywords fit their fields.
pub proof fn lemma_keyword_fits(s: Seq<char>)
    requires
        keyword(s),
    ensures
        fits(s),
        word(s).len() >= 8,
{
    is_ascii_chars_encode_utf8(s);
    lemma_blob_len(encode_utf8(s));
}

/// The words of the grammar are keywords, and those that stand at the same
/// place differ.
pub proof fn lemma_keywords()
    ensures
        keyword("nix-archive-1"@),
        keyword("("@),
        keyword(")"@),
        keyword("type"@),
        keyword("regular"@),
        keyword("directory"@),
        keyword("symlink"@),
        keyword("executable"@),
        keyword(""@),
        keyword("contents"@),
        keyword("target"@),
        keyword("entry"@),
        keyword("name"@),
        keyword("node"@),
        "regular"@ != "directory"@,
        "regular"@ != "symlink"@,
        "directory"@ != "symlink"@,
        "contents"@ != "executable"@,
        ")"@ != "entry"@,
{
    reveal_strlit("nix-archive-1");
    reveal_strlit("(");
    reveal_strlit(")");
    reveal_strlit("type");
    reveal_strlit("regular");
    reveal_strlit("directory");
    reveal_strlit("symlink");
    reveal_strlit("executable");
    reveal_strlit("");
    reveal_strlit("contents");
    reveal_strlit("target");
    reveal_strlit("entry");
    reveal_strlit("name");
    reveal_strlit("node");
    assert("regular"@[0] == 'r' && "symlink"@[0] == 's');
    assert("directory"@.len() == 9 && "symlink"@.len() == 7);
    assert("contents"@.len() == 8 && "executable"@.len() == 10);
    assert(")"@.len() == 1 && "entry"@.len() == 5);
}

/// Data that holds the field of a keyword is read past it where that
/// keyword is expected.
pub proof fn lemma_expect(data: Seq<u8>, pos: int, token: Seq<char>)
    requires
        holds(data, pos, word(token)),
        keyword(token),
    ensures
        spec_expect(data, pos, token) == Ok::<int, NarError>(pos + word(token).len()),
        spec_read_str(data, pos) == Ok::<_, NarError>((token, pos + word(token).len())),
        word(token).len() >= 8,
{
    lemma_keyword_fits(token);
    lemma_read_word(data, pos, token);
}

/// Data that holds a keyword and something behind it.
pub proof fn lemma_expect_then(data: Seq<u8>, pos: int, token: Seq<char>, rest: Seq<u8>)
    requires
        holds(data, pos, word(token) + rest),
        keyword(token),
    ensures
        spec_expect(data, pos, token) == Ok::<int, NarError>(pos + word(token).len()),
        spec_read_str(data, pos) == Ok::<_, NarError>((token, pos + word(token).len())),
        holds(data, pos + word(token).len(), rest),
        word(token).len() >= 8,
{
    lemma_holds_split(data, pos, word(token), rest);
    lemma_expect(data, pos, token);
}

/// Data that holds the field of a string and something behind it.
pub proof fn lemma_word_then(data: Seq<u8>, pos: int, s: Seq<char>, rest: Seq<u8>)
    requires
        holds(data, pos, word(s) + rest),
        fits(s),
    ensures
        spec_read_str(data, pos) == Ok::<_, NarError>((s, pos + word(s).len())),
        holds(data, pos + word(s).len(), rest),
        word(s).len() >= 8,
{
    lemma_holds_split(data, pos, word(s), rest);
    lemma_read_word(data, pos, s);
}

/// What follows the kind of a regular file in its archive form.
pub open spec fn regular_body(executable: bool, bytes: Seq<u8>) -> Seq<u8> {
    let rest = word("contents"@) + (blob(bytes) + word(")"@));
    if executable {
        word("executable"@) + (word(""@) + rest)
    } else {
        rest
    }
}

/// Data that holds the body of a regular file decodes to that file.
proof fn lemma_regular_trace(
    data: Seq<u8>,
    pos: int,
    executable: bool,
    bytes: Seq<u8>,
    path: Seq<Seq<char>>,
)
    requires
        holds(data, pos, regular_body(executable, bytes)),
        bytes.len() <= u64::MAX,
    ensures
        regular_trace(data, pos, path) == (Trace {
            entries: seq![entry_of(Node::Regular { executable, data: bytes }, path)],
            end: Ok(pos + regular_body(executable, bytes).len()),
        }),
{
    lemma_keywords();
    reveal(spec_regular_header);
    let close = word(")"@);
    let payload = blob(bytes) + close;
    let rest = word("contents"@) + payload;
    let start = if executable {
        lemma_expect_then(data, pos, "executable"@, word(""@) + rest);
        let pos1 = pos + word("executable"@).len();
        lemma_expect_then(data, pos1, ""@, rest);
        pos1 + word(""@).len()
    } else {
        pos
    };
    lemma_expect_then(data, start, "contents"@, payload);
    let pos3 = start + word("contents"@).len();
    lemma_holds_split(data, pos3, blob(bytes), close);
    lemma_read_blob(data, pos3, bytes);
    lemma_expect(data, pos3 + blob(bytes).len(), ")"@);
    let size = bytes.len() as u64;
    assert(spec_regular_header(data, pos) == Ok::<_, NarError>((executable, size, pos3 + 8)));
    assert(regular_close(data, pos3 + 8, size) == Ok::<int, NarError>(
        pos3 + blob(bytes).len() + close.len(),
    ));
}

/// What follows the kind of a symlink in its archive form.
pub open spec fn symlink_body(target: Seq<char>) -> Seq<u8> {
    word("target"@) + (word(target) + word(")"@))
}

/// Data that holds the body of a symlink decodes to that symlink.
proof fn lemma_symlink_trace(data: Seq<u8>, pos: int, target: Seq<char>, path: Seq<Seq<char>>)
    requires
        holds(data, pos, symlink_body(target)),
        fits(target),
    ensures
        symlink_trace(data, pos, path) == (Trace {
            entries: seq![entry_of(Node::Symlink { target }, path)],
            end: Ok(pos + symlink_body(target).len()),
        }),
{
    lemma_keywords();
    lemma_expect_then(data, pos, "target"@, word(target) + word(")"@));
    let pos1 = pos + word("target"@).len();
    lemma_word_then(data, pos1, target, word(")"@));
    lemma_expect(data, pos1 + word(target).len(), ")"@);
}

/// The archive form of a node, bracketed from the right.
pub open spec fn node_body(node: Node) -> Seq<u8> {
    match node {
        Node::Regular { executable, data } => word("regular"@) + regular_body(executable, data),
        Node::Symlink { target } => word("symlink"@) + symlink_body(target),
        Node::Directory { children } => word("directory"@) + (encode_children(children) + word(
            ")"@,
        )),
    }
}

/// Bracketing from the right: the archive form of an executable file.
proof fn lemma_shape_executable(
    a: Seq<u8>,
    b: Seq<u8>,
    c: Seq<u8>,
    d: Seq<u8>,
    e: Seq<u8>,
    f: Seq<u8>,
    g: Seq<u8>,
    h: Seq<u8>,
)
    ensures
        a + b + (c + (d + e) + f + g) + h == a + (b + (c + (d + (e + (f + (g + h)))))),
{
    assert(a + b + (c + (d + e) + f + g) + h =~= a + (b + (c + (d + (e + (f + (g + h)))))));
}

/// Bracketing from the right: the archive form of a plain file.
proof fn lemma_shape_plain(a: Seq<u8>, b: Seq<u8>, c: Seq<u8>, f: Seq<u8>, g: Seq<u8>, h: Seq<u8>)
    ensures
        a + b + (c + Seq::<u8>::empty() + f + g) + h == a + (b + (c + (f + (g + h)))),
{
    assert(a + b + (c + Seq::<u8>::empty() + f + g) + h =~= a + (b + (c + (f + (g + h)))));
}

/// Bracketing from the right: the archive form of a symlink.
proof fn lemma_shape_symlink(a: Seq<u8>, b: Seq<u8>, c: Seq<u8>, d: Seq<u8>, e: Seq<u8>, h: Seq<u8>)
    ensures
        a + b + (c + d + e) + h == a + (b + (c + (d + (e + h)))),
{
    assert(a + b + (c + d + e) + h =~= a + (b + (c + (d + (e + h)))));
}

/// Bracketing from the right: the archive form of a directory.
proof fn lemma_shape_directory(a: Seq<u8>, b: Seq<u8>, c: Seq<u8>, d: Seq<u8>, h: Seq<u8>)
    ensures
        a + b + (c + d) + h == a + (b + (c + (d + h))),
{
    assert(a + b + (c + d) + h =~= a + (b + (c + (d + h))));
}

/// Bracketing from the right: the archive form of a child and what follows.
proof fn lemma_shape_child(
    a: Seq<u8>,
    b: Seq<u8>,
    c: Seq<u8>,
    d: Seq<u8>,
    e: Seq<u8>,
    f: Seq<u8>,
    g: Seq<u8>,
    r: Seq<u8>,
    h: Seq<u8>,
)
    ensures
        (a + b + c + d + e + f + g) + r + h == a + (b + (c + (d + (e + (f + (g + (r + h))))))),
{
    assert((a + b + c + d + e + f + g) + r + h =~= a + (b + (c + (d + (e + (f + (g + (r
        + h))))))));
}

proof fn lemma_encode_node_shape(node: Node)
    ensures
        encode_node(node) == word("("@) + (word("type"@) + node_body(node)),
{
    let open = word("("@);
    let kind = word("type"@);
    let close = word(")"@);
    match node {
        Node::Regular { executable, data } => {
            if executable {
                lemma_shape_executable(
                    open,
                    kind,
                    word("regular"@),
                    word("executable"@),
                    word(""@),
                    word("contents"@),
                    blob(data),
                    close,
                );
            } else {
                lemma_shape_plain(
                    open,
                    kind,
                    word("regular"@),
                    word("contents"@),
                    blob(data),
                    close,
                );
            }
        },
        Node::Symlink { target } => {
            lemma_shape_symlink(
                open,
                kind,
                word("symlink"@),
                word("target"@),
                word(target),
                close,
            );
        },
        Node::Directory { children } => {
            lemma_shape_directory(
                open,
                kind,
                word("directory"@),
                encode_children(children),
                close,
            );
        },
    }
}

/// Data that holds the archive form of a tree decodes to the entries of that
/// tree, in pre-order, and ends behind it.
pub proof fn lemma_node_decodes(data: Seq<u8>, pos: int, node: Node, path: Seq<Seq<char>>)
    requires
        holds(data, pos, encode_node(node)),
        encodable(node),
    ensures
        node_trace(data, pos, path) == (Trace {
            entries: preorder(node, path),
            end: Ok(pos + encode_node(node).len()),
        }),
    decreases node,
{
    lemma_keywords();
    lemma_encode_node_shape(node);
    lemma_expect_then(data, pos, "("@, word("type"@) + node_body(node));
    let pos1 = pos + word("("@).len();
    lemma_expect_then(data, pos1, "type"@, node_body(node));
    let pos2 = pos1 + word("type"@).len();
    match node {
        Node::Regular { executable, data: bytes } => {
            lemma_expect_then(data, pos2, "regular"@, regular_body(executable, bytes));
            let pos3 = pos2 + word("regular"@).len();
            lemma_regular_trace(data, pos3, executable, bytes, path);
        },
        Node::Symlink { target } => {
            lemma_expect_then(data, pos2, "symlink"@, symlink_body(target));
            let pos3 = pos2 + word("symlink"@).len();
            lemma_symlink_trace(data, pos3, target, path);
        },
        Node::Directory { children } => {
            lemma_expect_then(data, pos2, "directory"@, encode_children(children) + word(")"@));
            let pos3 = pos2 + word("directory"@).len();
            lemma_children_decode(data, pos3, children, path);
        },
    }
}

/// The archive form of the children of a directory, bracketed from the
/// right, with the `)` that closes the directory.
pub open spec fn children_body(children: Seq<(Seq<char>, Node)>) -> Seq<u8> {
    if children.len() == 0 {
        word(")"@)
    } else {
        word("entry"@) + (word("("@) + (word("name"@) + (word(children[0].0) + (word("node"@) + (
        encode_node(children[0].1) + (word(")"@) + (encode_children(children.drop_first()) + word(
            ")"@,
        ))))))))
    }
}

proof fn lemma_children_shape(children: Seq<(Seq<char>, Node)>)
    ensures
        encode_children(children) + word(")"@) == children_body(children),
{
    if children.len() == 0 {
        assert(Seq::<u8>::empty() + word(")"@) =~= word(")"@));
    } else {
        lemma_shape_child(
            word("entry"@),
            word("("@),
            word("name"@),
            word(children[0].0),
            word("node"@),
            encode_node(children[0].1),
            word(")"@),
            encode_children(children.drop_first()),
            word(")"@),
        );
    }
}

/// Data that holds the archive form of the children of a directory, and the
/// `)` that closes it, decodes to their entries and ends behind them.
pub proof fn lemma_children_decode(
    data: Seq<u8>,
    pos: int,
    children: Seq<(Seq<char>, Node)>,
    path: Seq<Seq<char>>,
)
    requires
        holds(data, pos, encode_children(children) + word(")"@)),
        encodable_children(children),
    ensures
        dir_trace(data, pos, path) == (Trace {
            entries: preorder_children(children, path),
            end: Ok(pos + encode_children(children).len() + word(")"@).len()),
        }),
    decreases children,
{
    lemma_keywords();
    lemma_children_shape(children);
    let close = word(")"@);
    if children.len() == 0 {
        lemma_expect(data, pos, ")"@);
    } else {
        let name = children[0].0;
        let node = children[0].1;
        let rest = children.drop_first();
        let t7 = encode_children(rest) + close;
        let t6 = close + t7;
        let t5 = encode_node(node) + t6;
        let t4 = word("node"@) + t5;
        let t3 = word(name) + t4;
        let t2 = word("name"@) + t3;
        let t1 = word("("@) + t2;
        lemma_expect_then(data, pos, "entry"@, t1);
        let pos1 = pos + word("entry"@).len();
        lemma_expect_then(data, pos1, "("@, t2);
        let pos2 = pos1 + word("("@).len();
        lemma_expect_then(data, pos2, "name"@, t3);
        let pos3 = pos2 + word("name"@).len();
        lemma_word_then(data, pos3, name, t4);
        let pos4 = pos3 + word(name).len();
        lemma_expect_then(data, pos4, "node"@, t5);
        let pos5 = pos4 + word("node"@).len();
        assert(spec_entry_header(data, pos1) == Ok::<_, NarError>((name, pos5)));
        lemma_holds_split(data, pos5, encode_node(node), t6);
        lemma_node_decodes(data, pos5, node, path.push(name));
        let pos6 = pos5 + encode_node(node).len();
        lemma_expect_then(data, pos6, ")"@, t7);
        let pos7 = pos6 + close.len();
        lemma_children_decode(data, pos7, rest, path);
    }
}

/// Encoding a tree and decoding the archive gives the tree back: the
/// archive of a tree decodes to the tree's entries, in pre-order, each with
/// its path and its contents, and then ends without a fault at the last byte
/// of the archive.
pub proof fn lemma_round_trip(root: Node)
    requires
        encodable(root),
    ensures
        archive_trace(encode_archive(root)) == (Trace {
            entries: preorder(root, Seq::empty()),
            end: Ok(encode_archive(root).len() as int),
        }),
{
    lemma_keywords();
    let data = encode_archive(root);
    assert(data.subrange(0, data.len() as int) =~= data);
    lemma_expect_then(data, 0, "nix-archive-1"@, encode_node(root));
    lemma_node_decodes(data, word("nix-archive-1"@).len() as int, root, Seq::empty());
}

} // verus!
