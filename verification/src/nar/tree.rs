//! Trees and their archives: what an archive is the encoding of.

use vstd::prelude::*;
use vstd::utf8::encode_utf8;
use crate::nar::format::{padded, ContentsView, EntryView, MAX_STRING};

verus! {

/// A filesystem tree.  The children of a directory come with their names, in
/// the order in which the archive lists them.
pub enum Node {
    Regular { executable: bool, data: Seq<u8> },
    Symlink { target: Seq<char> },
    Directory { children: Seq<(Seq<char>, Node)> },
}

/// The eight bytes that stand for `n`, lowest first.
pub open spec fn u64_le(n: u64) -> Seq<u8> {
    seq![
        (n % 0x100) as u8,
        (n / 0x100 % 0x100) as u8,
        (n / 0x1_0000 % 0x100) as u8,
        (n / 0x100_0000 % 0x100) as u8,
        (n / 0x1_0000_0000 % 0x100) as u8,
        (n / 0x100_0000_0000 % 0x100) as u8,
        (n / 0x1_0000_0000_0000 % 0x100) as u8,
        (n / 0x100_0000_0000_0000 % 0x100) as u8,
    ]
}

/// `n` zero bytes.
pub open spec fn zeros(n: int) -> Seq<u8> {
    Seq::new(n as nat, |i: int| 0u8)
}

/// A field that holds `bytes`: their number, the bytes, and zeros up to the
/// next multiple of 8.
pub open spec fn blob(bytes: Seq<u8>) -> Seq<u8> {
    u64_le(bytes.len() as u64) + bytes + zeros(padded(bytes.len() as int) - bytes.len())
}

/// A field that holds the string `s`.
pub open spec fn word(s: Seq<char>) -> Seq<u8> {
    blob(encode_utf8(s))
}

/// The archive form of a node.
pub open spec fn encode_node(node: Node) -> Seq<u8>
    decreases node,
{
    word("("@) + word("type"@) + match node {
        Node::Regular { executable, data } => word("regular"@) + (if executable {
            word("executable"@) + word(""@)
        } else {
            Seq::<u8>::empty()
        }) + word("contents"@) + blob(data),
        Node::Symlink { target } => word("symlink"@) + word("target"@) + word(target),
        Node::Directory { children } => word("directory"@) + encode_children(children),
    } + word(")"@)
}

/// The archive form of the children of a directory.
pub open spec fn encode_children(children: Seq<(Seq<char>, Node)>) -> Seq<u8>
    decreases children,
{
    if children.len() == 0 {
        Seq::<u8>::empty()
    } else {
        encode_child(children[0].0, encode_node(children[0].1)) + encode_children(
            children.drop_first(),
        )
    }
}

/// The archive form of one child of a directory, given that of its node.
pub open spec fn encode_child(name: Seq<char>, node: Seq<u8>) -> Seq<u8> {
    word("entry"@) + word("("@) + word("name"@) + word(name) + word("node"@) + node + word(")"@)
}

/// The archive of the tree `root`.
pub open spec fn encode_archive(root: Node) -> Seq<u8> {
    word("nix-archive-1"@) + encode_node(root)
}

/// The entry of the node itself, reached by `path`.
pub open spec fn entry_of(node: Node, path: Seq<Seq<char>>) -> EntryView {
    EntryView {
        path,
        contents: match node {
            Node::Regular { executable, data } => ContentsView::Regular {
                executable,
                size: data.len() as u64,
                data,
            },
            Node::Symlink { target } => ContentsView::Symlink { target },
            Node::Directory { children } => ContentsView::Directory,
        },
    }
}

/// The entries of a tree in pre-order: a node before what lies below it, and
/// the children of a directory in their order.
pub open spec fn preorder(node: Node, path: Seq<Seq<char>>) -> Seq<EntryView>
    decreases node,
{
    match node {
        Node::Directory { children } => seq![entry_of(node, path)] + preorder_children(
            children,
            path,
        ),
        _ => seq![entry_of(node, path)],
    }
}

/// The entries of the children of the directory at `path`, and of all that
/// lies below them.
pub open spec fn preorder_children(children: Seq<(Seq<char>, Node)>, path: Seq<Seq<char>>) -> Seq<
    EntryView,
>
    decreases children,
{
    if children.len() == 0 {
        Seq::<EntryView>::empty()
    } else {
        preorder(children[0].1, path.push(children[0].0)) + preorder_children(
            children.drop_first(),
            path,
        )
    }
}

/// Whether a string fits a field of the archive.
pub open spec fn fits(s: Seq<char>) -> bool {
    encode_utf8(s).len() < MAX_STRING
}

/// Whether a tree can be written as an archive: names and link targets fit
/// their fields, and the size of a file fits 64 bits.
pub open spec fn encodable(node: Node) -> bool
    decreases node,
{
    match node {
        Node::Regular { executable, data } => data.len() <= u64::MAX,
        Node::Symlink { target } => fits(target),
        Node::Directory { children } => encodable_children(children),
    }
}

/// Whether the children of a directory can be written.
pub open spec fn encodable_children(children: Seq<(Seq<char>, Node)>) -> bool
    decreases children,
{
    children.len() > 0 ==> {
        &&& fits(children[0].0)
        &&& encodable(children[0].1)
        &&& encodable_children(children.drop_first())
    }
}

} // verus!
