//! What holds of the paths of a tree's entries: they are the paths that lead
//! somewhere in the tree, each of them once.

use vstd::prelude::*;
use crate::nar::format::{archive_trace, EntryView};
use crate::nar::laws::lemma_round_trip;
use crate::nar::tree::{
    encodable, encode_archive, entry_of, preorder, preorder_children, Node,
};

verus! {

/// Whether `path` leads from `node` to a node of the tree: the empty path to
/// the node itself, and a longer one through the child of a directory that
/// has the path's first name.
pub open spec fn reachable(node: Node, path: Seq<Seq<char>>) -> bool
    decreases path.len(),
{
    if path.len() == 0 {
        true
    } else {
        match node {
            Node::Directory { children } => exists|k: int|
                0 <= k < children.len() && (#[trigger] children[k]).0 == path[0] && reachable(
                    children[k].1,
                    path.drop_first(),
                ),
            _ => false,
        }
    }
}

/// Whether no directory of the tree has two children of one name.
pub open spec fn unique_names(node: Node) -> bool
    decreases node,
{
    match node {
        Node::Directory { children } => unique_children(children),
        _ => true,
    }
}

/// Whether the children have different names, and so on below them.
pub open spec fn unique_children(children: Seq<(Seq<char>, Node)>) -> bool
    decreases children,
{
    children.len() > 0 ==> {
        &&& forall|j: int| 1 <= j < children.len() ==> (#[trigger] children[j]).0 != children[0].0
        &&& unique_names(children[0].1)
        &&& unique_children(children.drop_first())
    }
}

/// The paths of `entries`, in order.
pub open spec fn entry_paths(entries: Seq<EntryView>) -> Seq<Seq<Seq<char>>> {
    entries.map_values(|e: EntryView| e.path)
}

/// Whether `path` begins with the names of `prefix`.
pub open spec fn begins_with(path: Seq<Seq<char>>, prefix: Seq<Seq<char>>) -> bool {
    prefix.len() <= path.len() && path.take(prefix.len() as int) == prefix
}

proof fn lemma_paths_concat(a: Seq<EntryView>, b: Seq<EntryView>)
    ensures
        entry_paths(a + b) == entry_paths(a) + entry_paths(b),
{
    assert(entry_paths(a + b) =~= entry_paths(a) + entry_paths(b));
}

/// What holds of the paths of a tree's entries when the tree hangs at
/// `prefix`.
pub open spec fn node_paths_ok(node: Node, prefix: Seq<Seq<char>>) -> bool {
    let ps = entry_paths(preorder(node, prefix));
    &&& ps.len() >= 1
    &&& ps[0] == prefix
    &&& forall|i: int|
        0 <= i < ps.len() ==> begins_with(#[trigger] ps[i], prefix) && reachable(
            node,
            ps[i].skip(prefix.len() as int),
        )
    &&& forall|i: int| 1 <= i < ps.len() ==> (#[trigger] ps[i]).len() > prefix.len()
}

/// What holds of the paths of the entries below a directory at `prefix`.
pub open spec fn children_paths_ok(
    children: Seq<(Seq<char>, Node)>,
    prefix: Seq<Seq<char>>,
) -> bool {
    let ps = entry_paths(preorder_children(children, prefix));
    forall|i: int|
        0 <= i < ps.len() ==> (#[trigger] ps[i]).len() > prefix.len() && begins_with(ps[i], prefix)
            && exists|k: int|
            0 <= k < children.len() && (#[trigger] children[k]).0 == ps[i][prefix.len() as int]
                && reachable(children[k].1, ps[i].skip(prefix.len() as int + 1))
}

/// Every entry's path leads to a node of the tree.
pub proof fn lemma_node_paths(node: Node, prefix: Seq<Seq<char>>)
    ensures
        node_paths_ok(node, prefix),
    decreases node,
{
    let ps = entry_paths(preorder(node, prefix));
    assert(prefix.take(prefix.len() as int) =~= prefix);
    assert(prefix.skip(prefix.len() as int) =~= Seq::<Seq<char>>::empty());
    match node {
        Node::Directory { children } => {
            lemma_children_paths(children, prefix);
            let own = seq![entry_of(node, prefix)];
            let below = preorder_children(children, prefix);
            lemma_paths_concat(own, below);
            let qs = entry_paths(below);
            assert(entry_paths(own) =~= seq![prefix]);
            assert(ps =~= seq![prefix] + qs);
            assert forall|i: int| 0 <= i < ps.len() implies begins_with(#[trigger] ps[i], prefix)
                && reachable(node, ps[i].skip(prefix.len() as int)) by {
                if i > 0 {
                    let p = qs[i - 1];
                    assert(ps[i] == p);
                    let k = choose|k: int|
                        0 <= k < children.len() && (#[trigger] children[k]).0
                            == p[prefix.len() as int]
                            && reachable(children[k].1, p.skip(prefix.len() as int + 1));
                    let rel = p.skip(prefix.len() as int);
                    assert(rel[0] == p[prefix.len() as int]);
                    assert(rel.drop_first() =~= p.skip(prefix.len() as int + 1));
                }
            }
            assert forall|i: int| 1 <= i < ps.len() implies (#[trigger] ps[i]).len()
                > prefix.len() by {
                assert(ps[i] == qs[i - 1]);
            }
        },
        _ => {
            assert(ps =~= seq![prefix]);
        },
    }
}

/// Every path of an entry below a directory leads through one of the
/// directory's children.
pub proof fn lemma_children_paths(children: Seq<(Seq<char>, Node)>, prefix: Seq<Seq<char>>)
    ensures
        children_paths_ok(children, prefix),
    decreases children,
{
    let ps = entry_paths(preorder_children(children, prefix));
    if children.len() > 0 {
        let name = children[0].0;
        let inner = prefix.push(name);
        let rest = children.drop_first();
        lemma_node_paths(children[0].1, inner);
        lemma_children_paths(rest, prefix);
        let first = preorder(children[0].1, inner);
        let later = preorder_children(rest, prefix);
        lemma_paths_concat(first, later);
        let fs = entry_paths(first);
        let ls = entry_paths(later);
        assert(ps =~= fs + ls);
        assert forall|i: int| 0 <= i < ps.len() implies (#[trigger] ps[i]).len() > prefix.len()
            && begins_with(ps[i], prefix) && exists|k: int|
            0 <= k < children.len() && (#[trigger] children[k]).0 == ps[i][prefix.len() as int]
                && reachable(children[k].1, ps[i].skip(prefix.len() as int + 1)) by {
            if i < fs.len() {
                let p = fs[i];
                assert(ps[i] == p);
                assert(begins_with(p, inner));
                assert(p.take(inner.len() as int)[prefix.len() as int] == name);
                assert(p.take(prefix.len() as int) =~= p.take(inner.len() as int).take(
                    prefix.len() as int,
                ));
                assert(inner.take(prefix.len() as int) =~= prefix);
                assert(p.skip(inner.len() as int) =~= p.skip(prefix.len() as int + 1));
                assert(children[0].0 == p[prefix.len() as int]);
            } else {
                let p = ls[i - fs.len()];
                assert(ps[i] == p);
                let k = choose|k: int|
                    0 <= k < rest.len() && (#[trigger] rest[k]).0 == p[prefix.len() as int]
                        && reachable(rest[k].1, p.skip(prefix.len() as int + 1));
                assert(rest[k] == children[k + 1]);
                assert(children[k + 1].0 == p[prefix.len() as int]);
            }
        }
    }
}

/// Every path that leads to a node of the tree is the path of an entry.
pub proof fn lemma_node_complete(node: Node, prefix: Seq<Seq<char>>, rel: Seq<Seq<char>>)
    requires
        reachable(node, rel),
    ensures
        entry_paths(preorder(node, prefix)).contains(prefix + rel),
    decreases node,
{
    let ps = entry_paths(preorder(node, prefix));
    lemma_node_paths(node, prefix);
    if rel.len() == 0 {
        assert(prefix + rel =~= prefix);
        assert(ps[0] == prefix + rel);
    } else {
        match node {
            Node::Directory { children } => {
                let k = choose|k: int|
                    0 <= k < children.len() && (#[trigger] children[k]).0 == rel[0] && reachable(
                        children[k].1,
                        rel.drop_first(),
                    );
                lemma_children_complete(children, prefix, k, rel.drop_first());
                let own = seq![entry_of(node, prefix)];
                let below = preorder_children(children, prefix);
                lemma_paths_concat(own, below);
                let qs = entry_paths(below);
                assert(prefix.push(rel[0]) + rel.drop_first() =~= prefix + rel);
                let i = choose|i: int| 0 <= i < qs.len() && qs[i] == prefix + rel;
                assert(ps =~= entry_paths(own) + qs);
                assert(ps[i + 1] == prefix + rel);
            },
            _ => {},
        }
    }
}

/// Every path that leads through a child of a directory is the path of an
/// entry below that directory.
pub proof fn lemma_children_complete(
    children: Seq<(Seq<char>, Node)>,
    prefix: Seq<Seq<char>>,
    k: int,
    rel: Seq<Seq<char>>,
)
    requires
        0 <= k < children.len(),
        reachable(children[k].1, rel),
    ensures
        entry_paths(preorder_children(children, prefix)).contains(
            prefix.push(children[k].0) + rel,
        ),
    decreases children,
{
    let ps = entry_paths(preorder_children(children, prefix));
    let inner = prefix.push(children[0].0);
    let rest = children.drop_first();
    let first = preorder(children[0].1, inner);
    let later = preorder_children(rest, prefix);
    lemma_paths_concat(first, later);
    let fs = entry_paths(first);
    let ls = entry_paths(later);
    assert(ps =~= fs + ls);
    let wanted = prefix.push(children[k].0) + rel;
    if k == 0 {
        lemma_node_complete(children[0].1, inner, rel);
        let i = choose|i: int| 0 <= i < fs.len() && fs[i] == wanted;
        assert(ps[i] == wanted);
    } else {
        assert(rest[k - 1] == children[k]);
        lemma_children_complete(rest, prefix, k - 1, rel);
        let i = choose|i: int| 0 <= i < ls.len() && ls[i] == wanted;
        assert(ps[fs.len() + i] == wanted);
    }
}

/// In a tree whose directories have no two children of one name, no two
/// entries have the same path.
pub proof fn lemma_node_unique(node: Node, prefix: Seq<Seq<char>>)
    requires
        unique_names(node),
    ensures
        entry_paths(preorder(node, prefix)).no_duplicates(),
    decreases node,
{
    let ps = entry_paths(preorder(node, prefix));
    match node {
        Node::Directory { children } => {
            lemma_children_unique(children, prefix);
            lemma_children_paths(children, prefix);
            let own = seq![entry_of(node, prefix)];
            let below = preorder_children(children, prefix);
            lemma_paths_concat(own, below);
            let qs = entry_paths(below);
            assert(ps =~= seq![prefix] + qs);
            assert forall|i: int, j: int|
                0 <= i < ps.len() && 0 <= j < ps.len() && i != j implies ps[i] != ps[j] by {
                if i > 0 {
                    assert(ps[i] == qs[i - 1]);
                    assert(qs[i - 1].len() > prefix.len());
                }
                if j > 0 {
                    assert(ps[j] == qs[j - 1]);
                    assert(qs[j - 1].len() > prefix.len());
                }
            }
        },
        _ => {
            assert(ps =~= seq![prefix]);
        },
    }
}

/// Below a directory whose children have different names, no two entries
/// have the same path.
pub proof fn lemma_children_unique(children: Seq<(Seq<char>, Node)>, prefix: Seq<Seq<char>>)
    requires
        unique_children(children),
    ensures
        entry_paths(preorder_children(children, prefix)).no_duplicates(),
    decreases children,
{
    let ps = entry_paths(preorder_children(children, prefix));
    if children.len() > 0 {
        let name = children[0].0;
        let inner = prefix.push(name);
        let rest = children.drop_first();
        lemma_node_unique(children[0].1, inner);
        lemma_children_unique(rest, prefix);
        lemma_node_paths(children[0].1, inner);
        lemma_children_paths(rest, prefix);
        let first = preorder(children[0].1, inner);
        let later = preorder_children(rest, prefix);
        lemma_paths_concat(first, later);
        let fs = entry_paths(first);
        let ls = entry_paths(later);
        assert(ps =~= fs + ls);
        assert forall|i: int, j: int|
            0 <= i < fs.len() && 0 <= j < ls.len() implies fs[i] != ls[j] by {
            let f = fs[i];
            let l = ls[j];
            assert(begins_with(f, inner));
            assert(f.take(inner.len() as int)[prefix.len() as int] == name);
            let k = choose|k: int|
                0 <= k < rest.len() && (#[trigger] rest[k]).0 == l[prefix.len() as int]
                    && reachable(rest[k].1, l.skip(prefix.len() as int + 1));
            assert(rest[k] == children[k + 1]);
            assert(children[k + 1].0 != children[0].0);
        }
        assert forall|i: int, j: int|
            0 <= i < ps.len() && 0 <= j < ps.len() && i != j implies ps[i] != ps[j] by {
            if i < fs.len() && j < fs.len() {
                assert(ps[i] == fs[i] && ps[j] == fs[j]);
            } else if i >= fs.len() && j >= fs.len() {
                assert(ps[i] == ls[i - fs.len()] && ps[j] == ls[j - fs.len()]);
            } else if i < fs.len() {
                assert(ps[i] == fs[i] && ps[j] == ls[j - fs.len()]);
            } else {
                assert(ps[j] == fs[j] && ps[i] == ls[i - fs.len()]);
            }
        }
    } else {
        assert(ps =~= Seq::<Seq<Seq<char>>>::empty());
    }
}

/// The paths of the entries that an archive yields are the paths of its
/// tree.  Let the archive be that of a tree which can be written and in
/// which no directory has two children of one name.  Then the first entry is
/// the root, with the empty path; the paths of the others are not empty; a
/// path is the path of an entry if and only if it leads to a node of the
/// tree; and no two entries have the same path.
pub proof fn lemma_archive_paths(root: Node)
    requires
        encodable(root),
        unique_names(root),
    ensures
        archive_trace(encode_archive(root)).end is Ok,
        ({
            let paths = entry_paths(archive_trace(encode_archive(root)).entries);
            &&& paths.len() >= 1
            &&& paths[0].len() == 0
            &&& forall|i: int| 1 <= i < paths.len() ==> (#[trigger] paths[i]).len() > 0
            &&& forall|p: Seq<Seq<char>>| paths.contains(p) <==> reachable(root, p)
            &&& paths.no_duplicates()
        }),
{
    let none = Seq::<Seq<char>>::empty();
    lemma_round_trip(root);
    lemma_node_paths(root, none);
    lemma_node_unique(root, none);
    let paths = entry_paths(preorder(root, none));
    assert forall|p: Seq<Seq<char>>| paths.contains(p) <==> reachable(root, p) by {
        if paths.contains(p) {
            let i = choose|i: int| 0 <= i < paths.len() && paths[i] == p;
            assert(paths[i].skip(0) =~= paths[i]);
        }
        if reachable(root, p) {
            lemma_node_complete(root, none, p);
            assert(none + p =~= p);
        }
    }
}

} // verus!
