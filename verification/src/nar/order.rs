//! What holds of the order of entries: a directory comes before everything
//! in it, whatever the bytes that are decoded.

use vstd::prelude::*;
use crate::nar::format::{
    archive_trace, dir_trace, lemma_entry_header_advances, lemma_read_str_advances, node_trace,
    regular_trace, spec_entry_header, spec_expect, spec_read_str, symlink_trace, ContentsView,
    EntryView,
};
use crate::nar::paths::begins_with;

verus! {

/// Whether the directory that holds entry `i` has its own entry before it.
pub open spec fn parent_first(entries: Seq<EntryView>, i: int) -> bool {
    exists|j: int|
        0 <= j < i && (#[trigger] entries[j]).path == entries[i].path.drop_last()
            && entries[j].contents is Directory
}

/// Whether `entries` can be what a node at `path` yields: first the node
/// itself, then entries below it, each behind the directory that holds it.
pub open spec fn ordered_node(entries: Seq<EntryView>, path: Seq<Seq<char>>) -> bool {
    &&& entries.len() > 0 ==> entries[0].path == path
    &&& forall|i: int|
        1 <= i < entries.len() ==> (#[trigger] entries[i]).path.len() > path.len() && begins_with(
            entries[i].path,
            path,
        ) && parent_first(entries, i)
}

/// Whether `entries` can be what the inside of the directory at `path`
/// yields: entries below it, each behind the directory that holds it unless
/// that is the directory at `path` itself.
pub open spec fn ordered_below(entries: Seq<EntryView>, path: Seq<Seq<char>>) -> bool {
    forall|i: int|
        0 <= i < entries.len() ==> (#[trigger] entries[i]).path.len() > path.len() && begins_with(
            entries[i].path,
            path,
        ) && (entries[i].path.len() == path.len() + 1 || parent_first(entries, i))
}

/// A directory's entry in front of what its inside yields.
proof fn lemma_order_directory(own: EntryView, below: Seq<EntryView>, path: Seq<Seq<char>>)
    requires
        own.path == path,
        own.contents is Directory,
        ordered_below(below, path),
    ensures
        ordered_node(seq![own] + below, path),
{
    let all = seq![own] + below;
    assert forall|i: int| 1 <= i < all.len() implies (#[trigger] all[i]).path.len() > path.len()
        && begins_with(all[i].path, path) && parent_first(all, i) by {
        let e = below[i - 1];
        assert(all[i] == e);
        if e.path.len() == path.len() + 1 {
            assert(e.path.drop_last() =~= e.path.take(path.len() as int));
            assert(all[0] == own);
        } else {
            let j = choose|j: int|
                0 <= j < i - 1 && (#[trigger] below[j]).path == e.path.drop_last()
                    && below[j].contents is Directory;
            assert(all[j + 1] == below[j]);
        }
    }
}

/// What a child yields in front of what its later siblings yield.
proof fn lemma_order_children(
    child: Seq<EntryView>,
    later: Seq<EntryView>,
    path: Seq<Seq<char>>,
    name: Seq<char>,
)
    requires
        ordered_node(child, path.push(name)),
        ordered_below(later, path),
    ensures
        ordered_below(child + later, path),
{
    let all = child + later;
    let inner = path.push(name);
    assert(inner.take(path.len() as int) =~= path);
    assert forall|i: int| 0 <= i < all.len() implies (#[trigger] all[i]).path.len() > path.len()
        && begins_with(all[i].path, path) && (all[i].path.len() == path.len() + 1 || parent_first(
        all,
        i,
    )) by {
        if i < child.len() {
            let e = child[i];
            assert(all[i] == e);
            if i == 0 {
                assert(e.path == inner);
            } else {
                assert(begins_with(e.path, inner));
                assert(e.path.take(path.len() as int) =~= e.path.take(inner.len() as int).take(
                    path.len() as int,
                ));
                let j = choose|j: int|
                    0 <= j < i && (#[trigger] child[j]).path == e.path.drop_last()
                        && child[j].contents is Directory;
                assert(all[j] == child[j]);
            }
        } else {
            let e = later[i - child.len()];
            assert(all[i] == e);
            if e.path.len() != path.len() + 1 {
                let j = choose|j: int|
                    0 <= j < i - child.len() && (#[trigger] later[j]).path == e.path.drop_last()
                        && later[j].contents is Directory;
                assert(all[j + child.len()] == later[j]);
            }
        }
    }
}

/// Whatever bytes a node is read from, its entries come in order.
pub proof fn lemma_node_ordered(data: Seq<u8>, pos: int, path: Seq<Seq<char>>)
    ensures
        ordered_node(node_trace(data, pos, path).entries, path),
    decreases data.len() - pos, 1int,
{
    lemma_read_str_advances(data, pos);
    if let Ok(pos1) = spec_expect(data, pos, "("@) {
        lemma_read_str_advances(data, pos1);
        if let Ok(pos2) = spec_expect(data, pos1, "type"@) {
            lemma_read_str_advances(data, pos2);
            if let Ok((kind, pos3)) = spec_read_str(data, pos2) {
                if kind == "regular"@ {
                    let t = regular_trace(data, pos3, path);
                    assert(t.entries.len() <= 1);
                } else if kind == "directory"@ {
                    lemma_dir_ordered(data, pos3, path);
                    let own = EntryView { path, contents: ContentsView::Directory };
                    lemma_order_directory(own, dir_trace(data, pos3, path).entries, path);
                } else if kind == "symlink"@ {
                    let t = symlink_trace(data, pos3, path);
                    assert(t.entries.len() <= 1);
                }
            }
        }
    }
}

/// Whatever bytes the inside of a directory is read from, its entries come
/// in order.
pub proof fn lemma_dir_ordered(data: Seq<u8>, pos: int, path: Seq<Seq<char>>)
    ensures
        ordered_below(dir_trace(data, pos, path).entries, path),
    decreases data.len() - pos, 0int,
{
    lemma_read_str_advances(data, pos);
    if let Ok((s, pos1)) = spec_read_str(data, pos) {
        if s == "entry"@ {
            lemma_entry_header_advances(data, pos1);
            if let Ok((name, pos2)) = spec_entry_header(data, pos1) {
                let child = node_trace(data, pos2, path.push(name));
                lemma_node_ordered(data, pos2, path.push(name));
                let none = Seq::<EntryView>::empty();
                assert(ordered_below(none, path));
                lemma_order_children(child.entries, none, path, name);
                assert(child.entries + none =~= child.entries);
                if let Ok(pos3) = child.end {
                    lemma_read_str_advances(data, pos3);
                    if let Ok(pos4) = spec_expect(data, pos3, ")"@) {
                        if pos4 > pos {
                            lemma_dir_ordered(data, pos4, path);
                            lemma_order_children(
                                child.entries,
                                dir_trace(data, pos4, path).entries,
                                path,
                                name,
                            );
                        }
                    }
                }
            }
        }
    }
}

/// Parents come first.  Whatever the bytes, what they decode to begins with
/// the root, and every later entry comes behind the entry of the directory
/// that holds it: who writes the entries out in their order never lacks the
/// directory to write into.
pub proof fn lemma_parents_first(data: Seq<u8>)
    ensures
        ({
            let entries = archive_trace(data).entries;
            &&& entries.len() > 0 ==> entries[0].path.len() == 0
            &&& forall|i: int|
                1 <= i < entries.len() ==> (#[trigger] entries[i]).path.len() > 0 && parent_first(
                    entries,
                    i,
                )
        }),
{
    if let Ok(p) = spec_expect(data, 0, "nix-archive-1"@) {
        lemma_node_ordered(data, p, Seq::empty());
    }
}

} // verus!
