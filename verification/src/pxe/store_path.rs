//! Paths into the package store: `/nix/store/<hash>-<name>[/<rest>]`.

use vstd::prelude::*;
use crate::text::{chars_of, has_at, holds_at, string_of};

verus! {

/// Why a path does not name a file of an artifact in the store.
#[derive(Clone, Copy, Debug, PartialEq, Eq, Structural)]
pub enum StorePathError {
    /// The path does not lie under `/nix/store`.
    NotStorePath,
    /// Nothing follows `/nix/store`.
    BadPath,
    /// What follows `/nix/store` is not `<hash>-<name>`.
    BadSymlink,
}

/// The characters of a content hash: digits and lower-case letters.
pub open spec fn is_hash_char(c: char) -> bool {
    ('0' <= c && c <= '9') || ('a' <= c && c <= 'z')
}

/// The characters of the free-form part of an artifact's name.
pub open spec fn is_name_char(c: char) -> bool {
    c == '-' || c == '.' || c == '+' || c == '_' || c == '?' || c == '=' || ('0' <= c && c <= '9')
        || ('a' <= c && c <= 'z') || ('A' <= c && c <= 'Z')
}

/// A content hash: 32 digits and lower-case letters.
pub open spec fn is_content_hash(s: Seq<char>) -> bool {
    s.len() == 32 && forall|i: int| 0 <= i < 32 ==> is_hash_char(#[trigger] s[i])
}

/// The name of an artifact in the store: its hash, `-`, and one or more
/// characters of free-form name.
pub open spec fn is_store_name(s: Seq<char>) -> bool {
    &&& s.len() >= 34
    &&& is_content_hash(s.subrange(0, 32))
    &&& s[32] == '-'
    &&& forall|i: int| 33 <= i < s.len() ==> is_name_char(#[trigger] s[i])
}

/// The first position at or behind `from` that holds `/`, or the length of
/// `s` when there is none.
pub open spec fn first_slash(s: Seq<char>, from: int) -> int
    decreases s.len() - from,
{
    if from >= s.len() {
        s.len() as int
    } else if s[from] == '/' {
        from
    } else {
        first_slash(s, from + 1)
    }
}

/// The first position at or behind `from` that does not hold `/`, or the
/// length of `s` when there is none.
pub open spec fn skip_slashes(s: Seq<char>, from: int) -> int
    decreases s.len() - from,
{
    if from >= s.len() {
        s.len() as int
    } else if s[from] != '/' {
        from
    } else {
        skip_slashes(s, from + 1)
    }
}

/// The store's root directory.
pub open spec fn store_root() -> Seq<char> {
    "/nix/store"@
}

/// The artifact that `target` lies in and the path inside it: the hash of the
/// first component under `/nix/store`, and everything behind that component.
pub open spec fn spec_parse_store_path(target: Seq<char>) -> Result<
    (Seq<char>, Seq<char>),
    StorePathError,
> {
    let root = store_root();
    if !holds_at(target, 0, root) || (target.len() > root.len() && target[root.len() as int]
        != '/') {
        Err(StorePathError::NotStorePath)
    } else {
        let start = skip_slashes(target, root.len() as int);
        let end = first_slash(target, start);
        let name = target.subrange(start, end);
        if name.len() == 0 {
            Err(StorePathError::BadPath)
        } else if !is_store_name(name) {
            Err(StorePathError::BadSymlink)
        } else {
            let rest = target.subrange(skip_slashes(target, end), target.len() as int);
            Ok((name.subrange(0, 32), rest))
        }
    }
}

pub proof fn lemma_skip_slashes(s: Seq<char>, from: int)
    requires
        0 <= from <= s.len(),
    ensures
        from <= skip_slashes(s, from) <= s.len(),
        skip_slashes(s, from) < s.len() ==> s[skip_slashes(s, from)] != '/',
        forall|i: int| from <= i < skip_slashes(s, from) ==> s[i] == '/',
    decreases s.len() - from,
{
    if from < s.len() && s[from] == '/' {
        lemma_skip_slashes(s, from + 1);
    }
}

/// The path of a file in an artifact leads back to the artifact and the
/// file: `/nix/store/`, the artifact's hash, `-`, its name, `/` and a path
/// that starts with no `/` is split into the hash and that path.
pub proof fn lemma_store_path_splits(hash: Seq<char>, name: Seq<char>, rest: Seq<char>)
    requires
        is_content_hash(hash),
        name.len() > 0,
        forall|i: int| 0 <= i < name.len() ==> is_name_char(#[trigger] name[i]),
        rest.len() > 0 ==> rest[0] != '/',
    ensures
        spec_parse_store_path(store_root() + seq!['/'] + hash + seq!['-'] + name + seq!['/'] + rest)
            == Ok::<_, StorePathError>((hash, rest)),
        spec_parse_store_path(store_root() + seq!['/'] + hash + seq!['-'] + name) == Ok::<
            _,
            StorePathError,
        >((hash, Seq::<char>::empty())),
{
    lemma_store_path_splits_at(hash, name, seq!['/'] + rest);
    assert(store_root() + seq!['/'] + hash + seq!['-'] + name + (seq!['/'] + rest)
        =~= store_root() + seq!['/'] + hash + seq!['-'] + name + seq!['/'] + rest);
    let tail = seq!['/'] + rest;
    lemma_skip_slashes(tail, 0);
    if rest.len() > 0 {
        assert(tail[1] == rest[0]);
        assert(skip_slashes(tail, 1) == 1);
    } else {
        assert(skip_slashes(tail, 1) == 1);
    }
    assert(skip_slashes(tail, 0) == 1);
    assert(tail.subrange(1, tail.len() as int) =~= rest);
    lemma_store_path_splits_at(hash, name, Seq::<char>::empty());
    assert(store_root() + seq!['/'] + hash + seq!['-'] + name + Seq::<char>::empty()
        =~= store_root() + seq!['/'] + hash + seq!['-'] + name);
    assert(Seq::<char>::empty().subrange(0, 0) =~= Seq::<char>::empty());
}

/// `skip_slashes` and `first_slash` look only at what lies behind `from`.
proof fn lemma_scan_suffix(head: Seq<char>, tail: Seq<char>, from: int)
    requires
        0 <= from <= tail.len(),
    ensures
        skip_slashes(head + tail, head.len() + from) == head.len() + skip_slashes(tail, from),
        first_slash(head + tail, head.len() + from) == head.len() + first_slash(tail, from),
    decreases tail.len() - from,
{
    let s = head + tail;
    if from < tail.len() {
        assert(s[head.len() + from] == tail[from]);
        lemma_scan_suffix(head, tail, from + 1);
    }
}

/// The store name at the front of a text ends where the first `/` stands.
proof fn lemma_name_ends(hash: Seq<char>, name: Seq<char>, tail: Seq<char>, from: int)
    requires
        is_content_hash(hash),
        forall|i: int| 0 <= i < name.len() ==> is_name_char(#[trigger] name[i]),
        tail.len() > 0 ==> tail[0] == '/',
        0 <= from <= 33 + name.len(),
    ensures
        first_slash(hash + seq!['-'] + name + tail, from) == 33 + name.len(),
    decreases 33 + name.len() - from,
{
    let s = hash + seq!['-'] + name + tail;
    if from < 33 + name.len() {
        if from < 32 {
            assert(s[from] == hash[from]);
            assert(is_hash_char(hash[from]));
        } else if from == 32 {
            assert(s[from] == '-');
        } else {
            assert(s[from] == name[from - 33]);
            assert(is_name_char(name[from - 33]));
        }
        lemma_name_ends(hash, name, tail, from + 1);
    } else if tail.len() > 0 {
        assert(s[from] == tail[0]);
    }
}

/// The parts of a store path, where `tail` is empty or starts with `/`.
proof fn lemma_store_path_splits_at(hash: Seq<char>, name: Seq<char>, tail: Seq<char>)
    requires
        is_content_hash(hash),
        name.len() > 0,
        forall|i: int| 0 <= i < name.len() ==> is_name_char(#[trigger] name[i]),
        tail.len() > 0 ==> tail[0] == '/',
    ensures
        spec_parse_store_path(store_root() + seq!['/'] + hash + seq!['-'] + name + tail) == Ok::<
            _,
            StorePathError,
        >((hash, tail.subrange(skip_slashes(tail, 0), tail.len() as int))),
{
    reveal_strlit("/nix/store");
    let root = store_root();
    let body = hash + seq!['-'] + name + tail;
    let head = root + seq!['/'];
    let target = root + seq!['/'] + hash + seq!['-'] + name + tail;
    assert(target =~= head + body);
    assert(root.len() == 10);
    assert(target.subrange(0, 10) =~= root);
    assert(target[10] == '/');
    assert(body[0] == hash[0]);
    assert(is_hash_char(hash[0]));
    assert(target[11] == body[0]);
    assert(skip_slashes(target, 11) == 11);
    assert(skip_slashes(target, 10) == 11);
    lemma_name_ends(hash, name, tail, 0);
    lemma_scan_suffix(head, body, 0);
    let end: int = 44 + name.len() as int;
    assert(first_slash(target, 11) == end);
    let store_name = target.subrange(11, end);
    assert(store_name =~= hash + seq!['-'] + name);
    assert(store_name.subrange(0, 32) =~= hash);
    assert(store_name[32] == '-');
    assert forall|i: int| 33 <= i < store_name.len() implies is_name_char(
        #[trigger] store_name[i],
    ) by {
        assert(store_name[i] == name[i - 33]);
    }
    assert(is_store_name(store_name));
    let front = head + hash + seq!['-'] + name;
    assert(target =~= front + tail);
    lemma_scan_suffix(front, tail, 0);
    lemma_skip_slashes(tail, 0);
    assert(target.subrange(skip_slashes(target, end), target.len() as int) =~= tail.subrange(
        skip_slashes(tail, 0),
        tail.len() as int,
    ));
}

fn hash_char(c: char) -> (r: bool)
    ensures
        r == is_hash_char(c),
{
    ('0' <= c && c <= '9') || ('a' <= c && c <= 'z')
}

fn name_char(c: char) -> (r: bool)
    ensures
        r == is_name_char(c),
{
    c == '-' || c == '.' || c == '+' || c == '_' || c == '?' || c == '=' || ('0' <= c && c <= '9')
        || ('a' <= c && c <= 'z') || ('A' <= c && c <= 'Z')
}

/// Whether `hash` is a content hash.
pub fn check_content_hash(hash: &str) -> (r: bool)
    ensures
        r == is_content_hash(hash@),
{
    let chars = chars_of(hash);
    if chars.len() != 32 {
        return false;
    }
    let mut i: usize = 0;
    while i < 32
        invariant
            i <= 32,
            chars@.len() == 32,
            chars@ == hash@,
            forall|j: int| 0 <= j < i ==> is_hash_char(#[trigger] chars@[j]),
        decreases 32 - i,
    {
        if !hash_char(chars[i]) {
            assert(!is_hash_char(hash@[i as int]));
            return false;
        }
        i = i + 1;
    }
    true
}

/// Whether `text[from..to]` is the name of an artifact.
fn store_name_at(text: &Vec<char>, from: usize, to: usize) -> (r: bool)
    requires
        from <= to <= text@.len(),
    ensures
        r == is_store_name(text@.subrange(from as int, to as int)),
{
    let ghost name = text@.subrange(from as int, to as int);
    if to - from < 34 {
        return false;
    }
    let mut i: usize = 0;
    while i < 32
        invariant
            i <= 32,
            from + 34 <= to <= text@.len(),
            name == text@.subrange(from as int, to as int),
            forall|j: int| 0 <= j < i ==> is_hash_char(#[trigger] name.subrange(0, 32)[j]),
        decreases 32 - i,
    {
        if !hash_char(text[from + i]) {
            assert(!is_hash_char(name.subrange(0, 32)[i as int]));
            return false;
        }
        i = i + 1;
    }
    if text[from + 32] != '-' {
        return false;
    }
    let mut k: usize = from + 33;
    while k < to
        invariant
            from + 33 <= k <= to <= text@.len(),
            name == text@.subrange(from as int, to as int),
            forall|j: int| 33 <= j < k - from ==> is_name_char(#[trigger] name[j]),
        decreases to - k,
    {
        if !name_char(text[k]) {
            assert(!is_name_char(name[k - from]));
            return false;
        }
        k = k + 1;
    }
    true
}

/// Splits the target of a symlink into the artifact it lies in and the path
/// inside that artifact.
pub fn parse_store_path(path: &str) -> (r: Result<(String, String), StorePathError>)
    ensures
        match r {
            Ok((hash, rest)) => spec_parse_store_path(path@) == Ok::<_, StorePathError>(
                (hash@, rest@),
            ),
            Err(e) => spec_parse_store_path(path@) == Err::<(Seq<char>, Seq<char>), _>(e),
        },
{
    let text = chars_of(path);
    let root = chars_of("/nix/store");
    if !has_at(&text, 0, &root) {
        return Err(StorePathError::NotStorePath);
    }
    if text.len() > root.len() && text[root.len()] != '/' {
        return Err(StorePathError::NotStorePath);
    }
    let mut start: usize = root.len();
    while start < text.len() && text[start] == '/'
        invariant
            root@.len() <= start <= text@.len(),
            skip_slashes(text@, start as int) == skip_slashes(text@, root@.len() as int),
        decreases text.len() - start,
    {
        start = start + 1;
    }
    let mut end: usize = start;
    while end < text.len() && text[end] != '/'
        invariant
            start <= end <= text@.len(),
            first_slash(text@, end as int) == first_slash(text@, start as int),
        decreases text.len() - end,
    {
        end = end + 1;
    }
    if end == start {
        return Err(StorePathError::BadPath);
    }
    if !store_name_at(&text, start, end) {
        return Err(StorePathError::BadSymlink);
    }
    let mut rest: usize = end;
    while rest < text.len() && text[rest] == '/'
        invariant
            end <= rest <= text@.len(),
            skip_slashes(text@, rest as int) == skip_slashes(text@, end as int),
        decreases text.len() - rest,
    {
        rest = rest + 1;
    }
    let hash = string_of(&text, start, start + 32);
    let tail = string_of(&text, rest, text.len());
    assert(text@.subrange(start as int, end as int).subrange(0, 32) =~= text@.subrange(
        start as int,
        start + 32,
    ));
    Ok((hash, tail))
}

} // verus!
