//! The streaming decoder: one entry per call, in pre-order, with the path
//! that leads to it.

use vstd::prelude::*;
use vstd::string::StringExecFns;
use crate::nar::format::{
    after, archive_trace, dir_trace, failed, finished, lemma_entry_header_advances,
    lemma_node_trace_advances, lemma_padded, lemma_read_str_advances, node_trace, regular_close,
    regular_trace, spec_entry_header, spec_expect, spec_read_str, spec_regular_header,
    symlink_trace, ContentsView, EntryView, NarError, Trace, MAX_STRING,
};
use crate::nar::teller::Teller;
use crate::text::string_from_utf8;

verus! {

/// The names in `path`, as character sequences.
pub open spec fn names(path: Seq<String>) -> Seq<Seq<char>> {
    path.map_values(|s: String| s@)
}

/// What an entry holds.
#[derive(Debug)]
pub enum Contents {
    /// A regular file: its executable bit, the size of its payload and the
    /// payload itself.
    Regular { executable: bool, size: u64, data: Vec<u8> },
    /// A symbolic link and the literal text it points to.
    Symlink { target: String },
    /// A directory; its children are the entries that follow.
    Directory,
}

impl View for Contents {
    type V = ContentsView;

    open spec fn view(&self) -> ContentsView {
        match self {
            Contents::Regular { executable, size, data } => ContentsView::Regular {
                executable: *executable,
                size: *size,
                data: data@,
            },
            Contents::Symlink { target } => ContentsView::Symlink { target: target@ },
            Contents::Directory => ContentsView::Directory,
        }
    }
}

/// One node of the decoded tree.
#[derive(Debug)]
pub struct Entry {
    /// The names from the root down to this node; empty for the root.
    pub path: Vec<String>,
    pub contents: Contents,
}

impl View for Entry {
    type V = EntryView;

    open spec fn view(&self) -> EntryView {
        EntryView { path: names(self.path@), contents: self.contents@ }
    }
}

/// The names of `path` written as one relative path, with `/` between them.
pub open spec fn joined(path: Seq<Seq<char>>) -> Seq<char>
    decreases path.len(),
{
    if path.len() == 0 {
        Seq::empty()
    } else if path.len() == 1 {
        path[0]
    } else {
        joined(path.drop_last()) + "/"@ + path.last()
    }
}

impl Entry {
    /// The entry's path relative to the root of the archive, with `/` between
    /// the names; `None` for the root itself.
    pub fn path_string(&self) -> (r: Option<String>)
        ensures
            match r {
                Some(s) => self@.path.len() > 0 && s@ == joined(self@.path),
                None => self@.path.len() == 0,
            },
    {
        if self.path.len() == 0 {
            return None;
        }
        let mut out = self.path[0].clone();
        let mut i: usize = 1;
        assert(self@.path.take(1) =~= seq![self@.path[0]]);
        while i < self.path.len()
            invariant
                1 <= i <= self.path.len(),
                out@ == joined(self@.path.take(i as int)),
            decreases self.path.len() - i,
        {
            out.append("/");
            out.append(self.path[i].as_str());
            proof {
                let next = self@.path.take(i + 1);
                assert(next.drop_last() =~= self@.path.take(i as int));
                assert(next.last() == self.path@[i as int]@);
            }
            i = i + 1;
        }
        assert(self@.path.take(i as int) =~= self@.path);
        Some(out)
    }
}

/// The names of the directories that the decoder is inside of, outermost
/// first.
struct Context {
    names: Vec<String>,
}

impl View for Context {
    type V = Seq<Seq<char>>;

    closed spec fn view(&self) -> Seq<Seq<char>> {
        names(self.names@)
    }
}

impl Context {
    fn new() -> (c: Context)
        ensures
            c@ == Seq::<Seq<char>>::empty(),
    {
        let c = Context { names: Vec::new() };
        assert(c@ =~= Seq::<Seq<char>>::empty());
        c
    }

    fn push(&mut self, name: String)
        ensures
            final(self)@ == old(self)@.push(name@),
    {
        self.names.push(name);
        assert(self@ =~= old(self)@.push(name@));
    }

    /// Leaves the innermost directory.  Says whether there was one to leave.
    fn pop(&mut self) -> (popped: bool)
        ensures
            popped == (old(self)@.len() > 0),
            popped ==> final(self)@ == old(self)@.drop_last(),
            !popped ==> final(self)@ == old(self)@,
    {
        match self.names.pop() {
            Some(_) => {
                assert(self@ =~= old(self)@.drop_last());
                true
            },
            None => false,
        }
    }

    /// A copy of the names.
    fn path(&self) -> (path: Vec<String>)
        ensures
            names(path@) == self@,
    {
        let mut path: Vec<String> = Vec::new();
        let mut i: usize = 0;
        while i < self.names.len()
            invariant
                i <= self.names.len(),
                path@.len() == i,
                forall|j: int| 0 <= j < i ==> path@[j]@ == self.names@[j]@,
            decreases self.names.len() - i,
        {
            path.push(self.names[i].clone());
            i = i + 1;
        }
        assert(names(path@) =~= self@);
        path
    }
}

/// Where the decoder stands in the grammar.
#[derive(Clone, Copy)]
enum State {
    /// Nothing has been read.
    Start,
    /// The root node has been closed.
    Closed,
    /// A node begins here.
    Object,
    /// A node has just been closed.
    ObjectEnd,
    /// A regular file was yielded; its padding and `)` end at `offset`.
    Regular { offset: u64 },
    /// Inside a directory, between two children.
    Directory,
    /// Decoding has failed.
    Failed { error: NarError },
}

/// What is left to yield once the node reached by `path` has been closed at
/// `pos`: the `)` of the entry that held it, its later siblings, and so on
/// outwards up to the root.
spec fn unwind_trace(data: Seq<u8>, pos: int, path: Seq<Seq<char>>) -> Trace
    decreases path.len(), 0int,
{
    if path.len() == 0 {
        finished(pos)
    } else {
        match spec_expect(data, pos, ")"@) {
            Err(e) => failed(e),
            Ok(p) => siblings_trace(data, p, path.drop_last()),
        }
    }
}

/// What is left to yield from `pos` inside the directory at `path`: the
/// children not yet read, then whatever follows the directory.
spec fn siblings_trace(data: Seq<u8>, pos: int, path: Seq<Seq<char>>) -> Trace
    decreases path.len(), 1int,
{
    let children = dir_trace(data, pos, path);
    match children.end {
        Err(e) => children,
        Ok(p) => after(children.entries, unwind_trace(data, p, path)),
    }
}

/// `inner`, the trace of some part of the node reached by `path`, followed by
/// what comes once that node is closed.
spec fn outward(inner: Trace, data: Seq<u8>, path: Seq<Seq<char>>) -> Trace {
    match inner.end {
        Err(e) => inner,
        Ok(p) => after(inner.entries, unwind_trace(data, p, path)),
    }
}

/// What is left to yield when a node reached by `path` begins at `pos`.
spec fn descend_trace(data: Seq<u8>, pos: int, path: Seq<Seq<char>>) -> Trace {
    outward(node_trace(data, pos, path), data, path)
}

/// What is left to yield once a regular file has been handed out and its
/// framing ends at `offset`.
spec fn resume_trace(data: Seq<u8>, offset: int, path: Seq<Seq<char>>) -> Trace {
    if offset > data.len() {
        failed(NarError::UnexpectedEof)
    } else {
        match spec_expect(data, offset, ")"@) {
            Err(e) => failed(e),
            Ok(p) => unwind_trace(data, p, path),
        }
    }
}

/// What one call of [`Reader::next`] may return, given what was left to
/// yield before the call and what is left after it.
pub open spec fn yields(before: Trace, r: Result<Option<Entry>, NarError>, rest: Trace) -> bool {
    match r {
        Ok(Some(entry)) => {
            &&& before.entries.len() > 0
            &&& entry@ == before.entries[0]
            &&& rest.entries == before.entries.drop_first()
            &&& rest.end == before.end
        },
        Ok(None) => before.entries.len() == 0 && before.end is Ok && rest == before,
        Err(e) => before.entries.len() == 0 && before.end == Err::<int, NarError>(e) && rest
            == before,
    }
}

/// What one transition of the decoder does: it hands something out, as
/// [`yields`] says, or it reads on and leaves what is to come unchanged.
spec fn steps(before: Reader, r: Option<Result<Option<Entry>, NarError>>, rest: Reader) -> bool {
    &&& rest.wf()
    &&& rest.inner.bytes() == before.inner.bytes()
    &&& match r {
        Some(res) => yields(before.remaining(), res, rest.remaining()),
        None => rest.remaining() == before.remaining() && 0 <= rest.fuel() < before.fuel(),
    }
}

/// A decoder over the bytes of one archive.  It is strictly forward: each
/// entry is handed out once, and after the end or an error every further call
/// gives the same answer.
pub struct Reader {
    inner: Teller,
    state: State,
    context: Context,
}

impl Reader {
    /// The decoder's position lies inside its data.  Every decoder that
    /// [`Reader::new`] makes is well-formed, and no call changes that.
    pub closed spec fn wf(self) -> bool {
        &&& self.in_bounds()
        &&& self.state matches State::Regular { offset } ==> self.inner.offset() <= offset
    }

    spec fn in_bounds(self) -> bool {
        0 <= self.inner.offset() <= self.inner.bytes().len()
    }

    /// The bytes of the archive.
    pub closed spec fn bytes(self) -> Seq<u8> {
        self.inner.bytes()
    }

    /// What the decoder has yet to yield, and how it will end.
    pub closed spec fn remaining(self) -> Trace {
        let data = self.inner.bytes();
        let pos = self.inner.offset();
        match self.state {
            State::Start => match spec_expect(data, pos, "nix-archive-1"@) {
                Err(e) => failed(e),
                Ok(p) => descend_trace(data, p, Seq::empty()),
            },
            State::Closed => finished(pos),
            State::Object => descend_trace(data, pos, self.context@),
            State::ObjectEnd => unwind_trace(data, pos, self.context@),
            State::Regular { offset } => resume_trace(data, offset as int, self.context@),
            State::Directory => siblings_trace(data, pos, self.context@),
            State::Failed { error } => failed(error),
        }
    }

    /// A bound on the number of steps that the decoder can still take without
    /// yielding.
    spec fn fuel(self) -> int {
        2 * (self.inner.bytes().len() - self.inner.offset()) + if self.state is ObjectEnd {
            1int
        } else {
            0int
        }
    }

    /// A decoder at the start of `data`.
    pub fn new(data: Vec<u8>) -> (r: Reader)
        ensures
            r.wf(),
            r.bytes() == data@,
            r.remaining() == archive_trace(data@),
    {
        let r = Reader { inner: Teller::new(data), state: State::Start, context: Context::new() };
        proof {
            lemma_descend_root(data@);
        }
        r
    }

    /// Reads one string field.
    fn read_str(&mut self) -> (r: Result<String, NarError>)
        requires
            old(self).in_bounds(),
        ensures
            final(self).in_bounds(),
            r is Ok ==> old(self).inner.offset() + 8 <= final(self).inner.offset(),
            final(self).inner.bytes() == old(self).inner.bytes(),
            final(self).state == old(self).state,
            final(self).context == old(self).context,
            match r {
                Ok(s) => spec_read_str(old(self).inner.bytes(), old(self).inner.offset()) == Ok::<
                    _,
                    NarError,
                >((s@, final(self).inner.offset())),
                Err(e) => spec_read_str(old(self).inner.bytes(), old(self).inner.offset()) == Err::<
                    (Seq<char>, int),
                    _,
                >(e),
            },
    {
        proof {
            reveal(spec_read_str);
        }
        let n = match self.inner.read_u64_le() {
            Ok(n) => n,
            Err(e) => {
                return Err(e);
            },
        };
        if n >= MAX_STRING {
            return Err(NarError::StringTooLong);
        }
        let padded_len: usize = ((n + 7) / 8 * 8) as usize;
        let mut buf = match self.inner.read_exact(padded_len) {
            Ok(buf) => buf,
            Err(e) => {
                return Err(e);
            },
        };
        buf.truncate(n as usize);
        let ghost start = old(self).inner.offset() + 8;
        assert(buf@ =~= old(self).inner.bytes().subrange(start, start + n));
        match string_from_utf8(buf) {
            Some(s) => Ok(s),
            None => Err(NarError::InvalidUtf8),
        }
    }

    /// Reads one string field, which must be `expected`.
    fn expect_str(&mut self, expected: &str) -> (r: Result<(), NarError>)
        requires
            old(self).in_bounds(),
        ensures
            final(self).in_bounds(),
            r is Ok ==> old(self).inner.offset() + 8 <= final(self).inner.offset(),
            final(self).inner.bytes() == old(self).inner.bytes(),
            final(self).state == old(self).state,
            final(self).context == old(self).context,
            match r {
                Ok(()) => spec_expect(
                    old(self).inner.bytes(),
                    old(self).inner.offset(),
                    expected@,
                ) == Ok::<_, NarError>(final(self).inner.offset()),
                Err(e) => spec_expect(old(self).inner.bytes(), old(self).inner.offset(), expected@)
                    == Err::<int, _>(e),
            },
    {
        let actual = match self.read_str() {
            Ok(s) => s,
            Err(e) => {
                return Err(e);
            },
        };
        if actual == expected.to_owned() {
            Ok(())
        } else {
            Err(NarError::UnexpectedToken)
        }
    }

    /// Reads what follows the kind `regular`, up to the payload.
    fn regular_header(&mut self) -> (r: Result<(bool, u64), NarError>)
        requires
            old(self).in_bounds(),
        ensures
            final(self).in_bounds(),
            r is Ok ==> old(self).inner.offset() + 8 <= final(self).inner.offset(),
            final(self).inner.bytes() == old(self).inner.bytes(),
            final(self).state == old(self).state,
            final(self).context == old(self).context,
            match r {
                Ok((executable, size)) => spec_regular_header(
                    old(self).inner.bytes(),
                    old(self).inner.offset(),
                ) == Ok::<_, NarError>((executable, size, final(self).inner.offset())),
                Err(e) => spec_regular_header(old(self).inner.bytes(), old(self).inner.offset())
                    == Err::<(bool, u64, int), _>(e),
            },
    {
        proof {
            reveal(spec_regular_header);
        }
        let mut executable = false;
        let s = match self.read_str() {
            Ok(s) => s,
            Err(e) => {
                return Err(e);
            },
        };
        if s == "executable".to_owned() {
            executable = true;
            match self.expect_str("") {
                Ok(()) => {},
                Err(e) => {
                    return Err(e);
                },
            }
            match self.expect_str("contents") {
                Ok(()) => {},
                Err(e) => {
                    return Err(e);
                },
            }
        } else if s != "contents".to_owned() {
            return Err(NarError::UnexpectedToken);
        }
        match self.inner.read_u64_le() {
            Ok(size) => Ok((executable, size)),
            Err(e) => Err(e),
        }
    }

    /// Records that decoding has failed with `error`.
    fn fail(&mut self, error: NarError) -> (r: Option<Result<Option<Entry>, NarError>>)
        requires
            old(self).in_bounds(),
        ensures
            final(self).wf(),
            final(self).inner == old(self).inner,
            final(self).remaining() == failed(error),
            r == Some(Err::<Option<Entry>, _>(error)),
    {
        self.state = State::Failed { error };
        Some(Err(error))
    }

    /// From [`State::Start`]: reads the magic string.
    fn begin(&mut self) -> (r: Option<Result<Option<Entry>, NarError>>)
        requires
            old(self).wf(),
            old(self).state is Start,
        ensures
            steps(*old(self), r, *final(self)),
    {
        match self.expect_str("nix-archive-1") {
            Ok(()) => {},
            Err(e) => {
                return self.fail(e);
            },
        }
        self.context = Context::new();
        self.state = State::Object;
        None
    }

    /// From [`State::Object`]: reads a node up to the point where its entry
    /// can be handed out.
    fn object(&mut self) -> (r: Option<Result<Option<Entry>, NarError>>)
        requires
            old(self).wf(),
            old(self).state is Object,
        ensures
            steps(*old(self), r, *final(self)),
            r is Some,
    {
        let ghost data = self.inner.bytes();
        let ghost pos0 = self.inner.offset();
        let ghost ctx = self.context@;
        let path = self.context.path();
        match self.expect_str("(") {
            Ok(()) => {},
            Err(e) => {
                return self.fail(e);
            },
        }
        match self.expect_str("type") {
            Ok(()) => {},
            Err(e) => {
                return self.fail(e);
            },
        }
        let kind = match self.read_str() {
            Ok(kind) => kind,
            Err(e) => {
                return self.fail(e);
            },
        };
        let ghost pos3 = self.inner.offset();
        if kind == "regular".to_owned() {
            assert(node_trace(data, pos0, ctx) == regular_trace(data, pos3, ctx));
            self.regular(path)
        } else if kind == "directory".to_owned() {
            self.state = State::Directory;
            let entry = Entry { path, contents: Contents::Directory };
            proof {
                let children = dir_trace(data, pos3, ctx);
                assert(node_trace(data, pos0, ctx) == after(seq![entry@], children));
                let before = old(self).remaining();
                let rest = self.remaining();
                assert(before.entries[0] == entry@);
                assert(rest.entries =~= before.entries.drop_first());
            }
            Some(Ok(Some(entry)))
        } else if kind == "symlink".to_owned() {
            assert(node_trace(data, pos0, ctx) == symlink_trace(data, pos3, ctx));
            self.symlink(path)
        } else {
            self.fail(NarError::InvalidEntryType)
        }
    }

    /// Reads a regular file from behind its kind, payload included.
    fn regular(&mut self, path: Vec<String>) -> (r: Option<Result<Option<Entry>, NarError>>)
        requires
            old(self).in_bounds(),
            names(path@) == old(self).context@,
        ensures
            final(self).wf(),
            final(self).inner.bytes() == old(self).inner.bytes(),
            r matches Some(res) && yields(
                outward(
                    regular_trace(
                        old(self).inner.bytes(),
                        old(self).inner.offset(),
                        old(self).context@,
                    ),
                    old(self).inner.bytes(),
                    old(self).context@,
                ),
                res,
                final(self).remaining(),
            ),
    {
        let ghost data = self.inner.bytes();
        let ghost pos0 = self.inner.offset();
        let ghost ctx = self.context@;
        let (executable, size) = match self.regular_header() {
            Ok(header) => header,
            Err(e) => {
                return self.fail(e);
            },
        };
        let ghost pos1 = self.inner.offset();
        if size > self.inner.remaining() as u64 {
            return self.fail(NarError::UnexpectedEof);
        }
        let payload = match self.inner.read_exact(size as usize) {
            Ok(payload) => payload,
            Err(e) => {
                return self.fail(e);
            },
        };
        let padding: u64 = (8 - size % 8) % 8;
        proof {
            lemma_padded(size as int);
            self.inner.lemma_len_fits();
        }
        let ghost close = regular_close(data, pos1, size);
        match self.inner.position().checked_add(padding) {
            Some(offset) => {
                self.state = State::Regular { offset };
            },
            None => {
                self.state = State::Failed { error: NarError::UnexpectedEof };
            },
        }
        let entry = Entry { path, contents: Contents::Regular { executable, size, data: payload } };
        proof {
            let node = regular_trace(data, pos0, ctx);
            assert(node == Trace { entries: seq![entry@], end: close });
            let before = outward(node, data, ctx);
            let rest = self.remaining();
            assert(rest == match close {
                Err(e) => failed(e),
                Ok(p) => unwind_trace(data, p, ctx),
            });
            assert(before.entries[0] == entry@);
            assert(rest.entries =~= before.entries.drop_first());
        }
        Some(Ok(Some(entry)))
    }

    /// Reads a symlink from behind its kind.
    fn symlink(&mut self, path: Vec<String>) -> (r: Option<Result<Option<Entry>, NarError>>)
        requires
            old(self).in_bounds(),
            names(path@) == old(self).context@,
        ensures
            final(self).wf(),
            final(self).inner.bytes() == old(self).inner.bytes(),
            r matches Some(res) && yields(
                outward(
                    symlink_trace(
                        old(self).inner.bytes(),
                        old(self).inner.offset(),
                        old(self).context@,
                    ),
                    old(self).inner.bytes(),
                    old(self).context@,
                ),
                res,
                final(self).remaining(),
            ),
    {
        let ghost data = self.inner.bytes();
        let ghost pos0 = self.inner.offset();
        let ghost ctx = self.context@;
        match self.expect_str("target") {
            Ok(()) => {},
            Err(e) => {
                return self.fail(e);
            },
        }
        let target = match self.read_str() {
            Ok(target) => target,
            Err(e) => {
                return self.fail(e);
            },
        };
        match self.expect_str(")") {
            Ok(()) => {},
            Err(e) => {
                return self.fail(e);
            },
        }
        self.state = State::ObjectEnd;
        let entry = Entry { path, contents: Contents::Symlink { target } };
        proof {
            let node = symlink_trace(data, pos0, ctx);
            assert(node.entries =~= seq![entry@]);
            let before = outward(node, data, ctx);
            let rest = self.remaining();
            assert(before.entries[0] == entry@);
            assert(rest.entries =~= before.entries.drop_first());
        }
        Some(Ok(Some(entry)))
    }

    /// From [`State::Regular`]: skips what is left of the file's framing.
    fn close_regular(&mut self, offset: u64) -> (r: Option<Result<Option<Entry>, NarError>>)
        requires
            old(self).wf(),
            old(self).state == (State::Regular { offset }),
        ensures
            steps(*old(self), r, *final(self)),
    {
        match self.inner.skip_to(offset) {
            Ok(()) => {},
            Err(e) => {
                return self.fail(e);
            },
        }
        self.state = State::ObjectEnd;
        match self.expect_str(")") {
            Ok(()) => {},
            Err(e) => {
                return self.fail(e);
            },
        }
        None
    }

    /// From [`State::Directory`]: reads the header of the next child, or the
    /// end of the directory.
    fn directory(&mut self) -> (r: Option<Result<Option<Entry>, NarError>>)
        requires
            old(self).wf(),
            old(self).state is Directory,
        ensures
            steps(*old(self), r, *final(self)),
    {
        let ghost data = self.inner.bytes();
        let ghost pos0 = self.inner.offset();
        let ghost ctx = self.context@;
        let s = match self.read_str() {
            Ok(s) => s,
            Err(e) => {
                return self.fail(e);
            },
        };
        let ghost pos1 = self.inner.offset();
        if s == "entry".to_owned() {
            match self.expect_str("(") {
                Ok(()) => {},
                Err(e) => {
                    return self.fail(e);
                },
            }
            match self.expect_str("name") {
                Ok(()) => {},
                Err(e) => {
                    return self.fail(e);
                },
            }
            let name = match self.read_str() {
                Ok(name) => name,
                Err(e) => {
                    return self.fail(e);
                },
            };
            match self.expect_str("node") {
                Ok(()) => {},
                Err(e) => {
                    return self.fail(e);
                },
            }
            proof {
                lemma_enter_child(data, pos0, ctx);
            }
            self.context.push(name);
            self.state = State::Object;
            None
        } else if s == ")".to_owned() {
            self.state = State::ObjectEnd;
            proof {
                let rest = unwind_trace(data, pos1, ctx);
                assert(after(Seq::empty(), rest) =~= rest);
            }
            None
        } else {
            self.fail(NarError::UnexpectedToken)
        }
    }

    /// From [`State::ObjectEnd`]: leaves the directory that held the node, or
    /// closes the archive when the node was the root.
    fn object_end(&mut self) -> (r: Option<Result<Option<Entry>, NarError>>)
        requires
            old(self).wf(),
            old(self).state is ObjectEnd,
        ensures
            steps(*old(self), r, *final(self)),
    {
        if self.context.pop() {
            self.state = State::Directory;
            match self.expect_str(")") {
                Ok(()) => {},
                Err(e) => {
                    return self.fail(e);
                },
            }
            None
        } else {
            self.state = State::Closed;
            None
        }
    }

    /// One transition of the decoder: `None` when it read on without
    /// anything to hand out yet.
    fn step(&mut self) -> (r: Option<Result<Option<Entry>, NarError>>)
        requires
            old(self).wf(),
        ensures
            steps(*old(self), r, *final(self)),
    {
        let state = self.state;
        match state {
            State::Start => self.begin(),
            State::Closed => Some(Ok(None)),
            State::Object => self.object(),
            State::ObjectEnd => self.object_end(),
            State::Regular { offset } => self.close_regular(offset),
            State::Directory => self.directory(),
            State::Failed { error } => Some(Err(error)),
        }
    }

    /// The next entry of the archive, in pre-order; `None` once the root node
    /// has been closed; the error when the archive is malformed or ends early.
    /// Entries that precede a fault are still handed out.
    pub fn next(&mut self) -> (r: Result<Option<Entry>, NarError>)
        requires
            old(self).wf(),
        ensures
            final(self).wf(),
            final(self).bytes() == old(self).bytes(),
            yields(old(self).remaining(), r, final(self).remaining()),
    {
        loop
            invariant
                self.wf(),
                self.inner.bytes() == old(self).inner.bytes(),
                self.remaining() == old(self).remaining(),
            decreases self.fuel(),
        {
            match self.step() {
                Some(r) => {
                    return r;
                },
                None => {},
            }
        }
    }

    /// All the entries that are left, in order.  An archive that is
    /// malformed or ends early gives its error and no entries.
    pub fn read_all(&mut self) -> (r: Result<Vec<Entry>, NarError>)
        requires
            old(self).wf(),
        ensures
            final(self).wf(),
            final(self).bytes() == old(self).bytes(),
            final(self).remaining().entries.len() == 0,
            final(self).remaining().end == old(self).remaining().end,
            match r {
                Ok(entries) => old(self).remaining().end is Ok && entry_views(entries@) == old(
                    self,
                ).remaining().entries,
                Err(e) => old(self).remaining().end == Err::<int, _>(e),
            },
    {
        let ghost all = self.remaining();
        let mut entries: Vec<Entry> = Vec::new();
        loop
            invariant
                self.wf(),
                self.bytes() == old(self).bytes(),
                all == old(self).remaining(),
                entries@.len() <= all.entries.len(),
                entry_views(entries@) == all.entries.take(entries@.len() as int),
                self.remaining().entries == all.entries.skip(entries@.len() as int),
                self.remaining().end == all.end,
            decreases all.entries.len() - entries@.len(),
        {
            let ghost before = self.remaining();
            let ghost seen = entries@.len() as int;
            match self.next() {
                Ok(Some(entry)) => {
                    assert(all.entries[seen] == before.entries[0]);
                    assert(before.entries.drop_first() =~= all.entries.skip(seen + 1));
                    let ghost view = entry@;
                    entries.push(entry);
                    assert(entry_views(entries@) =~= all.entries.take(seen + 1));
                },
                Ok(None) => {
                    assert(all.entries.skip(seen).len() == 0);
                    assert(all.entries.take(seen) =~= all.entries);
                    return Ok(entries);
                },
                Err(e) => {
                    assert(all.entries.skip(seen).len() == 0);
                    return Err(e);
                },
            }
        }
    }
}

/// The views of `entries`, in order.
pub open spec fn entry_views(entries: Seq<Entry>) -> Seq<EntryView> {
    entries.map_values(|e: Entry| e@)
}

/// Whether [`find`] stops at `entry` when it looks for `target`.  The root,
/// which has no path, is never what is looked for.
pub open spec fn is_at(entry: EntryView, target: Seq<Seq<char>>) -> bool {
    entry.path.len() > 0 && entry.path == target
}

/// Whether two paths hold the same names.
fn same_path(a: &Vec<String>, b: &Vec<String>) -> (same: bool)
    ensures
        same == (names(a@) == names(b@)),
{
    if a.len() != b.len() {
        assert(names(a@).len() != names(b@).len());
        return false;
    }
    let mut i: usize = 0;
    while i < a.len()
        invariant
            i <= a.len(),
            a.len() == b.len(),
            forall|j: int| 0 <= j < i ==> a@[j]@ == b@[j]@,
        decreases a.len() - i,
    {
        if a[i] != b[i] {
            assert(names(a@)[i as int] != names(b@)[i as int]);
            return false;
        }
        i = i + 1;
    }
    assert(names(a@) =~= names(b@));
    true
}

/// Reads on until an entry stands at `path`, and hands it out.  Entries that
/// come before it are dropped; those behind it are still to come.  Without
/// such an entry the archive is read to its end, and the answer is `None`, or
/// the error that ended it.
pub fn find(reader: &mut Reader, path: &Vec<String>) -> (r: Result<Option<Entry>, NarError>)
    requires
        old(reader).wf(),
    ensures
        final(reader).wf(),
        final(reader).bytes() == old(reader).bytes(),
        match r {
            Ok(Some(entry)) => exists|k: int|
                {
                    &&& 0 <= k < old(reader).remaining().entries.len()
                    &&& #[trigger] old(reader).remaining().entries[k] == entry@
                    &&& is_at(entry@, names(path@))
                    &&& forall|j: int|
                        0 <= j < k ==> !is_at(
                            #[trigger] old(reader).remaining().entries[j],
                            names(path@),
                        )
                    &&& final(reader).remaining().entries == old(reader).remaining().entries.skip(
                        k + 1,
                    )
                    &&& final(reader).remaining().end == old(reader).remaining().end
                },
            Ok(None) => {
                &&& forall|j: int|
                    0 <= j < old(reader).remaining().entries.len() ==> !is_at(
                        #[trigger] old(reader).remaining().entries[j],
                        names(path@),
                    )
                &&& old(reader).remaining().end is Ok
                &&& final(reader).remaining() == finished(old(reader).remaining().end->Ok_0)
            },
            Err(e) => {
                &&& forall|j: int|
                    0 <= j < old(reader).remaining().entries.len() ==> !is_at(
                        #[trigger] old(reader).remaining().entries[j],
                        names(path@),
                    )
                &&& old(reader).remaining().end == Err::<int, _>(e)
                &&& final(reader).remaining() == failed(e)
            },
        },
{
    let ghost all = reader.remaining();
    let ghost mut seen: int = 0;
    loop
        invariant
            reader.wf(),
            reader.bytes() == old(reader).bytes(),
            all == old(reader).remaining(),
            0 <= seen <= all.entries.len(),
            reader.remaining().entries == all.entries.skip(seen),
            reader.remaining().end == all.end,
            forall|j: int| 0 <= j < seen ==> !is_at(#[trigger] all.entries[j], names(path@)),
        decreases all.entries.len() - seen,
    {
        let ghost before = reader.remaining();
        match reader.next() {
            Ok(Some(entry)) => {
                assert(all.entries[seen] == before.entries[0]);
                assert(before.entries.drop_first() =~= all.entries.skip(seen + 1));
                if entry.path.len() > 0 && same_path(&entry.path, path) {
                    return Ok(Some(entry));
                }
                proof {
                    seen = seen + 1;
                }
            },
            Ok(None) => {
                assert(all.entries.skip(seen).len() == 0);
                assert(reader.remaining() =~= finished(all.end->Ok_0));
                return Ok(None);
            },
            Err(e) => {
                assert(all.entries.skip(seen).len() == 0);
                assert(reader.remaining() =~= failed(e));
                return Err(e);
            },
        }
    }
}

/// Entering a child: what a directory has left to yield at `pos`, where the
/// header of a child stands, is what the child's node has left to yield.
proof fn lemma_enter_child(data: Seq<u8>, pos: int, path: Seq<Seq<char>>)
    ensures
        spec_read_str(data, pos) matches Ok((s, pos1)) ==> s == "entry"@ ==> (spec_entry_header(
            data,
            pos1,
        ) matches Ok((name, pos2)) ==> siblings_trace(data, pos, path) == descend_trace(
            data,
            pos2,
            path.push(name),
        )),
{
    if let Ok((s, pos1)) = spec_read_str(data, pos) {
        if s == "entry"@ {
            if let Ok((name, pos2)) = spec_entry_header(data, pos1) {
                lemma_read_str_advances(data, pos);
                lemma_entry_header_advances(data, pos1);
                let inner = path.push(name);
                assert(inner.drop_last() =~= path);
                let child = node_trace(data, pos2, inner);
                lemma_node_trace_advances(data, pos2, inner);
                match child.end {
                    Err(e) => {},
                    Ok(pos3) => {
                        lemma_read_str_advances(data, pos3);
                        match spec_expect(data, pos3, ")"@) {
                            Err(e) => {
                                assert(child.entries + Seq::<EntryView>::empty() =~= child.entries);
                            },
                            Ok(pos4) => {
                                let later = dir_trace(data, pos4, path);
                                match later.end {
                                    Err(e) => {},
                                    Ok(pos5) => {
                                        let out = unwind_trace(data, pos5, path);
                                        assert((child.entries + later.entries) + out.entries
                                            =~= child.entries + (later.entries + out.entries));
                                    },
                                }
                            },
                        }
                    },
                }
            }
        }
    }
}

/// At the root, what follows a node is nothing.
proof fn lemma_descend_root(data: Seq<u8>)
    ensures
        match spec_expect(data, 0, "nix-archive-1"@) {
            Err(e) => failed(e),
            Ok(p) => descend_trace(data, p, Seq::empty()),
        } == archive_trace(data),
{
    match spec_expect(data, 0, "nix-archive-1"@) {
        Err(e) => {},
        Ok(p) => {
            let node = node_trace(data, p, Seq::empty());
            match node.end {
                Err(e) => {},
                Ok(q) => {
                    assert(unwind_trace(data, q, Seq::empty()) == finished(q));
                    assert(node.entries + Seq::<EntryView>::empty() =~= node.entries);
                },
            }
        },
    }
}

} // verus!
