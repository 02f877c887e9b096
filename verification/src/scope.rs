//! The scope manager: a stack of lexical frames, innermost last. Each frame
//! pairs a name-to-binding table with the IR function whose block it emits
//! into. Lookup walks from the innermost frame outward and returns the first
//! match, so an inner declaration shadows an outer one of the same name.

use vstd::prelude::*;
use vstd::string::StringExecFns;
use crate::shared::{str_eq, CompileError, Kind, KindName};

verus! {

/// A named entry in a scope frame: a variable with its optional storage
/// slot (`None` iff the variable is void-typed), or a function with its
/// IR handle and signature. A binding is created once and never mutated.
#[derive(Debug)]
pub enum ScopeType {
    Variable { kind: Kind, ptr: Option<usize> },
    Function { fn_index: usize, return_kind: Kind, arg_kind_names: Vec<KindName> },
}

/// One lexical scope: its bindings in declaration order, and the index of
/// the IR function whose entry block instructions are emitted into while
/// this frame is the current one.
#[derive(Debug)]
pub struct Frame {
    pub entries: Vec<(String, ScopeType)>,
    pub basic_block: usize,
}

/// The first binding named `name` in `entries` at or after position `j`.
pub open spec fn find_from(
    entries: Seq<(String, ScopeType)>,
    name: Seq<char>,
    j: int,
) -> Option<ScopeType>
    decreases entries.len() - j,
{
    if j < 0 || j >= entries.len() {
        None
    } else if entries[j].0@ == name {
        Some(entries[j].1)
    } else {
        find_from(entries, name, j + 1)
    }
}

/// Whether `f` binds `name`.
pub open spec fn frame_contains(f: Frame, name: Seq<char>) -> bool {
    exists|k: int| 0 <= k < f.entries@.len() && f.entries@[k].0@ == name
}

/// The binding `name` has in `f`, if any.
pub open spec fn frame_lookup(f: Frame, name: Seq<char>) -> Option<ScopeType> {
    find_from(f.entries@, name, 0)
}

/// `find_from` yields a binding exactly when one of the scanned entries
/// carries the name.
pub proof fn lemma_find_from_contains(entries: Seq<(String, ScopeType)>, name: Seq<char>, j: int)
    requires
        0 <= j <= entries.len(),
    ensures
        find_from(entries, name, j) is Some <==> exists|k: int|
            j <= k < entries.len() && entries[k].0@ == name,
    decreases entries.len() - j,
{
    if j < entries.len() {
        lemma_find_from_contains(entries, name, j + 1);
        if entries[j].0@ == name {
            assert(exists|k: int| j <= k < entries.len() && entries[k].0@ == name);
        }
    }
}

/// Lookup over the innermost `i` frames of the stack (frames `0 .. i`,
/// searched from frame `i - 1` down).
pub open spec fn lookup_upto(frames: Seq<Frame>, name: Seq<char>, i: int) -> Option<ScopeType>
    decreases i,
{
    if i <= 0 || i > frames.len() {
        None
    } else {
        match frame_lookup(frames[i - 1], name) {
            Some(st) => Some(st),
            None => lookup_upto(frames, name, i - 1),
        }
    }
}

/// The binding `name` resolves to: the first match walking from the
/// innermost frame outward.
pub open spec fn scope_lookup(frames: Seq<Frame>, name: Seq<char>) -> Option<ScopeType> {
    lookup_upto(frames, name, frames.len() as int)
}

/// How declaring `name` as `st` changes a frame: one entry is appended and
/// everything else stays.
pub open spec fn frame_declared(f0: Frame, f1: Frame, name: Seq<char>, st: ScopeType) -> bool {
    &&& f1.basic_block == f0.basic_block
    &&& f1.entries@.len() == f0.entries@.len() + 1
    &&& f1.entries@.take(f0.entries@.len() as int) == f0.entries@
    &&& f1.entries@.last().0@ == name
    &&& f1.entries@.last().1 == st
}

/// How declaring changes the whole stack: only the innermost frame gains
/// the entry.
pub open spec fn scope_declared(
    s0: Seq<Frame>,
    s1: Seq<Frame>,
    name: Seq<char>,
    st: ScopeType,
) -> bool {
    &&& s0.len() > 0
    &&& s1.len() == s0.len()
    &&& s1.drop_last() == s0.drop_last()
    &&& frame_declared(s0.last(), s1.last(), name, st)
}

/// When every entry from `j` up to the last is differently named and the
/// last entry carries `name`, the scan finds the last entry.
proof fn lemma_find_from_hits_last(
    entries: Seq<(String, ScopeType)>,
    name: Seq<char>,
    j: int,
)
    requires
        0 <= j < entries.len(),
        forall|k: int| j <= k < entries.len() - 1 ==> entries[k].0@ != name,
        entries.last().0@ == name,
    ensures
        find_from(entries, name, j) == Some(entries.last().1),
    decreases entries.len() - j,
{
    if j < entries.len() - 1 {
        lemma_find_from_hits_last(entries, name, j + 1);
    }
}

/// Declaring a name and then looking it up finds exactly the new binding:
/// the fresh entry of the innermost frame wins over anything an outer
/// frame binds under the same name (innermost-wins shadowing).
pub proof fn lemma_declared_then_found(
    s0: Seq<Frame>,
    s1: Seq<Frame>,
    name: Seq<char>,
    st: ScopeType,
)
    requires
        scope_declared(s0, s1, name, st),
        !frame_contains(s0.last(), name),
    ensures
        scope_lookup(s1, name) == Some(st),
{
    let f0 = s0.last();
    let f1 = s1.last();
    assert forall|k: int| 0 <= k < f1.entries@.len() - 1 implies f1.entries@[k].0@ != name by {
        assert(f1.entries@.take(f0.entries@.len() as int)[k] == f1.entries@[k]);
        assert(f0.entries@[k].0@ != name);
    }
    lemma_find_from_hits_last(f1.entries@, name, 0);
    assert(s1[s1.len() - 1] == s1.last());
}

impl Frame {
    /// Whether this frame already binds `name`; equivalently, whether a
    /// lookup in this frame alone would find a binding.
    pub fn has(&self, name: &str) -> (r: bool)
        ensures
            r == frame_contains(*self, name@),
            r == (frame_lookup(*self, name@) is Some),
    {
        let mut j: usize = 0;
        while j < self.entries.len()
            invariant
                0 <= j <= self.entries@.len(),
                forall|k: int| 0 <= k < j ==> self.entries@[k].0@ != name@,
            decreases self.entries@.len() - j,
        {
            if str_eq(self.entries[j].0.as_str(), name) {
                proof {
                    lemma_find_from_contains(self.entries@, name@, 0);
                    assert(frame_contains(*self, name@));
                }
                return true;
            }
            j = j + 1;
        }
        proof {
            lemma_find_from_contains(self.entries@, name@, 0);
        }
        false
    }
}

/// The stack of lexical frames, innermost last.
#[derive(Debug)]
pub struct BlockScope {
    pub frames: Vec<Frame>,
}

impl BlockScope {
    /// An empty stack: no frame is current, nothing is visible.
    pub fn new() -> (r: BlockScope)
        ensures
            r.frames@.len() == 0,
    {
        BlockScope { frames: Vec::new() }
    }

    /// The number of frames on the stack.
    pub fn depth(&self) -> (r: usize)
        ensures
            r == self.frames@.len(),
    {
        self.frames.len()
    }

    /// Enters a scope: a fresh, empty frame bound to `basic_block` becomes
    /// current.
    pub fn push(&mut self, basic_block: usize)
        ensures
            final(self).frames@.len() == old(self).frames@.len() + 1,
            final(self).frames@.drop_last() == old(self).frames@,
            final(self).frames@.last().entries@.len() == 0,
            final(self).frames@.last().basic_block == basic_block,
    {
        self.frames.push(Frame { entries: Vec::new(), basic_block });
    }

    /// Leaves the current scope: the innermost frame and its bindings are
    /// discarded.
    pub fn pop(&mut self)
        requires
            old(self).frames@.len() > 0,
        ensures
            final(self).frames@ == old(self).frames@.drop_last(),
    {
        let _ = self.frames.pop();
    }

    /// The IR function the current frame emits into.
    pub fn current_block(&self) -> (r: usize)
        requires
            self.frames@.len() > 0,
        ensures
            r == self.frames@.last().basic_block,
    {
        self.frames[self.frames.len() - 1].basic_block
    }

    /// Declares `name` in the current frame. Fails with `DuplicateSymbol`
    /// exactly when the current frame already binds the name; an equal name
    /// in an outer frame is no error (the inner one shadows it).
    pub fn put_variable(&mut self, name: &str, st: ScopeType) -> (r: Result<(), CompileError>)
        requires
            old(self).frames@.len() > 0,
        ensures
            frame_contains(old(self).frames@.last(), name@) ==> r == Err::<(), CompileError>(
                CompileError::DuplicateSymbol,
            ) && *final(self) == *old(self),
            !frame_contains(old(self).frames@.last(), name@) ==> r == Ok::<(), CompileError>(())
                && scope_declared(old(self).frames@, final(self).frames@, name@, st),
    {
        let top = self.frames.len() - 1;
        if self.frames[top].has(name) {
            return Err(CompileError::DuplicateSymbol);
        }
        let mut fr = self.frames.pop().unwrap();
        fr.entries.push((String::from_str(name), st));
        self.frames.push(fr);
        proof {
            assert(self.frames@.drop_last() =~= old(self).frames@.drop_last());
            assert(self.frames@.last().entries@.take(
                old(self).frames@.last().entries@.len() as int,
            ) =~= old(self).frames@.last().entries@);
        }
        Ok(())
    }

    /// Resolves `name`: the innermost binding wins; `None` if no visible
    /// frame binds it.
    pub fn search_by_name(&self, name: &str) -> (r: Option<&ScopeType>)
        ensures
            r is Some <==> scope_lookup(self.frames@, name@) is Some,
            r matches Some(st) ==> scope_lookup(self.frames@, name@) == Some(*st),
    {
        let mut i: usize = self.frames.len();
        while i > 0
            invariant
                0 <= i <= self.frames@.len(),
                scope_lookup(self.frames@, name@) == lookup_upto(self.frames@, name@, i as int),
            decreases i,
        {
            i = i - 1;
            let fr = &self.frames[i];
            let mut j: usize = 0;
            while j < fr.entries.len()
                invariant
                    0 <= j <= fr.entries@.len(),
                    fr == &self.frames@[i as int],
                    0 <= i < self.frames@.len(),
                    scope_lookup(self.frames@, name@) == lookup_upto(
                        self.frames@,
                        name@,
                        i + 1 as int,
                    ),
                    frame_lookup(self.frames@[i as int], name@) == find_from(
                        fr.entries@,
                        name@,
                        j as int,
                    ),
                decreases fr.entries@.len() - j,
            {
                if str_eq(fr.entries[j].0.as_str(), name) {
                    proof {
                        assert(find_from(fr.entries@, name@, j as int) == Some(
                            fr.entries@[j as int].1,
                        ));
                        assert(lookup_upto(self.frames@, name@, i + 1 as int) == Some(
                            fr.entries@[j as int].1,
                        ));
                    }
                    return Some(&fr.entries[j].1);
                }
                j = j + 1;
            }
            proof {
                assert(find_from(fr.entries@, name@, j as int) is None);
                assert(lookup_upto(self.frames@, name@, i + 1 as int) == lookup_upto(
                    self.frames@,
                    name@,
                    i as int,
                ));
            }
        }
        None
    }
}

} // verus!
