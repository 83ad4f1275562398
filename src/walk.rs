//! The depth-first walk over included files, as a state machine.
//!
//! The walker decides; its caller does the outside work. Each call of
//! [`Walker::advance`] returns one step: read a file and hand its summary to
//! [`Walker::enter`], expand a glob pattern and hand the paths found to
//! [`Walker::expanded`], write lines, or stop. A file is fully processed,
//! includes first, before the walk returns to the file that included it, and
//! a file is never entered again while it is still being processed.
use crate::extract::{
    definition_lines, definitions_view, edge_lines, file_edges, glob_pattern, strings_view,
    unquoted, FileSummary,
};
use crate::emit::edge_text;
use vstd::prelude::*;

verus! {

/// A file being processed: its summary, how many of its include patterns
/// have been expanded, and the paths found by the last expansion that are
/// still to be visited.
pub struct Frame {
    pub path: String,
    pub summary: FileSummary,
    pub next_include: usize,
    pub pending: Vec<String>,
}

/// What a frame holds, as plain sequences.
pub struct FrameView {
    pub path: Seq<char>,
    pub includes: Seq<Seq<char>>,
    pub definitions: Seq<(Seq<char>, Seq<Seq<char>>)>,
    pub next_include: nat,
    pub pending: Seq<Seq<char>>,
}

impl View for Frame {
    type V = FrameView;

    open spec fn view(&self) -> FrameView {
        FrameView {
            path: self.path@,
            includes: strings_view(self.summary.includes@),
            definitions: definitions_view(self.summary.definitions@),
            next_include: self.next_include as nat,
            pending: strings_view(self.pending@),
        }
    }
}

/// What the caller is to do next.
pub enum Step {
    /// Read and parse this file, then call `enter` with it.
    Read(String),
    /// Expand the pattern relative to the directory of the file, then call
    /// `expanded` with the paths found.
    Expand(String, String),
    /// Write these edge lines.
    Emit(Vec<String>),
    /// The file includes itself, directly or through other files.
    Cycle(String),
    /// Every file has been processed.
    Finished,
}

/// What a step asks for, as plain sequences.
pub enum StepView {
    Read(Seq<char>),
    Expand(Seq<char>, Seq<char>),
    Emit(Seq<Seq<char>>),
    Cycle(Seq<char>),
    Finished,
}

impl View for Step {
    type V = StepView;

    open spec fn view(&self) -> StepView {
        match self {
            Step::Read(p) => StepView::Read(p@),
            Step::Expand(f, g) => StepView::Expand(f@, g@),
            Step::Emit(ls) => StepView::Emit(strings_view(ls@)),
            Step::Cycle(p) => StepView::Cycle(p@),
            Step::Finished => StepView::Finished,
        }
    }
}

/// Whether a file of this path is being processed.
pub open spec fn on_stack(s: Seq<FrameView>, p: Seq<char>) -> bool {
    exists|i: int| 0 <= i < s.len() && #[trigger] s[i].path == p
}

/// One step of the walk from the stack `s`: the next stack and what the
/// caller is to do. The innermost file first visits the paths left from its
/// last expansion, then expands its next include pattern, and once both are
/// exhausted emits its own edges and is done.
pub open spec fn advance_spec(s: Seq<FrameView>) -> (Seq<FrameView>, StepView) {
    if s.len() == 0 {
        (s, StepView::Finished)
    } else {
        let t = s.last();
        if t.pending.len() > 0 {
            let c = t.pending[0];
            let s2 = s.update(s.len() - 1, FrameView { pending: t.pending.drop_first(), ..t });
            if on_stack(s, c) {
                (s2, StepView::Cycle(c))
            } else {
                (s2, StepView::Read(c))
            }
        } else if t.next_include < t.includes.len() {
            (
                s.update(s.len() - 1, FrameView { next_include: t.next_include + 1, ..t }),
                StepView::Expand(t.path, unquoted(t.includes[t.next_include as int])),
            )
        } else {
            (s.drop_last(), StepView::Emit(edge_lines(file_edges(t.definitions))))
        }
    }
}

/// Whether no two files being processed have the same path.
pub open spec fn distinct_paths(s: Seq<FrameView>) -> bool {
    forall|i: int, j: int| 0 <= i < j < s.len() ==> s[i].path != s[j].path
}

/// A file is never entered while it is being processed. Every step keeps the
/// paths being processed distinct; a step that asks to read a path asks only
/// for one not being processed, so entering that file keeps them distinct; a
/// path that is being processed is reported as a cycle instead. Handing over
/// the paths of an expansion keeps them distinct too.
pub proof fn lemma_no_reentry(s: Seq<FrameView>, f: FrameView, found: Seq<Seq<char>>)
    requires
        distinct_paths(s),
    ensures
        distinct_paths(advance_spec(s).0),
        advance_spec(s).1 is Read ==> !on_stack(s, advance_spec(s).1->Read_0),
        advance_spec(s).1 is Read && f.path == advance_spec(s).1->Read_0 ==> distinct_paths(
            advance_spec(s).0.push(f),
        ),
        advance_spec(s).1 is Cycle ==> on_stack(s, advance_spec(s).1->Cycle_0),
        s.len() > 0 ==> distinct_paths(
            s.update(s.len() - 1, FrameView { pending: found, ..s.last() }),
        ),
{
    if s.len() > 0 {
        let s4 = s.update(s.len() - 1, FrameView { pending: found, ..s.last() });
        assert forall|i: int| 0 <= i < s4.len() implies s4[i].path == s[i].path by {}
    }
    let s2 = advance_spec(s).0;
    if s.len() > 0 {
        assert(s2.len() <= s.len());
        assert forall|i: int| 0 <= i < s2.len() implies s2[i].path == s[i].path by {}
        if advance_spec(s).1 is Read && f.path == advance_spec(s).1->Read_0 {
            let s3 = s2.push(f);
            assert forall|i: int, j: int| 0 <= i < j < s3.len() implies s3[i].path != s3[j].path by {
                if j == s3.len() - 1 {
                    assert(s[i].path == s3[i].path);
                }
            }
        }
    }
}

/// A file's own edges come after all that its includes give: a step emits
/// only the innermost file's edges, only once each of its include patterns
/// has been expanded and every path found has been visited, and that file
/// then leaves the walk while the files that include it stay. A file read
/// for an include is entered above the file that includes it.
pub proof fn lemma_includes_before_own_edges(s: Seq<FrameView>)
    requires
        s.len() > 0,
    ensures
        advance_spec(s).1 is Emit ==> {
            &&& s.last().pending.len() == 0
            &&& s.last().next_include >= s.last().includes.len()
            &&& advance_spec(s).1->Emit_0 == edge_lines(file_edges(s.last().definitions))
            &&& advance_spec(s).0 == s.drop_last()
        },
        !(advance_spec(s).1 is Emit) ==> advance_spec(s).0.len() == s.len(),
{
}

/// Every emitted line is the edge line of a definition of the emitting file
/// and of a use in that definition's body.
pub proof fn lemma_emitted_line_from_definition(s: Seq<FrameView>, k: int)
    requires
        advance_spec(s).1 is Emit,
        0 <= k < (advance_spec(s).1->Emit_0).len(),
    ensures
        exists|i: int, j: int|
            0 <= i < s.last().definitions.len() && 0 <= j < s.last().definitions[i].1.len()
                && (advance_spec(s).1->Emit_0)[k] == edge_text(
                #[trigger] s.last().definitions[i].0,
                #[trigger] s.last().definitions[i].1[j],
            ),
{
    let ds = s.last().definitions;
    crate::extract::lemma_edge_from_definition(ds, k);
}

/// The walk is a function of its state: walks in equal states take equal
/// steps to equal states, so a run over the same files, read and expanded
/// alike, emits the same lines in the same order.
pub proof fn lemma_walk_deterministic(a: Seq<FrameView>, b: Seq<FrameView>)
    requires
        a == b,
    ensures
        advance_spec(a) == advance_spec(b),
{
}

/// The files being processed, outermost first.
pub struct Walker {
    stack: Vec<Frame>,
}

impl View for Walker {
    type V = Seq<FrameView>;

    closed spec fn view(&self) -> Seq<FrameView> {
        self.stack@.map_values(|f: Frame| f@)
    }
}

impl Walker {
    /// A walk that has not entered any file.
    pub fn new() -> (r: Walker)
        ensures
            r@ == Seq::<FrameView>::empty(),
    {
        let r = Walker { stack: Vec::new() };
        assert(r@ =~= Seq::<FrameView>::empty());
        r
    }

    /// Whether every entered file has been processed.
    pub fn is_done(&self) -> (r: bool)
        ensures
            r == (self@.len() == 0),
    {
        self.stack.len() == 0
    }

    /// Starts processing the file at `path`, whose parsed content is `summary`.
    pub fn enter(&mut self, path: String, summary: FileSummary)
        ensures
            final(self)@ == old(self)@.push(
                FrameView {
                    path: path@,
                    includes: strings_view(summary.includes@),
                    definitions: definitions_view(summary.definitions@),
                    next_include: 0,
                    pending: Seq::empty(),
                },
            ),
    {
        let f = Frame { path, summary, next_include: 0, pending: Vec::new() };
        assert(f@.pending =~= Seq::<Seq<char>>::empty());
        self.stack.push(f);
        assert(self@ =~= old(self)@.push(f@));
    }

    /// Hands over the paths that the last expansion found, in the order to
    /// visit them.
    pub fn expanded(&mut self, paths: Vec<String>)
        requires
            old(self)@.len() > 0,
        ensures
            final(self)@ == old(self)@.update(
                old(self)@.len() - 1,
                FrameView { pending: strings_view(paths@), ..old(self)@.last() },
            ),
    {
        let mut t = self.stack.pop().unwrap();
        t.pending = paths;
        self.stack.push(t);
        assert(self@ =~= old(self)@.update(
            old(self)@.len() - 1,
            FrameView { pending: strings_view(paths@), ..old(self)@.last() },
        ));
    }

    fn holds_path(&self, p: &String) -> (r: bool)
        ensures
            r == on_stack(self@, p@),
    {
        let mut k: usize = 0;
        while k < self.stack.len()
            invariant
                k <= self.stack@.len(),
                forall|i: int| 0 <= i < k ==> self@[i].path != p@,
            decreases self.stack@.len() - k,
        {
            if self.stack[k].path == *p {
                assert(self@[k as int].path == p@);
                return true;
            }
            k = k + 1;
        }
        false
    }

    /// Takes one step of the walk.
    pub fn advance(&mut self) -> (r: Step)
        ensures
            (final(self)@, r@) == advance_spec(old(self)@),
    {
        let ghost s = self@;
        if self.stack.len() == 0 {
            return Step::Finished;
        }
        let mut t = self.stack.pop().unwrap();
        proof {
            assert(self@ =~= s.drop_last());
            assert(t@ == s.last());
        }
        if t.pending.len() > 0 {
            let ghost p0 = t.pending@;
            let c = t.pending.remove(0);
            assert(strings_view(t.pending@) =~= strings_view(p0).drop_first());
            assert(t@ == FrameView { pending: s.last().pending.drop_first(), ..s.last() });
            let cycle = self.holds_path(&c) || t.path == c;
            proof {
                if on_stack(s, c@) {
                    let i = choose|i: int| 0 <= i < s.len() && #[trigger] s[i].path == c@;
                    if i < s.len() - 1 {
                        assert(self@[i].path == c@);
                    }
                }
                if on_stack(self@, c@) {
                    let i = choose|i: int| 0 <= i < self@.len() && #[trigger] self@[i].path == c@;
                    assert(s[i].path == c@);
                }
                if t.path@ == c@ {
                    assert(s[s.len() - 1].path == c@);
                }
            }
            self.stack.push(t);
            proof {
                assert(self@ =~= s.update(
                    s.len() - 1,
                    FrameView { pending: s.last().pending.drop_first(), ..s.last() },
                ));
            }
            if cycle {
                Step::Cycle(c)
            } else {
                Step::Read(c)
            }
        } else if t.next_include < t.summary.includes.len() {
            let g = glob_pattern(t.summary.includes[t.next_include].as_str());
            let f = t.path.clone();
            t.next_include = t.next_include + 1;
            self.stack.push(t);
            proof {
                assert(self@ =~= s.update(
                    s.len() - 1,
                    FrameView { next_include: s.last().next_include + 1, ..s.last() },
                ));
            }
            Step::Expand(f, g)
        } else {
            let lines = definition_lines(&t.summary.definitions);
            Step::Emit(lines)
        }
    }
}

} // verus!
