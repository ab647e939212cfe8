//! Summaries of source code: large blocks are folded, their first lines kept.
use std::collections::VecDeque;

use vstd::prelude::*;

use crate::ast;
use crate::ast::{parent_of, syntax_nodes, NodeFacts, SupportLang};
use crate::pieces;
use crate::pieces::{join_of, lines_of, split_of};
use crate::text;
use crate::text::copy_text;

verus! {

#[derive(Clone, Copy, Debug, PartialEq, Eq, Structural)]
pub enum SegmentKind {
    /// The lines are shown as they are.
    Kept,
    /// The lines are left out.
    Elided,
}

/// Some lines of a source, from 1, the last one too.
#[derive(Debug)]
pub struct SummarySegment<S = String> {
    pub kind: SegmentKind,
    pub start_line: u32,
    pub end_line: u32,
    /// The lines, where they are kept.
    pub text: Option<S>,
}

pub type SegmentView = SummarySegment<Seq<char>>;

impl SummarySegment {
    pub open spec fn view(&self) -> SegmentView {
        SummarySegment {
            kind: self.kind,
            start_line: self.start_line,
            end_line: self.end_line,
            text: ast::opt_text(self.text),
        }
    }
}

pub open spec fn segment_views(v: Seq<SummarySegment>) -> Seq<SegmentView> {
    Seq::new(v.len(), |i: int| v[i].view())
}

#[derive(Debug)]
pub struct SummaryResult {
    /// The language, where the source could be read.
    pub language: Option<String>,
    /// Whether the source could be read and holds no syntax error.
    pub parsed: bool,
    /// Whether anything is left out.
    pub elided: bool,
    pub total_lines: u32,
    pub segments: Vec<SummarySegment>,
}

pub struct SummaryView {
    pub language: Option<Seq<char>>,
    pub parsed: bool,
    pub elided: bool,
    pub total_lines: u32,
    pub segments: Seq<SegmentView>,
}

impl View for SummaryResult {
    type V = SummaryView;

    open spec fn view(&self) -> SummaryView {
        SummaryView {
            language: ast::opt_text(self.language),
            parsed: self.parsed,
            elided: self.elided,
            total_lines: self.total_lines,
            segments: segment_views(self.segments@),
        }
    }
}

impl Default for SummaryResult {
    fn default() -> (r: SummaryResult)
        ensures
            r@ == unreadable(0),
    {
        unparsed(0)
    }
}

#[derive(Clone, Copy, Debug, PartialEq, Eq, Structural)]
pub struct SummaryOptions {
    /// Blocks with fewer lines are kept.
    pub min_body_lines: u32,
    /// How many lines are to be seen at least; with 0 nothing is unfolded.
    pub unfold_until_lines: u32,
    /// How many lines are to be seen at most; with 0 twice as many as at least.
    pub unfold_limit_lines: u32,
}

impl Default for SummaryOptions {
    fn default() -> (r: SummaryOptions)
        ensures
            r.min_body_lines == 4,
            r.unfold_until_lines == 0,
            r.unfold_limit_lines == 0,
    {
        SummaryOptions { min_body_lines: 4, unfold_until_lines: 0, unfold_limit_lines: 0 }
    }
}

// ── Blocks that can be folded ───────────────────────────────────────────────

#[derive(Clone, Copy, Debug, PartialEq, Eq, Structural)]
pub struct LineSpan {
    pub start: u32,
    pub end: u32,
}

/// How many lines a span has.
pub open spec fn span_lines(s: LineSpan) -> int {
    if s.end < s.start {
        1
    } else if s.end - s.start + 1 > u32::MAX {
        u32::MAX as int
    } else {
        s.end - s.start + 1
    }
}

impl LineSpan {
    pub fn lines(self) -> (r: u32)
        ensures
            r == span_lines(self),
    {
        if self.end < self.start {
            1
        } else if self.end - self.start == u32::MAX {
            u32::MAX
        } else {
            self.end - self.start + 1
        }
    }
}

/// The lines of a node, no further than the last line of the source.
pub open spec fn node_span(n: NodeFacts, total: u32) -> LineSpan {
    LineSpan {
        start: (n.start_row + 1) as u32,
        end: if n.end_row + 1 < total {
            (n.end_row + 1) as u32
        } else {
            total
        },
    }
}

/// Whether a node can be folded: it has enough lines, and is not the whole source.
pub open spec fn elidable(n: Seq<NodeFacts>, i: int, min: u32, total: u32) -> bool {
    ast::parent(n, i) >= 0 && span_lines(node_span(n[i], total)) >= min
}

/// How many of the first `m` nodes can be folded.
pub open spec fn rank(n: Seq<NodeFacts>, m: int, min: u32, total: u32) -> int
    decreases m,
{
    if m <= 0 {
        0
    } else {
        rank(n, m - 1, min, total) + (if elidable(n, m - 1, min, total) {
            1int
        } else {
            0
        })
    }
}

/// The innermost foldable node that a node is or stands in, by its place among the foldable
/// ones.
pub open spec fn scope(n: Seq<NodeFacts>, i: int, min: u32, total: u32) -> Option<int>
    decreases i + 1,
    via scope_ends
{
    if i < 0 {
        None
    } else if elidable(n, i, min, total) {
        Some(rank(n, i, min, total))
    } else if i == 0 {
        None
    } else {
        scope(n, ast::parent(n, i), min, total)
    }
}

#[via_fn]
proof fn scope_ends(n: Seq<NodeFacts>, i: int, min: u32, total: u32) {
    if i > 0 {
        ast::parent_is_before(n, i - 1, n[i].depth as int);
    }
}

/// A foldable block and those right inside it.
#[derive(Debug)]
pub struct SpanNode {
    pub span: LineSpan,
    pub children: Vec<usize>,
}

/// The foldable blocks of a source, and which of them stand in no other.
#[derive(Debug)]
pub struct ElidableForest {
    pub nodes: Vec<SpanNode>,
    pub roots: Vec<usize>,
}

pub struct SpanView {
    pub span: LineSpan,
    pub children: Seq<usize>,
}

pub struct ForestView {
    pub nodes: Seq<SpanView>,
    pub roots: Seq<usize>,
}

impl View for ElidableForest {
    type V = ForestView;

    open spec fn view(&self) -> ForestView {
        ForestView {
            nodes: Seq::new(
                self.nodes@.len(),
                |i: int|
                    SpanView { span: self.nodes@[i].span, children: self.nodes@[i].children@ },
            ),
            roots: self.roots@,
        }
    }
}

/// Every block stands behind the one that it is in.
pub open spec fn well_formed(f: ForestView) -> bool {
    &&& forall|i: int| 0 <= i < f.roots.len() ==> (#[trigger] f.roots[i]) < f.nodes.len()
    &&& forall|i: int, k: int|
        0 <= i < f.nodes.len() && 0 <= k < f.nodes[i].children.len() ==> i < (
        #[trigger] f.nodes[i].children[k]) < f.nodes.len()
}

/// A forest with one more block, inside another or on its own.
pub open spec fn planted(f: ForestView, parent: Option<int>, span: LineSpan) -> ForestView {
    let idx = f.nodes.len() as usize;
    let leaf = SpanView { span, children: Seq::empty() };
    match parent {
        Some(p) => ForestView {
            nodes: f.nodes.update(
                p,
                SpanView { span: f.nodes[p].span, children: f.nodes[p].children.push(idx) },
            ).push(leaf),
            roots: f.roots,
        },
        None => ForestView { nodes: f.nodes.push(leaf), roots: f.roots.push(idx) },
    }
}

impl ElidableForest {
    pub fn new() -> (f: ElidableForest)
        ensures
            f@.nodes.len() == 0,
            f@.roots.len() == 0,
            well_formed(f@),
    {
        ElidableForest { nodes: Vec::new(), roots: Vec::new() }
    }

    /// Adds a block, and returns its place.
    pub fn push(&mut self, parent: Option<usize>, span: LineSpan) -> (idx: usize)
        requires
            well_formed(old(self)@),
            parent matches Some(p) ==> p < old(self)@.nodes.len(),
        ensures
            idx == old(self)@.nodes.len(),
            final(self)@ == planted(
                old(self)@,
                match parent {
                    Some(p) => Some(p as int),
                    None => None,
                },
                span,
            ),
            well_formed(final(self)@),
    {
        let ghost before = self@;
        let idx: usize = self.nodes.len();
        match parent {
            Some(p) => {
                let mut children = copy_places(&self.nodes[p].children);
                children.push(idx);
                let held = self.nodes[p].span;
                self.nodes.set(p, SpanNode { span: held, children });
                assert(self@.nodes =~= before.nodes.update(
                    p as int,
                    SpanView {
                        span: before.nodes[p as int].span,
                        children: before.nodes[p as int].children.push(idx),
                    },
                ));
                self.nodes.push(SpanNode { span, children: Vec::new() });
                assert(self@.nodes =~= planted(before, Some(p as int), span).nodes);
                assert(well_formed(self@)) by {
                    assert forall|i: int, k: int|
                        0 <= i < self@.nodes.len() && 0 <= k < self@.nodes[i].children.len() implies i
                        < (#[trigger] self@.nodes[i].children[k]) < self@.nodes.len() by {
                        if i < before.nodes.len() && k < before.nodes[i].children.len() {
                            assert(before.nodes[i].children[k] == self@.nodes[i].children[k]);
                        }
                    }
                }
            },
            None => {
                self.nodes.push(SpanNode { span, children: Vec::new() });
                self.roots.push(idx);
                assert(self@.nodes =~= planted(before, None, span).nodes);
                assert(well_formed(self@)) by {
                    assert forall|i: int, k: int|
                        0 <= i < self@.nodes.len() && 0 <= k < self@.nodes[i].children.len() implies i
                        < (#[trigger] self@.nodes[i].children[k]) < self@.nodes.len() by {
                        assert(before.nodes[i].children[k] == self@.nodes[i].children[k]);
                    }
                }
            },
        }
        idx
    }
}

fn copy_places(v: &Vec<usize>) -> (r: Vec<usize>)
    ensures
        r@ == v@,
{
    let mut r: Vec<usize> = Vec::new();
    let mut i: usize = 0;
    while i < v.len()
        invariant
            i <= v.len(),
            r@ == v@.take(i as int),
        decreases v.len() - i,
    {
        r.push(v[i]);
        i = i + 1;
        assert(r@ =~= v@.take(i as int));
    }
    assert(r@ =~= v@);
    r
}

/// The foldable blocks among the first `m` nodes.
pub open spec fn forest_of(n: Seq<NodeFacts>, min: u32, total: u32, m: int) -> ForestView
    decreases m,
{
    if m <= 0 {
        ForestView { nodes: Seq::empty(), roots: Seq::empty() }
    } else {
        let f = forest_of(n, min, total, m - 1);
        if elidable(n, m - 1, min, total) {
            planted(
                f,
                scope(n, ast::parent(n, m - 1), min, total),
                node_span(n[m - 1], total),
            )
        } else {
            f
        }
    }
}

proof fn rank_counts(n: Seq<NodeFacts>, min: u32, total: u32, m: int)
    ensures
        rank(n, m, min, total) >= 0,
    decreases m,
{
    if m > 0 {
        rank_counts(n, min, total, m - 1);
    }
}

proof fn rank_grows(n: Seq<NodeFacts>, min: u32, total: u32, a: int, b: int)
    requires
        a <= b,
    ensures
        rank(n, a, min, total) <= rank(n, b, min, total),
    decreases b - a,
{
    if a < b {
        rank_grows(n, min, total, a, b - 1);
    }
}

proof fn scope_is_before(n: Seq<NodeFacts>, min: u32, total: u32, i: int)
    ensures
        scope(n, i, min, total) matches Some(k) ==> 0 <= k < rank(n, i + 1, min, total),
    decreases i + 1,
{
    rank_counts(n, min, total, i);
    if i > 0 && !elidable(n, i, min, total) {
        ast::parent_is_before(n, i - 1, n[i].depth as int);
        scope_is_before(n, min, total, ast::parent(n, i));
        rank_grows(n, min, total, ast::parent(n, i) + 1, i + 1);
    }
}

proof fn outer_is_there(n: Seq<NodeFacts>, min: u32, total: u32, i: int)
    requires
        0 <= i,
    ensures
        scope(n, ast::parent(n, i), min, total) matches Some(k) ==> 0 <= k < rank(
            n,
            i,
            min,
            total,
        ),
{
    ast::parent_is_before(n, i - 1, n[i].depth as int);
    scope_is_before(n, min, total, ast::parent(n, i));
    rank_grows(n, min, total, ast::parent(n, i) + 1, i);
}

proof fn forest_counts(n: Seq<NodeFacts>, min: u32, total: u32, m: int)
    ensures
        forest_of(n, min, total, m).nodes.len() == rank(n, m, min, total),
    decreases m,
{
    if m > 0 {
        forest_counts(n, min, total, m - 1);
        outer_is_there(n, min, total, m - 1);
    }
}

/// The foldable blocks of a source.
pub fn collect(n: &Vec<NodeFacts>, min_body: u32, total: u32) -> (f: ElidableForest)
    requires
        ast::rows_fit(n@),
    ensures
        f@ == forest_of(n@, min_body, total, n.len() as int),
        well_formed(f@),
{
    let mut f = ElidableForest::new();
    let mut scopes: Vec<Option<usize>> = Vec::new();
    let mut i: usize = 0;
    assert(f@.nodes =~= Seq::empty());
    assert(f@.roots =~= Seq::empty());
    while i < n.len()
        invariant
            i <= n.len(),
            ast::rows_fit(n@),
            f@ == forest_of(n@, min_body, total, i as int),
            well_formed(f@),
            scopes.len() == i,
            forall|j: int|
                0 <= j < i ==> (match #[trigger] scopes@[j] {
                    Some(k) => scope(n@, j, min_body, total) == Some(k as int),
                    None => scope(n@, j, min_body, total) is None,
                }),
        decreases n.len() - i,
    {
        let x = n[i];
        let start: u32 = x.start_row as u32 + 1;
        let last: u32 = x.end_row as u32 + 1;
        let end: u32 = if last < total {
            last
        } else {
            total
        };
        let span = LineSpan { start, end };
        let held = parent_of(n, i);
        let outer: Option<usize> = match held {
            Some(p) => scopes[p],
            None => None,
        };
        proof {
            ast::parent_is_before(n@, i - 1, n@[i as int].depth as int);
            forest_counts(n@, min_body, total, i as int);
            outer_is_there(n@, min_body, total, i as int);
        }
        let own: Option<usize> = if held.is_some() && span.lines() >= min_body {
            Some(f.push(outer, span))
        } else {
            outer
        };
        scopes.push(own);
        i = i + 1;
    }
    f
}

// ── Choosing what is folded ─────────────────────────────────────────────────

/// The lines of the first `n` of some blocks together.
pub open spec fn lines_sum(f: ForestView, v: Seq<usize>, n: int) -> int
    decreases n,
{
    if n <= 0 {
        0
    } else {
        lines_sum(f, v, n - 1) + span_lines(f.nodes[v[n - 1] as int].span)
    }
}

/// Which blocks are folded, which are still to be looked at, and how many lines are seen.
pub struct Unfolding {
    pub folded: Seq<bool>,
    pub queue: Seq<usize>,
    pub visible: int,
}

/// The first `n` of some blocks are folded too.
pub open spec fn also_folded(folded: Seq<bool>, v: Seq<usize>, n: int) -> Seq<bool>
    decreases n,
{
    if n <= 0 {
        folded
    } else {
        also_folded(folded, v, n - 1).update(v[n - 1] as int, true)
    }
}

pub open spec fn less_or_none(a: int, b: int) -> int {
    if a > b {
        a - b
    } else {
        0
    }
}

pub open spec fn at_most(a: int, b: int) -> int {
    if a < b {
        a
    } else {
        b
    }
}

/// How many lines are seen once a block is unfolded.
pub open spec fn seen_after(f: ForestView, i: int, visible: int) -> int {
    let c = f.nodes[i].children;
    at_most(
        visible + less_or_none(
            span_lines(f.nodes[i].span),
            lines_sum(f, c, c.len() as int),
        ),
        u32::MAX as int,
    )
}

/// The next block in the queue is unfolded, unless too many lines would be seen then.
pub open spec fn unfold_next(f: ForestView, s: Unfolding, limit: u32) -> Unfolding {
    let i = s.queue[0] as int;
    let rest = s.queue.drop_first();
    let c = f.nodes[i].children;
    if !s.folded[i] || seen_after(f, i, s.visible) > limit {
        Unfolding { queue: rest, ..s }
    } else {
        Unfolding {
            folded: also_folded(s.folded.update(i, false), c, c.len() as int),
            queue: rest + c,
            visible: seen_after(f, i, s.visible),
        }
    }
}

/// The blocks in a queue are all there.
pub open spec fn queue_fits(f: ForestView, q: Seq<usize>) -> bool {
    forall|k: int| 0 <= k < q.len() ==> (#[trigger] q[k]) < f.nodes.len()
}

/// How many blocks stand in the first `n` inside a block, with those.
pub open spec fn inner_count(f: ForestView, i: int, n: int) -> nat
    decreases f.nodes.len() - i, 0int, n,
{
    if n <= 0 || i < 0 || i >= f.nodes.len() {
        0
    } else {
        let c = f.nodes[i].children[n - 1] as int;
        inner_count(f, i, n - 1) + (if i < c < f.nodes.len() {
            count_at(f, c)
        } else {
            0
        })
    }
}

/// How many blocks stand in a block, with itself.
pub open spec fn count_at(f: ForestView, i: int) -> nat
    decreases f.nodes.len() - i, 1int, 0int,
{
    if i < 0 || i >= f.nodes.len() {
        1
    } else {
        1 + inner_count(f, i, f.nodes[i].children.len() as int)
    }
}

/// How many blocks can still be looked at.
pub open spec fn ahead(f: ForestView, q: Seq<usize>) -> nat
    decreases q.len(),
{
    if q.len() == 0 {
        0
    } else {
        ahead(f, q.drop_last()) + count_at(f, q.last() as int)
    }
}

proof fn ahead_of_sum(f: ForestView, a: Seq<usize>, b: Seq<usize>)
    ensures
        ahead(f, a + b) == ahead(f, a) + ahead(f, b),
    decreases b.len(),
{
    if b.len() == 0 {
        assert(a + b =~= a);
    } else {
        ahead_of_sum(f, a, b.drop_last());
        assert((a + b).drop_last() =~= a + b.drop_last());
    }
}

proof fn ahead_of_children(f: ForestView, i: int, n: int)
    requires
        well_formed(f),
        0 <= i < f.nodes.len(),
        0 <= n <= f.nodes[i].children.len(),
    ensures
        ahead(f, f.nodes[i].children.take(n)) == inner_count(f, i, n),
    decreases n,
{
    let c = f.nodes[i].children;
    if n > 0 {
        ahead_of_children(f, i, n - 1);
        assert(c.take(n).drop_last() =~= c.take(n - 1));
        assert(c.take(n).last() == c[n - 1]);
        assert(i < c[n - 1] < f.nodes.len());
    }
}

proof fn unfolding_goes_on(f: ForestView, s: Unfolding, limit: u32)
    requires
        well_formed(f),
        queue_fits(f, s.queue),
        s.queue.len() > 0,
    ensures
        ahead(f, unfold_next(f, s, limit).queue) < ahead(f, s.queue),
        queue_fits(f, unfold_next(f, s, limit).queue),
{
    let i = s.queue[0] as int;
    let first = seq![s.queue[0]];
    let rest = s.queue.drop_first();
    let c = f.nodes[i].children;
    assert(s.queue =~= first + rest);
    ahead_of_sum(f, first, rest);
    assert(first.drop_last() =~= Seq::empty());
    assert(ahead(f, first) == count_at(f, i)) by {
        reveal_with_fuel(ahead, 2);
    }
    ahead_of_sum(f, rest, c);
    ahead_of_children(f, i, c.len() as int);
    assert(c.take(c.len() as int) =~= c);
    assert forall|k: int| 0 <= k < (rest + c).len() implies (#[trigger] (rest + c)[k])
        < f.nodes.len() by {
        if k < rest.len() {
            assert(rest[k] == s.queue[k + 1]);
        } else {
            assert((rest + c)[k] == c[k - rest.len()]);
        }
    }
    assert forall|k: int| 0 <= k < rest.len() implies (#[trigger] rest[k]) < f.nodes.len() by {
        assert(rest[k] == s.queue[k + 1]);
    }
}

/// Blocks are unfolded one after the other until enough lines are seen.
pub open spec fn unfolded(f: ForestView, s: Unfolding, until: u32, limit: u32) -> Unfolding
    decreases ahead(f, s.queue),
    when well_formed(f) && queue_fits(f, s.queue)
    via unfolded_ends
{
    if s.queue.len() == 0 || s.visible >= until {
        s
    } else {
        unfolded(f, unfold_next(f, s, limit), until, limit)
    }
}

#[via_fn]
proof fn unfolded_ends(f: ForestView, s: Unfolding, until: u32, limit: u32) {
    if s.queue.len() > 0 && s.visible < until {
        unfolding_goes_on(f, s, limit);
    }
}

/// At first the outermost blocks are folded.
pub open spec fn first_unfolding(f: ForestView, total: u32) -> Unfolding {
    Unfolding {
        folded: also_folded(
            Seq::new(f.nodes.len(), |i: int| false),
            f.roots,
            f.roots.len() as int,
        ),
        queue: f.roots,
        visible: less_or_none(total as int, lines_sum(f, f.roots, f.roots.len() as int)),
    }
}

/// Which blocks are folded in the end.
pub open spec fn folded_blocks(f: ForestView, total: u32, until: u32, limit: u32) -> Seq<bool> {
    let s = first_unfolding(f, total);
    if until == 0 {
        s.folded
    } else {
        unfolded(f, s, until, limit).folded
    }
}

/// The lines of the first `n` blocks that are folded.
pub open spec fn folded_spans(f: ForestView, folded: Seq<bool>, n: int) -> Seq<LineSpan>
    decreases n,
{
    if n <= 0 {
        Seq::empty()
    } else if folded[n - 1] {
        folded_spans(f, folded, n - 1).push(f.nodes[n - 1].span)
    } else {
        folded_spans(f, folded, n - 1)
    }
}

pub open spec fn chosen_spans(f: ForestView, total: u32, until: u32, limit: u32) -> Seq<LineSpan> {
    folded_spans(f, folded_blocks(f, total, until, limit), f.nodes.len() as int)
}

fn lines_sum_of(f: &ElidableForest, v: &Vec<usize>) -> (r: u128)
    requires
        queue_fits(f@, v@),
    ensures
        r == lines_sum(f@, v@, v.len() as int),
{
    let mut r: u128 = 0;
    let mut i: usize = 0;
    while i < v.len()
        invariant
            i <= v.len(),
            queue_fits(f@, v@),
            r == lines_sum(f@, v@, i as int),
            r <= i * 0x1_0000_0000,
        decreases v.len() - i,
    {
        assert(v@[i as int] < f@.nodes.len());
        let l: u32 = f.nodes[v[i]].span.lines();
        r = r + l as u128;
        i = i + 1;
    }
    r
}

fn fold_also(folded: &mut Vec<bool>, v: &Vec<usize>)
    requires
        forall|k: int| 0 <= k < v.len() ==> (#[trigger] v@[k]) < old(folded).len(),
    ensures
        final(folded)@ == also_folded(old(folded)@, v@, v.len() as int),
        final(folded).len() == old(folded).len(),
{
    let mut i: usize = 0;
    while i < v.len()
        invariant
            i <= v.len(),
            folded@ == also_folded(old(folded)@, v@, i as int),
            folded.len() == old(folded).len(),
            forall|k: int| 0 <= k < v.len() ==> (#[trigger] v@[k]) < old(folded).len(),
        decreases v.len() - i,
    {
        folded.set(v[i], true);
        i = i + 1;
    }
}

proof fn children_fit(f: ForestView, i: int)
    requires
        well_formed(f),
        0 <= i < f.nodes.len(),
    ensures
        queue_fits(f, f.nodes[i].children),
{
    assert forall|k: int| 0 <= k < f.nodes[i].children.len() implies (
    #[trigger] f.nodes[i].children[k]) < f.nodes.len() by {
        assert(i < f.nodes[i].children[k] < f.nodes.len());
    }
}

/// The lines of the blocks that are folded: the outermost ones at first; then these are
/// unfolded, the outer ones first, until enough lines are seen, but none by which too many
/// would be.
pub fn select_folded_spans(
    forest: &ElidableForest,
    total_lines: u32,
    unfold_until: u32,
    unfold_limit: u32,
) -> (r: Vec<LineSpan>)
    requires
        well_formed(forest@),
    ensures
        r@ == chosen_spans(forest@, total_lines, unfold_until, unfold_limit),
{
    let ghost f = forest@;
    let count: usize = forest.nodes.len();
    let mut folded: Vec<bool> = Vec::new();
    let mut i: usize = 0;
    while i < count
        invariant
            i <= count,
            folded@ == Seq::new(i as nat, |k: int| false),
        decreases count - i,
    {
        folded.push(false);
        i = i + 1;
        assert(folded@ =~= Seq::new(i as nat, |k: int| false));
    }
    assert(queue_fits(f, f.roots));
    fold_also(&mut folded, &forest.roots);
    let ghost start = first_unfolding(f, total_lines);
    assert(folded@ == start.folded);
    if unfold_until > 0 {
        let sum: u128 = lines_sum_of(forest, &forest.roots);
        let mut visible: u32 = if (total_lines as u128) > sum {
            (total_lines as u128 - sum) as u32
        } else {
            0
        };
        let mut queue: VecDeque<usize> = VecDeque::new();
        append_places(&mut queue, &forest.roots);
        assert(queue@ =~= f.roots);
        while queue.len() > 0 && visible < unfold_until
            invariant
                f == forest@,
                well_formed(f),
                count == f.nodes.len(),
                folded.len() == count,
                queue_fits(f, queue@),
                unfolded(f, start, unfold_until, unfold_limit) == unfolded(
                    f,
                    Unfolding { folded: folded@, queue: queue@, visible: visible as int },
                    unfold_until,
                    unfold_limit,
                ),
            decreases ahead(f, queue@),
        {
            let ghost s = Unfolding { folded: folded@, queue: queue@, visible: visible as int };
            proof {
                unfolding_goes_on(f, s, unfold_limit);
            }
            let idx: usize = queue[0];
            let _ = queue.pop_front();
            let ghost queued = queue@;
            assert(queued =~= s.queue.drop_first());
            assert forall|k: int| 0 <= k < queued.len() implies (#[trigger] queued[k])
                < f.nodes.len() by {
                assert(queued[k] == s.queue[k + 1]);
            }
            proof {
                children_fit(f, idx as int);
            }
            let c = &forest.nodes[idx].children;
            assert(c@ == f.nodes[idx as int].children);
            let inner: u128 = lines_sum_of(forest, c);
            let own: u32 = forest.nodes[idx].span.lines();
            let revealed: u64 = if (own as u128) > inner {
                (own as u128 - inner) as u64
            } else {
                0
            };
            let wide: u64 = visible as u64 + revealed;
            let seen: u32 = if wide < u32::MAX as u64 {
                wide as u32
            } else {
                u32::MAX
            };
            assert(seen == seen_after(f, idx as int, visible as int));
            if folded[idx] && seen <= unfold_limit {
                folded.set(idx, false);
                fold_also(&mut folded, c);
                append_places(&mut queue, c);
                visible = seen;
                assert forall|k: int| 0 <= k < queue@.len() implies (#[trigger] queue@[k])
                    < f.nodes.len() by {
                    if k >= queued.len() {
                        assert(queue@[k] == c@[k - queued.len()]);
                    } else {
                        assert(queue@[k] == queued[k]);
                    }
                }
            }
            assert(unfold_next(f, s, unfold_limit) == (Unfolding {
                folded: folded@,
                queue: queue@,
                visible: visible as int,
            }));
        }
        proof {
            let s = Unfolding { folded: folded@, queue: queue@, visible: visible as int };
            assert(unfolded(f, s, unfold_until, unfold_limit) == s);
        }
    }
    let mut r: Vec<LineSpan> = Vec::new();
    let mut j: usize = 0;
    assert(r@ =~= Seq::empty());
    while j < count
        invariant
            j <= count,
            count == f.nodes.len(),
            f == forest@,
            folded.len() == count,
            r@ == folded_spans(f, folded@, j as int),
        decreases count - j,
    {
        if folded[j] {
            r.push(forest.nodes[j].span);
        }
        j = j + 1;
    }
    r
}

fn append_places(v: &mut VecDeque<usize>, more: &Vec<usize>)
    ensures
        final(v)@ == old(v)@ + more@,
{
    let mut i: usize = 0;
    assert(v@ =~= old(v)@ + more@.take(0));
    while i < more.len()
        invariant
            i <= more.len(),
            v@ == old(v)@ + more@.take(i as int),
        decreases more.len() - i,
    {
        v.push_back(more[i]);
        i = i + 1;
        assert(v@ =~= old(v)@ + more@.take(i as int));
    }
    assert(more@.take(i as int) =~= more@);
}

// ── Segments ────────────────────────────────────────────────────────────────

/// Where a span goes among the first `n`: behind all that do not begin after it.
pub open spec fn span_place(v: Seq<LineSpan>, s: LineSpan, n: int) -> int
    decreases n,
{
    if n <= 0 {
        0
    } else if v[n - 1].start > s.start {
        span_place(v, s, n - 1)
    } else {
        n
    }
}

/// The spans in the order in which they begin.
pub open spec fn by_start(v: Seq<LineSpan>) -> Seq<LineSpan>
    decreases v.len(),
{
    if v.len() == 0 {
        Seq::empty()
    } else {
        let w = by_start(v.drop_last());
        w.insert(span_place(w, v.last(), w.len() as int), v.last())
    }
}

proof fn span_place_fits(v: Seq<LineSpan>, s: LineSpan, n: int)
    requires
        0 <= n,
    ensures
        0 <= span_place(v, s, n) <= n,
    decreases n,
{
    if n > 0 && v[n - 1].start > s.start {
        span_place_fits(v, s, n - 1);
    }
}

fn sort_spans(v: &Vec<LineSpan>) -> (r: Vec<LineSpan>)
    ensures
        r@ == by_start(v@),
{
    let mut r: Vec<LineSpan> = Vec::new();
    let mut i: usize = 0;
    assert(r@ =~= by_start(v@.take(0)));
    while i < v.len()
        invariant
            i <= v.len(),
            r@ == by_start(v@.take(i as int)),
        decreases v.len() - i,
    {
        let s = v[i];
        let ghost w = r@;
        let mut p: usize = r.len();
        while p > 0 && r[p - 1].start > s.start
            invariant
                p <= r.len(),
                r@ == w,
                span_place(w, s, w.len() as int) == span_place(w, s, p as int),
            decreases p,
        {
            p = p - 1;
        }
        assert(span_place(w, s, w.len() as int) == p);
        r.insert(p, s);
        assert(v@.take(i + 1).drop_last() =~= v@.take(i as int));
        assert(v@.take(i + 1).last() == s);
        i = i + 1;
    }
    assert(v@.take(i as int) =~= v@);
    r
}

/// The text of some lines, as far as they are there.
pub open spec fn lines_text(lines: Seq<Seq<char>>, start: u32, end: u32) -> Seq<char> {
    let from = at_most(start - 1, lines.len() as int);
    let to = at_most(end as int, lines.len() as int);
    pieces::join(
        lines.subrange(
            from,
            if to < from {
                from
            } else {
                to
            },
        ),
        "\n"@,
    )
}

pub open spec fn kept(lines: Seq<Seq<char>>, start: u32, end: u32) -> SegmentView {
    SummarySegment {
        kind: SegmentKind::Kept,
        start_line: start,
        end_line: end,
        text: Some(lines_text(lines, start, end)),
    }
}

pub open spec fn left_out(start: u32, end: u32) -> SegmentView {
    SummarySegment { kind: SegmentKind::Elided, start_line: start, end_line: end, text: None }
}

/// The next line, as far as it can be counted.
pub open spec fn next_line(l: u32) -> u32 {
    if l == u32::MAX {
        u32::MAX
    } else {
        (l + 1) as u32
    }
}

/// The segments of one folded block, with the lines before it that are not yet covered:
/// its first line is kept, the rest is left out.
pub open spec fn block_segments(lines: Seq<Seq<char>>, s: LineSpan, cursor: u32) -> Seq<SegmentView> {
    (if s.start > cursor {
        seq![kept(lines, cursor, (s.start - 1) as u32)]
    } else {
        Seq::empty()
    }).push(kept(lines, s.start, s.start)) + (if s.end > s.start {
        seq![left_out(next_line(s.start), s.end)]
    } else {
        Seq::empty()
    })
}

/// The segments of the first `n` folded blocks, and the line behind them.
pub open spec fn segments_upto(lines: Seq<Seq<char>>, spans: Seq<LineSpan>, n: int) -> (
    Seq<SegmentView>,
    u32,
)
    decreases n,
{
    if n <= 0 {
        (Seq::empty(), 1)
    } else {
        let (before, cursor) = segments_upto(lines, spans, n - 1);
        (before + block_segments(lines, spans[n - 1], cursor), next_line(spans[n - 1].end))
    }
}

/// The segments of a source with these folded blocks.
pub open spec fn segments(code: Seq<char>, folded: Seq<LineSpan>, total: u32) -> Seq<SegmentView> {
    let lines = pieces::split(code, '\n');
    let spans = by_start(folded);
    let (all, cursor) = segments_upto(lines, spans, spans.len() as int);
    if cursor <= total {
        all.push(kept(lines, cursor, total))
    } else {
        all
    }
}

/// Every span begins at a line.
pub open spec fn spans_begin(v: Seq<LineSpan>) -> bool {
    forall|i: int| 0 <= i < v.len() ==> (#[trigger] v[i]).start > 0
}

fn kept_segment(lines: &Vec<String>, start: u32, end: u32) -> (r: SummarySegment)
    requires
        start > 0,
    ensures
        r.view() == kept(text::texts(lines@), start, end),
{
    let ghost lv = text::texts(lines@);
    assert(lv.len() == lines.len());
    let first: usize = (start - 1) as usize;
    let from: usize = if first < lines.len() {
        first
    } else {
        lines.len()
    };
    let last: usize = if (end as usize) < lines.len() {
        end as usize
    } else {
        lines.len()
    };
    let to: usize = if last < from {
        from
    } else {
        last
    };
    let mut part: Vec<String> = Vec::new();
    let mut i: usize = from;
    assert(text::texts(part@) =~= lv.subrange(from as int, from as int));
    while i < to
        invariant
            from <= i <= to <= lines.len(),
            lv == text::texts(lines@),
            text::texts(part@) == lv.subrange(from as int, i as int),
        decreases to - i,
    {
        let s = copy_text(&lines[i]);
        proof {
            text::lemma_texts_push(part@, s);
        }
        part.push(s);
        i = i + 1;
        assert(text::texts(part@) =~= lv.subrange(from as int, i as int));
    }
    SummarySegment {
        kind: SegmentKind::Kept,
        start_line: start,
        end_line: end,
        text: Some(join_of(&part, "\n")),
    }
}

fn push_segment(v: &mut Vec<SummarySegment>, s: SummarySegment)
    ensures
        segment_views(final(v)@) == segment_views(old(v)@).push(s.view()),
{
    v.push(s);
    assert(segment_views(v@) =~= segment_views(old(v)@).push(s.view()));
}

proof fn sorting_keeps_begins(v: Seq<LineSpan>)
    requires
        spans_begin(v),
    ensures
        spans_begin(by_start(v)),
        by_start(v).len() == v.len(),
    decreases v.len(),
{
    if v.len() > 0 {
        sorting_keeps_begins(v.drop_last());
        let w = by_start(v.drop_last());
        span_place_fits(w, v.last(), w.len() as int);
        let p = span_place(w, v.last(), w.len() as int);
        let r = w.insert(p, v.last());
        assert forall|i: int| 0 <= i < r.len() implies (#[trigger] r[i]).start > 0 by {
            if i < p {
                assert(r[i] == w[i]);
            } else if i > p {
                assert(r[i] == w[i - 1]);
            }
        }
    }
}

/// The segments of a source with these folded blocks.
pub fn emit_segments(code: &str, folded: &Vec<LineSpan>, total: u32) -> (r: Vec<SummarySegment>)
    requires
        spans_begin(folded@),
    ensures
        segment_views(r@) == segments(code@, folded@, total),
{
    let lines = split_of(code, '\n');
    let spans = sort_spans(folded);
    proof {
        sorting_keeps_begins(folded@);
    }
    let ghost lv = text::texts(lines@);
    let mut r: Vec<SummarySegment> = Vec::new();
    let mut cursor: u32 = 1;
    let mut i: usize = 0;
    assert(segment_views(r@) =~= Seq::empty());
    while i < spans.len()
        invariant
            i <= spans.len(),
            spans_begin(spans@),
            lv == text::texts(lines@),
            cursor > 0,
            (segment_views(r@), cursor) == segments_upto(lv, spans@, i as int),
        decreases spans.len() - i,
    {
        let s = spans[i];
        let ghost before = segment_views(r@);
        let ghost was = cursor;
        if s.start > cursor {
            push_segment(&mut r, kept_segment(&lines, cursor, s.start - 1));
        }
        push_segment(&mut r, kept_segment(&lines, s.start, s.start));
        if s.end > s.start {
            push_segment(
                &mut r,
                SummarySegment {
                    kind: SegmentKind::Elided,
                    start_line: s.start + 1,
                    end_line: s.end,
                    text: None,
                },
            );
        }
        assert(segment_views(r@) =~= before + block_segments(lv, s, was));
        cursor = if s.end == u32::MAX {
            u32::MAX
        } else {
            s.end + 1
        };
        i = i + 1;
    }
    if cursor <= total {
        push_segment(&mut r, kept_segment(&lines, cursor, total));
    }
    r
}

// ── Summaries ───────────────────────────────────────────────────────────────

/// The summary of a source that cannot be read.
pub open spec fn unreadable(total: u32) -> SummaryView {
    SummaryView {
        language: None,
        parsed: false,
        elided: false,
        total_lines: total,
        segments: Seq::empty(),
    }
}

fn unparsed(total: u32) -> (r: SummaryResult)
    ensures
        r@ == unreadable(total),
{
    let r = SummaryResult {
        language: None,
        parsed: false,
        elided: false,
        total_lines: total,
        segments: Vec::new(),
    };
    assert(segment_views(r.segments@) =~= Seq::empty());
    r
}

pub open spec fn min_lines(o: SummaryOptions) -> u32 {
    if o.min_body_lines < 2 {
        2
    } else {
        o.min_body_lines
    }
}

pub open spec fn limit_lines(o: SummaryOptions) -> u32 {
    if o.unfold_limit_lines != 0 {
        o.unfold_limit_lines
    } else if o.unfold_until_lines * 2 > u32::MAX {
        u32::MAX
    } else {
        (o.unfold_until_lines * 2) as u32
    }
}

/// The blocks of a source that are folded.
pub open spec fn folded_in(n: Seq<NodeFacts>, total: u32, o: SummaryOptions) -> Seq<LineSpan> {
    chosen_spans(
        forest_of(n, min_lines(o), total, n.len() as int),
        total,
        o.unfold_until_lines,
        limit_lines(o),
    )
}

/// The summary of a source with these nodes.
pub open spec fn summary_of(
    code: Seq<char>,
    n: Seq<NodeFacts>,
    lang: SupportLang,
    o: SummaryOptions,
) -> SummaryView {
    let total = pieces::lines(code).len() as u32;
    let folded = folded_in(n, total, o);
    if n[0].has_error {
        unreadable(total)
    } else {
        SummaryView {
            language: Some(ast::lang_name(lang)),
            parsed: true,
            elided: folded.len() > 0,
            total_lines: total,
            segments: segments(code, folded, total),
        }
    }
}

proof fn forest_spans_begin(n: Seq<NodeFacts>, min: u32, total: u32, m: int)
    requires
        ast::rows_fit(n),
        m <= n.len(),
    ensures
        forall|i: int|
            0 <= i < forest_of(n, min, total, m).nodes.len() ==> (#[trigger] forest_of(
                n,
                min,
                total,
                m,
            ).nodes[i]).span.start > 0,
    decreases m,
{
    if m > 0 {
        forest_spans_begin(n, min, total, m - 1);
        let f = forest_of(n, min, total, m - 1);
        let g = forest_of(n, min, total, m);
        forest_counts(n, min, total, m - 1);
        outer_is_there(n, min, total, m - 1);
        assert forall|i: int| 0 <= i < g.nodes.len() implies (#[trigger] g.nodes[i]).span.start
            > 0 by {
            if i < f.nodes.len() {
                assert(g.nodes[i].span == f.nodes[i].span);
            }
        }
    }
}

proof fn folded_spans_begin(f: ForestView, folded: Seq<bool>, n: int)
    requires
        n <= f.nodes.len(),
        forall|i: int| 0 <= i < f.nodes.len() ==> (#[trigger] f.nodes[i]).span.start > 0,
    ensures
        spans_begin(folded_spans(f, folded, n)),
    decreases n,
{
    if n > 0 {
        folded_spans_begin(f, folded, n - 1);
    }
}

/// The summary of a source, given its nodes.
pub fn summarize_nodes(code: &str, n: &Vec<NodeFacts>, lang: SupportLang, opts: &SummaryOptions) -> (r:
    SummaryResult)
    requires
        text::byte_len(code@) < u32::MAX,
        n.len() > 0,
        ast::rows_fit(n@),
    ensures
        r@ == summary_of(code@, n@, lang, *opts),
{
    let lines = lines_of(code);
    assert(text::texts(lines@).len() == lines.len());
    proof {
        text::lemma_byte_len_fits(code@);
        pieces::lemma_lines_fit(code@);
    }
    let total: u32 = lines.len() as u32;
    if n[0].has_error {
        return unparsed(total);
    }
    let min_body: u32 = if opts.min_body_lines < 2 {
        2
    } else {
        opts.min_body_lines
    };
    let limit: u32 = if opts.unfold_limit_lines != 0 {
        opts.unfold_limit_lines
    } else {
        match opts.unfold_until_lines.checked_mul(2) {
            Some(l) => l,
            None => u32::MAX,
        }
    };
    let forest = collect(n, min_body, total);
    let folded = select_folded_spans(&forest, total, opts.unfold_until_lines, limit);
    proof {
        let f = forest@;
        forest_spans_begin(n@, min_body, total, n.len() as int);
        folded_spans_begin(
            f,
            folded_blocks(f, total, opts.unfold_until_lines, limit),
            f.nodes.len() as int,
        );
    }
    let segs = emit_segments(code, &folded, total);
    SummaryResult {
        language: Some(copy_text(lang.as_str())),
        parsed: true,
        elided: folded.len() > 0,
        total_lines: total,
        segments: segs,
    }
}

/// The summary of a source: its large blocks are folded, and unfolded as far as the options
/// ask for. A source that cannot be read, or that holds a syntax error, has no segments.
pub fn summarize_code(code: &str, lang: SupportLang, opts: &SummaryOptions) -> (r: SummaryResult)
    requires
        text::byte_len(code@) < u32::MAX,
    ensures
        ({
            let name = ast::lang_name(lang);
            let total = pieces::lines(code@).len() as u32;
            if code@.len() == 0 || ast::language_error(name) is Some || ast::parsed_nodes(
                code@,
                name,
            ) is None {
                r@ == unreadable(total)
            } else {
                r@ == summary_of(code@, ast::parsed_nodes(code@, name)->0, lang, *opts)
            }
        }),
{
    let lines = lines_of(code);
    assert(text::texts(lines@).len() == lines.len());
    proof {
        text::lemma_byte_len_fits(code@);
        pieces::lemma_lines_fit(code@);
    }
    let total: u32 = lines.len() as u32;
    if code.is_empty() {
        return unparsed(total);
    }
    match syntax_nodes(code, lang) {
        Ok(Some(n)) => summarize_nodes(code, &n, lang, opts),
        Ok(None) => unparsed(total),
        Err(_) => unparsed(total),
    }
}

// ── What holds of every summary ─────────────────────────────────────────────

/// Spans in order, within the source, with no line in common.
pub open spec fn apart(v: Seq<LineSpan>, total: u32) -> bool {
    &&& forall|i: int|
        0 <= i < v.len() ==> 0 < (#[trigger] v[i]).start <= v[i].end && v[i].end <= total
    &&& forall|i: int, j: int|
        0 <= i < j < v.len() ==> (#[trigger] v[i]).end < (#[trigger] v[j]).start
}

/// The segments follow each other without a gap, from line 1 up to a line.
pub open spec fn contiguous(v: Seq<SegmentView>, last: int) -> bool {
    &&& v.len() == 0 ==> last == 0
    &&& v.len() > 0 ==> v[0].start_line == 1 && v.last().end_line == last
    &&& forall|i: int| 0 <= i < v.len() ==> (#[trigger] v[i]).start_line <= v[i].end_line
    &&& forall|i: int| 0 <= i < v.len() - 1 ==> #[trigger] follows(v, i)
}

/// A segment begins right behind the one before it.
pub open spec fn follows(v: Seq<SegmentView>, i: int) -> bool {
    v[i].end_line + 1 == v[i + 1].start_line
}

proof fn contiguous_push(v: Seq<SegmentView>, s: SegmentView, last: int)
    requires
        contiguous(v, last),
        s.start_line == last + 1,
        s.start_line <= s.end_line,
    ensures
        contiguous(v.push(s), s.end_line as int),
{
    let w = v.push(s);
    assert forall|i: int| 0 <= i < w.len() - 1 implies #[trigger] follows(w, i) by {
        if i < v.len() - 1 {
            assert(follows(v, i));
        }
    }
    assert forall|i: int| 0 <= i < w.len() implies (#[trigger] w[i]).start_line
        <= w[i].end_line by {
        if i < v.len() {
            assert(w[i] == v[i]);
        }
    }
}

proof fn upto_is_contiguous(lines: Seq<Seq<char>>, spans: Seq<LineSpan>, total: u32, n: int)
    requires
        apart(spans, total),
        total < u32::MAX,
        0 <= n <= spans.len(),
    ensures
        ({
            let (v, cursor) = segments_upto(lines, spans, n);
            &&& contiguous(v, cursor - 1)
            &&& n > 0 ==> cursor == spans[n - 1].end + 1
            &&& n == 0 ==> cursor == 1
        }),
    decreases n,
{
    if n > 0 {
        upto_is_contiguous(lines, spans, total, n - 1);
        let (v, cursor) = segments_upto(lines, spans, n - 1);
        let s = spans[n - 1];
        if n > 1 {
            assert(spans[n - 2].end < spans[n - 1].start);
        }
        let a = if s.start > cursor {
            contiguous_push(v, kept(lines, cursor, (s.start - 1) as u32), cursor - 1);
            v.push(kept(lines, cursor, (s.start - 1) as u32))
        } else {
            v
        };
        contiguous_push(a, kept(lines, s.start, s.start), s.start - 1);
        let b = a.push(kept(lines, s.start, s.start));
        let c = if s.end > s.start {
            contiguous_push(b, left_out(next_line(s.start), s.end), s.start as int);
            b.push(left_out(next_line(s.start), s.end))
        } else {
            b
        };
        assert(segments_upto(lines, spans, n).0 =~= c);
    }
}

/// The segments of a summary cover every line of the source once, in order, as long as no
/// two folded blocks share a line.
pub proof fn segments_cover_all_lines(code: Seq<char>, folded: Seq<LineSpan>, total: u32)
    requires
        apart(by_start(folded), total),
        total < u32::MAX,
    ensures
        contiguous(segments(code, folded, total), total as int),
{
    let lines = pieces::split(code, '\n');
    let spans = by_start(folded);
    upto_is_contiguous(lines, spans, total, spans.len() as int);
    let (v, cursor) = segments_upto(lines, spans, spans.len() as int);
    if cursor <= total {
        contiguous_push(v, kept(lines, cursor, total), cursor - 1);
    }
}

/// Blocks lie within the blocks that they stand in.
pub open spec fn nested(f: ForestView) -> bool {
    forall|i: int, k: int|
        0 <= i < f.nodes.len() && 0 <= k < f.nodes[i].children.len() ==> inside(
            f.nodes[(#[trigger] f.nodes[i].children[k]) as int].span,
            f.nodes[i].span,
        )
}

pub open spec fn inside(a: LineSpan, b: LineSpan) -> bool {
    b.start <= a.start && a.end <= b.end
}

/// The lines lie within one of the outermost blocks.
pub open spec fn in_a_root(f: ForestView, s: LineSpan) -> bool {
    exists|r: int|
        0 <= r < f.roots.len() && inside(s, f.nodes[#[trigger] f.roots[r] as int].span)
}

/// Every folded block lies within one of the outermost blocks.
pub open spec fn within_roots(f: ForestView, folded: Seq<bool>) -> bool {
    forall|i: int|
        0 <= i < f.nodes.len() && #[trigger] folded[i] ==> in_a_root(f, f.nodes[i].span)
}

proof fn folding_stays_within(f: ForestView, folded: Seq<bool>, v: Seq<usize>, n: int)
    requires
        folded.len() == f.nodes.len(),
        queue_fits(f, v),
        0 <= n <= v.len(),
        within_roots(f, folded),
        forall|k: int| 0 <= k < v.len() ==> in_a_root(f, f.nodes[#[trigger] v[k] as int].span),
    ensures
        within_roots(f, also_folded(folded, v, n)),
        also_folded(folded, v, n).len() == folded.len(),
    decreases n,
{
    if n > 0 {
        folding_stays_within(f, folded, v, n - 1);
        let before = also_folded(folded, v, n - 1);
        let after = also_folded(folded, v, n);
        assert forall|i: int| 0 <= i < f.nodes.len() && #[trigger] after[i] implies in_a_root(
            f,
            f.nodes[i].span,
        ) by {
            if i != v[n - 1] {
                assert(before[i]);
            } else {
                assert(in_a_root(f, f.nodes[v[n - 1] as int].span));
            }
        }
    }
}

proof fn unfolding_stays_within(f: ForestView, s: Unfolding, until: u32, limit: u32)
    requires
        well_formed(f),
        nested(f),
        queue_fits(f, s.queue),
        s.folded.len() == f.nodes.len(),
        within_roots(f, s.folded),
    ensures
        within_roots(f, unfolded(f, s, until, limit).folded),
        unfolded(f, s, until, limit).folded.len() == f.nodes.len(),
    decreases ahead(f, s.queue),
{
    if s.queue.len() > 0 && s.visible < until {
        unfolding_goes_on(f, s, limit);
        let i = s.queue[0] as int;
        let t = unfold_next(f, s, limit);
        if s.folded[i] && seen_after(f, i, s.visible) <= limit {
            let c = f.nodes[i].children;
            children_fit(f, i);
            let opened = s.folded.update(i, false);
            assert forall|j: int| 0 <= j < f.nodes.len() && #[trigger] opened[j] implies in_a_root(
                f,
                f.nodes[j].span,
            ) by {
                assert(s.folded[j]);
            }
            assert(s.folded[i]);
            let r = choose|r: int|
                0 <= r < f.roots.len() && inside(
                    f.nodes[i].span,
                    f.nodes[#[trigger] f.roots[r] as int].span,
                );
            assert forall|k: int| 0 <= k < c.len() implies in_a_root(
                f,
                f.nodes[#[trigger] c[k] as int].span,
            ) by {
                assert(inside(f.nodes[f.nodes[i].children[k] as int].span, f.nodes[i].span));
                assert(inside(f.nodes[c[k] as int].span, f.nodes[f.roots[r] as int].span));
            }
            folding_stays_within(f, opened, c, c.len() as int);
        }
        unfolding_stays_within(f, t, until, limit);
    }
}

/// Unfolding leaves out nothing that was not left out before: whatever is still folded lies
/// within a block that would be folded without it.
pub proof fn unfolding_hides_no_more(f: ForestView, total: u32, until: u32, limit: u32)
    requires
        well_formed(f),
        nested(f),
    ensures
        within_roots(f, folded_blocks(f, total, until, limit)),
{
    let none = Seq::new(f.nodes.len(), |i: int| false);
    assert forall|k: int| 0 <= k < f.roots.len() implies in_a_root(
        f,
        f.nodes[#[trigger] f.roots[k] as int].span,
    ) by {
        assert(inside(f.nodes[f.roots[k] as int].span, f.nodes[f.roots[k] as int].span));
    }
    folding_stays_within(f, none, f.roots, f.roots.len() as int);
    let s = first_unfolding(f, total);
    assert(queue_fits(f, s.queue));
    unfolding_stays_within(f, s, until, limit);
}

/// Unfolding shows no fewer lines than before, and no more than the limit unless there were
/// more before. It ends early only where no block is left to look at.
pub proof fn unfolding_keeps_the_limit(f: ForestView, s: Unfolding, until: u32, limit: u32)
    requires
        well_formed(f),
        queue_fits(f, s.queue),
        s.visible <= u32::MAX,
    ensures
        s.visible <= unfolded(f, s, until, limit).visible,
        unfolded(f, s, until, limit).visible <= limit || unfolded(f, s, until, limit).visible
            == s.visible,
        unfolded(f, s, until, limit).visible < until ==> unfolded(f, s, until, limit).queue.len()
            == 0,
    decreases ahead(f, s.queue),
{
    if s.queue.len() > 0 && s.visible < until {
        unfolding_goes_on(f, s, limit);
        unfolding_keeps_the_limit(f, unfold_next(f, s, limit), until, limit);
    }
}

// ── What the segments show ──────────────────────────────────────────────────

/// A segment shows what it says it shows: a folded one has no text; the text of any other is
/// made of the lines of the source that it spans, from its first to its last.
pub open spec fn shows_its_lines(code: Seq<char>, g: SegmentView) -> bool {
    let source = pieces::split(code, '\n');
    match g.kind {
        SegmentKind::Elided => g.text is None,
        SegmentKind::Kept => {
            &&& g.start_line >= 1
            &&& match g.text {
                None => false,
                Some(t) => g.start_line <= g.end_line <= source.len() ==> pieces::split(t, '\n')
                    == source.subrange(g.start_line - 1, g.end_line as int),
            }
        },
    }
}

proof fn kept_lines_are_shown(code: Seq<char>, start: u32, end: u32)
    requires
        start > 0,
    ensures
        shows_its_lines(code, kept(pieces::split(code, '\n'), start, end)),
{
    let source = pieces::split(code, '\n');
    let g = kept(source, start, end);
    if g.start_line <= g.end_line <= source.len() {
        let p = source.subrange(start - 1, end as int);
        pieces::fields_join_to_the_text(code, '\n');
        assert forall|i: int, k: int| 0 <= i < p.len() && 0 <= k < p[i].len() implies #[trigger] p[i][k]
            != '\n' by {
            assert(p[i] == source[start - 1 + i]);
        }
        reveal_strlit("\n");
        assert("\n"@ =~= seq!['\n']);
        pieces::joined_fields_read_back(p, '\n');
    }
}

proof fn upto_shows_lines(code: Seq<char>, spans: Seq<LineSpan>, n: int)
    requires
        spans_begin(spans),
        0 <= n <= spans.len(),
    ensures
        ({
            let (v, cursor) = segments_upto(pieces::split(code, '\n'), spans, n);
            cursor > 0 && forall|i: int| 0 <= i < v.len() ==> shows_its_lines(code, #[trigger] v[i])
        }),
    decreases n,
{
    if n > 0 {
        upto_shows_lines(code, spans, n - 1);
        let lines = pieces::split(code, '\n');
        let (v, cursor) = segments_upto(lines, spans, n - 1);
        let s = spans[n - 1];
        let b = block_segments(lines, s, cursor);
        assert forall|i: int| 0 <= i < b.len() implies shows_its_lines(code, #[trigger] b[i]) by {
            if s.start > cursor {
                kept_lines_are_shown(code, cursor, (s.start - 1) as u32);
            }
            kept_lines_are_shown(code, s.start, s.start);
        }
    }
}

/// Every segment of a summary shows what it says it shows: each line that is kept stands in
/// it as it stands in the source, and none of the lines of a folded block does.
pub proof fn segments_show_their_lines(code: Seq<char>, folded: Seq<LineSpan>, total: u32)
    requires
        spans_begin(folded),
    ensures
        forall|i: int|
            0 <= i < segments(code, folded, total).len() ==> shows_its_lines(
                code,
                #[trigger] segments(code, folded, total)[i],
            ),
{
    let spans = by_start(folded);
    sorting_keeps_begins(folded);
    upto_shows_lines(code, spans, spans.len() as int);
    let (v, cursor) = segments_upto(pieces::split(code, '\n'), spans, spans.len() as int);
    kept_lines_are_shown(code, cursor, total);
}

/// Where nothing is folded, the whole source is shown in one segment, but for a line feed at
/// its end.
pub proof fn nothing_folded_shows_the_source(code: Seq<char>)
    requires
        pieces::lines(code).len() <= u32::MAX,
    ensures
        ({
            let total = pieces::lines(code).len() as u32;
            let v = segments(code, Seq::empty(), total);
            &&& code.len() == 0 ==> v.len() == 0
            &&& code.len() > 0 ==> v.len() == 1 && v[0].kind is Kept && v[0].start_line == 1
                && v[0].end_line == total && (v[0].text == Some(code) || (code.last() == '\n'
                && v[0].text == Some(code.drop_last())))
        }),
{
    let source = pieces::split(code, '\n');
    let n = source.len() as int;
    let total = pieces::lines(code).len() as u32;
    let none = Seq::<LineSpan>::empty();
    assert(by_start(none) =~= none);
    let v = segments(code, none, total);
    reveal_strlit("\n");
    assert("\n"@ =~= seq!['\n']);
    pieces::fields_join_to_the_text(code, '\n');
    assert(source.subrange(0, n) =~= source);
    if total == 0 {
        assert(n == 1);
        assert(source[0].len() == 0);
        assert(source.drop_last() =~= Seq::empty());
        assert(pieces::join(source, "\n"@) =~= source[0]);
        assert(code.len() == 0);
    } else if total == n {
        assert(v[0].text == Some(code));
        if code.len() == 0 {
            assert(source.last().len() > 0);
            assert(source =~= seq![Seq::<char>::empty()]);
            assert(false);
        }
    } else {
        assert(total == n - 1);
        let most = source.drop_last();
        assert(most =~= source.subrange(0, n - 1));
        assert(source.last() =~= Seq::empty());
        assert(pieces::join(source, "\n"@) == pieces::join(most, "\n"@) + "\n"@ + source.last());
        assert(code =~= pieces::join(most, "\n"@).push('\n'));
        assert(code.drop_last() =~= pieces::join(most, "\n"@));
    }
}

proof fn place_is_right(v: Seq<LineSpan>, s: LineSpan, n: int)
    requires
        0 <= n <= v.len(),
        forall|i: int, j: int|
            0 <= i < j < v.len() ==> (#[trigger] v[i]).start <= (#[trigger] v[j]).start,
    ensures
        ({
            let p = span_place(v, s, n);
            &&& 0 <= p <= n
            &&& forall|i: int| 0 <= i < p ==> (#[trigger] v[i]).start <= s.start
            &&& forall|i: int| p <= i < n ==> (#[trigger] v[i]).start > s.start
        }),
    decreases n,
{
    if n > 0 && v[n - 1].start > s.start {
        place_is_right(v, s, n - 1);
    } else if n > 0 {
        assert forall|i: int| 0 <= i < n implies (#[trigger] v[i]).start <= s.start by {
            if i < n - 1 {
                assert(v[i].start <= v[n - 1].start);
            }
        }
    }
}

/// Sorting moves blocks about, and does nothing else to them: the same blocks, by the line that
/// they begin with.
pub proof fn sorting_orders_the_blocks(v: Seq<LineSpan>)
    ensures
        by_start(v).to_multiset() == v.to_multiset(),
        forall|i: int, j: int|
            0 <= i < j < by_start(v).len() ==> (#[trigger] by_start(v)[i]).start <= (
            #[trigger] by_start(v)[j]).start,
    decreases v.len(),
{
    broadcast use vstd::seq_lib::group_to_multiset_ensures;
    if v.len() > 0 {
        let d = v.drop_last();
        sorting_orders_the_blocks(d);
        let w = by_start(d);
        let p = span_place(w, v.last(), w.len() as int);
        place_is_right(w, v.last(), w.len() as int);
        let r = w.insert(p, v.last());
        assert forall|i: int, j: int| 0 <= i < j < r.len() implies (#[trigger] r[i]).start <= (
        #[trigger] r[j]).start by {
            if i < p && j < p {
                assert(r[i] == w[i] && r[j] == w[j]);
            } else if i < p && j == p {
                assert(r[i] == w[i]);
            } else if i < p {
                assert(r[i] == w[i] && r[j] == w[j - 1]);
            } else if i == p {
                assert(r[j] == w[j - 1]);
            } else {
                assert(r[i] == w[i - 1] && r[j] == w[j - 1]);
            }
        }
        assert(d.push(v.last()) =~= v);
        assert(r.remove(p) =~= w);
        let m = r.to_multiset();
        assert(w.to_multiset() == m.remove(r[p]));
        assert(r.contains(r[p]));
        assert(m =~= w.to_multiset().insert(v.last()));
    } else {
        assert(by_start(v) =~= v);
    }
}

/// A segment that leaves out these lines.
pub open spec fn leaves_out(g: SegmentView, first: int, last: int) -> bool {
    g.kind is Elided && g.start_line == first && g.end_line == last
}

/// A segment of one line that is kept.
pub open spec fn keeps_line(g: SegmentView, line: int) -> bool {
    g.kind is Kept && g.start_line == line && g.end_line == line
}

/// A block is folded: its first line has a segment of its own, and where it has more lines, a
/// segment right behind that leaves out all of them.
pub open spec fn is_folded_at(v: Seq<SegmentView>, s: LineSpan, i: int) -> bool {
    &&& 0 <= i < v.len()
    &&& keeps_line(v[i], s.start as int)
    &&& s.end > s.start ==> i + 1 < v.len() && leaves_out(v[i + 1], s.start + 1, s.end as int)
}

pub open spec fn is_folded(v: Seq<SegmentView>, s: LineSpan) -> bool {
    exists|i: int| #[trigger] is_folded_at(v, s, i)
}

/// A segment that leaves lines out stands for the lines of a folded block behind its first.
pub open spec fn is_of_a_block(g: SegmentView, spans: Seq<LineSpan>) -> bool {
    exists|k: int|
        0 <= k < spans.len() && leaves_out(
            g,
            (#[trigger] spans[k]).start + 1,
            spans[k].end as int,
        )
}

proof fn still_folded(v: Seq<SegmentView>, w: Seq<SegmentView>, s: LineSpan)
    requires
        is_folded(v, s),
    ensures
        is_folded(v + w, s),
{
    let i = choose|i: int| #[trigger] is_folded_at(v, s, i);
    assert((v + w)[i] == v[i]);
    if s.end > s.start {
        assert((v + w)[i + 1] == v[i + 1]);
    }
    assert(is_folded_at(v + w, s, i));
}

proof fn upto_folds(lines: Seq<Seq<char>>, spans: Seq<LineSpan>, n: int)
    requires
        0 <= n <= spans.len(),
    ensures
        ({
            let v = segments_upto(lines, spans, n).0;
            &&& forall|k: int| 0 <= k < n ==> is_folded(v, #[trigger] spans[k])
            &&& forall|i: int|
                0 <= i < v.len() && (#[trigger] v[i]).kind is Elided ==> is_of_a_block(v[i], spans)
        }),
    decreases n,
{
    if n > 0 {
        upto_folds(lines, spans, n - 1);
        let (v, cursor) = segments_upto(lines, spans, n - 1);
        let s = spans[n - 1];
        let b = block_segments(lines, s, cursor);
        let i: int = if s.start > cursor {
            1
        } else {
            0
        };
        assert((v + b)[v.len() + i] == b[i]);
        if s.end > s.start {
            assert((v + b)[v.len() + i + 1] == b[i + 1]);
        }
        assert(is_folded_at(v + b, s, v.len() + i));
        assert forall|k: int| 0 <= k < n implies is_folded(v + b, #[trigger] spans[k]) by {
            if k < n - 1 {
                still_folded(v, b, spans[k]);
            }
        }
        assert forall|j: int| 0 <= j < (v + b).len() && (
        #[trigger] (v + b)[j]).kind is Elided implies is_of_a_block((v + b)[j], spans) by {
            if j < v.len() {
                assert((v + b)[j] == v[j]);
            } else {
                assert(leaves_out((v + b)[j], spans[n - 1].start + 1, spans[n - 1].end as int));
            }
        }
    }
}

/// Every folded block shows its first line and leaves out the others; nothing else is left out.
pub proof fn blocks_show_their_first_line(code: Seq<char>, folded: Seq<LineSpan>, total: u32)
    ensures
        ({
            let v = segments(code, folded, total);
            &&& forall|k: int| 0 <= k < folded.len() ==> is_folded(v, #[trigger] folded[k])
            &&& forall|i: int|
                0 <= i < v.len() && (#[trigger] v[i]).kind is Elided ==> is_of_a_block(v[i], folded)
        }),
{
    broadcast use vstd::seq_lib::group_to_multiset_ensures;
    let lines = pieces::split(code, '\n');
    let spans = by_start(folded);
    sorting_orders_the_blocks(folded);
    upto_folds(lines, spans, spans.len() as int);
    let (v, cursor) = segments_upto(lines, spans, spans.len() as int);
    let w = segments(code, folded, total);
    if cursor <= total {
        assert(w =~= v + seq![kept(lines, cursor, total)]);
    } else {
        assert(w =~= v + Seq::empty());
    }
    assert forall|k: int| 0 <= k < folded.len() implies is_folded(w, #[trigger] folded[k]) by {
        assert(folded.contains(folded[k]));
        assert(folded.to_multiset().count(folded[k]) > 0);
        assert(spans.contains(folded[k]));
        let j = choose|j: int| 0 <= j < spans.len() && spans[j] == folded[k];
        assert(is_folded(v, spans[j]));
        if cursor <= total {
            still_folded(v, seq![kept(lines, cursor, total)], folded[k]);
        }
    }
    assert forall|i: int| 0 <= i < w.len() && (
    #[trigger] w[i]).kind is Elided implies is_of_a_block(w[i], folded) by {
        assert(w[i] == v[i]);
        let k = choose|k: int|
            0 <= k < spans.len() && leaves_out(
                v[i],
                (#[trigger] spans[k]).start + 1,
                spans[k].end as int,
            );
        assert(is_of_a_block(v[i], spans));
        assert(spans.contains(spans[k]));
        assert(spans.to_multiset().count(spans[k]) > 0);
        assert(folded.contains(spans[k]));
        let j = choose|j: int| 0 <= j < folded.len() && folded[j] == spans[k];
        assert(leaves_out(w[i], folded[j].start + 1, folded[j].end as int));
    }
}

// ── What is folded ──────────────────────────────────────────────────────────

/// A node that has lines enough to be folded, and is not the whole source.
pub open spec fn is_long(n: Seq<NodeFacts>, i: int, min: u32, total: u32) -> bool {
    &&& ast::parent(n, i) >= 0
    &&& node_span(n[i], total).end - node_span(n[i], total).start + 1 >= min
}

/// A node is long, or stands in one that is.
pub open spec fn in_a_long_one(n: Seq<NodeFacts>, i: int, min: u32, total: u32) -> bool
    decreases i + 1,
    via in_a_long_one_ends
{
    i >= 0 && (is_long(n, i, min, total) || (i > 0 && in_a_long_one(
        n,
        ast::parent(n, i),
        min,
        total,
    )))
}

#[via_fn]
proof fn in_a_long_one_ends(n: Seq<NodeFacts>, i: int, min: u32, total: u32) {
    if i > 0 {
        ast::parent_is_before(n, i - 1, n[i].depth as int);
    }
}

/// A long node that stands in no other.
pub open spec fn is_outer(n: Seq<NodeFacts>, i: int, min: u32, total: u32) -> bool {
    is_long(n, i, min, total) && !in_a_long_one(n, ast::parent(n, i), min, total)
}

proof fn scopes_are_long(n: Seq<NodeFacts>, i: int, min: u32, total: u32)
    requires
        min >= 2,
    ensures
        scope(n, i, min, total) is None <==> !in_a_long_one(n, i, min, total),
    decreases i + 1,
{
    if i > 0 {
        ast::parent_is_before(n, i - 1, n[i].depth as int);
        scopes_are_long(n, ast::parent(n, i), min, total);
    }
}

/// The roots of a forest are the outer nodes, by their places among the long ones.
pub open spec fn roots_fit(n: Seq<NodeFacts>, min: u32, total: u32, m: int) -> bool {
    let f = forest_of(n, min, total, m);
    &&& f.nodes.len() == rank(n, m, min, total)
    &&& forall|r: int| 0 <= r < f.roots.len() ==> (#[trigger] f.roots[r]) < f.nodes.len()
    &&& forall|r: int|
        0 <= r < f.roots.len() ==> is_outer_span(n, min, total, m, f.nodes[#[trigger] f.roots[r] as int].span)
    &&& forall|i: int|
        0 <= i < m && is_outer(n, i, min, total) ==> is_root_span(f, node_span(#[trigger] n[i], total))
}

/// Some outer node among the first `m` has these lines.
pub open spec fn is_outer_span(n: Seq<NodeFacts>, min: u32, total: u32, m: int, s: LineSpan) -> bool {
    exists|i: int|
        0 <= i < m && is_outer(n, i, min, total) && node_span(#[trigger] n[i], total) == s
}

/// Some root of the forest has these lines.
pub open spec fn is_root_span(f: ForestView, s: LineSpan) -> bool {
    exists|r: int|
        0 <= r < f.roots.len() && f.nodes[(#[trigger] f.roots[r]) as int].span == s
}

proof fn forest_has_outer_roots(n: Seq<NodeFacts>, min: u32, total: u32, m: int)
    requires
        min >= 2,
        0 <= m <= n.len(),
        n.len() <= usize::MAX,
    ensures
        roots_fit(n, min, total, m),
    decreases m,
{
    if m > 0 {
        forest_has_outer_roots(n, min, total, m - 1);
        let g = forest_of(n, min, total, m - 1);
        let f = forest_of(n, min, total, m);
        let p = ast::parent(n, m - 1);
        scopes_are_long(n, p, min, total);
        rank_is_small(n, min, total, m - 1);
        ast::parent_is_before(n, m - 2, n[m - 1].depth as int);
        let s = node_span(n[m - 1], total);
        if elidable(n, m - 1, min, total) {
            let k = g.nodes.len() as usize;
            if scope(n, p, min, total) is Some {
                outer_is_there(n, min, total, m - 1);
            }
            assert forall|j: int| 0 <= j < g.nodes.len() implies (#[trigger] f.nodes[j]).span
                == g.nodes[j].span by {}
            assert(f.nodes[k as int].span == s);
            assert forall|r: int| 0 <= r < f.roots.len() implies is_outer_span(
                n,
                min,
                total,
                m,
                f.nodes[#[trigger] f.roots[r] as int].span,
            ) by {
                if r < g.roots.len() {
                    let q = g.nodes[g.roots[r] as int].span;
                    assert(is_outer_span(n, min, total, m - 1, q));
                    let i = choose|i: int|
                        0 <= i < m - 1 && is_outer(n, i, min, total) && node_span(
                            #[trigger] n[i],
                            total,
                        ) == q;
                    assert(node_span(n[i], total) == q);
                } else {
                    assert(is_outer(n, m - 1, min, total));
                }
            }
            assert forall|i: int| 0 <= i < m && is_outer(n, i, min, total) implies is_root_span(
                f,
                node_span(#[trigger] n[i], total),
            ) by {
                if i < m - 1 {
                    assert(is_root_span(g, node_span(n[i], total)));
                    let r = choose|r: int|
                        0 <= r < g.roots.len() && g.nodes[(#[trigger] g.roots[r]) as int].span
                            == node_span(n[i], total);
                    assert(f.roots[r] == g.roots[r]);
                } else {
                    assert(f.roots[g.roots.len() as int] == k);
                }
            }
        } else {
            assert forall|r: int| 0 <= r < f.roots.len() implies is_outer_span(
                n,
                min,
                total,
                m,
                f.nodes[#[trigger] f.roots[r] as int].span,
            ) by {
                let q = g.nodes[g.roots[r] as int].span;
                assert(is_outer_span(n, min, total, m - 1, q));
            }
        }
    }
}

proof fn rank_is_small(n: Seq<NodeFacts>, min: u32, total: u32, m: int)
    requires
        0 <= m,
    ensures
        0 <= rank(n, m, min, total) <= m,
    decreases m,
{
    if m > 0 {
        rank_is_small(n, min, total, m - 1);
    }
}

proof fn only_these_are_folded(folded: Seq<bool>, v: Seq<usize>, n: int, j: int)
    requires
        0 <= n <= v.len(),
        forall|k: int| 0 <= k < v.len() ==> (#[trigger] v[k]) < folded.len(),
        0 <= j < folded.len(),
        j <= usize::MAX,
    ensures
        also_folded(folded, v, n).len() == folded.len(),
        also_folded(folded, v, n)[j] <==> folded[j] || v.take(n).contains(j as usize),
    decreases n,
{
    if n > 0 {
        only_these_are_folded(folded, v, n - 1, j);
        let a = v.take(n - 1);
        let b = v.take(n);
        assert(b =~= a.push(v[n - 1]));
        assert(b[n - 1] == v[n - 1]);
        if a.contains(j as usize) {
            let k = choose|k: int| 0 <= k < a.len() && a[k] == j as usize;
            assert(b[k] == j as usize);
        }
        if b.contains(j as usize) {
            let k = choose|k: int| 0 <= k < b.len() && b[k] == j as usize;
            if k < n - 1 {
                assert(a[k] == j as usize);
            }
        }
    } else {
        assert(v.take(0).len() == 0);
    }
}

proof fn spans_of_folded(f: ForestView, folded: Seq<bool>, n: int, s: LineSpan)
    requires
        0 <= n <= f.nodes.len(),
        folded.len() == f.nodes.len(),
    ensures
        folded_spans(f, folded, n).contains(s) <==> exists|j: int|
            0 <= j < n && folded[j] && (#[trigger] f.nodes[j]).span == s,
    decreases n,
{
    if n > 0 {
        spans_of_folded(f, folded, n - 1, s);
        let a = folded_spans(f, folded, n - 1);
        let b = folded_spans(f, folded, n);
        if b.contains(s) {
            let k = choose|k: int| 0 <= k < b.len() && b[k] == s;
            if k < a.len() {
                assert(a[k] == s);
                assert(a.contains(s));
                let j = choose|j: int|
                    0 <= j < n - 1 && folded[j] && (#[trigger] f.nodes[j]).span == s;
                assert(f.nodes[j].span == s);
            } else {
                assert(f.nodes[n - 1].span == s);
            }
        }
        if exists|j: int| 0 <= j < n && folded[j] && (#[trigger] f.nodes[j]).span == s {
            let j = choose|j: int| 0 <= j < n && folded[j] && (#[trigger] f.nodes[j]).span == s;
            if j < n - 1 {
                assert(a.contains(s));
                let k = choose|k: int| 0 <= k < a.len() && a[k] == s;
                assert(b[k] == s);
            } else {
                assert(b[b.len() - 1] == s);
            }
        }
    }
}

/// Where nothing is to be unfolded, what is folded is every node that is long enough and stands
/// in no other that is; nothing else is.
pub proof fn outer_nodes_are_folded(n: Seq<NodeFacts>, total: u32, o: SummaryOptions, s: LineSpan)
    requires
        o.unfold_until_lines == 0,
        n.len() <= usize::MAX,
    ensures
        folded_in(n, total, o).contains(s) <==> is_outer_span(
            n,
            if o.min_body_lines < 2 {
                2
            } else {
                o.min_body_lines
            },
            total,
            n.len() as int,
            s,
        ),
{
    let min = min_lines(o);
    let f = forest_of(n, min, total, n.len() as int);
    forest_has_outer_roots(n, min, total, n.len() as int);
    rank_is_small(n, min, total, n.len() as int);
    let none = Seq::new(f.nodes.len(), |i: int| false);
    let folded = also_folded(none, f.roots, f.roots.len() as int);
    assert(f.roots.take(f.roots.len() as int) =~= f.roots);
    if f.nodes.len() > 0 {
        only_these_are_folded(none, f.roots, f.roots.len() as int, 0);
    } else {
        assert(f.roots.len() == 0) by {
            if f.roots.len() > 0 {
                assert(f.roots[0] < f.nodes.len());
            }
        }
    }
    assert(folded.len() == f.nodes.len());
    spans_of_folded(f, folded, f.nodes.len() as int, s);
    if folded_in(n, total, o).contains(s) {
        let j = choose|j: int|
            0 <= j < f.nodes.len() && folded[j] && (#[trigger] f.nodes[j]).span == s;
        only_these_are_folded(none, f.roots, f.roots.len() as int, j);
        assert(f.roots.contains(j as usize));
        let r = choose|r: int| 0 <= r < f.roots.len() && f.roots[r] == j as usize;
        assert(is_outer_span(n, min, total, n.len() as int, f.nodes[f.roots[r] as int].span));
    }
    if is_outer_span(n, min, total, n.len() as int, s) {
        let i = choose|i: int|
            0 <= i < n.len() && is_outer(n, i, min, total) && node_span(#[trigger] n[i], total)
                == s;
        assert(is_root_span(f, node_span(n[i], total)));
        let r = choose|r: int|
            0 <= r < f.roots.len() && f.nodes[(#[trigger] f.roots[r]) as int].span == s;
        let j = f.roots[r] as int;
        only_these_are_folded(none, f.roots, f.roots.len() as int, j);
        assert(f.roots.contains(j as usize));
        assert(f.nodes[j].span == s);
    }
}

} // verus!
