//! What a pattern of syntax is made of, and which sources can be held against it.
use ast_grep_core::matcher::PatternNode;
use ast_grep_core::meta_var::MetaVariable;
use vstd::prelude::*;

use crate::ast::NodeFacts;

verus! {

/// What stands for nodes in a pattern.
#[derive(Debug)]
pub enum MetaVar<S = String> {
    /// `$X`: one node under a name; whether it has to be a named one.
    Capture(S, bool),
    /// `$_`: one node; whether it has to be a named one.
    Dropped(bool),
    /// `$$$`: any number of nodes.
    Multiple,
    /// `$$$X`: any number of nodes under a name.
    MultiCapture(S),
}

impl MetaVar {
    pub open spec fn view(&self) -> MetaVar<Seq<char>> {
        match self {
            MetaVar::Capture(n, b) => MetaVar::Capture(n@, *b),
            MetaVar::Dropped(b) => MetaVar::Dropped(*b),
            MetaVar::Multiple => MetaVar::Multiple,
            MetaVar::MultiCapture(n) => MetaVar::MultiCapture(n@),
        }
    }
}

/// A pattern as a tree.
#[derive(Debug)]
pub enum PatternTree {
    Var(MetaVar),
    /// A node without others in it.
    Leaf { text: String, named: bool, kind: u16 },
    Inner { kind: u16, children: Vec<PatternTree> },
}

/// A pattern as a tree, as specifications speak of it.
pub enum TreeView {
    Var(MetaVar<Seq<char>>),
    Leaf { text: Seq<char>, named: bool, kind: u16 },
    Inner { kind: u16, children: Seq<TreeView> },
}

impl PatternTree {
    pub open spec fn view(&self) -> TreeView
        decreases self,
    {
        match self {
            PatternTree::Var(v) => TreeView::Var(v.view()),
            PatternTree::Leaf { text, named, kind } => TreeView::Leaf {
                text: text@,
                named: *named,
                kind: *kind,
            },
            PatternTree::Inner { kind, children } => TreeView::Inner {
                kind: *kind,
                children: Seq::new(
                    children@.len(),
                    |i: int|
                        if 0 <= i < children@.len() {
                            children@[i].view()
                        } else {
                            TreeView::Var(MetaVar::Multiple)
                        },
                ),
            },
        }
    }
}

#[verifier::external_type_specification]
#[verifier::external_body]
pub struct ExPatternNode(PatternNode);

/// The tree that a node of a pattern is.
pub uninterp spec fn tree_held(n: PatternNode) -> TreeView;

/// The variants of `ast_grep_core::matcher::PatternNode` and of
/// `ast_grep_core::meta_var::MetaVariable`, one for one.
#[verifier::external_body]
pub(crate) fn tree_of(n: PatternNode) -> (r: PatternTree)
    ensures
        r@ == tree_held(n),
{
    match n {
        PatternNode::MetaVar { meta_var } => PatternTree::Var(match meta_var {
            MetaVariable::Capture(name, named) => MetaVar::Capture(name, named),
            MetaVariable::Dropped(named) => MetaVar::Dropped(named),
            MetaVariable::Multiple => MetaVar::Multiple,
            MetaVariable::MultiCapture(name) => MetaVar::MultiCapture(name),
        }),
        PatternNode::Terminal { text, is_named, kind_id } =>
            PatternTree::Leaf { text, named: is_named, kind: kind_id },
        PatternNode::Internal { kind_id, children } => {
            let children = children.into_iter().map(tree_of).collect();
            PatternTree::Inner { kind: kind_id, children }
        },
    }
}

// ── Kinds ───────────────────────────────────────────────────────────────────

/// The kind of what cannot be read.
pub const UNREADABLE: u16 = 65535;

/// Whether a part of a pattern of the one kind is held against a node of the other: what
/// cannot be read is held against everything.
pub open spec fn same_kind(part: u16, node: u16) -> bool {
    part == node || part == UNREADABLE
}

/// Whether a pattern is nothing but something that cannot be read.
pub open spec fn is_unreadable(t: TreeView) -> bool {
    t matches TreeView::Leaf { kind, .. } && kind == UNREADABLE
}

pub open spec fn is_token(t: TreeView) -> bool {
    t matches TreeView::Leaf { named, .. } && !named
}

pub open spec fn is_ellipsis(t: TreeView) -> bool {
    t matches TreeView::Var(v) && (v is Multiple || v is MultiCapture)
}

/// `$$$` without a name.
pub open spec fn is_bare_ellipsis(t: TreeView) -> bool {
    t matches TreeView::Var(v) && v is Multiple
}

pub open spec fn token_kind(t: TreeView) -> u16 {
    match t {
        TreeView::Leaf { kind, .. } => kind,
        _ => UNREADABLE,
    }
}

/// Whether a node may be taken for a part of a pattern.
pub open spec fn may_be(t: TreeView, n: NodeFacts) -> bool {
    match t {
        TreeView::Var(v) => match v {
            MetaVar::Capture(_, named) => !named || n.named,
            MetaVar::Dropped(named) => !named || n.named,
            _ => true,
        },
        TreeView::Leaf { kind, .. } => same_kind(kind, n.kind),
        TreeView::Inner { kind, .. } => same_kind(kind, n.kind),
    }
}

pub open spec fn views(v: Seq<PatternTree>) -> Seq<TreeView> {
    Seq::new(v.len(), |i: int| v[i].view())
}

proof fn inner_view(kind: u16, children: Vec<PatternTree>)
    ensures
        (PatternTree::Inner { kind, children })@ == (TreeView::Inner {
            kind,
            children: views(children@),
        }),
{
    let t = PatternTree::Inner { kind, children };
    assert(t@->children =~= views(children@));
}

fn same_kind_of(part: u16, node: u16) -> (r: bool)
    ensures
        r == same_kind(part, node),
{
    part == node || part == UNREADABLE
}

fn token(t: &PatternTree) -> (r: bool)
    ensures
        r == is_token(t@),
{
    match t {
        PatternTree::Leaf { named, .. } => !*named,
        _ => false,
    }
}

fn ellipsis(t: &PatternTree) -> (r: bool)
    ensures
        r == is_ellipsis(t@),
{
    match t {
        PatternTree::Var(MetaVar::Multiple) => true,
        PatternTree::Var(MetaVar::MultiCapture(_)) => true,
        _ => false,
    }
}

fn bare_ellipsis(t: &PatternTree) -> (r: bool)
    ensures
        r == is_bare_ellipsis(t@),
{
    match t {
        PatternTree::Var(MetaVar::Multiple) => true,
        _ => false,
    }
}

fn token_kind_of(t: &PatternTree) -> (r: u16)
    ensures
        r == token_kind(t@),
{
    match t {
        PatternTree::Leaf { kind, .. } => *kind,
        _ => UNREADABLE,
    }
}

fn may_be_of(t: &PatternTree, n: &NodeFacts) -> (r: bool)
    ensures
        r == may_be(t@, *n),
{
    match t {
        PatternTree::Var(v) => match v {
            MetaVar::Capture(_, named) => !*named || n.named,
            MetaVar::Dropped(named) => !*named || n.named,
            _ => true,
        },
        PatternTree::Leaf { kind, .. } => same_kind_of(*kind, n.kind),
        PatternTree::Inner { kind, .. } => same_kind_of(*kind, n.kind),
    }
}

// ── Nodes in nodes ──────────────────────────────────────────────────────────

/// The nodes from the `i`-th on that stand directly in the `s`-th.
pub open spec fn held_from(n: Seq<NodeFacts>, s: int, i: int) -> Seq<NodeFacts>
    decreases n.len() - i,
{
    if i >= n.len() || n[i].depth <= n[s].depth {
        Seq::empty()
    } else if n[i].depth == n[s].depth + 1 {
        seq![n[i]] + held_from(n, s, i + 1)
    } else {
        held_from(n, s, i + 1)
    }
}

/// The nodes that stand directly in a node.
pub open spec fn held_in(n: Seq<NodeFacts>, s: int) -> Seq<NodeFacts> {
    held_from(n, s, s + 1)
}

fn held_in_of(n: &Vec<NodeFacts>, s: usize) -> (r: Vec<NodeFacts>)
    requires
        s < n.len(),
    ensures
        r@ == held_in(n@, s as int),
{
    let mut r: Vec<NodeFacts> = Vec::new();
    let mut i: usize = s + 1;
    while i < n.len() && n[i].depth > n[s].depth
        invariant
            s < i <= n.len(),
            held_in(n@, s as int) == r@ + held_from(n@, s as int, i as int),
        decreases n.len() - i,
    {
        if n[i].depth - 1 == n[s].depth {
            r.push(n[i]);
        }
        i = i + 1;
        assert(held_in(n@, s as int) =~= r@ + held_from(n@, s as int, i as int));
    }
    assert(held_from(n@, s as int, i as int) =~= Seq::empty());
    assert(r@ + Seq::<NodeFacts>::empty() =~= r@);
    r
}

// ── Ellipses that are taken for one node ────────────────────────────────────

/// The first of the tokens that stand right before the `k`-th part.
pub open spec fn run_start(g: Seq<TreeView>, k: int) -> int
    decreases k,
{
    if k > 0 && is_token(g[k - 1]) {
        run_start(g, k - 1)
    } else {
        k
    }
}

/// Whether nodes, from one on, hold no named one in the places of the tokens before the `k`-th
/// part, and the last of these tokens where there are more nodes than tokens.
pub open spec fn clear_from(g: Seq<TreeView>, k: int, c: Seq<NodeFacts>, from: int) -> bool {
    let behind = from + (k - run_start(g, k));
    &&& forall|j: int| from <= j < behind && j < c.len() ==> !(#[trigger] c[j]).named
    &&& behind < c.len() ==> same_kind(token_kind(g[k - 1]), c[behind - 1].kind)
}

/// Whether the tokens before the `k`-th part are sure to be found among some nodes, wherever
/// these come to be held against them.
pub open spec fn found_before(g: Seq<TreeView>, k: int, c: Seq<NodeFacts>) -> bool {
    let a = run_start(g, k);
    if a == 0 {
        clear_from(g, k, c, 0)
    } else {
        is_ellipsis(g[a - 1]) || forall|j: int|
            0 <= j < c.len() && may_be(g[a - 1], #[trigger] c[j]) ==> clear_from(g, k, c, j + 1)
    }
}

pub open spec fn is_behind_token(g: Seq<TreeView>, k: int) -> bool {
    0 < k < g.len() && is_ellipsis(g[k]) && is_token(g[k - 1])
}

/// The last of the first `n` parts that is an ellipsis without a name behind a token, or 0.
pub open spec fn last_bare(g: Seq<TreeView>, n: int) -> int
    decreases n,
{
    if n <= 0 {
        0
    } else if is_behind_token(g, n - 1) && is_bare_ellipsis(g[n - 1]) {
        n - 1
    } else {
        last_bare(g, n - 1)
    }
}

/// Whether no ellipsis without a name among parts of a pattern comes to be held against a single
/// node. A token of the pattern that is not found is passed over where the matching is lax,
/// and then what stands behind it is held against the next node.
pub open spec fn ellipses_kept(g: Seq<TreeView>, c: Seq<NodeFacts>) -> bool {
    forall|k: int|
        0 < k <= last_bare(g, g.len() as int) && #[trigger] is_behind_token(g, k) ==> found_before(
            g,
            k,
            c,
        )
}

proof fn run_is_before(g: Seq<TreeView>, k: int)
    ensures
        run_start(g, k) <= k,
    decreases k,
{
    if k > 0 && is_token(g[k - 1]) {
        run_is_before(g, k - 1);
    }
}

fn run_start_of(g: &Vec<PatternTree>, k: usize) -> (r: usize)
    requires
        k <= g.len(),
    ensures
        r == run_start(views(g@), k as int),
        r <= k,
{
    let mut i: usize = k;
    while i > 0 && token(&g[i - 1])
        invariant
            i <= k <= g.len(),
            run_start(views(g@), k as int) == run_start(views(g@), i as int),
        decreases i,
    {
        i = i - 1;
    }
    i
}

fn clear_from_of(g: &Vec<PatternTree>, k: usize, c: &Vec<NodeFacts>, from: usize) -> (r: bool)
    requires
        0 < k < g.len(),
        is_token(views(g@)[k - 1]),
        from <= c.len(),
    ensures
        r == clear_from(views(g@), k as int, c@, from as int),
{
    let tokens: usize = k - run_start_of(g, k);
    assert(views(g@)[k - 1] == g@[k - 1]@);
    proof {
        run_is_before(views(g@), k - 1);
    }
    let mut j: usize = from;
    while j < c.len() && j - from < tokens
        invariant
            from <= j <= c.len(),
            j - from <= tokens,
            tokens == k - run_start(views(g@), k as int),
            forall|i: int| from <= i < j ==> !(#[trigger] c@[i]).named,
        decreases c.len() - j,
    {
        if c[j].named {
            assert(c@[j as int].named);
            return false;
        }
        j = j + 1;
    }
    c.len() - from <= tokens || same_kind_of(token_kind_of(&g[k - 1]), c[from + tokens - 1].kind)
}

fn found_before_of(g: &Vec<PatternTree>, k: usize, c: &Vec<NodeFacts>) -> (r: bool)
    requires
        is_behind_token(views(g@), k as int),
    ensures
        r == found_before(views(g@), k as int, c@),
{
    let a: usize = run_start_of(g, k);
    if a == 0 {
        return clear_from_of(g, k, c, 0);
    }
    assert(views(g@)[a - 1] == g@[a - 1]@);
    if ellipsis(&g[a - 1]) {
        return true;
    }
    let mut j: usize = 0;
    while j < c.len()
        invariant
            j <= c.len(),
            0 < a <= k,
            a == run_start(views(g@), k as int),
            !is_ellipsis(views(g@)[a - 1]),
            is_behind_token(views(g@), k as int),
            views(g@)[a - 1] == g@[a - 1]@,
            forall|i: int|
                0 <= i < j && may_be(views(g@)[a - 1], #[trigger] c@[i]) ==> clear_from(
                    views(g@),
                    k as int,
                    c@,
                    i + 1,
                ),
        decreases c.len() - j,
    {
        if may_be_of(&g[a - 1], &c[j]) && !clear_from_of(g, k, c, j + 1) {
            assert(may_be(views(g@)[a - 1], c@[j as int]));
            return false;
        }
        j = j + 1;
    }
    true
}

fn behind_token(g: &Vec<PatternTree>, k: usize) -> (r: bool)
    requires
        k < g.len(),
    ensures
        r == is_behind_token(views(g@), k as int),
{
    assert(views(g@)[k as int] == g@[k as int]@);
    k > 0 && ellipsis(&g[k]) && token(&g[k - 1])
}

fn last_bare_of(g: &Vec<PatternTree>) -> (r: usize)
    ensures
        r == last_bare(views(g@), g.len() as int),
        g.len() > 0 ==> r < g.len(),
        g.len() == 0 ==> r == 0,
{
    let mut n: usize = g.len();
    while n > 0
        invariant
            n <= g.len(),
            last_bare(views(g@), g.len() as int) == last_bare(views(g@), n as int),
        decreases n,
    {
        n = n - 1;
        assert(views(g@)[n as int] == g@[n as int]@);
        if behind_token(g, n) && bare_ellipsis(&g[n]) {
            return n;
        }
    }
    0
}

fn ellipses_kept_of(g: &Vec<PatternTree>, c: &Vec<NodeFacts>) -> (r: bool)
    ensures
        r == ellipses_kept(views(g@), c@),
{
    let last: usize = last_bare_of(g);
    let mut k: usize = 0;
    while k < last
        invariant
            k <= last,
            last < g.len() || last == 0,
            last == last_bare(views(g@), g.len() as int),
            forall|i: int|
                0 < i <= k && #[trigger] is_behind_token(views(g@), i) ==> found_before(
                    views(g@),
                    i,
                    c@,
                ),
        decreases last - k,
    {
        k = k + 1;
        if behind_token(g, k) && !found_before_of(g, k, c) {
            assert(is_behind_token(views(g@), k as int));
            return false;
        }
    }
    assert(views(g@).len() == g.len());
    true
}

/// Whether that holds of a pattern, wherever it is held against a source with these nodes.
pub open spec fn is_steady(t: TreeView, n: Seq<NodeFacts>) -> bool
    decreases t,
{
    match t {
        TreeView::Inner { kind, children } => {
            &&& forall|s: int|
                0 <= s < n.len() && same_kind(kind, (#[trigger] n[s]).kind) ==> ellipses_kept(
                    children,
                    held_in(n, s),
                )
            &&& forall|i: int| 0 <= i < children.len() ==> is_steady(#[trigger] children[i], n)
        },
        _ => true,
    }
}

fn kept_everywhere(kind: u16, g: &Vec<PatternTree>, n: &Vec<NodeFacts>) -> (r: bool)
    ensures
        r == forall|s: int|
            0 <= s < n@.len() && same_kind(kind, (#[trigger] n@[s]).kind) ==> ellipses_kept(
                views(g@),
                held_in(n@, s),
            ),
{
    let mut s: usize = 0;
    while s < n.len()
        invariant
            s <= n.len(),
            forall|i: int|
                0 <= i < s && same_kind(kind, (#[trigger] n@[i]).kind) ==> ellipses_kept(
                    views(g@),
                    held_in(n@, i),
                ),
        decreases n.len() - s,
    {
        if same_kind_of(kind, n[s].kind) {
            let c = held_in_of(n, s);
            if !ellipses_kept_of(g, &c) {
                assert(same_kind(kind, n@[s as int].kind));
                return false;
            }
        }
        s = s + 1;
    }
    true
}

fn steady(t: &PatternTree, n: &Vec<NodeFacts>) -> (r: bool)
    ensures
        r == is_steady(t@, n@),
    decreases t,
{
    match t {
        PatternTree::Inner { kind, children } => {
            proof {
                inner_view(*kind, *children);
            }
            let ghost g = views(children@);
            assert(g.len() == children.len());
            if !kept_everywhere(*kind, children, n) {
                return false;
            }
            let mut i: usize = 0;
            while i < children.len()
                invariant
                    i <= children.len(),
                    g == views(children@),
                    g.len() == children.len(),
                    t@ == (TreeView::Inner { kind: *kind, children: g }),
                    t == (PatternTree::Inner { kind: *kind, children: *children }),
                    forall|k: int| 0 <= k < i ==> is_steady(#[trigger] g[k], n@),
                decreases children.len() - i,
            {
                assert(g[i as int] == children@[i as int]@);
                if !steady(&children[i], n) {
                    assert(!is_steady(t@, n@)) by {
                        reveal_with_fuel(is_steady, 2);
                        let c = t@->children;
                        assert(c[i as int] == g[i as int]);
                        assert(!is_steady(c[i as int], n@));
                    }
                    return false;
                }
                i = i + 1;
            }
            true
        },
        _ => true,
    }
}

/// Whether a pattern can be held against a source with these nodes. An ellipsis without a name
/// stands for nodes in a node, and for none alone.
pub open spec fn can_be_sought(t: TreeView, lax: bool, n: Seq<NodeFacts>) -> bool {
    !is_bare_ellipsis(t) && (lax ==> is_steady(t, n))
}

/// Tests whether a pattern can be held against a source with these nodes.
pub fn seekable(t: &PatternTree, lax: bool, n: &Vec<NodeFacts>) -> (r: bool)
    ensures
        r == can_be_sought(t@, lax, n@),
{
    !bare_ellipsis(t) && (!lax || steady(t, n))
}

// ── Where a match ends ──────────────────────────────────────────────────────

/// Whether all nodes of a kind begin with a token.
pub open spec fn all_begin_with(kind: u16, token: u16, n: Seq<NodeFacts>) -> bool {
    forall|s: int|
        0 <= s < n.len() && same_kind(kind, (#[trigger] n[s]).kind) && held_in(n, s).len() > 0
            ==> same_kind(token, held_in(n, s)[0].kind)
}

/// Whether the first part of a pattern is never passed over.
pub open spec fn begins_firmly(kind: u16, g: Seq<TreeView>, n: Seq<NodeFacts>) -> bool {
    g.len() > 0 && (g[0] is Var || (is_token(g[0]) && all_begin_with(kind, token_kind(g[0]), n)))
}

/// Whether some part of a pattern is never passed over, so that a match has an end.
pub open spec fn is_firm(t: TreeView, lax: bool, n: Seq<NodeFacts>) -> bool
    decreases t,
{
    match t {
        TreeView::Var(v) => !lax || (match v {
            MetaVar::Capture(_, named) => named,
            MetaVar::Dropped(named) => named,
            _ => false,
        }),
        TreeView::Leaf { named, .. } => !lax || named,
        TreeView::Inner { kind, children } => begins_firmly(kind, children, n) || exists|i: int|
            0 <= i < children.len() && is_firm(#[trigger] children[i], lax, n),
    }
}

fn all_begin_of(kind: u16, token: u16, n: &Vec<NodeFacts>) -> (r: bool)
    ensures
        r == all_begin_with(kind, token, n@),
{
    let mut s: usize = 0;
    while s < n.len()
        invariant
            s <= n.len(),
            forall|i: int|
                0 <= i < s && same_kind(kind, (#[trigger] n@[i]).kind) && held_in(n@, i).len() > 0
                    ==> same_kind(token, held_in(n@, i)[0].kind),
        decreases n.len() - s,
    {
        if same_kind_of(kind, n[s].kind) {
            let c = held_in_of(n, s);
            if c.len() > 0 && !same_kind_of(token, c[0].kind) {
                assert(same_kind(kind, n@[s as int].kind));
                return false;
            }
        }
        s = s + 1;
    }
    true
}

fn firm(t: &PatternTree, lax: bool, n: &Vec<NodeFacts>) -> (r: bool)
    ensures
        r == is_firm(t@, lax, n@),
    decreases t,
{
    match t {
        PatternTree::Var(v) => !lax || (match v {
            MetaVar::Capture(_, named) => *named,
            MetaVar::Dropped(named) => *named,
            _ => false,
        }),
        PatternTree::Leaf { named, .. } => !lax || *named,
        PatternTree::Inner { kind, children } => {
            proof {
                inner_view(*kind, *children);
            }
            let ghost g = views(children@);
            assert(g.len() == children.len());
            if children.len() > 0 {
                assert(g[0] == children@[0]@);
                let var = match &children[0] {
                    PatternTree::Var(_) => true,
                    _ => false,
                };
                if var || (token(&children[0]) && all_begin_of(
                    *kind,
                    token_kind_of(&children[0]),
                    n,
                )) {
                    return true;
                }
            }
            let mut i: usize = 0;
            while i < children.len()
                invariant
                    i <= children.len(),
                    g == views(children@),
                    t == (PatternTree::Inner { kind: *kind, children: *children }),
                    forall|k: int| 0 <= k < i ==> !is_firm(#[trigger] g[k], lax, n@),
                decreases children.len() - i,
            {
                assert(g[i as int] == children@[i as int]@);
                if firm(&children[i], lax, n) {
                    proof {
                        inner_view(*kind, *children);
                    }
                    assert(is_firm(g[i as int], lax, n@));
                    return true;
                }
                i = i + 1;
            }
            false
        },
    }
}

/// Whether what a pattern finds in a source with these nodes can be replaced.
pub open spec fn can_be_replaced(t: TreeView, lax: bool, n: Seq<NodeFacts>) -> bool {
    can_be_sought(t, lax, n) && (t is Inner ==> is_firm(t, lax, n))
}

/// Tests whether what a pattern finds in a source with these nodes can be replaced.
pub fn replaceable(t: &PatternTree, lax: bool, n: &Vec<NodeFacts>) -> (r: bool)
    ensures
        r == can_be_replaced(t@, lax, n@),
{
    let inner = match t {
        PatternTree::Inner { .. } => true,
        _ => false,
    };
    seekable(t, lax, n) && (!inner || firm(t, lax, n))
}

} // verus!
