//! Blocks of source code, found in its syntax tree.
use std::collections::BTreeSet;

use tree_sitter::{Language, Parser, Point, Tree};
use vstd::prelude::*;
use vstd::std_specs::cmp::OrdSpec;
use vstd::std_specs::iter::IteratorSpec;

use crate::pieces;
use crate::pieces::lines_of;
use crate::secrets::lower_of;
use crate::text;
use crate::text::{cat, chars_of, same};

verus! {

// ── Languages ───────────────────────────────────────────────────────────────

#[derive(Clone, Copy, Debug, PartialEq, Eq, Structural)]
pub enum SupportLang {
    Rust,
    Python,
    JavaScript,
    TypeScript,
    Go,
}

pub open spec fn lang_name(l: SupportLang) -> Seq<char> {
    match l {
        SupportLang::Rust => "rust"@,
        SupportLang::Python => "python"@,
        SupportLang::JavaScript => "javascript"@,
        SupportLang::TypeScript => "typescript"@,
        SupportLang::Go => "go"@,
    }
}

/// The language of files with an extension.
pub open spec fn lang_of_extension(e: Seq<char>) -> Option<SupportLang> {
    if e == "rs"@ {
        Some(SupportLang::Rust)
    } else if e == "py"@ || e == "pyi"@ {
        Some(SupportLang::Python)
    } else if e == "js"@ || e == "mjs"@ || e == "cjs"@ || e == "jsx"@ {
        Some(SupportLang::JavaScript)
    } else if e == "ts"@ || e == "mts"@ || e == "cts"@ || e == "tsx"@ {
        Some(SupportLang::TypeScript)
    } else if e == "go"@ {
        Some(SupportLang::Go)
    } else {
        None
    }
}

/// The language that a word names.
pub open spec fn lang_of_name(s: Seq<char>) -> Option<SupportLang> {
    let n = text::lower(s);
    if n == "rust"@ || n == "rs"@ {
        Some(SupportLang::Rust)
    } else if n == "python"@ || n == "py"@ {
        Some(SupportLang::Python)
    } else if n == "javascript"@ || n == "js"@ {
        Some(SupportLang::JavaScript)
    } else if n == "typescript"@ || n == "ts"@ {
        Some(SupportLang::TypeScript)
    } else if n == "go"@ || n == "golang"@ {
        Some(SupportLang::Go)
    } else {
        None
    }
}

/// A path without what leads nowhere at its end: slashes, and dots behind slashes.
pub open spec fn without_end(p: Seq<char>) -> Seq<char>
    decreases p.len(),
{
    if p.len() > 0 && p.last() == '/' {
        without_end(p.drop_last())
    } else if p.len() > 1 && p.last() == '.' && p[p.len() - 2] == '/' {
        without_end(p.drop_last())
    } else {
        p
    }
}

/// The name of the file that a path leads to: the last of its names that is not a lone dot.
pub open spec fn file_part(p: Seq<char>) -> Seq<char> {
    let q = without_end(p);
    q.skip(pieces::last_index_of_char(q, '/') + 1)
}

/// A path that is taken apart in the same way on every system: only slashes part its names,
/// and it names no machine.
pub open spec fn is_portable(p: Seq<char>) -> bool {
    !text::has_char(p, '\\') && !text::has_char(p, ':') && !text::matches_at(p, "//"@, 0)
}

/// The extension of the name of a file: what stands behind its last dot, unless that is
/// its first character.
pub open spec fn name_extension(p: Seq<char>) -> Option<Seq<char>> {
    let i = pieces::last_index_of_char(p, '.');
    if p == ".."@ || i <= 0 {
        None
    } else {
        Some(p.skip(i + 1))
    }
}

pub open spec fn opt_text(o: Option<String>) -> Option<Seq<char>> {
    match o {
        Some(s) => Some(s@),
        None => None,
    }
}

/// `std::path::Path::extension`: what stands behind the last dot of the name of the file.
/// A lone dot behind a slash is passed over. Of paths with a backslash or a colon, and of those
/// that name a machine, nothing is claimed: how these are taken apart depends on the system.
#[verifier::external_body]
fn path_extension(path: &str) -> (r: Option<String>)
    ensures
        is_portable(path@) ==> opt_text(r) == name_extension(file_part(path@)),
{
    std::path::Path::new(path).extension().and_then(|e| e.to_str()).map(|e| e.to_string())
}

#[verifier::external_type_specification]
#[verifier::external_body]
pub struct ExLanguage(Language);

/// The language that a grammar is for.
pub uninterp spec fn grammar_name(l: Language) -> Seq<char>;

impl SupportLang {
    /// The language of a file with this extension.
    pub fn from_extension(e: &str) -> (r: Option<SupportLang>)
        ensures
            r == lang_of_extension(e@),
    {
        if same(e, "rs") {
            Some(SupportLang::Rust)
        } else if same(e, "py") || same(e, "pyi") {
            Some(SupportLang::Python)
        } else if same(e, "js") || same(e, "mjs") || same(e, "cjs") || same(e, "jsx") {
            Some(SupportLang::JavaScript)
        } else if same(e, "ts") || same(e, "mts") || same(e, "cts") || same(e, "tsx") {
            Some(SupportLang::TypeScript)
        } else if same(e, "go") {
            Some(SupportLang::Go)
        } else {
            None
        }
    }

    /// The language of a file, by its extension.
    pub fn from_path(path: &str) -> (r: Option<SupportLang>)
        ensures
            is_portable(path@) ==> r == (match name_extension(file_part(path@)) {
                Some(e) => lang_of_extension(e),
                None => None,
            }),
    {
        match path_extension(path) {
            Some(e) => SupportLang::from_extension(&e),
            None => None,
        }
    }

    pub fn as_str(self) -> (r: &'static str)
        ensures
            r@ == lang_name(self),
    {
        match self {
            SupportLang::Rust => "rust",
            SupportLang::Python => "python",
            SupportLang::JavaScript => "javascript",
            SupportLang::TypeScript => "typescript",
            SupportLang::Go => "go",
        }
    }

    pub fn parse(s: &str) -> (r: Option<SupportLang>)
        ensures
            r == lang_of_name(s@),
    {
        let n = lower_of(s);
        if same(&n, "rust") || same(&n, "rs") {
            Some(SupportLang::Rust)
        } else if same(&n, "python") || same(&n, "py") {
            Some(SupportLang::Python)
        } else if same(&n, "javascript") || same(&n, "js") {
            Some(SupportLang::JavaScript)
        } else if same(&n, "typescript") || same(&n, "ts") {
            Some(SupportLang::TypeScript)
        } else if same(&n, "go") || same(&n, "golang") {
            Some(SupportLang::Go)
        } else {
            None
        }
    }

    /// The grammars `tree_sitter_rust::LANGUAGE`, `tree_sitter_python::LANGUAGE`,
    /// `tree_sitter_javascript::LANGUAGE`, `tree_sitter_typescript::LANGUAGE_TYPESCRIPT` and
    /// `tree_sitter_go::LANGUAGE`: each is the grammar of its language.
    #[verifier::external_body]
    pub fn ts_language(self) -> (r: Language)
        ensures
            grammar_name(r) == lang_name(self),
    {
        match self {
            SupportLang::Rust => tree_sitter_rust::LANGUAGE.into(),
            SupportLang::Python => tree_sitter_python::LANGUAGE.into(),
            SupportLang::JavaScript => tree_sitter_javascript::LANGUAGE.into(),
            SupportLang::TypeScript => tree_sitter_typescript::LANGUAGE_TYPESCRIPT.into(),
            SupportLang::Go => tree_sitter_go::LANGUAGE.into(),
        }
    }
}

proof fn lower_keeps(s: Seq<char>)
    requires
        forall|i: int| 0 <= i < s.len() ==> text::is_lower(#[trigger] s[i]),
    ensures
        text::lower(s) == s,
{
    assert(text::lower(s) =~= s);
}

/// A language is read back from its own name.
pub proof fn name_reads_back(l: SupportLang)
    ensures
        lang_of_name(lang_name(l)) == Some(l),
{
    reveal_strlit("rust");
    reveal_strlit("rs");
    reveal_strlit("python");
    reveal_strlit("py");
    reveal_strlit("javascript");
    reveal_strlit("js");
    reveal_strlit("typescript");
    reveal_strlit("ts");
    reveal_strlit("go");
    reveal_strlit("golang");
    lower_keeps(lang_name(l));
    assert("python"@[0] != "rust"@[0]);
    assert("javascript"@[0] != "rust"@[0]);
    assert("typescript"@[0] != "rust"@[0]);
    assert("go"@[0] != "rust"@[0]);
    assert("javascript"@[0] != "python"@[0]);
    assert("typescript"@[0] != "python"@[0]);
    assert("go"@[0] != "python"@[0]);
    assert("typescript"@[0] != "javascript"@[0]);
    assert("go"@[0] != "javascript"@[0]);
    assert("go"@[0] != "typescript"@[0]);
}

// ── Syntax trees ────────────────────────────────────────────────────────────

#[verifier::external_type_specification]
#[verifier::external_body]
pub struct ExParser(Parser);

#[verifier::external_type_specification]
#[verifier::external_body]
pub struct ExTree(Tree);

/// What is known of a node of a syntax tree.
#[derive(Clone, Copy, Debug, PartialEq, Eq, Structural)]
pub struct NodeFacts {
    /// The row in which it begins, from 0.
    pub start_row: usize,
    /// The row in which it ends, from 0.
    pub end_row: usize,
    pub named: bool,
    /// Whether there is a syntax error in it.
    pub has_error: bool,
    /// How many nodes it stands in.
    pub depth: usize,
    /// The number of its kind in the grammar.
    pub kind: u16,
}

/// The language that a parser is set to.
pub uninterp spec fn parser_language(p: Parser) -> Seq<char>;

/// The source that a tree was made from, and its language.
pub uninterp spec fn tree_source(t: Tree) -> (Seq<char>, Seq<char>);

/// The numbers of a tree's nodes, in the order in which they begin, the outer ones first.
pub uninterp spec fn tree_ids(t: Tree) -> Seq<usize>;

/// Why a parser does not take the grammar of a language, if it does not.
pub uninterp spec fn language_error(lang: Seq<char>) -> Option<Seq<char>>;

/// The nodes of a source's syntax tree, in the order in which they begin, the outer ones
/// first; nothing where there is no tree.
pub uninterp spec fn parsed_nodes(code: Seq<char>, lang: Seq<char>) -> Option<Seq<NodeFacts>>;

/// The smallest named node of a source's syntax tree that spans some columns of a row, by its
/// place among the nodes.
pub uninterp spec fn node_spanning(
    code: Seq<char>,
    lang: Seq<char>,
    row: nat,
    from: nat,
    to: nat,
) -> Option<int>;

/// `tree_sitter::Parser::new` and `tree_sitter::Parser::set_language`: a parser for the
/// language of the grammar, or why it does not take it.
#[verifier::external_body]
fn new_parser(language: &Language) -> (r: Result<Parser, String>)
    ensures
        match r {
            Ok(p) => parser_language(p) == grammar_name(*language) && language_error(
                grammar_name(*language),
            ) is None,
            Err(e) => language_error(grammar_name(*language)) == Some(e@),
        },
{
    let mut parser = Parser::new();
    parser.set_language(language).map_err(|e| e.to_string())?;
    Ok(parser)
}

/// The nodes of a tree.
pub open spec fn tree_nodes(t: Tree) -> Seq<NodeFacts> {
    parsed_nodes(tree_source(t).0, tree_source(t).1)->0
}

/// `tree_sitter::Parser::parse` without an older tree: the tree of the source, if there is
/// one. A row is counted for each line end, so none is larger than the number of
/// characters.
#[verifier::external_body]
fn parse(parser: &mut Parser, code: &str) -> (r: Option<Tree>)
    requires
        text::byte_len(code@) < u32::MAX,
    ensures
        parser_language(*final(parser)) == parser_language(*old(parser)),
        match r {
            Some(t) => {
                &&& tree_source(t) == (code@, parser_language(*old(parser)))
                &&& parsed_nodes(code@, parser_language(*old(parser))) is Some
                &&& tree_nodes(t).len() > 0
                &&& forall|i: int|
                    0 <= i < tree_nodes(t).len() ==> (#[trigger] tree_nodes(t)[i]).start_row
                        <= code@.len() && tree_nodes(t)[i].end_row <= code@.len()
            },
            None => parsed_nodes(code@, parser_language(*old(parser))) is None,
        },
{
    parser.parse(code, None)
}

/// `tree_sitter::Node::descendant_count` of the root: how many nodes a tree has, the root
/// among them.
#[verifier::external_body]
fn node_count(t: &Tree) -> (r: usize)
    ensures
        r == tree_nodes(*t).len(),
{
    t.root_node().descendant_count()
}

/// `tree_sitter::TreeCursor::goto_descendant` and what the cursor then tells of its node.
#[verifier::external_body]
fn node_facts(t: &Tree, i: usize) -> (r: NodeFacts)
    requires
        i < tree_nodes(*t).len(),
    ensures
        r == tree_nodes(*t)[i as int],
{
    let mut c = t.walk();
    c.goto_descendant(i);
    let n = c.node();
    NodeFacts {
        start_row: n.start_position().row,
        end_row: n.end_position().row,
        named: n.is_named(),
        has_error: n.has_error(),
        depth: c.depth() as usize,
        kind: n.kind_id(),
    }
}

/// `tree_sitter::Node::id` of a node by its place.
#[verifier::external_body]
fn node_id(t: &Tree, i: usize) -> (r: usize)
    requires
        i < tree_nodes(*t).len(),
    ensures
        r == tree_ids(*t)[i as int],
{
    let mut c = t.walk();
    c.goto_descendant(i);
    c.node().id()
}

/// `tree_sitter::Node::named_descendant_for_point_range` of the root, for columns of one row:
/// the number of the smallest named node that spans them. No two nodes of a tree have the
/// same number.
#[verifier::external_body]
fn spanning_id(t: &Tree, row: usize, from: usize, to: usize) -> (r: Option<usize>)
    requires
        row < u32::MAX,
        from <= to < u32::MAX,
    ensures
        ({
            let (code, lang) = tree_source(*t);
            match r {
                Some(id) => {
                    &&& node_spanning(code, lang, row as nat, from as nat, to as nat) matches Some(k)
                        && 0 <= k < tree_nodes(*t).len() && tree_ids(*t)[k] == id
                    &&& forall|i: int, j: int|
                        0 <= i < j < tree_nodes(*t).len() ==> #[trigger] tree_ids(*t)[i]
                            != #[trigger] tree_ids(*t)[j]
                },
                None => node_spanning(code, lang, row as nat, from as nat, to as nat) is None,
            }
        }),
{
    let (start, end) = (Point::new(row, from), Point::new(row, to));
    t.root_node().named_descendant_for_point_range(start, end).map(|n| n.id())
}

/// The nodes of a source, in the order in which they begin, or why there are none.
pub fn syntax_nodes(code: &str, lang: SupportLang) -> (r: Result<Option<Vec<NodeFacts>>, String>)
    requires
        text::byte_len(code@) < u32::MAX,
    ensures
        match r {
            Err(e) => language_error(lang_name(lang)) matches Some(x) && e@ == "set_language: "@
                + x,
            Ok(None) => language_error(lang_name(lang)) is None && parsed_nodes(
                code@,
                lang_name(lang),
            ) is None,
            Ok(Some(v)) => {
                &&& language_error(lang_name(lang)) is None
                &&& parsed_nodes(code@, lang_name(lang)) == Some(v@)
                &&& v.len() > 0
                &&& rows_fit(v@)
            },
        },
{
    proof {
        text::lemma_byte_len_fits(code@);
    }
    let mut parser = match new_parser(&lang.ts_language()) {
        Ok(p) => p,
        Err(e) => {
            return Err(cat("set_language: ", &e));
        },
    };
    match parse(&mut parser, code) {
        Some(t) => Ok(Some(nodes_of(&t))),
        None => Ok(None),
    }
}

/// No row is so large that its line could not be counted.
pub open spec fn rows_fit(n: Seq<NodeFacts>) -> bool {
    forall|i: int|
        0 <= i < n.len() ==> (#[trigger] n[i]).start_row < u32::MAX && n[i].end_row < u32::MAX
}

fn nodes_of(t: &Tree) -> (r: Vec<NodeFacts>)
    ensures
        r@ == tree_nodes(*t),
{
    let count: usize = node_count(t);
    let mut r: Vec<NodeFacts> = Vec::new();
    let mut i: usize = 0;
    while i < count
        invariant
            i <= count,
            count == tree_nodes(*t).len(),
            r@ == tree_nodes(*t).take(i as int),
        decreases count - i,
    {
        r.push(node_facts(t, i));
        i = i + 1;
        assert(r@ =~= tree_nodes(*t).take(i as int));
    }
    assert(r@ =~= tree_nodes(*t));
    r
}

// ── The tree behind the list ────────────────────────────────────────────────

/// The node at or before `j` that stands less deep.
pub open spec fn holder_from(n: Seq<NodeFacts>, j: int, depth: int) -> int
    decreases j + 1,
{
    if j < 0 {
        -1
    } else if n[j].depth < depth {
        j
    } else {
        holder_from(n, j - 1, depth)
    }
}

/// The node that a node stands in, or -1 for the root.
pub open spec fn parent(n: Seq<NodeFacts>, i: int) -> int {
    holder_from(n, i - 1, n[i].depth as int)
}

pub proof fn parent_is_before(n: Seq<NodeFacts>, j: int, depth: int)
    ensures
        holder_from(n, j, depth) <= j || j < 0,
        holder_from(n, j, depth) >= -1,
        j < 0 ==> holder_from(n, j, depth) == -1,
    decreases j + 1,
{
    if j >= 0 && n[j].depth >= depth {
        parent_is_before(n, j - 1, depth);
    }
}

/// The place of the node that a node stands in; nothing for the root.
pub fn parent_of(n: &Vec<NodeFacts>, i: usize) -> (r: Option<usize>)
    requires
        i < n.len(),
    ensures
        match r {
            Some(p) => p == parent(n@, i as int) && p < i,
            None => parent(n@, i as int) == -1,
        },
{
    let d: usize = n[i].depth;
    let mut j: usize = i;
    while j > 0
        invariant
            j <= i < n.len(),
            d == n@[i as int].depth,
            parent(n@, i as int) == holder_from(n@, j - 1, d as int),
        decreases j,
    {
        if n[j - 1].depth < d {
            return Some(j - 1);
        }
        j = j - 1;
    }
    None
}

// ── The block at a line ─────────────────────────────────────────────────────

/// The lines of a block, from 1, the last one too.
#[derive(Clone, Copy, Debug, PartialEq, Eq, Structural)]
pub struct BlockRange {
    pub start_line: u32,
    pub end_line: u32,
}

/// How far a line is indented; nothing for a blank one.
pub open spec fn indent(line: Seq<char>, i: int) -> Option<nat>
    decreases line.len() - i,
{
    if i >= line.len() {
        None
    } else if line[i] == ' ' || line[i] == '\t' {
        indent(line, i + 1)
    } else {
        Some(i as nat)
    }
}

pub fn first_content_col(line: &str) -> (r: Option<usize>)
    ensures
        match r {
            Some(c) => indent(line@, 0) == Some(c as nat) && c < line@.len(),
            None => indent(line@, 0) is None,
        },
{
    let v = chars_of(line);
    let mut i: usize = 0;
    while i < v.len()
        invariant
            i <= v.len(),
            v@ == line@,
            indent(line@, 0) == indent(line@, i as int),
        decreases v.len() - i,
    {
        if v[i] != ' ' && v[i] != '\t' {
            return Some(i);
        }
        i = i + 1;
    }
    None
}

/// The outermost node around a node that begins in the same row, the root left out.
pub open spec fn outermost(n: Seq<NodeFacts>, i: int, row: nat) -> int
    decreases i,
    via outermost_ends
{
    let p = parent(n, i);
    if i <= 0 || p <= 0 || n[p].start_row != row {
        i
    } else {
        outermost(n, p, row)
    }
}

#[via_fn]
proof fn outermost_ends(n: Seq<NodeFacts>, i: int, row: nat) {
    parent_is_before(n, i - 1, n[i].depth as int);
}

/// The block that a node belongs to, if it begins in this row and holds no syntax error.
pub open spec fn block_of(n: Seq<NodeFacts>, leaf: Option<int>, row: nat) -> Option<BlockRange> {
    match leaf {
        None => None,
        Some(k) => {
            let o = n[outermost(n, k, row)];
            if n[k].start_row != row || o.has_error {
                None
            } else {
                Some(
                    BlockRange {
                        start_line: (o.start_row + 1) as u32,
                        end_line: (o.end_row + 1) as u32,
                    },
                )
            }
        },
    }
}

/// The column at which the text of a line begins, if the source has that line and it is
/// not blank.
pub open spec fn content_col(code: Seq<char>, line: u32) -> Option<nat> {
    let l = pieces::lines(code);
    if line == 0 || code.len() == 0 || line > l.len() {
        None
    } else {
        indent(l[line - 1], 0)
    }
}

/// The block that begins at a line.
pub open spec fn block_at(code: Seq<char>, line: u32, lang: SupportLang) -> Result<
    Option<BlockRange>,
    Seq<char>,
> {
    let name = lang_name(lang);
    match content_col(code, line) {
        None => Ok(None),
        Some(col) => match language_error(name) {
            Some(e) => Err("set_language: "@ + e),
            None => match parsed_nodes(code, name) {
                None => Ok(None),
                Some(n) => Ok(
                    block_of(
                        n,
                        node_spanning(code, name, (line - 1) as nat, col, col + 1),
                        (line - 1) as nat,
                    ),
                ),
            },
        },
    }
}

/// The block of a leaf, given the nodes: the outermost one that begins in the same row.
pub fn block_from_nodes(n: &Vec<NodeFacts>, leaf: Option<usize>, row: usize) -> (r: Option<
    BlockRange,
>)
    requires
        rows_fit(n@),
        leaf matches Some(k) ==> k < n.len(),
    ensures
        r == block_of(
            n@,
            match leaf {
                Some(k) => Some(k as int),
                None => None,
            },
            row as nat,
        ),
{
    let k = match leaf {
        Some(k) => k,
        None => {
            return None;
        },
    };
    if n[k].start_row != row {
        return None;
    }
    let mut i: usize = k;
    let mut more: bool = true;
    while more
        invariant
            i <= k < n.len(),
            more ==> outermost(n@, k as int, row as nat) == outermost(n@, i as int, row as nat),
            !more ==> outermost(n@, k as int, row as nat) == i,
        decreases (if more {
            i + 1
        } else {
            0
        }),
    {
        match parent_of(n, i) {
            Some(p) => {
                if p == 0 || n[p].start_row != row {
                    more = false;
                } else {
                    i = p;
                }
            },
            None => {
                more = false;
            },
        }
    }
    let o = n[i];
    if o.has_error {
        None
    } else {
        Some(
            BlockRange { start_line: o.start_row as u32 + 1, end_line: o.end_row as u32 + 1 },
        )
    }
}

fn place_of(t: &Tree, id: usize, count: usize) -> (r: Option<usize>)
    requires
        count == tree_nodes(*t).len(),
    ensures
        match r {
            Some(k) => k < count && tree_ids(*t)[k as int] == id,
            None => forall|i: int| 0 <= i < count ==> #[trigger] tree_ids(*t)[i] != id,
        },
{
    let mut i: usize = 0;
    while i < count
        invariant
            i <= count,
            count == tree_nodes(*t).len(),
            forall|j: int| 0 <= j < i ==> #[trigger] tree_ids(*t)[j] != id,
        decreases count - i,
    {
        if node_id(t, i) == id {
            return Some(i);
        }
        i = i + 1;
    }
    None
}

pub open spec fn text_result(r: Result<Option<BlockRange>, String>) -> Result<
    Option<BlockRange>,
    Seq<char>,
> {
    match r {
        Ok(b) => Ok(b),
        Err(e) => Err(e@),
    }
}

/// The block of a source that begins at a line: the outermost node that begins there, the
/// whole file left out. There is none at a blank line, behind the last line, where nothing
/// begins, or where there is a syntax error in it.
pub fn block_range_at(code: &str, line: u32, lang: SupportLang) -> (r: Result<
    Option<BlockRange>,
    String,
>)
    requires
        text::byte_len(code@) < u32::MAX,
    ensures
        text_result(r) == block_at(code@, line, lang),
{
    proof {
        text::lemma_byte_len_fits(code@);
    }
    if line == 0 || code.is_empty() {
        return Ok(None);
    }
    let row: usize = (line - 1) as usize;
    let lines = lines_of(code);
    let ghost lv = pieces::lines(code@);
    assert(lv.len() == lines.len());
    if row >= lines.len() {
        return Ok(None);
    }
    assert(lv[row as int] == lines@[row as int]@);
    proof {
        pieces::lemma_lines_fit(code@);
    }
    let col: usize = match first_content_col(&lines[row]) {
        Some(c) => c,
        None => {
            return Ok(None);
        },
    };
    let mut parser = match new_parser(&lang.ts_language()) {
        Ok(p) => p,
        Err(e) => {
            return Err(cat("set_language: ", &e));
        },
    };
    let tree = match parse(&mut parser, code) {
        Some(t) => t,
        None => {
            return Ok(None);
        },
    };
    let nodes = nodes_of(&tree);
    let leaf = match spanning_id(&tree, row, col, col + 1) {
        Some(id) => place_of(&tree, id, nodes.len()),
        None => None,
    };
    Ok(block_from_nodes(&nodes, leaf, row))
}

// ── Blocks that reach out of a window ───────────────────────────────────────

/// Lines that are shown, from 1, the last one too.
#[derive(Clone, Copy, Debug, PartialEq, Eq, Structural)]
pub struct LineRange {
    pub start_line: u32,
    pub end_line: u32,
}

pub open spec fn is_range(r: LineRange) -> bool {
    r.start_line > 0 && r.end_line >= r.start_line
}

pub open spec fn within(r: LineRange, line: u32) -> bool {
    r.start_line <= line <= r.end_line
}

/// A line is shown: one of the ranges that make sense holds it.
pub open spec fn shown(ranges: Seq<LineRange>, line: u32) -> bool {
    exists|i: int|
        0 <= i < ranges.len() && is_range(ranges[i]) && within(#[trigger] ranges[i], line)
}

/// Ranges in order, with at least one line between each two.
pub open spec fn separated(v: Seq<LineRange>) -> bool {
    &&& forall|i: int| 0 <= i < v.len() ==> is_range(#[trigger] v[i])
    &&& forall|i: int, j: int|
        0 <= i < j < v.len() ==> (#[trigger] v[i]).end_line + 1 < (#[trigger] v[j]).start_line
}

fn insert_range(v: &mut Vec<LineRange>, r: LineRange)
    requires
        by_start(old(v)@),
    ensures
        by_start(final(v)@),
        exists|p: int|
            0 <= p <= old(v)@.len() && final(v)@ == #[trigger] old(v)@.insert(p, r),
{
    let mut p: usize = v.len();
    while p > 0 && v[p - 1].start_line > r.start_line
        invariant
            p <= v.len(),
            v@ == old(v)@,
            by_start(v@),
            forall|j: int| p <= j < v.len() ==> (#[trigger] v@[j]).start_line > r.start_line,
        decreases p,
    {
        p = p - 1;
    }
    v.insert(p, r);
    assert(v@ == old(v)@.insert(p as int, r));
}

pub open spec fn by_start(v: Seq<LineRange>) -> bool {
    forall|i: int, j: int|
        0 <= i <= j < v.len() ==> (#[trigger] v[i]).start_line <= (#[trigger] v[j]).start_line
}

fn sorted_ranges(ranges: &Vec<LineRange>) -> (v: Vec<LineRange>)
    ensures
        by_start(v@),
        forall|i: int| 0 <= i < v.len() ==> is_range(#[trigger] v@[i]),
        forall|line: u32| shown(v@, line) == shown(ranges@, line),
{
    let mut v: Vec<LineRange> = Vec::new();
    let mut i: usize = 0;
    while i < ranges.len()
        invariant
            i <= ranges.len(),
            by_start(v@),
            forall|j: int| 0 <= j < v.len() ==> is_range(#[trigger] v@[j]),
            forall|line: u32| shown(v@, line) == shown(ranges@.take(i as int), line),
        decreases ranges.len() - i,
    {
        let r = ranges[i];
        let ghost before = v@;
        let ghost done = ranges@.take(i as int);
        let ghost next = ranges@.take(i + 1);
        assert(next =~= done.push(r));
        if r.start_line > 0 && r.end_line >= r.start_line {
            insert_range(&mut v, r);
            let ghost p = choose|p: int|
                0 <= p <= before.len() && v@ == #[trigger] before.insert(p, r);
            assert forall|line: u32| shown(v@, line) == shown(next, line) by {
                assert(shown(before, line) == shown(done, line));
                if shown(v@, line) {
                    let k = choose|k: int|
                        0 <= k < v@.len() && is_range(v@[k]) && within(#[trigger] v@[k], line);
                    if k == p {
                        assert(within(next[i as int], line));
                    } else {
                        let m = if k < p {
                            k
                        } else {
                            k - 1
                        };
                        assert(within(before[m], line));
                        let q = choose|q: int|
                            0 <= q < done.len() && is_range(done[q]) && within(
                                #[trigger] done[q],
                                line,
                            );
                        assert(within(next[q], line));
                    }
                }
                if shown(next, line) {
                    let q = choose|q: int|
                        0 <= q < next.len() && is_range(next[q]) && within(#[trigger] next[q], line);
                    if q == i {
                        assert(within(v@[p], line));
                    } else {
                        assert(within(done[q], line));
                        let m = choose|m: int|
                            0 <= m < before.len() && is_range(before[m]) && within(
                                #[trigger] before[m],
                                line,
                            );
                        let k = if m < p {
                            m
                        } else {
                            m + 1
                        };
                        assert(within(v@[k], line));
                    }
                }
            }
        } else {
            assert forall|line: u32| shown(v@, line) == shown(next, line) by {
                assert(shown(before, line) == shown(done, line));
                if shown(next, line) {
                    let q = choose|q: int|
                        0 <= q < next.len() && is_range(next[q]) && within(#[trigger] next[q], line);
                    assert(q < i);
                    assert(within(done[q], line));
                }
                if shown(done, line) {
                    let q = choose|q: int|
                        0 <= q < done.len() && is_range(done[q]) && within(#[trigger] done[q], line);
                    assert(within(next[q], line));
                }
            }
        }
        i = i + 1;
    }
    assert(ranges@.take(i as int) =~= ranges@);
    v
}

/// The same lines in separate ranges, in order. Ranges that make no sense are left out;
/// those that overlap or touch become one.
pub fn normalize_ranges(ranges: &Vec<LineRange>) -> (m: Vec<LineRange>)
    ensures
        separated(m@),
        forall|line: u32| shown(m@, line) == shown(ranges@, line),
{
    let v = sorted_ranges(ranges);
    let mut m: Vec<LineRange> = Vec::new();
    let mut i: usize = 0;
    while i < v.len()
        invariant
            i <= v.len(),
            by_start(v@),
            forall|j: int| 0 <= j < v.len() ==> is_range(#[trigger] v@[j]),
            separated(m@),
            m.len() > 0 ==> i > 0 && m@.last().start_line <= v@[i - 1].start_line,
            forall|line: u32| shown(m@, line) == shown(v@.take(i as int), line),
        decreases v.len() - i,
    {
        let r = v[i];
        let ghost before = m@;
        let ghost done = v@.take(i as int);
        let ghost next = v@.take(i + 1);
        assert(next =~= done.push(r));
        assert(is_range(v@[i as int]));
        assert(i > 0 ==> v@[i - 1].start_line <= v@[i as int].start_line);
        let n: usize = m.len();
        if n > 0 && (m[n - 1].end_line == u32::MAX || r.start_line <= m[n - 1].end_line + 1) {
            let last = m[n - 1];
            let end_line: u32 = if last.end_line >= r.end_line {
                last.end_line
            } else {
                r.end_line
            };
            let merged = LineRange { start_line: last.start_line, end_line };
            m.set(n - 1, merged);
            assert forall|line: u32| shown(m@, line) == shown(next, line) by {
                assert(shown(before, line) == shown(done, line));
                if shown(m@, line) {
                    let k = choose|k: int|
                        0 <= k < m@.len() && is_range(m@[k]) && within(#[trigger] m@[k], line);
                    if k < n - 1 {
                        assert(within(before[k], line));
                    } else if within(last, line) {
                        assert(within(before[n - 1], line));
                    } else {
                        assert(within(next[i as int], line));
                    }
                    if shown(done, line) {
                        let q = choose|q: int|
                            0 <= q < done.len() && is_range(done[q]) && within(
                                #[trigger] done[q],
                                line,
                            );
                        assert(within(next[q], line));
                    }
                }
                if shown(next, line) {
                    let q = choose|q: int|
                        0 <= q < next.len() && is_range(next[q]) && within(#[trigger] next[q], line);
                    if q == i {
                        assert(within(m@[n - 1], line));
                    } else {
                        assert(within(done[q], line));
                        let k = choose|k: int|
                            0 <= k < before.len() && is_range(before[k]) && within(
                                #[trigger] before[k],
                                line,
                            );
                        assert(within(m@[k], line));
                    }
                }
            }
        } else {
            m.push(r);
            assert forall|line: u32| shown(m@, line) == shown(next, line) by {
                assert(shown(before, line) == shown(done, line));
                if shown(m@, line) {
                    let k = choose|k: int|
                        0 <= k < m@.len() && is_range(m@[k]) && within(#[trigger] m@[k], line);
                    if k == n {
                        assert(within(next[i as int], line));
                    } else {
                        assert(within(before[k], line));
                        let q = choose|q: int|
                            0 <= q < done.len() && is_range(done[q]) && within(
                                #[trigger] done[q],
                                line,
                            );
                        assert(within(next[q], line));
                    }
                }
                if shown(next, line) {
                    let q = choose|q: int|
                        0 <= q < next.len() && is_range(next[q]) && within(#[trigger] next[q], line);
                    if q == i {
                        assert(within(m@[n as int], line));
                    } else {
                        assert(within(done[q], line));
                        let k = choose|k: int|
                            0 <= k < before.len() && is_range(before[k]) && within(
                                #[trigger] before[k],
                                line,
                            );
                        assert(within(m@[k], line));
                    }
                }
            }
            assert forall|a: int, b: int| 0 <= a < b < m.len() implies (#[trigger] m@[a]).end_line + 1
                < (#[trigger] m@[b]).start_line by {
                if b == n && a < n - 1 {
                    assert(before[a].end_line + 1 < before[n - 1].start_line);
                }
            }
        }
        i = i + 1;
    }
    assert(v@.take(i as int) =~= v@);
    m
}

/// Whether a line is shown, by halving the ranges.
pub fn is_visible(merged: &Vec<LineRange>, line: u32) -> (r: bool)
    requires
        separated(merged@),
    ensures
        r == shown(merged@, line),
{
    let mut lo: usize = 0;
    let mut hi: usize = merged.len();
    while lo < hi
        invariant
            lo <= hi <= merged.len(),
            separated(merged@),
            forall|i: int| 0 <= i < lo ==> (#[trigger] merged@[i]).end_line < line,
            forall|i: int| hi <= i < merged.len() ==> line < (#[trigger] merged@[i]).start_line,
        decreases hi - lo,
    {
        let mid: usize = lo + (hi - lo) / 2;
        let r = merged[mid];
        if line < r.start_line {
            assert forall|i: int| mid <= i < merged.len() implies line < (
            #[trigger] merged@[i]).start_line by {
                if mid < i {
                    assert(is_range(merged@[mid as int]));
                    assert(merged@[mid as int].end_line + 1 < merged@[i].start_line);
                }
            }
            hi = mid;
        } else if line > r.end_line {
            assert forall|i: int| 0 <= i < mid + 1 implies (#[trigger] merged@[i]).end_line
                < line by {
                if i < mid {
                    assert(is_range(merged@[mid as int]));
                    assert(merged@[i].end_line + 1 < merged@[mid as int].start_line);
                }
            }
            lo = mid + 1;
        } else {
            assert(is_range(merged@[mid as int]));
            assert(within(merged@[mid as int], line));
            return true;
        }
    }
    false
}

/// The line of a node's border that is not shown although its other border is.
pub open spec fn hidden_border(n: NodeFacts, ranges: Seq<LineRange>) -> Option<u32> {
    let start = (n.start_row + 1) as u32;
    let end = (n.end_row + 1) as u32;
    if !n.named || end <= start {
        None
    } else if shown(ranges, start) && !shown(ranges, end) {
        Some(end)
    } else if shown(ranges, end) && !shown(ranges, start) {
        Some(start)
    } else {
        None
    }
}

/// A line is the hidden border of a node, the root left out.
pub open spec fn is_border(n: Seq<NodeFacts>, ranges: Seq<LineRange>, line: u32) -> bool {
    exists|i: int|
        0 < i < n.len() && parent(n, i) >= 0 && hidden_border(#[trigger] n[i], ranges) == Some(line)
}

/// Numbers in order, each once.
pub open spec fn increasing(v: Seq<u32>) -> bool {
    forall|i: int, j: int| 0 <= i < j < v.len() ==> #[trigger] v[i] < #[trigger] v[j]
}

fn add_line(s: &mut BTreeSet<u32>, line: u32)
    ensures
        final(s)@ == old(s)@.insert(line),
{
    broadcast use vstd::laws_cmp::group_laws_cmp;

    s.insert(line);
}

/// The numbers of a set, in order.
fn in_order(s: &BTreeSet<u32>) -> (r: Vec<u32>)
    ensures
        increasing(r@),
        forall|y: u32| r@.contains(y) == s@.contains(y),
{
    broadcast use vstd::std_specs::btree::group_btree_axioms;
    broadcast use vstd::laws_cmp::group_laws_cmp;

    let ghost all = IteratorSpec::remaining(&vstd::std_specs::btree::spec_btree_keys_iter(s));
    let mut r: Vec<u32> = Vec::new();
    for x in it: s.iter()
        invariant
            it.seq() == all,
            r@ == all.take(it.index()).unref(),
    {
        r.push(*x);
        assert(r@ =~= all.take(it.index() + 1).unref());
    }
    proof {
        assert(r@ =~= all.unref());
        assert(vstd::laws_cmp::obeys_cmp::<&u32>());
        assert(vstd::std_specs::btree::increasing_seq(all));
        assert forall|i: int, j: int| 0 <= i < j < r@.len() implies #[trigger] r@[i] < #[trigger] r@[j] by {
            let (a, b): (&u32, &u32) = (all[i], all[j]);
            assert(OrdSpec::cmp_spec(&a, &b) is Less);
        }
        assert forall|y: u32| r@.contains(y) == s@.contains(y) by {
            assert(all.unref().to_set() == s@);
            assert(r@.to_set().contains(y) == s@.contains(y));
        }
    }
    r
}

/// The hidden borders of the nodes, in order.
pub fn collect_boundaries(n: &Vec<NodeFacts>, merged: &Vec<LineRange>) -> (r: Vec<u32>)
    requires
        rows_fit(n@),
        separated(merged@),
    ensures
        increasing(r@),
        forall|line: u32| r@.contains(line) == is_border(n@, merged@, line),
{
    let mut out: BTreeSet<u32> = BTreeSet::new();
    let mut i: usize = 1;
    while i < n.len()
        invariant
            1 <= i,
            i <= n.len() || i == 1,
            rows_fit(n@),
            separated(merged@),
            forall|line: u32| #![trigger out@.contains(line)]
                out@.contains(line) == (exists|j: int|
                    0 < j < i && j < n.len() && parent(n@, j) >= 0 && hidden_border(
                        #[trigger] n@[j],
                        merged@,
                    ) == Some(line)),
        decreases n.len() - i,
    {
        let x = n[i];
        let ghost before = out@;
        let start: u32 = x.start_row as u32 + 1;
        let end: u32 = x.end_row as u32 + 1;
        let held = parent_of(n, i);
        let mut found: Option<u32> = None;
        if x.named && held.is_some() && end > start {
            let a = is_visible(merged, start);
            let b = is_visible(merged, end);
            if a && !b {
                found = Some(end);
            } else if b && !a {
                found = Some(start);
            }
        }
        assert(held is Some ==> found == hidden_border(x, merged@));
        if let Some(l) = found {
            add_line(&mut out, l);
        }
        assert forall|line: u32| #![trigger out@.contains(line)]
            out@.contains(line) == (exists|j: int|
                0 < j < i + 1 && j < n.len() && parent(n@, j) >= 0 && hidden_border(
                    #[trigger] n@[j],
                    merged@,
                ) == Some(line)) by {
            if out@.contains(line) {
                if before.contains(line) {
                    let j = choose|j: int|
                        0 < j < i && j < n.len() && parent(n@, j) >= 0 && hidden_border(
                            #[trigger] n@[j],
                            merged@,
                        ) == Some(line);
                    assert(hidden_border(n@[j], merged@) == Some(line));
                } else {
                    assert(hidden_border(n@[i as int], merged@) == Some(line));
                }
            }
            if exists|j: int|
                0 < j < i + 1 && j < n.len() && parent(n@, j) >= 0 && hidden_border(
                    #[trigger] n@[j],
                    merged@,
                ) == Some(line) {
                let j = choose|j: int|
                    0 < j < i + 1 && j < n.len() && parent(n@, j) >= 0 && hidden_border(
                        #[trigger] n@[j],
                        merged@,
                    ) == Some(line);
                if j < i {
                    assert(before.contains(line));
                } else {
                    assert(found == Some(line));
                }
            }
        }
        i = i + 1;
    }
    assert forall|line: u32| out@.contains(line) == is_border(n@, merged@, line) by {
        if out@.contains(line) {
            let j = choose|j: int|
                0 < j < i && j < n.len() && parent(n@, j) >= 0 && hidden_border(
                    #[trigger] n@[j],
                    merged@,
                ) == Some(line);
            assert(hidden_border(n@[j], merged@) == Some(line));
        }
    }
    in_order(&out)
}

proof fn borders_of_same_lines(n: Seq<NodeFacts>, a: Seq<LineRange>, b: Seq<LineRange>, line: u32)
    requires
        forall|l: u32| shown(a, l) == shown(b, l),
    ensures
        is_border(n, a, line) == is_border(n, b, line),
{
    if is_border(n, a, line) {
        let i = choose|i: int|
            0 < i < n.len() && parent(n, i) >= 0 && hidden_border(#[trigger] n[i], a) == Some(line);
        assert(hidden_border(n[i], b) == Some(line));
    }
    if is_border(n, b, line) {
        let i = choose|i: int|
            0 < i < n.len() && parent(n, i) >= 0 && hidden_border(#[trigger] n[i], b) == Some(line);
        assert(hidden_border(n[i], a) == Some(line));
    }
}

/// Whether any range makes sense.
pub open spec fn any_range(ranges: Seq<LineRange>) -> bool {
    exists|i: int| 0 <= i < ranges.len() && is_range(#[trigger] ranges[i])
}

/// The result lists the hidden borders of a source's blocks, in order.
pub open spec fn lists_borders(r: Seq<u32>, n: Seq<NodeFacts>, ranges: Seq<LineRange>) -> bool {
    increasing(r) && forall|line: u32| r.contains(line) == is_border(n, ranges, line)
}

/// For the lines of a source that are shown: the lines at which blocks begin or end that
/// are not shown themselves, although the other end of the block is. Nothing is returned
/// where the source cannot be read or holds a syntax error.
pub fn enclosing_block_boundaries(code: &str, lang: SupportLang, ranges: &Vec<LineRange>) -> (r:
    Result<Option<Vec<u32>>, String>)
    requires
        text::byte_len(code@) < u32::MAX,
    ensures
        ({
            let name = lang_name(lang);
            if code@.len() == 0 || !any_range(ranges@) {
                r matches Ok(Some(v)) && v@.len() == 0
            } else {
                match language_error(name) {
                    Some(e) => r matches Err(x) && x@ == "set_language: "@ + e,
                    None => match parsed_nodes(code@, name) {
                        None => r matches Ok(None),
                        Some(n) => rows_fit(n) && if n[0].has_error {
                            r matches Ok(None)
                        } else {
                            r matches Ok(Some(v)) && lists_borders(v@, n, ranges@)
                        },
                    },
                }
            }
        }),
        r matches Ok(Some(v)) ==> forall|i: int| 0 <= i < v@.len() ==> #[trigger] v@[i] >= 1,
{
    let merged = normalize_ranges(ranges);
    proof {
        if any_range(ranges@) {
            let i = choose|i: int| 0 <= i < ranges@.len() && is_range(#[trigger] ranges@[i]);
            assert(within(ranges@[i], ranges@[i].start_line));
            assert(shown(merged@, ranges@[i].start_line));
        }
        if merged.len() > 0 {
            assert(is_range(merged@[0]));
            assert(within(merged@[0], merged@[0].start_line));
            assert(shown(merged@, merged@[0].start_line));
            let line = merged@[0].start_line;
            let i = choose|i: int|
                0 <= i < ranges@.len() && is_range(ranges@[i]) && within(
                    #[trigger] ranges@[i],
                    line,
                );
            assert(is_range(ranges@[i]));
        }
    }
    if code.is_empty() || merged.len() == 0 {
        return Ok(Some(Vec::new()));
    }
    match syntax_nodes(code, lang) {
        Err(e) => Err(e),
        Ok(None) => Ok(None),
        Ok(Some(n)) => {
            if n[0].has_error {
                return Ok(None);
            }
            let v = collect_boundaries(&n, &merged);
            proof {
                assert forall|line: u32| v@.contains(line) == is_border(n@, ranges@, line) by {
                    borders_of_same_lines(n@, merged@, ranges@, line);
                }
                assert forall|i: int| 0 <= i < v@.len() implies #[trigger] v@[i] >= 1 by {
                    assert(v@.contains(v@[i]));
                    borders_are_lines(n@, ranges@, v@[i]);
                }
            }
            Ok(Some(v))
        },
    }
}

/// A border is a line, counted from one: the first or the last of a node.
pub proof fn borders_are_lines(n: Seq<NodeFacts>, ranges: Seq<LineRange>, line: u32)
    requires
        rows_fit(n),
        is_border(n, ranges, line),
    ensures
        line >= 1,
        exists|i: int|
            0 < i < n.len() && (#[trigger] n[i]).named && (line == n[i].start_row + 1 || line
                == n[i].end_row + 1),
{
    let i = choose|i: int|
        0 < i < n.len() && parent(n, i) >= 0 && hidden_border(#[trigger] n[i], ranges) == Some(line);
    assert(n[i].start_row < u32::MAX && n[i].end_row < u32::MAX);
}

/// A border that is listed is never itself shown.
pub proof fn borders_are_hidden(n: Seq<NodeFacts>, ranges: Seq<LineRange>, line: u32)
    requires
        is_border(n, ranges, line),
    ensures
        !shown(ranges, line),
{
}

/// A node is another one or stands in it, at whatever depth.
pub open spec fn stands_in(n: Seq<NodeFacts>, i: int, o: int) -> bool
    decreases i + 1,
    via stands_in_ends
{
    i == o || (i > 0 && stands_in(n, parent(n, i), o))
}

#[via_fn]
proof fn stands_in_ends(n: Seq<NodeFacts>, i: int, o: int) {
    if i > 0 {
        parent_is_before(n, i - 1, n[i].depth as int);
    }
}

proof fn outermost_is_outermost(n: Seq<NodeFacts>, i: int, row: nat)
    requires
        0 <= i < n.len(),
        n[i].start_row == row,
    ensures
        ({
            let o = outermost(n, i, row);
            &&& 0 <= o <= i
            &&& stands_in(n, i, o)
            &&& n[o].start_row == row
            &&& o == 0 || parent(n, o) <= 0 || n[parent(n, o)].start_row != row
        }),
    decreases i,
{
    if i > 0 {
        parent_is_before(n, i - 1, n[i].depth as int);
        let p = parent(n, i);
        if p > 0 && n[p].start_row == row {
            outermost_is_outermost(n, p, row);
        }
    }
}

/// The block at a line begins at that line: it is the largest node around what stands there that
/// begins in the line, the whole source left out, and it reaches to that node's last line. There
/// is none only where what stands there began before, or where the block holds an error.
pub proof fn blocks_begin_at_their_line(n: Seq<NodeFacts>, k: int, row: nat) -> (o: int)
    requires
        rows_fit(n),
        0 <= k < n.len(),
    ensures
        n[k].start_row != row ==> block_of(n, Some(k), row) is None,
        n[k].start_row == row ==> {
            &&& 0 <= o <= k
            &&& stands_in(n, k, o)
            &&& n[o].start_row == row
            &&& o == 0 || parent(n, o) <= 0 || n[parent(n, o)].start_row != row
            &&& n[o].has_error ==> block_of(n, Some(k), row) is None
            &&& !n[o].has_error ==> {
                &&& block_of(n, Some(k), row) is Some
                &&& block_of(n, Some(k), row)->0.start_line == row + 1
                &&& block_of(n, Some(k), row)->0.end_line == n[o].end_row + 1
            }
        },
{
    if n[k].start_row == row {
        outermost_is_outermost(n, k, row);
    }
    outermost(n, k, row)
}

/// A named node of which only the first line is shown has its last line listed, and one of
/// which only the last is shown has its first line listed.
pub proof fn hidden_ends_are_listed(n: Seq<NodeFacts>, ranges: Seq<LineRange>, i: int)
    requires
        rows_fit(n),
        0 < i < n.len(),
        parent(n, i) >= 0,
        n[i].named,
        n[i].start_row < n[i].end_row,
    ensures
        shown(ranges, (n[i].start_row + 1) as u32) && !shown(ranges, (n[i].end_row + 1) as u32)
            ==> is_border(n, ranges, (n[i].end_row + 1) as u32),
        shown(ranges, (n[i].end_row + 1) as u32) && !shown(ranges, (n[i].start_row + 1) as u32)
            ==> is_border(n, ranges, (n[i].start_row + 1) as u32),
{
    let start = (n[i].start_row + 1) as u32;
    let end = (n[i].end_row + 1) as u32;
    if shown(ranges, start) && !shown(ranges, end) {
        assert(hidden_border(n[i], ranges) == Some(end));
    }
    if shown(ranges, end) && !shown(ranges, start) {
        assert(hidden_border(n[i], ranges) == Some(start));
    }
}

/// The column at which a line begins is that of its first character that is neither a blank nor
/// a tab.
pub proof fn lines_begin_behind_blanks(w: Seq<char>, c: char, rest: Seq<char>)
    requires
        forall|k: int| 0 <= k < w.len() ==> #[trigger] w[k] == ' ' || w[k] == '\t',
        c != ' ' && c != '\t',
    ensures
        indent(w + seq![c] + rest, 0) == Some(w.len()),
        indent(w, 0) is None,
{
    assert((w + seq![c] + rest).take(w.len() as int) =~= w);
    assert(w.take(w.len() as int) =~= w);
    skips_blanks(w, w + seq![c] + rest, 0);
    skips_blanks(w, w, 0);
    assert((w + seq![c] + rest)[w.len() as int] == c);
}

proof fn skips_blanks(w: Seq<char>, s: Seq<char>, i: int)
    requires
        0 <= i <= w.len() <= s.len(),
        s.take(w.len() as int) == w,
        forall|k: int| 0 <= k < w.len() ==> #[trigger] w[k] == ' ' || w[k] == '\t',
    ensures
        indent(s, i) == indent(s, w.len() as int),
    decreases w.len() - i,
{
    if i < w.len() {
        assert(s.take(w.len() as int)[i] == s[i]);
        assert(w[i] == ' ' || w[i] == '\t');
        skips_blanks(w, s, i + 1);
    }
}

/// A node stands in the last node before it that is less deep; none between the two is.
pub proof fn parents_are_nearest(n: Seq<NodeFacts>, i: int)
    requires
        0 <= i < n.len(),
    ensures
        ({
            let p = parent(n, i);
            &&& -1 <= p < i
            &&& p >= 0 ==> n[p].depth < n[i].depth
            &&& forall|j: int| p < j < i ==> (#[trigger] n[j]).depth >= n[i].depth
        }),
{
    holders_are_nearest(n, i - 1, n[i].depth as int);
}

proof fn holders_are_nearest(n: Seq<NodeFacts>, j: int, depth: int)
    requires
        -1 <= j < n.len(),
    ensures
        ({
            let p = holder_from(n, j, depth);
            &&& -1 <= p <= j
            &&& p >= 0 ==> n[p].depth < depth
            &&& forall|k: int| p < k <= j ==> (#[trigger] n[k]).depth >= depth
        }),
    decreases j + 1,
{
    if j >= 0 && n[j].depth >= depth {
        holders_are_nearest(n, j - 1, depth);
    }
}

} // verus!
