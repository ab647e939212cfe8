//! Searching and rewriting source code by patterns of its syntax.
use ast_grep_core::language::TSLanguage;
use ast_grep_core::matcher::{Pattern, PatternNode};
use ast_grep_core::{Language, MatchStrictness};
use std::borrow::Cow;
use vstd::prelude::*;

use crate::ast;
use crate::ast::{syntax_nodes, SupportLang};
use crate::pieces;
use crate::pieces::replace_char_of;
use crate::secrets::lower_of;
use crate::shape;
use crate::shape::{replaceable, seekable, tree_of, PatternTree, TreeView};
use crate::text;
use crate::text::{cat, chars_before_of, chars_of, contains_char, copy_text, same, sub_text};

verus! {

/// How closely a source has to follow a pattern.
#[derive(Clone, Copy, Debug, PartialEq, Eq, Structural)]
pub enum AstMatchStrictness {
    Cst,
    Smart,
    Ast,
    Relaxed,
    Signature,
    Template,
}

pub open spec fn strictness_of(s: Option<Seq<char>>) -> AstMatchStrictness {
    match s {
        None => AstMatchStrictness::Smart,
        Some(t) => {
            let n = text::lower(t);
            if n == "cst"@ {
                AstMatchStrictness::Cst
            } else if n == "ast"@ {
                AstMatchStrictness::Ast
            } else if n == "relaxed"@ {
                AstMatchStrictness::Relaxed
            } else if n == "signature"@ {
                AstMatchStrictness::Signature
            } else if n == "template"@ {
                AstMatchStrictness::Template
            } else {
                AstMatchStrictness::Smart
            }
        },
    }
}

impl AstMatchStrictness {
    /// Reads a word; an unknown one, or none, asks for `Smart`.
    pub fn parse(s: Option<&str>) -> (r: AstMatchStrictness)
        ensures
            r == strictness_of(crate::repl::str_text(s)),
    {
        let n = match s {
            Some(t) => lower_of(t),
            None => {
                return AstMatchStrictness::Smart;
            },
        };
        if same(&n, "cst") {
            AstMatchStrictness::Cst
        } else if same(&n, "ast") {
            AstMatchStrictness::Ast
        } else if same(&n, "relaxed") {
            AstMatchStrictness::Relaxed
        } else if same(&n, "signature") {
            AstMatchStrictness::Signature
        } else if same(&n, "template") {
            AstMatchStrictness::Template
        } else {
            AstMatchStrictness::Smart
        }
    }
}

/// The strictness that is asked for when matching: a template is matched as a signature.
pub open spec fn level(s: AstMatchStrictness) -> int {
    match s {
        AstMatchStrictness::Cst => 0,
        AstMatchStrictness::Smart => 1,
        AstMatchStrictness::Ast => 2,
        AstMatchStrictness::Relaxed => 3,
        AstMatchStrictness::Signature => 4,
        AstMatchStrictness::Template => 4,
    }
}

#[verifier::external_type_specification]
#[verifier::external_body]
pub struct ExMatchStrictness(MatchStrictness);

/// The strictness of a match, from 0 for the closest.
pub uninterp spec fn core_level(s: MatchStrictness) -> int;

/// The variants of `ast_grep_core::MatchStrictness`, of which there is none for templates.
#[verifier::external_body]
fn to_core_strictness(s: AstMatchStrictness) -> (r: MatchStrictness)
    ensures
        core_level(r) == level(s),
{
    match s {
        AstMatchStrictness::Cst => MatchStrictness::Cst,
        AstMatchStrictness::Smart => MatchStrictness::Smart,
        AstMatchStrictness::Ast => MatchStrictness::Ast,
        AstMatchStrictness::Relaxed => MatchStrictness::Relaxed,
        AstMatchStrictness::Signature => MatchStrictness::Signature,
        AstMatchStrictness::Template => MatchStrictness::Signature,
    }
}

// ── Languages of patterns ───────────────────────────────────────────────────

/// In Python and Go `$` cannot begin a name: there `_` stands for it.
pub open spec fn stands_for_dollar(l: SupportLang) -> char {
    match l {
        SupportLang::Python => '_',
        SupportLang::Go => '_',
        _ => '$',
    }
}

/// A pattern as it is parsed.
pub open spec fn parsed_pattern(l: SupportLang, p: Seq<char>) -> Seq<char> {
    if stands_for_dollar(l) == '_' && text::has_char(p, '$') {
        pieces::replace_char(p, '$', "_"@)
    } else {
        p
    }
}

/// The pattern with `$` replaced, where it has to be.
pub fn replaced_pattern(l: SupportLang, p: &str) -> (r: Option<String>)
    ensures
        match r {
            Some(t) => t@ == parsed_pattern(l, p@),
            None => p@ == parsed_pattern(l, p@),
        },
{
    match l {
        SupportLang::Python => {},
        SupportLang::Go => {},
        _ => {
            return None;
        },
    }
    if contains_char(p, '$') {
        Some(replace_char_of(p, '$', "_"))
    } else {
        None
    }
}

pub fn expando(l: SupportLang) -> (c: char)
    ensures
        c == stands_for_dollar(l),
{
    match l {
        SupportLang::Python => '_',
        SupportLang::Go => '_',
        _ => '$',
    }
}

#[verifier::external_type_specification]
#[verifier::external_body]
pub struct ExTSLanguage(TSLanguage);

/// A language in which patterns are written.
#[derive(Clone, Copy)]
pub struct AstGrepLang(pub SupportLang);

impl Language for AstGrepLang {
    /// The grammars of the languages, as `ast_grep_core` takes them.
    #[verifier::external_body]
    fn get_ts_language(&self) -> TSLanguage {
        match self.0 {
            SupportLang::Rust => tree_sitter_rust::LANGUAGE.into(),
            SupportLang::Python => tree_sitter_python::LANGUAGE.into(),
            SupportLang::JavaScript => tree_sitter_javascript::LANGUAGE.into(),
            SupportLang::TypeScript => tree_sitter_typescript::LANGUAGE_TYPESCRIPT.into(),
            SupportLang::Go => tree_sitter_go::LANGUAGE.into(),
        }
    }

    fn expando_char(&self) -> char {
        expando(self.0)
    }

    /// The pattern as it is parsed.
    fn pre_process_pattern<'q>(&self, query: &'q str) -> (r: Cow<'q, str>)
        ensures
            match r {
                Cow::Owned(t) => t@ == parsed_pattern(self.0, query@),
                Cow::Borrowed(t) => t@ == parsed_pattern(self.0, query@),
            },
    {
        match replaced_pattern(self.0, query) {
            Some(t) => Cow::Owned(t),
            None => Cow::Borrowed(query),
        }
    }
}

// ── Compiling ───────────────────────────────────────────────────────────────

/// What a pattern is made of, or why it is none.
pub uninterp spec fn compiled(pattern: Seq<char>, lang: Seq<char>) -> Result<TreeView, Seq<char>>;

/// `ast_grep_core::Pattern::try_new`: what the pattern is made of, or why it is none.
#[verifier::external_body]
fn compile(pattern: &str, lang: SupportLang) -> (r: Result<PatternNode, String>)
    requires
        text::byte_len(pattern@) < u32::MAX,
    ensures
        compiled(pattern@, ast::lang_name(lang)) == (match r {
            Ok(n) => Ok(shape::tree_held(n)),
            Err(e) => Err(e@),
        }),
{
    Pattern::try_new(pattern, AstGrepLang(lang)).map(|p| p.node).map_err(|e| e.to_string())
}

pub open spec fn tree_result(r: Result<PatternTree, String>) -> Result<TreeView, Seq<char>> {
    match r {
        Ok(t) => Ok(t@),
        Err(e) => Err(e@),
    }
}

/// What a pattern is made of, or why it is none.
pub fn pattern_tree(pattern: &str, lang: SupportLang) -> (r: Result<PatternTree, String>)
    requires
        text::byte_len(pattern@) < u32::MAX,
    ensures
        tree_result(r) == compiled(pattern@, ast::lang_name(lang)),
{
    match compile(pattern, lang) {
        Ok(n) => Ok(tree_of(n)),
        Err(e) => Err(e),
    }
}

/// Whether tokens of a pattern that are not found in a source are passed over.
pub open spec fn is_lax(level: int) -> bool {
    level >= 2
}

fn lax(s: AstMatchStrictness) -> (r: bool)
    ensures
        r == is_lax(level(s)),
{
    match s {
        AstMatchStrictness::Cst => false,
        AstMatchStrictness::Smart => false,
        _ => true,
    }
}

/// Whether a source can be searched for a pattern: it has a syntax tree, and the pattern can be
/// held against it. A pattern that is none is refused.
pub open spec fn searchable(
    src: Seq<char>,
    lang: Seq<char>,
    pattern: Seq<char>,
    level: int,
) -> bool {
    match compiled(pattern, lang) {
        Ok(t) => ast::language_error(lang) is None && (ast::parsed_nodes(src, lang) matches Some(n)
            && shape::can_be_sought(t, is_lax(level), n)),
        Err(_) => true,
    }
}

/// Whether what a pattern finds in a source can be replaced.
pub open spec fn rewritable(
    src: Seq<char>,
    lang: Seq<char>,
    pattern: Seq<char>,
    level: int,
) -> bool {
    match compiled(pattern, lang) {
        Ok(t) => ast::language_error(lang) is None && (ast::parsed_nodes(src, lang) matches Some(n)
            && shape::can_be_replaced(t, is_lax(level), n)),
        Err(_) => true,
    }
}

// ── Searching ───────────────────────────────────────────────────────────────

/// A place that follows a pattern.
#[derive(Debug)]
pub struct AstMatch<S = String> {
    pub text: S,
    pub byte_start: usize,
    pub byte_end: usize,
}

impl AstMatch {
    pub open spec fn view(&self) -> AstMatch<Seq<char>> {
        AstMatch { text: self.text@, byte_start: self.byte_start, byte_end: self.byte_end }
    }
}

pub open spec fn match_views(v: Seq<AstMatch>) -> Seq<AstMatch<Seq<char>>> {
    Seq::new(v.len(), |i: int| v[i].view())
}

/// The places of a source that follow a pattern, as the positions of their first byte and
/// of the one behind their last, or why the pattern is none.
pub uninterp spec fn pattern_matches(
    src: Seq<char>,
    lang: Seq<char>,
    pattern: Seq<char>,
    strictness: int,
) -> Result<Seq<(usize, usize)>, Seq<char>>;

/// Places of a text: they begin and end between characters.
pub open spec fn are_places(src: Seq<char>, v: Seq<(usize, usize)>) -> bool {
    forall|i: int|
        0 <= i < v.len() ==> (#[trigger] v[i]).0 <= v[i].1 && text::is_boundary(src, v[i].0 as nat)
            && text::is_boundary(src, v[i].1 as nat)
}

pub open spec fn places_result(r: Result<Vec<(usize, usize)>, String>) -> Result<
    Seq<(usize, usize)>,
    Seq<char>,
> {
    match r {
        Ok(v) => Ok(v@),
        Err(e) => Err(e@),
    }
}

/// `ast_grep_core::Pattern::try_new` and `ast_grep_core::Node::find_all` of the root of the
/// source: the places that follow the pattern, unless it is none. Nodes begin and end between
/// characters. A source without a syntax tree, and an ellipsis without a name that comes to be
/// held against a single node, would end the program.
#[verifier::external_body]
fn find_places(src: &str, lang: SupportLang, pattern: &str, strictness: MatchStrictness) -> (r: Result<
    Vec<(usize, usize)>,
    String,
>)
    requires
        text::byte_len(src@) < u32::MAX,
        text::byte_len(pattern@) < u32::MAX,
        searchable(src@, ast::lang_name(lang), pattern@, core_level(strictness)),
    ensures
        places_result(r) == pattern_matches(
            src@,
            ast::lang_name(lang),
            pattern@,
            core_level(strictness),
        ),
        match compiled(pattern@, ast::lang_name(lang)) {
            Ok(_) => r matches Ok(v) && are_places(src@, v@),
            Err(e) => r matches Err(f) && f@ == e,
        },
{
    let l = AstGrepLang(lang);
    let mut p = Pattern::try_new(pattern, l).map_err(|e| e.to_string())?;
    p.strictness = strictness;
    let root = l.ast_grep(src);
    let found = root.root().find_all(&p).map(|m| (m.range().start, m.range().end)).collect();
    Ok(found)
}

/// The text between two byte positions.
pub open spec fn between(src: Seq<char>, from: nat, to: nat) -> Seq<char> {
    src.subrange(text::chars_before(src, from), text::chars_before(src, to))
}

pub open spec fn matches_at(src: Seq<char>, v: Seq<(usize, usize)>) -> Seq<AstMatch<Seq<char>>> {
    Seq::new(
        v.len(),
        |i: int|
            AstMatch {
                text: between(src, v[i].0 as nat, v[i].1 as nat),
                byte_start: v[i].0,
                byte_end: v[i].1,
            },
    )
}

/// The matches at some places of a source.
pub fn matches_of(src: &str, places: &Vec<(usize, usize)>) -> (r: Vec<AstMatch>)
    requires
        are_places(src@, places@),
    ensures
        match_views(r@) == matches_at(src@, places@),
{
    let v = chars_of(src);
    let mut r: Vec<AstMatch> = Vec::new();
    let mut i: usize = 0;
    assert(match_views(r@) =~= matches_at(src@, places@).take(0));
    while i < places.len()
        invariant
            i <= places.len(),
            v@ == src@,
            are_places(src@, places@),
            match_views(r@) == matches_at(src@, places@).take(i as int),
        decreases places.len() - i,
    {
        let (from, to) = places[i];
        assert(places@[i as int] == (from, to));
        let a: usize = chars_before_of(&v, from);
        let b: usize = chars_before_of(&v, to);
        proof {
            if b < a {
                text::lemma_byte_len_grows(src@, b as int, a as int);
            }
        }
        let m = AstMatch { text: sub_text(&v, a, b), byte_start: from, byte_end: to };
        let ghost before = match_views(r@);
        r.push(m);
        assert(match_views(r@) =~= before.push(m.view()));
        i = i + 1;
        assert(match_views(r@) =~= matches_at(src@, places@).take(i as int));
    }
    assert(match_views(r@) =~= matches_at(src@, places@));
    r
}

/// What a search finds.
pub open spec fn found(
    src: Seq<char>,
    lang: SupportLang,
    pattern: Seq<char>,
    strictness: AstMatchStrictness,
) -> Result<Seq<AstMatch<Seq<char>>>, Seq<char>> {
    match pattern_matches(src, ast::lang_name(lang), pattern, level(strictness)) {
        Ok(v) => Ok(matches_at(src, v)),
        Err(e) => Err("pattern 无效: "@ + e),
    }
}

pub open spec fn search_result(r: Result<Vec<AstMatch>, String>) -> Result<
    Seq<AstMatch<Seq<char>>>,
    Seq<char>,
> {
    match r {
        Ok(v) => Ok(match_views(v@)),
        Err(e) => Err(e@),
    }
}

/// The places of a source that follow a pattern; `$X` stands for a node in it, `$$$X` for
/// several.
pub fn search(src: &str, lang: SupportLang, pattern: &str, strictness: AstMatchStrictness) -> (r: Result<
    Vec<AstMatch>,
    String,
>)
    requires
        text::byte_len(src@) < u32::MAX,
        text::byte_len(pattern@) < u32::MAX,
        searchable(src@, ast::lang_name(lang), pattern@, level(strictness)),
    ensures
        search_result(r) == found(src@, lang, pattern@, strictness),
        r is Ok <==> compiled(pattern@, ast::lang_name(lang)) is Ok,
{
    match find_places(src, lang, pattern, to_core_strictness(strictness)) {
        Ok(v) => Ok(matches_of(src, &v)),
        Err(e) => Err(cat("pattern 无效: ", &e)),
    }
}

pub fn search_rust(src: &str, pattern: &str, strictness: AstMatchStrictness) -> (r: Result<
    Vec<AstMatch>,
    String,
>)
    requires
        text::byte_len(src@) < u32::MAX,
        text::byte_len(pattern@) < u32::MAX,
        searchable(src@, ast::lang_name(SupportLang::Rust), pattern@, level(strictness)),
    ensures
        search_result(r) == found(src@, SupportLang::Rust, pattern@, strictness),
        r is Ok <==> compiled(pattern@, ast::lang_name(SupportLang::Rust)) is Ok,
{
    search(src, SupportLang::Rust, pattern, strictness)
}

fn is_searchable(src: &str, lang: SupportLang, pattern: &str, strictness: AstMatchStrictness) -> (r:
    bool)
    requires
        text::byte_len(src@) < u32::MAX,
        text::byte_len(pattern@) < u32::MAX,
    ensures
        r == searchable(src@, ast::lang_name(lang), pattern@, level(strictness)),
{
    match pattern_tree(pattern, lang) {
        Err(_) => true,
        Ok(t) => match syntax_nodes(src, lang) {
            Ok(Some(n)) => seekable(&t, lax(strictness), &n),
            _ => false,
        },
    }
}

/// Searches, where the source can be searched for the pattern.
pub fn try_search(
    src: &str,
    lang: SupportLang,
    pattern: &str,
    strictness: AstMatchStrictness,
) -> (r: Option<Result<Vec<AstMatch>, String>>)
    requires
        text::byte_len(src@) < u32::MAX,
        text::byte_len(pattern@) < u32::MAX,
    ensures
        match r {
            Some(x) => {
                &&& searchable(src@, ast::lang_name(lang), pattern@, level(strictness))
                &&& search_result(x) == found(src@, lang, pattern@, strictness)
                &&& x is Ok <==> compiled(pattern@, ast::lang_name(lang)) is Ok
            },
            None => !searchable(src@, ast::lang_name(lang), pattern@, level(strictness)),
        },
{
    if is_searchable(src, lang, pattern, strictness) {
        Some(search(src, lang, pattern, strictness))
    } else {
        None
    }
}

/// Searches Rust, where the source can be searched for the pattern.
pub fn try_search_rust(src: &str, pattern: &str, strictness: AstMatchStrictness) -> (r: Option<
    Result<Vec<AstMatch>, String>,
>)
    requires
        text::byte_len(src@) < u32::MAX,
        text::byte_len(pattern@) < u32::MAX,
    ensures
        ({
            let name = ast::lang_name(SupportLang::Rust);
            match r {
                Some(x) => {
                    &&& searchable(src@, name, pattern@, level(strictness))
                    &&& search_result(x) == found(src@, SupportLang::Rust, pattern@, strictness)
                    &&& x is Ok <==> compiled(pattern@, name) is Ok
                },
                None => !searchable(src@, name, pattern@, level(strictness)),
            }
        }),
{
    if is_searchable(src, SupportLang::Rust, pattern, strictness) {
        Some(search_rust(src, pattern, strictness))
    } else {
        None
    }
}

// ── Rewriting ───────────────────────────────────────────────────────────────

/// A change of a text: where it begins, how many bytes go, and which come.
#[derive(Debug)]
pub struct Edit<B = Vec<u8>> {
    pub position: usize,
    pub deleted: usize,
    pub inserted: B,
}

pub type EditView = Edit<Seq<u8>>;

impl Edit {
    pub open spec fn view(&self) -> EditView {
        Edit { position: self.position, deleted: self.deleted, inserted: self.inserted@ }
    }
}

pub open spec fn edit_views(v: Seq<Edit>) -> Seq<EditView> {
    Seq::new(v.len(), |i: int| v[i].view())
}

/// The changes that put a replacement in place of what follows a pattern, or why the
/// pattern is none.
pub uninterp spec fn pattern_edits(
    src: Seq<char>,
    lang: Seq<char>,
    pattern: Seq<char>,
    replacement: Seq<char>,
    strictness: int,
) -> Result<Seq<EditView>, Seq<char>>;

/// Changes of so many bytes, one behind the other.
pub open spec fn are_edits(len: nat, e: Seq<EditView>) -> bool {
    &&& forall|i: int| 0 <= i < e.len() ==> (#[trigger] e[i]).position + e[i].deleted <= len
    &&& forall|i: int, j: int|
        0 <= i < j < e.len() ==> (#[trigger] e[i]).position + e[i].deleted <= (
        #[trigger] e[j]).position
}

pub open spec fn edits_result(r: Result<Vec<Edit>, String>) -> Result<Seq<EditView>, Seq<char>> {
    match r {
        Ok(v) => Ok(edit_views(v@)),
        Err(e) => Err(e@),
    }
}

/// The bytes of a text.
pub open spec fn bytes(s: Seq<char>) -> Seq<u8> {
    vstd::utf8::encode_utf8(s)
}

/// `ast_grep_core::Pattern::try_new` and `ast_grep_core::Node::replace_all` of the root of
/// the source: the changes that put the replacement in place of what follows the pattern, unless
/// it is none. What is found is not searched again, so the changes stand one behind the other.
/// Where a search finds something, something is changed, and where it finds nothing, nothing:
/// but a pattern that is nothing but an unreadable character is compared with nodes of every kind
/// here, and with unreadable ones alone in a search. Besides what ends a search, a match of
/// which no part has been found would end the program.
#[verifier::external_body]
fn find_edits(
    src: &str,
    lang: SupportLang,
    pattern: &str,
    replacement: &str,
    strictness: MatchStrictness,
) -> (r: Result<Vec<Edit>, String>)
    requires
        text::byte_len(src@) < u32::MAX,
        text::byte_len(pattern@) < u32::MAX,
        rewritable(src@, ast::lang_name(lang), pattern@, core_level(strictness)),
    ensures
        edits_result(r) == pattern_edits(
            src@,
            ast::lang_name(lang),
            pattern@,
            replacement@,
            core_level(strictness),
        ),
        r matches Ok(v) ==> are_edits(bytes(src@).len(), edit_views(v@)),
        match compiled(pattern@, ast::lang_name(lang)) {
            Ok(t) => pattern_matches(
                src@,
                ast::lang_name(lang),
                pattern@,
                core_level(strictness),
            ) matches Ok(m) && r matches Ok(v) && (m.len() > 0 ==> v@.len() > 0) && (m.len() == 0
                && !shape::is_unreadable(t) ==> v@.len() == 0),
            Err(e) => r matches Err(f) && f@ == e && pattern_matches(
                src@,
                ast::lang_name(lang),
                pattern@,
                core_level(strictness),
            ) == Err::<Seq<(usize, usize)>, Seq<char>>(e),
        },
{
    let l = AstGrepLang(lang);
    let mut p = Pattern::try_new(pattern, l).map_err(|e| e.to_string())?;
    p.strictness = strictness;
    let root = l.ast_grep(src);
    let edits = root.root().replace_all(&p, replacement).into_iter().map(
        |e| Edit { position: e.position, deleted: e.deleted_length, inserted: e.inserted_text },
    );
    Ok(edits.collect())
}

/// What is said of bytes that are no text.
pub uninterp spec fn utf8_error(b: Seq<u8>) -> Seq<char>;

/// `String::from_utf8`: the text of the bytes, if they are valid UTF-8, and what is said of
/// them if not.
#[verifier::external_body]
fn text_from_bytes(b: Vec<u8>) -> (r: Result<String, String>)
    ensures
        match r {
            Ok(s) => vstd::utf8::valid_utf8(b@) && s@ == vstd::utf8::decode_utf8(b@),
            Err(e) => !vstd::utf8::valid_utf8(b@) && e@ == utf8_error(b@),
        },
{
    String::from_utf8(b).map_err(|e| e.to_string())
}

/// Bytes with one change made.
pub open spec fn changed(b: Seq<u8>, e: EditView) -> Seq<u8> {
    b.take(e.position as int) + e.inserted + b.skip(e.position + e.deleted)
}

/// Bytes with changes made, the last one first.
pub open spec fn all_changed(b: Seq<u8>, e: Seq<EditView>) -> Seq<u8>
    decreases e.len(),
{
    if e.len() == 0 {
        b
    } else {
        all_changed(changed(b, e.last()), e.drop_last())
    }
}

/// The last change among the first `n` whose new bytes are no text, or -1.
pub open spec fn last_bad(e: Seq<EditView>, n: int) -> int
    decreases n,
{
    if n <= 0 {
        -1
    } else if !vstd::utf8::valid_utf8(e[n - 1].inserted) {
        n - 1
    } else {
        last_bad(e, n - 1)
    }
}

/// The text of a source after changes, or what is wrong with it.
pub open spec fn edited(src: Seq<char>, e: Seq<EditView>) -> Result<Seq<char>, Seq<char>> {
    let bad = last_bad(e, e.len() as int);
    let b = all_changed(bytes(src), e);
    if bad >= 0 {
        Err("重写文本非 UTF-8: "@ + utf8_error(e[bad].inserted))
    } else if e.len() == 0 {
        Ok(src)
    } else if vstd::utf8::valid_utf8(b) {
        Ok(vstd::utf8::decode_utf8(b))
    } else {
        Err("结果非 UTF-8: "@ + utf8_error(b))
    }
}

fn copy_bytes(v: &Vec<u8>) -> (r: Vec<u8>)
    ensures
        r@ == v@,
{
    let mut r: Vec<u8> = Vec::new();
    append_bytes(&mut r, v, 0, v.len());
    assert(r@ =~= v@);
    r
}

fn append_bytes(out: &mut Vec<u8>, v: &Vec<u8>, from: usize, to: usize)
    requires
        from <= to <= v.len(),
    ensures
        final(out)@ == old(out)@ + v@.subrange(from as int, to as int),
{
    let mut i: usize = from;
    assert(out@ =~= old(out)@ + v@.subrange(from as int, from as int));
    while i < to
        invariant
            from <= i <= to <= v.len(),
            out@ == old(out)@ + v@.subrange(from as int, i as int),
        decreases to - i,
    {
        out.push(v[i]);
        i = i + 1;
        assert(out@ =~= old(out)@ + v@.subrange(from as int, i as int));
    }
}

fn change(b: &Vec<u8>, e: &Edit) -> (r: Vec<u8>)
    requires
        e.position + e.deleted <= b.len(),
    ensures
        r@ == changed(b@, e.view()),
{
    let mut r: Vec<u8> = Vec::new();
    append_bytes(&mut r, b, 0, e.position);
    append_bytes(&mut r, &e.inserted, 0, e.inserted.len());
    append_bytes(&mut r, b, e.position + e.deleted, b.len());
    assert(e.inserted@.subrange(0, e.inserted@.len() as int) =~= e.inserted@);
    assert(r@ =~= changed(b@, e.view()));
    r
}

pub open spec fn rewrite_result(r: Result<String, String>) -> Result<Seq<char>, Seq<char>> {
    match r {
        Ok(s) => Ok(s@),
        Err(e) => Err(e@),
    }
}

/// Makes changes to a source. They stand one behind the other, and the last one is made
/// first, so that the places of the others stay as they are.
pub fn apply_edits(src: &str, edits: &Vec<Edit>) -> (r: Result<String, String>)
    requires
        are_edits(bytes(src@).len(), edit_views(edits@)),
    ensures
        rewrite_result(r) == edited(src@, edit_views(edits@)),
{
    let ghost ev = edit_views(edits@);
    assert(ev.len() == edits.len());
    if edits.len() == 0 {
        return Ok(copy_text(src));
    }
    let mut b: Vec<u8> = src.as_bytes_vec();
    let ghost start = b@;
    let mut n: usize = edits.len();
    assert(ev.take(n as int) =~= ev);
    while n > 0
        invariant
            n <= edits.len(),
            ev == edit_views(edits@),
            ev.len() == edits.len(),
            are_edits(start.len(), ev),
            all_changed(start, ev) == all_changed(b@, ev.take(n as int)),
            last_bad(ev, ev.len() as int) == last_bad(ev, n as int),
            n == edits.len() ==> b@ == start,
            n < edits.len() ==> ev[n as int].position <= b.len(),
            start == bytes(src@),
        decreases n,
    {
        let e = &edits[n - 1];
        assert(e.view() == ev[n - 1]);
        match text_from_bytes(copy_bytes(&e.inserted)) {
            Ok(_) => {},
            Err(m) => {
                return Err(cat("重写文本非 UTF-8: ", &m));
            },
        }
        assert(ev[n - 1].position + ev[n - 1].deleted <= start.len());
        if n < edits.len() {
            assert(ev[n - 1].position + ev[n - 1].deleted <= ev[n as int].position);
        }
        assert(ev.take(n as int).last() == ev[n - 1]);
        assert(ev.take(n as int).drop_last() =~= ev.take(n - 1));
        b = change(&b, e);
        n = n - 1;
    }
    assert(ev.take(0) =~= Seq::empty());
    match text_from_bytes(b) {
        Ok(s) => Ok(s),
        Err(m) => Err(cat("结果非 UTF-8: ", &m)),
    }
}

/// What a rewriting gives.
pub open spec fn rewritten(
    src: Seq<char>,
    lang: SupportLang,
    pattern: Seq<char>,
    replacement: Seq<char>,
    strictness: AstMatchStrictness,
) -> Result<Seq<char>, Seq<char>> {
    match pattern_edits(src, ast::lang_name(lang), pattern, replacement, level(strictness)) {
        Ok(e) => edited(src, e),
        Err(e) => Err("pattern 无效: "@ + e),
    }
}

/// Whether a rewriting goes with a search for the same pattern: it is refused in the same words,
/// it changes something where something is found, and where nothing is found it gives the source
/// back, unless the pattern is nothing but something that cannot be read.
pub open spec fn goes_with_search(
    src: Seq<char>,
    lang: SupportLang,
    pattern: Seq<char>,
    replacement: Seq<char>,
    strictness: AstMatchStrictness,
) -> bool {
    let name = ast::lang_name(lang);
    match found(src, lang, pattern, strictness) {
        Ok(m) => {
            &&& pattern_edits(src, name, pattern, replacement, level(strictness)) matches Ok(e) && (
            m.len() > 0 ==> e.len() > 0)
            &&& compiled(pattern, name) matches Ok(t) && (m.len() == 0 && !shape::is_unreadable(t)
                ==> rewritten(src, lang, pattern, replacement, strictness) == Ok::<
                Seq<char>,
                Seq<char>,
            >(src))
        },
        Err(e) => rewritten(src, lang, pattern, replacement, strictness) == Err::<
            Seq<char>,
            Seq<char>,
        >(e),
    }
}

/// Puts a replacement in place of everything in a source that follows a pattern.
pub fn rewrite(
    src: &str,
    lang: SupportLang,
    pattern: &str,
    replacement: &str,
    strictness: AstMatchStrictness,
) -> (r: Result<String, String>)
    requires
        text::byte_len(src@) < u32::MAX,
        text::byte_len(pattern@) < u32::MAX,
        rewritable(src@, ast::lang_name(lang), pattern@, level(strictness)),
    ensures
        rewrite_result(r) == rewritten(src@, lang, pattern@, replacement@, strictness),
        goes_with_search(src@, lang, pattern@, replacement@, strictness),
{
    proof {
        let e = pattern_edits(src@, ast::lang_name(lang), pattern@, replacement@, level(strictness));
        if e is Ok && e->Ok_0.len() == 0 {
            assert(e->Ok_0 =~= Seq::empty());
            no_match_no_change(src@, lang, pattern@, replacement@, strictness);
        }
    }
    match find_edits(src, lang, pattern, replacement, to_core_strictness(strictness)) {
        Ok(v) => apply_edits(src, &v),
        Err(e) => Err(cat("pattern 无效: ", &e)),
    }
}

pub fn rewrite_rust(
    src: &str,
    pattern: &str,
    replacement: &str,
    strictness: AstMatchStrictness,
) -> (r: Result<String, String>)
    requires
        text::byte_len(src@) < u32::MAX,
        text::byte_len(pattern@) < u32::MAX,
        rewritable(src@, ast::lang_name(SupportLang::Rust), pattern@, level(strictness)),
    ensures
        rewrite_result(r) == rewritten(
            src@,
            SupportLang::Rust,
            pattern@,
            replacement@,
            strictness,
        ),
        goes_with_search(src@, SupportLang::Rust, pattern@, replacement@, strictness),
{
    rewrite(src, SupportLang::Rust, pattern, replacement, strictness)
}

fn is_rewritable(src: &str, lang: SupportLang, pattern: &str, strictness: AstMatchStrictness) -> (r:
    bool)
    requires
        text::byte_len(src@) < u32::MAX,
        text::byte_len(pattern@) < u32::MAX,
    ensures
        r == rewritable(src@, ast::lang_name(lang), pattern@, level(strictness)),
{
    match pattern_tree(pattern, lang) {
        Err(_) => true,
        Ok(t) => match syntax_nodes(src, lang) {
            Ok(Some(n)) => replaceable(&t, lax(strictness), &n),
            _ => false,
        },
    }
}

/// Rewrites, where what the pattern finds in the source can be replaced.
pub fn try_rewrite(
    src: &str,
    lang: SupportLang,
    pattern: &str,
    replacement: &str,
    strictness: AstMatchStrictness,
) -> (r: Option<Result<String, String>>)
    requires
        text::byte_len(src@) < u32::MAX,
        text::byte_len(pattern@) < u32::MAX,
    ensures
        match r {
            Some(x) => {
                &&& rewritable(src@, ast::lang_name(lang), pattern@, level(strictness))
                &&& rewrite_result(x) == rewritten(src@, lang, pattern@, replacement@, strictness)
                &&& goes_with_search(src@, lang, pattern@, replacement@, strictness)
            },
            None => !rewritable(src@, ast::lang_name(lang), pattern@, level(strictness)),
        },
{
    if is_rewritable(src, lang, pattern, strictness) {
        Some(rewrite(src, lang, pattern, replacement, strictness))
    } else {
        None
    }
}

/// Rewrites Rust, where what the pattern finds in the source can be replaced.
pub fn try_rewrite_rust(
    src: &str,
    pattern: &str,
    replacement: &str,
    strictness: AstMatchStrictness,
) -> (r: Option<Result<String, String>>)
    requires
        text::byte_len(src@) < u32::MAX,
        text::byte_len(pattern@) < u32::MAX,
    ensures
        ({
            let rust = SupportLang::Rust;
            match r {
                Some(x) => {
                    &&& rewritable(src@, ast::lang_name(rust), pattern@, level(strictness))
                    &&& rewrite_result(x) == rewritten(src@, rust, pattern@, replacement@, strictness)
                    &&& goes_with_search(src@, rust, pattern@, replacement@, strictness)
                },
                None => !rewritable(src@, ast::lang_name(rust), pattern@, level(strictness)),
            }
        }),
{
    if is_rewritable(src, SupportLang::Rust, pattern, strictness) {
        Some(rewrite_rust(src, pattern, replacement, strictness))
    } else {
        None
    }
}

// ── What holds of every rewriting ───────────────────────────────────────────

/// What stands before the first change stays as it is.
pub proof fn nothing_before_changes(b: Seq<u8>, e: Seq<EditView>, len: nat)
    requires
        e.len() > 0,
        are_edits(len, e),
        e.last().position + e.last().deleted <= b.len(),
    ensures
        all_changed(b, e).len() >= e[0].position,
        all_changed(b, e).take(e[0].position as int) == b.take(e[0].position as int),
    decreases e.len(),
{
    let c = changed(b, e.last());
    if e.len() == 1 {
        assert(e.drop_last() =~= Seq::empty());
        assert(all_changed(c, e.drop_last()) == c);
        assert(c.take(e[0].position as int) =~= b.take(e[0].position as int));
    } else {
        let d = e.drop_last();
        assert(d.last() == e[e.len() - 2]);
        assert(e[e.len() - 2].position + e[e.len() - 2].deleted <= e.last().position);
        assert(e[0].position + e[0].deleted <= e.last().position);
        assert(are_edits(len, d)) by {
            assert forall|i: int| 0 <= i < d.len() implies (#[trigger] d[i]).position + d[i].deleted
                <= len by {
                assert(d[i] == e[i]);
            }
            assert forall|i: int, j: int| 0 <= i < j < d.len() implies (#[trigger] d[i]).position
                + d[i].deleted <= (#[trigger] d[j]).position by {
                assert(d[i] == e[i] && d[j] == e[j]);
            }
        }
        nothing_before_changes(c, d, len);
        assert(c.take(e[0].position as int) =~= b.take(e[0].position as int));
    }
}

/// A source in which nothing is to be changed stays as it is.
pub proof fn no_match_no_change(
    src: Seq<char>,
    lang: SupportLang,
    pattern: Seq<char>,
    replacement: Seq<char>,
    strictness: AstMatchStrictness,
)
    requires
        pattern_edits(src, ast::lang_name(lang), pattern, replacement, level(strictness)) == Ok::<
            Seq<EditView>,
            Seq<char>,
        >(Seq::empty()),
    ensures
        rewritten(src, lang, pattern, replacement, strictness) == Ok::<Seq<char>, Seq<char>>(src),
{
    assert(last_bad(Seq::<EditView>::empty(), 0) == -1);
}

/// Where a search finds nothing, a rewriting that goes with it gives the source back, unless the
/// pattern is nothing but something that cannot be read.
pub proof fn nothing_found_nothing_changed(
    src: Seq<char>,
    lang: SupportLang,
    pattern: Seq<char>,
    replacement: Seq<char>,
    strictness: AstMatchStrictness,
)
    requires
        goes_with_search(src, lang, pattern, replacement, strictness),
        found(src, lang, pattern, strictness) matches Ok(m) && m.len() == 0,
        compiled(pattern, ast::lang_name(lang)) matches Ok(t) && !shape::is_unreadable(t),
    ensures
        rewritten(src, lang, pattern, replacement, strictness) == Ok::<Seq<char>, Seq<char>>(src),
{
}

// ── Every change is made ────────────────────────────────────────────────────

/// By how many bytes the first `k` changes move what stands behind them.
pub open spec fn moved_by(e: Seq<EditView>, k: int) -> int
    decreases k,
{
    if k <= 0 {
        0
    } else {
        moved_by(e, k - 1) + e[k - 1].inserted.len() - e[k - 1].deleted
    }
}

/// Bytes into which all changes are spliced: each one's new bytes stand in its place, moved by
/// the changes before it, what stands between two changes, before the first and behind the last
/// is there as it was, and there is nothing else.
pub open spec fn all_spliced(b: Seq<u8>, e: Seq<EditView>, r: Seq<u8>) -> bool {
    &&& r.len() == b.len() + moved_by(e, e.len() as int)
    &&& forall|k: int| 0 <= k < e.len() ==> #[trigger] is_put_in(e, k, r)
    &&& forall|k: int, i: int|
        0 <= k <= e.len() && 0 <= i < b.len() && #[trigger] is_between(e, k, i) ==> 0 <= i + moved_by(
            e,
            k,
        ) < r.len() && r[i + moved_by(e, k)] == b[i]
}

/// The new bytes of the `k`-th change stand in its place, moved by the changes before it.
pub open spec fn is_put_in(e: Seq<EditView>, k: int, r: Seq<u8>) -> bool {
    let at = e[k].position + moved_by(e, k);
    0 <= at && at + e[k].inserted.len() <= r.len() && r.subrange(at, at + e[k].inserted.len())
        == e[k].inserted
}

/// A place that stands behind the first `k` changes and before the others.
pub open spec fn is_between(e: Seq<EditView>, k: int, i: int) -> bool {
    (k > 0 ==> e[k - 1].position + e[k - 1].deleted <= i) && (k < e.len() ==> i < e[k].position)
}

proof fn moved_alike(e: Seq<EditView>, d: Seq<EditView>, k: int)
    requires
        k <= d.len() <= e.len(),
        forall|i: int| 0 <= i < d.len() ==> d[i] == e[i],
    ensures
        moved_by(e, k) == moved_by(d, k),
    decreases k,
{
    if k > 0 {
        moved_alike(e, d, k - 1);
    }
}

proof fn moved_no_further(e: Seq<EditView>, len: nat, k: int)
    requires
        are_edits(len, e),
        0 <= k <= e.len(),
    ensures
        k == 0 ==> moved_by(e, k) == 0,
        k > 0 ==> moved_by(e, k) + e[k - 1].position + e[k - 1].deleted >= 0,
    decreases k,
{
    if k > 0 {
        moved_no_further(e, len, k - 1);
        if k > 1 {
            assert(e[k - 2].position + e[k - 2].deleted <= e[k - 1].position);
        }
    }
}

proof fn changes_are_spliced(b: Seq<u8>, e: Seq<EditView>)
    requires
        are_edits(b.len(), e),
    ensures
        all_spliced(b, e, all_changed(b, e)),
    decreases e.len(),
{
    let n = e.len() as int;
    if n > 0 {
        let d = e.drop_last();
        let l = e.last();
        let c = changed(b, l);
        let r = all_changed(b, e);
        assert(e[n - 1] == l);
        assert forall|i: int| 0 <= i < d.len() implies (#[trigger] d[i]).position + d[i].deleted
            <= c.len() by {
            assert(d[i] == e[i]);
            assert(e[i].position + e[i].deleted <= e[n - 1].position);
        }
        assert(are_edits(c.len(), d)) by {
            assert forall|i: int, j: int| 0 <= i < j < d.len() implies (#[trigger] d[i]).position
                + d[i].deleted <= (#[trigger] d[j]).position by {
                assert(d[i] == e[i] && d[j] == e[j]);
            }
        }
        changes_are_spliced(c, d);
        moved_alike(e, d, n - 1);
        let m = moved_by(d, n - 1);
        assert(moved_by(e, n) == m + l.inserted.len() - l.deleted);
        if n > 1 {
            assert(d[n - 2] == e[n - 2]);
            assert(e[n - 2].position + e[n - 2].deleted <= l.position);
        }
        // Behind the changes before it, what was changed last is only moved.
        assert forall|i: int| l.position <= i < c.len() implies 0 <= i + m < r.len()
            && #[trigger] r[i + m] == c[i] by {
            assert(is_between(d, n - 1, i));
        }
        assert forall|k: int| 0 <= k < e.len() implies #[trigger] is_put_in(e, k, r) by {
            moved_alike(e, d, k);
            moved_no_further(e, b.len(), k);
            if k > 0 {
                assert(e[k - 1].position + e[k - 1].deleted <= e[k].position);
            }
            let at = e[k].position + moved_by(e, k);
            if k < n - 1 {
                assert(d[k] == e[k]);
                assert(is_put_in(d, k, r));
            } else {
                assert(at + l.inserted.len() <= r.len());
                assert forall|j: int| 0 <= j < l.inserted.len() implies r[at + j]
                    == #[trigger] l.inserted[j] by {
                    assert(c[l.position + j] == l.inserted[j]);
                    assert(is_between(d, n - 1, l.position + j));
                }
                assert(r.subrange(at, at + l.inserted.len()) =~= l.inserted);
            }
        }
        assert forall|k: int, i: int|
            0 <= k <= e.len() && 0 <= i < b.len() && #[trigger] is_between(e, k, i) implies 0 <= i
            + moved_by(e, k) < r.len() && r[i + moved_by(e, k)] == b[i] by {
            if k < n {
                moved_alike(e, d, k);
                assert(i < l.position) by {
                    if k < n - 1 {
                        assert(e[k].position + e[k].deleted <= e[n - 1].position);
                    }
                }
                assert(c[i] == b[i]);
                if k > 0 {
                    assert(d[k - 1] == e[k - 1]);
                }
                if k < n - 1 {
                    assert(d[k] == e[k]);
                }
                assert(is_between(d, k, i));
            } else {
                let j = i - l.deleted + l.inserted.len();
                assert(c[j] == b[i]);
                assert(r[j + m] == c[j]);
            }
        }
        assert(r.len() == b.len() + moved_by(e, n));
        assert(all_spliced(b, e, r));
    } else {
        assert(all_spliced(b, e, b));
    }
}

/// Whether every change puts a text between characters of the source.
pub open spec fn are_text_edits(b: Seq<u8>, e: Seq<EditView>) -> bool {
    forall|k: int|
        0 <= k < e.len() ==> vstd::utf8::valid_utf8((#[trigger] e[k]).inserted)
            && vstd::utf8::is_char_boundary(b, e[k].position as int) && vstd::utf8::is_char_boundary(
            b,
            e[k].position + e[k].deleted,
        )
}

proof fn boundary_stays(b: Seq<u8>, l: EditView, p: int)
    requires
        vstd::utf8::valid_utf8(b),
        vstd::utf8::valid_utf8(changed(b, l)),
        vstd::utf8::valid_utf8(b.take(l.position as int)),
        vstd::utf8::valid_utf8(l.inserted + b.skip(l.position + l.deleted)),
        l.position + l.deleted <= b.len(),
        0 <= p <= l.position,
        vstd::utf8::is_char_boundary(b, p),
    ensures
        vstd::utf8::is_char_boundary(changed(b, l), p),
{
    let c = changed(b, l);
    if p < l.position {
        assert(c[p] == b[p]);
        vstd::utf8::is_char_boundary_iff_not_is_continuation_byte(b, p);
        vstd::utf8::is_char_boundary_iff_not_is_continuation_byte(c, p);
    } else {
        let rest = l.inserted + b.skip(l.position + l.deleted);
        if rest.len() == 0 {
            assert(c.len() == p);
            vstd::utf8::is_char_boundary_start_end_of_seq(c);
        } else {
            assert(c[p] == rest[0]);
            vstd::utf8::is_char_boundary_iff_not_is_continuation_byte(rest, 0);
            vstd::utf8::is_char_boundary_iff_not_is_continuation_byte(c, p);
        }
    }
}

proof fn text_changes_give_text(b: Seq<u8>, e: Seq<EditView>)
    requires
        vstd::utf8::valid_utf8(b),
        are_edits(b.len(), e),
        are_text_edits(b, e),
    ensures
        vstd::utf8::valid_utf8(all_changed(b, e)),
    decreases e.len(),
{
    let n = e.len() as int;
    if n > 0 {
        let d = e.drop_last();
        let l = e.last();
        let c = changed(b, l);
        assert(e[n - 1] == l);
        let (p, q) = (l.position as int, l.position + l.deleted);
        vstd::utf8::valid_utf8_split(b, p);
        vstd::utf8::valid_utf8_split(b, q);
        assert(b.take(p) =~= b.subrange(0, p));
        assert(b.skip(q) =~= b.subrange(q, b.len() as int));
        vstd::utf8::valid_utf8_concat(l.inserted, b.skip(q));
        vstd::utf8::valid_utf8_concat(b.take(p), l.inserted + b.skip(q));
        assert(c =~= b.take(p) + (l.inserted + b.skip(q)));
        assert forall|i: int| 0 <= i < d.len() implies (#[trigger] d[i]).position + d[i].deleted
            <= c.len() by {
            assert(d[i] == e[i]);
            assert(e[i].position + e[i].deleted <= e[n - 1].position);
        }
        assert(are_edits(c.len(), d)) by {
            assert forall|i: int, j: int| 0 <= i < j < d.len() implies (#[trigger] d[i]).position
                + d[i].deleted <= (#[trigger] d[j]).position by {
                assert(d[i] == e[i] && d[j] == e[j]);
            }
        }
        assert forall|k: int| 0 <= k < d.len() implies vstd::utf8::valid_utf8(
            (#[trigger] d[k]).inserted,
        ) && vstd::utf8::is_char_boundary(c, d[k].position as int) && vstd::utf8::is_char_boundary(
            c,
            d[k].position + d[k].deleted,
        ) by {
            assert(d[k] == e[k]);
            assert(e[k].position + e[k].deleted <= e[n - 1].position);
            boundary_stays(b, l, d[k].position as int);
            boundary_stays(b, l, d[k].position + d[k].deleted);
        }
        text_changes_give_text(c, d);
    }
}

proof fn none_is_bad(e: Seq<EditView>, n: int)
    requires
        n <= e.len(),
    ensures
        last_bad(e, n) < 0 <==> forall|k: int|
            0 <= k < n ==> vstd::utf8::valid_utf8((#[trigger] e[k]).inserted),
        last_bad(e, n) < n || n <= 0,
    decreases n,
{
    if n > 0 {
        none_is_bad(e, n - 1);
        if last_bad(e, n) < 0 {
            assert forall|k: int| 0 <= k < n implies vstd::utf8::valid_utf8(
                (#[trigger] e[k]).inserted,
            ) by {
                if k < n - 1 {
                    assert(last_bad(e, n - 1) < 0);
                }
            }
        }
    }
}

/// A rewriting makes every change: what it gives is the source with the new text of each change in
/// its place and everything else as it was, in the same order.
pub proof fn every_change_is_made(
    src: Seq<char>,
    lang: SupportLang,
    pattern: Seq<char>,
    replacement: Seq<char>,
    strictness: AstMatchStrictness,
    e: Seq<EditView>,
)
    requires
        pattern_edits(src, ast::lang_name(lang), pattern, replacement, level(strictness)) == Ok::<
            Seq<EditView>,
            Seq<char>,
        >(e),
        are_edits(vstd::utf8::encode_utf8(src).len(), e),
    ensures
        rewritten(src, lang, pattern, replacement, strictness) matches Ok(t) ==> all_spliced(
            vstd::utf8::encode_utf8(src),
            e,
            vstd::utf8::encode_utf8(t),
        ),
        are_text_edits(vstd::utf8::encode_utf8(src), e) ==> rewritten(
            src,
            lang,
            pattern,
            replacement,
            strictness,
        ) is Ok,
        rewritten(src, lang, pattern, replacement, strictness) is Ok ==> forall|k: int|
            0 <= k < e.len() ==> vstd::utf8::valid_utf8((#[trigger] e[k]).inserted),
{
    edits_are_made(src, e);
}

/// Making changes to a source makes every one of them.
pub proof fn edits_are_made(src: Seq<char>, e: Seq<EditView>)
    requires
        are_edits(vstd::utf8::encode_utf8(src).len(), e),
    ensures
        edited(src, e) matches Ok(t) ==> all_spliced(
            vstd::utf8::encode_utf8(src),
            e,
            vstd::utf8::encode_utf8(t),
        ),
        are_text_edits(vstd::utf8::encode_utf8(src), e) ==> edited(src, e) is Ok,
        edited(src, e) is Ok ==> forall|k: int|
            0 <= k < e.len() ==> vstd::utf8::valid_utf8((#[trigger] e[k]).inserted),
{
    let b = vstd::utf8::encode_utf8(src);
    vstd::utf8::encode_utf8_valid_utf8(src);
    changes_are_spliced(b, e);
    none_is_bad(e, e.len() as int);
    if are_text_edits(b, e) {
        text_changes_give_text(b, e);
    }
    if vstd::utf8::valid_utf8(all_changed(b, e)) {
        vstd::utf8::decode_utf8_encode_utf8(all_changed(b, e));
    }
}

/// A match is where it says it is: its text is the part of the source between its places, and
/// there is one for each place.
pub proof fn matches_are_in_the_source(
    src: Seq<char>,
    lang: SupportLang,
    pattern: Seq<char>,
    strictness: AstMatchStrictness,
    v: Seq<(usize, usize)>,
)
    requires
        pattern_matches(src, ast::lang_name(lang), pattern, level(strictness)) == Ok::<
            Seq<(usize, usize)>,
            Seq<char>,
        >(v),
        are_places(src, v),
    ensures
        found(src, lang, pattern, strictness) matches Ok(m) && m.len() == v.len() && forall|i: int|
            0 <= i < v.len() ==> {
                &&& (#[trigger] m[i]).byte_start == v[i].0
                &&& m[i].byte_end == v[i].1
                &&& v[i].0 <= v[i].1 <= vstd::utf8::encode_utf8(src).len()
                &&& vstd::utf8::encode_utf8(m[i].text) == vstd::utf8::encode_utf8(src).subrange(
                    v[i].0 as int,
                    v[i].1 as int,
                )
            },
{
    let m = found(src, lang, pattern, strictness)->Ok_0;
    assert forall|i: int| 0 <= i < v.len() implies {
        &&& (#[trigger] m[i]).byte_start == v[i].0
        &&& m[i].byte_end == v[i].1
        &&& v[i].0 <= v[i].1 <= vstd::utf8::encode_utf8(src).len()
        &&& vstd::utf8::encode_utf8(m[i].text) == vstd::utf8::encode_utf8(src).subrange(
            v[i].0 as int,
            v[i].1 as int,
        )
    } by {
        let a = text::chars_before(src, v[i].0 as nat);
        let b = text::chars_before(src, v[i].1 as nat);
        assert(v[i].0 <= v[i].1);
        if b < a {
            text::lemma_byte_len_grows(src, b, a);
        }
        let (x, y, z) = (src.take(a), src.subrange(a, b), src.skip(b));
        assert(src =~= x + y + z);
        assert(src.take(b) =~= x + y);
        text::bytes_of_parts(x, y);
        text::bytes_of_parts(x + y, z);
        text::byte_len_counts_bytes(x);
        text::byte_len_counts_bytes(x + y);
        let all = vstd::utf8::encode_utf8(src);
        assert(all.subrange(v[i].0 as int, v[i].1 as int) =~= vstd::utf8::encode_utf8(y));
    }
}

} // verus!
