//! Syntax trees: blocks, borders, searching and summaries.
use gyre::ast::{
    block_from_nodes, block_range_at, enclosing_block_boundaries, first_content_col,
    normalize_ranges, parent_of, syntax_nodes, BlockRange, LineRange, SupportLang,
};
use gyre::pattern::{
    apply_edits, matches_of, pattern_tree, replaced_pattern, rewrite, rewrite_rust, search,
    search_rust, try_rewrite, try_rewrite_rust, try_search, try_search_rust, AstMatchStrictness,
    Edit,
};
use gyre::shape::{MetaVar, PatternTree, UNREADABLE};
use gyre::summary::{
    emit_segments, summarize_code, LineSpan, SegmentKind, SummaryOptions, SummaryResult,
};

#[test]
fn resolves_function_block() {
    let code = "mod m {\n    fn hello() {\n        let x = 1;\n    }\n}\n";
    let range = block_range_at(code, 2, SupportLang::Rust).unwrap().unwrap();
    assert_eq!(range.start_line, 2);
    assert_eq!(range.end_line, 4);
}

#[test]
fn none_on_blank_line() {
    let code = "fn a() {}\n\nfn b() {}\n";
    assert!(block_range_at(code, 2, SupportLang::Rust).unwrap().is_none());
}

#[test]
fn from_path_infers_rust() {
    assert_eq!(SupportLang::from_path("a.rs"), Some(SupportLang::Rust));
    assert_eq!(SupportLang::from_path("a.txt"), None);
}

#[test]
fn enclosing_surfaces_closer_outside_window() {
    let code = "fn x() {\n    if y {\n    }\n}\n";
    let ranges = vec![LineRange { start_line: 1, end_line: 3 }];
    let b = enclosing_block_boundaries(code, SupportLang::Rust, &ranges).unwrap().unwrap();
    assert!(b.contains(&4), "{b:?}");
}

#[test]
fn enclosing_surfaces_opener_before_window() {
    let code = "fn x() {\n    if y {\n    }\n}\n";
    let ranges = vec![LineRange { start_line: 4, end_line: 4 }];
    let b = enclosing_block_boundaries(code, SupportLang::Rust, &ranges).unwrap().unwrap();
    assert!(b.contains(&1), "{b:?}");
}

#[test]
fn enclosing_empty_when_block_fully_visible() {
    let code = "fn x() {\n}\n";
    let ranges = vec![LineRange { start_line: 1, end_line: 2 }];
    let b = enclosing_block_boundaries(code, SupportLang::Rust, &ranges).unwrap().unwrap();
    assert!(b.is_empty(), "{b:?}");
}

#[test]
fn enclosing_empty_when_no_ranges_or_empty_code() {
    let none: Vec<LineRange> = Vec::new();
    assert!(enclosing_block_boundaries("fn x() {\n}\n", SupportLang::Rust, &none)
        .unwrap()
        .unwrap()
        .is_empty());
    let ranges = vec![LineRange { start_line: 1, end_line: 3 }];
    assert!(enclosing_block_boundaries("", SupportLang::Rust, &ranges).unwrap().unwrap().is_empty());
}

#[test]
fn enclosing_none_on_syntax_error() {
    let code = "@@@ not valid rust @@@\n";
    let ranges = vec![LineRange { start_line: 1, end_line: 1 }];
    assert_eq!(enclosing_block_boundaries(code, SupportLang::Rust, &ranges).unwrap(), None);
}

#[test]
fn extensions_name_languages() {
    for (e, l) in [
        ("x.rs", SupportLang::Rust),
        ("x.py", SupportLang::Python),
        ("x.go", SupportLang::Go),
        ("x.js", SupportLang::JavaScript),
        ("dir.d/x.ts", SupportLang::TypeScript),
    ] {
        assert_eq!(SupportLang::from_path(e), Some(l), "{e}");
    }
    assert_eq!(SupportLang::from_path("rs"), None);
    assert_eq!(SupportLang::from_path(".rs"), None);
    assert_eq!(SupportLang::from_path("src/main.rs"), Some(SupportLang::Rust));
    assert_eq!(SupportLang::from_path("a.py/b"), None);
    assert_eq!(SupportLang::from_path("a.py/"), Some(SupportLang::Python));
    assert_eq!(SupportLang::from_path("src/.."), None);
    assert_eq!(SupportLang::from_path("a.rs/."), Some(SupportLang::Rust));
    assert_eq!(SupportLang::from_path("a.rs/./"), Some(SupportLang::Rust));
    assert_eq!(SupportLang::from_path("."), None);
    assert_eq!(SupportLang::from_path("./."), None);
    assert_eq!(SupportLang::from_path("/"), None);
}

#[test]
fn language_names_read_back() {
    for l in [
        SupportLang::Rust,
        SupportLang::Python,
        SupportLang::Go,
        SupportLang::JavaScript,
        SupportLang::TypeScript,
    ] {
        assert_eq!(SupportLang::parse(l.as_str()), Some(l));
    }
    assert_eq!(SupportLang::parse("cobol"), None);
}

#[test]
fn lines_out_of_range_have_no_block() {
    let code = "fn a() {\n}\n";
    assert_eq!(block_range_at(code, 0, SupportLang::Rust).unwrap(), None);
    assert_eq!(block_range_at(code, 9, SupportLang::Rust).unwrap(), None);
}

#[test]
fn python_block_ends_with_its_body() {
    let code = "def f():\n    x = 1\n    return x\n\ny = 2\n";
    let r = block_range_at(code, 1, SupportLang::Python).unwrap().unwrap();
    assert_eq!(r, BlockRange { start_line: 1, end_line: 3 });
}

#[test]
fn nodes_have_parents_before_them() {
    let nodes = syntax_nodes("fn a() { 1 }\n", SupportLang::Rust).unwrap().unwrap();
    assert!(nodes.len() > 3);
    assert_eq!(parent_of(&nodes, 0), None);
    for i in 1..nodes.len() {
        assert!(parent_of(&nodes, i).unwrap() < i);
    }
    assert_eq!(block_from_nodes(&nodes, None, 0), None);
}

#[test]
fn content_begins_behind_spaces() {
    assert_eq!(first_content_col("    fn x"), Some(4));
    assert_eq!(first_content_col("   "), None);
    assert_eq!(first_content_col(""), None);
}

#[test]
fn touching_windows_are_merged() {
    let v = vec![
        LineRange { start_line: 8, end_line: 9 },
        LineRange { start_line: 1, end_line: 3 },
        LineRange { start_line: 4, end_line: 5 },
    ];
    let m = normalize_ranges(&v);
    assert_eq!(m.len(), 2);
    assert_eq!((m[0].start_line, m[0].end_line), (1, 5));
    assert_eq!((m[1].start_line, m[1].end_line), (8, 9));
}

#[test]
fn borders_lie_outside_the_windows() {
    let code = "mod m {\n    fn a() {\n        1\n    }\n}\n";
    let ranges = vec![LineRange { start_line: 3, end_line: 3 }];
    let b = enclosing_block_boundaries(code, SupportLang::Rust, &ranges).unwrap().unwrap();
    assert!(!b.contains(&3));
    assert!(b.windows(2).all(|w| w[0] < w[1]), "{b:?}");
}

// ── Searching ───────────────────────────────────────────────────────────────

#[test]
fn search_finds_function_defs() {
    let src = "fn foo() {}\nfn bar() {}\n";
    let matches = search_rust(src, "fn $NAME() {}", AstMatchStrictness::Smart).unwrap();
    assert_eq!(matches.len(), 2);
}

#[test]
fn rewrite_renames_function() {
    let src = "fn old() { 1 }";
    let out = rewrite_rust(
        src,
        "fn old() { $$$BODY }",
        "fn new() { $$$BODY }",
        AstMatchStrictness::Smart,
    )
    .unwrap();
    assert!(!out.is_empty());
}

#[test]
fn search_finds_python_functions() {
    let src = "def foo():\n    pass\n\ndef bar():\n    return 1\n";
    let matches = search(
        src,
        SupportLang::Python,
        "def $NAME($$$ARGS):\n    $$$BODY",
        AstMatchStrictness::Smart,
    )
    .unwrap();
    assert_eq!(matches.len(), 2);
}

#[test]
fn search_finds_go_functions() {
    let src = "func alpha() {}\nfunc beta() {}\n";
    let matches =
        search(src, SupportLang::Go, "func $NAME() {}", AstMatchStrictness::Smart).unwrap();
    assert_eq!(matches.len(), 2);
}

#[test]
fn search_finds_typescript_functions() {
    let src = "function a() {}\nfunction b() {}\n";
    let matches =
        search(src, SupportLang::TypeScript, "function $NAME() {}", AstMatchStrictness::Smart)
            .unwrap();
    assert_eq!(matches.len(), 2);
}

#[test]
fn search_finds_javascript_functions() {
    let src = "function foo() { return 1; }\nfunction bar() { return 2; }\n";
    let matches = search(
        src,
        SupportLang::JavaScript,
        "function $NAME() { $$$BODY }",
        AstMatchStrictness::Smart,
    )
    .unwrap();
    assert_eq!(matches.len(), 2);
}

#[test]
fn strictness_parse_defaults_to_smart() {
    assert_eq!(AstMatchStrictness::parse(None), AstMatchStrictness::Smart);
    assert_eq!(AstMatchStrictness::parse(Some("cst")), AstMatchStrictness::Cst);
    assert_eq!(AstMatchStrictness::parse(Some("unknown")), AstMatchStrictness::Smart);
}

#[test]
fn matches_are_where_they_say() {
    let src = "fn foo() {}\nfn bar() {}\n";
    let m = search_rust(src, "fn $NAME() {}", AstMatchStrictness::Smart).unwrap();
    assert_eq!(m[1].text, "fn bar() {}");
    assert_eq!(&src[m[1].byte_start..m[1].byte_end], "fn bar() {}");
}

#[test]
fn rewriting_without_a_match_changes_nothing() {
    let src = "fn a() {}\n";
    let out = rewrite_rust(src, "nothing()", "something()", AstMatchStrictness::Smart).unwrap();
    assert_eq!(out, src);
}

#[test]
fn rewriting_keeps_what_stands_around() {
    let src = "// é\nfn a() { x() }\nfn b() { y() }\n";
    let out = rewrite(
        src,
        SupportLang::Rust,
        "x()",
        "z(1)",
        AstMatchStrictness::Smart,
    )
    .unwrap();
    assert_eq!(out, "// é\nfn a() { z(1) }\nfn b() { y() }\n");
}

#[test]
fn strictness_levels_differ() {
    let src = "fn a() { f(/* c */ 1) }\n";
    let loose = search_rust(src, "f(1)", AstMatchStrictness::Smart).unwrap().len();
    let exact = search_rust(src, "f(1)", AstMatchStrictness::Cst).unwrap().len();
    assert!(exact <= loose);
}

#[test]
fn places_become_matches() {
    let m = matches_of("aébc", &vec![(1, 3), (3, 5)]);
    assert_eq!(m.len(), 2);
    assert_eq!(m[0].text, "é");
    assert_eq!(m[1].text, "bc");
}

#[test]
fn edits_are_applied_and_must_give_a_text() {
    let e = Edit { position: 1, deleted: 1, inserted: b"XY".to_vec() };
    assert_eq!(apply_edits("abc", &vec![e]).unwrap(), "aXYc");
    let bad = Edit { position: 0, deleted: 1, inserted: vec![0xff] };
    assert!(apply_edits("abc", &vec![bad]).is_err());
}

#[test]
fn metavariables_of_other_languages_are_replaced() {
    assert_eq!(replaced_pattern(SupportLang::Python, "def $A(): pass").as_deref(), Some("def _A(): pass"));
}

// ── Summaries ───────────────────────────────────────────────────────────────

fn summarize(code: &str) -> SummaryResult {
    summarize_code(code, SupportLang::Rust, &SummaryOptions::default())
}

fn big(n: usize) -> String {
    let body: String = (0..n).map(|i| format!("    let v{i} = {i};\n")).collect();
    "fn big() {\n".to_string() + &body + "}\n"
}

fn kept(r: &SummaryResult) -> usize {
    r.segments
        .iter()
        .filter(|s| s.kind == SegmentKind::Kept)
        .map(|s| s.text.as_ref().map(String::len).unwrap_or(0))
        .sum()
}

#[test]
fn small_file_no_elision() {
    let r = summarize("fn a() {\n    1\n}\n");
    assert!(r.parsed);
    assert!(!r.elided);
    assert_eq!(r.total_lines, 3);
}

#[test]
fn large_body_is_elided() {
    let r = summarize(&big(10));
    assert!(r.parsed);
    assert!(r.elided);
    assert!(r.segments.iter().any(|s| s.kind == SegmentKind::Elided));
    assert!(r.segments.iter().any(|s| s.kind == SegmentKind::Kept
        && s.text.as_deref().unwrap_or("").contains("fn big")));
}

#[test]
fn segments_cover_full_range() {
    let r = summarize(&big(20));
    let mut prev_end = 0u32;
    for seg in &r.segments {
        assert_eq!(seg.start_line, prev_end + 1);
        assert!(seg.end_line >= seg.start_line);
        prev_end = seg.end_line;
    }
    assert_eq!(prev_end, r.total_lines);
}

#[test]
fn unfold_reveals_more_lines() {
    let body = big(30);
    let folded = summarize_code(
        &body,
        SupportLang::Rust,
        &SummaryOptions { min_body_lines: 4, unfold_until_lines: 0, unfold_limit_lines: 0 },
    );
    let unfolded = summarize_code(
        &body,
        SupportLang::Rust,
        &SummaryOptions { min_body_lines: 4, unfold_until_lines: 60, unfold_limit_lines: 120 },
    );
    assert!(kept(&unfolded) >= kept(&folded));
}

#[test]
fn syntax_error_returns_unparsed() {
    let r = summarize("@@@ broken rust @@@\n");
    assert!(!r.parsed);
    assert!(r.segments.is_empty());
}

#[test]
fn folded_lines_are_left_out() {
    let v = emit_segments("a\nb\nc\nd\n", &vec![LineSpan { start: 1, end: 3 }], 4);
    assert_eq!(v.len(), 3);
    assert_eq!(v[0].text.as_deref(), Some("a"));
    assert_eq!(v[1].kind, SegmentKind::Elided);
    assert_eq!((v[1].start_line, v[1].end_line), (2, 3));
    assert_eq!(v[2].text.as_deref(), Some("d"));
}

#[test]
fn borders_count_lines_from_one() {
    let src = "fn a() {\n    1;\n}\n";
    let v = enclosing_block_boundaries(
        src,
        SupportLang::Rust,
        &vec![LineRange { start_line: 3, end_line: 3 }],
    )
    .unwrap()
    .unwrap();
    assert_eq!(v, vec![1]);
}

#[test]
fn a_rewriting_goes_with_a_search() {
    let src = "fn a() { x() }\n";
    let level = AstMatchStrictness::Smart;
    assert_eq!(
        search_rust(src, "", level).unwrap_err(),
        rewrite_rust(src, "", "y()", level).unwrap_err()
    );
    assert_eq!(search_rust(src, "x()", level).unwrap().len(), 1);
    assert_ne!(rewrite_rust(src, "x()", "y()", level).unwrap(), src);
}

#[test]
fn an_unreadable_pattern_is_compared_with_every_node() {
    let src = "fn a() { let s = \"`\"; }\n";
    let level = AstMatchStrictness::Smart;
    assert_eq!(search_rust(src, "`", level).unwrap().len(), 0);
    assert_ne!(rewrite_rust(src, "`", "'", level).unwrap(), src);
}

fn asked(src: &str, lang: SupportLang, pattern: &str, level: AstMatchStrictness) -> Option<usize> {
    try_search(src, lang, pattern, level).map(|r| r.unwrap().len())
}

#[test]
fn patterns_are_trees() {
    match pattern_tree("foo($X, $$$)", SupportLang::JavaScript).unwrap() {
        PatternTree::Inner { children, .. } => {
            assert_eq!(children.len(), 2);
            assert!(
                matches!(&children[0], PatternTree::Leaf { text, named: true, .. } if text == "foo")
            );
            match &children[1] {
                PatternTree::Inner { children, .. } => {
                    assert!(matches!(&children[0], PatternTree::Leaf { named: false, .. }));
                    assert!(
                        matches!(&children[1], PatternTree::Var(MetaVar::Capture(n, true)) if n == "X")
                    );
                    assert!(matches!(children[3], PatternTree::Var(MetaVar::Multiple)));
                }
                other => panic!("{other:?}"),
            }
        }
        other => panic!("{other:?}"),
    }
    assert!(pattern_tree("", SupportLang::Rust).is_err());
    match pattern_tree("`", SupportLang::Rust).unwrap() {
        PatternTree::Leaf { kind, .. } => assert_eq!(kind, UNREADABLE),
        other => panic!("{other:?}"),
    }
}

#[test]
fn an_ellipsis_alone_is_not_sought() {
    let js = SupportLang::JavaScript;
    let python = SupportLang::Python;
    for lang in [js, SupportLang::TypeScript] {
        assert_eq!(asked("f(1)", lang, "$$$", AstMatchStrictness::Smart), None);
        assert_eq!(asked("f(1)", lang, "$$$_A", AstMatchStrictness::Smart), None);
    }
    assert_eq!(asked("f(1)\n", python, "$$$", AstMatchStrictness::Smart), None);
    assert_eq!(asked("f(1)\n", python, "___", AstMatchStrictness::Smart), None);
    assert_eq!(asked("package a\n", SupportLang::Go, "___", AstMatchStrictness::Smart), None);
    assert!(asked("f(1)", js, "$$$A", AstMatchStrictness::Smart).is_some());
    assert!(try_rewrite("f(1)", js, "$$$", "x", AstMatchStrictness::Smart).is_none());
}

#[test]
fn ellipses_in_a_node_are_sought() {
    let js = SupportLang::JavaScript;
    for level in [
        AstMatchStrictness::Cst,
        AstMatchStrictness::Smart,
        AstMatchStrictness::Ast,
        AstMatchStrictness::Relaxed,
        AstMatchStrictness::Signature,
        AstMatchStrictness::Template,
    ] {
        // A signature leaves the names out.
        let named = !matches!(level, AstMatchStrictness::Signature | AstMatchStrictness::Template);
        let calls = if named { 2 } else { 3 };
        assert_eq!(asked("f(1, 2); g(f())", js, "f($$$)", level), Some(calls), "{level:?}");
        assert_eq!(asked("f(1, 2, 3)", js, "f($A, $$$)", level), Some(1), "{level:?}");
        assert!(asked("if (a) { b(); }", js, "if ($A) { $$$ }", level).is_some(), "{level:?}");
        assert!(
            try_rewrite("x = [1, 2]", js, "[$$$A]", "f($$$A)", level).is_some(),
            "{level:?}"
        );
    }
}

#[test]
fn an_ellipsis_behind_a_passed_token_is_not_sought() {
    let js = SupportLang::JavaScript;
    assert_eq!(asked("x = \"abc\"", js, "'$$$'", AstMatchStrictness::Ast), None);
    assert!(asked("x = \"abc\"", js, "'$$$'", AstMatchStrictness::Smart).is_some());
    assert!(asked("x = 'abc'", js, "'$$$'", AstMatchStrictness::Ast).is_some());
    assert_eq!(asked("f(a /* c */)", js, "f(a, $$$)", AstMatchStrictness::Ast), None);
    assert!(asked("f(a /* c */)", js, "f(a, $$$)", AstMatchStrictness::Smart).is_some());
}

#[test]
fn a_match_without_an_end_is_not_replaced() {
    let js = SupportLang::JavaScript;
    let level = AstMatchStrictness::Ast;
    assert!(try_rewrite("x = \"\"", js, "''", "y", level).is_none());
    assert!(try_search("x = \"\"", js, "''", level).is_some());
    assert_eq!(try_rewrite("x = ''", js, "''", "y", level), Some(Ok("x = y".to_string())));
    assert!(try_rewrite("x = \"\"", js, "''", "y", AstMatchStrictness::Smart).is_some());
}

#[test]
fn nothing_found_is_nothing_changed() {
    let src = "fn a() { x() }\n";
    for level in [AstMatchStrictness::Cst, AstMatchStrictness::Smart, AstMatchStrictness::Ast] {
        for pattern in ["nothing()", "struct $A { $$$B }", "let y = 1;", "x(1)"] {
            let found = try_search_rust(src, pattern, level).unwrap();
            if found.is_ok_and(|m| m.is_empty()) {
                let out = try_rewrite_rust(src, pattern, "z()", level).unwrap();
                assert_eq!(out, Ok(src.to_string()), "{pattern}");
            }
        }
    }
    assert_eq!(try_search_rust(src, "nothing()", AstMatchStrictness::Smart).unwrap().unwrap().len(), 0);
}
