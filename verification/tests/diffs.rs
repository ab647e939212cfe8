//! Diffs, and what was found in them.
use gyre::review::{
    auto_reviewer_count, begin_review, chunk_diff_entries, collect_diff, confidence_texts,
    count_added_lines, diff_weight, extract_findings, parse_diff_entries, parse_finding_line,
    pick_reviewer_count, render_report, run_review, sort_findings, truncate_diff, Confidence,
    DiffData, Finding, ReviewEvent, ReviewState, ReviewStep,
};
use gyre::say::{Line, Output, Val};

fn val(v: &Val) -> String {
    match v {
        Val::Text(t) => t.clone(),
        Val::Entry(k, a) => entry(k, a),
        Val::Joined(v) => v.iter().map(val).collect(),
    }
}

fn entry(key: &str, args: &[(String, Val)]) -> String {
    let mut s = format!("<{key}");
    for (n, v) in args {
        s.push_str(&format!(" {n}={}", val(v)));
    }
    s + ">"
}

fn shown(out: &Output) -> String {
    out.lines
        .iter()
        .map(|l| match l {
            Line::Text(t) => t.clone(),
            Line::Msg(m) => entry(&m.key, &m.args),
            Line::Parts(p) => p.iter().map(val).collect(),
        })
        .collect::<Vec<_>>()
        .join("\n")
}

fn number(s: &str) -> Option<Confidence> {
    let n: f32 = s.parse().ok()?;
    if (0.0..=1.0).contains(&n) {
        Some(Confidence { rank: (n * 1_000_000.0) as i32, shown: format!("{n:.2}") })
    } else {
        None
    }
}

fn findings_of(text: &str) -> Vec<Finding> {
    let numbers = confidence_texts(text)
        .into_iter()
        .map(|t| t.and_then(|s| number(&s)))
        .collect::<Vec<_>>();
    extract_findings(text, &numbers)
}

fn finding(level: u8, confidence: f32, location: &str, description: &str, suggestion: &str) -> Finding {
    Finding {
        level,
        confidence: number(&confidence.to_string()).unwrap(),
        location: location.to_string(),
        description: description.to_string(),
        suggestion: suggestion.to_string(),
    }
}

const FIXTURE_DIFF: &str = "\
diff --git a/src/main.rs b/src/main.rs
index 1111111..2222222 100644
--- a/src/main.rs
+++ b/src/main.rs
@@ -1,5 +1,6 @@
 fn main() {
     println!(\"hello\");
+    println!(\"world\");
 }
diff --git a/src/lib.rs b/src/lib.rs
index 3333333..4444444 100644
--- a/src/lib.rs
+++ b/src/lib.rs
@@ -10,3 +10,4 @@
 pub fn add(a: i32, b: i32) -> i32 {
     a + b
 }
+// new comment
";

#[test]
fn parses_diff_entries_by_file() {
    let entries = parse_diff_entries(FIXTURE_DIFF);
    assert_eq!(entries.len(), 2);
    assert_eq!(entries[0].0, "src/main.rs");
    assert_eq!(entries[1].0, "src/lib.rs");
    assert!(entries[0].1.contains("diff --git a/src/main.rs"));
    assert!(!entries[0].1.contains("diff --git a/src/lib.rs"));
    assert!(entries[1].1.contains("+// new comment"));
}

#[test]
fn parses_diff_rename_and_quoted_paths() {
    let entries = parse_diff_entries(
        "diff --git a/old.rs b/new.rs\n--- a/old.rs\n+++ b/new.rs\ndiff --git \"a/foo bar.rs\" \"b/foo bar.rs\"\n--- \"a/foo bar.rs\"\n+++ \"b/foo bar.rs\"\n",
    );
    assert_eq!(entries.len(), 2);
    assert_eq!(entries[0].0, "new.rs");
    assert_eq!(entries[1].0, "foo bar.rs");
}

#[test]
fn parses_diff_with_leading_stat_ignored() {
    let diff = " src/main.rs | 5 +++--\n 1 file changed\n\ndiff --git a/src/main.rs b/src/main.rs\n--- a/src/main.rs\n+++ b/src/main.rs\n+ok\n";
    let entries = parse_diff_entries(diff);
    assert_eq!(entries.len(), 1);
    assert_eq!(entries[0].0, "src/main.rs");
}

#[test]
fn counts_added_lines_excluding_headers() {
    assert_eq!(count_added_lines(FIXTURE_DIFF), 2);
    assert_eq!(count_added_lines("+++ b/x\n a\n-b\n+c\n"), 1);
}

#[test]
fn diff_weight_scales_with_files_and_added() {
    assert_eq!(diff_weight(1, 0), 3);
    assert_eq!(diff_weight(2, 20), 7);
    assert_eq!(diff_weight(6, 100), 23);
}

#[test]
fn auto_reviewer_count_tiers() {
    assert_eq!(auto_reviewer_count(0), 1);
    assert_eq!(auto_reviewer_count(1), 1);
    assert_eq!(auto_reviewer_count(2), 1);
    assert_eq!(auto_reviewer_count(3), 2);
    assert_eq!(auto_reviewer_count(6), 2);
    assert_eq!(auto_reviewer_count(7), 4);
    assert_eq!(auto_reviewer_count(20), 4);
}

#[test]
fn pick_reviewer_count_explicit_clamped_and_auto() {
    assert_eq!(pick_reviewer_count(Some(3), 10), 3);
    assert_eq!(pick_reviewer_count(Some(0), 10), 1);
    assert_eq!(pick_reviewer_count(Some(9), 10), 4);
    assert_eq!(pick_reviewer_count(None, 1), 1);
    assert_eq!(pick_reviewer_count(None, 5), 2);
    assert_eq!(pick_reviewer_count(None, 8), 4);
}

#[test]
fn chunks_diff_entries_contiguously() {
    let entries: Vec<(String, String)> =
        (0..5).map(|i| (format!("f{i}.rs"), format!("[seg{i}]"))).collect();
    let chunks = chunk_diff_entries(&entries, 2);
    assert_eq!(chunks.len(), 2);
    assert!(chunks[0].contains("[seg0]") && chunks[0].contains("[seg2]"));
    assert!(!chunks[0].contains("[seg3]"));
    assert!(chunks[1].contains("[seg3]") && chunks[1].contains("[seg4]"));
    assert_eq!(chunk_diff_entries(&entries, 9).len(), 5);
    assert!(chunk_diff_entries(&Vec::new(), 2).is_empty());
}

#[test]
fn truncate_diff_prepends_stat_and_limits_per_file() {
    let diff = "\
diff --git a/a.rs b/a.rs
--- a/a.rs
+++ b/a.rs
@@ -1 +1 @@
+a
-b
diff --git a/b.rs b/b.rs
--- a/b.rs
+++ b/b.rs
@@ -1 +1 @@
+c
-d
";
    let out = truncate_diff(diff, 2, " a.rs | 2 +-");
    assert!(out.starts_with(" a.rs | 2 +-\n\n"));
    assert_eq!(out.matches("diff --git ").count(), 2);
    assert!(!out.contains("+a"));
    assert!(!out.contains("-d"));
}

#[test]
fn extracts_and_parses_finding_lines() {
    let text = "\
总体结论：基本合格，但有空指针风险。
[P1] 0.85 src/main.rs:3 | 未处理空输入 | 增加早期返回
[P2] 0.6 src/lib.rs:12 | 重复代码 | 提取公共函数
未发现明显问题
[P0] 0.9 src/main.rs:1 | panic 风险 | 用 Option 代替
[P1] 0.85 src/main.rs:3 | 重复发现（应被保留） | 去重
[P3] 0.4 src/lib.rs | 命名建议 | 重命名
[P1] 0.85 | 缺位置 | 跳过
[P9] 0.5 src/x.rs | 级别越界 | 跳过
[P2] 1.5 src/x.rs | 置信度越界 | 跳过
[P1] <置信度> src/x.rs | 模板示例 | <建议>
";
    let findings = findings_of(text);
    assert_eq!(findings.len(), 5);
    assert!(findings.iter().any(|f| f.level == 0 && f.location == "src/main.rs:1"));
    assert!(findings.iter().all(|f| f.level <= 3));
    assert!(!findings.iter().any(|f| f.location == "src/x.rs" && f.description == "模板示例"));
}

#[test]
fn sorts_findings_by_level_then_confidence() {
    let mut findings = vec![
        finding(2, 0.8, "a", "d", "s"),
        finding(0, 0.5, "b", "d", "s"),
        finding(1, 0.9, "c", "d", "s"),
        finding(0, 0.9, "d", "d", "s"),
    ];
    sort_findings(&mut findings);
    let levels: Vec<u8> = findings.iter().map(|f| f.level).collect();
    assert_eq!(levels, vec![0, 0, 1, 2]);
    assert_eq!(findings[0].confidence.shown, "0.90");
    assert_eq!(findings[1].confidence.shown, "0.50");
}

#[test]
fn renders_report_with_sorted_findings() {
    let data = DiffData {
        files: vec!["a.rs".into(), "b.rs".into()],
        added_lines: 40,
        body: String::new(),
        truncated: false,
    };
    let findings =
        vec![finding(2, 0.7, "a.rs:1", "描述", "建议"), finding(0, 0.95, "b.rs:2", "阻塞", "")];
    let report = shown(&render_report(2, &data, findings));
    assert!(report.contains("[P0] (0.95) b.rs:2 — 阻塞"), "{report}");
    assert!(report.contains("[P2] (0.70) a.rs:1 — 描述"), "{report}");
    assert!(report.contains("建议: 建议"), "{report}");
    let p0 = report.find("[P0]").unwrap();
    let p2 = report.find("[P2]").unwrap();
    assert!(p0 < p2);
    let empty = shown(&render_report(1, &data, Vec::new()));
    assert!(!empty.contains("[P"));
    assert!(!empty.contains("建议:"));
    assert!(empty.contains("<review.empty"), "{empty}");
}

#[test]
fn groups_hold_the_whole_diff() {
    let entries = parse_diff_entries(FIXTURE_DIFF);
    let all: String = entries.iter().map(|e| e.1.clone()).collect();
    for n in 1..5 {
        assert_eq!(chunk_diff_entries(&entries, n).concat(), all);
    }
}

#[test]
fn sorting_keeps_every_finding() {
    let mut v = vec![finding(1, 0.1, "x", "", ""), finding(1, 0.2, "y", "", ""), finding(0, 0.3, "z", "", "")];
    sort_findings(&mut v);
    let names: Vec<&str> = v.iter().map(|f| f.location.as_str()).collect();
    assert_eq!(names, vec!["z", "y", "x"]);
}

#[test]
fn a_finding_needs_its_number() {
    let line = "[P2] 0.6 src/lib.rs:12 | what | how";
    assert!(parse_finding_line(line, &None).is_none());
    let f = parse_finding_line(line, &number("0.6")).unwrap();
    assert_eq!((f.level, f.location.as_str(), f.suggestion.as_str()), (2, "src/lib.rs:12", "how"));
}

#[test]
fn a_diff_is_collected() {
    let d = collect_diff(FIXTURE_DIFF.to_string(), true);
    assert_eq!(d.files, vec!["src/main.rs", "src/lib.rs"]);
    assert_eq!(d.added_lines, 2);
    assert!(d.truncated);
}

#[test]
fn a_look_at_changes_goes_step_by_step() {
    let (state, step) = begin_review();
    assert!(matches!(step, ReviewStep::Git(_)));
    let (state, step, _) =
        run_review(state, ReviewEvent::Git(Ok("true\n".into())), false, None, "T");
    assert!(matches!(step, ReviewStep::Git(_)));
    let (state, step, _) = run_review(state, ReviewEvent::Git(Ok("abc\n".into())), false, None, "T");
    assert!(matches!(step, ReviewStep::Git(_)));
    let (state, step, _) =
        run_review(state, ReviewEvent::Git(Ok(FIXTURE_DIFF.into())), false, None, "T");
    assert!(matches!(state, ReviewState::Reviewing { .. }));
    match step {
        ReviewStep::Review(tasks) => assert_eq!(tasks.len(), 1),
        other => panic!("{other:?}"),
    }
    let (state, step, out) = run_review(state, ReviewEvent::Reviewed(String::new(), Vec::new()), false, None, "T");
    assert!(matches!(state, ReviewState::Over));
    assert!(matches!(step, ReviewStep::Done));
    assert!(shown(&out).contains("<review.empty"));
}

#[test]
fn only_the_new_side_may_be_quoted() {
    let entries = parse_diff_entries("diff --git a/old.rs \"b/new name.rs\"\n+x\n");
    assert_eq!(entries[0].0, "new name.rs");
    let path = |rest: &str| parse_diff_entries(&format!("diff --git {rest}\n"))[0].0.clone();
    assert_eq!(path("a/foo b/bar\""), "bar");
    assert_eq!(path("\"a/x\" b/y\""), "y");
    assert_eq!(path("\"a/x\" \"b/a \\\"c\""), "a \\\"c");
}

#[test]
fn findings_begin_their_lines() {
    assert!(findings_of(" [P1] 0.5 src/a.rs | d | s").is_empty());
    assert_eq!(findings_of("[P1] 0.5 src/a.rs | d | s  ").len(), 1);
}

#[test]
fn added_lines_of_parts_add_up() {
    let entries = parse_diff_entries(FIXTURE_DIFF);
    let sum: usize = entries.iter().map(|e| count_added_lines(&e.1)).sum();
    assert_eq!(sum, count_added_lines(FIXTURE_DIFF));
    assert_eq!(sum, 2);
}

#[test]
fn groups_differ_by_one_file_at_most() {
    for len in 1..9usize {
        let entries: Vec<(String, String)> =
            (0..len).map(|i| (format!("f{i}"), "x".to_string())).collect();
        for n in 1..9usize {
            let sizes: Vec<usize> =
                chunk_diff_entries(&entries, n).iter().map(|g| g.len()).collect();
            assert_eq!(sizes.len(), n.min(len));
            let most = sizes.iter().max().unwrap();
            let least = sizes.iter().min().unwrap();
            assert!(*least >= 1 && most - least <= 1, "{sizes:?}");
        }
    }
}

#[test]
fn sorting_keeps_the_order_of_ties() {
    let mut v = vec![
        finding(1, 0.5, "a", "", ""),
        finding(0, 0.5, "b", "", ""),
        finding(1, 0.5, "c", "", ""),
        finding(0, 0.5, "d", "", ""),
        finding(1, 0.5, "e", "", ""),
    ];
    sort_findings(&mut v);
    let names: Vec<&str> = v.iter().map(|f| f.location.as_str()).collect();
    assert_eq!(names, vec!["b", "d", "a", "c", "e"]);
}
