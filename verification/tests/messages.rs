//! Messages that wait, and text that is coloured.
use gyre::markdown::{
    code_to_highlight, fenced_plain, inline_marks, is_closing_fence, lang_to_ext, open_fence,
    render_code_block, render_inline, strip_heading, strip_ordered, MarkdownRenderer, Piece,
};
use gyre::outline::split_queued_messages;
use gyre::queue::{parse_queue_shorthand, pop_queued, MessageQueue};

fn many(v: &[&str]) -> Vec<String> {
    v.iter().map(|s| s.to_string()).collect()
}

fn plain(v: Vec<Piece>) -> String {
    v.into_iter()
        .map(|p| match p {
            Piece::Text(t) => t,
            Piece::Code { code, lang } => render_code_block(&code, &lang, &None) + "\n",
        })
        .collect()
}

#[test]
fn queue_is_fifo_with_lifo_undo_and_indexed_remove() {
    let mut q = MessageQueue::new();
    assert!(q.is_empty());
    q.enqueue("a");
    q.enqueue("  ");
    q.enqueue("b");
    assert_eq!(q.len(), 2);
    assert_eq!(q.list(), vec![(1, "a"), (2, "b")]);
    assert_eq!(q.pop_front().as_deref(), Some("a"));
    assert_eq!(q.pop_back().as_deref(), Some("b"));
    q.enqueue_many(many(&["x", "y", "z"]));
    assert_eq!(q.remove(2).as_deref(), Some("y"));
    assert_eq!(q.remove(0), None);
    assert_eq!(q.list(), vec![(1, "x"), (2, "z")]);
    assert_eq!(q.clear(), 2);
    assert!(q.is_empty());
}

#[test]
fn shorthand_prefixes_enqueue_body_only() {
    assert_eq!(parse_queue_shorthand("-> 先跑测试").as_deref(), Some("先跑测试"));
    assert_eq!(parse_queue_shorthand("=> 再看文档").as_deref(), Some("再看文档"));
    assert_eq!(parse_queue_shorthand("->"), None);
    assert_eq!(parse_queue_shorthand("普通输入"), None);
}

#[test]
fn splits_sequential_lists_into_messages() {
    let msgs = split_queued_messages("1. 第一件事\n2. 第二件事\n3. 第三件事");
    assert_eq!(msgs, vec!["第一件事", "第二件事", "第三件事"]);
    let msgs = split_queued_messages("a) alpha\nb) beta");
    assert_eq!(msgs, vec!["alpha", "beta"]);
    let msgs = split_queued_messages("i. one\nii. two\niii. three");
    assert_eq!(msgs, vec!["one", "two", "three"]);
    let msgs = split_queued_messages("1. 第一段\n   续行\n2. 第二段");
    assert_eq!(msgs, vec!["第一段\n   续行", "第二段"]);
}

#[test]
fn non_sequential_or_mixed_input_stays_single_message() {
    assert_eq!(split_queued_messages("1. 一\n3. 三"), vec!["1. 一\n3. 三"]);
    assert_eq!(split_queued_messages("1. 只有一项"), vec!["1. 只有一项"]);
    assert_eq!(split_queued_messages("1. 一\n2) 二"), vec!["1. 一\n2) 二"]);
    assert_eq!(split_queued_messages("就这样吧"), vec!["就这样吧"]);
    assert!(split_queued_messages("   \n  ").is_empty());
    assert_eq!(split_queued_messages("1.5 版本"), vec!["1.5 版本"]);
}

#[test]
fn queued_messages_come_one_by_one() {
    let mut q = MessageQueue::new();
    q.enqueue_many(many(&["a", "b"]));
    assert_eq!(pop_queued(&mut q).as_deref(), Some("a"));
    assert_eq!(pop_queued(&mut q).as_deref(), Some("b"));
    assert_eq!(pop_queued(&mut q), None);
    assert_eq!(q.remove(1), None);
}

#[test]
fn nested_lists_split_at_the_outer_level() {
    let msgs = split_queued_messages("1. a\n2. b\n   1. c\n   2. d");
    assert_eq!(msgs.len(), 2);
    assert!(msgs[1].contains("1. c"));
}

// ── Text that is coloured ───────────────────────────────────────────────────

#[test]
fn renders_heading_and_inline_code() {
    let out = render_inline("# Title with `code` here", true);
    assert!(out.contains("\x1b[1;36m"));
    assert!(out.contains("\x1b[36mcode\x1b[0m"));
}

#[test]
fn passthrough_when_color_disabled() {
    assert_eq!(render_inline("# Title `code`", false), "# Title `code`");
}

#[test]
fn fenced_block_accumulates_then_highlights() {
    let mut md = MarkdownRenderer::new(false);
    let out = plain(md.push("```rust\nfn main() {}\n```\n"));
    assert!(out.contains("```rust"));
    assert!(out.contains("fn main() {}"));
}

#[test]
fn finishes_unclosed_block_as_plain() {
    let mut md = MarkdownRenderer::new(false);
    md.push("```py\nprint(1)\n");
    let tail = md.finish();
    assert!(tail.contains("```py"));
    assert!(tail.contains("print(1)"));
}

#[test]
fn cuts_between_pushes_do_not_matter() {
    let text = "# Head\nplain `x` **y**\n```rs\nlet a = 1;\n```\nlast";
    let mut whole = MarkdownRenderer::new(true);
    let mut a = plain(whole.push(text));
    a.push_str(&whole.finish());
    let mut parts = MarkdownRenderer::new(true);
    let mut b = String::new();
    for c in text.chars() {
        b.push_str(&plain(parts.push(&c.to_string())));
    }
    b.push_str(&parts.finish());
    assert_eq!(a, b);
}

#[test]
fn fences_open_and_close() {
    assert_eq!(open_fence("```rust"), Some(('`', "rust".to_string())));
    assert_eq!(open_fence("~~~"), Some(('~', String::new())));
    assert_eq!(open_fence("plain"), None);
    assert!(is_closing_fence("```", '`'));
    assert!(!is_closing_fence("~~~", '`'));
}

#[test]
fn marks_inside_a_line() {
    assert_eq!(inline_marks("a **b** c"), "a \x1b[1mb\x1b[0m c");
    assert_eq!(inline_marks("no marks"), "no marks");
    assert_eq!(strip_heading("## Two").as_deref(), Some("Two"));
    assert_eq!(strip_heading("#none"), None);
    assert!(strip_ordered("1. x").is_some());
    assert_eq!(strip_ordered("x"), None);
}

#[test]
fn code_is_shown_coloured_or_plain() {
    assert_eq!(render_code_block("x\n", "rs", &None), fenced_plain("x\n", "rs"));
    assert!(render_code_block("x\n", "rs", &Some("COLOURED".to_string())).contains("COLOURED"));
    assert_eq!(lang_to_ext("rust"), "rs");
    assert_eq!(code_to_highlight("x"), "x");
}

#[test]
fn lists_that_are_indented_throughout_are_split() {
    assert_eq!(split_queued_messages("  1. a\n  2. b"), vec!["a", "b"]);
    assert_eq!(split_queued_messages("\n\n  1. a\n  2. b\n"), vec!["a", "b"]);
}

#[test]
fn blocks_keep_their_own_fences_without_colour() {
    for text in ["~~~\nx\n~~~\n", "````rs\nx\n````\n", "  ```py  \nx\n```\n", "a\n~~~\n~~~\nb\n"] {
        let mut md = MarkdownRenderer::new(false);
        let mut out = plain(md.push(text));
        out.push_str(&md.finish());
        assert_eq!(out, text);
    }
}

#[test]
fn an_open_block_ends_as_it_came() {
    let mut md = MarkdownRenderer::new(false);
    assert_eq!(plain(md.push("~~~\nx\ny")), "");
    let tail = md.finish();
    assert!(tail.starts_with("~~~\nx\ny"), "{tail}");
    assert_eq!(tail.matches("~~~").count(), 1, "{tail}");
}
