//! The words behind the program's name, and the turns of the agent.
use gyre::argv::{
    collect_flag_kinds, help_entry_description, help_key_of, is_numeric_token, menu_description,
    parse_socks_spec, reserved_top_level_word_hint, resolve_serve_address, scan_lang_flag,
    validate_argv_flags, ArgFacts, FlagKind, LongFlagTable, ShortFlagTable,
};
use gyre::host::{
    git_diff_args, is_literal_prompt, optional_context_files, print_approval_status,
    report_ttsr_rules, resolve_prompt_input, run_git_diff, swarm_width, ApprovalMode,
    ConsolidateHook, Consolidation, GitRun, StructuredSleepHook, ToolPlace, WithEval,
};
use gyre::json::read_json;
use gyre::manage::{route, Route};
use gyre::memory::{strip_memory_blocks, AutoRetain, ToolUse};
use gyre::menu::{acp_command_catalog, acp_command_keys};
use gyre::queue::MessageQueue;
use gyre::say::{Msg, Val};
use gyre::turn::{AgentEvent, SigintAction, SigintRouter, StreamEvent, Turn};

fn texts(v: &[&str]) -> Vec<String> {
    v.iter().map(|s| s.to_string()).collect()
}

fn long(name: &str, switch: bool, values: Option<(usize, usize)>) -> ArgFacts {
    ArgFacts { switch, values, long: Some(name.to_string()), aliases: Vec::new(), short: None }
}

fn tables() -> (LongFlagTable, ShortFlagTable) {
    let mut v = Vec::new();
    for n in [
        "model", "cwd", "approval-mode", "lang", "append-system-prompt", "resume", "fork", "otlp",
        "socks", "socks-user", "socks-pass",
    ] {
        v.push(long(n, false, Some((1, 1))));
    }
    v.push(long("serve", false, Some((0, 1))));
    for n in ["acp", "rpc", "rpc-forward-ask", "continue", "list-sessions"] {
        v.push(long(n, true, Some((0, 0))));
    }
    let mut help = long("help", true, None);
    help.short = Some('h');
    v.push(help);
    let mut version = long("version", true, None);
    version.short = Some('V');
    v.push(version);
    collect_flag_kinds(&v)
}

fn said(m: &Msg) -> String {
    let mut s = m.key.clone();
    for (_, v) in &m.args {
        if let Val::Text(t) = v {
            s.push(' ');
            s.push_str(t);
        }
    }
    s
}

fn check(raw: &[&str]) -> Result<(), String> {
    let (longs, shorts) = tables();
    validate_argv_flags(&longs, &shorts, &texts(raw)).map_err(|m| said(&m))
}

#[test]
fn unknown_flag_is_rejected() {
    let err = check(&["--model", "__nope__", "--smoke-test"]).unwrap_err();
    assert!(err.contains("--smoke-test"), "{err}");
    let err = check(&["--smoke-test"]).unwrap_err();
    assert!(err.contains("cli.error.unknown_flags"), "{err}");
    assert!(check(&["-Z"]).is_err());
    assert!(check(&["-aZ"]).is_err());
}

#[test]
fn known_flags_pass() {
    assert!(check(&["--model", "x", "do", "it"]).is_ok());
    assert!(check(&["--model=x", "do", "it"]).is_ok());
    assert!(check(&["--acp"]).is_ok());
    assert!(check(&["--serve"]).is_ok());
    assert!(check(&["--serve", "0.0.0.0:80", "do", "it"]).is_ok());
    assert!(check(&["-h"]).is_ok());
    assert!(check(&[]).is_ok());
}

#[test]
fn flag_after_task_is_rejected() {
    let err = check(&["do", "it", "--model", "x"]).unwrap_err();
    assert!(err.contains("--model"), "{err}");
    assert!(check(&["do", "it", "--acp"]).is_err());
}

#[test]
fn double_dash_escapes_literal_flags() {
    assert!(check(&["--", "do", "it", "--model", "x"]).is_ok());
}

#[test]
fn help_after_task_is_allowed_for_subcommands() {
    assert!(check(&["models", "--help"]).is_ok());
    assert!(check(&["models", "-h"]).is_ok());
    assert!(check(&["mcp", "add", "--help"]).is_ok());
}

#[test]
fn numeric_tokens_are_prompt_words() {
    assert!(check(&["-1"]).is_ok());
    assert!(check(&["compare", "-1.5", "and", "-.5"]).is_ok());
}

#[test]
fn flags_are_collected_with_their_kinds() {
    let mut a = long("colour", false, None);
    a.aliases = texts(&["color"]);
    a.short = Some('c');
    let (longs, shorts) = collect_flag_kinds(&vec![a, long("serve", false, Some((0, 1)))]);
    assert_eq!(
        longs,
        vec![
            ("colour".to_string(), FlagKind::TakesValue),
            ("color".to_string(), FlagKind::TakesValue),
            ("serve".to_string(), FlagKind::OptionalValue),
        ]
    );
    assert_eq!(shorts, vec![('c', FlagKind::TakesValue)]);
}

#[test]
fn parse_socks_spec_ok() {
    assert_eq!(parse_socks_spec("127.0.0.1:1080"), Ok(("127.0.0.1".into(), 1080)));
    assert_eq!(
        parse_socks_spec(" proxy.example.com:8080 "),
        Ok(("proxy.example.com".into(), 8080))
    );
    assert_eq!(parse_socks_spec("[::1]:1080"), Ok(("::1".into(), 1080)));
    assert_eq!(parse_socks_spec("1.2.3.4:65535"), Ok(("1.2.3.4".into(), 65535)));
}

#[test]
fn parse_socks_spec_rejects_bad_input() {
    assert!(parse_socks_spec("127.0.0.1").is_err());
    assert!(parse_socks_spec("127.0.0.1:0").is_err());
    assert!(parse_socks_spec("127.0.0.1:abc").is_err());
    assert!(parse_socks_spec("127.0.0.1:70000").is_err());
    assert!(parse_socks_spec(":1080").is_err());
    assert!(parse_socks_spec("host:").is_err());
    assert_eq!(parse_socks_spec("h:a\"b").unwrap_err(), "端口无效: \"a\\\"b\"");
}

#[test]
fn strip_memory_blocks_removes_memories_and_mental() {
    let text = "前面正文\n<memories>\n1. [0.92] 旧召回\n</memories>\n中间\n<mental_models>种子</mental_models>\n结尾";
    let stripped = strip_memory_blocks(text);
    assert!(stripped.contains("前面正文"));
    assert!(stripped.contains("中间"));
    assert!(stripped.contains("结尾"));
    assert!(!stripped.contains("旧召回"));
    assert!(!stripped.contains("<memories>"));
    assert!(!stripped.contains("<mental_models>"));
    let mixed = strip_memory_blocks("<MEMORIES>内容</MEMORIES>保留");
    assert!(!mixed.contains("内容"));
    assert!(mixed.contains("保留"));
    assert_eq!(strip_memory_blocks("纯文本"), "纯文本");
}

#[test]
fn auto_retain_counts_final_rounds_only() {
    let mut hook = AutoRetain { every_n_turns: 4, final_rounds: 0 };
    let none: Vec<ToolUse> = Vec::new();
    let mut notes: Vec<String> = Vec::new();
    notes.extend(hook.on_turn_end(true, "正在检查…", &none));
    for i in 1..=3 {
        notes.extend(hook.on_turn_end(false, &format!("答复 {i}"), &none));
    }
    assert!(notes.is_empty());
    let args = read_json("{\"path\": \"Cargo.toml\"}").unwrap();
    let tools = vec![ToolUse { name: "write_file".into(), args }];
    notes.extend(hook.on_turn_end(false, "决定用 structured 后端", &tools));
    assert_eq!(notes.len(), 1);
    assert!(notes[0].contains("决定用 structured 后端"));
    assert!(notes[0].contains("- tool write_file({\"path\":\"Cargo.toml\"})"));
    assert!(notes[0].chars().count() <= 4000);
    for i in 5..=7 {
        notes.extend(hook.on_turn_end(false, &format!("答复 {i}"), &none));
    }
    assert_eq!(notes.len(), 1);
    notes.extend(hook.on_turn_end(false, "收尾总结", &none));
    assert_eq!(notes.len(), 2);
}

#[test]
fn reserved_word_bare_verb_hints() {
    assert!(reserved_top_level_word_hint("models").is_some());
    assert!(reserved_top_level_word_hint("list").is_some());
    assert!(reserved_top_level_word_hint("config").is_some());
}

#[test]
fn reserved_word_multiword_prompt_falls_through() {
    assert!(reserved_top_level_word_hint("list all my files").is_none());
    assert!(reserved_top_level_word_hint("upgrade the deps").is_none());
    assert!(reserved_top_level_word_hint("explain models of thinking").is_none());
    assert!(reserved_top_level_word_hint("explain models").is_none());
    assert!(reserved_top_level_word_hint("-models").is_none());
    assert!(reserved_top_level_word_hint("@file models").is_none());
}

#[test]
fn reserved_word_plugin_grammar_hints() {
    assert!(reserved_top_level_word_hint("marketplace add x").is_some());
    assert!(reserved_top_level_word_hint("plugin rm x").is_some());
    assert!(reserved_top_level_word_hint("uninstall foo@bar").is_some());
    assert!(reserved_top_level_word_hint("enable foo@bar").is_some());
    assert!(reserved_top_level_word_hint("enable -x").is_none());
}

#[test]
fn manage_route_fallthrough_keeps_reserved_hints() {
    for word in ["models", "auth", "config", "list", "usage"] {
        assert!(matches!(route(&texts(&[word])), Route::Fallthrough), "{word}");
        assert!(reserved_top_level_word_hint(word).is_some(), "{word}");
    }
    assert!(matches!(route(&texts(&["explain", "models"])), Route::Fallthrough));
    assert!(reserved_top_level_word_hint("explain models").is_none());
}

#[test]
fn sigint_router_cancels_active_turn_then_reports_idle() {
    let mut router = SigintRouter::new();
    assert_eq!(router.interrupt().0, SigintAction::Idle);
    router.begin_turn(7);
    let (action, turn, _) = router.interrupt();
    assert_eq!(action, SigintAction::Cancelled);
    assert_eq!(turn, Some(7));
    router.end_turn();
    assert_eq!(router.interrupt().0, SigintAction::Idle);
}

#[test]
fn with_eval_attaches_eval_and_delegates_rest() {
    let wrapped = WithEval { inner: texts(&["dummy"]), eval: "eval".into() };
    let names = wrapped.specs();
    assert!(names.contains(&"dummy".to_string()));
    assert!(names.contains(&"eval".to_string()));
    assert!(matches!(wrapped.get("dummy"), Some(ToolPlace::Inner)));
    assert!(matches!(wrapped.get("eval"), Some(ToolPlace::Added)));
}

#[test]
fn context_files_inject_only_enabled() {
    let base = texts(&["项目约定"]);
    let files = optional_context_files(&base, &texts(&["<lsp>\n</lsp>"]));
    assert_eq!(files.len(), 2);
    assert!(files[0].contains("项目约定"));
    assert!(files[1].contains("<lsp>"));
    assert!(!files.iter().any(|f| f.contains("<ast>")));
    assert!(!files.iter().any(|f| f.contains("<github>")));
}

#[test]
fn context_files_github_toggle() {
    let none: Vec<String> = Vec::new();
    let on = optional_context_files(&none, &texts(&["<github>\n</github>"]));
    assert!(on.iter().any(|f| f.contains("<github>")));
    let off = optional_context_files(&none, &none);
    assert!(!off.iter().any(|f| f.contains("<github>")));
}

// ── More of the same ────────────────────────────────────────────────────────

#[test]
fn the_language_is_found_early() {
    assert_eq!(scan_lang_flag(&texts(&["--lang", "ru"])).as_deref(), Some("ru"));
    assert_eq!(scan_lang_flag(&texts(&["x", "--lang=ja"])).as_deref(), Some("ja"));
    assert_eq!(scan_lang_flag(&texts(&["--lang", "-x"])), None);
    assert_eq!(scan_lang_flag(&texts(&["--lang="])), None);
}

#[test]
fn a_port_alone_takes_the_configured_host() {
    assert_eq!(resolve_serve_address(":80", "0.0.0.0:3000"), "0.0.0.0:80");
    assert_eq!(resolve_serve_address("", "0.0.0.0:3000"), "0.0.0.0:3000");
    assert_eq!(resolve_serve_address("1.2.3.4:5", "x:1"), "1.2.3.4:5");
    assert_eq!(resolve_serve_address(":80", "nohost"), "127.0.0.1:80");
}

#[test]
fn menu_entries_have_their_own_words() {
    assert_eq!(help_key_of("quit"), "help.exit");
    assert_eq!(help_key_of("status"), "help.status");
    assert_eq!(menu_description("help.x", "help.x"), "");
    assert_eq!(help_entry_description("  /status   Show the state"), "Show the state");
    assert_eq!(help_entry_description("  /h, /help        Show this"), "Show this");
    assert_eq!(help_entry_description("  /status"), "");
    assert!(is_numeric_token("-1.5"));
    assert!(!is_numeric_token("-x"));
}

#[test]
fn the_menu_describes_what_the_catalogue_knows() {
    let names = texts(&["/?", "/exit", "/mine", "/status"]);
    let keys = acp_command_keys(&names);
    assert_eq!(keys, texts(&["help.h", "help.exit", "help.mine", "help.status"]));
    let wordings =
        texts(&["  /h, /help   Show this", "  /exit  Leave", "help.mine", "  /status  The state"]);
    let menu = acp_command_catalog(&names, &wordings);
    let shown: Vec<(&str, &str)> =
        menu.iter().map(|(n, d)| (n.as_str(), d.as_str())).collect();
    assert_eq!(
        shown,
        vec![("/?", "Show this"), ("/exit", "Leave"), ("/mine", ""), ("/status", "The state")]
    );
}

#[test]
fn prompts_are_texts_or_files() {
    assert!(is_literal_prompt("a\nb"));
    assert!(!is_literal_prompt("a"));
    assert_eq!(resolve_prompt_input("a\nb", &Some("file".into())), "a\nb");
    assert_eq!(resolve_prompt_input("a", &Some("file".into())), "file");
    assert_eq!(resolve_prompt_input("a", &None), "a");
}

#[test]
fn git_is_asked_for_what_is_wanted() {
    let a = git_diff_args(true, &None);
    assert!(a.contains(&"--staged".to_string()) || a.contains(&"--cached".to_string()), "{a:?}");
    let b = git_diff_args(false, &Some("HEAD~1".into()));
    assert_eq!(b.last().map(String::as_str), Some("HEAD~1"));
    assert_eq!(run_git_diff(&GitRun::Printed("x".into())), "x");
    assert!(run_git_diff(&GitRun::NotStarted("no git".into())).contains("no git"));
}

#[test]
fn rules_are_counted() {
    let s = report_ttsr_rules(&texts(&["a", "b"]), &texts(&["a"]));
    assert_eq!(s, "已加载 2 条 TTSR 规则（内置 1 条 + 项目 1 条: b）");
    assert_eq!(
        report_ttsr_rules(&texts(&["a"]), &texts(&["a"])),
        "已加载 1 条 TTSR 规则（全部为内置）"
    );
}

#[test]
fn failures_leave_memory_alone() {
    let h = ConsolidateHook { auto_consolidate: true, background: false };
    assert!(matches!(h.on_event(Some(true)).consolidation, Consolidation::Now));
    assert!(matches!(h.on_event(Some(false)).consolidation, Consolidation::No));
    assert!(matches!(h.on_event(None).consolidation, Consolidation::No));
    let s = StructuredSleepHook { auto_consolidate: true, has_model: true, background: true };
    assert!(!s.on_event(Some(false)).cleanup);
}

#[test]
fn swarms_are_never_of_width_zero() {
    assert!(swarm_width(0) >= 1);
    assert_eq!(swarm_width(3), 3);
    assert_eq!(print_approval_status(ApprovalMode::Yolo).key, "approval.status");
}

#[test]
fn a_turn_ends_as_its_last_event_says() {
    let mut q = MessageQueue::new();
    let mut t = Turn::new(false, true);
    t.consume_stream(&StreamEvent::Agent(AgentEvent::TextDelta("hi\n".into())), &mut q);
    assert!(!t.over);
    let s = t.consume_stream(&StreamEvent::Typed("look there".into()), &mut q);
    assert_eq!(s.steer.as_deref(), Some("look there"));
    t.consume_stream(&StreamEvent::InputEnded, &mut q);
    assert!(!t.reading);
    t.consume_stream(
        &StreamEvent::Agent(AgentEvent::Done { success: true, turns: 1, tools: 0, cost: "0".into() }),
        &mut q,
    );
    t.consume_stream(&StreamEvent::AgentEnded, &mut q);
    assert!(t.over && t.success);
}

#[test]
fn nothing_behind_a_double_dash_counts() {
    for rest in [&[][..], &["--smoke-test"][..], &["--model", "x"][..], &["-Z", "--"][..]] {
        let after = |front: &[&str]| {
            let words: Vec<&str> = front.iter().chain(["--"].iter()).chain(rest).copied().collect();
            check(&words)
        };
        assert_eq!(after(&["do", "it"]), Ok(()));
        assert_eq!(after(&["--serve"]), Ok(()));
        assert_eq!(after(&["--nope"]), check(&["--nope"]));
        assert_eq!(after(&["do", "--acp"]), check(&["do", "--acp"]));
    }
    assert!(check(&["--model", "--", "--smoke-test"]).is_err());
}
