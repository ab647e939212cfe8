//! The program as a whole, hooks, the screen of sub-agents, and changing the model.
use gyre::agents_view::{
    ellipsis, phase_tag, progress_bar, render_card, render_frame, run_dashboard, SubAgentPhase,
    SubAgentStatus, Words,
};
use gyre::commands::CommandOutcome;
use gyre::data::Data;
use gyre::hooks::{
    parse_decision, run_first_line, shell_hooks_from_config, HookDecision, HookEvent,
    HookEventKind, HookRule, HookRun, ShellHook,
};
use gyre::host::ApprovalMode;
use gyre::json::read_json;
use gyre::program::{
    approval_answer, approval_mode, branch_switched, dotenv_note, enhanced, fresh, fuzzy_switch,
    job_notice, keybinding_notes, last_session, list_sessions, mention_failed, next_line,
    picture_message, print_offered, prompt_fetched, restored_goal, resumed, retry, run_mode,
    session_start, snapshots_refused, socks_flag, sub_thinking, suggested, switched_on,
    thinking_plan, uses_snapshots, BranchEvent, Clearing, CommandFacts, Flags, LineStep, Next,
    OfferedModel, ReadEvent, ResumeEvent, RunMode, Runtime, SessionStart, StoredSession,
    Suggestion, ThinkingPlan,
};
use gyre::repl::Mode;
use gyre::say::{Line, Output, Val};
use gyre::session::UserContent;
use gyre::switch::{apply_model_switch, CallContext, Model, ModelState, SwitchProfile};

fn val(v: &Val) -> String {
    match v {
        Val::Text(t) => t.clone(),
        Val::Entry(k, a) => entry(k, a),
        Val::Joined(v) => v.iter().map(val).collect(),
    }
}

fn entry(key: &str, args: &[(String, Val)]) -> String {
    let mut s = format!("<{key}");
    for (n, v) in args {
        s.push_str(&format!(" {n}={}", val(v)));
    }
    s + ">"
}

fn shown(out: &Output) -> String {
    out.lines
        .iter()
        .map(|l| match l {
            Line::Text(t) => t.clone(),
            Line::Msg(m) => entry(&m.key, &m.args),
            Line::Parts(p) => p.iter().map(val).collect(),
        })
        .collect::<Vec<_>>()
        .join("\n")
}

fn texts(v: &[&str]) -> Vec<String> {
    v.iter().map(|s| s.to_string()).collect()
}

fn flags() -> Flags {
    Flags {
        rpc: false,
        acp: false,
        serve: None,
        list_sessions: false,
        resume: None,
        fork: None,
        again: false,
    }
}

#[test]
fn the_program_runs_in_one_way() {
    assert!(matches!(run_mode(&flags(), "b:1"), RunMode::Agent));
    assert!(matches!(run_mode(&Flags { acp: true, ..flags() }, "b:1"), RunMode::AcpStdio));
    assert!(matches!(run_mode(&Flags { rpc: true, ..flags() }, "b:1"), RunMode::Rpc));
    assert!(matches!(
        run_mode(&Flags { rpc: true, acp: true, ..flags() }, "b:1"),
        RunMode::Refused { .. }
    ));
    assert!(matches!(
        run_mode(&Flags { serve: Some(":80".into()), acp: true, ..flags() }, "b:1"),
        RunMode::Serve { bind, acp: true } if bind == "b:80"
    ));
    assert!(matches!(
        run_mode(&Flags { list_sessions: true, ..flags() }, "b:1"),
        RunMode::ListSessions
    ));
}

#[test]
fn the_command_line_goes_before_the_rest() {
    let (w, y) = (ApprovalMode::Write, ApprovalMode::Yolo);
    assert_eq!(approval_mode(Some("yolo"), Some(w), w), y);
    assert_eq!(approval_mode(Some("bogus"), Some(w), y), ApprovalMode::AlwaysAsk);
    assert_eq!(approval_mode(None, Some(w), y), w);
    assert_eq!(approval_mode(None, None, y), y);
    assert!(fuzzy_switch("on", false) && !fuzzy_switch("0", true) && fuzzy_switch("auto", true));
    assert!(switched_on(false, Some("1")) && switched_on(true, None) && !switched_on(false, Some("x")));
    assert_eq!(socks_flag("h:1").unwrap(), ("h".to_string(), 1));
    assert_eq!(socks_flag("h:0").unwrap_err(), "--socks 格式无效: \"h:0\" — 端口必须 > 0");
    assert_eq!(dotenv_note(0, &Vec::new()), None);
    assert_eq!(
        dotenv_note(2, &texts(&["a", "b"])).as_deref(),
        Some("已加载 2 个环境变量（来源 a, b）")
    );
}

#[test]
fn a_session_is_chosen() {
    let f = Flags { resume: Some("r".into()), fork: Some("f".into()), again: true, ..flags() };
    assert!(matches!(session_start(&f), SessionStart::Resume(id) if id == "r"));
    let f = Flags { fork: Some("f".into()), again: true, ..flags() };
    assert!(matches!(session_start(&f), SessionStart::Fork(id) if id == "f"));
    assert!(matches!(session_start(&Flags { again: true, ..flags() }), SessionStart::Last));
    assert!(matches!(session_start(&flags()), SessionStart::New));
    assert!(last_session(&Some("x".into())).is_ok());
    assert!(last_session(&None).is_err());
    assert_eq!(shown(&list_sessions(&Vec::new())), "<session.none_history>");
    let v = vec![StoredSession { id: "a".into(), bytes: 5, mtime: 7 }];
    assert_eq!(shown(&list_sessions(&v)), "<session.list_entry id=a bytes=5 ts=7>");
    assert_eq!(restored_goal("done", "g"), "已恢复目标：g");
    assert!(restored_goal("active", "g").contains("paused"));
}

#[test]
fn the_agent_is_set_up() {
    assert!(approval_answer(" Yes\n") && !approval_answer("no") && !approval_answer(""));
    assert_eq!(
        job_notice("j1", "build", None, "ok"),
        "<system-notice>\n后台作业 j1（build，completed）已完结。请基于以下结果继续工作。\n\nok\n</system-notice>"
    );
    assert!(matches!(thinking_plan(false, Some(5), true, &None), ThinkingPlan::Off));
    assert!(matches!(thinking_plan(true, None, true, &None), ThinkingPlan::Budget(16000)));
    assert!(matches!(
        thinking_plan(true, Some(5), true, &Some("t".into())),
        ThinkingPlan::Judged { budget: 5, .. }
    ));
    assert_eq!(sub_thinking(true, true, Some(9)), Some(9));
    assert_eq!(sub_thinking(false, true, Some(9)), None);
    assert!(uses_snapshots(true, 0, false) && !uses_snapshots(true, 1, false));
    assert!(snapshots_refused("m").contains(" m "));
    let notes = keybinding_notes(
        &texts(&["app.nope"]),
        &vec![("app.clear".to_string(), "bad".to_string())],
    );
    assert_eq!(
        shown(&notes),
        "[keybindings] 未知键位动作 app.nope（已忽略）\n[keybindings] 键位 app.clear 非法（已回退默认）：bad"
    );
}

#[test]
fn lines_lead_on() {
    let step = |s: &str| next_line(&ReadEvent::Line(s.to_string())).0;
    assert!(matches!(step("  "), LineStep::Again));
    assert!(matches!(step(" /help "), LineStep::Command(c) if c == "/help"));
    assert!(matches!(step("do it"), LineStep::Task(t) if t == "do it"));
    assert!(matches!(next_line(&ReadEvent::Interrupted).0, LineStep::Again));
    assert!(matches!(next_line(&ReadEvent::Ended).0, LineStep::Stop));
    assert!(matches!(next_line(&ReadEvent::Failed("e".into())).0, LineStep::Fail(_)));
    let (s, out) = next_line(&ReadEvent::Queued("a\nb".into()));
    assert!(matches!(s, LineStep::Task(_)));
    assert_eq!(shown(&out), "<queue.running_next text=a ⏎ b>");
    assert_eq!(mention_failed("p", "e"), "@file p 读取失败，已跳过：e");
}

fn runtime() -> Runtime {
    Runtime {
        mode: Mode::Code,
        github_enabled: false,
        github_allow_write: false,
        tools: Vec::new(),
    }
}

#[test]
fn commands_change_what_they_are_about() {
    let facts = CommandFacts { subagents: false, token_set: true };
    let mut r = runtime();
    let (n, out) = r.command(&CommandOutcome::SwitchMode(Mode::Plan), facts);
    assert!(matches!(n, Next::Rebuild) && r.mode == Mode::Plan);
    assert_eq!(shown(&out), "<mode.switched mode=Plan>");
    let o = CommandOutcome::SetTool { key: "ast".into(), enabled: true };
    assert!(matches!(r.command(&o, facts).0, Next::Rebuild));
    let o = CommandOutcome::SetTool { key: "ast".into(), enabled: false };
    r.command(&o, facts);
    assert_eq!(r.tools, vec![("ast".to_string(), false)]);
    let o = CommandOutcome::SetTool { key: "bogus".into(), enabled: true };
    assert!(matches!(r.command(&o, facts).0, Next::Skip));
    let o = CommandOutcome::SetGithub { enabled: true, allow_write: Some(true) };
    let (_, out) = r.command(&o, facts);
    assert!(r.github_enabled && r.github_allow_write);
    assert!(shown(&out).starts_with("[github] <github.toggle_enabled"));
    assert!(matches!(r.command(&CommandOutcome::Swarm("x".into()), facts).0, Next::Skip));
    assert!(matches!(
        r.command(&CommandOutcome::Inject("t".into()), facts).0,
        Next::Run(t) if t == "t"
    ));
    assert!(matches!(r.command(&CommandOutcome::Quit, facts).0, Next::Stop));
    assert!(matches!(r.command(&CommandOutcome::Compact, facts).0, Next::Work));
}

#[test]
fn what_came_of_commands_is_told() {
    assert_eq!(resumed("i", &ResumeEvent::Missing).key, "session.not_exist");
    assert_eq!(resumed("i", &ResumeEvent::Opened { tokens: 3 }).args.len(), 2);
    assert_eq!(fresh("i", &Some("e".into())).key, "session.fresh_failed");
    assert!(matches!(retry(&Some("again".into())).0, Next::Run(_)));
    assert!(matches!(retry(&None).0, Next::Skip));
    assert!(matches!(prompt_fetched(&Err("e".into())).0, Next::Skip));
    assert!(matches!(prompt_fetched(&Ok("t".into())).0, Next::Run(_)));
    let image = || UserContent::Image { mime: "m".into(), data: "d".into() };
    assert_eq!(picture_message(image(), "").len(), 1);
    assert_eq!(picture_message(image(), "x").len(), 2);
    assert_eq!(
        branch_switched(&BranchEvent::Switched { target: "n".into() }).key,
        "tree.switched"
    );
    let offered = Ok(vec![OfferedModel { id: "a".into(), owner: Some("o".into()) }]);
    assert_eq!(
        shown(&print_offered("api", "url", &offered)),
        "<models.title source=api @ url>\n  a  (o)"
    );
    assert_eq!(enhanced(&Ok("t".into())).unwrap(), "✨ Enhanced:\nt");
    assert_eq!(enhanced(&Err("e".into())).unwrap_err(), "✨ 增强失败：e");
    let s = Suggestion { path: "p".into(), score: "1.0".into(), reason: "r".into() };
    assert_eq!(shown(&suggested("q", &vec![s]).unwrap()), format!("  {:<40} 1.0  r", "p"));
    assert_eq!(suggested("q", &Vec::new()).unwrap_err(), "未找到与「q」相关的文件");
}

#[test]
fn the_context_is_cleared_message_by_message() {
    let mut c = Clearing::new();
    assert!(c.step(&Ok(2), "s").is_none());
    assert!(c.step(&Ok(1), "s").is_none());
    let out = c.step(&Ok(0), "s").unwrap();
    assert_eq!(shown(&out), "已清空上下文（3 条消息；会话 s 保留，历史文件未删）");
    let mut c = Clearing::new();
    let out = c.step(&Err("e".into()), "s").unwrap();
    assert!(shown(&out).starts_with("清空上下文失败：e\n"));
}

// ── Hooks ───────────────────────────────────────────────────────────────────

fn rule(event: &str, command: &str) -> HookRule {
    HookRule {
        event: event.to_string(),
        tool: None,
        command: command.to_string(),
        timeout_secs: Some(5),
    }
}

#[test]
fn from_config_maps_rules() {
    let src = r#"
[default_model]
id = "m"
api = "deepseek"
base_url = "x"

[[hooks]]
event = "before_tool"
command = "/bin/gate"

[[hooks]]
event = "after_tool"
command = "/bin/notify"
"#;
    let rules = |src: &str| -> Vec<HookRule> {
        let t: toml::Table = src.parse().unwrap();
        t.get("hooks")
            .and_then(|h| h.as_array())
            .map(|v| {
                v.iter()
                    .map(|r| rule(r["event"].as_str().unwrap(), r["command"].as_str().unwrap()))
                    .collect()
            })
            .unwrap_or_default()
    };
    let hooks = shell_hooks_from_config(rules(src));
    assert_eq!(hooks.len(), 2);
    assert_eq!(hooks[1].rule.command, "/bin/notify");
    let empty = "[default_model]\nid = \"m\"\napi = \"deepseek\"\nbase_url = \"x\"\n";
    assert!(shell_hooks_from_config(rules(empty)).is_empty());
}

#[test]
fn only_a_denial_forbids() {
    let d = |decision: &str, reason: Option<&str>| {
        Some(HookDecision {
            decision: decision.to_string(),
            reason: reason.map(|s| s.to_string()),
        })
    };
    assert_eq!(parse_decision(&d("deny", Some("不许跑"))).as_deref(), Some("不许跑"));
    assert_eq!(parse_decision(&d("deny", None)).as_deref(), Some("被 shell 钩子拦截"));
    assert_eq!(parse_decision(&d("allow", None)), None);
    assert_eq!(parse_decision(&d("maybe", Some("x"))), None);
    assert_eq!(parse_decision(&None), None);
    assert_eq!(run_first_line(&HookRun::Line("x\n".into())).as_deref(), Some("x\n"));
    assert_eq!(run_first_line(&HookRun::Line(String::new())), None);
    assert_eq!(run_first_line(&HookRun::TimedOut), None);
    assert_eq!(run_first_line(&HookRun::NotStarted), None);
}

#[test]
fn commands_run_for_their_events() {
    let event = |name: &str, kind: HookEventKind| HookEvent {
        name: name.to_string(),
        kind,
        payload: read_json("{\"turn\": 2}").unwrap(),
    };
    let h = ShellHook::new(rule("turn_start", "cat"));
    assert_eq!(h.on_event(&event("agent_start", HookEventKind::Other), true), None);
    assert_eq!(
        h.on_event(&event("turn_start", HookEventKind::Other), true).as_deref(),
        Some("{\"turn\":2}")
    );
    let h = ShellHook::new(rule("tool_call", "gate"));
    assert_eq!(h.on_event(&event("tool_call", HookEventKind::BeforeTool), true), None);
    let args = read_json("{\"cmd\": \"ls\"}").unwrap();
    assert_eq!(
        h.before_tool_intercept("shell", &args, true).as_deref(),
        Some("{\"args\":{\"cmd\":\"ls\"},\"event\":\"before_tool\",\"tool\":\"shell\"}")
    );
    assert_eq!(h.before_tool_intercept("shell", &args, false), None);
    let both = ShellHook::new(rule("before_tool", "gate"));
    assert_eq!(
        both.before_tool_intercept("shell", &args, true),
        h.before_tool_intercept("shell", &args, true)
    );
    let h = ShellHook::new(rule("tool_result", "note"));
    let after = event("tool_result", HookEventKind::AfterTool { tool: "shell".into() });
    assert!(h.on_event(&after, true).is_some());
    assert!(h.on_event(&after, false).is_none());
    let (p, a) = ShellHook::shell_command("ls", None, false);
    assert_eq!((p.as_str(), a), ("/bin/sh", texts(&["-c", "ls"])));
    let (p, a) = ShellHook::shell_command("ls", Some("zsh"), true);
    assert_eq!((p.as_str(), a), ("zsh", texts(&["/C", "ls"])));
}

// ── The screen of sub-agents ────────────────────────────────────────────────

fn words() -> Words {
    let s = |t: &str| t.to_string();
    Words {
        active: s("active"),
        done: s("done"),
        failed: s("failed"),
        total: s("total"),
        task: s("task"),
        turns: s("turns"),
        tools: s("tools"),
        pending: s("pending"),
        running: s("running"),
        streaming: s("streaming"),
        waiting_tool: s("waiting"),
        phase_done: s("finished"),
        phase_failed: s("broken"),
        cancelled: s("cancelled"),
    }
}

fn status(phase: SubAgentPhase) -> SubAgentStatus {
    SubAgentStatus {
        label: "one".into(),
        task: "do\nit".into(),
        phase,
        filled: 4,
        percent: 42,
        input_tokens: 5,
        output_tokens: 6,
        cost: Some("0.0100".into()),
        turns: 2,
        tool_calls: 3,
        activity: Some("reading".into()),
        last_log: Some("log".into()),
        error: None,
    }
}

#[test]
fn texts_are_cut_to_a_line() {
    assert_eq!(ellipsis(" a\nb ", 10), "a b");
    assert_eq!(ellipsis("abcdef", 4), "abc…");
    assert_eq!(ellipsis("abc", 0), "…");
    assert_eq!(progress_bar(4, 42), "[████░░░░░░]  42%");
    assert_eq!(progress_bar(99, 100), "[██████████] 100%");
    assert_eq!(phase_tag(SubAgentPhase::Done, &words()), "\x1b[32m✓finished\x1b[0m");
}

#[test]
fn cards_show_what_an_agent_does() {
    let c = render_card(&status(SubAgentPhase::Running), &words());
    assert_eq!(
        c,
        "│ \x1b[36m▶running\x1b[0m one [████░░░░░░]  42%\x1b[K\n│   task: do it\x1b[K\n│   turns 2 · tools 3 · tokens 11 $0.0100 · reading\x1b[K\n│   ▸ log\x1b[K\n"
    );
}

#[test]
fn frames_count_the_agents() {
    let none = render_frame(&Vec::new(), &words());
    assert!(none.contains("（当前无运行中的子 Agent）"));
    let v = vec![
        status(SubAgentPhase::Running),
        status(SubAgentPhase::Done),
        status(SubAgentPhase::Failed),
        status(SubAgentPhase::Cancelled),
    ];
    let f = render_frame(&v, &words());
    assert!(f.contains("active \x1b[1m1\x1b[0m · done \x1b[32m1\x1b[0m · failed \x1b[31m1\x1b[0m · total 44 tokens"), "{f}");
    assert!(f.ends_with("\x1b[J\n"));
    assert_eq!(run_dashboard().1, "\x1b[H");
}

// ── Changing the model ──────────────────────────────────────────────────────

fn state() -> ModelState {
    ModelState {
        api_key: "old".into(),
        base_url: "old".into(),
        max_output: 1,
        model: Model {
            id: "old".into(),
            provider: "old".into(),
            api: "old".into(),
            max_input_tokens: 1,
            max_output_tokens: 1,
            supports_tools: true,
            supports_streaming: true,
            supports_thinking: false,
            extra_body: Data::Null,
            tokenizer: None,
        },
        provider_ctx: CallContext {
            api_key: None,
            base_url: None,
            max_in_flight: None,
            headers: Vec::new(),
            quirks: Data::Null,
            auth: "api_key".into(),
        },
    }
}

#[test]
fn the_model_is_changed_or_left() {
    let p = SwitchProfile {
        id: "new".into(),
        api: "deepseek".into(),
        auth: "api_key".into(),
        base_url: "https://x".into(),
        inline_key: "k".into(),
        max_input_tokens: 9,
        max_output_tokens: None,
        headers: vec![("h".into(), "v".into())],
        extra_body: Data::Null,
        tokenizer: None,
        quirks: Data::Null,
    };
    let mut s = state();
    let (ok, out) = apply_model_switch(&None, &None, "no such model", "", true, &mut s);
    assert!(!ok && !out.lines.is_empty());
    assert_eq!(s.model.id, "old");
    let (ok, _) = apply_model_switch(&Some(p), &None, "", "found", true, &mut s);
    assert!(ok);
    assert_eq!((s.model.id.as_str(), s.base_url.as_str()), ("new", "https://x"));
    assert_eq!(s.max_output, 4096);
    assert_eq!(s.provider_ctx.headers, vec![("h".to_string(), "v".to_string())]);
}
