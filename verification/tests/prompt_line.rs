//! The line that the user types: completion, commands, lists.
use gyre::admin::ModelProfile;
use gyre::clock::{civil_from_days, format_time};
use gyre::commands::{
    handle_command, handle_enhance, handle_review, handle_suggest, CommandContext, CommandOutcome,
};
use gyre::goal::{goal_updated, still_notified, GoalAction, GoalView};
use gyre::keybindings::{render_key, resolve, Action};
use gyre::paste::{
    handle_paste, image_of_clipboard, image_of_file, image_of_png, ClipboardError,
};
use gyre::prompts::{
    parse_prompt_args, prompt_usage_args, resolve_mcp_prompt, try_custom_command, PromptCmd,
};
use gyre::queue::MessageQueue;
use gyre::queue_cmd::{handle_running_input, RunningInput};
use gyre::repl::{
    all_command_names, all_command_names_with_prompts, builtin_commands, complete_tools_args,
    is_known_optional_key, is_known_tools_key, model_choices, parse_github_subcommand, parse_mode, preview_text,
    CustomCommand, GithubToggle, McpPromptArg, McpPromptInfo, Mode, ModelName, ReplHelper,
};
use gyre::say::{Line, Output, Val};
use gyre::session::{
    context_breakdown, first_user_message_text, last_user_prompt, session_history_lines,
    AgentMessage, ContentBlock, ContextBreakdown, UserContent,
};
use gyre::show::{help_key_list, print_help, render_bar, SessionRow, Settings, TokenUsage, Totals};
use gyre::todo::{normalize_todo_id, TodoAction, TodoItem, TodoPhase};

fn val(v: &Val) -> String {
    match v {
        Val::Text(t) => t.clone(),
        Val::Entry(k, a) => entry(k, a),
        Val::Joined(v) => v.iter().map(val).collect(),
    }
}

fn entry(key: &str, args: &[(String, Val)]) -> String {
    let mut s = format!("<{key}");
    for (n, v) in args {
        s.push_str(&format!(" {n}={}", val(v)));
    }
    s + ">"
}

fn shown(out: &Output) -> String {
    out.lines
        .iter()
        .map(|l| match l {
            Line::Text(t) => t.clone(),
            Line::Msg(m) => entry(&m.key, &m.args),
            Line::Parts(p) => p.iter().map(val).collect(),
        })
        .collect::<Vec<_>>()
        .join("\n")
}

fn texts(v: &[&str]) -> Vec<String> {
    v.iter().map(|s| s.to_string()).collect()
}

fn words(s: &str) -> Vec<String> {
    s.split_whitespace().map(|w| w.to_string()).collect()
}

fn helper() -> ReplHelper {
    ReplHelper::new(
        texts(&["/help", "/model", "/mode", "/mcp"]),
        texts(&["ds", "gpt-4o"]),
        texts(&["pdf", "react"]),
        texts(&["abc123", "def456"]),
    )
}

fn custom(name: &str, body: &str) -> CustomCommand {
    CustomCommand { name: name.to_string(), description: String::new(), body: body.to_string() }
}

fn sample_prompt() -> McpPromptInfo {
    McpPromptInfo {
        name: "review".into(),
        description: "代码评审".into(),
        arguments: vec![
            McpPromptArg { name: "path".into(), required: true },
            McpPromptArg { name: "lang".into(), required: false },
        ],
    }
}

fn profile(id: &str) -> ModelProfile {
    ModelProfile {
        id: id.to_string(),
        alias: None,
        api: "openai-completions".into(),
        base_url: "http://localhost".into(),
        config_key_empty: false,
        expanded_key: "x".into(),
        env_name: "GYRE_KEY".into(),
        env_set: false,
    }
}

fn context() -> CommandContext {
    CommandContext {
        model: "m".into(),
        mode: Mode::Code,
        session_id: "s".into(),
        cwd: ".".into(),
        context: TokenUsage { current: 0, limit: 0, pct: "0.0".into(), filled: 0 },
        guard: "80".into(),
        accumulated: Totals {
            input: 0,
            output: 0,
            cache_read: 0,
            cache_write: 0,
            cost: "0.0000".into(),
            cache_rate: "0.0".into(),
        },
        settings: Settings {
            other_models: 0,
            approval: "always-ask".into(),
            guard_pct: "80".into(),
            max_turns: 0,
            todo_eager: None,
            todo_reminders: true,
            todo_reminders_max: 3,
            goal_tokens: 0,
            goal_secs: 0,
            goal_hard: false,
            async_enabled: true,
            async_max: 4,
            subagent_enabled: true,
            subagent_concurrent: 4,
            compaction: "summarize".into(),
            language: None,
            user_agent: None,
        },
        optional: Vec::new(),
        github_enabled: false,
        github_allow_write: false,
        github_token: false,
        keybindings: resolve(&Vec::new()),
        mcp: Vec::new(),
        prompts: Vec::new(),
        skills: Vec::new(),
        commands: Vec::new(),
        default_model: profile("m"),
        models: Vec::new(),
        sessions: Vec::new(),
        todo: Vec::new(),
        goal: None,
        jobs: None,
        locale: "zh".into(),
        locales: texts(&["en", "zh", "ru", "ja"]),
        has_config_dir: true,
    }
}

fn run(input: &str, ctx: &CommandContext) -> CommandOutcome {
    handle_command(input, ctx, &mut MessageQueue::new()).0
}

/// Carries a command on the list of things to do out, as the holder of the list does.
fn todo(input: &str, ctx: &mut CommandContext) {
    if let CommandOutcome::Todo(TodoAction::Replace(items, _)) = run(input, ctx) {
        ctx.todo = items;
        for (i, t) in ctx.todo.iter_mut().enumerate() {
            t.id = format!("t{}", i + 1);
        }
    }
}

#[test]
fn parses_mode_names() {
    assert_eq!(parse_mode("code"), Some(Mode::Code));
    assert_eq!(parse_mode("architect"), Some(Mode::Architect));
    assert_eq!(parse_mode("  debug "), Some(Mode::Debug));
    assert_eq!(parse_mode("plan"), Some(Mode::Plan));
    assert_eq!(parse_mode("bogus"), None);
}

#[test]
fn parses_github_subcommand() {
    assert!(matches!(parse_github_subcommand(None), GithubToggle::Status));
    assert!(matches!(parse_github_subcommand(Some("")), GithubToggle::Status));
    assert!(matches!(parse_github_subcommand(Some("   ")), GithubToggle::Status));
    assert!(matches!(parse_github_subcommand(Some("on")), GithubToggle::Enable));
    assert!(matches!(parse_github_subcommand(Some(" Enable ")), GithubToggle::Enable));
    assert!(matches!(parse_github_subcommand(Some("ENABLED")), GithubToggle::Enable));
    assert!(matches!(parse_github_subcommand(Some("off")), GithubToggle::Disable));
    assert!(matches!(parse_github_subcommand(Some("DISABLED")), GithubToggle::Disable));
    assert!(matches!(parse_github_subcommand(Some("write")), GithubToggle::Write));
    assert!(matches!(parse_github_subcommand(Some("bogus")), GithubToggle::Unknown(_)));
    match parse_github_subcommand(Some("Bogus")) {
        GithubToggle::Unknown(w) => assert_eq!(w, "Bogus"),
        other => panic!("{other:?}"),
    }
}

#[test]
fn completes_command_prefix() {
    let (start, cands) = helper().complete_line("/mo", 3);
    assert_eq!(start, 0);
    assert!(cands.contains(&"/mode".to_string()));
    assert!(cands.contains(&"/model".to_string()));
}

#[test]
fn completes_mode_args_after_space() {
    let (start, cands) = helper().complete_line("/mode ar", "/mode ar".len());
    assert_eq!(start, 6);
    assert_eq!(cands, vec!["architect".to_string()]);
}

#[test]
fn completes_model_alias_args() {
    let (start, cands) = helper().complete_line("/model d", 8);
    assert_eq!(start, 7);
    assert_eq!(cands, vec!["ds".to_string()]);
}

#[test]
fn completes_skill_colon_form() {
    let (start, cands) = helper().complete_line("/skill:p", 8);
    assert_eq!(start, 0);
    assert_eq!(cands, vec!["/skill:pdf".to_string()]);
}

#[test]
fn no_completion_without_slash() {
    let (_, cands) = helper().complete_line("hello", 5);
    assert!(cands.is_empty());
}

#[test]
fn all_command_names_includes_builtin_and_custom() {
    let names = all_command_names(&vec![custom("test", "")]);
    assert!(names.contains(&"/help".to_string()));
    assert!(names.contains(&"/test".to_string()));
    assert!(names.contains(&"/status".to_string()));
}

#[test]
fn prompt_args_parse_kv_and_report_missing_required() {
    let prompt = sample_prompt();
    let (args, missing) = parse_prompt_args("path=src/a.rs lang=rust 裸词", &prompt);
    let get = |a: &Vec<(String, String)>, k: &str| a.iter().find(|p| p.0 == k).map(|p| p.1.clone());
    assert_eq!(get(&args, "path").as_deref(), Some("src/a.rs"));
    assert_eq!(get(&args, "lang").as_deref(), Some("rust"));
    assert!(missing.is_empty());

    let (args, missing) = parse_prompt_args("lang=rust", &prompt);
    assert_eq!(get(&args, "lang").as_deref(), Some("rust"));
    assert_eq!(missing, vec!["path".to_string()]);

    let (_, missing) = parse_prompt_args("", &prompt);
    assert_eq!(missing, vec!["path".to_string()]);

    assert_eq!(prompt_usage_args(&prompt), "path=<值> [lang]=<值>");
}

#[test]
fn command_names_include_mcp_prompts() {
    let customs = vec![custom("test", "")];
    let prompts = vec![("github".to_string(), sample_prompt())];
    let names = all_command_names_with_prompts(&customs, &prompts);
    assert!(names.contains(&"/github:review".to_string()));
    assert!(names.contains(&"/help".to_string()));
    assert!(names.contains(&"/test".to_string()));
    assert_eq!(
        all_command_names_with_prompts(&customs, &Vec::new()),
        all_command_names(&customs)
    );
}

#[test]
fn civil_from_days_known_dates() {
    assert_eq!(civil_from_days(0), (1970, 1, 1));
    assert_eq!(civil_from_days(19_723), (2024, 1, 1));
    assert_eq!(civil_from_days(19_783), (2024, 3, 1));
    assert_eq!(civil_from_days(19_784), (2024, 3, 2));
}

#[test]
fn preview_text_collapses_and_truncates() {
    assert_eq!(preview_text("hello   world\nfoo", 50), "hello world foo");
    assert_eq!(preview_text("short", 50), "short");
    let long = "x".repeat(60);
    let p = preview_text(&long, 10);
    assert_eq!(p.chars().count(), 11);
    assert!(p.ends_with('…'));
}

#[test]
fn completes_tools_first_arg_keys() {
    assert_eq!(complete_tools_args("/tools a", "a"), vec!["ast".to_string()]);
    let all = complete_tools_args("/tools ", "");
    for k in ["ast", "lsp", "image", "hashline", "pty", "github"] {
        assert!(all.contains(&k.to_string()), "{k}");
    }
}

#[test]
fn completes_tools_second_arg_on_off() {
    assert_eq!(
        complete_tools_args("/tools ast o", "o"),
        vec!["on".to_string(), "off".to_string()]
    );
    let sw = complete_tools_args("/tools ast ", "");
    assert!(sw.contains(&"on".to_string()));
    assert!(sw.contains(&"off".to_string()));
}

#[test]
fn known_tools_key_recognizes_groups() {
    assert!(is_known_tools_key("ast"));
    assert!(is_known_tools_key("github"));
    assert!(!is_known_tools_key("bogus"));
}

#[test]
fn parses_enhance_draft() {
    let CommandOutcome::Enhance { draft } = handle_enhance(&words("/enhance fix the login bug")).0
    else {
        panic!("no draft");
    };
    assert_eq!(draft, "fix the login bug");
    assert!(matches!(handle_enhance(&words("/enhance")).0, CommandOutcome::Handled));
    assert!(matches!(handle_enhance(&words("/enhance   ")).0, CommandOutcome::Handled));
}

#[test]
fn parses_suggest_query() {
    let CommandOutcome::Suggest { query } = handle_suggest(&words("/suggest auth login")).0 else {
        panic!("no query");
    };
    assert_eq!(query, "auth login");
    assert!(matches!(handle_suggest(&words("/suggest")).0, CommandOutcome::Handled));
}

#[test]
fn parses_review_args() {
    let get = |s: &str| match handle_review(&words(s)).0 {
        CommandOutcome::Review { staged, reviewers } => Some((staged, reviewers)),
        CommandOutcome::Handled => None,
        other => panic!("{other:?}"),
    };
    assert_eq!(get("/review"), Some((false, None)));
    assert_eq!(get("/review 2"), Some((false, Some(2))));
    assert_eq!(get("/review --staged 3"), Some((true, Some(3))));
    assert_eq!(get("/review 4 --staged"), Some((true, Some(4))));
    assert_eq!(get("/review 0"), None);
    assert_eq!(get("/review 5"), None);
    assert_eq!(get("/review --staged 9"), None);
    assert_eq!(get("/review --bogus"), None);
}

#[test]
fn completes_enhance_and_suggest_command_names() {
    let h = ReplHelper::new(
        texts(&["/enhance", "/suggest", "/help"]),
        Vec::new(),
        Vec::new(),
        Vec::new(),
    );
    let (_, cands) = h.complete_line("/enha", "/enha".len());
    assert!(cands.contains(&"/enhance".to_string()));
    let (_, cands) = h.complete_line("/sugg", "/sugg".len());
    assert!(cands.contains(&"/suggest".to_string()));
}

#[test]
fn goal_command_disabled_without_config() {
    assert!(matches!(run("/goal", &context()), CommandOutcome::Handled));
}

#[test]
fn goal_command_set_and_extend_mutate_budget() {
    let mut ctx = context();
    ctx.goal = Some(GoalView {
        objective: None,
        summary: String::new(),
        exceeded: false,
        hard_stop: false,
        token_budget: 0,
    });
    let CommandOutcome::Goal(GoalAction::Budget { budget, shown }) = run("/goal set 5000", &ctx)
    else {
        panic!("no budget");
    };
    assert_eq!(budget, 5000);
    assert_eq!(goal_updated(budget, shown).key, "goal.updated");
    if let Some(g) = &mut ctx.goal {
        g.token_budget = budget;
    }
    let CommandOutcome::Goal(GoalAction::Budget { budget, .. }) = run("/goal extend 300", &ctx)
    else {
        panic!("no budget");
    };
    assert_eq!(budget, 5300);
    assert!(!still_notified(true, false));
}

#[test]
fn todo_command_prints_current_list() {
    assert!(matches!(
        run("/todo", &context()),
        CommandOutcome::Todo(TodoAction::Show) | CommandOutcome::Handled
    ));
}

#[test]
fn h34_new_clear_retry_context_are_outcomes() {
    let ctx = context();
    assert!(matches!(run("/clear", &ctx), CommandOutcome::Clear));
    assert!(matches!(run("/new", &ctx), CommandOutcome::Fresh));
    assert!(matches!(run("/retry", &ctx), CommandOutcome::Retry));
    assert!(matches!(run("/context", &ctx), CommandOutcome::Context));
    for cmd in ["/usage", "/settings", "/hotkeys", "/jobs"] {
        assert!(matches!(run(cmd, &ctx), CommandOutcome::Handled), "{cmd}");
    }
}

#[test]
fn h34_todo_is_writable_from_slash_command() {
    let mut ctx = context();
    todo("/todo add 写测试", &mut ctx);
    assert_eq!(ctx.todo.len(), 1);
    assert_eq!(ctx.todo[0].content, "写测试");
    assert_eq!(ctx.todo[0].phase, TodoPhase::Pending);
    todo("/todo start t1", &mut ctx);
    assert_eq!(ctx.todo[0].phase, TodoPhase::InProgress);
    todo("/todo done 1", &mut ctx);
    assert_eq!(ctx.todo[0].phase, TodoPhase::Completed);
    todo("/todo drop t9", &mut ctx);
    assert_eq!(ctx.todo[0].phase, TodoPhase::Completed);
    todo("/todo bogus", &mut ctx);
    assert_eq!(ctx.todo.len(), 1);
    todo("/todo clear", &mut ctx);
    assert!(ctx.todo.is_empty());
}

#[test]
fn h34_resume_numeric_selector_maps_to_session_id() {
    let mut ctx = context();
    assert!(matches!(run("/resume 3", &ctx), CommandOutcome::Handled));
    assert!(matches!(run("/resume", &ctx), CommandOutcome::Handled));
    assert!(matches!(run("/resume abc123", &ctx), CommandOutcome::Resume(ref id) if id == "abc123"));
    ctx.sessions = vec![
        SessionRow { id: "one".into(), mtime: 1, first: None },
        SessionRow { id: "two".into(), mtime: 2, first: Some("hi".into()) },
    ];
    assert!(matches!(run("/resume 2", &ctx), CommandOutcome::Resume(ref id) if id == "two"));
}

fn user(text: &str) -> AgentMessage {
    AgentMessage::User(vec![UserContent::Text { text: text.to_string() }])
}

#[test]
fn h34_last_user_prompt_skips_injected_reminders() {
    let nodes =
        vec![user("实现 H34"), user("<system-reminder>\n继续推进待办\n</system-reminder>")];
    assert_eq!(last_user_prompt(&nodes).as_deref(), Some("实现 H34"));
    let nodes = vec![user("第一个问题"), user("第二个问题")];
    assert_eq!(last_user_prompt(&nodes).as_deref(), Some("第二个问题"));
    assert!(last_user_prompt(&Vec::new()).is_none());
}

#[test]
fn h34_context_breakdown_counts_roles() {
    let nodes = vec![
        user("hi"),
        AgentMessage::Assistant(Vec::new()),
        AgentMessage::ToolResult,
        AgentMessage::Other,
    ];
    let b = context_breakdown(&nodes);
    assert_eq!((b.total, b.user, b.assistant, b.tool, b.other), (4, 1, 1, 1, 1));
    assert_eq!(context_breakdown(&Vec::new()), ContextBreakdown::default());
}

#[test]
fn h4_queue_command_enqueues_lists_pops_and_clears() {
    let ctx = context();
    let mut q = MessageQueue::new();
    assert!(matches!(handle_command("/queue", &ctx, &mut q).0, CommandOutcome::Handled));
    handle_command("/queue add 1. 先跑测试\n2. 再写文档", &ctx, &mut q);
    assert_eq!(q.len(), 2);
    handle_command("/queue add 收尾", &ctx, &mut q);
    assert_eq!(q.len(), 3);
    match handle_command("/queue pop", &ctx, &mut q).0 {
        CommandOutcome::Inject(text) => assert_eq!(text, "先跑测试"),
        other => panic!("{other:?}"),
    }
    assert_eq!(q.len(), 2);
    handle_command("/queue undo", &ctx, &mut q);
    assert_eq!(q.len(), 1);
    handle_command("/queue add A", &ctx, &mut q);
    handle_command("/queue rm 1", &ctx, &mut q);
    assert_eq!(q.list(), vec![(1, "A")]);
    handle_command("/queue rm 9", &ctx, &mut q);
    assert_eq!(q.len(), 1);
    handle_command("/queue clear", &ctx, &mut q);
    assert!(q.is_empty());
    handle_command("/queue bogus", &ctx, &mut q);
    handle_command("/queue add", &ctx, &mut q);
    assert!(q.is_empty());
}

#[test]
fn h4_running_input_queues_shorthand_and_steers_plain_text() {
    let mut q = MessageQueue::new();
    assert_eq!(handle_running_input("看看日志", &mut q).0, RunningInput::Steer("看看日志".into()));
    assert_eq!(handle_running_input("-> 等会儿做", &mut q).0, RunningInput::Queued(1));
    assert_eq!(handle_running_input("=> 还有这条", &mut q).0, RunningInput::Queued(2));
    assert_eq!(q.len(), 2);
    assert_eq!(handle_running_input("   ", &mut q).0, RunningInput::Ignored);
    assert_eq!(handle_running_input("/queue list", &mut q).0, RunningInput::Ignored);
    assert_eq!(q.len(), 2);
    assert_eq!(handle_running_input("/queue add 第三条", &mut q).0, RunningInput::Ignored);
    assert_eq!(q.len(), 3);
    assert_eq!(
        handle_running_input("/queue pop", &mut q).0,
        RunningInput::Steer("等会儿做".into())
    );
    assert_eq!(q.len(), 2);
}

#[test]
fn h5_hotkeys_reflects_configured_bindings() {
    let mut ctx = context();
    ctx.keybindings = resolve(&vec![
        ("app.message.dequeue".to_string(), "alt-d".to_string()),
        ("app.retry".to_string(), "ctrl-t".to_string()),
        ("app.nope".to_string(), "ctrl-k".to_string()),
    ]);
    let keys: Vec<String> =
        ctx.keybindings.bindings.iter().map(|b| render_key(&b.key)).collect();
    assert!(keys.contains(&"Alt-D".to_string()), "{keys:?}");
    assert!(keys.contains(&"Ctrl-T".to_string()), "{keys:?}");
    assert!(!keys.contains(&"Ctrl-Y".to_string()), "{keys:?}");
    assert_eq!(ctx.keybindings.unknown_actions, vec!["app.nope".to_string()]);
    assert!(matches!(run("/hotkeys", &ctx), CommandOutcome::Handled));
}

#[test]
fn help_covers_all_builtin_commands() {
    const ALIASES: [&str; 4] = ["/help", "/?", "/resume", "/skills"];
    let keys = help_key_list();
    for cmd in builtin_commands() {
        if ALIASES.contains(&cmd) {
            continue;
        }
        let name = cmd.trim_start_matches('/');
        assert!(
            keys.iter().any(|k| *k == format!("help.{name}")) || cmd == "/quit",
            "{cmd}"
        );
    }
    assert!(keys.contains(&"help.mode"));
    for m in ["code", "architect", "ask", "debug", "plan"] {
        assert!(parse_mode(m).is_some());
    }
}

// ── More of the same ────────────────────────────────────────────────────────

#[test]
fn times_are_shown_to_the_minute() {
    assert_eq!(format_time(0), "01-01 00:00");
    assert_eq!(civil_from_days(-1), (1969, 12, 31));
}

#[test]
fn the_first_thing_said_is_found() {
    let m = vec![AgentMessage::Other, user("请帮我重构这段代码")];
    assert_eq!(first_user_message_text(&m).as_deref(), Some("请帮我重构这段代码"));
    assert_eq!(first_user_message_text(&Vec::new()), None);
}

#[test]
fn session_history_shows_both_sides() {
    let m = vec![
        user("hello"),
        AgentMessage::Assistant(vec![ContentBlock::Text { text: "好的，我来帮你".into() }]),
    ];
    let s = shown(&session_history_lines(&m));
    assert!(s.lines().any(|l| l.contains("🧑") && l.contains("hello")), "{s}");
    assert!(s.lines().any(|l| l.contains("🤖") && l.contains("好的，我来帮你")), "{s}");
}

#[test]
fn pictures_are_taken_by_their_extension() {
    match image_of_file(&Some("png".into()), &b"\x89PNG\r\n\x1a\n payload".to_vec()) {
        Ok(UserContent::Image { mime, data }) => {
            assert_eq!(mime, "image/png");
            assert_eq!(data, "iVBORw0KGgogcGF5bG9hZA==");
        }
        other => panic!("{other:?}"),
    }
    assert!(image_of_file(&Some("bmp".into()), &b"BM".to_vec()).is_err());
    assert!(image_of_file(&None, &Vec::new()).is_err());
}

#[test]
fn the_clipboard_gives_a_picture() {
    match image_of_clipboard(1, 1, vec![255, 0, 0, 255]) {
        Some(Ok(UserContent::Image { mime, data })) => {
            assert_eq!(mime, "image/png");
            assert!(data.starts_with("iVBORw0KGgoAAAANSUhEUgAAAAEAAAABCAYAAAAfFcSJ"), "{data}");
        }
        other => panic!("{other:?}"),
    }
    match image_of_png(&vec![0, 1, 2, 255]) {
        UserContent::Image { mime, data } => {
            assert_eq!(mime, "image/png");
            assert_eq!(data, "AAEC/w==");
        }
        other => panic!("{other:?}"),
    }
}

fn clipboard_refusal(width: usize, height: usize, bytes: usize) -> String {
    match image_of_clipboard(width, height, vec![0; bytes]) {
        Some(Err(ClipboardError::Refused(m))) => m.key,
        other => panic!("{other:?}"),
    }
}

#[test]
fn the_clipboard_is_refused() {
    let wide = u32::MAX as usize + 1;
    assert_eq!(clipboard_refusal(wide, 1, 0), "paste.cb_width_overflow");
    assert_eq!(clipboard_refusal(1, wide, 0), "paste.cb_height_overflow");
    assert_eq!(clipboard_refusal(2000, 2000, 10485761), "paste.image_too_large");
    assert_eq!(clipboard_refusal(2, 3, 23), "paste.cb_invalid");
    match image_of_clipboard(0, 0, Vec::new()) {
        Some(Err(ClipboardError::Unwritten(e))) => assert!(!e.is_empty()),
        other => panic!("{other:?}"),
    }
}

#[test]
fn paste_tells_a_path_from_a_text() {
    let p = handle_paste("/paste a.png what is this");
    assert_eq!(p.candidate.as_deref(), Some("a.png"));
    assert_eq!(p.behind_path, "what is this");
    assert_eq!(p.whole, "a.png what is this");
    assert_eq!(handle_paste("/paste").candidate, None);
}

#[test]
fn prompts_of_servers_are_resolved() {
    let prompts = vec![("github".to_string(), sample_prompt())];
    assert!(matches!(resolve_mcp_prompt("/nope", "/nope", &prompts), PromptCmd::NotPrompt));
    assert!(matches!(
        resolve_mcp_prompt("/github:review", "/github:review", &prompts),
        PromptCmd::UsageError(_)
    ));
    match resolve_mcp_prompt("/github:review", "/github:review path=a", &prompts) {
        PromptCmd::Ready { server, prompt, args } => {
            assert_eq!((server.as_str(), prompt.as_str()), ("github", "review"));
            assert_eq!(args, vec![("path".to_string(), "a".to_string())]);
        }
        other => panic!("{other:?}"),
    }
}

#[test]
fn the_last_value_of_an_argument_holds() {
    let (args, _) = parse_prompt_args("path=a path=b", &sample_prompt());
    assert_eq!(args, vec![("path".to_string(), "b".to_string())]);
}

#[test]
fn custom_commands_do_not_shadow_others() {
    let v = vec![custom("fix", "Fix: $ARGUMENTS"), custom("help", "mine")];
    assert!(try_custom_command("/fix", "/fix it", &v).is_some());
    assert_eq!(try_custom_command("/nope", "/nope", &v), None);
    let mut ctx = context();
    ctx.commands = v;
    assert!(matches!(run("/help", &ctx), CommandOutcome::Handled));
    assert!(matches!(run("/fix it", &ctx), CommandOutcome::Inject(_)));
}

#[test]
fn models_are_chosen_by_alias_or_name() {
    let v = vec![
        ModelName { id: "a".into(), alias: Some("x".into()) },
        ModelName { id: "b".into(), alias: None },
    ];
    let c = model_choices(&v);
    assert!(c.contains(&"x".to_string()));
    assert!(c.contains(&"b".to_string()));
}

#[test]
fn bars_are_filled_up_to_their_width() {
    assert_eq!(render_bar(2, 4), "[██░░]");
    assert_eq!(render_bar(9, 3), "[███]");
}

#[test]
fn todo_names_are_normalized() {
    assert_eq!(normalize_todo_id("1"), "t1");
    assert_eq!(normalize_todo_id("#2"), "t2");
    assert_eq!(normalize_todo_id("t3"), "t3");
    let t: TodoItem = TodoItem {
        id: "t1".into(),
        content: "x".into(),
        phase: TodoPhase::Blocked,
        blocked_reason: Some("y".into()),
    };
    assert_eq!(t.phase.as_str(), "blocked");
}

#[test]
fn help_lists_custom_commands() {
    let s = shown(&print_help(&vec![custom("deploy", "x")]));
    assert!(s.contains("deploy"), "{s}");
}

#[test]
fn unknown_commands_are_said_to_be_so() {
    let (o, out) = handle_command("/bogus", &context(), &mut MessageQueue::new());
    assert!(matches!(o, CommandOutcome::Handled));
    assert!(shown(&out).contains("bogus"));
    assert!(matches!(run("/exit", &context()), CommandOutcome::Quit));
}

#[test]
fn known_optional_key_excludes_github() {
    assert!(is_known_optional_key("ast"));
    assert!(is_known_optional_key("pty"));
    assert!(!is_known_optional_key("github"));
    assert!(!is_known_optional_key("bogus"));
}

#[test]
fn built_in_commands_are_known_and_distinct() {
    let ctx = context();
    let names = builtin_commands();
    for (i, name) in names.iter().enumerate() {
        assert!(name.starts_with('/') && !name.contains(char::is_whitespace), "{name}");
        assert!(!names[i + 1..].contains(name), "{name}");
        let (_, out) = handle_command(name, &ctx, &mut MessageQueue::new());
        assert!(!shown(&out).contains("common.unknown_command"), "{name}");
    }
    let (_, out) = handle_command("/nope", &ctx, &mut MessageQueue::new());
    assert!(shown(&out).contains("common.unknown_command"));
    for a in Action::all() {
        if let Some(text) = a.inserts() {
            let word = text.split_whitespace().next().unwrap();
            assert!(names.contains(&word), "{text}");
        }
    }
}
