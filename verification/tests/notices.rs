//! What is printed: the state of a session, and what came of commands.
use gyre::admin::ModelProfile;
use gyre::commands::job_cancelled;
use gyre::goal::{goal_moved, GoalAction, GoalMoved};
use gyre::host::{
    apply_keybindings, compact_context, compact_done, load_skill_catalog, print_socks5_status,
    run_swarm_yaml, AgentRun, CompactionStrategy, KeyCommand, PipelineResult, ProxyStatus,
    SkillLoad, SwarmEvent,
};
use gyre::keybindings::Action;
use gyre::manage::ManageCmd;
use gyre::order::sort_dedup;
use gyre::outline::{decode_roman, to_roman};
use gyre::repl::Mode;
use gyre::review::{git_failed, git_not_started};
use gyre::say::{Line, Msg, Output, Val};
use gyre::servers::run_mcp_cmd;
use gyre::session::{print_session_history, ContextBreakdown, MAX_HISTORY};
use gyre::show::{
    print_collab, print_context, print_github, print_models, print_session_choices,
    print_sessions, print_skills, print_status, print_tools, print_usage, SessionRow, Skill,
    TokenUsage, ToolSwitch, Totals,
};
use gyre::todo::{todo_note, TodoNote, TodoPhase};
use gyre::turn::{render_event, steered, AgentEvent, StatusKind};

fn val(v: &Val) -> String {
    match v {
        Val::Text(t) => t.clone(),
        Val::Entry(k, a) => entry(k, a),
        Val::Joined(v) => v.iter().map(val).collect(),
    }
}

fn entry(key: &str, args: &[(String, Val)]) -> String {
    let mut s = format!("<{key}");
    for (n, v) in args {
        s.push_str(&format!(" {n}={}", val(v)));
    }
    s + ">"
}

fn said(m: &Msg) -> String {
    entry(&m.key, &m.args)
}

fn lines(out: &Output) -> Vec<String> {
    out.lines
        .iter()
        .map(|l| match l {
            Line::Text(t) => t.clone(),
            Line::Msg(m) => said(m),
            Line::Parts(p) => p.iter().map(val).collect(),
        })
        .collect()
}

fn texts(v: &[&str]) -> Vec<String> {
    v.iter().map(|s| s.to_string()).collect()
}

fn usage(limit: u64) -> TokenUsage {
    TokenUsage { current: 500, limit, pct: "50.0".to_string(), filled: 15 }
}

fn totals(input: u64, cache_read: u64) -> Totals {
    Totals {
        input,
        output: 7,
        cache_read,
        cache_write: 3,
        cost: "0.001000".to_string(),
        cache_rate: "25.0".to_string(),
    }
}

#[test]
fn status_shows_a_bar_where_there_is_a_limit() {
    let out =
        print_status("m1", Mode::Code, "s1", "/work", &usage(1000), "80", &totals(30, 10));
    let bar = format!("[{}{}]", "█".repeat(15), "░".repeat(15));
    assert_eq!(
        lines(&out),
        vec![
            "<status.title>".to_string(),
            "<status.model model=m1>".to_string(),
            "<status.mode mode=<mode.code>>".to_string(),
            "<status.session session=s1>".to_string(),
            "<status.cwd cwd=/work>".to_string(),
            "<status.context current=500 limit=1000 pct=50.0>".to_string(),
            format!("<status.bar bar={bar}>"),
            "<status.guard pct=80>".to_string(),
            "<status.tokens input=30 out=7 cr=10 cw=3>".to_string(),
            "<status.cache rate=25.0 cr=10 total=40>".to_string(),
            "<status.cost cost=0.001000>".to_string(),
            "<status.footer>".to_string(),
        ]
    );
    let out = print_status("m1", Mode::Ask, "s1", "/work", &usage(0), "80", &totals(0, 0));
    assert!(!lines(&out).iter().any(|l| l.contains("status.bar") || l.contains("status.cache")));
    assert_eq!(out.lines.len(), 9);
}

#[test]
fn usage_adds_up_what_is_billed() {
    let out = lines(&print_usage(&usage(1000), &totals(30, 10)));
    assert_eq!(out[0], "<usage.title>");
    assert_eq!(out[1], "<usage.tokens input=30 out=7 cr=10 cw=3>");
    assert_eq!(out[2], "<usage.billed billed=40 rate=25.0 total=40>");
    assert_eq!(out[3], "<usage.cost cost=0.001000>");
}

#[test]
fn context_shows_the_kinds_of_messages() {
    let b = ContextBreakdown { total: 6, user: 2, assistant: 2, tool: 1, other: 1 };
    let out = lines(&print_context(&b, &usage(1000), "80"));
    assert_eq!(out[0], "<context.title>");
    assert_eq!(out[1], "<context.nodes total=6 user=2 assistant=2 tool=1 other=1>");
    assert_eq!(out[2], "<context.tokens current=500 limit=1000 pct=50.0>");
    assert_eq!(out[3], "<context.guard pct=80>");
    assert!(!lines(&print_context(&b, &usage(0), "80")).contains(&out[3]));
}

#[test]
fn tools_show_their_switches() {
    let tools = vec![ToolSwitch { key: "ast".to_string(), on: true }];
    let out = lines(&print_tools(&tools, false));
    assert_eq!(out[0], "<tools.title>");
    assert_eq!(out[1], "<tools.core_line>");
    assert!(out.iter().any(|l| l.starts_with("<tools.entry state=on key=ast ")));
    assert!(out.iter().any(|l| l.starts_with("<tools.entry state=off key=github ")));
    assert_eq!(out.last().unwrap(), "<tools.footer>");
    let out = lines(&print_tools(&tools, true));
    assert!(out.iter().any(|l| l.starts_with("<tools.entry state=on key=github ")));
}

#[test]
fn github_gives_hints_for_what_is_off() {
    let off = lines(&print_github(false, false, false));
    assert_eq!(
        off,
        vec![
            "<github.title>",
            "<github.enabled_line state=off>",
            "<github.write_line state=off>",
            "<github.token_line state=<github.token_unset>>",
            "<github.hint_enable>",
            "<github.hint_config>",
            "<tools.footer>",
        ]
    );
    let read = lines(&print_github(true, false, true));
    assert_eq!(read[3], "<github.token_line state=<github.token_set>>");
    assert_eq!(read[4], "<github.hint_write>");
    assert_eq!(lines(&print_github(true, true, true)).len(), 5);
}

#[test]
fn skills_and_models_are_listed() {
    let skill = |name: &str, description: &str, project: bool| Skill {
        name: name.to_string(),
        description: description.to_string(),
        file_path: String::new(),
        project,
    };
    let out = lines(&print_skills(&vec![skill("a", "does a", true), skill("b", "", false)]));
    assert_eq!(
        out,
        vec!["<skill.count count=2>", "  - a  [project]  does a", "  - b  [user]  <skill.no_desc>"]
    );
    assert_eq!(lines(&print_skills(&Vec::new())), vec!["<skill.none>"]);
    let model = |id: &str, alias: Option<&str>| ModelProfile {
        id: id.to_string(),
        alias: alias.map(str::to_string),
        api: "openai".to_string(),
        base_url: "http://x".to_string(),
        config_key_empty: true,
        expanded_key: String::new(),
        env_name: String::new(),
        env_set: false,
    };
    let out = lines(&print_models("m2", &model("m1", None), &vec![model("m2", Some("fast"))]));
    assert_eq!(
        out,
        vec![
            "<model.current id=m2>",
            "<model.available>",
            "<model.profile_line id=m1 alias= default=<model.default_mark> mark= api=openai base=http://x>",
            "<model.profile_line id=m2 alias=<model.alias_suffix alias=fast> default= mark=<model.current_mark> api=openai base=http://x>",
            "<model.switch_hint>",
        ]
    );
}

#[test]
fn sessions_show_their_first_message() {
    let rows = vec![
        SessionRow { id: "s1".to_string(), mtime: 0, first: Some("fix the bug".to_string()) },
        SessionRow { id: "s2".to_string(), mtime: 86400, first: None },
    ];
    assert_eq!(
        lines(&print_sessions(&rows, "s2")),
        vec![
            "<sessions.list_title>",
            "  s1  01-01 00:00  「fix the bug」",
            "  s2  01-02 00:00  <sessions.no_user_msg><sessions.current_mark>",
        ]
    );
    assert_eq!(lines(&print_sessions(&Vec::new(), "s2")), vec!["<sessions.none>"]);
    let choices = lines(&print_session_choices(&rows, "s2"));
    assert!(choices.iter().any(|l| l.contains("s1") && l.contains('1')));
}

#[test]
fn long_histories_are_cut_in_front() {
    assert_eq!(lines(&print_session_history(Output::new())), vec!["<session.no_history>"]);
    let mut history = Output::new();
    for i in 0..MAX_HISTORY + 2 {
        history.print(format!("line {i}"));
    }
    let out = lines(&print_session_history(history));
    assert_eq!(out[0], "<session.history_truncated total=62 max=60>");
    assert_eq!(out[1], "line 2");
    assert_eq!(out.len(), 62);
    assert_eq!(out[61], "<session.history_continue>");
}

#[test]
fn skills_are_reported_when_loaded() {
    assert!(load_skill_catalog(&SkillLoad::Disabled).lines.is_empty());
    let failed = load_skill_catalog(&SkillLoad::Failed("no dir".to_string()));
    assert_eq!(lines(&failed), vec!["<skill.load_failed e=no dir>"]);
    let loaded = load_skill_catalog(&SkillLoad::Loaded {
        warnings: texts(&["w1", "w2"]),
        names: texts(&["a", "b"]),
    });
    assert_eq!(
        lines(&loaded),
        vec!["<skill.load_warn warnings=w1; w2>", "<skill.loaded count=2 names=a, b>"]
    );
    let none = SkillLoad::Loaded { warnings: Vec::new(), names: Vec::new() };
    assert_eq!(lines(&load_skill_catalog(&none)), vec!["<skill.not_found_msg>"]);
}

#[test]
fn compaction_takes_three_steps() {
    let steps = compact_context();
    assert_eq!(steps.len(), 3);
    assert!(matches!(steps[0], CompactionStrategy::Shake));
    assert!(matches!(steps[1], CompactionStrategy::Summarize { max_tokens: 0 }));
    assert!(matches!(steps[2], CompactionStrategy::Prune { keep_recent: 8 }));
    assert_eq!(said(&compact_done(12, 100)), "<compact.done current=12 limit=100>");
}

#[test]
fn the_proxy_is_reported() {
    let on = ProxyStatus { url: "socks5://h:1".to_string(), enabled: true };
    let off = ProxyStatus { url: "socks5://h:1".to_string(), enabled: false };
    assert_eq!(
        said(&print_socks5_status(&Some(on))),
        "<socks5.status url=socks5://h:1 state=<socks5.state_enabled>>"
    );
    assert_eq!(
        said(&print_socks5_status(&Some(off))),
        "<socks5.status url=socks5://h:1 state=<socks5.state_disabled>>"
    );
    assert_eq!(said(&print_socks5_status(&None)), "<socks5.status_unconfigured>");
}

#[test]
fn actions_become_commands_of_the_editor() {
    assert!(matches!(apply_keybindings(Action::Clear), KeyCommand::ClearScreen));
    assert!(matches!(apply_keybindings(Action::Dequeue), KeyCommand::Dequeue));
    assert!(matches!(apply_keybindings(Action::Interrupt), KeyCommand::Elsewhere));
    match apply_keybindings(Action::Retry) {
        KeyCommand::Insert(text) => assert_eq!(Action::Retry.inserts(), Some(text)),
        other => panic!("{other:?}"),
    }
}

#[test]
fn a_swarm_reports_its_course() {
    let run = |exit_code: i32, error: Option<&str>| AgentRun {
        exit_code,
        output: "done".to_string(),
        error: error.map(str::to_string),
    };
    let result = PipelineResult {
        status: "completed".to_string(),
        iterations: 2,
        agent_results: vec![
            ("one".to_string(), Vec::new()),
            ("two".to_string(), vec![run(0, None), run(1, Some("broke"))]),
        ],
        errors: texts(&["e1", "e2"]),
    };
    let out = lines(&run_swarm_yaml("a.yaml", &SwarmEvent::Finished(result)));
    assert_eq!(out[0], "<swarm.result_summary status=completed iters=2 agents=2>");
    assert_eq!(out[1], "<swarm.agent_line name=one rounds=0 summary=<swarm.not_run>>");
    assert_eq!(
        out[2],
        "<swarm.agent_line name=two rounds=2 summary=<swarm.failed_short e=broke>>"
    );
    assert_eq!(out[3], "<swarm.errors errors=e1; e2>");
    let failed = run_swarm_yaml("a.yaml", &SwarmEvent::Failed("x".to_string()));
    assert_eq!(lines(&failed), vec!["<swarm.run_failed e=x>"]);
    let unread = run_swarm_yaml("a.yaml", &SwarmEvent::ReadFailed("x".to_string()));
    assert_eq!(lines(&unread), vec!["<swarm.read_failed target=a.yaml e=x>"]);
}

#[test]
fn small_notes_name_their_subject() {
    assert_eq!(said(&todo_note(&TodoNote::Added, 3)), "<todo.added count=3>");
    let updated = TodoNote::Updated { id: "2".to_string(), phase: TodoPhase::Completed };
    assert_eq!(
        said(&todo_note(&updated, 3)),
        format!("<todo.updated id=2 phase={} count=3>", TodoPhase::Completed.as_str())
    );
    assert_eq!(said(&job_cancelled("j1", true)), "<jobs.cancelled id=j1>");
    assert_eq!(said(&job_cancelled("j1", false)), "<jobs.not_found id=j1>");
    let dropped = GoalMoved::Dropped(Some("ship".to_string()));
    assert_eq!(said(&goal_moved(GoalAction::Abandon, &dropped)), "<goal.dropped objective=ship>");
    assert_eq!(said(&goal_moved(GoalAction::Abandon, &GoalMoved::Dropped(None))), "<goal.none>");
    let done = GoalMoved::Done("half".to_string());
    assert_eq!(said(&goal_moved(GoalAction::Pause, &done)), "<goal.paused>");
    assert_eq!(said(&goal_moved(GoalAction::Resume, &done)), "<goal.resumed summary=half>");
    assert_eq!(said(&goal_moved(GoalAction::Complete, &done)), "<goal.completed summary=half>");
    let failed = GoalMoved::Failed("no".to_string());
    assert_eq!(said(&goal_moved(GoalAction::Pause, &failed)), "<goal.error error=no>");
    assert_eq!(git_not_started("none"), "git 执行失败: none");
    assert_eq!(git_failed(&texts(&["diff", "HEAD"]), " bad\n"), "git diff HEAD 失败: bad");
    assert_eq!(lines(&steered())[0], "");
    assert!(run_mcp_cmd(&ManageCmd::McpList));
    assert!(!run_mcp_cmd(&ManageCmd::ModelsList));
}

#[test]
fn a_room_has_links() {
    let out = lines(&print_collab("r", "f", "t", "0.0.0.0:1"));
    assert_eq!(out[1], "<collab.room room=r>");
    assert_eq!(out[4], "<collab.write_link bind=0.0.0.0:1 room=r token=t>");
    assert_eq!(out.len(), 10);
}

#[test]
fn events_are_shown() {
    let mut md = gyre::markdown::MarkdownRenderer::new(false);
    let thought = render_event(&AgentEvent::ThinkingDelta("hm".to_string()), &mut md);
    assert_eq!(thought.raw, "\u{1b}[2mhm\u{1b}[0m");
    let warned = render_event(
        &AgentEvent::Say { kind: StatusKind::Warning, said: "careful".to_string() },
        &mut md,
    );
    assert_eq!(lines(&warned.err), vec!["", "[<event.warn>] careful"]);
    let used = render_event(&AgentEvent::Usage { input: 3, output_tokens: 4 }, &mut md);
    assert_eq!(lines(&used.err), vec!["", "<event.usage input=3 out=4>"]);
    assert_eq!(used.done, None);
    let done = render_event(
        &AgentEvent::Done { success: true, turns: 2, tools: 1, cost: "0.5".to_string() },
        &mut md,
    );
    assert_eq!(done.done, Some(true));
    assert_eq!(
        lines(&done.err),
        vec!["", "<event.done turns=2 tools=1 success=true cost=0.5>"]
    );
}

#[test]
fn roman_numbers_read_back() {
    assert_eq!(to_roman(4), "IV");
    assert_eq!(to_roman(14), "XIV");
    for n in 1..40u64 {
        assert_eq!(decode_roman(&to_roman(n)), Some(n));
    }
    assert_eq!(decode_roman("iiii"), None);
}

#[test]
fn names_are_sorted_once() {
    assert_eq!(sort_dedup(&texts(&["b", "a", "b", "ab"])), texts(&["a", "ab", "b"]));
}
