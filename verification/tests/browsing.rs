//! Driving a browser.
use gyre::browser::{
    begin_session, browser_schema, eval_value, is_load_event, navigated, next_setup, next_step,
    save_screenshot, screenshot_path, BrowserTool, CallStep, SetupState, SetupStep, ToolError,
    WorkState, WorkStep, PROMPT_SECTION,
};
use gyre::cdp::{
    encode_request, parse_frame, reply, signed_text, CdpConnection, CdpError, CdpEvent, Dispatch,
    IncomingFrame, ReplyEvent, DEFAULT_SEND_TIMEOUT,
};
use gyre::data::Data;
use gyre::json::{js_string, read_json, read_json_bytes, write_json, write_json_lines};
use gyre::launcher::{
    browser_candidates, build_args, env_flag, find_on_path, parse_devtools_line,
    read_devtools_endpoint, resolve_binary, BrowserProcess, CloseEvent, CloseStep, DevToolsEndpoint,
    LaunchError, LaunchEvent, LaunchOptions,
};

fn json(t: &str) -> Data {
    read_json(t).unwrap()
}

fn text<'a>(d: &'a Data, key: &str) -> &'a str {
    d.text_field(key).unwrap()
}

#[test]
fn build_args_contains_headless_and_debug_port() {
    let dir = "/tmp/fake-profile";
    let args = build_args(dir, false);
    assert!(args.iter().any(|a| a == "--headless=new"));
    assert!(args.iter().any(|a| a == "--remote-debugging-port=0"));
    assert!(args.iter().any(|a| a.starts_with("--user-data-dir=") && a.ends_with("fake-profile")));
    assert!(!args.iter().any(|a| a == "--no-sandbox"));

    let args2 = build_args(dir, true);
    assert!(args2.iter().any(|a| a == "--no-sandbox"));
}

#[test]
fn parse_devtools_line_extracts_endpoint() {
    let ep =
        parse_devtools_line("DevTools listening on ws://127.0.0.1:9222/devtools/browser/abc123")
            .unwrap();
    assert_eq!(ep.ws_url, "ws://127.0.0.1:9222/devtools/browser/abc123");
    assert_eq!(ep.port, Some(9222));

    assert!(parse_devtools_line("random stderr line").is_none());
    assert!(parse_devtools_line("DevTools listening on http://127.0.0.1:1/x").is_none());
    assert!(parse_devtools_line("DevTools listening on ").is_none());
}

#[test]
fn encode_request_packs_method_params_and_session() {
    let v = encode_request(
        7,
        "Page.navigate",
        &json("{\"url\": \"https://example.com\"}"),
        Some("s1"),
    );
    assert_eq!(v.unsigned_field("id"), Some(7));
    assert_eq!(text(&v, "method"), "Page.navigate");
    assert_eq!(text(v.field("params").unwrap(), "url"), "https://example.com");
    assert_eq!(text(&v, "sessionId"), "s1");

    let v2 = encode_request(8, "Target.getTargets", &json("{}"), None);
    assert!(v2.field("sessionId").is_none());
}

#[test]
fn parse_frame_distinguishes_response_and_event() {
    match parse_frame(&json("{\"id\": 1, \"result\": {\"ok\": true}}")).unwrap() {
        IncomingFrame::Response { id, result, error } => {
            assert_eq!(id, 1);
            assert_eq!(result.field("ok").unwrap().flag(), Some(true));
            assert!(error.is_none());
        }
        other => panic!("{other:?}"),
    }
    match parse_frame(&json("{\"id\": 2, \"error\": {\"code\": -32000, \"message\": \"boom\"}}"))
        .unwrap()
    {
        IncomingFrame::Response { id, error: Some((code, msg)), .. } => {
            assert_eq!(id, 2);
            assert_eq!(code, -32000);
            assert_eq!(msg, "boom");
        }
        other => panic!("{other:?}"),
    }
    match parse_frame(&json(
        "{\"method\": \"Page.loadEventFired\", \"params\": {\"timestamp\": 1.0}, \"sessionId\": \"s9\"}",
    ))
    .unwrap()
    {
        IncomingFrame::Event { method, params, session_id } => {
            assert_eq!(method, "Page.loadEventFired");
            assert!(matches!(params.field("timestamp"), Some(Data::Other(t)) if t == "1.0"));
            assert_eq!(session_id.as_deref(), Some("s9"));
        }
        other => panic!("{other:?}"),
    }
    assert!(parse_frame(&json("{\"foo\": \"bar\"}")).is_none());
}

#[test]
fn response_pairs_with_request_id() {
    let mut c = CdpConnection::new();
    let (a, ta) = c.send("One", &json("{}")).unwrap();
    let (b, tb) = c.send("Two", &json("{\"n\": 1}")).unwrap();
    assert_ne!(a, b);
    assert!(ta.contains("\"One\"") && tb.contains("\"Two\""));
    let answer = format!("{{\"id\": {b}, \"result\": {{\"pong\": true}}}}");
    match c.receive(&answer) {
        Dispatch::Answer { id, outcome: Ok(v) } => {
            assert_eq!(id, b);
            assert_eq!(v.field("pong").unwrap().flag(), Some(true));
        }
        other => panic!("{other:?}"),
    }
    assert!(matches!(c.receive(&answer), Dispatch::Ignored));
    assert!(c.pending.len() == 1 && c.pending.contains(&a));
}

#[test]
fn protocol_error_surfaces() {
    let mut c = CdpConnection::new();
    let (id, _) = c.send("X", &json("{}")).unwrap();
    let t = format!("{{\"id\": {id}, \"error\": {{\"code\": -32602, \"message\": \"invalid params\"}}}}");
    match c.receive_bytes(&t.into_bytes()) {
        Dispatch::Answer { outcome: Err(e), .. } => {
            assert!(matches!(e, CdpError::Protocol { code: -32602, .. }));
            assert_eq!(e.message(), "CDP 协议错误 -32602: invalid params");
        }
        other => panic!("{other:?}"),
    }
}

#[test]
fn events_queued_and_waitable() {
    let mut c = CdpConnection::new();
    let seq = c.event_seq();
    c.receive("{\"method\": \"Runtime.consoleAPICalled\", \"params\": {\"type\": \"log\"}, \"sessionId\": \"s1\"}");
    c.receive("{\"method\": \"Page.loadEventFired\", \"params\": {}}");
    let load = |e: &CdpEvent| e.method == "Page.loadEventFired";
    let ev = c.wait_for_event(&load, false, 2000).unwrap().unwrap();
    assert_eq!(ev.method, "Page.loadEventFired");
    let console = c.try_take_event(&|e: &CdpEvent| e.method == "Runtime.consoleAPICalled").unwrap();
    assert_eq!(console.session_id.as_deref(), Some("s1"));
    assert!(console.seq >= seq && console.seq < ev.seq);
    assert!(c.drain_events().is_empty());
    assert!(c.wait_for_event(&load, false, 2000).is_none());
    assert!(matches!(c.wait_for_event(&load, true, 2000), Some(Err(CdpError::Timeout(2000)))));
}

#[test]
fn old_events_are_not_waited_for() {
    let mut c = CdpConnection::new();
    c.receive("{\"method\": \"Page.loadEventFired\"}");
    let since = c.event_seq();
    let load = |e: &CdpEvent| e.method == "Page.loadEventFired";
    assert!(c.wait_for_event_since(since, &load, false, 1).is_none());
    assert_eq!(c.drain_events().len(), 1);
}

#[test]
fn request_times_out_when_no_reply() {
    assert!(matches!(reply(ReplyEvent::TimedOut(300)), Err(CdpError::Timeout(300))));
    assert!(matches!(reply(ReplyEvent::Dropped), Err(CdpError::Closed)));
    assert!(matches!(reply(ReplyEvent::Answered(Ok(Data::Null))), Ok(Data::Null)));
    assert_eq!(CdpError::Timeout(300).message(), "CDP 命令超时（300ms）");
    assert_eq!(DEFAULT_SEND_TIMEOUT, 10000);
}

#[test]
fn send_after_close_errors_fast() {
    let mut c = CdpConnection::new();
    let (id, _) = c.send("A", &json("{}")).unwrap();
    assert!(c.fail_all_pending().contains(&id));
    assert!(matches!(c.send("X", &json("{}")), Err(CdpError::Closed)));
    assert!(c.pending.is_empty());
}

#[test]
fn texts_that_are_no_frames_are_ignored() {
    let mut c = CdpConnection::new();
    assert!(matches!(c.receive("not json"), Dispatch::Ignored));
    assert!(matches!(c.receive_bytes(&vec![0xff]), Dispatch::Ignored));
    assert!(matches!(c.receive("{\"foo\": 1}"), Dispatch::Ignored));
}

#[test]
fn messages_of_errors() {
    assert_eq!(CdpError::Connect("x".into()).message(), "CDP 连接失败: x");
    assert_eq!(CdpError::Ws("x".into()).message(), "WebSocket 错误: x");
    assert_eq!(CdpError::Json("x".into()).message(), "JSON 错误: x");
    assert_eq!(CdpError::Closed.message(), "CDP 连接已关闭");
    assert_eq!(LaunchError::Spawn("x".into()).message(), "spawn 失败: x");
    assert_eq!(LaunchError::TempDir("x".into()).message(), "创建临时目录失败: x");
    assert_eq!(LaunchError::Exited("x".into()).message(), "chromium 进程提前退出: x");
    assert_eq!(LaunchError::Timeout(15000).message(), "等待 DevTools 端点超时（15s）");
    assert!(LaunchError::BinaryNotFound.message().contains("BROWSER_PATH"));
    assert_eq!(signed_text(i64::MIN), "-9223372036854775808");
}

// ── Starting ────────────────────────────────────────────────────────────────

#[test]
fn flags_of_the_environment() {
    assert!(env_flag(Some(" TRUE ")));
    assert!(env_flag(Some("on")) && env_flag(Some("1")) && env_flag(Some("yes")));
    assert!(!env_flag(Some("0")) && !env_flag(None));
    let o = LaunchOptions::default();
    assert!(o.no_sandbox(Some("1")));
    assert_eq!(o.timeout(), 15000);
}

#[test]
fn programs_are_looked_for_in_order() {
    assert_eq!(find_on_path("chrome", "/a:/b/", false), vec!["/a/chrome", "/b/chrome"]);
    assert_eq!(find_on_path("chrome", "C:\\x;D:", true), vec!["C:\\x\\chrome", "D:chrome"]);
    let c = browser_candidates("/usr/bin", false);
    assert_eq!(c.len(), 7);
    assert_eq!(c[0], "/usr/bin/chromium");
    let some = |s: &str| Some(s.to_string());
    assert_eq!(resolve_binary(&some("x"), &some("y"), true, &some("z")), some("x"));
    assert_eq!(resolve_binary(&None, &some("y"), true, &some("z")), some("y"));
    assert_eq!(resolve_binary(&None, &some("y"), false, &some("z")), some("z"));
    assert_eq!(resolve_binary(&None, &None, false, &None), None);
}

#[test]
fn a_browser_is_waited_for() {
    let e = LaunchEvent::Line("DevTools listening on ws://h:1/x".into());
    assert!(matches!(read_devtools_endpoint(&e), Some(Ok(_))));
    assert!(read_devtools_endpoint(&LaunchEvent::Line("noise".into())).is_none());
    assert!(matches!(
        read_devtools_endpoint(&LaunchEvent::Ended),
        Some(Err(LaunchError::Exited(_)))
    ));
    assert!(matches!(
        read_devtools_endpoint(&LaunchEvent::TimedOut(5)),
        Some(Err(LaunchError::Timeout(5)))
    ));
    assert!(matches!(
        read_devtools_endpoint(&LaunchEvent::ReadFailed("e".into())),
        Some(Err(LaunchError::Spawn(_)))
    ));
}

#[test]
fn launching_needs_a_program_and_a_directory() {
    let o = LaunchOptions::default();
    let dir = Ok("/tmp/d".to_string());
    assert!(matches!(
        BrowserProcess::launch(&o, &None, false, &None, None, &dir),
        Err(LaunchError::BinaryNotFound)
    ));
    let found = Some("/bin/chrome".to_string());
    assert!(matches!(
        BrowserProcess::launch(&o, &None, false, &found, None, &Err("full".into())),
        Err(LaunchError::TempDir(_))
    ));
    let p = BrowserProcess::launch(&o, &None, false, &found, Some("1"), &dir).unwrap();
    assert_eq!(p.binary, "/bin/chrome");
    assert_eq!(p.args.len(), 4);
    assert_eq!(p.timeout, 15000);
}

#[test]
fn a_browser_is_closed_in_two_steps() {
    let ep = DevToolsEndpoint { ws_url: "ws://h:1/x".to_string(), port: Some(1) };
    let mut p = BrowserProcess::started(Some(42), ep);
    assert_eq!((p.ws_url(), p.port(), p.pid()), ("ws://h:1/x", Some(1), Some(42)));
    assert_eq!(p.close(true, &CloseEvent::Begin), CloseStep::Terminate { group: 42, grace: 2000 });
    assert_eq!(p.close(true, &CloseEvent::GraceOver), CloseStep::KillGroup { group: 42 });
    assert_eq!(p.close(true, &CloseEvent::Begin), CloseStep::Done);
    assert_eq!(p.pid(), None);
}

// ── The tool ────────────────────────────────────────────────────────────────

fn call(input: &str) -> CallStep {
    BrowserTool::new().execute(&json(input), false)
}

#[test]
fn tool_schema_shape() {
    let tool = BrowserTool::new();
    assert_eq!(tool.name(), "browser");
    assert!(tool.description().contains("navigate"));
    let schema = tool.schema();
    assert_eq!(text(&schema, "type"), "object");
    match schema.field("required") {
        Some(Data::List(v)) => assert_eq!(v[0].text(), Some("action")),
        other => panic!("{other:?}"),
    }
    let actions = match schema.field("properties").unwrap().field("action").unwrap().field("enum") {
        Some(Data::List(v)) => v.iter().filter_map(|d| d.text()).collect::<Vec<_>>(),
        other => panic!("{other:?}"),
    };
    for a in ["navigate", "evaluate", "screenshot", "click", "text", "scroll", "close"] {
        assert!(actions.contains(&a), "{a}");
    }
    assert!(tool.interruptible());
    assert!(write_json(&browser_schema()).contains("\"full_page\""));
    assert!(PROMPT_SECTION.starts_with("<browser>\n") && PROMPT_SECTION.ends_with("</browser>"));
}

#[test]
fn close_without_browser_is_noop() {
    match call("{\"action\": \"close\"}") {
        CallStep::Tell(t) => assert_eq!(t, "browser: 无运行中的浏览器实例"),
        other => panic!("{other:?}"),
    }
}

#[test]
fn missing_action_rejected() {
    assert!(matches!(call("{}"), CallStep::Fail(ToolError::InvalidArgs(_))));
}

#[test]
fn unknown_action_rejected_without_launch() {
    assert!(matches!(call("{\"action\": \"open\"}"), CallStep::Fail(ToolError::InvalidArgs(_))));
}

#[test]
fn navigate_without_url_rejected_without_launch() {
    assert!(matches!(call("{\"action\": \"navigate\"}"), CallStep::Fail(ToolError::InvalidArgs(_))));
}

#[test]
fn cancelled_ctx_rejected() {
    let mut t = BrowserTool::new();
    assert!(matches!(
        t.execute(&json("{\"action\": \"close\"}"), true),
        CallStep::Fail(ToolError::Execution(_))
    ));
}

#[test]
fn a_running_browser_is_used_and_closed() {
    let mut t = BrowserTool::default();
    let nav = json("{\"action\": \"navigate\", \"url\": \" about:blank \"}");
    assert!(matches!(t.execute(&nav, false), CallStep::Run { launch: true, .. }));
    t.ready("s1".to_string());
    assert!(matches!(t.execute(&nav, false), CallStep::Run { launch: false, .. }));
    assert!(matches!(t.execute(&json("{\"action\": \"close\"}"), false), CallStep::Close));
    assert!(t.session_id.is_none());
    assert_eq!(BrowserTool::closed(&Ok(())).unwrap(), "browser: 已关闭浏览器实例");
}

#[test]
fn a_session_is_made_in_four_requests() {
    let SetupStep::Send { method, state, .. } = begin_session() else { panic!() };
    assert_eq!(method, "Target.createTarget");
    let SetupStep::Send { method, state, params, .. } =
        next_setup(&state, &Ok(json("{\"targetId\": \"t\"}")))
    else {
        panic!()
    };
    assert_eq!(method, "Target.attachToTarget");
    assert_eq!(params.field("flatten").unwrap().flag(), Some(true));
    let SetupStep::Send { method, state, session, .. } =
        next_setup(&state, &Ok(json("{\"sessionId\": \"s\"}")))
    else {
        panic!()
    };
    assert_eq!((method.as_str(), session.as_deref()), ("Page.enable", Some("s")));
    let SetupStep::Send { method, state, .. } = next_setup(&state, &Ok(json("{}"))) else { panic!() };
    assert_eq!(method, "Runtime.enable");
    assert!(matches!(next_setup(&state, &Ok(json("{}"))), SetupStep::Ready { session_id } if session_id == "s"));
    assert!(matches!(
        next_setup(&SetupState::Creating, &Ok(json("{}"))),
        SetupStep::Fail { error: ToolError::Execution(_) }
    ));
}

#[test]
fn pages_are_opened() {
    let input = json("{\"url\": \" https://x \"}");
    let WorkStep::Send { method, params, state } = BrowserTool::begin("navigate", &input, 3) else {
        panic!()
    };
    assert_eq!(method, "Page.navigate");
    assert_eq!(text(&params, "url"), "https://x");
    assert!(matches!(
        next_step(&state, &Ok(json("{}"))),
        WorkStep::WaitForLoad { url, since: 3 } if url == "https://x"
    ));
    assert!(matches!(
        next_step(&state, &Ok(json("{\"errorText\": \"no\"}"))),
        WorkStep::Fail { error: ToolError::Execution(m) } if m == "导航失败: no"
    ));
    assert_eq!(navigated("u", Some(&json("{}"))), "已导航到 u");
    assert_eq!(navigated("u", Some(&json("{\"errorText\": \"e\"}"))), "已导航到 u（加载报错: e）");
    assert_eq!(navigated("u", None), "已导航到 u（5s 超时，页面可能仍在加载）");
    let e = CdpEvent {
        method: "Page.loadEventFired".to_string(),
        params: Data::Null,
        session_id: Some("s".to_string()),
        seq: 0,
    };
    assert!(is_load_event(&e, "s"));
    assert!(!is_load_event(&e, "t"));
}

#[test]
fn expressions_are_computed() {
    let WorkStep::Send { params, state, .. } =
        BrowserTool::begin("evaluate", &json("{\"js\": \"1+1\"}"), 0)
    else {
        panic!()
    };
    assert_eq!(text(&params, "expression"), "1+1");
    let r = next_step(&state, &Ok(json("{\"result\": {\"value\": {\"a\": [1, \"x\"]}}}")));
    match r {
        WorkStep::Tell { told } => {
            assert_eq!(told, "{\n  \"a\": [\n    1,\n    \"x\"\n  ]\n}");
        }
        other => panic!("{other:?}"),
    }
    assert!(matches!(
        next_step(&state, &Ok(json("{\"result\": {}}"))),
        WorkStep::Tell { told } if told == "(undefined)"
    ));
    let ex = json("{\"exceptionDetails\": {\"text\": \"Uncaught\", \"exception\": {\"description\": \"E\"}}}");
    assert!(matches!(
        next_step(&state, &Ok(ex)),
        WorkStep::Fail { error: ToolError::Execution(m) } if m == "JS 异常: Uncaught E"
    ));
    assert!(eval_value(&json("{}")).is_ok());
}

#[test]
fn elements_are_clicked_filled_and_shown() {
    let WorkStep::Send { params, state, .. } =
        BrowserTool::begin("click", &json("{\"selector\": \"a[b=\\\"c\\\"]\"}"), 0)
    else {
        panic!()
    };
    assert!(text(&params, "expression").contains("querySelector(\"a[b=\\\"c\\\"]\")"));
    assert!(matches!(
        next_step(&state, &Ok(json("{\"result\": {\"value\": {\"ok\": true, \"tag\": \"A\"}}}"))),
        WorkStep::Tell { told } if told == "已点击 <A>（a[b=\"c\"]）"
    ));
    assert!(matches!(
        next_step(&state, &Ok(json("{\"result\": {\"value\": {\"ok\": false, \"reason\": \"r\"}}}"))),
        WorkStep::Fail { error: ToolError::Execution(m) } if m == "click 失败: r"
    ));
    let WorkStep::Send { params, .. } =
        BrowserTool::begin("text", &json("{\"selector\": \"#x\", \"text\": \"l'1\\n\"}"), 0)
    else {
        panic!()
    };
    assert!(text(&params, "expression").contains("el.value = \"l'1\\n\";"));
    let WorkStep::Send { params, state, .. } =
        BrowserTool::begin("scroll", &json("{\"direction\": \"up\", \"amount\": 7}"), 0)
    else {
        panic!()
    };
    assert!(text(&params, "expression").contains("top: -1 * 7,"));
    assert!(matches!(
        next_step(&state, &Ok(json("{\"result\": {\"value\": {\"y\": -3}}}"))),
        WorkStep::Tell { told } if told == "已滚动（当前 scrollY=-3）"
    ));
}

#[test]
fn pictures_are_saved() {
    let WorkStep::Send { method, params, state } =
        BrowserTool::begin("screenshot", &json("{\"full_page\": true}"), 0)
    else {
        panic!()
    };
    assert_eq!(method, "Page.captureScreenshot");
    assert_eq!(params.field("captureBeyondViewport").unwrap().flag(), Some(true));
    assert!(matches!(
        next_step(&state, &Ok(json("{\"data\": \"AAEC/w==\"}"))),
        WorkStep::Save { png } if png == vec![0, 1, 2, 255]
    ));
    match next_step(&state, &Ok(json("{\"data\": \"AAEC/x==\"}"))) {
        WorkStep::Fail { error: ToolError::Execution(m) } => {
            assert_eq!(m, "截图 base64 解码失败: Invalid last symbol 120, offset 5.");
        }
        other => panic!("{other:?}"),
    }
    assert!(matches!(next_step(&state, &Ok(json("{}"))), WorkStep::Fail { .. }));
    assert_eq!(screenshot_path("/w", "id", false), "/w/.gyre/artifacts/id.png");
    assert_eq!(save_screenshot(&Ok("/p".into()), &vec![1, 2]).unwrap(), "截图已保存: /p（2 字节）");
    assert!(matches!(save_screenshot(&Err("e".into()), &vec![]), Err(ToolError::Io(_))));
    assert!(matches!(
        next_step(&WorkState::Locate { full_page: false }, &Ok(json("{\"result\": {\"value\": {\"ok\": true}}}"))),
        WorkStep::Send { .. }
    ));
}

// ── JSON ────────────────────────────────────────────────────────────────────

#[test]
fn json_is_read_and_written() {
    let d = json("{\"b\": [1, -2, 1.5, null, true], \"a\": \"é\"}");
    assert_eq!(write_json(&d), "{\"a\":\"é\",\"b\":[1,-2,1.5,null,true]}");
    assert!(read_json("{").is_none());
    assert!(read_json_bytes(&b"[1]".to_vec()).is_some());
    assert_eq!(write_json_lines(&Data::List(vec![Data::Int(1)])), "[\n  1\n]");
    let big = json("18446744073709551615");
    assert_eq!(big.unsigned(), Some(u64::MAX));
    assert_eq!(write_json(&Data::Other("no number".to_string())), "null");
    assert_eq!(write_json(&big), "18446744073709551615");
}

#[test]
fn literals_hold_any_text() {
    assert_eq!(js_string("a\"b\\c\n\u{1}"), "\"a\\\"b\\\\c\\n\\u0001\"");
}
