//! Commands that manage models, keys, servers and settings.
use gyre::admin::{
    auth_list, auth_logout, auth_remove, auth_save, humanize_ms, key_source_core, models_catalog,
    models_list, CatalogEntry, KeySource, ModelProfile, OAuthRow,
};
use gyre::config::{
    config_check_error, config_check_summary, config_check_warnings, config_keys, config_path,
    config_set, config_show, configuration_text, report_config_warnings, value_text,
    ConfigWarning, KeyInfo,
};
use gyre::data::Data;
use gyre::manage::{
    help_topic, route, validate_provider, ManageCmd, McpAddArgs, McpHttpTransport, Route,
};
use gyre::manage_run::{auth_login, begin_manage_cmd, run_manage_cmd, ManageEvent, ManageStep};
use gyre::say::{Line, Msg, Output, Val};
use gyre::secrets::{config_get, is_secret_key, mask_secrets};
use gyre::servers::{
    mcp_detail, mcp_list, mcp_own_servers, mcp_remove, mcp_server_known, mcp_set_disabled,
    mcp_status, mcp_write_path, resolve_mcp_http_server, McpServerConfig, McpServerEntry,
    McpSource,
};

fn val(v: &Val) -> String {
    match v {
        Val::Text(t) => t.clone(),
        Val::Entry(k, a) => entry(k, a),
        Val::Joined(v) => v.iter().map(val).collect(),
    }
}

fn entry(key: &str, args: &[(String, Val)]) -> String {
    let mut s = format!("<{key}");
    for (n, v) in args {
        s.push_str(&format!(" {n}={}", val(v)));
    }
    s + ">"
}

fn said(m: &Msg) -> String {
    entry(&m.key, &m.args)
}

fn shown(out: &Output) -> String {
    out.lines
        .iter()
        .map(|l| match l {
            Line::Text(t) => t.clone(),
            Line::Msg(m) => said(m),
            Line::Parts(p) => p.iter().map(val).collect(),
        })
        .collect::<Vec<_>>()
        .join("\n")
}

fn toks(words: &[&str]) -> Vec<String> {
    words.iter().map(|w| (*w).to_owned()).collect()
}

fn runs(words: &[&str], cmd: ManageCmd) {
    match route(&toks(words)) {
        Route::Run(c) => assert_eq!(format!("{c:?}"), format!("{cmd:?}"), "{words:?}"),
        other => panic!("{words:?}: {other:?}"),
    }
}

fn falls_through(words: &[&str]) {
    assert!(matches!(route(&toks(words)), Route::Fallthrough), "{words:?}");
}

fn is_usage(words: &[&str]) {
    assert!(matches!(route(&toks(words)), Route::Usage(_)), "{words:?}");
}

fn help(words: &[&str]) -> String {
    match route(&toks(words)) {
        Route::Help(o) => shown(&o),
        other => panic!("{words:?}: {other:?}"),
    }
}

fn profile(id: &str, alias: Option<&str>, api: &str, base_url: &str) -> ModelProfile {
    ModelProfile {
        id: id.to_string(),
        alias: alias.map(|s| s.to_string()),
        api: api.to_string(),
        base_url: base_url.to_string(),
        config_key_empty: true,
        expanded_key: String::new(),
        env_name: "GYRE_X_API_KEY".to_string(),
        env_set: false,
    }
}

fn default_profile() -> ModelProfile {
    let mut p = profile("gpt-test", Some("gpt"), "openai-completions", "https://api.example.com/v1");
    p.config_key_empty = false;
    p.expanded_key = "sk-from-config".to_string();
    p
}

fn other_profiles() -> Vec<ModelProfile> {
    vec![
        profile("sonnet-test", Some("sonnet"), "anthropic-messages", "https://anthropic.example.com"),
        profile("ds-test", Some("ds"), "deepseek", "https://api.deepseek.com"),
    ]
}

fn http(name: &str, url: &str) -> McpServerEntry {
    McpServerEntry {
        name: name.to_string(),
        server: McpServerConfig::Http {
            url: url.to_string(),
            headers: Vec::new(),
            timeout_ms: None,
            oauth: None,
            transport: McpHttpTransport::Streamable,
        },
    }
}

fn stdio(name: &str, command: &str, args: &[&str]) -> McpServerEntry {
    McpServerEntry {
        name: name.to_string(),
        server: McpServerConfig::Stdio {
            command: command.to_string(),
            args: toks(args),
            env: Vec::new(),
            timeout_ms: None,
        },
    }
}

fn source(servers: Vec<McpServerEntry>, disabled: &[&str]) -> McpSource {
    McpSource {
        level: "user".into(),
        path: "/cfg/mcp.json".into(),
        exists: true,
        servers,
        disabled: toks(disabled),
        warnings: Vec::new(),
    }
}

#[test]
fn config_set_reports_failure_without_panic() {
    let m = config_set("", &Err("empty key".to_string()));
    assert!(m.key.contains("failed"), "{m:?}");
    let m = config_set("agent.mode", &Ok("/cfg/config.toml".to_string()));
    assert!(said(&m).contains("agent.mode") && said(&m).contains("/cfg/config.toml"));
}

#[test]
fn subcommand_help_is_routed() {
    for verb in ["models", "auth", "mcp", "config"] {
        for form in [[verb, "--help"], [verb, "-h"], [verb, "help"]] {
            assert!(help(&form).contains(verb), "{form:?}");
        }
    }
    let all = help(&["help"]);
    for verb in ["models", "auth", "mcp", "config"] {
        assert!(all.contains(verb), "{verb}");
    }
    assert!(help(&["help", "mcp"]).contains("mcp"));
    assert!(help(&["mcp", "add", "--help"]).contains("mcp.add"));
    falls_through(&["help", "frobnicate"]);
    falls_through(&["help", "me", "fix", "this"]);
}

#[test]
fn route_models_shapes() {
    runs(&["models", "list"], ManageCmd::ModelsList);
    runs(&["models", "ls"], ManageCmd::ModelsList);
    is_usage(&["models", "list", "extra"]);
    falls_through(&["models"]);
    falls_through(&["models", "frobnicate"]);
}

#[test]
fn route_auth_shapes() {
    runs(&["auth", "list"], ManageCmd::AuthList);
    runs(&["auth", "ls"], ManageCmd::AuthList);
    is_usage(&["auth", "list", "x"]);
    runs(
        &["auth", "save", "DeepSeek", "--stdin"],
        ManageCmd::AuthSave { provider: "deepseek".into() },
    );
    is_usage(&["auth", "save", "deepseek"]);
    is_usage(&["auth", "save"]);
    is_usage(&["auth", "save", "a", "b", "--stdin"]);
    runs(&["auth", "login", "Anthropic"], ManageCmd::AuthLogin { id: "Anthropic".into() });
    is_usage(&["auth", "login"]);
    is_usage(&["auth", "login", "a", "b"]);
    runs(&["auth", "logout", "ZAI"], ManageCmd::AuthLogout { provider: "zai".into() });
    is_usage(&["auth", "logout"]);
    is_usage(&["auth", "save", "openai_completions", "--stdin"]);
    runs(&["auth", "rm", "zai"], ManageCmd::AuthRemove { provider: "zai".into() });
    runs(&["auth", "remove", "zai"], ManageCmd::AuthRemove { provider: "zai".into() });
    is_usage(&["auth", "rm"]);
    is_usage(&["auth", "rm", "a", "b"]);
    falls_through(&["auth"]);
    falls_through(&["auth", "frobnicate"]);
}

#[test]
fn route_mcp_shapes() {
    runs(&["mcp", "login", "remote"], ManageCmd::McpLogin { server: "remote".into() });
    runs(&["mcp", "logout", "remote"], ManageCmd::McpLogout { server: "remote".into() });
    is_usage(&["mcp", "login"]);
    is_usage(&["mcp", "login", "a", "b"]);
    assert!(matches!(route(&toks(&["mcp", "logout", "--help"])), Route::Help(_)));
    falls_through(&["mcp"]);
    falls_through(&["mcp", "frobnicate"]);

    runs(
        &["mcp", "add", "fs", "--command", "npx", "--arg", "-y", "--env", "TOKEN=t", "--project"],
        ManageCmd::McpAdd(McpAddArgs {
            name: "fs".into(),
            command: Some("npx".into()),
            args: vec!["-y".into()],
            url: None,
            transport: None,
            env: vec![("TOKEN".into(), "t".into())],
            project: true,
        }),
    );
    runs(
        &["mcp", "add", "remote", "--url", "https://x/mcp", "--type", "sse"],
        ManageCmd::McpAdd(McpAddArgs {
            name: "remote".into(),
            command: None,
            args: vec![],
            url: Some("https://x/mcp".into()),
            transport: Some(McpHttpTransport::Sse),
            env: vec![],
            project: false,
        }),
    );
    for bad in [
        vec!["mcp", "add", "x", "--command", "a", "--url", "u"],
        vec!["mcp", "add", "x"],
        vec!["mcp", "add"],
        vec!["mcp", "add", "x", "--url", "u", "--arg", "a"],
        vec!["mcp", "add", "x", "--url", "u", "--env", "K=V"],
        vec!["mcp", "add", "x", "--command", "a", "--type", "sse"],
        vec!["mcp", "add", "x", "--url", "u", "--type", "ws"],
        vec!["mcp", "add", "x", "--url", "u", "--env", "novalue"],
        vec!["mcp", "add", "x", "--command"],
        vec!["mcp", "add", "x", "y", "--command", "a"],
        vec!["mcp", "add", "x", "--url", "u", "--bogus"],
    ] {
        is_usage(&bad);
    }

    runs(&["mcp", "remove", "fs"], ManageCmd::McpRemove { name: "fs".into(), project: false });
    runs(
        &["mcp", "rm", "fs", "--project"],
        ManageCmd::McpRemove { name: "fs".into(), project: true },
    );
    runs(&["mcp", "enable", "fs"], ManageCmd::McpEnable { name: "fs".into() });
    runs(&["mcp", "disable", "fs"], ManageCmd::McpDisable { name: "fs".into() });
    runs(&["mcp", "list"], ManageCmd::McpList);
    runs(&["mcp", "ls"], ManageCmd::McpList);
    runs(&["mcp", "status"], ManageCmd::McpStatus);
    is_usage(&["mcp", "remove"]);
    is_usage(&["mcp", "enable"]);
    is_usage(&["mcp", "disable", "a", "b"]);
    is_usage(&["mcp", "list", "x"]);
    is_usage(&["mcp", "status", "x"]);
}

#[test]
fn route_config_shapes() {
    runs(&["config", "path"], ManageCmd::ConfigPath);
    runs(&["config", "keys"], ManageCmd::ConfigKeys { prefix: None });
    runs(&["config", "keys", "agent"], ManageCmd::ConfigKeys { prefix: Some("agent".into()) });
    is_usage(&["config", "keys", "a", "b"]);
    runs(&["config", "check"], ManageCmd::ConfigCheck);
    is_usage(&["config", "path", "x"]);
    is_usage(&["config", "check", "-y"]);
    falls_through(&["config"]);
    falls_through(&["config", "frobnicate"]);
}

#[test]
fn route_fallthrough_prompts_and_flags() {
    falls_through(&["explain", "models"]);
    falls_through(&["list", "all", "my", "files"]);
    falls_through(&["-models"]);
    falls_through(&["@file", "models"]);
    falls_through(&[]);
    falls_through(&["upgrade", "the", "deps"]);
}

#[test]
fn validate_provider_rules() {
    assert_eq!(validate_provider("deepseek").ok().as_deref(), Some("deepseek"));
    assert_eq!(validate_provider("  OpenAI ").ok().as_deref(), Some("openai"));
    assert_eq!(
        validate_provider("openai-completions").ok().as_deref(),
        Some("openai-completions")
    );
    assert!(validate_provider("").is_err());
    assert!(validate_provider("   ").is_err());
    assert!(validate_provider("openai_completions").is_err());
    assert!(validate_provider("a b").is_err());
    assert!(validate_provider("a@b").is_err());
    assert!(validate_provider("深度").is_err());
    assert!(validate_provider("\u{212A}imi").is_err());
    assert!(validate_provider("-x").is_err());
    assert!(validate_provider("---").is_err());
}

fn catalog() -> Vec<CatalogEntry> {
    let row = |p: &str, a: &str, t: bool| CatalogEntry {
        pattern: p.to_string(),
        api: a.to_string(),
        max_input_tokens: 128000,
        max_output_tokens: 4096,
        supports_thinking: t,
    };
    vec![
        row("gpt-4o*", "openai-completions", false),
        row("sonnet-4*", "anthropic-messages", true),
        row("deepseek-reasoner*", "deepseek", true),
        row("deepseek*", "deepseek", false),
    ]
}

/// What the catalogue finds for a word.
fn found(filter: &str) -> Vec<CatalogEntry> {
    catalog().into_iter().filter(|e| e.pattern.contains(filter) || e.api.contains(filter)).collect()
}

#[test]
fn models_catalog_lists_and_filters() {
    let text = shown(&models_catalog("", &found("")));
    assert!(text.contains("内置模型目录"), "{text}");
    assert!(text.contains("gpt-4o*"), "{text}");
    assert!(text.contains("sonnet-4*"), "{text}");
    assert!(text.contains("yes") && text.contains("no"), "{text}");

    let text = shown(&models_catalog("deepseek", &found("deepseek")));
    assert!(text.contains("deepseek-reasoner*") && text.contains("deepseek*"), "{text}");
    assert!(!text.contains("gpt-4o*"), "{text}");

    let text = shown(&models_catalog("no-such-family", &found("no-such-family")));
    assert!(text.contains("没有匹配"), "{text}");
    assert!(text.contains("agent models list"), "{text}");
}

#[test]
fn models_list_marks_default_and_alias() {
    let text = shown(&models_list(&default_profile(), &other_profiles()));
    assert!(text.contains("default"), "{text}");
    assert!(text.contains("gpt-test") && text.contains("gpt"), "{text}");
    assert!(text.contains("openai-completions"), "{text}");
    assert!(text.contains("https://api.example.com/v1"), "{text}");
    assert!(text.contains("sonnet") && text.contains("anthropic-messages"), "{text}");
    assert!(text.contains("ds") && text.contains("deepseek"), "{text}");
    assert!(text.contains("catalog"), "{text}");
}

#[test]
fn key_source_precedence() {
    let store = vec![("p".to_string(), "sk-toml".to_string())];
    assert!(matches!(
        key_source_core(false, "sk-config", &store, "p", "GYRE_P_API_KEY", false),
        KeySource::Config
    ));
    assert!(matches!(
        key_source_core(false, "", &store, "p", "GYRE_P_API_KEY", false),
        KeySource::AuthToml
    ));
    match key_source_core(
        true,
        "",
        &store,
        "gyre-manage-noenv",
        "GYRE_GYRE_MANAGE_NOENV_API_KEY",
        false,
    ) {
        KeySource::Missing(v) => assert_eq!(v, "GYRE_GYRE_MANAGE_NOENV_API_KEY"),
        other => panic!("{other:?}"),
    }
}

#[test]
fn key_source_env_branch() {
    let store = Vec::new();
    let var = "GYRE_MANAGE_TEST_ENV_ONLY_API_KEY";
    match key_source_core(true, "", &store, "manage-test-env-only", var, true) {
        KeySource::Env(v) => assert_eq!(v, var),
        other => panic!("{other:?}"),
    }
    match key_source_core(true, "", &store, "manage-test-env-only", var, false) {
        KeySource::Missing(v) => assert_eq!(v, var),
        other => panic!("{other:?}"),
    }
}

fn key(path: &str, kind: &str) -> KeyInfo {
    KeyInfo { path: path.to_string(), kind: kind.to_string() }
}

#[test]
fn config_keys_lists_known_keys_and_filters_by_prefix() {
    let keys = vec![
        key("agent.max_turns", "scalar"),
        key("agent.commands", "table"),
        key("agent.commands.minimizer", "table"),
        key("agent.commands.allow", "array-of-tables"),
        key("mcp.servers", "open-map"),
    ];
    let all = shown(&config_keys(&keys, None));
    assert!(all.lines().any(|l| l == "agent.max_turns\tscalar"), "{all}");
    assert!(all.lines().any(|l| l == "mcp.servers\topen-map"), "{all}");

    let filtered = shown(&config_keys(&keys, Some("agent.commands")));
    assert!(filtered.lines().any(|l| l == "agent.commands.minimizer\ttable"), "{filtered}");
    assert!(filtered.lines().any(|l| l == "agent.commands.allow\tarray-of-tables"));
    assert!(!filtered.contains("agent.max_turns"), "{filtered}");

    let none = shown(&config_keys(&keys, Some("nope")));
    assert!(none.contains("nope"), "{none}");
}

#[test]
fn config_check_warnings_render_suggestion() {
    let warnings = vec![
        ConfigWarning { path: "agent.max_turn".into(), suggestion: Some("max_turns".into()) },
        ConfigWarning { path: "agnet".into(), suggestion: None },
    ];
    let text = shown(&config_check_warnings(&warnings));
    assert!(text.contains("agent.max_turn"), "{text}");
    assert!(text.contains("max_turns"), "{text}");
    assert!(text.contains("agnet"), "{text}");
    assert_eq!(text.lines().count(), 2, "{text}");
    assert!(!report_config_warnings(&warnings).lines.is_empty());
    assert!(report_config_warnings(&Vec::new()).lines.is_empty());
}

#[test]
fn config_check_summary_and_error() {
    let d = profile("gpt-test", Some("gpt"), "openai-completions", "https://api.example.com/v1");
    let text = said(&config_check_summary(&d, 1, 1, 2));
    assert!(text.contains("models=2"), "{text}");
    assert!(text.contains("default=gpt"), "{text}");
    assert!(text.contains("mcp=1"), "{text}");
    assert!(text.contains("tools=2"), "{text}");
    let m = config_check_error("context_window_guard 越界");
    assert!(m.key.contains("check_failed"), "{m:?}");
    assert!(said(&m).contains("context_window_guard 越界"));
}

// ── More of the same ────────────────────────────────────────────────────────

fn text(s: &str) -> Data {
    Data::Text(s.to_string())
}

fn sample_config() -> Data {
    Data::Table(vec![
        (
            "default_model".to_string(),
            Data::Table(vec![
                ("id".to_string(), text("m")),
                ("api".to_string(), text("deepseek")),
                ("base_url".to_string(), text("https://x")),
                ("api_key".to_string(), text("sk-super-secret")),
            ]),
        ),
        ("agent".to_string(), Data::Table(vec![("mode".to_string(), text("code"))])),
    ])
}

fn got(d: &Data, key: &str) -> String {
    match config_get(d, key) {
        Ok(x) => value_text(&x),
        Err(m) => said(&m),
    }
}

#[test]
fn config_get_and_show_mask_secrets() {
    let d = sample_config();
    assert_eq!(got(&d, "agent.mode").trim(), "code");
    let secret = got(&d, "default_model.api_key");
    assert_eq!(secret.trim(), "***");
    assert!(!secret.contains("sk-super-secret"));
    assert!(config_get(&d, "nope.nothing").is_err());
    assert!(got(&d, "nope.nothing").contains("nope.nothing"));
    let (notice, masked) = config_show(&d);
    let page = configuration_text(&masked);
    assert!(page.contains("***"), "{page}");
    assert!(!page.contains("sk-super-secret"), "{page}");
    assert!(page.contains("mode = \"code\""), "{page}");
    assert_eq!(shown(&notice), "<manage.config.masked>");
}

#[test]
fn secrets_stay_hidden_behind_stray_dots() {
    let d = sample_config();
    for key in ["default_model.api_key.", "default_model.api_key..", ".default_model..api_key"] {
        assert_eq!(got(&d, key).trim(), "***", "{key}");
        assert!(is_secret_key(key), "{key}");
    }
    assert_eq!(got(&d, "agent.mode.").trim(), "code");
    assert!(!is_secret_key("..."));
}

#[test]
fn secret_keys_are_told_by_their_last_part() {
    assert!(mask_secrets(&sample_config(), "").1);
    assert!(is_secret_key("API_KEY"));
    assert!(!is_secret_key("mode"));
    assert!(!is_secret_key("api_key.mode"));
}

#[test]
fn keys_are_listed_without_their_values() {
    let store = vec![("deepseek".to_string(), "sk-secret-123".to_string())];
    let text = shown(&auth_list(
        &default_profile(),
        &other_profiles(),
        &store,
        &Vec::new(),
        0,
        i64::MAX,
    ));
    assert!(text.contains("gpt"), "{text}");
    assert!(!text.contains("sk-from-config"), "{text}");
    assert!(!text.contains("sk-secret-123"), "{text}");
}

#[test]
fn key_listing_does_not_depend_on_the_keys() {
    let list = |config: &str, stored: &str| {
        let mut d = default_profile();
        d.expanded_key = config.to_string();
        let store = vec![("deepseek".to_string(), stored.to_string()), ("z".into(), "k".into())];
        shown(&auth_list(&d, &other_profiles(), &store, &Vec::new(), 0, i64::MAX))
    };
    assert_eq!(list("sk-from-config", "sk-secret-123"), list("other", "x"));
    assert_ne!(list("sk-from-config", "sk-secret-123"), list("sk-from-config", ""));
}

fn openai_profile() -> ModelProfile {
    profile("gpt-test", None, "openai-completions", "https://api.example.com/v1")
}

fn signed_in(provider: &str, expires: i64, email: Option<&str>) -> OAuthRow {
    OAuthRow {
        provider: provider.to_string(),
        expires,
        expired: false,
        email: email.map(String::from),
        grant_expired: false,
    }
}

#[test]
fn auth_list_shows_oauth_rows_and_expiry() {
    let now: i64 = 1_700_000_000_000;
    let oauth = vec![
        signed_in("anthropic-messages", now + 3600 * 1000, Some("u@x.io")),
        signed_in("zai", i64::MAX, None),
    ];
    let text =
        shown(&auth_list(&openai_profile(), &Vec::new(), &Vec::new(), &oauth, now, i64::MAX));
    assert!(text.contains("<manage.auth.oauth_row provider=anthropic-messages"), "{text}");
    assert!(text.contains("<u@x.io>"), "{text}");
    assert!(
        text.contains("<manage.auth.oauth_valid remaining=<manage.auth.dur_hour n=1>>"),
        "{text}"
    );
    assert!(text.contains("provider=zai who= expiry=<manage.auth.oauth_longlived>"), "{text}");
}

#[test]
fn auth_list_flags_orphan_entries() {
    let d = openai_profile();
    let saved = |key: &str| match auth_save(key) {
        Ok(k) => k,
        Err(m) => panic!("{}", said(&m)),
    };
    let list = |store: &Vec<(String, String)>| {
        shown(&auth_list(&d, &Vec::new(), store, &Vec::new(), 0, i64::MAX))
    };
    let mut store = vec![("anthropic".to_string(), saved("sk-orphan"))];
    let text = list(&store);
    assert!(text.contains("<manage.auth.orphan keys=anthropic>"), "{text}");
    store.push(("openai-completions".to_string(), saved("sk-right")));
    let store = match auth_remove(&store, "anthropic") {
        Ok(v) => v,
        Err(m) => panic!("{}", said(&m)),
    };
    let text = list(&store);
    assert!(!text.contains("manage.auth.orphan"), "{text}");
}

#[test]
fn auth_save_rejects_empty_key() {
    for key in ["", "   \n  "] {
        match auth_save(key) {
            Err(m) => assert_eq!(said(&m), "<manage.auth.empty_key>"),
            Ok(k) => panic!("{k}"),
        }
        let save = ManageCmd::AuthSave { provider: "deepseek".into() };
        let step = run_manage_cmd(&save, &ManageEvent::Stdin(key.to_string()));
        assert!(matches!(step, ManageStep::Fail { .. }), "{step:?}");
    }
}

#[test]
fn times_are_told_in_the_largest_unit() {
    assert_eq!(said(&humanize_ms(-5)), "<manage.auth.dur_min n=1>");
    assert_eq!(said(&humanize_ms(90_000)), "<manage.auth.dur_min n=1>");
    assert_eq!(said(&humanize_ms(7_200_000)), "<manage.auth.dur_hour n=2>");
    assert_eq!(said(&humanize_ms(172_800_000)), "<manage.auth.dur_day n=2>");
}

#[test]
fn config_path_notes_missing() {
    let path = |exists: bool| {
        let event = ManageEvent::ConfigFile { path: "/cfg/config.toml".into(), exists };
        match run_manage_cmd(&ManageCmd::ConfigPath, &event) {
            ManageStep::Done { out, .. } => shown(&out),
            other => panic!("{other:?}"),
        }
    };
    assert_eq!(path(false), "<manage.config.path_missing path=/cfg/config.toml>");
    assert_eq!(path(true), "<manage.config.path path=/cfg/config.toml>");
    assert_eq!(said(&config_path("/c", false)), "<manage.config.path_missing path=/c>");
}

#[test]
fn keys_are_saved_and_removed() {
    assert_eq!(auth_save("  sk-secret-123  ").ok().as_deref(), Some("sk-secret-123"));
    assert!(auth_save("").is_err());
    assert!(auth_save("   \n  ").is_err());
    let store = vec![("deepseek".to_string(), "a".to_string()), ("zai".to_string(), "b".to_string())];
    let left = match auth_remove(&store, "DeepSeek") {
        Ok(v) => v,
        Err(m) => panic!("{m:?}"),
    };
    assert_eq!(left, vec![("zai".to_string(), "b".to_string())]);
    assert!(auth_remove(&left, "deepseek").is_err());
    assert!(auth_logout("zai", true, false).is_ok());
    assert!(auth_logout("zai", false, false).is_err());
    assert!(auth_logout("z_ai", true, true).is_err());
}

#[test]
fn servers_are_found_and_described() {
    let v = vec![http("remote", "https://x/mcp"), stdio("fs", "npx", &["-y", "fs"])];
    let found = resolve_mcp_http_server(&v, "remote").ok();
    assert_eq!(found, Some(("https://x/mcp".to_string(), None)));
    assert!(resolve_mcp_http_server(&v, "fs").is_err());
    assert!(resolve_mcp_http_server(&v, "none").is_err());
    assert_eq!(mcp_detail(&v[1].server), "stdio: npx -y fs");
    assert_eq!(mcp_detail(&v[0].server), "http: https://x/mcp");
    assert_eq!(mcp_write_path("/w", "/cfg", false, false), "/cfg/mcp.json");
    assert_eq!(mcp_write_path("/w", "/cfg", true, false), "/w/.agent/mcp.json");
    assert_eq!(mcp_write_path("/w", "/cfg/", false, false), "/cfg/mcp.json");
    assert_eq!(mcp_write_path("", "", false, false), "mcp.json");
    assert_eq!(mcp_write_path("", "", true, false), ".agent/mcp.json");
    assert_eq!(mcp_write_path("C:\\w", "", true, true), "C:\\w\\.agent\\mcp.json");
}

#[test]
fn servers_are_listed_and_switched() {
    let sources = vec![source(vec![stdio("fs", "npx", &[])], &["off"])];
    assert!(mcp_server_known(&sources, &Vec::new(), "fs"));
    assert!(!mcp_server_known(&sources, &Vec::new(), "nope"));
    assert!(mcp_set_disabled(&sources, &Vec::new(), "nope", "/p", true).is_err());
    assert!(mcp_set_disabled(&sources, &Vec::new(), "fs", "/p", true).is_ok());
    assert!(mcp_remove("fs", "/p", true).is_ok());
    assert!(mcp_remove("fs", "/p", false).is_err());
    let text = shown(&mcp_list(&sources));
    assert!(text.contains("fs"), "{text}");
    let own = vec![http("toml", "u"), stdio("fs", "npx", &[])];
    assert_eq!(mcp_own_servers(&own, &sources), vec![0]);
    let text = shown(&mcp_status(&own, &toks(&["", ""]), &sources));
    assert!(text.contains("toml"), "{text}");
}

fn pairs(v: &[(&str, &str)]) -> Vec<(String, String)> {
    v.iter().map(|(k, x)| (k.to_string(), x.to_string())).collect()
}

#[test]
fn a_repeated_variable_keeps_its_last_value() {
    let args = McpAddArgs {
        name: "fs".into(),
        command: Some("npx".into()),
        args: toks(&["-y"]),
        url: None,
        transport: None,
        env: pairs(&[("A", "1"), ("B", "2"), ("A", "3")]),
        project: false,
    };
    match args.to_server() {
        Ok(McpServerConfig::Stdio { command, args, env, timeout_ms }) => {
            assert_eq!(command, "npx");
            assert_eq!(args, toks(&["-y"]));
            assert_eq!(env, pairs(&[("A", "3"), ("B", "2")]));
            assert_eq!(timeout_ms, None);
        }
        other => panic!("{other:?}"),
    }
}

#[test]
fn servers_that_differ_anywhere_are_told_apart() {
    let program = |env: &[(&str, &str)], timeout_ms: Option<u64>| McpServerEntry {
        name: "fs".into(),
        server: McpServerConfig::Stdio {
            command: "npx".into(),
            args: Vec::new(),
            env: pairs(env),
            timeout_ms,
        },
    };
    let address = |headers: &[(&str, &str)], oauth: Option<&str>| McpServerEntry {
        name: "web".into(),
        server: McpServerConfig::Http {
            url: "https://x".into(),
            headers: pairs(headers),
            timeout_ms: None,
            oauth: oauth.map(String::from),
            transport: McpHttpTransport::Streamable,
        },
    };
    let sources = vec![source(
        vec![program(&[("A", "1"), ("B", "2")], Some(5)), address(&[("H", "v")], Some("{}"))],
        &[],
    )];
    let own = |e: McpServerEntry| mcp_own_servers(&vec![e], &sources).len();
    assert_eq!(own(program(&[("B", "2"), ("A", "1")], Some(5))), 0);
    assert_eq!(own(program(&[("A", "1")], Some(5))), 1);
    assert_eq!(own(program(&[("A", "1"), ("B", "2"), ("C", "3")], Some(5))), 1);
    assert_eq!(own(program(&[("A", "1"), ("B", "2")], None)), 1);
    assert_eq!(own(address(&[("H", "v")], Some("{}"))), 0);
    assert_eq!(own(address(&[("H", "w")], Some("{}"))), 1);
    assert_eq!(own(address(&[("H", "v")], None)), 1);
}

#[test]
fn a_management_command_goes_step_by_step() {
    let cmd = ManageCmd::ConfigPath;
    assert!(matches!(begin_manage_cmd(&cmd), ManageStep::FindConfigFile));
    match run_manage_cmd(&cmd, &ManageEvent::ConfigFile { path: "/c".into(), exists: false }) {
        ManageStep::Done { out, code, .. } => {
            assert_eq!(code, 0);
            assert!(shown(&out).contains("/c"));
        }
        other => panic!("{other:?}"),
    }
    assert!(matches!(
        run_manage_cmd(&cmd, &ManageEvent::Stdin(String::new())),
        ManageStep::Unexpected
    ));
    let save = ManageCmd::AuthSave { provider: "zai".into() };
    assert!(matches!(begin_manage_cmd(&save), ManageStep::ReadStdin));
    assert!(matches!(
        run_manage_cmd(&save, &ManageEvent::Stdin(" k ".into())),
        ManageStep::SaveKey { .. }
    ));
    assert!(matches!(
        auth_login("x", &ManageEvent::NoSuchSignIn { ids: toks(&["a"]) }),
        ManageStep::Fail { .. }
    ));
    assert_eq!(help_topic(&toks(&["models", "--help"])).as_deref(), Some("models"));
}

#[test]
fn settings_are_printed_as_toml() {
    let agent = Data::Table(vec![
        ("mode".to_string(), Data::Text("code".to_string())),
        ("max_turns".to_string(), Data::Int(5)),
        ("tools".to_string(), Data::List(vec![Data::Bool(true), Data::Bool(false)])),
    ]);
    let shown = value_text(&agent);
    assert!(shown.contains("mode = \"code\"\n"), "{shown}");
    assert!(shown.contains("max_turns = 5\n"), "{shown}");
    assert!(shown.contains("tools = [true, false]\n"), "{shown}");
    let page = configuration_text(&Data::Table(vec![("agent".to_string(), agent)]));
    assert!(page.starts_with("[agent]\n"), "{page}");
    assert!(page.contains("mode = \"code\"\n"), "{page}");
}

#[test]
fn single_settings_are_printed_alone() {
    assert_eq!(value_text(&Data::Int(5)), "5\n");
    assert_eq!(value_text(&Data::Bool(true)), "true\n");
    assert_eq!(value_text(&Data::Text("code".to_string())), "code\n");
    assert_eq!(value_text(&Data::Text("two\n".to_string())), "two\n");
    assert_eq!(value_text(&Data::List(vec![Data::Int(1), Data::Int(2)])), "[1, 2]\n");
}

#[test]
fn values_that_toml_lacks_become_texts() {
    assert_eq!(value_text(&Data::List(vec![Data::Null, text("a")])), "[\"\", \"a\"]\n");
    assert_eq!(value_text(&Data::List(vec![Data::Other("1.5".to_string())])), "[1.5]\n");
    assert_eq!(value_text(&Data::List(vec![Data::Other("a b".to_string())])), "[\"a b\"]\n");
}
