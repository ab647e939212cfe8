//! The program as a whole: how it is to run, in which session, and what each line that the
//! user types leads to.
use vstd::prelude::*;

use crate::argv;
use crate::argv::{parse_socks_spec, quoted_of, resolve_serve_address};
use crate::commands::CommandOutcome;
use crate::host::ApprovalMode;
use crate::manage;
use crate::numeral;
use crate::numeral::{dec_text, dec_usize, dec_wide};
use crate::pieces;
use crate::pieces::join_of;
use crate::queue_cmd;
use crate::queue_cmd::on_one_line;
use crate::repl;
use crate::repl::{is_known_optional_key, Mode};
use crate::say;
use crate::say::{just, msg, Msg, Output};
use crate::secrets::lower_of;
use crate::session::UserContent;
use crate::text;
use crate::text::{cat, copy_text, has_prefix, padded_right, same, trimmed};

verus! {

// ── Starting ────────────────────────────────────────────────────────────────

/// What the command line asks for.
#[derive(Debug)]
pub struct Flags {
    /// A protocol of lines on the standard streams.
    pub rpc: bool,
    /// A protocol for editors.
    pub acp: bool,
    /// A server for the web, and where it listens; empty for where the configuration says.
    pub serve: Option<String>,
    pub list_sessions: bool,
    pub resume: Option<String>,
    pub fork: Option<String>,
    pub again: bool,
}

/// How the program runs.
#[derive(Debug)]
pub enum RunMode<S = String> {
    Rpc,
    AcpStdio,
    Serve { bind: S, acp: bool },
    ListSessions,
    Agent,
    /// It does not.
    Refused { why: S },
}

pub type RunModeView = RunMode<Seq<char>>;

impl RunMode {
    pub open spec fn view(&self) -> RunModeView {
        match self {
            RunMode::Rpc => RunMode::Rpc,
            RunMode::AcpStdio => RunMode::AcpStdio,
            RunMode::Serve { bind, acp } => RunMode::Serve { bind: bind@, acp: *acp },
            RunMode::ListSessions => RunMode::ListSessions,
            RunMode::Agent => RunMode::Agent,
            RunMode::Refused { why } => RunMode::Refused { why: why@ },
        }
    }
}

/// How the program runs, with the address that the configuration has.
pub open spec fn run_mode_of(f: Flags, bind: Seq<char>) -> RunModeView {
    if f.rpc && (f.serve is Some || f.acp) {
        RunMode::Refused { why: "--rpc 与 --serve / --acp 互斥，不能同时指定"@ }
    } else if f.rpc {
        RunMode::Rpc
    } else {
        match manage::opt_text(f.serve) {
            Some(addr) => RunMode::Serve { bind: argv::serve_address(addr, bind), acp: f.acp },
            None => if f.acp {
                RunMode::AcpStdio
            } else if f.list_sessions {
                RunMode::ListSessions
            } else {
                RunMode::Agent
            },
        }
    }
}

pub fn run_mode(f: &Flags, bind: &str) -> (r: RunMode)
    ensures
        r.view() == run_mode_of(*f, bind@),
{
    if f.rpc && (f.serve.is_some() || f.acp) {
        return RunMode::Refused { why: copy_text("--rpc 与 --serve / --acp 互斥，不能同时指定") };
    }
    if f.rpc {
        return RunMode::Rpc;
    }
    match &f.serve {
        Some(addr) => RunMode::Serve { bind: resolve_serve_address(addr, bind), acp: f.acp },
        None => if f.acp {
            RunMode::AcpStdio
        } else if f.list_sessions {
            RunMode::ListSessions
        } else {
            RunMode::Agent
        },
    }
}

/// When a person is asked: as the command line says, as was last set, or as the
/// configuration has it.
pub open spec fn approval_of(
    flag: Option<Seq<char>>,
    last: Option<ApprovalMode>,
    configured: ApprovalMode,
) -> ApprovalMode {
    match flag {
        Some(s) => if s == "yolo"@ {
            ApprovalMode::Yolo
        } else if s == "write"@ {
            ApprovalMode::Write
        } else {
            ApprovalMode::AlwaysAsk
        },
        None => match last {
            Some(m) => m,
            None => configured,
        },
    }
}

pub fn approval_mode(flag: Option<&str>, last: Option<ApprovalMode>, configured: ApprovalMode) -> (r:
    ApprovalMode)
    ensures
        r == approval_of(repl::str_text(flag), last, configured),
{
    match flag {
        Some(s) => if same(s, "yolo") {
            ApprovalMode::Yolo
        } else if same(s, "write") {
            ApprovalMode::Write
        } else {
            ApprovalMode::AlwaysAsk
        },
        None => match last {
            Some(m) => m,
            None => configured,
        },
    }
}

/// Whether texts are matched loosely, by the configuration or else by the environment.
pub fn fuzzy_switch(setting: &str, env: bool) -> (r: bool)
    ensures
        r == (if setting@ == "on"@ || setting@ == "1"@ || setting@ == "true"@ {
            true
        } else if setting@ == "off"@ || setting@ == "0"@ || setting@ == "false"@ {
            false
        } else {
            env
        }),
{
    if same(setting, "on") || same(setting, "1") || same(setting, "true") {
        true
    } else if same(setting, "off") || same(setting, "0") || same(setting, "false") {
        false
    } else {
        env
    }
}

/// Something that the configuration or a variable of the environment switches on.
pub fn switched_on(configured: bool, env: Option<&str>) -> (r: bool)
    ensures
        r == (configured || repl::str_text(env) == Some("1"@)),
{
    if configured {
        return true;
    }
    match env {
        Some(v) => same(v, "1"),
        None => false,
    }
}

/// The proxy that the command line names.
pub fn socks_flag(spec: &str) -> (r: Result<(String, u16), String>)
    ensures
        match argv::socks(spec@) {
            Ok((h, p)) => r matches Ok((host, port)) && host@ == h && port == p,
            Err(e) => r matches Err(m) && m@ == "--socks 格式无效: "@ + argv::quoted(spec@)
                + " — "@ + e,
        },
{
    match parse_socks_spec(spec) {
        Ok(x) => Ok(x),
        Err(e) => Err(cat(&cat(&cat("--socks 格式无效: ", &quoted_of(spec)), " — "), &e)),
    }
}

/// What is said of variables that were read from files; nothing without any.
pub fn dotenv_note(count: usize, files: &Vec<String>) -> (r: Option<String>)
    ensures
        manage::opt_text(r) == (if count == 0 {
            None
        } else {
            Some(
                "已加载 "@ + numeral::dec(count as nat) + " 个环境变量（来源 "@ + pieces::join(
                    text::texts(files@),
                    ", "@,
                ) + "）"@,
            )
        }),
{
    if count == 0 {
        return None;
    }
    let head = cat(&cat("已加载 ", &dec_usize(count)), " 个环境变量（来源 ");
    Some(cat(&cat(&head, &join_of(files, ", ")), "）"))
}

// ── The session ─────────────────────────────────────────────────────────────

/// Which session the program works in.
#[derive(Debug)]
pub enum SessionStart<S = String> {
    Resume(S),
    Fork(S),
    /// The one that was used last.
    Last,
    New,
}

impl SessionStart {
    pub open spec fn view(&self) -> SessionStart<Seq<char>> {
        match self {
            SessionStart::Resume(s) => SessionStart::Resume(s@),
            SessionStart::Fork(s) => SessionStart::Fork(s@),
            SessionStart::Last => SessionStart::Last,
            SessionStart::New => SessionStart::New,
        }
    }
}

pub open spec fn session_start_of(f: Flags) -> SessionStart<Seq<char>> {
    match (manage::opt_text(f.resume), manage::opt_text(f.fork)) {
        (Some(id), _) => SessionStart::Resume(id),
        (None, Some(src)) => SessionStart::Fork(src),
        (None, None) => if f.again {
            SessionStart::Last
        } else {
            SessionStart::New
        },
    }
}

pub fn session_start(f: &Flags) -> (r: SessionStart)
    ensures
        r.view() == session_start_of(*f),
{
    match (&f.resume, &f.fork) {
        (Some(id), _) => SessionStart::Resume(copy_text(id)),
        (None, Some(src)) => SessionStart::Fork(copy_text(src)),
        (None, None) => if f.again {
            SessionStart::Last
        } else {
            SessionStart::New
        },
    }
}

/// The session that was used last, and what is said of it; an error without one.
pub fn last_session(found: &Option<String>) -> (r: Result<Msg, Msg>)
    ensures
        match manage::opt_text(*found) {
            Some(id) => r matches Ok(m) && m@ == say::entry("session.continue_resolved"@).arg(
                "id"@,
                id,
            ),
            None => r matches Err(m) && m@ == say::entry("session.continue_none"@),
        },
{
    match found {
        Some(id) => Ok(msg("session.continue_resolved").arg("id", id)),
        None => Err(msg("session.continue_none")),
    }
}

/// A stored session.
#[derive(Debug)]
pub struct StoredSession {
    pub id: String,
    pub bytes: u64,
    /// When it was last used, in seconds since 1970.
    pub mtime: u64,
}

pub open spec fn stored_line(s: StoredSession) -> say::LineView {
    say::LineView::Msg(
        say::entry("session.list_entry"@).arg("id"@, s.id@).arg(
            "bytes"@,
            numeral::dec(s.bytes as nat),
        ).arg("ts"@, numeral::dec(s.mtime as nat)),
    )
}

/// What is printed of the sessions that are stored.
pub open spec fn stored_lines(v: Seq<StoredSession>) -> Seq<say::LineView> {
    if v.len() == 0 {
        say::said(say::entry("session.none_history"@))
    } else {
        Seq::new(v.len(), |i: int| stored_line(v[i]))
    }
}

pub fn list_sessions(v: &Vec<StoredSession>) -> (out: Output)
    ensures
        out@ == stored_lines(v@),
{
    if v.len() == 0 {
        return just(msg("session.none_history"));
    }
    let mut out = Output::new();
    let mut i: usize = 0;
    assert(out@ =~= stored_lines(v@).take(0));
    while i < v.len()
        invariant
            i <= v.len(),
            v.len() > 0,
            out@ == stored_lines(v@).take(i as int),
        decreases v.len() - i,
    {
        out.say(
            msg("session.list_entry").arg("id", &v[i].id).arg("bytes", &dec_text(v[i].bytes)).arg(
                "ts",
                &dec_text(v[i].mtime),
            ),
        );
        i = i + 1;
        assert(out@ =~= stored_lines(v@).take(i as int));
    }
    assert(out@ =~= stored_lines(v@));
    out
}

/// What is said of a goal that was set in an earlier run; one that was pursued waits until
/// the user goes on with it.
pub fn restored_goal(status: &str, summary: &str) -> (r: String)
    ensures
        r@ == (if status@ == "active"@ {
            "已恢复目标（状态 paused，需 `goal resume` 继续）："@
        } else {
            "已恢复目标："@
        }) + summary@,
{
    if same(status, "active") {
        cat("已恢复目标（状态 paused，需 `goal resume` 继续）：", summary)
    } else {
        cat("已恢复目标：", summary)
    }
}

// ── The agent ───────────────────────────────────────────────────────────────

/// How a person answered: yes only if the answer begins with a `y`.
pub fn approval_answer(line: &str) -> (yes: bool)
    ensures
        yes == text::starts_with(text::lower(text::trim(line@)), "y"@),
{
    has_prefix(&lower_of(&trimmed(line)), "y")
}

/// What the agent is told of a job that ran in the background.
pub fn job_notice(id: &str, label: &str, status: Option<&str>, result: &str) -> (r: String)
    ensures
        r@ == "<system-notice>\n后台作业 "@ + id@ + "（"@ + label@ + "，"@ + (match repl::str_text(
            status,
        ) {
            Some(s) => s,
            None => "completed"@,
        }) + "）已完结。请基于以下结果继续工作。\n\n"@ + result@ + "\n</system-notice>"@,
{
    let state = match status {
        Some(s) => copy_text(s),
        None => copy_text("completed"),
    };
    let r = cat(&cat("<system-notice>\n后台作业 ", id), "（");
    let r = cat(&cat(&r, label), "，");
    let r = cat(&cat(&r, &state), "）已完结。请基于以下结果继续工作。\n\n");
    cat(&cat(&r, result), "\n</system-notice>")
}

/// How much an agent may think.
#[derive(Debug)]
pub enum ThinkingPlan<S = String> {
    Off,
    /// So many tokens.
    Budget(u32),
    /// As a small model finds, and so many tokens where it finds nothing.
    Judged { model: S, budget: u32 },
}

impl ThinkingPlan {
    pub open spec fn view(&self) -> ThinkingPlan<Seq<char>> {
        match self {
            ThinkingPlan::Off => ThinkingPlan::Off,
            ThinkingPlan::Budget(n) => ThinkingPlan::Budget(*n),
            ThinkingPlan::Judged { model, budget } => ThinkingPlan::Judged {
                model: model@,
                budget: *budget,
            },
        }
    }
}

pub open spec fn budget_of(given: Option<u32>) -> u32 {
    match given {
        Some(n) => n,
        None => 16000u32,
    }
}

fn budget(given: Option<u32>) -> (r: u32)
    ensures
        r == budget_of(given),
{
    match given {
        Some(n) => n,
        None => 16000,
    }
}

pub fn thinking_plan(enabled: bool, given: Option<u32>, judged: bool, model: &Option<String>) -> (r:
    ThinkingPlan)
    ensures
        r.view() == (if !enabled {
            ThinkingPlan::Off
        } else {
            match manage::opt_text(*model) {
                Some(m) => if judged {
                    ThinkingPlan::Judged { model: m, budget: budget_of(given) }
                } else {
                    ThinkingPlan::Budget(budget_of(given))
                },
                None => ThinkingPlan::Budget(budget_of(given)),
            }
        }),
{
    if !enabled {
        return ThinkingPlan::Off;
    }
    match model {
        Some(m) => if judged {
            ThinkingPlan::Judged { model: copy_text(m), budget: budget(given) }
        } else {
            ThinkingPlan::Budget(budget(given))
        },
        None => ThinkingPlan::Budget(budget(given)),
    }
}

/// How many tokens a sub-agent may think: as many as its parent, if it takes after it.
pub fn sub_thinking(inherit: bool, enabled: bool, given: Option<u32>) -> (r: Option<u32>)
    ensures
        r == (if inherit && enabled {
            Some(budget_of(given))
        } else {
            None
        }),
{
    if inherit && enabled {
        Some(budget(given))
    } else {
        None
    }
}

/// Whether the context is condensed into pictures, which only models that see can read:
/// any model if none is named, else those whose name fits.
pub fn uses_snapshots(asked: bool, patterns: usize, model_fits: bool) -> (r: bool)
    ensures
        r == (asked && (patterns == 0 || model_fits)),
{
    asked && (patterns == 0 || model_fits)
}

/// What is said if the context cannot be condensed into pictures though it was asked for.
pub fn snapshots_refused(model: &str) -> (r: String)
    ensures
        r@ == "[compaction] backend=snapcompact 但模型 "@ + model@
            + " 不匹配 vision_models，回退 summarize"@,
{
    cat(
        &cat("[compaction] backend=snapcompact 但模型 ", model),
        " 不匹配 vision_models，回退 summarize",
    )
}

/// What is said of key bindings that the configuration has wrong.
pub open spec fn binding_lines(
    unknown: Seq<Seq<char>>,
    invalid: Seq<(Seq<char>, Seq<char>)>,
) -> Seq<say::LineView> {
    Seq::new(
        unknown.len(),
        |i: int|
            say::LineView::Text(
                "[keybindings] 未知键位动作 "@ + unknown[i] + "（已忽略）"@,
            ),
    ) + Seq::new(
        invalid.len(),
        |i: int|
            say::LineView::Text(
                "[keybindings] 键位 "@ + invalid[i].0 + " 非法（已回退默认）："@ + invalid[i].1,
            ),
    )
}

pub fn keybinding_notes(unknown: &Vec<String>, invalid: &Vec<(String, String)>) -> (out: Output)
    ensures
        out@ == binding_lines(text::texts(unknown@), manage::pair_texts(invalid@)),
{
    let ghost want = binding_lines(text::texts(unknown@), manage::pair_texts(invalid@));
    let mut out = Output::new();
    let mut i: usize = 0;
    assert(out@ =~= want.take(0));
    while i < unknown.len()
        invariant
            i <= unknown.len(),
            want == binding_lines(text::texts(unknown@), manage::pair_texts(invalid@)),
            out@ == want.take(i as int),
        decreases unknown.len() - i,
    {
        assert(text::texts(unknown@)[i as int] == unknown@[i as int]@);
        out.print(cat(&cat("[keybindings] 未知键位动作 ", &unknown[i]), "（已忽略）"));
        i = i + 1;
        assert(out@ =~= want.take(i as int));
    }
    let mut j: usize = 0;
    while j < invalid.len()
        invariant
            j <= invalid.len(),
            want == binding_lines(text::texts(unknown@), manage::pair_texts(invalid@)),
            out@ == want.take(unknown@.len() + j),
        decreases invalid.len() - j,
    {
        assert(manage::pair_texts(invalid@)[j as int] == (
            invalid@[j as int].0@,
            invalid@[j as int].1@,
        ));
        let head = cat(&cat("[keybindings] 键位 ", &invalid[j].0), " 非法（已回退默认）：");
        out.print(cat(&head, &invalid[j].1));
        j = j + 1;
        assert(out@ =~= want.take(unknown@.len() + j));
    }
    assert(out@ =~= want);
    out
}

// ── Lines ───────────────────────────────────────────────────────────────────

/// What came of reading a line.
#[derive(Debug)]
pub enum ReadEvent {
    /// A message that was queued is next.
    Queued(String),
    Line(String),
    Interrupted,
    Ended,
    Failed(String),
}

/// What a line leads to.
#[derive(Debug)]
pub enum LineStep<S = String> {
    /// Read another one.
    Again,
    Stop,
    Fail(S),
    Command(S),
    /// Send it, with the files that it mentions.
    Task(S),
}

pub type LineView = LineStep<Seq<char>>;

impl LineStep {
    pub open spec fn view(&self) -> LineView {
        match self {
            LineStep::Again => LineStep::Again,
            LineStep::Stop => LineStep::Stop,
            LineStep::Fail(s) => LineStep::Fail(s@),
            LineStep::Command(s) => LineStep::Command(s@),
            LineStep::Task(s) => LineStep::Task(s@),
        }
    }
}

/// What a line leads to: one that begins with a slash is a command.
pub open spec fn typed(line: Seq<char>) -> LineView {
    let t = text::trim(line);
    if t.len() == 0 {
        LineStep::Again
    } else if text::starts_with(t, "/"@) {
        LineStep::Command(t)
    } else {
        LineStep::Task(t)
    }
}

fn typed_of(line: &str) -> (r: LineStep)
    ensures
        r.view() == typed(line@),
{
    let t = trimmed(line);
    if t.as_str().is_empty() {
        LineStep::Again
    } else if has_prefix(&t, "/") {
        LineStep::Command(t)
    } else {
        LineStep::Task(t)
    }
}

/// What reading a line leads to, and what is printed.
pub fn next_line(event: &ReadEvent) -> (r: (LineStep, Output))
    ensures
        match event {
            ReadEvent::Queued(q) => r.0.view() == typed(q@) && r.1@ == say::said(
                say::entry("queue.running_next"@).arg("text"@, queue_cmd::one_line(q@)),
            ),
            ReadEvent::Line(l) => r.0.view() == typed(l@) && r.1@ == say::silence(),
            ReadEvent::Interrupted => r.0 is Again && r.1@ == say::silence(),
            ReadEvent::Ended => r.0 is Stop && r.1@ == say::silence(),
            ReadEvent::Failed(e) => r.0.view() == LineView::Fail(e@) && r.1@ == say::silence(),
        },
{
    match event {
        ReadEvent::Queued(q) => (
            typed_of(q),
            just(msg("queue.running_next").arg("text", &on_one_line(q))),
        ),
        ReadEvent::Line(l) => (typed_of(l), Output::new()),
        ReadEvent::Interrupted => (LineStep::Again, Output::new()),
        ReadEvent::Ended => (LineStep::Stop, Output::new()),
        ReadEvent::Failed(e) => (LineStep::Fail(copy_text(e)), Output::new()),
    }
}

/// What is said of a mentioned file that cannot be read.
pub fn mention_failed(path: &str, error: &str) -> (r: String)
    ensures
        r@ == "@file "@ + path@ + " 读取失败，已跳过："@ + error@,
{
    cat(&cat(&cat("@file ", path), " 读取失败，已跳过："), error)
}

// ── Commands ────────────────────────────────────────────────────────────────

/// What can be changed while the program runs.
#[derive(Debug)]
pub struct Runtime {
    pub mode: Mode,
    pub github_enabled: bool,
    pub github_allow_write: bool,
    /// Which groups of tools are on.
    pub tools: Vec<(String, bool)>,
}

#[verifier::ext_equal]
pub struct RuntimeView {
    pub mode: Mode,
    pub github_enabled: bool,
    pub github_allow_write: bool,
    pub tools: Seq<(Seq<char>, bool)>,
}

pub open spec fn switches(v: Seq<(String, bool)>) -> Seq<(Seq<char>, bool)> {
    Seq::new(v.len(), |i: int| (v[i].0@, v[i].1))
}

impl View for Runtime {
    type V = RuntimeView;

    open spec fn view(&self) -> RuntimeView {
        RuntimeView {
            mode: self.mode,
            github_enabled: self.github_enabled,
            github_allow_write: self.github_allow_write,
            tools: switches(self.tools@),
        }
    }
}

/// What the host knows of a command.
#[derive(Clone, Copy, Debug)]
pub struct CommandFacts {
    /// Sub-agents may be used.
    pub subagents: bool,
    /// There is a token for GitHub.
    pub token_set: bool,
}

/// What is done after a command.
#[derive(Debug)]
pub enum Next<S = String> {
    /// Read another line.
    Skip,
    /// Send this.
    Run(S),
    /// Make the agent anew, then read another line.
    Rebuild,
    /// Carry out what the command asks for.
    Work,
    Stop,
}

impl Next {
    pub open spec fn view(&self) -> Next<Seq<char>> {
        match self {
            Next::Skip => Next::Skip,
            Next::Run(s) => Next::Run(s@),
            Next::Rebuild => Next::Rebuild,
            Next::Work => Next::Work,
            Next::Stop => Next::Stop,
        }
    }
}

pub type NextView = Next<Seq<char>>;

/// The name of a mode as it is shown once it is on.
pub open spec fn mode_name(m: Mode) -> Seq<char> {
    match m {
        Mode::Code => "Code"@,
        Mode::Architect => "Architect"@,
        Mode::Ask => "Ask"@,
        Mode::Debug => "Debug"@,
        Mode::Plan => "Plan"@,
    }
}

fn mode_name_of(m: Mode) -> (r: &'static str)
    ensures
        r@ == mode_name(m),
{
    match m {
        Mode::Code => "Code",
        Mode::Architect => "Architect",
        Mode::Ask => "Ask",
        Mode::Debug => "Debug",
        Mode::Plan => "Plan",
    }
}

pub open spec fn plain(s: Seq<char>) -> say::ValView {
    say::ValView::Text(s)
}

/// What is said once GitHub has been switched.
pub open spec fn github_line(on: bool, write: bool, token: bool) -> say::LineView {
    let m = if on {
        say::entry("github.toggle_enabled"@).with(
            "write"@,
            say::entry(
                if write {
                    "github.write_on"@
                } else {
                    "github.write_off"@
                },
            ).val(),
        ).with(
            "token"@,
            say::entry(
                if token {
                    "github.token_set_suffix"@
                } else {
                    "github.token_unset_suffix"@
                },
            ).val(),
        )
    } else {
        say::entry("github.toggle_disabled"@)
    };
    say::LineView::Parts(seq![plain("[github] "@), m.val()])
}

fn github_line_of(on: bool, write: bool, token: bool) -> (out: Output)
    ensures
        out@ == seq![github_line(on, write, token)],
{
    let m = if on {
        let w = if write {
            "github.write_on"
        } else {
            "github.write_off"
        };
        let t = if token {
            "github.token_set_suffix"
        } else {
            "github.token_unset_suffix"
        };
        msg("github.toggle_enabled").with("write", msg(w).val()).with("token", msg(t).val())
    } else {
        msg("github.toggle_disabled")
    };
    let ghost want = github_line(on, write, token);
    let parts = vec![say::Val::Text(copy_text("[github] ")), m.val()];
    assert(say::val_views(parts@) =~= want->Parts_0);
    let mut out = Output::new();
    out.parts(parts);
    assert(out@ =~= seq![want]);
    out
}

/// The switches with one set: in its place, or at the end if it is new.
pub open spec fn switched(v: Seq<(Seq<char>, bool)>, key: Seq<char>, on: bool) -> Seq<
    (Seq<char>, bool),
> {
    let k = switch_at(v, key, 0);
    if k < v.len() {
        v.update(k, (key, on))
    } else {
        v.push((key, on))
    }
}

/// The first switch with this name, not before `i`.
pub open spec fn switch_at(v: Seq<(Seq<char>, bool)>, key: Seq<char>, i: int) -> int
    decreases v.len() - i,
{
    if i >= v.len() || v[i].0 == key {
        i
    } else {
        switch_at(v, key, i + 1)
    }
}

pub open spec fn tool_msg(key: Seq<char>, on: bool) -> say::MsgView {
    say::entry(
        if on {
            "tools.enabled"@
        } else {
            "tools.disabled"@
        },
    ).arg("key"@, key)
}

/// A command is carried out as far as that needs nobody else.
pub open spec fn commanded(
    outcome: CommandOutcome,
    facts: CommandFacts,
    before: RuntimeView,
    after: RuntimeView,
    next: NextView,
    out: Seq<say::LineView>,
) -> bool {
    match outcome {
        CommandOutcome::Handled => next == NextView::Skip && after == before && out
            == say::silence(),
        CommandOutcome::Inject(t) => next == NextView::Run(t@) && after == before && out
            == say::silence(),
        CommandOutcome::Quit => next == NextView::Stop && after == before && out == say::silence(),
        CommandOutcome::SwitchMode(m) => next == NextView::Rebuild && after == (RuntimeView {
            mode: m,
            ..before
        }) && out == say::said(say::entry("mode.switched"@).arg("mode"@, mode_name(m))),
        CommandOutcome::SetGithub { enabled, allow_write } => {
            let write = match allow_write {
                Some(w) => w,
                None => before.github_allow_write,
            };
            &&& next == NextView::Rebuild
            &&& after == (RuntimeView {
                github_enabled: enabled,
                github_allow_write: write,
                ..before
            })
            &&& out == seq![github_line(enabled, write, facts.token_set)]
        },
        CommandOutcome::SetTool { key, enabled } => if key@ == "github"@ {
            &&& next == NextView::Rebuild
            &&& after == (RuntimeView { github_enabled: enabled, ..before })
            &&& out == say::said(tool_msg(key@, enabled))
        } else if repl::tool_groups().contains(key@) {
            &&& next == NextView::Rebuild
            &&& after == (RuntimeView { tools: switched(before.tools, key@, enabled), ..before })
            &&& out == say::said(tool_msg(key@, enabled))
        } else {
            &&& next == NextView::Skip
            &&& after == before
            &&& out == say::said(say::entry("tools.unknown_group"@).arg("key"@, key@))
        },
        CommandOutcome::Swarm(_) => after == before && (if facts.subagents {
            next == NextView::Work && out == say::silence()
        } else {
            next == NextView::Skip && out == say::said(say::entry("swarm.disabled"@))
        }),
        CommandOutcome::Review { .. } => after == before && (if facts.subagents {
            next == NextView::Work && out == say::silence()
        } else {
            next == NextView::Skip && out == seq![
                say::LineView::Text("[review] 子 Agent 已由 [subagent].enabled = false 禁用"@),
            ]
        }),
        _ => next == NextView::Work && after == before && out == say::silence(),
    }
}

impl Runtime {
    fn set_switch(&mut self, key: &str, on: bool)
        ensures
            final(self)@ == (RuntimeView { tools: switched(old(self)@.tools, key@, on), ..old(
                self,
            )@ }),
    {
        let ghost v = switches(self.tools@);
        let mut i: usize = 0;
        while i < self.tools.len()
            invariant
                i <= self.tools.len(),
                *self == *old(self),
                v == switches(self.tools@),
                switch_at(v, key@, 0) == switch_at(v, key@, i as int),
            decreases self.tools.len() - i,
        {
            assert(v[i as int].0 == self.tools@[i as int].0@);
            if same(&self.tools[i].0, key) {
                self.tools.set(i, (copy_text(key), on));
                assert(switches(self.tools@) =~= v.update(i as int, (key@, on)));
                return;
            }
            i = i + 1;
        }
        self.tools.push((copy_text(key), on));
        assert(switches(self.tools@) =~= v.push((key@, on)));
    }

    /// Carries out a command as far as that needs nobody else.
    pub fn command(&mut self, outcome: &CommandOutcome, facts: CommandFacts) -> (r: (Next, Output))
        ensures
            commanded(*outcome, facts, old(self)@, final(self)@, r.0.view(), r.1@),
    {
        match outcome {
            CommandOutcome::Handled => (Next::Skip, Output::new()),
            CommandOutcome::Inject(t) => (Next::Run(copy_text(t)), Output::new()),
            CommandOutcome::Quit => (Next::Stop, Output::new()),
            CommandOutcome::SwitchMode(m) => {
                self.mode = *m;
                (Next::Rebuild, just(msg("mode.switched").arg("mode", mode_name_of(*m))))
            },
            CommandOutcome::SetGithub { enabled, allow_write } => {
                self.github_enabled = *enabled;
                if let Some(w) = allow_write {
                    self.github_allow_write = *w;
                }
                let out = github_line_of(
                    self.github_enabled,
                    self.github_allow_write,
                    facts.token_set,
                );
                (Next::Rebuild, out)
            },
            CommandOutcome::SetTool { key, enabled } => {
                if same(key, "github") {
                    self.github_enabled = *enabled;
                } else if is_known_optional_key(key) {
                    self.set_switch(key, *enabled);
                } else {
                    return (Next::Skip, just(msg("tools.unknown_group").arg("key", key)));
                }
                let m = if *enabled {
                    msg("tools.enabled")
                } else {
                    msg("tools.disabled")
                };
                (Next::Rebuild, just(m.arg("key", key)))
            },
            CommandOutcome::Swarm(_) => if facts.subagents {
                (Next::Work, Output::new())
            } else {
                (Next::Skip, just(msg("swarm.disabled")))
            },
            CommandOutcome::Review { .. } => if facts.subagents {
                (Next::Work, Output::new())
            } else {
                let mut out = Output::new();
                out.print(copy_text("[review] 子 Agent 已由 [subagent].enabled = false 禁用"));
                assert(out@ =~= seq![
                    say::LineView::Text("[review] 子 Agent 已由 [subagent].enabled = false 禁用"@),
                ]);
                (Next::Skip, out)
            },
            _ => (Next::Work, Output::new()),
        }
    }
}

// ── What came of a command ──────────────────────────────────────────────────

/// What came of going back to a session.
#[derive(Debug)]
pub enum ResumeEvent {
    Missing,
    Opened { tokens: u64 },
    Failed(String),
}

pub fn resumed(id: &str, event: &ResumeEvent) -> (m: Msg)
    ensures
        m@ == (match event {
            ResumeEvent::Missing => say::entry("session.not_exist"@).arg("id"@, id@),
            ResumeEvent::Opened { tokens } => say::entry("session.resumed"@).arg("id"@, id@).arg(
                "tokens"@,
                numeral::dec(*tokens as nat),
            ),
            ResumeEvent::Failed(e) => say::entry("session.resume_failed"@).arg("e"@, e@),
        }),
{
    match event {
        ResumeEvent::Missing => msg("session.not_exist").arg("id", id),
        ResumeEvent::Opened { tokens } => msg("session.resumed").arg("id", id).arg(
            "tokens",
            &dec_text(*tokens),
        ),
        ResumeEvent::Failed(e) => msg("session.resume_failed").arg("e", e),
    }
}

/// What is said once a new session was to be begun.
pub fn fresh(id: &str, failed: &Option<String>) -> (m: Msg)
    ensures
        m@ == (match manage::opt_text(*failed) {
            None => say::entry("session.fresh"@).arg("id"@, id@),
            Some(e) => say::entry("session.fresh_failed"@).arg("e"@, e),
        }),
{
    match failed {
        None => msg("session.fresh").arg("id", id),
        Some(e) => msg("session.fresh_failed").arg("e", e),
    }
}

/// How many times a message is removed at most.
pub const MAX_REMOVALS: u32 = 10000;

/// The clearing of the context: messages are removed from the front until none is left.
#[derive(Debug)]
pub struct Clearing {
    pub removed: u128,
    /// How many times it was tried.
    pub tries: u32,
}

/// What is said once the context has been cleared.
pub open spec fn cleared(removed: nat, session: Seq<char>) -> Seq<char> {
    "已清空上下文（"@ + numeral::dec(removed) + " 条消息；会话 "@ + session
        + " 保留，历史文件未删）"@
}

impl Clearing {
    pub fn new() -> (c: Clearing)
        ensures
            c.removed == 0,
            c.tries == 0,
    {
        Clearing { removed: 0, tries: 0 }
    }

    /// Takes how many messages a removal removed. Gives what is printed once it is over;
    /// until that, a message is to be removed again.
    pub fn step(&mut self, result: &Result<usize, String>, session: &str) -> (r: Option<Output>)
        requires
            old(self).tries < MAX_REMOVALS,
            old(self).removed <= old(self).tries * usize::MAX,
        ensures
            final(self).tries == old(self).tries + 1,
            final(self).removed <= final(self).tries * usize::MAX,
            match result {
                Ok(n) => {
                    &&& final(self).removed == old(self).removed + *n
                    &&& if *n == 0 || final(self).tries == MAX_REMOVALS {
                        r matches Some(o) && o@ == seq![
                            say::LineView::Text(cleared(final(self).removed as nat, session@)),
                        ]
                    } else {
                        r is None
                    }
                },
                Err(e) => {
                    &&& final(self).removed == old(self).removed
                    &&& r matches Some(o) && o@ == seq![
                        say::LineView::Text("清空上下文失败："@ + e@),
                        say::LineView::Text(cleared(old(self).removed as nat, session@)),
                    ]
                },
            },
    {
        assert(self.tries * usize::MAX + usize::MAX == (self.tries + 1) * usize::MAX)
            by (nonlinear_arith);
        assert(self.tries * usize::MAX <= 10000 * usize::MAX) by (nonlinear_arith)
            requires
                self.tries < 10000,
        ;
        self.tries = self.tries + 1;
        let mut out = Output::new();
        match result {
            Ok(n) => {
                self.removed = self.removed + *n as u128;
                if *n != 0 && self.tries < MAX_REMOVALS {
                    return None;
                }
            },
            Err(e) => {
                out.print(cat("清空上下文失败：", e));
            },
        }
        let head = cat(&cat("已清空上下文（", &dec_wide(self.removed)), " 条消息；会话 ");
        let line = cat(&cat(&head, session), " 保留，历史文件未删）");
        out.print(line);
        proof {
            let last = say::LineView::Text(cleared(self.removed as nat, session@));
            if let Err(e) = result {
                assert(out@ =~= seq![say::LineView::Text("清空上下文失败："@ + e@), last]);
            } else {
                assert(out@ =~= seq![last]);
            }
        }
        Some(out)
    }
}

/// What the last thing that the user said leads to: it is sent again, if there is one.
pub fn retry(last: &Option<String>) -> (r: (Next, Msg))
    ensures
        match manage::opt_text(*last) {
            Some(t) => r.0.view() == NextView::Run(t) && r.1@ == say::entry("retry.reusing"@),
            None => r.0.view() == NextView::Skip && r.1@ == say::entry("retry.none"@),
        },
{
    match last {
        Some(t) => (Next::Run(copy_text(t)), msg("retry.reusing")),
        None => (Next::Skip, msg("retry.none")),
    }
}

/// What a server's prompt leads to: it is sent, or the error is printed.
pub fn prompt_fetched(result: &Result<String, String>) -> (r: (Next, Output))
    ensures
        match result {
            Ok(t) => r.0.view() == NextView::Run(t@) && r.1@ == say::silence(),
            Err(e) => r.0.view() == NextView::Skip && r.1@ == seq![say::LineView::Text(e@)],
        },
{
    match result {
        Ok(t) => (Next::Run(copy_text(t)), Output::new()),
        Err(e) => {
            let mut out = Output::new();
            out.print(copy_text(e));
            assert(out@ =~= seq![say::LineView::Text(e@)]);
            (Next::Skip, out)
        },
    }
}

/// A picture as a message: the picture, and the text unless it is empty.
pub fn picture_message(image: UserContent, prompt: &str) -> (r: Vec<UserContent>)
    ensures
        r@.len() == (if prompt@.len() == 0 {
            1nat
        } else {
            2nat
        }),
        r@[0] == image,
        prompt@.len() > 0 ==> (r@[1] matches UserContent::Text { text } && text@ == prompt@),
{
    let mut r = vec![image];
    if !prompt.is_empty() {
        r.push(UserContent::Text { text: copy_text(prompt) });
    }
    r
}

/// What came of going to another branch.
#[derive(Debug)]
pub enum BranchEvent {
    /// No node, or more than one, has the name that was typed.
    NoTarget { typed: String },
    Switched { target: String },
    Missing { target: String },
    Failed { error: String },
}

pub fn branch_switched(event: &BranchEvent) -> (m: Msg)
    ensures
        m@ == (match event {
            BranchEvent::NoTarget { typed } => say::entry("tree.switch_failed"@).arg(
                "reason"@,
                "节点不存在或前缀歧义: "@ + typed@,
            ),
            BranchEvent::Switched { target } => say::entry("tree.switched"@).arg("node"@, target@),
            BranchEvent::Missing { target } => say::entry("tree.switch_failed"@).arg(
                "reason"@,
                "节点不存在: "@ + target@,
            ),
            BranchEvent::Failed { error } => say::entry("tree.switch_failed"@).arg(
                "reason"@,
                error@,
            ),
        }),
{
    match event {
        BranchEvent::NoTarget { typed } => msg("tree.switch_failed").arg(
            "reason",
            &cat("节点不存在或前缀歧义: ", typed),
        ),
        BranchEvent::Switched { target } => msg("tree.switched").arg("node", target),
        BranchEvent::Missing { target } => msg("tree.switch_failed").arg(
            "reason",
            &cat("节点不存在: ", target),
        ),
        BranchEvent::Failed { error } => msg("tree.switch_failed").arg("reason", error),
    }
}

/// A model that a provider offers.
#[derive(Debug)]
pub struct OfferedModel {
    pub id: String,
    pub owner: Option<String>,
}

pub open spec fn offered_line(m: OfferedModel) -> say::LineView {
    say::LineView::Text(
        "  "@ + m.id@ + (match manage::opt_text(m.owner) {
            Some(o) => "  ("@ + o + ")"@,
            None => Seq::empty(),
        }),
    )
}

/// What is printed of the models that a provider offers.
pub open spec fn offered_lines(
    source: Seq<char>,
    r: Result<Vec<OfferedModel>, String>,
) -> Seq<say::LineView> {
    match r {
        Ok(v) => if v@.len() == 0 {
            say::said(say::entry("models.empty"@))
        } else {
            say::said(say::entry("models.title"@).arg("source"@, source)) + Seq::new(
                v@.len(),
                |i: int| offered_line(v@[i]),
            )
        },
        Err(e) => say::said(say::entry("models.failed"@).arg("reason"@, e@)),
    }
}

pub fn print_offered(api: &str, base_url: &str, r: &Result<Vec<OfferedModel>, String>) -> (out: Output)
    ensures
        out@ == offered_lines(api@ + " @ "@ + base_url@, *r),
{
    let v = match r {
        Ok(v) => v,
        Err(e) => {
            return just(msg("models.failed").arg("reason", e));
        },
    };
    if v.len() == 0 {
        return just(msg("models.empty"));
    }
    let source = cat(&cat(api, " @ "), base_url);
    let ghost want = offered_lines(source@, *r);
    let mut out = just(msg("models.title").arg("source", &source));
    let mut i: usize = 0;
    assert(out@ =~= want.take(1));
    while i < v.len()
        invariant
            i <= v.len(),
            v.len() > 0,
            *r == Result::<Vec<OfferedModel>, String>::Ok(*v),
            want == offered_lines(source@, *r),
            out@ == want.take(1 + i),
        decreases v.len() - i,
    {
        let owner = match &v[i].owner {
            Some(o) => cat(&cat("  (", o), ")"),
            None => String::new(),
        };
        out.print(cat(&cat("  ", &v[i].id), &owner));
        i = i + 1;
        assert(out@ =~= want.take(1 + i));
    }
    assert(out@ =~= want);
    out
}

/// What is printed of a draft that was to be made better: on the standard output, or, if
/// it failed, on the other one.
pub fn enhanced(result: &Result<String, String>) -> (r: Result<String, String>)
    ensures
        match result {
            Ok(t) => r matches Ok(s) && s@ == "✨ Enhanced:\n"@ + t@,
            Err(e) => r matches Err(s) && s@ == "✨ 增强失败："@ + e@,
        },
{
    match result {
        Ok(t) => Ok(cat("✨ Enhanced:\n", t)),
        Err(e) => Err(cat("✨ 增强失败：", e)),
    }
}

/// A file that may be meant.
#[derive(Debug)]
pub struct Suggestion {
    pub path: String,
    /// How well it fits, with one place.
    pub score: String,
    pub reason: String,
}

pub open spec fn suggestion_line(s: Suggestion) -> say::LineView {
    say::LineView::Text(
        "  "@ + text::pad_right(s.path@, 40) + " "@ + s.score@ + "  "@ + s.reason@,
    )
}

pub open spec fn suggestion_lines(v: Seq<Suggestion>) -> Seq<say::LineView> {
    Seq::new(v.len(), |i: int| suggestion_line(v[i]))
}

/// What is printed of the files that may be meant: a line for each on the standard output, or,
/// if there is none, one on the other.
pub fn suggested(query: &str, v: &Vec<Suggestion>) -> (r: Result<Output, String>)
    ensures
        match r {
            Ok(out) => v.len() > 0 && out@ == suggestion_lines(v@),
            Err(s) => v.len() == 0 && s@ == "未找到与「"@ + query@ + "」相关的文件"@,
        },
{
    if v.len() == 0 {
        return Err(cat(&cat("未找到与「", query), "」相关的文件"));
    }
    let mut out = Output::new();
    let mut i: usize = 0;
    assert(out@ =~= suggestion_lines(v@).take(0));
    while i < v.len()
        invariant
            i <= v.len(),
            out@ == suggestion_lines(v@).take(i as int),
        decreases v.len() - i,
    {
        let head = cat(&cat("  ", &padded_right(&v[i].path, 40)), " ");
        out.print(cat(&cat(&cat(&head, &v[i].score), "  "), &v[i].reason));
        i = i + 1;
        assert(out@ =~= suggestion_lines(v@).take(i as int));
    }
    assert(out@ =~= suggestion_lines(v@));
    Ok(out)
}

// ── What holds of every run ─────────────────────────────────────────────────

/// The protocol of lines never shares the standard streams with another way to run.
pub proof fn rpc_runs_alone(f: Flags, bind: Seq<char>)
    ensures
        run_mode_of(f, bind) is Rpc ==> f.rpc && !f.acp && f.serve is None,
        f.rpc ==> run_mode_of(f, bind) is Rpc || run_mode_of(f, bind) is Refused,
{
}

/// What the command line says of when a person is asked goes before everything else.
pub proof fn approval_flag_wins(
    flag: Seq<char>,
    a: Option<ApprovalMode>,
    b: ApprovalMode,
    c: Option<ApprovalMode>,
    d: ApprovalMode,
)
    ensures
        approval_of(Some(flag), a, b) == approval_of(Some(flag), c, d),
{
}

/// After a group of tools has been switched it is as it was set, and every other group is
/// as it was.
pub proof fn switch_sets_one(v: Seq<(Seq<char>, bool)>, key: Seq<char>, on: bool)
    ensures
        ({
            let w = switched(v, key, on);
            let k = switch_at(v, key, 0);
            &&& 0 <= k < w.len()
            &&& w[k] == (key, on)
            &&& forall|i: int| 0 <= i < v.len() && i != k ==> #[trigger] w[i] == v[i]
            &&& w.len() <= v.len() + 1
        }),
{
    switch_at_in_range(v, key, 0);
}

proof fn switch_at_in_range(v: Seq<(Seq<char>, bool)>, key: Seq<char>, i: int)
    requires
        0 <= i <= v.len(),
    ensures
        i <= switch_at(v, key, i) <= v.len(),
    decreases v.len() - i,
{
    if i < v.len() && v[i].0 != key {
        switch_at_in_range(v, key, i + 1);
    }
}

/// Of what can be changed while the program runs, a command changes only what it is about.
pub proof fn commands_change_little(
    outcome: CommandOutcome,
    facts: CommandFacts,
    before: RuntimeView,
    after: RuntimeView,
    next: NextView,
    out: Seq<say::LineView>,
)
    requires
        commanded(outcome, facts, before, after, next, out),
    ensures
        after.mode != before.mode ==> outcome is SwitchMode,
        after.tools != before.tools ==> outcome is SetTool,
        after.github_allow_write != before.github_allow_write ==> outcome is SetGithub,
        after != before ==> next is Rebuild,
{
}

} // verus!
