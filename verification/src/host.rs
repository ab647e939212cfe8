//! What a session says as it starts and as work goes on around it: changes, groups of
//! agents, rules, skills, proxies, memory.
use vstd::prelude::*;

use crate::keybindings::Action;
use crate::numeral;
use crate::numeral::{dec_text, dec_usize};
use crate::pieces;
use crate::pieces::{join_of, lines_of};
use crate::say;
use crate::say::{just, msg, Msg, Output, Val};
use crate::text;
use crate::text::{cat, chars_of, contains_char, copy_text, same};

verus! {

// ── Numbers with a sign ─────────────────────────────────────────────────────

pub open spec fn signed(n: int) -> Seq<char> {
    if n < 0 {
        "-"@ + numeral::dec((-n) as nat)
    } else {
        numeral::dec(n as nat)
    }
}

fn signed_text(n: i32) -> (r: String)
    ensures
        r@ == signed(n as int),
{
    let wide: i64 = n as i64;
    if wide < 0 {
        cat("-", &dec_text((-wide) as u64))
    } else {
        dec_text(wide as u64)
    }
}

// ── Changes ─────────────────────────────────────────────────────────────────

/// How a run of `git` went.
#[derive(Debug)]
pub enum GitRun {
    Printed(String),
    Failed { code: Option<i32>, stderr: String },
    NotStarted(String),
}

/// How many lines of a diff are shown.
pub const MAX_SHOWN_LINES: usize = 300;

/// The arguments of `git` for `/diff`.
pub open spec fn diff_args(staged: bool, name: Option<Seq<char>>) -> Seq<Seq<char>> {
    seq!["diff"@] + (if staged {
        seq!["--cached"@]
    } else {
        Seq::empty()
    }) + (match name {
        Some(n) => seq![n],
        None => Seq::empty(),
    })
}

pub fn git_diff_args(staged: bool, ref_name: &Option<String>) -> (r: Vec<String>)
    ensures
        text::texts(r@) == diff_args(staged, crate::session::opt_text(*ref_name)),
{
    let mut r: Vec<String> = vec![copy_text("diff")];
    if staged {
        r.push(copy_text("--cached"));
    }
    if let Some(n) = ref_name {
        r.push(copy_text(n));
    }
    assert(text::texts(r@) =~= diff_args(staged, crate::session::opt_text(*ref_name)));
    r
}

/// A text, cut where it has too many lines.
pub open spec fn shortened(s: Seq<char>) -> Seq<char> {
    let lines = pieces::lines(s);
    if lines.len() > MAX_SHOWN_LINES {
        pieces::join(lines.take(MAX_SHOWN_LINES as int), "\n"@) + "\n… [diff 过长，已截断 "@
            + numeral::dec((lines.len() - MAX_SHOWN_LINES) as nat)
            + " 行；可用完整命令重跑] …"@
    } else {
        s
    }
}

/// What `/diff` shows of a run of `git`.
pub open spec fn shown_diff(run: GitRun) -> Seq<char> {
    match run {
        GitRun::Printed(out) => shortened(out@),
        GitRun::Failed { code, stderr } => if code == Some(128i32) {
            "当前目录不是 git 仓库（git diff 退出码 128）"@
        } else {
            shortened(
                "git diff 失败（exit "@ + signed(
                    match code {
                        Some(c) => c as int,
                        None => -1,
                    },
                ) + "）: "@ + stderr@,
            )
        },
        GitRun::NotStarted(e) => "无法执行 git: "@ + e@,
    }
}

fn shorten(s: &str) -> (r: String)
    ensures
        r@ == shortened(s@),
{
    let lines = lines_of(s);
    let ghost lv = pieces::lines(s@);
    assert(lv.len() == lines.len());
    if lines.len() <= MAX_SHOWN_LINES {
        return copy_text(s);
    }
    let mut head: Vec<String> = Vec::new();
    let mut i: usize = 0;
    assert(text::texts(head@) =~= lv.take(0));
    while i < MAX_SHOWN_LINES
        invariant
            i <= MAX_SHOWN_LINES < lines.len(),
            lv == text::texts(lines@),
            text::texts(head@) == lv.take(i as int),
        decreases MAX_SHOWN_LINES - i,
    {
        let l = copy_text(&lines[i]);
        proof {
            text::lemma_texts_push(head@, l);
        }
        head.push(l);
        i = i + 1;
        assert(text::texts(head@) =~= lv.take(i as int));
    }
    let t = cat(&join_of(&head, "\n"), "\n… [diff 过长，已截断 ");
    let t = cat(&t, &dec_usize(lines.len() - MAX_SHOWN_LINES));
    cat(&t, " 行；可用完整命令重跑] …")
}

/// What `/diff` shows, given how `git` ran.
pub fn run_git_diff(run: &GitRun) -> (r: String)
    ensures
        r@ == shown_diff(*run),
{
    match run {
        GitRun::Printed(out) => shorten(out),
        GitRun::Failed { code, stderr } => {
            let c: i32 = match code {
                Some(c) => *c,
                None => -1,
            };
            if c == 128 {
                return copy_text("当前目录不是 git 仓库（git diff 退出码 128）");
            }
            let t = cat("git diff 失败（exit ", &signed_text(c));
            shorten(&cat(&cat(&t, "）: "), stderr))
        },
        GitRun::NotStarted(e) => cat("无法执行 git: ", e),
    }
}

/// A diff that is short enough is shown as it is.
pub proof fn shown_diff_keeps_short_texts(out: String)
    requires
        pieces::lines(out@).len() <= MAX_SHOWN_LINES,
    ensures
        shown_diff(GitRun::Printed(out)) == out@,
{
}

// ── Groups of agents ────────────────────────────────────────────────────────

/// A run of an agent of a group.
#[derive(Debug)]
pub struct AgentRun {
    pub exit_code: i32,
    pub output: String,
    pub error: Option<String>,
}

/// How a group of agents has worked.
#[derive(Debug)]
pub struct PipelineResult {
    pub status: String,
    pub iterations: u64,
    /// The agents with their runs.
    pub agent_results: Vec<(String, Vec<AgentRun>)>,
    pub errors: Vec<String>,
}

/// How the last run of an agent went.
pub open spec fn run_summary(runs: Seq<AgentRun>) -> say::ValView {
    if runs.len() == 0 {
        say::entry("swarm.not_run"@).val()
    } else {
        let r = runs.last();
        if r.exit_code == 0 {
            say::entry("swarm.output_chars"@).arg("n"@, numeral::dec(r.output@.len())).val()
        } else {
            say::entry("swarm.failed_short"@).with(
                "e"@,
                match r.error {
                    Some(e) => say::ValView::Text(e@),
                    None => say::entry("swarm.failed_default"@).val(),
                },
            ).val()
        }
    }
}

pub open spec fn agent_line(a: (String, Vec<AgentRun>)) -> say::LineView {
    say::LineView::Msg(
        say::entry("swarm.agent_line"@).arg("name"@, a.0@).arg(
            "rounds"@,
            numeral::dec(a.1@.len()),
        ).with("summary"@, run_summary(a.1@)),
    )
}

pub open spec fn agent_lines(a: Seq<(String, Vec<AgentRun>)>, n: int) -> Seq<say::LineView>
    decreases n,
{
    if n <= 0 {
        Seq::empty()
    } else {
        agent_lines(a, n - 1).push(agent_line(a[n - 1]))
    }
}

pub open spec fn pipeline_lines(r: PipelineResult) -> Seq<say::LineView> {
    say::said(
        say::entry("swarm.result_summary"@).arg("status"@, r.status@).arg(
            "iters"@,
            numeral::dec(r.iterations as nat),
        ).arg("agents"@, numeral::dec(r.agent_results@.len())),
    ) + agent_lines(r.agent_results@, r.agent_results@.len() as int) + (if r.errors@.len() == 0 {
        Seq::empty()
    } else {
        say::said(
            say::entry("swarm.errors"@).arg(
                "errors"@,
                pieces::join(text::texts(r.errors@), "; "@),
            ),
        )
    })
}

fn run_summary_of(runs: &Vec<AgentRun>) -> (v: Val)
    ensures
        v.view() == run_summary(runs@),
{
    if runs.len() == 0 {
        return msg("swarm.not_run").val();
    }
    let r = &runs[runs.len() - 1];
    if r.exit_code == 0 {
        let n: usize = chars_of(&r.output).len();
        msg("swarm.output_chars").arg("n", &dec_usize(n)).val()
    } else {
        let e = match &r.error {
            Some(e) => Val::Text(copy_text(e)),
            None => msg("swarm.failed_default").val(),
        };
        msg("swarm.failed_short").with("e", e).val()
    }
}

pub fn print_swarm_result(result: &PipelineResult) -> (out: Output)
    ensures
        out@ == pipeline_lines(*result),
{
    let a = &result.agent_results;
    let mut out = just(
        msg("swarm.result_summary").arg("status", &result.status).arg(
            "iters",
            &dec_text(result.iterations),
        ).arg("agents", &dec_usize(a.len())),
    );
    let ghost head = out@;
    let mut i: usize = 0;
    assert(out@ =~= head + agent_lines(a@, 0));
    while i < a.len()
        invariant
            i <= a.len(),
            out@ == head + agent_lines(a@, i as int),
        decreases a.len() - i,
    {
        out.say(
            msg("swarm.agent_line").arg("name", &a[i].0).arg("rounds", &dec_usize(a[i].1.len())).with(
                "summary",
                run_summary_of(&a[i].1),
            ),
        );
        i = i + 1;
        assert(out@ =~= head + agent_lines(a@, i as int));
    }
    if result.errors.len() > 0 {
        out.say(msg("swarm.errors").arg("errors", &join_of(&result.errors, "; ")));
    }
    assert(out@ =~= pipeline_lines(*result));
    out
}

/// What happens while a group of agents works.
#[derive(Debug)]
pub enum SwarmEvent {
    /// Its definition could not be read.
    ReadFailed(String),
    Starting,
    Progress { name: String, note: String },
    Finished(PipelineResult),
    Failed(String),
}

pub open spec fn swarm_lines(target: Seq<char>, e: SwarmEvent) -> Seq<say::LineView> {
    match e {
        SwarmEvent::ReadFailed(x) => say::said(
            say::entry("swarm.read_failed"@).arg("target"@, target).arg("e"@, x@),
        ),
        SwarmEvent::Starting => say::said(say::entry("swarm.starting"@).arg("target"@, target)),
        SwarmEvent::Progress { name, note } => say::said(
            say::entry("swarm.progress"@).arg("name"@, name@).arg("msg"@, note@),
        ),
        SwarmEvent::Finished(r) => pipeline_lines(r),
        SwarmEvent::Failed(x) => say::said(say::entry("swarm.run_failed"@).arg("e"@, x@)),
    }
}

/// `/swarm <file>`: what is said of each event.
pub fn run_swarm_yaml(target: &str, event: &SwarmEvent) -> (out: Output)
    ensures
        out@ == swarm_lines(target@, *event),
{
    match event {
        SwarmEvent::ReadFailed(x) => just(
            msg("swarm.read_failed").arg("target", target).arg("e", x),
        ),
        SwarmEvent::Starting => just(msg("swarm.starting").arg("target", target)),
        SwarmEvent::Progress { name, note } => just(
            msg("swarm.progress").arg("name", name).arg("msg", note),
        ),
        SwarmEvent::Finished(r) => print_swarm_result(r),
        SwarmEvent::Failed(x) => just(msg("swarm.run_failed").arg("e", x)),
    }
}

/// How many agents of a group work at once: as many as asked for, and at least one.
pub fn swarm_width(max_concurrent: usize) -> (r: usize)
    ensures
        r == (if max_concurrent < 1 {
            1
        } else {
            max_concurrent
        }),
{
    if max_concurrent < 1 {
        1
    } else {
        max_concurrent
    }
}

// ── Rules and skills ────────────────────────────────────────────────────────

pub open spec fn is_among(v: Seq<Seq<char>>, s: Seq<char>) -> bool {
    exists|i: int| 0 <= i < v.len() && #[trigger] v[i] == s
}

/// The rules among the first `n` that are not built in.
pub open spec fn own_rules(rules: Seq<Seq<char>>, built_in: Seq<Seq<char>>, n: int) -> Seq<
    Seq<char>,
>
    decreases n,
{
    if n <= 0 {
        Seq::empty()
    } else if is_among(built_in, rules[n - 1]) {
        own_rules(rules, built_in, n - 1)
    } else {
        own_rules(rules, built_in, n - 1).push(rules[n - 1])
    }
}

pub open spec fn rules_line(rules: Seq<Seq<char>>, built_in: Seq<Seq<char>>) -> Seq<char> {
    let own = own_rules(rules, built_in, rules.len() as int);
    if own.len() == 0 {
        "已加载 "@ + numeral::dec(rules.len()) + " 条 TTSR 规则（全部为内置）"@
    } else {
        "已加载 "@ + numeral::dec(rules.len()) + " 条 TTSR 规则（内置 "@ + numeral::dec(
            (rules.len() - own.len()) as nat,
        ) + " 条 + 项目 "@ + numeral::dec(own.len()) + " 条: "@ + pieces::join(own, ", "@) + "）"@
    }
}

fn is_among_of(v: &Vec<String>, s: &str) -> (r: bool)
    ensures
        r == is_among(text::texts(v@), s@),
{
    let ghost vv = text::texts(v@);
    let mut i: usize = 0;
    while i < v.len()
        invariant
            i <= v.len(),
            vv == text::texts(v@),
            forall|j: int| 0 <= j < i ==> #[trigger] vv[j] != s@,
        decreases v.len() - i,
    {
        assert(vv[i as int] == v@[i as int]@);
        if same(&v[i], s) {
            return true;
        }
        i = i + 1;
    }
    false
}

/// Sums up the rules that were loaded: how many, and which of them are the project's own.
pub fn report_ttsr_rules(rules: &Vec<String>, built_in: &Vec<String>) -> (r: String)
    ensures
        r@ == rules_line(text::texts(rules@), text::texts(built_in@)),
{
    let ghost rv = text::texts(rules@);
    let ghost bv = text::texts(built_in@);
    let mut own: Vec<String> = Vec::new();
    let mut i: usize = 0;
    assert(text::texts(own@) =~= own_rules(rv, bv, 0));
    while i < rules.len()
        invariant
            i <= rules.len(),
            rv == text::texts(rules@),
            bv == text::texts(built_in@),
            own.len() <= i,
            text::texts(own@) == own_rules(rv, bv, i as int),
        decreases rules.len() - i,
    {
        assert(rv[i as int] == rules@[i as int]@);
        if !is_among_of(built_in, &rules[i]) {
            let s = copy_text(&rules[i]);
            proof {
                text::lemma_texts_push(own@, s);
            }
            own.push(s);
        }
        i = i + 1;
    }
    assert(text::texts(own@).len() == own.len());
    let head = cat("已加载 ", &dec_usize(rules.len()));
    if own.len() == 0 {
        cat(&head, " 条 TTSR 规则（全部为内置）")
    } else {
        let t = cat(&head, " 条 TTSR 规则（内置 ");
        let t = cat(&cat(&t, &dec_usize(rules.len() - own.len())), " 条 + 项目 ");
        let t = cat(&cat(&t, &dec_usize(own.len())), " 条: ");
        cat(&cat(&t, &join_of(&own, ", ")), "）")
    }
}

/// The skills that were found, or why none could be.
#[derive(Debug)]
pub enum SkillLoad {
    /// Skills are switched off.
    Disabled,
    Loaded { warnings: Vec<String>, names: Vec<String> },
    Failed(String),
}

pub open spec fn skill_load_lines(l: SkillLoad) -> Seq<say::LineView> {
    match l {
        SkillLoad::Disabled => say::silence(),
        SkillLoad::Failed(e) => say::said(say::entry("skill.load_failed"@).arg("e"@, e@)),
        SkillLoad::Loaded { warnings, names } => (if warnings@.len() == 0 {
            Seq::empty()
        } else {
            say::said(
                say::entry("skill.load_warn"@).arg(
                    "warnings"@,
                    pieces::join(text::texts(warnings@), "; "@),
                ),
            )
        }) + (if names@.len() == 0 {
            say::said(say::entry("skill.not_found_msg"@))
        } else {
            say::said(
                say::entry("skill.loaded"@).arg("count"@, numeral::dec(names@.len())).arg(
                    "names"@,
                    pieces::join(text::texts(names@), ", "@),
                ),
            )
        }),
    }
}

/// What is said of the skills that were loaded.
pub fn load_skill_catalog(load: &SkillLoad) -> (out: Output)
    ensures
        out@ == skill_load_lines(*load),
{
    match load {
        SkillLoad::Disabled => Output::new(),
        SkillLoad::Failed(e) => just(msg("skill.load_failed").arg("e", e)),
        SkillLoad::Loaded { warnings, names } => {
            let mut out = Output::new();
            if warnings.len() > 0 {
                out.say(msg("skill.load_warn").arg("warnings", &join_of(warnings, "; ")));
            }
            if names.len() == 0 {
                out.say(msg("skill.not_found_msg"));
            } else {
                out.say(
                    msg("skill.loaded").arg("count", &dec_usize(names.len())).arg(
                        "names",
                        &join_of(names, ", "),
                    ),
                );
            }
            assert(out@ =~= skill_load_lines(*load));
            out
        },
    }
}

// ── Status at the start ─────────────────────────────────────────────────────

/// A proxy: its address without the password, and whether it is used.
#[derive(Debug)]
pub struct ProxyStatus {
    pub url: String,
    pub enabled: bool,
}

pub fn print_socks5_status(proxy: &Option<ProxyStatus>) -> (m: Msg)
    ensures
        m@ == (match proxy {
            Some(p) => say::entry("socks5.status"@).arg("url"@, p.url@).with(
                "state"@,
                say::entry(
                    if p.enabled {
                        "socks5.state_enabled"@
                    } else {
                        "socks5.state_disabled"@
                    },
                ).val(),
            ),
            None => say::entry("socks5.status_unconfigured"@),
        }),
{
    match proxy {
        Some(p) => {
            let state = if p.enabled {
                msg("socks5.state_enabled")
            } else {
                msg("socks5.state_disabled")
            };
            msg("socks5.status").arg("url", &p.url).with("state", state.val())
        },
        None => msg("socks5.status_unconfigured"),
    }
}

/// When a person is asked before something is done.
#[derive(Clone, Copy, Debug, PartialEq, Eq, Structural)]
pub enum ApprovalMode {
    AlwaysAsk,
    Write,
    Yolo,
}

pub open spec fn approval_key(m: ApprovalMode) -> Seq<char> {
    match m {
        ApprovalMode::AlwaysAsk => "approval.mode.always-ask"@,
        ApprovalMode::Write => "approval.mode.write"@,
        ApprovalMode::Yolo => "approval.mode.yolo"@,
    }
}

pub fn print_approval_status(mode: ApprovalMode) -> (m: Msg)
    ensures
        m@ == say::entry("approval.status"@).with("mode"@, say::entry(approval_key(mode)).val()),
{
    let key = match mode {
        ApprovalMode::AlwaysAsk => "approval.mode.always-ask",
        ApprovalMode::Write => "approval.mode.write",
        ApprovalMode::Yolo => "approval.mode.yolo",
    };
    msg("approval.status").with("mode", msg(key).val())
}

// ── Condensing the context ──────────────────────────────────────────────────

#[derive(Clone, Copy, Debug, PartialEq, Eq, Structural)]
pub enum CompactionStrategy {
    Shake,
    Summarize { max_tokens: usize },
    Prune { keep_recent: usize },
}

/// The steps of `/compact`, in order.
pub fn compact_context() -> (r: Vec<CompactionStrategy>)
    ensures
        r@ == seq![
            CompactionStrategy::Shake,
            CompactionStrategy::Summarize { max_tokens: 0 },
            CompactionStrategy::Prune { keep_recent: 8 },
        ],
{
    vec![
        CompactionStrategy::Shake,
        CompactionStrategy::Summarize { max_tokens: 0 },
        CompactionStrategy::Prune { keep_recent: 8 },
    ]
}

/// What is said once the context has been condensed.
pub fn compact_done(current: u64, limit: u64) -> (m: Msg)
    ensures
        m@ == say::entry("compact.done"@).arg("current"@, numeral::dec(current as nat)).arg(
            "limit"@,
            numeral::dec(limit as nat),
        ),
{
    msg("compact.done").arg("current", &dec_text(current)).arg("limit", &dec_text(limit))
}

// ── Memory at the end of a task ─────────────────────────────────────────────

/// Whether and how the memory is worked over by a model.
#[derive(Clone, Copy, Debug, PartialEq, Eq, Structural)]
pub enum Consolidation {
    No,
    /// Before going on.
    Now,
    /// While the session goes on.
    Background,
}

/// What is done with the memory when something happens.
#[derive(Clone, Copy, Debug, PartialEq, Eq, Structural)]
pub struct MemoryUpkeep {
    pub consolidation: Consolidation,
    /// Whether what has run out and what is there twice is removed.
    pub cleanup: bool,
}

/// What is done when something happens: only a task that ended well leads to anything.
pub open spec fn upkeep(
    stopped_well: bool,
    auto: bool,
    has_model: bool,
    background: bool,
    structured: bool,
) -> MemoryUpkeep {
    MemoryUpkeep {
        consolidation: if !stopped_well || !auto || !has_model {
            Consolidation::No
        } else if background {
            Consolidation::Background
        } else {
            Consolidation::Now
        },
        cleanup: stopped_well && structured,
    }
}

fn upkeep_of(
    stopped_well: bool,
    auto: bool,
    has_model: bool,
    background: bool,
    structured: bool,
) -> (r: MemoryUpkeep)
    ensures
        r == upkeep(stopped_well, auto, has_model, background, structured),
{
    let consolidation = if !stopped_well || !auto || !has_model {
        Consolidation::No
    } else if background {
        Consolidation::Background
    } else {
        Consolidation::Now
    };
    MemoryUpkeep { consolidation, cleanup: stopped_well && structured }
}

/// Keeps a memory of records in order: at the end of a task that went well it is worked
/// over, if that is wanted and there is a model for it, and then cleaned up.
#[derive(Clone, Copy, Debug, PartialEq, Eq, Structural)]
pub struct StructuredSleepHook {
    pub auto_consolidate: bool,
    pub has_model: bool,
    pub background: bool,
}

impl StructuredSleepHook {
    /// `stopped` tells whether a task has ended, and then whether it went well.
    pub fn on_event(&self, stopped: Option<bool>) -> (r: MemoryUpkeep)
        ensures
            r == upkeep(
                stopped == Some(true),
                self.auto_consolidate,
                self.has_model,
                self.background,
                true,
            ),
    {
        let well = match stopped {
            Some(s) => s,
            None => false,
        };
        upkeep_of(well, self.auto_consolidate, self.has_model, self.background, true)
    }
}

/// Keeps a memory of plain text in order: it is worked over at the end of a task that went
/// well.
#[derive(Clone, Copy, Debug, PartialEq, Eq, Structural)]
pub struct ConsolidateHook {
    pub auto_consolidate: bool,
    pub background: bool,
}

impl ConsolidateHook {
    /// `stopped` tells whether a task has ended, and then whether it went well.
    pub fn on_event(&self, stopped: Option<bool>) -> (r: MemoryUpkeep)
        ensures
            r == upkeep(
                stopped == Some(true),
                self.auto_consolidate,
                true,
                self.background,
                false,
            ),
    {
        let well = match stopped {
            Some(s) => s,
            None => false,
        };
        upkeep_of(well, self.auto_consolidate, true, self.background, false)
    }
}

/// A task that failed, or anything else than the end of a task, leaves the memory alone.
pub proof fn failure_leaves_memory_alone(h: StructuredSleepHook, c: ConsolidateHook)
    ensures
        upkeep(false, h.auto_consolidate, h.has_model, h.background, true) == (MemoryUpkeep {
            consolidation: Consolidation::No,
            cleanup: false,
        }),
        upkeep(false, c.auto_consolidate, true, c.background, false) == (MemoryUpkeep {
            consolidation: Consolidation::No,
            cleanup: false,
        }),
{
}

// ── Prompts, keys and tools ─────────────────────────────────────────────────

/// Whether a value is a text rather than the name of a file: it has more than one line.
pub fn is_literal_prompt(value: &str) -> (r: bool)
    ensures
        r == text::has_char(value@, '\n'),
{
    contains_char(value, '\n')
}

/// The text of a prompt that is given as a text or as the name of a file; `file` is what
/// the file of that name holds, if it can be read.
pub fn resolve_prompt_input(value: &str, file: &Option<String>) -> (r: String)
    ensures
        r@ == (if text::has_char(value@, '\n') || file is None {
            value@
        } else {
            file->0@
        }),
{
    if is_literal_prompt(value) {
        return copy_text(value);
    }
    match file {
        Some(t) => copy_text(t),
        None => copy_text(value),
    }
}

/// What a key does while a line is edited.
#[derive(Clone, Copy, Debug, PartialEq, Eq)]
pub enum KeyCommand {
    ClearScreen,
    SearchHistory,
    Complete,
    /// Types the first waiting message.
    Dequeue,
    /// Types the text of the action.
    Insert(&'static str),
    /// Nothing: the key is dealt with elsewhere.
    Elsewhere,
}

/// What a key that is bound to an action does while a line is edited.
pub fn apply_keybindings(action: Action) -> (r: KeyCommand)
    ensures
        match action {
            Action::Clear => r is ClearScreen,
            Action::HistorySearch => r is SearchHistory,
            Action::Complete => r is Complete,
            Action::Dequeue => r is Dequeue,
            Action::Interrupt => r is Elsewhere,
            Action::Exit => r is Elsewhere,
            _ => r matches KeyCommand::Insert(t) && crate::keybindings::inserted(action) == Some(
                t@,
            ),
        },
{
    match action {
        Action::Clear => KeyCommand::ClearScreen,
        Action::HistorySearch => KeyCommand::SearchHistory,
        Action::Complete => KeyCommand::Complete,
        Action::Dequeue => KeyCommand::Dequeue,
        Action::Interrupt => KeyCommand::Elsewhere,
        Action::Exit => KeyCommand::Elsewhere,
        _ => match action.inserts() {
            Some(t) => KeyCommand::Insert(t),
            None => KeyCommand::Elsewhere,
        },
    }
}

/// The files that go into the context: the given ones and those of the tools that are on.
pub fn optional_context_files(base: &Vec<String>, sections: &Vec<String>) -> (r: Vec<String>)
    ensures
        text::texts(r@) == text::texts(base@) + text::texts(sections@),
{
    let mut r: Vec<String> = Vec::new();
    let mut i: usize = 0;
    assert(text::texts(r@) =~= text::texts(base@).take(0));
    while i < base.len()
        invariant
            i <= base.len(),
            text::texts(r@) == text::texts(base@).take(i as int),
        decreases base.len() - i,
    {
        let s = copy_text(&base[i]);
        proof {
            text::lemma_texts_push(r@, s);
        }
        r.push(s);
        i = i + 1;
        assert(text::texts(r@) =~= text::texts(base@).take(i as int));
    }
    assert(text::texts(r@) =~= text::texts(base@) + text::texts(sections@).take(0));
    let mut j: usize = 0;
    while j < sections.len()
        invariant
            j <= sections.len(),
            text::texts(r@) == text::texts(base@) + text::texts(sections@).take(j as int),
        decreases sections.len() - j,
    {
        let s = copy_text(&sections[j]);
        proof {
            text::lemma_texts_push(r@, s);
        }
        r.push(s);
        j = j + 1;
        assert(text::texts(r@) =~= text::texts(base@) + text::texts(sections@).take(j as int));
    }
    assert(text::texts(sections@).take(j as int) =~= text::texts(sections@));
    r
}

/// Where a tool is found once another one has been added to those there are: the added one
/// by its name, every other as before.
#[derive(Debug, PartialEq, Eq)]
pub enum ToolPlace {
    Added,
    Inner,
}

/// The names of the tools there are, and one more.
#[derive(Debug)]
pub struct WithEval {
    pub inner: Vec<String>,
    pub eval: String,
}

impl WithEval {
    /// The names of all the tools, the added one last.
    pub fn specs(&self) -> (r: Vec<String>)
        ensures
            text::texts(r@) == text::texts(self.inner@).push(self.eval@),
    {
        let mut r = optional_context_files(&self.inner, &Vec::new());
        assert(text::texts(r@) =~= text::texts(self.inner@));
        let s = copy_text(&self.eval);
        proof {
            text::lemma_texts_push(r@, s);
        }
        r.push(s);
        r
    }

    pub fn get(&self, name: &str) -> (r: Option<ToolPlace>)
        ensures
            if name@ == self.eval@ {
                r == Some(ToolPlace::Added)
            } else if is_among(text::texts(self.inner@), name@) {
                r == Some(ToolPlace::Inner)
            } else {
                r is None
            },
    {
        if same(name, &self.eval) {
            Some(ToolPlace::Added)
        } else if is_among_of(&self.inner, name) {
            Some(ToolPlace::Inner)
        } else {
            None
        }
    }
}

// ── What is shown ───────────────────────────────────────────────────────────

/// Of a diff that is too long the first three hundred lines are shown, as they are and in order,
/// and how many were left out is said behind them.
pub proof fn long_diffs_show_their_first_lines(v: Seq<Seq<char>>, out: String) -> (r: Seq<char>)
    requires
        v.len() > 300,
        forall|i: int| 0 <= i < v.len() ==> pieces::is_line(#[trigger] v[i]),
        out@ == pieces::with_line_feeds(v),
    ensures
        shown_diff(GitRun::Printed(out)) == pieces::with_line_feeds(v.take(300)) + r,
        text::holds_in_order(r, seq![numeral::dec((v.len() - 300) as nat)]),
{
    pieces::lines_read_back(v, Seq::empty());
    let w = v.take(300);
    pieces::joined_with_feeds(w);
    reveal_strlit("\n");
    assert("\n"@ =~= seq!['\n']);
    let note = "\n… [diff 过长，已截断 "@;
    let end = " 行；可用完整命令重跑] …"@;
    let d = numeral::dec((v.len() - 300) as nat);
    reveal_strlit("\n… [diff 过长，已截断 ");
    let r = note.skip(1) + d + end;
    assert(note =~= seq!['\n'] + note.skip(1));
    let j = pieces::join(w, "\n"@);
    assert(shown_diff(GitRun::Printed(out)) == j + note + d + end);
    assert(j + note + d + end =~= (j + seq!['\n']) + r);
    text::a_text_holds_itself(note.skip(1), d, end);
    r
}

/// Every agent of a group has a line, in order, with its name, how often it ran and how its
/// last run went.
pub proof fn every_agent_has_a_line(r: PipelineResult, i: int)
    requires
        0 <= i < r.agent_results@.len(),
    ensures
        pipeline_lines(r).len() == r.agent_results@.len() + (if r.errors@.len() == 0 {
            1int
        } else {
            2
        }),
        ({
            let a = r.agent_results@[i];
            match pipeline_lines(r)[i + 1] {
                say::LineView::Msg(m) => {
                    &&& m.args.len() == 3
                    &&& m.args[0].1 == say::ValView::Text(a.0@)
                    &&& m.args[1].1 == say::ValView::Text(numeral::dec(a.1@.len()))
                    &&& a.1@.len() > 0 && a.1@.last().exit_code == 0 ==> match m.args[2].1 {
                        say::ValView::Entry(_, x) => x.len() == 1 && x[0].1 == say::ValView::Text(
                            numeral::dec(a.1@.last().output@.len()),
                        ),
                        _ => false,
                    }
                    &&& a.1@.len() > 0 && a.1@.last().exit_code != 0 && a.1@.last().error is Some
                        ==> match m.args[2].1 {
                        say::ValView::Entry(_, x) => x.len() == 1 && x[0].1 == say::ValView::Text(
                            a.1@.last().error->0@,
                        ),
                        _ => false,
                    }
                },
                _ => false,
            }
        }),
{
    agent_lines_hold_each(r.agent_results@, r.agent_results@.len() as int);
    assert(pipeline_lines(r)[i + 1] == agent_lines(
        r.agent_results@,
        r.agent_results@.len() as int,
    )[i]);
}

proof fn agent_lines_hold_each(a: Seq<(String, Vec<AgentRun>)>, n: int)
    requires
        0 <= n <= a.len(),
    ensures
        agent_lines(a, n).len() == n,
        forall|i: int| 0 <= i < n ==> #[trigger] agent_lines(a, n)[i] == agent_line(a[i]),
    decreases n,
{
    if n > 0 {
        agent_lines_hold_each(a, n - 1);
    }
}

proof fn own_of_front(rules: Seq<Seq<char>>, x: Seq<char>, built_in: Seq<Seq<char>>, n: int)
    requires
        0 <= n <= rules.len(),
    ensures
        own_rules(rules.push(x), built_in, n) == own_rules(rules, built_in, n),
    decreases n,
{
    if n > 0 {
        own_of_front(rules, x, built_in, n - 1);
        assert(rules.push(x)[n - 1] == rules[n - 1]);
    }
}

/// A rule that is not built in counts among the project's own, in the order of the rules, and
/// one that is built in does not.
pub proof fn own_rules_are_told_apart(rules: Seq<Seq<char>>, x: Seq<char>, built_in: Seq<Seq<char>>)
    ensures
        ({
            let n = rules.len() as int;
            let before = own_rules(rules, built_in, n);
            let after = own_rules(rules.push(x), built_in, n + 1);
            &&& built_in.contains(x) ==> after == before
            &&& !built_in.contains(x) ==> after == before.push(x)
        }),
{
    own_of_front(rules, x, built_in, rules.len() as int);
    if built_in.contains(x) {
        let i = choose|i: int| 0 <= i < built_in.len() && built_in[i] == x;
        assert(is_among(built_in, built_in[i]));
    }
    if is_among(built_in, x) {
        assert(built_in.contains(x));
    }
}

/// The line on the rules names each of the project's own.
pub proof fn own_rules_are_named(rules: Seq<Seq<char>>, built_in: Seq<Seq<char>>)
    ensures
        ({
            let own = own_rules(rules, built_in, rules.len() as int);
            own.len() > 0 ==> text::holds_in_order(
                rules_line(rules, built_in),
                seq![
                    numeral::dec(rules.len()),
                    numeral::dec((rules.len() - own.len()) as nat),
                    numeral::dec(own.len()),
                    pieces::join(own, seq![',', ' ']),
                ],
            )
        }),
{
    let own = own_rules(rules, built_in, rules.len() as int);
    reveal_strlit(", ");
    assert(", "@ =~= seq![',', ' ']);
    if own.len() > 0 {
        let e = Seq::<Seq<char>>::empty();
        let t1 = numeral::dec(rules.len());
        let t2 = numeral::dec((rules.len() - own.len()) as nat);
        let t3 = numeral::dec(own.len());
        let t4 = pieces::join(own, ", "@);
        let s0 = "已加载 "@;
        text::one_more_is_held(s0, e, t1);
        let p1 = e.push(t1);
        text::one_more_is_held(s0 + t1, p1, " 条 TTSR 规则（内置 "@);
        let s1 = s0 + t1 + " 条 TTSR 规则（内置 "@;
        text::one_more_is_held(s1, p1, t2);
        let p2 = p1.push(t2);
        text::one_more_is_held(s1 + t2, p2, " 条 + 项目 "@);
        let s2 = s1 + t2 + " 条 + 项目 "@;
        text::one_more_is_held(s2, p2, t3);
        let p3 = p2.push(t3);
        text::one_more_is_held(s2 + t3, p3, " 条: "@);
        let s3 = s2 + t3 + " 条: "@;
        text::one_more_is_held(s3, p3, t4);
        let p4 = p3.push(t4);
        text::one_more_is_held(s3 + t4, p4, "）"@);
        assert(p4 =~= seq![t1, t2, t3, t4]);
    }
}

} // verus!
