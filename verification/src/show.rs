//! The lines that the interactive commands print.
use vstd::prelude::*;

use crate::admin;
use crate::admin::ModelProfile;
use crate::clock;
use crate::clock::format_time;
use crate::keybindings;
use crate::keybindings::{render_table, Resolved};
use crate::numeral;
use crate::numeral::{dec_text, dec_usize, dec_wide};
use crate::pieces;
use crate::pieces::join_of;
use crate::repl;
use crate::repl::{mode_label, preview_text, tool_group_names, CustomCommand, McpPromptInfo, Mode};
use crate::say;
use crate::say::{just, msg, Msg, Output, Val};
use crate::text;
use crate::text::{cat, copy_text, padded_left, repeat_char, same};

verus! {

// ── Lines made of parts ─────────────────────────────────────────────────────

pub open spec fn plain(s: Seq<char>) -> say::ValView {
    say::ValView::Text(s)
}

fn plain_of(s: &str) -> (v: Val)
    ensures
        v.view() == plain(s@),
{
    Val::Text(copy_text(s))
}

/// The wording of an entry where the condition holds, nothing otherwise.
pub open spec fn word_if(b: bool, key: Seq<char>) -> say::ValView {
    if b {
        say::entry(key).val()
    } else {
        plain(Seq::empty())
    }
}

fn word_if_of(b: bool, key: &str) -> (v: Val)
    ensures
        v.view() == word_if(b, key@),
{
    if b {
        msg(key).val()
    } else {
        Val::Text(String::new())
    }
}

/// The text, or the wording of an entry where it is empty.
pub open spec fn or_word(s: Seq<char>, key: Seq<char>) -> say::ValView {
    if s.len() == 0 {
        say::entry(key).val()
    } else {
        plain(s)
    }
}

fn or_word_of(s: &str, key: &str) -> (v: Val)
    ensures
        v.view() == or_word(s@, key@),
{
    if s.is_empty() {
        msg(key).val()
    } else {
        plain_of(s)
    }
}

pub open spec fn on_off(b: bool) -> Seq<char> {
    if b {
        "on"@
    } else {
        "off"@
    }
}

fn on_off_of(b: bool) -> (r: &'static str)
    ensures
        r@ == on_off(b),
{
    if b {
        "on"
    } else {
        "off"
    }
}

pub open spec fn truth(b: bool) -> Seq<char> {
    if b {
        "true"@
    } else {
        "false"@
    }
}

fn truth_of(b: bool) -> (r: &'static str)
    ensures
        r@ == truth(b),
{
    if b {
        "true"
    } else {
        "false"
    }
}

// ── Help ────────────────────────────────────────────────────────────────────

/// The help entries in the order in which they are shown.
pub open spec fn help_keys() -> Seq<Seq<char>> {
    seq![
        "help.h"@,
        "help.status"@,
        "help.usage"@,
        "help.context"@,
        "help.clear"@,
        "help.new"@,
        "help.retry"@,
        "help.jobs"@,
        "help.queue"@,
        "help.settings"@,
        "help.hotkeys"@,
        "help.todo"@,
        "help.goal"@,
        "help.diff"@,
        "help.fresh"@,
        "help.model"@,
        "help.mode"@,
        "help.plan"@,
        "help.tree"@,
        "help.branch"@,
        "help.models"@,
        "help.paste"@,
        "help.enhance"@,
        "help.suggest"@,
        "help.compact"@,
        "help.mcp"@,
        "help.skill"@,
        "help.skill_colon"@,
        "help.sessions"@,
        "help.session"@,
        "help.swarm"@,
        "help.agents"@,
        "help.review"@,
        "help.collab"@,
        "help.github"@,
        "help.tools"@,
        "help.lang"@,
        "help.exit"@,
    ]
}

pub fn help_key_list() -> (r: Vec<&'static str>)
    ensures
        repl::strs(r@) == help_keys(),
{
    let r = vec![
        "help.h",
        "help.status",
        "help.usage",
        "help.context",
        "help.clear",
        "help.new",
        "help.retry",
        "help.jobs",
        "help.queue",
        "help.settings",
        "help.hotkeys",
        "help.todo",
        "help.goal",
        "help.diff",
        "help.fresh",
        "help.model",
        "help.mode",
        "help.plan",
        "help.tree",
        "help.branch",
        "help.models",
        "help.paste",
        "help.enhance",
        "help.suggest",
        "help.compact",
        "help.mcp",
        "help.skill",
        "help.skill_colon",
        "help.sessions",
        "help.session",
        "help.swarm",
        "help.agents",
        "help.review",
        "help.collab",
        "help.github",
        "help.tools",
        "help.lang",
        "help.exit",
    ];
    assert(repl::strs(r@) =~= help_keys());
    r
}

pub open spec fn entries(keys: Seq<Seq<char>>, n: int) -> Seq<say::LineView>
    decreases n,
{
    if n <= 0 {
        Seq::empty()
    } else {
        entries(keys, n - 1).push(say::LineView::Msg(say::entry(keys[n - 1])))
    }
}

pub open spec fn custom_line(c: CustomCommand) -> say::LineView {
    if c.description@.len() == 0 {
        say::LineView::Text("  /"@ + c.name@)
    } else {
        say::LineView::Msg(
            say::entry("help.custom_entry"@).arg("name"@, c.name@).arg("desc"@, c.description@),
        )
    }
}

pub open spec fn custom_lines(c: Seq<CustomCommand>, n: int) -> Seq<say::LineView>
    decreases n,
{
    if n <= 0 {
        Seq::empty()
    } else {
        custom_lines(c, n - 1).push(custom_line(c[n - 1]))
    }
}

/// The help: the built-in commands, then the user's own.
pub open spec fn help_lines(c: Seq<CustomCommand>) -> Seq<say::LineView> {
    let head = say::said(say::entry("help.title"@)) + entries(help_keys(), help_keys().len() as int);
    let own = if c.len() == 0 {
        Seq::empty()
    } else {
        say::said(say::entry("help.custom_title"@)) + custom_lines(c, c.len() as int)
    };
    (head + own).push(say::LineView::Msg(say::entry("help.tip"@)))
}

pub fn print_help(commands: &Vec<CustomCommand>) -> (out: Output)
    ensures
        out@ == help_lines(commands@),
{
    let mut out = just(msg("help.title"));
    let ghost title = out@;
    let keys = help_key_list();
    assert(keys.len() == help_keys().len());
    let mut i: usize = 0;
    assert(out@ =~= title + entries(help_keys(), 0));
    while i < keys.len()
        invariant
            i <= keys.len(),
            repl::strs(keys@) == help_keys(),
            out@ == title + entries(help_keys(), i as int),
        decreases keys.len() - i,
    {
        assert(help_keys()[i as int] == keys@[i as int]@);
        out.say(msg(keys[i]));
        i = i + 1;
        assert(out@ =~= title + entries(help_keys(), i as int));
    }
    let ghost head = out@;
    if commands.len() > 0 {
        out.say(msg("help.custom_title"));
        let ghost own = out@;
        let mut j: usize = 0;
        assert(out@ =~= own + custom_lines(commands@, 0));
        while j < commands.len()
            invariant
                j <= commands.len(),
                out@ == own + custom_lines(commands@, j as int),
            decreases commands.len() - j,
        {
            let c = &commands[j];
            if c.description.as_str().is_empty() {
                out.print(cat("  /", &c.name));
            } else {
                out.say(
                    msg("help.custom_entry").arg("name", &c.name).arg("desc", &c.description),
                );
            }
            j = j + 1;
            assert(out@ =~= own + custom_lines(commands@, j as int));
        }
        assert(out@ =~= head + (say::said(say::entry("help.custom_title"@)) + custom_lines(
            commands@,
            commands.len() as int,
        )));
    } else {
        assert(out@ =~= head + Seq::empty());
    }
    out.say(msg("help.tip"));
    out
}

// ── Status and usage ────────────────────────────────────────────────────────

/// How full the context is. Percentages are given as text.
#[derive(Debug)]
pub struct TokenUsage {
    pub current: u64,
    pub limit: u64,
    pub pct: String,
    /// How many cells of the bar are filled.
    pub filled: usize,
}

/// What a session has used so far. The cost and the share of cached tokens are given as
/// text.
#[derive(Debug)]
pub struct Totals {
    pub input: u64,
    pub output: u64,
    pub cache_read: u64,
    pub cache_write: u64,
    pub cost: String,
    pub cache_rate: String,
}

/// A bar of filled and empty cells.
pub open spec fn bar(filled: nat, width: nat) -> Seq<char> {
    let f = if filled > width {
        width
    } else {
        filled
    };
    "["@ + Seq::new(f, |i: int| '█') + Seq::new((width - f) as nat, |i: int| '░') + "]"@
}

pub fn render_bar(filled: usize, width: usize) -> (r: String)
    ensures
        r@ == bar(filled as nat, width as nat),
{
    let f: usize = if filled > width {
        width
    } else {
        filled
    };
    let r = cat("[", &repeat_char('█', f));
    let r = cat(&r, &repeat_char('░', width - f));
    cat(&r, "]")
}

pub open spec fn usage_msg(key: Seq<char>, t: Totals) -> say::MsgView {
    say::entry(key).arg("input"@, numeral::dec(t.input as nat)).arg(
        "out"@,
        numeral::dec(t.output as nat),
    ).arg("cr"@, numeral::dec(t.cache_read as nat)).arg("cw"@, numeral::dec(t.cache_write as nat))
}

fn usage_msg_of(key: &str, t: &Totals) -> (m: Msg)
    ensures
        m@ == usage_msg(key@, *t),
{
    msg(key).arg("input", &dec_text(t.input)).arg("out", &dec_text(t.output)).arg(
        "cr",
        &dec_text(t.cache_read),
    ).arg("cw", &dec_text(t.cache_write))
}

pub open spec fn context_msg(key: Seq<char>, u: TokenUsage) -> say::MsgView {
    say::entry(key).arg("current"@, numeral::dec(u.current as nat)).arg(
        "limit"@,
        numeral::dec(u.limit as nat),
    ).arg("pct"@, u.pct@)
}

fn context_msg_of(key: &str, u: &TokenUsage) -> (m: Msg)
    ensures
        m@ == context_msg(key@, *u),
{
    msg(key).arg("current", &dec_text(u.current)).arg("limit", &dec_text(u.limit)).arg(
        "pct",
        &u.pct,
    )
}

/// What was sent to the model in all: new and cached tokens.
pub open spec fn prompt_total(t: Totals) -> nat {
    t.input as nat + t.cache_read as nat
}

/// What `/status` prints.
pub open spec fn status_lines(
    model: Seq<char>,
    mode: Mode,
    session: Seq<char>,
    cwd: Seq<char>,
    u: TokenUsage,
    guard: Seq<char>,
    t: Totals,
) -> Seq<say::LineView> {
    let head = seq![
        say::LineView::Msg(say::entry("status.title"@)),
        say::LineView::Msg(say::entry("status.model"@).arg("model"@, model)),
        say::LineView::Msg(
            say::entry("status.mode"@).with("mode"@, say::entry(repl::mode_key(mode)).val()),
        ),
        say::LineView::Msg(say::entry("status.session"@).arg("session"@, session)),
        say::LineView::Msg(say::entry("status.cwd"@).arg("cwd"@, cwd)),
        say::LineView::Msg(context_msg("status.context"@, u)),
    ];
    let gauge = if u.limit > 0 {
        seq![
            say::LineView::Msg(say::entry("status.bar"@).arg("bar"@, bar(u.filled as nat, 30))),
            say::LineView::Msg(say::entry("status.guard"@).arg("pct"@, guard)),
        ]
    } else {
        Seq::empty()
    };
    let tokens = say::said(usage_msg("status.tokens"@, t));
    let cache = if prompt_total(t) > 0 {
        say::said(
            say::entry("status.cache"@).arg("rate"@, t.cache_rate@).arg(
                "cr"@,
                numeral::dec(t.cache_read as nat),
            ).arg("total"@, numeral::dec(prompt_total(t))),
        )
    } else {
        Seq::empty()
    };
    let tail = seq![
        say::LineView::Msg(say::entry("status.cost"@).arg("cost"@, t.cost@)),
        say::LineView::Msg(say::entry("status.footer"@)),
    ];
    head + gauge + tokens + cache + tail
}

pub fn print_status(
    model: &str,
    mode: Mode,
    session: &str,
    cwd: &str,
    u: &TokenUsage,
    guard: &str,
    t: &Totals,
) -> (out: Output)
    ensures
        out@ == status_lines(model@, mode, session@, cwd@, *u, guard@, *t),
{
    let mut out = just(msg("status.title"));
    out.say(msg("status.model").arg("model", model));
    out.say(msg("status.mode").with("mode", msg(mode_label(mode)).val()));
    out.say(msg("status.session").arg("session", session));
    out.say(msg("status.cwd").arg("cwd", cwd));
    out.say(context_msg_of("status.context", u));
    if u.limit > 0 {
        out.say(msg("status.bar").arg("bar", &render_bar(u.filled, 30)));
        out.say(msg("status.guard").arg("pct", guard));
    }
    out.say(usage_msg_of("status.tokens", t));
    let total: u128 = t.input as u128 + t.cache_read as u128;
    if total > 0 {
        out.say(
            msg("status.cache").arg("rate", &t.cache_rate).arg("cr", &dec_text(t.cache_read)).arg(
                "total",
                &dec_wide(total),
            ),
        );
    }
    out.say(msg("status.cost").arg("cost", &t.cost));
    out.say(msg("status.footer"));
    assert(out@ =~= status_lines(model@, mode, session@, cwd@, *u, guard@, *t));
    out
}

/// What `/usage` prints.
pub open spec fn usage_lines(u: TokenUsage, t: Totals) -> Seq<say::LineView> {
    seq![
        say::LineView::Msg(say::entry("usage.title"@)),
        say::LineView::Msg(usage_msg("usage.tokens"@, t)),
        say::LineView::Msg(
            say::entry("usage.billed"@).arg(
                "billed"@,
                numeral::dec(t.input as nat + t.cache_write as nat + t.output as nat),
            ).arg("rate"@, t.cache_rate@).arg("total"@, numeral::dec(prompt_total(t))),
        ),
        say::LineView::Msg(say::entry("usage.cost"@).arg("cost"@, t.cost@)),
        say::LineView::Msg(context_msg("usage.context"@, u)),
    ]
}

pub fn print_usage(u: &TokenUsage, t: &Totals) -> (out: Output)
    ensures
        out@ == usage_lines(*u, *t),
{
    let mut out = just(msg("usage.title"));
    out.say(usage_msg_of("usage.tokens", t));
    let billed: u128 = t.input as u128 + t.cache_write as u128 + t.output as u128;
    let total: u128 = t.input as u128 + t.cache_read as u128;
    out.say(
        msg("usage.billed").arg("billed", &dec_wide(billed)).arg("rate", &t.cache_rate).arg(
            "total",
            &dec_wide(total),
        ),
    );
    out.say(msg("usage.cost").arg("cost", &t.cost));
    out.say(context_msg_of("usage.context", u));
    assert(out@ =~= usage_lines(*u, *t));
    out
}

/// What `/context` prints, given how the messages are composed.
pub open spec fn context_lines(
    b: crate::session::ContextBreakdown,
    u: TokenUsage,
    guard: Seq<char>,
) -> Seq<say::LineView> {
    let head = seq![
        say::LineView::Msg(say::entry("context.title"@)),
        say::LineView::Msg(
            say::entry("context.nodes"@).arg("total"@, numeral::dec(b.total as nat)).arg(
                "user"@,
                numeral::dec(b.user as nat),
            ).arg("assistant"@, numeral::dec(b.assistant as nat)).arg(
                "tool"@,
                numeral::dec(b.tool as nat),
            ).arg("other"@, numeral::dec(b.other as nat)),
        ),
        say::LineView::Msg(context_msg("context.tokens"@, u)),
    ];
    let gauge = if u.limit > 0 {
        say::said(say::entry("context.guard"@).arg("pct"@, guard))
    } else {
        Seq::empty()
    };
    head + gauge + say::said(say::entry("context.footer"@))
}

pub fn print_context(
    b: &crate::session::ContextBreakdown,
    u: &TokenUsage,
    guard: &str,
) -> (out: Output)
    ensures
        out@ == context_lines(*b, *u, guard@),
{
    let mut out = just(msg("context.title"));
    out.say(
        msg("context.nodes").arg("total", &dec_usize(b.total)).arg("user", &dec_usize(b.user)).arg(
            "assistant",
            &dec_usize(b.assistant),
        ).arg("tool", &dec_usize(b.tool)).arg("other", &dec_usize(b.other)),
    );
    out.say(context_msg_of("context.tokens", u));
    if u.limit > 0 {
        out.say(msg("context.guard").arg("pct", guard));
    }
    out.say(msg("context.footer"));
    assert(out@ =~= context_lines(*b, *u, guard@));
    out
}

// ── Settings ────────────────────────────────────────────────────────────────

/// The settings that `/settings` shows, beside the model and the mode.
#[derive(Debug)]
pub struct Settings {
    /// How many models there are beside the default one.
    pub other_models: usize,
    pub approval: String,
    pub guard_pct: String,
    pub max_turns: u64,
    pub todo_eager: Option<String>,
    pub todo_reminders: bool,
    pub todo_reminders_max: u64,
    pub goal_tokens: u64,
    pub goal_secs: u64,
    pub goal_hard: bool,
    pub async_enabled: bool,
    pub async_max: u64,
    pub subagent_enabled: bool,
    pub subagent_concurrent: u64,
    pub compaction: String,
    pub language: Option<String>,
    pub user_agent: Option<String>,
}

/// The tool switches: a group and whether it is on.
#[derive(Debug)]
pub struct ToolSwitch {
    pub key: String,
    pub on: bool,
}

/// The groups among the first `n` that are on.
pub open spec fn switched_on(v: Seq<ToolSwitch>, n: int) -> Seq<Seq<char>>
    decreases n,
{
    if n <= 0 {
        Seq::empty()
    } else if v[n - 1].on {
        switched_on(v, n - 1).push(v[n - 1].key@)
    } else {
        switched_on(v, n - 1)
    }
}

fn switched_on_of(v: &Vec<ToolSwitch>) -> (r: Vec<String>)
    ensures
        text::texts(r@) == switched_on(v@, v.len() as int),
{
    let mut r: Vec<String> = Vec::new();
    let mut i: usize = 0;
    assert(text::texts(r@) =~= Seq::<Seq<char>>::empty());
    while i < v.len()
        invariant
            i <= v.len(),
            text::texts(r@) == switched_on(v@, i as int),
        decreases v.len() - i,
    {
        if v[i].on {
            let s = copy_text(&v[i].key);
            proof {
                text::lemma_texts_push(r@, s);
            }
            r.push(s);
        }
        i = i + 1;
    }
    r
}

/// What `/settings` prints.
pub open spec fn settings_lines(
    model: Seq<char>,
    mode: Mode,
    s: Settings,
    tools: Seq<ToolSwitch>,
    github: bool,
    github_write: bool,
) -> Seq<say::LineView> {
    let on = switched_on(tools, tools.len() as int);
    seq![
        say::LineView::Msg(say::entry("settings.title"@)),
        say::LineView::Msg(
            say::entry("settings.model"@).arg("id"@, model).arg(
                "count"@,
                numeral::dec((s.other_models + 1) as nat),
            ),
        ),
        say::LineView::Msg(
            say::entry("settings.mode"@).with("mode"@, say::entry(repl::mode_key(mode)).val()),
        ),
        say::LineView::Msg(say::entry("settings.approval"@).arg("mode"@, s.approval@)),
        say::LineView::Msg(
            say::entry("settings.guard"@).arg("pct"@, s.guard_pct@).arg(
                "turns"@,
                numeral::dec(s.max_turns as nat),
            ),
        ),
        say::LineView::Msg(
            say::entry("settings.todo"@).arg("eager"@, admin::text_or(s.todo_eager, "off"@)).arg(
                "reminders"@,
                truth(s.todo_reminders),
            ).arg("max"@, numeral::dec(s.todo_reminders_max as nat)),
        ),
        say::LineView::Msg(
            say::entry("settings.goals"@).arg("tokens"@, numeral::dec(s.goal_tokens as nat)).arg(
                "secs"@,
                numeral::dec(s.goal_secs as nat),
            ).arg("mode"@, crate::goal::hard_or_soft(s.goal_hard)),
        ),
        say::LineView::Msg(
            say::entry("settings.async"@).arg("enabled"@, truth(s.async_enabled)).arg(
                "max"@,
                numeral::dec(s.async_max as nat),
            ),
        ),
        say::LineView::Msg(
            say::entry("settings.subagent"@).arg("enabled"@, truth(s.subagent_enabled)).arg(
                "conc"@,
                numeral::dec(s.subagent_concurrent as nat),
            ),
        ),
        say::LineView::Msg(say::entry("settings.compaction"@).arg("backend"@, s.compaction@)),
        say::LineView::Msg(
            say::entry("settings.tools"@).arg(
                "on"@,
                if on.len() == 0 {
                    "-"@
                } else {
                    pieces::join(on, ","@)
                },
            ).arg("github"@, on_off(github)).arg("write"@, on_off(github_write)),
        ),
        say::LineView::Msg(
            say::entry("settings.lang"@).arg("lang"@, admin::text_or(s.language, "auto"@)).arg(
                "ua"@,
                admin::text_or(s.user_agent, "default"@),
            ),
        ),
        say::LineView::Msg(say::entry("settings.footer"@)),
    ]
}

pub fn print_settings(
    model: &str,
    mode: Mode,
    s: &Settings,
    tools: &Vec<ToolSwitch>,
    github: bool,
    github_write: bool,
) -> (out: Output)
    ensures
        out@ == settings_lines(model@, mode, *s, tools@, github, github_write),
{
    let on = switched_on_of(tools);
    assert(on.len() == text::texts(on@).len());
    let shown = if on.len() == 0 {
        copy_text("-")
    } else {
        join_of(&on, ",")
    };
    let mut out = just(msg("settings.title"));
    out.say(
        msg("settings.model").arg("id", model).arg("count", &dec_wide(s.other_models as u128 + 1)),
    );
    out.say(msg("settings.mode").with("mode", msg(mode_label(mode)).val()));
    out.say(msg("settings.approval").arg("mode", &s.approval));
    out.say(msg("settings.guard").arg("pct", &s.guard_pct).arg("turns", &dec_text(s.max_turns)));
    out.say(
        msg("settings.todo").arg("eager", &admin::text_or_of(&s.todo_eager, "off")).arg(
            "reminders",
            truth_of(s.todo_reminders),
        ).arg("max", &dec_text(s.todo_reminders_max)),
    );
    let hard: &str = if s.goal_hard {
        "hard"
    } else {
        "soft"
    };
    out.say(
        msg("settings.goals").arg("tokens", &dec_text(s.goal_tokens)).arg(
            "secs",
            &dec_text(s.goal_secs),
        ).arg("mode", hard),
    );
    out.say(
        msg("settings.async").arg("enabled", truth_of(s.async_enabled)).arg(
            "max",
            &dec_text(s.async_max),
        ),
    );
    out.say(
        msg("settings.subagent").arg("enabled", truth_of(s.subagent_enabled)).arg(
            "conc",
            &dec_text(s.subagent_concurrent),
        ),
    );
    out.say(msg("settings.compaction").arg("backend", &s.compaction));
    out.say(
        msg("settings.tools").arg("on", &shown).arg("github", on_off_of(github)).arg(
            "write",
            on_off_of(github_write),
        ),
    );
    out.say(
        msg("settings.lang").arg("lang", &admin::text_or_of(&s.language, "auto")).arg(
            "ua",
            &admin::text_or_of(&s.user_agent, "default"),
        ),
    );
    out.say(msg("settings.footer"));
    assert(out@ =~= settings_lines(model@, mode, *s, tools@, github, github_write));
    out
}

// ── Keys ────────────────────────────────────────────────────────────────────

pub open spec fn text_lines(v: Seq<Seq<char>>) -> Seq<say::LineView> {
    Seq::new(v.len(), |i: int| say::LineView::Text(v[i]))
}

/// What `/hotkeys` prints: the keys in effect, and those that are fixed.
pub open spec fn hotkey_lines(r: Resolved) -> Seq<say::LineView> {
    say::said(say::entry("hotkeys.title"@)) + text_lines(keybindings::table_lines(r)) + seq![
        say::LineView::Msg(say::entry("hotkeys.fixed"@)),
        say::LineView::Text("  Enter           提交输入（多行粘贴后一次性提交）"@),
        say::LineView::Text("  Up / Down       历史上下浏览"@),
        say::LineView::Text("  Esc             取消当前行 / 关闭选择器"@),
    ]
}

pub fn print_hotkeys(r: &Resolved) -> (out: Output)
    ensures
        out@ == hotkey_lines(*r),
{
    let mut out = just(msg("hotkeys.title"));
    let ghost head = out@;
    let lines = render_table(r);
    let ghost lv = text::texts(lines@);
    let mut i: usize = 0;
    assert(out@ =~= head + text_lines(lv).take(0));
    while i < lines.len()
        invariant
            i <= lines.len(),
            lv == text::texts(lines@),
            out@ == head + text_lines(lv).take(i as int),
        decreases lines.len() - i,
    {
        assert(lv[i as int] == lines@[i as int]@);
        out.print(copy_text(&lines[i]));
        i = i + 1;
        assert(out@ =~= head + text_lines(lv).take(i as int));
    }
    assert(text_lines(lv).take(i as int) =~= text_lines(lv));
    out.say(msg("hotkeys.fixed"));
    out.print(copy_text("  Enter           提交输入（多行粘贴后一次性提交）"));
    out.print(copy_text("  Up / Down       历史上下浏览"));
    out.print(copy_text("  Esc             取消当前行 / 关闭选择器"));
    assert(out@ =~= hotkey_lines(*r));
    out
}

// ── Tools and GitHub ────────────────────────────────────────────────────────

/// Whether a group of tools is on; one that is not listed is off.
pub open spec fn is_on(v: Seq<ToolSwitch>, key: Seq<char>, i: int) -> bool
    decreases v.len() - i,
{
    if i < 0 || i >= v.len() {
        false
    } else if v[i].key@ == key {
        v[i].on
    } else {
        is_on(v, key, i + 1)
    }
}

fn is_on_of(v: &Vec<ToolSwitch>, key: &str) -> (r: bool)
    ensures
        r == is_on(v@, key@, 0),
{
    let mut i: usize = 0;
    while i < v.len()
        invariant
            i <= v.len(),
            is_on(v@, key@, 0) == is_on(v@, key@, i as int),
        decreases v.len() - i,
    {
        if same(&v[i].key, key) {
            return v[i].on;
        }
        i = i + 1;
    }
    false
}

pub open spec fn tool_line(key: Seq<char>, tools: Seq<ToolSwitch>, github: bool) -> say::LineView {
    let on = if key == "github"@ {
        github
    } else {
        is_on(tools, key, 0)
    };
    say::LineView::Msg(
        say::entry("tools.entry"@).arg("state"@, on_off(on)).arg("key"@, key).with(
            "label"@,
            say::entry("tools.label."@ + key).val(),
        ),
    )
}

pub open spec fn tool_lines(tools: Seq<ToolSwitch>, github: bool, n: int) -> Seq<say::LineView>
    decreases n,
{
    if n <= 0 {
        Seq::empty()
    } else {
        tool_lines(tools, github, n - 1).push(tool_line(repl::tool_groups()[n - 1], tools, github))
    }
}

/// What `/tools` prints.
pub open spec fn tools_lines(tools: Seq<ToolSwitch>, github: bool) -> Seq<say::LineView> {
    seq![
        say::LineView::Msg(say::entry("tools.title"@)),
        say::LineView::Msg(say::entry("tools.core_line"@)),
    ] + tool_lines(tools, github, repl::tool_groups().len() as int) + seq![
        say::LineView::Msg(say::entry("tools.hint_toggle"@)),
        say::LineView::Msg(say::entry("tools.hint_config"@)),
        say::LineView::Msg(say::entry("tools.footer"@)),
    ]
}

pub fn print_tools(tools: &Vec<ToolSwitch>, github: bool) -> (out: Output)
    ensures
        out@ == tools_lines(tools@, github),
{
    let mut out = just(msg("tools.title"));
    out.say(msg("tools.core_line"));
    let ghost head = out@;
    let g = tool_group_names();
    assert(g.len() == repl::tool_groups().len());
    let mut i: usize = 0;
    assert(out@ =~= head + tool_lines(tools@, github, 0));
    while i < g.len()
        invariant
            i <= g.len(),
            repl::strs(g@) == repl::tool_groups(),
            out@ == head + tool_lines(tools@, github, i as int),
        decreases g.len() - i,
    {
        assert(repl::tool_groups()[i as int] == g@[i as int]@);
        let on = if same(g[i], "github") {
            github
        } else {
            is_on_of(tools, g[i])
        };
        let label = msg(&cat("tools.label.", g[i])).val();
        out.say(
            msg("tools.entry").arg("state", on_off_of(on)).arg("key", g[i]).with("label", label),
        );
        i = i + 1;
        assert(out@ =~= head + tool_lines(tools@, github, i as int));
    }
    out.say(msg("tools.hint_toggle"));
    out.say(msg("tools.hint_config"));
    out.say(msg("tools.footer"));
    assert(out@ =~= tools_lines(tools@, github));
    out
}

/// What `/github` prints, given whether a token is set.
pub open spec fn github_lines(enabled: bool, write: bool, token: bool) -> Seq<say::LineView> {
    let head = seq![
        say::LineView::Msg(say::entry("github.title"@)),
        say::LineView::Msg(say::entry("github.enabled_line"@).arg("state"@, on_off(enabled))),
        say::LineView::Msg(say::entry("github.write_line"@).arg("state"@, on_off(write))),
        say::LineView::Msg(
            say::entry("github.token_line"@).with(
                "state"@,
                say::entry(
                    if token {
                        "github.token_set"@
                    } else {
                        "github.token_unset"@
                    },
                ).val(),
            ),
        ),
    ];
    let hints = if !enabled {
        seq![
            say::LineView::Msg(say::entry("github.hint_enable"@)),
            say::LineView::Msg(say::entry("github.hint_config"@)),
        ]
    } else if !write {
        seq![say::LineView::Msg(say::entry("github.hint_write"@))]
    } else {
        Seq::empty()
    };
    head + hints + seq![say::LineView::Msg(say::entry("tools.footer"@))]
}

pub fn print_github(enabled: bool, write: bool, token: bool) -> (out: Output)
    ensures
        out@ == github_lines(enabled, write, token),
{
    let mut out = just(msg("github.title"));
    out.say(msg("github.enabled_line").arg("state", on_off_of(enabled)));
    out.say(msg("github.write_line").arg("state", on_off_of(write)));
    let state = if token {
        msg("github.token_set").val()
    } else {
        msg("github.token_unset").val()
    };
    out.say(msg("github.token_line").with("state", state));
    if !enabled {
        out.say(msg("github.hint_enable"));
        out.say(msg("github.hint_config"));
    } else if !write {
        out.say(msg("github.hint_write"));
    }
    out.say(msg("tools.footer"));
    assert(out@ =~= github_lines(enabled, write, token));
    out
}

// ── Servers and skills ──────────────────────────────────────────────────────

/// A tool of a tool server.
#[derive(Debug)]
pub struct McpTool {
    pub name: String,
    pub description: String,
    /// Known from an earlier connection only.
    pub deferred: bool,
}

pub open spec fn mcp_tool_line(t: McpTool) -> say::LineView {
    say::LineView::Parts(
        seq![
            plain("  - "@),
            plain(t.name@),
            word_if(t.deferred, "mcp.deferred_mark"@),
            plain("  "@),
            or_word(t.description@, "mcp.no_desc"@),
        ],
    )
}

pub open spec fn mcp_tool_lines(t: Seq<McpTool>, n: int) -> Seq<say::LineView>
    decreases n,
{
    if n <= 0 {
        Seq::empty()
    } else {
        mcp_tool_lines(t, n - 1).push(mcp_tool_line(t[n - 1]))
    }
}

pub open spec fn mcp_prompt_line(p: (String, McpPromptInfo)) -> say::LineView {
    say::LineView::Parts(
        seq![
            plain("  - "@ + repl::prompt_command(p.0@, p.1.name@) + "  "@),
            or_word(p.1.description@, "mcp.no_desc"@),
        ],
    )
}

pub open spec fn mcp_prompt_lines(p: Seq<(String, McpPromptInfo)>, n: int) -> Seq<say::LineView>
    decreases n,
{
    if n <= 0 {
        Seq::empty()
    } else {
        mcp_prompt_lines(p, n - 1).push(mcp_prompt_line(p[n - 1]))
    }
}

/// What `/mcp` prints: the servers' tools and prompts.
pub open spec fn mcp_lines(tools: Seq<McpTool>, prompts: Seq<(String, McpPromptInfo)>) -> Seq<
    say::LineView,
> {
    (if tools.len() == 0 {
        say::said(say::entry("mcp.none"@))
    } else {
        say::said(say::entry("mcp.tools_count"@).arg("count"@, numeral::dec(tools.len())))
            + mcp_tool_lines(tools, tools.len() as int)
    }) + (if prompts.len() == 0 {
        Seq::empty()
    } else {
        say::said(say::entry("mcp.prompts_count"@).arg("count"@, numeral::dec(prompts.len())))
            + mcp_prompt_lines(prompts, prompts.len() as int)
    })
}

pub fn print_mcp(tools: &Vec<McpTool>, prompts: &Vec<(String, McpPromptInfo)>) -> (out: Output)
    ensures
        out@ == mcp_lines(tools@, prompts@),
{
    let mut out = if tools.len() == 0 {
        just(msg("mcp.none"))
    } else {
        just(msg("mcp.tools_count").arg("count", &dec_usize(tools.len())))
    };
    let ghost head = out@;
    let mut i: usize = 0;
    assert(out@ =~= head + mcp_tool_lines(tools@, 0));
    while i < tools.len()
        invariant
            i <= tools.len(),
            out@ == head + mcp_tool_lines(tools@, i as int),
        decreases tools.len() - i,
    {
        let t = &tools[i];
        let parts = vec![
            plain_of("  - "),
            plain_of(&t.name),
            word_if_of(t.deferred, "mcp.deferred_mark"),
            plain_of("  "),
            or_word_of(&t.description, "mcp.no_desc"),
        ];
        assert(say::val_views(parts@) =~= mcp_tool_line(*t)->Parts_0);
        out.parts(parts);
        i = i + 1;
        assert(out@ =~= head + mcp_tool_lines(tools@, i as int));
    }
    let ghost first = out@;
    if prompts.len() > 0 {
        out.say(msg("mcp.prompts_count").arg("count", &dec_usize(prompts.len())));
        let ghost title = out@;
        let mut j: usize = 0;
        assert(out@ =~= title + mcp_prompt_lines(prompts@, 0));
        while j < prompts.len()
            invariant
                j <= prompts.len(),
                out@ == title + mcp_prompt_lines(prompts@, j as int),
            decreases prompts.len() - j,
        {
            let n = cat(&cat("/", &prompts[j].0), ":");
            let n = cat(&n, &prompts[j].1.name);
            let n = cat(&cat("  - ", &n), "  ");
            let parts = vec![plain_of(&n), or_word_of(&prompts[j].1.description, "mcp.no_desc")];
            assert(say::val_views(parts@) =~= mcp_prompt_line(prompts@[j as int])->Parts_0);
            out.parts(parts);
            j = j + 1;
            assert(out@ =~= title + mcp_prompt_lines(prompts@, j as int));
        }
    }
    assert(out@ =~= mcp_lines(tools@, prompts@));
    out
}

/// A skill: a text that can be sent by its name.
#[derive(Debug)]
pub struct Skill {
    pub name: String,
    pub description: String,
    pub file_path: String,
    /// Whether it belongs to the project, not to the user.
    pub project: bool,
}

pub open spec fn skill_line(s: Skill) -> say::LineView {
    say::LineView::Parts(
        seq![
            plain(
                "  - "@ + s.name@ + "  ["@ + (if s.project {
                    "project"@
                } else {
                    "user"@
                }) + "]  "@,
            ),
            or_word(s.description@, "skill.no_desc"@),
        ],
    )
}

pub open spec fn skill_lines(s: Seq<Skill>, n: int) -> Seq<say::LineView>
    decreases n,
{
    if n <= 0 {
        Seq::empty()
    } else {
        skill_lines(s, n - 1).push(skill_line(s[n - 1]))
    }
}

/// What `/skills` prints.
pub open spec fn skills_lines(s: Seq<Skill>) -> Seq<say::LineView> {
    if s.len() == 0 {
        say::said(say::entry("skill.none"@))
    } else {
        say::said(say::entry("skill.count"@).arg("count"@, numeral::dec(s.len()))) + skill_lines(
            s,
            s.len() as int,
        )
    }
}

pub fn print_skills(skills: &Vec<Skill>) -> (out: Output)
    ensures
        out@ == skills_lines(skills@),
{
    if skills.len() == 0 {
        return just(msg("skill.none"));
    }
    let mut out = just(msg("skill.count").arg("count", &dec_usize(skills.len())));
    let ghost head = out@;
    let mut i: usize = 0;
    assert(out@ =~= head + skill_lines(skills@, 0));
    while i < skills.len()
        invariant
            i <= skills.len(),
            out@ == head + skill_lines(skills@, i as int),
        decreases skills.len() - i,
    {
        let s = &skills[i];
        let level: &str = if s.project {
            "project"
        } else {
            "user"
        };
        let t = cat(&cat("  - ", &s.name), "  [");
        let t = cat(&cat(&t, level), "]  ");
        let parts = vec![plain_of(&t), or_word_of(&s.description, "skill.no_desc")];
        assert(say::val_views(parts@) =~= skill_line(*s)->Parts_0);
        out.parts(parts);
        i = i + 1;
        assert(out@ =~= head + skill_lines(skills@, i as int));
    }
    out
}

// ── Models ──────────────────────────────────────────────────────────────────

/// The line on one model of the list.
pub open spec fn profile_line(p: ModelProfile, current: Seq<char>, default: bool) -> say::LineView {
    say::LineView::Msg(
        say::entry("model.profile_line"@).arg("id"@, p.id@).with(
            "alias"@,
            match p.alias {
                Some(a) => say::entry("model.alias_suffix"@).arg("alias"@, a@).val(),
                None => plain(Seq::empty()),
            },
        ).with("default"@, word_if(default, "model.default_mark"@)).with(
            "mark"@,
            word_if(p.id@ == current, "model.current_mark"@),
        ).arg("api"@, p.api@).arg("base"@, p.base_url@),
    )
}

pub fn print_profile(p: &ModelProfile, current: &str, default: bool) -> (m: Msg)
    ensures
        say::LineView::Msg(m@) == profile_line(*p, current@, default),
{
    let alias = match &p.alias {
        Some(a) => msg("model.alias_suffix").arg("alias", a).val(),
        None => Val::Text(String::new()),
    };
    msg("model.profile_line").arg("id", &p.id).with("alias", alias).with(
        "default",
        word_if_of(default, "model.default_mark"),
    ).with("mark", word_if_of(same(&p.id, current), "model.current_mark")).arg("api", &p.api).arg(
        "base",
        &p.base_url,
    )
}

pub open spec fn profile_lines(m: Seq<ModelProfile>, current: Seq<char>, n: int) -> Seq<
    say::LineView,
>
    decreases n,
{
    if n <= 0 {
        Seq::empty()
    } else {
        profile_lines(m, current, n - 1).push(profile_line(m[n - 1], current, false))
    }
}

/// What `/model` prints without an argument.
pub open spec fn model_lines(
    current: Seq<char>,
    default: ModelProfile,
    models: Seq<ModelProfile>,
) -> Seq<say::LineView> {
    seq![
        say::LineView::Msg(say::entry("model.current"@).arg("id"@, current)),
        say::LineView::Msg(say::entry("model.available"@)),
        profile_line(default, current, true),
    ] + profile_lines(models, current, models.len() as int) + seq![
        say::LineView::Msg(say::entry("model.switch_hint"@)),
    ]
}

pub fn print_models(current: &str, default: &ModelProfile, models: &Vec<ModelProfile>) -> (out: Output)
    ensures
        out@ == model_lines(current@, *default, models@),
{
    let mut out = just(msg("model.current").arg("id", current));
    out.say(msg("model.available"));
    out.say(print_profile(default, current, true));
    let ghost head = out@;
    let mut i: usize = 0;
    assert(out@ =~= head + profile_lines(models@, current@, 0));
    while i < models.len()
        invariant
            i <= models.len(),
            out@ == head + profile_lines(models@, current@, i as int),
        decreases models.len() - i,
    {
        out.say(print_profile(&models[i], current, false));
        i = i + 1;
        assert(out@ =~= head + profile_lines(models@, current@, i as int));
    }
    out.say(msg("model.switch_hint"));
    assert(out@ =~= model_lines(current@, *default, models@));
    out
}

// ── Sessions ────────────────────────────────────────────────────────────────

/// A session that can be taken up again.
#[derive(Debug)]
pub struct SessionRow {
    pub id: String,
    /// When it was last used, in seconds since 1970.
    pub mtime: u64,
    /// The first thing that the user said in it.
    pub first: Option<String>,
}

/// The first thing said in a session, in brackets.
pub open spec fn session_preview(s: SessionRow) -> say::ValView {
    match s.first {
        Some(t) => plain("「"@ + repl::preview(t@, 50) + "」"@),
        None => say::entry("sessions.no_user_msg"@).val(),
    }
}

fn session_preview_of(s: &SessionRow) -> (v: Val)
    ensures
        v.view() == session_preview(*s),
{
    match &s.first {
        Some(t) => {
            let p = cat("「", &preview_text(t, 50));
            plain_of(&cat(&p, "」"))
        },
        None => msg("sessions.no_user_msg").val(),
    }
}

/// The line on a session, behind what comes before its id.
pub open spec fn session_line(before: Seq<char>, s: SessionRow, current: Seq<char>) -> say::LineView {
    say::LineView::Parts(
        seq![
            plain(before + s.id@ + "  "@ + clock::shown_time(s.mtime as nat) + "  "@),
            session_preview(s),
            word_if(s.id@ == current, "sessions.current_mark"@),
        ],
    )
}

fn session_line_of(before: &str, s: &SessionRow, current: &str) -> (parts: Vec<Val>)
    ensures
        say::LineView::Parts(say::val_views(parts@)) == session_line(before@, *s, current@),
{
    let t = cat(&cat(before, &s.id), "  ");
    let t = cat(&cat(&t, &format_time(s.mtime)), "  ");
    let parts = vec![
        plain_of(&t),
        session_preview_of(s),
        word_if_of(same(&s.id, current), "sessions.current_mark"),
    ];
    assert(say::val_views(parts@) =~= session_line(before@, *s, current@)->Parts_0);
    parts
}

/// What stands before a session's id: its number, or only blanks.
pub open spec fn session_number(numbered: bool, n: nat) -> Seq<char> {
    if numbered {
        "  "@ + text::pad_left(numeral::dec(n), 2) + ". "@
    } else {
        "  "@
    }
}

pub open spec fn session_lines(s: Seq<SessionRow>, current: Seq<char>, numbered: bool, n: int) -> Seq<
    say::LineView,
>
    decreases n,
{
    if n <= 0 {
        Seq::empty()
    } else {
        session_lines(s, current, numbered, n - 1).push(
            session_line(session_number(numbered, n as nat), s[n - 1], current),
        )
    }
}

fn session_lines_of(s: &Vec<SessionRow>, current: &str, numbered: bool, out: &mut Output)
    ensures
        final(out)@ == old(out)@ + session_lines(s@, current@, numbered, s.len() as int),
{
    let mut i: usize = 0;
    assert(out@ =~= old(out)@ + session_lines(s@, current@, numbered, 0));
    while i < s.len()
        invariant
            i <= s.len(),
            out@ == old(out)@ + session_lines(s@, current@, numbered, i as int),
        decreases s.len() - i,
    {
        let before = if numbered {
            let n = cat("  ", &padded_left(&dec_usize(i + 1), 2));
            cat(&n, ". ")
        } else {
            copy_text("  ")
        };
        out.parts(session_line_of(&before, &s[i], current));
        i = i + 1;
        assert(out@ =~= old(out)@ + session_lines(s@, current@, numbered, i as int));
    }
}

/// What `/sessions` prints.
pub open spec fn sessions_lines(s: Seq<SessionRow>, current: Seq<char>) -> Seq<say::LineView> {
    if s.len() == 0 {
        say::said(say::entry("sessions.none"@))
    } else {
        say::said(say::entry("sessions.list_title"@)) + session_lines(
            s,
            current,
            false,
            s.len() as int,
        )
    }
}

pub fn print_sessions(s: &Vec<SessionRow>, current: &str) -> (out: Output)
    ensures
        out@ == sessions_lines(s@, current@),
{
    if s.len() == 0 {
        return just(msg("sessions.none"));
    }
    let mut out = just(msg("sessions.list_title"));
    session_lines_of(s, current, false, &mut out);
    out
}

/// What `/resume` prints without an argument: the sessions with their numbers.
pub open spec fn session_choice_lines(s: Seq<SessionRow>, current: Seq<char>) -> Seq<
    say::LineView,
> {
    if s.len() == 0 {
        say::said(say::entry("sessions.none"@))
    } else {
        (say::said(say::entry("resume.title"@)) + session_lines(
            s,
            current,
            true,
            s.len() as int,
        )).push(say::LineView::Msg(say::entry("resume.hint"@)))
    }
}

pub fn print_session_choices(s: &Vec<SessionRow>, current: &str) -> (out: Output)
    ensures
        out@ == session_choice_lines(s@, current@),
{
    if s.len() == 0 {
        return just(msg("sessions.none"));
    }
    let mut out = just(msg("resume.title"));
    session_lines_of(s, current, true, &mut out);
    out.say(msg("resume.hint"));
    out
}

// ── Shared rooms ────────────────────────────────────────────────────────────

/// What `/collab` prints of a new room.
pub open spec fn collab_lines(
    room: Seq<char>,
    fragment: Seq<char>,
    token: Seq<char>,
    bind: Seq<char>,
) -> Seq<say::LineView> {
    seq![
        say::LineView::Msg(say::entry("collab.title"@)),
        say::LineView::Msg(say::entry("collab.room"@).arg("room"@, room)),
        say::LineView::Msg(say::entry("collab.fragment"@).arg("fragment"@, fragment)),
        say::LineView::Msg(say::entry("collab.relay"@).arg("bind"@, bind).arg("room"@, room)),
        say::LineView::Msg(
            say::entry("collab.write_link"@).arg("bind"@, bind).arg("room"@, room).arg(
                "token"@,
                token,
            ),
        ),
        say::LineView::Msg(say::entry("collab.view_link"@).arg("bind"@, bind).arg("room"@, room)),
        say::LineView::Msg(
            say::entry("collab.link"@).arg("bind"@, bind).arg("fragment"@, fragment),
        ),
        say::LineView::Msg(say::entry("collab.footer"@)),
        say::LineView::Msg(say::entry("collab.tip"@)),
        say::LineView::Msg(say::entry("collab.wt_tip"@)),
    ]
}

pub fn print_collab(room: &str, fragment: &str, token: &str, bind: &str) -> (out: Output)
    ensures
        out@ == collab_lines(room@, fragment@, token@, bind@),
{
    let mut out = just(msg("collab.title"));
    out.say(msg("collab.room").arg("room", room));
    out.say(msg("collab.fragment").arg("fragment", fragment));
    out.say(msg("collab.relay").arg("bind", bind).arg("room", room));
    out.say(msg("collab.write_link").arg("bind", bind).arg("room", room).arg("token", token));
    out.say(msg("collab.view_link").arg("bind", bind).arg("room", room));
    out.say(msg("collab.link").arg("bind", bind).arg("fragment", fragment));
    out.say(msg("collab.footer"));
    out.say(msg("collab.tip"));
    out.say(msg("collab.wt_tip"));
    assert(out@ =~= collab_lines(room@, fragment@, token@, bind@));
    out
}

/// A bar has as many cells as it is wide, between brackets, the filled ones before the empty.
pub proof fn bars_fill_from_the_left(filled: nat, width: nat)
    requires
        filled <= width,
    ensures
        bar(filled, width).len() == width + 2,
        bar(filled, width)[0] == '[',
        bar(filled, width)[width as int + 1] == ']',
        forall|i: int| 1 <= i <= filled ==> #[trigger] bar(filled, width)[i] == '█',
        forall|i: int| filled < i <= width ==> #[trigger] bar(filled, width)[i] == '░',
{
    reveal_strlit("[");
    reveal_strlit("]");
}

} // verus!
