//! The commands of an interactive session: what each one prints, and what it asks the
//! session to do.
use vstd::prelude::*;

use crate::admin::ModelProfile;
use crate::goal;
use crate::goal::{handle_goal, GoalAction, GoalView};
use crate::keybindings;
use crate::keybindings::{Action, Resolved};
use crate::manage;
use crate::manage::{route, ManageCmd, Route};
use crate::numeral;
use crate::numeral::{dec_text, dec_usize, unsigned_of};
use crate::paste;
use crate::paste::{handle_paste, PastePlan};
use crate::pieces;
use crate::pieces::{join_of, words_of};
use crate::prompts;
use crate::prompts::{resolve_mcp_prompt, try_custom_command, PromptCmd};
use crate::queue::MessageQueue;
use crate::queue_cmd;
use crate::queue_cmd::handle_queue;
use crate::repl;
use crate::repl::{
    is_known_tools_key, mode_label, parse_github_subcommand, parse_mode, preview_text, CustomCommand,
    GithubToggle, McpPromptInfo, Mode,
};
use crate::say;
use crate::say::{just, msg, Msg, Output, Val};
use crate::secrets::lower_of;
use crate::show;
use crate::show::{
    print_github, print_help, print_hotkeys, print_mcp, print_models, print_session_choices,
    print_sessions, print_settings, print_skills, print_status, print_tools, print_usage, McpTool,
    SessionRow, Settings, Skill, TokenUsage, ToolSwitch, Totals,
};
use crate::text;
use crate::text::{behind, cat, copy_text, has_prefix, same, trimmed};
use crate::todo;
use crate::todo::{handle_todo, TodoAction, TodoItem};

verus! {

/// A background job.
#[derive(Debug)]
pub struct JobRow {
    pub id: String,
    pub kind: String,
    pub status: String,
    pub ms: u64,
    pub label: String,
}

/// The state of a session that its commands read.
#[derive(Debug)]
pub struct CommandContext {
    pub model: String,
    pub mode: Mode,
    pub session_id: String,
    pub cwd: String,
    pub context: TokenUsage,
    /// The share of the context at which it is condensed.
    pub guard: String,
    pub accumulated: Totals,
    pub settings: Settings,
    pub optional: Vec<ToolSwitch>,
    pub github_enabled: bool,
    pub github_allow_write: bool,
    pub github_token: bool,
    pub keybindings: Resolved,
    pub mcp: Vec<McpTool>,
    pub prompts: Vec<(String, McpPromptInfo)>,
    pub skills: Vec<Skill>,
    pub commands: Vec<CustomCommand>,
    pub default_model: ModelProfile,
    pub models: Vec<ModelProfile>,
    pub sessions: Vec<SessionRow>,
    pub todo: Vec<TodoItem>,
    pub goal: Option<GoalView>,
    /// The latest jobs, where there is a manager of jobs.
    pub jobs: Option<Vec<JobRow>>,
    pub locale: String,
    /// The languages that can be chosen.
    pub locales: Vec<String>,
    /// Whether there is a directory for the configuration.
    pub has_config_dir: bool,
}

/// What a command asks the session to do.
#[derive(Debug)]
pub enum CommandOutcome<
    S = String,
    A = Vec<(String, String)>,
    P = PastePlan,
    C = ManageCmd,
    T = TodoAction,
> {
    /// Nothing: the command has been dealt with.
    Handled,
    /// Send a text to the model.
    Inject(S),
    /// Fetch a server's prompt and send it.
    McpPrompt { server: S, prompt: S, args: A },
    SwitchModel(S),
    SwitchMode(Mode),
    Compact,
    Resume(S),
    Swarm(S),
    Agents,
    ShowTree,
    SwitchBranch { node: S, handoff: bool },
    ListModels,
    /// Send a picture with a text.
    Paste(P),
    Quit,
    Diff { staged: bool, ref_name: Option<S> },
    Fresh,
    SetGithub { enabled: bool, allow_write: Option<bool> },
    SetTool { key: S, enabled: bool },
    Enhance { draft: S },
    Suggest { query: S },
    Review { staged: bool, reviewers: Option<usize> },
    Clear,
    Context,
    Retry,
    /// Send what a skill's file holds.
    ReadSkill { path: S },
    /// Run a management command.
    Mcp(C),
    Todo(T),
    Goal(GoalAction),
    CancelJob(S),
    SetLanguage(S),
    /// Open a room that others can join.
    Collab,
}

pub type OutcomeView = CommandOutcome<
    Seq<char>,
    prompts::Pairs,
    PastePlan<Seq<char>>,
    ManageCmd<Seq<char>, manage::McpAddView>,
    todo::TodoActionView,
>;

impl CommandOutcome {
    pub open spec fn view(&self) -> OutcomeView {
        match self {
            CommandOutcome::Handled => CommandOutcome::Handled,
            CommandOutcome::Inject(s) => CommandOutcome::Inject(s@),
            CommandOutcome::McpPrompt { server, prompt, args } => CommandOutcome::McpPrompt {
                server: server@,
                prompt: prompt@,
                args: manage::pair_texts(args@),
            },
            CommandOutcome::SwitchModel(s) => CommandOutcome::SwitchModel(s@),
            CommandOutcome::SwitchMode(m) => CommandOutcome::SwitchMode(*m),
            CommandOutcome::Compact => CommandOutcome::Compact,
            CommandOutcome::Resume(s) => CommandOutcome::Resume(s@),
            CommandOutcome::Swarm(s) => CommandOutcome::Swarm(s@),
            CommandOutcome::Agents => CommandOutcome::Agents,
            CommandOutcome::ShowTree => CommandOutcome::ShowTree,
            CommandOutcome::SwitchBranch { node, handoff } => CommandOutcome::SwitchBranch {
                node: node@,
                handoff: *handoff,
            },
            CommandOutcome::ListModels => CommandOutcome::ListModels,
            CommandOutcome::Paste(p) => CommandOutcome::Paste(p.view()),
            CommandOutcome::Quit => CommandOutcome::Quit,
            CommandOutcome::Diff { staged, ref_name } => CommandOutcome::Diff {
                staged: *staged,
                ref_name: manage::opt_text(*ref_name),
            },
            CommandOutcome::Fresh => CommandOutcome::Fresh,
            CommandOutcome::SetGithub { enabled, allow_write } => CommandOutcome::SetGithub {
                enabled: *enabled,
                allow_write: *allow_write,
            },
            CommandOutcome::SetTool { key, enabled } => CommandOutcome::SetTool {
                key: key@,
                enabled: *enabled,
            },
            CommandOutcome::Enhance { draft } => CommandOutcome::Enhance { draft: draft@ },
            CommandOutcome::Suggest { query } => CommandOutcome::Suggest { query: query@ },
            CommandOutcome::Review { staged, reviewers } => CommandOutcome::Review {
                staged: *staged,
                reviewers: *reviewers,
            },
            CommandOutcome::Clear => CommandOutcome::Clear,
            CommandOutcome::Context => CommandOutcome::Context,
            CommandOutcome::Retry => CommandOutcome::Retry,
            CommandOutcome::ReadSkill { path } => CommandOutcome::ReadSkill { path: path@ },
            CommandOutcome::Mcp(c) => CommandOutcome::Mcp(c.view()),
            CommandOutcome::Todo(t) => CommandOutcome::Todo(t.view()),
            CommandOutcome::Goal(g) => CommandOutcome::Goal(*g),
            CommandOutcome::CancelJob(s) => CommandOutcome::CancelJob(s@),
            CommandOutcome::SetLanguage(s) => CommandOutcome::SetLanguage(s@),
            CommandOutcome::Collab => CommandOutcome::Collab,
        }
    }
}

/// What a command asks for and the lines that it prints.
pub type Reply = (OutcomeView, Seq<say::LineView>);

/// A command that only prints.
pub open spec fn prints(out: Seq<say::LineView>) -> Reply {
    (CommandOutcome::Handled, out)
}

/// A command that only says one thing.
pub open spec fn says(m: say::MsgView) -> Reply {
    prints(say::said(m))
}

/// A command that prints nothing.
pub open spec fn asks(o: OutcomeView) -> Reply {
    (o, say::silence())
}

pub open spec fn reply_view(r: (CommandOutcome, Output)) -> Reply {
    (r.0.view(), r.1@)
}

fn prints_of(out: Output) -> (r: (CommandOutcome, Output))
    ensures
        reply_view(r) == prints(out@),
{
    (CommandOutcome::Handled, out)
}

fn says_of(m: Msg) -> (r: (CommandOutcome, Output))
    ensures
        reply_view(r) == says(m@),
{
    (CommandOutcome::Handled, just(m))
}

fn asks_of(o: CommandOutcome) -> (r: (CommandOutcome, Output))
    ensures
        reply_view(r) == asks(o.view()),
{
    (o, Output::new())
}

/// The word of a line with this number.
pub open spec fn word(w: Seq<Seq<char>>, i: int) -> Option<Seq<char>> {
    if i < w.len() {
        Some(w[i])
    } else {
        None
    }
}

fn word_of(w: &Vec<String>, i: usize) -> (r: Option<String>)
    ensures
        manage::opt_text(r) == word(text::texts(w@), i as int),
{
    assert(text::texts(w@).len() == w.len());
    if i < w.len() {
        assert(text::texts(w@)[i as int] == w@[i as int]@);
        Some(copy_text(&w[i]))
    } else {
        None
    }
}

/// The words of a line behind the first, with a blank between them.
pub open spec fn words_behind(w: Seq<Seq<char>>) -> Seq<char> {
    if w.len() == 0 {
        Seq::empty()
    } else {
        pieces::join(w.skip(1), " "@)
    }
}

fn words_behind_of(w: &Vec<String>) -> (r: String)
    ensures
        r@ == words_behind(text::texts(w@)),
{
    let ghost wv = text::texts(w@);
    assert(wv.len() == w.len());
    if w.len() == 0 {
        return String::new();
    }
    let mut tail: Vec<String> = Vec::new();
    let mut i: usize = 1;
    assert(text::texts(tail@) =~= wv.subrange(1, 1));
    while i < w.len()
        invariant
            1 <= i <= w.len(),
            wv == text::texts(w@),
            text::texts(tail@) == wv.subrange(1, i as int),
        decreases w.len() - i,
    {
        let s = copy_text(&w[i]);
        proof {
            text::lemma_texts_push(tail@, s);
        }
        tail.push(s);
        i = i + 1;
        assert(text::texts(tail@) =~= wv.subrange(1, i as int));
    }
    assert(wv.subrange(1, i as int) =~= wv.skip(1));
    join_of(&tail, " ")
}

/// What stands behind a command at the front of a line.
pub open spec fn behind_command(input: Seq<char>, cmd: Seq<char>) -> Seq<char> {
    match text::after(input, cmd) {
        Some(r) => text::trim(r),
        None => Seq::empty(),
    }
}

fn behind_command_of(input: &str, cmd: &str) -> (r: String)
    ensures
        r@ == behind_command(input@, cmd@),
{
    match behind(input, cmd) {
        Some(r) => trimmed(&r),
        None => String::new(),
    }
}

// ── Jobs ────────────────────────────────────────────────────────────────────

pub open spec fn job_line(j: JobRow) -> say::LineView {
    say::LineView::Msg(
        say::entry("jobs.entry"@).arg("id"@, j.id@).arg("kind"@, j.kind@).arg("status"@, j.status@).arg(
            "ms"@,
            numeral::dec(j.ms as nat),
        ).arg("label"@, repl::preview(j.label@, 60)),
    )
}

pub open spec fn job_lines(j: Seq<JobRow>, n: int) -> Seq<say::LineView>
    decreases n,
{
    if n <= 0 {
        Seq::empty()
    } else {
        job_lines(j, n - 1).push(job_line(j[n - 1]))
    }
}

pub open spec fn jobs_reply(w: Seq<Seq<char>>, jobs: Option<Seq<JobRow>>) -> Reply {
    match jobs {
        None => says(say::entry("jobs.disabled"@)),
        Some(j) => match word(w, 1) {
            None => prints(jobs_listing(j)),
            Some(sub) => if sub == "list"@ {
                prints(jobs_listing(j))
            } else if sub == "cancel"@ && word(w, 2) is Some {
                asks(CommandOutcome::CancelJob(word(w, 2)->0))
            } else {
                says(say::entry("jobs.usage"@))
            },
        },
    }
}

pub open spec fn jobs_listing(j: Seq<JobRow>) -> Seq<say::LineView> {
    if j.len() == 0 {
        say::said(say::entry("jobs.none"@))
    } else {
        say::said(say::entry("jobs.title"@).arg("count"@, numeral::dec(j.len()))) + job_lines(
            j,
            j.len() as int,
        )
    }
}

fn jobs_listing_of(j: &Vec<JobRow>) -> (out: Output)
    ensures
        out@ == jobs_listing(j@),
{
    if j.len() == 0 {
        return just(msg("jobs.none"));
    }
    let mut out = just(msg("jobs.title").arg("count", &dec_usize(j.len())));
    let ghost head = out@;
    let mut i: usize = 0;
    assert(out@ =~= head + job_lines(j@, 0));
    while i < j.len()
        invariant
            i <= j.len(),
            out@ == head + job_lines(j@, i as int),
        decreases j.len() - i,
    {
        let x = &j[i];
        out.say(
            msg("jobs.entry").arg("id", &x.id).arg("kind", &x.kind).arg("status", &x.status).arg(
                "ms",
                &dec_text(x.ms),
            ).arg("label", &preview_text(&x.label, 60)),
        );
        i = i + 1;
        assert(out@ =~= head + job_lines(j@, i as int));
    }
    out
}

pub open spec fn rows(o: Option<Vec<JobRow>>) -> Option<Seq<JobRow>> {
    match o {
        Some(v) => Some(v@),
        None => None,
    }
}

/// `/jobs [list | cancel <id>]`.
pub fn handle_jobs(w: &Vec<String>, jobs: &Option<Vec<JobRow>>) -> (r: (CommandOutcome, Output))
    ensures
        reply_view(r) == jobs_reply(text::texts(w@), rows(*jobs)),
{
    match jobs {
        None => says_of(msg("jobs.disabled")),
        Some(j) => match word_of(w, 1) {
            None => prints_of(jobs_listing_of(j)),
            Some(sub) => if same(&sub, "list") {
                prints_of(jobs_listing_of(j))
            } else if same(&sub, "cancel") {
                match word_of(w, 2) {
                    Some(id) => asks_of(CommandOutcome::CancelJob(id)),
                    None => says_of(msg("jobs.usage")),
                }
            } else {
                says_of(msg("jobs.usage"))
            },
        },
    }
}

/// What is said once a job has been told to stop, or could not be found.
pub fn job_cancelled(id: &str, found: bool) -> (m: Msg)
    ensures
        m@ == say::entry(
            if found {
                "jobs.cancelled"@
            } else {
                "jobs.not_found"@
            },
        ).arg("id"@, id@),
{
    if found {
        msg("jobs.cancelled").arg("id", id)
    } else {
        msg("jobs.not_found").arg("id", id)
    }
}

// ── Tools and languages ─────────────────────────────────────────────────────

/// Whether a word switches something on or off.
pub open spec fn switch(s: Seq<char>) -> Option<bool> {
    let v = text::lower(s);
    if v == "on"@ || v == "enable"@ || v == "enabled"@ || v == "true"@ {
        Some(true)
    } else if v == "off"@ || v == "disable"@ || v == "disabled"@ || v == "false"@ {
        Some(false)
    } else {
        None
    }
}

pub open spec fn tools_reply(w: Seq<Seq<char>>, listing: Seq<say::LineView>) -> Reply {
    match word(w, 1) {
        None => prints(listing),
        Some(k) => match word(w, 2) {
            None => if repl::tool_groups().contains(k) {
                prints(listing)
            } else {
                says(say::entry("tools.unknown_group"@).arg("key"@, k))
            },
            Some(v) => match switch(v) {
                None => says(
                    say::entry("tools.unknown_switch"@).arg("val"@, text::lower(v)).arg("key"@, k),
                ),
                Some(on) => if repl::tool_groups().contains(k) {
                    asks(CommandOutcome::SetTool { key: k, enabled: on })
                } else {
                    says(say::entry("tools.unknown_group"@).arg("key"@, k))
                },
            },
        },
    }
}

/// `/tools [<group> [on | off]]`.
pub fn handle_tools(w: &Vec<String>, optional: &Vec<ToolSwitch>, github: bool) -> (r: (
    CommandOutcome,
    Output,
))
    ensures
        reply_view(r) == tools_reply(text::texts(w@), show::tools_lines(optional@, github)),
{
    let k = match word_of(w, 1) {
        None => {
            return prints_of(print_tools(optional, github));
        },
        Some(k) => k,
    };
    let known = is_known_tools_key(&k);
    match word_of(w, 2) {
        None => if known {
            prints_of(print_tools(optional, github))
        } else {
            says_of(msg("tools.unknown_group").arg("key", &k))
        },
        Some(v) => {
            let l = lower_of(&v);
            let on = if same(&l, "on") || same(&l, "enable") || same(&l, "enabled") || same(
                &l,
                "true",
            ) {
                true
            } else if same(&l, "off") || same(&l, "disable") || same(&l, "disabled") || same(
                &l,
                "false",
            ) {
                false
            } else {
                return says_of(msg("tools.unknown_switch").arg("val", &l).arg("key", &k));
            };
            if known {
                asks_of(CommandOutcome::SetTool { key: k, enabled: on })
            } else {
                says_of(msg("tools.unknown_group").arg("key", &k))
            }
        },
    }
}

/// A language with its name, and ` / ` before all but the first.
pub open spec fn language_parts(c: Seq<Seq<char>>, n: int) -> Seq<say::ValView>
    decreases n,
{
    if n <= 0 {
        Seq::empty()
    } else {
        language_parts(c, n - 1) + seq![
            show::plain(
                (if n > 1 {
                    " / "@
                } else {
                    ""@
                }) + c[n - 1] + " ("@,
            ),
            say::entry("lang.name."@ + c[n - 1]).val(),
            show::plain(")"@),
        ]
    }
}

pub open spec fn language_reply(w: Seq<Seq<char>>, locale: Seq<char>, codes: Seq<Seq<char>>) -> Reply {
    match word(w, 1) {
        None => prints(
            seq![
                say::LineView::Msg(say::entry("lang.current"@).arg("locale"@, locale)),
                say::LineView::Msg(
                    say::entry("lang.available"@).with(
                        "list"@,
                        say::ValView::Joined(language_parts(codes, codes.len() as int)),
                    ),
                ),
            ],
        ),
        Some(code) => if codes.contains(code) {
            (
                CommandOutcome::SetLanguage(code),
                say::said(say::entry("lang.switched"@).arg("locale"@, code)),
            )
        } else {
            says(say::entry("lang.invalid"@).arg("code"@, code))
        },
    }
}

fn language_list(codes: &Vec<String>) -> (v: Val)
    ensures
        v.view() == say::ValView::Joined(
            language_parts(text::texts(codes@), codes.len() as int),
        ),
{
    let ghost cv = text::texts(codes@);
    let mut parts: Vec<Val> = Vec::new();
    let mut i: usize = 0;
    assert(say::val_views(parts@) =~= language_parts(cv, 0));
    while i < codes.len()
        invariant
            i <= codes.len(),
            cv == text::texts(codes@),
            say::val_views(parts@) == language_parts(cv, i as int),
        decreases codes.len() - i,
    {
        assert(cv[i as int] == codes@[i as int]@);
        let ghost before = say::val_views(parts@);
        let lead: &str = if i > 0 {
            " / "
        } else {
            ""
        };
        let front = Val::Text(cat(&cat(lead, &codes[i]), " ("));
        let name = msg(&cat("lang.name.", &codes[i])).val();
        let back = Val::Text(copy_text(")"));
        let ghost added = seq![front.view(), name.view(), back.view()];
        parts.push(front);
        parts.push(name);
        parts.push(back);
        assert(say::val_views(parts@) =~= before + added);
        i = i + 1;
        assert(say::val_views(parts@) =~= language_parts(cv, i as int));
    }
    let v = Val::Joined(parts);
    assert(v.view()->Joined_0 =~= say::val_views(parts@));
    v
}

/// `/lang [code]`: shows or changes the language.
pub fn handle_lang(w: &Vec<String>, locale: &str, locales: &Vec<String>) -> (r: (
    CommandOutcome,
    Output,
))
    ensures
        reply_view(r) == language_reply(text::texts(w@), locale@, text::texts(locales@)),
{
    let ghost cv = text::texts(locales@);
    match word_of(w, 1) {
        None => {
            let mut out = just(msg("lang.current").arg("locale", locale));
            out.say(msg("lang.available").with("list", language_list(locales)));
            assert(out@ =~= language_reply(text::texts(w@), locale@, cv).1);
            prints_of(out)
        },
        Some(code) => {
            let mut i: usize = 0;
            while i < locales.len()
                invariant
                    i <= locales.len(),
                    cv == text::texts(locales@),
                    word(text::texts(w@), 1) == Some(code@),
                    forall|j: int| 0 <= j < i ==> #[trigger] cv[j] != code@,
                decreases locales.len() - i,
            {
                assert(cv[i as int] == locales@[i as int]@);
                if same(&locales[i], &code) {
                    assert(cv.contains(code@));
                    let out = just(msg("lang.switched").arg("locale", &code));
                    return (CommandOutcome::SetLanguage(code), out);
                }
                i = i + 1;
            }
            says_of(msg("lang.invalid").arg("code", &code))
        },
    }
}

// ── Drafts and reviews ──────────────────────────────────────────────────────

/// `/enhance <draft>`.
pub fn handle_enhance(w: &Vec<String>) -> (r: (CommandOutcome, Output))
    ensures
        reply_view(r) == enhance_reply(text::texts(w@)),
{
    let draft = words_behind_of(w);
    if draft.as_str().is_empty() {
        says_of(msg("enhance.usage"))
    } else {
        asks_of(CommandOutcome::Enhance { draft })
    }
}

pub open spec fn enhance_reply(w: Seq<Seq<char>>) -> Reply {
    if words_behind(w).len() == 0 {
        says(say::entry("enhance.usage"@))
    } else {
        asks(CommandOutcome::Enhance { draft: words_behind(w) })
    }
}

pub open spec fn suggest_reply(w: Seq<Seq<char>>) -> Reply {
    if words_behind(w).len() == 0 {
        says(say::entry("suggest.usage"@))
    } else {
        asks(CommandOutcome::Suggest { query: words_behind(w) })
    }
}

/// `/suggest <query>`.
pub fn handle_suggest(w: &Vec<String>) -> (r: (CommandOutcome, Output))
    ensures
        reply_view(r) == suggest_reply(text::texts(w@)),
{
    let query = words_behind_of(w);
    if query.as_str().is_empty() {
        says_of(msg("suggest.usage"))
    } else {
        asks_of(CommandOutcome::Suggest { query })
    }
}

/// What the words of `/review` from this one on ask for; nothing if one is wrong.
pub open spec fn review_args(w: Seq<Seq<char>>, i: int, staged: bool, n: Option<usize>) -> Option<
    (bool, Option<usize>),
>
    decreases w.len() - i,
{
    if i >= w.len() {
        Some((staged, n))
    } else if w[i] == "--staged"@ || w[i] == "-s"@ {
        review_args(w, i + 1, true, n)
    } else if text::all_digits(w[i]) {
        match numeral::unsigned(w[i], 4) {
            Some(v) => if v >= 1 {
                review_args(w, i + 1, staged, Some(v as usize))
            } else {
                None
            },
            None => None,
        }
    } else {
        None
    }
}

pub open spec fn review_reply(w: Seq<Seq<char>>) -> Reply {
    match review_args(w, 1, false, None) {
        Some((staged, reviewers)) => asks(CommandOutcome::Review { staged, reviewers }),
        None => says(say::entry("review.usage"@)),
    }
}

fn only_digits(s: &str) -> (r: bool)
    ensures
        r == text::all_digits(s@),
{
    let v = text::chars_of(s);
    let mut i: usize = 0;
    while i < v.len()
        invariant
            i <= v.len(),
            v@ == s@,
            forall|j: int| 0 <= j < i ==> text::is_digit(#[trigger] s@[j]),
        decreases v.len() - i,
    {
        if !(v[i] >= '0' && v[i] <= '9') {
            assert(!text::is_digit(s@[i as int]));
            return false;
        }
        i = i + 1;
    }
    true
}

/// `/review [--staged] [N]`: which changes are reviewed, and by how many.
pub fn handle_review(w: &Vec<String>) -> (r: (CommandOutcome, Output))
    ensures
        reply_view(r) == review_reply(text::texts(w@)),
{
    let ghost wv = text::texts(w@);
    assert(wv.len() == w.len());
    let mut staged = false;
    let mut reviewers: Option<usize> = None;
    let mut i: usize = 1;
    while i < w.len()
        invariant
            i <= w.len() || i == 1,
            wv == text::texts(w@),
            review_args(wv, 1, false, None) == review_args(wv, i as int, staged, reviewers),
        decreases w.len() - i,
    {
        assert(wv[i as int] == w@[i as int]@);
        let t = &w[i];
        if same(t, "--staged") || same(t, "-s") {
            staged = true;
        } else if only_digits(t) {
            match unsigned_of(t, 4) {
                Some(v) => if v >= 1 {
                    reviewers = Some(v as usize);
                } else {
                    return says_of(msg("review.usage"));
                },
                None => {
                    return says_of(msg("review.usage"));
                },
            }
        } else {
            return says_of(msg("review.usage"));
        }
        i = i + 1;
    }
    asks_of(CommandOutcome::Review { staged, reviewers })
}

// ── Skills ──────────────────────────────────────────────────────────────────

pub open spec fn skill_index(s: Seq<Skill>, name: Seq<char>, i: int) -> int
    decreases s.len() - i,
{
    if i >= s.len() || s[i].name@ == name {
        i
    } else {
        skill_index(s, name, i + 1)
    }
}

pub open spec fn skill_reply(name: Seq<char>, s: Seq<Skill>) -> Reply {
    if skill_index(s, name, 0) < s.len() {
        asks(CommandOutcome::ReadSkill { path: s[skill_index(s, name, 0)].file_path@ })
    } else {
        says(say::entry("skill.unknown"@).arg("name"@, name))
    }
}

/// Sends the skill of this name, if there is one.
pub fn inject_skill(name: &str, skills: &Vec<Skill>) -> (r: (CommandOutcome, Output))
    ensures
        reply_view(r) == skill_reply(name@, skills@),
{
    let mut i: usize = 0;
    while i < skills.len()
        invariant
            i <= skills.len(),
            skill_index(skills@, name@, 0) == skill_index(skills@, name@, i as int),
        decreases skills.len() - i,
    {
        if same(&skills[i].name, name) {
            return asks_of(CommandOutcome::ReadSkill { path: copy_text(&skills[i].file_path) });
        }
        i = i + 1;
    }
    says_of(msg("skill.unknown").arg("name", name))
}

// ── Servers ─────────────────────────────────────────────────────────────────

pub open spec fn mcp_reply(
    input: Seq<char>,
    has_dir: bool,
    listing: Seq<say::LineView>,
) -> Reply {
    let rest = behind_command(input, "/mcp"@);
    if rest.len() == 0 {
        prints(listing)
    } else if !has_dir {
        says(say::entry("manage.mcp.no_config_dir"@))
    } else {
        match manage::routed(seq!["mcp"@] + pieces::words(rest)) {
            Route::Run(c) => asks(CommandOutcome::Mcp(c)),
            Route::Usage(m) => says(m),
            Route::Help(h) => prints(h),
            Route::Fallthrough => says(say::entry("manage.mcp.usage"@)),
        }
    }
}

/// `/mcp`: the servers' tools, or a management command on the servers.
pub fn handle_mcp(
    input: &str,
    has_config_dir: bool,
    tools: &Vec<McpTool>,
    prompts: &Vec<(String, McpPromptInfo)>,
) -> (r: (CommandOutcome, Output))
    ensures
        reply_view(r) == mcp_reply(input@, has_config_dir, show::mcp_lines(tools@, prompts@)),
{
    let rest = behind_command_of(input, "/mcp");
    if rest.as_str().is_empty() {
        return prints_of(print_mcp(tools, prompts));
    }
    if !has_config_dir {
        return says_of(msg("manage.mcp.no_config_dir"));
    }
    let w = words_of(&rest);
    let ghost wv = text::texts(w@);
    let mut tokens: Vec<String> = vec![copy_text("mcp")];
    let mut i: usize = 0;
    assert(text::texts(tokens@) =~= seq!["mcp"@] + wv.take(0));
    while i < w.len()
        invariant
            i <= w.len(),
            wv == text::texts(w@),
            text::texts(tokens@) == seq!["mcp"@] + wv.take(i as int),
        decreases w.len() - i,
    {
        let s = copy_text(&w[i]);
        proof {
            text::lemma_texts_push(tokens@, s);
        }
        tokens.push(s);
        i = i + 1;
        assert(text::texts(tokens@) =~= seq!["mcp"@] + wv.take(i as int));
    }
    assert(wv.take(i as int) =~= wv);
    match route(&tokens) {
        Route::Run(c) => asks_of(CommandOutcome::Mcp(c)),
        Route::Usage(m) => says_of(m),
        Route::Help(h) => prints_of(h),
        Route::Fallthrough => says_of(msg("manage.mcp.usage")),
    }
}

// ── Sessions ────────────────────────────────────────────────────────────────

/// `/resume [<n> | <id>]`: a session by its number in the list or by its id.
pub open spec fn resume_reply(w: Seq<Seq<char>>, s: Seq<SessionRow>, current: Seq<char>) -> Reply {
    match word(w, 1) {
        None => prints(show::session_choice_lines(s, current)),
        Some(a) => match numeral::unsigned(a, usize::MAX as nat) {
            Some(n) => if n == 0 {
                asks(CommandOutcome::Resume(a))
            } else if n <= s.len() {
                asks(CommandOutcome::Resume(s[n - 1].id@))
            } else {
                says(
                    say::entry("resume.bad_index"@).arg("n"@, numeral::dec(n)).arg(
                        "count"@,
                        numeral::dec(s.len()),
                    ),
                )
            },
            None => asks(CommandOutcome::Resume(a)),
        },
    }
}

fn handle_resume(w: &Vec<String>, s: &Vec<SessionRow>, current: &str) -> (r: (
    CommandOutcome,
    Output,
))
    ensures
        reply_view(r) == resume_reply(text::texts(w@), s@, current@),
{
    match word_of(w, 1) {
        None => prints_of(print_session_choices(s, current)),
        Some(a) => match unsigned_of(&a, usize::MAX as u64) {
            Some(n) => if n == 0 {
                asks_of(CommandOutcome::Resume(a))
            } else if n <= s.len() as u64 {
                asks_of(CommandOutcome::Resume(copy_text(&s[(n - 1) as usize].id)))
            } else {
                says_of(
                    msg("resume.bad_index").arg("n", &dec_text(n)).arg(
                        "count",
                        &dec_usize(s.len()),
                    ),
                )
            },
            None => asks_of(CommandOutcome::Resume(a)),
        },
    }
}

// ── Changes ─────────────────────────────────────────────────────────────────

/// The first word that does not begin with `--`.
pub open spec fn first_plain(w: Seq<Seq<char>>, i: int) -> Option<Seq<char>>
    decreases w.len() - i,
{
    if i >= w.len() {
        None
    } else if text::starts_with(w[i], "--"@) {
        first_plain(w, i + 1)
    } else {
        Some(w[i])
    }
}

/// `/diff [--staged] [ref]`.
pub open spec fn diff_reply(input: Seq<char>) -> Reply {
    let w = pieces::words(behind_command(input, "/diff"@));
    asks(
        CommandOutcome::Diff { staged: w.contains("--staged"@), ref_name: first_plain(w, 0) },
    )
}

fn handle_diff(input: &str) -> (r: (CommandOutcome, Output))
    ensures
        reply_view(r) == diff_reply(input@),
{
    let w = words_of(&behind_command_of(input, "/diff"));
    let ghost wv = text::texts(w@);
    assert(wv.len() == w.len());
    let mut staged = false;
    let mut name: Option<String> = None;
    let mut i: usize = 0;
    while i < w.len()
        invariant
            i <= w.len(),
            wv == text::texts(w@),
            staged == (exists|j: int| 0 <= j < i && #[trigger] wv[j] == "--staged"@),
            match name {
                Some(n) => first_plain(wv, 0) == Some(n@),
                None => first_plain(wv, 0) == first_plain(wv, i as int),
            },
        decreases w.len() - i,
    {
        assert(wv[i as int] == w@[i as int]@);
        if same(&w[i], "--staged") {
            staged = true;
        }
        if name.is_none() && !has_prefix(&w[i], "--") {
            name = Some(copy_text(&w[i]));
        }
        i = i + 1;
    }
    asks_of(CommandOutcome::Diff { staged, ref_name: name })
}

// ── The commands ────────────────────────────────────────────────────────────

/// A command whose argument is needed: what it asks for, or how it is used.
pub open spec fn goal_reply(input: Seq<char>, g: Option<GoalView>) -> Reply {
    match g {
        None => says(say::entry("goal.disabled"@)),
        Some(v) => {
            let a = goal::goal_command(goal::goal_rest(input), v.token_budget);
            match a {
                GoalAction::Show => prints(goal::goal_lines(v)),
                GoalAction::Usage => says(say::entry("goal.usage"@)),
                GoalAction::Budget { budget, shown } => (
                    CommandOutcome::Goal(a),
                    say::said(
                        say::entry("goal.updated"@).arg("budget"@, numeral::dec(budget as nat)).arg(
                            "tokens"@,
                            numeral::dec(shown as nat),
                        ),
                    ),
                ),
                _ => asks(CommandOutcome::Goal(a)),
            }
        },
    }
}

fn goal_reply_of(input: &str, g: &Option<GoalView>) -> (r: (CommandOutcome, Output))
    ensures
        reply_view(r) == goal_reply(input@, *g),
{
    let (a, out) = handle_goal(input, g);
    match a {
        None => prints_of(out),
        Some(GoalAction::Show) => prints_of(out),
        Some(GoalAction::Usage) => prints_of(out),
        Some(a) => (CommandOutcome::Goal(a), out),
    }
}

/// `/github [on | off | write]`.
pub open spec fn github_reply(w: Seq<Seq<char>>, on: bool, write: bool, token: bool) -> Reply {
    match repl::github_toggle(word(w, 1)) {
        GithubToggle::Status => prints(show::github_lines(on, write, token)),
        GithubToggle::Enable => asks(
            CommandOutcome::SetGithub { enabled: true, allow_write: None },
        ),
        GithubToggle::Disable => asks(
            CommandOutcome::SetGithub { enabled: false, allow_write: None },
        ),
        GithubToggle::Write => asks(
            CommandOutcome::SetGithub { enabled: true, allow_write: Some(true) },
        ),
        GithubToggle::Unknown(o) => says(say::entry("github.unknown_arg"@).arg("arg"@, o)),
    }
}

fn github_reply_of(w: &Vec<String>, on: bool, write: bool, token: bool) -> (r: (
    CommandOutcome,
    Output,
))
    ensures
        reply_view(r) == github_reply(text::texts(w@), on, write, token),
{
    let a = word_of(w, 1);
    let toggle = match &a {
        Some(s) => parse_github_subcommand(Some(s.as_str())),
        None => parse_github_subcommand(None),
    };
    match toggle {
        GithubToggle::Status => prints_of(print_github(on, write, token)),
        GithubToggle::Enable => asks_of(
            CommandOutcome::SetGithub { enabled: true, allow_write: None },
        ),
        GithubToggle::Disable => asks_of(
            CommandOutcome::SetGithub { enabled: false, allow_write: None },
        ),
        GithubToggle::Write => asks_of(
            CommandOutcome::SetGithub { enabled: true, allow_write: Some(true) },
        ),
        GithubToggle::Unknown(o) => says_of(msg("github.unknown_arg").arg("arg", &o)),
    }
}

/// A command that is not built in: a server's prompt, or one of the user's own.
pub open spec fn other_reply(name: Seq<char>, input: Seq<char>, c: CommandContext) -> Reply {
    match prompts::prompt_command(name, input, c.prompts@) {
        PromptCmd::Ready { server, prompt, args } => asks(
            CommandOutcome::McpPrompt { server, prompt, args },
        ),
        PromptCmd::UsageError(m) => says(m),
        PromptCmd::NotPrompt => match prompts::custom_command(name, input, c.commands@) {
            Some(t) => asks(CommandOutcome::Inject(t)),
            None => says(say::entry("common.unknown_command"@).arg("cmd"@, name)),
        },
    }
}

fn other_reply_of(name: &str, input: &str, c: &CommandContext) -> (r: (CommandOutcome, Output))
    ensures
        reply_view(r) == other_reply(name@, input@, *c),
{
    match resolve_mcp_prompt(name, input, &c.prompts) {
        PromptCmd::Ready { server, prompt, args } => asks_of(
            CommandOutcome::McpPrompt { server, prompt, args },
        ),
        PromptCmd::UsageError(m) => says_of(m),
        PromptCmd::NotPrompt => match try_custom_command(name, input, &c.commands) {
            Some(t) => asks_of(CommandOutcome::Inject(t)),
            None => says_of(msg("common.unknown_command").arg("cmd", name)),
        },
    }
}

/// The commands that name a session, a branch, a model or a mode.
pub open spec fn choosing_reply(name: Seq<char>, w: Seq<Seq<char>>, c: CommandContext) -> Option<
    Reply,
> {
    if name == "/tree"@ {
        Some(
            match word(w, 1) {
                Some(id) => asks(CommandOutcome::SwitchBranch { node: id, handoff: false }),
                None => asks(CommandOutcome::ShowTree),
            },
        )
    } else if name == "/branch"@ {
        Some(
            match word(w, 1) {
                Some(id) => asks(CommandOutcome::SwitchBranch { node: id, handoff: true }),
                None => says(say::entry("tree.usage"@)),
            },
        )
    } else if name == "/session"@ {
        Some(
            match word(w, 1) {
                Some(id) => asks(CommandOutcome::Resume(id)),
                None => prints(show::sessions_lines(c.sessions@, c.session_id@)),
            },
        )
    } else if name == "/resume"@ {
        Some(resume_reply(w, c.sessions@, c.session_id@))
    } else if name == "/model"@ {
        Some(
            match word(w, 1) {
                Some(m) => asks(CommandOutcome::SwitchModel(m)),
                None => prints(show::model_lines(c.model@, c.default_model, c.models@)),
            },
        )
    } else if name == "/mode"@ {
        let m = match word(w, 1) {
            Some(a) => repl::mode_of(a),
            None => None,
        };
        Some(
            match m {
                Some(m) => asks(CommandOutcome::SwitchMode(m)),
                None => says(
                    say::entry("mode.usage"@).with(
                        "current"@,
                        say::entry(repl::mode_key(c.mode)).val(),
                    ),
                ),
            },
        )
    } else if name == "/plan"@ {
        Some((CommandOutcome::SwitchMode(Mode::Plan), say::said(say::entry("plan.enter"@))))
    } else if name == "/swarm"@ {
        Some(
            match word(w, 1) {
                Some(f) => asks(CommandOutcome::Swarm(f)),
                None => prints(
                    seq![
                        say::LineView::Msg(say::entry("swarm.usage"@)),
                        say::LineView::Msg(say::entry("swarm.usage_fields"@)),
                        say::LineView::Msg(say::entry("swarm.usage_modes"@)),
                    ],
                ),
            },
        )
    } else if name == "/skill"@ || name == "/skills"@ {
        Some(
            match word(w, 1) {
                Some(n) => skill_reply(n, c.skills@),
                None => prints(show::skills_lines(c.skills@)),
            },
        )
    } else {
        None
    }
}

pub open spec fn reply_option(r: Option<(CommandOutcome, Output)>) -> Option<Reply> {
    match r {
        Some(x) => Some(reply_view(x)),
        None => None,
    }
}

fn choosing_reply_of(name: &str, w: &Vec<String>, c: &CommandContext) -> (r: Option<
    (CommandOutcome, Output),
>)
    ensures
        reply_option(r) == choosing_reply(name@, text::texts(w@), *c),
{
    let first = word_of(w, 1);
    if same(name, "/tree") {
        Some(
            match first {
                Some(id) => asks_of(CommandOutcome::SwitchBranch { node: id, handoff: false }),
                None => asks_of(CommandOutcome::ShowTree),
            },
        )
    } else if same(name, "/branch") {
        Some(
            match first {
                Some(id) => asks_of(CommandOutcome::SwitchBranch { node: id, handoff: true }),
                None => says_of(msg("tree.usage")),
            },
        )
    } else if same(name, "/session") {
        Some(
            match first {
                Some(id) => asks_of(CommandOutcome::Resume(id)),
                None => prints_of(print_sessions(&c.sessions, &c.session_id)),
            },
        )
    } else if same(name, "/resume") {
        Some(handle_resume(w, &c.sessions, &c.session_id))
    } else if same(name, "/model") {
        Some(
            match first {
                Some(m) => asks_of(CommandOutcome::SwitchModel(m)),
                None => prints_of(print_models(&c.model, &c.default_model, &c.models)),
            },
        )
    } else if same(name, "/mode") {
        let m = match first {
            Some(a) => parse_mode(&a),
            None => None,
        };
        Some(
            match m {
                Some(m) => asks_of(CommandOutcome::SwitchMode(m)),
                None => says_of(
                    msg("mode.usage").with("current", msg(mode_label(c.mode)).val()),
                ),
            },
        )
    } else if same(name, "/plan") {
        Some((CommandOutcome::SwitchMode(Mode::Plan), just(msg("plan.enter"))))
    } else if same(name, "/swarm") {
        Some(
            match first {
                Some(f) => asks_of(CommandOutcome::Swarm(f)),
                None => {
                    let mut out = just(msg("swarm.usage"));
                    out.say(msg("swarm.usage_fields"));
                    out.say(msg("swarm.usage_modes"));
                    prints_of(out)
                },
            },
        )
    } else if same(name, "/skill") || same(name, "/skills") {
        Some(
            match first {
                Some(n) => inject_skill(&n, &c.skills),
                None => prints_of(print_skills(&c.skills)),
            },
        )
    } else {
        None
    }
}

/// The commands that take no argument.
pub open spec fn plain_reply(name: Seq<char>, c: CommandContext) -> Option<Reply> {
    if name == "/h"@ || name == "/help"@ || name == "/?"@ {
        Some(prints(show::help_lines(c.commands@)))
    } else if name == "/models"@ {
        Some(asks(CommandOutcome::ListModels))
    } else if name == "/status"@ {
        Some(
            prints(
                show::status_lines(
                    c.model@,
                    c.mode,
                    c.session_id@,
                    c.cwd@,
                    c.context,
                    c.guard@,
                    c.accumulated,
                ),
            ),
        )
    } else if name == "/usage"@ {
        Some(prints(show::usage_lines(c.context, c.accumulated)))
    } else if name == "/context"@ {
        Some(asks(CommandOutcome::Context))
    } else if name == "/clear"@ {
        Some(asks(CommandOutcome::Clear))
    } else if name == "/new"@ || name == "/fresh"@ {
        Some(asks(CommandOutcome::Fresh))
    } else if name == "/retry"@ {
        Some(asks(CommandOutcome::Retry))
    } else if name == "/settings"@ {
        Some(
            prints(
                show::settings_lines(
                    c.model@,
                    c.mode,
                    c.settings,
                    c.optional@,
                    c.github_enabled,
                    c.github_allow_write,
                ),
            ),
        )
    } else if name == "/hotkeys"@ {
        Some(prints(show::hotkey_lines(c.keybindings)))
    } else if name == "/agents"@ {
        Some(asks(CommandOutcome::Agents))
    } else if name == "/sessions"@ {
        Some(prints(show::sessions_lines(c.sessions@, c.session_id@)))
    } else if name == "/compact"@ {
        Some(asks(CommandOutcome::Compact))
    } else if name == "/collab"@ {
        Some(asks(CommandOutcome::Collab))
    } else if name == "/exit"@ || name == "/quit"@ {
        Some(asks(CommandOutcome::Quit))
    } else {
        None
    }
}

fn plain_reply_of(name: &str, c: &CommandContext) -> (r: Option<(CommandOutcome, Output)>)
    ensures
        reply_option(r) == plain_reply(name@, *c),
{
    if same(name, "/h") || same(name, "/help") || same(name, "/?") {
        Some(prints_of(print_help(&c.commands)))
    } else if same(name, "/models") {
        Some(asks_of(CommandOutcome::ListModels))
    } else if same(name, "/status") {
        Some(
            prints_of(
                print_status(
                    &c.model,
                    c.mode,
                    &c.session_id,
                    &c.cwd,
                    &c.context,
                    &c.guard,
                    &c.accumulated,
                ),
            ),
        )
    } else if same(name, "/usage") {
        Some(prints_of(print_usage(&c.context, &c.accumulated)))
    } else if same(name, "/context") {
        Some(asks_of(CommandOutcome::Context))
    } else if same(name, "/clear") {
        Some(asks_of(CommandOutcome::Clear))
    } else if same(name, "/new") || same(name, "/fresh") {
        Some(asks_of(CommandOutcome::Fresh))
    } else if same(name, "/retry") {
        Some(asks_of(CommandOutcome::Retry))
    } else if same(name, "/settings") {
        Some(
            prints_of(
                print_settings(
                    &c.model,
                    c.mode,
                    &c.settings,
                    &c.optional,
                    c.github_enabled,
                    c.github_allow_write,
                ),
            ),
        )
    } else if same(name, "/hotkeys") {
        Some(prints_of(print_hotkeys(&c.keybindings)))
    } else if same(name, "/agents") {
        Some(asks_of(CommandOutcome::Agents))
    } else if same(name, "/sessions") {
        Some(prints_of(print_sessions(&c.sessions, &c.session_id)))
    } else if same(name, "/compact") {
        Some(asks_of(CommandOutcome::Compact))
    } else if same(name, "/collab") {
        Some(asks_of(CommandOutcome::Collab))
    } else if same(name, "/exit") || same(name, "/quit") {
        Some(asks_of(CommandOutcome::Quit))
    } else {
        None
    }
}

/// The commands that read the rest of the line, but for `/queue`.
pub open spec fn detailed_reply(input: Seq<char>, c: CommandContext) -> Option<Reply> {
    let w = pieces::words(input);
    let name = repl::first_word(input);
    if name == "/jobs"@ {
        Some(jobs_reply(w, rows(c.jobs)))
    } else if name == "/todo"@ {
        let (sub, rest) = pieces::sub_and_rest(input);
        Some(
            asks(
                CommandOutcome::Todo(
                    todo::todo_command(todo::item_views(c.todo@), sub, rest),
                ),
            ),
        )
    } else if name == "/goal"@ {
        Some(goal_reply(input, c.goal))
    } else if name == "/mcp"@ {
        Some(mcp_reply(input, c.has_config_dir, show::mcp_lines(c.mcp@, c.prompts@)))
    } else if name == "/paste"@ {
        Some(asks(CommandOutcome::Paste(paste::paste_plan(input))))
    } else if name == "/diff"@ {
        Some(diff_reply(input))
    } else if name == "/lang"@ {
        Some(language_reply(w, c.locale@, text::texts(c.locales@)))
    } else if name == "/github"@ {
        Some(github_reply(w, c.github_enabled, c.github_allow_write, c.github_token))
    } else if name == "/tools"@ {
        Some(tools_reply(w, show::tools_lines(c.optional@, c.github_enabled)))
    } else if name == "/enhance"@ {
        Some(enhance_reply(w))
    } else if name == "/suggest"@ {
        Some(suggest_reply(w))
    } else if name == "/review"@ {
        Some(review_reply(w))
    } else {
        None
    }
}

/// What a built-in command prints and asks for, but for `/queue`.
pub open spec fn builtin_reply(input: Seq<char>, c: CommandContext) -> Option<Reply> {
    let name = repl::first_word(input);
    match plain_reply(name, c) {
        Some(r) => Some(r),
        None => match choosing_reply(name, pieces::words(input), c) {
            Some(r) => Some(r),
            None => detailed_reply(input, c),
        },
    }
}

/// What a command prints and asks for, but for `/queue`.
pub open spec fn command_reply(input: Seq<char>, c: CommandContext) -> Reply {
    let name = repl::first_word(input);
    match builtin_reply(input, c) {
        Some(r) => r,
        None => if text::starts_with(name, "/skill:"@) {
            skill_reply(name.skip("/skill:"@.len() as int), c.skills@)
        } else {
            other_reply(name, input, c)
        },
    }
}

/// What `/queue` asks for and prints.
pub open spec fn queue_reply(e: queue_cmd::QueueEffect) -> Reply {
    (
        match e.inject {
            Some(t) => CommandOutcome::Inject(t),
            None => CommandOutcome::Handled,
        },
        e.out,
    )
}

pub open spec fn queue_effect(input: Seq<char>, q: Seq<Seq<char>>) -> queue_cmd::QueueEffect {
    queue_cmd::queue_command(q, pieces::sub_and_rest(input).0, pieces::sub_and_rest(input).1)
}

/// Carries out a command: the lines that it prints, and what is left for the session to do.
/// Only `/queue` changes the queue.
pub fn handle_command(input: &str, ctx: &CommandContext, queue: &mut MessageQueue) -> (r: (
    CommandOutcome,
    Output,
))
    ensures
        repl::first_word(input@) == "/queue"@ ==> {
            &&& reply_view(r) == queue_reply(queue_effect(input@, old(queue)@))
            &&& final(queue)@ == queue_effect(input@, old(queue)@).queue
        },
        repl::first_word(input@) != "/queue"@ ==> {
            &&& reply_view(r) == command_reply(input@, *ctx)
            &&& final(queue)@ == old(queue)@
        },
{
    let w = words_of(input);
    let ghost wv = text::texts(w@);
    assert(wv.len() == w.len());
    let name = if w.len() > 0 {
        assert(wv[0] == w@[0]@);
        copy_text(&w[0])
    } else {
        String::new()
    };
    assert(name@ == repl::first_word(input@));
    if same(&name, "/queue") {
        let reply = handle_queue(input, queue);
        return match reply.inject {
            Some(t) => (CommandOutcome::Inject(t), reply.out),
            None => (CommandOutcome::Handled, reply.out),
        };
    }
    if let Some(r) = plain_reply_of(&name, ctx) {
        return r;
    }
    if let Some(r) = choosing_reply_of(&name, &w, ctx) {
        return r;
    }
    if same(&name, "/jobs") {
        handle_jobs(&w, &ctx.jobs)
    } else if same(&name, "/todo") {
        asks_of(CommandOutcome::Todo(handle_todo(input, &ctx.todo)))
    } else if same(&name, "/goal") {
        goal_reply_of(input, &ctx.goal)
    } else if same(&name, "/mcp") {
        handle_mcp(input, ctx.has_config_dir, &ctx.mcp, &ctx.prompts)
    } else if same(&name, "/paste") {
        asks_of(CommandOutcome::Paste(handle_paste(input)))
    } else if same(&name, "/diff") {
        handle_diff(input)
    } else if same(&name, "/lang") {
        handle_lang(&w, &ctx.locale, &ctx.locales)
    } else if same(&name, "/github") {
        github_reply_of(&w, ctx.github_enabled, ctx.github_allow_write, ctx.github_token)
    } else if same(&name, "/tools") {
        handle_tools(&w, &ctx.optional, ctx.github_enabled)
    } else if same(&name, "/enhance") {
        handle_enhance(&w)
    } else if same(&name, "/suggest") {
        handle_suggest(&w)
    } else if same(&name, "/review") {
        handle_review(&w)
    } else {
        match behind(&name, "/skill:") {
            Some(s) => inject_skill(&s, &ctx.skills),
            None => other_reply_of(&name, input, ctx),
        }
    }
}

/// A built-in command asks for the same thing whatever commands the user and the servers
/// define: none of theirs takes its place. (`/queue` reads none of them.)
pub proof fn built_in_commands_are_not_shadowed(
    input: Seq<char>,
    c: CommandContext,
    commands: Vec<CustomCommand>,
    prompts: Vec<(String, McpPromptInfo)>,
)
    requires
        repl::builtin_names().contains(repl::first_word(input)),
        repl::first_word(input) != "/queue"@,
    ensures
        command_reply(input, c).0 == command_reply(
            input,
            CommandContext { commands, prompts, ..c },
        ).0,
{
    let name = repl::first_word(input);
    let names = repl::builtin_names();
    let i = choose|i: int| 0 <= i < names.len() && names[i] == name;
    assert(names[i] == name);
}

/// The built-in names are just the commands that are carried out here: no line that begins
/// with one is taken for an unknown command, and none that begins otherwise is a built-in one.
pub proof fn built_in_commands_are_known(input: Seq<char>, c: CommandContext)
    ensures
        repl::builtin_names().contains(repl::first_word(input)) <==> (repl::first_word(input)
            == "/queue"@ || builtin_reply(input, c) is Some),
        builtin_reply(input, c) matches Some(r) ==> command_reply(input, c) == r,
{
    let name = repl::first_word(input);
    let names = repl::builtin_names();
    if names.contains(name) {
        let i = choose|i: int| 0 <= i < names.len() && names[i] == name;
        assert(names[i] == name);
    }
    if name == "/queue"@ || builtin_reply(input, c) is Some {
        assert(exists|i: int| 0 <= i < names.len() && names[i] == name) by {
            assert(names[0] == "/h"@ && names[1] == "/help"@ && names[2] == "/?"@);
            assert(names[3] == "/status"@ && names[4] == "/usage"@ && names[5] == "/context"@);
            assert(names[6] == "/clear"@ && names[7] == "/new"@ && names[8] == "/retry"@);
            assert(names[9] == "/jobs"@ && names[10] == "/queue"@ && names[11] == "/settings"@);
            assert(names[12] == "/hotkeys"@ && names[13] == "/todo"@ && names[14] == "/goal"@);
            assert(names[15] == "/diff"@ && names[16] == "/fresh"@ && names[17] == "/model"@);
            assert(names[18] == "/mode"@ && names[19] == "/plan"@ && names[20] == "/paste"@);
            assert(names[21] == "/enhance"@ && names[22] == "/suggest"@);
            assert(names[23] == "/review"@ && names[24] == "/compact"@ && names[25] == "/tree"@);
            assert(names[26] == "/branch"@ && names[27] == "/models"@ && names[28] == "/mcp"@);
            assert(names[29] == "/skill"@ && names[30] == "/skills"@);
            assert(names[31] == "/sessions"@ && names[32] == "/session"@);
            assert(names[33] == "/resume"@ && names[34] == "/swarm"@ && names[35] == "/agents"@);
            assert(names[36] == "/collab"@ && names[37] == "/github"@ && names[38] == "/tools"@);
            assert(names[39] == "/lang"@ && names[40] == "/exit"@ && names[41] == "/quit"@);
        }
    }
}

/// What a key types is a built-in command.
pub proof fn actions_type_built_in_commands(a: Action)
    requires
        keybindings::inserted(a) is Some,
    ensures
        repl::builtin_names().contains(repl::first_word(keybindings::inserted(a)->0)),
{
    let t = keybindings::inserted(a)->0;
    let names = repl::builtin_names();
    reveal_strlit("/retry");
    reveal_strlit("/new");
    reveal_strlit("/queue list");
    reveal_strlit("/queue");
    reveal_strlit("/settings");
    let n: int = match a {
        Action::Retry => 8,
        Action::SessionNew => 7,
        Action::QueueList => 10,
        _ => 11,
    };
    pieces::lemma_first_word(t, names[n].len() as int);
    assert(t.take(names[n].len() as int) =~= names[n]);
    assert(names[n] == repl::first_word(t));
}

proof fn job_lines_hold_each(j: Seq<JobRow>, n: int)
    requires
        0 <= n <= j.len(),
    ensures
        job_lines(j, n).len() == n,
        forall|i: int| 0 <= i < n ==> #[trigger] job_lines(j, n)[i] == job_line(j[i]),
    decreases n,
{
    if n > 0 {
        job_lines_hold_each(j, n - 1);
    }
}

/// Every job is listed, in order, with its id, its kind, how it stands and how long it has run.
pub proof fn every_job_is_listed(j: Seq<JobRow>, i: int)
    requires
        0 <= i < j.len(),
    ensures
        jobs_listing(j).len() == j.len() + 1,
        match jobs_listing(j)[i + 1] {
            say::LineView::Msg(m) => {
                &&& m.args.len() == 5
                &&& m.args[0].1 == say::ValView::Text(j[i].id@)
                &&& m.args[1].1 == say::ValView::Text(j[i].kind@)
                &&& m.args[2].1 == say::ValView::Text(j[i].status@)
                &&& m.args[3].1 == say::ValView::Text(numeral::dec(j[i].ms as nat))
                &&& m.args[4].1 == say::ValView::Text(repl::preview(j[i].label@, 60))
            },
            _ => false,
        },
{
    job_lines_hold_each(j, j.len() as int);
    assert(jobs_listing(j)[i + 1] == job_lines(j, j.len() as int)[i]);
}

proof fn skill_is_found(s: Seq<Skill>, name: Seq<char>, j: int, i: int)
    requires
        0 <= j <= i <= s.len(),
        forall|k: int| 0 <= k < i ==> (#[trigger] s[k]).name@ != name,
        i < s.len() ==> s[i].name@ == name,
    ensures
        skill_index(s, name, j) == i,
    decreases i - j,
{
    if j < i {
        assert(s[j].name@ != name);
        skill_is_found(s, name, j + 1, i);
    }
}

/// The file that is read for a skill is that of the first skill of its name; where there is
/// none, no file is.
pub proof fn skills_are_read_by_name(s: Seq<Skill>, name: Seq<char>, i: int)
    requires
        0 <= i <= s.len(),
        forall|k: int| 0 <= k < i ==> (#[trigger] s[k]).name@ != name,
        i < s.len() ==> s[i].name@ == name,
    ensures
        i < s.len() ==> skill_reply(name, s).0 is ReadSkill,
        i < s.len() ==> skill_reply(name, s).0->ReadSkill_path == s[i].file_path@,
        i == s.len() ==> !(skill_reply(name, s).0 is ReadSkill),
{
    skill_is_found(s, name, 0, i);
}

} // verus!
