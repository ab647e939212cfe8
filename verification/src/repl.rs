//! The names of the interactive commands, their arguments, and their completion.
use vstd::prelude::*;

use crate::order;
use crate::order::sort_dedup;
use crate::pieces;
use crate::pieces::{join_of, rsplit_once_of, words_of};
use crate::secrets::lower_of;
use crate::text;
use crate::text::{behind, bytes_before, cat, chars_before_of, chars_of, contains_char, copy_text, has_prefix, same, sub_text, trimmed, trimmed_start};

verus! {

// ── Modes ───────────────────────────────────────────────────────────────────

/// The manner in which the agent works.
#[derive(Clone, Copy, Debug, PartialEq, Eq, Structural)]
pub enum Mode {
    Code,
    Architect,
    Ask,
    Debug,
    Plan,
}

/// The mode of a name.
pub open spec fn mode_of(s: Seq<char>) -> Option<Mode> {
    let t = text::trim(s);
    if t == "code"@ {
        Some(Mode::Code)
    } else if t == "architect"@ {
        Some(Mode::Architect)
    } else if t == "ask"@ {
        Some(Mode::Ask)
    } else if t == "debug"@ {
        Some(Mode::Debug)
    } else if t == "plan"@ {
        Some(Mode::Plan)
    } else {
        None
    }
}

pub fn parse_mode(arg: &str) -> (r: Option<Mode>)
    ensures
        r == mode_of(arg@),
{
    let t = trimmed(arg);
    if same(&t, "code") {
        Some(Mode::Code)
    } else if same(&t, "architect") {
        Some(Mode::Architect)
    } else if same(&t, "ask") {
        Some(Mode::Ask)
    } else if same(&t, "debug") {
        Some(Mode::Debug)
    } else if same(&t, "plan") {
        Some(Mode::Plan)
    } else {
        None
    }
}

/// The catalogue entry with the label of a mode.
pub open spec fn mode_key(m: Mode) -> Seq<char> {
    match m {
        Mode::Code => "mode.code"@,
        Mode::Architect => "mode.architect"@,
        Mode::Ask => "mode.ask"@,
        Mode::Debug => "mode.debug"@,
        Mode::Plan => "mode.plan"@,
    }
}

pub fn mode_label(m: Mode) -> (r: &'static str)
    ensures
        r@ == mode_key(m),
{
    match m {
        Mode::Code => "mode.code",
        Mode::Architect => "mode.architect",
        Mode::Ask => "mode.ask",
        Mode::Debug => "mode.debug",
        Mode::Plan => "mode.plan",
    }
}

// ── Command names ───────────────────────────────────────────────────────────

/// The names of the built-in commands.
pub open spec fn builtin_names() -> Seq<Seq<char>> {
    seq![
        "/h"@,
        "/help"@,
        "/?"@,
        "/status"@,
        "/usage"@,
        "/context"@,
        "/clear"@,
        "/new"@,
        "/retry"@,
        "/jobs"@,
        "/queue"@,
        "/settings"@,
        "/hotkeys"@,
        "/todo"@,
        "/goal"@,
        "/diff"@,
        "/fresh"@,
        "/model"@,
        "/mode"@,
        "/plan"@,
        "/paste"@,
        "/enhance"@,
        "/suggest"@,
        "/review"@,
        "/compact"@,
        "/tree"@,
        "/branch"@,
        "/models"@,
        "/mcp"@,
        "/skill"@,
        "/skills"@,
        "/sessions"@,
        "/session"@,
        "/resume"@,
        "/swarm"@,
        "/agents"@,
        "/collab"@,
        "/github"@,
        "/tools"@,
        "/lang"@,
        "/exit"@,
        "/quit"@,
    ]
}

pub open spec fn strs(v: Seq<&str>) -> Seq<Seq<char>> {
    Seq::new(v.len(), |i: int| v[i]@)
}

pub fn builtin_commands() -> (r: Vec<&'static str>)
    ensures
        strs(r@) == builtin_names(),
{
    let r = vec![
        "/h",
        "/help",
        "/?",
        "/status",
        "/usage",
        "/context",
        "/clear",
        "/new",
        "/retry",
        "/jobs",
        "/queue",
        "/settings",
        "/hotkeys",
        "/todo",
        "/goal",
        "/diff",
        "/fresh",
        "/model",
        "/mode",
        "/plan",
        "/paste",
        "/enhance",
        "/suggest",
        "/review",
        "/compact",
        "/tree",
        "/branch",
        "/models",
        "/mcp",
        "/skill",
        "/skills",
        "/sessions",
        "/session",
        "/resume",
        "/swarm",
        "/agents",
        "/collab",
        "/github",
        "/tools",
        "/lang",
        "/exit",
        "/quit",
    ];
    assert(strs(r@) =~= builtin_names());
    r
}

/// Every built-in name is one word that begins with a slash, and no two are the same.
pub proof fn built_in_names_are_distinct_words()
    ensures
        forall|i: int|
            0 <= i < builtin_names().len() ==> pieces::is_word(#[trigger] builtin_names()[i])
                && builtin_names()[i][0] == '/',
        builtin_names().no_duplicates(),
{
    let names = builtin_names();
    reveal_strlit("/h");
    reveal_strlit("/help");
    reveal_strlit("/?");
    reveal_strlit("/status");
    reveal_strlit("/usage");
    reveal_strlit("/context");
    reveal_strlit("/clear");
    reveal_strlit("/new");
    reveal_strlit("/retry");
    reveal_strlit("/jobs");
    reveal_strlit("/queue");
    reveal_strlit("/settings");
    reveal_strlit("/hotkeys");
    reveal_strlit("/todo");
    reveal_strlit("/goal");
    reveal_strlit("/diff");
    reveal_strlit("/fresh");
    reveal_strlit("/model");
    reveal_strlit("/mode");
    reveal_strlit("/plan");
    reveal_strlit("/paste");
    reveal_strlit("/enhance");
    reveal_strlit("/suggest");
    reveal_strlit("/review");
    reveal_strlit("/compact");
    reveal_strlit("/tree");
    reveal_strlit("/branch");
    reveal_strlit("/models");
    reveal_strlit("/mcp");
    reveal_strlit("/skill");
    reveal_strlit("/skills");
    reveal_strlit("/sessions");
    reveal_strlit("/session");
    reveal_strlit("/resume");
    reveal_strlit("/swarm");
    reveal_strlit("/agents");
    reveal_strlit("/collab");
    reveal_strlit("/github");
    reveal_strlit("/tools");
    reveal_strlit("/lang");
    reveal_strlit("/exit");
    reveal_strlit("/quit");
    assert forall|i: int| 0 <= i < names.len() implies pieces::is_word(#[trigger] names[i])
        && names[i][0] == '/' by {
    }
    assert forall|i: int, j: int| 0 <= i < j < names.len() implies names[i] != names[j] by {
        let a = names[i];
        let b = names[j];
        if a == b {
            assert(a.len() == b.len());
            assert(a[1] == b[1] && a[2] == b[2] && a[3] == b[3] && a[4] == b[4]);
            assert(a[5] == b[5] && a[6] == b[6] && a[7] == b[7]);
        }
    }
}

/// Owned copies of some texts.
pub fn strings(v: &Vec<&str>) -> (r: Vec<String>)
    ensures
        text::texts(r@) == strs(v@),
{
    let mut r: Vec<String> = Vec::new();
    let mut i: usize = 0;
    while i < v.len()
        invariant
            i <= v.len(),
            text::texts(r@) == strs(v@).take(i as int),
        decreases v.len() - i,
    {
        let s = copy_text(v[i]);
        proof {
            text::lemma_texts_push(r@, s);
        }
        r.push(s);
        i = i + 1;
        assert(text::texts(r@) =~= strs(v@).take(i as int));
    }
    assert(text::texts(r@) =~= strs(v@));
    r
}

/// A command that the user or the project defines.
#[derive(Debug)]
pub struct CustomCommand {
    pub name: String,
    pub description: String,
    /// The text that the command sends.
    pub body: String,
}

pub open spec fn custom_names(c: Seq<CustomCommand>) -> Seq<Seq<char>> {
    Seq::new(c.len(), |i: int| "/"@ + c[i].name@)
}

fn push_text(v: &mut Vec<String>, s: String)
    ensures
        text::texts(final(v)@) == text::texts(old(v)@).push(s@),
{
    proof {
        text::lemma_texts_push(v@, s);
    }
    v.push(s);
}

fn unsorted_names(custom: &Vec<CustomCommand>) -> (r: Vec<String>)
    ensures
        text::texts(r@) == builtin_names() + custom_names(custom@),
{
    let mut r = strings(&builtin_commands());
    let mut i: usize = 0;
    assert(text::texts(r@) =~= builtin_names() + custom_names(custom@).take(0));
    while i < custom.len()
        invariant
            i <= custom.len(),
            text::texts(r@) == builtin_names() + custom_names(custom@).take(i as int),
        decreases custom.len() - i,
    {
        push_text(&mut r, cat("/", &custom[i].name));
        i = i + 1;
        assert(text::texts(r@) =~= builtin_names() + custom_names(custom@).take(i as int));
    }
    assert(custom_names(custom@).take(i as int) =~= custom_names(custom@));
    r
}

/// All command names, each once, in alphabetical order.
pub fn all_command_names(custom: &Vec<CustomCommand>) -> (r: Vec<String>)
    ensures
        order::sorted_set(text::texts(r@), builtin_names() + custom_names(custom@)),
{
    sort_dedup(&unsorted_names(custom))
}

/// An argument of a server's prompt.
#[derive(Debug)]
pub struct McpPromptArg {
    pub name: String,
    pub required: bool,
}

/// A prompt that a tool server offers.
#[derive(Debug)]
pub struct McpPromptInfo {
    pub name: String,
    pub description: String,
    pub arguments: Vec<McpPromptArg>,
}

pub open spec fn prompt_command(server: Seq<char>, prompt: Seq<char>) -> Seq<char> {
    "/"@ + server + ":"@ + prompt
}

pub open spec fn prompt_names(p: Seq<(String, McpPromptInfo)>) -> Seq<Seq<char>> {
    Seq::new(p.len(), |i: int| prompt_command(p[i].0@, p[i].1.name@))
}

/// All command names with those of the servers' prompts.
pub fn all_command_names_with_prompts(
    custom: &Vec<CustomCommand>,
    prompts: &Vec<(String, McpPromptInfo)>,
) -> (r: Vec<String>)
    ensures
        order::sorted_set(
            text::texts(r@),
            builtin_names() + custom_names(custom@) + prompt_names(prompts@),
        ),
{
    let mut r = unsorted_names(custom);
    let ghost base = text::texts(r@);
    let mut i: usize = 0;
    assert(text::texts(r@) =~= base + prompt_names(prompts@).take(0));
    while i < prompts.len()
        invariant
            i <= prompts.len(),
            text::texts(r@) == base + prompt_names(prompts@).take(i as int),
        decreases prompts.len() - i,
    {
        let n = cat(&cat("/", &prompts[i].0), ":");
        push_text(&mut r, cat(&n, &prompts[i].1.name));
        i = i + 1;
        assert(text::texts(r@) =~= base + prompt_names(prompts@).take(i as int));
    }
    assert(prompt_names(prompts@).take(i as int) =~= prompt_names(prompts@));
    sort_dedup(&r)
}

/// Without prompts the two lists of names are the same.
pub proof fn no_prompts_add_no_names(
    custom: Seq<CustomCommand>,
    prompts: Seq<(String, McpPromptInfo)>,
    a: Seq<Seq<char>>,
    b: Seq<Seq<char>>,
)
    requires
        prompts.len() == 0,
        order::sorted_set(a, builtin_names() + custom_names(custom)),
        order::sorted_set(b, builtin_names() + custom_names(custom) + prompt_names(prompts)),
    ensures
        a == b,
{
    let all = builtin_names() + custom_names(custom);
    assert(all + prompt_names(prompts) =~= all);
    order::sorted_set_is_unique(a, b, all);
}

/// A model's name and its alias, where it has one.
#[derive(Debug)]
pub struct ModelName {
    pub id: String,
    pub alias: Option<String>,
}

/// The names and aliases of the first `n` models.
pub open spec fn model_names(m: Seq<ModelName>, n: int) -> Seq<Seq<char>>
    decreases n,
{
    if n <= 0 {
        Seq::empty()
    } else {
        let prev = model_names(m, n - 1).push(m[n - 1].id@);
        match m[n - 1].alias {
            Some(a) => prev.push(a@),
            None => prev,
        }
    }
}

/// The names under which a model can be asked for, each once, in alphabetical order. The
/// default model is the first of the list.
pub fn model_choices(models: &Vec<ModelName>) -> (r: Vec<String>)
    ensures
        order::sorted_set(text::texts(r@), model_names(models@, models.len() as int)),
{
    let mut r: Vec<String> = Vec::new();
    let mut i: usize = 0;
    assert(text::texts(r@) =~= Seq::<Seq<char>>::empty());
    while i < models.len()
        invariant
            i <= models.len(),
            text::texts(r@) == model_names(models@, i as int),
        decreases models.len() - i,
    {
        push_text(&mut r, copy_text(&models[i].id));
        match &models[i].alias {
            Some(a) => push_text(&mut r, copy_text(a)),
            None => {},
        }
        i = i + 1;
    }
    sort_dedup(&r)
}

// ── Arguments ───────────────────────────────────────────────────────────────

/// What `/github` is asked to do.
#[derive(Debug)]
pub enum GithubToggle<S = String> {
    Status,
    Enable,
    Disable,
    Write,
    Unknown(S),
}

impl GithubToggle {
    pub open spec fn view(&self) -> GithubToggle<Seq<char>> {
        match self {
            GithubToggle::Status => GithubToggle::Status,
            GithubToggle::Enable => GithubToggle::Enable,
            GithubToggle::Disable => GithubToggle::Disable,
            GithubToggle::Write => GithubToggle::Write,
            GithubToggle::Unknown(s) => GithubToggle::Unknown(s@),
        }
    }
}

pub open spec fn github_toggle(arg: Option<Seq<char>>) -> GithubToggle<Seq<char>> {
    match arg {
        None => GithubToggle::Status,
        Some(a) => {
            let t = text::lower(text::trim(a));
            if t == ""@ {
                GithubToggle::Status
            } else if t == "on"@ || t == "enable"@ || t == "enabled"@ {
                GithubToggle::Enable
            } else if t == "off"@ || t == "disable"@ || t == "disabled"@ {
                GithubToggle::Disable
            } else if t == "write"@ {
                GithubToggle::Write
            } else {
                GithubToggle::Unknown(a)
            }
        },
    }
}

pub open spec fn str_text(o: Option<&str>) -> Option<Seq<char>> {
    match o {
        Some(s) => Some(s@),
        None => None,
    }
}

pub fn parse_github_subcommand(arg: Option<&str>) -> (r: GithubToggle)
    ensures
        r.view() == github_toggle(str_text(arg)),
{
    match arg {
        None => GithubToggle::Status,
        Some(a) => {
            let t = lower_of(&trimmed(a));
            if same(&t, "") {
                GithubToggle::Status
            } else if same(&t, "on") || same(&t, "enable") || same(&t, "enabled") {
                GithubToggle::Enable
            } else if same(&t, "off") || same(&t, "disable") || same(&t, "disabled") {
                GithubToggle::Disable
            } else if same(&t, "write") {
                GithubToggle::Write
            } else {
                GithubToggle::Unknown(copy_text(a))
            }
        },
    }
}

/// The groups of tools that can be switched.
pub open spec fn tool_groups() -> Seq<Seq<char>> {
    seq!["ast"@, "lsp"@, "image"@, "hashline"@, "pty"@, "github"@]
}

pub fn tool_group_names() -> (r: Vec<&'static str>)
    ensures
        strs(r@) == tool_groups(),
{
    let r = vec!["ast", "lsp", "image", "hashline", "pty", "github"];
    assert(strs(r@) =~= tool_groups());
    r
}

pub fn is_known_tools_key(key: &str) -> (r: bool)
    ensures
        r == tool_groups().contains(key@),
{
    let g = tool_group_names();
    let mut i: usize = 0;
    while i < g.len()
        invariant
            i <= g.len(),
            strs(g@) == tool_groups(),
            forall|k: int| 0 <= k < i ==> tool_groups()[k] != key@,
        decreases g.len() - i,
    {
        assert(tool_groups()[i as int] == g@[i as int]@);
        if same(g[i], key) {
            assert(tool_groups()[i as int] == key@);
            return true;
        }
        i = i + 1;
    }
    assert(g.len() == tool_groups().len());
    false
}

/// Whether a group of tools has a switch of its own, which the one for GitHub has not.
pub fn is_known_optional_key(key: &str) -> (r: bool)
    ensures
        r == (key@ != "github"@ && tool_groups().contains(key@)),
{
    !same(key, "github") && is_known_tools_key(key)
}

// ── Previews ────────────────────────────────────────────────────────────────

/// A text on one line, cut to a length.
pub open spec fn preview(s: Seq<char>, max: nat) -> Seq<char> {
    let flat = pieces::join(pieces::words(s), " "@);
    if flat.len() <= max {
        flat
    } else {
        flat.take(max as int) + "…"@
    }
}

pub fn preview_text(text: &str, max: usize) -> (r: String)
    ensures
        r@ == preview(text@, max as nat),
{
    let flat = join_of(&words_of(text), " ");
    let v = chars_of(&flat);
    if v.len() <= max {
        return flat;
    }
    let head = sub_text(&v, 0, max);
    assert(head@ =~= flat@.take(max as int));
    cat(&head, "…")
}

/// A preview is never longer than its limit and the mark behind it.
pub proof fn preview_is_short(s: Seq<char>, max: nat)
    ensures
        preview(s, max).len() <= max + 1,
{
    reveal_strlit("…");
}

// ── Completion ──────────────────────────────────────────────────────────────

/// Those of the first `n` texts that begin with `p`.
pub open spec fn starting(v: Seq<Seq<char>>, p: Seq<char>, n: int) -> Seq<Seq<char>>
    decreases n,
{
    if n <= 0 {
        Seq::empty()
    } else if text::starts_with(v[n - 1], p) {
        starting(v, p, n - 1).push(v[n - 1])
    } else {
        starting(v, p, n - 1)
    }
}

/// Those texts that begin with `p`.
pub open spec fn all_starting(v: Seq<Seq<char>>, p: Seq<char>) -> Seq<Seq<char>> {
    starting(v, p, v.len() as int)
}

fn starting_of(v: &Vec<String>, p: &str) -> (r: Vec<String>)
    ensures
        text::texts(r@) == all_starting(text::texts(v@), p@),
{
    let mut r: Vec<String> = Vec::new();
    let mut i: usize = 0;
    assert(text::texts(r@) =~= Seq::<Seq<char>>::empty());
    while i < v.len()
        invariant
            i <= v.len(),
            text::texts(r@) == starting(text::texts(v@), p@, i as int),
        decreases v.len() - i,
    {
        assert(text::texts(v@)[i as int] == v@[i as int]@);
        if has_prefix(&v[i], p) {
            push_text(&mut r, copy_text(&v[i]));
        }
        i = i + 1;
    }
    r
}

pub open spec fn is_second_arg(typed: Seq<char>) -> bool {
    match text::after(typed, "/tools"@) {
        Some(rest) => text::has_char(text::trim_start(rest), ' '),
        None => false,
    }
}

/// What the arguments of `/tools` can become: a group first, then `on` or `off`.
pub open spec fn tools_candidates(typed: Seq<char>, prefix: Seq<char>) -> Seq<Seq<char>> {
    if is_second_arg(typed) {
        all_starting(seq!["on"@, "off"@], prefix)
    } else {
        all_starting(tool_groups(), prefix)
    }
}

pub fn complete_tools_args(typed: &str, prefix: &str) -> (r: Vec<String>)
    ensures
        text::texts(r@) == tools_candidates(typed@, prefix@),
{
    let second = match behind(typed, "/tools") {
        Some(rest) => contains_char(&trimmed_start(&rest), ' '),
        None => false,
    };
    if second {
        let v = vec!["on", "off"];
        assert(strs(v@) =~= seq!["on"@, "off"@]);
        starting_of(&strings(&v), prefix)
    } else {
        starting_of(&strings(&tool_group_names()), prefix)
    }
}

/// What can be completed: command names, models, skills and sessions.
#[derive(Debug)]
pub struct ReplHelper {
    commands: Vec<String>,
    model_aliases: Vec<String>,
    skill_names: Vec<String>,
    session_ids: Vec<String>,
}

/// The same, as specifications speak of it.
pub struct HelperView {
    pub commands: Seq<Seq<char>>,
    pub model_aliases: Seq<Seq<char>>,
    pub skill_names: Seq<Seq<char>>,
    pub session_ids: Seq<Seq<char>>,
}

impl View for ReplHelper {
    type V = HelperView;

    closed spec fn view(&self) -> HelperView {
        HelperView {
            commands: text::texts(self.commands@),
            model_aliases: text::texts(self.model_aliases@),
            skill_names: text::texts(self.skill_names@),
            session_ids: text::texts(self.session_ids@),
        }
    }
}

/// The texts with `/skill:` before each.
pub open spec fn skill_commands(v: Seq<Seq<char>>) -> Seq<Seq<char>> {
    Seq::new(v.len(), |i: int| "/skill:"@ + v[i])
}

/// The first word of a line, or nothing.
pub open spec fn first_word(s: Seq<char>) -> Seq<char> {
    let w = pieces::words(s);
    if w.len() == 0 {
        Seq::empty()
    } else {
        w[0]
    }
}

/// Where the argument under the cursor begins: behind the last space.
pub open spec fn arg_start(typed: Seq<char>) -> int {
    pieces::last_index_of_char(typed, ' ') + 1
}

/// What the argument under the cursor can become.
pub open spec fn arg_candidates(h: HelperView, typed: Seq<char>) -> Seq<Seq<char>> {
    let cmd = first_word(typed);
    let prefix = typed.skip(arg_start(typed));
    if cmd == "/mode"@ {
        all_starting(seq!["code"@, "architect"@, "ask"@, "debug"@, "plan"@], prefix)
    } else if cmd == "/github"@ {
        all_starting(seq!["on"@, "off"@, "write"@], prefix)
    } else if cmd == "/tools"@ {
        tools_candidates(typed, prefix)
    } else if cmd == "/lang"@ {
        all_starting(seq!["en"@, "zh"@, "ru"@, "ja"@], prefix)
    } else if cmd == "/model"@ {
        all_starting(h.model_aliases, prefix)
    } else if cmd == "/skill"@ || cmd == "/skills"@ {
        all_starting(h.skill_names, prefix)
    } else if cmd == "/session"@ || cmd == "/sessions"@ || cmd == "/resume"@ {
        all_starting(h.session_ids, prefix)
    } else {
        Seq::empty()
    }
}

/// A completion of what was typed: from which byte on it is replaced, and by what.
pub open spec fn completes(
    h: HelperView,
    typed: Seq<char>,
    start: nat,
    cands: Seq<Seq<char>>,
) -> bool {
    if typed.len() == 0 || typed[0] != '/' {
        start == 0 && cands == Seq::<Seq<char>>::empty()
    } else if !text::has_char(typed, ' ') {
        start == 0 && match text::after(typed, "/skill:"@) {
            Some(rest) => cands == skill_commands(all_starting(h.skill_names, rest)),
            None => order::sorted_set(cands, all_starting(h.commands, typed)),
        }
    } else {
        &&& start == text::byte_len(typed.take(arg_start(typed)))
        &&& cands == arg_candidates(h, typed)
    }
}

proof fn lemma_last_index(s: Seq<char>, c: char)
    ensures
        -1 <= pieces::last_index_of_char(s, c) < s.len(),
    decreases s.len(),
{
    if s.len() > 0 && s.last() != c {
        lemma_last_index(s.drop_last(), c);
    }
}

impl ReplHelper {
    pub fn new(
        commands: Vec<String>,
        model_aliases: Vec<String>,
        skill_names: Vec<String>,
        session_ids: Vec<String>,
    ) -> (r: Self)
        ensures
            r@.commands == text::texts(commands@),
            r@.model_aliases == text::texts(model_aliases@),
            r@.skill_names == text::texts(skill_names@),
            r@.session_ids == text::texts(session_ids@),
    {
        ReplHelper { commands, model_aliases, skill_names, session_ids }
    }

    fn arg_candidates_of(&self, typed: &str, prefix: &str) -> (r: Vec<String>)
        requires
            prefix@ == typed@.skip(arg_start(typed@)),
        ensures
            text::texts(r@) == arg_candidates(self@, typed@),
    {
        let w = words_of(typed);
        let ghost wv = text::texts(w@);
        assert(wv.len() == w.len());
        let cmd: &str = if w.len() == 0 {
            ""
        } else {
            assert(wv[0] == w@[0]@);
            w[0].as_str()
        };
        proof {
            reveal_strlit("");
            assert(cmd@ =~= first_word(typed@));
        }
        if same(cmd, "/mode") {
            let v = vec!["code", "architect", "ask", "debug", "plan"];
            assert(strs(v@) =~= seq!["code"@, "architect"@, "ask"@, "debug"@, "plan"@]);
            starting_of(&strings(&v), prefix)
        } else if same(cmd, "/github") {
            let v = vec!["on", "off", "write"];
            assert(strs(v@) =~= seq!["on"@, "off"@, "write"@]);
            starting_of(&strings(&v), prefix)
        } else if same(cmd, "/tools") {
            complete_tools_args(typed, prefix)
        } else if same(cmd, "/lang") {
            let v = vec!["en", "zh", "ru", "ja"];
            assert(strs(v@) =~= seq!["en"@, "zh"@, "ru"@, "ja"@]);
            starting_of(&strings(&v), prefix)
        } else if same(cmd, "/model") {
            starting_of(&self.model_aliases, prefix)
        } else if same(cmd, "/skill") || same(cmd, "/skills") {
            starting_of(&self.skill_names, prefix)
        } else if same(cmd, "/session") || same(cmd, "/sessions") || same(cmd, "/resume") {
            starting_of(&self.session_ids, prefix)
        } else {
            let r: Vec<String> = Vec::new();
            assert(text::texts(r@) =~= Seq::<Seq<char>>::empty());
            r
        }
    }

    /// Completes a line at a byte position: where the replaced part begins, and what it can
    /// become.
    pub fn complete_line(&self, line: &str, pos: usize) -> (r: (usize, Vec<String>))
        requires
            text::is_boundary(line@, pos as nat),
        ensures
            completes(
                self@,
                line@.take(text::chars_before(line@, pos as nat)),
                r.0 as nat,
                text::texts(r.1@),
            ),
    {
        let v = chars_of(line);
        let k: usize = chars_before_of(&v, pos);
        let typed = sub_text(&v, 0, k);
        assert(typed@ =~= line@.take(k as int));
        let none: Vec<String> = Vec::new();
        assert(text::texts(none@) =~= Seq::<Seq<char>>::empty());
        let t = chars_of(&typed);
        if t.len() == 0 || t[0] != '/' {
            return (0, none);
        }
        if !contains_char(&typed, ' ') {
            match behind(&typed, "/skill:") {
                Some(rest) => {
                    let found = starting_of(&self.skill_names, &rest);
                    let ghost fv = text::texts(found@);
                    let mut r: Vec<String> = Vec::new();
                    let mut i: usize = 0;
                    assert(text::texts(r@) =~= skill_commands(fv).take(0));
                    while i < found.len()
                        invariant
                            i <= found.len(),
                            fv == text::texts(found@),
                            text::texts(r@) == skill_commands(fv).take(i as int),
                        decreases found.len() - i,
                    {
                        assert(fv[i as int] == found@[i as int]@);
                        push_text(&mut r, cat("/skill:", &found[i]));
                        i = i + 1;
                        assert(text::texts(r@) =~= skill_commands(fv).take(i as int));
                    }
                    assert(skill_commands(fv).take(i as int) =~= skill_commands(fv));
                    return (0, r);
                },
                None => {
                    let found = starting_of(&self.commands, &typed);
                    return (0, sort_dedup(&found));
                },
            }
        }
        proof {
            lemma_last_index(typed@, ' ');
        }
        let mut a: usize = 0;
        match rsplit_once_of(&typed, ' ') {
            Some((head, _)) => {
                a = chars_of(&head).len() + 1;
            },
            None => {},
        }
        assert(a == arg_start(typed@));
        let prefix = sub_text(&t, a, t.len());
        assert(prefix@ =~= typed@.skip(a as int));
        proof {
            assert(typed@.take(k as int) =~= typed@);
            if a < k {
                text::lemma_byte_len_grows(typed@, a as int, k as int);
            }
        }
        let start: usize = bytes_before(&t, a);
        let cands = self.arg_candidates_of(&typed, &prefix);
        (start, cands)
    }
}

proof fn lemma_starting(v: Seq<Seq<char>>, p: Seq<char>, n: int, i: int)
    requires
        n <= v.len(),
        0 <= i < starting(v, p, n).len(),
    ensures
        text::starts_with(starting(v, p, n)[i], p),
    decreases n,
{
    if n > 0 && i < starting(v, p, n - 1).len() {
        lemma_starting(v, p, n - 1, i);
    }
}

/// A completion only adds to what it replaces: to the whole line while it is one word, and
/// to the word under the cursor otherwise.
pub proof fn completions_only_add(
    h: HelperView,
    typed: Seq<char>,
    start: nat,
    cands: Seq<Seq<char>>,
    i: int,
)
    requires
        completes(h, typed, start, cands),
        0 <= i < cands.len(),
    ensures
        text::starts_with(
            cands[i],
            if text::has_char(typed, ' ') {
                typed.skip(arg_start(typed))
            } else {
                typed
            },
        ),
{
    if !text::has_char(typed, ' ') {
        match text::after(typed, "/skill:"@) {
            Some(rest) => {
                let found = all_starting(h.skill_names, rest);
                lemma_starting(h.skill_names, rest, h.skill_names.len() as int, i);
                assert(typed =~= "/skill:"@ + rest);
                assert(cands[i].take(typed.len() as int) =~= "/skill:"@ + found[i].take(
                    rest.len() as int,
                ));
            },
            None => {
                let of = all_starting(h.commands, typed);
                assert(cands.contains(cands[i]));
                let k = choose|k: int| 0 <= k < of.len() && of[k] == cands[i];
                lemma_starting(h.commands, typed, h.commands.len() as int, k);
            },
        }
    } else {
        let cmd = first_word(typed);
        let p = typed.skip(arg_start(typed));
        let v = if cmd == "/mode"@ {
            seq!["code"@, "architect"@, "ask"@, "debug"@, "plan"@]
        } else if cmd == "/github"@ {
            seq!["on"@, "off"@, "write"@]
        } else if cmd == "/tools"@ {
            if is_second_arg(typed) {
                seq!["on"@, "off"@]
            } else {
                tool_groups()
            }
        } else if cmd == "/lang"@ {
            seq!["en"@, "zh"@, "ru"@, "ja"@]
        } else if cmd == "/model"@ {
            h.model_aliases
        } else if cmd == "/skill"@ || cmd == "/skills"@ {
            h.skill_names
        } else {
            h.session_ids
        };
        assert(cands == all_starting(v, p));
        lemma_starting(v, p, v.len() as int, i);
    }
}

/// Every name that begins with what was typed is offered, in the order of the names, and no
/// other is.
pub proof fn every_name_that_fits_is_offered(v: Seq<Seq<char>>, x: Seq<char>, p: Seq<char>)
    ensures
        x.len() >= p.len() && x.take(p.len() as int) == p ==> all_starting(v.push(x), p)
            == all_starting(v, p).push(x),
        !(x.len() >= p.len() && x.take(p.len() as int) == p) ==> all_starting(v.push(x), p)
            == all_starting(v, p),
        all_starting(Seq::empty(), p) == Seq::<Seq<char>>::empty(),
        all_starting(v, Seq::empty()) == v,
{
    starting_of_front(v, x, p, v.len() as int);
    everything_starts_empty(v, v.len() as int);
    assert(v.take(v.len() as int) =~= v);
}

proof fn starting_of_front(v: Seq<Seq<char>>, x: Seq<char>, p: Seq<char>, n: int)
    requires
        0 <= n <= v.len(),
    ensures
        starting(v.push(x), p, n) == starting(v, p, n),
    decreases n,
{
    if n > 0 {
        starting_of_front(v, x, p, n - 1);
        assert(v.push(x)[n - 1] == v[n - 1]);
    }
}

proof fn everything_starts_empty(v: Seq<Seq<char>>, n: int)
    requires
        0 <= n <= v.len(),
    ensures
        starting(v, Seq::empty(), n) == v.take(n),
    decreases n,
{
    if n > 0 {
        everything_starts_empty(v, n - 1);
        assert(v[n - 1].take(0) =~= Seq::<char>::empty());
        assert(v.take(n) =~= v.take(n - 1).push(v[n - 1]));
    } else {
        assert(v.take(0) =~= Seq::empty());
    }
}

proof fn command_and_argument(c: Seq<char>, p: Seq<char>)
    requires
        pieces::is_word(c),
        pieces::no_white(p),
    ensures
        first_word(c + seq![' '] + p) == c,
        arg_start(c + seq![' '] + p) == c.len() + 1,
        (c + seq![' '] + p).skip(c.len() as int + 1) == p,
        text::has_char(c + seq![' '] + p, ' '),
{
    let s = c + seq![' '] + p;
    assert(s[c.len() as int] == ' ');
    assert(!text::has_char(p, ' ')) by {
        assert forall|k: int| 0 <= k < p.len() implies p[k] != ' ' by {
            assert(!text::is_white(p[k]));
        }
    }
    pieces::cuts_are_at_the_first_and_last(c, ' ', p);
    assert(s.skip(c.len() as int + 1) =~= p);
    let k = pieces::last_index_of_char(s, ' ');
    pieces::last_place_is_last(s, ' ');
    if k > c.len() {
        assert(p[k - c.len() - 1] == s[k]);
    }
    if p.len() == 0 {
        let w = seq![c];
        pieces::words_and_white(c);
    } else {
        let w = seq![c, p];
        assert(pieces::is_word(p));
        pieces::words_read_back(w);
        pieces::joining_sets_separators_between(c, seq![p], seq![' ']);
        pieces::joining_sets_separators_between(p, Seq::empty(), seq![' ']);
        assert(seq![c] + seq![p] =~= w);
        assert(pieces::join(w, seq![' ']) =~= s);
    }
}

/// Behind `/model` the models are offered, behind `/skill` the skills and behind `/resume` the
/// sessions: all those that begin with what was typed of the argument, which is what they
/// replace.
pub proof fn arguments_are_completed(
    h: HelperView,
    p: Seq<char>,
    start: nat,
    cands: Seq<Seq<char>>,
)
    requires
        pieces::no_white(p),
    ensures
        completes(h, "/model "@ + p, start, cands) ==> start == 7 && cands == all_starting(
            h.model_aliases,
            p,
        ),
        completes(h, "/skill "@ + p, start, cands) ==> start == 7 && cands == all_starting(
            h.skill_names,
            p,
        ),
        completes(h, "/resume "@ + p, start, cands) ==> start == 8 && cands == all_starting(
            h.session_ids,
            p,
        ),
{
    reveal_strlit("/model ");
    reveal_strlit("/skill ");
    reveal_strlit("/resume ");
    reveal_strlit("/mode");
    reveal_strlit("/github");
    reveal_strlit("/tools");
    reveal_strlit("/lang");
    reveal_strlit("/model");
    reveal_strlit("/skill");
    reveal_strlit("/skills");
    reveal_strlit("/session");
    reveal_strlit("/sessions");
    reveal_strlit("/resume");
    let m = "/model"@;
    let k = "/skill"@;
    let r = "/resume"@;
    assert("/model "@ =~= m + seq![' ']);
    assert("/skill "@ =~= k + seq![' ']);
    assert("/resume "@ =~= r + seq![' ']);
    assert(m[1] == 'm' && m[5] == 'l' && k[1] == 's' && k[2] == 'k' && r[1] == 'r');
    assert("/tools"@[1] == 't' && "/lang"@[1] == 'l' && "/github"@[1] == 'g');
    assert("/session"@[1] == 's' && "/session"@[2] == 'e');
    assert("/skills"@[1] == 's');
    command_and_argument(m, p);
    command_and_argument(k, p);
    command_and_argument(r, p);
    assert((m + seq![' '] + p).take(7) =~= "/model "@);
    assert((k + seq![' '] + p).take(7) =~= "/skill "@);
    assert((r + seq![' '] + p).take(8) =~= "/resume "@);
    plain_length("/model "@);
    plain_length("/skill "@);
    plain_length("/resume "@);
}

proof fn narrow(c: char)
    requires
        c <= '~',
    ensures
        text::width(c) == 1,
{
}

proof fn plain_length(s: Seq<char>)
    requires
        forall|i: int| 0 <= i < s.len() ==> #[trigger] s[i] <= '~',
    ensures
        text::byte_len(s) == s.len(),
    decreases s.len(),
{
    if s.len() > 0 {
        let d = s.drop_last();
        assert forall|i: int| 0 <= i < d.len() implies #[trigger] d[i] <= '~' by {
            assert(d[i] == s[i]);
        }
        plain_length(d);
        assert(s[s.len() - 1] <= '~');
        narrow(s.last());
    }
}

/// A text that is short enough is shown as it is but for its white space, which becomes one
/// blank; of another one the front is.
pub proof fn short_texts_are_shown_whole(w: Seq<Seq<char>>, max: nat)
    requires
        forall|i: int| 0 <= i < w.len() ==> pieces::is_word(#[trigger] w[i]),
    ensures
        ({
            let s = pieces::join(w, seq![' ']);
            &&& s.len() <= max ==> preview(s, max) == s
            &&& s.len() > max ==> preview(s, max) == s.take(max as int).push('…')
        }),
{
    let s = pieces::join(w, seq![' ']);
    reveal_strlit(" ");
    reveal_strlit("…");
    assert(" "@ =~= seq![' ']);
    pieces::words_read_back(w);
    if s.len() > max {
        assert(s.take(max as int) + "…"@ =~= s.take(max as int).push('…'));
    }
}

} // verus!
