//! What is read off the messages of a session.
use vstd::prelude::*;

use crate::numeral;
use crate::numeral::dec_usize;
use crate::pieces;
use crate::pieces::join_of;
use crate::repl;
use crate::repl::preview_text;
use crate::say;
use crate::say::{just, msg, Line, Output};
use crate::text;
use crate::text::{cat, chars_of, copy_text, has_prefix, trimmed_start};

verus! {

/// A part of what a user sent.
#[derive(Debug)]
pub enum UserContent {
    Text { text: String },
    Image { mime: String, data: String },
}

/// A part of what the model answered.
#[derive(Debug)]
pub enum ContentBlock {
    Text { text: String },
    ToolCall { name: String },
    Thinking,
}

/// A message of a session.
#[derive(Debug)]
pub enum AgentMessage {
    User(Vec<UserContent>),
    Assistant(Vec<ContentBlock>),
    ToolResult,
    Other,
}

/// The texts among the first `n` parts of a user's message.
pub open spec fn user_texts(c: Seq<UserContent>, n: int) -> Seq<Seq<char>>
    decreases n,
{
    if n <= 0 {
        Seq::empty()
    } else {
        match c[n - 1] {
            UserContent::Text { text } => user_texts(c, n - 1).push(text@),
            _ => user_texts(c, n - 1),
        }
    }
}

/// The text of a user's message, its parts joined by `sep`.
pub open spec fn user_text(c: Seq<UserContent>, sep: Seq<char>) -> Seq<char> {
    pieces::join(user_texts(c, c.len() as int), sep)
}

fn push_text(v: &mut Vec<String>, s: String)
    ensures
        text::texts(final(v)@) == text::texts(old(v)@).push(s@),
{
    proof {
        text::lemma_texts_push(v@, s);
    }
    v.push(s);
}

fn user_text_of(c: &Vec<UserContent>, sep: &str) -> (r: String)
    ensures
        r@ == user_text(c@, sep@),
{
    let mut v: Vec<String> = Vec::new();
    let mut i: usize = 0;
    assert(text::texts(v@) =~= Seq::<Seq<char>>::empty());
    while i < c.len()
        invariant
            i <= c.len(),
            text::texts(v@) == user_texts(c@, i as int),
        decreases c.len() - i,
    {
        match &c[i] {
            UserContent::Text { text } => push_text(&mut v, copy_text(text)),
            _ => {},
        }
        i = i + 1;
    }
    join_of(&v, sep)
}

// ── Composition ─────────────────────────────────────────────────────────────

/// How many messages there are, and of what kinds.
#[derive(Clone, Copy, Debug, PartialEq, Eq, Structural)]
pub struct ContextBreakdown {
    pub total: usize,
    pub user: usize,
    pub assistant: usize,
    pub tool: usize,
    pub other: usize,
}

impl Default for ContextBreakdown {
    fn default() -> (r: Self)
        ensures
            r == (ContextBreakdown { total: 0, user: 0, assistant: 0, tool: 0, other: 0 }),
    {
        ContextBreakdown { total: 0, user: 0, assistant: 0, tool: 0, other: 0 }
    }
}

/// How many of the first `n` messages satisfy a condition.
pub open spec fn count(m: Seq<AgentMessage>, f: spec_fn(AgentMessage) -> bool, n: int) -> nat
    decreases n,
{
    if n <= 0 {
        0
    } else if f(m[n - 1]) {
        count(m, f, n - 1) + 1
    } else {
        count(m, f, n - 1)
    }
}

pub open spec fn is_user() -> spec_fn(AgentMessage) -> bool {
    |m: AgentMessage| m is User
}

pub open spec fn is_assistant() -> spec_fn(AgentMessage) -> bool {
    |m: AgentMessage| m is Assistant
}

pub open spec fn is_tool_result() -> spec_fn(AgentMessage) -> bool {
    |m: AgentMessage| m is ToolResult
}

pub open spec fn is_other() -> spec_fn(AgentMessage) -> bool {
    |m: AgentMessage| m is Other
}

/// Counts the messages by kind.
pub fn context_breakdown(nodes: &Vec<AgentMessage>) -> (r: ContextBreakdown)
    ensures
        r.total == nodes.len(),
        r.user == count(nodes@, is_user(), nodes.len() as int),
        r.assistant == count(nodes@, is_assistant(), nodes.len() as int),
        r.tool == count(nodes@, is_tool_result(), nodes.len() as int),
        r.other == count(nodes@, is_other(), nodes.len() as int),
        r.total == r.user + r.assistant + r.tool + r.other,
{
    let mut r = ContextBreakdown { total: 0, user: 0, assistant: 0, tool: 0, other: 0 };
    let mut i: usize = 0;
    while i < nodes.len()
        invariant
            i <= nodes.len(),
            r.total == i,
            r.user == count(nodes@, is_user(), i as int),
            r.assistant == count(nodes@, is_assistant(), i as int),
            r.tool == count(nodes@, is_tool_result(), i as int),
            r.other == count(nodes@, is_other(), i as int),
            r.total == r.user + r.assistant + r.tool + r.other,
        decreases nodes.len() - i,
    {
        r.total = r.total + 1;
        match &nodes[i] {
            AgentMessage::User(_) => {
                r.user = r.user + 1;
            },
            AgentMessage::Assistant(_) => {
                r.assistant = r.assistant + 1;
            },
            AgentMessage::ToolResult => {
                r.tool = r.tool + 1;
            },
            AgentMessage::Other => {
                r.other = r.other + 1;
            },
        }
        i = i + 1;
    }
    r
}

// ── The last prompt ─────────────────────────────────────────────────────────

/// A message that the program, not the user, put into the session.
pub open spec fn is_injected(s: Seq<char>) -> bool {
    let t = text::trim_start(s);
    ||| t.len() > 0 && t[0] == '<'
    ||| text::starts_with(t, "[system"@)
    ||| t.len() > 0 && t[0] == '⚠'
}

fn injected(s: &str) -> (r: bool)
    ensures
        r == is_injected(s@),
{
    let t = trimmed_start(s);
    let v = chars_of(&t);
    (v.len() > 0 && v[0] == '<') || has_prefix(&t, "[system") || (v.len() > 0 && v[0] == '⚠')
}

/// What a user said in a message, unless it is blank.
pub open spec fn spoken(m: AgentMessage) -> Option<Seq<char>> {
    match m {
        AgentMessage::User(c) => if text::is_blank(user_text(c@, "\n"@)) {
            None
        } else {
            Some(user_text(c@, "\n"@))
        },
        _ => None,
    }
}

/// The last thing among the first `n` messages that a user really said.
pub open spec fn last_real(m: Seq<AgentMessage>, n: int) -> Option<Seq<char>>
    decreases n,
{
    if n <= 0 {
        None
    } else {
        match spoken(m[n - 1]) {
            Some(t) => if is_injected(t) {
                last_real(m, n - 1)
            } else {
                Some(t)
            },
            None => last_real(m, n - 1),
        }
    }
}

/// The last thing among the first `n` messages said in a user's name.
pub open spec fn last_spoken(m: Seq<AgentMessage>, n: int) -> Option<Seq<char>>
    decreases n,
{
    if n <= 0 {
        None
    } else if spoken(m[n - 1]) is Some {
        spoken(m[n - 1])
    } else {
        last_spoken(m, n - 1)
    }
}

/// What to send again: the last thing that the user really said, or, where there is none,
/// the last thing said in their name.
pub open spec fn prompt_to_retry(m: Seq<AgentMessage>) -> Option<Seq<char>> {
    if last_real(m, m.len() as int) is Some {
        last_real(m, m.len() as int)
    } else {
        last_spoken(m, m.len() as int)
    }
}

pub open spec fn opt_text(o: Option<String>) -> Option<Seq<char>> {
    match o {
        Some(s) => Some(s@),
        None => None,
    }
}

pub fn last_user_prompt(nodes: &Vec<AgentMessage>) -> (r: Option<String>)
    ensures
        opt_text(r) == prompt_to_retry(nodes@),
{
    let mut fallback: Option<String> = None;
    let mut i: usize = nodes.len();
    while i > 0
        invariant
            i <= nodes.len(),
            last_real(nodes@, nodes.len() as int) == last_real(nodes@, i as int),
            fallback is None ==> last_spoken(nodes@, nodes.len() as int) == last_spoken(
                nodes@,
                i as int,
            ),
            fallback is Some ==> last_spoken(nodes@, nodes.len() as int) == opt_text(fallback),
        decreases i,
    {
        i = i - 1;
        match &nodes[i] {
            AgentMessage::User(c) => {
                let t = user_text_of(c, "\n");
                if !text::blank(&t) {
                    if !injected(&t) {
                        return Some(t);
                    }
                    if fallback.is_none() {
                        fallback = Some(t);
                    }
                }
            },
            _ => {},
        }
    }
    fallback
}

proof fn lemma_last_real(m: Seq<AgentMessage>, n: int)
    ensures
        last_real(m, n) matches Some(t) ==> !is_injected(t),
    decreases n,
{
    if n > 0 {
        lemma_last_real(m, n - 1);
    }
}

/// A reminder that the program put in is sent again only where the user said nothing.
pub proof fn retry_prefers_the_user(m: Seq<AgentMessage>)
    ensures
        prompt_to_retry(m) matches Some(t) && is_injected(t) ==> last_real(m, m.len() as int) is None,
{
    lemma_last_real(m, m.len() as int);
}

// ── The first message ───────────────────────────────────────────────────────

/// The first text among the messages from the `i`-th on that a user sent.
pub open spec fn first_text(m: Seq<AgentMessage>, i: int) -> Option<Seq<char>>
    decreases m.len() - i,
{
    if i < 0 || i >= m.len() {
        None
    } else {
        match m[i] {
            AgentMessage::User(c) => if text::is_blank(user_text(c@, Seq::empty())) {
                first_text(m, i + 1)
            } else {
                Some(user_text(c@, Seq::empty()))
            },
            _ => first_text(m, i + 1),
        }
    }
}

pub fn first_user_message_text(messages: &Vec<AgentMessage>) -> (r: Option<String>)
    ensures
        opt_text(r) == first_text(messages@, 0),
{
    proof {
        reveal_strlit("");
        assert(""@ =~= Seq::<char>::empty());
    }
    let mut i: usize = 0;
    while i < messages.len()
        invariant
            i <= messages.len(),
            ""@ == Seq::<char>::empty(),
            first_text(messages@, 0) == first_text(messages@, i as int),
        decreases messages.len() - i,
    {
        match &messages[i] {
            AgentMessage::User(c) => {
                let t = user_text_of(c, "");
                if !text::blank(&t) {
                    return Some(t);
                }
            },
            _ => {},
        }
        i = i + 1;
    }
    None
}

// ── History ─────────────────────────────────────────────────────────────────

/// The text of the first `n` parts of an answer.
pub open spec fn answer_text(b: Seq<ContentBlock>, n: int) -> Seq<char>
    decreases n,
{
    if n <= 0 {
        Seq::empty()
    } else {
        match b[n - 1] {
            ContentBlock::Text { text } => answer_text(b, n - 1) + text@,
            _ => answer_text(b, n - 1),
        }
    }
}

/// The tools that the first `n` parts of an answer call.
pub open spec fn answer_tools(b: Seq<ContentBlock>, n: int) -> Seq<Seq<char>>
    decreases n,
{
    if n <= 0 {
        Seq::empty()
    } else {
        match b[n - 1] {
            ContentBlock::ToolCall { name } => answer_tools(b, n - 1).push(name@),
            _ => answer_tools(b, n - 1),
        }
    }
}

/// The lines on one message: what the user said, or what the model answered and called.
pub open spec fn history_of(m: AgentMessage) -> Seq<say::LineView> {
    match m {
        AgentMessage::User(c) => {
            let t = repl::preview(user_text(c@, Seq::empty()), 300);
            if t.len() == 0 {
                Seq::empty()
            } else {
                seq![say::LineView::Text("🧑 "@ + t)]
            }
        },
        AgentMessage::Assistant(b) => {
            let t = repl::preview(answer_text(b@, b.len() as int), 600);
            let tools = answer_tools(b@, b.len() as int);
            (if t.len() == 0 {
                Seq::empty()
            } else {
                seq![say::LineView::Text("🤖 "@ + t)]
            }) + (if tools.len() == 0 {
                Seq::empty()
            } else {
                seq![
                    say::LineView::Msg(
                        say::entry("event.tool_call_history"@).arg(
                            "tools"@,
                            pieces::join(tools, ", "@),
                        ),
                    ),
                ]
            })
        },
        _ => Seq::empty(),
    }
}

pub open spec fn history(m: Seq<AgentMessage>, n: int) -> Seq<say::LineView>
    decreases n,
{
    if n <= 0 {
        Seq::empty()
    } else {
        history(m, n - 1) + history_of(m[n - 1])
    }
}

fn answer_parts(b: &Vec<ContentBlock>) -> (r: (String, Vec<String>))
    ensures
        r.0@ == answer_text(b@, b.len() as int),
        text::texts(r.1@) == answer_tools(b@, b.len() as int),
{
    let mut t = String::new();
    let mut tools: Vec<String> = Vec::new();
    let mut i: usize = 0;
    assert(text::texts(tools@) =~= Seq::<Seq<char>>::empty());
    while i < b.len()
        invariant
            i <= b.len(),
            t@ == answer_text(b@, i as int),
            text::texts(tools@) == answer_tools(b@, i as int),
        decreases b.len() - i,
    {
        match &b[i] {
            ContentBlock::Text { text } => t.append(text),
            ContentBlock::ToolCall { name } => push_text(&mut tools, copy_text(name)),
            ContentBlock::Thinking => {},
        }
        i = i + 1;
    }
    (t, tools)
}

/// The conversation as it is shown when a session is taken up again.
pub fn session_history_lines(messages: &Vec<AgentMessage>) -> (out: Output)
    ensures
        out@ == history(messages@, messages.len() as int),
{
    proof {
        reveal_strlit("");
        assert(""@ =~= Seq::<char>::empty());
    }
    let mut out = Output::new();
    let mut i: usize = 0;
    while i < messages.len()
        invariant
            i <= messages.len(),
            ""@ == Seq::<char>::empty(),
            out@ == history(messages@, i as int),
        decreases messages.len() - i,
    {
        let ghost before = out@;
        match &messages[i] {
            AgentMessage::User(c) => {
                let t = preview_text(&user_text_of(c, ""), 300);
                if !t.as_str().is_empty() {
                    out.print(cat("🧑 ", &t));
                }
            },
            AgentMessage::Assistant(b) => {
                let (t, tools) = answer_parts(b);
                let t = preview_text(&t, 600);
                if !t.as_str().is_empty() {
                    out.print(cat("🤖 ", &t));
                }
                assert(tools.len() == text::texts(tools@).len());
                if tools.len() > 0 {
                    out.say(msg("event.tool_call_history").arg("tools", &join_of(&tools, ", ")));
                }
            },
            _ => {},
        }
        assert(out@ =~= before + history_of(messages@[i as int]));
        i = i + 1;
    }
    out
}

/// The most lines of a history that are shown.
pub const MAX_HISTORY: usize = 60;

/// The last lines of a history, with a line before them and one behind.
pub open spec fn shown_history(h: Seq<say::LineView>) -> Seq<say::LineView> {
    if h.len() == 0 {
        say::said(say::entry("session.no_history"@))
    } else {
        let head = if h.len() > MAX_HISTORY {
            say::entry("session.history_truncated"@).arg("total"@, numeral::dec(h.len())).arg(
                "max"@,
                numeral::dec(MAX_HISTORY as nat),
            )
        } else {
            say::entry("session.history_count"@).arg("count"@, numeral::dec(h.len()))
        };
        let tail = if h.len() > MAX_HISTORY {
            h.skip(h.len() - MAX_HISTORY)
        } else {
            h
        };
        (say::said(head) + tail).push(say::LineView::Msg(say::entry("session.history_continue"@)))
    }
}

/// Shows a history: its last lines, and how many there are.
pub fn print_session_history(history_lines: Output) -> (out: Output)
    ensures
        out@ == shown_history(history_lines@),
{
    let mut lines: Vec<Line> = history_lines.lines;
    let ghost h = history_lines@;
    let total: usize = lines.len();
    assert(total == h.len());
    if total == 0 {
        return just(msg("session.no_history"));
    }
    let mut out = if total > MAX_HISTORY {
        just(
            msg("session.history_truncated").arg("total", &dec_usize(total)).arg(
                "max",
                &dec_usize(MAX_HISTORY),
            ),
        )
    } else {
        just(msg("session.history_count").arg("count", &dec_usize(total)))
    };
    let ghost head = out@;
    let from: usize = if total > MAX_HISTORY {
        total - MAX_HISTORY
    } else {
        0
    };
    let mut tail = lines.split_off(from);
    let ghost tv = say::line_views(tail@);
    assert(tv =~= h.skip(from as int));
    assert(from == 0 ==> h.skip(0) =~= h);
    let ghost before = out.lines@;
    out.lines.append(&mut tail);
    assert(out@ =~= head + tv);
    out.say(msg("session.history_continue"));
    out
}

// ── What holds of every session ─────────────────────────────────────────────

proof fn real_of_front(m: Seq<AgentMessage>, x: AgentMessage, n: int)
    requires
        0 <= n <= m.len(),
    ensures
        last_real(m.push(x), n) == last_real(m, n),
        last_spoken(m.push(x), n) == last_spoken(m, n),
        history(m.push(x), n) == history(m, n),
    decreases n,
{
    if n > 0 {
        real_of_front(m, x, n - 1);
        assert(m.push(x)[n - 1] == m[n - 1]);
    }
}

/// What a user typed last is what is sent again; an answer behind it, a tool's result and a
/// reminder that the program put in do not change that.
pub proof fn last_words_are_sent_again(m: Seq<AgentMessage>, x: AgentMessage, t: Seq<char>)
    ensures
        !(x is User) ==> prompt_to_retry(m.push(x)) == prompt_to_retry(m),
        spoken(x) == Some(t) && !is_injected(t) ==> prompt_to_retry(m.push(x)) == Some(t),
        spoken(x) == Some(t) && is_injected(t) && last_real(m, m.len() as int) is Some
            ==> prompt_to_retry(m.push(x)) == prompt_to_retry(m),
        spoken(x) == Some(t) && is_injected(t) && last_real(m, m.len() as int) is None
            ==> prompt_to_retry(m.push(x)) == Some(t),
        prompt_to_retry(Seq::empty()) is None,
{
    real_of_front(m, x, m.len() as int);
}

/// What a user says in one text is that text.
pub proof fn spoken_text_is_the_text(c: UserContent, v: Vec<UserContent>)
    requires
        v@ == seq![c],
        c is Text,
    ensures
        !text::is_blank(c->text@) ==> spoken(AgentMessage::User(v)) == Some(c->text@),
        text::is_blank(c->text@) ==> spoken(AgentMessage::User(v)) is None,
        user_text(v@, Seq::empty()) == c->text@,
{
    assert(v@.len() == 1 && v@[0] == c);
    reveal_with_fuel(user_texts, 2);
    assert(user_texts(v@, 1) =~= seq![c->text@]);
    pieces::joining_sets_separators_between(c->text@, Seq::empty(), "\n"@);
    pieces::joining_sets_separators_between(c->text@, Seq::empty(), Seq::empty());
}

proof fn user_texts_of_front(c: Seq<UserContent>, x: UserContent, n: int)
    requires
        0 <= n <= c.len(),
    ensures
        user_texts(c.push(x), n) == user_texts(c, n),
    decreases n,
{
    if n > 0 {
        user_texts_of_front(c, x, n - 1);
        assert(c.push(x)[n - 1] == c[n - 1]);
    }
}

/// Every text of a user's message is taken up, in order; a picture is left out.
pub proof fn every_text_is_taken_up(c: Seq<UserContent>, x: UserContent, n: Seq<char>)
    ensures
        x is Image ==> user_text(c.push(x), n) == user_text(c, n),
        x is Text && user_texts(c, c.len() as int).len() > 0 ==> user_text(c.push(x), n)
            == user_text(c, n) + n + x->text@,
        x is Text && user_texts(c, c.len() as int).len() == 0 ==> user_text(c.push(x), n)
            == x->text@,
{
    user_texts_of_front(c, x, c.len() as int);
    let p = user_texts(c, c.len() as int);
    if x is Text {
        assert(p.push(x->text@).drop_last() =~= p);
        assert(user_texts(c.push(x), c.len() as int + 1) == p.push(x->text@));
    }
}

/// The first message of a user that is not blank names a session: what comes before it in
/// anyone else's name, or behind it, does not.
pub proof fn first_words_name_the_session(m: Seq<AgentMessage>, c: Vec<UserContent>)
    requires
        forall|i: int| 0 <= i < m.len() ==> !(#[trigger] m[i] is User),
        !text::is_blank(user_text(c@, Seq::empty())),
    ensures
        forall|rest: Seq<AgentMessage>|
            first_text(#[trigger] (m.push(AgentMessage::User(c)) + rest), 0) == Some(
                user_text(c@, Seq::empty()),
            ),
        first_text(m, 0) is None,
{
    let u = AgentMessage::User(c);
    assert forall|rest: Seq<AgentMessage>|
        first_text(#[trigger] (m.push(u) + rest), 0) == Some(user_text(c@, Seq::empty())) by {
        skips_to_first(m.push(u) + rest, m.len() as int, 0);
    }
    skips_to_first(m, m.len() as int, 0);
}

proof fn skips_to_first(m: Seq<AgentMessage>, n: int, i: int)
    requires
        0 <= i <= n <= m.len(),
        forall|k: int| 0 <= k < n ==> !(#[trigger] m[k] is User),
    ensures
        first_text(m, i) == first_text(m, n),
    decreases n - i,
{
    if i < n {
        assert(!(m[i] is User));
        skips_to_first(m, n, i + 1);
    }
}

proof fn counts_of_front(m: Seq<AgentMessage>, x: AgentMessage, f: spec_fn(AgentMessage) -> bool, n: int)
    requires
        0 <= n <= m.len(),
    ensures
        count(m.push(x), f, n) == count(m, f, n),
    decreases n,
{
    if n > 0 {
        counts_of_front(m, x, f, n - 1);
        assert(m.push(x)[n - 1] == m[n - 1]);
    }
}

/// One more message adds one to the count of its kind, and nothing to the others.
pub proof fn every_message_is_counted(m: Seq<AgentMessage>, x: AgentMessage)
    ensures
        ({
            let n = m.len() as int;
            let w = m.push(x);
            &&& count(w, is_user(), n + 1) == count(m, is_user(), n) + (if x is User {
                1int
            } else {
                0
            })
            &&& count(w, is_assistant(), n + 1) == count(m, is_assistant(), n) + (
            if x is Assistant {
                1int
            } else {
                0
            })
            &&& count(w, is_tool_result(), n + 1) == count(m, is_tool_result(), n) + (
            if x is ToolResult {
                1int
            } else {
                0
            })
            &&& count(w, is_other(), n + 1) == count(m, is_other(), n) + (if x is Other {
                1int
            } else {
                0
            })
        }),
{
    counts_of_front(m, x, is_user(), m.len() as int);
    counts_of_front(m, x, is_assistant(), m.len() as int);
    counts_of_front(m, x, is_tool_result(), m.len() as int);
    counts_of_front(m, x, is_other(), m.len() as int);
}

/// A history grows by what one more message shows: a line for what a user said, a line for what
/// was answered and one for the tools that were called.
pub proof fn histories_grow(m: Seq<AgentMessage>, x: AgentMessage)
    ensures
        ({
            let w = m.push(x);
            let new = history(w, w.len() as int).skip(history(m, m.len() as int).len() as int);
            &&& history(w, w.len() as int) == history(m, m.len() as int) + new
            &&& match x {
                AgentMessage::User(c) => {
                    let said = user_text(c@, Seq::empty());
                    &&& pieces::words(said).len() > 0 ==> new == seq![
                        say::LineView::Text(seq!['🧑', ' '] + repl::preview(said, 300)),
                    ]
                    &&& pieces::words(said).len() == 0 ==> new.len() == 0
                },
                AgentMessage::Assistant(b) => {
                    let said = answer_text(b@, b.len() as int);
                    let tools = answer_tools(b@, b.len() as int);
                    &&& pieces::words(said).len() > 0 ==> new.len() > 0 && new[0]
                        == say::LineView::Text(seq!['🤖', ' '] + repl::preview(said, 600))
                    &&& tools.len() > 0 ==> new.len() > 0 && (new.last() matches say::LineView::Msg(
                        l,
                    ) && l.args.len() == 1 && l.args[0].1 == say::ValView::Text(
                        pieces::join(tools, seq![',', ' ']),
                    ))
                    &&& tools.len() == 0 && pieces::words(said).len() == 0 ==> new.len() == 0
                },
                _ => new.len() == 0,
            }
        }),
{
    let w = m.push(x);
    let n = m.len() as int;
    real_of_front(m, x, n);
    let h = history(m, n);
    assert((h + history_of(x)).skip(h.len() as int) =~= history_of(x));
    reveal_strlit("🧑 ");
    reveal_strlit("🤖 ");
    reveal_strlit(", ");
    assert("🧑 "@ =~= seq!['🧑', ' ']);
    assert("🤖 "@ =~= seq!['🤖', ' ']);
    assert(", "@ =~= seq![',', ' ']);
    match x {
        AgentMessage::User(c) => {
            previews_show_words(user_text(c@, Seq::empty()), 300);
        },
        AgentMessage::Assistant(b) => {
            previews_show_words(answer_text(b@, b.len() as int), 600);
        },
        _ => {},
    }
}

proof fn previews_show_words(s: Seq<char>, n: nat)
    requires
        n > 0,
    ensures
        repl::preview(s, n).len() > 0 <==> pieces::words(s).len() > 0,
{
    let w = pieces::words(s);
    pieces::lemma_words_are_words(Seq::empty(), s);
    if w.len() > 0 {
        let (a, b) = pieces::joined_holds_each(w, " "@, 0);
        assert(pieces::is_word(w[0]));
        assert(pieces::join(w, " "@).len() >= w[0].len());
    } else {
        assert(pieces::join(w, " "@).len() == 0);
    }
}

proof fn answers_of_front(b: Seq<ContentBlock>, x: ContentBlock, n: int)
    requires
        0 <= n <= b.len(),
    ensures
        answer_text(b.push(x), n) == answer_text(b, n),
        answer_tools(b.push(x), n) == answer_tools(b, n),
    decreases n,
{
    if n > 0 {
        answers_of_front(b, x, n - 1);
        assert(b.push(x)[n - 1] == b[n - 1]);
    }
}

/// Every part of an answer is taken up: a text behind the texts before it, a call behind the
/// calls before it.
pub proof fn every_part_is_taken_up(b: Seq<ContentBlock>, x: ContentBlock)
    ensures
        ({
            let n = b.len() as int;
            let w = b.push(x);
            &&& answer_text(w, n + 1) == answer_text(b, n) + (match x {
                ContentBlock::Text { text } => text@,
                _ => Seq::empty(),
            })
            &&& answer_tools(w, n + 1) == answer_tools(b, n) + (match x {
                ContentBlock::ToolCall { name } => seq![name@],
                _ => Seq::empty(),
            })
        }),
{
    answers_of_front(b, x, b.len() as int);
    let n = b.len() as int;
    assert(answer_text(b, n) + Seq::<char>::empty() =~= answer_text(b, n));
    assert(answer_tools(b, n) + Seq::<Seq<char>>::empty() =~= answer_tools(b, n));
    match x {
        ContentBlock::ToolCall { name } => {
            assert(answer_tools(b, n).push(name@) =~= answer_tools(b, n) + seq![name@]);
        },
        _ => {},
    }
}

/// Of a history the last lines are shown, sixty at most, between two lines.
pub proof fn last_lines_are_shown(a: Seq<say::LineView>, b: Seq<say::LineView>)
    requires
        a.len() + b.len() > 0,
        b.len() <= 60,
        a.len() > 0 ==> b.len() == 60,
    ensures
        shown_history(a + b).len() == b.len() + 2,
        shown_history(a + b).subrange(1, b.len() as int + 1) == b,
{
    let h = a + b;
    if a.len() > 0 {
        assert(h.skip(h.len() - 60) =~= b);
    } else {
        assert(h =~= b);
    }
    assert(shown_history(h).subrange(1, b.len() as int + 1) =~= b);
}

} // verus!
