//! The screen on which sub-agents are watched.
use vstd::prelude::*;

use crate::manage;
use crate::numeral;
use crate::numeral::{dec_text, dec_usize, dec_wide};
use crate::pieces;
use crate::pieces::replace_char_of;
use crate::show;
use crate::show::render_bar;
use crate::text;
use crate::text::{cat, chars_of, padded_left, sub_text, trimmed};

verus! {

/// How often the screen is drawn, in milliseconds.
pub const REFRESH_MS: u64 = 125;

/// Where a sub-agent stands.
#[derive(Debug, Clone, Copy, PartialEq, Eq, Structural)]
pub enum SubAgentPhase {
    Pending,
    Running,
    Streaming,
    WaitingTool,
    Done,
    Failed,
    Cancelled,
}

impl SubAgentPhase {
    pub open spec fn ended(self) -> bool {
        self is Done || self is Failed || self is Cancelled
    }

    /// Whether the sub-agent has ended.
    pub fn is_terminal(self) -> (r: bool)
        ensures
            r == self.ended(),
    {
        match self {
            SubAgentPhase::Done | SubAgentPhase::Failed | SubAgentPhase::Cancelled => true,
            _ => false,
        }
    }
}

/// What is shown of a sub-agent.
#[derive(Debug)]
pub struct SubAgentStatus {
    pub label: String,
    pub task: String,
    pub phase: SubAgentPhase,
    /// How many of ten cells its progress fills.
    pub filled: usize,
    /// Its progress in percent.
    pub percent: u32,
    pub input_tokens: u64,
    pub output_tokens: u64,
    /// What it cost in dollars, with four places; none if it cost nothing.
    pub cost: Option<String>,
    pub turns: usize,
    pub tool_calls: usize,
    pub activity: Option<String>,
    /// The last line of its log.
    pub last_log: Option<String>,
    pub error: Option<String>,
}

/// The words of the screen in the language that the user reads.
#[derive(Debug)]
pub struct Words {
    pub active: String,
    pub done: String,
    pub failed: String,
    pub total: String,
    pub task: String,
    pub turns: String,
    pub tools: String,
    pub pending: String,
    pub running: String,
    pub streaming: String,
    pub waiting_tool: String,
    pub phase_done: String,
    pub phase_failed: String,
    pub cancelled: String,
}

/// A text on one line, cut to so many characters.
pub open spec fn cut_line(s: Seq<char>, max: nat) -> Seq<char> {
    let t = pieces::replace_char(text::trim(s), '\n', " "@);
    if t.len() <= max {
        t
    } else if max == 0 {
        seq!['…']
    } else {
        t.take(max - 1).push('…')
    }
}

pub fn ellipsis(s: &str, max: usize) -> (r: String)
    ensures
        r@ == cut_line(s@, max as nat),
{
    let t = replace_char_of(&trimmed(s), '\n', " ");
    let v = chars_of(&t);
    if v.len() <= max {
        return t;
    }
    let keep: usize = if max == 0 {
        0
    } else {
        max - 1
    };
    proof {
        reveal_strlit("…");
        assert(v@.subrange(0, keep as int) + "…"@ =~= cut_line(s@, max as nat));
    }
    cat(&sub_text(&v, 0, keep), "…")
}

/// The sign and the colour of a phase.
pub open spec fn phase_sign(p: SubAgentPhase) -> (Seq<char>, Seq<char>) {
    match p {
        SubAgentPhase::Pending => ("·"@, "90"@),
        SubAgentPhase::Running => ("▶"@, "36"@),
        SubAgentPhase::Streaming => ("~"@, "34"@),
        SubAgentPhase::WaitingTool => ("⏸"@, "33"@),
        SubAgentPhase::Done => ("✓"@, "32"@),
        SubAgentPhase::Failed => ("✗"@, "31"@),
        SubAgentPhase::Cancelled => ("⊘"@, "90"@),
    }
}

pub open spec fn phase_word(p: SubAgentPhase, w: Words) -> Seq<char> {
    match p {
        SubAgentPhase::Pending => w.pending@,
        SubAgentPhase::Running => w.running@,
        SubAgentPhase::Streaming => w.streaming@,
        SubAgentPhase::WaitingTool => w.waiting_tool@,
        SubAgentPhase::Done => w.phase_done@,
        SubAgentPhase::Failed => w.phase_failed@,
        SubAgentPhase::Cancelled => w.cancelled@,
    }
}

/// A phase in its colour.
pub open spec fn tag(p: SubAgentPhase, w: Words) -> Seq<char> {
    "\x1b["@ + phase_sign(p).1 + "m"@ + phase_sign(p).0 + phase_word(p, w) + "\x1b[0m"@
}

pub fn phase_tag(p: SubAgentPhase, w: &Words) -> (r: String)
    ensures
        r@ == tag(p, *w),
{
    let (icon, color, label) = match p {
        SubAgentPhase::Pending => ("·", "90", &w.pending),
        SubAgentPhase::Running => ("▶", "36", &w.running),
        SubAgentPhase::Streaming => ("~", "34", &w.streaming),
        SubAgentPhase::WaitingTool => ("⏸", "33", &w.waiting_tool),
        SubAgentPhase::Done => ("✓", "32", &w.phase_done),
        SubAgentPhase::Failed => ("✗", "31", &w.phase_failed),
        SubAgentPhase::Cancelled => ("⊘", "90", &w.cancelled),
    };
    cat(&cat(&cat(&cat(&cat("\x1b[", color), "m"), icon), label), "\x1b[0m")
}

/// Progress as a bar of ten cells and in percent.
pub open spec fn progress(filled: nat, percent: nat) -> Seq<char> {
    show::bar(filled, 10) + " "@ + text::pad_left(numeral::dec(percent), 3) + "%"@
}

pub fn progress_bar(filled: usize, percent: u32) -> (r: String)
    ensures
        r@ == progress(filled as nat, percent as nat),
{
    cat(
        &cat(&cat(&render_bar(filled, 10), " "), &padded_left(&dec_text(percent as u64), 3)),
        "%",
    )
}

/// The end of a line of the screen, which wipes what stood behind it.
pub open spec fn wiped(s: Seq<char>) -> Seq<char> {
    s + "\x1b[K\n"@
}

/// How many tokens a sub-agent took.
pub open spec fn tokens(a: SubAgentStatus) -> nat {
    a.input_tokens as nat + a.output_tokens as nat
}

/// The numbers of a sub-agent.
pub open spec fn numbers(a: SubAgentStatus, w: Words) -> Seq<char> {
    let cost = match manage::opt_text(a.cost) {
        Some(c) => " $"@ + c,
        None => Seq::empty(),
    };
    let doing = match manage::opt_text(a.activity) {
        Some(t) => " · "@ + t,
        None => Seq::empty(),
    };
    "│   "@ + w.turns@ + " "@ + numeral::dec(a.turns as nat) + " · "@ + w.tools@ + " "@
        + numeral::dec(a.tool_calls as nat) + " · tokens "@ + numeral::dec(tokens(a)) + cost + doing
}

/// What is shown of a sub-agent.
pub open spec fn card(a: SubAgentStatus, w: Words) -> Seq<char> {
    wiped(
        "│ "@ + tag(a.phase, w) + " "@ + cut_line(a.label@, 34) + " "@ + progress(
            a.filled as nat,
            a.percent as nat,
        ),
    ) + wiped("│   "@ + w.task@ + ": "@ + cut_line(a.task@, 52)) + wiped(numbers(a, w)) + (
    match manage::opt_text(a.last_log) {
        Some(t) => wiped("│   ▸ "@ + cut_line(t, 60)),
        None => Seq::empty(),
    }) + (match manage::opt_text(a.error) {
        Some(e) => wiped("│   \x1b[31m✗ "@ + cut_line(e, 60) + "\x1b[0m"@),
        None => Seq::empty(),
    })
}

fn numbers_of(a: &SubAgentStatus, w: &Words) -> (r: String)
    ensures
        r@ == numbers(*a, *w),
{
    let sum: u128 = a.input_tokens as u128 + a.output_tokens as u128;
    let cost = match &a.cost {
        Some(c) => cat(" $", c),
        None => String::new(),
    };
    let doing = match &a.activity {
        Some(t) => cat(" · ", t),
        None => String::new(),
    };
    let r = cat(&cat("│   ", &w.turns), " ");
    let r = cat(&cat(&r, &dec_usize(a.turns)), " · ");
    let r = cat(&cat(&r, &w.tools), " ");
    let r = cat(&cat(&r, &dec_usize(a.tool_calls)), " · tokens ");
    cat(&cat(&cat(&r, &dec_wide(sum)), &cost), &doing)
}

pub fn render_card(a: &SubAgentStatus, w: &Words) -> (r: String)
    ensures
        r@ == card(*a, *w),
{
    let head = cat(
        &cat(
            &cat(&cat(&cat("│ ", &phase_tag(a.phase, w)), " "), &ellipsis(&a.label, 34)),
            " ",
        ),
        &progress_bar(a.filled, a.percent),
    );
    let task = cat(&cat(&cat("│   ", &w.task), ": "), &ellipsis(&a.task, 52));
    let log = match &a.last_log {
        Some(t) => cat(&cat("│   ▸ ", &ellipsis(t, 60)), "\x1b[K\n"),
        None => String::new(),
    };
    let error = match &a.error {
        Some(e) => cat(&cat(&cat("│   \x1b[31m✗ ", &ellipsis(e, 60)), "\x1b[0m"), "\x1b[K\n"),
        None => String::new(),
    };
    let r = cat(&cat(&head, "\x1b[K\n"), &cat(&task, "\x1b[K\n"));
    let r = cat(&r, &cat(&numbers_of(a, w), "\x1b[K\n"));
    cat(&cat(&r, &log), &error)
}

/// How many of the first `n` sub-agents still work.
pub open spec fn working(v: Seq<SubAgentStatus>, n: int) -> nat
    decreases n,
{
    if n <= 0 {
        0
    } else {
        working(v, n - 1) + if v[n - 1].phase.ended() {
            0nat
        } else {
            1nat
        }
    }
}

/// How many of the first `n` sub-agents are in a phase.
pub open spec fn in_phase(v: Seq<SubAgentStatus>, p: SubAgentPhase, n: int) -> nat
    decreases n,
{
    if n <= 0 {
        0
    } else {
        in_phase(v, p, n - 1) + if v[n - 1].phase == p {
            1nat
        } else {
            0nat
        }
    }
}

/// How many tokens the first `n` sub-agents took.
pub open spec fn all_tokens(v: Seq<SubAgentStatus>, n: int) -> nat
    decreases n,
{
    if n <= 0 {
        0
    } else {
        all_tokens(v, n - 1) + tokens(v[n - 1])
    }
}

/// The first `n` cards, one below the other.
pub open spec fn cards(v: Seq<SubAgentStatus>, w: Words, n: int) -> Seq<char>
    decreases n,
{
    if n <= 0 {
        Seq::empty()
    } else {
        cards(v, w, n - 1) + card(v[n - 1], w)
    }
}

/// How many sub-agents there are of each kind.
pub open spec fn summary(v: Seq<SubAgentStatus>, w: Words) -> Seq<char> {
    let n = v.len() as int;
    "│  "@ + w.active@ + " \x1b[1m"@ + numeral::dec(working(v, n)) + "\x1b[0m · "@ + w.done@
        + " \x1b[32m"@ + numeral::dec(in_phase(v, SubAgentPhase::Done, n)) + "\x1b[0m · "@
        + w.failed@ + " \x1b[31m"@ + numeral::dec(in_phase(v, SubAgentPhase::Failed, n))
        + "\x1b[0m · "@ + w.total@ + " "@ + numeral::dec(all_tokens(v, n)) + " tokens"@
}

/// The whole screen.
pub open spec fn frame(v: Seq<SubAgentStatus>, w: Words) -> Seq<char> {
    wiped("╭─ 子 Agent 监控 ──────────────── 按 Enter 返回 ─╮"@) + (if v.len() == 0 {
        wiped("│  （当前无运行中的子 Agent）"@)
    } else {
        wiped(summary(v, w)) + wiped("├────────────────────────────────────────────────"@) + cards(
            v,
            w,
            v.len() as int,
        )
    }) + "╰────────────────────────────────────────────────╯\x1b[J\n"@
}

fn summary_of(v: &Vec<SubAgentStatus>, w: &Words) -> (r: String)
    requires
        all_tokens(v@, v@.len() as int) <= u64::MAX,
    ensures
        r@ == summary(v@, *w),
{
    let mut running: usize = 0;
    let mut done: usize = 0;
    let mut failed: usize = 0;
    let mut sum: u64 = 0;
    let mut i: usize = 0;
    while i < v.len()
        invariant
            i <= v.len(),
            running <= i,
            done <= i,
            failed <= i,
            running == working(v@, i as int),
            done == in_phase(v@, SubAgentPhase::Done, i as int),
            failed == in_phase(v@, SubAgentPhase::Failed, i as int),
            sum == all_tokens(v@, i as int),
            all_tokens(v@, v@.len() as int) <= u64::MAX,
        decreases v.len() - i,
    {
        let phase = v[i].phase;
        if !phase.is_terminal() {
            running = running + 1;
        }
        if phase == SubAgentPhase::Done {
            done = done + 1;
        }
        if phase == SubAgentPhase::Failed {
            failed = failed + 1;
        }
        proof {
            tokens_grow(v@, i + 1, v@.len() as int);
        }
        sum = sum + (v[i].input_tokens + v[i].output_tokens);
        i = i + 1;
    }
    let r = cat(&cat("│  ", &w.active), " \x1b[1m");
    let r = cat(&cat(&r, &dec_usize(running)), "\x1b[0m · ");
    let r = cat(&cat(&r, &w.done), " \x1b[32m");
    let r = cat(&cat(&r, &dec_usize(done)), "\x1b[0m · ");
    let r = cat(&cat(&r, &w.failed), " \x1b[31m");
    let r = cat(&cat(&r, &dec_usize(failed)), "\x1b[0m · ");
    let r = cat(&cat(&r, &w.total), " ");
    cat(&cat(&r, &dec_text(sum)), " tokens")
}

proof fn tokens_grow(v: Seq<SubAgentStatus>, i: int, n: int)
    requires
        0 <= i <= n,
    ensures
        all_tokens(v, i) <= all_tokens(v, n),
    decreases n - i,
{
    if i < n {
        tokens_grow(v, i, n - 1);
    }
}

/// Draws the whole screen.
pub fn render_frame(v: &Vec<SubAgentStatus>, w: &Words) -> (r: String)
    requires
        all_tokens(v@, v@.len() as int) <= u64::MAX,
    ensures
        r@ == frame(v@, *w),
{
    let mut body = String::new();
    if v.len() == 0 {
        body = cat("│  （当前无运行中的子 Agent）", "\x1b[K\n");
    } else {
        body = cat(
            &cat(&summary_of(v, w), "\x1b[K\n"),
            &cat("├────────────────────────────────────────────────", "\x1b[K\n"),
        );
        let ghost head = body@;
        let mut i: usize = 0;
        assert(body@ =~= head + cards(v@, *w, 0));
        while i < v.len()
            invariant
                i <= v.len(),
                body@ == head + cards(v@, *w, i as int),
            decreases v.len() - i,
        {
            body = cat(&body, &render_card(&v[i], w));
            i = i + 1;
            assert(body@ =~= head + cards(v@, *w, i as int));
        }
    }
    cat(
        &cat(
            &cat("╭─ 子 Agent 监控 ──────────────── 按 Enter 返回 ─╮", "\x1b[K\n"),
            &body,
        ),
        "╰────────────────────────────────────────────────╯\x1b[J\n",
    )
}

/// What the terminal is told before the first and behind the last drawing, and what stands
/// before each: the screen below stays as it is.
pub fn run_dashboard() -> (r: (&'static str, &'static str, &'static str))
    ensures
        r.0@ == "\x1b[?1049h\x1b[2J\x1b[H\x1b[?25l"@,
        r.1@ == "\x1b[H"@,
        r.2@ == "\x1b[?25h\x1b[?1049l"@,
{
    ("\x1b[?1049h\x1b[2J\x1b[H\x1b[?25l", "\x1b[H", "\x1b[?25h\x1b[?1049l")
}

// ── What holds of every screen ──────────────────────────────────────────────

/// A cut text is never longer than it may be, and has no line end in it.
pub proof fn cut_line_fits(s: Seq<char>, max: nat)
    requires
        max > 0,
    ensures
        cut_line(s, max).len() <= max,
        !text::has_char(cut_line(s, max), '\n'),
{
    let t = pieces::replace_char(text::trim(s), '\n', " "@);
    no_line_end(text::trim(s));
    assert forall|i: int| 0 <= i < cut_line(s, max).len() implies cut_line(s, max)[i] != '\n' by {
        if t.len() <= max {
            assert(cut_line(s, max)[i] == t[i]);
        } else if i < max - 1 {
            assert(cut_line(s, max)[i] == t[i]);
        }
    }
}

proof fn no_line_end(s: Seq<char>)
    ensures
        !text::has_char(pieces::replace_char(s, '\n', " "@), '\n'),
    decreases s.len(),
{
    reveal_strlit(" ");
    if s.len() > 0 {
        no_line_end(s.drop_last());
        let a = pieces::replace_char(s.drop_last(), '\n', " "@);
        let b = pieces::replace_char(s, '\n', " "@);
        assert forall|i: int| 0 <= i < b.len() implies b[i] != '\n' by {
            if i < a.len() {
                assert(b[i] == a[i]);
            }
        }
    }
}

/// Every sub-agent works, is done, has failed or was cancelled, and no two of these.
pub proof fn every_agent_is_counted(v: Seq<SubAgentStatus>, n: int)
    requires
        0 <= n <= v.len(),
    ensures
        working(v, n) + in_phase(v, SubAgentPhase::Done, n) + in_phase(v, SubAgentPhase::Failed, n)
            + in_phase(v, SubAgentPhase::Cancelled, n) == n,
    decreases n,
{
    if n > 0 {
        every_agent_is_counted(v, n - 1);
    }
}

/// A text that fits is shown as it is, and of one that does not, all that fits before the mark.
pub proof fn texts_that_fit_are_kept(s: Seq<char>, max: nat)
    requires
        text::is_trimmed(s),
        !text::has_char(s, '\n'),
        max > 0,
    ensures
        s.len() <= max ==> cut_line(s, max) == s,
        s.len() > max ==> cut_line(s, max) == s.take(max - 1).push('…'),
{
    text::white_space_around_goes(Seq::empty(), s, Seq::empty());
    pieces::nothing_is_replaced(s, '\n', " "@);
}

/// Every sub-agent has its card on the screen, those before it above and those behind it below.
pub proof fn every_card_is_shown(v: Seq<SubAgentStatus>, w: Words)
    requires
        v.len() > 0,
    ensures
        text::holds_in_order(frame(v, w), Seq::new(v.len(), |i: int| card(v[i], w))),
{
    let n = v.len() as int;
    let e = Seq::<Seq<char>>::empty();
    let p = Seq::new(v.len(), |i: int| card(v[i], w));
    cards_are_held(v, w, n);
    assert(p =~= Seq::new(n as nat, |i: int| card(v[i], w)));
    let above = wiped(summary(v, w)) + wiped("├────────────────────────────────────────────────"@);
    text::both_parts_are_held(above, e, cards(v, w, n), p);
    assert(e + p =~= p);
    let head = wiped("╭─ 子 Agent 监控 ──────────────── 按 Enter 返回 ─╮"@);
    text::both_parts_are_held(head, e, above + cards(v, w, n), p);
    text::both_parts_are_held(
        head + (above + cards(v, w, n)),
        p,
        "╰────────────────────────────────────────────────╯\x1b[J\n"@,
        e,
    );
    assert(p + e =~= p);
}

proof fn cards_are_held(v: Seq<SubAgentStatus>, w: Words, n: int)
    requires
        0 <= n <= v.len(),
    ensures
        text::holds_in_order(cards(v, w, n), Seq::new(n as nat, |i: int| card(v[i], w))),
    decreases n,
{
    let p = Seq::new(n as nat, |i: int| card(v[i], w));
    if n > 0 {
        cards_are_held(v, w, n - 1);
        let q = Seq::new((n - 1) as nat, |i: int| card(v[i], w));
        let c = card(v[n - 1], w);
        text::a_text_holds_itself(Seq::empty(), c, Seq::empty());
        text::both_parts_are_held(cards(v, w, n - 1), q, c, seq![c]);
        assert(q + seq![c] =~= p);
    }
}

/// The numbers of a sub-agent are the rounds, the calls and the tokens that it took, in this
/// order.
pub proof fn numbers_show_the_work(a: SubAgentStatus, w: Words)
    ensures
        text::holds_in_order(
            numbers(a, w),
            seq![
                numeral::dec(a.turns as nat),
                numeral::dec(a.tool_calls as nat),
                numeral::dec((a.input_tokens + a.output_tokens) as nat),
            ],
        ),
{
    let t1 = numeral::dec(a.turns as nat);
    let t2 = numeral::dec(a.tool_calls as nat);
    let t3 = numeral::dec((a.input_tokens + a.output_tokens) as nat);
    let e = Seq::<Seq<char>>::empty();
    let s0 = "│   "@ + w.turns@ + " "@;
    text::one_more_is_held(s0, e, t1);
    let p1 = e.push(t1);
    let s1 = s0 + t1;
    text::one_more_is_held(s1, p1, " · "@);
    text::one_more_is_held(s1 + " · "@, p1, w.tools@);
    text::one_more_is_held(s1 + " · "@ + w.tools@, p1, " "@);
    let s2 = s1 + " · "@ + w.tools@ + " "@;
    text::one_more_is_held(s2, p1, t2);
    let p2 = p1.push(t2);
    text::one_more_is_held(s2 + t2, p2, " · tokens "@);
    let s3 = s2 + t2 + " · tokens "@;
    text::one_more_is_held(s3, p2, t3);
    let p3 = p2.push(t3);
    let cost = match manage::opt_text(a.cost) {
        Some(c) => " $"@ + c,
        None => Seq::empty(),
    };
    let doing = match manage::opt_text(a.activity) {
        Some(t) => " · "@ + t,
        None => Seq::empty(),
    };
    text::one_more_is_held(s3 + t3, p3, cost);
    text::one_more_is_held(s3 + t3 + cost, p3, doing);
    assert(p3 =~= seq![t1, t2, t3]);
}

/// A card shows the sub-agent's phase, its name, its task and its numbers, in this order.
pub proof fn cards_show_the_agent(a: SubAgentStatus, w: Words)
    ensures
        text::holds_in_order(
            card(a, w),
            seq![
                tag(a.phase, w),
                cut_line(a.label@, 34),
                cut_line(a.task@, 52),
                numbers(a, w),
            ],
        ),
{
    let t1 = tag(a.phase, w);
    let t2 = cut_line(a.label@, 34);
    let t3 = cut_line(a.task@, 52);
    let t4 = numbers(a, w);
    let e = Seq::<Seq<char>>::empty();
    let bar = progress(a.filled as nat, a.percent as nat);
    text::one_more_is_held("│ "@, e, t1);
    let p1 = e.push(t1);
    let s1 = "│ "@ + t1;
    text::one_more_is_held(s1, p1, " "@);
    text::one_more_is_held(s1 + " "@, p1, t2);
    let p2 = p1.push(t2);
    let s2 = s1 + " "@ + t2;
    text::one_more_is_held(s2, p2, " "@);
    text::one_more_is_held(s2 + " "@, p2, bar);
    let l1 = s2 + " "@ + bar;
    text::one_more_is_held(l1, p2, "\x1b[K\n"@);
    let front = "│   "@ + w.task@ + ": "@;
    text::one_more_is_held(front, e, t3);
    let q3 = e.push(t3);
    text::one_more_is_held(front + t3, q3, "\x1b[K\n"@);
    text::both_parts_are_held(wiped(l1), p2, wiped(front + t3), q3);
    let p3 = p2 + q3;
    text::a_text_holds_itself(Seq::empty(), t4, "\x1b[K\n"@);
    text::both_parts_are_held(wiped(l1) + wiped(front + t3), p3, wiped(t4), seq![t4]);
    let p4 = p3 + seq![t4];
    let s4 = wiped(l1) + wiped(front + t3) + wiped(t4);
    let log = match manage::opt_text(a.last_log) {
        Some(t) => wiped("│   ▸ "@ + cut_line(t, 60)),
        None => Seq::empty(),
    };
    let err = match manage::opt_text(a.error) {
        Some(x) => wiped("│   \x1b[31m✗ "@ + cut_line(x, 60) + "\x1b[0m"@),
        None => Seq::empty(),
    };
    text::one_more_is_held(s4, p4, log);
    text::one_more_is_held(s4 + log, p4, err);
    assert(card(a, w) == s4 + log + err);
    assert(p4 =~= seq![t1, t2, t3, t4]);
}

/// What a sub-agent said last, and what it failed with, stand on its card.
pub proof fn cards_show_log_and_error(a: SubAgentStatus, w: Words)
    requires
        a.last_log is Some,
        a.error is Some,
    ensures
        text::holds_in_order(
            card(a, w),
            seq![cut_line(a.last_log->0@, 60), cut_line(a.error->0@, 60)],
        ),
{
    let e = Seq::<Seq<char>>::empty();
    let t1 = cut_line(a.last_log->0@, 60);
    let t2 = cut_line(a.error->0@, 60);
    text::a_text_holds_itself("│   ▸ "@, t1, "\x1b[K\n"@);
    let log = wiped("│   ▸ "@ + t1);
    let err = wiped("│   \x1b[31m✗ "@ + t2 + "\x1b[0m"@);
    text::a_text_holds_itself("│   \x1b[31m✗ "@, t2, "\x1b[0m"@);
    text::one_more_is_held("│   \x1b[31m✗ "@ + t2 + "\x1b[0m"@, seq![t2], "\x1b[K\n"@);
    let front = wiped(
        "│ "@ + tag(a.phase, w) + " "@ + cut_line(a.label@, 34) + " "@ + progress(
            a.filled as nat,
            a.percent as nat,
        ),
    ) + wiped("│   "@ + w.task@ + ": "@ + cut_line(a.task@, 52)) + wiped(numbers(a, w));
    text::both_parts_are_held(front, e, log, seq![t1]);
    assert(e + seq![t1] =~= seq![t1]);
    text::both_parts_are_held(front + log, seq![t1], err, seq![t2]);
    assert(card(a, w) == front + log + err);
    assert(seq![t1] + seq![t2] =~= seq![t1, t2]);
}

/// One more sub-agent adds one to the count of its kind and its tokens to the sum.
pub proof fn counts_grow_by_one(v: Seq<SubAgentStatus>, x: SubAgentStatus, p: SubAgentPhase)
    ensures
        ({
            let n = v.len() as int;
            let u = v.push(x);
            &&& working(u, n + 1) == working(v, n) + (if x.phase is Done || x.phase is Failed
                || x.phase is Cancelled {
                0int
            } else {
                1
            })
            &&& in_phase(u, p, n + 1) == in_phase(v, p, n) + (if x.phase == p {
                1int
            } else {
                0
            })
            &&& all_tokens(u, n + 1) == all_tokens(v, n) + x.input_tokens + x.output_tokens
        }),
{
    counts_of_front(v, x, p, v.len() as int);
}

proof fn counts_of_front(v: Seq<SubAgentStatus>, x: SubAgentStatus, p: SubAgentPhase, n: int)
    requires
        0 <= n <= v.len(),
    ensures
        working(v.push(x), n) == working(v, n),
        in_phase(v.push(x), p, n) == in_phase(v, p, n),
        all_tokens(v.push(x), n) == all_tokens(v, n),
    decreases n,
{
    if n > 0 {
        counts_of_front(v, x, p, n - 1);
        assert(v.push(x)[n - 1] == v[n - 1]);
    }
}

/// The screen says how many sub-agents work, are done and have failed, and how many tokens all
/// of them took.
pub proof fn the_screen_says_how_many(v: Seq<SubAgentStatus>, w: Words)
    requires
        v.len() > 0,
    ensures
        text::holds_in_order(
            frame(v, w),
            seq![
                numeral::dec(working(v, v.len() as int)),
                numeral::dec(in_phase(v, SubAgentPhase::Done, v.len() as int)),
                numeral::dec(in_phase(v, SubAgentPhase::Failed, v.len() as int)),
                numeral::dec(all_tokens(v, v.len() as int)),
            ],
        ),
{
    let n = v.len() as int;
    let t1 = numeral::dec(working(v, n));
    let t2 = numeral::dec(in_phase(v, SubAgentPhase::Done, n));
    let t3 = numeral::dec(in_phase(v, SubAgentPhase::Failed, n));
    let t4 = numeral::dec(all_tokens(v, n));
    let e = Seq::<Seq<char>>::empty();
    let s0 = "│  "@ + w.active@ + " \x1b[1m"@;
    text::one_more_is_held(s0, e, t1);
    let p1 = e.push(t1);
    let s1 = s0 + t1;
    text::one_more_is_held(s1, p1, "\x1b[0m · "@);
    text::one_more_is_held(s1 + "\x1b[0m · "@, p1, w.done@);
    text::one_more_is_held(s1 + "\x1b[0m · "@ + w.done@, p1, " \x1b[32m"@);
    let s2 = s1 + "\x1b[0m · "@ + w.done@ + " \x1b[32m"@;
    text::one_more_is_held(s2, p1, t2);
    let p2 = p1.push(t2);
    let s3 = s2 + t2;
    text::one_more_is_held(s3, p2, "\x1b[0m · "@);
    text::one_more_is_held(s3 + "\x1b[0m · "@, p2, w.failed@);
    text::one_more_is_held(s3 + "\x1b[0m · "@ + w.failed@, p2, " \x1b[31m"@);
    let s4 = s3 + "\x1b[0m · "@ + w.failed@ + " \x1b[31m"@;
    text::one_more_is_held(s4, p2, t3);
    let p3 = p2.push(t3);
    let s5 = s4 + t3;
    text::one_more_is_held(s5, p3, "\x1b[0m · "@);
    text::one_more_is_held(s5 + "\x1b[0m · "@, p3, w.total@);
    text::one_more_is_held(s5 + "\x1b[0m · "@ + w.total@, p3, " "@);
    let s6 = s5 + "\x1b[0m · "@ + w.total@ + " "@;
    text::one_more_is_held(s6, p3, t4);
    let p4 = p3.push(t4);
    text::one_more_is_held(s6 + t4, p4, " tokens"@);
    assert(summary(v, w) == s6 + t4 + " tokens"@);
    text::one_more_is_held(summary(v, w), p4, "\x1b[K\n"@);
    let rule = wiped("├────────────────────────────────────────────────"@);
    text::one_more_is_held(wiped(summary(v, w)), p4, rule);
    text::one_more_is_held(wiped(summary(v, w)) + rule, p4, cards(v, w, n));
    let head = wiped("╭─ 子 Agent 监控 ──────────────── 按 Enter 返回 ─╮"@);
    let inner = wiped(summary(v, w)) + rule + cards(v, w, n);
    text::both_parts_are_held(head, e, inner, p4);
    assert(e + p4 =~= p4);
    text::one_more_is_held(
        head + inner,
        p4,
        "╰────────────────────────────────────────────────╯\x1b[J\n"@,
    );
    assert(p4 =~= seq![t1, t2, t3, t4]);
}

} // verus!
