//! The `/goal` command.
use vstd::prelude::*;

use crate::numeral;
use crate::numeral::{dec_text, unsigned_of};
use crate::pieces;
use crate::pieces::words_of;
use crate::say;
use crate::say::{just, msg, Msg, Output, Val};
use crate::text;
use crate::text::{behind, copy_text, same, trimmed};

verus! {

/// The goal of a session as `/goal` shows it.
#[derive(Debug)]
pub struct GoalView {
    /// The goal and how it stands, where there is one.
    pub objective: Option<String>,
    /// The budget and what was used of it.
    pub summary: String,
    pub exceeded: bool,
    pub hard_stop: bool,
    pub token_budget: u64,
}

/// What a `/goal` command asks for.
#[derive(Clone, Copy, Debug, PartialEq, Eq, Structural)]
pub enum GoalAction {
    Show,
    Pause,
    Resume,
    Complete,
    Abandon,
    /// Give the session this budget; the number is shown with it.
    Budget { budget: u64, shown: u64 },
    Usage,
}

/// A number of tokens; a text that is none counts as zero.
pub open spec fn tokens(s: Seq<char>) -> nat {
    match numeral::unsigned(s, u64::MAX as nat) {
        Some(n) => n,
        None => 0,
    }
}

pub open spec fn last_tokens(s: Seq<char>) -> nat {
    let w = pieces::words(s);
    if w.len() == 0 {
        0
    } else {
        tokens(w.last())
    }
}

pub open spec fn capped(n: nat) -> u64 {
    if n > u64::MAX {
        u64::MAX
    } else {
        n as u64
    }
}

/// What the text behind `/goal` asks for, with the budget that is in effect.
pub open spec fn goal_command(rest: Seq<char>, budget: u64) -> GoalAction {
    if rest.len() == 0 {
        GoalAction::Show
    } else if rest == "pause"@ {
        GoalAction::Pause
    } else if rest == "resume"@ {
        GoalAction::Resume
    } else if rest == "complete"@ {
        GoalAction::Complete
    } else if rest == "drop"@ {
        GoalAction::Abandon
    } else {
        match text::after(rest, "set "@) {
            Some(n) => GoalAction::Budget {
                budget: tokens(text::trim(n)) as u64,
                shown: last_tokens(rest) as u64,
            },
            None => match text::after(rest, "extend "@) {
                Some(n) => GoalAction::Budget {
                    budget: capped(budget as nat + tokens(text::trim(n))),
                    shown: last_tokens(rest) as u64,
                },
                None => GoalAction::Usage,
            },
        }
    }
}

fn tokens_of(s: &str) -> (r: u64)
    ensures
        r == tokens(s@),
{
    match unsigned_of(s, u64::MAX) {
        Some(n) => n,
        None => 0,
    }
}

fn last_tokens_of(s: &str) -> (r: u64)
    ensures
        r == last_tokens(s@),
{
    let w = words_of(s);
    let ghost wv = text::texts(w@);
    assert(wv.len() == w.len());
    if w.len() == 0 {
        0
    } else {
        assert(wv.last() == w@[w.len() - 1]@);
        tokens_of(&w[w.len() - 1])
    }
}

pub open spec fn goal_rest(input: Seq<char>) -> Seq<char> {
    match text::after(input, "/goal"@) {
        Some(r) => text::trim(r),
        None => text::trim(Seq::empty()),
    }
}

/// Reads a `/goal` command.
pub fn goal_action(input: &str, budget: u64) -> (r: GoalAction)
    ensures
        r == goal_command(goal_rest(input@), budget),
{
    let rest = match behind(input, "/goal") {
        Some(t) => trimmed(&t),
        None => {
            let e = String::new();
            trimmed(&e)
        },
    };
    if rest.as_str().is_empty() {
        GoalAction::Show
    } else if same(&rest, "pause") {
        GoalAction::Pause
    } else if same(&rest, "resume") {
        GoalAction::Resume
    } else if same(&rest, "complete") {
        GoalAction::Complete
    } else if same(&rest, "drop") {
        GoalAction::Abandon
    } else {
        match behind(&rest, "set ") {
            Some(n) => GoalAction::Budget {
                budget: tokens_of(&trimmed(&n)),
                shown: last_tokens_of(&rest),
            },
            None => match behind(&rest, "extend ") {
                Some(n) => {
                    let more: u64 = tokens_of(&trimmed(&n));
                    let sum: u64 = if more > u64::MAX - budget {
                        u64::MAX
                    } else {
                        budget + more
                    };
                    GoalAction::Budget { budget: sum, shown: last_tokens_of(&rest) }
                },
                None => GoalAction::Usage,
            },
        }
    }
}

pub open spec fn hard_or_soft(hard: bool) -> Seq<char> {
    if hard {
        "hard"@
    } else {
        "soft"@
    }
}

/// What `/goal` shows of a goal.
pub open spec fn goal_lines(g: GoalView) -> Seq<say::LineView> {
    seq![
        say::LineView::Msg(say::entry("goal.title"@)),
        say::LineView::Msg(
            say::entry("goal.objective"@).with(
                "state"@,
                match g.objective {
                    Some(o) => say::ValView::Text(o@),
                    None => say::entry("goal.none"@).val(),
                },
            ),
        ),
        say::LineView::Msg(say::entry("goal.status"@).arg("summary"@, g.summary@)),
        say::LineView::Msg(
            say::entry("goal.exceeded"@).arg(
                "state"@,
                if g.exceeded {
                    "yes"@
                } else {
                    "no"@
                },
            ),
        ),
        say::LineView::Msg(say::entry("goal.mode"@).arg("mode"@, hard_or_soft(g.hard_stop))),
        say::LineView::Msg(say::entry("goal.usage"@)),
    ]
}

pub fn show_goal(g: &GoalView) -> (out: Output)
    ensures
        out@ == goal_lines(*g),
{
    let mut out = just(msg("goal.title"));
    let state = match &g.objective {
        Some(o) => Val::Text(copy_text(o)),
        None => msg("goal.none").val(),
    };
    out.say(msg("goal.objective").with("state", state));
    out.say(msg("goal.status").arg("summary", &g.summary));
    let exceeded: &str = if g.exceeded {
        "yes"
    } else {
        "no"
    };
    out.say(msg("goal.exceeded").arg("state", exceeded));
    let mode: &str = if g.hard_stop {
        "hard"
    } else {
        "soft"
    };
    out.say(msg("goal.mode").arg("mode", mode));
    out.say(msg("goal.usage"));
    assert(out@ =~= goal_lines(*g));
    out
}

/// What moving a goal on came to.
#[derive(Debug)]
pub enum GoalMoved {
    /// It worked; the budget's summary afterwards.
    Done(String),
    /// A goal was dropped; what it was, where there was one.
    Dropped(Option<String>),
    Failed(String),
}

/// What is said once a goal was to be moved on.
pub open spec fn goal_moved_msg(a: GoalAction, m: GoalMoved) -> say::MsgView {
    match m {
        GoalMoved::Failed(e) => say::entry("goal.error"@).arg("error"@, e@),
        GoalMoved::Dropped(None) => say::entry("goal.none"@),
        GoalMoved::Dropped(Some(o)) => say::entry("goal.dropped"@).arg("objective"@, o@),
        GoalMoved::Done(s) => match a {
            GoalAction::Pause => say::entry("goal.paused"@),
            GoalAction::Resume => say::entry("goal.resumed"@).arg("summary"@, s@),
            _ => say::entry("goal.completed"@).arg("summary"@, s@),
        },
    }
}

pub fn goal_moved(a: GoalAction, m: &GoalMoved) -> (r: Msg)
    ensures
        r@ == goal_moved_msg(a, *m),
{
    match m {
        GoalMoved::Failed(e) => msg("goal.error").arg("error", e),
        GoalMoved::Dropped(None) => msg("goal.none"),
        GoalMoved::Dropped(Some(o)) => msg("goal.dropped").arg("objective", o),
        GoalMoved::Done(s) => match a {
            GoalAction::Pause => msg("goal.paused"),
            GoalAction::Resume => msg("goal.resumed").arg("summary", s),
            _ => msg("goal.completed").arg("summary", s),
        },
    }
}

/// What is said once the budget has been set.
pub fn goal_updated(budget: u64, shown: u64) -> (r: Msg)
    ensures
        r@ == say::entry("goal.updated"@).arg("budget"@, numeral::dec(budget as nat)).arg(
            "tokens"@,
            numeral::dec(shown as nat),
        ),
{
    msg("goal.updated").arg("budget", &dec_text(budget)).arg("tokens", &dec_text(shown))
}

/// Whether the user has been told that the budget is used up: once it is no longer, they
/// may be told again.
pub fn still_notified(notified: bool, exceeded: bool) -> (r: bool)
    ensures
        r == (notified && exceeded),
{
    notified && exceeded
}

/// What `/goal` does, as far as it can be told without the goal itself moving: what it asks
/// for, and what is printed at once.
pub fn handle_goal(input: &str, goal: &Option<GoalView>) -> (r: (Option<GoalAction>, Output))
    ensures
        match goal {
            None => r.0 is None && r.1@ == say::said(say::entry("goal.disabled"@)),
            Some(g) => {
                let a = goal_command(goal_rest(input@), g.token_budget);
                &&& r.0 == Some(a)
                &&& r.1@ == (match a {
                    GoalAction::Show => goal_lines(*g),
                    GoalAction::Usage => say::said(say::entry("goal.usage"@)),
                    GoalAction::Budget { budget, shown } => say::said(
                        say::entry("goal.updated"@).arg("budget"@, numeral::dec(budget as nat)).arg(
                            "tokens"@,
                            numeral::dec(shown as nat),
                        ),
                    ),
                    _ => say::silence(),
                })
            },
        },
{
    match goal {
        None => (None, just(msg("goal.disabled"))),
        Some(g) => {
            let a = goal_action(input, g.token_budget);
            let out = match a {
                GoalAction::Show => show_goal(g),
                GoalAction::Usage => just(msg("goal.usage")),
                GoalAction::Budget { budget, shown } => just(goal_updated(budget, shown)),
                _ => Output::new(),
            };
            (Some(a), out)
        },
    }
}

/// Extending a budget never makes it smaller.
pub proof fn extending_never_shrinks(rest: Seq<char>, budget: u64)
    requires
        text::after(rest, "set "@) is None,
        text::after(rest, "extend "@) is Some,
    ensures
        goal_command(rest, budget) matches GoalAction::Budget { budget: b, .. } ==> b >= budget,
{
}

proof fn digits_are_dark(n: nat)
    ensures
        numeral::dec(n).len() > 0,
        text::is_trimmed(numeral::dec(n)),
        pieces::is_word(numeral::dec(n)),
{
    numeral::dec_reads_back(n);
    let d = numeral::dec(n);
    assert forall|k: int| 0 <= k < d.len() implies !text::is_white(#[trigger] d[k]) by {
        assert(text::is_digit(d[k]));
        digit_is_dark(d[k]);
    }
    assert(!text::is_white(d[0]) && !text::is_white(d[d.len() - 1]));
}

proof fn digit_is_dark(c: char)
    requires
        text::is_digit(c),
    ensures
        !text::is_white(c),
{
}

proof fn goal_words()
    ensures
        "pause"@ == seq!['p', 'a', 'u', 's', 'e'],
        "resume"@ == seq!['r', 'e', 's', 'u', 'm', 'e'],
        "complete"@ == seq!['c', 'o', 'm', 'p', 'l', 'e', 't', 'e'],
        "drop"@ == seq!['d', 'r', 'o', 'p'],
        "set "@ == seq!['s', 'e', 't', ' '],
        "extend "@ == seq!['e', 'x', 't', 'e', 'n', 'd', ' '],
{
    reveal_strlit("pause");
    reveal_strlit("resume");
    reveal_strlit("complete");
    reveal_strlit("drop");
    reveal_strlit("set ");
    reveal_strlit("extend ");
    assert("pause"@ =~= seq!['p', 'a', 'u', 's', 'e']);
    assert("resume"@ =~= seq!['r', 'e', 's', 'u', 'm', 'e']);
    assert("complete"@ =~= seq!['c', 'o', 'm', 'p', 'l', 'e', 't', 'e']);
    assert("drop"@ =~= seq!['d', 'r', 'o', 'p']);
    assert("set "@ =~= seq!['s', 'e', 't', ' ']);
    assert("extend "@ =~= seq!['e', 'x', 't', 'e', 'n', 'd', ' ']);
}

/// `/goal set` makes the budget the number behind it, and `/goal extend` adds the number to the
/// budget that there is, as far as it can be counted.
pub proof fn budgets_are_set_and_extended(n: u64, budget: u64)
    ensures
        goal_command("set "@ + numeral::dec(n as nat), budget) == (GoalAction::Budget {
            budget: n,
            shown: n,
        }),
        n + budget <= u64::MAX ==> goal_command("extend "@ + numeral::dec(n as nat), budget) == (
        GoalAction::Budget { budget: (n + budget) as u64, shown: n }),
        n + budget > u64::MAX ==> goal_command("extend "@ + numeral::dec(n as nat), budget) == (
        GoalAction::Budget { budget: u64::MAX, shown: n }),
{
    let d = numeral::dec(n as nat);
    goal_words();
    digits_are_dark(n as nat);
    numeral::unsigned_of_dec(n as nat, u64::MAX as nat);
    text::white_space_around_goes(Seq::empty(), d, Seq::empty());
    let s = "set "@ + d;
    let x = "extend "@ + d;
    assert(s.take(4) =~= "set "@);
    assert(s.skip(4) =~= d);
    assert(x.take(7) =~= "extend "@);
    assert(x.skip(7) =~= d);
    assert(s[0] == 's' && x[0] == 'e');
    assert(x.take(4)[0] == 'e');
    let set = seq!['s', 'e', 't'];
    let extend = seq!['e', 'x', 't', 'e', 'n', 'd'];
    let ws = seq![set, d];
    let wx = seq![extend, d];
    pieces::joining_sets_separators_between(set, seq![d], seq![' ']);
    pieces::joining_sets_separators_between(extend, seq![d], seq![' ']);
    pieces::joining_sets_separators_between(d, Seq::empty(), seq![' ']);
    assert(seq![set] + seq![d] =~= ws);
    assert(seq![extend] + seq![d] =~= wx);
    assert(pieces::join(ws, seq![' ']) =~= s);
    assert(pieces::join(wx, seq![' ']) =~= x);
    pieces::words_read_back(ws);
    pieces::words_read_back(wx);
    assert(ws.last() == d && wx.last() == d);
}

/// Each word behind `/goal` asks for what it says, whatever white space stands around it; no
/// word asks to be shown the goal.
pub proof fn words_move_the_goal(a: Seq<char>, b: Seq<char>, budget: u64)
    requires
        text::all_white(a),
        text::all_white(b),
    ensures
        goal_command(goal_rest("/goal"@ + a + "pause"@ + b), budget) is Pause,
        goal_command(goal_rest("/goal"@ + a + "resume"@ + b), budget) is Resume,
        goal_command(goal_rest("/goal"@ + a + "complete"@ + b), budget) is Complete,
        goal_command(goal_rest("/goal"@ + a + "drop"@ + b), budget) is Abandon,
        goal_command(goal_rest("/goal"@ + a), budget) is Show,
{
    goal_words();
    rest_is_behind(a, "pause"@, b);
    rest_is_behind(a, "resume"@, b);
    rest_is_behind(a, "complete"@, b);
    rest_is_behind(a, "drop"@, b);
    rest_is_behind(a, Seq::empty(), Seq::empty());
    assert("/goal"@ + a + Seq::<char>::empty() + Seq::<char>::empty() =~= "/goal"@ + a);
}

proof fn rest_is_behind(a: Seq<char>, w: Seq<char>, b: Seq<char>)
    requires
        text::all_white(a),
        text::all_white(b),
        text::is_trimmed(w),
    ensures
        goal_rest("/goal"@ + a + w + b) == w,
{
    reveal_strlit("/goal");
    let s = "/goal"@ + a + w + b;
    assert(s.take(5) =~= "/goal"@);
    assert(s.skip(5) =~= a + w + b);
    text::white_space_around_goes(a, w, b);
}

} // verus!
