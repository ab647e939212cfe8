//! Commands of the shell that are run when something happens, and that may forbid a tool.
use vstd::prelude::*;

use crate::data;
use crate::data::{table, text_data, Data};
use crate::json;
use crate::json::write_json;
use crate::manage;
use crate::repl;
use crate::text;
use crate::text::{copy_text, same};

verus! {

/// A command and what it is run for.
#[derive(Debug)]
pub struct HookRule {
    /// The name of the event.
    pub event: String,
    /// The tool that it is run for; otherwise it is run for all.
    pub tool: Option<String>,
    pub command: String,
    pub timeout_secs: Option<u64>,
}

/// What kind of event it is.
#[derive(Debug)]
pub enum HookEventKind {
    BeforeTool,
    AfterTool { tool: String },
    Other,
}

/// Something that happens.
#[derive(Debug)]
pub struct HookEvent {
    pub name: String,
    pub kind: HookEventKind,
    /// What the command is told of it.
    pub payload: Data,
}

/// What a command decides.
#[derive(Debug)]
pub struct HookDecision {
    pub decision: String,
    pub reason: Option<String>,
}

/// A command that is run when something happens.
#[derive(Debug)]
pub struct ShellHook {
    pub rule: HookRule,
}

/// The name of an event: what happens before and after a tool is used has two.
pub open spec fn event_name(s: Seq<char>) -> Seq<char> {
    if s == "before_tool"@ {
        "tool_call"@
    } else if s == "after_tool"@ {
        "tool_result"@
    } else {
        s
    }
}

fn event_name_of(s: &str) -> (r: String)
    ensures
        r@ == event_name(s@),
{
    if same(s, "before_tool") {
        copy_text("tool_call")
    } else if same(s, "after_tool") {
        copy_text("tool_result")
    } else {
        copy_text(s)
    }
}

/// Whether a rule is asked before a tool is used.
pub open spec fn is_gate(rule: HookRule) -> bool {
    event_name(rule.event@) == "tool_call"@
}

/// What a command is told before a tool is used.
pub open spec fn tool_payload(tool: Seq<char>, args: data::DataView) -> data::DataView {
    data::DataView::Table(
        seq![
            ("event"@, data::DataView::Text("before_tool"@)),
            ("tool"@, data::DataView::Text(tool)),
            ("args"@, args),
        ],
    )
}

/// Whether a rule is for an event, given whether it is for the tool of the event. Events
/// before a tool is used are dealt with where they can be answered.
pub open spec fn is_for(rule: HookRule, event: HookEvent, tool_matches: bool) -> bool {
    event_name(event.name@) == event_name(rule.event@) && (match event.kind {
        HookEventKind::BeforeTool => false,
        HookEventKind::AfterTool { tool } => tool_matches,
        HookEventKind::Other => true,
    })
}

impl ShellHook {
    pub fn new(rule: HookRule) -> (h: ShellHook)
        ensures
            h.rule == rule,
    {
        ShellHook { rule }
    }

    /// The program that runs the command, and its arguments.
    pub fn shell_command(command: &str, shell: Option<&str>, windows: bool) -> (r: (
        String,
        Vec<String>,
    ))
        ensures
            r.0@ == (match repl::str_text(shell) {
                Some(s) => s,
                None => if windows {
                    "cmd"@
                } else {
                    "/bin/sh"@
                },
            }),
            text::texts(r.1@) == (if windows {
                seq!["/C"@, command@]
            } else {
                seq!["-c"@, command@]
            }),
    {
        let program = match shell {
            Some(s) => copy_text(s),
            None => if windows {
                copy_text("cmd")
            } else {
                copy_text("/bin/sh")
            },
        };
        let args = if windows {
            vec![copy_text("/C"), copy_text(command)]
        } else {
            vec![copy_text("-c"), copy_text(command)]
        };
        assert(text::texts(args@) =~= (if windows {
            seq!["/C"@, command@]
        } else {
            seq!["-c"@, command@]
        }));
        (program, args)
    }

    /// What the command is told of an event, if it is run for it.
    pub fn on_event(&self, event: &HookEvent, tool_matches: bool) -> (r: Option<String>)
        ensures
            manage::opt_text(r) == (if is_for(self.rule, *event, tool_matches) {
                Some(json::json_text(json::put_in(event.payload@)))
            } else {
                None
            }),
    {
        if !same(&event_name_of(&event.name), &event_name_of(&self.rule.event)) {
            return None;
        }
        let fits = match &event.kind {
            HookEventKind::BeforeTool => false,
            HookEventKind::AfterTool { .. } => tool_matches,
            HookEventKind::Other => true,
        };
        if fits {
            Some(write_json(&event.payload))
        } else {
            None
        }
    }

    /// What the command is told before a tool is used, if it is run for it.
    pub fn before_tool_intercept(&self, tool: &str, args: &Data, tool_matches: bool) -> (r: Option<
        String,
    >)
        ensures
            manage::opt_text(r) == (if is_gate(self.rule) && tool_matches {
                Some(json::json_text(json::put_in(tool_payload(tool@, args@))))
            } else {
                None
            }),
    {
        if !same(&event_name_of(&self.rule.event), "tool_call") || !tool_matches {
            return None;
        }
        let payload = table(
            vec![
                (copy_text("event"), text_data("before_tool")),
                (copy_text("tool"), text_data(tool)),
                (copy_text("args"), args.copy()),
            ],
        );
        assert(payload@->Table_0 =~= tool_payload(tool@, args@)->Table_0);
        Some(write_json(&payload))
    }
}

/// How the first line of a command came out.
#[derive(Debug)]
pub enum HookRun {
    NotStarted,
    /// It could be read; empty if there was none.
    Line(String),
    ReadFailed,
    TimedOut,
}

/// The first line, if there is one.
pub fn run_first_line(run: &HookRun) -> (r: Option<String>)
    ensures
        manage::opt_text(r) == (match run {
            HookRun::Line(l) => if l@.len() > 0 {
                Some(l@)
            } else {
                None
            },
            _ => None,
        }),
{
    match run {
        HookRun::Line(l) => if l.as_str().is_empty() {
            None
        } else {
            Some(copy_text(l))
        },
        _ => None,
    }
}

/// Why a tool may not be used.
pub open spec fn forbids(d: Option<HookDecision>) -> Option<Seq<char>> {
    match d {
        Some(d) => if d.decision@ == "deny"@ {
            Some(
                match manage::opt_text(d.reason) {
                    Some(r) => r,
                    None => "被 shell 钩子拦截"@,
                },
            )
        } else {
            None
        },
        None => None,
    }
}

/// Why a tool may not be used, by what the line says; a line that is no decision forbids
/// nothing.
pub fn parse_decision(d: &Option<HookDecision>) -> (r: Option<String>)
    ensures
        manage::opt_text(r) == forbids(*d),
{
    match d {
        Some(d) => if same(&d.decision, "deny") {
            match &d.reason {
                Some(r) => Some(copy_text(r)),
                None => Some(copy_text("被 shell 钩子拦截")),
            }
        } else {
            None
        },
        None => None,
    }
}

/// A command for each rule.
pub fn shell_hooks_from_config(rules: Vec<HookRule>) -> (r: Vec<ShellHook>)
    ensures
        r@ == Seq::new(rules@.len(), |i: int| ShellHook { rule: rules@[i] }),
{
    let mut left = rules;
    let mut back: Vec<ShellHook> = Vec::new();
    let ghost n = rules@.len();
    while left.len() > 0
        invariant
            n == rules@.len(),
            left@ == rules@.take(left@.len() as int),
            left@.len() + back@.len() == n,
            forall|i: int|
                0 <= i < back@.len() ==> #[trigger] back@[i] == (ShellHook {
                    rule: rules@[n - 1 - i],
                }),
        decreases left.len(),
    {
        let rule = left.pop().unwrap();
        back.push(ShellHook::new(rule));
    }
    let mut r: Vec<ShellHook> = Vec::new();
    while back.len() > 0
        invariant
            n == rules@.len(),
            back@.len() + r@.len() == n,
            forall|i: int|
                0 <= i < back@.len() ==> #[trigger] back@[i] == (ShellHook {
                    rule: rules@[n - 1 - i],
                }),
            forall|i: int|
                0 <= i < r@.len() ==> #[trigger] r@[i] == (ShellHook { rule: rules@[i] }),
        decreases back.len(),
    {
        r.push(back.pop().unwrap());
    }
    assert(r@ =~= Seq::new(rules@.len(), |i: int| ShellHook { rule: rules@[i] }));
    r
}

// ── What holds of every rule ────────────────────────────────────────────────

/// No command is run twice for one use of a tool: what is dealt with before the tool is
/// used is not dealt with again as an event.
pub proof fn tool_calls_fire_once(rule: HookRule, event: HookEvent, tool_matches: bool)
    requires
        event.kind is BeforeTool,
    ensures
        !is_for(rule, event, tool_matches),
{
}

/// A rule that is asked before a tool is used is one under either name of that event.
pub proof fn gates_have_two_names(rule: HookRule)
    ensures
        is_gate(rule) <==> rule.event@ == "before_tool"@ || rule.event@ == "tool_call"@,
{
    reveal_strlit("before_tool");
    reveal_strlit("tool_call");
    reveal_strlit("tool_result");
    reveal_strlit("after_tool");
    assert("tool_result"@.len() == 11);
    assert("tool_call"@.len() == 9);
}

/// Only a decision that says so forbids a tool.
pub proof fn only_denial_forbids(d: Option<HookDecision>)
    ensures
        forbids(d) is Some <==> d is Some && (d->0).decision@ == "deny"@,
{
}

} // verus!
