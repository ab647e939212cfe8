//! A turn of the agent: showing what it does, and what is typed meanwhile.
use vstd::prelude::*;

use crate::markdown;
use crate::markdown::{MarkdownRenderer, Piece};
use crate::numeral;
use crate::numeral::{dec_text, dec_usize};
use crate::queue::MessageQueue;
use crate::queue_cmd;
use crate::queue_cmd::{handle_running_input, RunningInput};
use crate::say;
use crate::say::{msg, Msg, Output, Val};
use crate::show;
use crate::text;
use crate::text::{cat, copy_text};

verus! {

#[derive(Clone, Copy, Debug, PartialEq, Eq, Structural)]
pub enum StatusKind {
    Info,
    Thinking,
    Success,
    Warning,
    Error,
}

/// What an agent does during a turn.
#[derive(Debug)]
pub enum AgentEvent {
    TextDelta(String),
    ThinkingDelta(String),
    Say { kind: StatusKind, said: String },
    ToolExec { name: String, output: String },
    Usage { input: u64, output_tokens: u64 },
    StateChanged(String),
    Error(String),
    /// The turn is over; the cost is given as text.
    Done { success: bool, turns: u64, tools: u64, cost: String },
    /// Something that is not shown.
    Other,
}

/// What is printed for an event, and whether the turn has ended.
#[derive(Debug)]
pub struct Rendered {
    /// For the standard output.
    pub out: Vec<Piece>,
    /// For the error output, without a line end.
    pub raw: String,
    /// For the error output.
    pub err: Output,
    /// How the turn ended, if it did.
    pub done: Option<bool>,
}

pub struct RenderedView {
    pub out: Seq<Piece<Seq<char>>>,
    pub raw: Seq<char>,
    pub err: Seq<say::LineView>,
    pub done: Option<bool>,
}

impl View for Rendered {
    type V = RenderedView;

    open spec fn view(&self) -> RenderedView {
        RenderedView {
            out: markdown::piece_views(self.out@),
            raw: self.raw@,
            err: self.err@,
            done: self.done,
        }
    }
}

pub open spec fn nothing() -> RenderedView {
    RenderedView { out: Seq::empty(), raw: Seq::empty(), err: say::silence(), done: None }
}

pub open spec fn kind_key(k: StatusKind) -> Seq<char> {
    match k {
        StatusKind::Info => "event.info"@,
        StatusKind::Thinking => "event.think"@,
        StatusKind::Success => "event.ok"@,
        StatusKind::Warning => "event.warn"@,
        StatusKind::Error => "event.err"@,
    }
}

fn kind_key_of(k: StatusKind) -> (r: &'static str)
    ensures
        r@ == kind_key(k),
{
    match k {
        StatusKind::Info => "event.info",
        StatusKind::Thinking => "event.think",
        StatusKind::Success => "event.ok",
        StatusKind::Warning => "event.warn",
        StatusKind::Error => "event.err",
    }
}

/// An empty line and a line behind it.
pub open spec fn spaced(l: say::LineView) -> Seq<say::LineView> {
    seq![say::LineView::Text(Seq::empty()), l]
}

pub open spec fn notes(l: say::LineView) -> RenderedView {
    RenderedView { err: spaced(l), ..nothing() }
}

/// The line that ends a turn.
pub open spec fn done_msg(turns: u64, tools: u64, success: bool, cost: Seq<char>) -> say::MsgView {
    say::entry("event.done"@).arg("turns"@, numeral::dec(turns as nat)).arg(
        "tools"@,
        numeral::dec(tools as nat),
    ).arg("success"@, show::truth(success)).arg("cost"@, cost)
}

/// What is printed for an event, given the Markdown that is being shown.
pub open spec fn rendered(m: markdown::MarkdownState, e: AgentEvent) -> (
    markdown::MarkdownState,
    RenderedView,
) {
    match e {
        AgentEvent::TextDelta(t) => {
            let (after, out) = markdown::fed(m, t@);
            (after, RenderedView { out, ..nothing() })
        },
        AgentEvent::ThinkingDelta(t) => (
            m,
            RenderedView { raw: "\x1b[2m"@ + t@ + "\x1b[0m"@, ..nothing() },
        ),
        AgentEvent::Say { kind, said } => (
            m,
            notes(
                say::LineView::Parts(
                    seq![
                        show::plain("["@),
                        say::entry(kind_key(kind)).val(),
                        show::plain("] "@ + said@),
                    ],
                ),
            ),
        ),
        AgentEvent::ToolExec { name, output } => (
            m,
            notes(
                say::LineView::Msg(
                    say::entry("event.tool"@).arg("name"@, name@).arg("output"@, output@),
                ),
            ),
        ),
        AgentEvent::Usage { input, output_tokens } => (
            m,
            notes(
                say::LineView::Msg(
                    say::entry("event.usage"@).arg("input"@, numeral::dec(input as nat)).arg(
                        "out"@,
                        numeral::dec(output_tokens as nat),
                    ),
                ),
            ),
        ),
        AgentEvent::StateChanged(s) => (
            m,
            notes(say::LineView::Msg(say::entry("event.state"@).arg("state"@, s@))),
        ),
        AgentEvent::Error(x) => (
            m,
            notes(say::LineView::Msg(say::entry("event.error"@).arg("e"@, x@))),
        ),
        AgentEvent::Done { success, turns, tools, cost } => {
            let (after, tail) = markdown::finished(m);
            (
                after,
                RenderedView {
                    out: if tail.len() == 0 {
                        Seq::empty()
                    } else {
                        seq![Piece::Text(tail)]
                    },
                    raw: Seq::empty(),
                    err: spaced(say::LineView::Msg(done_msg(turns, tools, success, cost@))),
                    done: Some(success),
                },
            )
        },
        AgentEvent::Other => (m, nothing()),
    }
}

fn nothing_of() -> (r: Rendered)
    ensures
        r@ == nothing(),
{
    let r = Rendered { out: Vec::new(), raw: String::new(), err: Output::new(), done: None };
    assert(markdown::piece_views(r.out@) =~= Seq::empty());
    r
}

fn note(m: Msg) -> (r: Rendered)
    ensures
        r@ == notes(say::LineView::Msg(m@)),
{
    let mut r = nothing_of();
    let mut err = Output::new();
    err.print(String::new());
    err.say(m);
    assert(err@ =~= spaced(say::LineView::Msg(m@)));
    r.err = err;
    r
}

fn truth_of(b: bool) -> (r: &'static str)
    ensures
        r@ == show::truth(b),
{
    if b {
        "true"
    } else {
        "false"
    }
}

/// Shows an event. Only the end of a turn gives whether it succeeded; what was still held
/// back is printed then.
pub fn render_event(ev: &AgentEvent, md: &mut MarkdownRenderer) -> (r: Rendered)
    ensures
        (final(md)@, r@) == rendered(old(md)@, *ev),
        r.done is Some <==> ev is Done,
{
    match ev {
        AgentEvent::TextDelta(t) => {
            let mut r = nothing_of();
            r.out = md.push(t);
            r
        },
        AgentEvent::ThinkingDelta(t) => {
            let mut r = nothing_of();
            r.raw = cat(&cat("\x1b[2m", t), "\x1b[0m");
            r
        },
        AgentEvent::Say { kind, said } => {
            let mut r = nothing_of();
            let parts = vec![
                Val::Text(copy_text("[")),
                msg(kind_key_of(*kind)).val(),
                Val::Text(cat("] ", said)),
            ];
            let ghost view = seq![
                show::plain("["@),
                say::entry(kind_key(*kind)).val(),
                show::plain("] "@ + said@),
            ];
            assert(say::val_views(parts@) =~= view);
            let mut err = Output::new();
            err.print(String::new());
            err.parts(parts);
            assert(err@ =~= spaced(say::LineView::Parts(view)));
            r.err = err;
            r
        },
        AgentEvent::ToolExec { name, output } => note(
            msg("event.tool").arg("name", name).arg("output", output),
        ),
        AgentEvent::Usage { input, output_tokens } => note(
            msg("event.usage").arg("input", &dec_text(*input)).arg(
                "out",
                &dec_text(*output_tokens),
            ),
        ),
        AgentEvent::StateChanged(s) => note(msg("event.state").arg("state", s)),
        AgentEvent::Error(x) => note(msg("event.error").arg("e", x)),
        AgentEvent::Done { success, turns, tools, cost } => {
            let tail = md.finish();
            let mut r = note(
                msg("event.done").arg("turns", &dec_text(*turns)).arg(
                    "tools",
                    &dec_text(*tools),
                ).arg("success", truth_of(*success)).arg("cost", cost),
            );
            if !tail.as_str().is_empty() {
                let out = vec![Piece::Text(tail)];
                assert(markdown::piece_views(out@) =~= seq![Piece::Text(tail@)]);
                r.out = out;
            }
            r.done = Some(*success);
            r
        },
        AgentEvent::Other => nothing_of(),
    }
}

// ── The course of a turn ────────────────────────────────────────────────────

/// Something that happens during a turn.
#[derive(Debug)]
pub enum StreamEvent {
    Agent(AgentEvent),
    /// The agent has nothing more to say.
    AgentEnded,
    /// A line was typed.
    Typed(String),
    /// Nothing more can be typed.
    InputEnded,
}

/// A turn that is running.
#[derive(Debug)]
pub struct Turn {
    pub md: MarkdownRenderer,
    /// How the turn ended, as far as is known.
    pub success: bool,
    /// Whether typed lines are still read.
    pub reading: bool,
    pub over: bool,
}

pub struct TurnView {
    pub md: markdown::MarkdownState,
    pub success: bool,
    pub reading: bool,
    pub over: bool,
}

impl View for Turn {
    type V = TurnView;

    open spec fn view(&self) -> TurnView {
        TurnView {
            md: self.md@,
            success: self.success,
            reading: self.reading,
            over: self.over,
        }
    }
}

/// What an event of a turn leads to: what is printed, and what is sent to the agent.
#[derive(Debug)]
pub struct TurnStep {
    pub shown: Rendered,
    /// A message for the running agent.
    pub steer: Option<String>,
}

pub open spec fn step_view(s: TurnStep) -> (RenderedView, Option<Seq<char>>) {
    (s.shown@, crate::session::opt_text(s.steer))
}

/// What is printed of a typed line.
pub open spec fn typed_lines(r: RunningInput<Seq<char>>, out: Seq<say::LineView>) -> Seq<
    say::LineView,
> {
    match r {
        RunningInput::Queued(n) => out + spaced(
            say::LineView::Text(
                "[queued #"@ + numeral::dec(n as nat) + "] 运行中消息已排队（/queue list 查看）"@,
            ),
        ),
        _ => out,
    }
}

/// What an event does to a turn and to the queue of messages.
pub open spec fn turn_step(t: TurnView, q: Seq<Seq<char>>, e: StreamEvent) -> (
    TurnView,
    Seq<Seq<char>>,
    (RenderedView, Option<Seq<char>>),
) {
    match e {
        StreamEvent::Agent(ev) => {
            let (md, shown) = rendered(t.md, ev);
            (
                TurnView {
                    md,
                    success: match shown.done {
                        Some(s) => s,
                        None => t.success,
                    },
                    ..t
                },
                q,
                (shown, None),
            )
        },
        StreamEvent::AgentEnded => (TurnView { over: true, ..t }, q, (nothing(), None)),
        StreamEvent::InputEnded => (TurnView { reading: false, ..t }, q, (nothing(), None)),
        StreamEvent::Typed(line) => if !t.reading {
            (t, q, (nothing(), None))
        } else {
            let (after, r, out) = queue_cmd::running_input(q, line@);
            (
                t,
                after,
                (
                    RenderedView { err: typed_lines(r, out), ..nothing() },
                    match r {
                        RunningInput::Steer(m) => Some(m),
                        _ => None,
                    },
                ),
            )
        },
    }
}

impl Turn {
    /// A turn at its start. Typed lines are read only where someone can type.
    pub fn new(color: bool, reading: bool) -> (t: Turn)
        ensures
            t@.success == false,
            t@.reading == reading,
            t@.over == false,
            t@.md == (markdown::MarkdownState {
                line: Seq::empty(),
                in_fenced: false,
                fence: '`',
                lang: Seq::empty(),
                code: Seq::empty(),
                raw: Seq::empty(),
                color,
            }),
    {
        Turn { md: MarkdownRenderer::new(color), success: false, reading, over: false }
    }

    /// Takes the next event of the turn.
    pub fn consume_stream(&mut self, event: &StreamEvent, queue: &mut MessageQueue) -> (s: TurnStep)
        ensures
            (final(self)@, final(queue)@, step_view(s)) == turn_step(
                old(self)@,
                old(queue)@,
                *event,
            ),
    {
        match event {
            StreamEvent::Agent(ev) => {
                let shown = render_event(ev, &mut self.md);
                if let Some(s) = shown.done {
                    self.success = s;
                }
                TurnStep { shown, steer: None }
            },
            StreamEvent::AgentEnded => {
                self.over = true;
                TurnStep { shown: nothing_of(), steer: None }
            },
            StreamEvent::InputEnded => {
                self.reading = false;
                TurnStep { shown: nothing_of(), steer: None }
            },
            StreamEvent::Typed(line) => {
                if !self.reading {
                    return TurnStep { shown: nothing_of(), steer: None };
                }
                let (r, out) = handle_running_input(line, queue);
                let mut shown = nothing_of();
                let mut err = out;
                let mut steer: Option<String> = None;
                match r {
                    RunningInput::Ignored => {},
                    RunningInput::Queued(n) => {
                        let ghost before = err@;
                        let t = cat("[queued #", &dec_usize(n));
                        let t = cat(&t, "] 运行中消息已排队（/queue list 查看）");
                        err.print(String::new());
                        err.print(t);
                        assert(err@ =~= before + spaced(say::LineView::Text(t@)));
                    },
                    RunningInput::Steer(m) => {
                        steer = Some(m);
                    },
                }
                shown.err = err;
                TurnStep { shown, steer }
            },
        }
    }
}

/// What is said once the agent has taken a message.
pub fn steered() -> (out: Output)
    ensures
        out@ == spaced(say::LineView::Text("[steer] 消息已投递给运行中的 agent"@)),
{
    let mut out = Output::new();
    out.print(String::new());
    out.print(copy_text("[steer] 消息已投递给运行中的 agent"));
    assert(out@ =~= spaced(say::LineView::Text("[steer] 消息已投递给运行中的 agent"@)));
    out
}

// ── Interrupts ──────────────────────────────────────────────────────────────

/// What an interrupt does.
#[derive(Clone, Copy, Debug, PartialEq, Eq, Structural)]
pub enum SigintAction {
    /// It cancels the turn that is running.
    Cancelled,
    /// Nothing is running: the program ends.
    Idle,
}

/// Knows which turn is running, and so where an interrupt goes.
#[derive(Debug)]
pub struct SigintRouter {
    /// The running turn, by its number.
    pub current: Option<u64>,
}

impl SigintRouter {
    pub fn new() -> (r: SigintRouter)
        ensures
            r.current is None,
    {
        SigintRouter { current: None }
    }

    pub fn begin_turn(&mut self, turn: u64)
        ensures
            final(self).current == Some(turn),
    {
        self.current = Some(turn);
    }

    pub fn end_turn(&mut self)
        ensures
            final(self).current is None,
    {
        self.current = None;
    }

    /// Takes an interrupt: which turn it cancels, if any, and what is said.
    pub fn interrupt(&self) -> (r: (SigintAction, Option<u64>, Output))
        ensures
            r.0 == (if self.current is Some {
                SigintAction::Cancelled
            } else {
                SigintAction::Idle
            }),
            r.1 == self.current,
            r.2@ == (if self.current is Some {
                spaced(say::LineView::Msg(say::entry("repl.interrupted"@)))
            } else {
                say::said(say::entry("repl.interrupt_exit"@))
            }),
    {
        match self.current {
            Some(t) => {
                let mut out = Output::new();
                out.print(String::new());
                out.say(msg("repl.interrupted"));
                assert(out@ =~= spaced(say::LineView::Msg(say::entry("repl.interrupted"@))));
                (SigintAction::Cancelled, Some(t), out)
            },
            None => (SigintAction::Idle, None, say::just(msg("repl.interrupt_exit"))),
        }
    }
}

/// Only the end of a turn decides whether it succeeded; what the agent says before that
/// and what is typed does not.
pub proof fn only_the_end_decides(t: TurnView, q: Seq<Seq<char>>, e: StreamEvent)
    requires
        !(e matches StreamEvent::Agent(ev) && ev is Done),
    ensures
        turn_step(t, q, e).0.success == t.success,
{
}

/// Nothing is typed once the input has ended.
pub proof fn ended_input_is_not_read(t: TurnView, q: Seq<Seq<char>>, line: String)
    ensures
        ({
            let after = turn_step(t, q, StreamEvent::InputEnded).0;
            turn_step(after, q, StreamEvent::Typed(line)) == (after, q, (nothing(), None::<Seq<char>>))
        }),
{
}

/// The message in the last of the lines that are shown on an event.
pub open spec fn told(r: RenderedView) -> Option<say::MsgView> {
    if r.err.len() == 0 {
        None
    } else {
        match r.err.last() {
            say::LineView::Msg(m) => Some(m),
            _ => None,
        }
    }
}

/// An event is shown with all that it carries: a tool with its name and what it gave, the
/// tokens that were used, the state, the error, and at the end the rounds, the calls and the
/// cost. What is shown beside the answer does not change how the answer is shown.
pub proof fn events_are_shown_whole(m: markdown::MarkdownState, e: AgentEvent)
    ensures
        ({
            let (after, r) = rendered(m, e);
            match e {
                AgentEvent::TextDelta(t) => r.err.len() == 0 && r.raw.len() == 0 && (after, r.out)
                    == markdown::fed(m, t@),
                AgentEvent::ThinkingDelta(t) => {
                    &&& after == m
                    &&& r.out.len() == 0
                    &&& text::holds_in_order(r.raw, seq![t@])
                },
                AgentEvent::ToolExec { name, output } => {
                    &&& after == m
                    &&& r.out.len() == 0
                    &&& told(r) is Some
                    &&& told(r)->0.args.len() == 2
                    &&& told(r)->0.args[0].1 == say::ValView::Text(name@)
                    &&& told(r)->0.args[1].1 == say::ValView::Text(output@)
                },
                AgentEvent::Usage { input, output_tokens } => {
                    &&& after == m
                    &&& told(r) is Some
                    &&& told(r)->0.args.len() == 2
                    &&& told(r)->0.args[0].1 == say::ValView::Text(numeral::dec(input as nat))
                    &&& told(r)->0.args[1].1 == say::ValView::Text(
                        numeral::dec(output_tokens as nat),
                    )
                },
                AgentEvent::StateChanged(s) => {
                    &&& after == m
                    &&& told(r) is Some
                    &&& told(r)->0.args.len() == 1
                    &&& told(r)->0.args[0].1 == say::ValView::Text(s@)
                },
                AgentEvent::Error(x) => {
                    &&& after == m
                    &&& told(r) is Some
                    &&& told(r)->0.args.len() == 1
                    &&& told(r)->0.args[0].1 == say::ValView::Text(x@)
                },
                AgentEvent::Done { success, turns, tools, cost } => {
                    &&& r.done == Some(success)
                    &&& told(r) is Some
                    &&& told(r)->0.args.len() == 4
                    &&& told(r)->0.args[0].1 == say::ValView::Text(numeral::dec(turns as nat))
                    &&& told(r)->0.args[1].1 == say::ValView::Text(numeral::dec(tools as nat))
                    &&& told(r)->0.args[3].1 == say::ValView::Text(cost@)
                },
                AgentEvent::Say { kind, said } => {
                    &&& after == m
                    &&& r.err.len() == 2
                    &&& match r.err[1] {
                        say::LineView::Parts(p) => {
                            &&& p.len() == 3
                            &&& match p[2] {
                                say::ValView::Text(t) => text::holds_in_order(t, seq![said@]),
                                _ => false,
                            }
                        },
                        _ => false,
                    }
                },
                AgentEvent::Other => after == m && r.out.len() == 0 && r.err.len() == 0
                    && r.raw.len() == 0 && r.done is None,
            }
        }),
{
    match e {
        AgentEvent::ThinkingDelta(t) => {
            text::a_text_holds_itself("\x1b[2m"@, t@, "\x1b[0m"@);
        },
        AgentEvent::Say { kind, said } => {
            text::a_text_holds_itself("] "@, said@, Seq::empty());
        },
        _ => {},
    }
}

/// A turn ends as its last event says it ended; what is typed meanwhile never changes that, and
/// what the agent does never changes what waits.
pub proof fn the_end_of_a_turn_is_kept(t: TurnView, q: Seq<Seq<char>>, e: AgentEvent, line: String)
    ensures
        e is Done ==> turn_step(t, q, StreamEvent::Agent(e)).0.success == e->success,
        !(e is Done) ==> turn_step(t, q, StreamEvent::Agent(e)).0.success == t.success,
        turn_step(t, q, StreamEvent::Agent(e)).1 == q,
        turn_step(t, q, StreamEvent::Agent(e)).2.1 is None,
        turn_step(t, q, StreamEvent::Typed(line)).0.success == t.success,
        turn_step(t, q, StreamEvent::InputEnded).1 == q,
{
}

} // verus!
