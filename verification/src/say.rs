//! What the commands print: lines of plain text and entries of the message catalogue.
//!
//! The wording of an entry depends on the language that the user reads, so the library
//! names the entry and the values to put into it, and leaves the wording to the program
//! around it.
use vstd::prelude::*;

use crate::text;
use crate::text::copy_text;

verus! {

/// A value to put into a message, or a part of a line.
#[derive(Debug)]
pub enum Val {
    /// The text itself.
    Text(String),
    /// The wording of a catalogue entry: its key, and its values under their names.
    Entry(String, Vec<(String, Val)>),
    /// Values one behind the other.
    Joined(Vec<Val>),
}

pub enum ValView {
    Text(Seq<char>),
    Entry(Seq<char>, Seq<(Seq<char>, ValView)>),
    Joined(Seq<ValView>),
}

impl Val {
    pub open spec fn view(&self) -> ValView
        decreases self,
    {
        match self {
            Val::Text(t) => ValView::Text(t@),
            Val::Entry(k, v) => ValView::Entry(
                k@,
                Seq::new(
                    v@.len(),
                    |i: int|
                        if 0 <= i < v@.len() {
                            (v@[i].0@, v@[i].1.view())
                        } else {
                            (Seq::empty(), ValView::Text(Seq::empty()))
                        },
                ),
            ),
            Val::Joined(v) => ValView::Joined(
                Seq::new(
                    v@.len(),
                    |i: int|
                        if 0 <= i < v@.len() {
                            v@[i].view()
                        } else {
                            ValView::Text(Seq::empty())
                        },
                ),
            ),
        }
    }
}

/// A catalogue entry with the values to put into it, each under its name.
#[derive(Debug)]
pub struct Msg {
    pub key: String,
    pub args: Vec<(String, Val)>,
}

#[verifier::ext_equal]
pub struct MsgView {
    pub key: Seq<char>,
    pub args: Seq<(Seq<char>, ValView)>,
}

impl MsgView {
    pub open spec fn with(self, name: Seq<char>, val: ValView) -> MsgView {
        MsgView { key: self.key, args: self.args.push((name, val)) }
    }

    pub open spec fn arg(self, name: Seq<char>, val: Seq<char>) -> MsgView {
        self.with(name, ValView::Text(val))
    }

    /// The message as a value of another one.
    pub open spec fn val(self) -> ValView {
        ValView::Entry(self.key, self.args)
    }
}

/// The entry without values.
pub open spec fn entry(key: Seq<char>) -> MsgView {
    MsgView { key, args: Seq::empty() }
}

pub open spec fn arg_views(v: Seq<(String, Val)>) -> Seq<(Seq<char>, ValView)> {
    Seq::new(v.len(), |i: int| (v[i].0@, v[i].1.view()))
}

impl View for Msg {
    type V = MsgView;

    open spec fn view(&self) -> MsgView {
        MsgView { key: self.key@, args: arg_views(self.args@) }
    }
}

/// Starts a message.
pub fn msg(key: &str) -> (m: Msg)
    ensures
        m@ == entry(key@),
{
    let m = Msg { key: copy_text(key), args: Vec::new() };
    assert(m@ =~= entry(key@));
    m
}

impl Msg {
    pub fn with(self, name: &str, val: Val) -> (m: Msg)
        ensures
            m@ == self@.with(name@, val.view()),
    {
        let mut m = self;
        let n = copy_text(name);
        m.args.push((n, val));
        assert(m@ =~= self@.with(name@, val.view()));
        m
    }

    /// Adds a value that is plain text.
    pub fn arg(self, name: &str, val: &str) -> (m: Msg)
        ensures
            m@ == self@.arg(name@, val@),
    {
        self.with(name, Val::Text(copy_text(val)))
    }

    /// The message as a value of another one.
    pub fn val(self) -> (v: Val)
        ensures
            v.view() == self@.val(),
    {
        let v = Val::Entry(self.key, self.args);
        assert(v.view()->Entry_1 =~= self@.args);
        v
    }
}

/// A printed line.
#[derive(Debug)]
pub enum Line {
    Text(String),
    Msg(Msg),
    /// Parts printed one behind the other.
    Parts(Vec<Val>),
}

pub enum LineView {
    Text(Seq<char>),
    Msg(MsgView),
    Parts(Seq<ValView>),
}

pub open spec fn val_views(v: Seq<Val>) -> Seq<ValView> {
    Seq::new(v.len(), |i: int| v[i].view())
}

impl View for Line {
    type V = LineView;

    open spec fn view(&self) -> LineView {
        match self {
            Line::Text(t) => LineView::Text(t@),
            Line::Msg(m) => LineView::Msg(m@),
            Line::Parts(p) => LineView::Parts(val_views(p@)),
        }
    }
}

/// The lines that a command prints.
#[derive(Debug)]
pub struct Output {
    pub lines: Vec<Line>,
}

pub open spec fn line_views(v: Seq<Line>) -> Seq<LineView> {
    Seq::new(v.len(), |i: int| v[i]@)
}

impl View for Output {
    type V = Seq<LineView>;

    open spec fn view(&self) -> Seq<LineView> {
        line_views(self.lines@)
    }
}

/// One printed message.
pub open spec fn said(m: MsgView) -> Seq<LineView> {
    seq![LineView::Msg(m)]
}

/// Nothing printed.
pub open spec fn silence() -> Seq<LineView> {
    Seq::empty()
}

impl Output {
    pub fn new() -> (o: Output)
        ensures
            o@ == silence(),
    {
        let o = Output { lines: Vec::new() };
        assert(o@ =~= silence());
        o
    }

    pub fn line(&mut self, l: Line)
        ensures
            final(self)@ == old(self)@.push(l@),
    {
        self.lines.push(l);
        assert(self@ =~= old(self)@.push(l@));
    }

    pub fn say(&mut self, m: Msg)
        ensures
            final(self)@ == old(self)@.push(LineView::Msg(m@)),
    {
        self.line(Line::Msg(m));
    }

    pub fn print(&mut self, t: String)
        ensures
            final(self)@ == old(self)@.push(LineView::Text(t@)),
    {
        self.line(Line::Text(t));
    }

    pub fn append(&mut self, other: Output)
        ensures
            final(self)@ == old(self)@ + other@,
    {
        let mut more = other.lines;
        let ghost a = self.lines@;
        let ghost b = more@;
        self.lines.append(&mut more);
        assert(line_views(self.lines@) =~= line_views(a) + line_views(b));
    }

    pub fn parts(&mut self, p: Vec<Val>)
        ensures
            final(self)@ == old(self)@.push(LineView::Parts(val_views(p@))),
    {
        self.line(Line::Parts(p));
    }
}

/// Prints one message and nothing else.
pub fn just(m: Msg) -> (o: Output)
    ensures
        o@ == said(m@),
{
    let mut o = Output::new();
    o.say(m);
    assert(o@ =~= said(m@));
    o
}

} // verus!
