//! What is kept of a turn as a memory.
use vstd::prelude::*;

use crate::data::Data;
use crate::json;
use crate::json::write_json;
use crate::pieces;
use crate::pieces::join_of;
use crate::session;
use crate::text;
use crate::text::{cat, chars_of, sub_text, text_of, to_lower_char, trimmed};

verus! {

/// The first place of `p` in `s` from `i` on, upper and lower case being the same.
pub open spec fn find_any_case(s: Seq<char>, p: Seq<char>, i: int) -> Option<int> {
    text::find_from(text::lower(s), p, i)
}

/// A block that is taken out: its opening and its closing tag.
pub open spec fn tags(mental: bool) -> (Seq<char>, Seq<char>) {
    if mental {
        ("<mental_models>"@, "</mental_models>"@)
    } else {
        ("<memories>"@, "</memories>"@)
    }
}

/// The next opening tag from `i` on: where it stands and which it is.
pub open spec fn next_open(s: Seq<char>, i: int) -> Option<(int, bool)> {
    match (find_any_case(s, tags(false).0, i), find_any_case(s, tags(true).0, i)) {
        (Some(a), Some(b)) => if b < a {
            Some((b, true))
        } else {
            Some((a, false))
        },
        (Some(a), None) => Some((a, false)),
        (None, Some(b)) => Some((b, true)),
        (None, None) => None,
    }
}

/// Where the text goes on behind an opening tag at `k`: behind the closing tag, or, where
/// there is none, behind the opening tag itself.
pub open spec fn behind_block(s: Seq<char>, k: int, mental: bool) -> int {
    let from = k + tags(mental).0.len();
    match find_any_case(s, tags(mental).1, from) {
        Some(c) => c + tags(mental).1.len(),
        None => from,
    }
}

/// The text from `i` on without its blocks of memories.
pub open spec fn stripped(s: Seq<char>, i: int) -> Seq<char>
    decreases s.len() - i,
    via stripped_decreases
{
    if i < 0 || i >= s.len() {
        Seq::empty()
    } else {
        match next_open(s, i) {
            None => s.skip(i),
            Some((k, mental)) => s.subrange(i, k) + stripped(s, behind_block(s, k, mental)),
        }
    }
}

proof fn lemma_find_bounds(s: Seq<char>, p: Seq<char>, i: int)
    requires
        0 <= i,
    ensures
        text::find_from(s, p, i) matches Some(k) ==> i <= k && k + p.len() <= s.len()
            && text::matches_at(s, p, k),
    decreases s.len() + 1 - i,
{
    if i + p.len() <= s.len() && s.subrange(i, i + p.len()) != p {
        lemma_find_bounds(s, p, i + 1);
    }
}

proof fn lemma_tags()
    ensures
        tags(false).0.len() == 10,
        tags(true).0.len() == 15,
        tags(false).1.len() == 11,
        tags(true).1.len() == 16,
{
    reveal_strlit("<memories>");
    reveal_strlit("</memories>");
    reveal_strlit("<mental_models>");
    reveal_strlit("</mental_models>");
}

proof fn lemma_open_bounds(s: Seq<char>, i: int)
    requires
        0 <= i <= s.len(),
    ensures
        next_open(s, i) matches Some((k, mental)) ==> {
            &&& i <= k
            &&& k + tags(mental).0.len() <= s.len()
            &&& k < behind_block(s, k, mental) <= s.len()
        },
{
    lemma_tags();
    let l = text::lower(s);
    lemma_find_bounds(l, tags(false).0, i);
    lemma_find_bounds(l, tags(true).0, i);
    match next_open(s, i) {
        Some((k, mental)) => lemma_find_bounds(l, tags(mental).1, k + tags(mental).0.len()),
        None => {},
    }
}

#[via_fn]
proof fn stripped_decreases(s: Seq<char>, i: int) {
    if 0 <= i < s.len() {
        lemma_open_bounds(s, i);
    }
}

/// A text without tags stays as it is.
pub proof fn plain_text_is_kept(s: Seq<char>)
    requires
        next_open(s, 0) is None,
    ensures
        stripped(s, 0) == s,
{
    assert(s.skip(0) =~= s);
    if s.len() == 0 {
        assert(stripped(s, 0) =~= s);
    }
}

/// Takes the blocks of memories and mental models out of a text, so that what was
/// remembered is not remembered once more.
pub fn strip_memory_blocks(text: &str) -> (r: String)
    ensures
        r@ == stripped(text@, 0),
{
    let v = chars_of(text);
    let mut low: Vec<char> = Vec::new();
    let mut n: usize = 0;
    while n < v.len()
        invariant
            n <= v.len(),
            v@ == text@,
            low@ == text::lower(text@).take(n as int),
        decreases v.len() - n,
    {
        low.push(to_lower_char(v[n]));
        n = n + 1;
        assert(low@ =~= text::lower(text@).take(n as int));
    }
    assert(low@ =~= text::lower(text@));
    let open_memories = chars_of("<memories>");
    let open_mental = chars_of("<mental_models>");
    let close_memories = chars_of("</memories>");
    let close_mental = chars_of("</mental_models>");
    let mut out = String::new();
    let mut pos: usize = 0;
    let mut done: bool = false;
    while pos < v.len() && !done
        invariant
            pos <= v.len(),
            v@ == text@,
            low@ == text::lower(text@),
            open_memories@ == tags(false).0,
            open_mental@ == tags(true).0,
            close_memories@ == tags(false).1,
            close_mental@ == tags(true).1,
            !done ==> stripped(text@, 0) == out@ + stripped(text@, pos as int),
            done ==> stripped(text@, 0) == out@,
        decreases v.len() - pos, (if done { 0int } else { 1int }),
    {
        let ghost before = out@;
        proof {
            lemma_open_bounds(text@, pos as int);
            lemma_tags();
        }
        let a = text::find_at(&low, &open_memories, pos);
        let b = text::find_at(&low, &open_mental, pos);
        let (k, mental): (usize, bool) = match (a, b) {
            (Some(x), Some(y)) => if y < x {
                (y, true)
            } else {
                (x, false)
            },
            (Some(x), None) => (x, false),
            (None, Some(y)) => (y, true),
            (None, None) => (v.len(), false),
        };
        if a.is_none() && b.is_none() {
            let tail = sub_text(&v, pos, v.len());
            assert(tail@ =~= text@.skip(pos as int));
            out.append(&tail);
            done = true;
        } else {
            let head = sub_text(&v, pos, k);
            out.append(&head);
            let from: usize = k + if mental {
                open_mental.len()
            } else {
                open_memories.len()
            };
            let close = if mental {
                &close_mental
            } else {
                &close_memories
            };
            let next: usize = match text::find_at(&low, close, from) {
                Some(c) => c + close.len(),
                None => from,
            };
            assert(next == behind_block(text@, k as int, mental));
            assert(out@ + stripped(text@, next as int) =~= before + stripped(text@, pos as int));
            pos = next;
        }
    }
    if !done {
        assert(stripped(text@, pos as int) =~= Seq::<char>::empty());
        assert(out@ =~= stripped(text@, 0));
    }
    out
}

// ── Keeping a turn ──────────────────────────────────────────────────────────

/// A call of a tool: its name and its arguments.
#[derive(Debug)]
pub struct ToolUse {
    pub name: String,
    pub args: Data,
}

pub open spec fn head(s: Seq<char>, n: int) -> Seq<char> {
    if s.len() <= n {
        s
    } else {
        s.take(n)
    }
}

pub open spec fn tool_line(t: ToolUse) -> Seq<char> {
    "- tool "@ + t.name@ + "("@ + head(json::json_text(json::put_in(t.args@)), 120) + ")"@
}

pub open spec fn tool_lines(t: Seq<ToolUse>, n: int) -> Seq<Seq<char>>
    decreases n,
{
    if n <= 0 {
        Seq::empty()
    } else {
        tool_lines(t, n - 1).push(tool_line(t[n - 1]))
    }
}

/// What there is to remember of an answer: its text without memories, and the calls.
pub open spec fn note_parts(answer: Seq<char>, tools: Seq<ToolUse>) -> Seq<Seq<char>> {
    let t = text::trim(stripped(answer, 0));
    (if t.len() == 0 {
        Seq::empty()
    } else {
        seq![t]
    }) + tool_lines(tools, tools.len() as int)
}

/// The note on an answer, at most 4000 characters; none where there is nothing to note.
pub open spec fn note(answer: Seq<char>, tools: Seq<ToolUse>) -> Option<Seq<char>> {
    let p = note_parts(answer, tools);
    if p.len() == 0 {
        None
    } else {
        Some(head(pieces::join(p, "\n"@), 4000))
    }
}

fn head_of(s: &str, n: usize) -> (r: String)
    ensures
        r@ == head(s@, n as int),
{
    let v = chars_of(s);
    if v.len() <= n {
        text_of(&v)
    } else {
        let r = sub_text(&v, 0, n);
        assert(r@ =~= s@.take(n as int));
        r
    }
}

fn note_of(answer: &str, tools: &Vec<ToolUse>) -> (r: Option<String>)
    ensures
        session::opt_text(r) == note(answer@, tools@),
{
    let mut parts: Vec<String> = Vec::new();
    assert(text::texts(parts@) =~= Seq::<Seq<char>>::empty());
    let t = trimmed(&strip_memory_blocks(answer));
    if !t.as_str().is_empty() {
        proof {
            text::lemma_texts_push(parts@, t);
        }
        parts.push(t);
    }
    let ghost first = text::texts(parts@);
    let mut i: usize = 0;
    assert(first =~= first + tool_lines(tools@, 0));
    while i < tools.len()
        invariant
            i <= tools.len(),
            text::texts(parts@) == first + tool_lines(tools@, i as int),
        decreases tools.len() - i,
    {
        let l = cat(&cat("- tool ", &tools[i].name), "(");
        let l = cat(&cat(&l, &head_of(&write_json(&tools[i].args), 120)), ")");
        assert(l@ =~= tool_line(tools@[i as int]));
        proof {
            text::lemma_texts_push(parts@, l);
        }
        parts.push(l);
        i = i + 1;
        assert(text::texts(parts@) =~= first + tool_lines(tools@, i as int));
    }
    assert(text::texts(parts@) =~= note_parts(answer@, tools@));
    assert(parts.len() == text::texts(parts@).len());
    if parts.len() == 0 {
        None
    } else {
        Some(head_of(&join_of(&parts, "\n"), 4000))
    }
}

/// Keeps a note of every so-many-th answer that ends a turn.
#[derive(Clone, Copy, Debug)]
pub struct AutoRetain {
    pub every_n_turns: usize,
    /// How many answers have ended a turn so far.
    pub final_rounds: usize,
}

impl AutoRetain {
    /// Takes an answer: the note to keep, if one is due. An answer after which the turn goes
    /// on does not count.
    pub fn on_turn_end(&mut self, will_continue: bool, answer: &str, tools: &Vec<ToolUse>) -> (r:
        Option<String>)
        requires
            old(self).every_n_turns > 0,
            old(self).final_rounds < usize::MAX,
        ensures
            final(self).every_n_turns == old(self).every_n_turns,
            final(self).final_rounds == (if will_continue {
                old(self).final_rounds as int
            } else {
                old(self).final_rounds + 1
            }),
            session::opt_text(r) == (if will_continue || (old(self).final_rounds + 1) % (old(self).every_n_turns as int) != 0 {
                None
            } else {
                note(answer@, tools@)
            }),
    {
        if will_continue {
            return None;
        }
        self.final_rounds = self.final_rounds + 1;
        if self.final_rounds % self.every_n_turns != 0 {
            return None;
        }
        note_of(answer, tools)
    }
}

/// A note is never longer than 4000 characters.
pub proof fn notes_are_short(answer: Seq<char>, tools: Seq<ToolUse>)
    ensures
        note(answer, tools) matches Some(n) ==> n.len() <= 4000,
{
}

proof fn found_further_on(x: Seq<char>, b: Seq<char>, p: Seq<char>, i: int)
    requires
        0 <= i,
        p.len() > 0,
    ensures
        text::find_from(x + b, p, x.len() + i) == (match text::find_from(b, p, i) {
            Some(k) => Some(x.len() + k),
            None => None,
        }),
        text::find_from(b, p, i) matches Some(k) ==> i <= k && k + p.len() <= b.len(),
    decreases b.len() + 1 - i,
{
    if i + p.len() <= b.len() {
        assert((x + b).subrange(x.len() + i, x.len() + i + p.len()) =~= b.subrange(i, i + p.len()));
        if b.subrange(i, i + p.len()) != p {
            found_further_on(x, b, p, i + 1);
        }
    }
}

proof fn lower_of_parts(x: Seq<char>, b: Seq<char>)
    ensures
        text::lower(x + b) == text::lower(x) + text::lower(b),
{
    assert(text::lower(x + b) =~= text::lower(x) + text::lower(b));
}

proof fn tags_are_long(m: bool)
    ensures
        tags(m).0.len() > 0,
        tags(m).1.len() > 0,
        tags(m).0[0] == '<',
        tags(m).1[0] == '<',
        tags(m).0[1] != '/',
        tags(m).1[1] == '/',
        tags(m).0 == text::lower(tags(m).0),
        tags(m).1 == text::lower(tags(m).1),
        tags(false).0 == "<memories>"@,
        tags(false).1 == "</memories>"@,
        tags(true).0 == "<mental_models>"@,
        tags(true).1 == "</mental_models>"@,
        tags(false).0.len() == 10,
        tags(true).0.len() == 15,
        tags(m).0.len() > 2,
        tags(m).1.len() > 2,
        tags(true).0[3] == 'n',
        tags(false).0[3] == 'm',
{
    reveal_strlit("<mental_models>");
    reveal_strlit("</mental_models>");
    reveal_strlit("<memories>");
    reveal_strlit("</memories>");
    assert(tags(m).0 =~= text::lower(tags(m).0));
    assert(tags(m).1 =~= text::lower(tags(m).1));
}

proof fn stripped_further_on(x: Seq<char>, b: Seq<char>, i: int)
    requires
        0 <= i,
    ensures
        stripped(x + b, x.len() + i) == stripped(b, i),
    decreases b.len() - i,
{
    if i < b.len() {
        lower_of_parts(x, b);
        tags_are_long(false);
        tags_are_long(true);
        let lx = text::lower(x);
        let lb = text::lower(b);
        found_further_on(lx, lb, tags(false).0, i);
        found_further_on(lx, lb, tags(true).0, i);
        match next_open(b, i) {
            None => {
                assert((x + b).skip(x.len() + i) =~= b.skip(i));
            },
            Some((k, m)) => {
                let from = k + tags(m).0.len();
                found_further_on(lx, lb, tags(m).1, from);
                assert(behind_block(x + b, x.len() + k, m) == x.len() + behind_block(b, k, m));
                assert((x + b).subrange(x.len() + i, x.len() + k) =~= b.subrange(i, k));
                stripped_further_on(x, b, behind_block(b, k, m));
            },
        }
    }
}

proof fn no_place_without_bracket(a: Seq<char>, rest: Seq<char>, p: Seq<char>, i: int)
    requires
        p.len() > 0,
        p[0] == '<',
        !text::has_char(a, '<'),
        0 <= i <= a.len(),
    ensures
        text::find_from(text::lower(a + rest), p, i) == text::find_from(
            text::lower(a + rest),
            p,
            a.len() as int,
        ),
    decreases a.len() - i,
{
    let s = text::lower(a + rest);
    if i < a.len() {
        if i + p.len() <= s.len() {
            assert(s.subrange(i, i + p.len())[0] == s[i]);
            assert(a[i] != '<');
            no_bracket_from_lower(a[i]);
            assert(s[i] == text::lower_char(a[i]));
        } else {
            assert(a.len() + p.len() > s.len());
        }
        no_place_without_bracket(a, rest, p, i + 1);
    }
}

proof fn no_bracket_from_lower(c: char)
    requires
        c != '<',
    ensures
        text::lower_char(c) != '<',
{
}

/// A block of memories is taken out whole, with its tags, in whatever case these are written;
/// what stands before it stays, and what stands behind it is gone through in the same way.
pub proof fn blocks_are_taken_out(
    a: Seq<char>,
    open: Seq<char>,
    inner: Seq<char>,
    close: Seq<char>,
    b: Seq<char>,
)
    requires
        !text::has_char(a, '<'),
        !text::has_char(inner, '<'),
        (text::lower(open) == "<memories>"@ && text::lower(close) == "</memories>"@) || (text::lower(
            open,
        ) == "<mental_models>"@ && text::lower(close) == "</mental_models>"@),
    ensures
        stripped(a + open + inner + close + b, 0) == a + stripped(b, 0),
{
    tags_are_long(false);
    tags_are_long(true);
    let m = text::lower(open) == "<mental_models>"@;
    assert(text::lower(open) == tags(m).0);
    if m {
        assert("<mental_models>"@.len() != "<memories>"@.len());
    }
    assert(text::lower(close) == tags(m).1);
    let s = a + open + inner + close + b;
    let n = a.len() as int;
    let rest = open + inner + close + b;
    assert(s =~= a + rest);
    no_place_without_bracket(a, rest, tags(m).0, 0);
    no_place_without_bracket(a, rest, tags(!m).0, 0);
    let l = text::lower(s);
    assert(l.subrange(n, n + tags(m).0.len()) =~= tags(m).0) by {
        assert forall|k: int| 0 <= k < tags(m).0.len() implies l[n + k] == tags(m).0[k] by {
            assert(text::lower(open)[k] == text::lower_char(open[k]));
            assert(s[n + k] == open[k]);
        }
    }
    assert(text::find_from(l, tags(m).0, n) == Some(n));
    // The other tag does not stand there too: its fourth letter differs.
    assert(l[n + 3] == tags(m).0[3]);
    if n + tags(!m).0.len() <= l.len() {
        assert(l.subrange(n, n + tags(!m).0.len())[3] == l[n + 3]);
    }
    let before = a + open;
    found_no_earlier(l, tags(!m).0, n);
    assert(next_open(s, 0) == Some((n, m)));
    let from = n + open.len();
    let tail = close + b;
    // No closing tag stands in what is inside.
    assert(s =~= before + (inner + tail));
    lower_of_parts(before, inner + tail);
    no_place_without_bracket(inner, tail, tags(m).1, 0);
    found_further_on(text::lower(before), text::lower(inner + tail), tags(m).1, 0);
    let li = text::lower(inner + tail);
    let k = inner.len() as int;
    assert(li.subrange(k, k + tags(m).1.len()) =~= tags(m).1) by {
        assert forall|j: int| 0 <= j < tags(m).1.len() implies li[k + j] == tags(m).1[j] by {
            assert(text::lower(close)[j] == text::lower_char(close[j]));
            assert((inner + tail)[k + j] == close[j]);
        }
    }
    assert(text::find_from(li, tags(m).1, k) == Some(k));
    assert(open.len() == tags(m).0.len());
    assert(close.len() == tags(m).1.len());
    let x = a + open + inner + close;
    assert(behind_block(s, n, m) == x.len());
    assert(s =~= x + b);
    stripped_further_on(x, b, 0);
    assert(s.subrange(0, n) =~= a);
}

proof fn found_no_earlier(s: Seq<char>, p: Seq<char>, i: int)
    requires
        0 <= i,
        i + p.len() <= s.len() ==> s.subrange(i, i + p.len()) != p,
    ensures
        text::find_from(s, p, i) matches Some(k) ==> k > i,
    decreases s.len() + 1 - i,
{
    if i + p.len() <= s.len() {
        found_at_or_behind(s, p, i + 1);
    }
}

proof fn found_at_or_behind(s: Seq<char>, p: Seq<char>, i: int)
    requires
        0 <= i,
    ensures
        text::find_from(s, p, i) matches Some(k) ==> k >= i,
    decreases s.len() + 1 - i,
{
    if i + p.len() <= s.len() && s.subrange(i, i + p.len()) != p {
        found_at_or_behind(s, p, i + 1);
    }
}

/// A text without an angle bracket stays as it is.
pub proof fn text_without_brackets_is_kept(s: Seq<char>)
    requires
        !text::has_char(s, '<'),
    ensures
        stripped(s, 0) == s,
{
    tags_are_long(false);
    tags_are_long(true);
    let e = Seq::<char>::empty();
    assert(s + e =~= s);
    no_place_without_bracket(s, e, tags(false).0, 0);
    no_place_without_bracket(s, e, tags(true).0, 0);
    plain_text_is_kept(s);
}

proof fn tool_lines_hold_each(t: Seq<ToolUse>, n: int)
    requires
        0 <= n <= t.len(),
    ensures
        tool_lines(t, n).len() == n,
        forall|i: int| 0 <= i < n ==> #[trigger] tool_lines(t, n)[i] == tool_line(t[i]),
    decreases n,
{
    if n > 0 {
        tool_lines_hold_each(t, n - 1);
    }
}

/// A note that is not cut holds what was answered, and the name of every tool that was called.
pub proof fn notes_hold_answer_and_calls(answer: Seq<char>, tools: Seq<ToolUse>, i: int) -> (r: (
    Seq<char>,
    Seq<char>,
))
    requires
        !text::has_char(answer, '<'),
        answer.len() > 0,
        text::is_trimmed(answer),
        0 <= i < tools.len(),
        note(answer, tools) matches Some(n) ==> n.len() < 4000,
    ensures
        ({
            let n = note(answer, tools);
            &&& n is Some
            &&& n->0.len() > answer.len()
            &&& n->0.take(answer.len() as int) == answer
            &&& n->0 == r.0 + "- tool "@ + tools[i].name@ + seq!['('] + r.1
        }),
{
    text_without_brackets_is_kept(answer);
    text::white_space_around_goes(Seq::empty(), answer, Seq::empty());
    let lines = tool_lines(tools, tools.len() as int);
    tool_lines_hold_each(tools, tools.len() as int);
    let p = note_parts(answer, tools);
    assert(p =~= seq![answer] + lines);
    let j = pieces::join(p, "\n"@);
    pieces::joining_sets_separators_between(answer, lines, "\n"@);
    reveal_strlit("\n");
    assert(j.take(answer.len() as int) =~= answer);
    let (a, b) = pieces::joined_holds_each(p, "\n"@, i + 1);
    assert(p[i + 1] == tool_line(tools[i]));
    let args = head(json::json_text(json::put_in(tools[i].args@)), 120);
    reveal_strlit("(");
    assert("("@ =~= seq!['(']);
    let n = note(answer, tools)->0;
    assert(n == j);
    assert(j =~= a + "- tool "@ + tools[i].name@ + seq!['('] + (args + ")"@ + b));
    (a, args + ")"@ + b)
}

} // verus!
