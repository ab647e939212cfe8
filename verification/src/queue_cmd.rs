//! The `/queue` command, and what is typed while a turn is running.
use vstd::prelude::*;

use crate::numeral;
use crate::numeral::{dec_usize, unsigned_of};
use crate::outline;
use crate::outline::split_queued_messages;
use crate::pieces;
use crate::pieces::{replace_char_of, sub_and_rest_of, words_of};
use crate::queue;
use crate::queue::{parse_queue_shorthand, MessageQueue};
use crate::say;
use crate::say::{just, msg, Output};
use crate::text;
use crate::text::{behind, cat, same, trimmed, trimmed_start};

verus! {

/// A message shown on one line.
pub open spec fn one_line(s: Seq<char>) -> Seq<char> {
    pieces::replace_char(s, '\n', " ⏎ "@)
}

pub fn on_one_line(s: &str) -> (r: String)
    ensures
        r@ == one_line(s@),
{
    replace_char_of(s, '\n', " ⏎ ")
}

/// A queued message with its number.
pub open spec fn listed(i: nat, m: Seq<char>) -> Seq<char> {
    "  "@ + numeral::dec(i) + ". "@ + one_line(m)
}

/// The first `n` messages as they are listed.
pub open spec fn listing(q: Seq<Seq<char>>, n: int) -> Seq<say::LineView>
    decreases n,
{
    if n <= 0 {
        Seq::empty()
    } else {
        listing(q, n - 1).push(say::LineView::Text(listed(n as nat, q[n - 1])))
    }
}

/// What the listing of a queue prints.
pub open spec fn queue_listing(q: Seq<Seq<char>>) -> Seq<say::LineView> {
    if q.len() == 0 {
        say::said(say::entry("queue.empty"@))
    } else {
        say::said(say::entry("queue.title"@).arg("count"@, numeral::dec(q.len()))) + listing(
            q,
            q.len() as int,
        )
    }
}

/// Prints the queue.
pub fn list_queue(q: &MessageQueue) -> (out: Output)
    ensures
        out@ == queue_listing(q@),
{
    let items = q.list();
    if items.len() == 0 {
        return just(msg("queue.empty"));
    }
    let mut out = just(msg("queue.title").arg("count", &dec_usize(items.len())));
    let ghost head = out@;
    let mut i: usize = 0;
    assert(out@ =~= head + listing(q@, 0));
    while i < items.len()
        invariant
            i <= items.len(),
            items.len() == q@.len(),
            forall|k: int|
                0 <= k < items.len() ==> (#[trigger] items@[k]).0 == k + 1 && items@[k].1@ == q@[k],
            out@ == head + listing(q@, i as int),
        decreases items.len() - i,
    {
        let (idx, m) = items[i];
        assert(items@[i as int].0 == i + 1);
        let n = cat("  ", &dec_usize(idx));
        let n = cat(&n, ". ");
        let l = cat(&n, &on_one_line(m));
        out.print(l);
        i = i + 1;
        assert(out@ =~= head + listing(q@, i as int));
    }
    out
}

/// What a `/queue` command does: the text to run at once, if any, and what it prints.
#[derive(Debug)]
pub struct QueueReply {
    pub inject: Option<String>,
    pub out: Output,
}

/// The effect of a `/queue` command on the queue, as the queue afterwards, the text to
/// run at once, and the printed lines.
pub struct QueueEffect {
    pub queue: Seq<Seq<char>>,
    pub inject: Option<Seq<char>>,
    pub out: Seq<say::LineView>,
}

pub open spec fn only_says(q: Seq<Seq<char>>, m: say::MsgView) -> QueueEffect {
    QueueEffect { queue: q, inject: None, out: say::said(m) }
}

pub open spec fn queue_add(q: Seq<Seq<char>>, rest: Seq<char>) -> QueueEffect {
    let ms = outline::queued_messages(rest);
    let after = queue::enqueued_all(q, ms);
    QueueEffect {
        queue: after,
        inject: None,
        out: say::said(
            say::entry("queue.added"@).arg("n"@, numeral::dec(ms.len())).arg(
                "len"@,
                numeral::dec(after.len()),
            ),
        ),
    }
}

pub open spec fn queue_pop(q: Seq<Seq<char>>) -> QueueEffect {
    if q.len() == 0 {
        only_says(q, say::entry("queue.empty"@))
    } else {
        QueueEffect {
            queue: q.drop_first(),
            inject: Some(q[0]),
            out: say::said(say::entry("queue.popped"@).arg("text"@, one_line(q[0]))),
        }
    }
}

pub open spec fn queue_undo(q: Seq<Seq<char>>) -> QueueEffect {
    if q.len() == 0 {
        only_says(q, say::entry("queue.empty"@))
    } else {
        QueueEffect {
            queue: q.drop_last(),
            inject: None,
            out: say::said(say::entry("queue.undone"@).arg("text"@, one_line(q.last()))),
        }
    }
}

pub open spec fn queue_remove(q: Seq<Seq<char>>, rest: Seq<char>) -> QueueEffect {
    match numeral::unsigned(rest, usize::MAX as nat) {
        None => only_says(q, say::entry("queue.usage"@)),
        Some(n) => if 1 <= n <= q.len() {
            QueueEffect {
                queue: q.remove(n - 1),
                inject: None,
                out: say::said(
                    say::entry("queue.removed"@).arg("n"@, numeral::dec(n)).arg(
                        "text"@,
                        one_line(q[n - 1]),
                    ),
                ),
            }
        } else {
            only_says(
                q,
                say::entry("queue.bad_index"@).arg("n"@, numeral::dec(n)).arg(
                    "len"@,
                    numeral::dec(q.len()),
                ),
            )
        },
    }
}

pub open spec fn queue_clear(q: Seq<Seq<char>>) -> QueueEffect {
    QueueEffect {
        queue: Seq::empty(),
        inject: None,
        out: say::said(say::entry("queue.cleared"@).arg("n"@, numeral::dec(q.len()))),
    }
}

/// What `/queue` does with its sub-command and the rest of the line.
pub open spec fn queue_command(q: Seq<Seq<char>>, sub: Seq<char>, rest: Seq<char>) -> QueueEffect {
    if sub == ""@ || sub == "list"@ {
        QueueEffect { queue: q, inject: None, out: queue_listing(q) }
    } else if sub == "add"@ || sub == "enqueue"@ {
        if rest.len() == 0 {
            only_says(q, say::entry("queue.usage"@))
        } else {
            queue_add(q, rest)
        }
    } else if sub == "pop"@ || sub == "next"@ {
        queue_pop(q)
    } else if sub == "undo"@ || sub == "back"@ {
        queue_undo(q)
    } else if sub == "rm"@ || sub == "drop"@ {
        queue_remove(q, rest)
    } else if sub == "clear"@ {
        queue_clear(q)
    } else {
        only_says(q, say::entry("queue.usage"@))
    }
}

impl QueueReply {
    pub open spec fn shows(self, q: Seq<Seq<char>>, e: QueueEffect) -> bool {
        &&& q == e.queue
        &&& self.out@ == e.out
        &&& match self.inject {
            Some(t) => e.inject == Some(t@),
            None => e.inject is None,
        }
    }
}

fn says(m: say::Msg) -> (r: QueueReply)
    ensures
        r.inject is None,
        r.out@ == say::said(m@),
{
    QueueReply { inject: None, out: just(m) }
}

fn add_messages(rest: &str, q: &mut MessageQueue) -> (r: QueueReply)
    ensures
        r.shows(final(q)@, queue_add(old(q)@, rest@)),
{
    let ms = split_queued_messages(rest);
    let ghost mv = text::texts(ms@);
    let n: usize = ms.len();
    assert(n == mv.len());
    let len: usize = q.enqueue_many(ms);
    says(msg("queue.added").arg("n", &dec_usize(n)).arg("len", &dec_usize(len)))
}

fn pop_message(q: &mut MessageQueue) -> (r: QueueReply)
    ensures
        r.shows(final(q)@, queue_pop(old(q)@)),
{
    match q.pop_front() {
        Some(t) => {
            let out = just(msg("queue.popped").arg("text", &on_one_line(&t)));
            QueueReply { inject: Some(t), out }
        },
        None => says(msg("queue.empty")),
    }
}

fn undo_message(q: &mut MessageQueue) -> (r: QueueReply)
    ensures
        r.shows(final(q)@, queue_undo(old(q)@)),
{
    match q.pop_back() {
        Some(t) => says(msg("queue.undone").arg("text", &on_one_line(&t))),
        None => says(msg("queue.empty")),
    }
}

fn remove_message(rest: &str, q: &mut MessageQueue) -> (r: QueueReply)
    ensures
        r.shows(final(q)@, queue_remove(old(q)@, rest@)),
{
    match unsigned_of(rest, usize::MAX as u64) {
        Some(k) => {
            let n: usize = k as usize;
            match q.remove(n) {
                Some(t) => says(
                    msg("queue.removed").arg("n", &dec_usize(n)).arg("text", &on_one_line(&t)),
                ),
                None => says(
                    msg("queue.bad_index").arg("n", &dec_usize(n)).arg("len", &dec_usize(q.len())),
                ),
            }
        },
        None => says(msg("queue.usage")),
    }
}

fn clear_messages(q: &mut MessageQueue) -> (r: QueueReply)
    ensures
        r.shows(final(q)@, queue_clear(old(q)@)),
{
    let n: usize = q.clear();
    says(msg("queue.cleared").arg("n", &dec_usize(n)))
}

/// `/queue`: lists, adds, runs, takes back, removes or clears waiting messages.
pub fn handle_queue(input: &str, q: &mut MessageQueue) -> (r: QueueReply)
    ensures
        r.shows(
            final(q)@,
            queue_command(
                old(q)@,
                pieces::sub_and_rest(input@).0,
                pieces::sub_and_rest(input@).1,
            ),
        ),
{
    let (sub, rest) = sub_and_rest_of(input);
    if same(&sub, "") || same(&sub, "list") {
        QueueReply { inject: None, out: list_queue(q) }
    } else if same(&sub, "add") || same(&sub, "enqueue") {
        if rest.as_str().is_empty() {
            says(msg("queue.usage"))
        } else {
            add_messages(&rest, q)
        }
    } else if same(&sub, "pop") || same(&sub, "next") {
        pop_message(q)
    } else if same(&sub, "undo") || same(&sub, "back") {
        undo_message(q)
    } else if same(&sub, "rm") || same(&sub, "drop") {
        remove_message(&rest, q)
    } else if same(&sub, "clear") {
        clear_messages(q)
    } else {
        says(msg("queue.usage"))
    }
}

// ── Typed while a turn is running ───────────────────────────────────────────

/// What becomes of a line typed while a turn is running.
#[derive(Debug, PartialEq, Eq)]
pub enum RunningInput<S = String> {
    /// Nothing is left to do.
    Ignored,
    /// Queued; so many messages wait now.
    Queued(usize),
    /// To be delivered to the running agent at once.
    Steer(S),
}

impl RunningInput {
    pub open spec fn view(&self) -> RunningInput<Seq<char>> {
        match self {
            RunningInput::Ignored => RunningInput::Ignored,
            RunningInput::Queued(n) => RunningInput::Queued(*n),
            RunningInput::Steer(t) => RunningInput::Steer(t@),
        }
    }
}

/// The text behind the word `add` or `enqueue` at the front.
pub open spec fn added_text(rest: Seq<char>) -> Seq<char> {
    let t = text::trim_start(rest);
    if text::starts_with(t, "add"@) {
        text::trim(text::after(t, "add"@)->0)
    } else if text::starts_with(t, "enqueue"@) {
        text::trim(text::after(t, "enqueue"@)->0)
    } else {
        text::trim(Seq::empty())
    }
}

/// What `/queue` does while a turn is running.
pub open spec fn running_queue_command(q: Seq<Seq<char>>, rest: Seq<char>) -> QueueEffect {
    let args = pieces::words(rest);
    if args.len() == 0 || args[0] == "list"@ {
        QueueEffect { queue: q, inject: None, out: queue_listing(q) }
    } else if args[0] == "add"@ || args[0] == "enqueue"@ {
        if added_text(rest).len() == 0 {
            only_says(q, say::entry("queue.usage"@))
        } else {
            queue_add(q, added_text(rest))
        }
    } else if args[0] == "pop"@ || args[0] == "next"@ {
        queue_pop(q)
    } else if args[0] == "undo"@ || args[0] == "back"@ {
        queue_undo(q)
    } else if args[0] == "clear"@ {
        queue_clear(q)
    } else {
        only_says(q, say::entry("queue.usage"@))
    }
}

/// What a line typed during a turn does: the queue afterwards, what becomes of the line,
/// and what is printed.
pub open spec fn running_input(q: Seq<Seq<char>>, line: Seq<char>) -> (
    Seq<Seq<char>>,
    RunningInput<Seq<char>>,
    Seq<say::LineView>,
) {
    let t = text::trim(line);
    if t.len() == 0 {
        (q, RunningInput::Ignored, say::silence())
    } else if queue::shorthand(t) is Some {
        let after = queue::enqueued(q, queue::shorthand(t)->0);
        (after, RunningInput::Queued(after.len() as usize), say::silence())
    } else if text::starts_with(t, "/queue"@) {
        let e = running_queue_command(q, text::after(t, "/queue"@)->0);
        (
            e.queue,
            match e.inject {
                Some(m) => RunningInput::Steer(m),
                None => RunningInput::Ignored,
            },
            e.out,
        )
    } else {
        (q, RunningInput::Steer(t), say::silence())
    }
}

fn running_queue(rest: &str, q: &mut MessageQueue) -> (r: QueueReply)
    ensures
        r.shows(final(q)@, running_queue_command(old(q)@, rest@)),
{
    let args = words_of(rest);
    let ghost av = text::texts(args@);
    if args.len() == 0 {
        return QueueReply { inject: None, out: list_queue(q) };
    }
    assert(av[0] == args@[0]@);
    let first: &str = args[0].as_str();
    if same(first, "list") {
        QueueReply { inject: None, out: list_queue(q) }
    } else if same(first, "add") || same(first, "enqueue") {
        let t = trimmed_start(rest);
        let body = match behind(&t, "add") {
            Some(b) => b,
            None => match behind(&t, "enqueue") {
                Some(b) => b,
                None => String::new(),
            },
        };
        let body = trimmed(&body);
        if body.as_str().is_empty() {
            says(msg("queue.usage"))
        } else {
            add_messages(&body, q)
        }
    } else if same(first, "pop") || same(first, "next") {
        pop_message(q)
    } else if same(first, "undo") || same(first, "back") {
        undo_message(q)
    } else if same(first, "clear") {
        clear_messages(q)
    } else {
        says(msg("queue.usage"))
    }
}

/// Takes a line typed while a turn is running: an arrow queues it, `/queue` manages the
/// queue, and anything else is delivered to the agent at once.
pub fn handle_running_input(line: &str, q: &mut MessageQueue) -> (r: (RunningInput, Output))
    ensures
        (final(q)@, r.0.view(), r.1@) == running_input(old(q)@, line@),
{
    let t = trimmed(line);
    if t.as_str().is_empty() {
        return (RunningInput::Ignored, Output::new());
    }
    match parse_queue_shorthand(&t) {
        Some(m) => {
            let n: usize = q.enqueue(&m);
            return (RunningInput::Queued(n), Output::new());
        },
        None => {},
    }
    match behind(&t, "/queue") {
        Some(rest) => {
            let r = running_queue(&rest, q);
            match r.inject {
                Some(m) => (RunningInput::Steer(m), r.out),
                None => (RunningInput::Ignored, r.out),
            }
        },
        None => (RunningInput::Steer(t), Output::new()),
    }
}

// ── Laws ────────────────────────────────────────────────────────────────────

/// No `/queue` command puts a blank message into the queue.
pub proof fn queue_command_keeps_no_blank(q: Seq<Seq<char>>, sub: Seq<char>, rest: Seq<char>)
    requires
        queue::no_blank(q),
    ensures
        queue::no_blank(queue_command(q, sub, rest).queue),
{
    queue::enqueue_many_keeps_no_blank(q, outline::queued_messages(rest));
    let after = queue_command(q, sub, rest).queue;
    assert forall|i: int| 0 <= i < after.len() implies !text::is_blank(#[trigger] after[i]) by {
        if queue_pop(q).queue == after && q.len() > 0 {
            assert(q.drop_first()[i] == q[i + 1]);
        }
    }
}

/// Whatever is typed during a turn, the queue holds no blank message afterwards.
pub proof fn running_input_keeps_no_blank(q: Seq<Seq<char>>, line: Seq<char>)
    requires
        queue::no_blank(q),
    ensures
        queue::no_blank(running_input(q, line).0),
{
    let t = text::trim(line);
    if queue::shorthand(t) is Some {
        queue::enqueue_keeps_no_blank(q, queue::shorthand(t)->0);
    }
    let rest = text::after(t, "/queue"@)->0;
    queue::enqueue_many_keeps_no_blank(q, outline::queued_messages(added_text(rest)));
    let after = running_queue_command(q, rest).queue;
    assert forall|i: int| 0 <= i < after.len() implies !text::is_blank(#[trigger] after[i]) by {
        if queue_pop(q).queue == after && q.len() > 0 {
            assert(q.drop_first()[i] == q[i + 1]);
        }
    }
}

/// The words of the sub-commands differ in length or in a letter.
proof fn sub_commands_differ()
    ensures
        "pop"@ == seq!['p', 'o', 'p'],
        "undo"@ == seq!['u', 'n', 'd', 'o'],
        "rm"@ == seq!['r', 'm'],
        "clear"@ == seq!['c', 'l', 'e', 'a', 'r'],
        "add"@ == seq!['a', 'd', 'd'],
        "list"@ == seq!['l', 'i', 's', 't'],
        "next"@ == seq!['n', 'e', 'x', 't'],
        "back"@ == seq!['b', 'a', 'c', 'k'],
        "drop"@ == seq!['d', 'r', 'o', 'p'],
        "enqueue"@.len() == 7,
        "enqueue"@[0] == 'e',
        ""@ == Seq::<char>::empty(),
{
    reveal_strlit("pop");
    reveal_strlit("undo");
    reveal_strlit("rm");
    reveal_strlit("clear");
    reveal_strlit("add");
    reveal_strlit("list");
    reveal_strlit("next");
    reveal_strlit("back");
    reveal_strlit("drop");
    reveal_strlit("enqueue");
    reveal_strlit("");
    assert("pop"@ =~= seq!['p', 'o', 'p']);
    assert("undo"@ =~= seq!['u', 'n', 'd', 'o']);
    assert("rm"@ =~= seq!['r', 'm']);
    assert("clear"@ =~= seq!['c', 'l', 'e', 'a', 'r']);
    assert("add"@ =~= seq!['a', 'd', 'd']);
    assert("list"@ =~= seq!['l', 'i', 's', 't']);
    assert("next"@ =~= seq!['n', 'e', 'x', 't']);
    assert("back"@ =~= seq!['b', 'a', 'c', 'k']);
    assert("drop"@ =~= seq!['d', 'r', 'o', 'p']);
    assert(""@ =~= Seq::<char>::empty());
}

/// `/queue pop` takes the oldest message and runs it; `/queue undo` takes back the newest and
/// runs nothing; `/queue rm` takes out the one with the number; `/queue clear` takes all. Every
/// other message stays where it is.
pub proof fn messages_are_taken_out(a: Seq<Seq<char>>, m: Seq<char>, b: Seq<Seq<char>>)
    requires
        a.len() < usize::MAX,
    ensures
        ({
            let pop = queue_command(seq![m] + b, "pop"@, Seq::empty());
            pop.queue == b && pop.inject == Some(m)
        }),
        ({
            let undo = queue_command(a + seq![m], "undo"@, Seq::empty());
            undo.queue == a && undo.inject is None
        }),
        ({
            let rm = queue_command(a + seq![m] + b, "rm"@, numeral::dec((a.len() + 1) as nat));
            rm.queue == a + b && rm.inject is None
        }),
        ({
            let clear = queue_command(a, "clear"@, Seq::empty());
            clear.queue == Seq::<Seq<char>>::empty() && clear.inject is None
        }),
{
    sub_commands_differ();
    let n = (a.len() + 1) as nat;
    numeral::unsigned_of_dec(n, usize::MAX as nat);
    assert((seq![m] + b).drop_first() =~= b);
    assert((a + seq![m]).drop_last() =~= a);
    assert((a + seq![m] + b).remove(n - 1) =~= a + b);
}

/// `/queue add` puts the messages of its text behind those that wait, and `/queue list` and
/// anything that is no sub-command change nothing.
pub proof fn messages_are_added_behind(q: Seq<Seq<char>>, rest: Seq<char>, sub: Seq<char>)
    ensures
        rest.len() > 0 ==> ({
            let add = queue_command(q, "add"@, rest);
            add.queue == q + outline::queued_messages(rest) && add.inject is None
        }),
        queue_command(q, "add"@, Seq::empty()).queue == q,
        queue_command(q, "list"@, rest).queue == q,
        queue_command(q, "list"@, rest).inject is None,
        sub.len() > 7 ==> queue_command(q, sub, rest).queue == q && queue_command(
            q,
            sub,
            rest,
        ).inject is None,
{
    sub_commands_differ();
    let ms = outline::queued_messages(rest);
    outline::queued_messages_are_trimmed(rest);
    queue::enqueue_many_keeps_order(q, ms);
}

/// A queue is listed with every message, in order, each on one line behind its number.
pub proof fn every_message_is_listed(q: Seq<Seq<char>>)
    requires
        q.len() > 0,
    ensures
        queue_listing(q).len() == q.len() + 1,
        forall|i: int|
            1 <= i <= q.len() ==> #[trigger] queue_listing(q)[i] == say::LineView::Text(
                seq![' ', ' '] + numeral::dec(i as nat) + seq!['.', ' '] + one_line(q[i - 1]),
            ),
        forall|i: int|
            0 <= i < q.len() && !text::has_char(q[i], '\n') ==> one_line(#[trigger] q[i]) == q[i],
{
    listing_holds_each(q, q.len() as int);
    reveal_strlit("  ");
    reveal_strlit(". ");
    assert("  "@ =~= seq![' ', ' ']);
    assert(". "@ =~= seq!['.', ' ']);
    assert forall|i: int| 1 <= i <= q.len() implies #[trigger] queue_listing(q)[i]
        == say::LineView::Text(
        seq![' ', ' '] + numeral::dec(i as nat) + seq!['.', ' '] + one_line(q[i - 1]),
    ) by {
        assert(queue_listing(q)[i] == listing(q, q.len() as int)[i - 1]);
    }
    assert forall|i: int| 0 <= i < q.len() && !text::has_char(q[i], '\n') implies one_line(
        #[trigger] q[i],
    ) == q[i] by {
        pieces::nothing_is_replaced(q[i], '\n', " ⏎ "@);
    }
}

proof fn listing_holds_each(q: Seq<Seq<char>>, n: int)
    requires
        0 <= n <= q.len(),
    ensures
        listing(q, n).len() == n,
        forall|i: int|
            0 <= i < n ==> #[trigger] listing(q, n)[i] == say::LineView::Text(
                listed((i + 1) as nat, q[i]),
            ),
    decreases n,
{
    if n > 0 {
        listing_holds_each(q, n - 1);
    }
}

/// What is typed while a turn runs, and neither begins with an arrow nor with `/queue`, is
/// delivered at once and waits for nothing; what stands behind an arrow waits.
pub proof fn typed_lines_are_delivered(q: Seq<Seq<char>>, w: Seq<char>, m: Seq<char>)
    requires
        text::all_white(w),
        m.len() > 0,
        text::is_trimmed(m),
        q.len() < usize::MAX,
    ensures
        m[0] != '-' && m[0] != '=' && m[0] != '/' ==> running_input(q, w + m + w) == (
            q,
            RunningInput::Steer(m),
            Seq::<say::LineView>::empty(),
        ),
        running_input(q, w + seq!['-', '>'] + w + m + w) == (
            q.push(m),
            RunningInput::<Seq<char>>::Queued((q.len() + 1) as usize),
            Seq::<say::LineView>::empty(),
        ),
        running_input(q, w).0 == q,
        running_input(q, w).1 is Ignored,
{
    let e = Seq::<char>::empty();
    text::white_space_around_goes(w, m, w);
    text::white_space_around_goes(w, e, e);
    assert(w + e + e =~= w);
    queue::arrows_queue_what_is_behind(e, w, m, e);
    assert(e + m =~= m);
    reveal_strlit("/queue");
    if m[0] != '/' && m.len() >= 6 {
        assert(m.take(6)[0] == m[0]);
    }
    let t = seq!['-', '>'] + w + m;
    assert(t[0] == '-' && t.last() == m.last());
    text::white_space_around_goes(w, t, w);
    assert(w + t + w =~= w + seq!['-', '>'] + w + m + w);
    assert(e + seq!['-', '>'] + w + m + e =~= t);
    text::white_space_around_goes(e, m, e);
}

} // verus!
