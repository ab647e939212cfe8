//! The queue of messages typed while a turn is running.
use std::collections::VecDeque;
use vstd::prelude::*;

use crate::text;
use crate::text::{behind, blank, copy_text, trimmed, trimmed_start};

verus! {

/// Messages in the order in which they will run: the front is the next one.
#[derive(Debug)]
pub struct MessageQueue {
    items: VecDeque<String>,
}

impl View for MessageQueue {
    type V = Seq<Seq<char>>;

    closed spec fn view(&self) -> Seq<Seq<char>> {
        text::texts(self.items@)
    }
}

/// The queue with one message put behind the others; a blank message is left out.
pub open spec fn enqueued(q: Seq<Seq<char>>, m: Seq<char>) -> Seq<Seq<char>> {
    if text::is_blank(m) {
        q
    } else {
        q.push(m)
    }
}

/// The queue with each of `ms` enqueued in turn.
pub open spec fn enqueued_all(q: Seq<Seq<char>>, ms: Seq<Seq<char>>) -> Seq<Seq<char>>
    decreases ms.len(),
{
    if ms.len() == 0 {
        q
    } else {
        enqueued(enqueued_all(q, ms.drop_last()), ms.last())
    }
}

/// No message of the queue is blank.
pub open spec fn no_blank(q: Seq<Seq<char>>) -> bool {
    forall|i: int| 0 <= i < q.len() ==> !text::is_blank(#[trigger] q[i])
}

/// Enqueueing never puts a blank message into a queue that holds none.
pub proof fn enqueue_keeps_no_blank(q: Seq<Seq<char>>, m: Seq<char>)
    requires
        no_blank(q),
    ensures
        no_blank(enqueued(q, m)),
{
}

/// Nor does enqueueing several messages.
pub proof fn enqueue_many_keeps_no_blank(q: Seq<Seq<char>>, ms: Seq<Seq<char>>)
    requires
        no_blank(q),
    ensures
        no_blank(enqueued_all(q, ms)),
    decreases ms.len(),
{
    if ms.len() > 0 {
        enqueue_many_keeps_no_blank(q, ms.drop_last());
        enqueue_keeps_no_blank(enqueued_all(q, ms.drop_last()), ms.last());
    }
}

/// What was enqueued last is what `pop_back` takes: the queue is then as it was before.
pub proof fn pop_back_undoes_enqueue(q: Seq<Seq<char>>, m: Seq<char>)
    requires
        !text::is_blank(m),
    ensures
        enqueued(q, m).last() == m,
        enqueued(q, m).drop_last() == q,
{
    assert(enqueued(q, m).drop_last() =~= q);
}

/// Messages that are not blank run in the order in which they were enqueued.
pub proof fn enqueue_many_keeps_order(q: Seq<Seq<char>>, ms: Seq<Seq<char>>)
    requires
        no_blank(ms),
    ensures
        enqueued_all(q, ms) == q + ms,
    decreases ms.len(),
{
    if ms.len() == 0 {
        assert(q + ms =~= q);
    } else {
        let head = ms.drop_last();
        assert(no_blank(head)) by {
            assert forall|i: int| 0 <= i < head.len() implies !text::is_blank(#[trigger] head[i]) by {
                assert(head[i] == ms[i]);
            }
        }
        enqueue_many_keeps_order(q, head);
        assert(!text::is_blank(ms[ms.len() - 1]));
        assert((q + head).push(ms.last()) =~= q + ms);
    }
}

impl MessageQueue {
    /// The queue without messages.
    pub fn new() -> (r: Self)
        ensures
            r@ == Seq::<Seq<char>>::empty(),
    {
        let r = MessageQueue { items: VecDeque::new() };
        assert(text::texts(r.items@) =~= Seq::<Seq<char>>::empty());
        r
    }

    /// Puts a message behind the others and returns how many there are then. A blank
    /// message is ignored.
    pub fn enqueue(&mut self, text: &str) -> (n: usize)
        ensures
            final(self)@ == enqueued(old(self)@, text@),
            n == final(self)@.len(),
    {
        if !blank(text) {
            let ghost before = self.items@;
            let m = copy_text(text);
            self.items.push_back(m);
            proof {
                text::lemma_texts_push(before, m);
            }
        }
        self.items.len()
    }

    /// Enqueues each message in turn and returns how many there are then.
    pub fn enqueue_many(&mut self, texts: Vec<String>) -> (n: usize)
        ensures
            final(self)@ == enqueued_all(old(self)@, text::texts(texts@)),
            n == final(self)@.len(),
    {
        let ghost ms = text::texts(texts@);
        let mut i: usize = 0;
        assert(ms.take(0) =~= Seq::<Seq<char>>::empty());
        while i < texts.len()
            invariant
                i <= texts.len(),
                ms == text::texts(texts@),
                self@ == enqueued_all(old(self)@, ms.take(i as int)),
            decreases texts.len() - i,
        {
            self.enqueue(&texts[i]);
            assert(ms.take(i + 1).drop_last() =~= ms.take(i as int));
            assert(ms.take(i + 1).last() == texts@[i as int]@);
            i = i + 1;
        }
        assert(ms.take(i as int) =~= ms);
        self.items.len()
    }

    /// Takes the message that runs next.
    pub fn pop_front(&mut self) -> (r: Option<String>)
        ensures
            match r {
                Some(m) => old(self)@.len() > 0 && m@ == old(self)@[0] && final(self)@ == old(self)@.drop_first(),
                None => old(self)@.len() == 0 && final(self)@ == old(self)@,
            },
    {
        let r = self.items.pop_front();
        assert(r is Some ==> self@ =~= old(self)@.drop_first());
        r
    }

    /// Takes back the message that was enqueued last.
    pub fn pop_back(&mut self) -> (r: Option<String>)
        ensures
            match r {
                Some(m) => old(self)@.len() > 0 && m@ == old(self)@.last() && final(self)@ == old(self)@.drop_last(),
                None => old(self)@.len() == 0 && final(self)@ == old(self)@,
            },
    {
        let r = self.items.pop_back();
        assert(r is Some ==> self@ =~= old(self)@.drop_last());
        r
    }

    /// Takes out the message with the given number, the first being number one.
    pub fn remove(&mut self, index: usize) -> (r: Option<String>)
        ensures
            match r {
                Some(m) => 1 <= index <= old(self)@.len() && m@ == old(self)@[index - 1] && final(self)@ == old(self)@.remove(index - 1),
                None => !(1 <= index <= old(self)@.len()) && final(self)@ == old(self)@,
            },
    {
        if index == 0 {
            return None;
        }
        let r = self.items.remove(index - 1);
        assert(r is Some ==> self@ =~= old(self)@.remove(index - 1));
        r
    }

    /// The messages with their numbers, from one on.
    pub fn list(&self) -> (r: Vec<(usize, &str)>)
        ensures
            r.len() == self@.len(),
            forall|i: int|
                0 <= i < r.len() ==> (#[trigger] r@[i]).0 == i + 1 && r@[i].1@ == self@[i],
    {
        let mut r: Vec<(usize, &str)> = Vec::new();
        let n: usize = self.items.len();
        let mut i: usize = 0;
        while i < n
            invariant
                i <= n,
                n == self.items@.len(),
                r.len() == i,
                forall|k: int|
                    0 <= k < i ==> (#[trigger] r@[k]).0 == k + 1 && r@[k].1@ == self.items@[k]@,
            decreases n - i,
        {
            let m: &str = self.items[i].as_str();
            r.push((i + 1, m));
            i = i + 1;
        }
        r
    }

    /// Empties the queue and returns how many messages there were.
    pub fn clear(&mut self) -> (n: usize)
        ensures
            n == old(self)@.len(),
            final(self)@ == Seq::<Seq<char>>::empty(),
    {
        let n: usize = self.items.len();
        self.items.clear();
        assert(self@ =~= Seq::<Seq<char>>::empty());
        n
    }

    pub fn len(&self) -> (n: usize)
        ensures
            n == self@.len(),
    {
        self.items.len()
    }

    pub fn is_empty(&self) -> (r: bool)
        ensures
            r == (self@.len() == 0),
    {
        self.items.len() == 0
    }
}

impl Default for MessageQueue {
    fn default() -> (r: Self)
        ensures
            r@ == Seq::<Seq<char>>::empty(),
    {
        MessageQueue::new()
    }
}

/// The next message to run, if any waits.
pub fn pop_queued(queue: &mut MessageQueue) -> (r: Option<String>)
    ensures
        match r {
            Some(m) => old(queue)@.len() > 0 && m@ == old(queue)@[0] && final(queue)@ == old(queue)@.drop_first(),
            None => old(queue)@.len() == 0 && final(queue)@ == old(queue)@,
        },
{
    queue.pop_front()
}

/// The message behind a `->` or `=>` arrow; none where there is no arrow or no message.
pub open spec fn shorthand(s: Seq<char>) -> Option<Seq<char>> {
    let t = text::trim_start(s);
    let rest = if text::starts_with(t, "->"@) {
        text::after(t, "->"@)
    } else {
        text::after(t, "=>"@)
    };
    match rest {
        Some(b) => if text::is_blank(b) {
            None
        } else {
            Some(text::trim(b))
        },
        None => None,
    }
}

pub fn parse_queue_shorthand(text: &str) -> (r: Option<String>)
    ensures
        match r {
            Some(m) => shorthand(text@) == Some(m@),
            None => shorthand(text@) is None,
        },
{
    let t = trimmed_start(text);
    let rest = match behind(&t, "->") {
        Some(b) => Some(b),
        None => behind(&t, "=>"),
    };
    match rest {
        Some(b) => {
            let body = trimmed(&b);
            if body.as_str().is_empty() {
                None
            } else {
                Some(body)
            }
        },
        None => None,
    }
}

/// A message behind an arrow is queued as it is, whichever arrow it is and whatever white space
/// stands around; what begins with no arrow is not.
pub proof fn arrows_queue_what_is_behind(
    before: Seq<char>,
    between: Seq<char>,
    m: Seq<char>,
    behind: Seq<char>,
)
    requires
        text::all_white(before),
        text::all_white(between),
        text::all_white(behind),
        m.len() > 0,
        text::is_trimmed(m),
    ensures
        shorthand(before + seq!['-', '>'] + between + m + behind) == Some(m),
        shorthand(before + seq!['=', '>'] + between + m + behind) == Some(m),
        shorthand(before + seq!['-', '>'] + between) is None,
        m[0] != '-' && m[0] != '=' ==> shorthand(before + m) is None,
{
    arrow_queues(before, '-', between, m, behind);
    arrow_queues(before, '=', between, m, behind);
    reveal_strlit("->");
    reveal_strlit("=>");
    text::white_space_around_goes(before, m, Seq::empty());
    if m[0] != '-' && m[0] != '=' {
        assert(m.len() >= 2 ==> m.take(2)[0] == m[0]);
    }
}

proof fn arrow_queues(
    before: Seq<char>,
    a: char,
    between: Seq<char>,
    m: Seq<char>,
    behind: Seq<char>,
)
    requires
        a == '-' || a == '=',
        text::all_white(before),
        text::all_white(between),
        text::all_white(behind),
        m.len() > 0,
        text::is_trimmed(m),
    ensures
        shorthand(before + seq![a, '>'] + between + m + behind) == Some(m),
        shorthand(before + seq![a, '>'] + between) is None,
{
    let arrow = seq![a, '>'];
    let s = before + arrow + between + m + behind;
    let e = Seq::<char>::empty();
    reveal_strlit("->");
    reveal_strlit("=>");
    assert("->"@ =~= seq!['-', '>']);
    assert("=>"@ =~= seq!['=', '>']);
    // What stands from the arrow on need not be without white space at its end.
    let t = arrow + between + m + behind;
    assert(s =~= before + t);
    assert(!text::is_white(t[0]));
    text::white_before_goes(before, t);
    assert(t.take(2) =~= arrow);
    assert(t.skip(2) =~= between + m + behind);
    text::white_space_around_goes(between, m, behind);
    let u = arrow + between;
    assert(before + arrow + between =~= before + u);
    assert(!text::is_white(u[0]));
    text::white_before_goes(before, u);
    assert(u.take(2) =~= arrow);
    assert(u.skip(2) =~= between + e + e);
    text::white_space_around_goes(between, e, e);
}

} // verus!
