//! The `/todo` command.
use vstd::prelude::*;

use crate::manage;
use crate::numeral;
use crate::numeral::dec_usize;
use crate::pieces;
use crate::pieces::sub_and_rest_of;
use crate::say;
use crate::say::{msg, Msg};
use crate::text;
use crate::text::{cat, chars_of, copy_text, same, sub_text, trimmed};

verus! {

/// How far an item of the list is.
#[derive(Clone, Copy, Debug, PartialEq, Eq, Structural)]
pub enum TodoPhase {
    Pending,
    InProgress,
    Completed,
    Abandoned,
    Blocked,
}

pub open spec fn phase_name(p: TodoPhase) -> Seq<char> {
    match p {
        TodoPhase::Pending => "pending"@,
        TodoPhase::InProgress => "in_progress"@,
        TodoPhase::Completed => "completed"@,
        TodoPhase::Abandoned => "abandoned"@,
        TodoPhase::Blocked => "blocked"@,
    }
}

impl TodoPhase {
    pub fn as_str(self) -> (r: &'static str)
        ensures
            r@ == phase_name(self),
    {
        match self {
            TodoPhase::Pending => "pending",
            TodoPhase::InProgress => "in_progress",
            TodoPhase::Completed => "completed",
            TodoPhase::Abandoned => "abandoned",
            TodoPhase::Blocked => "blocked",
        }
    }
}

/// An item of the list.
#[derive(Debug)]
pub struct TodoItem<S = String> {
    pub id: S,
    pub content: S,
    pub phase: TodoPhase,
    pub blocked_reason: Option<S>,
}

impl TodoItem {
    pub open spec fn view(&self) -> TodoItem<Seq<char>> {
        TodoItem {
            id: self.id@,
            content: self.content@,
            phase: self.phase,
            blocked_reason: manage::opt_text(self.blocked_reason),
        }
    }

    fn copy(&self) -> (r: TodoItem)
        ensures
            r.view() == self.view(),
    {
        TodoItem {
            id: copy_text(&self.id),
            content: copy_text(&self.content),
            phase: self.phase,
            blocked_reason: match &self.blocked_reason {
                Some(s) => Some(copy_text(s)),
                None => None,
            },
        }
    }
}

pub open spec fn item_views(v: Seq<TodoItem>) -> Seq<TodoItem<Seq<char>>> {
    Seq::new(v.len(), |i: int| v[i].view())
}

/// What is said once the list has been replaced.
#[derive(Debug)]
pub enum TodoNote<S = String> {
    Added,
    Updated { id: S, phase: TodoPhase },
    Cleared,
}

impl TodoNote {
    pub open spec fn view(&self) -> TodoNote<Seq<char>> {
        match self {
            TodoNote::Added => TodoNote::Added,
            TodoNote::Updated { id, phase } => TodoNote::Updated { id: id@, phase: *phase },
            TodoNote::Cleared => TodoNote::Cleared,
        }
    }
}

/// What a `/todo` command asks for.
#[derive(Debug)]
pub enum TodoAction<L = Vec<TodoItem>, N = TodoNote, M = Msg> {
    /// Show the list.
    Show,
    /// Say something and leave the list alone.
    Say(M),
    /// Put these items in place of the list, then say what the note says.
    Replace(L, N),
}

pub type TodoActionView = TodoAction<
    Seq<TodoItem<Seq<char>>>,
    TodoNote<Seq<char>>,
    say::MsgView,
>;

impl TodoAction {
    pub open spec fn view(&self) -> TodoActionView {
        match self {
            TodoAction::Show => TodoAction::Show,
            TodoAction::Say(m) => TodoAction::Say(m@),
            TodoAction::Replace(l, n) => TodoAction::Replace(item_views(l@), n.view()),
        }
    }
}

/// The number of the characters `#` and `t` at the front.
pub open spec fn mark_len(s: Seq<char>) -> nat
    decreases s.len(),
{
    if s.len() > 0 && (s[0] == '#' || s[0] == 't') {
        1 + mark_len(s.drop_first())
    } else {
        0
    }
}

/// The id that `3`, `t3` and `#3` all stand for.
pub open spec fn todo_id(raw: Seq<char>) -> Seq<char> {
    let t = text::trim(raw);
    "t"@ + t.skip(mark_len(t) as int)
}

pub fn normalize_todo_id(raw: &str) -> (r: String)
    ensures
        r@ == todo_id(raw@),
{
    let t = trimmed(raw);
    let v = chars_of(&t);
    let mut i: usize = 0;
    assert(v@.skip(0) =~= v@);
    while i < v.len() && (v[i] == '#' || v[i] == 't')
        invariant
            i <= v.len(),
            mark_len(v@) == i + mark_len(v@.skip(i as int)),
        decreases v.len() - i,
    {
        assert(v@.skip(i as int)[0] == v@[i as int]);
        assert(v@.skip(i as int).drop_first() =~= v@.skip(i + 1));
        i = i + 1;
    }
    let n = sub_text(&v, i, v.len());
    assert(n@ =~= v@.skip(i as int));
    cat("t", &n)
}

pub open spec fn phase_of(sub: Seq<char>) -> TodoPhase {
    if sub == "start"@ {
        TodoPhase::InProgress
    } else if sub == "done"@ {
        TodoPhase::Completed
    } else {
        TodoPhase::Abandoned
    }
}

/// The first place of an id, or the number of items.
pub open spec fn id_index(items: Seq<TodoItem<Seq<char>>>, id: Seq<char>, i: int) -> int
    decreases items.len() - i,
{
    if i < 0 || i >= items.len() || items[i].id == id {
        i
    } else {
        id_index(items, id, i + 1)
    }
}

/// What `/todo` does with its sub-command and the rest of the line.
pub open spec fn todo_command(
    items: Seq<TodoItem<Seq<char>>>,
    sub: Seq<char>,
    rest: Seq<char>,
) -> TodoActionView {
    if sub.len() == 0 || sub == "list"@ || sub == "show"@ {
        TodoAction::Show
    } else if sub == "add"@ {
        if rest.len() == 0 {
            TodoAction::Say(say::entry("todo.usage"@))
        } else {
            TodoAction::Replace(
                items.push(
                    TodoItem {
                        id: Seq::empty(),
                        content: rest,
                        phase: TodoPhase::Pending,
                        blocked_reason: None,
                    },
                ),
                TodoNote::Added,
            )
        }
    } else if sub == "start"@ || sub == "done"@ || sub == "drop"@ || sub == "rm"@ {
        let k = id_index(items, todo_id(rest), 0);
        if rest.len() == 0 {
            TodoAction::Say(say::entry("todo.usage"@))
        } else if k >= items.len() {
            TodoAction::Say(say::entry("todo.unknown_id"@).arg("id"@, todo_id(rest)))
        } else {
            TodoAction::Replace(
                items.update(
                    k,
                    TodoItem { phase: phase_of(sub), blocked_reason: None, ..items[k] },
                ),
                TodoNote::Updated { id: todo_id(rest), phase: phase_of(sub) },
            )
        }
    } else if sub == "clear"@ {
        TodoAction::Replace(Seq::empty(), TodoNote::Cleared)
    } else {
        TodoAction::Say(say::entry("todo.usage"@))
    }
}

fn copy_items(items: &Vec<TodoItem>) -> (r: Vec<TodoItem>)
    ensures
        item_views(r@) == item_views(items@),
{
    let mut r: Vec<TodoItem> = Vec::new();
    let mut i: usize = 0;
    while i < items.len()
        invariant
            i <= items.len(),
            item_views(r@) == item_views(items@).take(i as int),
        decreases items.len() - i,
    {
        let ghost before = r@;
        let c = items[i].copy();
        r.push(c);
        assert(item_views(r@) =~= item_views(before).push(c.view()));
        i = i + 1;
        assert(item_views(r@) =~= item_views(items@).take(i as int));
    }
    assert(item_views(r@) =~= item_views(items@));
    r
}

/// `/todo`: shows the list, adds to it, moves an item on, or clears it.
pub fn handle_todo(input: &str, items: &Vec<TodoItem>) -> (r: TodoAction)
    ensures
        r.view() == todo_command(
            item_views(items@),
            pieces::sub_and_rest(input@).0,
            pieces::sub_and_rest(input@).1,
        ),
{
    let ghost iv = item_views(items@);
    let (sub, rest) = sub_and_rest_of(input);
    if sub.as_str().is_empty() || same(&sub, "list") || same(&sub, "show") {
        return TodoAction::Show;
    }
    if same(&sub, "add") {
        if rest.as_str().is_empty() {
            return TodoAction::Say(msg("todo.usage"));
        }
        let mut list = copy_items(items);
        let ghost before = list@;
        let item = TodoItem {
            id: String::new(),
            content: rest,
            phase: TodoPhase::Pending,
            blocked_reason: None,
        };
        list.push(item);
        assert(item_views(list@) =~= item_views(before).push(item.view()));
        return TodoAction::Replace(list, TodoNote::Added);
    }
    if same(&sub, "start") || same(&sub, "done") || same(&sub, "drop") || same(&sub, "rm") {
        if rest.as_str().is_empty() {
            return TodoAction::Say(msg("todo.usage"));
        }
        let target = normalize_todo_id(&rest);
        let phase = if same(&sub, "start") {
            TodoPhase::InProgress
        } else if same(&sub, "done") {
            TodoPhase::Completed
        } else {
            TodoPhase::Abandoned
        };
        let mut k: usize = 0;
        while k < items.len() && !same(&items[k].id, &target)
            invariant
                k <= items.len(),
                iv == item_views(items@),
                id_index(iv, target@, 0) == id_index(iv, target@, k as int),
            decreases items.len() - k,
        {
            assert(iv[k as int] == items@[k as int].view());
            k = k + 1;
        }
        if k >= items.len() {
            return TodoAction::Say(msg("todo.unknown_id").arg("id", &target));
        }
        assert(iv[k as int] == items@[k as int].view());
        let mut list = copy_items(items);
        let ghost before = list@;
        assert(list.len() == item_views(list@).len());
        let item = TodoItem {
            id: copy_text(&items[k].id),
            content: copy_text(&items[k].content),
            phase,
            blocked_reason: None,
        };
        list.set(k, item);
        assert(item_views(list@) =~= item_views(before).update(k as int, item.view()));
        return TodoAction::Replace(list, TodoNote::Updated { id: target, phase });
    }
    if same(&sub, "clear") {
        let list: Vec<TodoItem> = Vec::new();
        assert(item_views(list@) =~= Seq::empty());
        return TodoAction::Replace(list, TodoNote::Cleared);
    }
    TodoAction::Say(msg("todo.usage"))
}

/// What is said once the list has been replaced, given how many items it has then.
pub fn todo_note(note: &TodoNote, count: usize) -> (m: Msg)
    ensures
        m@ == (match note {
            TodoNote::Added => say::entry("todo.added"@).arg("count"@, numeral::dec(count as nat)),
            TodoNote::Updated { id, phase } => say::entry("todo.updated"@).arg("id"@, id@).arg(
                "phase"@,
                phase_name(*phase),
            ).arg("count"@, numeral::dec(count as nat)),
            TodoNote::Cleared => say::entry("todo.cleared"@),
        }),
{
    match note {
        TodoNote::Added => msg("todo.added").arg("count", &dec_usize(count)),
        TodoNote::Updated { id, phase } => msg("todo.updated").arg("id", id).arg(
            "phase",
            phase.as_str(),
        ).arg("count", &dec_usize(count)),
        TodoNote::Cleared => msg("todo.cleared"),
    }
}

/// Moving an item on changes neither its id and content nor any other item.
pub proof fn todo_update_is_local(
    items: Seq<TodoItem<Seq<char>>>,
    sub: Seq<char>,
    rest: Seq<char>,
    j: int,
)
    requires
        sub.len() > 0,
        sub != "list"@,
        sub != "show"@,
        sub != "add"@,
        sub == "start"@ || sub == "done"@ || sub == "drop"@ || sub == "rm"@,
        0 <= j < items.len(),
    ensures
        todo_command(items, sub, rest) matches TodoAction::Replace(l, _) ==> {
            &&& l.len() == items.len()
            &&& l[j].id == items[j].id && l[j].content == items[j].content
            &&& j != id_index(items, todo_id(rest), 0) ==> l[j] == items[j]
        },
{
    lemma_id_index(items, todo_id(rest), 0);
}

proof fn lemma_id_index(items: Seq<TodoItem<Seq<char>>>, id: Seq<char>, i: int)
    requires
        0 <= i,
    ensures
        id_index(items, id, i) >= i,
    decreases items.len() - i,
{
    if i < items.len() && items[i].id != id {
        lemma_id_index(items, id, i + 1);
    }
}

proof fn marks_go(mark: Seq<char>, k: Seq<char>)
    requires
        mark == seq!['t'] || mark == seq!['#'] || mark == Seq::<char>::empty(),
        k.len() > 0,
        k[0] != 't' && k[0] != '#',
        text::is_trimmed(k),
    ensures
        todo_id(mark + k) == seq!['t'] + k,
{
    let s = mark + k;
    reveal_strlit("t");
    assert("t"@ =~= seq!['t']);
    assert(s.last() == k.last());
    assert(text::is_trimmed(s));
    text::white_space_around_goes(Seq::empty(), s, Seq::empty());
    if mark.len() == 0 {
        assert(s =~= k);
        assert(mark_len(s) == 0);
    } else {
        assert(s.drop_first() =~= k);
        assert(mark_len(k) == 0);
        assert(mark_len(s) == 1);
    }
    assert(s.skip(mark.len() as int) =~= k);
}

proof fn first_place(a: Seq<TodoItem<Seq<char>>>, x: TodoItem<Seq<char>>, b: Seq<TodoItem<Seq<char>>>, i: int)
    requires
        0 <= i <= a.len(),
        forall|j: int| 0 <= j < a.len() ==> (#[trigger] a[j]).id != x.id,
    ensures
        id_index(a + seq![x] + b, x.id, i) == a.len(),
    decreases a.len() - i,
{
    let v = a + seq![x] + b;
    if i < a.len() {
        assert(v[i] == a[i]);
        first_place(a, x, b, i + 1);
    } else {
        assert(v[i] == x);
    }
}

/// An item is moved on, whichever way its number is written: it is in progress once it was
/// started, completed once it is done, and abandoned once it is dropped. Every other item stays
/// as it is, and where it is.
pub proof fn items_are_moved_on(
    a: Seq<TodoItem<Seq<char>>>,
    x: TodoItem<Seq<char>>,
    b: Seq<TodoItem<Seq<char>>>,
    mark: Seq<char>,
    k: Seq<char>,
)
    requires
        mark == seq!['t'] || mark == seq!['#'] || mark == Seq::<char>::empty(),
        k.len() > 0,
        k[0] != 't' && k[0] != '#',
        text::is_trimmed(k),
        x.id == seq!['t'] + k,
        forall|j: int| 0 <= j < a.len() ==> (#[trigger] a[j]).id != x.id,
    ensures
        todo_command(a + seq![x] + b, "start"@, mark + k) == TodoActionView::Replace(
            a + seq![TodoItem { phase: TodoPhase::InProgress, blocked_reason: None, ..x }] + b,
            TodoNote::Updated { id: x.id, phase: TodoPhase::InProgress },
        ),
        todo_command(a + seq![x] + b, "done"@, mark + k) == TodoActionView::Replace(
            a + seq![TodoItem { phase: TodoPhase::Completed, blocked_reason: None, ..x }] + b,
            TodoNote::Updated { id: x.id, phase: TodoPhase::Completed },
        ),
        todo_command(a + seq![x] + b, "drop"@, mark + k) == TodoActionView::Replace(
            a + seq![TodoItem { phase: TodoPhase::Abandoned, blocked_reason: None, ..x }] + b,
            TodoNote::Updated { id: x.id, phase: TodoPhase::Abandoned },
        ),
{
    words_differ();
    marks_go(mark, k);
    first_place(a, x, b, 0);
    let v = a + seq![x] + b;
    let n = a.len() as int;
    assert(v[n] == x);
    let p = TodoItem { phase: TodoPhase::InProgress, blocked_reason: None, ..x };
    let q = TodoItem { phase: TodoPhase::Completed, blocked_reason: None, ..x };
    let r = TodoItem { phase: TodoPhase::Abandoned, blocked_reason: None, ..x };
    assert(v.update(n, p) =~= a + seq![p] + b);
    assert(v.update(n, q) =~= a + seq![q] + b);
    assert(v.update(n, r) =~= a + seq![r] + b);
}

proof fn words_differ()
    ensures
        "start"@ == seq!['s', 't', 'a', 'r', 't'],
        "done"@ == seq!['d', 'o', 'n', 'e'],
        "drop"@ == seq!['d', 'r', 'o', 'p'],
        "list"@ == seq!['l', 'i', 's', 't'],
        "show"@ == seq!['s', 'h', 'o', 'w'],
        "add"@ == seq!['a', 'd', 'd'],
        "clear"@ == seq!['c', 'l', 'e', 'a', 'r'],
        "rm"@ == seq!['r', 'm'],
{
    reveal_strlit("start");
    reveal_strlit("done");
    reveal_strlit("drop");
    reveal_strlit("list");
    reveal_strlit("show");
    reveal_strlit("add");
    reveal_strlit("clear");
    reveal_strlit("rm");
    assert("start"@ =~= seq!['s', 't', 'a', 'r', 't']);
    assert("done"@ =~= seq!['d', 'o', 'n', 'e']);
    assert("drop"@ =~= seq!['d', 'r', 'o', 'p']);
    assert("list"@ =~= seq!['l', 'i', 's', 't']);
    assert("show"@ =~= seq!['s', 'h', 'o', 'w']);
    assert("add"@ =~= seq!['a', 'd', 'd']);
    assert("clear"@ =~= seq!['c', 'l', 'e', 'a', 'r']);
    assert("rm"@ =~= seq!['r', 'm']);
}

/// What is added stands behind the others, waiting to be begun; clearing leaves nothing; an
/// item that is not there is not moved on.
pub proof fn items_are_added_behind(v: Seq<TodoItem<Seq<char>>>, rest: Seq<char>)
    requires
        rest.len() > 0,
    ensures
        todo_command(v, "add"@, rest) == TodoActionView::Replace(
            v + seq![
                TodoItem {
                    id: Seq::empty(),
                    content: rest,
                    phase: TodoPhase::Pending,
                    blocked_reason: None,
                },
            ],
            TodoNote::Added,
        ),
        todo_command(v, "clear"@, rest) == TodoActionView::Replace(Seq::empty(), TodoNote::Cleared),
        todo_command(v, "list"@, rest) is Show,
        todo_command(v, Seq::empty(), rest) is Show,
        (forall|j: int| 0 <= j < v.len() ==> (#[trigger] v[j]).id != todo_id(rest))
            ==> todo_command(v, "done"@, rest) is Say,
{
    words_differ();
    let x = TodoItem {
        id: Seq::<char>::empty(),
        content: rest,
        phase: TodoPhase::Pending,
        blocked_reason: None::<Seq<char>>,
    };
    assert(v.push(x) =~= v + seq![x]);
    if forall|j: int| 0 <= j < v.len() ==> (#[trigger] v[j]).id != todo_id(rest) {
        no_place(v, todo_id(rest), 0);
    }
}

proof fn no_place(v: Seq<TodoItem<Seq<char>>>, id: Seq<char>, i: int)
    requires
        0 <= i <= v.len(),
        forall|j: int| 0 <= j < v.len() ==> (#[trigger] v[j]).id != id,
    ensures
        id_index(v, id, i) == v.len(),
    decreases v.len() - i,
{
    if i < v.len() {
        assert(v[i].id != id);
        no_place(v, id, i + 1);
    }
}

} // verus!
