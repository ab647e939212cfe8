//! Key bindings: the actions, the keys they are bound to, and how keys are written.
use vstd::prelude::*;

use crate::numeral;
use crate::numeral::{dec_text, unsigned_of};
use crate::pieces;
use crate::pieces::split_once_of;
use crate::secrets::lower_of;
use crate::text;
use crate::text::{
    behind, cat, chars_of, copy_text, padded_right, same, to_lower_char, to_upper_char, trimmed,
};

verus! {

// ── Actions ─────────────────────────────────────────────────────────────────

/// What a key can be bound to.
#[derive(Clone, Copy, Debug, PartialEq, Eq, Structural)]
pub enum Action {
    Interrupt,
    Clear,
    Exit,
    HistorySearch,
    Complete,
    Dequeue,
    Retry,
    SessionNew,
    QueueList,
    Settings,
}

/// The actions in the order of the table.
pub open spec fn action_at(i: int) -> Action {
    if i == 0 {
        Action::Interrupt
    } else if i == 1 {
        Action::Clear
    } else if i == 2 {
        Action::Exit
    } else if i == 3 {
        Action::HistorySearch
    } else if i == 4 {
        Action::Complete
    } else if i == 5 {
        Action::Dequeue
    } else if i == 6 {
        Action::Retry
    } else if i == 7 {
        Action::SessionNew
    } else if i == 8 {
        Action::QueueList
    } else {
        Action::Settings
    }
}

pub open spec fn wire_name(a: Action) -> Seq<char> {
    match a {
        Action::Interrupt => "app.interrupt"@,
        Action::Clear => "app.clear"@,
        Action::Exit => "app.exit"@,
        Action::HistorySearch => "app.history.search"@,
        Action::Complete => "app.complete"@,
        Action::Dequeue => "app.message.dequeue"@,
        Action::Retry => "app.retry"@,
        Action::SessionNew => "app.session.new"@,
        Action::QueueList => "app.command.queueList"@,
        Action::Settings => "app.command.settings"@,
    }
}

pub open spec fn usual_key(a: Action) -> Option<Seq<char>> {
    match a {
        Action::Interrupt => Some("ctrl-c"@),
        Action::Clear => Some("ctrl-l"@),
        Action::Exit => Some("ctrl-d"@),
        Action::HistorySearch => Some("ctrl-r"@),
        Action::Complete => Some("tab"@),
        Action::Dequeue => Some("ctrl-y"@),
        _ => None,
    }
}

pub open spec fn inserted(a: Action) -> Option<Seq<char>> {
    match a {
        Action::Retry => Some("/retry"@),
        Action::SessionNew => Some("/new"@),
        Action::QueueList => Some("/queue list"@),
        Action::Settings => Some("/settings"@),
        _ => None,
    }
}

pub open spec fn labelled(a: Action) -> Seq<char> {
    match a {
        Action::Interrupt => "中断当前轮次"@,
        Action::Clear => "清屏（保留上下文）"@,
        Action::Exit => "退出 REPL"@,
        Action::HistorySearch => "历史反向搜索"@,
        Action::Complete => "补全命令/模型/skill"@,
        Action::Dequeue => "取回排队消息到编辑行"@,
        Action::Retry => "插入 /retry（重发最近输入）"@,
        Action::SessionNew => "插入 /new（新会话）"@,
        Action::QueueList => "插入 /queue list（查看队列）"@,
        Action::Settings => "插入 /settings（查看设置）"@,
    }
}

pub open spec fn opt_str(o: Option<&str>) -> Option<Seq<char>> {
    match o {
        Some(s) => Some(s@),
        None => None,
    }
}

impl Action {
    /// All actions, in the order of the table.
    pub fn all() -> (r: Vec<Action>)
        ensures
            r@ == Seq::new(10, |i: int| action_at(i)),
    {
        let r = vec![
            Action::Interrupt,
            Action::Clear,
            Action::Exit,
            Action::HistorySearch,
            Action::Complete,
            Action::Dequeue,
            Action::Retry,
            Action::SessionNew,
            Action::QueueList,
            Action::Settings,
        ];
        assert(r@ =~= Seq::new(10, |i: int| action_at(i)));
        r
    }

    /// The name of the action in a configuration.
    pub fn wire(self) -> (r: &'static str)
        ensures
            r@ == wire_name(self),
    {
        match self {
            Action::Interrupt => "app.interrupt",
            Action::Clear => "app.clear",
            Action::Exit => "app.exit",
            Action::HistorySearch => "app.history.search",
            Action::Complete => "app.complete",
            Action::Dequeue => "app.message.dequeue",
            Action::Retry => "app.retry",
            Action::SessionNew => "app.session.new",
            Action::QueueList => "app.command.queueList",
            Action::Settings => "app.command.settings",
        }
    }

    /// The key that the action has unless another is configured.
    pub fn default_key(self) -> (r: Option<&'static str>)
        ensures
            opt_str(r) == usual_key(self),
    {
        match self {
            Action::Interrupt => Some("ctrl-c"),
            Action::Clear => Some("ctrl-l"),
            Action::Exit => Some("ctrl-d"),
            Action::HistorySearch => Some("ctrl-r"),
            Action::Complete => Some("tab"),
            Action::Dequeue => Some("ctrl-y"),
            _ => None,
        }
    }

    /// The command that the action types.
    pub fn inserts(self) -> (r: Option<&'static str>)
        ensures
            opt_str(r) == inserted(self),
    {
        match self {
            Action::Retry => Some("/retry"),
            Action::SessionNew => Some("/new"),
            Action::QueueList => Some("/queue list"),
            Action::Settings => Some("/settings"),
            _ => None,
        }
    }

    /// What the action does, for people.
    pub fn label(self) -> (r: &'static str)
        ensures
            r@ == labelled(self),
    {
        match self {
            Action::Interrupt => "中断当前轮次",
            Action::Clear => "清屏（保留上下文）",
            Action::Exit => "退出 REPL",
            Action::HistorySearch => "历史反向搜索",
            Action::Complete => "补全命令/模型/skill",
            Action::Dequeue => "取回排队消息到编辑行",
            Action::Retry => "插入 /retry（重发最近输入）",
            Action::SessionNew => "插入 /new（新会话）",
            Action::QueueList => "插入 /queue list（查看队列）",
            Action::Settings => "插入 /settings（查看设置）",
        }
    }

    /// The action of a name.
    pub fn from_wire(name: &str) -> (r: Option<Action>)
        ensures
            match r {
                Some(a) => wire_name(a) == name@,
                None => forall|a: Action| #[trigger] wire_name(a) != name@,
            },
    {
        let all = Action::all();
        let mut i: usize = 0;
        while i < all.len()
            invariant
                i <= all.len(),
                all@ == Seq::new(10, |i: int| action_at(i)),
                forall|k: int| 0 <= k < i ==> wire_name(#[trigger] action_at(k)) != name@,
            decreases all.len() - i,
        {
            assert(all@[i as int] == action_at(i as int));
            if same(all[i].wire(), name) {
                return Some(all[i]);
            }
            i = i + 1;
        }
        proof {
            assert forall|a: Action| #[trigger] wire_name(a) != name@ by {
                let k = action_index(a);
                assert(action_at(k) == a);
            }
        }
        None
    }
}

/// The place of an action in the table.
pub open spec fn action_index(a: Action) -> int {
    match a {
        Action::Interrupt => 0,
        Action::Clear => 1,
        Action::Exit => 2,
        Action::HistorySearch => 3,
        Action::Complete => 4,
        Action::Dequeue => 5,
        Action::Retry => 6,
        Action::SessionNew => 7,
        Action::QueueList => 8,
        Action::Settings => 9,
    }
}

// ── Keys ────────────────────────────────────────────────────────────────────

#[derive(Clone, Copy, Debug, PartialEq, Eq, Structural)]
pub enum KeyCode {
    Char(char),
    F(u8),
    Enter,
    Tab,
    Esc,
    Backspace,
    Delete,
    Insert,
    Up,
    Down,
    Left,
    Right,
    Home,
    End,
    PageUp,
    PageDown,
}

#[derive(Clone, Copy, Debug, PartialEq, Eq, Structural)]
pub struct Modifiers {
    pub ctrl: bool,
    pub alt: bool,
    pub shift: bool,
}

/// A key pressed with modifiers.
#[derive(Clone, Copy, Debug, PartialEq, Eq, Structural)]
pub struct KeyEvent(pub KeyCode, pub Modifiers);

/// The modifiers with the one that a prefix names, where it names one.
pub open spec fn with_modifier(m: Modifiers, head: Seq<char>) -> Option<Modifiers> {
    let h = text::lower(head);
    if h == "ctrl"@ || h == "control"@ {
        Some(Modifiers { ctrl: true, ..m })
    } else if h == "alt"@ || h == "meta"@ || h == "opt"@ || h == "option"@ {
        Some(Modifiers { alt: true, ..m })
    } else if h == "shift"@ {
        Some(Modifiers { shift: true, ..m })
    } else {
        None
    }
}

/// The modifiers at the front of a key, and what is behind them.
pub open spec fn strip_modifiers(s: Seq<char>, m: Modifiers) -> (Seq<char>, Modifiers)
    decreases s.len(),
    via strip_modifiers_decreases
{
    match pieces::split_once(s, '-') {
        Some((head, tail)) => match with_modifier(m, head) {
            Some(n) => strip_modifiers(tail, n),
            None => (s, m),
        },
        None => (s, m),
    }
}

#[via_fn]
proof fn strip_modifiers_decreases(s: Seq<char>, m: Modifiers) {
    pieces::lemma_index_of_char(s, '-');
}

/// The key that a name stands for, in either case; a single character stands for itself, a
/// letter for the small one.
pub open spec fn key_code(s: Seq<char>) -> Option<KeyCode> {
    let n = text::lower(s);
    if n == "enter"@ || n == "return"@ {
        Some(KeyCode::Enter)
    } else if n == "tab"@ {
        Some(KeyCode::Tab)
    } else if n == "esc"@ || n == "escape"@ {
        Some(KeyCode::Esc)
    } else if n == "backspace"@ {
        Some(KeyCode::Backspace)
    } else if n == "delete"@ || n == "del"@ {
        Some(KeyCode::Delete)
    } else if n == "insert"@ {
        Some(KeyCode::Insert)
    } else if n == "up"@ {
        Some(KeyCode::Up)
    } else if n == "down"@ {
        Some(KeyCode::Down)
    } else if n == "left"@ {
        Some(KeyCode::Left)
    } else if n == "right"@ {
        Some(KeyCode::Right)
    } else if n == "home"@ {
        Some(KeyCode::Home)
    } else if n == "end"@ {
        Some(KeyCode::End)
    } else if n == "pageup"@ || n == "pgup"@ {
        Some(KeyCode::PageUp)
    } else if n == "pagedown"@ || n == "pgdn"@ {
        Some(KeyCode::PageDown)
    } else if n == "space"@ {
        Some(KeyCode::Char(' '))
    } else if function_key(n) is Some {
        Some(KeyCode::F(function_key(n)->0))
    } else if s.len() == 1 {
        Some(KeyCode::Char(n[0]))
    } else {
        None
    }
}

/// The number of a function key from `f1` to `f12`.
pub open spec fn function_key(n: Seq<char>) -> Option<u8> {
    match text::after(n, "f"@) {
        Some(d) => match numeral::unsigned(d, 255) {
            Some(k) => if 1 <= k <= 12 {
                Some(k as u8)
            } else {
                None
            },
            None => None,
        },
        None => None,
    }
}

/// With control pressed a letter is taken in upper case.
pub open spec fn control_form(c: KeyCode, m: Modifiers) -> KeyCode {
    match c {
        KeyCode::Char(ch) => if m.ctrl {
            KeyCode::Char(text::upper_char(ch))
        } else {
            c
        },
        _ => c,
    }
}

pub open spec fn no_modifiers() -> Modifiers {
    Modifiers { ctrl: false, alt: false, shift: false }
}

/// The key that a text such as `ctrl-y` stands for, or what is wrong with it.
pub open spec fn key_of(s: Seq<char>) -> Result<KeyEvent, Seq<char>> {
    let t = text::trim(s);
    let (rest, m) = strip_modifiers(t, no_modifiers());
    if t.len() == 0 {
        Err("键位为空"@)
    } else if rest.len() == 0 {
        Err("键位缺少键名: "@ + t)
    } else {
        match key_code(rest) {
            Some(c) => Ok(KeyEvent(control_form(c, m), m)),
            None => Err("未知键名: "@ + t),
        }
    }
}

fn modifier_of(m: Modifiers, head: &str) -> (r: Option<Modifiers>)
    ensures
        r == with_modifier(m, head@),
{
    let h = lower_of(head);
    if same(&h, "ctrl") || same(&h, "control") {
        Some(Modifiers { ctrl: true, alt: m.alt, shift: m.shift })
    } else if same(&h, "alt") || same(&h, "meta") || same(&h, "opt") || same(&h, "option") {
        Some(Modifiers { ctrl: m.ctrl, alt: true, shift: m.shift })
    } else if same(&h, "shift") {
        Some(Modifiers { ctrl: m.ctrl, alt: m.alt, shift: true })
    } else {
        None
    }
}

fn function_key_of(n: &str) -> (r: Option<u8>)
    ensures
        r == function_key(n@),
{
    match behind(n, "f") {
        Some(d) => match unsigned_of(&d, 255) {
            Some(k) => if 1 <= k && k <= 12 {
                Some(k as u8)
            } else {
                None
            },
            None => None,
        },
        None => None,
    }
}

fn key_code_of(s: &str) -> (r: Option<KeyCode>)
    ensures
        r == key_code(s@),
{
    let n = lower_of(s);
    if same(&n, "enter") || same(&n, "return") {
        Some(KeyCode::Enter)
    } else if same(&n, "tab") {
        Some(KeyCode::Tab)
    } else if same(&n, "esc") || same(&n, "escape") {
        Some(KeyCode::Esc)
    } else if same(&n, "backspace") {
        Some(KeyCode::Backspace)
    } else if same(&n, "delete") || same(&n, "del") {
        Some(KeyCode::Delete)
    } else if same(&n, "insert") {
        Some(KeyCode::Insert)
    } else if same(&n, "up") {
        Some(KeyCode::Up)
    } else if same(&n, "down") {
        Some(KeyCode::Down)
    } else if same(&n, "left") {
        Some(KeyCode::Left)
    } else if same(&n, "right") {
        Some(KeyCode::Right)
    } else if same(&n, "home") {
        Some(KeyCode::Home)
    } else if same(&n, "end") {
        Some(KeyCode::End)
    } else if same(&n, "pageup") || same(&n, "pgup") {
        Some(KeyCode::PageUp)
    } else if same(&n, "pagedown") || same(&n, "pgdn") {
        Some(KeyCode::PageDown)
    } else if same(&n, "space") {
        Some(KeyCode::Char(' '))
    } else {
        match function_key_of(&n) {
            Some(k) => Some(KeyCode::F(k)),
            None => {
                let v = chars_of(s);
                if v.len() == 1 {
                    Some(KeyCode::Char(to_lower_char(v[0])))
                } else {
                    None
                }
            },
        }
    }
}

/// Reads a key: modifiers in any order, each followed by a hyphen, and then the key's name
/// or character.
pub fn parse_key(spec_text: &str) -> (r: Result<KeyEvent, String>)
    ensures
        match r {
            Ok(k) => key_of(spec_text@) == Ok::<KeyEvent, Seq<char>>(k),
            Err(e) => key_of(spec_text@) == Err::<KeyEvent, Seq<char>>(e@),
        },
{
    let t = trimmed(spec_text);
    if t.as_str().is_empty() {
        return Err(copy_text("键位为空"));
    }
    let mut m = Modifiers { ctrl: false, alt: false, shift: false };
    let mut rest = copy_text(&t);
    let mut more: bool = true;
    while more
        invariant
            strip_modifiers(t@, no_modifiers()) == strip_modifiers(rest@, m),
            !more ==> strip_modifiers(rest@, m) == (rest@, m),
        decreases rest@.len(), (if more { 1int } else { 0int }),
    {
        more = false;
        proof {
            pieces::lemma_index_of_char(rest@, '-');
        }
        match split_once_of(&rest, '-') {
            Some((head, tail)) => match modifier_of(m, &head) {
                Some(n) => {
                    m = n;
                    rest = tail;
                    more = true;
                },
                None => {},
            },
            None => {},
        }
    }
    if rest.as_str().is_empty() {
        return Err(cat("键位缺少键名: ", &t));
    }
    match key_code_of(&rest) {
        Some(c) => {
            let code = match c {
                KeyCode::Char(ch) => if m.ctrl {
                    KeyCode::Char(to_upper_char(ch))
                } else {
                    c
                },
                _ => c,
            };
            Ok(KeyEvent(code, m))
        },
        None => Err(cat("未知键名: ", &t)),
    }
}

/// The name of a key.
pub open spec fn code_name(c: KeyCode) -> Seq<char> {
    match c {
        KeyCode::Char(ch) => seq![text::upper_char(ch)],
        KeyCode::F(n) => "F"@ + numeral::dec(n as nat),
        KeyCode::Enter => "Enter"@,
        KeyCode::Tab => "Tab"@,
        KeyCode::Esc => "Esc"@,
        KeyCode::Backspace => "Backspace"@,
        KeyCode::Delete => "Delete"@,
        KeyCode::Insert => "Insert"@,
        KeyCode::Up => "↑"@,
        KeyCode::Down => "↓"@,
        KeyCode::Left => "←"@,
        KeyCode::Right => "→"@,
        KeyCode::Home => "Home"@,
        KeyCode::End => "End"@,
        KeyCode::PageUp => "PgUp"@,
        KeyCode::PageDown => "PgDn"@,
    }
}

/// A key as it is shown, the modifiers before it.
pub open spec fn key_name(k: KeyEvent) -> Seq<char> {
    let ctrl = if k.1.ctrl {
        "Ctrl-"@
    } else {
        Seq::empty()
    };
    let alt = if k.1.alt {
        "Alt-"@
    } else {
        Seq::empty()
    };
    let shift = if k.1.shift {
        "Shift-"@
    } else {
        Seq::empty()
    };
    ctrl + alt + shift + code_name(k.0)
}

fn code_name_of(c: KeyCode) -> (r: String)
    ensures
        r@ == code_name(c),
{
    match c {
        KeyCode::Char(ch) => {
            let mut s = String::new();
            s.push(to_upper_char(ch));
            assert(s@ =~= seq![text::upper_char(ch)]);
            s
        },
        KeyCode::F(n) => cat("F", &dec_text(n as u64)),
        KeyCode::Enter => copy_text("Enter"),
        KeyCode::Tab => copy_text("Tab"),
        KeyCode::Esc => copy_text("Esc"),
        KeyCode::Backspace => copy_text("Backspace"),
        KeyCode::Delete => copy_text("Delete"),
        KeyCode::Insert => copy_text("Insert"),
        KeyCode::Up => copy_text("↑"),
        KeyCode::Down => copy_text("↓"),
        KeyCode::Left => copy_text("←"),
        KeyCode::Right => copy_text("→"),
        KeyCode::Home => copy_text("Home"),
        KeyCode::End => copy_text("End"),
        KeyCode::PageUp => copy_text("PgUp"),
        KeyCode::PageDown => copy_text("PgDn"),
    }
}

pub fn render_key(key: &KeyEvent) -> (r: String)
    ensures
        r@ == key_name(*key),
{
    let mut r = String::new();
    if key.1.ctrl {
        r.append("Ctrl-");
    }
    let ghost one = r@;
    if key.1.alt {
        r.append("Alt-");
    }
    let ghost two = r@;
    if key.1.shift {
        r.append("Shift-");
    }
    r.append(&code_name_of(key.0));
    assert(r@ =~= key_name(*key));
    r
}

// ── The table ───────────────────────────────────────────────────────────────

/// A key and the action it is bound to.
#[derive(Clone, Copy, Debug, PartialEq, Eq, Structural)]
pub struct Binding {
    pub action: Action,
    pub key: KeyEvent,
}

/// The keys in effect, and what of the configuration was left out.
#[derive(Debug)]
pub struct Resolved {
    /// In the order of the actions.
    pub bindings: Vec<Binding>,
    /// Names of actions that do not exist.
    pub unknown_actions: Vec<String>,
    /// Actions with a key that cannot be read, and why.
    pub invalid_keys: Vec<(String, String)>,
}

/// The configured text for an action.
pub open spec fn configured(o: Seq<(String, String)>, name: Seq<char>, i: int) -> Option<Seq<char>>
    decreases o.len() - i,
{
    if i < 0 || i >= o.len() {
        None
    } else if o[i].0@ == name {
        Some(o[i].1@)
    } else {
        configured(o, name, i + 1)
    }
}

pub open spec fn usual_event(a: Action) -> Option<KeyEvent> {
    match usual_key(a) {
        Some(s) => match key_of(s) {
            Ok(k) => Some(k),
            Err(_) => None,
        },
        None => None,
    }
}

/// The key of an action: the configured one where it can be read, else the usual one.
pub open spec fn effective(o: Seq<(String, String)>, a: Action) -> Option<KeyEvent> {
    match configured(o, wire_name(a), 0) {
        Some(s) => match key_of(s) {
            Ok(k) => Some(k),
            Err(_) => usual_event(a),
        },
        None => usual_event(a),
    }
}

/// The bindings that are not of the given key.
pub open spec fn without_key(b: Seq<Binding>, k: KeyEvent) -> Seq<Binding>
    decreases b.len(),
{
    if b.len() == 0 {
        b
    } else if b.last().key == k {
        without_key(b.drop_last(), k)
    } else {
        without_key(b.drop_last(), k).push(b.last())
    }
}

/// The bindings of the first `n` actions; where two want one key the later one has it.
pub open spec fn bound(o: Seq<(String, String)>, n: int) -> Seq<Binding>
    decreases n,
{
    if n <= 0 {
        Seq::empty()
    } else {
        match effective(o, action_at(n - 1)) {
            Some(key) => without_key(bound(o, n - 1), key).push(
                Binding { action: action_at(n - 1), key },
            ),
            None => bound(o, n - 1),
        }
    }
}

/// The first `n` actions whose configured key cannot be read, with the errors.
pub open spec fn unreadable(o: Seq<(String, String)>, n: int) -> Seq<(Seq<char>, Seq<char>)>
    decreases n,
{
    if n <= 0 {
        Seq::empty()
    } else {
        let prev = unreadable(o, n - 1);
        match configured(o, wire_name(action_at(n - 1)), 0) {
            Some(s) => match key_of(s) {
                Ok(_) => prev,
                Err(e) => prev.push((wire_name(action_at(n - 1)), e)),
            },
            None => prev,
        }
    }
}

pub open spec fn is_action_name(s: Seq<char>) -> bool {
    exists|a: Action| #[trigger] wire_name(a) == s
}

/// Those of the first `n` configured names that are no action's.
pub open spec fn unknown_names(o: Seq<(String, String)>, n: int) -> Seq<Seq<char>>
    decreases n,
{
    if n <= 0 {
        Seq::empty()
    } else if is_action_name(o[n - 1].0@) {
        unknown_names(o, n - 1)
    } else {
        unknown_names(o, n - 1).push(o[n - 1].0@)
    }
}

pub open spec fn pairs(v: Seq<(String, String)>) -> Seq<(Seq<char>, Seq<char>)> {
    Seq::new(v.len(), |i: int| (v[i].0@, v[i].1@))
}

/// No key has two bindings.
pub open spec fn keys_distinct(b: Seq<Binding>) -> bool {
    forall|i: int, j: int| 0 <= i < j < b.len() ==> (#[trigger] b[i]).key != (#[trigger] b[j]).key
}

proof fn lemma_without_key(b: Seq<Binding>, k: KeyEvent)
    ensures
        forall|i: int|
            0 <= i < without_key(b, k).len() ==> (#[trigger] without_key(b, k)[i]).key != k
                && b.contains(without_key(b, k)[i]),
        keys_distinct(b) ==> keys_distinct(without_key(b, k)),
    decreases b.len(),
{
    if b.len() > 0 {
        let head = b.drop_last();
        let prev = without_key(head, k);
        let all = without_key(b, k);
        lemma_without_key(head, k);
        assert forall|i: int| 0 <= i < all.len() implies (#[trigger] all[i]).key != k && b.contains(
            all[i],
        ) by {
            if i < prev.len() {
                assert(all[i] == prev[i]);
                let m = choose|m: int| 0 <= m < head.len() && head[m] == prev[i];
                assert(b[m] == all[i]);
            } else {
                assert(b[b.len() - 1] == all[i]);
            }
        }
        if keys_distinct(b) {
            assert(keys_distinct(head)) by {
                assert forall|i: int, j: int| 0 <= i < j < head.len() implies (#[trigger] head[i]).key
                    != (#[trigger] head[j]).key by {
                    assert(head[i] == b[i] && head[j] == b[j]);
                }
            }
            assert forall|i: int, j: int| 0 <= i < j < all.len() implies (#[trigger] all[i]).key
                != (#[trigger] all[j]).key by {
                if j < prev.len() {
                    assert(all[i] == prev[i] && all[j] == prev[j]);
                } else {
                    assert(all[i] == prev[i]);
                    let m = choose|m: int| 0 <= m < head.len() && head[m] == prev[i];
                    assert(b[m] == all[i]);
                    assert(b[b.len() - 1] == all[j]);
                }
            }
        }
    }
}

/// Whatever is configured, no key is bound to two actions.
pub proof fn no_key_is_bound_twice(o: Seq<(String, String)>, n: int)
    ensures
        keys_distinct(bound(o, n)),
    decreases n,
{
    if n > 0 {
        no_key_is_bound_twice(o, n - 1);
        match effective(o, action_at(n - 1)) {
            Some(key) => {
                let prev = bound(o, n - 1);
                let kept = without_key(prev, key);
                lemma_without_key(prev, key);
                let all = bound(o, n);
                assert forall|i: int, j: int| 0 <= i < j < all.len() implies (#[trigger] all[i]).key
                    != (#[trigger] all[j]).key by {
                    assert(all[i] == kept[i]);
                    if j < kept.len() {
                        assert(all[j] == kept[j]);
                    }
                }
            },
            None => {},
        }
    }
}

/// The last of the first `n` actions keeps the key that it wants.
pub proof fn later_action_wins(o: Seq<(String, String)>, n: int, key: KeyEvent)
    requires
        n > 0,
        effective(o, action_at(n - 1)) == Some(key),
    ensures
        bound(o, n).last() == (Binding { action: action_at(n - 1), key }),
{
}

fn configured_of<'a>(o: &'a Vec<(String, String)>, name: &str) -> (r: Option<&'a str>)
    ensures
        opt_str(r) == configured(o@, name@, 0),
{
    let mut i: usize = 0;
    while i < o.len()
        invariant
            i <= o.len(),
            configured(o@, name@, 0) == configured(o@, name@, i as int),
        decreases o.len() - i,
    {
        if same(&o[i].0, name) {
            return Some(o[i].1.as_str());
        }
        i = i + 1;
    }
    None
}

fn usual_event_of(a: Action) -> (r: Option<KeyEvent>)
    ensures
        r == usual_event(a),
{
    match a.default_key() {
        Some(s) => match parse_key(s) {
            Ok(k) => Some(k),
            Err(_) => None,
        },
        None => None,
    }
}

fn retain_other_keys(b: &Vec<Binding>, k: KeyEvent) -> (r: Vec<Binding>)
    ensures
        r@ == without_key(b@, k),
{
    let mut r: Vec<Binding> = Vec::new();
    let mut i: usize = 0;
    assert(b@.take(0) =~= Seq::<Binding>::empty());
    while i < b.len()
        invariant
            i <= b.len(),
            r@ == without_key(b@.take(i as int), k),
        decreases b.len() - i,
    {
        assert(b@.take(i + 1).drop_last() =~= b@.take(i as int));
        assert(b@.take(i + 1).last() == b@[i as int]);
        if b[i].key != k {
            r.push(b[i]);
        }
        i = i + 1;
    }
    assert(b@.take(i as int) =~= b@);
    r
}

/// Works the key table out from the configured keys, given as names and texts.
pub fn resolve(overrides: &Vec<(String, String)>) -> (r: Resolved)
    ensures
        r.bindings@ == bound(overrides@, 10),
        keys_distinct(r.bindings@),
        text::texts(r.unknown_actions@) == unknown_names(overrides@, overrides.len() as int),
        pairs(r.invalid_keys@) == unreadable(overrides@, 10),
{
    let all = Action::all();
    let mut bindings: Vec<Binding> = Vec::new();
    let mut invalid: Vec<(String, String)> = Vec::new();
    let mut i: usize = 0;
    assert(pairs(invalid@) =~= Seq::empty());
    while i < all.len()
        invariant
            i <= all.len(),
            all@ == Seq::new(10, |i: int| action_at(i)),
            bindings@ == bound(overrides@, i as int),
            pairs(invalid@) == unreadable(overrides@, i as int),
        decreases all.len() - i,
    {
        let a = all[i];
        assert(a == action_at(i as int));
        let key = match configured_of(overrides, a.wire()) {
            Some(s) => match parse_key(s) {
                Ok(k) => Some(k),
                Err(e) => {
                    let ghost before = invalid@;
                    invalid.push((copy_text(a.wire()), e));
                    assert(pairs(invalid@) =~= pairs(before).push((wire_name(a), e@)));
                    usual_event_of(a)
                },
            },
            None => usual_event_of(a),
        };
        match key {
            Some(k) => {
                bindings = retain_other_keys(&bindings, k);
                bindings.push(Binding { action: a, key: k });
            },
            None => {},
        }
        i = i + 1;
    }
    let mut unknown: Vec<String> = Vec::new();
    let mut j: usize = 0;
    assert(text::texts(unknown@) =~= Seq::<Seq<char>>::empty());
    while j < overrides.len()
        invariant
            j <= overrides.len(),
            text::texts(unknown@) == unknown_names(overrides@, j as int),
        decreases overrides.len() - j,
    {
        match Action::from_wire(&overrides[j].0) {
            Some(a) => {
                assert(wire_name(a) == overrides@[j as int].0@);
            },
            None => {
                let s = copy_text(&overrides[j].0);
                proof {
                    text::lemma_texts_push(unknown@, s);
                }
                unknown.push(s);
            },
        }
        j = j + 1;
    }
    proof {
        no_key_is_bound_twice(overrides@, 10);
    }
    Resolved { bindings, unknown_actions: unknown, invalid_keys: invalid }
}

/// The line on one binding.
pub open spec fn binding_line(b: Binding) -> Seq<char> {
    "  "@ + text::pad_right(key_name(b.key), 10) + " "@ + text::pad_right(wire_name(b.action), 34)
        + " "@ + labelled(b.action)
}

pub open spec fn binding_lines(b: Seq<Binding>, n: int) -> Seq<Seq<char>>
    decreases n,
{
    if n <= 0 {
        Seq::empty()
    } else {
        binding_lines(b, n - 1).push(binding_line(b[n - 1]))
    }
}

pub open spec fn invalid_lines(v: Seq<(String, String)>, n: int) -> Seq<Seq<char>>
    decreases n,
{
    if n <= 0 {
        Seq::empty()
    } else {
        invalid_lines(v, n - 1).push(
            "  （忽略非法键位 "@ + v[n - 1].0@ + ": "@ + v[n - 1].1@ + "）"@,
        )
    }
}

pub open spec fn unknown_lines(v: Seq<String>, n: int) -> Seq<Seq<char>>
    decreases n,
{
    if n <= 0 {
        Seq::empty()
    } else {
        unknown_lines(v, n - 1).push("  （忽略未知动作 "@ + v[n - 1]@ + "）"@)
    }
}

/// The table as it is shown: the bindings, then what was left out.
pub open spec fn table_lines(r: Resolved) -> Seq<Seq<char>> {
    binding_lines(r.bindings@, r.bindings.len() as int) + invalid_lines(
        r.invalid_keys@,
        r.invalid_keys.len() as int,
    ) + unknown_lines(r.unknown_actions@, r.unknown_actions.len() as int)
}

fn push_line(v: &mut Vec<String>, s: String)
    ensures
        text::texts(final(v)@) == text::texts(old(v)@).push(s@),
{
    proof {
        text::lemma_texts_push(v@, s);
    }
    v.push(s);
}

pub fn render_table(resolved: &Resolved) -> (r: Vec<String>)
    ensures
        text::texts(r@) == table_lines(*resolved),
{
    let mut r: Vec<String> = Vec::new();
    let mut i: usize = 0;
    assert(text::texts(r@) =~= Seq::<Seq<char>>::empty());
    while i < resolved.bindings.len()
        invariant
            i <= resolved.bindings.len(),
            text::texts(r@) == binding_lines(resolved.bindings@, i as int),
        decreases resolved.bindings.len() - i,
    {
        let b = resolved.bindings[i];
        let l = cat("  ", &padded_right(&render_key(&b.key), 10));
        let l = cat(&cat(&l, " "), &padded_right(b.action.wire(), 34));
        push_line(&mut r, cat(&cat(&l, " "), b.action.label()));
        i = i + 1;
    }
    let ghost one = text::texts(r@);
    let mut j: usize = 0;
    assert(one + invalid_lines(resolved.invalid_keys@, 0) =~= one);
    while j < resolved.invalid_keys.len()
        invariant
            j <= resolved.invalid_keys.len(),
            text::texts(r@) == one + invalid_lines(resolved.invalid_keys@, j as int),
        decreases resolved.invalid_keys.len() - j,
    {
        let l = cat("  （忽略非法键位 ", &resolved.invalid_keys[j].0);
        let l = cat(&cat(&l, ": "), &resolved.invalid_keys[j].1);
        push_line(&mut r, cat(&l, "）"));
        j = j + 1;
        assert(text::texts(r@) =~= one + invalid_lines(resolved.invalid_keys@, j as int));
    }
    let ghost two = text::texts(r@);
    let mut k: usize = 0;
    assert(two + unknown_lines(resolved.unknown_actions@, 0) =~= two);
    while k < resolved.unknown_actions.len()
        invariant
            k <= resolved.unknown_actions.len(),
            text::texts(r@) == two + unknown_lines(resolved.unknown_actions@, k as int),
        decreases resolved.unknown_actions.len() - k,
    {
        let l = cat("  （忽略未知动作 ", &resolved.unknown_actions[k]);
        push_line(&mut r, cat(&l, "）"));
        k = k + 1;
        assert(text::texts(r@) =~= two + unknown_lines(resolved.unknown_actions@, k as int));
    }
    r
}

/// No two actions have the same name, so an action is read back from its own.
pub proof fn names_tell_actions_apart(a: Action, b: Action)
    ensures
        wire_name(a) == wire_name(b) ==> a == b,
{
    reveal_strlit("app.interrupt");
    reveal_strlit("app.clear");
    reveal_strlit("app.exit");
    reveal_strlit("app.history.search");
    reveal_strlit("app.complete");
    reveal_strlit("app.message.dequeue");
    reveal_strlit("app.retry");
    reveal_strlit("app.session.new");
    reveal_strlit("app.command.queueList");
    reveal_strlit("app.command.settings");
    assert("app.interrupt"@.len() == 13);
    assert("app.clear"@.len() == 9);
    assert("app.exit"@.len() == 8);
    assert("app.history.search"@.len() == 18);
    assert("app.complete"@.len() == 12);
    assert("app.message.dequeue"@.len() == 19);
    assert("app.retry"@.len() == 9);
    assert("app.session.new"@.len() == 15);
    assert("app.command.queueList"@.len() == 21);
    assert("app.command.settings"@.len() == 20);
    assert("app.clear"@[4] == 'c');
    assert("app.retry"@[4] == 'r');
}

proof fn lemma_single(s: Seq<char>, m: Modifiers)
    requires
        s.len() == 1,
        text::is_lower(s[0]),
    ensures
        strip_modifiers(s, m) == (s, m),
        key_code(s) == Some(KeyCode::Char(s[0])),
{
    pieces::lemma_index_of_char(s, '-');
    let n = text::lower(s);
    assert(n =~= s);
    reveal_strlit("enter");
    reveal_strlit("return");
    reveal_strlit("tab");
    reveal_strlit("esc");
    reveal_strlit("escape");
    reveal_strlit("backspace");
    reveal_strlit("delete");
    reveal_strlit("del");
    reveal_strlit("insert");
    reveal_strlit("up");
    reveal_strlit("down");
    reveal_strlit("left");
    reveal_strlit("right");
    reveal_strlit("home");
    reveal_strlit("end");
    reveal_strlit("pageup");
    reveal_strlit("pgup");
    reveal_strlit("pagedown");
    reveal_strlit("pgdn");
    reveal_strlit("space");
    reveal_strlit("f");
    assert(n.len() == 1);
    if text::after(n, "f"@) is Some {
        assert(n.skip(1) =~= Seq::<char>::empty());
    }
}

proof fn lemma_control(s: Seq<char>)
    requires
        s.len() == 6,
        s.take(5) == "ctrl-"@,
        text::is_lower(s[5]),
    ensures
        key_of(s) == Ok::<KeyEvent, Seq<char>>(
            KeyEvent(
                KeyCode::Char(text::upper_char(s[5])),
                Modifiers { ctrl: true, alt: false, shift: false },
            ),
        ),
{
    reveal_strlit("ctrl-");
    reveal_strlit("ctrl");
    assert forall|k: int| 0 <= k < 5 implies s[k] == "ctrl-"@[k] by {
        assert(s.take(5)[k] == s[k]);
    }
    assert(text::trim(s) == s);
    pieces::lemma_index_of_char(s, '-');
    assert(pieces::index_of_char(s, '-') == 4) by {
        let k = pieces::index_of_char(s, '-');
        if k > 4 {
            assert(s[4] != '-');
        }
    }
    let head = s.take(4);
    assert(text::lower(head) =~= "ctrl"@);
    let tail = s.skip(5);
    let m = Modifiers { ctrl: true, alt: false, shift: false };
    assert(with_modifier(no_modifiers(), head) == Some(m));
    lemma_single(tail, m);
    assert(strip_modifiers(s, no_modifiers()) == strip_modifiers(tail, m));
}

proof fn lemma_tab()
    ensures
        key_of("tab"@) == Ok::<KeyEvent, Seq<char>>(KeyEvent(KeyCode::Tab, no_modifiers())),
{
    reveal_strlit("tab");
    reveal_strlit("enter");
    reveal_strlit("return");
    assert(text::trim("tab"@) == "tab"@);
    pieces::lemma_index_of_char("tab"@, '-');
    assert(text::lower("tab"@) =~= "tab"@);
}

/// Every usual key can be read, and no two actions have the same.
pub proof fn usual_keys_are_distinct(a: Action, b: Action)
    ensures
        usual_key(a) is Some ==> usual_event(a) is Some,
        usual_event(a) is Some && usual_event(a) == usual_event(b) ==> a == b,
{
    reveal_strlit("ctrl-");
    reveal_strlit("ctrl-c");
    reveal_strlit("ctrl-l");
    reveal_strlit("ctrl-d");
    reveal_strlit("ctrl-r");
    reveal_strlit("ctrl-y");
    assert("ctrl-c"@.take(5) =~= "ctrl-"@);
    assert("ctrl-l"@.take(5) =~= "ctrl-"@);
    assert("ctrl-d"@.take(5) =~= "ctrl-"@);
    assert("ctrl-r"@.take(5) =~= "ctrl-"@);
    assert("ctrl-y"@.take(5) =~= "ctrl-"@);
    lemma_control("ctrl-c"@);
    lemma_control("ctrl-l"@);
    lemma_control("ctrl-d"@);
    lemma_control("ctrl-r"@);
    lemma_control("ctrl-y"@);
    lemma_tab();
}

/// The same key, or none on either side.
pub open spec fn same_key(a: Result<KeyEvent, Seq<char>>, b: Result<KeyEvent, Seq<char>>) -> bool {
    match (a, b) {
        (Ok(x), Ok(y)) => x == y,
        (Err(_), Err(_)) => true,
        _ => false,
    }
}

proof fn lemma_lower_twice(s: Seq<char>)
    ensures
        text::lower(text::lower(s)) == text::lower(s),
{
    assert(text::lower(text::lower(s)) =~= text::lower(s));
}

proof fn lemma_trim_start_lower(s: Seq<char>)
    ensures
        text::trim_start(text::lower(s)) == text::lower(text::trim_start(s)),
    decreases s.len(),
{
    if s.len() > 0 && text::is_white(s[0]) {
        assert(text::lower(s).drop_first() =~= text::lower(s.drop_first()));
        lemma_trim_start_lower(s.drop_first());
    }
}

proof fn lemma_trim_end_lower(s: Seq<char>)
    ensures
        text::trim_end(text::lower(s)) == text::lower(text::trim_end(s)),
    decreases s.len(),
{
    if s.len() > 0 && text::is_white(s.last()) {
        assert(text::lower(s).drop_last() =~= text::lower(s.drop_last()));
        lemma_trim_end_lower(s.drop_last());
    }
}

proof fn lemma_hyphen_lower(s: Seq<char>)
    ensures
        pieces::index_of_char(text::lower(s), '-') == pieces::index_of_char(s, '-'),
    decreases s.len(),
{
    if s.len() > 0 && s[0] != '-' {
        assert(text::lower(s).drop_first() =~= text::lower(s.drop_first()));
        lemma_hyphen_lower(s.drop_first());
    }
}

proof fn lemma_strip_lower(s: Seq<char>, m: Modifiers)
    ensures
        strip_modifiers(text::lower(s), m) == (
            text::lower(strip_modifiers(s, m).0),
            strip_modifiers(s, m).1,
        ),
    decreases s.len(),
{
    lemma_hyphen_lower(s);
    pieces::lemma_index_of_char(s, '-');
    let k = pieces::index_of_char(s, '-');
    if k < s.len() {
        let head = s.take(k);
        let tail = s.skip(k + 1);
        assert(text::lower(s).take(k) =~= text::lower(head));
        assert(text::lower(s).skip(k + 1) =~= text::lower(tail));
        lemma_lower_twice(head);
        assert(with_modifier(m, text::lower(head)) == with_modifier(m, head));
        if let Some(n) = with_modifier(m, head) {
            lemma_strip_lower(tail, n);
        }
    }
}

proof fn lemma_key_lower(s: Seq<char>)
    ensures
        same_key(key_of(text::lower(s)), key_of(s)),
{
    lemma_trim_start_lower(s);
    lemma_trim_end_lower(text::trim_start(s));
    let t = text::trim(s);
    assert(text::trim(text::lower(s)) == text::lower(t));
    lemma_strip_lower(t, no_modifiers());
    let rest = strip_modifiers(t, no_modifiers()).0;
    lemma_lower_twice(rest);
    assert(key_code(text::lower(rest)) == key_code(rest));
}

/// Two texts that differ only in the case of letters stand for the same key, or for none.
pub proof fn case_does_not_matter(s: Seq<char>, t: Seq<char>)
    requires
        text::lower(s) == text::lower(t),
    ensures
        same_key(key_of(s), key_of(t)),
{
    lemma_key_lower(s);
    lemma_key_lower(t);
}

proof fn others_are_kept(b: Seq<Binding>, k: KeyEvent, x: Binding)
    ensures
        b.contains(x) && x.key != k ==> without_key(b, k).contains(x),
        without_key(b, k).contains(x) ==> b.contains(x) && x.key != k,
    decreases b.len(),
{
    if b.len() > 0 {
        let d = b.drop_last();
        others_are_kept(d, k, x);
        let w = without_key(d, k);
        if b.contains(x) && x.key != k {
            let i = choose|i: int| 0 <= i < b.len() && b[i] == x;
            if i < d.len() {
                assert(d[i] == x);
                let j = choose|j: int| 0 <= j < w.len() && w[j] == x;
                assert(w.push(b.last())[j] == x);
            } else {
                assert(w.push(x)[w.len() as int] == x);
            }
        }
        if without_key(b, k).contains(x) {
            let j = choose|j: int| 0 <= j < without_key(b, k).len() && without_key(b, k)[j] == x;
            if j < w.len() {
                assert(w[j] == x);
                let i = choose|i: int| 0 <= i < d.len() && d[i] == x;
                assert(b[i] == x);
            } else {
                assert(b[b.len() - 1] == x);
            }
        }
    }
}

/// An action has the key that it wants unless a later action wants it too, and a key that is
/// bound is one that its action wants.
pub proof fn actions_have_their_keys(o: Seq<(String, String)>, n: int, i: int, k: KeyEvent)
    requires
        0 <= i < n <= 10,
        forall|j: int| i < j < n ==> #[trigger] effective(o, action_at(j)) != Some(k),
    ensures
        bound(o, n).contains(Binding { action: action_at(i), key: k }) <==> effective(
            o,
            action_at(i),
        ) == Some(k),
    decreases n,
{
    let x = Binding { action: action_at(i), key: k };
    let before = bound(o, n - 1);
    let e = effective(o, action_at(n - 1));
    if i == n - 1 {
        if let Some(key) = e {
            let w = without_key(before, key);
            assert(w.push(Binding { action: action_at(i), key })[w.len() as int] == Binding {
                action: action_at(i),
                key,
            });
            others_are_kept(before, key, x);
        }
        bound_to_earlier(o, n - 1, x);
        if bound(o, n).contains(x) {
            let j = choose|j: int| 0 <= j < bound(o, n).len() && bound(o, n)[j] == x;
            if e is Some {
                let w = without_key(before, e->0);
                if j < w.len() {
                    assert(w[j] == x);
                }
            }
        }
    } else {
        actions_have_their_keys(o, n - 1, i, k);
        assert(e != Some(k));
        if let Some(key) = e {
            let w = without_key(before, key);
            others_are_kept(before, key, x);
            let last = Binding { action: action_at(n - 1), key };
            if w.contains(x) {
                let j = choose|j: int| 0 <= j < w.len() && w[j] == x;
                assert(w.push(last)[j] == x);
            }
            if w.push(last).contains(x) {
                let j = choose|j: int| 0 <= j < w.push(last).len() && w.push(last)[j] == x;
                if j < w.len() {
                    assert(w[j] == x);
                }
            }
        }
    }
}

/// The first `n` actions alone are bound.
proof fn bound_to_earlier(o: Seq<(String, String)>, n: int, x: Binding)
    requires
        0 <= n <= 10,
    ensures
        bound(o, n).contains(x) ==> action_index(x.action) < n,
    decreases n,
{
    if n > 0 {
        bound_to_earlier(o, n - 1, x);
        if bound(o, n).contains(x) {
            let j = choose|j: int| 0 <= j < bound(o, n).len() && bound(o, n)[j] == x;
            if let Some(key) = effective(o, action_at(n - 1)) {
                let w = without_key(bound(o, n - 1), key);
                others_are_kept(bound(o, n - 1), key, x);
                if j < w.len() {
                    assert(w[j] == x);
                } else {
                    assert(x.action == action_at(n - 1));
                }
            }
        }
    }
}

/// The key of an action is the one that is configured for it, where that can be read; else it
/// is the one that it has by itself.
pub proof fn configured_keys_are_used(o: Seq<(String, String)>, a: Action, i: int)
    requires
        0 <= i <= o.len(),
        forall|j: int| 0 <= j < i ==> (#[trigger] o[j]).0@ != wire_name(a),
        i < o.len() ==> o[i].0@ == wire_name(a),
    ensures
        i < o.len() ==> (match key_of(o[i].1@) {
            Ok(k) => effective(o, a) == Some(k),
            Err(_) => effective(o, a) == usual_event(a),
        }),
        i == o.len() ==> effective(o, a) == usual_event(a),
{
    configured_at(o, wire_name(a), 0, i);
}

proof fn configured_at(o: Seq<(String, String)>, name: Seq<char>, j: int, i: int)
    requires
        0 <= j <= i <= o.len(),
        forall|j: int| 0 <= j < i ==> (#[trigger] o[j]).0@ != name,
        i < o.len() ==> o[i].0@ == name,
    ensures
        i < o.len() ==> configured(o, name, j) == Some(o[i].1@),
        i == o.len() ==> configured(o, name, j) is None,
    decreases i - j,
{
    if j < i {
        assert(o[j].0@ != name);
        configured_at(o, name, j + 1, i);
    }
}

proof fn no_name_is_one_letter(n: Seq<char>)
    requires
        n.len() == 1,
    ensures
        n != "enter"@ && n != "return"@ && n != "tab"@ && n != "esc"@ && n != "escape"@,
        n != "backspace"@ && n != "delete"@ && n != "del"@ && n != "insert"@ && n != "up"@,
        n != "down"@ && n != "left"@ && n != "right"@ && n != "home"@ && n != "end"@,
        n != "pageup"@ && n != "pgup"@ && n != "pagedown"@ && n != "pgdn"@ && n != "space"@,
{
    reveal_strlit("enter");
    reveal_strlit("return");
    reveal_strlit("tab");
    reveal_strlit("esc");
    reveal_strlit("escape");
    reveal_strlit("backspace");
    reveal_strlit("delete");
    reveal_strlit("del");
    reveal_strlit("insert");
    reveal_strlit("up");
    reveal_strlit("down");
    reveal_strlit("left");
    reveal_strlit("right");
    reveal_strlit("home");
    reveal_strlit("end");
    reveal_strlit("pageup");
    reveal_strlit("pgup");
    reveal_strlit("pagedown");
    reveal_strlit("pgdn");
    reveal_strlit("space");
}

proof fn letter_is_key(c: char)
    requires
        text::is_letter(c),
    ensures
        key_code(seq![c]) == Some(KeyCode::Char(text::lower_char(c))),
        text::upper_char(text::lower_char(c)) == text::upper_char(c),
        text::lower_char(text::upper_char(c)) == text::lower_char(c),
        text::is_letter(text::upper_char(c)),
        c != '-',
        !text::is_white(c),
{
    let s = seq![c];
    let n = text::lower(s);
    no_name_is_one_letter(n);
    reveal_strlit("f");
    if text::starts_with(n, "f"@) {
        assert(n.skip(1) =~= Seq::<char>::empty());
        assert(numeral::unsigned(n.skip(1), 255) is None);
    }
    assert(function_key(n) is None);
    assert(n[0] == text::lower_char(c));
}

proof fn modifier_goes(head: Seq<char>, low: Seq<char>, rest: Seq<char>, m: Modifiers)
    requires
        text::lower(head) == low,
        !text::has_char(head, '-'),
        with_modifier(m, head) is Some,
    ensures
        strip_modifiers(head + seq!['-'] + rest, m) == strip_modifiers(
            rest,
            with_modifier(m, head)->0,
        ),
{
    pieces::cuts_are_at_the_first_and_last(head, '-', rest);
}

/// A letter with modifiers is read back as it is shown: with control it is a capital, without
/// it a small letter.
pub proof fn letter_keys_read_back(c: char, m: Modifiers)
    requires
        text::is_letter(c),
    ensures
        m.ctrl ==> key_of(key_name(KeyEvent(KeyCode::Char(text::upper_char(c)), m))) == Ok::<
            KeyEvent,
            Seq<char>,
        >(KeyEvent(KeyCode::Char(text::upper_char(c)), m)),
        !m.ctrl ==> key_of(key_name(KeyEvent(KeyCode::Char(text::lower_char(c)), m))) == Ok::<
            KeyEvent,
            Seq<char>,
        >(KeyEvent(KeyCode::Char(text::lower_char(c)), m)),
{
    letter_is_key(c);
    let u = text::upper_char(c);
    letter_is_key(u);
    let e = Seq::<char>::empty();
    reveal_strlit("Ctrl-");
    reveal_strlit("Alt-");
    reveal_strlit("Shift-");
    reveal_strlit("ctrl");
    reveal_strlit("control");
    reveal_strlit("alt");
    reveal_strlit("meta");
    reveal_strlit("opt");
    reveal_strlit("option");
    reveal_strlit("shift");
    let hc = seq!['C', 't', 'r', 'l'];
    let ha = seq!['A', 'l', 't'];
    let hs = seq!['S', 'h', 'i', 'f', 't'];
    assert("Ctrl-"@ =~= hc + seq!['-']);
    assert("Alt-"@ =~= ha + seq!['-']);
    assert("Shift-"@ =~= hs + seq!['-']);
    assert(text::lower(hc) =~= "ctrl"@);
    assert(text::lower(ha) =~= "alt"@);
    assert(text::lower(hs) =~= "shift"@);
    assert("ctrl"@[0] == 'c' && "alt"@[0] == 'a' && "shift"@[0] == 's');
    assert("control"@.len() == 7 && "meta"@[0] == 'm' && "opt"@[0] == 'o' && "option"@[0] == 'o');
    let k = seq![u];
    let m0 = no_modifiers();
    let m1 = Modifiers { ctrl: m.ctrl, ..m0 };
    let m2 = Modifiers { alt: m.alt, ..m1 };
    let m3 = Modifiers { shift: m.shift, ..m2 };
    assert(m3 == m);
    pieces::cuts_are_at_the_first_and_last(k, '-', e);
    assert(!text::has_char(k, '-'));
    assert(strip_modifiers(k, m3) == (k, m3));
    let s3 = (if m.shift {
        "Shift-"@
    } else {
        e
    }) + k;
    if m.shift {
        modifier_goes(hs, "shift"@, k, m2);
    } else {
        assert(s3 =~= k);
    }
    assert(strip_modifiers(s3, m2) == (k, m3));
    let s2 = (if m.alt {
        "Alt-"@
    } else {
        e
    }) + s3;
    if m.alt {
        modifier_goes(ha, "alt"@, s3, m1);
    } else {
        assert(s2 =~= s3);
    }
    assert(strip_modifiers(s2, m1) == (k, m3));
    let s1 = (if m.ctrl {
        "Ctrl-"@
    } else {
        e
    }) + s2;
    if m.ctrl {
        modifier_goes(hc, "ctrl"@, s2, m0);
    } else {
        assert(s1 =~= s2);
    }
    assert(strip_modifiers(s1, m0) == (k, m3));
    let x = KeyEvent(
        KeyCode::Char(
            if m.ctrl {
                u
            } else {
                text::lower_char(c)
            },
        ),
        m,
    );
    assert(text::upper_char(u) == u);
    assert(code_name(x.0) == k);
    assert(key_name(x) =~= s1);
    assert(s1.last() == u);
    assert(!text::is_white(s1[0]));
    text::white_space_around_goes(e, s1, e);
}

} // verus!
