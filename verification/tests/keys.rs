//! Keys and what they do.
use gyre::keybindings::{
    parse_key, render_key, render_table, resolve, Action, KeyCode, KeyEvent, Modifiers,
};

const NONE: Modifiers = Modifiers { ctrl: false, alt: false, shift: false };
const CTRL: Modifiers = Modifiers { ctrl: true, alt: false, shift: false };
const ALT: Modifiers = Modifiers { ctrl: false, alt: true, shift: false };
const CTRL_ALT: Modifiers = Modifiers { ctrl: true, alt: true, shift: false };

fn one(k: &str, v: &str) -> Vec<(String, String)> {
    vec![(k.to_string(), v.to_string())]
}

#[test]
fn parses_modifiers_named_keys_and_function_keys() {
    assert_eq!(parse_key("ctrl-y").unwrap(), KeyEvent(KeyCode::Char('Y'), CTRL));
    assert_eq!(parse_key("CTRL-L").unwrap(), KeyEvent(KeyCode::Char('L'), CTRL));
    assert_eq!(parse_key("alt-enter").unwrap(), KeyEvent(KeyCode::Enter, ALT));
    assert_eq!(parse_key("f5").unwrap(), KeyEvent(KeyCode::F(5), NONE));
    assert_eq!(parse_key("tab").unwrap(), KeyEvent(KeyCode::Tab, NONE));
    assert_eq!(parse_key("esc").unwrap(), KeyEvent(KeyCode::Esc, NONE));
    assert_eq!(parse_key("alt-ctrl-x").unwrap(), KeyEvent(KeyCode::Char('X'), CTRL_ALT));
    assert!(parse_key("").is_err());
    assert!(parse_key("hyper-x").is_err());
    assert!(parse_key("f13").is_err());
}

#[test]
fn every_action_has_a_unique_parseable_default() {
    let mut seen: Vec<(KeyEvent, Action)> = Vec::new();
    for action in Action::all() {
        if let Some(spec) = action.default_key() {
            let key = parse_key(spec).unwrap_or_else(|e| panic!("{}: {e}", action.wire()));
            assert!(!seen.iter().any(|(k, _)| *k == key), "{spec}");
            seen.push((key, action));
        }
        assert_eq!(Action::from_wire(action.wire()), Some(action));
    }
}

#[test]
fn resolve_applies_overrides_and_reports_bad_input() {
    let r = resolve(&one("app.message.dequeue", "alt-d"));
    let dequeue = r.bindings.iter().find(|b| b.action == Action::Dequeue).unwrap();
    assert_eq!(dequeue.key, KeyEvent(KeyCode::Char('d'), ALT));
    assert!(!r.bindings.iter().any(|b| b.key == KeyEvent(KeyCode::Char('Y'), CTRL)));
    assert!(r.unknown_actions.is_empty() && r.invalid_keys.is_empty());

    let r = resolve(&one("app.clear", "hyper-z"));
    assert_eq!(r.invalid_keys.len(), 1);
    assert!(r
        .bindings
        .iter()
        .any(|b| b.action == Action::Clear && b.key == KeyEvent(KeyCode::Char('L'), CTRL)));

    let r = resolve(&one("app.nope", "ctrl-k"));
    assert_eq!(r.unknown_actions, vec!["app.nope".to_string()]);
    let r = resolve(&one("app.retry", "ctrl-t"));
    let retry = r.bindings.iter().find(|b| b.action == Action::Retry).unwrap();
    assert_eq!(retry.action.inserts(), Some("/retry"));
}

#[test]
fn duplicate_keys_last_action_wins() {
    let r = resolve(&one("app.clear", "ctrl-y"));
    let owners: Vec<Action> = r
        .bindings
        .iter()
        .filter(|b| b.key == KeyEvent(KeyCode::Char('Y'), CTRL))
        .map(|b| b.action)
        .collect();
    assert_eq!(owners, vec![Action::Dequeue]);
    assert!(!r.bindings.iter().any(|b| b.action == Action::Clear));
}

#[test]
fn renders_readable_table_and_keys() {
    let r = resolve(&Vec::new());
    let table = render_table(&r).join("\n");
    assert!(table.contains("Ctrl-Y"), "{table}");
    assert!(table.contains("app.message.dequeue"), "{table}");
    assert!(table.contains("取回排队消息到编辑行"), "{table}");
    assert_eq!(render_key(&KeyEvent(KeyCode::F(5), NONE)), "F5");
    assert_eq!(render_key(&KeyEvent(KeyCode::Char('A'), CTRL_ALT)), "Ctrl-Alt-A");
}

#[test]
fn no_key_has_two_actions() {
    let r = resolve(&vec![
        ("app.clear".to_string(), "f2".to_string()),
        ("app.retry".to_string(), "f2".to_string()),
        ("app.message.dequeue".to_string(), "f2".to_string()),
    ]);
    for (i, a) in r.bindings.iter().enumerate() {
        for b in &r.bindings[i + 1..] {
            assert!(a.key != b.key);
        }
    }
}

#[test]
fn shown_keys_are_read_again() {
    for s in ["Ctrl-Y", "F5", "Ctrl-Alt-A", "Tab"] {
        assert_eq!(render_key(&parse_key(s).unwrap()), s);
    }
}

#[test]
fn the_case_of_a_key_does_not_matter() {
    for (a, b) in [("A", "a"), ("ALT-D", "alt-d"), ("Ctrl-y", "CTRL-Y"), ("F5", "f5"), ("TAB", "tab")] {
        assert_eq!(parse_key(a).unwrap(), parse_key(b).unwrap(), "{a}");
    }
    assert_eq!(parse_key("A").unwrap(), KeyEvent(KeyCode::Char('a'), NONE));
    assert_eq!(parse_key("ALT-D").unwrap(), KeyEvent(KeyCode::Char('d'), ALT));
}
