//! What the management commands on the configuration print.
use vstd::prelude::*;

use crate::admin;
use crate::admin::{text_or_of, ModelProfile};
use crate::data;
use crate::data::Data;
use crate::manage;
use crate::numeral;
use crate::numeral::{dec_usize, dec_wide};
use crate::repl;
use crate::say;
use crate::say::{just, msg, Msg, Output, Val};
use crate::secrets;
use crate::secrets::mask_secrets;
use crate::text;
use crate::text::{cat, chars_of, copy_text, has_prefix, has_suffix, same, sub_text, trimmed};

verus! {

/// Names the configuration file, and says where it is missing.
pub fn config_path(path: &str, exists: bool) -> (m: Msg)
    ensures
        m@ == say::entry(
            if exists {
                "manage.config.path"@
            } else {
                "manage.config.path_missing"@
            },
        ).arg("path"@, path@),
{
    if exists {
        msg("manage.config.path").arg("path", path)
    } else {
        msg("manage.config.path_missing").arg("path", path)
    }
}

/// Sums a sound configuration up: how many models, which is the default one, how many
/// servers and tool switches.
pub fn config_check_summary(
    default: &ModelProfile,
    models: usize,
    servers: usize,
    tools: usize,
) -> (m: Msg)
    ensures
        m@ == say::entry("manage.config.check_ok"@).arg(
            "models"@,
            numeral::dec((1 + models) as nat),
        ).arg("default"@, admin::text_or(default.alias, default.id@)).arg(
            "mcp"@,
            numeral::dec(servers as nat),
        ).arg("tools"@, numeral::dec(tools as nat)),
{
    msg("manage.config.check_ok").arg("models", &dec_wide(1 + models as u128)).arg(
        "default",
        &text_or_of(&default.alias, &default.id),
    ).arg("mcp", &dec_usize(servers)).arg("tools", &dec_usize(tools))
}

/// Says why a configuration is not sound.
pub fn config_check_error(error: &str) -> (m: Msg)
    ensures
        m@ == say::entry("manage.config.check_failed"@).arg("error"@, error@),
{
    msg("manage.config.check_failed").arg("error", error)
}

/// Says what became of setting a key: the file it was written to, or the error.
pub fn config_set(key: &str, outcome: &Result<String, String>) -> (m: Msg)
    ensures
        m@ == (match outcome {
            Ok(path) => say::entry("manage.config.set_ok"@).arg("key"@, key@).arg("path"@, path@),
            Err(e) => say::entry("manage.config.set_failed"@).arg("error"@, e@),
        }),
{
    match outcome {
        Ok(path) => msg("manage.config.set_ok").arg("key", key).arg("path", path),
        Err(e) => msg("manage.config.set_failed").arg("error", e),
    }
}

// ── Values as TOML ──────────────────────────────────────────────────────────

#[verifier::external_type_specification]
#[verifier::external_body]
pub struct ExTomlValue(toml::Value);

/// What a value of `toml` holds.
pub uninterp spec fn toml_held(v: toml::Value) -> data::DataView;

/// What a value of `toml` is made of.
pub enum TomlPart {
    Bool(bool),
    Int(i64),
    Text(String),
    List(Vec<toml::Value>),
    Table(Vec<(String, toml::Value)>),
}

/// What some values of `toml` hold.
pub open spec fn all_held(v: Seq<toml::Value>) -> Seq<data::DataView> {
    Seq::new(v.len(), |i: int| toml_held(v[i]))
}

/// What some entries of `toml` hold.
pub open spec fn entries_held(t: Seq<(String, toml::Value)>) -> Seq<(Seq<char>, data::DataView)> {
    Seq::new(t.len(), |i: int| (t[i].0@, toml_held(t[i].1)))
}

/// The entries of a table of `toml` into which these were put one after the other, in the order
/// in which it keeps them.
pub uninterp spec fn table_entries(t: Seq<(Seq<char>, data::DataView)>) -> Seq<
    (Seq<char>, data::DataView),
>;

/// The value that `toml` reads from a text, if it is one.
pub uninterp spec fn read_toml(s: Seq<char>) -> Option<data::DataView>;

/// The variants of `toml::Value`, one for one. Of the values put into a table under one key it
/// keeps the last.
#[verifier::external_body]
fn toml_part(p: TomlPart) -> (r: toml::Value)
    ensures
        match p {
            TomlPart::Bool(b) => toml_held(r) == data::DataView::Bool(b),
            TomlPart::Int(i) => toml_held(r) == data::DataView::Int(i),
            TomlPart::Text(s) => toml_held(r) == data::DataView::Text(s@),
            TomlPart::List(v) => toml_held(r) == data::DataView::List(all_held(v@)),
            TomlPart::Table(t) => {
                &&& toml_held(r) == data::DataView::Table(table_entries(entries_held(t@)))
                &&& forall|k: Seq<char>| #[trigger]
                    toml_held(r).field(k) == data::last_value(entries_held(t@), k)
            },
        },
{
    match p {
        TomlPart::Bool(b) => toml::Value::Boolean(b),
        TomlPart::Int(i) => toml::Value::Integer(i),
        TomlPart::Text(s) => toml::Value::String(s),
        TomlPart::List(v) => toml::Value::Array(v),
        TomlPart::Table(t) => toml::Value::Table(t.into_iter().collect()),
    }
}

/// `toml::Value::from_str`: the value, if the text is one.
#[verifier::external_body]
fn toml_read(s: &str) -> (r: Option<toml::Value>)
    ensures
        match r {
            Some(v) => read_toml(s@) == Some(toml_held(v)),
            None => read_toml(s@) is None,
        },
{
    s.parse::<toml::Value>().ok()
}

/// What a value of `toml` holds once a value of ours has been put into it: the entries of its
/// tables by their keys, other numbers and dates as they are read from their texts, or those
/// texts where they are none, and an empty text for a null, which TOML lacks.
pub open spec fn toml_put(d: data::DataView) -> data::DataView
    decreases d, 1nat,
{
    match d {
        data::DataView::Null => data::DataView::Text(Seq::empty()),
        data::DataView::Other(s) => match read_toml(s) {
            Some(v) => v,
            None => data::DataView::Text(s),
        },
        data::DataView::List(v) => data::DataView::List(
            Seq::new(
                v.len(),
                |i: int|
                    if 0 <= i < v.len() {
                        toml_put(v[i])
                    } else {
                        data::DataView::Null
                    },
            ),
        ),
        data::DataView::Table(t) => data::DataView::Table(table_entries(toml_put_each(t))),
        _ => d,
    }
}

pub open spec fn toml_put_each(t: Seq<(Seq<char>, data::DataView)>) -> Seq<
    (Seq<char>, data::DataView),
>
    decreases t, 0nat,
{
    Seq::new(
        t.len(),
        |i: int|
            if 0 <= i < t.len() {
                (t[i].0, toml_put(t[i].1))
            } else {
                (Seq::empty(), data::DataView::Null)
            },
    )
}

fn toml_value(d: &Data) -> (r: toml::Value)
    ensures
        toml_held(r) == toml_put(d@),
    decreases d,
{
    match d {
        Data::Null => toml_part(TomlPart::Text(String::new())),
        Data::Bool(b) => toml_part(TomlPart::Bool(*b)),
        Data::Int(i) => toml_part(TomlPart::Int(*i)),
        Data::Text(s) => toml_part(TomlPart::Text(copy_text(s))),
        Data::Other(s) => match toml_read(s) {
            Some(v) => v,
            None => toml_part(TomlPart::Text(copy_text(s))),
        },
        Data::List(a) => {
            let ghost l = d@->List_0;
            let mut v: Vec<toml::Value> = Vec::new();
            let mut i: usize = 0;
            while i < a.len()
                invariant
                    i <= a.len(),
                    i == v.len(),
                    d == Data::List(*a),
                    d@ == data::DataView::List(l),
                    l.len() == a.len(),
                    forall|k: int| 0 <= k < a.len() ==> (#[trigger] l[k]) == a@[k]@,
                    forall|k: int| 0 <= k < i ==> toml_held(#[trigger] v@[k]) == toml_put(l[k]),
                decreases a.len() - i,
            {
                assert(l[i as int] == a@[i as int]@);
                assert(decreases_to!(d->List_0@ => a@[i as int]));
                v.push(toml_value(&a[i]));
                i = i + 1;
            }
            assert(toml_put(d@) is List);
            assert(all_held(v@) =~= toml_put(d@)->List_0);
            toml_part(TomlPart::List(v))
        },
        Data::Table(a) => {
            let ghost t = d@->Table_0;
            let mut v: Vec<(String, toml::Value)> = Vec::new();
            let mut i: usize = 0;
            while i < a.len()
                invariant
                    i <= a.len(),
                    i == v.len(),
                    d == Data::Table(*a),
                    d@ == data::DataView::Table(t),
                    t.len() == a.len(),
                    forall|k: int| 0 <= k < a.len() ==> (#[trigger] t[k]) == (a@[k].0@, a@[k].1@),
                    forall|k: int|
                        0 <= k < i ==> ((#[trigger] v@[k]).0@, toml_held(v@[k].1)) == (
                            t[k].0,
                            toml_put(t[k].1),
                        ),
                decreases a.len() - i,
            {
                assert(t[i as int] == (a@[i as int].0@, a@[i as int].1@));
                assert(decreases_to!(d->Table_0@ => a@[i as int]));
                assert(decreases_to!(a@[i as int] => a@[i as int].1));
                v.push((copy_text(&a[i].0), toml_value(&a[i].1)));
                i = i + 1;
            }
            assert(entries_held(v@) =~= toml_put_each(t));
            toml_part(TomlPart::Table(v))
        },
    }
}

/// The TOML document of a value, laid out to be read, if it has one.
pub uninterp spec fn toml_page(d: data::DataView) -> Option<Seq<char>>;

/// The TOML document of a value, if it has one.
pub uninterp spec fn toml_document(d: data::DataView) -> Option<Seq<char>>;

/// A value as it stands inside a TOML document.
pub uninterp spec fn toml_inline(d: data::DataView) -> Seq<char>;

/// `toml::to_string_pretty` of the value.
#[verifier::external_body]
fn write_page(v: &toml::Value) -> (r: Option<String>)
    ensures
        manage::opt_text(r) == toml_page(toml_held(*v)),
{
    toml::to_string_pretty(v).ok()
}

/// `toml::to_string` of the value.
#[verifier::external_body]
fn write_document(v: &toml::Value) -> (r: Option<String>)
    ensures
        manage::opt_text(r) == toml_document(toml_held(*v)),
{
    toml::to_string(v).ok()
}

/// How `toml::Value` shows itself.
#[verifier::external_body]
fn write_inline(v: &toml::Value) -> (r: String)
    ensures
        r@ == toml_inline(toml_held(*v)),
{
    v.to_string()
}

/// The text of a configuration, given its document.
pub open spec fn page_text(page: Option<Seq<char>>) -> Seq<char> {
    match page {
        Some(t) => t,
        None => "（配置序列化失败）"@,
    }
}

/// The text of a configuration, given its document.
pub fn page_text_of(page: Option<String>) -> (r: String)
    ensures
        r@ == page_text(manage::opt_text(page)),
{
    match page {
        Some(t) => t,
        None => copy_text("（配置序列化失败）"),
    }
}

/// A value as it is printed alone: a text as it is, anything else as a document or, where
/// it has none, as it stands inside one; with a line end.
pub open spec fn alone(
    d: data::DataView,
    document: Option<Seq<char>>,
    inline: Seq<char>,
) -> Seq<char> {
    let t = match d {
        data::DataView::Text(s) => s,
        _ => match document {
            Some(x) => x,
            None => inline,
        },
    };
    if text::ends_with(t, "\n"@) {
        t
    } else {
        t + "\n"@
    }
}

/// A value as it is printed alone, given the texts that TOML has for it.
pub fn alone_of(d: &Data, document: Option<String>, inline: String) -> (r: String)
    ensures
        r@ == alone(d@, manage::opt_text(document), inline@),
{
    let t = match d {
        Data::Text(s) => copy_text(s),
        _ => match document {
            Some(x) => x,
            None => inline,
        },
    };
    if has_suffix(&t, "\n") {
        t
    } else {
        cat(&t, "\n")
    }
}

/// A value as it is printed alone.
pub fn value_text(d: &Data) -> (r: String)
    ensures
        r@ == alone(d@, toml_document(toml_put(d@)), toml_inline(toml_put(d@))),
{
    let v = toml_value(d);
    alone_of(d, write_document(&v), write_inline(&v))
}

/// The text of a configuration.
pub fn configuration_text(d: &Data) -> (r: String)
    ensures
        r@ == page_text(toml_page(toml_put(d@))),
{
    page_text_of(write_page(&toml_value(d)))
}

/// The whole configuration for display: a notice where a secret was hidden, and the value
/// with its secrets hidden.
pub fn config_show(value: &Data) -> (r: (Output, Data))
    ensures
        r.0@ == (if secrets::holds_secret(value@, Seq::empty()) {
            say::said(say::entry("manage.config.masked"@))
        } else {
            say::silence()
        }),
        r.1@ == secrets::masked(value@, Seq::empty()),
        secrets::secrets_hidden(r.1@, Seq::empty()),
{
    proof {
        reveal_strlit("");
        assert(""@ =~= Seq::<char>::empty());
        secrets::masking_hides_every_secret(value@, Seq::empty());
    }
    let (shown, found) = mask_secrets(value, "");
    if found {
        (just(msg("manage.config.masked")), shown)
    } else {
        (Output::new(), shown)
    }
}

// ── config keys ─────────────────────────────────────────────────────────────

/// A key that a configuration may hold.
#[derive(Debug)]
pub struct KeyInfo {
    pub path: String,
    pub kind: String,
}

/// The text without the dots at its end.
pub open spec fn trim_dots(s: Seq<char>) -> Seq<char>
    decreases s.len(),
{
    if s.len() > 0 && s.last() == '.' {
        trim_dots(s.drop_last())
    } else {
        s
    }
}

fn trim_dots_of(s: &str) -> (r: String)
    ensures
        r@ == trim_dots(s@),
{
    let v = chars_of(s);
    let mut j: usize = v.len();
    assert(v@.take(j as int) =~= v@);
    while j > 0 && v[j - 1] == '.'
        invariant
            j <= v.len(),
            trim_dots(v@) == trim_dots(v@.take(j as int)),
        decreases j,
    {
        assert(v@.take(j as int).drop_last() =~= v@.take(j - 1));
        j = j - 1;
    }
    let r = sub_text(&v, 0, j);
    assert(r@ =~= v@.take(j as int));
    r
}

/// The key is the prefix itself or lies below it.
pub open spec fn is_under(path: Seq<char>, prefix: Seq<char>) -> bool {
    prefix.len() == 0 || path == prefix || text::starts_with(path, prefix + "."@)
}

pub open spec fn keys_under(keys: Seq<KeyInfo>, prefix: Seq<char>, n: int) -> Seq<say::LineView>
    decreases n,
{
    if n <= 0 {
        Seq::empty()
    } else if is_under(keys[n - 1].path@, prefix) {
        keys_under(keys, prefix, n - 1).push(
            say::LineView::Text(keys[n - 1].path@ + "\t"@ + keys[n - 1].kind@),
        )
    } else {
        keys_under(keys, prefix, n - 1)
    }
}

/// What `config keys` prints: the keys under a prefix with their kinds.
pub open spec fn key_lines(keys: Seq<KeyInfo>, prefix: Option<Seq<char>>) -> Seq<say::LineView> {
    let p = match prefix {
        Some(t) => trim_dots(text::trim(t)),
        None => trim_dots(text::trim(""@)),
    };
    let found = keys_under(keys, p, keys.len() as int);
    if found.len() == 0 {
        say::said(say::entry("manage.config.keys_none"@).arg("prefix"@, p))
    } else {
        found
    }
}

pub fn config_keys(keys: &Vec<KeyInfo>, prefix: Option<&str>) -> (out: Output)
    ensures
        out@ == key_lines(keys@, repl::str_text(prefix)),
{
    let given: &str = match prefix {
        Some(t) => t,
        None => "",
    };
    let p = trim_dots_of(&trimmed(given));
    let dotted = cat(&p, ".");
    let mut out = Output::new();
    let mut i: usize = 0;
    while i < keys.len()
        invariant
            i <= keys.len(),
            dotted@ == p@ + "."@,
            out@ == keys_under(keys@, p@, i as int),
        decreases keys.len() - i,
    {
        let k = &keys[i];
        if p.as_str().is_empty() || same(&k.path, &p) || has_prefix(&k.path, &dotted) {
            out.print(cat(&cat(&k.path, "\t"), &k.kind));
        }
        i = i + 1;
    }
    assert(out.lines.len() == out@.len());
    if out.lines.len() == 0 {
        return just(msg("manage.config.keys_none").arg("prefix", &p));
    }
    out
}

// ── Warnings ────────────────────────────────────────────────────────────────

/// A key that the configuration does not know, and the known one it may stand for.
#[derive(Debug)]
pub struct ConfigWarning {
    pub path: String,
    pub suggestion: Option<String>,
}

pub open spec fn warning_line(w: ConfigWarning) -> say::LineView {
    say::LineView::Msg(
        say::entry("manage.config.check_warning"@).arg("key"@, w.path@).with(
            "suggestion"@,
            match w.suggestion {
                Some(s) => say::entry("manage.config.check_warning_suggest"@).arg(
                    "suggestion"@,
                    s@,
                ).val(),
                None => say::ValView::Text(Seq::empty()),
            },
        ),
    )
}

pub open spec fn warning_lines(ws: Seq<ConfigWarning>, n: int) -> Seq<say::LineView>
    decreases n,
{
    if n <= 0 {
        Seq::empty()
    } else {
        warning_lines(ws, n - 1).push(warning_line(ws[n - 1]))
    }
}

fn warn_all(ws: &Vec<ConfigWarning>, out: &mut Output)
    ensures
        final(out)@ == old(out)@ + warning_lines(ws@, ws.len() as int),
{
    let mut i: usize = 0;
    assert(out@ =~= old(out)@ + warning_lines(ws@, 0));
    while i < ws.len()
        invariant
            i <= ws.len(),
            out@ == old(out)@ + warning_lines(ws@, i as int),
        decreases ws.len() - i,
    {
        let suggestion = match &ws[i].suggestion {
            Some(s) => msg("manage.config.check_warning_suggest").arg("suggestion", s).val(),
            None => Val::Text(String::new()),
        };
        out.say(
            msg("manage.config.check_warning").arg("key", &ws[i].path).with(
                "suggestion",
                suggestion,
            ),
        );
        i = i + 1;
        assert(out@ =~= old(out)@ + warning_lines(ws@, i as int));
    }
}

/// The unknown keys, one line each.
pub fn config_check_warnings(ws: &Vec<ConfigWarning>) -> (out: Output)
    ensures
        out@ == warning_lines(ws@, ws.len() as int),
{
    let mut out = Output::new();
    warn_all(ws, &mut out);
    assert(out@ =~= warning_lines(ws@, ws.len() as int));
    out
}

/// The unknown keys as they are reported at the start: how many, then each; nothing where
/// there is none.
pub fn report_config_warnings(ws: &Vec<ConfigWarning>) -> (out: Output)
    ensures
        out@ == (if ws.len() == 0 {
            say::silence()
        } else {
            say::said(
                say::entry("manage.config.load_warning"@).arg("count"@, numeral::dec(ws@.len())),
            ) + warning_lines(ws@, ws.len() as int)
        }),
{
    if ws.len() == 0 {
        return Output::new();
    }
    let mut out = just(msg("manage.config.load_warning").arg("count", &dec_usize(ws.len())));
    warn_all(ws, &mut out);
    out
}

proof fn keys_of_front(v: Seq<KeyInfo>, x: KeyInfo, p: Seq<char>, n: int)
    requires
        0 <= n <= v.len(),
    ensures
        keys_under(v.push(x), p, n) == keys_under(v, p, n),
    decreases n,
{
    if n > 0 {
        keys_of_front(v, x, p, n - 1);
        assert(v.push(x)[n - 1] == v[n - 1]);
    }
}

/// A key is listed with its kind where it is the prefix or lies below it, and else not; the
/// order is that of the keys.
pub proof fn keys_below_are_listed(v: Seq<KeyInfo>, x: KeyInfo, p: Seq<char>, more: Seq<char>)
    ensures
        ({
            let before = keys_under(v, p, v.len() as int);
            let after = keys_under(v.push(x), p, v.len() as int + 1);
            let line = say::LineView::Text(x.path@ + seq!['\t'] + x.kind@);
            &&& x.path@ == p || x.path@ == p + seq!['.'] + more || p.len() == 0 ==> after
                == before.push(line)
            &&& p.len() > 0 && x.path@.len() >= p.len() && x.path@.take(p.len() as int) != p
                ==> after == before
            &&& x.path@.len() < p.len() ==> after == before
            &&& p.len() > 0 && x.path@.len() > p.len() && x.path@[p.len() as int] != '.' ==> after
                == before
        }),
{
    keys_of_front(v, x, p, v.len() as int);
    reveal_strlit("\t");
    reveal_strlit(".");
    assert("\t"@ =~= seq!['\t']);
    assert("."@ =~= seq!['.']);
    let q = p + "."@;
    let s = x.path@;
    if s == p + seq!['.'] + more {
        assert(s.take(q.len() as int) =~= q);
    }
    if text::starts_with(s, q) {
        assert(s.take(q.len() as int)[p.len() as int] == s[p.len() as int]);
        assert(s.take(p.len() as int) =~= s.take(q.len() as int).take(p.len() as int));
        assert(q.take(p.len() as int) =~= p);
    }
    if s == p {
        assert(s.take(p.len() as int) =~= p);
    }
}

proof fn warnings_hold_each(v: Seq<ConfigWarning>, n: int)
    requires
        0 <= n <= v.len(),
    ensures
        warning_lines(v, n).len() == n,
        forall|i: int| 0 <= i < n ==> #[trigger] warning_lines(v, n)[i] == warning_line(v[i]),
    decreases n,
{
    if n > 0 {
        warnings_hold_each(v, n - 1);
    }
}

/// Every unknown key is reported, in order, with the key that it may stand for.
pub proof fn every_unknown_key_is_reported(v: Seq<ConfigWarning>, i: int)
    requires
        0 <= i < v.len(),
    ensures
        warning_lines(v, v.len() as int).len() == v.len(),
        match warning_lines(v, v.len() as int)[i] {
            say::LineView::Msg(m) => {
                &&& m.args.len() == 2
                &&& m.args[0].1 == say::ValView::Text(v[i].path@)
                &&& match v[i].suggestion {
                    Some(s) => match m.args[1].1 {
                        say::ValView::Entry(_, a) => a.len() == 1 && a[0].1 == say::ValView::Text(
                            s@,
                        ),
                        _ => false,
                    },
                    None => m.args[1].1 == say::ValView::Text(Seq::empty()),
                }
            },
            _ => false,
        },
{
    warnings_hold_each(v, v.len() as int);
}

/// A text is printed as it is, and anything else as its document where it has one; a line end
/// is added where there is none.
pub proof fn values_are_printed_whole(
    d: data::DataView,
    document: Option<Seq<char>>,
    inline: Seq<char>,
    t: Seq<char>,
)
    requires
        d == data::DataView::Text(t) || (!(d is Text) && (document == Some(t) || (document is None
            && inline == t))),
    ensures
        t.len() > 0 && t.last() == '\n' ==> alone(d, document, inline) == t,
        t.len() == 0 || t.last() != '\n' ==> alone(d, document, inline) == t.push('\n'),
{
    reveal_strlit("\n");
    assert("\n"@ =~= seq!['\n']);
    if t.len() > 0 {
        assert(t.skip(t.len() - 1)[0] == t.last());
        assert(t.skip(t.len() - 1) =~= seq![t.last()]);
    }
    assert(t + "\n"@ =~= t.push('\n'));
}

} // verus!
