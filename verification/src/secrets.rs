//! Configuration values on display: looking them up, and hiding the secret ones.
use vstd::prelude::*;

use crate::data;
use crate::data::Data;
use crate::numeral;
use crate::numeral::dec_usize;
use crate::pieces;
use crate::pieces::split_of;
use crate::say;
use crate::say::{msg, Msg};
use crate::text;
use crate::text::{cat, chars_of, copy_text, has_suffix, same, text_of, to_lower_char};

verus! {

/// The last of the parts that is not empty, or nothing.
pub open spec fn last_filled(parts: Seq<Seq<char>>) -> Seq<char>
    decreases parts.len(),
{
    if parts.len() == 0 {
        Seq::empty()
    } else if parts.last().len() > 0 {
        parts.last()
    } else {
        last_filled(parts.drop_last())
    }
}

/// The last part of a dotted key, empty parts being passed over.
pub open spec fn last_part(key: Seq<char>) -> Seq<char> {
    last_filled(pieces::split(key, '.'))
}

/// Names whose values are never shown, in either case.
pub open spec fn is_secret_name(name: Seq<char>) -> bool {
    let last = text::lower(name);
    ||| last == "api_key"@
    ||| last == "api_keys"@
    ||| last == "password"@
    ||| last == "token"@
    ||| last == "secret"@
    ||| last == "access_token"@
    ||| last == "refresh_token"@
    ||| text::ends_with(last, "_key"@)
    ||| text::ends_with(last, "_secret"@)
    ||| text::ends_with(last, "_token"@)
    ||| text::ends_with(last, "_password"@)
}

/// Keys whose values are never shown: by their last part.
pub open spec fn is_secret(key: Seq<char>) -> bool {
    is_secret_name(last_part(key))
}

pub fn lower_of(s: &str) -> (r: String)
    ensures
        r@ == text::lower(s@),
{
    let v = chars_of(s);
    let mut w: Vec<char> = Vec::new();
    let mut i: usize = 0;
    while i < v.len()
        invariant
            i <= v.len(),
            v@ == s@,
            w@ == text::lower(s@).take(i as int),
        decreases v.len() - i,
    {
        w.push(to_lower_char(v[i]));
        i = i + 1;
        assert(w@ =~= text::lower(s@).take(i as int));
    }
    assert(w@ =~= text::lower(s@));
    text_of(&w)
}

fn last_part_of(key: &str) -> (r: String)
    ensures
        r@ == last_part(key@),
{
    let parts = split_of(key, '.');
    let ghost pv = text::texts(parts@);
    let mut i: usize = parts.len();
    assert(pv.take(i as int) =~= pv);
    while i > 0
        invariant
            i <= parts.len(),
            pv == text::texts(parts@),
            last_filled(pv) == last_filled(pv.take(i as int)),
            last_part(key@) == last_filled(pv),
        decreases i,
    {
        i = i - 1;
        assert(pv.take(i + 1).last() == parts@[i as int]@);
        assert(pv.take(i + 1).drop_last() =~= pv.take(i as int));
        if !parts[i].as_str().is_empty() {
            return copy_text(&parts[i]);
        }
    }
    String::new()
}

pub fn is_secret_key(key: &str) -> (r: bool)
    ensures
        r == is_secret(key@),
{
    let l = lower_of(&last_part_of(key));
    same(&l, "api_key") || same(&l, "api_keys") || same(&l, "password") || same(&l, "token")
        || same(&l, "secret") || same(&l, "access_token") || same(&l, "refresh_token")
        || has_suffix(&l, "_key") || has_suffix(&l, "_secret") || has_suffix(&l, "_token")
        || has_suffix(&l, "_password")
}

/// The dotted key of an entry of the table at `path`.
pub open spec fn child_key(path: Seq<char>, k: Seq<char>) -> Seq<char> {
    if path.len() == 0 {
        k
    } else {
        path + "."@ + k
    }
}

/// The key of an item of the list at `path`.
pub open spec fn item_key(path: Seq<char>, i: nat) -> Seq<char> {
    path + "["@ + numeral::dec(i) + "]"@
}

pub open spec fn is_empty_text(v: data::DataView) -> bool {
    v matches data::DataView::Text(s) && s.len() == 0
}

/// What stands for a secret value: nothing for an empty text, else three stars.
pub open spec fn hidden(v: data::DataView) -> data::DataView {
    if is_empty_text(v) {
        v
    } else {
        data::DataView::Text("***"@)
    }
}

/// The value at `path` with every secret in it hidden.
pub open spec fn masked(v: data::DataView, path: Seq<char>) -> data::DataView
    decreases v,
{
    match v {
        data::DataView::Table(t) => data::DataView::Table(
            Seq::new(
                t.len(),
                |i: int|
                    if 0 <= i < t.len() {
                        let key = child_key(path, t[i].0);
                        (
                            t[i].0,
                            if is_secret(key) {
                                hidden(t[i].1)
                            } else {
                                masked(t[i].1, key)
                            },
                        )
                    } else {
                        t[i]
                    },
            ),
        ),
        data::DataView::List(l) => data::DataView::List(
            Seq::new(
                l.len(),
                |i: int|
                    if 0 <= i < l.len() {
                        masked(l[i], item_key(path, i as nat))
                    } else {
                        l[i]
                    },
            ),
        ),
        _ => v,
    }
}

/// The value at `path` holds a secret that is not an empty text.
pub open spec fn holds_secret(v: data::DataView, path: Seq<char>) -> bool
    decreases v,
{
    match v {
        data::DataView::Table(t) => exists|i: int|
            0 <= i < t.len() && {
                let key = child_key(path, (#[trigger] t[i]).0);
                if is_secret(key) {
                    !is_empty_text(t[i].1)
                } else {
                    holds_secret(t[i].1, key)
                }
            },
        data::DataView::List(l) => exists|i: int|
            0 <= i < l.len() && holds_secret(#[trigger] l[i], item_key(path, i as nat)),
        _ => false,
    }
}

/// Every secret in the value at `path` is an empty text or three stars.
pub open spec fn secrets_hidden(v: data::DataView, path: Seq<char>) -> bool
    decreases v,
{
    match v {
        data::DataView::Table(t) => forall|i: int|
            0 <= i < t.len() ==> {
                let key = child_key(path, (#[trigger] t[i]).0);
                if is_secret(key) {
                    is_empty_text(t[i].1) || t[i].1 == data::DataView::Text("***"@)
                } else {
                    secrets_hidden(t[i].1, key)
                }
            },
        data::DataView::List(l) => forall|i: int|
            0 <= i < l.len() ==> secrets_hidden(#[trigger] l[i], item_key(path, i as nat)),
        _ => true,
    }
}

/// No secret is left in a masked value.
pub proof fn masking_hides_every_secret(v: data::DataView, path: Seq<char>)
    ensures
        secrets_hidden(masked(v, path), path),
    decreases v,
{
    match v {
        data::DataView::Table(t) => {
            let m = masked(v, path)->Table_0;
            assert forall|i: int| 0 <= i < m.len() implies {
                let key = child_key(path, (#[trigger] m[i]).0);
                if is_secret(key) {
                    is_empty_text(m[i].1) || m[i].1 == data::DataView::Text("***"@)
                } else {
                    secrets_hidden(m[i].1, key)
                }
            } by {
                let key = child_key(path, t[i].0);
                if !is_secret(key) {
                    assert(decreases_to!(v->Table_0 => t[i]));
                    assert(decreases_to!(t[i] => t[i].1));
                    masking_hides_every_secret(t[i].1, key);
                }
            }
        },
        data::DataView::List(l) => {
            let m = masked(v, path)->List_0;
            assert forall|i: int| 0 <= i < m.len() implies secrets_hidden(
                #[trigger] m[i],
                item_key(path, i as nat),
            ) by {
                assert(decreases_to!(v->List_0 => l[i]));
                masking_hides_every_secret(l[i], item_key(path, i as nat));
            }
        },
        _ => {},
    }
}

/// A value without secrets is shown as it is.
pub proof fn masking_keeps_what_is_not_secret(v: data::DataView, path: Seq<char>)
    requires
        !holds_secret(v, path),
    ensures
        masked(v, path) == v,
    decreases v,
{
    match v {
        data::DataView::Table(t) => {
            let m = masked(v, path)->Table_0;
            assert forall|i: int| 0 <= i < t.len() implies m[i] == t[i] by {
                let key = child_key(path, t[i].0);
                if !is_secret(key) {
                    assert(decreases_to!(v->Table_0 => t[i]));
                    assert(decreases_to!(t[i] => t[i].1));
                    masking_keeps_what_is_not_secret(t[i].1, key);
                }
            }
            assert(m =~= t);
        },
        data::DataView::List(l) => {
            let m = masked(v, path)->List_0;
            assert forall|i: int| 0 <= i < l.len() implies m[i] == l[i] by {
                assert(!holds_secret(l[i], item_key(path, i as nat)));
                assert(decreases_to!(v->List_0 => l[i]));
                masking_keeps_what_is_not_secret(l[i], item_key(path, i as nat));
            }
            assert(m =~= l);
        },
        _ => {},
    }
}

fn child_key_of(path: &str, k: &str) -> (r: String)
    ensures
        r@ == child_key(path@, k@),
{
    if path.is_empty() {
        copy_text(k)
    } else {
        let p = cat(path, ".");
        cat(&p, k)
    }
}

fn item_key_of(path: &str, i: usize) -> (r: String)
    ensures
        r@ == item_key(path@, i as nat),
{
    let p = cat(path, "[");
    let p = cat(&p, &dec_usize(i));
    cat(&p, "]")
}

fn star_out(v: &Data) -> (r: (Data, bool))
    ensures
        r.0@ == hidden(v@),
        r.1 == !is_empty_text(v@),
{
    match v {
        Data::Text(s) => if s.as_str().is_empty() {
            return (v.copy(), false);
        },
        _ => {},
    }
    (Data::Text(copy_text("***")), true)
}

/// Hides every secret in the value at `path`; the flag says whether one was found.
pub fn mask_secrets(value: &Data, path: &str) -> (r: (Data, bool))
    ensures
        r.0@ == masked(value@, path@),
        r.1 == holds_secret(value@, path@),
    decreases value,
{
    match value {
        Data::Table(v) => {
            let ghost t = value@->Table_0;
            let mut w: Vec<(String, Data)> = Vec::new();
            let mut changed: bool = false;
            let mut i: usize = 0;
            while i < v.len()
                invariant
                    i <= v.len(),
                    w.len() == i,
                    value == Data::Table(*v),
                    value@ == data::DataView::Table(t),
                    t.len() == v.len(),
                    forall|k: int| 0 <= k < v.len() ==> (#[trigger] t[k]) == (v@[k].0@, v@[k].1@),
                    forall|k: int|
                        0 <= k < i ==> ((#[trigger] w@[k]).0@, w@[k].1@) == masked(
                            value@,
                            path@,
                        )->Table_0[k],
                    changed <==> exists|k: int|
                        0 <= k < i && {
                            let key = child_key(path@, (#[trigger] t[k]).0);
                            if is_secret(key) {
                                !is_empty_text(t[k].1)
                            } else {
                                holds_secret(t[k].1, key)
                            }
                        },
                decreases v.len() - i,
            {
                assert(t[i as int] == (v@[i as int].0@, v@[i as int].1@));
                let child = child_key_of(path, &v[i].0);
                let (m, c) = if is_secret_key(&child) {
                    star_out(&v[i].1)
                } else {
                    assert(decreases_to!(value->Table_0@ => v@[i as int]));
                    assert(decreases_to!(v@[i as int] => v@[i as int].1));
                    mask_secrets(&v[i].1, &child)
                };
                if c {
                    changed = true;
                }
                w.push((copy_text(&v[i].0), m));
                i = i + 1;
            }
            let r = Data::Table(w);
            assert(r@->Table_0 =~= masked(value@, path@)->Table_0);
            (r, changed)
        },
        Data::List(v) => {
            let ghost l = value@->List_0;
            let mut w: Vec<Data> = Vec::new();
            let mut changed: bool = false;
            let mut i: usize = 0;
            while i < v.len()
                invariant
                    i <= v.len(),
                    w.len() == i,
                    value == Data::List(*v),
                    value@ == data::DataView::List(l),
                    l.len() == v.len(),
                    forall|k: int| 0 <= k < v.len() ==> (#[trigger] l[k]) == v@[k]@,
                    forall|k: int|
                        0 <= k < i ==> (#[trigger] w@[k])@ == masked(value@, path@)->List_0[k],
                    changed <==> exists|k: int|
                        0 <= k < i && holds_secret(#[trigger] l[k], item_key(path@, k as nat)),
                decreases v.len() - i,
            {
                assert(l[i as int] == v@[i as int]@);
                let child = item_key_of(path, i);
                assert(decreases_to!(value->List_0@ => v@[i as int]));
                let (m, c) = mask_secrets(&v[i], &child);
                if c {
                    changed = true;
                }
                w.push(m);
                i = i + 1;
            }
            let r = Data::List(w);
            assert(r@->List_0 =~= masked(value@, path@)->List_0);
            (r, changed)
        },
        _ => (value.copy(), false),
    }
}

// ── config get ──────────────────────────────────────────────────────────────

/// The value that the parts of a key lead to, empty parts being passed over.
pub open spec fn walk(v: data::DataView, parts: Seq<Seq<char>>) -> Option<data::DataView>
    decreases parts.len(),
{
    if parts.len() == 0 {
        Some(v)
    } else if parts[0].len() == 0 {
        walk(v, parts.drop_first())
    } else {
        match v.field(parts[0]) {
            Some(next) => walk(next, parts.drop_first()),
            None => None,
        }
    }
}

/// What `config get` shows of a configuration: the value under the dotted key with its
/// secrets hidden, or that there is none.
pub open spec fn shown(v: data::DataView, key: Seq<char>) -> Result<data::DataView, say::MsgView> {
    match walk(v, pieces::split(key, '.')) {
        None => Err(say::entry("manage.config.get_missing"@).arg("key"@, key)),
        Some(found) => Ok(
            if is_secret(key) {
                hidden(found)
            } else {
                masked(found, key)
            },
        ),
    }
}

proof fn lemma_last_filled(parts: Seq<Seq<char>>, i: int)
    requires
        0 <= i < parts.len(),
        parts[i].len() > 0,
        forall|j: int| i < j < parts.len() ==> (#[trigger] parts[j]).len() == 0,
    ensures
        last_filled(parts) == parts[i],
    decreases parts.len(),
{
    if i < parts.len() - 1 {
        assert(parts[parts.len() - 1].len() == 0);
        lemma_last_filled(parts.drop_last(), i);
    }
}

/// What `config get` shows where the last name on the way is that of a secret never tells
/// the value, however many dots stand in the key.
pub proof fn get_never_tells_a_secret(v: data::DataView, key: Seq<char>, i: int)
    requires
        0 <= i < pieces::split(key, '.').len(),
        pieces::split(key, '.')[i].len() > 0,
        forall|j: int|
            i < j < pieces::split(key, '.').len() ==> (#[trigger] pieces::split(key, '.')[j]).len()
                == 0,
        is_secret_name(pieces::split(key, '.')[i]),
    ensures
        shown(v, key) matches Ok(d) ==> is_empty_text(d) || d == data::DataView::Text("***"@),
{
    lemma_last_filled(pieces::split(key, '.'), i);
}

fn walk_of<'a>(value: &'a Data, parts: &Vec<String>) -> (r: Option<&'a Data>)
    ensures
        data::opt_data(r) == walk(value@, text::texts(parts@)),
{
    let ghost pv = text::texts(parts@);
    let mut cursor: &Data = value;
    let mut i: usize = 0;
    assert(pv.skip(0) =~= pv);
    while i < parts.len()
        invariant
            i <= parts.len(),
            pv == text::texts(parts@),
            walk(value@, pv) == walk(cursor@, pv.skip(i as int)),
        decreases parts.len() - i,
    {
        assert(pv.skip(i as int)[0] == parts@[i as int]@);
        assert(pv.skip(i as int).drop_first() =~= pv.skip(i + 1));
        if !parts[i].as_str().is_empty() {
            match cursor.field(&parts[i]) {
                Some(next) => {
                    cursor = next;
                },
                None => {
                    return None;
                },
            }
        }
        i = i + 1;
    }
    Some(cursor)
}

/// Looks a dotted key up for display.
pub fn config_get(value: &Data, key: &str) -> (r: Result<Data, Msg>)
    ensures
        match r {
            Ok(d) => shown(value@, key@) == Ok::<data::DataView, say::MsgView>(d@),
            Err(m) => shown(value@, key@) == Err::<data::DataView, say::MsgView>(m@),
        },
{
    let parts = split_of(key, '.');
    match walk_of(value, &parts) {
        None => Err(msg("manage.config.get_missing").arg("key", key)),
        Some(found) => if is_secret_key(key) {
            Ok(star_out(found).0)
        } else {
            Ok(mask_secrets(found, key).0)
        },
    }
}

} // verus!
