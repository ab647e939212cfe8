//! JSON: reading and writing values, and texts in quotes.
use serde_json::{Number, Value};
use vstd::prelude::*;

use crate::data;
use crate::data::Data;
use crate::text::copy_text;

verus! {

#[verifier::external_type_specification]
#[verifier::external_body]
pub struct ExValue(Value);

/// What a value of `serde_json` holds.
pub uninterp spec fn value_data(v: Value) -> data::DataView;

/// The value that a JSON text holds, if it is one.
pub uninterp spec fn json_value(t: Seq<char>) -> Option<data::DataView>;

/// The JSON text of a value.
pub uninterp spec fn json_text(d: data::DataView) -> Seq<char>;

/// The JSON text of a value over several lines.
pub uninterp spec fn json_lines(d: data::DataView) -> Seq<char>;

/// `serde_json::from_str` to a `serde_json::Value`.
#[verifier::external_body]
fn read_value(t: &str) -> (r: Option<Value>)
    ensures
        match r {
            Some(v) => json_value(t@) == Some(value_data(v)),
            None => json_value(t@) is None,
        },
{
    serde_json::from_str::<Value>(t).ok()
}

/// The value that a JSON text holds, given by its bytes, if it is one.
pub uninterp spec fn bytes_value(b: Seq<u8>) -> Option<data::DataView>;

/// `serde_json::from_slice` to a `serde_json::Value`.
#[verifier::external_body]
fn read_value_bytes(b: &Vec<u8>) -> (r: Option<Value>)
    ensures
        match r {
            Some(v) => bytes_value(b@) == Some(value_data(v)),
            None => bytes_value(b@) is None,
        },
{
    serde_json::from_slice::<Value>(b).ok()
}

/// The variants of `serde_json::Value`, one for one. A number that is no 64-bit integer is
/// kept by its text.
#[verifier::external_body]
fn data_of(v: Value) -> (r: Data)
    ensures
        r@ == value_data(v),
{
    match v {
        Value::Null => Data::Null,
        Value::Bool(b) => Data::Bool(b),
        Value::Number(n) => match n.as_i64() {
            Some(i) => Data::Int(i),
            None => Data::Other(n.to_string()),
        },
        Value::String(s) => Data::Text(s),
        Value::Array(a) => Data::List(a.into_iter().map(data_of).collect()),
        Value::Object(o) => Data::Table(o.into_iter().map(|(k, x)| (k, data_of(x))).collect()),
    }
}

/// What a value of `serde_json` is made of.
pub enum Part {
    Null,
    Bool(bool),
    Int(i64),
    Text(String),
    List(Vec<Value>),
    Table(Vec<(String, Value)>),
}

/// What some values of `serde_json` hold.
pub open spec fn values_data(v: Seq<Value>) -> Seq<data::DataView> {
    Seq::new(v.len(), |i: int| value_data(v[i]))
}

/// What some entries of `serde_json` hold.
pub open spec fn entries_data(t: Seq<(String, Value)>) -> Seq<(Seq<char>, data::DataView)> {
    Seq::new(t.len(), |i: int| (t[i].0@, value_data(t[i].1)))
}

/// The entries of an object of `serde_json` into which these were put one after the other, in
/// the order in which it keeps them.
pub uninterp spec fn object_entries(t: Seq<(Seq<char>, data::DataView)>) -> Seq<
    (Seq<char>, data::DataView),
>;

/// The number that `serde_json` reads from a text, if it is one.
pub uninterp spec fn read_number(s: Seq<char>) -> Option<data::DataView>;

/// The variants of `serde_json::Value`, one for one. Of the values put into an object under one
/// key it keeps the last.
#[verifier::external_body]
fn value(p: Part) -> (r: Value)
    ensures
        match p {
            Part::Null => value_data(r) == data::DataView::Null,
            Part::Bool(b) => value_data(r) == data::DataView::Bool(b),
            Part::Int(i) => value_data(r) == data::DataView::Int(i),
            Part::Text(s) => value_data(r) == data::DataView::Text(s@),
            Part::List(v) => value_data(r) == data::DataView::List(values_data(v@)),
            Part::Table(t) => {
                &&& value_data(r) == data::DataView::Table(object_entries(entries_data(t@)))
                &&& forall|k: Seq<char>| #[trigger]
                    value_data(r).field(k) == data::last_value(entries_data(t@), k)
            },
        },
{
    match p {
        Part::Null => Value::Null,
        Part::Bool(b) => Value::Bool(b),
        Part::Int(i) => Value::from(i),
        Part::Text(s) => Value::String(s),
        Part::List(v) => Value::Array(v),
        Part::Table(t) => Value::Object(t.into_iter().collect()),
    }
}

/// `serde_json::Number::from_str`: the number, if the text is one.
#[verifier::external_body]
fn number(s: &str) -> (r: Option<Value>)
    ensures
        match r {
            Some(v) => read_number(s@) == Some(value_data(v)),
            None => read_number(s@) is None,
        },
{
    s.parse::<Number>().ok().map(Value::Number)
}

/// What a value of `serde_json` holds once a value of ours has been put into it: the entries
/// of its tables by their keys, and other numbers as they are read from their texts, or null
/// where they are none.
pub open spec fn put_in(d: data::DataView) -> data::DataView
    decreases d, 1nat,
{
    match d {
        data::DataView::Other(s) => match read_number(s) {
            Some(n) => n,
            None => data::DataView::Null,
        },
        data::DataView::List(v) => data::DataView::List(
            Seq::new(
                v.len(),
                |i: int|
                    if 0 <= i < v.len() {
                        put_in(v[i])
                    } else {
                        data::DataView::Null
                    },
            ),
        ),
        data::DataView::Table(t) => data::DataView::Table(object_entries(put_in_each(t))),
        _ => d,
    }
}

pub open spec fn put_in_each(t: Seq<(Seq<char>, data::DataView)>) -> Seq<
    (Seq<char>, data::DataView),
>
    decreases t, 0nat,
{
    Seq::new(
        t.len(),
        |i: int|
            if 0 <= i < t.len() {
                (t[i].0, put_in(t[i].1))
            } else {
                (Seq::empty(), data::DataView::Null)
            },
    )
}

fn value_of(d: &Data) -> (r: Value)
    ensures
        value_data(r) == put_in(d@),
    decreases d,
{
    match d {
        Data::Null => value(Part::Null),
        Data::Bool(b) => value(Part::Bool(*b)),
        Data::Int(i) => value(Part::Int(*i)),
        Data::Text(s) => value(Part::Text(copy_text(s))),
        Data::Other(s) => match number(s) {
            Some(v) => v,
            None => value(Part::Null),
        },
        Data::List(a) => {
            let ghost l = d@->List_0;
            let mut v: Vec<Value> = Vec::new();
            let mut i: usize = 0;
            while i < a.len()
                invariant
                    i <= a.len(),
                    i == v.len(),
                    d == Data::List(*a),
                    d@ == data::DataView::List(l),
                    l.len() == a.len(),
                    forall|k: int| 0 <= k < a.len() ==> (#[trigger] l[k]) == a@[k]@,
                    forall|k: int| 0 <= k < i ==> value_data(#[trigger] v@[k]) == put_in(l[k]),
                decreases a.len() - i,
            {
                assert(l[i as int] == a@[i as int]@);
                assert(decreases_to!(d->List_0@ => a@[i as int]));
                v.push(value_of(&a[i]));
                i = i + 1;
            }
            assert(put_in(d@) is List);
            assert(values_data(v@) =~= put_in(d@)->List_0);
            value(Part::List(v))
        },
        Data::Table(a) => {
            let ghost t = d@->Table_0;
            let mut v: Vec<(String, Value)> = Vec::new();
            let mut i: usize = 0;
            while i < a.len()
                invariant
                    i <= a.len(),
                    i == v.len(),
                    d == Data::Table(*a),
                    d@ == data::DataView::Table(t),
                    t.len() == a.len(),
                    forall|k: int| 0 <= k < a.len() ==> (#[trigger] t[k]) == (a@[k].0@, a@[k].1@),
                    forall|k: int|
                        0 <= k < i ==> ((#[trigger] v@[k]).0@, value_data(v@[k].1)) == (
                            t[k].0,
                            put_in(t[k].1),
                        ),
                decreases a.len() - i,
            {
                assert(t[i as int] == (a@[i as int].0@, a@[i as int].1@));
                assert(decreases_to!(d->Table_0@ => a@[i as int]));
                assert(decreases_to!(a@[i as int] => a@[i as int].1));
                v.push((copy_text(&a[i].0), value_of(&a[i].1)));
                i = i + 1;
            }
            assert(entries_data(v@) =~= put_in_each(t));
            value(Part::Table(v))
        },
    }
}

/// `serde_json::to_string` of a `serde_json::Value`, which never fails.
#[verifier::external_body]
fn write_value(v: &Value) -> (r: String)
    ensures
        r@ == json_text(value_data(*v)),
{
    serde_json::to_string(v).unwrap_or_default()
}

/// `serde_json::to_string_pretty` of a `serde_json::Value`, which never fails.
#[verifier::external_body]
fn write_value_lines(v: &Value) -> (r: String)
    ensures
        r@ == json_lines(value_data(*v)),
{
    serde_json::to_string_pretty(v).unwrap_or_default()
}

/// Reads a JSON text.
pub fn read_json(t: &str) -> (r: Option<Data>)
    ensures
        match r {
            Some(d) => json_value(t@) == Some(d@),
            None => json_value(t@) is None,
        },
{
    match read_value(t) {
        Some(v) => Some(data_of(v)),
        None => None,
    }
}

/// Reads a JSON text given by its bytes.
pub fn read_json_bytes(b: &Vec<u8>) -> (r: Option<Data>)
    ensures
        match r {
            Some(d) => bytes_value(b@) == Some(d@),
            None => bytes_value(b@) is None,
        },
{
    match read_value_bytes(b) {
        Some(v) => Some(data_of(v)),
        None => None,
    }
}

/// Writes a value as JSON.
pub fn write_json(d: &Data) -> (r: String)
    ensures
        r@ == json_text(put_in(d@)),
{
    write_value(&value_of(d))
}

/// Writes a value as JSON over several lines.
pub fn write_json_lines(d: &Data) -> (r: String)
    ensures
        r@ == json_lines(put_in(d@)),
{
    write_value_lines(&value_of(d))
}

// ── Texts in quotes ─────────────────────────────────────────────────────────

/// A digit of base 16.
pub open spec fn hex(n: int) -> char {
    if n < 10 {
        (n + '0' as int) as char
    } else {
        (n - 10 + 'a' as int) as char
    }
}

/// How a character is written inside quotes.
pub open spec fn escaped(c: char) -> Seq<char> {
    if c == '"' {
        seq!['\\', '"']
    } else if c == '\\' {
        seq!['\\', '\\']
    } else if c == '\u{8}' {
        seq!['\\', 'b']
    } else if c == '\t' {
        seq!['\\', 't']
    } else if c == '\n' {
        seq!['\\', 'n']
    } else if c == '\u{c}' {
        seq!['\\', 'f']
    } else if c == '\r' {
        seq!['\\', 'r']
    } else if c <= '\u{1f}' {
        seq!['\\', 'u', '0', '0', hex(c as int / 16), hex(c as int % 16)]
    } else {
        seq![c]
    }
}

pub open spec fn all_escaped(s: Seq<char>) -> Seq<char>
    decreases s.len(),
{
    if s.len() == 0 {
        Seq::empty()
    } else {
        escaped(s[0]) + all_escaped(s.skip(1))
    }
}

/// A text as a JSON string.
pub open spec fn quoted(s: Seq<char>) -> Seq<char> {
    seq!['"'] + all_escaped(s) + seq!['"']
}

/// `serde_json::to_string` of a text, which never fails: the text in quotes, with the
/// quotes, backslashes and control characters in it escaped.
#[verifier::external_body]
fn write_text(s: &str) -> (r: String)
    ensures
        r@ == quoted(s@),
{
    serde_json::to_string(s).unwrap_or_default()
}

/// A text as a string literal of JavaScript.
pub fn js_string(s: &str) -> (r: String)
    ensures
        r@ == quoted(s@),
{
    write_text(s)
}

/// The value of a digit of base 16.
pub open spec fn hex_value(c: char) -> int {
    if '0' <= c <= '9' {
        c as int - '0' as int
    } else {
        c as int - 'a' as int + 10
    }
}

/// The first character that the inside of a string literal stands for, and how many
/// characters it takes.
pub open spec fn first_read(s: Seq<char>) -> (char, int) {
    if s[0] != '\\' {
        (s[0], 1)
    } else if s[1] == 'b' {
        ('\u{8}', 2)
    } else if s[1] == 't' {
        ('\t', 2)
    } else if s[1] == 'n' {
        ('\n', 2)
    } else if s[1] == 'f' {
        ('\u{c}', 2)
    } else if s[1] == 'r' {
        ('\r', 2)
    } else if s[1] == 'u' {
        ((hex_value(s[4]) * 16 + hex_value(s[5])) as char, 6)
    } else {
        (s[1], 2)
    }
}

/// The inside of a string literal stands for a text.
pub open spec fn stands_for(s: Seq<char>, t: Seq<char>) -> bool
    decreases t.len(),
{
    if t.len() == 0 {
        s.len() == 0
    } else {
        &&& s.len() > 0
        &&& s[0] != '"'
        &&& first_read(s).0 == t[0]
        &&& first_read(s).1 <= s.len()
        &&& stands_for(s.skip(first_read(s).1), t.skip(1))
    }
}

proof fn escape_reads_back(c: char, rest: Seq<char>)
    ensures
        (escaped(c) + rest)[0] != '"',
        first_read(escaped(c) + rest) == (c, escaped(c).len() as int),
{
    let e = escaped(c);
    let all = e + rest;
    assert(all[0] == e[0]);
    if c <= '\u{1f}' {
        let n = c as int;
        assert(0 <= n <= 31);
        assert(0 <= n / 16 < 2);
        assert(0 <= n % 16 < 16);
        assert(n == (n / 16) * 16 + n % 16);
        assert(hex_value(hex(n / 16)) == n / 16);
        assert(hex_value(hex(n % 16)) == n % 16);
    }
    if e.len() > 1 {
        assert(all[1] == e[1]);
    }
    if e.len() == 6 {
        assert(all[4] == e[4]);
        assert(all[5] == e[5]);
    }
}

/// Whatever the text, its literal stands for that text and for nothing else: no quote in
/// the text ends it.
pub proof fn literal_stands_for_its_text(s: Seq<char>)
    ensures
        stands_for(all_escaped(s), s),
    decreases s.len(),
{
    if s.len() > 0 {
        literal_stands_for_its_text(s.skip(1));
        let e = escaped(s[0]);
        let all = all_escaped(s);
        assert(all == e + all_escaped(s.skip(1)));
        escape_reads_back(s[0], all_escaped(s.skip(1)));
        assert(all.skip(e.len() as int) =~= all_escaped(s.skip(1)));
    }
}

} // verus!
