//! Structured values: what a JSON or TOML document holds.
use vstd::prelude::*;

use crate::numeral;
use crate::numeral::{dec_text, unsigned_of};
use crate::text::{copy_text, same};

verus! {

/// A value of a document.
#[derive(Debug)]
pub enum Data {
    Null,
    Bool(bool),
    Int(i64),
    /// Any other number, and a date, by its text.
    Other(String),
    Text(String),
    List(Vec<Data>),
    /// Entries in the order of the document, no key occurring twice.
    Table(Vec<(String, Data)>),
}

/// A value of a document, as specifications speak of it.
pub enum DataView {
    Null,
    Bool(bool),
    Int(i64),
    Other(Seq<char>),
    Text(Seq<char>),
    List(Seq<DataView>),
    Table(Seq<(Seq<char>, DataView)>),
}

impl Data {
    pub open spec fn view(&self) -> DataView
        decreases self,
    {
        match self {
            Data::Null => DataView::Null,
            Data::Bool(b) => DataView::Bool(*b),
            Data::Int(n) => DataView::Int(*n),
            Data::Other(s) => DataView::Other(s@),
            Data::Text(s) => DataView::Text(s@),
            Data::List(v) => DataView::List(
                Seq::new(
                    v@.len(),
                    |i: int|
                        if 0 <= i < v@.len() {
                            v@[i].view()
                        } else {
                            DataView::Null
                        },
                ),
            ),
            Data::Table(v) => DataView::Table(
                Seq::new(
                    v@.len(),
                    |i: int|
                        if 0 <= i < v@.len() {
                            (v@[i].0@, v@[i].1.view())
                        } else {
                            (Seq::empty(), DataView::Null)
                        },
                ),
            ),
        }
    }
}

// ── Reading ─────────────────────────────────────────────────────────────────

/// The value of the first entry with the given key.
pub open spec fn entry_value(t: Seq<(Seq<char>, DataView)>, key: Seq<char>) -> Option<DataView>
    decreases t.len(),
{
    if t.len() == 0 {
        None
    } else if t[0].0 == key {
        Some(t[0].1)
    } else {
        entry_value(t.drop_first(), key)
    }
}

/// The value of the last entry with the given key.
pub open spec fn last_value(t: Seq<(Seq<char>, DataView)>, key: Seq<char>) -> Option<DataView>
    decreases t.len(),
{
    if t.len() == 0 {
        None
    } else if t.last().0 == key {
        Some(t.last().1)
    } else {
        last_value(t.drop_last(), key)
    }
}

impl DataView {
    /// The value under a key, in a table.
    pub open spec fn field(self, key: Seq<char>) -> Option<DataView> {
        match self {
            DataView::Table(t) => entry_value(t, key),
            _ => None,
        }
    }

    pub open spec fn text(self) -> Option<Seq<char>> {
        match self {
            DataView::Text(s) => Some(s),
            _ => None,
        }
    }

    /// The number, where it is a natural one that fits.
    pub open spec fn unsigned(self) -> Option<nat> {
        match self {
            DataView::Int(n) => if n >= 0 {
                Some(n as nat)
            } else {
                None
            },
            DataView::Other(s) => numeral::unsigned(s, u64::MAX as nat),
            _ => None,
        }
    }

    pub open spec fn whole(self) -> Option<i64> {
        match self {
            DataView::Int(n) => Some(n),
            _ => None,
        }
    }

    pub open spec fn flag(self) -> Option<bool> {
        match self {
            DataView::Bool(b) => Some(b),
            _ => None,
        }
    }

    /// The text under a key.
    pub open spec fn text_field(self, key: Seq<char>) -> Option<Seq<char>> {
        match self.field(key) {
            Some(v) => v.text(),
            None => None,
        }
    }

    /// The natural number under a key.
    pub open spec fn unsigned_field(self, key: Seq<char>) -> Option<nat> {
        match self.field(key) {
            Some(v) => v.unsigned(),
            None => None,
        }
    }
}

/// The view of an optional value.
pub open spec fn opt_data(o: Option<&Data>) -> Option<DataView> {
    match o {
        Some(d) => Some(d@),
        None => None,
    }
}

impl Data {
    pub fn field(&self, key: &str) -> (r: Option<&Data>)
        ensures
            opt_data(r) == self@.field(key@),
    {
        match self {
            Data::Table(v) => {
                let ghost t = self@->Table_0;
                let mut i: usize = 0;
                assert(t.skip(0) =~= t);
                while i < v.len()
                    invariant
                        i <= v.len(),
                        self@ == DataView::Table(t),
                        t.len() == v.len(),
                        forall|k: int|
                            0 <= k < v.len() ==> (#[trigger] t[k]) == (v@[k].0@, v@[k].1@),
                        entry_value(t, key@) == entry_value(t.skip(i as int), key@),
                    decreases v.len() - i,
                {
                    assert(t.skip(i as int)[0] == t[i as int]);
                    assert(t.skip(i as int).drop_first() =~= t.skip(i + 1));
                    if same(&v[i].0, key) {
                        return Some(&v[i].1);
                    }
                    i = i + 1;
                }
                None
            },
            _ => None,
        }
    }

    pub fn text(&self) -> (r: Option<&str>)
        ensures
            match r {
                Some(s) => self@.text() == Some(s@),
                None => self@.text() is None,
            },
    {
        match self {
            Data::Text(s) => Some(s.as_str()),
            _ => None,
        }
    }

    pub fn unsigned(&self) -> (r: Option<u64>)
        ensures
            match r {
                Some(n) => self@.unsigned() == Some(n as nat),
                None => self@.unsigned() is None,
            },
    {
        match self {
            Data::Int(n) => if *n >= 0 {
                Some(*n as u64)
            } else {
                None
            },
            Data::Other(s) => unsigned_of(s, u64::MAX),
            _ => None,
        }
    }

    pub fn whole(&self) -> (r: Option<i64>)
        ensures
            r == self@.whole(),
    {
        match self {
            Data::Int(n) => Some(*n),
            _ => None,
        }
    }

    pub fn flag(&self) -> (r: Option<bool>)
        ensures
            r == self@.flag(),
    {
        match self {
            Data::Bool(b) => Some(*b),
            _ => None,
        }
    }

    pub fn text_field(&self, key: &str) -> (r: Option<&str>)
        ensures
            match r {
                Some(s) => self@.text_field(key@) == Some(s@),
                None => self@.text_field(key@) is None,
            },
    {
        match self.field(key) {
            Some(v) => v.text(),
            None => None,
        }
    }

    pub fn unsigned_field(&self, key: &str) -> (r: Option<u64>)
        ensures
            match r {
                Some(n) => self@.unsigned_field(key@) == Some(n as nat),
                None => self@.unsigned_field(key@) is None,
            },
    {
        match self.field(key) {
            Some(v) => v.unsigned(),
            None => None,
        }
    }

    /// The same value once more.
    pub fn copy(&self) -> (r: Data)
        ensures
            r@ == self@,
        decreases self,
    {
        match self {
            Data::Null => Data::Null,
            Data::Bool(b) => Data::Bool(*b),
            Data::Int(n) => Data::Int(*n),
            Data::Other(s) => Data::Other(copy_text(s)),
            Data::Text(s) => Data::Text(copy_text(s)),
            Data::List(v) => {
                let mut w: Vec<Data> = Vec::new();
                let mut i: usize = 0;
                while i < v.len()
                    invariant
                        i <= v.len(),
                        w.len() == i,
                        self == Data::List(*v),
                        forall|k: int| 0 <= k < i ==> (#[trigger] w@[k])@ == v@[k]@,
                    decreases v.len() - i,
                {
                    assert(decreases_to!(self->List_0@ => v@[i as int]));
                    w.push(v[i].copy());
                    i = i + 1;
                }
                let r = Data::List(w);
                assert(r@->List_0 =~= self@->List_0);
                r
            },
            Data::Table(v) => {
                let mut w: Vec<(String, Data)> = Vec::new();
                let mut i: usize = 0;
                while i < v.len()
                    invariant
                        i <= v.len(),
                        w.len() == i,
                        self == Data::Table(*v),
                        forall|k: int|
                            0 <= k < i ==> (#[trigger] w@[k]).0@ == v@[k].0@ && w@[k].1@
                                == v@[k].1@,
                    decreases v.len() - i,
                {
                    assert(decreases_to!(self->Table_0@ => v@[i as int]));
                    assert(decreases_to!(v@[i as int] => v@[i as int].1));
                    w.push((copy_text(&v[i].0), v[i].1.copy()));
                    i = i + 1;
                }
                let r = Data::Table(w);
                assert(r@->Table_0 =~= self@->Table_0);
                r
            },
        }
    }
}

// ── Making ──────────────────────────────────────────────────────────────────

/// Entries of a table, as specifications speak of them.
pub open spec fn entry_views(v: Seq<(String, Data)>) -> Seq<(Seq<char>, DataView)> {
    Seq::new(v.len(), |i: int| (v[i].0@, v[i].1@))
}

/// A table with these entries.
pub fn table(v: Vec<(String, Data)>) -> (r: Data)
    ensures
        r@ == DataView::Table(entry_views(v@)),
{
    let r = Data::Table(v);
    assert(r@->Table_0 =~= entry_views(v@));
    r
}

/// A value that is a text.
pub fn text_data(s: &str) -> (r: Data)
    ensures
        r@ == DataView::Text(s@),
{
    Data::Text(copy_text(s))
}

/// A table with one entry.
pub fn table1(k: &str, v: Data) -> (r: Data)
    ensures
        r@ == DataView::Table(seq![(k@, v@)]),
{
    let e = vec![(copy_text(k), v)];
    assert(entry_views(e@) =~= seq![(k@, v@)]);
    table(e)
}

/// A table with two entries.
pub fn table2(k: &str, v: Data, l: &str, w: Data) -> (r: Data)
    ensures
        r@ == DataView::Table(seq![(k@, v@), (l@, w@)]),
{
    let e = vec![(copy_text(k), v), (copy_text(l), w)];
    assert(entry_views(e@) =~= seq![(k@, v@), (l@, w@)]);
    table(e)
}

/// A number that is not negative.
pub open spec fn number(n: u64) -> DataView {
    if n <= i64::MAX {
        DataView::Int(n as i64)
    } else {
        DataView::Other(numeral::dec(n as nat))
    }
}

pub fn number_data(n: u64) -> (r: Data)
    ensures
        r@ == number(n),
{
    if n <= i64::MAX as u64 {
        Data::Int(n as i64)
    } else {
        Data::Other(dec_text(n))
    }
}

/// A number that was made is read back.
pub proof fn number_reads_back(n: u64)
    ensures
        number(n).unsigned() == Some(n as nat),
{
    if n > i64::MAX {
        numeral::unsigned_of_dec(n as nat, u64::MAX as nat);
    }
}

} // verus!
