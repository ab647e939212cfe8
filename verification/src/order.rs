//! The alphabetical order of texts, and lists kept in it.
use vstd::prelude::*;

use crate::text;
use crate::text::{chars_of, copy_text};

verus! {

/// `a` comes before `b`: at the first place where they differ its character is the
/// smaller one, or it is a proper beginning of `b`.
pub open spec fn before(a: Seq<char>, b: Seq<char>) -> bool
    decreases a.len(),
{
    if b.len() == 0 {
        false
    } else if a.len() == 0 {
        true
    } else if a[0] != b[0] {
        a[0] < b[0]
    } else {
        before(a.drop_first(), b.drop_first())
    }
}

/// Of two different texts exactly one comes before the other.
pub proof fn before_is_total(a: Seq<char>, b: Seq<char>)
    ensures
        a == b ==> !before(a, b),
        a != b ==> before(a, b) != before(b, a),
    decreases a.len(),
{
    if a.len() > 0 && b.len() > 0 {
        if a[0] == b[0] {
            before_is_total(a.drop_first(), b.drop_first());
            if a.drop_first() == b.drop_first() {
                assert(a =~= seq![a[0]] + a.drop_first());
                assert(b =~= seq![b[0]] + b.drop_first());
            }
        }
    } else if a.len() == 0 && b.len() == 0 {
        assert(a =~= b);
    }
}

pub proof fn before_is_transitive(a: Seq<char>, b: Seq<char>, c: Seq<char>)
    requires
        before(a, b),
        before(b, c),
    ensures
        before(a, c),
    decreases a.len(),
{
    if a.len() > 0 && a[0] == b[0] && b[0] == c[0] {
        before_is_transitive(a.drop_first(), b.drop_first(), c.drop_first());
    }
}

/// Each text comes before those behind it.
pub open spec fn ascending(s: Seq<Seq<char>>) -> bool {
    forall|i: int, j: int| 0 <= i < j < s.len() ==> before(#[trigger] s[i], #[trigger] s[j])
}

/// `s` lists the texts of `of`, each once, in alphabetical order.
pub open spec fn sorted_set(s: Seq<Seq<char>>, of: Seq<Seq<char>>) -> bool {
    &&& ascending(s)
    &&& forall|x: Seq<char>| #[trigger] s.contains(x) <==> of.contains(x)
}

/// Only one list is the sorted set of given texts.
pub proof fn sorted_set_is_unique(s: Seq<Seq<char>>, t: Seq<Seq<char>>, of: Seq<Seq<char>>)
    requires
        sorted_set(s, of),
        sorted_set(t, of),
    ensures
        s == t,
    decreases s.len(),
{
    if s.len() == 0 {
        if t.len() > 0 {
            assert(t.contains(t[0]));
            assert(s.contains(t[0]));
        }
        assert(s =~= t);
    } else {
        assert(s.contains(s.last()));
        assert(t.contains(s.last()));
        assert(t.len() > 0);
        assert(t.contains(t.last()));
        assert(s.contains(t.last()));
        let i = choose|i: int| 0 <= i < t.len() && t[i] == s.last();
        let j = choose|j: int| 0 <= j < s.len() && s[j] == t.last();
        before_is_total(s.last(), t.last());
        assert(s.last() == t.last()) by {
            if i < t.len() - 1 {
                assert(before(t[i], t[t.len() - 1]));
                if j < s.len() - 1 {
                    assert(before(s[j], s[s.len() - 1]));
                }
            }
        }
        let s1 = s.drop_last();
        let t1 = t.drop_last();
        let rest = s1;
        assert(sorted_set(s1, rest));
        assert(ascending(t1));
        assert forall|x: Seq<char>| #[trigger] t1.contains(x) <==> rest.contains(x) by {
            if t1.contains(x) {
                let k = choose|k: int| 0 <= k < t1.len() && t1[k] == x;
                assert(t[k] == x);
                assert(t.contains(x));
                assert(s.contains(x));
                let m = choose|m: int| 0 <= m < s.len() && s[m] == x;
                before_is_total(x, x);
                assert(before(t[k], t[t.len() - 1]));
                assert(m < s.len() - 1);
                assert(s1[m] == x);
            }
            if rest.contains(x) {
                let k = choose|k: int| 0 <= k < s1.len() && s1[k] == x;
                assert(s[k] == x);
                assert(s.contains(x));
                assert(t.contains(x));
                let m = choose|m: int| 0 <= m < t.len() && t[m] == x;
                before_is_total(x, x);
                assert(before(s[k], s[s.len() - 1]));
                assert(m < t.len() - 1);
                assert(t1[m] == x);
            }
        }
        sorted_set_is_unique(s1, t1, rest);
        assert(s =~= s1.push(s.last()));
        assert(t =~= t1.push(t.last()));
    }
}

/// How two texts stand to each other.
#[derive(Clone, Copy, Debug, PartialEq, Eq, Structural)]
pub enum Place {
    Before,
    Same,
    Behind,
}

pub fn place(a: &str, b: &str) -> (r: Place)
    ensures
        r == (if a@ == b@ {
            Place::Same
        } else if before(a@, b@) {
            Place::Before
        } else {
            Place::Behind
        }),
{
    let v = chars_of(a);
    let w = chars_of(b);
    let mut i: usize = 0;
    assert(v@.skip(0) =~= v@);
    assert(w@.skip(0) =~= w@);
    proof {
        before_is_total(v@, w@);
    }
    while i < v.len() && i < w.len()
        invariant
            i <= v.len(),
            i <= w.len(),
            v@ == a@,
            w@ == b@,
            forall|k: int| 0 <= k < i ==> v@[k] == w@[k],
            before(v@, w@) == before(v@.skip(i as int), w@.skip(i as int)),
        decreases v.len() - i,
    {
        assert(v@.skip(i as int)[0] == v@[i as int]);
        assert(w@.skip(i as int)[0] == w@[i as int]);
        if v[i] != w[i] {
            return if v[i] < w[i] {
                Place::Before
            } else {
                Place::Behind
            };
        }
        assert(v@.skip(i as int).drop_first() =~= v@.skip(i + 1));
        assert(w@.skip(i as int).drop_first() =~= w@.skip(i + 1));
        i = i + 1;
    }
    if v.len() == w.len() {
        assert(v@ =~= w@);
        Place::Same
    } else if i < w.len() {
        Place::Before
    } else {
        Place::Behind
    }
}

/// Puts a text into an ascending list, where it is not there already.
pub fn insert_sorted(list: &mut Vec<String>, s: &str)
    requires
        ascending(text::texts(old(list)@)),
    ensures
        ascending(text::texts(final(list)@)),
        forall|x: Seq<char>|
            #[trigger] text::texts(final(list)@).contains(x) <==> text::texts(old(list)@).contains(
                x,
            ) || x == s@,
{
    let ghost lv = text::texts(list@);
    let mut i: usize = 0;
    while i < list.len()
        invariant
            i <= list.len(),
            *list == *old(list),
            lv == text::texts(list@),
            ascending(lv),
            forall|k: int| 0 <= k < i ==> before(#[trigger] lv[k], s@),
        ensures
            i < list.len() ==> before(s@, lv[i as int]),
        decreases list.len() - i,
    {
        assert(lv[i as int] == list@[i as int]@);
        match place(&list[i], s) {
            Place::Before => {},
            Place::Same => {
                assert(lv.contains(s@));
                return;
            },
            Place::Behind => {
                proof {
                    before_is_total(lv[i as int], s@);
                }
                break;
            },
        }
        i = i + 1;
    }
    let t = copy_text(s);
    list.insert(i, t);
    let ghost nv = text::texts(list@);
    proof {
        assert(nv =~= lv.insert(i as int, s@));
        assert forall|a: int, b: int| 0 <= a < b < nv.len() implies before(
            #[trigger] nv[a],
            #[trigger] nv[b],
        ) by {
            if b < i {
                assert(nv[a] == lv[a] && nv[b] == lv[b]);
            } else if b == i {
                assert(nv[a] == lv[a]);
            } else if a < i {
                assert(nv[a] == lv[a] && nv[b] == lv[b - 1]);
            } else if a == i {
                assert(nv[b] == lv[b - 1]);
                if b - 1 > i {
                    assert(before(lv[i as int], lv[b - 1]));
                    before_is_transitive(s@, lv[i as int], lv[b - 1]);
                }
            } else {
                assert(nv[a] == lv[a - 1] && nv[b] == lv[b - 1]);
            }
        }
        assert forall|x: Seq<char>| #[trigger] nv.contains(x) <==> lv.contains(x) || x == s@ by {
            if nv.contains(x) {
                let k = choose|k: int| 0 <= k < nv.len() && nv[k] == x;
                if k < i {
                    assert(lv[k] == x);
                } else if k > i {
                    assert(lv[k - 1] == x);
                }
            }
            if lv.contains(x) {
                let k = choose|k: int| 0 <= k < lv.len() && lv[k] == x;
                if k < i {
                    assert(nv[k] == x);
                } else {
                    assert(nv[k + 1] == x);
                }
            }
            if x == s@ {
                assert(nv[i as int] == x);
            }
        }
    }
}

/// The texts of a list, each once, in alphabetical order.
pub fn sort_dedup(v: &Vec<String>) -> (r: Vec<String>)
    ensures
        sorted_set(text::texts(r@), text::texts(v@)),
{
    let ghost vv = text::texts(v@);
    let mut r: Vec<String> = Vec::new();
    let mut i: usize = 0;
    assert(text::texts(r@) =~= Seq::<Seq<char>>::empty());
    while i < v.len()
        invariant
            i <= v.len(),
            vv == text::texts(v@),
            sorted_set(text::texts(r@), vv.take(i as int)),
        decreases v.len() - i,
    {
        let ghost rv = text::texts(r@);
        insert_sorted(&mut r, &v[i]);
        proof {
            let s = v@[i as int]@;
            let nv = text::texts(r@);
            let head = vv.take(i + 1);
            assert(head =~= vv.take(i as int).push(s));
            assert forall|x: Seq<char>| #[trigger] nv.contains(x) <==> head.contains(x) by {
                assert(nv.contains(x) <==> rv.contains(x) || x == s);
                assert(rv.contains(x) <==> vv.take(i as int).contains(x));
                if head.contains(x) {
                    let k = choose|k: int| 0 <= k < head.len() && head[k] == x;
                    if k < i {
                        assert(vv.take(i as int)[k] == x);
                    }
                }
                if vv.take(i as int).contains(x) {
                    let k = choose|k: int| 0 <= k < i && vv.take(i as int)[k] == x;
                    assert(head[k] == x);
                }
                if x == s {
                    assert(head[i as int] == x);
                }
            }
        }
        i = i + 1;
    }
    assert(vv.take(i as int) =~= vv);
    r
}

} // verus!
