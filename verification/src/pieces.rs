//! Cutting text into words, lines and fields, and joining pieces again.
use vstd::prelude::*;

use crate::text;
use crate::text::{chars_of, copy_text, sub_text, text_of, white};

verus! {

// ── Words ───────────────────────────────────────────────────────────────────

/// The words of `s`, with `cur` being the characters of the word already begun.
pub open spec fn words_acc(cur: Seq<char>, s: Seq<char>) -> Seq<Seq<char>>
    decreases s.len(),
{
    let done = if cur.len() == 0 {
        Seq::<Seq<char>>::empty()
    } else {
        seq![cur]
    };
    if s.len() == 0 {
        done
    } else if text::is_white(s[0]) {
        done + words_acc(Seq::empty(), s.drop_first())
    } else {
        words_acc(cur.push(s[0]), s.drop_first())
    }
}

/// The maximal runs of characters that are not white space.
pub open spec fn words(s: Seq<char>) -> Seq<Seq<char>> {
    words_acc(Seq::empty(), s)
}

/// A piece that is not empty and holds no white space.
pub open spec fn is_word(w: Seq<char>) -> bool {
    &&& w.len() > 0
    &&& forall|k: int| 0 <= k < w.len() ==> !text::is_white(#[trigger] w[k])
}

/// What stands before the first white space is the first word.
pub proof fn lemma_first_word(s: Seq<char>, n: int)
    requires
        0 < n <= s.len(),
        forall|k: int| 0 <= k < n ==> !text::is_white(#[trigger] s[k]),
        n < s.len() ==> text::is_white(s[n]),
    ensures
        words(s).len() > 0,
        words(s)[0] == s.take(n),
{
    lemma_word_begun(Seq::empty(), s, n);
    assert(Seq::<char>::empty() + s.take(n) =~= s.take(n));
}

proof fn lemma_word_begun(cur: Seq<char>, s: Seq<char>, n: int)
    requires
        0 <= n <= s.len(),
        cur.len() + n > 0,
        forall|k: int| 0 <= k < n ==> !text::is_white(#[trigger] s[k]),
        n < s.len() ==> text::is_white(s[n]),
    ensures
        words_acc(cur, s).len() > 0,
        words_acc(cur, s)[0] == cur + s.take(n),
    decreases n,
{
    if n == 0 {
        assert(cur + s.take(0) =~= cur);
    } else {
        let d = s.drop_first();
        assert forall|k: int| 0 <= k < n - 1 implies !text::is_white(#[trigger] d[k]) by {
            assert(d[k] == s[k + 1]);
        }
        lemma_word_begun(cur.push(s[0]), d, n - 1);
        assert(cur.push(s[0]) + d.take(n - 1) =~= cur + s.take(n));
    }
}

/// No word is empty and none holds white space.
pub proof fn lemma_words_are_words(cur: Seq<char>, s: Seq<char>)
    requires
        forall|k: int| 0 <= k < cur.len() ==> !text::is_white(#[trigger] cur[k]),
    ensures
        forall|i: int|
            0 <= i < words_acc(cur, s).len() ==> is_word(#[trigger] words_acc(cur, s)[i]),
    decreases s.len(),
{
    if s.len() == 0 {
        if cur.len() > 0 {
            assert(is_word(cur));
            assert(words_acc(cur, s) =~= seq![cur]);
        }
    } else if text::is_white(s[0]) {
        let rest = words_acc(Seq::empty(), s.drop_first());
        lemma_words_are_words(Seq::empty(), s.drop_first());
        assert forall|i: int| 0 <= i < words_acc(cur, s).len() implies is_word(
            #[trigger] words_acc(cur, s)[i],
        ) by {
            if cur.len() == 0 {
                assert(words_acc(cur, s)[i] == rest[i]);
            } else if i > 0 {
                assert(words_acc(cur, s)[i] == rest[i - 1]);
            }
        }
    } else {
        lemma_words_are_words(cur.push(s[0]), s.drop_first());
        assert(words_acc(cur, s) == words_acc(cur.push(s[0]), s.drop_first()));
    }
}

pub fn words_of(s: &str) -> (r: Vec<String>)
    ensures
        text::texts(r@) == words(s@),
{
    let v = chars_of(s);
    let mut r: Vec<String> = Vec::new();
    let mut start: usize = 0;
    let mut i: usize = 0;
    assert(v@.skip(0) =~= v@);
    assert(v@.subrange(0, 0) =~= Seq::<char>::empty());
    assert(text::texts(r@) =~= Seq::<Seq<char>>::empty());
    assert(words(v@) =~= text::texts(r@) + words_acc(Seq::empty(), v@));
    while i < v.len()
        invariant
            start <= i <= v.len(),
            words(v@) == text::texts(r@) + words_acc(
                v@.subrange(start as int, i as int),
                v@.skip(i as int),
            ),
        decreases v.len() - i,
    {
        let ghost cur = v@.subrange(start as int, i as int);
        let ghost rest = v@.skip(i as int);
        assert(rest.drop_first() =~= v@.skip(i + 1));
        assert(rest[0] == v@[i as int]);
        let ghost before = text::texts(r@);
        if white(v[i]) {
            if start < i {
                let w = sub_text(&v, start, i);
                proof {
                    text::lemma_texts_push(r@, w);
                }
                r.push(w);
                assert(text::texts(r@) =~= before + seq![cur]);
            }
            start = i + 1;
            assert(v@.subrange(start as int, i + 1) =~= Seq::<char>::empty());
            assert(words(v@) =~= text::texts(r@) + words_acc(Seq::empty(), v@.skip(i + 1)));
        } else {
            assert(v@.subrange(start as int, i + 1) =~= cur.push(v@[i as int]));
        }
        i = i + 1;
    }
    let ghost before = text::texts(r@);
    assert(v@.skip(i as int) =~= Seq::<char>::empty());
    if start < i {
        let w = sub_text(&v, start, i);
        proof {
            text::lemma_texts_push(r@, w);
        }
        r.push(w);
    }
    assert(text::texts(r@) =~= words(v@));
    r
}

// ── Fields ──────────────────────────────────────────────────────────────────

pub open spec fn split_acc(cur: Seq<char>, s: Seq<char>, sep: char) -> Seq<Seq<char>>
    decreases s.len(),
{
    if s.len() == 0 {
        seq![cur]
    } else if s[0] == sep {
        seq![cur] + split_acc(Seq::empty(), s.drop_first(), sep)
    } else {
        split_acc(cur.push(s[0]), s.drop_first(), sep)
    }
}

/// The fields between the occurrences of `sep`: one more than there are occurrences.
pub open spec fn split(s: Seq<char>, sep: char) -> Seq<Seq<char>> {
    split_acc(Seq::empty(), s, sep)
}

pub proof fn lemma_split_nonempty(cur: Seq<char>, s: Seq<char>, sep: char)
    ensures
        split_acc(cur, s, sep).len() >= 1,
    decreases s.len(),
{
    if s.len() > 0 {
        if s[0] == sep {
            lemma_split_nonempty(Seq::empty(), s.drop_first(), sep);
        } else {
            lemma_split_nonempty(cur.push(s[0]), s.drop_first(), sep);
        }
    }
}

pub fn split_of(s: &str, sep: char) -> (r: Vec<String>)
    ensures
        text::texts(r@) == split(s@, sep),
        r.len() >= 1,
{
    let v = chars_of(s);
    let mut r: Vec<String> = Vec::new();
    let mut start: usize = 0;
    let mut i: usize = 0;
    assert(v@.skip(0) =~= v@);
    assert(v@.subrange(0, 0) =~= Seq::<char>::empty());
    assert(split(v@, sep) =~= text::texts(r@) + split_acc(Seq::empty(), v@, sep));
    while i < v.len()
        invariant
            start <= i <= v.len(),
            split(v@, sep) == text::texts(r@) + split_acc(
                v@.subrange(start as int, i as int),
                v@.skip(i as int),
                sep,
            ),
        decreases v.len() - i,
    {
        let ghost cur = v@.subrange(start as int, i as int);
        let ghost rest = v@.skip(i as int);
        assert(rest.drop_first() =~= v@.skip(i + 1));
        assert(rest[0] == v@[i as int]);
        let ghost before = text::texts(r@);
        if v[i] == sep {
            let w = sub_text(&v, start, i);
            proof {
                text::lemma_texts_push(r@, w);
            }
            r.push(w);
            start = i + 1;
            assert(v@.subrange(start as int, i + 1) =~= Seq::<char>::empty());
            assert(split(v@, sep) =~= text::texts(r@) + split_acc(Seq::empty(), v@.skip(i + 1), sep));
        } else {
            assert(v@.subrange(start as int, i + 1) =~= cur.push(v@[i as int]));
        }
        i = i + 1;
    }
    assert(v@.skip(i as int) =~= Seq::<char>::empty());
    let w = sub_text(&v, start, i);
    proof {
        text::lemma_texts_push(r@, w);
    }
    r.push(w);
    assert(text::texts(r@) =~= split(v@, sep));
    r
}

// ── Lines ───────────────────────────────────────────────────────────────────

/// The text without one carriage return at its end.
pub open spec fn strip_cr(s: Seq<char>) -> Seq<char> {
    if s.len() > 0 && s.last() == '\r' {
        s.drop_last()
    } else {
        s
    }
}

/// The lines of a text. A line ends with a line feed, or with a carriage return and a
/// line feed, neither of them being part of it; the last line need not be ended.
pub open spec fn lines(s: Seq<char>) -> Seq<Seq<char>> {
    let p = split(s, '\n');
    let ended = Seq::new((p.len() - 1) as nat, |i: int| strip_cr(p[i]));
    if p.last().len() == 0 {
        ended
    } else {
        ended.push(p.last())
    }
}

proof fn lemma_split_after_sep(cur: Seq<char>, a: Seq<char>, b: Seq<char>, sep: char)
    requires
        a.len() > 0,
        a.last() == sep,
    ensures
        split_acc(cur, a, sep).len() >= 1,
        split_acc(cur, a, sep).last().len() == 0,
        split_acc(cur, a + b, sep) == split_acc(cur, a, sep).drop_last() + split(b, sep),
    decreases a.len(),
{
    let d = a.drop_first();
    assert((a + b).drop_first() =~= d + b);
    assert((a + b)[0] == a[0]);
    if a.len() == 1 {
        assert(d =~= Seq::empty());
        assert(d + b =~= b);
        assert(split_acc(Seq::empty(), d, sep) == seq![Seq::<char>::empty()]);
        assert(split_acc(cur, a, sep).drop_last() =~= seq![cur]);
    } else {
        assert(d.last() == sep);
        if a[0] == sep {
            lemma_split_after_sep(Seq::empty(), d, b, sep);
            let rest = split_acc(Seq::empty(), d, sep);
            assert((seq![cur] + rest).drop_last() =~= seq![cur] + rest.drop_last());
            assert(seq![cur] + (rest.drop_last() + split(b, sep)) =~= seq![cur] + rest.drop_last()
                + split(b, sep));
        } else {
            lemma_split_after_sep(cur.push(a[0]), d, b, sep);
        }
    }
}

/// Behind a line feed the lines begin anew.
pub proof fn lemma_lines_of_parts(a: Seq<char>, b: Seq<char>)
    requires
        a.len() > 0 ==> a.last() == '\n',
    ensures
        lines(a + b) == lines(a) + lines(b),
{
    lemma_split_nonempty(Seq::empty(), b, '\n');
    if a.len() == 0 {
        assert(a + b =~= b);
        assert(a =~= Seq::empty());
        assert(split(a, '\n') == seq![Seq::<char>::empty()]);
        assert(lines(a) =~= Seq::empty());
        assert(lines(a) + lines(b) =~= lines(b));
    } else {
        lemma_split_after_sep(Seq::empty(), a, b, '\n');
        assert(split(a + b, '\n').last() == split(b, '\n').last());
        assert(lines(a + b) =~= lines(a) + lines(b));
    }
}

proof fn lemma_split_fits(cur: Seq<char>, s: Seq<char>, sep: char)
    ensures
        forall|i: int|
            0 <= i < split_acc(cur, s, sep).len() ==> (#[trigger] split_acc(cur, s, sep)[i]).len()
                <= cur.len() + s.len(),
        split_acc(cur, s, sep).len() >= 1,
        split_acc(cur, s, sep).len() - 1 + split_acc(cur, s, sep).last().len() <= cur.len()
            + s.len(),
    decreases s.len(),
{
    if s.len() > 0 {
        if s[0] == sep {
            let rest = split_acc(Seq::empty(), s.drop_first(), sep);
            lemma_split_fits(Seq::empty(), s.drop_first(), sep);
            assert forall|i: int| 0 <= i < split_acc(cur, s, sep).len() implies (
            #[trigger] split_acc(cur, s, sep)[i]).len() <= cur.len() + s.len() by {
                if i > 0 {
                    assert(split_acc(cur, s, sep)[i] == rest[i - 1]);
                }
            }
            assert(split_acc(cur, s, sep).last() == rest.last());
        } else {
            lemma_split_fits(cur.push(s[0]), s.drop_first(), sep);
            assert(split_acc(cur, s, sep) == split_acc(cur.push(s[0]), s.drop_first(), sep));
        }
    } else {
        assert(split_acc(cur, s, sep) =~= seq![cur]);
    }
}

/// A text has no more lines than characters, and none of them is longer than the text.
pub proof fn lemma_lines_fit(s: Seq<char>)
    ensures
        lines(s).len() <= s.len(),
        forall|i: int| 0 <= i < lines(s).len() ==> (#[trigger] lines(s)[i]).len() <= s.len(),
{
    lemma_split_fits(Seq::empty(), s, '\n');
    let p = split(s, '\n');
    assert forall|i: int| 0 <= i < lines(s).len() implies (#[trigger] lines(s)[i]).len()
        <= s.len() by {
        assert(p[i].len() <= s.len());
    }
}

fn without_cr(s: &str) -> (r: String)
    ensures
        r@ == strip_cr(s@),
{
    let v = chars_of(s);
    if v.len() > 0 && v[v.len() - 1] == '\r' {
        let r = sub_text(&v, 0, v.len() - 1);
        assert(r@ =~= s@.drop_last());
        r
    } else {
        text_of(&v)
    }
}

pub fn lines_of(s: &str) -> (r: Vec<String>)
    ensures
        text::texts(r@) == lines(s@),
{
    let p = split_of(s, '\n');
    let mut r: Vec<String> = Vec::new();
    let mut i: usize = 0;
    while i + 1 < p.len()
        invariant
            p.len() >= 1,
            i <= p.len() - 1,
            text::texts(p@) == split(s@, '\n'),
            text::texts(r@) == Seq::new(i as nat, |k: int| strip_cr(split(s@, '\n')[k])),
        decreases p.len() - i,
    {
        let w = without_cr(&p[i]);
        assert(p@[i as int]@ == text::texts(p@)[i as int]);
        proof {
            text::lemma_texts_push(r@, w);
        }
        r.push(w);
        i = i + 1;
        assert(text::texts(r@) =~= Seq::new(i as nat, |k: int| strip_cr(split(s@, '\n')[k])));
    }
    assert(p@[i as int]@ == text::texts(p@)[i as int]);
    if !p[i].as_str().is_empty() {
        let w = copy_text(&p[i]);
        proof {
            text::lemma_texts_push(r@, w);
        }
        r.push(w);
    }
    assert(text::texts(r@) =~= lines(s@));
    r
}

// ── Joining ─────────────────────────────────────────────────────────────────

/// The pieces one behind the other, with `sep` between each two.
pub open spec fn join(p: Seq<Seq<char>>, sep: Seq<char>) -> Seq<char>
    decreases p.len(),
{
    if p.len() == 0 {
        Seq::empty()
    } else if p.len() == 1 {
        p[0]
    } else {
        join(p.drop_last(), sep) + sep + p.last()
    }
}

pub fn join_of(p: &Vec<String>, sep: &str) -> (r: String)
    ensures
        r@ == join(text::texts(p@), sep@),
{
    let mut r = String::new();
    let mut i: usize = 0;
    while i < p.len()
        invariant
            i <= p.len(),
            r@ == join(text::texts(p@).take(i as int), sep@),
        decreases p.len() - i,
    {
        let ghost head = text::texts(p@).take(i + 1);
        assert(head.drop_last() =~= text::texts(p@).take(i as int));
        assert(head.last() == p@[i as int]@);
        if i > 0 {
            r.append(sep);
        } else {
            assert(r@ =~= Seq::<char>::empty());
        }
        r.append(&p[i]);
        assert(r@ =~= join(head, sep@));
        i = i + 1;
    }
    assert(text::texts(p@).take(i as int) =~= text::texts(p@));
    r
}

// ── Splitting at the first or last occurrence ───────────────────────────────

/// The first place of `c` in `s`, or the length of `s`.
pub open spec fn index_of_char(s: Seq<char>, c: char) -> int
    decreases s.len(),
{
    if s.len() == 0 || s[0] == c {
        0
    } else {
        1 + index_of_char(s.drop_first(), c)
    }
}

pub proof fn lemma_index_of_char(s: Seq<char>, c: char)
    ensures
        0 <= index_of_char(s, c) <= s.len(),
        index_of_char(s, c) < s.len() ==> s[index_of_char(s, c)] == c,
        forall|k: int| 0 <= k < index_of_char(s, c) ==> s[k] != c,
    decreases s.len(),
{
    if s.len() > 0 && s[0] != c {
        lemma_index_of_char(s.drop_first(), c);
        assert forall|k: int| 0 <= k < index_of_char(s, c) implies s[k] != c by {
            if k > 0 {
                assert(s.drop_first()[k - 1] == s[k]);
            }
        }
    }
}

/// The parts before and behind the first `c`, where there is one.
pub open spec fn split_once(s: Seq<char>, c: char) -> Option<(Seq<char>, Seq<char>)> {
    let k = index_of_char(s, c);
    if k < s.len() {
        Some((s.take(k), s.skip(k + 1)))
    } else {
        None
    }
}

/// The last place of `c` in `s`, or -1.
pub open spec fn last_index_of_char(s: Seq<char>, c: char) -> int
    decreases s.len(),
{
    if s.len() == 0 {
        -1
    } else if s.last() == c {
        s.len() - 1
    } else {
        last_index_of_char(s.drop_last(), c)
    }
}

/// The parts before and behind the last `c`, where there is one.
pub open spec fn rsplit_once(s: Seq<char>, c: char) -> Option<(Seq<char>, Seq<char>)> {
    let k = last_index_of_char(s, c);
    if k >= 0 {
        Some((s.take(k), s.skip(k + 1)))
    } else {
        None
    }
}

pub fn char_index(v: &Vec<char>, c: char) -> (r: usize)
    ensures
        r == index_of_char(v@, c),
        r <= v.len(),
{
    let mut i: usize = 0;
    assert(v@.skip(0) =~= v@);
    while i < v.len()
        invariant
            i <= v.len(),
            index_of_char(v@, c) == i + index_of_char(v@.skip(i as int), c),
        decreases v.len() - i,
    {
        assert(v@.skip(i as int)[0] == v@[i as int]);
        assert(v@.skip(i as int).drop_first() =~= v@.skip(i + 1));
        if v[i] == c {
            return i;
        }
        i = i + 1;
    }
    i
}

pub fn split_once_of(s: &str, c: char) -> (r: Option<(String, String)>)
    ensures
        match r {
            Some(p) => split_once(s@, c) == Some((p.0@, p.1@)),
            None => split_once(s@, c) is None,
        },
{
    let v = chars_of(s);
    let k: usize = char_index(&v, c);
    if k < v.len() {
        let a = sub_text(&v, 0, k);
        let b = sub_text(&v, k + 1, v.len());
        assert(a@ =~= s@.take(k as int));
        assert(b@ =~= s@.skip(k + 1));
        Some((a, b))
    } else {
        None
    }
}

pub fn rsplit_once_of(s: &str, c: char) -> (r: Option<(String, String)>)
    ensures
        match r {
            Some(p) => rsplit_once(s@, c) == Some((p.0@, p.1@)),
            None => rsplit_once(s@, c) is None,
        },
{
    let v = chars_of(s);
    let mut j: usize = v.len();
    assert(v@.take(j as int) =~= v@);
    while j > 0
        invariant
            j <= v.len(),
            v@ == s@,
            last_index_of_char(v@, c) == last_index_of_char(v@.take(j as int), c),
        decreases j,
    {
        assert(v@.take(j as int).last() == v@[j - 1]);
        assert(v@.take(j as int).drop_last() =~= v@.take(j - 1));
        if v[j - 1] == c {
            let a = sub_text(&v, 0, j - 1);
            let b = sub_text(&v, j, v.len());
            assert(a@ =~= s@.take(j - 1));
            assert(b@ =~= s@.skip(j as int));
            return Some((a, b));
        }
        j = j - 1;
    }
    None
}

// ── Arguments of a command line ─────────────────────────────────────────────

/// The first place of white space in `s`, or the length of `s`.
pub open spec fn white_index(s: Seq<char>) -> int
    decreases s.len(),
{
    if s.len() == 0 || text::is_white(s[0]) {
        0
    } else {
        1 + white_index(s.drop_first())
    }
}

/// The part before the first white space, and the part behind that one character.
pub open spec fn cut_white(s: Seq<char>) -> (Seq<char>, Seq<char>) {
    let k = white_index(s);
    if k < s.len() {
        (s.take(k), s.skip(k + 1))
    } else {
        (s, Seq::empty())
    }
}

/// The second field of a line, fields ending at one white space each, and what is behind
/// it; both without white space around them.
pub open spec fn sub_and_rest(s: Seq<char>) -> (Seq<char>, Seq<char>) {
    let behind = cut_white(s).1;
    (text::trim(cut_white(behind).0), text::trim(cut_white(behind).1))
}

pub proof fn lemma_white_index(s: Seq<char>)
    ensures
        0 <= white_index(s) <= s.len(),
    decreases s.len(),
{
    if s.len() > 0 && !text::is_white(s[0]) {
        lemma_white_index(s.drop_first());
    }
}

pub fn cut_white_of(s: &str) -> (r: (String, String))
    ensures
        (r.0@, r.1@) == cut_white(s@),
{
    let v = chars_of(s);
    let mut i: usize = 0;
    assert(v@.skip(0) =~= v@);
    while i < v.len() && !white(v[i])
        invariant
            i <= v.len(),
            white_index(v@) == i + white_index(v@.skip(i as int)),
        decreases v.len() - i,
    {
        assert(v@.skip(i as int)[0] == v@[i as int]);
        assert(v@.skip(i as int).drop_first() =~= v@.skip(i + 1));
        i = i + 1;
    }
    if i < v.len() {
        assert(v@.skip(i as int)[0] == v@[i as int]);
        let a = sub_text(&v, 0, i);
        let b = sub_text(&v, i + 1, v.len());
        assert(a@ =~= s@.take(i as int));
        assert(b@ =~= s@.skip(i + 1));
        (a, b)
    } else {
        let b = String::new();
        (copy_text(s), b)
    }
}

pub fn sub_and_rest_of(s: &str) -> (r: (String, String))
    ensures
        (r.0@, r.1@) == sub_and_rest(s@),
{
    let (_, behind) = cut_white_of(s);
    let (sub, rest) = cut_white_of(&behind);
    (text::trimmed(&sub), text::trimmed(&rest))
}

// ── Replacing ───────────────────────────────────────────────────────────────

/// The text with each `c` replaced by `with`.
pub open spec fn replace_char(s: Seq<char>, c: char, with: Seq<char>) -> Seq<char>
    decreases s.len(),
{
    if s.len() == 0 {
        Seq::empty()
    } else {
        replace_char(s.drop_last(), c, with) + if s.last() == c {
            with
        } else {
            seq![s.last()]
        }
    }
}

pub fn replace_char_of(s: &str, c: char, with: &str) -> (r: String)
    ensures
        r@ == replace_char(s@, c, with@),
{
    let v = chars_of(s);
    let mut r = String::new();
    let mut i: usize = 0;
    while i < v.len()
        invariant
            i <= v.len(),
            v@ == s@,
            r@ == replace_char(s@.take(i as int), c, with@),
        decreases v.len() - i,
    {
        let ghost head = s@.take(i + 1);
        assert(head.drop_last() =~= s@.take(i as int));
        assert(head.last() == v@[i as int]);
        let ghost before = r@;
        if v[i] == c {
            r.append(with);
        } else {
            r.push(v[i]);
            assert(r@ =~= before + seq![v@[i as int]]);
        }
        i = i + 1;
    }
    assert(s@.take(i as int) =~= s@);
    r
}

// ── What holds of every text that is cut or joined ──────────────────────────

proof fn join_first(p: Seq<Seq<char>>, sep: Seq<char>)
    requires
        p.len() > 1,
    ensures
        join(p, sep) == p[0] + sep + join(p.drop_first(), sep),
    decreases p.len(),
{
    let d = p.drop_last();
    let f = p.drop_first();
    if p.len() == 2 {
        assert(join(d, sep) == p[0]);
        assert(join(f, sep) == p[1]);
    } else {
        join_first(d, sep);
        assert(d.drop_first() =~= f.drop_last());
        assert(f.last() == p.last());
        assert(join(f, sep) == join(f.drop_last(), sep) + sep + f.last());
        assert(p[0] + sep + join(f.drop_last(), sep) + sep + p.last() =~= p[0] + sep + (join(
            f.drop_last(),
            sep,
        ) + sep + p.last()));
    }
}

/// Joining sets the separator between each two neighbours, and nowhere else: the first part, the
/// separator, and the rest joined.
pub proof fn joining_sets_separators_between(a: Seq<char>, p: Seq<Seq<char>>, sep: Seq<char>)
    ensures
        join(Seq::<Seq<char>>::empty(), sep) == Seq::<char>::empty(),
        join(seq![a], sep) == a,
        p.len() > 0 ==> join(seq![a] + p, sep) == a + sep + join(p, sep),
{
    if p.len() > 0 {
        let q = seq![a] + p;
        join_first(q, sep);
        assert(q.drop_first() =~= p);
    }
}

proof fn split_joins(cur: Seq<char>, s: Seq<char>, sep: char)
    requires
        forall|k: int| 0 <= k < cur.len() ==> cur[k] != sep,
    ensures
        join(split_acc(cur, s, sep), seq![sep]) == cur + s,
        split_acc(cur, s, sep).len() >= 1,
        forall|i: int, k: int|
            0 <= i < split_acc(cur, s, sep).len() && 0 <= k < split_acc(cur, s, sep)[i].len()
                ==> #[trigger] split_acc(cur, s, sep)[i][k] != sep,
    decreases s.len(),
{
    let p = split_acc(cur, s, sep);
    if s.len() == 0 {
        assert(cur + s =~= cur);
    } else if s[0] == sep {
        let rest = split_acc(Seq::empty(), s.drop_first(), sep);
        split_joins(Seq::empty(), s.drop_first(), sep);
        joining_sets_separators_between(cur, rest, seq![sep]);
        assert(cur + seq![sep] + (Seq::<char>::empty() + s.drop_first()) =~= cur + s);
        assert forall|i: int, k: int| 0 <= i < p.len() && 0 <= k < p[i].len() implies
            #[trigger] p[i][k] != sep by {
            if i > 0 {
                assert(p[i] == rest[i - 1]);
                assert(rest[i - 1][k] != sep);
            }
        }
    } else {
        split_joins(cur.push(s[0]), s.drop_first(), sep);
        assert(cur.push(s[0]) + s.drop_first() =~= cur + s);
    }
}

/// The fields of a text, joined by what parts them, are the text, and none of them holds it.
pub proof fn fields_join_to_the_text(s: Seq<char>, sep: char)
    ensures
        join(split(s, sep), seq![sep]) == s,
        split(s, sep).len() >= 1,
        forall|i: int, k: int|
            0 <= i < split(s, sep).len() && 0 <= k < split(s, sep)[i].len() ==> #[trigger] split(
                s,
                sep,
            )[i][k] != sep,
{
    split_joins(Seq::empty(), s, sep);
    assert(Seq::<char>::empty() + s =~= s);
}

/// Lines with a line feed behind each.
pub open spec fn with_line_feeds(v: Seq<Seq<char>>) -> Seq<char>
    decreases v.len(),
{
    if v.len() == 0 {
        Seq::empty()
    } else {
        with_line_feeds(v.drop_last()) + v.last() + seq!['\n']
    }
}

/// What can stand in a line: no line feed, and no carriage return at the end.
pub open spec fn is_line(l: Seq<char>) -> bool {
    (forall|k: int| 0 <= k < l.len() ==> #[trigger] l[k] != '\n') && (l.len() > 0 ==> l.last()
        != '\r')
}

proof fn split_one_line(cur: Seq<char>, l: Seq<char>)
    requires
        forall|k: int| 0 <= k < l.len() ==> #[trigger] l[k] != '\n',
    ensures
        split_acc(cur, l, '\n') == seq![cur + l],
        split_acc(cur, l + seq!['\n'], '\n') == seq![cur + l, Seq::<char>::empty()],
    decreases l.len(),
{
    if l.len() == 0 {
        assert(cur + l =~= cur);
        let t = l + seq!['\n'];
        assert(t.drop_first() =~= Seq::empty());
        assert(split_acc(Seq::empty(), t.drop_first(), '\n') =~= seq![Seq::<char>::empty()]);
        assert(split_acc(cur, t, '\n') =~= seq![cur, Seq::<char>::empty()]);
    } else {
        let d = l.drop_first();
        assert forall|k: int| 0 <= k < d.len() implies #[trigger] d[k] != '\n' by {
            assert(d[k] == l[k + 1]);
        }
        split_one_line(cur.push(l[0]), d);
        assert(cur.push(l[0]) + d =~= cur + l);
        assert((l + seq!['\n']).drop_first() =~= d + seq!['\n']);
    }
}

proof fn line_feeds_end(v: Seq<Seq<char>>)
    ensures
        v.len() > 0 ==> with_line_feeds(v).len() > 0 && with_line_feeds(v).last() == '\n',
        v.len() == 0 ==> with_line_feeds(v).len() == 0,
{
}

proof fn one_line_is_read(l: Seq<char>)
    requires
        forall|k: int| 0 <= k < l.len() ==> #[trigger] l[k] != '\n',
    ensures
        l.len() > 0 ==> lines(l) == seq![l],
        is_line(l) ==> lines(l + seq!['\n']) == seq![l],
{
    split_one_line(Seq::empty(), l);
    assert(Seq::<char>::empty() + l =~= l);
    if l.len() > 0 {
        assert(lines(l) =~= seq![l]);
    }
    if is_line(l) {
        assert(split(l + seq!['\n'], '\n') == seq![l, Seq::<char>::empty()]);
        assert(lines(l + seq!['\n']) =~= seq![l]);
    }
}

/// Lines that were written with a line feed behind each are read back, and what stands behind
/// the last line feed is a line too.
pub proof fn lines_read_back(v: Seq<Seq<char>>, last: Seq<char>)
    requires
        forall|i: int| 0 <= i < v.len() ==> is_line(#[trigger] v[i]),
        forall|k: int| 0 <= k < last.len() ==> #[trigger] last[k] != '\n',
    ensures
        lines(with_line_feeds(v)) == v,
        last.len() > 0 ==> lines(with_line_feeds(v) + last) == v.push(last),
    decreases v.len(),
{
    line_feeds_end(v);
    if v.len() == 0 {
        assert(with_line_feeds(v) =~= Seq::empty());
        assert(split(with_line_feeds(v), '\n') =~= seq![Seq::<char>::empty()]);
        assert(lines(with_line_feeds(v)) =~= v);
    } else {
        let d = v.drop_last();
        let l = v.last();
        assert(is_line(v[v.len() - 1]));
        assert forall|i: int| 0 <= i < d.len() implies is_line(#[trigger] d[i]) by {
            assert(d[i] == v[i]);
        }
        lines_read_back(d, Seq::empty());
        line_feeds_end(d);
        one_line_is_read(l);
        let one = l + seq!['\n'];
        lemma_lines_of_parts(with_line_feeds(d), one);
        assert(with_line_feeds(v) =~= with_line_feeds(d) + one);
        assert(d + seq![l] =~= v);
    }
    if last.len() > 0 {
        one_line_is_read(last);
        lemma_lines_of_parts(with_line_feeds(v), last);
        assert(v + seq![last] =~= v.push(last));
    }
}

pub(crate) proof fn feeds_of_more(v: Seq<Seq<char>>, a: Seq<char>)
    ensures
        with_line_feeds(seq![a] + v) == a + seq!['\n'] + with_line_feeds(v),
    decreases v.len(),
{
    let w = seq![a] + v;
    if v.len() == 0 {
        assert(w.drop_last() =~= Seq::empty());
        assert(with_line_feeds(w.drop_last()) =~= Seq::empty());
        assert(with_line_feeds(v) =~= Seq::empty());
        assert(with_line_feeds(w) =~= a + seq!['\n'] + with_line_feeds(v));
    } else {
        let d = v.drop_last();
        feeds_of_more(d, a);
        assert(w.drop_last() =~= seq![a] + d);
        assert(w.last() == v.last());
        assert(with_line_feeds(w) =~= a + seq!['\n'] + with_line_feeds(v));
    }
}

proof fn fields_with_feeds(cur: Seq<char>, s: Seq<char>)
    ensures
        split_acc(cur, s, '\n').len() >= 1,
        with_line_feeds(split_acc(cur, s, '\n').drop_last()) + split_acc(cur, s, '\n').last()
            == cur + s,
    decreases s.len(),
{
    let p = split_acc(cur, s, '\n');
    if s.len() == 0 {
        assert(p.drop_last() =~= Seq::empty());
        assert(with_line_feeds(p.drop_last()) =~= Seq::empty());
        assert(with_line_feeds(p.drop_last()) + p.last() =~= cur + s);
    } else if s[0] == '\n' {
        let rest = split_acc(Seq::empty(), s.drop_first(), '\n');
        fields_with_feeds(Seq::empty(), s.drop_first());
        assert(p.drop_last() =~= seq![cur] + rest.drop_last());
        feeds_of_more(rest.drop_last(), cur);
        assert(p.last() == rest.last());
        assert(cur + seq!['\n'] + with_line_feeds(rest.drop_last()) + rest.last() =~= cur + seq![
            '\n',
        ] + (with_line_feeds(rest.drop_last()) + rest.last()));
        assert(cur + seq!['\n'] + (Seq::<char>::empty() + s.drop_first()) =~= cur + s);
    } else {
        fields_with_feeds(cur.push(s[0]), s.drop_first());
        assert(cur.push(s[0]) + s.drop_first() =~= cur + s);
    }
}

/// The lines of a text without carriage returns, each with a line feed behind it, are the text,
/// with a line feed more where it does not end with one.
pub proof fn lines_make_up_the_text(s: Seq<char>)
    requires
        forall|k: int| 0 <= k < s.len() ==> #[trigger] s[k] != '\r',
    ensures
        s.len() == 0 || s.last() == '\n' ==> with_line_feeds(lines(s)) == s,
        s.len() > 0 && s.last() != '\n' ==> with_line_feeds(lines(s)) == s + seq!['\n'],
        forall|i: int| 0 <= i < lines(s).len() ==> is_line(#[trigger] lines(s)[i]),
{
    let p = split(s, '\n');
    fields_with_feeds(Seq::empty(), s);
    fields_join_to_the_text(s, '\n');
    assert(Seq::<char>::empty() + s =~= s);
    let w = with_line_feeds(p.drop_last());
    line_feeds_end(p.drop_last());
    fields_hold_no_return(Seq::empty(), s);
    assert forall|i: int| 0 <= i < p.len() implies is_line(#[trigger] p[i]) by {
        assert forall|k: int| 0 <= k < p[i].len() implies #[trigger] p[i][k] != '\n' by {}
        if p[i].len() > 0 {
            assert(p[i][p[i].len() - 1] != '\r');
        }
    }
    let ended = Seq::new((p.len() - 1) as nat, |i: int| strip_cr(p[i]));
    assert(ended =~= p.drop_last());
    if p.last().len() == 0 {
        assert(lines(s) =~= p.drop_last());
        assert(w + p.last() =~= w);
    } else {
        assert(lines(s) =~= p);
        assert(s.last() == p.last().last());
        assert(p.last()[p.last().len() - 1] != '\n');
        assert(p =~= p.drop_last().push(p.last()));
        assert(with_line_feeds(p) == w + p.last() + seq!['\n']);
    }
}

proof fn fields_hold_no_return(cur: Seq<char>, s: Seq<char>)
    requires
        forall|k: int| 0 <= k < cur.len() ==> #[trigger] cur[k] != '\r',
        forall|k: int| 0 <= k < s.len() ==> #[trigger] s[k] != '\r',
    ensures
        forall|i: int, k: int|
            0 <= i < split_acc(cur, s, '\n').len() && 0 <= k < split_acc(cur, s, '\n')[i].len()
                ==> #[trigger] split_acc(cur, s, '\n')[i][k] != '\r',
    decreases s.len(),
{
    let p = split_acc(cur, s, '\n');
    if s.len() > 0 {
        let d = s.drop_first();
        assert forall|k: int| 0 <= k < d.len() implies #[trigger] d[k] != '\r' by {
            assert(d[k] == s[k + 1]);
        }
        if s[0] == '\n' {
            let rest = split_acc(Seq::empty(), d, '\n');
            fields_hold_no_return(Seq::empty(), d);
            assert forall|i: int, k: int| 0 <= i < p.len() && 0 <= k < p[i].len() implies
                #[trigger] p[i][k] != '\r' by {
                if i > 0 {
                    assert(p[i] == rest[i - 1]);
                    assert(rest[i - 1][k] != '\r');
                } else {
                    assert(p[i] == cur);
                    assert(cur[k] != '\r');
                }
            }
        } else {
            assert(s[0] != '\r');
            let c = cur.push(s[0]);
            assert forall|k: int| 0 <= k < c.len() implies #[trigger] c[k] != '\r' by {
                if k < cur.len() {
                    assert(c[k] == cur[k]);
                }
            }
            fields_hold_no_return(c, d);
            let q = split_acc(c, d, '\n');
            assert(p == q);
            assert forall|i: int, k: int| 0 <= i < p.len() && 0 <= k < p[i].len() implies
                #[trigger] p[i][k] != '\r' by {
                assert(q[i][k] != '\r');
            }
        }
    } else {
        assert forall|i: int, k: int| 0 <= i < p.len() && 0 <= k < p[i].len() implies
            #[trigger] p[i][k] != '\r' by {
            assert(p[i] == cur);
            assert(cur[k] != '\r');
        }
    }
}

proof fn split_field(cur: Seq<char>, l: Seq<char>, rest: Seq<char>, sep: char)
    requires
        forall|k: int| 0 <= k < l.len() ==> #[trigger] l[k] != sep,
    ensures
        split_acc(cur, l, sep) == seq![cur + l],
        split_acc(cur, l + seq![sep] + rest, sep) == seq![cur + l] + split(rest, sep),
    decreases l.len(),
{
    let t = l + seq![sep] + rest;
    if l.len() == 0 {
        assert(cur + l =~= cur);
        assert(t.drop_first() =~= rest);
    } else {
        let d = l.drop_first();
        assert forall|k: int| 0 <= k < d.len() implies #[trigger] d[k] != sep by {
            assert(d[k] == l[k + 1]);
        }
        split_field(cur.push(l[0]), d, rest, sep);
        assert(cur.push(l[0]) + d =~= cur + l);
        assert(t.drop_first() =~= d + seq![sep] + rest);
    }
}

/// Fields that hold no separator are read back from what they are joined to.
pub proof fn joined_fields_read_back(p: Seq<Seq<char>>, sep: char)
    requires
        p.len() > 0,
        forall|i: int, k: int| 0 <= i < p.len() && 0 <= k < p[i].len() ==> #[trigger] p[i][k] != sep,
    ensures
        split(join(p, seq![sep]), sep) == p,
    decreases p.len(),
{
    let a = p[0];
    assert forall|k: int| 0 <= k < a.len() implies #[trigger] a[k] != sep by {
        assert(p[0][k] != sep);
    }
    assert(Seq::<char>::empty() + a =~= a);
    if p.len() == 1 {
        split_field(Seq::empty(), a, Seq::empty(), sep);
        assert(p =~= seq![a]);
    } else {
        let d = p.drop_first();
        assert forall|i: int, k: int| 0 <= i < d.len() && 0 <= k < d[i].len() implies
            #[trigger] d[i][k] != sep by {
            assert(d[i] == p[i + 1]);
            assert(p[i + 1][k] != sep);
        }
        joined_fields_read_back(d, sep);
        join_first(p, seq![sep]);
        split_field(Seq::empty(), a, join(d, seq![sep]), sep);
        assert(seq![a] + d =~= p);
    }
}

proof fn word_then_rest(cur: Seq<char>, w: Seq<char>, rest: Seq<char>)
    requires
        cur.len() + w.len() > 0,
        forall|k: int| 0 <= k < w.len() ==> !text::is_white(#[trigger] w[k]),
    ensures
        words_acc(cur, w) == seq![cur + w],
        words_acc(cur, w + seq![' '] + rest) == seq![cur + w] + words(rest),
    decreases w.len(),
{
    let t = w + seq![' '] + rest;
    if w.len() == 0 {
        assert(cur + w =~= cur);
        assert(t.drop_first() =~= rest);
    } else {
        let d = w.drop_first();
        assert forall|k: int| 0 <= k < d.len() implies !text::is_white(#[trigger] d[k]) by {
            assert(d[k] == w[k + 1]);
        }
        word_then_rest(cur.push(w[0]), d, rest);
        assert(cur.push(w[0]) + d =~= cur + w);
        assert(t.drop_first() =~= d + seq![' '] + rest);
    }
}

/// Words that are set one behind the other with blanks between them are read back.
pub proof fn words_read_back(v: Seq<Seq<char>>)
    requires
        forall|i: int| 0 <= i < v.len() ==> is_word(#[trigger] v[i]),
    ensures
        words(join(v, seq![' '])) == v,
    decreases v.len(),
{
    if v.len() == 0 {
        assert(words(join(v, seq![' '])) =~= v);
    } else {
        let a = v[0];
        assert(is_word(v[0]));
        assert(Seq::<char>::empty() + a =~= a);
        if v.len() == 1 {
            word_then_rest(Seq::empty(), a, Seq::empty());
            assert(v =~= seq![a]);
        } else {
            let d = v.drop_first();
            assert forall|i: int| 0 <= i < d.len() implies is_word(#[trigger] d[i]) by {
                assert(d[i] == v[i + 1]);
            }
            words_read_back(d);
            join_first(v, seq![' ']);
            word_then_rest(Seq::empty(), a, join(d, seq![' ']));
            assert(seq![a] + d =~= v);
        }
    }
}

proof fn words_hold_the_rest(cur: Seq<char>, s: Seq<char>)
    ensures
        join(words_acc(cur, s), Seq::empty()) == cur + s.filter(|c: char| !text::is_white(c)),
    decreases s.len(),
{
    let visible = |c: char| !text::is_white(c);
    let none = Seq::<char>::empty();
    if s.len() == 0 {
        reveal(Seq::filter);
        assert(s.filter(visible) =~= none);
        if cur.len() == 0 {
            assert(cur + s.filter(visible) =~= none);
        } else {
            assert(cur + s.filter(visible) =~= cur);
        }
    } else {
        let d = s.drop_first();
        assert(s =~= seq![s[0]] + d);
        Seq::filter_distributes_over_add(seq![s[0]], d, visible);
        assert(seq![s[0]].filter(visible) =~= if visible(s[0]) {
            seq![s[0]]
        } else {
            none
        }) by {
            reveal(Seq::filter);
            assert(seq![s[0]].drop_last() =~= none);
            assert(none.filter(visible) =~= none);
        }
        if text::is_white(s[0]) {
            let rest = words_acc(none, d);
            words_hold_the_rest(none, d);
            assert(none + d.filter(visible) =~= d.filter(visible));
            assert(s.filter(visible) =~= d.filter(visible));
            if cur.len() == 0 {
                assert(Seq::<Seq<char>>::empty() + rest =~= rest);
                assert(cur + s.filter(visible) =~= d.filter(visible));
            } else {
                joining_sets_separators_between(cur, rest, none);
                if rest.len() == 0 {
                    assert(seq![cur] + rest =~= seq![cur]);
                    assert(join(rest, none) =~= none);
                    assert(cur + s.filter(visible) =~= cur);
                } else {
                    assert(cur + none + join(rest, none) =~= cur + s.filter(visible));
                }
            }
        } else {
            words_hold_the_rest(cur.push(s[0]), d);
            assert(cur.push(s[0]) + d.filter(visible) =~= cur + s.filter(visible));
        }
    }
}

/// The words of a text hold all of it but the white space, in order.
pub proof fn words_hold_all_but_white(s: Seq<char>)
    ensures
        join(words(s), Seq::empty()) == s.filter(|c: char| !text::is_white(c)),
        forall|i: int| 0 <= i < words(s).len() ==> is_word(#[trigger] words(s)[i]),
{
    words_hold_the_rest(Seq::empty(), s);
    lemma_words_are_words(Seq::empty(), s);
    assert(Seq::<char>::empty() + s.filter(|c: char| !text::is_white(c)) =~= s.filter(
        |c: char| !text::is_white(c),
    ));
}

/// A text is what stands before a character, the character, and what stands behind it: before
/// its first occurrence for the one cut, before its last for the other.
pub proof fn cuts_make_up_the_text(s: Seq<char>, c: char)
    ensures
        match split_once(s, c) {
            Some((a, b)) => s == a + seq![c] + b && !text::has_char(a, c),
            None => !text::has_char(s, c),
        },
        match rsplit_once(s, c) {
            Some((a, b)) => s == a + seq![c] + b && !text::has_char(b, c),
            None => !text::has_char(s, c),
        },
{
    lemma_index_of_char(s, c);
    let k = index_of_char(s, c);
    if k < s.len() {
        assert(s =~= s.take(k) + seq![c] + s.skip(k + 1));
    }
    last_place_is_last(s, c);
    let l = last_index_of_char(s, c);
    if l >= 0 {
        assert(s =~= s.take(l) + seq![c] + s.skip(l + 1));
        let b = s.skip(l + 1);
        assert forall|i: int| 0 <= i < b.len() implies #[trigger] b[i] != c by {
            assert(b[i] == s[l + 1 + i]);
        }
    }
}

pub(crate) proof fn last_place_is_last(s: Seq<char>, c: char)
    ensures
        -1 <= last_index_of_char(s, c) < s.len(),
        last_index_of_char(s, c) >= 0 ==> s[last_index_of_char(s, c)] == c,
        forall|k: int| last_index_of_char(s, c) < k < s.len() ==> s[k] != c,
    decreases s.len(),
{
    if s.len() > 0 && s.last() != c {
        last_place_is_last(s.drop_last(), c);
        assert forall|k: int| last_index_of_char(s, c) < k < s.len() implies s[k] != c by {
            if k < s.len() - 1 {
                assert(s.drop_last()[k] == s[k]);
            }
        }
    }
}

/// Replacing a character leaves every other one, and puts the new text in place of each.
pub proof fn every_character_is_replaced(a: Seq<char>, x: char, b: Seq<char>, c: char, with: Seq<char>)
    ensures
        replace_char(Seq::empty(), c, with) == Seq::<char>::empty(),
        replace_char(a + seq![x] + b, c, with) == replace_char(a, c, with) + (if x == c {
            with
        } else {
            seq![x]
        }) + replace_char(b, c, with),
    decreases b.len(),
{
    let s = a + seq![x] + b;
    let y = if x == c {
        with
    } else {
        seq![x]
    };
    if b.len() == 0 {
        assert(s.drop_last() =~= a);
        assert(replace_char(b, c, with) =~= Seq::empty());
        assert(replace_char(a, c, with) + y + replace_char(b, c, with) =~= replace_char(a, c, with)
            + y);
    } else {
        let d = b.drop_last();
        assert(s.drop_last() =~= a + seq![x] + d);
        every_character_is_replaced(a, x, d, c, with);
        let z = if b.last() == c {
            with
        } else {
            seq![b.last()]
        };
        assert(s.last() == b.last());
        assert(replace_char(a, c, with) + y + replace_char(d, c, with) + z =~= replace_char(
            a,
            c,
            with,
        ) + y + (replace_char(d, c, with) + z));
    }
}

pub(crate) proof fn joined_with_feeds(v: Seq<Seq<char>>)
    requires
        v.len() > 0,
    ensures
        join(v, seq!['\n']) + seq!['\n'] == with_line_feeds(v),
    decreases v.len(),
{
    if v.len() == 1 {
        assert(v.drop_last() =~= Seq::empty());
        assert(with_line_feeds(v.drop_last()) =~= Seq::empty());
        assert(join(v, seq!['\n']) + seq!['\n'] =~= with_line_feeds(v));
    } else {
        joined_with_feeds(v.drop_last());
    }
}

/// The fields of lines with a line feed behind each are the lines, and an empty one at the end.
pub proof fn lemma_fields_of_lines(v: Seq<Seq<char>>)
    requires
        forall|i: int, k: int| 0 <= i < v.len() && 0 <= k < v[i].len() ==> #[trigger] v[i][k] != '\n',
    ensures
        split(with_line_feeds(v), '\n') == v.push(Seq::empty()),
{
    let w = v.push(Seq::empty());
    assert forall|i: int, k: int| 0 <= i < w.len() && 0 <= k < w[i].len() implies #[trigger] w[i][k]
        != '\n' by {
        if i < v.len() {
            assert(v[i][k] != '\n');
        }
    }
    joined_fields_read_back(w, '\n');
    if v.len() == 0 {
        assert(join(w, seq!['\n']) =~= with_line_feeds(v));
    } else {
        joined_with_feeds(v);
        assert(w.drop_last() =~= v);
        assert(join(w, seq!['\n']) =~= with_line_feeds(v));
    }
}

/// A text is cut at the first of the characters that it is to be cut at, or at the last.
pub proof fn cuts_are_at_the_first_and_last(a: Seq<char>, c: char, b: Seq<char>)
    ensures
        !text::has_char(a, c) ==> split_once(a + seq![c] + b, c) == Some((a, b)),
        !text::has_char(b, c) ==> rsplit_once(a + seq![c] + b, c) == Some((a, b)),
        !text::has_char(a, c) ==> split_once(a, c) is None && rsplit_once(a, c) is None,
{
    let s = a + seq![c] + b;
    cuts_make_up_the_text(s, c);
    cuts_make_up_the_text(a, c);
    lemma_index_of_char(a, c);
    last_place_is_last(a, c);
    let n = a.len() as int;
    assert(s[n] == c);
    lemma_index_of_char(s, c);
    last_place_is_last(s, c);
    if !text::has_char(a, c) {
        let k = index_of_char(s, c);
        if k < n {
            assert(a[k] == s[k]);
        }
        assert(k == n);
        assert(s.take(n) =~= a);
        assert(s.skip(n + 1) =~= b);
    }
    if !text::has_char(b, c) {
        let k = last_index_of_char(s, c);
        if k > n {
            assert(b[k - n - 1] == s[k]);
        }
        assert(k == n);
        assert(s.take(n) =~= a);
        assert(s.skip(n + 1) =~= b);
    }
}

/// A text without white space in it.
pub open spec fn no_white(s: Seq<char>) -> bool {
    forall|k: int| 0 <= k < s.len() ==> !text::is_white(#[trigger] s[k])
}

/// White space is first found right behind what holds none.
pub proof fn white_space_is_found(a: Seq<char>, c: char, b: Seq<char>)
    requires
        no_white(a),
        text::is_white(c),
    ensures
        white_index(a + seq![c] + b) == a.len(),
        white_index(a) == a.len(),
        cut_white(a + seq![c] + b) == (a, b),
    decreases a.len(),
{
    let s = a + seq![c] + b;
    if a.len() == 0 {
        assert(s[0] == c);
        assert(s.take(0) =~= a);
        assert(s.skip(1) =~= b);
    } else {
        let d = a.drop_first();
        assert forall|k: int| 0 <= k < d.len() implies !text::is_white(#[trigger] d[k]) by {
            assert(d[k] == a[k + 1]);
        }
        white_space_is_found(d, c, b);
        assert(s.drop_first() =~= d + seq![c] + b);
        assert(s[0] == a[0]);
        assert(s.take(a.len() as int) =~= a);
        assert(s.skip((a.len() + 1) as int) =~= b);
    }
}

/// Every text that is joined stands in the whole.
pub proof fn joined_holds_each(p: Seq<Seq<char>>, sep: Seq<char>, i: int) -> (r: (
    Seq<char>,
    Seq<char>,
))
    requires
        0 <= i < p.len(),
    ensures
        join(p, sep) == r.0 + p[i] + r.1,
    decreases p.len(),
{
    let e = Seq::<char>::empty();
    if p.len() == 1 {
        assert(join(p, sep) =~= e + p[i] + e);
        (e, e)
    } else if i == p.len() - 1 {
        let a = join(p.drop_last(), sep) + sep;
        assert(join(p, sep) =~= a + p[i] + e);
        (a, e)
    } else {
        let d = p.drop_last();
        let (a, b) = joined_holds_each(d, sep, i);
        assert(d[i] == p[i]);
        assert(join(p, sep) =~= a + p[i] + (b + sep + p.last()));
        (a, b + sep + p.last())
    }
}

/// Behind the word of a command stand the word of a sub-command and, as far as there is more,
/// the rest of the line.
pub proof fn words_of_a_command_are_told_apart(c: Seq<char>, sub: Seq<char>, rest: Seq<char>)
    requires
        no_white(c),
        no_white(sub),
        text::is_trimmed(rest),
    ensures
        sub_and_rest(c + seq![' '] + sub + seq![' '] + rest) == (sub, rest),
        sub_and_rest(c + seq![' '] + sub) == (sub, Seq::<char>::empty()),
        sub_and_rest(c) == (Seq::<char>::empty(), Seq::<char>::empty()),
{
    let e = Seq::<char>::empty();
    let more = sub + seq![' '] + rest;
    assert(c + seq![' '] + sub + seq![' '] + rest =~= c + seq![' '] + more);
    white_space_is_found(c, ' ', more);
    white_space_is_found(sub, ' ', rest);
    white_space_is_found(c, ' ', sub);
    white_space_is_found(e, ' ', e);
    if sub.len() > 0 {
        assert(!text::is_white(sub[0]));
        assert(!text::is_white(sub[sub.len() - 1]));
    }
    text::white_space_around_goes(e, sub, e);
    text::white_space_around_goes(e, rest, e);
    text::white_space_around_goes(e, e, e);
    assert(cut_white(c).1 =~= e);
    assert(cut_white(sub) == (sub, cut_white(sub).1));
    assert(cut_white(sub).1 =~= e);
    assert(cut_white(e).0 =~= e);
    assert(cut_white(e).1 =~= e);
}

/// A text without the character that is replaced stays as it is.
pub proof fn nothing_is_replaced(s: Seq<char>, c: char, with: Seq<char>)
    requires
        !text::has_char(s, c),
    ensures
        replace_char(s, c, with) == s,
    decreases s.len(),
{
    if s.len() > 0 {
        let d = s.drop_last();
        assert forall|i: int| 0 <= i < d.len() implies d[i] != c by {
            assert(d[i] == s[i]);
        }
        nothing_is_replaced(d, c, with);
        assert(s.last() == s[s.len() - 1]);
        assert(s =~= d.push(s.last()));
    }
}

/// A word with a blank behind it is still one word.
pub proof fn words_and_white(c: Seq<char>)
    requires
        is_word(c),
    ensures
        words(c + seq![' '] + Seq::empty()) == seq![c],
        words(c + seq![' ']) == seq![c],
{
    let e = Seq::<char>::empty();
    assert(c + seq![' '] + e =~= c + seq![' ']);
    assert(e + c =~= c);
    word_then_rest(e, c, e);
    assert(words(e) =~= Seq::empty());
    assert(seq![c] + words(e) =~= seq![c]);
}

} // verus!
