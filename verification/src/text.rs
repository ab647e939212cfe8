//! Text handled as sequences of characters: trimming, splitting, searching, numbers.
//!
//! Each executable function is paired with a spec function of the same meaning over
//! `Seq<char>`; the other modules state their contracts with these.
use vstd::prelude::*;

verus! {

/// `String::push` appends one character to the end of the string.
pub assume_specification[ String::push ](s: &mut String, c: char)
    ensures
        final(s)@ == old(s)@.push(c),
;

// ── Character classes ───────────────────────────────────────────────────────

/// The characters with the Unicode property White_Space.
pub open spec fn is_white(c: char) -> bool {
    ||| '\u{9}' <= c <= '\u{d}'
    ||| c == ' '
    ||| c == '\u{85}'
    ||| c == '\u{a0}'
    ||| c == '\u{1680}'
    ||| '\u{2000}' <= c <= '\u{200a}'
    ||| c == '\u{2028}'
    ||| c == '\u{2029}'
    ||| c == '\u{202f}'
    ||| c == '\u{205f}'
    ||| c == '\u{3000}'
}

pub fn white(c: char) -> (r: bool)
    ensures
        r == is_white(c),
{
    ('\u{9}' <= c && c <= '\u{d}') || c == ' ' || c == '\u{85}' || c == '\u{a0}' || c
        == '\u{1680}' || ('\u{2000}' <= c && c <= '\u{200a}') || c == '\u{2028}' || c == '\u{2029}'
        || c == '\u{202f}' || c == '\u{205f}' || c == '\u{3000}'
}

pub open spec fn is_digit(c: char) -> bool {
    '0' <= c <= '9'
}

pub open spec fn is_upper(c: char) -> bool {
    'A' <= c <= 'Z'
}

pub open spec fn is_lower(c: char) -> bool {
    'a' <= c <= 'z'
}

pub open spec fn is_letter(c: char) -> bool {
    is_upper(c) || is_lower(c)
}

/// The ASCII lower-case form of a character; other characters stay.
pub open spec fn lower_char(c: char) -> char {
    if is_upper(c) {
        ((c as u32) + 32) as char
    } else {
        c
    }
}

/// The ASCII upper-case form of a character; other characters stay.
pub open spec fn upper_char(c: char) -> char {
    if is_lower(c) {
        ((c as u32) - 32) as char
    } else {
        c
    }
}

pub fn to_lower_char(c: char) -> (r: char)
    ensures
        r == lower_char(c),
{
    if 'A' <= c && c <= 'Z' {
        ((c as u8) + 32) as char
    } else {
        c
    }
}

pub fn to_upper_char(c: char) -> (r: char)
    ensures
        r == upper_char(c),
{
    if 'a' <= c && c <= 'z' {
        ((c as u8) - 32) as char
    } else {
        c
    }
}

pub open spec fn lower(s: Seq<char>) -> Seq<char> {
    Seq::new(s.len(), |i: int| lower_char(s[i]))
}

pub open spec fn all_digits(s: Seq<char>) -> bool {
    forall|i: int| 0 <= i < s.len() ==> is_digit(#[trigger] s[i])
}

// ── Strings and their characters ────────────────────────────────────────────

/// The texts of a list of strings.
pub open spec fn texts(v: Seq<String>) -> Seq<Seq<char>> {
    Seq::new(v.len(), |i: int| v[i]@)
}

pub proof fn lemma_texts_push(v: Seq<String>, s: String)
    ensures
        texts(v.push(s)) == texts(v).push(s@),
{
    assert(texts(v.push(s)) =~= texts(v).push(s@));
}

/// The characters of a string.
pub fn chars_of(s: &str) -> (v: Vec<char>)
    ensures
        v@ == s@,
{
    let mut v: Vec<char> = Vec::new();
    for c in it: s.chars()
        invariant
            it.seq() == s@,
            v@ == s@.take(it.index() as int),
    {
        v.push(c);
        assert(v@ =~= s@.take(it.index() as int + 1));
    }
    assert(v@ =~= s@);
    v
}

/// The string made of the characters from `i` up to, not with, `j`.
pub fn sub_text(v: &Vec<char>, i: usize, j: usize) -> (r: String)
    requires
        i <= j <= v.len(),
    ensures
        r@ == v@.subrange(i as int, j as int),
{
    let mut r = String::new();
    let mut k: usize = i;
    while k < j
        invariant
            i <= k <= j <= v.len(),
            r@ == v@.subrange(i as int, k as int),
        decreases j - k,
    {
        r.push(v[k]);
        k = k + 1;
        assert(v@.subrange(i as int, k as int) =~= v@.subrange(i as int, k - 1).push(v@[k - 1]));
    }
    r
}

pub fn text_of(v: &Vec<char>) -> (r: String)
    ensures
        r@ == v@,
{
    let r = sub_text(v, 0, v.len());
    assert(v@.subrange(0, v@.len() as int) =~= v@);
    r
}

pub fn copy_text(s: &str) -> (r: String)
    ensures
        r@ == s@,
{
    s.to_owned()
}

/// Whether two texts are equal.
pub fn same(a: &str, b: &str) -> (r: bool)
    ensures
        r == (a@ == b@),
{
    a.to_owned() == b.to_owned()
}

/// The text followed by another.
pub fn cat(a: &str, b: &str) -> (r: String)
    ensures
        r@ == a@ + b@,
{
    let mut r = a.to_owned();
    r.append(b);
    r
}

// ── Trimming ────────────────────────────────────────────────────────────────

pub open spec fn trim_start(s: Seq<char>) -> Seq<char>
    decreases s.len(),
{
    if s.len() > 0 && is_white(s[0]) {
        trim_start(s.drop_first())
    } else {
        s
    }
}

pub open spec fn trim_end(s: Seq<char>) -> Seq<char>
    decreases s.len(),
{
    if s.len() > 0 && is_white(s.last()) {
        trim_end(s.drop_last())
    } else {
        s
    }
}

/// The text without white space at either end.
pub open spec fn trim(s: Seq<char>) -> Seq<char> {
    trim_end(trim_start(s))
}

pub open spec fn is_blank(s: Seq<char>) -> bool {
    trim(s).len() == 0
}

fn trim_start_at(v: &Vec<char>) -> (i: usize)
    ensures
        i <= v.len(),
        trim_start(v@) == v@.skip(i as int),
{
    let mut i: usize = 0;
    assert(v@.skip(0) =~= v@);
    while i < v.len() && white(v[i])
        invariant
            i <= v.len(),
            trim_start(v@) == trim_start(v@.skip(i as int)),
        decreases v.len() - i,
    {
        assert(v@.skip(i as int).drop_first() =~= v@.skip(i + 1));
        i = i + 1;
    }
    i
}

fn trim_end_at(v: &Vec<char>, from: usize) -> (j: usize)
    requires
        from <= v.len(),
    ensures
        from <= j <= v.len(),
        trim_end(v@.skip(from as int)) == v@.subrange(from as int, j as int),
{
    let mut j: usize = v.len();
    assert(v@.skip(from as int) =~= v@.subrange(from as int, j as int));
    while j > from && white(v[j - 1])
        invariant
            from <= j <= v.len(),
            trim_end(v@.skip(from as int)) == trim_end(v@.subrange(from as int, j as int)),
        decreases j,
    {
        assert(v@.subrange(from as int, j as int).drop_last() =~= v@.subrange(
            from as int,
            j - 1,
        ));
        assert(v@.subrange(from as int, j as int).last() == v@[j - 1]);
        j = j - 1;
    }
    if j > from {
        assert(v@.subrange(from as int, j as int).last() == v@[j - 1]);
    }
    j
}

pub fn trimmed(s: &str) -> (r: String)
    ensures
        r@ == trim(s@),
{
    let v = chars_of(s);
    let i: usize = trim_start_at(&v);
    let j: usize = trim_end_at(&v, i);
    sub_text(&v, i, j)
}

pub fn trimmed_start(s: &str) -> (r: String)
    ensures
        r@ == trim_start(s@),
{
    let v = chars_of(s);
    let i: usize = trim_start_at(&v);
    assert(v@.skip(i as int) =~= v@.subrange(i as int, v@.len() as int));
    sub_text(&v, i, v.len())
}

pub fn trimmed_end(s: &str) -> (r: String)
    ensures
        r@ == trim_end(s@),
{
    let v = chars_of(s);
    let j: usize = trim_end_at(&v, 0);
    assert(v@.skip(0) =~= v@);
    sub_text(&v, 0, j)
}

pub fn blank(s: &str) -> (r: bool)
    ensures
        r == is_blank(s@),
{
    let t = trimmed(s);
    t.as_str().is_empty()
}

// ── Prefixes, suffixes, searching ───────────────────────────────────────────

pub open spec fn starts_with(s: Seq<char>, p: Seq<char>) -> bool {
    s.len() >= p.len() && s.take(p.len() as int) == p
}

pub open spec fn ends_with(s: Seq<char>, p: Seq<char>) -> bool {
    s.len() >= p.len() && s.skip(s.len() - p.len()) == p
}

/// The part behind a prefix, where the text starts with it.
pub open spec fn after(s: Seq<char>, p: Seq<char>) -> Option<Seq<char>> {
    if starts_with(s, p) {
        Some(s.skip(p.len() as int))
    } else {
        None
    }
}

pub open spec fn matches_at(s: Seq<char>, p: Seq<char>, i: int) -> bool {
    0 <= i && i + p.len() <= s.len() && s.subrange(i, i + p.len()) == p
}

/// The first place, from `i` on, where `p` occurs in `s`.
pub open spec fn find_from(s: Seq<char>, p: Seq<char>, i: int) -> Option<int>
    decreases s.len() + 1 - i,
{
    if i < 0 || i + p.len() > s.len() {
        None
    } else if s.subrange(i, i + p.len()) == p {
        Some(i)
    } else {
        find_from(s, p, i + 1)
    }
}

pub open spec fn has_char(s: Seq<char>, c: char) -> bool {
    exists|i: int| 0 <= i < s.len() && s[i] == c
}

pub fn match_at(v: &Vec<char>, p: &Vec<char>, i: usize) -> (r: bool)
    requires
        i <= v.len(),
    ensures
        r == matches_at(v@, p@, i as int),
{
    if p.len() > v.len() - i {
        return false;
    }
    let mut k: usize = 0;
    while k < p.len()
        invariant
            i <= v.len(),
            p.len() <= v.len() - i,
            k <= p.len(),
            forall|m: int| i <= m < i + k ==> #[trigger] v@[m] == p@[m - i],
        decreases p.len() - k,
    {
        if v[i + k] != p[k] {
            proof {
                let w = v@.subrange(i as int, i + p@.len());
                assert(w[k as int] == v@[i + k]);
            }
            return false;
        }
        k = k + 1;
    }
    assert(v@.subrange(i as int, i + p@.len()) =~= p@);
    true
}

pub fn find_at(v: &Vec<char>, p: &Vec<char>, from: usize) -> (r: Option<usize>)
    requires
        from <= v.len(),
    ensures
        match r {
            Some(k) => find_from(v@, p@, from as int) == Some(k as int) && from <= k && k + p@.len()
                <= v@.len() && matches_at(v@, p@, k as int),
            None => find_from(v@, p@, from as int) is None,
        },
{
    let mut i: usize = from;
    while i <= v.len()
        invariant
            from <= i <= v.len() + 1,
            find_from(v@, p@, from as int) == find_from(v@, p@, i as int),
        decreases v.len() + 1 - i,
    {
        if p.len() > v.len() - i {
            return None;
        }
        if match_at(v, p, i) {
            return Some(i);
        }
        if i == v.len() {
            assert(find_from(v@, p@, i + 1) is None);
            return None;
        }
        i = i + 1;
    }
    None
}

pub fn has_prefix(s: &str, p: &str) -> (r: bool)
    ensures
        r == starts_with(s@, p@),
{
    let v = chars_of(s);
    let w = chars_of(p);
    let r = match_at(&v, &w, 0);
    assert(p@.len() <= s@.len() ==> s@.subrange(0, p@.len() as int) =~= s@.take(p@.len() as int));
    r
}

pub fn has_suffix(s: &str, p: &str) -> (r: bool)
    ensures
        r == ends_with(s@, p@),
{
    let v = chars_of(s);
    let w = chars_of(p);
    if w.len() > v.len() {
        return false;
    }
    let k: usize = v.len() - w.len();
    let r = match_at(&v, &w, k);
    assert(s@.subrange(k as int, k + p@.len()) =~= s@.skip(s@.len() - p@.len()));
    r
}

pub fn behind(s: &str, p: &str) -> (r: Option<String>)
    ensures
        match r {
            Some(t) => after(s@, p@) == Some(t@),
            None => after(s@, p@) is None,
        },
{
    if has_prefix(s, p) {
        let v = chars_of(s);
        let w = chars_of(p);
        let t = sub_text(&v, w.len(), v.len());
        assert(t@ =~= s@.skip(p@.len() as int));
        Some(t)
    } else {
        None
    }
}

pub fn contains_char(s: &str, c: char) -> (r: bool)
    ensures
        r == has_char(s@, c),
{
    let v = chars_of(s);
    let mut i: usize = 0;
    while i < v.len()
        invariant
            i <= v.len(),
            v@ == s@,
            forall|k: int| 0 <= k < i ==> v@[k] != c,
        decreases v.len() - i,
    {
        if v[i] == c {
            return true;
        }
        i = i + 1;
    }
    false
}

// ── Columns ─────────────────────────────────────────────────────────────────

pub open spec fn spaces(n: nat) -> Seq<char> {
    Seq::new(n, |i: int| ' ')
}

/// The text filled up with spaces behind it to a width.
pub open spec fn pad_right(s: Seq<char>, width: nat) -> Seq<char> {
    if s.len() >= width {
        s
    } else {
        s + spaces((width - s.len()) as nat)
    }
}

/// The text filled up with spaces before it to a width.
pub open spec fn pad_left(s: Seq<char>, width: nat) -> Seq<char> {
    if s.len() >= width {
        s
    } else {
        spaces((width - s.len()) as nat) + s
    }
}

/// The same character several times.
pub fn repeat_char(c: char, n: usize) -> (r: String)
    ensures
        r@ == Seq::new(n as nat, |i: int| c),
{
    let mut r = String::new();
    let mut i: usize = 0;
    while i < n
        invariant
            i <= n,
            r@ == Seq::new(i as nat, |i: int| c),
        decreases n - i,
    {
        r.push(c);
        i = i + 1;
        assert(r@ =~= Seq::new(i as nat, |i: int| c));
    }
    r
}

pub fn padded_right(s: &str, width: usize) -> (r: String)
    ensures
        r@ == pad_right(s@, width as nat),
{
    let n: usize = s.unicode_len();
    if n >= width {
        copy_text(s)
    } else {
        let r = cat(s, &repeat_char(' ', width - n));
        assert(r@ =~= pad_right(s@, width as nat));
        r
    }
}

pub fn padded_left(s: &str, width: usize) -> (r: String)
    ensures
        r@ == pad_left(s@, width as nat),
{
    let n: usize = s.unicode_len();
    if n >= width {
        copy_text(s)
    } else {
        let r = cat(&repeat_char(' ', width - n), s);
        assert(r@ =~= pad_left(s@, width as nat));
        r
    }
}

// ── Bytes ───────────────────────────────────────────────────────────────────

/// How many bytes a character takes in UTF-8.
pub open spec fn width(c: char) -> nat {
    if c <= '\u{7f}' {
        1
    } else if c <= '\u{7ff}' {
        2
    } else if c <= '\u{ffff}' {
        3
    } else {
        4
    }
}

/// How many bytes a text takes in UTF-8.
pub open spec fn byte_len(s: Seq<char>) -> nat
    decreases s.len(),
{
    if s.len() == 0 {
        0
    } else {
        byte_len(s.drop_last()) + width(s.last())
    }
}

pub fn width_of(c: char) -> (r: usize)
    ensures
        r == width(c),
{
    if c <= '\u{7f}' {
        1
    } else if c <= '\u{7ff}' {
        2
    } else if c <= '\u{ffff}' {
        3
    } else {
        4
    }
}

/// A byte position at which a character begins, or the end of the text.
pub open spec fn is_boundary(s: Seq<char>, pos: nat) -> bool {
    exists|k: int| 0 <= k <= s.len() && byte_len(#[trigger] s.take(k)) == pos
}

/// The number of characters before a byte position.
pub open spec fn chars_before(s: Seq<char>, pos: nat) -> int {
    choose|k: int| 0 <= k <= s.len() && byte_len(#[trigger] s.take(k)) == pos
}

/// Longer beginnings of a text take more bytes.
pub proof fn lemma_byte_len_grows(s: Seq<char>, i: int, j: int)
    requires
        0 <= i < j <= s.len(),
    ensures
        byte_len(s.take(i)) < byte_len(s.take(j)),
    decreases j,
{
    assert(s.take(j).drop_last() =~= s.take(j - 1));
    if i < j - 1 {
        lemma_byte_len_grows(s, i, j - 1);
    }
}

/// A text takes a byte for each character at least.
pub proof fn lemma_byte_len_fits(s: Seq<char>)
    ensures
        s.len() <= byte_len(s),
    decreases s.len(),
{
    if s.len() > 0 {
        lemma_byte_len_fits(s.drop_last());
    }
}

/// Finds the number of characters before a byte position.
pub fn chars_before_of(v: &Vec<char>, pos: usize) -> (k: usize)
    requires
        is_boundary(v@, pos as nat),
    ensures
        k == chars_before(v@, pos as nat),
        k <= v.len(),
        byte_len(v@.take(k as int)) == pos,
{
    let ghost m = chars_before(v@, pos as nat);
    let mut k: usize = 0;
    let mut bytes: usize = 0;
    assert(v@.take(0) =~= Seq::<char>::empty());
    while bytes < pos
        invariant
            k <= v.len(),
            bytes == byte_len(v@.take(k as int)),
            0 <= m <= v.len(),
            byte_len(v@.take(m)) == pos,
            k <= m,
        decreases pos - bytes,
    {
        assert(k < m);
        assert(v@.take(k + 1).drop_last() =~= v@.take(k as int));
        proof {
            if k + 1 < m {
                lemma_byte_len_grows(v@, k + 1, m);
            }
        }
        bytes = bytes + width_of(v[k]);
        k = k + 1;
    }
    proof {
        if k < m {
            lemma_byte_len_grows(v@, k as int, m);
        }
    }
    k
}

/// Counts the bytes of the first `k` characters.
pub fn bytes_before(v: &Vec<char>, k: usize) -> (r: usize)
    requires
        k <= v.len(),
        byte_len(v@.take(k as int)) <= usize::MAX,
    ensures
        r == byte_len(v@.take(k as int)),
{
    let mut i: usize = 0;
    let mut bytes: usize = 0;
    assert(v@.take(0) =~= Seq::<char>::empty());
    while i < k
        invariant
            i <= k <= v.len(),
            bytes == byte_len(v@.take(i as int)),
            byte_len(v@.take(k as int)) <= usize::MAX,
        decreases k - i,
    {
        assert(v@.take(i + 1).drop_last() =~= v@.take(i as int));
        proof {
            if i + 1 < k {
                lemma_byte_len_grows(v@, i + 1, k as int);
            }
        }
        bytes = bytes + width_of(v[i]);
        i = i + 1;
    }
    bytes
}

// ── What holds of every text ────────────────────────────────────────────────

proof fn trim_start_cuts(s: Seq<char>) -> (i: int)
    ensures
        0 <= i <= s.len(),
        trim_start(s) == s.skip(i),
        forall|k: int| 0 <= k < i ==> is_white(#[trigger] s[k]),
        i < s.len() ==> !is_white(s[i]),
    decreases s.len(),
{
    if s.len() > 0 && is_white(s[0]) {
        let d = s.drop_first();
        let j = trim_start_cuts(d);
        assert(d.skip(j) =~= s.skip(j + 1));
        assert forall|k: int| 0 <= k < j + 1 implies is_white(#[trigger] s[k]) by {
            if k > 0 {
                assert(d[k - 1] == s[k]);
            }
        }
        if j < d.len() {
            assert(d[j] == s[j + 1]);
        }
        j + 1
    } else {
        assert(s.skip(0) =~= s);
        0
    }
}

proof fn trim_end_cuts(s: Seq<char>) -> (j: int)
    ensures
        0 <= j <= s.len(),
        trim_end(s) == s.take(j),
        forall|k: int| j <= k < s.len() ==> is_white(#[trigger] s[k]),
        j > 0 ==> !is_white(s[j - 1]),
    decreases s.len(),
{
    if s.len() > 0 && is_white(s.last()) {
        let d = s.drop_last();
        let j = trim_end_cuts(d);
        assert(d.take(j) =~= s.take(j));
        assert forall|k: int| j <= k < s.len() implies is_white(#[trigger] s[k]) by {
            if k < d.len() {
                assert(d[k] == s[k]);
            }
        }
        j
    } else {
        assert(s.take(s.len() as int) =~= s);
        s.len() as int
    }
}

/// Trimming takes white space off both ends, all of it, and nothing else.
pub proof fn trimming_takes_only_white(s: Seq<char>) -> (r: (int, int))
    ensures
        0 <= r.0 <= r.1 <= s.len(),
        trim(s) == s.subrange(r.0, r.1),
        forall|k: int| 0 <= k < r.0 || r.1 <= k < s.len() ==> is_white(#[trigger] s[k]),
        r.0 < r.1 ==> !is_white(s[r.0]) && !is_white(s[r.1 - 1]),
{
    let i = trim_start_cuts(s);
    let t = s.skip(i);
    let j = trim_end_cuts(t);
    assert(t.take(j) =~= s.subrange(i, i + j));
    assert forall|k: int| 0 <= k < i || i + j <= k < s.len() implies is_white(#[trigger] s[k]) by {
        if k >= i {
            assert(t[k - i] == s[k]);
        }
    }
    if j > 0 {
        assert(t[j - 1] == s[i + j - 1]);
        if i < s.len() && is_white(s[i]) {
            assert(false);
        }
    }
    (i, i + j)
}

/// The white space that texts are trimmed of holds blanks, tabs and line ends, and no letter,
/// digit or other visible character of ASCII.
pub proof fn white_space_is_invisible(c: char)
    ensures
        c == ' ' || c == '\t' || c == '\n' || c == '\r' ==> is_white(c),
        '!' <= c <= '~' ==> !is_white(c),
{
}

/// The bytes of two texts one behind the other are the bytes of the one, then of the other.
pub proof fn bytes_of_parts(a: Seq<char>, b: Seq<char>)
    ensures
        vstd::utf8::encode_utf8(a + b) == vstd::utf8::encode_utf8(a) + vstd::utf8::encode_utf8(b),
    decreases a.len(),
{
    if a.len() == 0 {
        assert(a + b =~= b);
        assert(vstd::utf8::encode_utf8(a) =~= Seq::empty());
        assert(vstd::utf8::encode_utf8(a) + vstd::utf8::encode_utf8(b) =~= vstd::utf8::encode_utf8(b));
    } else {
        assert((a + b).drop_first() =~= a.drop_first() + b);
        bytes_of_parts(a.drop_first(), b);
        let x = vstd::utf8::encode_scalar(a[0] as u32);
        assert(x + (vstd::utf8::encode_utf8(a.drop_first()) + vstd::utf8::encode_utf8(b)) =~= x
            + vstd::utf8::encode_utf8(a.drop_first()) + vstd::utf8::encode_utf8(b));
    }
}

proof fn width_counts_bytes(c: char)
    ensures
        vstd::utf8::encode_scalar(c as u32).len() == width(c),
{
    vstd::utf8::char_is_scalar(c);
}

/// The number of bytes that a text takes is the number of its bytes.
pub proof fn byte_len_counts_bytes(s: Seq<char>)
    ensures
        byte_len(s) == vstd::utf8::encode_utf8(s).len(),
    decreases s.len(),
{
    if s.len() > 0 {
        let d = s.drop_last();
        let l = seq![s.last()];
        byte_len_counts_bytes(d);
        assert(s =~= d + l);
        bytes_of_parts(d, l);
        vstd::utf8::char_is_scalar(s.last());
        assert(l.drop_first() =~= Seq::empty());
        assert(vstd::utf8::encode_utf8(l.drop_first()) =~= Seq::empty());
        assert(vstd::utf8::encode_utf8(l) =~= vstd::utf8::encode_scalar(s.last() as u32));
        width_counts_bytes(s.last());
    } else {
        assert(vstd::utf8::encode_utf8(s) =~= Seq::empty());
    }
}

/// Whether a text holds some parts, each behind the one before it.
pub open spec fn holds_in_order(s: Seq<char>, parts: Seq<Seq<char>>) -> bool
    decreases parts.len(),
{
    parts.len() == 0 || exists|i: int|
        #[trigger] matches_at(s, parts[0], i) && holds_in_order(
            s.skip(i + parts[0].len()),
            parts.drop_first(),
        )
}

/// What holds parts in order still holds them behind one more.
pub proof fn lemma_holds_next(gap: Seq<char>, part: Seq<char>, rest: Seq<char>, parts: Seq<Seq<char>>)
    requires
        holds_in_order(rest, parts),
    ensures
        holds_in_order(gap + part + rest, seq![part] + parts),
{
    let s = gap + part + rest;
    let all = seq![part] + parts;
    let i = gap.len() as int;
    assert(s.subrange(i, i + part.len()) =~= part);
    assert(matches_at(s, all[0], i));
    assert(s.skip(i + part.len()) =~= rest);
    assert(all.drop_first() =~= parts);
}

/// A text with no white space at either end.
pub open spec fn is_trimmed(s: Seq<char>) -> bool {
    s.len() > 0 ==> !is_white(s[0]) && !is_white(s.last())
}

pub open spec fn all_white(s: Seq<char>) -> bool {
    forall|k: int| 0 <= k < s.len() ==> is_white(#[trigger] s[k])
}

pub(crate) proof fn white_before_goes(a: Seq<char>, s: Seq<char>)
    requires
        all_white(a),
        s.len() > 0 ==> !is_white(s[0]),
    ensures
        trim_start(a + s) == s,
    decreases a.len(),
{
    if a.len() == 0 {
        assert(a + s =~= s);
    } else {
        let d = a.drop_first();
        assert forall|k: int| 0 <= k < d.len() implies is_white(#[trigger] d[k]) by {
            assert(d[k] == a[k + 1]);
        }
        white_before_goes(d, s);
        assert((a + s)[0] == a[0]);
        assert((a + s).drop_first() =~= d + s);
    }
}

pub(crate) proof fn white_behind_goes(s: Seq<char>, b: Seq<char>)
    requires
        all_white(b),
        s.len() > 0 ==> !is_white(s.last()),
    ensures
        trim_end(s + b) == s,
    decreases b.len(),
{
    if b.len() == 0 {
        assert(s + b =~= s);
    } else {
        let d = b.drop_last();
        assert forall|k: int| 0 <= k < d.len() implies is_white(#[trigger] d[k]) by {
            assert(d[k] == b[k]);
        }
        white_behind_goes(s, d);
        assert((s + b).last() == b.last());
        assert(b.last() == b[b.len() - 1]);
        assert((s + b).drop_last() =~= s + d);
    }
}

/// A text without white space at its ends is what is left of it once white space that was put
/// around it is taken off.
pub proof fn white_space_around_goes(a: Seq<char>, s: Seq<char>, b: Seq<char>)
    requires
        all_white(a),
        all_white(b),
        is_trimmed(s),
    ensures
        trim(a + s + b) == s,
        trim(s) == s,
        trim_start(a + s) == s,
        trim_end(s + b) == s,
        trim_start(s) == s,
        trim_end(s) == s,
{
    white_before_goes(a, s);
    white_behind_goes(s, b);
    white_before_goes(Seq::empty(), s);
    white_behind_goes(s, Seq::empty());
    assert(Seq::<char>::empty() + s =~= s);
    assert(s + Seq::<char>::empty() =~= s);
    if s.len() == 0 {
        assert(a + s + b =~= (a + b) + s);
        white_before_goes(a + b, s);
    } else {
        assert(a + s + b =~= a + (s + b));
        white_before_goes(a, s + b);
    }
}

/// What two texts hold in order, the one behind the other holds in order.
pub proof fn both_parts_are_held(a: Seq<char>, p: Seq<Seq<char>>, b: Seq<char>, q: Seq<Seq<char>>)
    requires
        holds_in_order(a, p),
        holds_in_order(b, q),
    ensures
        holds_in_order(a + b, p + q),
    decreases p.len(),
{
    if p.len() == 0 {
        assert(p + q =~= q);
        if q.len() > 0 {
            let i = choose|i: int|
                #[trigger] matches_at(b, q[0], i) && holds_in_order(
                    b.skip(i + q[0].len()),
                    q.drop_first(),
                );
            let k = a.len() + i;
            assert((a + b).subrange(k, k + q[0].len()) =~= b.subrange(i, i + q[0].len()));
            assert((a + b).skip(k + q[0].len()) =~= b.skip(i + q[0].len()));
            assert(matches_at(a + b, q[0], k));
        }
    } else {
        let i = choose|i: int|
            #[trigger] matches_at(a, p[0], i) && holds_in_order(
                a.skip(i + p[0].len()),
                p.drop_first(),
            );
        let n = i + p[0].len();
        assert((a + b).subrange(i, n) =~= a.subrange(i, n));
        assert((a + b).skip(n) =~= a.skip(n) + b);
        assert((p + q).drop_first() =~= p.drop_first() + q);
        assert((p + q)[0] == p[0]);
        both_parts_are_held(a.skip(n), p.drop_first(), b, q);
        assert(matches_at(a + b, (p + q)[0], i));
    }
}

/// A text holds itself, and what is held stays held with more around it.
pub proof fn a_text_holds_itself(a: Seq<char>, x: Seq<char>, b: Seq<char>)
    ensures
        holds_in_order(x, seq![x]),
        holds_in_order(a + x, seq![x]),
        holds_in_order(x + b, seq![x]),
        holds_in_order(a + x + b, seq![x]),
{
    let e = Seq::<Seq<char>>::empty();
    assert(x.subrange(0, x.len() as int) =~= x);
    assert(matches_at(x, seq![x][0], 0));
    let p = seq![x];
    assert(p.drop_first() =~= e);
    assert(holds_in_order(x.skip(0 + p[0].len() as int), p.drop_first()));
    assert(holds_in_order(x, p));
    both_parts_are_held(a, e, x, seq![x]);
    assert(e + seq![x] =~= seq![x]);
    both_parts_are_held(x, seq![x], b, e);
    assert(seq![x] + e =~= seq![x]);
    both_parts_are_held(a + x, seq![x], b, e);
}

/// One text more, which is held, behind others that are.
pub proof fn one_more_is_held(s: Seq<char>, p: Seq<Seq<char>>, x: Seq<char>)
    requires
        holds_in_order(s, p),
    ensures
        holds_in_order(s + x, p.push(x)),
        holds_in_order(s + x, p),
{
    a_text_holds_itself(Seq::empty(), x, Seq::empty());
    both_parts_are_held(s, p, x, seq![x]);
    assert(p + seq![x] =~= p.push(x));
    both_parts_are_held(s, p, x, Seq::empty());
    assert(p + Seq::<Seq<char>>::empty() =~= p);
}

/// A text that is filled up to a width is as wide, and holds the text at its front or its end
/// with blanks alone beside it; one that is wide enough stays as it is.
pub proof fn padding_adds_only_blanks(s: Seq<char>, width: nat)
    ensures
        s.len() >= width ==> pad_right(s, width) == s && pad_left(s, width) == s,
        s.len() < width ==> {
            &&& pad_right(s, width).len() == width
            &&& pad_right(s, width).take(s.len() as int) == s
            &&& forall|i: int| s.len() <= i < width ==> #[trigger] pad_right(s, width)[i] == ' '
            &&& pad_left(s, width).len() == width
            &&& pad_left(s, width).skip(width - s.len()) == s
            &&& forall|i: int|
                0 <= i < width - s.len() ==> #[trigger] pad_left(s, width)[i] == ' '
        },
{
    if s.len() < width {
        assert(pad_right(s, width).take(s.len() as int) =~= s);
        assert(pad_left(s, width).skip(width - s.len()) =~= s);
    }
}

} // verus!
