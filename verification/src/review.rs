//! Looking over changes: reading a diff, sharing it out among readers, and reporting what
//! they found.
use vstd::prelude::*;

use crate::numeral;
use crate::numeral::{dec_usize, dec_wide};
use crate::pieces;
use crate::pieces::{join_of, lines_of, split_once_of};
use crate::say;
use crate::say::{just, msg, Output};
use crate::text;
use crate::text::{behind, cat, chars_of, copy_text, has_prefix, match_at, same, sub_text, trimmed, trimmed_end, trimmed_start, white};

verus! {

/// A diff that is larger than this is cut, in bytes.
pub const MAX_DIFF_BYTES: usize = 262144;

/// How many lines of each file a cut diff keeps.
pub const MAX_FILE_DIFF_LINES: usize = 200;

/// A sequence of texts in pairs: a file and its part of a diff.
pub type Segments = Seq<(Seq<char>, Seq<char>)>;

pub open spec fn is_header(line: Seq<char>) -> bool {
    text::starts_with(line, "diff --git "@)
}

// ── Cutting a diff ──────────────────────────────────────────────────────────

/// How many lines stand between a line and the start of its file.
pub open spec fn since_header(lines: Seq<Seq<char>>, i: int) -> nat
    decreases i,
{
    if i <= 0 || is_header(lines[i]) {
        0
    } else {
        since_header(lines, i - 1) + 1
    }
}

/// The lines among the first `n` that are near enough to the start of their file.
pub open spec fn kept(lines: Seq<Seq<char>>, max: nat, n: int) -> Seq<char>
    decreases n,
{
    if n <= 0 {
        Seq::empty()
    } else if since_header(lines, n - 1) < max {
        kept(lines, max, n - 1) + lines[n - 1] + "\n"@
    } else {
        kept(lines, max, n - 1)
    }
}

/// A summary and the first lines of each file.
pub open spec fn cut_diff(diff: Seq<char>, max: nat, stat: Seq<char>) -> Seq<char> {
    text::trim_end(stat) + "\n\n"@ + kept(
        pieces::lines(diff),
        max,
        pieces::lines(diff).len() as int,
    )
}

pub fn truncate_diff(diff: &str, max_lines: usize, stat: &str) -> (r: String)
    ensures
        r@ == cut_diff(diff@, max_lines as nat, stat@),
{
    let head = cat(&trimmed_end(stat), "\n\n");
    let mut body = String::new();
    let lines = lines_of(diff);
    let ghost lv = pieces::lines(diff@);
    assert(lv.len() == lines.len());
    let mut count: usize = 0;
    let mut i: usize = 0;
    while i < lines.len()
        invariant
            i <= lines.len(),
            lv == text::texts(lines@),
            count <= i,
            count == (if i == 0 {
                0
            } else {
                since_header(lv, i - 1) + 1
            }),
            body@ == kept(lv, max_lines as nat, i as int),
        decreases lines.len() - i,
    {
        assert(lv[i as int] == lines@[i as int]@);
        if has_prefix(&lines[i], "diff --git ") {
            count = 0;
        }
        assert(count == since_header(lv, i as int));
        if count < max_lines {
            body = cat(&cat(&body, &lines[i]), "\n");
        }
        count = count + 1;
        i = i + 1;
    }
    cat(&head, &body)
}

// ── The files of a diff ─────────────────────────────────────────────────────

/// Where a text last occurs in another, or -1.
pub open spec fn last_find(s: Seq<char>, p: Seq<char>, i: int) -> int
    decreases i + 1,
{
    if i < 0 {
        -1
    } else if text::matches_at(s, p, i) {
        i
    } else {
        last_find(s, p, i - 1)
    }
}

/// What stands behind the last occurrence of a text, or all of it.
pub open spec fn behind_last(s: Seq<char>, p: Seq<char>) -> Seq<char> {
    let i = last_find(s, p, s.len() as int);
    if i < 0 {
        s
    } else {
        s.skip(i + p.len())
    }
}

fn behind_last_of(s: &str, p: &str) -> (r: String)
    ensures
        r@ == behind_last(s@, p@),
{
    let v = chars_of(s);
    let pv = chars_of(p);
    let mut i: usize = v.len();
    loop
        invariant
            i <= v.len(),
            v@ == s@,
            pv@ == p@,
            last_find(s@, p@, s@.len() as int) == last_find(s@, p@, i as int),
        decreases i,
    {
        if match_at(&v, &pv, i) {
            assert(s@.skip(i + p@.len()) =~= s@.subrange(i + p@.len(), s@.len() as int));
            return sub_text(&v, i + pv.len(), v.len());
        }
        if i == 0 {
            assert(last_find(s@, p@, -1) == -1);
            return copy_text(s);
        }
        i = i - 1;
    }
}

pub open spec fn without_quotes_before(s: Seq<char>) -> Seq<char>
    decreases s.len(),
{
    if s.len() > 0 && s[0] == '"' {
        without_quotes_before(s.skip(1))
    } else {
        s
    }
}

pub open spec fn without_quotes_behind(s: Seq<char>) -> Seq<char>
    decreases s.len(),
{
    if s.len() > 0 && s.last() == '"' {
        without_quotes_behind(s.drop_last())
    } else {
        s
    }
}

fn without_quotes_of(s: &str) -> (r: String)
    ensures
        r@ == without_quotes_behind(without_quotes_before(s@)),
{
    let v = chars_of(s);
    let mut i: usize = 0;
    assert(s@.skip(0) =~= s@);
    while i < v.len() && v[i] == '"'
        invariant
            i <= v.len(),
            v@ == s@,
            without_quotes_before(s@) == without_quotes_before(s@.skip(i as int)),
        decreases v.len() - i,
    {
        assert(s@.skip(i as int).skip(1) =~= s@.skip(i + 1));
        i = i + 1;
    }
    let ghost w = s@.skip(i as int);
    let mut j: usize = v.len();
    assert(w =~= s@.subrange(i as int, j as int));
    while j > i && v[j - 1] == '"'
        invariant
            i <= j <= v.len(),
            v@ == s@,
            without_quotes_behind(w) == without_quotes_behind(s@.subrange(i as int, j as int)),
        decreases j,
    {
        assert(s@.subrange(i as int, j as int).drop_last() =~= s@.subrange(i as int, j - 1));
        j = j - 1;
    }
    sub_text(&v, i, j)
}

/// How many backslashes stand right before a place.
pub open spec fn backslashes(s: Seq<char>, i: int) -> nat
    decreases i,
{
    if i > 0 && s[i - 1] == '\\' {
        backslashes(s, i - 1) + 1
    } else {
        0
    }
}

/// A quote at a place that no backslash escapes.
pub open spec fn is_quote(s: Seq<char>, i: int) -> bool {
    0 <= i < s.len() && s[i] == '"' && backslashes(s, i) % 2 == 0
}

/// The last quote before a place that no backslash escapes, or -1.
pub open spec fn quote_before(s: Seq<char>, i: int) -> int
    decreases i,
{
    if i <= 0 {
        -1
    } else if is_quote(s, i - 1) {
        i - 1
    } else {
        quote_before(s, i - 1)
    }
}

/// Where the path in quotes at the end of a text begins, or -1 where there is none: the quote
/// that opens it stands at the front or behind a blank.
pub open spec fn quoted_from(s: Seq<char>) -> int {
    let k = quote_before(s, s.len() - 1);
    if is_quote(s, s.len() - 1) && k >= 0 && (k == 0 || s[k - 1] == ' ') {
        k + 1
    } else {
        -1
    }
}

/// The path that a header names: that of the new file.
pub open spec fn header_path(rest: Seq<char>) -> Seq<char> {
    let k = quoted_from(rest);
    let path = if k >= 0 {
        text::trim(rest.subrange(k, rest.len() - 1))
    } else {
        without_quotes_behind(without_quotes_before(text::trim(behind_last(rest, " b/"@))))
    };
    match text::after(path, "b/"@) {
        Some(p) => p,
        None => path,
    }
}

fn quote_at(v: &Vec<char>, i: usize) -> (r: bool)
    requires
        i < v.len(),
    ensures
        r == is_quote(v@, i as int),
{
    if v[i] != '"' {
        return false;
    }
    let mut even: bool = true;
    let mut j: usize = i;
    while j > 0 && v[j - 1] == '\\'
        invariant
            j <= i < v.len(),
            even == ((backslashes(v@, i as int) - backslashes(v@, j as int)) % 2 == 0),
        decreases j,
    {
        even = !even;
        j = j - 1;
    }
    even
}

fn quoted_from_of(v: &Vec<char>) -> (r: Option<usize>)
    ensures
        match r {
            Some(k) => quoted_from(v@) == k && k < v.len(),
            None => quoted_from(v@) == -1,
        },
{
    if v.len() == 0 || !quote_at(v, v.len() - 1) {
        return None;
    }
    let mut i: usize = v.len() - 1;
    while i > 0 && !quote_at(v, i - 1)
        invariant
            i < v.len(),
            quote_before(v@, v@.len() - 1) == quote_before(v@, i as int),
        decreases i,
    {
        i = i - 1;
    }
    if i > 0 && (i == 1 || v[i - 2] == ' ') {
        Some(i)
    } else {
        None
    }
}

fn header_path_of(rest: &str) -> (r: String)
    ensures
        r@ == header_path(rest@),
{
    let v = chars_of(rest);
    let path = match quoted_from_of(&v) {
        Some(k) => trimmed(&sub_text(&v, k, v.len() - 1)),
        None => without_quotes_of(&trimmed(&behind_last_of(rest, " b/"))),
    };
    match behind(&path, "b/") {
        Some(p) => p,
        None => path,
    }
}

/// The files of the first `n` lines, each with its lines.
pub open spec fn entries_of(lines: Seq<Seq<char>>, n: int) -> Segments
    decreases n,
{
    if n <= 0 {
        Seq::empty()
    } else {
        let before = entries_of(lines, n - 1);
        let line = lines[n - 1];
        match text::after(line, "diff --git "@) {
            Some(rest) => before.push((header_path(rest), line + "\n"@)),
            None => if before.len() == 0 {
                before
            } else {
                before.drop_last().push((before.last().0, before.last().1 + line + "\n"@))
            },
        }
    }
}

pub open spec fn diff_entries(diff: Seq<char>) -> Segments {
    entries_of(pieces::lines(diff), pieces::lines(diff).len() as int)
}

pub open spec fn segments(v: Seq<(String, String)>) -> Segments {
    Seq::new(v.len(), |i: int| (v[i].0@, v[i].1@))
}

/// The files of a diff, each with its part of it. Lines before the first header are left
/// out.
pub fn parse_diff_entries(diff: &str) -> (r: Vec<(String, String)>)
    ensures
        segments(r@) == diff_entries(diff@),
{
    let lines = lines_of(diff);
    let ghost lv = pieces::lines(diff@);
    assert(lv.len() == lines.len());
    let mut r: Vec<(String, String)> = Vec::new();
    let mut i: usize = 0;
    assert(segments(r@) =~= entries_of(lv, 0));
    while i < lines.len()
        invariant
            i <= lines.len(),
            lv == text::texts(lines@),
            segments(r@) == entries_of(lv, i as int),
        decreases lines.len() - i,
    {
        assert(lv[i as int] == lines@[i as int]@);
        let ghost before = segments(r@);
        let line = &lines[i];
        assert(before.len() == r.len());
        match behind(line, "diff --git ") {
            Some(rest) => {
                let path = header_path_of(&rest);
                let seg = cat(line, "\n");
                r.push((path, seg));
                assert(segments(r@) =~= before.push((path@, seg@)));
            },
            None => {
                if r.len() > 0 {
                    let k: usize = r.len() - 1;
                    let path = copy_text(&r[k].0);
                    let seg = cat(&cat(&r[k].1, line), "\n");
                    assert(before.last() == (r@[k as int].0@, r@[k as int].1@));
                    r.set(k, (path, seg));
                    assert(segments(r@) =~= before.drop_last().push((path@, seg@)));
                }
            },
        }
        i = i + 1;
    }
    r
}

/// How many of the first `n` lines are new.
pub open spec fn added(lines: Seq<Seq<char>>, n: int) -> nat
    decreases n,
{
    if n <= 0 {
        0
    } else {
        added(lines, n - 1) + (if text::starts_with(lines[n - 1], "+"@) && !text::starts_with(
            lines[n - 1],
            "+++"@,
        ) {
            1nat
        } else {
            0
        })
    }
}

pub open spec fn added_in(diff: Seq<char>) -> nat {
    added(pieces::lines(diff), pieces::lines(diff).len() as int)
}

pub fn count_added_lines(diff: &str) -> (r: usize)
    ensures
        r == added_in(diff@),
{
    let lines = lines_of(diff);
    let ghost lv = pieces::lines(diff@);
    assert(lv.len() == lines.len());
    let mut r: usize = 0;
    let mut i: usize = 0;
    while i < lines.len()
        invariant
            i <= lines.len(),
            lv == text::texts(lines@),
            r <= i,
            r == added(lv, i as int),
        decreases lines.len() - i,
    {
        assert(lv[i as int] == lines@[i as int]@);
        if has_prefix(&lines[i], "+") && !has_prefix(&lines[i], "+++") {
            r = r + 1;
        }
        i = i + 1;
    }
    r
}

// ── Sharing out ─────────────────────────────────────────────────────────────

proof fn lemma_added_over_parts(a: Seq<Seq<char>>, b: Seq<Seq<char>>, n: int)
    requires
        0 <= n <= b.len(),
    ensures
        added(a + b, a.len() + n) == added(a, a.len() as int) + added(b, n),
    decreases n,
{
    if n > 0 {
        lemma_added_over_parts(a, b, n - 1);
        assert((a + b)[a.len() + n - 1] == b[n - 1]);
    } else {
        lemma_added_of_prefix(a, b, a.len() as int);
    }
}

proof fn lemma_added_of_prefix(a: Seq<Seq<char>>, b: Seq<Seq<char>>, n: int)
    requires
        n <= a.len(),
    ensures
        added(a + b, n) == added(a, n),
    decreases n,
{
    if n > 0 {
        lemma_added_of_prefix(a, b, n - 1);
        assert((a + b)[n - 1] == a[n - 1]);
    }
}

/// The new lines of two parts add up, where the first part ends with a line.
pub proof fn added_lines_add_up(a: Seq<char>, b: Seq<char>)
    requires
        a.len() > 0 ==> a.last() == '\n',
    ensures
        added_in(a + b) == added_in(a) + added_in(b),
{
    pieces::lemma_lines_of_parts(a, b);
    lemma_added_over_parts(pieces::lines(a), pieces::lines(b), pieces::lines(b).len() as int);
}

/// How heavy a diff is: three for each file and one for every twenty new lines.
pub open spec fn weight(files: usize, added_lines: usize) -> nat {
    (if files * 3 > usize::MAX {
        usize::MAX as nat
    } else {
        (files * 3) as nat
    }) + (added_lines / 20) as nat
}

pub fn diff_weight(files: usize, added_lines: usize) -> (r: usize)
    requires
        weight(files, added_lines) <= usize::MAX,
    ensures
        r == weight(files, added_lines),
{
    let w: usize = match files.checked_mul(3) {
        Some(w) => w,
        None => usize::MAX,
    };
    w + added_lines / 20
}

pub fn auto_reviewer_count(files: usize) -> (r: usize)
    ensures
        r == (if files <= 2 {
            1int
        } else if files <= 6 {
            2
        } else {
            4
        }),
{
    if files <= 2 {
        1
    } else if files <= 6 {
        2
    } else {
        4
    }
}

/// How many readers there are: as many as asked for, from one to four, or else by the
/// number of files.
pub open spec fn reviewer_count(explicit: Option<usize>, files: usize) -> usize {
    match explicit {
        Some(n) => if n < 1 {
            1
        } else if n > 4 {
            4
        } else {
            n
        },
        None => if files <= 2 {
            1
        } else if files <= 6 {
            2
        } else {
            4
        },
    }
}

pub fn pick_reviewer_count(explicit: Option<usize>, files: usize) -> (r: usize)
    ensures
        r == reviewer_count(explicit, files),
        1 <= r <= 4,
{
    match explicit {
        Some(n) => if n < 1 {
            1
        } else if n > 4 {
            4
        } else {
            n
        },
        None => auto_reviewer_count(files),
    }
}

/// The group that a file belongs to.
pub open spec fn group_of(i: int, n: int, len: int) -> int {
    i * n / len
}

/// The parts of the first `m` files that fall to a group.
pub open spec fn group_text(e: Segments, n: int, k: int, m: int) -> Seq<char>
    decreases m,
{
    if m <= 0 {
        Seq::empty()
    } else if group_of(m - 1, n, e.len() as int) == k {
        group_text(e, n, k, m - 1) + e[m - 1].1
    } else {
        group_text(e, n, k, m - 1)
    }
}

/// The files in groups of nearly the same number, in their order.
pub open spec fn groups(e: Segments, n: nat) -> Seq<Seq<char>> {
    let c = if n <= e.len() {
        n
    } else {
        e.len()
    };
    Seq::new(c, |k: int| group_text(e, c as int, k, e.len() as int))
}

proof fn group_in_range(i: int, n: int, len: int)
    requires
        0 <= i < len,
        0 < n <= len,
    ensures
        0 <= group_of(i, n, len) < n,
        0 <= i * n <= usize::MAX * usize::MAX || n > usize::MAX || len > usize::MAX,
{
    assert(0 <= i * n / len < n) by (nonlinear_arith)
        requires
            0 <= i < len,
            0 < n <= len,
    ;
    if n <= usize::MAX && len <= usize::MAX {
        assert(0 <= i * n <= usize::MAX * usize::MAX) by (nonlinear_arith)
            requires
                0 <= i < len,
                0 < n <= usize::MAX,
                len <= usize::MAX,
        ;
    }
}

pub fn chunk_diff_entries(entries: &Vec<(String, String)>, n: usize) -> (r: Vec<String>)
    ensures
        text::texts(r@) == groups(segments(entries@), n as nat),
{
    let ghost e = segments(entries@);
    if entries.len() == 0 || n == 0 {
        let r: Vec<String> = Vec::new();
        assert(text::texts(r@) =~= groups(e, n as nat));
        return r;
    }
    let c: usize = if n <= entries.len() {
        n
    } else {
        entries.len()
    };
    let mut r: Vec<String> = Vec::new();
    let mut k: usize = 0;
    while k < c
        invariant
            k <= c,
            r.len() == k,
            forall|j: int| 0 <= j < k ==> (#[trigger] r@[j])@ == Seq::<char>::empty(),
        decreases c - k,
    {
        r.push(String::new());
        k = k + 1;
    }
    let mut i: usize = 0;
    while i < entries.len()
        invariant
            i <= entries.len(),
            e == segments(entries@),
            0 < c <= entries.len(),
            r.len() == c,
            forall|j: int|
                0 <= j < c ==> (#[trigger] r@[j])@ == group_text(e, c as int, j, i as int),
        decreases entries.len() - i,
    {
        proof {
            group_in_range(i as int, c as int, entries.len() as int);
            assert(usize::MAX * usize::MAX <= u128::MAX) by (nonlinear_arith)
                requires
                    usize::MAX <= 0xffff_ffff_ffff_ffff,
            ;
        }
        let g: usize = ((i as u128 * c as u128) / entries.len() as u128) as usize;
        assert(g == group_of(i as int, c as int, e.len() as int));
        assert(e[i as int].1 == entries@[i as int].1@);
        let t = cat(&r[g], &entries[i].1);
        r.set(g, t);
        i = i + 1;
    }
    assert(text::texts(r@) =~= groups(e, n as nat));
    r
}

/// The texts one behind the other.
pub open spec fn all_of(v: Seq<Seq<char>>) -> Seq<char> {
    pieces::join(v, Seq::empty())
}

/// The parts of the first `m` files one behind the other.
pub open spec fn all_parts(e: Segments, m: int) -> Seq<char>
    decreases m,
{
    if m <= 0 {
        Seq::empty()
    } else {
        all_parts(e, m - 1) + e[m - 1].1
    }
}

/// The groups one behind the other, up to group `k`, each with its parts of the first `m`
/// files.
spec fn upto(e: Segments, n: int, k: int, m: int) -> Seq<char>
    decreases k,
{
    if k <= 0 {
        Seq::empty()
    } else {
        upto(e, n, k - 1, m) + group_text(e, n, k - 1, m)
    }
}

proof fn later_groups_are_empty(e: Segments, n: int, k: int, m: int)
    requires
        0 < n <= e.len(),
        0 <= m <= e.len(),
        m > 0 ==> k > group_of(m - 1, n, e.len() as int),
        k >= 0,
    ensures
        group_text(e, n, k, m) == Seq::<char>::empty(),
    decreases m,
{
    if m > 0 {
        if m > 1 {
            let len = e.len() as int;
            assert((m - 2) * n / len <= (m - 1) * n / len) by (nonlinear_arith)
                requires
                    m >= 2,
                    n > 0,
                    len > 0,
            ;
        }
        later_groups_are_empty(e, n, k, m - 1);
    }
}

proof fn upto_step(e: Segments, n: int, k: int, m: int)
    requires
        0 < n <= e.len(),
        0 < m <= e.len(),
        0 <= k <= n,
    ensures
        k > group_of(m - 1, n, e.len() as int) ==> upto(e, n, k, m) == upto(e, n, k, m - 1)
            + e[m - 1].1,
        k <= group_of(m - 1, n, e.len() as int) ==> upto(e, n, k, m) == upto(e, n, k, m - 1),
    decreases k,
{
    let g = group_of(m - 1, n, e.len() as int);
    group_in_range(m - 1, n, e.len() as int);
    if k > 0 {
        upto_step(e, n, k - 1, m);
        if k - 1 == g {
            assert(upto(e, n, k, m) =~= upto(e, n, k, m - 1) + e[m - 1].1);
        } else if k - 1 > g {
            if m > 1 {
                let len = e.len() as int;
                assert((m - 2) * n / len <= (m - 1) * n / len) by (nonlinear_arith)
                    requires
                        m >= 2,
                        n > 0,
                        len > 0,
                ;
            }
            later_groups_are_empty(e, n, k - 1, m - 1);
            later_groups_are_empty(e, n, k - 1, m);
            assert(upto(e, n, k, m) =~= upto(e, n, k - 1, m));
            assert(upto(e, n, k, m - 1) =~= upto(e, n, k - 1, m - 1));
        }
    }
}

proof fn upto_is_all(e: Segments, n: int, m: int)
    requires
        0 < n <= e.len(),
        0 <= m <= e.len(),
    ensures
        upto(e, n, n, m) == all_parts(e, m),
    decreases m,
{
    if m > 0 {
        upto_is_all(e, n, m - 1);
        upto_step(e, n, n, m);
        group_in_range(m - 1, n, e.len() as int);
    } else {
        upto_nothing(e, n, n);
    }
}

proof fn upto_nothing(e: Segments, n: int, k: int)
    ensures
        upto(e, n, k, 0) == Seq::<char>::empty(),
    decreases k,
{
    if k > 0 {
        upto_nothing(e, n, k - 1);
        assert(upto(e, n, k, 0) =~= Seq::<char>::empty());
    }
}

proof fn joined_is_upto(e: Segments, n: int, k: int, m: int)
    requires
        0 <= k,
    ensures
        all_of(Seq::new(k as nat, |j: int| group_text(e, n, j, m))) == upto(e, n, k, m),
    decreases k,
{
    let v = Seq::new(k as nat, |j: int| group_text(e, n, j, m));
    if k > 0 {
        joined_is_upto(e, n, k - 1, m);
        let w = Seq::new((k - 1) as nat, |j: int| group_text(e, n, j, m));
        assert(v.drop_last() =~= w);
        assert(all_of(v) =~= all_of(w) + v.last());
    } else {
        assert(all_of(v) =~= Seq::<char>::empty());
    }
}

/// Every file falls to some reader: one behind the other the groups are the whole diff,
/// in its order.
pub proof fn groups_lose_nothing(e: Segments, n: nat)
    requires
        n > 0,
        e.len() > 0,
    ensures
        all_of(groups(e, n)) == all_parts(e, e.len() as int),
{
    let c: nat = if n <= e.len() {
        n
    } else {
        e.len()
    };
    joined_is_upto(e, c as int, c as int, e.len() as int);
    assert(groups(e, n) =~= Seq::new(
        c,
        |j: int| group_text(e, c as int, j, e.len() as int),
    ));
    upto_is_all(e, c as int, e.len() as int);
}

/// How many of the first `m` of so many files fall to a group.
pub open spec fn group_size(len: int, n: int, k: int, m: int) -> nat
    decreases m,
{
    if m <= 0 {
        0
    } else if group_of(m - 1, n, len) == k {
        group_size(len, n, k, m - 1) + 1
    } else {
        group_size(len, n, k, m - 1)
    }
}

/// The first file of a group.
spec fn group_start(len: int, n: int, k: int) -> int {
    (k * len + n - 1) / n
}

proof fn lemma_group_is_stretch(len: int, n: int, k: int, i: int)
    requires
        0 < n <= len,
        0 <= i < len,
    ensures
        group_of(i, n, len) == k <==> group_start(len, n, k) <= i < group_start(len, n, k + 1),
{
    lemma_quotient(i * n, len, k);
    lemma_start(len, n, k, i);
    lemma_start(len, n, k + 1, i);
}

/// A quotient is the number whose multiple is reached and whose next multiple is not.
proof fn lemma_quotient(x: int, d: int, q: int)
    requires
        d > 0,
    ensures
        x / d == q <==> q * d <= x < (q + 1) * d,
{
    vstd::arithmetic::div_mod::lemma_fundamental_div_mod(x, d);
    let p = x / d;
    let r = x % d;
    assert(x == d * p + r && 0 <= r < d);
    assert((p + 1) * d == p * d + d && p * d == d * p) by (nonlinear_arith);
    assert((q + 1) * d == q * d + d) by (nonlinear_arith);
    if q * d <= x < (q + 1) * d {
        if p < q {
            assert((p + 1) * d <= q * d) by (nonlinear_arith)
                requires
                    p + 1 <= q,
                    d > 0,
            ;
        }
        if p > q {
            assert((q + 1) * d <= p * d) by (nonlinear_arith)
                requires
                    q + 1 <= p,
                    d > 0,
            ;
        }
    }
}

/// A file stands behind the beginning of a group when its share does.
proof fn lemma_start(len: int, n: int, k: int, i: int)
    requires
        n > 0,
    ensures
        group_start(len, n, k) <= i <==> k * len <= i * n,
{
    let x = k * len + n - 1;
    let p = x / n;
    lemma_quotient(x, n, p);
    assert((p + 1) * n == p * n + n) by (nonlinear_arith);
    if p <= i {
        assert(p * n <= i * n) by (nonlinear_arith)
            requires
                p <= i,
                n > 0,
        ;
        assert(k * len < p * n + 1);
    } else {
        assert((i + 1) * n <= p * n) by (nonlinear_arith)
            requires
                i + 1 <= p,
                n > 0,
        ;
        assert((i + 1) * n == i * n + n) by (nonlinear_arith);
    }
}

proof fn lemma_group_size(len: int, n: int, k: int, m: int)
    requires
        0 < n <= len,
        0 <= k < n,
        0 <= m <= len,
    ensures
        ({
            let a = group_start(len, n, k);
            let b = group_start(len, n, k + 1);
            group_size(len, n, k, m) == if m <= a {
                0
            } else if m <= b {
                m - a
            } else {
                b - a
            }
        }),
    decreases m,
{
    lemma_stretch_length(len, n, k);
    let a = group_start(len, n, k);
    if m > 0 {
        lemma_group_size(len, n, k, m - 1);
        lemma_group_is_stretch(len, n, k, m - 1);
    } else {
        assert(k * len >= 0) by (nonlinear_arith)
            requires
                k >= 0,
                len > 0,
        ;
        lemma_start(len, n, k, -1);
    }
}

proof fn lemma_stretch_length(len: int, n: int, k: int)
    requires
        0 < n <= len,
    ensures
        len / n <= group_start(len, n, k + 1) - group_start(len, n, k) <= len / n + 1,
{
    let x = k * len + n - 1;
    let q = len / n;
    let p = x / n;
    assert((k + 1) * len + n - 1 == x + len) by (nonlinear_arith)
        requires
            x == k * len + n - 1,
    ;
    let t = (x + len) / n;
    lemma_quotient(len, n, q);
    lemma_quotient(x, n, p);
    lemma_quotient(x + len, n, t);
    assert((p + q) * n == p * n + q * n) by (nonlinear_arith);
    assert((p + q + 2) * n == p * n + q * n + 2 * n) by (nonlinear_arith);
    assert((p + 1) * n == p * n + n && (q + 1) * n == q * n + n && (t + 1) * n == t * n + n)
        by (nonlinear_arith);
    if t < p + q {
        assert((t + 1) * n <= (p + q) * n) by (nonlinear_arith)
            requires
                t + 1 <= p + q,
                n > 0,
        ;
    }
    if t > p + q + 1 {
        assert((p + q + 2) * n <= t * n) by (nonlinear_arith)
            requires
                p + q + 2 <= t,
                n > 0,
        ;
    }
}

/// The groups are nearly equal: any two differ by one file at most, and none is empty.
pub proof fn groups_are_even(len: int, n: int, k: int, l: int)
    requires
        0 < n <= len,
        0 <= k < n,
        0 <= l < n,
    ensures
        group_size(len, n, k, len) >= 1,
        group_size(len, n, k, len) <= group_size(len, n, l, len) + 1,
{
    lemma_whole_group(len, n, k);
    lemma_whole_group(len, n, l);
    lemma_quotient(len, n, 0);
    lemma_quotient(len, n, len / n);
    if len / n < 1 {
        assert((len / n + 1) * n <= n) by (nonlinear_arith)
            requires
                len / n + 1 <= 1,
                n > 0,
        ;
    }
}

proof fn lemma_whole_group(len: int, n: int, k: int)
    requires
        0 < n <= len,
        0 <= k < n,
    ensures
        len / n <= group_size(len, n, k, len) <= len / n + 1,
{
    lemma_group_size(len, n, k, len);
    lemma_stretch_length(len, n, k);
    lemma_start(len, n, k + 1, len);
    assert((k + 1) * len <= len * n) by (nonlinear_arith)
        requires
            k + 1 <= n,
            len > 0,
    ;
}

// ── Findings ────────────────────────────────────────────────────────────────

/// How sure a reader is, as a number between 0 and 1 that was read elsewhere.
#[derive(Debug)]
pub struct Confidence<S = String> {
    /// Larger for a larger number.
    pub rank: i32,
    /// The number with two decimals.
    pub shown: S,
}

/// Something that a reader found.
#[derive(Debug)]
pub struct Finding<S = String> {
    /// From 0, which blocks, to 3, which is only advice.
    pub level: u8,
    pub confidence: Confidence<S>,
    pub location: S,
    pub description: S,
    pub suggestion: S,
}

pub type FindingView = Finding<Seq<char>>;

impl Confidence {
    pub open spec fn view(&self) -> Confidence<Seq<char>> {
        Confidence { rank: self.rank, shown: self.shown@ }
    }
}

impl Finding {
    pub open spec fn view(&self) -> FindingView {
        Finding {
            level: self.level,
            confidence: self.confidence.view(),
            location: self.location@,
            description: self.description@,
            suggestion: self.suggestion@,
        }
    }
}

pub open spec fn finding_views(v: Seq<Finding>) -> Seq<FindingView> {
    Seq::new(v.len(), |i: int| v[i].view())
}

/// The head of a line `[P<level>] <confidence> <rest>`: the level, the text of the
/// confidence, and the rest. Nothing stands before it, so a line of a diff has none.
pub open spec fn finding_head(line: Seq<char>) -> Option<(u8, Seq<char>, Seq<char>)> {
    match text::after(text::trim_end(line), "[P"@) {
        None => None,
        Some(r) => if r.len() < 2 || !('0' <= r[0] <= '3') || r[1] != ']' {
            None
        } else {
            let body = text::trim_start(r.skip(2));
            let end = pieces::white_index(body);
            if end >= body.len() {
                None
            } else {
                Some(
                    (
                        (r[0] as int - '0' as int) as u8,
                        body.take(end),
                        text::trim_start(body.skip(end)),
                    ),
                )
            }
        },
    }
}

/// The text of the confidence in a line that may hold a finding.
pub open spec fn confidence_of(line: Seq<char>) -> Option<Seq<char>> {
    match finding_head(line) {
        Some((_, c, _)) => Some(c),
        None => None,
    }
}

/// The text up to the first bar, and what stands behind it.
pub open spec fn at_bar(s: Seq<char>) -> (Seq<char>, Seq<char>) {
    match pieces::split_once(s, '|') {
        Some(p) => p,
        None => (s, Seq::empty()),
    }
}

/// The finding of a line, given the number that its confidence is; there is none where
/// that is no number between 0 and 1.
pub open spec fn finding_in(line: Seq<char>, c: Option<Confidence<Seq<char>>>) -> Option<
    FindingView,
> {
    match (finding_head(line), c) {
        (Some((level, _, rest)), Some(confidence)) => {
            let (location, more) = at_bar(rest);
            let (description, suggestion) = at_bar(more);
            if text::is_blank(location) {
                None
            } else {
                Some(
                    Finding {
                        level,
                        confidence,
                        location: text::trim(location),
                        description: text::trim(description),
                        suggestion: text::trim(suggestion),
                    },
                )
            }
        },
        _ => None,
    }
}

fn finding_head_of(line: &str) -> (r: Option<(u8, String, String)>)
    ensures
        match r {
            Some((l, c, t)) => finding_head(line@) == Some((l, c@, t@)),
            None => finding_head(line@) is None,
        },
{
    let rest = match behind(&trimmed_end(line), "[P") {
        Some(r) => r,
        None => {
            return None;
        },
    };
    let v = chars_of(&rest);
    if v.len() < 2 || !(v[0] >= '0' && v[0] <= '3') || v[1] != ']' {
        return None;
    }
    let level: u8 = (v[0] as u32 - '0' as u32) as u8;
    assert(v@.subrange(2, v@.len() as int) =~= v@.skip(2));
    let body = trimmed_start(&sub_text(&v, 2, v.len()));
    let b = chars_of(&body);
    let mut end: usize = 0;
    assert(b@.skip(0) =~= b@);
    while end < b.len() && !white(b[end])
        invariant
            end <= b.len(),
            b@ == body@,
            pieces::white_index(body@) == end + pieces::white_index(body@.skip(end as int)),
        decreases b.len() - end,
    {
        assert(body@.skip(end as int).drop_first() =~= body@.skip(end + 1));
        assert(body@.skip(end as int).skip(1) =~= body@.skip(end + 1));
        end = end + 1;
    }
    if end >= b.len() {
        return None;
    }
    assert(b@.subrange(0, end as int) =~= body@.take(end as int));
    assert(b@.subrange(end as int, b@.len() as int) =~= body@.skip(end as int));
    Some((level, sub_text(&b, 0, end), trimmed_start(&sub_text(&b, end, b.len()))))
}

fn at_bar_of(s: &str) -> (r: (String, String))
    ensures
        (r.0@, r.1@) == at_bar(s@),
{
    match split_once_of(s, '|') {
        Some(p) => p,
        None => (copy_text(s), String::new()),
    }
}

fn copy_confidence(c: &Confidence) -> (r: Confidence)
    ensures
        r.view() == c.view(),
{
    Confidence { rank: c.rank, shown: copy_text(&c.shown) }
}

pub open spec fn opt_confidence(c: Option<Confidence>) -> Option<Confidence<Seq<char>>> {
    match c {
        Some(x) => Some(x.view()),
        None => None,
    }
}

/// The finding of a line, given the number that its confidence is.
pub fn parse_finding_line(line: &str, confidence: &Option<Confidence>) -> (r: Option<Finding>)
    ensures
        match r {
            Some(f) => finding_in(line@, opt_confidence(*confidence)) == Some(f.view()) && f.level
                <= 3,
            None => finding_in(line@, opt_confidence(*confidence)) is None,
        },
{
    let (level, _, rest) = match finding_head_of(line) {
        Some(h) => h,
        None => {
            return None;
        },
    };
    let c = match confidence {
        Some(c) => copy_confidence(c),
        None => {
            return None;
        },
    };
    let (location, more) = at_bar_of(&rest);
    let (description, suggestion) = at_bar_of(&more);
    let location_text = trimmed(&location);
    if location_text.as_str().is_empty() {
        return None;
    }
    Some(
        Finding {
            level,
            confidence: c,
            location: location_text,
            description: trimmed(&description),
            suggestion: trimmed(&suggestion),
        },
    )
}

/// The texts of the confidences, line by line; nothing for a line that holds no finding.
pub open spec fn confidences(t: Seq<char>) -> Seq<Option<Seq<char>>> {
    Seq::new(pieces::lines(t).len(), |i: int| confidence_of(pieces::lines(t)[i]))
}

pub open spec fn opt_views(v: Seq<Option<String>>) -> Seq<Option<Seq<char>>> {
    Seq::new(
        v.len(),
        |i: int|
            match v[i] {
                Some(s) => Some(s@),
                None => None,
            },
    )
}

/// What has to be read as a number in a review, line by line.
pub fn confidence_texts(t: &str) -> (r: Vec<Option<String>>)
    ensures
        opt_views(r@) == confidences(t@),
{
    let lines = lines_of(t);
    let ghost lv = pieces::lines(t@);
    assert(lv.len() == lines.len());
    let mut r: Vec<Option<String>> = Vec::new();
    let mut i: usize = 0;
    while i < lines.len()
        invariant
            i <= lines.len(),
            r.len() == i,
            lv == text::texts(lines@),
            lv == pieces::lines(t@),
            forall|j: int| 0 <= j < i ==> opt_views(r@)[j] == confidence_of(#[trigger] lv[j]),
        decreases lines.len() - i,
    {
        assert(lv[i as int] == lines@[i as int]@);
        let ghost before = r@;
        let c = match finding_head_of(&lines[i]) {
            Some((_, c, _)) => Some(c),
            None => None,
        };
        r.push(c);
        assert forall|j: int| 0 <= j < i + 1 implies opt_views(r@)[j] == confidence_of(
            #[trigger] lv[j],
        ) by {
            if j < i {
                assert(opt_views(r@)[j] == opt_views(before)[j]);
            }
        }
        i = i + 1;
    }
    assert(opt_views(r@) =~= confidences(t@));
    r
}

/// The findings of the first `n` lines.
pub open spec fn findings_of(
    lines: Seq<Seq<char>>,
    c: Seq<Option<Confidence>>,
    n: int,
) -> Seq<FindingView>
    decreases n,
{
    if n <= 0 {
        Seq::empty()
    } else {
        match finding_in(lines[n - 1], opt_confidence(c[n - 1])) {
            Some(f) => findings_of(lines, c, n - 1).push(f),
            None => findings_of(lines, c, n - 1),
        }
    }
}

pub open spec fn findings_in(t: Seq<char>, c: Seq<Option<Confidence>>) -> Seq<FindingView> {
    findings_of(pieces::lines(t), c, pieces::lines(t).len() as int)
}

pub open spec fn levels_are_known(v: Seq<Finding>) -> bool {
    forall|i: int| 0 <= i < v.len() ==> (#[trigger] v[i]).level <= 3
}

/// The findings of a review, given the number of each line's confidence.
pub fn extract_findings(t: &str, numbers: &Vec<Option<Confidence>>) -> (r: Vec<Finding>)
    requires
        numbers.len() == confidences(t@).len(),
    ensures
        finding_views(r@) == findings_in(t@, numbers@),
        levels_are_known(r@),
{
    let lines = lines_of(t);
    let ghost lv = pieces::lines(t@);
    assert(lv.len() == lines.len());
    let mut r: Vec<Finding> = Vec::new();
    let mut i: usize = 0;
    assert(finding_views(r@) =~= findings_of(lv, numbers@, 0));
    while i < lines.len()
        invariant
            i <= lines.len(),
            numbers.len() == lines.len(),
            lv == text::texts(lines@),
            finding_views(r@) == findings_of(lv, numbers@, i as int),
            levels_are_known(r@),
        decreases lines.len() - i,
    {
        assert(lv[i as int] == lines@[i as int]@);
        let ghost before = r@;
        if let Some(f) = parse_finding_line(&lines[i], &numbers[i]) {
            r.push(f);
            assert(finding_views(r@) =~= finding_views(before).push(f.view()));
        }
        i = i + 1;
    }
    r
}

/// A finding comes before another: it is graver, or as grave and more certain.
pub open spec fn graver(a: FindingView, b: FindingView) -> bool {
    a.level < b.level || (a.level == b.level && a.confidence.rank > b.confidence.rank)
}

/// Where a finding goes among the first `n`: behind all that do not come after it.
pub open spec fn place_of(v: Seq<FindingView>, f: FindingView, n: int) -> int
    decreases n,
{
    if n <= 0 {
        0
    } else if graver(f, v[n - 1]) {
        place_of(v, f, n - 1)
    } else {
        n
    }
}

/// The findings in order, those that are alike in the order in which they came.
pub open spec fn in_order(v: Seq<FindingView>) -> Seq<FindingView>
    decreases v.len(),
{
    if v.len() == 0 {
        Seq::empty()
    } else {
        let w = in_order(v.drop_last());
        w.insert(place_of(w, v.last(), w.len() as int), v.last())
    }
}

proof fn place_in_range(v: Seq<FindingView>, f: FindingView, n: int)
    requires
        0 <= n,
    ensures
        0 <= place_of(v, f, n) <= n,
        forall|j: int| place_of(v, f, n) <= j < n ==> graver(f, #[trigger] v[j]),
        place_of(v, f, n) > 0 ==> !graver(f, v[place_of(v, f, n) - 1]),
    decreases n,
{
    if n > 0 && graver(f, v[n - 1]) {
        place_in_range(v, f, n - 1);
    }
}

pub open spec fn ordered(v: Seq<FindingView>) -> bool {
    forall|i: int, j: int| 0 <= i < j < v.len() ==> !graver(#[trigger] v[j], #[trigger] v[i])
}

/// The graver findings come first, and among those of one level the more certain ones.
pub proof fn order_is_right(v: Seq<FindingView>)
    ensures
        ordered(in_order(v)),
        in_order(v).len() == v.len(),
    decreases v.len(),
{
    if v.len() > 0 {
        order_is_right(v.drop_last());
        let w = in_order(v.drop_last());
        let f = v.last();
        let p = place_of(w, f, w.len() as int);
        place_in_range(w, f, w.len() as int);
        let r = w.insert(p, f);
        assert forall|i: int, j: int| 0 <= i < j < r.len() implies !graver(
            #[trigger] r[j],
            #[trigger] r[i],
        ) by {
            let a = if i < p {
                w[i]
            } else if i == p {
                f
            } else {
                w[i - 1]
            };
            assert(r[i] == a);
            if j == p {
                assert(!graver(f, w[p - 1]));
                assert(i == p - 1 || !graver(w[p - 1], w[i]));
            }
        }
    }
}

/// Ordering keeps every finding, as often as it was there.
pub proof fn order_keeps_findings(v: Seq<FindingView>)
    ensures
        in_order(v).to_multiset() == v.to_multiset(),
    decreases v.len(),
{
    broadcast use vstd::seq_lib::group_to_multiset_ensures;

    if v.len() > 0 {
        order_keeps_findings(v.drop_last());
        order_is_right(v.drop_last());
        let w = in_order(v.drop_last());
        let f = v.last();
        let p = place_of(w, f, w.len() as int);
        place_in_range(w, f, w.len() as int);
        assert(v =~= v.drop_last().push(f));
        assert(w.insert(p, f).to_multiset() == w.to_multiset().insert(f));
    } else {
        assert(in_order(v) =~= v);
    }
}

/// Whether neither of two findings comes before the other.
pub open spec fn alike(a: FindingView, b: FindingView) -> bool {
    !graver(a, b) && !graver(b, a)
}

/// Findings that are alike stay in the order in which they came.
pub proof fn order_keeps_ties(v: Seq<FindingView>, f: FindingView)
    ensures
        in_order(v).filter(|x: FindingView| alike(x, f)) == v.filter(
            |x: FindingView| alike(x, f),
        ),
    decreases v.len(),
{
    let tie = |x: FindingView| alike(x, f);
    if v.len() > 0 {
        let d = v.drop_last();
        order_keeps_ties(d, f);
        let w = in_order(d);
        let g = v.last();
        let p = place_of(w, g, w.len() as int);
        place_in_range(w, g, w.len() as int);
        let front = w.take(p);
        let rear = w.skip(p);
        assert(w =~= front + rear);
        assert(in_order(v) =~= front + (seq![g] + rear));
        assert(v =~= d + seq![g]);
        Seq::filter_distributes_over_add(front, rear, tie);
        Seq::filter_distributes_over_add(front, seq![g] + rear, tie);
        Seq::filter_distributes_over_add(seq![g], rear, tie);
        Seq::filter_distributes_over_add(d, seq![g], tie);
        if tie(g) {
            assert forall|i: int| 0 <= i < rear.len() implies !tie(#[trigger] rear[i]) by {
                assert(rear[i] == w[p + i]);
            }
            rear.lemma_all_neg_filter_empty(tie);
            assert(rear.filter(tie) =~= Seq::empty());
            assert(front.filter(tie) + (seq![g].filter(tie) + rear.filter(tie)) =~= front.filter(
                tie,
            ) + rear.filter(tie) + seq![g].filter(tie));
        } else {
            seq![g].lemma_all_neg_filter_empty(tie);
            assert(seq![g].filter(tie) =~= Seq::empty());
            assert(front.filter(tie) + (seq![g].filter(tie) + rear.filter(tie)) =~= front.filter(
                tie,
            ) + rear.filter(tie) + seq![g].filter(tie));
        }
    } else {
        assert(in_order(v) =~= v);
    }
}

pub fn sort_findings(findings: &mut Vec<Finding>)
    ensures
        finding_views(final(findings)@) == in_order(finding_views(old(findings)@)),
        levels_are_known(old(findings)@) ==> levels_are_known(final(findings)@),
{
    let ghost all = finding_views(findings@);
    let ghost given = findings@;
    let n: usize = findings.len();
    let mut i: usize = 0;
    assert(finding_views(findings@).take(0) =~= in_order(all.take(0)));
    while i < n
        invariant
            i <= n,
            n == findings.len(),
            n == all.len(),
            finding_views(findings@).take(i as int) == in_order(all.take(i as int)),
            finding_views(findings@).skip(i as int) == all.skip(i as int),
            levels_are_known(given) ==> levels_are_known(findings@),
        decreases n - i,
    {
        let ghost before = finding_views(findings@);
        let ghost w = before.take(i as int);
        let ghost held = findings@;
        let f = findings.remove(i);
        let ghost rest = findings@;
        let mut p: usize = i;
        assert(finding_views(findings@) =~= before.remove(i as int));
        assert(f.view() == before[i as int]);
        assert(before[i as int] == before.skip(i as int)[0]);
        assert(f.view() == all[i as int]);
        while p > 0 && (f.level < findings[p - 1].level || (f.level == findings[p - 1].level
            && f.confidence.rank > findings[p - 1].confidence.rank))
            invariant
                p <= i < n,
                n == all.len(),
                findings.len() == n - 1,
                findings@ == rest,
                w.len() == i,
                forall|j: int| 0 <= j < i ==> #[trigger] w[j] == findings@[j].view(),
                place_of(w, f.view(), i as int) == place_of(w, f.view(), p as int),
            decreases p,
        {
            assert(w[p - 1] == findings@[p - 1].view());
            p = p - 1;
        }
        assert(p > 0 ==> w[p - 1] == findings@[p - 1].view());
        assert(place_of(w, f.view(), w.len() as int) == p);
        findings.insert(p, f);
        assert(finding_views(findings@) =~= before.remove(i as int).insert(p as int, f.view()));
        assert(all.take(i + 1).drop_last() =~= all.take(i as int));
        assert(all.take(i + 1).last() == all[i as int]);
        assert(finding_views(findings@).take(i + 1) =~= w.insert(p as int, f.view()));
        assert(finding_views(findings@).skip(i + 1) =~= before.skip(i as int).skip(1));
        assert(all.skip(i as int).skip(1) =~= all.skip(i + 1));
        proof {
            if levels_are_known(given) {
                assert forall|j: int| 0 <= j < findings.len() implies (
                #[trigger] findings@[j]).level <= 3 by {
                    assert(findings@ =~= held.remove(i as int).insert(p as int, held[i as int]));
                }
            }
        }
        i = i + 1;
    }
    assert(all.take(n as int) =~= all);
    assert(finding_views(findings@).take(n as int) =~= finding_views(findings@));
}

// ── The report ──────────────────────────────────────────────────────────────

/// A diff that is reviewed.
#[derive(Debug)]
pub struct DiffData {
    /// The changed files, in the order of the diff.
    pub files: Vec<String>,
    /// How many lines are new.
    pub added_lines: usize,
    /// The text that is reviewed.
    pub body: String,
    /// Whether that is only a part of the diff.
    pub truncated: bool,
}

pub open spec fn level_name(level: u8) -> Seq<char> {
    if level == 0 {
        "P0"@
    } else if level == 1 {
        "P1"@
    } else if level == 2 {
        "P2"@
    } else {
        "P3"@
    }
}

pub open spec fn finding_lines(f: FindingView) -> Seq<say::LineView> {
    let first = seq![
        say::LineView::Text(
            "["@ + level_name(f.level) + "] ("@ + f.confidence.shown + ") "@ + f.location + " — "@
                + f.description,
        ),
    ];
    if f.suggestion.len() == 0 {
        first
    } else {
        first.push(say::LineView::Text("       建议: "@ + f.suggestion))
    }
}

pub open spec fn all_finding_lines(v: Seq<FindingView>, n: int) -> Seq<say::LineView>
    decreases n,
{
    if n <= 0 {
        Seq::empty()
    } else {
        all_finding_lines(v, n - 1) + finding_lines(v[n - 1])
    }
}

pub open spec fn counts_line(reviewers: usize, files: usize, added_lines: usize) -> Seq<char> {
    numeral::dec(reviewers as nat) + " 个评审子代理 · "@ + numeral::dec(files as nat)
        + " 个文件 · "@ + numeral::dec(added_lines as nat) + " 新增行 · diff 权重 "@
        + numeral::dec(weight(files, added_lines))
}

/// The lines of a report.
pub open spec fn report(reviewers: usize, data: DiffData, findings: Seq<FindingView>) -> Seq<
    say::LineView,
> {
    let head = say::said(say::entry("review.title"@)).push(
        say::LineView::Text(counts_line(reviewers, data.files.len(), data.added_lines)),
    );
    let cut = if data.truncated {
        seq![say::LineView::Text(" · diff 过大已截断"@)]
    } else {
        Seq::empty()
    };
    let body = if findings.len() == 0 {
        say::said(say::entry("review.empty"@))
    } else {
        all_finding_lines(in_order(findings), findings.len() as int)
    };
    head + cut + body
}

fn counts_line_of(reviewers: usize, files: usize, added_lines: usize) -> (r: String)
    ensures
        r@ == counts_line(reviewers, files, added_lines),
{
    let w: usize = match files.checked_mul(3) {
        Some(w) => w,
        None => usize::MAX,
    };
    let total: u128 = w as u128 + (added_lines / 20) as u128;
    let s = cat(&dec_usize(reviewers), " 个评审子代理 · ");
    let s = cat(&cat(&s, &dec_usize(files)), " 个文件 · ");
    let s = cat(&cat(&s, &dec_usize(added_lines)), " 新增行 · diff 权重 ");
    cat(&s, &dec_wide(total))
}

/// The report on a diff: how it was reviewed, and what was found, the gravest first.
pub fn render_report(reviewers: usize, data: &DiffData, findings: Vec<Finding>) -> (out: Output)
    requires
        levels_are_known(findings@),
    ensures
        out@ == report(reviewers, *data, finding_views(findings@)),
{
    let ghost fv = finding_views(findings@);
    let mut out = just(msg("review.title"));
    out.print(counts_line_of(reviewers, data.files.len(), data.added_lines));
    let ghost head = out@;
    if data.truncated {
        out.print(copy_text(" · diff 过大已截断"));
    }
    let ghost cut = if data.truncated {
        seq![say::LineView::Text(" · diff 过大已截断"@)]
    } else {
        Seq::empty()
    };
    assert(out@ =~= head + cut);
    if findings.len() == 0 {
        out.say(msg("review.empty"));
        assert(out@ =~= head + cut + say::said(say::entry("review.empty"@)));
        return out;
    }
    let mut sorted = findings;
    sort_findings(&mut sorted);
    let ghost sv = finding_views(sorted@);
    proof {
        order_is_right(fv);
    }
    assert(sv.len() == sorted.len());
    let ghost front = out@;
    let mut i: usize = 0;
    assert(out@ =~= front + all_finding_lines(sv, 0));
    while i < sorted.len()
        invariant
            i <= sorted.len(),
            sv == finding_views(sorted@),
            out@ == front + all_finding_lines(sv, i as int),
        decreases sorted.len() - i,
    {
        let f = &sorted[i];
        assert(sv[i as int] == f.view());
        let ghost before = out@;
        let name: &str = if f.level == 0 {
            "P0"
        } else if f.level == 1 {
            "P1"
        } else if f.level == 2 {
            "P2"
        } else {
            "P3"
        };
        let s = cat(&cat("[", name), "] (");
        let s = cat(&cat(&s, &f.confidence.shown), ") ");
        let s = cat(&cat(&s, &f.location), " — ");
        out.print(cat(&s, &f.description));
        if !f.suggestion.as_str().is_empty() {
            out.print(cat("       建议: ", &f.suggestion));
        }
        assert(out@ =~= before + finding_lines(f.view()));
        i = i + 1;
        assert(out@ =~= front + all_finding_lines(sv, i as int));
    }
    assert(out@ =~= report(reviewers, *data, fv));
    out
}

// ── The course of a review ──────────────────────────────────────────────────

/// How far a review has come.
#[derive(Debug)]
pub enum ReviewState {
    /// Asked whether this is a repository.
    Repository,
    /// Asked whether there is a commit.
    Head,
    /// Asked for the diff.
    Diff,
    /// Asked for the summary of a diff that is too large.
    Stat { diff: String },
    /// The readers are at work.
    Reviewing { data: DiffData, reviewers: usize },
    Over,
}

/// What is to be done next.
#[derive(Debug)]
pub enum ReviewStep {
    /// Run `git` with these arguments.
    Git(Vec<String>),
    /// Give each reader its task.
    Review(Vec<String>),
    /// Nothing: the review is over.
    Done,
}

/// What came of a step.
#[derive(Debug)]
pub enum ReviewEvent {
    /// What `git` printed, or why it failed.
    Git(Result<String, String>),
    /// What the readers wrote, with the number of each line's confidence.
    Reviewed(String, Vec<Option<Confidence>>),
    ReviewFailed(String),
}

pub open spec fn range(staged: bool) -> Seq<char> {
    if staged {
        "--cached"@
    } else {
        "HEAD"@
    }
}

fn range_of(staged: bool) -> (r: &'static str)
    ensures
        r@ == range(staged),
{
    if staged {
        "--cached"
    } else {
        "HEAD"
    }
}

fn args3(a: &str, b: &str, c: &str) -> (r: Vec<String>)
    ensures
        text::texts(r@) == seq![a@, b@, c@],
{
    let r = vec![copy_text(a), copy_text(b), copy_text(c)];
    assert(text::texts(r@) =~= seq![a@, b@, c@]);
    r
}

fn args2(a: &str, b: &str) -> (r: Vec<String>)
    ensures
        text::texts(r@) == seq![a@, b@],
{
    let r = vec![copy_text(a), copy_text(b)];
    assert(text::texts(r@) =~= seq![a@, b@]);
    r
}

/// The step runs `git` with these arguments.
pub open spec fn runs_git(s: ReviewStep, args: Seq<Seq<char>>) -> bool {
    s matches ReviewStep::Git(a) && text::texts(a@) == args
}

pub open spec fn file_names(e: Segments) -> Seq<Seq<char>> {
    Seq::new(e.len(), |i: int| e[i].0)
}

/// What is known of a diff with this text.
pub open spec fn data_of(d: DiffData, body: Seq<char>, truncated: bool) -> bool {
    &&& text::texts(d.files@) == file_names(diff_entries(body))
    &&& d.added_lines == added_in(body)
    &&& d.body@ == body
    &&& d.truncated == truncated
}

/// What is known of a diff.
pub fn collect_diff(body: String, truncated: bool) -> (d: DiffData)
    ensures
        data_of(d, body@, truncated),
{
    let entries = parse_diff_entries(&body);
    let ghost e = diff_entries(body@);
    assert(e.len() == entries.len());
    let mut files: Vec<String> = Vec::new();
    let mut i: usize = 0;
    assert(text::texts(files@) =~= file_names(e).take(0));
    while i < entries.len()
        invariant
            i <= entries.len(),
            e == segments(entries@),
            text::texts(files@) == file_names(e).take(i as int),
        decreases entries.len() - i,
    {
        let s = copy_text(&entries[i].0);
        assert(e[i as int].0 == s@);
        proof {
            text::lemma_texts_push(files@, s);
        }
        files.push(s);
        i = i + 1;
        assert(text::texts(files@) =~= file_names(e).take(i as int));
    }
    assert(file_names(e).take(i as int) =~= file_names(e));
    let added_lines: usize = count_added_lines(&body);
    DiffData { files, added_lines, body, truncated }
}

/// The task of a reader: the instructions and a part of the diff.
pub open spec fn task(template: Seq<char>, part: Seq<char>) -> Seq<char> {
    template + "\n```diff\n"@ + part + "\n```"@
}

pub open spec fn tasks_for(template: Seq<char>, parts: Seq<Seq<char>>) -> Seq<Seq<char>> {
    Seq::new(parts.len(), |i: int| task(template, parts[i]))
}

/// How many readers a diff with so many files gets.
pub open spec fn reviewers_for(explicit: Option<usize>, files: nat) -> nat {
    let n = reviewer_count(explicit, files as usize) as nat;
    if n <= files {
        n
    } else {
        files
    }
}

/// A diff goes to the readers, unless nothing has changed.
pub open spec fn shares_out(
    body: Seq<char>,
    truncated: bool,
    explicit: Option<usize>,
    template: Seq<char>,
    next: ReviewState,
    s: ReviewStep,
    out: Seq<say::LineView>,
) -> bool {
    let e = diff_entries(body);
    if e.len() == 0 {
        &&& next is Over
        &&& s is Done
        &&& out == seq![
            say::LineView::Msg(say::entry("review.title"@)),
            say::LineView::Msg(say::entry("review.empty"@)),
        ]
    } else {
        let n = reviewers_for(explicit, e.len());
        &&& next matches ReviewState::Reviewing { data, reviewers } && data_of(data, body, truncated)
            && reviewers == n
        &&& s matches ReviewStep::Review(tasks) && text::texts(tasks@) == tasks_for(
            template,
            groups(e, n),
        )
        &&& out == say::said(
            say::entry("review.starting"@).arg("n"@, numeral::dec(groups(e, n).len())),
        )
    }
}

fn share_out(body: String, truncated: bool, explicit: Option<usize>, template: &str) -> (r: (
    ReviewState,
    ReviewStep,
    Output,
))
    ensures
        shares_out(body@, truncated, explicit, template@, r.0, r.1, r.2@),
{
    let data = collect_diff(body, truncated);
    let ghost e = diff_entries(body@);
    assert(text::texts(data.files@).len() == data.files.len());
    if data.files.len() == 0 {
        let mut out = just(msg("review.title"));
        out.say(msg("review.empty"));
        assert(out@ =~= seq![
            say::LineView::Msg(say::entry("review.title"@)),
            say::LineView::Msg(say::entry("review.empty"@)),
        ]);
        return (ReviewState::Over, ReviewStep::Done, out);
    }
    let picked: usize = pick_reviewer_count(explicit, data.files.len());
    let reviewers: usize = if picked <= data.files.len() {
        picked
    } else {
        data.files.len()
    };
    let entries = parse_diff_entries(&data.body);
    let parts = chunk_diff_entries(&entries, reviewers);
    let ghost pv = groups(e, reviewers as nat);
    assert(pv.len() == parts.len());
    let mut tasks: Vec<String> = Vec::new();
    let mut i: usize = 0;
    assert(text::texts(tasks@) =~= tasks_for(template@, pv).take(0));
    while i < parts.len()
        invariant
            i <= parts.len(),
            pv == text::texts(parts@),
            text::texts(tasks@) == tasks_for(template@, pv).take(i as int),
        decreases parts.len() - i,
    {
        assert(pv[i as int] == parts@[i as int]@);
        let s = cat(template, "\n```diff\n");
        let s = cat(&cat(&s, &parts[i]), "\n```");
        proof {
            text::lemma_texts_push(tasks@, s);
        }
        tasks.push(s);
        i = i + 1;
        assert(text::texts(tasks@) =~= tasks_for(template@, pv).take(i as int));
    }
    assert(tasks_for(template@, pv).take(i as int) =~= tasks_for(template@, pv));
    assert(text::texts(tasks@).len() == tasks.len());
    let out = just(msg("review.starting").arg("n", &dec_usize(tasks.len())));
    (ReviewState::Reviewing { data, reviewers }, ReviewStep::Review(tasks), out)
}

/// A review ends with these lines.
pub open spec fn stops(
    next: ReviewState,
    s: ReviewStep,
    out: Seq<say::LineView>,
    lines: Seq<say::LineView>,
) -> bool {
    next is Over && s is Done && out == lines
}

pub open spec fn diff_failed(e: Seq<char>) -> Seq<say::LineView> {
    seq![say::LineView::Text("[review] diff 收集失败："@ + e)]
}

fn stop(out: Output) -> (r: (ReviewState, ReviewStep, Output))
    ensures
        stops(r.0, r.1, r.2@, out@),
{
    (ReviewState::Over, ReviewStep::Done, out)
}

/// Why there is no diff to look at.
#[derive(Debug)]
pub enum DiffError {
    /// The directory is not inside a repository.
    NotGit,
    /// Getting it failed, for this reason.
    Failed(String),
}

pub open spec fn refused_lines(e: DiffError) -> Seq<say::LineView> {
    match e {
        DiffError::NotGit => say::said(say::entry("review.no_git"@)),
        DiffError::Failed(x) => diff_failed(x@),
    }
}

/// What is said where there is no diff.
pub fn diff_refused(e: &DiffError) -> (out: Output)
    ensures
        out@ == refused_lines(*e),
{
    match e {
        DiffError::NotGit => just(msg("review.no_git")),
        DiffError::Failed(x) => {
            let mut out = Output::new();
            out.print(cat("[review] diff 收集失败：", x));
            assert(out@ =~= diff_failed(x@));
            out
        },
    }
}

/// What is printed once the readers are done.
pub open spec fn outcome_lines(reviewers: usize, data: DiffData, f: Seq<FindingView>) -> Seq<
    say::LineView,
> {
    (say::said(
        say::entry("review.done"@).arg("n"@, numeral::dec(reviewers as nat)).arg(
            "findings"@,
            numeral::dec(f.len()),
        ),
    ) + report(reviewers, data, f)).push(say::LineView::Text(Seq::empty()))
}

/// What follows an event in a review.
pub open spec fn review_goes_on(
    state: ReviewState,
    event: ReviewEvent,
    staged: bool,
    explicit: Option<usize>,
    template: Seq<char>,
    next: ReviewState,
    s: ReviewStep,
    out: Seq<say::LineView>,
) -> bool {
    match (state, event) {
        (ReviewState::Repository, ReviewEvent::Git(r)) => if r matches Ok(t) && text::trim(t@)
            == "true"@ {
            &&& next is Head
            &&& runs_git(s, seq!["rev-parse"@, "--verify"@, "-q"@, "HEAD"@])
            &&& out == say::silence()
        } else {
            stops(next, s, out, say::said(say::entry("review.no_git"@)))
        },
        (ReviewState::Head, ReviewEvent::Git(r)) => match r {
            Ok(_) => {
                &&& next is Diff
                &&& runs_git(s, seq!["diff"@, range(staged)])
                &&& out == say::silence()
            },
            Err(_) => shares_out(Seq::empty(), false, explicit, template, next, s, out),
        },
        (ReviewState::Diff, ReviewEvent::Git(r)) => match r {
            Ok(d) => if text::byte_len(d@) > MAX_DIFF_BYTES {
                &&& next matches ReviewState::Stat { diff } && diff@ == d@
                &&& runs_git(s, seq!["diff"@, "--stat"@, range(staged)])
                &&& out == say::silence()
            } else {
                shares_out(d@, false, explicit, template, next, s, out)
            },
            Err(e) => stops(next, s, out, diff_failed(e@)),
        },
        (ReviewState::Stat { diff }, ReviewEvent::Git(r)) => match r {
            Ok(stat) => shares_out(
                cut_diff(diff@, MAX_FILE_DIFF_LINES as nat, stat@),
                true,
                explicit,
                template,
                next,
                s,
                out,
            ),
            Err(e) => stops(next, s, out, diff_failed(e@)),
        },
        (ReviewState::Reviewing { data, reviewers }, ReviewEvent::Reviewed(t, c)) => stops(
            next,
            s,
            out,
            if c.len() == confidences(t@).len() {
                outcome_lines(reviewers, data, findings_in(t@, c@))
            } else {
                say::silence()
            },
        ),
        (ReviewState::Reviewing { .. }, ReviewEvent::ReviewFailed(e)) => stops(
            next,
            s,
            out,
            seq![say::LineView::Text("[review] 评审子代理执行失败："@ + e@)],
        ),
        _ => stops(next, s, out, say::silence()),
    }
}

/// The first step of a review.
pub fn begin_review() -> (r: (ReviewState, ReviewStep))
    ensures
        r.0 is Repository,
        runs_git(r.1, seq!["rev-parse"@, "--is-inside-work-tree"@]),
{
    (ReviewState::Repository, ReviewStep::Git(args2("rev-parse", "--is-inside-work-tree")))
}

/// Whether a text is larger than so many bytes.
fn is_larger(s: &str, max: usize) -> (r: bool)
    ensures
        r == (text::byte_len(s@) > max),
{
    let v = chars_of(s);
    let mut total: u128 = 0;
    let mut i: usize = 0;
    assert(s@.take(0) =~= Seq::empty());
    while i < v.len()
        invariant
            i <= v.len(),
            v@ == s@,
            total == text::byte_len(s@.take(i as int)),
            total <= 4 * i,
        decreases v.len() - i,
    {
        assert(s@.take(i + 1).drop_last() =~= s@.take(i as int));
        total = total + text::width_of(v[i]) as u128;
        i = i + 1;
    }
    assert(s@.take(i as int) =~= s@);
    total > max as u128
}

/// The step that follows an event: a review asks for the diff, gives its parts to the
/// readers, and reports what they found.
pub fn run_review(
    state: ReviewState,
    event: ReviewEvent,
    staged: bool,
    explicit: Option<usize>,
    template: &str,
) -> (r: (ReviewState, ReviewStep, Output))
    ensures
        review_goes_on(state, event, staged, explicit, template@, r.0, r.1, r.2@),
{
    match (state, event) {
        (ReviewState::Repository, ReviewEvent::Git(reply)) => match reply {
            Ok(t) => if same(&trimmed(&t), "true") {
                let args = vec![
                    copy_text("rev-parse"),
                    copy_text("--verify"),
                    copy_text("-q"),
                    copy_text("HEAD"),
                ];
                assert(text::texts(args@) =~= seq!["rev-parse"@, "--verify"@, "-q"@, "HEAD"@]);
                (ReviewState::Head, ReviewStep::Git(args), Output::new())
            } else {
                stop(diff_refused(&DiffError::NotGit))
            },
            Err(_) => stop(diff_refused(&DiffError::NotGit)),
        },
        (ReviewState::Head, ReviewEvent::Git(reply)) => match reply {
            Ok(_) => (
                ReviewState::Diff,
                ReviewStep::Git(args2("diff", range_of(staged))),
                Output::new(),
            ),
            Err(_) => share_out(String::new(), false, explicit, template),
        },
        (ReviewState::Diff, ReviewEvent::Git(reply)) => match reply {
            Ok(d) => if is_larger(&d, MAX_DIFF_BYTES) {
                (
                    ReviewState::Stat { diff: d },
                    ReviewStep::Git(args3("diff", "--stat", range_of(staged))),
                    Output::new(),
                )
            } else {
                share_out(d, false, explicit, template)
            },
            Err(e) => stop(diff_refused(&DiffError::Failed(e))),
        },
        (ReviewState::Stat { diff }, ReviewEvent::Git(reply)) => match reply {
            Ok(stat) => {
                let body = truncate_diff(&diff, MAX_FILE_DIFF_LINES, &stat);
                share_out(body, true, explicit, template)
            },
            Err(e) => stop(diff_refused(&DiffError::Failed(e))),
        },
        (ReviewState::Reviewing { data, reviewers }, ReviewEvent::Reviewed(t, numbers)) => {
            let lines = confidence_texts(&t);
            assert(confidences(t@).len() == lines.len());
            if numbers.len() != lines.len() {
                return stop(Output::new());
            }
            let findings = extract_findings(&t, &numbers);
            assert(finding_views(findings@).len() == findings.len());
            let mut out = just(
                msg("review.done").arg("n", &dec_usize(reviewers)).arg(
                    "findings",
                    &dec_usize(findings.len()),
                ),
            );
            let ghost f = finding_views(findings@);
            out.append(render_report(reviewers, &data, findings));
            out.print(String::new());
            assert(out@ =~= outcome_lines(reviewers, data, f));
            stop(out)
        },
        (ReviewState::Reviewing { .. }, ReviewEvent::ReviewFailed(e)) => {
            let mut out = Output::new();
            out.print(cat("[review] 评审子代理执行失败：", &e));
            stop(out)
        },
        _ => stop(Output::new()),
    }
}

/// What is said of a run of `git` that could not be started.
pub fn git_not_started(error: &str) -> (r: String)
    ensures
        r@ == "git 执行失败: "@ + error@,
{
    cat("git 执行失败: ", error)
}

/// What is said of a run of `git` that failed: its arguments and what it wrote.
pub fn git_failed(args: &Vec<String>, stderr: &str) -> (r: String)
    ensures
        r@ == "git "@ + pieces::join(text::texts(args@), " "@) + " 失败: "@ + text::trim(stderr@),
{
    let s = cat("git ", &join_of(args, " "));
    cat(&cat(&s, " 失败: "), &trimmed(stderr))
}

// ── What a diff's files hold ────────────────────────────────────────────────

/// The parts of a diff, without the paths.
pub open spec fn parts_of(e: Segments) -> Seq<Seq<char>> {
    Seq::new(e.len(), |i: int| e[i].1)
}

/// A line that begins the part of a file.
pub open spec fn begins_a_file(line: Seq<char>) -> bool {
    line.len() >= 11 && line.take(11) == "diff --git "@
}

/// Lines of one file: the first begins it, and no other begins one.
pub open spec fn of_one_file(v: Seq<Seq<char>>) -> bool {
    &&& v.len() > 0
    &&& begins_a_file(v[0])
    &&& forall|j: int| 1 <= j < v.len() ==> !begins_a_file(#[trigger] v[j])
}

/// A file's part of a diff is made of these lines.
pub open spec fn is_part(e: (Seq<char>, Seq<char>), v: Seq<Seq<char>>) -> bool {
    &&& of_one_file(v)
    &&& e.1 == pieces::with_line_feeds(v)
    &&& e.0 == header_path(v[0].skip(11))
}

pub open spec fn is_of_one_file(e: (Seq<char>, Seq<char>)) -> bool {
    exists|v: Seq<Seq<char>>| #[trigger] is_part(e, v)
}

proof fn header_is_eleven(line: Seq<char>)
    ensures
        begins_a_file(line) == (text::after(line, "diff --git "@) is Some),
        begins_a_file(line) ==> text::after(line, "diff --git "@) == Some(line.skip(11)),
{
    reveal_strlit("diff --git ");
}

proof fn feeds_one_more(v: Seq<Seq<char>>, l: Seq<char>)
    ensures
        pieces::with_line_feeds(v.push(l)) == pieces::with_line_feeds(v) + l + "\n"@,
{
    reveal_strlit("\n");
    assert("\n"@ =~= seq!['\n']);
    assert(v.push(l).drop_last() =~= v);
}

proof fn parts_of_lines(lines: Seq<Seq<char>>, k: int, n: int)
    requires
        0 <= k <= n <= lines.len(),
        forall|j: int| 0 <= j < k ==> !begins_a_file(#[trigger] lines[j]),
        k < n ==> begins_a_file(lines[k]),
    ensures
        entries_of(lines, n).len() == 0 <==> k == n,
        parts_of(entries_of(lines, n)).flatten_alt() == pieces::with_line_feeds(
            lines.subrange(k, n),
        ),
        forall|i: int|
            0 <= i < entries_of(lines, n).len() ==> is_of_one_file(#[trigger] entries_of(lines, n)[i]),
    decreases n,
{
    let e = entries_of(lines, n);
    if k == n {
        if n > 0 {
            header_is_eleven(lines[n - 1]);
            parts_of_lines(lines, k - 1, n - 1);
            assert(begins_a_file(lines[n - 1]) == false);
        }
        assert(e.len() == 0);
        assert(parts_of(e) =~= Seq::empty());
        assert(lines.subrange(k, n) =~= Seq::empty());
        assert(parts_of(e).flatten_alt() =~= pieces::with_line_feeds(lines.subrange(k, n)));
    } else {
        let line = lines[n - 1];
        let b = entries_of(lines, n - 1);
        parts_of_lines(lines, k, n - 1);
        header_is_eleven(line);
        let s = lines.subrange(k, n - 1);
        assert(lines.subrange(k, n) =~= s.push(line));
        feeds_one_more(s, line);
        let p = parts_of(b);
        if begins_a_file(line) {
            assert(parts_of(e) =~= p.push(line + "\n"@));
            assert(p.push(line + "\n"@).drop_last() =~= p);
            assert(p.flatten_alt() + (line + "\n"@) =~= p.flatten_alt() + line + "\n"@);
            let one = Seq::<Seq<char>>::empty().push(line);
            feeds_one_more(Seq::empty(), line);
            assert(pieces::with_line_feeds(Seq::empty()) =~= Seq::empty());
            assert(Seq::<char>::empty() + line + "\n"@ =~= line + "\n"@);
            assert(is_part(e[e.len() - 1], one));
            assert forall|i: int| 0 <= i < e.len() implies is_of_one_file(#[trigger] e[i]) by {
                if i < b.len() {
                    assert(e[i] == b[i]);
                }
            }
        } else {
            assert(b.len() > 0);
            let m = b.last().1 + line + "\n"@;
            assert(parts_of(e) =~= p.drop_last().push(m));
            assert(p.drop_last().push(m).drop_last() =~= p.drop_last());
            assert(p.drop_last().flatten_alt() + m =~= p.flatten_alt() + line + "\n"@);
            let v = choose|v: Seq<Seq<char>>| #[trigger] is_part(b[b.len() - 1], v);
            assert(is_of_one_file(b[b.len() - 1]));
            assert(is_part(b[b.len() - 1], v));
            feeds_one_more(v, line);
            let w = v.push(line);
            assert forall|j: int| 1 <= j < w.len() implies !begins_a_file(#[trigger] w[j]) by {
                if j < v.len() {
                    assert(w[j] == v[j]);
                }
            }
            assert(w[0] == v[0]);
            assert(is_part(e[e.len() - 1], w));
            assert forall|i: int| 0 <= i < e.len() implies is_of_one_file(#[trigger] e[i]) by {
                if i < b.len() - 1 {
                    assert(e[i] == b[i]);
                }
            }
        }
    }
}

proof fn first_header(lines: Seq<Seq<char>>, k: int) -> (r: int)
    requires
        0 <= k <= lines.len(),
        forall|j: int| 0 <= j < k ==> !begins_a_file(#[trigger] lines[j]),
    ensures
        0 <= r <= lines.len(),
        forall|j: int| 0 <= j < r ==> !begins_a_file(#[trigger] lines[j]),
        r < lines.len() ==> begins_a_file(lines[r]),
    decreases lines.len() - k,
{
    if k < lines.len() && !begins_a_file(lines[k]) {
        first_header(lines, k + 1)
    } else {
        k
    }
}

/// The parts of all files, one behind the other, are the lines of the diff from the first that
/// begins a file on, each with its line feed: no line is lost, moved or changed. No line behind
/// the first of a part begins another file, so that each file has a part of its own.
pub proof fn parts_make_up_the_diff(diff: Seq<char>)
    ensures
        ({
            let lines = pieces::lines(diff);
            exists|k: int|
                #![trigger lines.skip(k)]
                {
                    &&& 0 <= k <= lines.len()
                    &&& forall|j: int| 0 <= j < k ==> !begins_a_file(#[trigger] lines[j])
                    &&& k < lines.len() ==> begins_a_file(lines[k])
                    &&& parts_of(diff_entries(diff)).flatten_alt() == pieces::with_line_feeds(
                        lines.skip(k),
                    )
                }
        }),
        forall|i: int|
            0 <= i < diff_entries(diff).len() ==> is_of_one_file(#[trigger] diff_entries(diff)[i]),
{
    let lines = pieces::lines(diff);
    let k = first_header(lines, 0);
    parts_of_lines(lines, k, lines.len() as int);
    assert(lines.skip(k) =~= lines.subrange(k, lines.len() as int));
}

/// The parts of a diff that begins with a file, and whose lines all end with a line feed, are
/// the diff itself.
pub proof fn parts_join_to_the_diff(diff: Seq<char>)
    requires
        forall|k: int| 0 <= k < diff.len() ==> #[trigger] diff[k] != '\r',
        begins_a_file(diff),
        diff.last() == '\n',
    ensures
        parts_of(diff_entries(diff)).flatten_alt() == diff,
{
    let lines = pieces::lines(diff);
    pieces::lines_make_up_the_text(diff);
    reveal_strlit("diff --git ");
    let n = lines.len() as int;
    if n == 0 {
        assert(pieces::with_line_feeds(lines) =~= Seq::empty());
        assert(false);
    }
    // The first line holds the first eleven characters, none of which is a line feed.
    let rest = lines.skip(1);
    assert(lines =~= seq![lines[0]] + rest);
    pieces::feeds_of_more(rest, lines[0]);
    assert(diff == lines[0] + seq!['\n'] + pieces::with_line_feeds(rest));
    let h = diff.take(11);
    if lines[0].len() < 11 {
        assert(diff[lines[0].len() as int] == '\n');
        assert(h[lines[0].len() as int] == '\n');
        assert(false);
    }
    assert(lines[0].take(11) =~= h);
    parts_of_lines(lines, 0, n);
    assert(lines.subrange(0, n) =~= lines);
}

// ── What is read and cut ────────────────────────────────────────────────────

proof fn digit_of_level(d: char)
    requires
        '0' <= d <= '3',
    ensures
        0 <= d as int - '0' as int <= 3,
        !text::is_white(d),
{
}

/// A line that names a level, a confidence, a place, a description and what is suggested, with
/// bars between the last three, is read as a finding with just these; the confidence is handed
/// on to be read as a number.
pub proof fn findings_are_read(
    d: char,
    c: Seq<char>,
    place: Seq<char>,
    what: Seq<char>,
    how: Seq<char>,
    number: Confidence<Seq<char>>,
)
    requires
        '0' <= d <= '3',
        c.len() > 0,
        pieces::no_white(c),
        place.len() > 0,
        text::is_trimmed(place),
        text::is_trimmed(what),
        text::is_trimmed(how),
        !text::has_char(place, '|'),
        !text::has_char(what, '|'),
        how.len() > 0,
    ensures
        ({
            let line = "[P"@ + seq![d] + "] "@ + c + " "@ + place + " | "@ + what + " | "@ + how;
            &&& confidence_of(line) == Some(c)
            &&& finding_in(line, None) is None
            &&& finding_in(line, Some(number)) == Some(
                Finding {
                    level: (d as int - '0' as int) as u8,
                    confidence: number,
                    location: place,
                    description: what,
                    suggestion: how,
                },
            )
        }),
{
    let line = "[P"@ + seq![d] + "] "@ + c + " "@ + place + " | "@ + what + " | "@ + how;
    let e = Seq::<char>::empty();
    let blank = seq![' '];
    reveal_strlit("[P");
    reveal_strlit("] ");
    reveal_strlit(" ");
    reveal_strlit(" | ");
    digit_of_level(d);
    assert(line.last() == how.last());
    assert(line[0] == '[');
    text::white_space_around_goes(e, line, e);
    let r = line.skip(2);
    assert(line.take(2) =~= "[P"@);
    assert(text::after(line, "[P"@) == Some(r));
    assert(r[0] == d && r[1] == ']');
    let tail = place + " | "@ + what + " | "@ + how;
    let body = c + blank + tail;
    assert(r.skip(2) =~= blank + body);
    assert(body[0] == c[0]);
    assert(body.last() == how.last());
    text::white_space_around_goes(blank, body, e);
    pieces::white_space_is_found(c, ' ', tail);
    assert(body.take(c.len() as int) =~= c);
    assert(body.skip(c.len() as int) =~= blank + tail);
    assert(tail[0] == place[0]);
    assert(tail.last() == how.last());
    text::white_space_around_goes(blank, tail, e);
    let first = place + blank;
    let more = blank + what + " | "@ + how;
    assert(tail =~= first + seq!['|'] + more);
    assert forall|k: int| 0 <= k < first.len() implies first[k] != '|' by {
        if k < place.len() {
            assert(first[k] == place[k]);
        }
    }
    pieces::cuts_are_at_the_first_and_last(first, '|', more);
    let second = blank + what + blank;
    assert(more =~= second + seq!['|'] + (blank + how));
    assert forall|k: int| 0 <= k < second.len() implies second[k] != '|' by {
        if 1 <= k <= what.len() {
            assert(second[k] == what[k - 1]);
        }
    }
    pieces::cuts_are_at_the_first_and_last(second, '|', blank + how);
    text::white_space_around_goes(e, place, blank);
    assert(e + place + blank =~= first);
    text::white_space_around_goes(blank, what, blank);
    text::white_space_around_goes(blank, how, e);
    assert(blank + how + e =~= blank + how);
}

/// The findings of a text are those of its lines, line by line: one more line adds its own
/// finding at the end, or nothing, and takes none away.
pub proof fn lines_give_their_findings(
    t: Seq<char>,
    c: Seq<Option<Confidence>>,
    line: Seq<char>,
    x: Option<Confidence>,
)
    requires
        t.len() > 0 ==> t.last() == '\n',
        c.len() == pieces::lines(t).len(),
        line.len() > 0,
        forall|k: int| 0 <= k < line.len() ==> #[trigger] line[k] != '\n',
    ensures
        findings_in(t + line, c.push(x)) == (match finding_in(line, opt_confidence(x)) {
            Some(f) => findings_in(t, c).push(f),
            None => findings_in(t, c),
        }),
{
    let e = Seq::<Seq<char>>::empty();
    pieces::lemma_lines_of_parts(t, line);
    pieces::lines_read_back(e, line);
    assert(pieces::with_line_feeds(e) + line =~= line);
    let v = pieces::lines(t);
    let w = pieces::lines(t + line);
    assert(w =~= v.push(line));
    let n = v.len() as int;
    findings_of_more(v, c, line, x, n);
}

proof fn findings_of_more(
    v: Seq<Seq<char>>,
    c: Seq<Option<Confidence>>,
    line: Seq<char>,
    x: Option<Confidence>,
    n: int,
)
    requires
        0 <= n <= v.len(),
        c.len() == v.len(),
    ensures
        findings_of(v.push(line), c.push(x), n) == findings_of(v, c, n),
    decreases n,
{
    if n > 0 {
        findings_of_more(v, c, line, x, n - 1);
    }
}

proof fn short_files_are_kept(lines: Seq<Seq<char>>, max: nat, n: int)
    requires
        0 <= n <= lines.len(),
        forall|j: int| 1 <= j < lines.len() ==> !begins_a_file(#[trigger] lines[j]),
    ensures
        forall|j: int| 0 <= j < n ==> #[trigger] since_header(lines, j) == j,
        kept(lines, max, n) == pieces::with_line_feeds(
            lines.take(
                if n < max {
                    n
                } else {
                    max as int
                },
            ),
        ),
    decreases n,
{
    if n > 0 {
        short_files_are_kept(lines, max, n - 1);
        header_is_eleven(lines[n - 1]);
        assert(is_header(lines[n - 1]) == begins_a_file(lines[n - 1]));
        if n > 1 {
            assert(since_header(lines, n - 2) == n - 2);
        }
        assert(since_header(lines, n - 1) == n - 1);
        if n - 1 < max {
            feeds_one_more(lines.take(n - 1), lines[n - 1]);
            assert(lines.take(n) =~= lines.take(n - 1).push(lines[n - 1]));
        }
    } else {
        assert(lines.take(0) =~= Seq::empty());
        assert(kept(lines, max, n) =~= pieces::with_line_feeds(lines.take(0)));
    }
}

/// Of one file a cut diff keeps the first lines, as many as there may be, behind the summary.
pub proof fn first_lines_of_a_file_are_kept(diff: Seq<char>, max: nat, stat: Seq<char>)
    requires
        forall|j: int|
            1 <= j < pieces::lines(diff).len() ==> !begins_a_file(#[trigger] pieces::lines(diff)[j]),
    ensures
        ({
            let lines = pieces::lines(diff);
            cut_diff(diff, max, stat) == text::trim_end(stat) + seq!['\n', '\n']
                + pieces::with_line_feeds(
                lines.take(
                    if lines.len() < max {
                        lines.len() as int
                    } else {
                        max as int
                    },
                ),
            )
        }),
{
    reveal_strlit("\n\n");
    assert("\n\n"@ =~= seq!['\n', '\n']);
    short_files_are_kept(pieces::lines(diff), max, pieces::lines(diff).len() as int);
}

proof fn kept_of_front(a: Seq<Seq<char>>, b: Seq<Seq<char>>, max: nat, n: int)
    requires
        0 <= n <= a.len(),
    ensures
        kept(a + b, max, n) == kept(a, max, n),
        forall|j: int| 0 <= j < n ==> #[trigger] since_header(a + b, j) == since_header(a, j),
    decreases n,
{
    if n > 0 {
        kept_of_front(a, b, max, n - 1);
        assert((a + b)[n - 1] == a[n - 1]);
        if n > 1 {
            assert(since_header(a + b, n - 2) == since_header(a, n - 2));
        }
        assert(since_header(a + b, n - 1) == since_header(a, n - 1));
    }
}

proof fn kept_of_back(a: Seq<Seq<char>>, b: Seq<Seq<char>>, max: nat, n: int)
    requires
        0 <= n <= b.len(),
        b.len() > 0 ==> is_header(b[0]),
    ensures
        kept(a + b, max, a.len() + n) == kept(a, max, a.len() as int) + kept(b, max, n),
        forall|j: int|
            0 <= j < n ==> since_header(a + b, a.len() + j) == #[trigger] since_header(b, j),
    decreases n,
{
    if n > 0 {
        kept_of_back(a, b, max, n - 1);
        let k = a.len() + n - 1;
        assert((a + b)[k] == b[n - 1]);
        if n > 1 {
            assert(since_header(a + b, a.len() + (n - 2)) == since_header(b, n - 2));
        }
        assert(since_header(a + b, k) == since_header(b, n - 1));
        assert(kept(a + b, max, a.len() + n) =~= kept(a, max, a.len() as int) + kept(b, max, n));
    } else {
        kept_of_front(a, b, max, a.len() as int);
        assert(kept(b, max, 0) =~= Seq::empty());
        assert(kept(a, max, a.len() as int) + kept(b, max, 0) =~= kept(a, max, a.len() as int));
    }
}

/// Each file is cut on its own: what is kept of one file does not depend on those before it.
pub proof fn files_are_cut_one_by_one(a: Seq<char>, b: Seq<char>, max: nat, stat: Seq<char>)
    requires
        a.len() > 0 ==> a.last() == '\n',
        pieces::lines(b).len() > 0 ==> begins_a_file(pieces::lines(b)[0]),
    ensures
        cut_diff(a + b, max, stat) == cut_diff(a, max, stat) + cut_diff(b, max, Seq::empty()).skip(
            2,
        ),
{
    reveal_strlit("\n\n");
    let la = pieces::lines(a);
    let lb = pieces::lines(b);
    pieces::lemma_lines_of_parts(a, b);
    if lb.len() > 0 {
        header_is_eleven(lb[0]);
    }
    kept_of_back(la, lb, max, lb.len() as int);
    assert(text::trim_end(Seq::empty()) =~= Seq::empty());
    let kb = kept(lb, max, lb.len() as int);
    assert(cut_diff(b, max, Seq::empty()).skip(2) =~= kb);
    assert(cut_diff(a + b, max, stat) =~= cut_diff(a, max, stat) + kb);
}

proof fn last_place_holds(s: Seq<char>, p: Seq<char>, k: int, i: int)
    requires
        0 <= k <= i,
        text::matches_at(s, p, k),
        forall|j: int| k < j <= i ==> !text::matches_at(s, p, j),
    ensures
        last_find(s, p, i) == k,
    decreases i,
{
    if i > k {
        last_place_holds(s, p, k, i - 1);
    }
}

/// The path of a file is that of the new file in its header.
pub proof fn headers_name_the_new_file(was: Seq<char>, path: Seq<char>)
    requires
        path.len() > 0,
        text::is_trimmed(path),
        !text::has_char(path, '"'),
        !text::has_char(path, ' '),
        !text::starts_with(path, "b/"@),
    ensures
        header_path("a/"@ + was + " b/"@ + path) == path,
{
    let rest = "a/"@ + was + " b/"@ + path;
    reveal_strlit("a/");
    reveal_strlit(" b/");
    reveal_strlit("b/");
    let k = 2 + was.len() as int;
    let p = " b/"@;
    assert(rest.last() == path.last());
    assert(path.last() == path[path.len() - 1]);
    assert(!is_quote(rest, rest.len() - 1));
    assert(rest.subrange(k, k + 3) =~= p);
    assert forall|j: int| k < j <= rest.len() implies !text::matches_at(rest, p, j) by {
        if j + 3 <= rest.len() {
            assert(rest.subrange(j, j + 3)[0] == rest[j]);
            if j >= k + 3 {
                assert(rest[j] == path[j - k - 3]);
            }
        }
    }
    last_place_holds(rest, p, k, rest.len() as int);
    assert(rest.skip(k + 3) =~= path);
    text::white_space_around_goes(Seq::empty(), path, Seq::empty());
    assert(path[0] != '"');
}

// ── What a report tells ─────────────────────────────────────────────────────

/// The lines on one finding tell its confidence, its place and what it is, and behind them what
/// is suggested, where anything is.
pub open spec fn tells_finding(v: Seq<say::LineView>, f: FindingView) -> bool {
    &&& v.len() == (if f.suggestion.len() == 0 {
        1int
    } else {
        2
    })
    &&& match v[0] {
        say::LineView::Text(t) => text::holds_in_order(
            t,
            seq![level_name(f.level), f.confidence.shown, f.location, f.description],
        ),
        _ => false,
    }
    &&& f.suggestion.len() > 0 ==> match v[1] {
        say::LineView::Text(t) => text::holds_in_order(t, seq![f.suggestion]),
        _ => false,
    }
}

proof fn finding_is_told(f: FindingView)
    ensures
        tells_finding(finding_lines(f), f),
{
    let e = Seq::<Seq<char>>::empty();
    let t1 = level_name(f.level);
    let t2 = f.confidence.shown;
    let t3 = f.location;
    let t4 = f.description;
    text::one_more_is_held("["@, e, t1);
    let p1 = e.push(t1);
    text::one_more_is_held("["@ + t1, p1, "] ("@);
    text::one_more_is_held("["@ + t1 + "] ("@, p1, t2);
    let p2 = p1.push(t2);
    let s2 = "["@ + t1 + "] ("@ + t2;
    text::one_more_is_held(s2, p2, ") "@);
    text::one_more_is_held(s2 + ") "@, p2, t3);
    let p3 = p2.push(t3);
    let s3 = s2 + ") "@ + t3;
    text::one_more_is_held(s3, p3, " — "@);
    text::one_more_is_held(s3 + " — "@, p3, t4);
    assert(p3.push(t4) =~= seq![t1, t2, t3, t4]);
    text::a_text_holds_itself("       建议: "@, f.suggestion, Seq::empty());
}

proof fn all_lines_hold_each(v: Seq<FindingView>, n: int, i: int) -> (r: (
    Seq<say::LineView>,
    Seq<say::LineView>,
))
    requires
        0 <= i < n <= v.len(),
    ensures
        all_finding_lines(v, n) == r.0 + finding_lines(v[i]) + r.1,
    decreases n,
{
    let e = Seq::<say::LineView>::empty();
    let a = all_finding_lines(v, n - 1);
    let l = finding_lines(v[n - 1]);
    if i == n - 1 {
        assert(a + l =~= a + l + e);
        (a, e)
    } else {
        let (x, y) = all_lines_hold_each(v, n - 1, i);
        assert(x + finding_lines(v[i]) + y + l =~= x + finding_lines(v[i]) + (y + l));
        (x, y + l)
    }
}

/// Every finding stands in the report, with all that is known of it.
pub proof fn every_finding_is_reported(
    readers: usize,
    data: DiffData,
    findings: Seq<FindingView>,
    f: FindingView,
) -> (r: (Seq<say::LineView>, Seq<say::LineView>, Seq<say::LineView>))
    requires
        findings.contains(f),
    ensures
        report(readers, data, findings) == r.0 + r.1 + r.2,
        tells_finding(r.1, f),
{
    broadcast use vstd::seq_lib::group_to_multiset_ensures;

    order_keeps_findings(findings);
    let w = in_order(findings);
    assert(findings.to_multiset().count(f) > 0);
    assert(w.contains(f));
    assert(w.len() == w.to_multiset().len());
    assert(w.len() == findings.len());
    let i = choose|i: int| 0 <= i < w.len() && w[i] == f;
    let (a, b) = all_lines_hold_each(w, w.len() as int, i);
    finding_is_told(f);
    let whole = report(readers, data, findings);
    let body = all_finding_lines(w, findings.len() as int);
    let front = whole.take(whole.len() - body.len());
    assert(whole =~= front + body);
    assert(whole =~= (front + a) + finding_lines(f) + b);
    (front + a, finding_lines(f), b)
}

} // verus!
