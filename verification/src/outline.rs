//! Enumerated lists: one typed text that holds several messages.
use vstd::prelude::*;

use crate::numeral;
use crate::numeral::unsigned_of;
use crate::pieces;
use crate::pieces::{join_of, lines_of};
use crate::text;
use crate::text::{
    blank, chars_of, copy_text, same, sub_text, text_of, to_upper_char, trimmed, trimmed_end,
    trimmed_start,
};

verus! {

// ── Numberings ──────────────────────────────────────────────────────────────

/// How the items of a list are numbered.
#[derive(Clone, Copy, Debug, PartialEq, Eq, Structural)]
pub enum Numbering {
    Decimal,
    Alpha,
    Roman,
}

/// The value of letters read as a numeral: a is 1, z is 26, aa is 27.
pub open spec fn alpha_value(s: Seq<char>) -> nat
    decreases s.len(),
{
    if s.len() == 0 {
        0
    } else {
        alpha_value(s.drop_last()) * 26 + (text::upper_char(s.last()) as u32 - 64) as nat
    }
}

pub open spec fn all_letters(s: Seq<char>) -> bool {
    forall|i: int| 0 <= i < s.len() ==> text::is_letter(#[trigger] s[i])
}

pub open spec fn alpha_number(s: Seq<char>) -> Option<nat> {
    if s.len() == 0 || !all_letters(s) || alpha_value(s) > u64::MAX {
        None
    } else {
        Some(alpha_value(s))
    }
}

/// The canonical Roman numeral of a positive number.
pub open spec fn roman(n: nat) -> Seq<char>
    decreases n,
{
    if n >= 1000 {
        seq!['M'] + roman((n - 1000) as nat)
    } else if n >= 900 {
        seq!['C', 'M'] + roman((n - 900) as nat)
    } else if n >= 500 {
        seq!['D'] + roman((n - 500) as nat)
    } else if n >= 400 {
        seq!['C', 'D'] + roman((n - 400) as nat)
    } else if n >= 100 {
        seq!['C'] + roman((n - 100) as nat)
    } else if n >= 90 {
        seq!['X', 'C'] + roman((n - 90) as nat)
    } else if n >= 50 {
        seq!['L'] + roman((n - 50) as nat)
    } else if n >= 40 {
        seq!['X', 'L'] + roman((n - 40) as nat)
    } else if n >= 10 {
        seq!['X'] + roman((n - 10) as nat)
    } else if n >= 9 {
        seq!['I', 'X'] + roman((n - 9) as nat)
    } else if n >= 5 {
        seq!['V'] + roman((n - 5) as nat)
    } else if n >= 4 {
        seq!['I', 'V'] + roman((n - 4) as nat)
    } else if n >= 1 {
        seq!['I'] + roman((n - 1) as nat)
    } else {
        Seq::empty()
    }
}

pub open spec fn upper(s: Seq<char>) -> Seq<char> {
    Seq::new(s.len(), |i: int| text::upper_char(s[i]))
}

/// The numeral, in either case, is the canonical one of `n`.
pub open spec fn is_roman(s: Seq<char>, n: nat) -> bool {
    1 <= n <= 3999 && upper(s) == roman(n)
}

pub open spec fn roman_digit(c: char) -> int {
    match c {
        'I' => 1,
        'V' => 5,
        'X' => 10,
        'L' => 50,
        'C' => 100,
        'D' => 500,
        'M' => 1000,
        _ => 0,
    }
}

/// The sum of the digits, a digit before a greater one being taken off.
pub open spec fn roman_sum(s: Seq<char>) -> int
    decreases s.len(),
{
    if s.len() == 0 {
        0
    } else if s.len() > 1 && roman_digit(s[0]) < roman_digit(s[1]) {
        roman_sum(s.drop_first()) - roman_digit(s[0])
    } else {
        roman_sum(s.drop_first()) + roman_digit(s[0])
    }
}

proof fn lemma_roman_first(n: nat)
    ensures
        n == 0 <==> roman(n).len() == 0,
        roman(n).len() <= n,
        n > 0 ==> roman_digit(roman(n)[0]) <= 1000,
        0 < n < 900 ==> roman_digit(roman(n)[0]) <= 500,
        0 < n < 400 ==> roman_digit(roman(n)[0]) <= 100,
        0 < n < 90 ==> roman_digit(roman(n)[0]) <= 50,
        0 < n < 40 ==> roman_digit(roman(n)[0]) <= 10,
        0 < n < 9 ==> roman_digit(roman(n)[0]) <= 5,
        0 < n < 4 ==> roman_digit(roman(n)[0]) <= 1,
    decreases n,
{
    if n >= 1000 {
        lemma_roman_first((n - 1000) as nat);
    } else if n >= 900 {
        lemma_roman_first((n - 900) as nat);
    } else if n >= 500 {
        lemma_roman_first((n - 500) as nat);
    } else if n >= 400 {
        lemma_roman_first((n - 400) as nat);
    } else if n >= 100 {
        lemma_roman_first((n - 100) as nat);
    } else if n >= 90 {
        lemma_roman_first((n - 90) as nat);
    } else if n >= 50 {
        lemma_roman_first((n - 50) as nat);
    } else if n >= 40 {
        lemma_roman_first((n - 40) as nat);
    } else if n >= 10 {
        lemma_roman_first((n - 10) as nat);
    } else if n >= 9 {
        lemma_roman_first((n - 9) as nat);
    } else if n >= 5 {
        lemma_roman_first((n - 5) as nat);
    } else if n >= 4 {
        lemma_roman_first((n - 4) as nat);
    } else if n >= 1 {
        lemma_roman_first((n - 1) as nat);
    }
}

proof fn lemma_sum_one(c: char, rest: Seq<char>)
    requires
        rest.len() > 0 ==> roman_digit(rest[0]) <= roman_digit(c),
    ensures
        roman_sum(seq![c] + rest) == roman_digit(c) + roman_sum(rest),
{
    let s = seq![c] + rest;
    assert(s.drop_first() =~= rest);
    if rest.len() > 0 {
        assert(s[1] == rest[0]);
    }
}

proof fn lemma_sum_two(a: char, b: char, rest: Seq<char>)
    requires
        roman_digit(a) < roman_digit(b),
        rest.len() > 0 ==> roman_digit(rest[0]) <= roman_digit(b),
    ensures
        roman_sum(seq![a, b] + rest) == roman_digit(b) - roman_digit(a) + roman_sum(rest),
{
    let s = seq![a, b] + rest;
    assert(s.drop_first() =~= seq![b] + rest);
    lemma_sum_one(b, rest);
}

/// The digits of a canonical numeral add up to its number.
pub proof fn roman_sum_of_roman(n: nat)
    ensures
        roman_sum(roman(n)) == n,
    decreases n,
{
    if n > 0 {
        let v: int = if n >= 1000 {
            1000
        } else if n >= 900 {
            900
        } else if n >= 500 {
            500
        } else if n >= 400 {
            400
        } else if n >= 100 {
            100
        } else if n >= 90 {
            90
        } else if n >= 50 {
            50
        } else if n >= 40 {
            40
        } else if n >= 10 {
            10
        } else if n >= 9 {
            9
        } else if n >= 5 {
            5
        } else if n >= 4 {
            4
        } else {
            1
        };
        let m = (n - v) as nat;
        roman_sum_of_roman(m);
        lemma_roman_first(m);
        let rest = roman(m);
        if n >= 1000 {
            lemma_sum_one('M', rest);
        } else if n >= 900 {
            lemma_sum_two('C', 'M', rest);
        } else if n >= 500 {
            lemma_sum_one('D', rest);
        } else if n >= 400 {
            lemma_sum_two('C', 'D', rest);
        } else if n >= 100 {
            lemma_sum_one('C', rest);
        } else if n >= 90 {
            lemma_sum_two('X', 'C', rest);
        } else if n >= 50 {
            lemma_sum_one('L', rest);
        } else if n >= 40 {
            lemma_sum_two('X', 'L', rest);
        } else if n >= 10 {
            lemma_sum_one('X', rest);
        } else if n >= 9 {
            lemma_sum_two('I', 'X', rest);
        } else if n >= 5 {
            lemma_sum_one('V', rest);
        } else if n >= 4 {
            lemma_sum_two('I', 'V', rest);
        } else {
            lemma_sum_one('I', rest);
        }
    }
}

/// The number that a marker stands for in a numbering, where it is a numeral of it.
pub open spec fn number(kind: Numbering, s: Seq<char>) -> Option<nat> {
    match kind {
        Numbering::Decimal => numeral::unsigned(s, u64::MAX as nat),
        Numbering::Alpha => alpha_number(s),
        Numbering::Roman => if exists|n: nat| is_roman(s, n) {
            Some(choose|n: nat| is_roman(s, n))
        } else {
            None
        },
    }
}

/// Two numbers have the same Roman numeral only if they are equal.
pub proof fn roman_is_injective(s: Seq<char>, a: nat, b: nat)
    requires
        is_roman(s, a),
        is_roman(s, b),
    ensures
        a == b,
{
    roman_sum_of_roman(a);
    roman_sum_of_roman(b);
}

/// Every canonical numeral is read as its number.
pub proof fn roman_reads_back(n: nat)
    requires
        1 <= n <= 3999,
    ensures
        number(Numbering::Roman, roman(n)) == Some(n),
{
    lemma_roman_upper(n);
    assert(is_roman(roman(n), n));
    let m = choose|m: nat| is_roman(roman(n), m);
    roman_is_injective(roman(n), n, m);
}

proof fn lemma_roman_upper(n: nat)
    ensures
        upper(roman(n)) == roman(n),
        forall|i: int| 0 <= i < roman(n).len() ==> roman_digit(#[trigger] roman(n)[i]) > 0,
    decreases n,
{
    if n > 0 {
        let v: int = if n >= 1000 {
            1000
        } else if n >= 900 {
            900
        } else if n >= 500 {
            500
        } else if n >= 400 {
            400
        } else if n >= 100 {
            100
        } else if n >= 90 {
            90
        } else if n >= 50 {
            50
        } else if n >= 40 {
            40
        } else if n >= 10 {
            10
        } else if n >= 9 {
            9
        } else if n >= 5 {
            5
        } else if n >= 4 {
            4
        } else {
            1
        };
        let rest = roman((n - v) as nat);
        lemma_roman_upper((n - v) as nat);
        let head = roman(n).take(roman(n).len() - rest.len());
        assert(roman(n) =~= head + rest);
        assert forall|i: int| 0 <= i < roman(n).len() implies roman_digit(#[trigger] roman(n)[i]) > 0
            && text::upper_char(roman(n)[i]) == roman(n)[i] by {
            if i >= head.len() {
                assert(roman(n)[i] == rest[i - head.len()]);
                assert(upper(rest)[i - head.len()] == rest[i - head.len()]);
            }
        }
    }
    assert(upper(roman(n)) =~= roman(n));
}

// ── Reading numerals ────────────────────────────────────────────────────────

pub fn decode_decimal(marker: &str) -> (r: Option<u64>)
    ensures
        match r {
            Some(n) => number(Numbering::Decimal, marker@) == Some(n as nat),
            None => number(Numbering::Decimal, marker@) is None,
        },
{
    unsigned_of(marker, u64::MAX)
}

proof fn lemma_alpha_prefix(s: Seq<char>, k: int)
    requires
        0 <= k <= s.len(),
    ensures
        alpha_value(s.take(k)) <= alpha_value(s),
    decreases s.len(),
{
    if k == s.len() {
        assert(s.take(k) =~= s);
    } else {
        assert(s.drop_last().take(k) =~= s.take(k));
        lemma_alpha_prefix(s.drop_last(), k);
    }
}

pub fn decode_alpha(marker: &str) -> (r: Option<u64>)
    ensures
        match r {
            Some(n) => number(Numbering::Alpha, marker@) == Some(n as nat),
            None => number(Numbering::Alpha, marker@) is None,
        },
{
    let v = chars_of(marker);
    if v.len() == 0 {
        return None;
    }
    let mut n: u64 = 0;
    let mut i: usize = 0;
    assert(v@.take(0) =~= Seq::<char>::empty());
    while i < v.len()
        invariant
            i <= v.len(),
            v@ == marker@,
            n == alpha_value(v@.take(i as int)),
            forall|k: int| 0 <= k < i ==> text::is_letter(#[trigger] v@[k]),
        decreases v.len() - i,
    {
        let c = to_upper_char(v[i]);
        if !('A' <= c && c <= 'Z') {
            assert(!text::is_letter(v@[i as int]));
            return None;
        }
        let ghost head = v@.take(i + 1);
        proof {
            assert(head.drop_last() =~= v@.take(i as int));
            assert(head.last() == v@[i as int]);
            lemma_alpha_prefix(v@, i + 1);
        }
        let d: u64 = (c as u32 - 64) as u64;
        match n.checked_mul(26) {
            Some(m) => match m.checked_add(d) {
                Some(s) => {
                    n = s;
                },
                None => {
                    return None;
                },
            },
            None => {
                return None;
            },
        }
        i = i + 1;
    }
    assert(v@.take(i as int) =~= v@);
    Some(n)
}

fn digit_value(c: char) -> (r: i64)
    ensures
        r == roman_digit(c),
        0 <= r <= 1000,
{
    match c {
        'I' => 1,
        'V' => 5,
        'X' => 10,
        'L' => 50,
        'C' => 100,
        'D' => 500,
        'M' => 1000,
        _ => 0,
    }
}

/// The canonical Roman numeral of a number from 1 to 3999; the empty text for others.
pub fn to_roman(n: u64) -> (r: String)
    ensures
        r@ == (if 1 <= n <= 3999 {
            roman(n as nat)
        } else {
            Seq::empty()
        }),
{
    let mut out: Vec<char> = Vec::new();
    if n == 0 || n > 3999 {
        return String::new();
    }
    let mut k: u64 = n;
    assert(out@ + roman(n as nat) =~= roman(n as nat));
    while k > 0
        invariant
            out@ + roman(k as nat) == roman(n as nat),
        decreases k,
    {
        let (v, a, b): (u64, Option<char>, char) = if k >= 1000 {
            (1000, None, 'M')
        } else if k >= 900 {
            (900, Some('C'), 'M')
        } else if k >= 500 {
            (500, None, 'D')
        } else if k >= 400 {
            (400, Some('C'), 'D')
        } else if k >= 100 {
            (100, None, 'C')
        } else if k >= 90 {
            (90, Some('X'), 'C')
        } else if k >= 50 {
            (50, None, 'L')
        } else if k >= 40 {
            (40, Some('X'), 'L')
        } else if k >= 10 {
            (10, None, 'X')
        } else if k >= 9 {
            (9, Some('I'), 'X')
        } else if k >= 5 {
            (5, None, 'V')
        } else if k >= 4 {
            (4, Some('I'), 'V')
        } else {
            (1, None, 'I')
        };
        let ghost before = out@;
        match a {
            Some(c) => {
                out.push(c);
            },
            None => {},
        }
        out.push(b);
        assert(out@ + roman((k - v) as nat) =~= before + roman(k as nat));
        k = k - v;
    }
    assert(out@ + roman(0) =~= out@);
    text_of(&out)
}

pub fn decode_roman(marker: &str) -> (r: Option<u64>)
    ensures
        match r {
            Some(n) => number(Numbering::Roman, marker@) == Some(n as nat),
            None => number(Numbering::Roman, marker@) is None,
        },
{
    let v = chars_of(marker);
    let mut up: Vec<char> = Vec::new();
    let mut i: usize = 0;
    while i < v.len()
        invariant
            i <= v.len(),
            up@ == upper(v@).take(i as int),
        decreases v.len() - i,
    {
        up.push(to_upper_char(v[i]));
        i = i + 1;
        assert(up@ =~= upper(v@).take(i as int));
    }
    assert(up@ =~= upper(v@));
    if up.len() > 3999 {
        proof {
            assert forall|n: nat| !is_roman(marker@, n) by {
                if is_roman(marker@, n) {
                    lemma_roman_first(n);
                }
            }
        }
        return None;
    }
    let mut total: i64 = 0;
    let mut j: usize = up.len();
    assert(up@.skip(j as int) =~= Seq::<char>::empty());
    while j > 0
        invariant
            j <= up.len() <= 3999,
            total == roman_sum(up@.skip(j as int)),
            -1000 * (up.len() - j) <= total <= 1000 * (up.len() - j),
        decreases j,
    {
        j = j - 1;
        let ghost tail = up@.skip(j as int);
        assert(tail.drop_first() =~= up@.skip(j + 1));
        assert(tail[0] == up@[j as int]);
        let d: i64 = digit_value(up[j]);
        if j + 1 < up.len() && d < digit_value(up[j + 1]) {
            assert(tail[1] == up@[j + 1]);
            total = total - d;
        } else {
            if j + 1 < up.len() {
                assert(tail[1] == up@[j + 1]);
            }
            total = total + d;
        }
    }
    assert(up@.skip(0) =~= up@);
    proof {
        assert forall|n: nat| is_roman(marker@, n) implies n == total by {
            roman_sum_of_roman(n);
        }
    }
    if total < 1 || total > 3999 {
        return None;
    }
    let back = to_roman(total as u64);
    let shown = text_of(&up);
    if same(&back, &shown) {
        assert(is_roman(marker@, total as nat));
        Some(total as u64)
    } else {
        None
    }
}

pub fn decode(kind: Numbering, marker: &str) -> (r: Option<u64>)
    ensures
        match r {
            Some(n) => number(kind, marker@) == Some(n as nat),
            None => number(kind, marker@) is None,
        },
{
    match kind {
        Numbering::Decimal => decode_decimal(marker),
        Numbering::Alpha => decode_alpha(marker),
        Numbering::Roman => decode_roman(marker),
    }
}

/// The markers are numerals of one numbering, each one more than the one before it.
pub open spec fn in_sequence(kind: Numbering, markers: Seq<Seq<char>>) -> bool {
    &&& markers.len() > 0
    &&& forall|i: int| 0 <= i < markers.len() ==> number(kind, #[trigger] markers[i]) is Some
    &&& forall|i: int, j: int|
        0 <= i && j == i + 1 && j < markers.len() ==> number(kind, #[trigger] markers[j])->0
            == number(kind, #[trigger] markers[i])->0 + 1
}

pub fn sequential(markers: &Vec<String>, kind: Numbering) -> (r: bool)
    ensures
        r == in_sequence(kind, text::texts(markers@)),
{
    let ghost ms = text::texts(markers@);
    if markers.len() == 0 {
        return false;
    }
    let mut previous: u64 = match decode(kind, &markers[0]) {
        Some(v) => v,
        None => {
            assert(ms[0] == markers@[0]@);
            return false;
        },
    };
    let mut i: usize = 1;
    while i < markers.len()
        invariant
            1 <= i <= markers.len(),
            ms == text::texts(markers@),
            number(kind, ms[i - 1]) == Some(previous as nat),
            forall|k: int| 0 <= k < i ==> number(kind, #[trigger] ms[k]) is Some,
            forall|k: int, j: int|
                0 <= k && j == k + 1 && j < i ==> number(kind, #[trigger] ms[j])->0 == number(
                    kind,
                    #[trigger] ms[k],
                )->0 + 1,
        decreases markers.len() - i,
    {
        assert(ms[i as int] == markers@[i as int]@);
        match decode(kind, &markers[i]) {
            Some(v) => {
                if previous < u64::MAX && v == previous + 1 {
                    previous = v;
                } else {
                    assert(number(kind, ms[i as int])->0 != number(kind, ms[i - 1])->0 + 1);
                    return false;
                }
            },
            None => {
                return false;
            },
        }
        i = i + 1;
    }
    true
}

// ── Items ───────────────────────────────────────────────────────────────────

/// A line recognised as an item of an enumerated list.
#[derive(Debug)]
pub struct EnumeratedItem<S = String> {
    /// The line on which the item stands, from zero on.
    pub line: usize,
    pub indent: S,
    pub marker: S,
    /// The dot or bracket behind the marker.
    pub punctuation: char,
    pub content: S,
}

impl EnumeratedItem {
    pub open spec fn view(&self) -> EnumeratedItem<Seq<char>> {
        EnumeratedItem {
            line: self.line,
            indent: self.indent@,
            marker: self.marker@,
            punctuation: self.punctuation,
            content: self.content@,
        }
    }
}

pub open spec fn is_alnum(c: char) -> bool {
    text::is_digit(c) || text::is_letter(c)
}

/// How many characters at the front are ASCII letters or digits.
pub open spec fn alnum_len(s: Seq<char>) -> nat
    decreases s.len(),
{
    if s.len() > 0 && is_alnum(s[0]) {
        1 + alnum_len(s.drop_first())
    } else {
        0
    }
}

/// An item is white space, a marker of letters and digits, a dot or closing bracket, and
/// then the end of the line or a blank and the content.
pub open spec fn item(s: Seq<char>) -> Option<EnumeratedItem<Seq<char>>> {
    let rest = text::trim_start(s);
    let indent = s.take(s.len() - rest.len());
    let n = alnum_len(rest) as int;
    let tail = rest.skip(n + 1);
    if n == 0 || n >= rest.len() || (rest[n] != '.' && rest[n] != ')') {
        None
    } else if tail.len() > 0 && tail[0] != ' ' && tail[0] != '\t' {
        None
    } else {
        Some(
            EnumeratedItem {
                line: 0,
                indent,
                marker: rest.take(n),
                punctuation: rest[n],
                content: text::trim_start(tail),
            },
        )
    }
}

proof fn lemma_trim_start_len(s: Seq<char>)
    ensures
        text::trim_start(s).len() <= s.len(),
        text::trim_start(s) == s.skip(s.len() - text::trim_start(s).len()),
    decreases s.len(),
{
    if s.len() > 0 && text::is_white(s[0]) {
        lemma_trim_start_len(s.drop_first());
        let k = s.drop_first().len() - text::trim_start(s.drop_first()).len();
        assert(s.drop_first().skip(k) =~= s.skip(k + 1));
    } else {
        assert(s.skip(0) =~= s);
    }
}

pub fn parse_item(line: &str) -> (r: Option<EnumeratedItem>)
    ensures
        match r {
            Some(it) => item(line@) == Some(it@),
            None => item(line@) is None,
        },
{
    let v = chars_of(line);
    let trimmed_line = trimmed_start(line);
    let rest = chars_of(&trimmed_line);
    proof {
        lemma_trim_start_len(line@);
    }
    let indent = sub_text(&v, 0, v.len() - rest.len());
    assert(indent@ =~= line@.take(line@.len() - rest@.len()));
    let mut n: usize = 0;
    assert(rest@.skip(0) =~= rest@);
    while n < rest.len() && (('0' <= rest[n] && rest[n] <= '9') || ('A' <= rest[n] && rest[n]
        <= 'Z') || ('a' <= rest[n] && rest[n] <= 'z'))
        invariant
            n <= rest.len(),
            alnum_len(rest@) == n + alnum_len(rest@.skip(n as int)),
        decreases rest.len() - n,
    {
        assert(rest@.skip(n as int).drop_first() =~= rest@.skip(n + 1));
        n = n + 1;
    }
    assert(alnum_len(rest@.skip(n as int)) == 0);
    if n == 0 || n >= rest.len() {
        return None;
    }
    let punctuation = rest[n];
    if punctuation != '.' && punctuation != ')' {
        return None;
    }
    if n + 1 < rest.len() && rest[n + 1] != ' ' && rest[n + 1] != '\t' {
        assert(rest@.skip(n + 1)[0] == rest@[n + 1]);
        return None;
    }
    let marker = sub_text(&rest, 0, n);
    assert(marker@ =~= rest@.take(n as int));
    let tail = sub_text(&rest, n + 1, rest.len());
    assert(tail@ =~= rest@.skip(n + 1));
    let content = trimmed_start(&tail);
    Some(EnumeratedItem { line: 0, indent, marker, punctuation, content })
}

// ── Messages ────────────────────────────────────────────────────────────────

/// The items among the first `n` lines that have the given indent, with their lines.
pub open spec fn items(ls: Seq<Seq<char>>, indent: Seq<char>, n: int) -> Seq<
    EnumeratedItem<Seq<char>>,
>
    decreases n,
{
    if n <= 0 {
        Seq::empty()
    } else {
        let prev = items(ls, indent, n - 1);
        match item(ls[n - 1]) {
            Some(it) => if it.indent == indent {
                prev.push(EnumeratedItem { line: (n - 1) as usize, ..it })
            } else {
                prev
            },
            None => prev,
        }
    }
}

pub open spec fn markers(its: Seq<EnumeratedItem<Seq<char>>>) -> Seq<Seq<char>> {
    Seq::new(its.len(), |i: int| its[i].marker)
}

/// The items form one list: at least two, one punctuation, numbered in sequence.
pub open spec fn is_list(its: Seq<EnumeratedItem<Seq<char>>>) -> bool {
    &&& its.len() >= 2
    &&& forall|i: int| 0 <= i < its.len() ==> (#[trigger] its[i]).punctuation == its[0].punctuation
    &&& in_sequence(Numbering::Decimal, markers(its)) || in_sequence(
        Numbering::Alpha,
        markers(its),
    ) || in_sequence(Numbering::Roman, markers(its))
}

/// The content of an item and the lines up to the next item.
pub open spec fn message(ls: Seq<Seq<char>>, its: Seq<EnumeratedItem<Seq<char>>>, i: int) -> Seq<
    char,
> {
    let end = if i + 1 < its.len() {
        its[i + 1].line as int
    } else {
        ls.len() as int
    };
    text::trim(
        pieces::join(seq![its[i].content] + ls.subrange(its[i].line + 1, end), seq!['\n']),
    )
}

/// The messages of the first `n` items, empty ones left out.
pub open spec fn messages(
    ls: Seq<Seq<char>>,
    its: Seq<EnumeratedItem<Seq<char>>>,
    n: int,
) -> Seq<Seq<char>>
    decreases n,
{
    if n <= 0 {
        Seq::empty()
    } else {
        let prev = messages(ls, its, n - 1);
        let m = message(ls, its, n - 1);
        if m.len() == 0 {
            prev
        } else {
            prev.push(m)
        }
    }
}

/// The lines from the first one on that is not blank.
pub open spec fn from_first_filled(ls: Seq<Seq<char>>) -> Seq<Seq<char>>
    decreases ls.len(),
{
    if ls.len() > 0 && text::is_blank(ls[0]) {
        from_first_filled(ls.drop_first())
    } else {
        ls
    }
}

/// The lines of a typed text without the blank ones around it. The first line keeps its
/// indent.
pub open spec fn typed_lines(s: Seq<char>) -> Seq<Seq<char>> {
    from_first_filled(pieces::lines(text::trim_end(s)))
}

/// The item that the lines begin with.
pub open spec fn first_item(ls: Seq<Seq<char>>) -> Option<EnumeratedItem<Seq<char>>> {
    if ls.len() == 0 {
        None
    } else {
        item(ls[0])
    }
}

/// What a typed text holds: the items of the enumerated list that it is, or itself.
pub open spec fn queued_messages(s: Seq<char>) -> Seq<Seq<char>> {
    let source = text::trim(s);
    let ls = typed_lines(s);
    if source.len() == 0 {
        Seq::empty()
    } else {
        match first_item(ls) {
            None => seq![source],
            Some(first) => {
                let its = items(ls, first.indent, ls.len() as int);
                let ms = messages(ls, its, its.len() as int);
                if !is_list(its) || ms.len() == 0 {
                    seq![source]
                } else {
                    ms
                }
            },
        }
    }
}

pub open spec fn item_views(v: Seq<EnumeratedItem>) -> Seq<EnumeratedItem<Seq<char>>> {
    Seq::new(v.len(), |i: int| v[i].view())
}

/// Every item stands on its own line, in the order of the lines.
pub open spec fn lines_ascend(its: Seq<EnumeratedItem<Seq<char>>>, n: int) -> bool {
    &&& forall|i: int| 0 <= i < its.len() ==> 0 <= (#[trigger] its[i]).line < n
    &&& forall|i: int, j: int|
        0 <= i < j < its.len() ==> (#[trigger] its[i]).line < (#[trigger] its[j]).line
}

fn collect_items(ls: &Vec<String>, indent: &str) -> (r: Vec<EnumeratedItem>)
    ensures
        item_views(r@) == items(text::texts(ls@), indent@, ls.len() as int),
        lines_ascend(item_views(r@), ls.len() as int),
{
    let ghost lv = text::texts(ls@);
    let mut r: Vec<EnumeratedItem> = Vec::new();
    let mut i: usize = 0;
    assert(item_views(r@) =~= Seq::empty());
    while i < ls.len()
        invariant
            i <= ls.len(),
            lv == text::texts(ls@),
            item_views(r@) == items(lv, indent@, i as int),
            lines_ascend(item_views(r@), i as int),
        decreases ls.len() - i,
    {
        assert(lv[i as int] == ls@[i as int]@);
        let ghost before = r@;
        match parse_item(&ls[i]) {
            Some(it) => {
                if same(&it.indent, indent) {
                    let numbered = EnumeratedItem { line: i, ..it };
                    r.push(numbered);
                    assert(item_views(r@) =~= item_views(before).push(numbered@));
                }
            },
            None => {},
        }
        i = i + 1;
    }
    r
}

fn item_markers(its: &Vec<EnumeratedItem>) -> (r: Vec<String>)
    ensures
        text::texts(r@) == markers(item_views(its@)),
{
    let mut r: Vec<String> = Vec::new();
    let mut i: usize = 0;
    while i < its.len()
        invariant
            i <= its.len(),
            text::texts(r@) == markers(item_views(its@)).take(i as int),
        decreases its.len() - i,
    {
        let m = copy_text(&its[i].marker);
        proof {
            text::lemma_texts_push(r@, m);
        }
        r.push(m);
        i = i + 1;
        assert(text::texts(r@) =~= markers(item_views(its@)).take(i as int));
    }
    assert(text::texts(r@) =~= markers(item_views(its@)));
    r
}

fn forms_list(its: &Vec<EnumeratedItem>) -> (r: bool)
    ensures
        r == is_list(item_views(its@)),
{
    let ghost iv = item_views(its@);
    if its.len() < 2 {
        return false;
    }
    let mut i: usize = 0;
    while i < its.len()
        invariant
            2 <= its.len(),
            i <= its.len(),
            iv == item_views(its@),
            forall|k: int| 0 <= k < i ==> (#[trigger] iv[k]).punctuation == iv[0].punctuation,
        decreases its.len() - i,
    {
        if its[i].punctuation != its[0].punctuation {
            assert(iv[i as int].punctuation != iv[0].punctuation);
            return false;
        }
        i = i + 1;
    }
    let ms = item_markers(its);
    sequential(&ms, Numbering::Decimal) || sequential(&ms, Numbering::Alpha) || sequential(
        &ms,
        Numbering::Roman,
    )
}

fn item_message(ls: &Vec<String>, its: &Vec<EnumeratedItem>, i: usize) -> (r: String)
    requires
        i < its.len(),
        lines_ascend(item_views(its@), ls.len() as int),
    ensures
        r@ == message(text::texts(ls@), item_views(its@), i as int),
{
    let ghost lv = text::texts(ls@);
    let ghost iv = item_views(its@);
    assert(iv[i as int] == its@[i as int]@);
    let end: usize = if i + 1 < its.len() {
        assert(iv[i + 1] == its@[i + 1]@);
        its[i + 1].line
    } else {
        ls.len()
    };
    assert(its[i as int].line < end <= ls.len());
    let mut body: Vec<String> = Vec::new();
    body.push(copy_text(&its[i].content));
    let start: usize = its[i].line + 1;
    let mut k: usize = start;
    assert(text::texts(body@) =~= seq![iv[i as int].content] + lv.subrange(start as int, k as int));
    while k < end
        invariant
            start <= k <= end <= ls.len(),
            lv == text::texts(ls@),
            text::texts(body@) == seq![iv[i as int].content] + lv.subrange(start as int, k as int),
        decreases end - k,
    {
        let l = copy_text(&ls[k]);
        proof {
            text::lemma_texts_push(body@, l);
        }
        body.push(l);
        k = k + 1;
        assert(text::texts(body@) =~= seq![iv[i as int].content] + lv.subrange(
            start as int,
            k as int,
        ));
    }
    proof {
        reveal_strlit("\n");
        assert("\n"@ =~= seq!['\n']);
    }
    let joined = join_of(&body, "\n");
    trimmed(&joined)
}

fn single(s: &str) -> (r: Vec<String>)
    ensures
        text::texts(r@) == seq![s@],
{
    let mut r: Vec<String> = Vec::new();
    r.push(copy_text(s));
    assert(text::texts(r@) =~= seq![s@]);
    r
}

fn typed_lines_of(text: &str) -> (r: Vec<String>)
    ensures
        text::texts(r@) == typed_lines(text@),
{
    let all = lines_of(&trimmed_end(text));
    let ghost av = text::texts(all@);
    let mut i: usize = 0;
    assert(av.skip(0) =~= av);
    while i < all.len() && blank(&all[i])
        invariant
            i <= all.len(),
            av == text::texts(all@),
            from_first_filled(av) == from_first_filled(av.skip(i as int)),
        decreases all.len() - i,
    {
        assert(av.skip(i as int)[0] == all@[i as int]@);
        assert(av.skip(i as int).drop_first() =~= av.skip(i + 1));
        i = i + 1;
    }
    if i < all.len() {
        assert(av.skip(i as int)[0] == all@[i as int]@);
    }
    assert(from_first_filled(av) == av.skip(i as int));
    let mut r: Vec<String> = Vec::new();
    let mut k: usize = i;
    assert(text::texts(r@) =~= av.subrange(i as int, k as int));
    while k < all.len()
        invariant
            i <= k <= all.len(),
            av == text::texts(all@),
            text::texts(r@) == av.subrange(i as int, k as int),
        decreases all.len() - k,
    {
        let l = copy_text(&all[k]);
        proof {
            text::lemma_texts_push(r@, l);
        }
        r.push(l);
        k = k + 1;
        assert(text::texts(r@) =~= av.subrange(i as int, k as int));
    }
    assert(av.subrange(i as int, k as int) =~= av.skip(i as int));
    r
}

/// Cuts a typed text into the messages to enqueue.
pub fn split_queued_messages(text: &str) -> (r: Vec<String>)
    ensures
        text::texts(r@) == queued_messages(text@),
{
    let source = trimmed(text);
    if source.as_str().is_empty() {
        let r: Vec<String> = Vec::new();
        assert(text::texts(r@) =~= Seq::<Seq<char>>::empty());
        return r;
    }
    let ls = typed_lines_of(text);
    let ghost lv = text::texts(ls@);
    assert(ls@.len() == lv.len());
    if ls.len() == 0 {
        return single(&source);
    }
    assert(lv[0] == ls@[0]@);
    let first = match parse_item(&ls[0]) {
        Some(it) => it,
        None => {
            return single(&source);
        },
    };
    let its = collect_items(&ls, &first.indent);
    if !forms_list(&its) {
        return single(&source);
    }
    let ghost iv = item_views(its@);
    let mut r: Vec<String> = Vec::new();
    let mut i: usize = 0;
    assert(text::texts(r@) =~= Seq::<Seq<char>>::empty());
    while i < its.len()
        invariant
            i <= its.len(),
            lv == text::texts(ls@),
            iv == item_views(its@),
            lines_ascend(iv, ls.len() as int),
            text::texts(r@) == messages(lv, iv, i as int),
        decreases its.len() - i,
    {
        let m = item_message(&ls, &its, i);
        if !m.as_str().is_empty() {
            proof {
                text::lemma_texts_push(r@, m);
            }
            r.push(m);
        }
        i = i + 1;
    }
    assert(r.len() == text::texts(r@).len());
    if r.len() == 0 {
        single(&source)
    } else {
        r
    }
}

proof fn lemma_messages_not_empty(
    ls: Seq<Seq<char>>,
    its: Seq<EnumeratedItem<Seq<char>>>,
    n: int,
    i: int,
)
    requires
        0 <= i < messages(ls, its, n).len(),
    ensures
        messages(ls, its, n)[i].len() > 0,
    decreases n,
{
    if n > 0 && i < messages(ls, its, n - 1).len() {
        lemma_messages_not_empty(ls, its, n - 1, i);
    }
}

/// A text that is not blank gives at least one message, a blank one none, and no message is
/// empty.
pub proof fn queued_messages_are_not_empty(s: Seq<char>)
    ensures
        queued_messages(s).len() == 0 <==> text::is_blank(s),
        forall|i: int| 0 <= i < queued_messages(s).len() ==> (#[trigger] queued_messages(s)[i]).len() > 0,
{
    let ls = typed_lines(s);
    assert forall|i: int| 0 <= i < queued_messages(s).len() implies (
    #[trigger] queued_messages(s)[i]).len() > 0 by {
        if let Some(first) = first_item(ls) {
            let its = items(ls, first.indent, ls.len() as int);
            if is_list(its) && messages(ls, its, its.len() as int).len() > 0 {
                lemma_messages_not_empty(ls, its, its.len() as int, i);
            }
        }
    }
}

// ── What a list is cut into ─────────────────────────────────────────────────

/// The item with this number: a number, a dot, a blank and the first line of its message.
pub open spec fn numbered(i: int, c: Seq<char>) -> Seq<char> {
    numeral::dec((i + 1) as nat) + seq!['.', ' '] + c
}

/// Lines that begin items of a list stand at the places `p`, the first of them at the front;
/// every other line begins with neither a letter nor a digit.
pub open spec fn lists(ls: Seq<Seq<char>>, p: Seq<int>, c: Seq<Seq<char>>) -> bool {
    &&& p.len() == c.len()
    &&& p.len() > 0 && p[0] == 0
    &&& forall|i: int| 0 <= i < p.len() ==> 0 <= #[trigger] p[i] < ls.len()
    &&& forall|i: int, j: int| 0 <= i < j < p.len() ==> #[trigger] p[i] < #[trigger] p[j]
    &&& forall|i: int| 0 <= i < p.len() ==> ls[p[i]] == numbered(i, #[trigger] c[i])
    &&& forall|i: int|
        0 <= i < c.len() ==> (#[trigger] c[i]).len() > 0 && text::is_trimmed(c[i])
    &&& forall|j: int|
        0 <= j < ls.len() && !p.contains(j) ==> (#[trigger] ls[j]).len() == 0 || !is_alnum(ls[j][0])
}

proof fn digits_at_the_front(d: Seq<char>, t: Seq<char>)
    requires
        text::all_digits(d),
        t.len() > 0,
        !is_alnum(t[0]),
    ensures
        alnum_len(d + t) == d.len(),
    decreases d.len(),
{
    let s = d + t;
    if d.len() == 0 {
        assert(s =~= t);
    } else {
        let e = d.drop_first();
        assert forall|k: int| 0 <= k < e.len() implies text::is_digit(#[trigger] e[k]) by {
            assert(e[k] == d[k + 1]);
        }
        digits_at_the_front(e, t);
        assert(s.drop_first() =~= e + t);
        assert(text::is_digit(d[0]));
    }
}

proof fn digits_are_dark(c: char)
    requires
        text::is_digit(c),
    ensures
        !text::is_white(c),
        is_alnum(c),
        c != '\n',
        c != '\r',
{
}

proof fn numbered_line_is_item(i: int, c: Seq<char>)
    requires
        0 <= i,
        c.len() > 0,
        text::is_trimmed(c),
    ensures
        item(numbered(i, c)) == Some(
            EnumeratedItem {
                line: 0,
                indent: Seq::<char>::empty(),
                marker: numeral::dec((i + 1) as nat),
                punctuation: '.',
                content: c,
            },
        ),
        numbered(i, c).len() > 0,
        !text::is_white(numbered(i, c)[0]),
        numbered(i, c).last() == c.last(),
{
    let d = numeral::dec((i + 1) as nat);
    let s = numbered(i, c);
    let t = seq!['.', ' '] + c;
    let e = Seq::<char>::empty();
    numeral::dec_reads_back((i + 1) as nat);
    assert(d.len() > 0);
    assert(s =~= d + t);
    assert(text::is_digit(d[0]));
    digits_are_dark(d[0]);
    assert(s[0] == d[0]);
    text::white_space_around_goes(e, s, e);
    assert(s.take(0) =~= e);
    digits_at_the_front(d, t);
    assert(s[d.len() as int] == '.');
    let tail = s.skip(d.len() as int + 1);
    assert(tail =~= seq![' '] + c);
    text::white_space_around_goes(seq![' '], c, e);
    assert(s.take(d.len() as int) =~= d);
}

proof fn other_line_is_none(l: Seq<char>)
    requires
        l.len() == 0 || !is_alnum(l[0]),
    ensures
        match item(l) {
            Some(it) => it.indent != Seq::<char>::empty(),
            None => true,
        },
{
    let r = text::trimming_takes_only_white(l);
    if l.len() > 0 && text::is_white(l[0]) {
        shorter_once_trimmed(l.drop_first());
        assert(text::trim_start(l).len() < l.len());
        let k = l.len() - text::trim_start(l).len();
        assert(l.take(k).len() > 0);
    } else {
        assert(text::trim_start(l) == l);
        assert(alnum_len(l) == 0);
    }
}

proof fn shorter_once_trimmed(s: Seq<char>)
    ensures
        text::trim_start(s).len() <= s.len(),
    decreases s.len(),
{
    if s.len() > 0 && text::is_white(s[0]) {
        shorter_once_trimmed(s.drop_first());
    }
}

pub open spec fn numbered_item(p: Seq<int>, c: Seq<Seq<char>>, i: int) -> EnumeratedItem<Seq<char>> {
    EnumeratedItem {
        line: p[i] as usize,
        indent: Seq::<char>::empty(),
        marker: numeral::dec((i + 1) as nat),
        punctuation: '.',
        content: c[i],
    }
}

proof fn numbered_items(ls: Seq<Seq<char>>, p: Seq<int>, c: Seq<Seq<char>>, k: int, n: int)
    requires
        lists(ls, p, c),
        0 <= n <= ls.len(),
        0 <= k <= p.len(),
        forall|i: int| 0 <= i < k ==> #[trigger] p[i] < n,
        forall|i: int| k <= i < p.len() ==> #[trigger] p[i] >= n,
    ensures
        items(ls, Seq::empty(), n) == Seq::new(k as nat, |i: int| numbered_item(p, c, i)),
    decreases n,
{
    let e = Seq::<char>::empty();
    let all = Seq::new(k as nat, |i: int| numbered_item(p, c, i));
    if n == 0 {
        assert(k == 0) by {
            if k > 0 {
                assert(p[0] < 0);
            }
        }
        assert(items(ls, e, n) =~= all);
    } else if k > 0 && p[k - 1] == n - 1 {
        assert forall|i: int| 0 <= i < k - 1 implies #[trigger] p[i] < n - 1 by {
            assert(p[i] < p[k - 1]);
        }
        numbered_items(ls, p, c, k - 1, n - 1);
        assert(ls[p[k - 1]] == numbered(k - 1, c[k - 1]));
        numbered_line_is_item(k - 1, c[k - 1]);
        let prev = Seq::new((k - 1) as nat, |i: int| numbered_item(p, c, i));
        assert(all =~= prev.push(numbered_item(p, c, k - 1)));
    } else {
        assert forall|i: int| 0 <= i < k implies #[trigger] p[i] < n - 1 by {
            if i < k - 1 {
                assert(p[i] < p[k - 1]);
            }
        }
        assert(!p.contains(n - 1)) by {
            if p.contains(n - 1) {
                let i = choose|i: int| 0 <= i < p.len() && p[i] == n - 1;
                if i >= k {
                    assert(p[i] >= n);
                } else {
                    assert(p[i] < n - 1);
                }
            }
        }
        other_line_is_none(ls[n - 1]);
        numbered_items(ls, p, c, k, n - 1);
    }
}

/// The lines of one item: the rest of the first line, and the lines up to the next item.
pub open spec fn lines_of_item(ls: Seq<Seq<char>>, p: Seq<int>, c: Seq<Seq<char>>, i: int) -> Seq<
    Seq<char>,
> {
    seq![c[i]] + ls.subrange(
        p[i] + 1,
        if i + 1 < p.len() {
            p[i + 1]
        } else {
            ls.len() as int
        },
    )
}

proof fn numbered_messages(ls: Seq<Seq<char>>, p: Seq<int>, c: Seq<Seq<char>>, n: int)
    requires
        lists(ls, p, c),
        ls.len() <= usize::MAX,
        0 <= n <= p.len(),
    ensures
        messages(ls, Seq::new(p.len(), |i: int| numbered_item(p, c, i)), n) == Seq::new(
            n as nat,
            |i: int| text::trim(pieces::join(lines_of_item(ls, p, c, i), seq!['\n'])),
        ),
    decreases n,
{
    let its = Seq::new(p.len(), |i: int| numbered_item(p, c, i));
    let all = Seq::new(
        n as nat,
        |i: int| text::trim(pieces::join(lines_of_item(ls, p, c, i), seq!['\n'])),
    );
    if n > 0 {
        numbered_messages(ls, p, c, n - 1);
        let m = message(ls, its, n - 1);
        let q = lines_of_item(ls, p, c, n - 1);
        assert(p[n - 1] < ls.len());
        if n < p.len() {
            assert(p[n] < ls.len());
            assert(p[n - 1] < p[n]);
        }
        assert(m == text::trim(pieces::join(q, seq!['\n'])));
        // The message holds the first line of its item, which is not blank.
        assert(q[0] == c[n - 1]);
        assert(c[n - 1].len() > 0);
        let j = pieces::join(q, seq!['\n']);
        let r = text::trimming_takes_only_white(j);
        first_of_joined(q, seq!['\n']);
        assert(!text::is_white(j[0]));
        if m.len() == 0 {
            trim_keeps_dark(j);
        }
        let prev = Seq::new(
            (n - 1) as nat,
            |i: int| text::trim(pieces::join(lines_of_item(ls, p, c, i), seq!['\n'])),
        );
        assert(all =~= prev.push(m));
    } else {
        assert(messages(ls, its, n) =~= all);
    }
}

proof fn trim_keeps_dark(s: Seq<char>)
    requires
        s.len() > 0,
        !text::is_white(s[0]),
    ensures
        text::trim(s).len() > 0,
    decreases s.len(),
{
    assert(text::trim_start(s) == s);
    if text::is_white(s.last()) {
        if s.len() == 1 {
            assert(s.last() == s[0]);
        }
        trim_keeps_dark(s.drop_last());
        assert(text::trim_start(s.drop_last()) == s.drop_last());
    }
}

proof fn first_of_joined(q: Seq<Seq<char>>, sep: Seq<char>)
    requires
        q.len() > 0,
        q[0].len() > 0,
    ensures
        pieces::join(q, sep).len() > 0,
        pieces::join(q, sep)[0] == q[0][0],
    decreases q.len(),
{
    if q.len() > 1 {
        first_of_joined(q.drop_last(), sep);
    }
}

proof fn numbers_follow(p: Seq<int>, c: Seq<Seq<char>>)
    requires
        p.len() == c.len(),
        2 <= p.len() < u64::MAX,
    ensures
        is_list(Seq::new(p.len(), |i: int| numbered_item(p, c, i))),
{
    let its = Seq::new(p.len(), |i: int| numbered_item(p, c, i));
    let m = markers(its);
    assert forall|i: int| 0 <= i < m.len() implies number(Numbering::Decimal, #[trigger] m[i])
        == Some((i + 1) as nat) by {
        numeral::unsigned_of_dec((i + 1) as nat, u64::MAX as nat);
    }
    assert(in_sequence(Numbering::Decimal, m));
}

/// A list that is numbered from one on is cut into its items: a message for each, in order, made
/// of what stands behind the number and of every line up to the next number.
pub proof fn lists_are_cut_into_their_items(ls: Seq<Seq<char>>, p: Seq<int>, c: Seq<Seq<char>>)
    requires
        lists(ls, p, c),
        2 <= p.len(),
        ls.len() < usize::MAX,
        forall|i: int| 0 <= i < ls.len() ==> pieces::is_line(#[trigger] ls[i]),
        ls.last().len() > 0 && !text::is_white(ls.last().last()),
    ensures
        queued_messages(pieces::join(ls, seq!['\n'])) == Seq::new(
            p.len(),
            |i: int| text::trim(pieces::join(lines_of_item(ls, p, c, i), seq!['\n'])),
        ),
{
    let s = pieces::join(ls, seq!['\n']);
    let e = Seq::<char>::empty();
    let d = ls.drop_last();
    assert(ls[p[0]] == numbered(0, c[0]));
    numbered_line_is_item(0, c[0]);
    first_of_joined(ls, seq!['\n']);
    assert(s.last() == ls.last().last());
    text::white_space_around_goes(e, s, e);
    assert forall|i: int| 0 <= i < d.len() implies pieces::is_line(#[trigger] d[i]) by {
        assert(d[i] == ls[i]);
    }
    assert(pieces::is_line(ls[ls.len() - 1]));
    pieces::lines_read_back(d, ls.last());
    if d.len() > 0 {
        pieces::joined_with_feeds(d);
        assert(s =~= pieces::with_line_feeds(d) + ls.last());
    } else {
        assert(pieces::with_line_feeds(d) =~= e);
        assert(s =~= pieces::with_line_feeds(d) + ls.last());
    }
    assert(pieces::lines(s) =~= ls);
    text::white_space_around_goes(e, s, e);
    trim_keeps_dark(ls[0]);
    assert(from_first_filled(ls) == ls);
    assert(typed_lines(s) == ls);
    assert(p.len() <= ls.len()) by {
        places_are_few(ls, p, c, p.len() as int);
    }
    numbered_items(ls, p, c, p.len() as int, ls.len() as int);
    numbered_messages(ls, p, c, p.len() as int);
    numbers_follow(p, c);
}

proof fn places_are_few(ls: Seq<Seq<char>>, p: Seq<int>, c: Seq<Seq<char>>, n: int)
    requires
        lists(ls, p, c),
        1 <= n <= p.len(),
    ensures
        p[n - 1] >= n - 1,
        n <= ls.len(),
    decreases n,
{
    if n > 1 {
        places_are_few(ls, p, c, n - 1);
        assert(p[n - 2] < p[n - 1]);
    }
    assert(p[n - 1] < ls.len());
}

/// A text that begins with neither a letter nor a digit is one message.
pub proof fn other_texts_are_one_message(s: Seq<char>)
    requires
        s.len() > 0,
        text::is_trimmed(s),
        !is_alnum(s[0]),
    ensures
        queued_messages(s) == seq![s],
{
    let e = Seq::<char>::empty();
    text::white_space_around_goes(e, s, e);
    let ls = typed_lines(s);
    front_of_lines(s);
    let all = pieces::lines(s);
    assert(!text::is_white(all[0][0]));
    trim_keeps_dark(all[0]);
    assert(from_first_filled(all) == all);
    assert(text::trim_start(all[0]) == all[0]);
    assert(alnum_len(all[0]) == 0);
    assert(first_item(ls) is None);
}

proof fn front_of_lines(s: Seq<char>)
    requires
        s.len() > 0,
        !text::is_white(s[0]),
    ensures
        pieces::lines(s).len() > 0,
        pieces::lines(s)[0].len() > 0,
        pieces::lines(s)[0][0] == s[0],
{
    let p = pieces::split(s, '\n');
    pieces::fields_join_to_the_text(s, '\n');
    assert(s[0] != '\n' && s[0] != '\r');
    assert(p[0].len() > 0) by {
        if p[0].len() == 0 {
            if p.len() == 1 {
                assert(pieces::join(p, seq!['\n']) =~= p[0]);
            } else {
                let r = p.skip(1);
                assert(p =~= seq![p[0]] + r);
                pieces::joining_sets_separators_between(p[0], r, seq!['\n']);
                assert(s =~= p[0] + seq!['\n'] + pieces::join(r, seq!['\n']));
                assert(s[0] == '\n');
            }
        }
    }
    first_of_joined(p, seq!['\n']);
    assert(p[0][0] == s[0]);
}

proof fn messages_are_trimmed(ls: Seq<Seq<char>>, its: Seq<EnumeratedItem<Seq<char>>>, n: int)
    ensures
        forall|i: int|
            0 <= i < messages(ls, its, n).len() ==> (#[trigger] messages(ls, its, n)[i]).len() > 0
                && text::is_trimmed(messages(ls, its, n)[i]),
    decreases n,
{
    if n > 0 {
        messages_are_trimmed(ls, its, n - 1);
        let i: int = n - 1;
        let end = if i + 1 < its.len() {
            its[i + 1].line as int
        } else {
            ls.len() as int
        };
        let j = pieces::join(seq![its[i].content] + ls.subrange(its[i].line + 1, end), seq!['\n']);
        let r = text::trimming_takes_only_white(j);
        let m = message(ls, its, n - 1);
        assert(m == text::trim(j));
        assert(text::is_trimmed(m));
        let prev = messages(ls, its, n - 1);
        assert forall|k: int| 0 <= k < messages(ls, its, n).len() implies (#[trigger] messages(
            ls,
            its,
            n,
        )[k]).len() > 0 && text::is_trimmed(messages(ls, its, n)[k]) by {
            if k < prev.len() {
                assert(messages(ls, its, n)[k] == prev[k]);
            } else {
                assert(messages(ls, its, n)[k] == m);
            }
        }
    }
}

/// No message begins or ends with white space.
pub proof fn queued_messages_are_trimmed(s: Seq<char>)
    ensures
        forall|i: int|
            0 <= i < queued_messages(s).len() ==> text::is_trimmed(
                #[trigger] queued_messages(s)[i],
            ) && !text::is_blank(queued_messages(s)[i]),
{
    queued_messages_are_not_empty(s);
    let r = text::trimming_takes_only_white(s);
    let ls = typed_lines(s);
    assert forall|i: int| 0 <= i < queued_messages(s).len() implies text::is_trimmed(
        #[trigger] queued_messages(s)[i],
    ) && !text::is_blank(queued_messages(s)[i]) by {
        let m = queued_messages(s)[i];
        if let Some(first) = first_item(ls) {
            let its = items(ls, first.indent, ls.len() as int);
            messages_are_trimmed(ls, its, its.len() as int);
        }
        assert(text::is_trimmed(m));
        text::white_space_around_goes(Seq::empty(), m, Seq::empty());
    }
}

} // verus!
