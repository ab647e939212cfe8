//! Numbers written in decimal digits.
use vstd::prelude::*;

use crate::text;
use crate::text::{chars_of, text_of};

verus! {

/// The digit for a number below ten.
pub open spec fn digit(d: int) -> char {
    (48 + d) as char
}

/// The decimal digits of a number, without leading zeros.
pub open spec fn dec(n: nat) -> Seq<char>
    decreases n,
{
    if n < 10 {
        seq![digit(n as int)]
    } else {
        dec(n / 10).push(digit((n % 10) as int))
    }
}

/// The number that a row of decimal digits stands for.
pub open spec fn value(s: Seq<char>) -> nat
    decreases s.len(),
{
    if s.len() == 0 {
        0
    } else {
        value(s.drop_last()) * 10 + (s.last() as u32 - 48) as nat
    }
}

/// What an unsigned number field holds: digits, perhaps behind one plus sign, whose
/// value is no more than `max`.
pub open spec fn unsigned(s: Seq<char>, max: nat) -> Option<nat> {
    let body = if s.len() > 0 && s[0] == '+' {
        s.skip(1)
    } else {
        s
    };
    if body.len() == 0 || !text::all_digits(body) || value(body) > max {
        None
    } else {
        Some(value(body))
    }
}

/// Reading back what was written gives the number again.
pub proof fn dec_reads_back(n: nat)
    ensures
        text::all_digits(dec(n)),
        dec(n).len() >= 1,
        value(dec(n)) == n,
    decreases n,
{
    if n < 10 {
        assert(dec(n).drop_last() =~= Seq::empty());
        assert(value(dec(n).drop_last()) == 0);
    } else {
        dec_reads_back(n / 10);
        assert(dec(n).drop_last() =~= dec(n / 10));
    }
}

/// Writing a number and parsing the digits succeeds with that number.
pub proof fn unsigned_of_dec(n: nat, max: nat)
    requires
        n <= max,
    ensures
        unsigned(dec(n), max) == Some(n),
{
    dec_reads_back(n);
    assert(text::is_digit(dec(n)[0]));
}

pub proof fn lemma_value_prefix(s: Seq<char>, k: int)
    requires
        0 <= k <= s.len(),
    ensures
        value(s.take(k)) <= value(s),
    decreases s.len(),
{
    if k == s.len() {
        assert(s.take(k) =~= s);
    } else {
        assert(s.drop_last().take(k) =~= s.take(k));
        lemma_value_prefix(s.drop_last(), k);
    }
}

fn digit_char(d: u128) -> (c: char)
    requires
        d < 10,
    ensures
        c == digit(d as int),
{
    (48 + d as u8) as char
}

pub fn dec_text(n: u64) -> (r: String)
    ensures
        r@ == dec(n as nat),
{
    dec_wide(n as u128)
}

pub fn dec_wide(n: u128) -> (r: String)
    ensures
        r@ == dec(n as nat),
{
    let mut back: Vec<char> = Vec::new();
    let mut k: u128 = n;
    while k >= 10
        invariant
            dec(n as nat) == dec(k as nat) + back@.reverse(),
        decreases k,
    {
        let ghost b = back@;
        back.push(digit_char(k % 10));
        assert(dec(k as nat / 10) + back@.reverse() =~= dec(k as nat) + b.reverse());
        k = k / 10;
    }
    let ghost b = back@;
    back.push(digit_char(k));
    assert(back@.reverse() =~= dec(k as nat) + b.reverse());
    let mut v: Vec<char> = Vec::new();
    let mut i: usize = back.len();
    while i > 0
        invariant
            i <= back.len(),
            v@ == back@.reverse().take(back.len() - i),
        decreases i,
    {
        i = i - 1;
        v.push(back[i]);
        assert(v@ =~= back@.reverse().take(back.len() - i));
    }
    assert(v@ =~= back@.reverse());
    text_of(&v)
}

pub fn dec_usize(n: usize) -> (r: String)
    ensures
        r@ == dec(n as nat),
{
    dec_text(n as u64)
}

pub fn unsigned_of(s: &str, max: u64) -> (r: Option<u64>)
    ensures
        match r {
            Some(n) => unsigned(s@, max as nat) == Some(n as nat) && n <= max,
            None => unsigned(s@, max as nat) is None,
        },
{
    let v = chars_of(s);
    let from: usize = if v.len() > 0 && v[0] == '+' {
        1
    } else {
        0
    };
    let ghost body = v@.skip(from as int);
    assert(from == 0 ==> body =~= v@);
    if from == v.len() {
        return None;
    }
    let mut n: u64 = 0;
    let mut i: usize = from;
    assert(body.take(0) =~= Seq::<char>::empty());
    while i < v.len()
        invariant
            from <= i <= v.len(),
            body == v@.skip(from as int),
            v@ == s@,
            body == (if s@.len() > 0 && s@[0] == '+' {
                s@.skip(1)
            } else {
                s@
            }),
            n == value(body.take(i - from)),
            n <= max,
            forall|k: int| 0 <= k < i - from ==> text::is_digit(#[trigger] body[k]),
        decreases v.len() - i,
    {
        let c = v[i];
        assert(body[i - from] == c);
        if !('0' <= c && c <= '9') {
            return None;
        }
        let d: u64 = (c as u32 - 48) as u64;
        let ghost head = body.take(i + 1 - from);
        proof {
            assert(head.drop_last() =~= body.take(i - from));
            assert(head.last() == c);
            lemma_value_prefix(body, i + 1 - from);
        }
        if n > max / 10 {
            return None;
        }
        let ten: u64 = n * 10;
        if d > max - ten {
            return None;
        }
        n = ten + d;
        i = i + 1;
    }
    assert(body.take(i - from) =~= body);
    Some(n)
}

} // verus!
