//! The words of the command line: flags, the language, addresses, reserved words.
use vstd::prelude::*;

use crate::manage;
use crate::manage::flag_like;
use crate::numeral;
use crate::numeral::unsigned_of;
use crate::pieces;
use crate::pieces::{cut_white_of, join_of, rsplit_once_of, split_once_of, words_of};
use crate::say;
use crate::say::{msg, Msg};
use crate::text;
use crate::text::{behind, cat, chars_of, contains_char, copy_text, same, sub_text, trimmed, trimmed_start};

verus! {

// ── Flags ───────────────────────────────────────────────────────────────────

/// Whether a flag takes a value.
#[derive(Clone, Copy, Debug, PartialEq, Eq, Structural)]
pub enum FlagKind {
    Switch,
    TakesValue,
    OptionalValue,
}

/// The long flags with their kinds.
pub type LongFlagTable = Vec<(String, FlagKind)>;

/// The short flags with their kinds.
pub type ShortFlagTable = Vec<(char, FlagKind)>;

/// What the command line's own description says of an argument.
#[derive(Debug)]
pub struct ArgFacts {
    /// It only switches something, counts, or asks for help.
    pub switch: bool,
    /// The fewest and the most values that it takes, where that is said.
    pub values: Option<(usize, usize)>,
    pub long: Option<String>,
    pub aliases: Vec<String>,
    pub short: Option<char>,
}

pub open spec fn kind_of_arg(a: ArgFacts) -> FlagKind {
    if a.switch {
        FlagKind::Switch
    } else if a.values == Some((0usize, 1usize)) {
        FlagKind::OptionalValue
    } else {
        FlagKind::TakesValue
    }
}

pub open spec fn flags_view(v: Seq<(String, FlagKind)>) -> Seq<(Seq<char>, FlagKind)> {
    Seq::new(v.len(), |i: int| (v[i].0@, v[i].1))
}

/// The long names of an argument, each with its kind.
pub open spec fn long_names(a: ArgFacts) -> Seq<(Seq<char>, FlagKind)> {
    (match manage::opt_text(a.long) {
        Some(l) => seq![(l, kind_of_arg(a))],
        None => Seq::empty(),
    }) + Seq::new(a.aliases@.len(), |i: int| (a.aliases@[i]@, kind_of_arg(a)))
}

/// The long flags of the first `n` arguments.
pub open spec fn all_longs(args: Seq<ArgFacts>, n: int) -> Seq<(Seq<char>, FlagKind)>
    decreases n,
{
    if n <= 0 {
        Seq::empty()
    } else {
        all_longs(args, n - 1) + long_names(args[n - 1])
    }
}

/// The short flags of the first `n` arguments.
pub open spec fn all_shorts(args: Seq<ArgFacts>, n: int) -> Seq<(char, FlagKind)>
    decreases n,
{
    if n <= 0 {
        Seq::empty()
    } else {
        match args[n - 1].short {
            Some(c) => all_shorts(args, n - 1).push((c, kind_of_arg(args[n - 1]))),
            None => all_shorts(args, n - 1),
        }
    }
}

fn kind_of(a: &ArgFacts) -> (r: FlagKind)
    ensures
        r == kind_of_arg(*a),
{
    if a.switch {
        return FlagKind::Switch;
    }
    match a.values {
        Some((least, most)) => if least == 0 && most == 1 {
            FlagKind::OptionalValue
        } else {
            FlagKind::TakesValue
        },
        None => FlagKind::TakesValue,
    }
}

fn add_long_names(a: &ArgFacts, longs: &mut LongFlagTable)
    ensures
        flags_view(final(longs)@) == flags_view(old(longs)@) + long_names(*a),
{
    let kind = kind_of(a);
    let ghost before = flags_view(longs@);
    if let Some(l) = &a.long {
        longs.push((copy_text(l), kind));
    }
    let ghost head = (match manage::opt_text(a.long) {
        Some(l) => seq![(l, kind_of_arg(*a))],
        None => Seq::empty(),
    });
    let mut i: usize = 0;
    assert(flags_view(longs@) =~= before + long_names(*a).take(head.len() as int));
    while i < a.aliases.len()
        invariant
            i <= a.aliases.len(),
            kind == kind_of_arg(*a),
            head == (match manage::opt_text(a.long) {
                Some(l) => seq![(l, kind_of_arg(*a))],
                None => Seq::empty(),
            }),
            flags_view(longs@) == before + long_names(*a).take(head.len() + i),
        decreases a.aliases.len() - i,
    {
        let ghost so_far = flags_view(longs@);
        longs.push((copy_text(&a.aliases[i]), kind));
        assert(flags_view(longs@) =~= so_far.push((a.aliases@[i as int]@, kind)));
        assert(long_names(*a)[head.len() + i] == (a.aliases@[i as int]@, kind));
        assert(long_names(*a).take(head.len() + i + 1) =~= long_names(*a).take(
            head.len() + i,
        ).push(long_names(*a)[head.len() + i]));
        i = i + 1;
        assert(flags_view(longs@) =~= before + long_names(*a).take(head.len() + i));
    }
    assert(long_names(*a).take(head.len() + i) =~= long_names(*a));
}

/// The flags that the command line knows.
pub fn collect_flag_kinds(args: &Vec<ArgFacts>) -> (r: (LongFlagTable, ShortFlagTable))
    ensures
        flags_view(r.0@) == all_longs(args@, args@.len() as int),
        r.1@ == all_shorts(args@, args@.len() as int),
{
    let mut longs: LongFlagTable = Vec::new();
    let mut shorts: ShortFlagTable = Vec::new();
    let mut i: usize = 0;
    assert(flags_view(longs@) =~= all_longs(args@, 0));
    while i < args.len()
        invariant
            i <= args.len(),
            flags_view(longs@) == all_longs(args@, i as int),
            shorts@ == all_shorts(args@, i as int),
        decreases args.len() - i,
    {
        add_long_names(&args[i], &mut longs);
        if let Some(c) = args[i].short {
            shorts.push((c, kind_of(&args[i])));
        }
        i = i + 1;
    }
    (longs, shorts)
}

/// The kind of a long flag, by the first entry of that name.
pub open spec fn long_kind(t: Seq<(String, FlagKind)>, name: Seq<char>, i: int) -> Option<FlagKind>
    decreases t.len() - i,
{
    if i < 0 || i >= t.len() {
        None
    } else if t[i].0@ == name {
        Some(t[i].1)
    } else {
        long_kind(t, name, i + 1)
    }
}

pub open spec fn short_kind(t: Seq<(char, FlagKind)>, c: char, i: int) -> Option<FlagKind>
    decreases t.len() - i,
{
    if i < 0 || i >= t.len() {
        None
    } else if t[i].0 == c {
        Some(t[i].1)
    } else {
        short_kind(t, c, i + 1)
    }
}

fn long_kind_of(t: &LongFlagTable, name: &str) -> (r: Option<FlagKind>)
    ensures
        r == long_kind(t@, name@, 0),
{
    let mut i: usize = 0;
    while i < t.len()
        invariant
            i <= t.len(),
            long_kind(t@, name@, 0) == long_kind(t@, name@, i as int),
        decreases t.len() - i,
    {
        if same(&t[i].0, name) {
            return Some(t[i].1);
        }
        i = i + 1;
    }
    None
}

fn short_kind_of(t: &ShortFlagTable, c: char) -> (r: Option<FlagKind>)
    ensures
        r == short_kind(t@, c, 0),
{
    let mut i: usize = 0;
    while i < t.len()
        invariant
            i <= t.len(),
            short_kind(t@, c, 0) == short_kind(t@, c, i as int),
        decreases t.len() - i,
    {
        if t[i].0 == c {
            return Some(t[i].1);
        }
        i = i + 1;
    }
    None
}

pub open spec fn is_meta(name: Seq<char>) -> bool {
    name == "help"@ || name == "version"@
}

/// The flags that may stand anywhere.
pub fn is_meta_flag(name: &str) -> (r: bool)
    ensures
        r == is_meta(name@),
{
    same(name, "help") || same(name, "version")
}

pub open spec fn is_number_char(c: char) -> bool {
    text::is_digit(c) || c == '.'
}

pub open spec fn without_minus(tok: Seq<char>) -> Seq<char> {
    if tok.len() > 0 && tok[0] == '-' {
        tok.skip(1)
    } else {
        tok
    }
}

pub open spec fn all_number_chars(s: Seq<char>) -> bool {
    forall|i: int| 0 <= i < s.len() ==> is_number_char(#[trigger] s[i])
}

/// Digits and dots, perhaps behind one minus sign: a word of the task, not a flag.
pub open spec fn is_numeric(tok: Seq<char>) -> bool {
    without_minus(tok).len() > 0 && all_number_chars(without_minus(tok))
}

pub fn is_numeric_token(tok: &str) -> (r: bool)
    ensures
        r == is_numeric(tok@),
{
    let v = chars_of(tok);
    let from: usize = if v.len() > 0 && v[0] == '-' {
        1
    } else {
        0
    };
    let ghost body = v@.skip(from as int);
    assert(from == 0 ==> body =~= v@);
    if from == v.len() {
        return false;
    }
    let mut i: usize = from;
    while i < v.len()
        invariant
            from <= i <= v.len(),
            body == v@.skip(from as int),
            body == without_minus(tok@),
            forall|k: int| 0 <= k < i - from ==> is_number_char(#[trigger] body[k]),
        decreases v.len() - i,
    {
        assert(body[i - from] == v@[i as int]);
        if !(('0' <= v[i] && v[i] <= '9') || v[i] == '.') {
            return false;
        }
        i = i + 1;
    }
    true
}

/// What a cluster of short flags is, read from the `i`-th character on: unknown, or
/// whether it takes the next word as its value.
pub open spec fn cluster(t: Seq<(char, FlagKind)>, cs: Seq<char>, i: int) -> Option<bool>
    decreases cs.len() - i,
{
    if i < 0 || i >= cs.len() {
        Some(false)
    } else {
        match short_kind(t, cs[i], 0) {
            Some(FlagKind::Switch) => cluster(t, cs, i + 1),
            Some(FlagKind::TakesValue) => Some(i + 1 == cs.len()),
            Some(FlagKind::OptionalValue) => Some(false),
            None => None,
        }
    }
}

fn cluster_of(t: &ShortFlagTable, cs: &Vec<char>) -> (r: Option<bool>)
    ensures
        r == cluster(t@, cs@, 0),
{
    let mut i: usize = 0;
    while i < cs.len()
        invariant
            i <= cs.len(),
            cluster(t@, cs@, 0) == cluster(t@, cs@, i as int),
        decreases cs.len() - i,
    {
        match short_kind_of(t, cs[i]) {
            Some(FlagKind::Switch) => {},
            Some(FlagKind::TakesValue) => {
                return Some(i + 1 == cs.len());
            },
            Some(FlagKind::OptionalValue) => {
                return Some(false);
            },
            None => {
                return None;
            },
        }
        i = i + 1;
    }
    Some(false)
}

/// What was seen of the words so far.
pub struct Seen {
    /// Whether the task has begun.
    pub started: bool,
    pub unknown: Seq<Seq<char>>,
    /// Known flags that stand behind the beginning of the task.
    pub late: Seq<Seq<char>>,
}

/// The name of a long flag, and whether a value stands in the same word.
pub open spec fn long_name(tok: Seq<char>) -> (Seq<char>, bool) {
    let rest = tok.skip(2);
    match pieces::split_once(rest, '=') {
        Some((n, _)) => (n, true),
        None => (rest, false),
    }
}

pub open spec fn asks_help(cs: Seq<char>) -> bool {
    text::has_char(cs, 'h') || text::has_char(cs, 'V')
}

/// Whether a long flag takes the word behind the `i`-th one as its value.
pub open spec fn takes_word(raw: Seq<Seq<char>>, i: int, kind: FlagKind, has_eq: bool) -> bool {
    !has_eq && match kind {
        FlagKind::Switch => false,
        FlagKind::TakesValue => true,
        FlagKind::OptionalValue => i + 1 < raw.len() && (!manage::is_flag(raw[i + 1])
            || is_numeric(raw[i + 1])),
    }
}

/// Reads the `i`-th word: what was seen then, and whether the next word belongs to it.
pub open spec fn read_word(
    longs: Seq<(String, FlagKind)>,
    shorts: Seq<(char, FlagKind)>,
    raw: Seq<Seq<char>>,
    i: int,
    s: Seen,
) -> (Seen, bool) {
    let tok = raw[i];
    if text::starts_with(tok, "--"@) {
        let (name, has_eq) = long_name(tok);
        match long_kind(longs, name, 0) {
            Some(kind) => (
                Seen {
                    late: if s.started && !is_meta(name) {
                        s.late.push(tok)
                    } else {
                        s.late
                    },
                    ..s
                },
                takes_word(raw, i, kind, has_eq),
            ),
            None => (Seen { unknown: s.unknown.push(tok), ..s }, false),
        }
    } else if tok.len() > 1 && tok[0] == '-' {
        if is_numeric(tok) {
            (Seen { started: true, ..s }, false)
        } else {
            match cluster(shorts, tok.skip(1), 0) {
                None => (Seen { unknown: s.unknown.push(tok), ..s }, false),
                Some(takes) => (
                    Seen {
                        late: if s.started && !asks_help(tok.skip(1)) {
                            s.late.push(tok)
                        } else {
                            s.late
                        },
                        ..s
                    },
                    takes,
                ),
            }
        }
    } else {
        (Seen { started: true, ..s }, false)
    }
}

/// Reads the words from the `i`-th on, up to a lone `--`.
pub open spec fn read_words(
    longs: Seq<(String, FlagKind)>,
    shorts: Seq<(char, FlagKind)>,
    raw: Seq<Seq<char>>,
    i: int,
    s: Seen,
) -> Seen
    decreases raw.len() + 1 - i,
{
    if i < 0 || i >= raw.len() || raw[i] == "--"@ {
        s
    } else {
        let (t, takes) = read_word(longs, shorts, raw, i, s);
        read_words(
            longs,
            shorts,
            raw,
            if takes {
                i + 2
            } else {
                i + 1
            },
            t,
        )
    }
}

pub open spec fn nothing_seen() -> Seen {
    Seen { started: false, unknown: Seq::empty(), late: Seq::empty() }
}

pub open spec fn unknown_flags(flags: Seq<Seq<char>>) -> say::MsgView {
    say::entry("cli.error.unknown_flags"@).arg("flags"@, pieces::join(flags, ", "@)).arg(
        "plural"@,
        if flags.len() == 1 {
            ""@
        } else {
            "s"@
        },
    )
}

pub open spec fn flags_after_task(flags: Seq<Seq<char>>) -> say::MsgView {
    say::entry("cli.error.flags_after_task"@).arg("flags"@, pieces::join(flags, ", "@))
}

/// What is wrong with the flags of a command line: first those that are unknown, then
/// those behind the task.
pub open spec fn argv_error(
    longs: Seq<(String, FlagKind)>,
    shorts: Seq<(char, FlagKind)>,
    raw: Seq<Seq<char>>,
) -> Option<say::MsgView> {
    let s = read_words(longs, shorts, raw, 0, nothing_seen());
    if s.unknown.len() > 0 {
        Some(unknown_flags(s.unknown))
    } else if s.late.len() > 0 {
        Some(flags_after_task(s.late))
    } else {
        None
    }
}

fn push_copy(v: &mut Vec<String>, s: &str)
    ensures
        text::texts(final(v)@) == text::texts(old(v)@).push(s@),
{
    let t = copy_text(s);
    proof {
        text::lemma_texts_push(v@, t);
    }
    v.push(t);
}

fn takes_next(raw: &Vec<String>, i: usize, kind: FlagKind, has_eq: bool) -> (r: bool)
    requires
        i < raw.len(),
    ensures
        r == takes_word(text::texts(raw@), i as int, kind, has_eq),
{
    if has_eq {
        return false;
    }
    match kind {
        FlagKind::Switch => false,
        FlagKind::TakesValue => true,
        FlagKind::OptionalValue => {
            if i + 1 < raw.len() {
                assert(text::texts(raw@)[i + 1] == raw@[i + 1]@);
                !flag_like(&raw[i + 1]) || is_numeric_token(&raw[i + 1])
            } else {
                false
            }
        },
    }
}

/// Checks the flags of a command line before anything of it is taken for a task: every
/// flag must be known, and none may stand behind the task. Words behind a lone `--` are
/// not looked at.
pub fn validate_argv_flags(longs: &LongFlagTable, shorts: &ShortFlagTable, raw: &Vec<String>) -> (r:
    Result<(), Msg>)
    ensures
        match r {
            Ok(_) => argv_error(longs@, shorts@, text::texts(raw@)) is None,
            Err(m) => argv_error(longs@, shorts@, text::texts(raw@)) == Some(m@),
        },
{
    let ghost rv = text::texts(raw@);
    let mut unknown: Vec<String> = Vec::new();
    let mut late: Vec<String> = Vec::new();
    let mut started: bool = false;
    let mut i: usize = 0;
    assert(text::texts(unknown@) =~= Seq::<Seq<char>>::empty());
    assert(text::texts(late@) =~= Seq::<Seq<char>>::empty());
    while i < raw.len()
        invariant_except_break
            rv == text::texts(raw@),
            read_words(longs@, shorts@, rv, 0, nothing_seen()) == read_words(
                longs@,
                shorts@,
                rv,
                i as int,
                Seen { started, unknown: text::texts(unknown@), late: text::texts(late@) },
            ),
        ensures
            read_words(longs@, shorts@, rv, 0, nothing_seen()) == (Seen {
                started,
                unknown: text::texts(unknown@),
                late: text::texts(late@),
            }),
        decreases raw.len() - i,
    {
        assert(rv[i as int] == raw@[i as int]@);
        let tok: &str = raw[i].as_str();
        if same(tok, "--") {
            break;
        }
        let mut taken: bool = false;
        match behind(tok, "--") {
            Some(rest) => {
                proof {
                    reveal_strlit("--");
                }
                let (name, has_eq) = match split_once_of(&rest, '=') {
                    Some((n, _)) => (n, true),
                    None => (rest, false),
                };
                assert((name@, has_eq) == long_name(tok@));
                match long_kind_of(longs, &name) {
                    Some(kind) => {
                        if started && !is_meta_flag(&name) {
                            push_copy(&mut late, tok);
                        }
                        taken = takes_next(raw, i, kind, has_eq);
                    },
                    None => {
                        push_copy(&mut unknown, tok);
                    },
                }
            },
            None => {
                let v = chars_of(tok);
                if v.len() > 1 && v[0] == '-' {
                    if is_numeric_token(tok) {
                        started = true;
                    } else {
                        let body = sub_text(&v, 1, v.len());
                        assert(body@ =~= tok@.skip(1));
                        let cs = chars_of(&body);
                        match cluster_of(shorts, &cs) {
                            None => {
                                push_copy(&mut unknown, tok);
                            },
                            Some(takes) => {
                                if started && !(contains_char(&body, 'h') || contains_char(
                                    &body,
                                    'V',
                                )) {
                                    push_copy(&mut late, tok);
                                }
                                taken = takes;
                            },
                        }
                    }
                } else {
                    started = true;
                }
            },
        }
        if taken {
            if i + 1 >= raw.len() {
                let ghost seen = Seen {
                    started,
                    unknown: text::texts(unknown@),
                    late: text::texts(late@),
                };
                assert(read_words(longs@, shorts@, rv, i + 2, seen) == seen);
                break;
            }
            i = i + 1;
        }
        i = i + 1;
    }
    assert(unknown.len() == text::texts(unknown@).len());
    assert(late.len() == text::texts(late@).len());
    if unknown.len() > 0 {
        let plural: &str = if unknown.len() == 1 {
            ""
        } else {
            "s"
        };
        return Err(
            msg("cli.error.unknown_flags").arg("flags", &join_of(&unknown, ", ")).arg(
                "plural",
                plural,
            ),
        );
    }
    if late.len() > 0 {
        return Err(msg("cli.error.flags_after_task").arg("flags", &join_of(&late, ", ")));
    }
    Ok(())
}

proof fn lemma_unknown_stays(
    longs: Seq<(String, FlagKind)>,
    shorts: Seq<(char, FlagKind)>,
    raw: Seq<Seq<char>>,
    i: int,
    s: Seen,
)
    ensures
        read_words(longs, shorts, raw, i, s).unknown.len() >= s.unknown.len(),
    decreases raw.len() + 1 - i,
{
    if !(i < 0 || i >= raw.len() || raw[i] == "--"@) {
        let (t, takes) = read_word(longs, shorts, raw, i, s);
        let next = if takes {
            i + 2
        } else {
            i + 1
        };
        lemma_unknown_stays(longs, shorts, raw, next, t);
    }
}

/// A command line that begins with a long flag nobody knows is refused, whatever follows:
/// the flag never becomes part of a task.
pub proof fn unknown_flag_is_refused(
    longs: Seq<(String, FlagKind)>,
    shorts: Seq<(char, FlagKind)>,
    raw: Seq<Seq<char>>,
)
    requires
        raw.len() > 0,
        raw[0] != "--"@,
        text::starts_with(raw[0], "--"@),
        long_kind(longs, long_name(raw[0]).0, 0) is None,
    ensures
        argv_error(longs, shorts, raw) is Some,
{
    let (t, takes) = read_word(longs, shorts, raw, 0, nothing_seen());
    lemma_unknown_stays(longs, shorts, raw, 1, t);
    lemma_unknown_stays(longs, shorts, raw, 2, t);
}

/// Where the reading of the words from the `i`-th on ends: at a lone `--` that is no flag's
/// value, or behind the last word.
pub open spec fn end_of_reading(
    longs: Seq<(String, FlagKind)>,
    shorts: Seq<(char, FlagKind)>,
    raw: Seq<Seq<char>>,
    i: int,
) -> int
    decreases raw.len() + 1 - i,
{
    if i < 0 || i >= raw.len() || raw[i] == "--"@ {
        i
    } else if read_word(longs, shorts, raw, i, nothing_seen()).1 {
        end_of_reading(longs, shorts, raw, i + 2)
    } else {
        end_of_reading(longs, shorts, raw, i + 1)
    }
}

proof fn lemma_reading_goes_on(
    longs: Seq<(String, FlagKind)>,
    shorts: Seq<(char, FlagKind)>,
    raw: Seq<Seq<char>>,
    i: int,
)
    ensures
        end_of_reading(longs, shorts, raw, i) >= i,
    decreases raw.len() + 1 - i,
{
    if !(i < 0 || i >= raw.len() || raw[i] == "--"@) {
        lemma_reading_goes_on(longs, shorts, raw, i + 1);
        lemma_reading_goes_on(longs, shorts, raw, i + 2);
    }
}

proof fn lemma_reading_of_prefix(
    longs: Seq<(String, FlagKind)>,
    shorts: Seq<(char, FlagKind)>,
    raw: Seq<Seq<char>>,
    i: int,
    k: int,
    s: Seen,
)
    requires
        0 <= i <= k < raw.len(),
        end_of_reading(longs, shorts, raw, i) == k,
    ensures
        read_words(longs, shorts, raw, i, s) == read_words(longs, shorts, raw.take(k), i, s),
    decreases k - i,
{
    if raw[i] != "--"@ {
        let short = raw.take(k);
        let (t, takes) = read_word(longs, shorts, raw, i, s);
        assert(takes == read_word(longs, shorts, raw, i, nothing_seen()).1);
        lemma_reading_goes_on(longs, shorts, raw, i + 1);
        lemma_reading_goes_on(longs, shorts, raw, i + 2);
        assert(i < k);
        assert(short[i] == raw[i]);
        lemma_end_is_dashes(longs, shorts, raw, i);
        assert(raw[k] == "--"@);
        reveal_strlit("--");
        assert(manage::is_flag(raw[k]) && !is_numeric(raw[k])) by {
            assert(without_minus(raw[k])[0] == '-');
        }
        assert(i + 1 < k ==> short[i + 1] == raw[i + 1]);
        assert(read_word(longs, shorts, short, i, s) == (t, takes));
        lemma_reading_of_prefix(
            longs,
            shorts,
            raw,
            if takes {
                i + 2
            } else {
                i + 1
            },
            k,
            t,
        );
    } else {
        lemma_reading_goes_on(longs, shorts, raw, i);
    }
}

proof fn lemma_end_is_dashes(
    longs: Seq<(String, FlagKind)>,
    shorts: Seq<(char, FlagKind)>,
    raw: Seq<Seq<char>>,
    i: int,
)
    requires
        0 <= i,
    ensures
        end_of_reading(longs, shorts, raw, i) < raw.len() ==> raw[end_of_reading(
            longs,
            shorts,
            raw,
            i,
        )] == "--"@,
    decreases raw.len() + 1 - i,
{
    if !(i >= raw.len() || raw[i] == "--"@) {
        lemma_end_is_dashes(longs, shorts, raw, i + 1);
        lemma_end_is_dashes(longs, shorts, raw, i + 2);
    }
}

/// A lone `--` that is no flag's value, and everything behind it, is passed over: the words
/// before it decide alone.
pub proof fn nothing_behind_double_dash_counts(
    longs: Seq<(String, FlagKind)>,
    shorts: Seq<(char, FlagKind)>,
    raw: Seq<Seq<char>>,
)
    requires
        end_of_reading(longs, shorts, raw, 0) < raw.len(),
    ensures
        raw[end_of_reading(longs, shorts, raw, 0)] == "--"@,
        argv_error(longs, shorts, raw) == argv_error(
            longs,
            shorts,
            raw.take(end_of_reading(longs, shorts, raw, 0)),
        ),
{
    let k = end_of_reading(longs, shorts, raw, 0);
    lemma_reading_goes_on(longs, shorts, raw, 0);
    lemma_end_is_dashes(longs, shorts, raw, 0);
    lemma_reading_of_prefix(longs, shorts, raw, 0, k, nothing_seen());
}

/// Where the first word is a lone `--`, nothing is refused.
pub proof fn double_dash_allows_everything(
    longs: Seq<(String, FlagKind)>,
    shorts: Seq<(char, FlagKind)>,
    raw: Seq<Seq<char>>,
)
    requires
        raw.len() > 0,
        raw[0] == "--"@,
    ensures
        argv_error(longs, shorts, raw) is None,
{
}

// ── The language flag ───────────────────────────────────────────────────────

/// The language that the words from the `i`-th on ask for.
pub open spec fn lang_from(raw: Seq<Seq<char>>, i: int) -> Option<Seq<char>>
    decreases raw.len() - i,
{
    if i < 0 || i >= raw.len() {
        None
    } else {
        match text::after(raw[i], "--lang="@) {
            Some(v) => if v.len() == 0 {
                None
            } else {
                Some(v)
            },
            None => if raw[i] == "--lang"@ {
                if i + 1 < raw.len() && !manage::is_flag(raw[i + 1]) {
                    Some(raw[i + 1])
                } else {
                    None
                }
            } else {
                lang_from(raw, i + 1)
            },
        }
    }
}

pub fn scan_lang_flag(raw: &Vec<String>) -> (r: Option<String>)
    ensures
        manage::opt_text(r) == lang_from(text::texts(raw@), 0),
{
    let ghost rv = text::texts(raw@);
    let mut i: usize = 0;
    while i < raw.len()
        invariant
            i <= raw.len(),
            rv == text::texts(raw@),
            lang_from(rv, 0) == lang_from(rv, i as int),
        decreases raw.len() - i,
    {
        assert(rv[i as int] == raw@[i as int]@);
        match behind(&raw[i], "--lang=") {
            Some(v) => {
                return if v.as_str().is_empty() {
                    None
                } else {
                    Some(v)
                };
            },
            None => {},
        }
        if same(&raw[i], "--lang") {
            if i + 1 < raw.len() {
                assert(rv[i + 1] == raw@[i + 1]@);
                if !flag_like(&raw[i + 1]) {
                    return Some(copy_text(&raw[i + 1]));
                }
            }
            return None;
        }
        i = i + 1;
    }
    None
}

// ── Addresses ───────────────────────────────────────────────────────────────

/// The text in double quotes with special characters escaped, as `Debug` shows a text.
pub uninterp spec fn quoted(s: Seq<char>) -> Seq<char>;

/// Shows a text by `<str as Debug>::fmt`, through `format!`. The result depends on the text
/// alone and has the name `quoted`; how each character is escaped is left unsaid.
#[verifier::external_body]
pub(crate) fn quoted_of(s: &str) -> (r: String)
    ensures
        r@ == quoted(s@),
{
    format!("{:?}", s)
}

/// The host without the square brackets around it.
pub open spec fn unbracketed(h: Seq<char>) -> Seq<char> {
    if h.len() >= 2 && h[0] == '[' && h.last() == ']' {
        h.subrange(1, h.len() - 1)
    } else {
        h
    }
}

/// The host and port of a proxy address `host:port`.
pub open spec fn socks(s: Seq<char>) -> Result<(Seq<char>, nat), Seq<char>> {
    match pieces::rsplit_once(text::trim(s), ':') {
        None => Err("缺少端口，期望 host:port（如 127.0.0.1:1080）"@),
        Some((host, port)) => match numeral::unsigned(port, 65535) {
            None => Err("端口无效: "@ + quoted(port)),
            Some(n) => if n == 0 {
                Err("端口必须 > 0"@)
            } else if unbracketed(host).len() == 0 {
                Err("host 为空"@)
            } else {
                Ok((unbracketed(host), n))
            },
        },
    }
}

/// What is said of a port that is no number, given the port in quotes.
pub fn bad_port(quoted_port: &str) -> (r: String)
    ensures
        r@ == "端口无效: "@ + quoted_port@,
{
    cat("端口无效: ", quoted_port)
}

pub fn parse_socks_spec(spec_text: &str) -> (r: Result<(String, u16), String>)
    ensures
        match r {
            Ok((h, p)) => socks(spec_text@) == Ok::<(Seq<char>, nat), Seq<char>>(
                (h@, p as nat),
            ),
            Err(e) => socks(spec_text@) == Err::<(Seq<char>, nat), Seq<char>>(e@),
        },
{
    let t = trimmed(spec_text);
    let (host, port) = match rsplit_once_of(&t, ':') {
        Some(p) => p,
        None => {
            return Err(copy_text("缺少端口，期望 host:port（如 127.0.0.1:1080）"));
        },
    };
    let n: u16 = match unsigned_of(&port, 65535) {
        Some(n) => n as u16,
        None => {
            return Err(bad_port(&quoted_of(&port)));
        },
    };
    if n == 0 {
        return Err(copy_text("端口必须 > 0"));
    }
    let v = chars_of(&host);
    let bare = if v.len() >= 2 && v[0] == '[' && v[v.len() - 1] == ']' {
        sub_text(&v, 1, v.len() - 1)
    } else {
        host
    };
    if bare.as_str().is_empty() {
        return Err(copy_text("host 为空"));
    }
    Ok((bare, n))
}

/// The address to serve on: as given, or with the configured host where only a port is
/// given behind a colon. An empty one means the configured address.
pub open spec fn serve_address(given: Seq<char>, bind: Seq<char>) -> Seq<char> {
    if given.len() == 0 {
        bind
    } else {
        match text::after(given, ":"@) {
            Some(port) => (match pieces::rsplit_once(bind, ':') {
                Some((host, _)) => host,
                None => "127.0.0.1"@,
            }) + ":"@ + port,
            None => given,
        }
    }
}

pub fn resolve_serve_address(given: &str, bind: &str) -> (r: String)
    ensures
        r@ == serve_address(given@, bind@),
{
    if given.is_empty() {
        return copy_text(bind);
    }
    match behind(given, ":") {
        Some(port) => {
            let host = match rsplit_once_of(bind, ':') {
                Some((h, _)) => h,
                None => copy_text("127.0.0.1"),
            };
            cat(&cat(&host, ":"), &port)
        },
        None => copy_text(given),
    }
}

// ── Reserved words ──────────────────────────────────────────────────────────

/// Words kept for management commands.
pub open spec fn is_reserved(s: Seq<char>) -> bool {
    ||| s == "models"@
    ||| s == "config"@
    ||| s == "usage"@
    ||| s == "stats"@
    ||| s == "plugin"@
    ||| s == "marketplace"@
    ||| s == "extensions"@
    ||| s == "mcp"@
    ||| s == "auth"@
    ||| s == "login"@
    ||| s == "logout"@
    ||| s == "update"@
    ||| s == "upgrade"@
    ||| s == "doctor"@
    ||| s == "completions"@
    ||| s == "gc"@
    ||| s == "install"@
    ||| s == "uninstall"@
    ||| s == "enable"@
    ||| s == "disable"@
    ||| s == "list"@
    ||| s == "remove"@
    ||| s == "discover"@
}

fn reserved(s: &str) -> (r: bool)
    ensures
        r == is_reserved(s@),
{
    same(s, "models") || same(s, "config") || same(s, "usage") || same(s, "stats") || same(
        s,
        "plugin",
    ) || same(s, "marketplace") || same(s, "extensions") || same(s, "mcp") || same(s, "auth")
        || same(s, "login") || same(s, "logout") || same(s, "update") || same(s, "upgrade") || same(
        s,
        "doctor",
    ) || same(s, "completions") || same(s, "gc") || same(s, "install") || same(s, "uninstall")
        || same(s, "enable") || same(s, "disable") || same(s, "list") || same(s, "remove") || same(
        s,
        "discover",
    )
}

pub open spec fn is_market_action(s: Seq<char>) -> bool {
    s == "add"@ || s == "remove"@ || s == "rm"@ || s == "update"@ || s == "list"@
}

fn market_action(s: &str) -> (r: bool)
    ensures
        r == is_market_action(s@),
{
    same(s, "add") || same(s, "remove") || same(s, "rm") || same(s, "update") || same(s, "list")
}

/// A word that is no flag and holds an at sign, as the name of a plugin does.
pub open spec fn is_plugin_id(s: Seq<char>) -> bool {
    !manage::is_flag(s) && text::has_char(s, '@')
}

/// The words read as a management command rather than as a task: a reserved word alone, a
/// market or plugin action, or a plugin's name among the arguments.
pub open spec fn is_management(w: Seq<Seq<char>>) -> bool {
    &&& w.len() > 0
    &&& is_reserved(w[0])
    &&& {
        ||| w.len() == 1
        ||| (w[0] == "marketplace"@ || w[0] == "plugin"@) && is_market_action(w[1])
        ||| exists|i: int| 1 <= i < w.len() && is_plugin_id(#[trigger] w[i])
    }
}

/// Whether the first word shows that the line is neither: a flag or a file reference.
pub open spec fn is_flag_or_file(s: Seq<char>) -> bool {
    s.len() > 0 && (s[0] == '-' || s[0] == '@')
}

pub open spec fn hint_text(first: Seq<char>) -> Seq<char> {
    "「agent "@ + first
        + "」是保留的管理命令字（该词已按 oh-my-pi #4845 防误注入语义拦截，不作为任务发送，避免被误计费）。可用子命令：`agent models list`、`agent auth list|save|remove`、`agent mcp list|status|add|remove|enable|disable`、`agent config path|check`。若确要以此文本作为任务，请调整首词措辞，或在交互 REPL 中直接输入。"@
}

/// The hint given in place of running a task that reads as a management command.
pub fn reserved_top_level_word_hint(task: &str) -> (r: Option<String>)
    ensures
        ({
            let w = pieces::words(task@);
            if w.len() > 0 && !is_flag_or_file(w[0]) && is_management(w) {
                r matches Some(h) && h@ == hint_text(w[0])
            } else {
                r is None
            }
        }),
{
    let w = words_of(task);
    let ghost wv = text::texts(w@);
    assert(wv.len() == w.len());
    if w.len() == 0 {
        return None;
    }
    assert(wv[0] == w@[0]@);
    if w.len() > 1 {
        assert(wv[1] == w@[1]@);
    }
    let first = chars_of(&w[0]);
    if first.len() > 0 && (first[0] == '-' || first[0] == '@') {
        return None;
    }
    if !reserved(&w[0]) {
        return None;
    }
    let mut grammar: bool = w.len() == 1 || ((same(&w[0], "marketplace") || same(&w[0], "plugin"))
        && market_action(&w[1]));
    let ghost base = grammar;
    let mut i: usize = 1;
    while i < w.len()
        invariant
            1 <= i <= w.len(),
            wv == text::texts(w@),
            grammar <==> base || exists|k: int| 1 <= k < i && is_plugin_id(#[trigger] wv[k]),
        decreases w.len() - i,
    {
        assert(wv[i as int] == w@[i as int]@);
        if !flag_like(&w[i]) && contains_char(&w[i], '@') {
            assert(is_plugin_id(wv[i as int]));
            grammar = true;
        }
        i = i + 1;
    }
    if grammar {
        let h = cat("「agent ", &w[0]);
        Some(
            cat(
                &h,
                "」是保留的管理命令字（该词已按 oh-my-pi #4845 防误注入语义拦截，不作为任务发送，避免被误计费）。可用子命令：`agent models list`、`agent auth list|save|remove`、`agent mcp list|status|add|remove|enable|disable`、`agent config path|check`。若确要以此文本作为任务，请调整首词措辞，或在交互 REPL 中直接输入。",
            ),
        )
    } else {
        None
    }
}

// ── The command menu ────────────────────────────────────────────────────────

/// The description in a help entry: what is left when the command's names at the front,
/// words that begin with a slash or end with a comma, are dropped.
pub open spec fn described(s: Seq<char>) -> Seq<char>
    decreases s.len(),
    via described_decreases
{
    let k = pieces::white_index(s);
    let head = s.take(k);
    if head.len() > 0 && (head[0] == '/' || head.last() == ',') {
        if k < s.len() {
            described(text::trim_start(s.skip(k + 1)))
        } else {
            Seq::empty()
        }
    } else {
        s
    }
}

#[via_fn]
proof fn described_decreases(s: Seq<char>) {
    pieces::lemma_white_index(s);
    let k = pieces::white_index(s);
    if k < s.len() {
        lemma_trim_start_shrinks(s.skip(k + 1));
    }
}

proof fn lemma_trim_start_shrinks(s: Seq<char>)
    ensures
        text::trim_start(s).len() <= s.len(),
    decreases s.len(),
{
    if s.len() > 0 && text::is_white(s[0]) {
        lemma_trim_start_shrinks(s.drop_first());
    }
}

pub fn help_entry_description(raw: &str) -> (r: String)
    ensures
        r@ == text::trim(described(text::trim(raw@))),
{
    let mut rest = trimmed(raw);
    let ghost start = rest@;
    let mut more: bool = true;
    while more
        invariant
            described(start) == described(rest@),
            !more ==> described(rest@) == rest@,
        decreases rest@.len(), (if more { 1int } else { 0int }),
    {
        let v = chars_of(&rest);
        let (head, tail) = cut_white_of(&rest);
        let h = chars_of(&head);
        proof {
            pieces::lemma_white_index(rest@);
            lemma_trim_start_shrinks(tail@);
        }
        if h.len() > 0 && (h[0] == '/' || h[h.len() - 1] == ',') {
            if h.len() == v.len() {
                rest = String::new();
                more = false;
                assert(described(rest@) =~= Seq::empty());
            } else {
                rest = trimmed_start(&tail);
            }
        } else {
            more = false;
        }
    }
    trimmed(&rest)
}

/// The help entry of a command; some commands share one.
pub open spec fn help_key(bare: Seq<char>) -> Seq<char> {
    if bare == "?"@ || bare == "h"@ || bare == "help"@ {
        "help.h"@
    } else if bare == "quit"@ || bare == "exit"@ {
        "help.exit"@
    } else if bare == "skills"@ {
        "help.skill"@
    } else if bare == "resume"@ {
        "help.session"@
    } else {
        "help."@ + bare
    }
}

pub fn help_key_of(bare: &str) -> (r: String)
    ensures
        r@ == help_key(bare@),
{
    if same(bare, "?") || same(bare, "h") || same(bare, "help") {
        copy_text("help.h")
    } else if same(bare, "quit") || same(bare, "exit") {
        copy_text("help.exit")
    } else if same(bare, "skills") {
        copy_text("help.skill")
    } else if same(bare, "resume") {
        copy_text("help.session")
    } else {
        cat("help.", bare)
    }
}

/// The description of a command in an editor's menu: empty where the catalogue has no
/// entry, which it shows by giving the key back.
pub fn menu_description(key: &str, wording: &str) -> (r: String)
    ensures
        r@ == (if key@ == wording@ {
            Seq::empty()
        } else {
            text::trim(described(text::trim(wording@)))
        }),
{
    if same(key, wording) {
        String::new()
    } else {
        help_entry_description(wording)
    }
}

/// A long flag that the table does not know.
pub open spec fn is_stray(longs: Seq<(String, FlagKind)>, tok: Seq<char>) -> bool {
    &&& tok.len() > 2
    &&& tok[0] == '-' && tok[1] == '-'
    &&& !text::has_char(tok, '=')
    &&& forall|i: int| 0 <= i < longs.len() ==> (#[trigger] longs[i]).0@ != tok.skip(2)
}

/// A long flag that switches something and is known as such at some place of the table.
pub open spec fn is_switch(longs: Seq<(String, FlagKind)>, tok: Seq<char>, i: int) -> bool {
    &&& tok.len() > 2
    &&& tok[0] == '-' && tok[1] == '-'
    &&& !text::has_char(tok, '=')
    &&& 0 <= i < longs.len()
    &&& longs[i].0@ == tok.skip(2)
    &&& longs[i].1 == FlagKind::Switch
    &&& forall|j: int| 0 <= j < i ==> (#[trigger] longs[j]).0@ != tok.skip(2)
}

pub open spec fn is_known_switch(longs: Seq<(String, FlagKind)>, tok: Seq<char>) -> bool {
    exists|i: int| #[trigger] is_switch(longs, tok, i)
}

proof fn kind_at(longs: Seq<(String, FlagKind)>, name: Seq<char>, j: int, i: int)
    requires
        0 <= j <= i <= longs.len(),
        forall|k: int| 0 <= k < i ==> (#[trigger] longs[k]).0@ != name,
        i < longs.len() ==> longs[i].0@ == name,
    ensures
        i < longs.len() ==> long_kind(longs, name, j) == Some(longs[i].1),
        i == longs.len() ==> long_kind(longs, name, j) is None,
    decreases i - j,
{
    if j < i {
        assert(longs[j].0@ != name);
        kind_at(longs, name, j + 1, i);
    }
}

proof fn long_flags_are_read(
    longs: Seq<(String, FlagKind)>,
    shorts: Seq<(char, FlagKind)>,
    raw: Seq<Seq<char>>,
    i: int,
    s: Seen,
)
    requires
        0 <= i < raw.len(),
        is_stray(longs, raw[i]) || is_known_switch(longs, raw[i]),
    ensures
        raw[i] != "--"@,
        is_stray(longs, raw[i]) ==> read_word(longs, shorts, raw, i, s) == (
            Seen { unknown: s.unknown.push(raw[i]), ..s },
            false,
        ),
        is_known_switch(longs, raw[i]) && !is_meta(raw[i].skip(2)) && s.started ==> read_word(
            longs,
            shorts,
            raw,
            i,
            s,
        ) == (Seen { late: s.late.push(raw[i]), ..s }, false),
        is_known_switch(longs, raw[i]) && !s.started ==> read_word(longs, shorts, raw, i, s) == (
            s,
            false,
        ),
{
    let tok = raw[i];
    reveal_strlit("--");
    assert(tok.take(2) =~= "--"@);
    let rest = tok.skip(2);
    assert(!text::has_char(rest, '=')) by {
        assert forall|k: int| 0 <= k < rest.len() implies rest[k] != '=' by {
            assert(rest[k] == tok[k + 2]);
        }
    }
    pieces::cuts_are_at_the_first_and_last(rest, '=', Seq::empty());
    if is_stray(longs, tok) {
        kind_at(longs, rest, 0, longs.len() as int);
    }
    if is_known_switch(longs, tok) {
        let k = choose|k: int| #[trigger] is_switch(longs, tok, k);
        kind_at(longs, rest, 0, k);
    }
}

proof fn strays_are_collected(
    longs: Seq<(String, FlagKind)>,
    shorts: Seq<(char, FlagKind)>,
    raw: Seq<Seq<char>>,
    i: int,
    s: Seen,
)
    requires
        0 <= i <= raw.len(),
        forall|k: int| 0 <= k < raw.len() ==> is_stray(longs, #[trigger] raw[k]),
    ensures
        read_words(longs, shorts, raw, i, s) == (Seen { unknown: s.unknown + raw.skip(i), ..s }),
    decreases raw.len() - i,
{
    if i < raw.len() {
        assert(is_stray(longs, raw[i]));
        long_flags_are_read(longs, shorts, raw, i, s);
        let t = Seen { unknown: s.unknown.push(raw[i]), ..s };
        strays_are_collected(longs, shorts, raw, i + 1, t);
        assert(s.unknown.push(raw[i]) + raw.skip(i + 1) =~= s.unknown + raw.skip(i));
    } else {
        assert(s.unknown + raw.skip(i) =~= s.unknown);
    }
}

/// Every flag that is unknown is named in the message, in the order in which they stand.
pub proof fn every_unknown_flag_is_named(
    longs: Seq<(String, FlagKind)>,
    shorts: Seq<(char, FlagKind)>,
    raw: Seq<Seq<char>>,
)
    requires
        raw.len() > 0,
        forall|k: int| 0 <= k < raw.len() ==> is_stray(longs, #[trigger] raw[k]),
    ensures
        argv_error(longs, shorts, raw) matches Some(m) && m.args.len() == 2 && m.args[0].1
            == say::ValView::Text(pieces::join(raw, seq![',', ' '])),
{
    reveal_strlit(", ");
    assert(", "@ =~= seq![',', ' ']);
    strays_are_collected(longs, shorts, raw, 0, nothing_seen());
    assert(nothing_seen().unknown + raw.skip(0) =~= raw);
}

/// A word of a task: it does not begin with a hyphen.
pub open spec fn is_plain_word(w: Seq<char>) -> bool {
    w.len() == 0 || w[0] != '-'
}

proof fn plain_words_are_read(
    longs: Seq<(String, FlagKind)>,
    shorts: Seq<(char, FlagKind)>,
    raw: Seq<Seq<char>>,
    i: int,
    n: int,
    s: Seen,
)
    requires
        0 <= i <= n <= raw.len(),
        forall|k: int| i <= k < n ==> is_plain_word(#[trigger] raw[k]),
    ensures
        read_words(longs, shorts, raw, i, s) == read_words(
            longs,
            shorts,
            raw,
            n,
            Seen { started: s.started || i < n, ..s },
        ),
    decreases n - i,
{
    if i < n {
        reveal_strlit("--");
        let tok = raw[i];
        assert(is_plain_word(raw[i]));
        assert("--"@[0] == '-');
        if tok.len() >= 2 {
            assert(tok.take(2)[0] == tok[0]);
        }
        plain_words_are_read(longs, shorts, raw, i + 1, n, Seen { started: true, ..s });
    }
}

proof fn switches_are_read(
    longs: Seq<(String, FlagKind)>,
    shorts: Seq<(char, FlagKind)>,
    raw: Seq<Seq<char>>,
    i: int,
    n: int,
    s: Seen,
)
    requires
        0 <= i <= n <= raw.len(),
        forall|k: int|
            i <= k < n ==> is_known_switch(longs, #[trigger] raw[k]) && !is_meta(raw[k].skip(2)),
    ensures
        s.started ==> read_words(longs, shorts, raw, i, s) == read_words(
            longs,
            shorts,
            raw,
            n,
            Seen { late: s.late + raw.subrange(i, n), ..s },
        ),
        !s.started ==> read_words(longs, shorts, raw, i, s) == read_words(
            longs,
            shorts,
            raw,
            n,
            s,
        ),
    decreases n - i,
{
    if i < n {
        assert(is_known_switch(longs, raw[i]));
        long_flags_are_read(longs, shorts, raw, i, s);
        let t = if s.started {
            Seen { late: s.late.push(raw[i]), ..s }
        } else {
            s
        };
        switches_are_read(longs, shorts, raw, i + 1, n, t);
        assert(s.late.push(raw[i]) + raw.subrange(i + 1, n) =~= s.late + raw.subrange(i, n));
    } else {
        assert(s.late + raw.subrange(i, n) =~= s.late);
    }
}

/// Known flags are accepted before the task; behind its first word each of them is refused, and
/// named.
pub proof fn flags_stand_before_the_task(
    longs: Seq<(String, FlagKind)>,
    shorts: Seq<(char, FlagKind)>,
    flags: Seq<Seq<char>>,
    task: Seq<Seq<char>>,
)
    requires
        flags.len() > 0,
        task.len() > 0,
        forall|k: int|
            0 <= k < flags.len() ==> is_known_switch(longs, #[trigger] flags[k]) && !is_meta(
                flags[k].skip(2),
            ),
        forall|k: int| 0 <= k < task.len() ==> is_plain_word(#[trigger] task[k]),
    ensures
        argv_error(longs, shorts, flags + task) is None,
        argv_error(longs, shorts, task + flags) matches Some(m) && m.args.len() == 1 && m.args[0].1
            == say::ValView::Text(pieces::join(flags, seq![',', ' '])),
{
    reveal_strlit(", ");
    assert(", "@ =~= seq![',', ' ']);
    let s = nothing_seen();
    let a = flags + task;
    let f = flags.len() as int;
    assert forall|k: int| 0 <= k < f implies is_known_switch(longs, #[trigger] a[k]) && !is_meta(
        a[k].skip(2),
    ) by {
        assert(a[k] == flags[k]);
    }
    assert forall|k: int| f <= k < a.len() implies is_plain_word(#[trigger] a[k]) by {
        assert(a[k] == task[k - f]);
    }
    switches_are_read(longs, shorts, a, 0, f, s);
    plain_words_are_read(longs, shorts, a, f, a.len() as int, s);
    let b = task + flags;
    let t = task.len() as int;
    assert forall|k: int| 0 <= k < t implies is_plain_word(#[trigger] b[k]) by {
        assert(b[k] == task[k]);
    }
    assert forall|k: int| t <= k < b.len() implies is_known_switch(longs, #[trigger] b[k])
        && !is_meta(b[k].skip(2)) by {
        assert(b[k] == flags[k - t]);
    }
    plain_words_are_read(longs, shorts, b, 0, t, s);
    let u = Seen { started: true, ..s };
    switches_are_read(longs, shorts, b, t, b.len() as int, u);
    assert(u.late + b.subrange(t, b.len() as int) =~= flags);
}

proof fn flags_of_front(v: Seq<ArgFacts>, x: ArgFacts, n: int)
    requires
        0 <= n <= v.len(),
    ensures
        all_longs(v.push(x), n) == all_longs(v, n),
        all_shorts(v.push(x), n) == all_shorts(v, n),
    decreases n,
{
    if n > 0 {
        flags_of_front(v, x, n - 1);
        assert(v.push(x)[n - 1] == v[n - 1]);
    }
}

/// One more argument adds its name, its other names and its letter to the flags, all of one
/// kind, and takes none away.
pub proof fn every_name_of_a_flag_is_known(v: Seq<ArgFacts>, x: ArgFacts, i: int)
    requires
        0 <= i < x.aliases@.len(),
        x.long is Some,
        x.short is Some,
    ensures
        ({
            let n = v.len() as int;
            let w = v.push(x);
            let longs = all_longs(w, n + 1);
            let old_longs = all_longs(v, n);
            &&& longs.len() == old_longs.len() + 1 + x.aliases@.len()
            &&& longs.take(old_longs.len() as int) == old_longs
            &&& longs[old_longs.len() as int].0 == x.long->0@
            &&& longs[old_longs.len() + 1 + i].0 == x.aliases@[i]@
            &&& all_shorts(w, n + 1).drop_last() == all_shorts(v, n)
            &&& all_shorts(w, n + 1).last().0 == x.short->0
            &&& longs[old_longs.len() as int].1 == longs[old_longs.len() + 1 + i].1
            &&& longs[old_longs.len() as int].1 == all_shorts(w, n + 1).last().1
        }),
{
    flags_of_front(v, x, v.len() as int);
    let n = v.len() as int;
    let b = all_longs(v, n);
    assert((b + long_names(x)).take(b.len() as int) =~= b);
    let c = all_shorts(v, n);
    assert(c.push((x.short->0, kind_of_arg(x))).drop_last() =~= c);
}

} // verus!
