//! Commands that tool servers and users define: prompts and texts sent by name.
use vstd::prelude::*;

use crate::manage;
use crate::pieces;
use crate::pieces::{join_of, split_once_of, words_of};
use crate::repl;
use crate::repl::{CustomCommand, McpPromptArg, McpPromptInfo};
use crate::say;
use crate::say::{msg, Msg};
use crate::text;
use crate::text::{behind, cat, chars_of, copy_text, same, sub_text, trimmed};

verus! {

/// A list of keys with their values.
pub type Pairs = Seq<(Seq<char>, Seq<char>)>;

pub open spec fn key_index(p: Pairs, k: Seq<char>, i: int) -> int
    decreases p.len() - i,
{
    if i >= p.len() || p[i].0 == k {
        i
    } else {
        key_index(p, k, i + 1)
    }
}

pub open spec fn holds_key(p: Pairs, k: Seq<char>) -> bool {
    key_index(p, k, 0) < p.len()
}

/// The pairs with this value under this key, where there is one.
pub open spec fn put(p: Pairs, k: Seq<char>, v: Seq<char>) -> Pairs {
    if holds_key(p, k) {
        p.update(key_index(p, k, 0), (k, v))
    } else {
        p.push((k, v))
    }
}

/// What the first `n` words of the form `key=value` give.
pub open spec fn given(words: Seq<Seq<char>>, n: int) -> Pairs
    decreases n,
{
    if n <= 0 {
        Seq::empty()
    } else {
        match pieces::split_once(words[n - 1], '=') {
            Some((k, v)) => if k.len() > 0 {
                put(given(words, n - 1), k, v)
            } else {
                given(words, n - 1)
            },
            None => given(words, n - 1),
        }
    }
}

/// The arguments that stand in a text.
pub open spec fn given_in(raw: Seq<char>) -> Pairs {
    given(pieces::words(raw), pieces::words(raw).len() as int)
}

/// The arguments that are required and not given.
pub open spec fn missing(args: Seq<McpPromptArg>, p: Pairs, n: int) -> Seq<Seq<char>>
    decreases n,
{
    if n <= 0 {
        Seq::empty()
    } else if args[n - 1].required && !holds_key(p, args[n - 1].name@) {
        missing(args, p, n - 1).push(args[n - 1].name@)
    } else {
        missing(args, p, n - 1)
    }
}

pub(crate) fn find_key(p: &Vec<(String, String)>, k: &str) -> (i: usize)
    ensures
        i == key_index(manage::pair_texts(p@), k@, 0),
        i <= p.len(),
{
    let ghost pv = manage::pair_texts(p@);
    let mut i: usize = 0;
    while i < p.len()
        invariant
            i <= p.len(),
            pv == manage::pair_texts(p@),
            key_index(pv, k@, 0) == key_index(pv, k@, i as int),
        decreases p.len() - i,
    {
        assert(pv[i as int].0 == p@[i as int].0@);
        if same(&p[i].0, k) {
            return i;
        }
        i = i + 1;
    }
    i
}

pub(crate) fn put_pair(p: &mut Vec<(String, String)>, k: String, v: String)
    ensures
        manage::pair_texts(final(p)@) == put(manage::pair_texts(old(p)@), k@, v@),
{
    let i: usize = find_key(p, &k);
    let ghost before = manage::pair_texts(p@);
    assert(before.len() == p.len());
    if i < p.len() {
        p.set(i, (k, v));
        assert(manage::pair_texts(p@) =~= before.update(i as int, (k@, v@)));
    } else {
        p.push((k, v));
        assert(manage::pair_texts(p@) =~= before.push((k@, v@)));
    }
}

/// The arguments of a prompt that stand in a text, and the required ones that do not.
pub fn parse_prompt_args(raw: &str, prompt: &McpPromptInfo) -> (r: (
    Vec<(String, String)>,
    Vec<String>,
))
    ensures
        manage::pair_texts(r.0@) == given_in(raw@),
        text::texts(r.1@) == missing(
            prompt.arguments@,
            given_in(raw@),
            prompt.arguments.len() as int,
        ),
{
    let words = words_of(raw);
    let ghost wv = pieces::words(raw@);
    assert(wv.len() == words.len());
    let mut p: Vec<(String, String)> = Vec::new();
    let mut i: usize = 0;
    assert(manage::pair_texts(p@) =~= given(wv, 0));
    while i < words.len()
        invariant
            i <= words.len(),
            wv == text::texts(words@),
            manage::pair_texts(p@) == given(wv, i as int),
        decreases words.len() - i,
    {
        assert(wv[i as int] == words@[i as int]@);
        if let Some((k, v)) = split_once_of(&words[i], '=') {
            if !k.as_str().is_empty() {
                put_pair(&mut p, k, v);
            }
        }
        i = i + 1;
    }
    let mut m: Vec<String> = Vec::new();
    let mut j: usize = 0;
    let args = &prompt.arguments;
    assert(text::texts(m@) =~= missing(args@, given_in(raw@), 0));
    while j < args.len()
        invariant
            j <= args.len(),
            manage::pair_texts(p@) == given_in(raw@),
            text::texts(m@) == missing(args@, given_in(raw@), j as int),
        decreases args.len() - j,
    {
        assert(manage::pair_texts(p@).len() == p.len());
        if args[j].required && find_key(&p, &args[j].name) >= p.len() {
            let s = copy_text(&args[j].name);
            proof {
                text::lemma_texts_push(m@, s);
            }
            m.push(s);
        }
        j = j + 1;
    }
    (p, m)
}

/// How one argument is written in a prompt's usage.
pub open spec fn usage_arg(a: McpPromptArg) -> Seq<char> {
    if a.required {
        a.name@ + "=<值>"@
    } else {
        "["@ + a.name@ + "]=<值>"@
    }
}

pub open spec fn usage_args(a: Seq<McpPromptArg>) -> Seq<Seq<char>> {
    Seq::new(a.len(), |i: int| usage_arg(a[i]))
}

/// The usage of a prompt's arguments.
pub fn prompt_usage_args(prompt: &McpPromptInfo) -> (r: String)
    ensures
        r@ == pieces::join(usage_args(prompt.arguments@), " "@),
{
    let args = &prompt.arguments;
    let mut v: Vec<String> = Vec::new();
    let mut i: usize = 0;
    assert(text::texts(v@) =~= usage_args(args@).take(0));
    while i < args.len()
        invariant
            i <= args.len(),
            text::texts(v@) == usage_args(args@).take(i as int),
        decreases args.len() - i,
    {
        let s = if args[i].required {
            cat(&args[i].name, "=<值>")
        } else {
            cat(&cat("[", &args[i].name), "]=<值>")
        };
        proof {
            text::lemma_texts_push(v@, s);
        }
        v.push(s);
        i = i + 1;
        assert(text::texts(v@) =~= usage_args(args@).take(i as int));
    }
    assert(usage_args(args@).take(i as int) =~= usage_args(args@));
    join_of(&v, " ")
}

/// A text without the slashes at its front.
pub open spec fn without_slashes(s: Seq<char>) -> Seq<char>
    decreases s.len(),
{
    if s.len() > 0 && s[0] == '/' {
        without_slashes(s.skip(1))
    } else {
        s
    }
}

pub fn without_slashes_of(s: &str) -> (r: String)
    ensures
        r@ == without_slashes(s@),
{
    let v = chars_of(s);
    let mut i: usize = 0;
    assert(s@.skip(0) =~= s@);
    while i < v.len() && v[i] == '/'
        invariant
            i <= v.len(),
            v@ == s@,
            without_slashes(s@) == without_slashes(s@.skip(i as int)),
        decreases v.len() - i,
    {
        assert(s@.skip(i as int).skip(1) =~= s@.skip(i + 1));
        i = i + 1;
    }
    assert(s@.skip(i as int) =~= s@.subrange(i as int, s@.len() as int));
    sub_text(&v, i, v.len())
}

/// What stands behind a name in a line that begins with slashes.
pub open spec fn args_behind(full: Seq<char>, name: Seq<char>) -> Seq<char> {
    match text::after(without_slashes(full), name) {
        Some(r) => text::trim(r),
        None => Seq::empty(),
    }
}

fn args_behind_of(full: &str, name: &str) -> (r: String)
    ensures
        r@ == args_behind(full@, name@),
{
    match behind(&without_slashes_of(full), name) {
        Some(r) => trimmed(&r),
        None => String::new(),
    }
}

/// What a command is, seen as a server's prompt.
#[derive(Debug)]
pub enum PromptCmd<S = String, A = Vec<(String, String)>, M = Msg> {
    NotPrompt,
    /// A prompt with a required argument missing: the message is printed.
    UsageError(M),
    Ready { server: S, prompt: S, args: A },
}

pub type PromptView = PromptCmd<Seq<char>, Pairs, say::MsgView>;

impl PromptCmd {
    pub open spec fn view(&self) -> PromptView {
        match self {
            PromptCmd::NotPrompt => PromptCmd::NotPrompt,
            PromptCmd::UsageError(m) => PromptCmd::UsageError(m@),
            PromptCmd::Ready { server, prompt, args } => PromptCmd::Ready {
                server: server@,
                prompt: prompt@,
                args: manage::pair_texts(args@),
            },
        }
    }
}

pub open spec fn prompt_index(
    p: Seq<(String, McpPromptInfo)>,
    server: Seq<char>,
    name: Seq<char>,
    i: int,
) -> int
    decreases p.len() - i,
{
    if i >= p.len() || (p[i].0@ == server && p[i].1.name@ == name) {
        i
    } else {
        prompt_index(p, server, name, i + 1)
    }
}

/// What a found prompt becomes, with the text behind its name.
pub open spec fn prompt_call(
    server: Seq<char>,
    name: Seq<char>,
    raw: Seq<char>,
    p: McpPromptInfo,
) -> PromptView {
    let m = missing(p.arguments@, given_in(raw), p.arguments.len() as int);
    if m.len() > 0 {
        PromptCmd::UsageError(
            say::entry("mcp.prompt_usage"@).arg("cmd"@, server + ":"@ + name).arg(
                "args"@,
                pieces::join(usage_args(p.arguments@), " "@),
            ).arg("missing"@, pieces::join(m, ", "@)),
        )
    } else {
        PromptCmd::Ready { server, prompt: name, args: given_in(raw) }
    }
}

/// `/<server>:<prompt> [key=value …]`.
pub open spec fn prompt_command(
    token: Seq<char>,
    full: Seq<char>,
    prompts: Seq<(String, McpPromptInfo)>,
) -> PromptView {
    let t = without_slashes(token);
    match pieces::split_once(t, ':') {
        None => PromptCmd::NotPrompt,
        Some((server, name)) => {
            let i = prompt_index(prompts, server, name, 0);
            if server.len() == 0 || name.len() == 0 || i >= prompts.len() {
                PromptCmd::NotPrompt
            } else {
                prompt_call(server, name, args_behind(full, t), prompts[i].1)
            }
        },
    }
}

/// What a command is, seen as a prompt of one of the servers.
pub fn resolve_mcp_prompt(
    cmd_token: &str,
    full: &str,
    prompts: &Vec<(String, McpPromptInfo)>,
) -> (r: PromptCmd)
    ensures
        r.view() == prompt_command(cmd_token@, full@, prompts@),
{
    let token = without_slashes_of(cmd_token);
    let (server, name) = match split_once_of(&token, ':') {
        Some(p) => p,
        None => {
            return PromptCmd::NotPrompt;
        },
    };
    if server.as_str().is_empty() || name.as_str().is_empty() {
        return PromptCmd::NotPrompt;
    }
    let mut i: usize = 0;
    while i < prompts.len() && !(same(&prompts[i].0, &server) && same(&prompts[i].1.name, &name))
        invariant
            i <= prompts.len(),
            prompt_index(prompts@, server@, name@, 0) == prompt_index(
                prompts@,
                server@,
                name@,
                i as int,
            ),
        decreases prompts.len() - i,
    {
        i = i + 1;
    }
    if i >= prompts.len() {
        return PromptCmd::NotPrompt;
    }
    let p = &prompts[i].1;
    let (args, absent) = parse_prompt_args(&args_behind_of(full, &token), p);
    assert(text::texts(absent@).len() == absent.len());
    if absent.len() > 0 {
        let cmd = cat(&cat(&server, ":"), &name);
        return PromptCmd::UsageError(
            msg("mcp.prompt_usage").arg("cmd", &cmd).arg("args", &prompt_usage_args(p)).arg(
                "missing",
                &join_of(&absent, ", "),
            ),
        );
    }
    PromptCmd::Ready { server, prompt: name, args }
}

pub open spec fn custom_index(c: Seq<CustomCommand>, name: Seq<char>, i: int) -> int
    decreases c.len() - i,
{
    if i >= c.len() || c[i].name@ == name {
        i
    } else {
        custom_index(c, name, i + 1)
    }
}

/// The text that a user's command sends.
pub open spec fn custom_text(c: CustomCommand, args: Seq<char>) -> Seq<char> {
    if args.len() == 0 {
        c.body@
    } else {
        c.body@ + "\n\n# 命令参数\n"@ + args
    }
}

pub open spec fn custom_command(token: Seq<char>, full: Seq<char>, c: Seq<CustomCommand>) -> Option<
    Seq<char>,
> {
    let w = pieces::words(without_slashes(token));
    if w.len() == 0 || custom_index(c, w[0], 0) >= c.len() {
        None
    } else {
        Some(custom_text(c[custom_index(c, w[0], 0)], args_behind(full, w[0])))
    }
}

/// The text that a command of the user's own sends.
pub fn try_custom_command(cmd_token: &str, full: &str, commands: &Vec<CustomCommand>) -> (r: Option<
    String,
>)
    ensures
        crate::session::opt_text(r) == custom_command(cmd_token@, full@, commands@),
{
    let w = words_of(&without_slashes_of(cmd_token));
    let ghost wv = pieces::words(without_slashes(cmd_token@));
    assert(wv.len() == w.len());
    if w.len() == 0 {
        return None;
    }
    assert(wv[0] == w@[0]@);
    let name = &w[0];
    let mut i: usize = 0;
    while i < commands.len() && !same(&commands[i].name, name)
        invariant
            i <= commands.len(),
            custom_index(commands@, name@, 0) == custom_index(commands@, name@, i as int),
        decreases commands.len() - i,
    {
        i = i + 1;
    }
    if i >= commands.len() {
        return None;
    }
    let args = args_behind_of(full, name);
    let body = &commands[i].body;
    if args.as_str().is_empty() {
        Some(copy_text(body))
    } else {
        let s = cat(body, "\n\n# 命令参数\n");
        Some(cat(&s, &args))
    }
}

// ── What holds of all arguments ─────────────────────────────────────────────

pub proof fn key_index_stops(p: Pairs, k: Seq<char>, i: int)
    requires
        0 <= i <= p.len(),
    ensures
        i <= key_index(p, k, i) <= p.len(),
        forall|j: int| i <= j < key_index(p, k, i) ==> (#[trigger] p[j]).0 != k,
        key_index(p, k, i) < p.len() ==> p[key_index(p, k, i)].0 == k,
    decreases p.len() - i,
{
    if i < p.len() && p[i].0 != k {
        key_index_stops(p, k, i + 1);
    }
}

pub open spec fn distinct_keys(p: Pairs) -> bool {
    forall|i: int, j: int| 0 <= i < j < p.len() ==> (#[trigger] p[i]).0 != (#[trigger] p[j]).0
}

/// No key is given twice, however often it stands in the text.
pub proof fn given_keys_are_distinct(words: Seq<Seq<char>>, n: int)
    ensures
        distinct_keys(given(words, n)),
    decreases n,
{
    if n > 0 {
        given_keys_are_distinct(words, n - 1);
        let p = given(words, n - 1);
        if let Some((k, v)) = pieces::split_once(words[n - 1], '=') {
            key_index_stops(p, k, 0);
        }
    }
}

/// Of the values that are given for a key, the last one holds.
pub proof fn last_value_holds(words: Seq<Seq<char>>, n: int)
    requires
        0 < n <= words.len(),
        pieces::split_once(words[n - 1], '=') is Some,
        (pieces::split_once(words[n - 1], '=')->0).0.len() > 0,
    ensures
        ({
            let (k, v) = pieces::split_once(words[n - 1], '=')->0;
            let p = given(words, n);
            holds_key(p, k) && p[key_index(p, k, 0)] == (k, v)
        }),
{
    let (k, v) = pieces::split_once(words[n - 1], '=')->0;
    let before = given(words, n - 1);
    let p = given(words, n);
    key_index_stops(before, k, 0);
    key_index_stops(p, k, 0);
    let i = key_index(p, k, 0);
    given_keys_are_distinct(words, n);
    if holds_key(before, k) {
        assert(p[key_index(before, k, 0)] == (k, v));
    } else {
        assert(p[before.len() as int] == (k, v));
    }
}

/// A word of the form `key=value`.
pub open spec fn pair_word(p: (Seq<char>, Seq<char>)) -> Seq<char> {
    p.0 + seq!['='] + p.1
}

proof fn absent_key(p: Pairs, k: Seq<char>, i: int)
    requires
        0 <= i <= p.len(),
        forall|j: int| 0 <= j < p.len() ==> (#[trigger] p[j]).0 != k,
    ensures
        key_index(p, k, i) == p.len(),
    decreases p.len() - i,
{
    if i < p.len() {
        assert(p[i].0 != k);
        absent_key(p, k, i + 1);
    }
}

proof fn pairs_are_given(p: Pairs, words: Seq<Seq<char>>, n: int)
    requires
        distinct_keys(p),
        words.len() == p.len(),
        forall|i: int| 0 <= i < p.len() ==> words[i] == pair_word(#[trigger] p[i]),
        forall|i: int|
            0 <= i < p.len() ==> (#[trigger] p[i]).0.len() > 0 && !text::has_char(p[i].0, '='),
        0 <= n <= p.len(),
    ensures
        given(words, n) == p.take(n),
    decreases n,
{
    if n > 0 {
        pairs_are_given(p, words, n - 1);
        let (k, v) = p[n - 1];
        assert(words[n - 1] == pair_word(p[n - 1]));
        assert(!text::has_char(p[n - 1].0, '='));
        pieces::cuts_are_at_the_first_and_last(k, '=', v);
        let before = p.take(n - 1);
        assert forall|j: int| 0 <= j < before.len() implies (#[trigger] before[j]).0 != k by {
            assert(p[j].0 != p[n - 1].0);
        }
        absent_key(before, k, 0);
        assert(p.take(n) =~= before.push((k, v)));
    } else {
        assert(p.take(0) =~= Seq::empty());
    }
}

/// Arguments that are written one behind the other, each as its key, an equals sign and its
/// value, are read as they are, in order; a value may hold an equals sign too.
pub proof fn arguments_are_read(p: Pairs)
    requires
        distinct_keys(p),
        forall|i: int|
            0 <= i < p.len() ==> (#[trigger] p[i]).0.len() > 0 && !text::has_char(p[i].0, '=')
                && pieces::no_white(p[i].0) && pieces::no_white(p[i].1),
    ensures
        given_in(pieces::join(Seq::new(p.len(), |i: int| pair_word(p[i])), seq![' '])) == p,
{
    let words = Seq::new(p.len(), |i: int| pair_word(p[i]));
    assert forall|i: int| 0 <= i < words.len() implies pieces::is_word(#[trigger] words[i]) by {
        let w = words[i];
        let (k, v) = p[i];
        assert(pieces::no_white(p[i].0));
        assert forall|j: int| 0 <= j < w.len() implies !text::is_white(#[trigger] w[j]) by {
            if j < k.len() {
                assert(w[j] == k[j]);
            } else if j > k.len() {
                assert(w[j] == v[j - k.len() - 1]);
            }
        }
    }
    pieces::words_read_back(words);
    pairs_are_given(p, words, p.len() as int);
    assert(p.take(p.len() as int) =~= p);
}

proof fn missing_of_front(args: Seq<McpPromptArg>, x: McpPromptArg, p: Pairs, n: int)
    requires
        0 <= n <= args.len(),
    ensures
        missing(args.push(x), p, n) == missing(args, p, n),
    decreases n,
{
    if n > 0 {
        missing_of_front(args, x, p, n - 1);
        assert(args.push(x)[n - 1] == args[n - 1]);
    }
}

/// An argument is missed where it is required and no value is given for it, and else not.
pub proof fn required_arguments_are_missed(args: Seq<McpPromptArg>, x: McpPromptArg, p: Pairs, i: int)
    requires
        0 <= i <= p.len(),
        forall|j: int| 0 <= j < i ==> (#[trigger] p[j]).0 != x.name@,
        i < p.len() ==> p[i].0 == x.name@,
    ensures
        ({
            let n = args.len() as int;
            let before = missing(args, p, n);
            let after = missing(args.push(x), p, n + 1);
            &&& x.required && i == p.len() ==> after == before.push(x.name@)
            &&& !x.required || i < p.len() ==> after == before
        }),
{
    missing_of_front(args, x, p, args.len() as int);
    found_key(p, x.name@, 0, i);
}

proof fn found_key(p: Pairs, k: Seq<char>, j: int, i: int)
    requires
        0 <= j <= i <= p.len(),
        forall|j: int| 0 <= j < i ==> (#[trigger] p[j]).0 != k,
        i < p.len() ==> p[i].0 == k,
    ensures
        key_index(p, k, j) == i,
    decreases i - j,
{
    if j < i {
        assert(p[j].0 != k);
        found_key(p, k, j + 1, i);
    }
}

proof fn slash_goes(s: Seq<char>)
    requires
        s.len() > 0,
        s[0] != '/',
    ensures
        without_slashes(seq!['/'] + s) == s,
{
    assert((seq!['/'] + s).skip(1) =~= s);
    reveal_with_fuel(without_slashes, 2);
}

/// A command of the user's own sends its text, with what stands behind its name where there is
/// something; the first command of that name is taken.
pub proof fn commands_send_their_text(c: Seq<CustomCommand>, i: int, args: Seq<char>)
    requires
        0 <= i < c.len(),
        forall|j: int| 0 <= j < i ==> (#[trigger] c[j]).name@ != c[i].name@,
        pieces::is_word(c[i].name@),
        c[i].name@[0] != '/',
        text::is_trimmed(args),
        args.len() > 0,
    ensures
        ({
            let name = c[i].name@;
            let token = seq!['/'] + name;
            &&& custom_command(token, token, c) == Some(c[i].body@)
            &&& custom_command(token, token + seq![' '] + args, c) == Some(
                c[i].body@ + "\n\n# 命令参数\n"@ + args,
            )
        }),
{
    let name = c[i].name@;
    let token = seq!['/'] + name;
    let e = Seq::<char>::empty();
    slash_goes(name);
    let w = seq![name];
    pieces::words_read_back(w);
    pieces::joining_sets_separators_between(name, Seq::empty(), seq![' ']);
    assert(pieces::words(name) == w);
    custom_found(c, name, 0, i);
    let full = token + seq![' '] + args;
    let rest = name + seq![' '] + args;
    assert(full =~= seq!['/'] + rest);
    assert(rest[0] == name[0]);
    slash_goes(rest);
    assert(rest.take(name.len() as int) =~= name);
    assert(rest.skip(name.len() as int) =~= seq![' '] + args + e);
    text::white_space_around_goes(seq![' '], args, e);
    assert(name.take(name.len() as int) =~= name);
    assert(name.skip(name.len() as int) =~= e);
    text::white_space_around_goes(e, e, e);
}

proof fn custom_found(c: Seq<CustomCommand>, name: Seq<char>, j: int, i: int)
    requires
        0 <= j <= i < c.len(),
        forall|j: int| 0 <= j < i ==> (#[trigger] c[j]).name@ != name,
        c[i].name@ == name,
    ensures
        custom_index(c, name, j) == i,
    decreases i - j,
{
    if j < i {
        assert(c[j].name@ != name);
        custom_found(c, name, j + 1, i);
    }
}

/// A prompt that is called by its server and its name gets the arguments behind them.
pub proof fn prompts_are_called(
    p: Seq<(String, McpPromptInfo)>,
    i: int,
    raw: Seq<char>,
)
    requires
        0 <= i < p.len(),
        forall|j: int|
            0 <= j < i ==> (#[trigger] p[j]).0@ != p[i].0@ || p[j].1.name@ != p[i].1.name@,
        p[i].0@.len() > 0 && p[i].0@[0] != '/' && !text::has_char(p[i].0@, ':'),
        p[i].1.name@.len() > 0,
        text::is_trimmed(raw),
        missing(p[i].1.arguments@, given_in(raw), p[i].1.arguments@.len() as int).len() == 0,
    ensures
        ({
            let token = seq!['/'] + p[i].0@ + seq![':'] + p[i].1.name@;
            prompt_command(token, token + seq![' '] + raw, p) == PromptView::Ready {
                server: p[i].0@,
                prompt: p[i].1.name@,
                args: given_in(raw),
            }
        }),
{
    let server = p[i].0@;
    let name = p[i].1.name@;
    let t = server + seq![':'] + name;
    let token = seq!['/'] + server + seq![':'] + name;
    let e = Seq::<char>::empty();
    assert(token =~= seq!['/'] + t);
    assert(t[0] == server[0]);
    slash_goes(t);
    pieces::cuts_are_at_the_first_and_last(server, ':', name);
    prompt_found(p, server, name, 0, i);
    let rest = t + seq![' '] + raw;
    assert(token + seq![' '] + raw =~= seq!['/'] + rest);
    slash_goes(rest);
    assert(rest.take(t.len() as int) =~= t);
    assert(rest.skip(t.len() as int) =~= seq![' '] + raw + e);
    text::white_space_around_goes(seq![' '], raw, e);
}

proof fn prompt_found(p: Seq<(String, McpPromptInfo)>, server: Seq<char>, name: Seq<char>, j: int, i: int)
    requires
        0 <= j <= i < p.len(),
        forall|j: int| 0 <= j < i ==> (#[trigger] p[j]).0@ != server || p[j].1.name@ != name,
        p[i].0@ == server && p[i].1.name@ == name,
    ensures
        prompt_index(p, server, name, j) == i,
    decreases i - j,
{
    if j < i {
        assert(p[j].0@ != server || p[j].1.name@ != name);
        prompt_found(p, server, name, j + 1, i);
    }
}

} // verus!
