//! Showing Markdown on a terminal while it is still being written.
use vstd::prelude::*;

use crate::pieces;
use crate::pieces::split_of;
use crate::text;
use crate::text::{behind, cat, chars_of, copy_text, has_suffix, same, sub_text, text_of, trimmed, trimmed_start};

verus! {

// ── Inside a line ───────────────────────────────────────────────────────────

/// The first place from `i` on at which the character stands, or the length.
pub open spec fn char_from(s: Seq<char>, c: char, i: int) -> int
    decreases s.len() - i,
{
    if i >= s.len() {
        s.len() as int
    } else if s[i] == c {
        i
    } else {
        char_from(s, c, i + 1)
    }
}

/// The first place from `i` on at which the character stands twice, or the length.
pub open spec fn pair_from(s: Seq<char>, c: char, i: int) -> int
    decreases s.len() - i,
{
    if i + 1 >= s.len() {
        s.len() as int
    } else if s[i] == c && s[i + 1] == c {
        i
    } else {
        pair_from(s, c, i + 1)
    }
}

proof fn places_are_ahead(s: Seq<char>, c: char, i: int)
    requires
        0 <= i,
    ensures
        i <= char_from(s, c, i) <= s.len() || i > s.len(),
        i <= pair_from(s, c, i) <= s.len() || i > s.len(),
        pair_from(s, c, i) < s.len() ==> pair_from(s, c, i) + 1 < s.len(),
    decreases s.len() - i,
{
    if i < s.len() {
        places_are_ahead(s, c, i + 1);
    }
}

/// A text from `i` on, with `code` and **bold** parts in colour.
pub open spec fn marked(s: Seq<char>, i: int) -> Seq<char>
    decreases s.len() - i,
    via marked_ends
{
    if i < 0 || i >= s.len() {
        Seq::empty()
    } else if s[i] == '`' && char_from(s, '`', i + 1) < s.len() {
        let k = char_from(s, '`', i + 1);
        "\x1b[36m"@ + s.subrange(i + 1, k) + "\x1b[0m"@ + marked(s, k + 1)
    } else if i + 1 < s.len() && s[i] == '*' && s[i + 1] == '*' && pair_from(s, '*', i + 2)
        < s.len() {
        let k = pair_from(s, '*', i + 2);
        "\x1b[1m"@ + s.subrange(i + 2, k) + "\x1b[0m"@ + marked(s, k + 2)
    } else {
        seq![s[i]] + marked(s, i + 1)
    }
}

#[via_fn]
proof fn marked_ends(s: Seq<char>, i: int) {
    if 0 <= i < s.len() {
        places_are_ahead(s, '`', i + 1);
        places_are_ahead(s, '*', i + 2);
    }
}

fn char_from_of(v: &Vec<char>, c: char, from: usize) -> (k: usize)
    requires
        from <= v.len(),
    ensures
        k == char_from(v@, c, from as int),
        from <= k <= v.len(),
{
    let mut k: usize = from;
    while k < v.len()
        invariant
            from <= k <= v.len(),
            char_from(v@, c, from as int) == char_from(v@, c, k as int),
        decreases v.len() - k,
    {
        if v[k] == c {
            return k;
        }
        k = k + 1;
    }
    k
}

/// The first place from `from` on at which the character stands twice, or the length.
pub fn find_double(v: &Vec<char>, c: char, from: usize) -> (k: usize)
    requires
        from <= v.len(),
    ensures
        k == pair_from(v@, c, from as int),
        from <= k <= v.len(),
        k < v.len() ==> k + 1 < v.len(),
{
    let mut k: usize = from;
    while k < v.len() && v.len() - k > 1
        invariant
            from <= k <= v.len(),
            pair_from(v@, c, from as int) == pair_from(v@, c, k as int),
        decreases v.len() - k,
    {
        if v[k] == c && v[k + 1] == c {
            return k;
        }
        k = k + 1;
    }
    v.len()
}

/// A text with its `code` and **bold** parts in colour.
pub fn inline_marks(s: &str) -> (r: String)
    ensures
        r@ == marked(s@, 0),
{
    let v = chars_of(s);
    let mut out: Vec<char> = Vec::new();
    let mut i: usize = 0;
    let code_on = chars_of("\x1b[36m");
    let bold_on = chars_of("\x1b[1m");
    let off = chars_of("\x1b[0m");
    while i < v.len()
        invariant
            i <= v.len(),
            v@ == s@,
            code_on@ == "\x1b[36m"@,
            bold_on@ == "\x1b[1m"@,
            off@ == "\x1b[0m"@,
            out@ + marked(s@, i as int) == marked(s@, 0),
        decreases v.len() - i,
    {
        let ghost before = out@;
        if v[i] == '`' {
            let k: usize = char_from_of(&v, '`', i + 1);
            if k < v.len() {
                append_chars(&mut out, &code_on);
                append_part(&mut out, &v, i + 1, k);
                append_chars(&mut out, &off);
                assert(out@ + marked(s@, k + 1) =~= before + marked(s@, i as int));
                i = k + 1;
                continue;
            }
        }
        if v.len() - i > 1 && v[i] == '*' && v[i + 1] == '*' {
            let k: usize = find_double(&v, '*', i + 2);
            if k < v.len() {
                append_chars(&mut out, &bold_on);
                append_part(&mut out, &v, i + 2, k);
                append_chars(&mut out, &off);
                assert(out@ + marked(s@, k + 2) =~= before + marked(s@, i as int));
                i = k + 2;
                continue;
            }
        }
        out.push(v[i]);
        assert(out@ + marked(s@, i + 1) =~= before + marked(s@, i as int));
        i = i + 1;
    }
    assert(marked(s@, i as int) =~= Seq::empty());
    assert(out@ + marked(s@, i as int) =~= out@);
    text_of(&out)
}

fn append_chars(out: &mut Vec<char>, more: &Vec<char>)
    ensures
        final(out)@ == old(out)@ + more@,
{
    append_part(out, more, 0, more.len());
    assert(more@.subrange(0, more@.len() as int) =~= more@);
}

fn append_part(out: &mut Vec<char>, v: &Vec<char>, from: usize, to: usize)
    requires
        from <= to <= v.len(),
    ensures
        final(out)@ == old(out)@ + v@.subrange(from as int, to as int),
{
    let mut i: usize = from;
    assert(out@ =~= old(out)@ + v@.subrange(from as int, from as int));
    while i < to
        invariant
            from <= i <= to <= v.len(),
            out@ == old(out)@ + v@.subrange(from as int, i as int),
        decreases to - i,
    {
        out.push(v[i]);
        i = i + 1;
        assert(out@ =~= old(out)@ + v@.subrange(from as int, i as int));
    }
}

// ── Kinds of lines ──────────────────────────────────────────────────────────

pub open spec fn all_are(s: Seq<char>, c: char) -> bool {
    forall|i: int| 0 <= i < s.len() ==> #[trigger] s[i] == c
}

fn all_are_of(v: &Vec<char>, c: char) -> (r: bool)
    ensures
        r == all_are(v@, c),
{
    let mut i: usize = 0;
    while i < v.len()
        invariant
            i <= v.len(),
            forall|j: int| 0 <= j < i ==> #[trigger] v@[j] == c,
        decreases v.len() - i,
    {
        if v[i] != c {
            return false;
        }
        i = i + 1;
    }
    true
}

/// A line of three or more dashes, underscores or stars.
pub open spec fn is_rule(line: Seq<char>) -> bool {
    let t = text::trim(line);
    t.len() >= 3 && (all_are(t, '-') || all_are(t, '_') || all_are(t, '*'))
}

/// How many of the characters at the front satisfy a condition.
pub open spec fn run_len(s: Seq<char>, p: spec_fn(char) -> bool, i: int) -> int
    decreases s.len() - i,
{
    if i >= s.len() || !p(s[i]) {
        i
    } else {
        run_len(s, p, i + 1)
    }
}

pub open spec fn is(c: char) -> spec_fn(char) -> bool {
    |d: char| d == c
}

pub open spec fn digit() -> spec_fn(char) -> bool {
    |d: char| text::is_digit(d)
}

fn run_of(v: &Vec<char>, c: char) -> (n: usize)
    ensures
        n == run_len(v@, is(c), 0),
        n <= v.len(),
{
    let mut n: usize = 0;
    while n < v.len() && v[n] == c
        invariant
            n <= v.len(),
            run_len(v@, is(c), 0) == run_len(v@, is(c), n as int),
        decreases v.len() - n,
    {
        n = n + 1;
    }
    n
}

fn digits_of(v: &Vec<char>) -> (n: usize)
    ensures
        n == run_len(v@, digit(), 0),
        n <= v.len(),
{
    let mut n: usize = 0;
    while n < v.len() && v[n] >= '0' && v[n] <= '9'
        invariant
            n <= v.len(),
            run_len(v@, digit(), 0) == run_len(v@, digit(), n as int),
        decreases v.len() - n,
    {
        n = n + 1;
    }
    n
}

/// The text of a heading: what stands behind one to six `#` and a blank.
pub open spec fn heading(line: Seq<char>) -> Option<Seq<char>> {
    let n = run_len(line, is('#'), 0);
    if 1 <= n <= 6 && n < line.len() && line[n] == ' ' {
        Some(line.skip(n + 1))
    } else {
        None
    }
}

pub fn strip_heading(line: &str) -> (r: Option<String>)
    ensures
        crate::session::opt_text(r) == heading(line@),
{
    let v = chars_of(line);
    let n: usize = run_of(&v, '#');
    if n >= 1 && n <= 6 && n < v.len() && v[n] == ' ' {
        assert(v@.subrange(n + 1, v@.len() as int) =~= line@.skip(n + 1));
        Some(sub_text(&v, n + 1, v.len()))
    } else {
        None
    }
}

/// The text of an entry of a numbered list.
pub open spec fn numbered(line: Seq<char>) -> Option<Seq<char>> {
    let n = run_len(line, digit(), 0);
    if n > 0 && n + 1 < line.len() && line[n] == '.' && line[n + 1] == ' ' {
        Some(line.skip(n + 2))
    } else {
        None
    }
}

pub fn strip_ordered(line: &str) -> (r: Option<String>)
    ensures
        crate::session::opt_text(r) == numbered(line@),
{
    let v = chars_of(line);
    let n: usize = digits_of(&v);
    if n > 0 && v.len() - n > 1 && v[n] == '.' && v[n + 1] == ' ' {
        assert(v@.subrange(n + 2, v@.len() as int) =~= line@.skip(n + 2));
        Some(sub_text(&v, n + 2, v.len()))
    } else {
        None
    }
}

/// The text of an entry of a list with marks.
pub open spec fn bulleted(line: Seq<char>) -> Option<Seq<char>> {
    match text::after(line, "- "@) {
        Some(r) => Some(r),
        None => match text::after(line, "* "@) {
            Some(r) => Some(r),
            None => text::after(line, "+ "@),
        },
    }
}

/// How a line is shown.
pub open spec fn shown_line(line: Seq<char>, color: bool) -> Seq<char> {
    if !color {
        line
    } else if is_rule(line) {
        "\x1b[2m━━━━━━━━━━━━━━━━━━━━━━━━━━━━━━━━━━\x1b[0m"@
    } else if heading(line) is Some {
        "\x1b[1;36m"@ + marked(heading(line)->0, 0) + "\x1b[0m"@
    } else if text::after(line, "> "@) is Some {
        "\x1b[2m│ "@ + marked(text::after(line, "> "@)->0, 0) + "\x1b[0m"@
    } else if bulleted(line) is Some {
        "\x1b[1;33m•\x1b[0m "@ + marked(bulleted(line)->0, 0)
    } else if numbered(line) is Some {
        "\x1b[1;33m▶\x1b[0m "@ + marked(numbered(line)->0, 0)
    } else {
        marked(line, 0)
    }
}

fn bulleted_of(line: &str) -> (r: Option<String>)
    ensures
        crate::session::opt_text(r) == bulleted(line@),
{
    match behind(line, "- ") {
        Some(r) => Some(r),
        None => match behind(line, "* ") {
            Some(r) => Some(r),
            None => behind(line, "+ "),
        },
    }
}

pub fn render_inline(line: &str, color: bool) -> (r: String)
    ensures
        r@ == shown_line(line@, color),
{
    if !color {
        return copy_text(line);
    }
    let t = chars_of(&trimmed(line));
    if t.len() >= 3 && (all_are_of(&t, '-') || all_are_of(&t, '_') || all_are_of(&t, '*')) {
        return copy_text("\x1b[2m━━━━━━━━━━━━━━━━━━━━━━━━━━━━━━━━━━\x1b[0m");
    }
    if let Some(rest) = strip_heading(line) {
        return cat(&cat("\x1b[1;36m", &inline_marks(&rest)), "\x1b[0m");
    }
    if let Some(rest) = behind(line, "> ") {
        return cat(&cat("\x1b[2m│ ", &inline_marks(&rest)), "\x1b[0m");
    }
    if let Some(rest) = bulleted_of(line) {
        return cat("\x1b[1;33m•\x1b[0m ", &inline_marks(&rest));
    }
    if let Some(rest) = strip_ordered(line) {
        return cat("\x1b[1;33m▶\x1b[0m ", &inline_marks(&rest));
    }
    inline_marks(line)
}

// ── Blocks of code ──────────────────────────────────────────────────────────

/// The character of a fence that opens a block of code, and the language behind it.
pub open spec fn opened(line: Seq<char>) -> Option<(char, Seq<char>)> {
    let t = text::trim_start(line);
    if t.len() == 0 || (t[0] != '`' && t[0] != '~') {
        None
    } else {
        let n = run_len(t, is(t[0]), 0);
        if n >= 3 {
            Some((t[0], text::trim(t.skip(n))))
        } else {
            None
        }
    }
}

pub fn open_fence(line: &str) -> (r: Option<(char, String)>)
    ensures
        match r {
            Some((c, lang)) => opened(line@) == Some((c, lang@)) && (c == '`' || c == '~'),
            None => opened(line@) is None,
        },
{
    let t = chars_of(&trimmed_start(line));
    if t.len() == 0 || (t[0] != '`' && t[0] != '~') {
        return None;
    }
    let c: char = t[0];
    let n: usize = run_of(&t, c);
    if n >= 3 {
        assert(t@.subrange(n as int, t@.len() as int) =~= t@.skip(n as int));
        Some((c, trimmed(&sub_text(&t, n, t.len()))))
    } else {
        None
    }
}

/// A line that closes a block of code.
pub open spec fn closes(line: Seq<char>, fence: char) -> bool {
    let t = text::trim(line);
    t.len() >= 3 && all_are(t, fence)
}

pub fn is_closing_fence(line: &str, fence_char: char) -> (r: bool)
    ensures
        r == closes(line@, fence_char),
{
    let t = chars_of(&trimmed(line));
    t.len() >= 3 && all_are_of(&t, fence_char)
}

/// A block of code between fences.
pub open spec fn plain_block(code: Seq<char>, lang: Seq<char>) -> Seq<char> {
    "```"@ + lang + "\n"@ + code + (if text::ends_with(code, "\n"@) {
        ""@
    } else {
        "\n"@
    }) + "```"@
}

pub fn fenced_plain(code: &str, lang: &str) -> (r: String)
    ensures
        r@ == plain_block(code@, lang@),
{
    let s = cat(&cat("```", lang), "\n");
    let s = cat(&s, code);
    let end: &str = if has_suffix(code, "\n") {
        ""
    } else {
        "\n"
    };
    cat(&cat(&s, end), "```")
}

/// The file extension that goes with a language.
pub open spec fn extension(lang: Seq<char>) -> Seq<char> {
    if lang == "rust"@ || lang == "rs"@ {
        "rs"@
    } else if lang == "python"@ || lang == "py"@ {
        "py"@
    } else if lang == "javascript"@ || lang == "js"@ {
        "js"@
    } else if lang == "typescript"@ || lang == "ts"@ {
        "ts"@
    } else if lang == "go"@ || lang == "golang"@ {
        "go"@
    } else if lang == "cpp"@ || lang == "c++"@ {
        "cpp"@
    } else if lang == "sh"@ || lang == "bash"@ || lang == "shell"@ || lang == "zsh"@ {
        "sh"@
    } else if lang == "yaml"@ || lang == "yml"@ {
        "yaml"@
    } else if lang == "ruby"@ || lang == "rb"@ {
        "rb"@
    } else if lang == "kotlin"@ || lang == "kt"@ {
        "kt"@
    } else {
        lang
    }
}

pub fn lang_to_ext(lang: &str) -> (r: String)
    ensures
        r@ == extension(lang@),
{
    let e: &str = if same(lang, "rust") || same(lang, "rs") {
        "rs"
    } else if same(lang, "python") || same(lang, "py") {
        "py"
    } else if same(lang, "javascript") || same(lang, "js") {
        "js"
    } else if same(lang, "typescript") || same(lang, "ts") {
        "ts"
    } else if same(lang, "go") || same(lang, "golang") {
        "go"
    } else if same(lang, "cpp") || same(lang, "c++") {
        "cpp"
    } else if same(lang, "sh") || same(lang, "bash") || same(lang, "shell") || same(lang, "zsh") {
        "sh"
    } else if same(lang, "yaml") || same(lang, "yml") {
        "yaml"
    } else if same(lang, "ruby") || same(lang, "rb") {
        "rb"
    } else if same(lang, "kotlin") || same(lang, "kt") {
        "kt"
    } else {
        lang
    };
    copy_text(e)
}

pub open spec fn framed_lines(lines: Seq<Seq<char>>, n: int) -> Seq<char>
    decreases n,
{
    if n <= 0 {
        Seq::empty()
    } else {
        framed_lines(lines, n - 1) + "\x1b[2m│\x1b[0m "@ + lines[n - 1] + "\n"@
    }
}

/// A block of code in a frame, as it was coloured.
pub open spec fn framed(highlighted: Seq<char>, lang: Seq<char>) -> Seq<char> {
    let lines = pieces::split(highlighted, '\n');
    let label = if lang.len() == 0 {
        "code"@
    } else {
        lang
    };
    "\x1b[2m┌─ "@ + label + " ─────────────────\x1b[0m\n"@ + framed_lines(
        lines,
        lines.len() as int,
    ) + "\x1b[2m└──────────────────────────\x1b[0m"@
}

/// A closed block of code: in a frame where it could be coloured, between fences where not.
pub open spec fn shown_block(
    code: Seq<char>,
    lang: Seq<char>,
    highlighted: Option<Seq<char>>,
) -> Seq<char> {
    match highlighted {
        Some(h) => framed(h, lang),
        None => plain_block(code, lang),
    }
}

pub fn render_code_block(code: &str, lang: &str, highlighted: &Option<String>) -> (r: String)
    ensures
        r@ == shown_block(code@, lang@, crate::session::opt_text(*highlighted)),
{
    let h = match highlighted {
        Some(h) => h,
        None => {
            return fenced_plain(code, lang);
        },
    };
    let label: &str = if lang.is_empty() {
        "code"
    } else {
        lang
    };
    let head = cat(&cat("\x1b[2m┌─ ", label), " ─────────────────\x1b[0m\n");
    let lines = split_of(h, '\n');
    let ghost lv = pieces::split(h@, '\n');
    assert(lv.len() == lines.len());
    let mut body = String::new();
    let mut i: usize = 0;
    while i < lines.len()
        invariant
            i <= lines.len(),
            lv == text::texts(lines@),
            body@ == framed_lines(lv, i as int),
        decreases lines.len() - i,
    {
        assert(lv[i as int] == lines@[i as int]@);
        body = cat(&cat(&cat(&body, "\x1b[2m│\x1b[0m "), &lines[i]), "\n");
        i = i + 1;
    }
    cat(&cat(&head, &body), "\x1b[2m└──────────────────────────\x1b[0m")
}

/// What a block of code is coloured from: its text without the line ends behind it.
pub open spec fn without_ends(s: Seq<char>) -> Seq<char>
    decreases s.len(),
{
    if s.len() > 0 && s.last() == '\n' {
        without_ends(s.drop_last())
    } else {
        s
    }
}

pub fn code_to_highlight(code: &str) -> (r: String)
    ensures
        r@ == without_ends(code@),
{
    let v = chars_of(code);
    let mut n: usize = v.len();
    assert(code@.take(n as int) =~= code@);
    while n > 0 && v[n - 1] == '\n'
        invariant
            n <= v.len(),
            v@ == code@,
            without_ends(code@) == without_ends(code@.take(n as int)),
        decreases n,
    {
        assert(code@.take(n as int).drop_last() =~= code@.take(n - 1));
        n = n - 1;
    }
    assert(v@.subrange(0, n as int) =~= code@.take(n as int));
    sub_text(&v, 0, n)
}

// ── The stream ──────────────────────────────────────────────────────────────

/// Something to print.
#[derive(Debug)]
pub enum Piece<S = String> {
    Text(S),
    /// A block of code that is to be coloured, and then printed with a line end behind it.
    Code { code: S, lang: S },
}

impl Piece {
    pub open spec fn view(&self) -> Piece<Seq<char>> {
        match self {
            Piece::Text(t) => Piece::Text(t@),
            Piece::Code { code, lang } => Piece::Code { code: code@, lang: lang@ },
        }
    }
}

pub open spec fn piece_views(v: Seq<Piece>) -> Seq<Piece<Seq<char>>> {
    Seq::new(v.len(), |i: int| v[i].view())
}

/// Shows Markdown line by line; a block of code is held back until it is closed.
#[derive(Debug)]
pub struct MarkdownRenderer {
    pub line_buf: String,
    pub in_fenced: bool,
    pub fence_char: char,
    pub lang: String,
    pub code_buf: String,
    /// The block of code as it came, from its opening fence on.
    pub raw_buf: String,
    /// Whether colours are used.
    pub color: bool,
}

pub struct MarkdownState {
    pub line: Seq<char>,
    pub in_fenced: bool,
    pub fence: char,
    pub lang: Seq<char>,
    pub code: Seq<char>,
    pub raw: Seq<char>,
    pub color: bool,
}

impl View for MarkdownRenderer {
    type V = MarkdownState;

    open spec fn view(&self) -> MarkdownState {
        MarkdownState {
            line: self.line_buf@,
            in_fenced: self.in_fenced,
            fence: self.fence_char,
            lang: self.lang@,
            code: self.code_buf@,
            raw: self.raw_buf@,
            color: self.color,
        }
    }
}

/// What one line does: the state behind it and what is printed.
pub open spec fn line_step(s: MarkdownState, line: Seq<char>) -> (
    MarkdownState,
    Seq<Piece<Seq<char>>>,
) {
    if s.in_fenced {
        if closes(line, s.fence) {
            (
                MarkdownState {
                    in_fenced: false,
                    lang: Seq::empty(),
                    code: Seq::empty(),
                    raw: Seq::empty(),
                    ..s
                },
                if s.color {
                    seq![Piece::Code { code: s.code, lang: s.lang }]
                } else {
                    seq![Piece::Text(s.raw + line + "\n"@)]
                },
            )
        } else {
            (
                MarkdownState {
                    code: s.code + line + "\n"@,
                    raw: s.raw + line + "\n"@,
                    ..s
                },
                Seq::empty(),
            )
        }
    } else {
        match opened(line) {
            Some((c, lang)) => (
                MarkdownState {
                    in_fenced: true,
                    fence: c,
                    lang,
                    code: Seq::empty(),
                    raw: line + "\n"@,
                    ..s
                },
                Seq::empty(),
            ),
            None => (s, seq![Piece::Text(shown_line(line, s.color) + "\n"@)]),
        }
    }
}

/// What the lines do, one behind the other.
pub open spec fn lines_step(s: MarkdownState, lines: Seq<Seq<char>>) -> (
    MarkdownState,
    Seq<Piece<Seq<char>>>,
)
    decreases lines.len(),
{
    if lines.len() == 0 {
        (s, Seq::empty())
    } else {
        let (before, out) = lines_step(s, lines.drop_last());
        let (after, more) = line_step(before, lines.last());
        (after, out + more)
    }
}

/// What a piece of text does: its whole lines are shown, the rest waits.
pub open spec fn fed(s: MarkdownState, delta: Seq<char>) -> (
    MarkdownState,
    Seq<Piece<Seq<char>>>,
) {
    let parts = pieces::split(s.line + delta, '\n');
    let (after, out) = lines_step(
        MarkdownState { line: Seq::empty(), ..s },
        parts.drop_last(),
    );
    (MarkdownState { line: parts.last(), ..after }, out)
}

/// The line that the text ends with, where it has no end of its own.
pub open spec fn last_line(line: Seq<char>) -> Seq<char> {
    if line.len() == 0 {
        line
    } else {
        line + "\n"@
    }
}

/// What the end of the text does: what still waits is shown, a block of code that was not
/// closed as it came.
pub open spec fn finished(s: MarkdownState) -> (MarkdownState, Seq<char>) {
    if s.in_fenced {
        (
            MarkdownState {
                line: Seq::empty(),
                in_fenced: false,
                lang: Seq::empty(),
                code: Seq::empty(),
                raw: Seq::empty(),
                ..s
            },
            s.raw + last_line(s.line),
        )
    } else if s.line.len() == 0 {
        (s, Seq::empty())
    } else {
        (MarkdownState { line: Seq::empty(), ..s }, shown_line(s.line, s.color) + "\n"@)
    }
}

impl MarkdownRenderer {
    pub fn new(color: bool) -> (r: MarkdownRenderer)
        ensures
            r@ == (MarkdownState {
                line: Seq::empty(),
                in_fenced: false,
                fence: '`',
                lang: Seq::empty(),
                code: Seq::empty(),
                raw: Seq::empty(),
                color,
            }),
    {
        MarkdownRenderer {
            line_buf: String::new(),
            in_fenced: false,
            fence_char: '`',
            lang: String::new(),
            code_buf: String::new(),
            raw_buf: String::new(),
            color,
        }
    }

    /// Takes one whole line, and returns what is to be printed.
    pub fn render_line(&mut self, line: &str) -> (r: Option<Piece>)
        ensures
            final(self)@ == line_step(old(self)@, line@).0,
            line_step(old(self)@, line@).1 == (match r {
                Some(p) => seq![p.view()],
                None => Seq::empty(),
            }),
    {
        if self.in_fenced {
            if is_closing_fence(line, self.fence_char) {
                let code = copy_text(&self.code_buf);
                let lang = copy_text(&self.lang);
                let raw = cat(&cat(&self.raw_buf, line), "\n");
                self.code_buf = String::new();
                self.raw_buf = String::new();
                self.lang = String::new();
                self.in_fenced = false;
                if self.color {
                    Some(Piece::Code { code, lang })
                } else {
                    Some(Piece::Text(raw))
                }
            } else {
                self.code_buf = cat(&cat(&self.code_buf, line), "\n");
                self.raw_buf = cat(&cat(&self.raw_buf, line), "\n");
                None
            }
        } else {
            match open_fence(line) {
                Some((c, lang)) => {
                    self.in_fenced = true;
                    self.fence_char = c;
                    self.lang = lang;
                    self.code_buf = String::new();
                    self.raw_buf = cat(line, "\n");
                    None
                },
                None => Some(Piece::Text(cat(&render_inline(line, self.color), "\n"))),
            }
        }
    }

    /// Takes a piece of text, and returns what is to be printed at once.
    pub fn push(&mut self, delta: &str) -> (r: Vec<Piece>)
        ensures
            final(self)@ == fed(old(self)@, delta@).0,
            piece_views(r@) == fed(old(self)@, delta@).1,
    {
        let parts = split_of(&cat(&self.line_buf, delta), '\n');
        let ghost pv = text::texts(parts@);
        proof {
            pieces::lemma_split_nonempty(Seq::empty(), old(self)@.line + delta@, '\n');
        }
        assert(pv.len() == parts.len());
        self.line_buf = String::new();
        let ghost start = MarkdownState { line: Seq::empty(), ..old(self)@ };
        let mut out: Vec<Piece> = Vec::new();
        let mut i: usize = 0;
        assert(pv.take(0) =~= Seq::empty());
        assert(piece_views(out@) =~= lines_step(start, pv.take(0)).1);
        while i < parts.len() - 1
            invariant
                i < parts.len(),
                pv == text::texts(parts@),
                self@ == lines_step(start, pv.take(i as int)).0,
                piece_views(out@) == lines_step(start, pv.take(i as int)).1,
            decreases parts.len() - i,
        {
            assert(pv[i as int] == parts@[i as int]@);
            assert(pv.take(i + 1).drop_last() =~= pv.take(i as int));
            let ghost before = piece_views(out@);
            let ghost added = line_step(self@, parts@[i as int]@).1;
            if let Some(p) = self.render_line(&parts[i]) {
                out.push(p);
                assert(piece_views(out@) =~= before.push(p.view()));
            }
            assert(piece_views(out@) =~= before + added);
            i = i + 1;
        }
        assert(pv.take(i as int) =~= pv.drop_last());
        assert(pv.last() == parts@[parts.len() - 1]@);
        self.line_buf = copy_text(&parts[parts.len() - 1]);
        out
    }

    /// Ends the text, and returns what is still to be printed.
    pub fn finish(&mut self) -> (r: String)
        ensures
            final(self)@ == finished(old(self)@).0,
            r@ == finished(old(self)@).1,
    {
        if self.in_fenced {
            let raw = copy_text(&self.raw_buf);
            let last = copy_text(&self.line_buf);
            self.code_buf = String::new();
            self.raw_buf = String::new();
            self.line_buf = String::new();
            self.lang = String::new();
            self.in_fenced = false;
            if last.as_str().is_empty() {
                assert(raw@ + last@ =~= raw@);
                raw
            } else {
                let r = cat(&cat(&raw, &last), "\n");
                assert(r@ =~= raw@ + (last@ + "\n"@));
                r
            }
        } else if self.line_buf.as_str().is_empty() {
            String::new()
        } else {
            let last = copy_text(&self.line_buf);
            self.line_buf = String::new();
            cat(&render_inline(&last, self.color), "\n")
        }
    }
}

// ── What holds of every stream ──────────────────────────────────────────────

proof fn split_of_sum(cur: Seq<char>, s: Seq<char>, t: Seq<char>, sep: char)
    ensures
        ({
            let a = pieces::split_acc(cur, s, sep);
            pieces::split_acc(cur, s + t, sep) == a.drop_last() + pieces::split_acc(
                a.last(),
                t,
                sep,
            )
        }),
    decreases s.len(),
{
    let a = pieces::split_acc(cur, s, sep);
    if s.len() == 0 {
        assert(s + t =~= t);
        assert(a =~= seq![cur]);
        assert(a.drop_last() + pieces::split_acc(a.last(), t, sep) =~= pieces::split_acc(
            cur,
            t,
            sep,
        ));
    } else {
        assert((s + t).drop_first() =~= s.drop_first() + t);
        assert((s + t)[0] == s[0]);
        if s[0] == sep {
            let b = pieces::split_acc(Seq::empty(), s.drop_first(), sep);
            pieces::lemma_split_nonempty(Seq::empty(), s.drop_first(), sep);
            split_of_sum(Seq::empty(), s.drop_first(), t, sep);
            assert(a =~= seq![cur] + b);
            assert(a.last() == b.last());
            assert(a.drop_last() =~= seq![cur] + b.drop_last());
            assert(pieces::split_acc(cur, s + t, sep) =~= a.drop_last() + pieces::split_acc(
                a.last(),
                t,
                sep,
            ));
        } else {
            split_of_sum(cur.push(s[0]), s.drop_first(), t, sep);
        }
    }
}

proof fn lines_step_of_sum(s: MarkdownState, p: Seq<Seq<char>>, q: Seq<Seq<char>>)
    ensures
        ({
            let (mid, a) = lines_step(s, p);
            let (end, b) = lines_step(mid, q);
            lines_step(s, p + q) == (end, a + b)
        }),
    decreases q.len(),
{
    let (mid, a) = lines_step(s, p);
    if q.len() == 0 {
        assert(p + q =~= p);
        assert(a + Seq::<Piece<Seq<char>>>::empty() =~= a);
    } else {
        lines_step_of_sum(s, p, q.drop_last());
        assert((p + q).drop_last() =~= p + q.drop_last());
        assert((p + q).last() == q.last());
        let (end0, b0) = lines_step(mid, q.drop_last());
        let more = line_step(end0, q.last()).1;
        assert((a + b0) + more =~= a + (b0 + more));
    }
}

proof fn held_text_has_no_end(cur: Seq<char>, s: Seq<char>, t: Seq<char>, sep: char)
    requires
        forall|i: int| 0 <= i < cur.len() ==> #[trigger] cur[i] != sep,
    ensures
        pieces::split_acc(cur, t, sep) == pieces::split(cur + t, sep),
        ({
            let l = pieces::split_acc(cur, s, sep).last();
            forall|i: int| 0 <= i < l.len() ==> #[trigger] l[i] != sep
        }),
    decreases s.len(),
{
    unsplit(Seq::empty(), cur, t, sep);
    assert(Seq::<char>::empty() + cur =~= cur);
    if s.len() > 0 {
        if s[0] == sep {
            pieces::lemma_split_nonempty(Seq::empty(), s.drop_first(), sep);
            held_text_has_no_end(Seq::empty(), s.drop_first(), t, sep);
            let rest = pieces::split_acc(Seq::empty(), s.drop_first(), sep);
            assert(pieces::split_acc(cur, s, sep).last() == rest.last());
        } else {
            held_text_has_no_end(cur.push(s[0]), s.drop_first(), t, sep);
            assert(pieces::split_acc(cur, s, sep) == pieces::split_acc(
                cur.push(s[0]),
                s.drop_first(),
                sep,
            ));
        }
    } else {
        assert(pieces::split_acc(cur, s, sep).last() == cur);
    }
}

proof fn unsplit(done: Seq<char>, cur: Seq<char>, t: Seq<char>, sep: char)
    requires
        forall|i: int| 0 <= i < cur.len() ==> #[trigger] cur[i] != sep,
    ensures
        pieces::split_acc(done + cur, t, sep) == pieces::split_acc(done, cur + t, sep),
    decreases cur.len(),
{
    if cur.len() == 0 {
        assert(done + cur =~= done);
        assert(cur + t =~= t);
    } else {
        assert((cur + t)[0] == cur[0]);
        assert((cur + t).drop_first() =~= cur.drop_first() + t);
        unsplit(done.push(cur[0]), cur.drop_first(), t, sep);
        assert(done + cur =~= done.push(cur[0]) + cur.drop_first());
    }
}

proof fn line_does_not_matter(s: MarkdownState, lines: Seq<Seq<char>>, l: Seq<char>)
    ensures
        lines_step(MarkdownState { line: l, ..s }, lines) == (
            MarkdownState { line: l, ..lines_step(s, lines).0 },
            lines_step(s, lines).1,
        ),
    decreases lines.len(),
{
    if lines.len() > 0 {
        line_does_not_matter(s, lines.drop_last(), l);
    }
}

/// It does not matter how a text is cut up: two pieces one behind the other are shown as
/// their sum is.
pub proof fn cuts_do_not_matter(s: MarkdownState, a: Seq<char>, b: Seq<char>)
    ensures
        ({
            let (mid, x) = fed(s, a);
            let (end, y) = fed(mid, b);
            fed(s, a + b) == (end, x + y)
        }),
{
    let sep = '\n';
    let whole = s.line + a;
    let p = pieces::split(whole, sep);
    let held = p.last();
    pieces::lemma_split_nonempty(Seq::empty(), whole, sep);
    split_of_sum(Seq::empty(), whole, b, sep);
    held_text_has_no_end(Seq::empty(), whole, b, sep);
    held_text_has_no_end(held, Seq::empty(), b, sep);
    let q = pieces::split(held + b, sep);
    pieces::lemma_split_nonempty(Seq::empty(), held + b, sep);
    assert(s.line + (a + b) =~= whole + b);
    let all = pieces::split(s.line + (a + b), sep);
    assert(all == p.drop_last() + q);
    assert(all.drop_last() =~= p.drop_last() + q.drop_last());
    assert(all.last() == q.last());
    let s0 = MarkdownState { line: Seq::empty(), ..s };
    lines_step_of_sum(s0, p.drop_last(), q.drop_last());
    let m0 = lines_step(s0, p.drop_last()).0;
    let mid = fed(s, a).0;
    line_does_not_matter(s0, p.drop_last(), Seq::empty());
    assert(MarkdownState { line: Seq::<char>::empty(), ..mid } == m0);
}

/// What pieces of text print, one behind the other.
pub open spec fn printed(p: Seq<Piece<Seq<char>>>) -> Seq<char>
    decreases p.len(),
{
    if p.len() == 0 {
        Seq::empty()
    } else {
        printed(p.drop_last()) + (match p.last() {
            Piece::Text(t) => t,
            Piece::Code { code, .. } => code,
        })
    }
}

/// Nothing of a block of code is held outside of one.
pub open spec fn holds_only_blocks(s: MarkdownState) -> bool {
    !s.in_fenced ==> s.raw.len() == 0
}

/// The lines as they stand in a text, each with its end.
pub open spec fn with_ends(lines: Seq<Seq<char>>) -> Seq<char>
    decreases lines.len(),
{
    if lines.len() == 0 {
        Seq::empty()
    } else {
        with_ends(lines.drop_last()) + lines.last() + "\n"@
    }
}

proof fn lemma_with_ends(cur: Seq<char>, s: Seq<char>)
    ensures
        ({
            let p = pieces::split_acc(cur, s, '\n');
            p.len() > 0 && with_ends(p.drop_last()) + p.last() == cur + s
        }),
    decreases s.len(),
{
    reveal_strlit("\n");
    let p = pieces::split_acc(cur, s, '\n');
    if s.len() == 0 {
        assert(p =~= seq![cur]);
        assert(p.drop_last() =~= Seq::empty());
        assert(cur + s =~= cur);
        assert(with_ends(p.drop_last()) + p.last() =~= cur + s);
    } else if s[0] == '\n' {
        let q = pieces::split_acc(Seq::empty(), s.drop_first(), '\n');
        lemma_with_ends(Seq::empty(), s.drop_first());
        assert(p =~= seq![cur] + q);
        assert(p.drop_last() =~= seq![cur] + q.drop_last());
        lemma_with_ends_front(cur, q.drop_last());
        assert(cur + s =~= cur + "\n"@ + (Seq::<char>::empty() + s.drop_first()));
        assert(with_ends(p.drop_last()) + p.last() =~= cur + "\n"@ + (with_ends(q.drop_last())
            + q.last()));
    } else {
        lemma_with_ends(cur.push(s[0]), s.drop_first());
        assert(cur.push(s[0]) + s.drop_first() =~= cur + s);
    }
}

proof fn lemma_with_ends_front(l: Seq<char>, q: Seq<Seq<char>>)
    ensures
        with_ends(seq![l] + q) == l + "\n"@ + with_ends(q),
    decreases q.len(),
{
    if q.len() == 0 {
        assert((seq![l] + q).drop_last() =~= Seq::<Seq<char>>::empty());
        assert(with_ends(Seq::<Seq<char>>::empty()) =~= Seq::<char>::empty());
        assert((seq![l] + q).last() == l);
        assert(with_ends(seq![l] + q) =~= l + "\n"@ + with_ends(q));
    } else {
        assert((seq![l] + q).drop_last() =~= seq![l] + q.drop_last());
        lemma_with_ends_front(l, q.drop_last());
        assert((seq![l] + q).last() == q.last());
        assert(with_ends(seq![l] + q) =~= l + "\n"@ + with_ends(q));
    }
}

proof fn lemma_lines_pass(s: MarkdownState, lines: Seq<Seq<char>>)
    requires
        !s.color,
        holds_only_blocks(s),
    ensures
        ({
            let (after, out) = lines_step(s, lines);
            &&& !after.color
            &&& holds_only_blocks(after)
            &&& after.line == s.line
            &&& printed(out) + after.raw == s.raw + with_ends(lines)
        }),
    decreases lines.len(),
{
    if lines.len() == 0 {
        assert(printed(Seq::<Piece<Seq<char>>>::empty()) + s.raw =~= s.raw + with_ends(lines));
    } else {
        lemma_lines_pass(s, lines.drop_last());
        let (before, out) = lines_step(s, lines.drop_last());
        let line = lines.last();
        let (after, more) = line_step(before, line);
        if more.len() == 0 {
            assert(out + more =~= out);
        } else {
            assert((out + more).drop_last() =~= out);
            assert((out + more).last() == more[0]);
        }
        assert(printed(out + more) + after.raw =~= printed(out) + before.raw + line + "\n"@);
        assert(printed(out + more) + after.raw =~= s.raw + with_ends(lines));
    }
}

/// Without colours everything passes as it was written: what is printed and what still
/// waits is, put together, what waited before and the new text.
pub proof fn plain_text_passes(s: MarkdownState, delta: Seq<char>)
    requires
        !s.color,
        holds_only_blocks(s),
    ensures
        ({
            let (after, out) = fed(s, delta);
            &&& !after.color
            &&& holds_only_blocks(after)
            &&& printed(out) + (after.raw + after.line) == s.raw + s.line + delta
        }),
{
    let parts = pieces::split(s.line + delta, '\n');
    lemma_with_ends(Seq::empty(), s.line + delta);
    let s0 = MarkdownState { line: Seq::empty(), ..s };
    lemma_lines_pass(s0, parts.drop_last());
    let (mid, out) = lines_step(s0, parts.drop_last());
    assert(printed(out) + (mid.raw + parts.last()) =~= (printed(out) + mid.raw) + parts.last());
    assert(Seq::<char>::empty() + (s.line + delta) =~= s.line + delta);
    assert((s.raw + with_ends(parts.drop_last())) + parts.last() =~= s.raw + (with_ends(
        parts.drop_last(),
    ) + parts.last()));
    assert(s.raw + (s.line + delta) =~= s.raw + s.line + delta);
}

/// At the end of the text what still waits is printed as it came, with a line end where the
/// last line has none: always for a block of code, and without colours for every line.
pub proof fn waiting_text_passes(s: MarkdownState)
    requires
        s.in_fenced || !s.color,
        holds_only_blocks(s),
    ensures
        finished(s).1 == s.raw + last_line(s.line),
{
    assert(s.raw.len() == 0 ==> s.raw + last_line(s.line) =~= last_line(s.line));
}

// ── Blocks and lines ────────────────────────────────────────────────────────

/// Three or more of a character, with nothing but white space around them.
pub open spec fn is_only(line: Seq<char>, c: char) -> bool {
    text::trim(line).len() >= 3 && forall|k: int|
        0 <= k < text::trim(line).len() ==> #[trigger] text::trim(line)[k] == c
}

/// The same character several times.
pub open spec fn times(c: char, n: nat) -> Seq<char> {
    Seq::new(n, |i: int| c)
}

proof fn run_of_times(c: char, n: nat, rest: Seq<char>, i: int)
    requires
        0 <= i <= n,
        rest.len() > 0 ==> rest[0] != c,
    ensures
        run_len(times(c, n) + rest, is(c), i) == n,
    decreases n - i,
{
    let s = times(c, n) + rest;
    if i < n {
        assert(s[i] == c);
        run_of_times(c, n, rest, i + 1);
    } else if rest.len() > 0 {
        assert(s[i] == rest[0]);
    }
}

proof fn code_is_gathered(s: MarkdownState, lines: Seq<Seq<char>>)
    requires
        s.in_fenced,
        forall|i: int| 0 <= i < lines.len() ==> !is_only(#[trigger] lines[i], s.fence),
    ensures
        ({
            let (after, out) = lines_step(s, lines);
            &&& out.len() == 0
            &&& after.in_fenced && after.fence == s.fence && after.lang == s.lang
            &&& after.color == s.color && after.line == s.line
            &&& after.code == s.code + pieces::with_line_feeds(lines)
        }),
    decreases lines.len(),
{
    reveal_strlit("\n");
    assert("\n"@ =~= seq!['\n']);
    if lines.len() == 0 {
        assert(s.code + pieces::with_line_feeds(lines) =~= s.code);
    } else {
        let d = lines.drop_last();
        assert forall|i: int| 0 <= i < d.len() implies !is_only(#[trigger] d[i], s.fence) by {
            assert(d[i] == lines[i]);
        }
        code_is_gathered(s, d);
        let (mid, out) = lines_step(s, d);
        let l = lines.last();
        assert(!is_only(lines[lines.len() - 1], s.fence));
        let (after, more) = line_step(mid, l);
        assert(!closes(l, s.fence));
        assert(after.code =~= s.code + pieces::with_line_feeds(lines));
        assert(out + more =~= Seq::empty());
    }
}

/// With colours, a fence that opens, lines that do not close it and one that does give exactly one
/// block of code: its text is those lines in order, each with its end, and its language is the
/// one behind the opening fence.
pub proof fn blocks_of_code_are_whole(
    s: MarkdownState,
    c: char,
    opening: nat,
    lang: Seq<char>,
    lines: Seq<Seq<char>>,
    closing: nat,
)
    requires
        s.color && !s.in_fenced && s.line.len() == 0,
        c == '`' || c == '~',
        opening >= 3 && closing >= 3,
        text::trim(lang) == lang,
        lang.len() > 0 ==> lang[0] != c,
        forall|k: int| 0 <= k < lang.len() ==> #[trigger] lang[k] != '\n',
        forall|i: int, k: int|
            0 <= i < lines.len() && 0 <= k < lines[i].len() ==> #[trigger] lines[i][k] != '\n',
        forall|i: int| 0 <= i < lines.len() ==> !is_only(#[trigger] lines[i], c),
    ensures
        ({
            let given = times(c, opening) + lang + seq!['\n'] + pieces::with_line_feeds(lines) + times(
                c,
                closing,
            ) + seq!['\n'];
            let (after, out) = fed(s, given);
            &&& out == seq![
                Piece::Code { code: pieces::with_line_feeds(lines), lang },
            ]
            &&& !after.in_fenced && after.line.len() == 0 && after.color
        }),
{
    let head = times(c, opening) + lang;
    let foot = times(c, closing);
    let all = seq![head] + lines + seq![foot];
    let given = head + seq!['\n'] + pieces::with_line_feeds(lines) + foot + seq!['\n'];
    feeds_with_ends(head, lines, foot);
    assert(pieces::with_line_feeds(all) =~= given);
    assert forall|i: int, k: int| 0 <= i < all.len() && 0 <= k < all[i].len() implies
        #[trigger] all[i][k] != '\n' by {
        if i == 0 {
            if k >= opening {
                assert(head[k] == lang[k - opening]);
            }
        } else if i <= lines.len() {
            assert(all[i] == lines[i - 1]);
            assert(lines[i - 1][k] != '\n');
        }
    }
    pieces::lemma_fields_of_lines(all);
    assert(s.line + given =~= given);
    assert(all.push(Seq::empty()).drop_last() =~= all);
    let s0 = MarkdownState { line: Seq::empty(), ..s };
    // The fence opens.
    not_white(c);
    assert(text::trim_start(head) == head) by {
        assert(head[0] == c);
    }
    run_of_times(c, opening, lang, 0);
    assert(head.skip(opening as int) =~= lang);
    assert(opened(head) == Some((c, lang)));
    assert(seq![head].drop_last() =~= Seq::empty());
    let (s1, o1) = lines_step(s0, seq![head]);
    assert(lines_step(s0, seq![head].drop_last()) == (s0, Seq::<Piece<Seq<char>>>::empty()));
    assert(o1 =~= Seq::empty());
    assert(s1.in_fenced && s1.fence == c && s1.lang == lang && s1.code.len() == 0);
    lines_step_of_sum(s0, seq![head], lines);
    code_is_gathered(s1, lines);
    let (s2, o2) = lines_step(s1, lines);
    assert(s2.code =~= pieces::with_line_feeds(lines));
    lines_step_of_sum(s0, seq![head] + lines, seq![foot]);
    assert(seq![foot].drop_last() =~= Seq::empty());
    assert(lines_step(s2, seq![foot].drop_last()) == (s2, Seq::<Piece<Seq<char>>>::empty()));
    assert(closes(foot, c)) by {
        assert(foot[0] == c && foot[foot.len() - 1] == c);
        trim_of_visible(foot);
    }
    let (s3, o3) = lines_step(s2, seq![foot]);
    assert(o1 + o2 + o3 =~= seq![Piece::Code { code: pieces::with_line_feeds(lines), lang }]);
}

proof fn not_white(c: char)
    requires
        c == '`' || c == '~',
    ensures
        !text::is_white(c),
{
}

proof fn trim_of_visible(s: Seq<char>)
    requires
        s.len() > 0,
        !text::is_white(s[0]),
        !text::is_white(s.last()),
    ensures
        text::trim(s) == s,
{
}

proof fn feeds_with_ends(a: Seq<char>, v: Seq<Seq<char>>, b: Seq<char>)
    ensures
        pieces::with_line_feeds(seq![a] + v + seq![b]) == a + seq!['\n'] + pieces::with_line_feeds(v)
            + b + seq!['\n'],
        pieces::with_line_feeds(seq![a] + v) == a + seq!['\n'] + pieces::with_line_feeds(v),
    decreases v.len(),
{
    let w = seq![a] + v;
    if v.len() == 0 {
        assert(w.drop_last() =~= Seq::empty());
        assert(pieces::with_line_feeds(w.drop_last()) =~= Seq::empty());
        assert(pieces::with_line_feeds(v) =~= Seq::empty());
        assert(pieces::with_line_feeds(w) =~= a + seq!['\n'] + pieces::with_line_feeds(v));
    } else {
        feeds_with_ends(a, v.drop_last(), b);
        assert(w.drop_last() =~= seq![a] + v.drop_last());
        assert(w.last() == v.last());
        assert(pieces::with_line_feeds(w) =~= a + seq!['\n'] + pieces::with_line_feeds(v));
    }
    let x = w + seq![b];
    assert(x.drop_last() =~= w);
    assert(x.last() == b);
}

/// A line that neither opens a block nor stands in one is shown at once, and each line on its own:
/// as many pieces come out as lines go in, in the same order.
pub proof fn lines_are_shown_one_by_one(s: MarkdownState, lines: Seq<Seq<char>>)
    requires
        !s.in_fenced && s.line.len() == 0,
        forall|i: int, k: int|
            0 <= i < lines.len() && 0 <= k < lines[i].len() ==> #[trigger] lines[i][k] != '\n',
        forall|i: int| 0 <= i < lines.len() ==> opened(#[trigger] lines[i]) is None,
    ensures
        ({
            let (after, out) = fed(s, pieces::with_line_feeds(lines));
            &&& after == s
            &&& out.len() == lines.len()
            &&& forall|i: int|
                0 <= i < lines.len() ==> #[trigger] out[i] == Piece::Text(
                    shown_line(lines[i], s.color) + seq!['\n'],
                )
        }),
{
    pieces::lemma_fields_of_lines(lines);
    assert(s.line + pieces::with_line_feeds(lines) =~= pieces::with_line_feeds(lines));
    assert(lines.push(Seq::empty()).drop_last() =~= lines);
    let s0 = MarkdownState { line: Seq::empty(), ..s };
    assert(s.line =~= Seq::empty());
    plain_lines_step(s0, lines);
}

proof fn plain_lines_step(s: MarkdownState, lines: Seq<Seq<char>>)
    requires
        !s.in_fenced,
        forall|i: int| 0 <= i < lines.len() ==> opened(#[trigger] lines[i]) is None,
    ensures
        lines_step(s, lines).0 == s,
        lines_step(s, lines).1.len() == lines.len(),
        forall|i: int|
            0 <= i < lines.len() ==> #[trigger] lines_step(s, lines).1[i] == Piece::Text(
                shown_line(lines[i], s.color) + seq!['\n'],
            ),
    decreases lines.len(),
{
    reveal_strlit("\n");
    assert("\n"@ =~= seq!['\n']);
    if lines.len() > 0 {
        let d = lines.drop_last();
        assert forall|i: int| 0 <= i < d.len() implies opened(#[trigger] d[i]) is None by {
            assert(d[i] == lines[i]);
        }
        plain_lines_step(s, d);
        let out = lines_step(s, d).1;
        assert(opened(lines[lines.len() - 1]) is None);
        let more = line_step(s, lines.last()).1;
        assert forall|i: int| 0 <= i < lines.len() implies #[trigger] (out + more)[i] == Piece::Text(
            shown_line(lines[i], s.color) + seq!['\n'],
        ) by {
            if i < d.len() {
                assert(out[i] == (out + more)[i]);
                assert(d[i] == lines[i]);
            }
        }
    }
}

// ── Marks in a line ─────────────────────────────────────────────────────────

/// A text without the marks for code and bold.
pub open spec fn is_plain(s: Seq<char>) -> bool {
    forall|k: int| 0 <= k < s.len() ==> #[trigger] s[k] != '`' && s[k] != '*'
}

proof fn plain_part_stays(s: Seq<char>, i: int, n: int)
    requires
        0 <= i <= n <= s.len(),
        forall|k: int| i <= k < n ==> #[trigger] s[k] != '`' && s[k] != '*',
    ensures
        marked(s, i) == s.subrange(i, n) + marked(s, n),
    decreases n - i,
{
    if i < n {
        plain_part_stays(s, i + 1, n);
        assert(s[i] != '`' && s[i] != '*');
        assert(seq![s[i]] + (s.subrange(i + 1, n) + marked(s, n)) =~= s.subrange(i, n) + marked(s, n));
    } else {
        assert(s.subrange(i, n) + marked(s, n) =~= marked(s, n));
    }
}

proof fn plain_text_is_kept(s: Seq<char>)
    requires
        is_plain(s),
    ensures
        marked(s, 0) == s,
{
    plain_part_stays(s, 0, s.len() as int);
    assert(marked(s, s.len() as int) =~= Seq::empty());
    assert(s.subrange(0, s.len() as int) + Seq::<char>::empty() =~= s);
}

proof fn char_is_found(s: Seq<char>, c: char, i: int, k: int)
    requires
        0 <= i <= k < s.len(),
        s[k] == c,
        forall|j: int| i <= j < k ==> #[trigger] s[j] != c,
    ensures
        char_from(s, c, i) == k,
    decreases k - i,
{
    if i < k {
        assert(s[i] != c);
        char_is_found(s, c, i + 1, k);
    }
}

proof fn pair_is_found(s: Seq<char>, c: char, i: int, k: int)
    requires
        0 <= i <= k,
        k + 1 < s.len(),
        s[k] == c && s[k + 1] == c,
        forall|j: int| i <= j < k ==> #[trigger] s[j] != c,
    ensures
        pair_from(s, c, i) == k,
    decreases k - i,
{
    if i < k {
        assert(s[i] != c);
        pair_is_found(s, c, i + 1, k);
    }
}

proof fn marked_code(a: Seq<char>, x: Seq<char>, b: Seq<char>)
    requires
        is_plain(a) && is_plain(b),
        forall|k: int| 0 <= k < x.len() ==> #[trigger] x[k] != '`',
    ensures
        marked(a + seq!['`'] + x + seq!['`'] + b, 0) == a + "\x1b[36m"@ + x + "\x1b[0m"@ + b,
{
    let s = a + seq!['`'] + x + seq!['`'] + b;
    let n = a.len() as int;
    let k = n + 1 + x.len();
    assert forall|j: int| 0 <= j < n implies #[trigger] s[j] != '`' && s[j] != '*' by {
        assert(s[j] == a[j]);
    }
    plain_part_stays(s, 0, n);
    assert(s[n] == '`' && s[k] == '`');
    assert forall|j: int| n + 1 <= j < k implies #[trigger] s[j] != '`' by {
        assert(s[j] == x[j - n - 1]);
    }
    char_is_found(s, '`', n + 1, k);
    assert forall|j: int| k + 1 <= j < s.len() implies #[trigger] s[j] != '`' && s[j] != '*' by {
        assert(s[j] == b[j - k - 1]);
    }
    plain_part_stays(s, k + 1, s.len() as int);
    assert(marked(s, s.len() as int) =~= Seq::empty());
    assert(s.subrange(k + 1, s.len() as int) =~= b);
    assert(s.subrange(0, n) =~= a);
    assert(s.subrange(n + 1, k) =~= x);
    assert(marked(s, n) == "\x1b[36m"@ + x + "\x1b[0m"@ + marked(s, k + 1));
    assert(marked(s, 0) =~= a + "\x1b[36m"@ + x + "\x1b[0m"@ + b);
}

proof fn marked_bold(a: Seq<char>, x: Seq<char>, b: Seq<char>)
    requires
        is_plain(a) && is_plain(x) && is_plain(b),
    ensures
        marked(a + seq!['*', '*'] + x + seq!['*', '*'] + b, 0) == a + "\x1b[1m"@ + x + "\x1b[0m"@ + b,
{
    let s = a + seq!['*', '*'] + x + seq!['*', '*'] + b;
    let n = a.len() as int;
    let k = n + 2 + x.len();
    assert forall|j: int| 0 <= j < n implies #[trigger] s[j] != '`' && s[j] != '*' by {
        assert(s[j] == a[j]);
    }
    plain_part_stays(s, 0, n);
    assert(s[n] == '*' && s[n + 1] == '*' && s[k] == '*' && s[k + 1] == '*');
    assert forall|j: int| n + 2 <= j < k implies #[trigger] s[j] != '*' by {
        assert(s[j] == x[j - n - 2]);
    }
    pair_is_found(s, '*', n + 2, k);
    assert forall|j: int| k + 2 <= j < s.len() implies #[trigger] s[j] != '`' && s[j] != '*' by {
        assert(s[j] == b[j - k - 2]);
    }
    plain_part_stays(s, k + 2, s.len() as int);
    assert(marked(s, s.len() as int) =~= Seq::empty());
    assert(s.subrange(k + 2, s.len() as int) =~= b);
    assert(s.subrange(0, n) =~= a);
    assert(s.subrange(n + 2, k) =~= x);
    assert(marked(s, n) == "\x1b[1m"@ + x + "\x1b[0m"@ + marked(s, k + 2));
    assert(marked(s, 0) =~= a + "\x1b[1m"@ + x + "\x1b[0m"@ + b);
}

proof fn words_are_no_block(line: Seq<char>)
    requires
        line.len() > 0,
        text::is_letter(line[0]),
    ensures
        !is_rule(line) && heading(line) is None && text::after(line, "> "@) is None,
        bulleted(line) is None && numbered(line) is None,
        shown_line(line, true) == marked(line, 0),
{
    reveal_strlit("> ");
    reveal_strlit("- ");
    reveal_strlit("* ");
    reveal_strlit("+ ");
    let (i, j) = text::trimming_takes_only_white(line);
    assert(!text::is_white(line[0]));
    assert(i == 0 && j > 0) by {
        if i > 0 {
            assert(text::is_white(line[0]));
        }
        if j == 0 {
            assert(text::is_white(line[0]));
        }
    }
    assert(text::trim(line)[0] == line[0]);
    assert(run_len(line, is('#'), 0) == 0);
    assert(run_len(line, digit(), 0) == 0);
    assert(line.len() >= 2 ==> line.take(2)[0] == line[0]);
}

/// In a line of running text, what stands between back quotes is shown as code and what stands
/// between double stars as bold, without these marks; everything else is shown as it is.
pub proof fn marks_are_shown_in_colour(a: Seq<char>, x: Seq<char>, b: Seq<char>)
    requires
        a.len() > 0 && text::is_letter(a[0]),
        is_plain(a) && is_plain(x) && is_plain(b),
    ensures
        shown_line(a + seq!['`'] + x + seq!['`'] + b, true) == a + "\x1b[36m"@ + x + "\x1b[0m"@ + b,
        shown_line(a + seq!['*', '*'] + x + seq!['*', '*'] + b, true) == a + "\x1b[1m"@ + x
            + "\x1b[0m"@ + b,
        shown_line(a, true) == a,
{
    marked_code(a, x, b);
    marked_bold(a, x, b);
    plain_text_is_kept(a);
    words_are_no_block(a + seq!['`'] + x + seq!['`'] + b);
    words_are_no_block(a + seq!['*', '*'] + x + seq!['*', '*'] + b);
    words_are_no_block(a);
}

proof fn heading_is_shown(t: Seq<char>, level: nat)
    requires
        is_plain(t) && t.len() > 0 && text::is_letter(t[0]),
        1 <= level <= 6,
    ensures
        shown_line(times('#', level) + seq![' '] + t, true) == "\x1b[1;36m"@ + t + "\x1b[0m"@,
{
    plain_text_is_kept(t);
    let h = times('#', level) + seq![' '] + t;
    assert(h[(level + 1) as int] == t[0]);
    not_a_rule(h, level + 1);
    assert(h =~= times('#', level) + (seq![' '] + t));
    run_of_times('#', level, seq![' '] + t, 0);
    assert(h[level as int] == ' ');
    assert(h.skip((level + 1) as int) =~= t);
}

proof fn quotation_is_shown(t: Seq<char>)
    requires
        is_plain(t) && t.len() > 0 && text::is_letter(t[0]),
    ensures
        shown_line(seq!['>', ' '] + t, true) == "\x1b[2m│ "@ + t + "\x1b[0m"@,
{
    plain_text_is_kept(t);
    reveal_strlit("> ");
    let q = seq!['>', ' '] + t;
    assert(q[2] == t[0]);
    not_a_rule(q, 2);
    assert(run_len(q, is('#'), 0) == 0);
    assert(heading(q) is None);
    assert(q.take(2) =~= "> "@);
    assert(q.skip(2) =~= t);
}

proof fn entry_is_shown(t: Seq<char>, mark: char)
    requires
        is_plain(t) && t.len() > 0 && text::is_letter(t[0]),
        mark == '-' || mark == '*' || mark == '+',
    ensures
        shown_line(seq![mark, ' '] + t, true) == "\x1b[1;33m•\x1b[0m "@ + t,
{
    plain_text_is_kept(t);
    reveal_strlit("> ");
    reveal_strlit("- ");
    reveal_strlit("* ");
    reveal_strlit("+ ");
    let b = seq![mark, ' '] + t;
    assert(b[2] == t[0]);
    not_a_rule(b, 2);
    assert(run_len(b, is('#'), 0) == 0);
    assert(heading(b) is None);
    assert(b.take(2)[0] == mark && "> "@[0] == '>');
    assert(text::after(b, "> "@) is None);
    assert(b.skip(2) =~= t);
    assert("- "@[0] == '-' && "* "@[0] == '*' && "+ "@[0] == '+');
    if mark == '-' {
        assert(b.take(2) =~= "- "@);
    } else if mark == '*' {
        assert(b.take(2) =~= "* "@);
    } else {
        assert(b.take(2) =~= "+ "@);
    }
    assert(bulleted(b) == Some(t));
}

proof fn numbered_entry_is_shown(t: Seq<char>, number: Seq<char>)
    requires
        is_plain(t) && t.len() > 0 && text::is_letter(t[0]),
        number.len() > 0 && text::all_digits(number),
    ensures
        shown_line(number + seq!['.', ' '] + t, true) == "\x1b[1;33m▶\x1b[0m "@ + t,
{
    plain_text_is_kept(t);
    reveal_strlit("> ");
    reveal_strlit("- ");
    reveal_strlit("* ");
    reveal_strlit("+ ");
    let n = number + seq!['.', ' '] + t;
    assert(n[(number.len() + 2) as int] == t[0]);
    not_a_rule(n, number.len() + 2);
    assert(text::is_digit(number[0]));
    assert(n[0] == number[0]);
    assert(run_len(n, is('#'), 0) == 0);
    assert(heading(n) is None);
    assert(n.take(2)[0] == number[0]);
    assert("> "@[0] == '>' && "- "@[0] == '-' && "* "@[0] == '*' && "+ "@[0] == '+');
    assert(text::after(n, "> "@) is None);
    assert(bulleted(n) is None);
    assert(n.take(number.len() as int) =~= number);
    digits_are_run(n, number, 0);
    assert(n[number.len() as int] == '.' && n[(number.len() + 1) as int] == ' ');
    assert(n.skip((number.len() + 2) as int) =~= t);
}

/// Headings of every level, quotations and entries of lists are shown with their text and without
/// their marks.
pub proof fn blocks_are_shown_by_kind(t: Seq<char>, level: nat, mark: char, number: Seq<char>)
    requires
        is_plain(t) && t.len() > 0 && text::is_letter(t[0]),
        1 <= level <= 6,
        mark == '-' || mark == '*' || mark == '+',
        number.len() > 0 && text::all_digits(number),
    ensures
        shown_line(times('#', level) + seq![' '] + t, true) == "\x1b[1;36m"@ + t + "\x1b[0m"@,
        shown_line(seq!['>', ' '] + t, true) == "\x1b[2m│ "@ + t + "\x1b[0m"@,
        shown_line(seq![mark, ' '] + t, true) == "\x1b[1;33m•\x1b[0m "@ + t,
        shown_line(number + seq!['.', ' '] + t, true) == "\x1b[1;33m▶\x1b[0m "@ + t,
{
    heading_is_shown(t, level);
    quotation_is_shown(t);
    entry_is_shown(t, mark);
    numbered_entry_is_shown(t, number);
}

proof fn digits_are_run(n: Seq<char>, number: Seq<char>, i: int)
    requires
        0 <= i <= number.len() < n.len(),
        n.take(number.len() as int) == number,
        text::all_digits(number),
        n[number.len() as int] == '.',
    ensures
        run_len(n, digit(), i) == number.len(),
    decreases number.len() - i,
{
    if i < number.len() {
        assert(text::is_digit(number[i]));
        assert(n.take(number.len() as int)[i] == n[i]);
        digits_are_run(n, number, i + 1);
    }
}

proof fn not_a_rule(s: Seq<char>, k: nat)
    requires
        k < s.len(),
        text::is_letter(s[k as int]),
    ensures
        !is_rule(s),
{
    let (i, j) = text::trimming_takes_only_white(s);
    assert(!text::is_white(s[k as int]));
    if k < i || j <= k {
        assert(text::is_white(s[k as int]));
    }
    assert(text::trim(s)[k - i] == s[k as int]);
}

/// A frame round coloured code holds its lines in order, each behind a bar, between one line above
/// and one below.
pub proof fn frames_hold_every_line(h: Seq<char>, code: Seq<char>, lang: Seq<char>)
    requires
        forall|k: int| 0 <= k < lang.len() ==> #[trigger] lang[k] != '\n',
    ensures
        ({
            let shown = pieces::split(shown_block(code, lang, Some(h)), '\n');
            let lines = pieces::split(h, '\n');
            &&& shown.len() == lines.len() + 2
            &&& forall|i: int|
                0 <= i < lines.len() ==> #[trigger] shown[i + 1] == "\x1b[2m│\x1b[0m "@ + lines[i]
            &&& lang.len() > 0 ==> text::holds_in_order(shown[0], seq![lang])
        }),
{
    let lines = pieces::split(h, '\n');
    let bar = "\x1b[2m│\x1b[0m "@;
    reveal_strlit("\x1b[2m│\x1b[0m ");
    reveal_strlit("\x1b[2m┌─ ");
    reveal_strlit(" ─────────────────\x1b[0m\n");
    reveal_strlit(" ─────────────────\x1b[0m");
    reveal_strlit("\x1b[2m└──────────────────────────\x1b[0m");
    reveal_strlit("\n");
    reveal_strlit("code");
    pieces::fields_join_to_the_text(h, '\n');
    let label = if lang.len() == 0 {
        "code"@
    } else {
        lang
    };
    let head = "\x1b[2m┌─ "@ + label + " ─────────────────\x1b[0m"@;
    let foot = "\x1b[2m└──────────────────────────\x1b[0m"@;
    let barred = Seq::new(lines.len(), |i: int| bar + lines[i]);
    framed_lines_end(lines, lines.len() as int, barred);
    assert(" ─────────────────\x1b[0m"@ + seq!['\n'] =~= " ─────────────────\x1b[0m\n"@);
    let all = seq![head] + barred;
    feeds_with_ends(head, barred, foot);
    assert(barred.take(lines.len() as int) =~= barred);
    let shown = shown_block(code, lang, Some(h));
    assert(shown =~= pieces::with_line_feeds(all) + foot);
    let v = all.push(foot);
    assert(pieces::join(v, seq!['\n']) == shown) by {
        joined_is_fed(all, foot);
    }
    assert forall|i: int, k: int| 0 <= i < v.len() && 0 <= k < v[i].len() implies #[trigger] v[i][k]
        != '\n' by {
        if i == 0 {
            assert(v[i] == head);
        } else if i <= lines.len() {
            assert(v[i] == bar + lines[i - 1]);
            if k >= bar.len() {
                assert(v[i][k] == lines[i - 1][k - bar.len()]);
            }
        } else {
            assert(v[i] == foot);
        }
    }
    pieces::joined_fields_read_back(v, '\n');
    assert forall|i: int| 0 <= i < lines.len() implies #[trigger] v[i + 1] == bar + lines[i] by {
        assert(v[i + 1] == barred[i]);
    }
    if lang.len() > 0 {
        text::lemma_holds_next(
            "\x1b[2m┌─ "@,
            lang,
            " ─────────────────\x1b[0m"@,
            Seq::empty(),
        );
        assert(seq![lang] + Seq::<Seq<char>>::empty() =~= seq![lang]);
    }
}

proof fn framed_lines_end(lines: Seq<Seq<char>>, n: int, barred: Seq<Seq<char>>)
    requires
        0 <= n <= lines.len(),
        barred == Seq::new(lines.len(), |i: int| "\x1b[2m│\x1b[0m "@ + lines[i]),
    ensures
        framed_lines(lines, n) == pieces::with_line_feeds(barred.take(n)),
    decreases n,
{
    reveal_strlit("\n");
    assert("\n"@ =~= seq!['\n']);
    if n > 0 {
        framed_lines_end(lines, n - 1, barred);
        let t = barred.take(n);
        assert(t.drop_last() =~= barred.take(n - 1));
        assert(t.last() == "\x1b[2m│\x1b[0m "@ + lines[n - 1]);
        assert(framed_lines(lines, n) =~= pieces::with_line_feeds(t));
    } else {
        assert(barred.take(0) =~= Seq::empty());
        assert(framed_lines(lines, n) =~= pieces::with_line_feeds(barred.take(n)));
    }
}

proof fn joined_is_fed(v: Seq<Seq<char>>, last: Seq<char>)
    ensures
        pieces::join(v.push(last), seq!['\n']) == pieces::with_line_feeds(v) + last,
    decreases v.len(),
{
    let w = v.push(last);
    assert(w.drop_last() =~= v);
    if v.len() == 0 {
        assert(pieces::with_line_feeds(v) + last =~= last);
    } else {
        joined_is_fed(v.drop_last(), v.last());
        assert(v.drop_last().push(v.last()) =~= v);
    }
}

/// Code that could not be coloured is shown as it is, between fences, and what is coloured is the
/// code without the line ends behind it.
pub proof fn uncoloured_code_is_kept(code: Seq<char>, lang: Seq<char>)
    ensures
        text::holds_in_order(shown_block(code, lang, None), seq!["```"@ + lang, code, "```"@]),
        exists|n: int|
            0 <= n <= code.len() && #[trigger] code.take(n) == without_ends(code) && forall|k: int|
                n <= k < code.len() ==> code[k] == '\n',
{
    let shown = shown_block(code, lang, None);
    let end = if text::ends_with(code, "\n"@) {
        ""@
    } else {
        "\n"@
    };
    let none = Seq::<char>::empty();
    text::lemma_holds_next(end, "```"@, none, Seq::empty());
    let p2 = seq!["```"@] + Seq::<Seq<char>>::empty();
    text::lemma_holds_next("\n"@, code, end + "```"@ + none, p2);
    let r1 = "\n"@ + code + (end + "```"@ + none);
    text::lemma_holds_next(none, "```"@ + lang, r1, seq![code] + p2);
    assert(none + ("```"@ + lang) + r1 =~= shown);
    assert(seq!["```"@ + lang] + (seq![code] + p2) =~= seq!["```"@ + lang, code, "```"@]);
    ends_are_cut(code);
}

proof fn ends_are_cut(s: Seq<char>)
    ensures
        exists|n: int|
            0 <= n <= s.len() && #[trigger] s.take(n) == without_ends(s) && forall|k: int|
                n <= k < s.len() ==> s[k] == '\n',
    decreases s.len(),
{
    if s.len() > 0 && s.last() == '\n' {
        let d = s.drop_last();
        ends_are_cut(d);
        let n = choose|n: int|
            0 <= n <= d.len() && #[trigger] d.take(n) == without_ends(d) && forall|k: int|
                n <= k < d.len() ==> d[k] == '\n';
        assert(s.take(n) =~= d.take(n));
        assert forall|k: int| n <= k < s.len() implies s[k] == '\n' by {
            if k < d.len() {
                assert(d[k] == s[k]);
            }
        }
    } else {
        assert(s.take(s.len() as int) =~= s);
    }
}

} // verus!
