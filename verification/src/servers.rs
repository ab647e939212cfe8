//! Configured tool servers: naming, listing and switching them.
use vstd::prelude::*;

use crate::launcher;
use crate::launcher::joined_of;
use crate::manage;
use crate::manage::{ManageCmd, McpAddArgs, McpHttpTransport};
use crate::numeral;
use crate::numeral::dec_usize;
use crate::order;
use crate::order::sort_dedup;
use crate::pieces;
use crate::pieces::join_of;
use crate::prompts;
use crate::prompts::{find_key, put_pair};
use crate::say;
use crate::say::{just, msg, Msg, Output, Val};
use crate::text;
use crate::text::{cat, copy_text, same};

verus! {

/// How a tool server is reached.
#[derive(Debug)]
pub enum McpServerConfig {
    /// A program that is started.
    Stdio {
        command: String,
        args: Vec<String>,
        /// Variables of the program's environment.
        env: Vec<(String, String)>,
        /// How long a call may take.
        timeout_ms: Option<u64>,
    },
    /// An address that is spoken to.
    Http {
        url: String,
        headers: Vec<(String, String)>,
        timeout_ms: Option<u64>,
        /// How to sign in, as it is configured.
        oauth: Option<String>,
        transport: McpHttpTransport,
    },
}

/// A server and the name it is configured under.
#[derive(Debug)]
pub struct McpServerEntry {
    pub name: String,
    pub server: McpServerConfig,
}

/// One file that servers are configured in.
#[derive(Debug)]
pub struct McpSource {
    pub level: String,
    pub path: String,
    pub exists: bool,
    pub servers: Vec<McpServerEntry>,
    /// The names of the servers that are switched off.
    pub disabled: Vec<String>,
    pub warnings: Vec<String>,
}

fn copy_opt(o: &Option<String>) -> (r: Option<String>)
    ensures
        manage::opt_text(r) == manage::opt_text(*o),
{
    match o {
        Some(s) => Some(copy_text(s)),
        None => None,
    }
}

fn copy_all(v: &Vec<String>) -> (r: Vec<String>)
    ensures
        text::texts(r@) == text::texts(v@),
{
    let mut r: Vec<String> = Vec::new();
    let mut i: usize = 0;
    while i < v.len()
        invariant
            i <= v.len(),
            text::texts(r@) == text::texts(v@).take(i as int),
        decreases v.len() - i,
    {
        let s = copy_text(&v[i]);
        proof {
            text::lemma_texts_push(r@, s);
        }
        r.push(s);
        i = i + 1;
        assert(text::texts(r@) =~= text::texts(v@).take(i as int));
    }
    assert(text::texts(r@) =~= text::texts(v@));
    r
}

/// The first `n` pairs, each name once and with its last value.
pub open spec fn settings(p: prompts::Pairs, n: int) -> prompts::Pairs
    decreases n,
{
    if n <= 0 {
        Seq::empty()
    } else {
        prompts::put(settings(p, n - 1), p[n - 1].0, p[n - 1].1)
    }
}

/// No name stands twice among settings.
pub proof fn settings_are_distinct(p: prompts::Pairs, n: int)
    ensures
        prompts::distinct_keys(settings(p, n)),
    decreases n,
{
    if n > 0 {
        settings_are_distinct(p, n - 1);
        prompts::key_index_stops(settings(p, n - 1), p[n - 1].0, 0);
    }
}

/// Of the values that are given for a name, the last one holds.
pub proof fn last_setting_holds(p: prompts::Pairs, n: int)
    requires
        0 < n <= p.len(),
    ensures
        value_under(settings(p, n), p[n - 1].0) == Some(p[n - 1].1),
{
    let before = settings(p, n - 1);
    let s = settings(p, n);
    let k = p[n - 1].0;
    prompts::key_index_stops(before, k, 0);
    prompts::key_index_stops(s, k, 0);
    settings_are_distinct(p, n);
    if prompts::holds_key(before, k) {
        assert(s[prompts::key_index(before, k, 0)] == (k, p[n - 1].1));
    } else {
        assert(s[before.len() as int] == (k, p[n - 1].1));
    }
}

fn settings_of(p: &Vec<(String, String)>) -> (r: Vec<(String, String)>)
    ensures
        manage::pair_texts(r@) == settings(manage::pair_texts(p@), p.len() as int),
{
    let ghost pv = manage::pair_texts(p@);
    let mut r: Vec<(String, String)> = Vec::new();
    let mut i: usize = 0;
    assert(manage::pair_texts(r@) =~= settings(pv, 0));
    while i < p.len()
        invariant
            i <= p.len(),
            pv == manage::pair_texts(p@),
            manage::pair_texts(r@) == settings(pv, i as int),
        decreases p.len() - i,
    {
        assert(pv[i as int] == (p@[i as int].0@, p@[i as int].1@));
        put_pair(&mut r, copy_text(&p[i].0), copy_text(&p[i].1));
        i = i + 1;
    }
    r
}

/// `s` is the server that the arguments of `mcp add` describe.
pub open spec fn describes(a: McpAddArgs, s: McpServerConfig) -> bool {
    match s {
        McpServerConfig::Stdio { command, args, env, timeout_ms } => {
            &&& a.command matches Some(c) && command@ == c@
            &&& a.url is None
            &&& text::texts(args@) == text::texts(a.args@)
            &&& manage::pair_texts(env@) == settings(
                manage::pair_texts(a.env@),
                a.env.len() as int,
            )
            &&& timeout_ms is None
        },
        McpServerConfig::Http { url, headers, timeout_ms, oauth, transport } => {
            &&& a.command is None
            &&& a.url matches Some(u) && url@ == u@
            &&& headers.len() == 0
            &&& timeout_ms is None
            &&& oauth is None
            &&& transport == (match a.transport {
                Some(t) => t,
                None => McpHttpTransport::Streamable,
            })
        },
    }
}

impl McpAddArgs {
    /// The server to write down; an error where not exactly one of program and address is
    /// given.
    pub fn to_server(&self) -> (r: Result<McpServerConfig, Msg>)
        ensures
            match r {
                Ok(s) => describes(*self, s),
                Err(m) => (self.command is Some <==> self.url is Some) && m@ == say::entry(
                    "manage.mcp.add.conflict"@,
                ),
            },
    {
        match (&self.command, &self.url) {
            (Some(c), None) => Ok(
                McpServerConfig::Stdio {
                    command: copy_text(c),
                    args: copy_all(&self.args),
                    env: settings_of(&self.env),
                    timeout_ms: None,
                },
            ),
            (None, Some(u)) => Ok(
                McpServerConfig::Http {
                    url: copy_text(u),
                    headers: Vec::new(),
                    timeout_ms: None,
                    oauth: None,
                    transport: match self.transport {
                        Some(t) => t,
                        None => McpHttpTransport::Streamable,
                    },
                },
            ),
            _ => Err(msg("manage.mcp.add.conflict")),
        }
    }
}

// ── Finding a server ────────────────────────────────────────────────────────

pub open spec fn server_names(servers: Seq<McpServerEntry>) -> Seq<Seq<char>> {
    Seq::new(servers.len(), |i: int| servers[i].name@)
}

/// The first place of a name, or the number of servers.
pub open spec fn server_index(servers: Seq<McpServerEntry>, name: Seq<char>, i: int) -> int
    decreases servers.len() - i,
{
    if i < 0 || i >= servers.len() || servers[i].name@ == name {
        i
    } else {
        server_index(servers, name, i + 1)
    }
}

fn server_index_of(servers: &Vec<McpServerEntry>, name: &str) -> (r: usize)
    ensures
        r == server_index(servers@, name@, 0),
        r <= servers.len(),
{
    let mut i: usize = 0;
    while i < servers.len()
        invariant
            i <= servers.len(),
            server_index(servers@, name@, 0) == server_index(servers@, name@, i as int),
        decreases servers.len() - i,
    {
        if same(&servers[i].name, name) {
            return i;
        }
        i = i + 1;
    }
    i
}

fn names_of(servers: &Vec<McpServerEntry>) -> (r: Vec<String>)
    ensures
        text::texts(r@) == server_names(servers@),
{
    let mut r: Vec<String> = Vec::new();
    let mut i: usize = 0;
    while i < servers.len()
        invariant
            i <= servers.len(),
            text::texts(r@) == server_names(servers@).take(i as int),
        decreases servers.len() - i,
    {
        let s = copy_text(&servers[i].name);
        proof {
            text::lemma_texts_push(r@, s);
        }
        r.push(s);
        i = i + 1;
        assert(text::texts(r@) =~= server_names(servers@).take(i as int));
    }
    assert(text::texts(r@) =~= server_names(servers@));
    r
}

/// The address of a configured server and how to sign in to it; an error where there is no
/// such server, or where it is a program.
pub fn resolve_mcp_http_server(servers: &Vec<McpServerEntry>, server: &str) -> (r: Result<
    (String, Option<String>),
    Msg,
>)
    ensures
        ({
            let k = server_index(servers@, server@, 0);
            if k >= servers.len() {
                r matches Err(m) && m@ == say::entry("manage.mcp.not_found"@).arg(
                    "server"@,
                    server@,
                ).arg("names"@, pieces::join(server_names(servers@), ", "@))
            } else {
                match servers@[k].server {
                    McpServerConfig::Http { url, oauth, .. } => r matches Ok((u, o)) && u@ == url@
                        && manage::opt_text(o) == manage::opt_text(oauth),
                    McpServerConfig::Stdio { .. } => r matches Err(m) && m@ == say::entry(
                        "manage.mcp.stdio_only"@,
                    ).arg("server"@, server@),
                }
            }
        }),
{
    let k: usize = server_index_of(servers, server);
    if k >= servers.len() {
        let names = join_of(&names_of(servers), ", ");
        return Err(msg("manage.mcp.not_found").arg("server", server).arg("names", &names));
    }
    match &servers[k].server {
        McpServerConfig::Http { url, oauth, .. } => Ok((copy_text(url), copy_opt(oauth))),
        McpServerConfig::Stdio { .. } => Err(msg("manage.mcp.stdio_only").arg("server", server)),
    }
}

/// Some source, or the configuration itself, names the server.
pub open spec fn is_known(sources: Seq<McpSource>, configured: Seq<McpServerEntry>, name: Seq<char>) -> bool {
    ||| exists|i: int|
        0 <= i < sources.len() && server_index((#[trigger] sources[i]).servers@, name, 0)
            < sources[i].servers.len()
    ||| server_index(configured, name, 0) < configured.len()
}

pub fn mcp_server_known(
    sources: &Vec<McpSource>,
    configured: &Vec<McpServerEntry>,
    name: &str,
) -> (r: bool)
    ensures
        r == is_known(sources@, configured@, name@),
{
    let mut i: usize = 0;
    while i < sources.len()
        invariant
            i <= sources.len(),
            forall|k: int|
                0 <= k < i ==> server_index((#[trigger] sources@[k]).servers@, name@, 0)
                    >= sources@[k].servers.len(),
        decreases sources.len() - i,
    {
        if server_index_of(&sources[i].servers, name) < sources[i].servers.len() {
            return true;
        }
        i = i + 1;
    }
    server_index_of(configured, name) < configured.len()
}

// ── Adding, removing, switching ─────────────────────────────────────────────

/// Where a server is written down: in the project's own directory, or in the user's.
pub open spec fn write_path(
    cwd: Seq<char>,
    config_dir: Seq<char>,
    project: bool,
    windows: bool,
) -> Seq<char> {
    if project {
        launcher::joined(launcher::joined(cwd, ".agent"@, windows), "mcp.json"@, windows)
    } else {
        launcher::joined(config_dir, "mcp.json"@, windows)
    }
}

pub fn mcp_write_path(cwd: &str, config_dir: &str, project: bool, windows: bool) -> (r: String)
    ensures
        r@ == write_path(cwd@, config_dir@, project, windows),
{
    if project {
        joined_of(&joined_of(cwd, ".agent", windows), "mcp.json", windows)
    } else {
        joined_of(config_dir, "mcp.json", windows)
    }
}

pub open spec fn name_and_path(key: Seq<char>, name: Seq<char>, path: Seq<char>) -> say::MsgView {
    say::entry(key).arg("name"@, name).arg("path"@, path)
}

fn name_and_path_of(key: &str, name: &str, path: &str) -> (m: Msg)
    ensures
        m@ == name_and_path(key@, name@, path@),
{
    msg(key).arg("name", name).arg("path", path)
}

/// What is said once a server has been written down.
pub fn mcp_add(spec_args: &McpAddArgs, path: &str) -> (m: Msg)
    ensures
        m@ == name_and_path("manage.mcp.add.saved"@, spec_args.name@, path@),
{
    name_and_path_of("manage.mcp.add.saved", &spec_args.name, path)
}

/// What is said once a server was to be removed: an error where it was not there.
pub fn mcp_remove(name: &str, path: &str, removed: bool) -> (r: Result<Msg, Msg>)
    ensures
        match r {
            Ok(m) => removed && m@ == name_and_path("manage.mcp.remove.removed"@, name@, path@),
            Err(m) => !removed && m@ == name_and_path(
                "manage.mcp.remove.not_found"@,
                name@,
                path@,
            ),
        },
{
    if removed {
        Ok(name_and_path_of("manage.mcp.remove.removed", name, path))
    } else {
        Err(name_and_path_of("manage.mcp.remove.not_found", name, path))
    }
}

/// A server may be switched off only if it is known; switching on is always possible.
pub fn mcp_set_disabled(
    sources: &Vec<McpSource>,
    configured: &Vec<McpServerEntry>,
    name: &str,
    path: &str,
    disabled: bool,
) -> (r: Result<Msg, Msg>)
    ensures
        match r {
            Ok(m) => (disabled ==> is_known(sources@, configured@, name@)) && m@ == name_and_path(
                if disabled {
                    "manage.mcp.disable.done"@
                } else {
                    "manage.mcp.enable.done"@
                },
                name@,
                path@,
            ),
            Err(m) => disabled && !is_known(sources@, configured@, name@) && m@ == say::entry(
                "manage.mcp.toggle.not_found"@,
            ).arg("name"@, name@),
        },
{
    if disabled && !mcp_server_known(sources, configured, name) {
        return Err(msg("manage.mcp.toggle.not_found").arg("name", name));
    }
    if disabled {
        Ok(name_and_path_of("manage.mcp.disable.done", name, path))
    } else {
        Ok(name_and_path_of("manage.mcp.enable.done", name, path))
    }
}

// ── Listing ─────────────────────────────────────────────────────────────────

/// A server in one line.
pub open spec fn detail(s: McpServerConfig) -> Seq<char> {
    match s {
        McpServerConfig::Stdio { command, args, .. } => if args.len() == 0 {
            "stdio: "@ + command@
        } else {
            "stdio: "@ + command@ + " "@ + pieces::join(text::texts(args@), " "@)
        },
        McpServerConfig::Http { url, transport, .. } => match transport {
            McpHttpTransport::Streamable => "http: "@ + url@,
            McpHttpTransport::Sse => "sse: "@ + url@,
        },
    }
}

pub fn mcp_detail(server: &McpServerConfig) -> (r: String)
    ensures
        r@ == detail(*server),
{
    match server {
        McpServerConfig::Stdio { command, args, .. } => {
            let r = cat("stdio: ", command);
            if args.len() == 0 {
                r
            } else {
                cat(&cat(&r, " "), &join_of(args, " "))
            }
        },
        McpServerConfig::Http { url, transport, .. } => match transport {
            McpHttpTransport::Streamable => cat("http: ", url),
            McpHttpTransport::Sse => cat("sse: ", url),
        },
    }
}

pub open spec fn holds_text(v: Seq<String>, s: Seq<char>) -> bool {
    exists|i: int| 0 <= i < v.len() && (#[trigger] v[i])@ == s
}

fn holds_text_of(v: &Vec<String>, s: &str) -> (r: bool)
    ensures
        r == holds_text(v@, s@),
{
    let mut i: usize = 0;
    while i < v.len()
        invariant
            i <= v.len(),
            forall|k: int| 0 <= k < i ==> (#[trigger] v@[k])@ != s@,
        decreases v.len() - i,
    {
        if same(&v[i], s) {
            return true;
        }
        i = i + 1;
    }
    false
}

pub open spec fn list_entry(e: McpServerEntry, disabled: Seq<String>) -> say::LineView {
    say::LineView::Msg(
        say::entry("manage.mcp.list.entry"@).arg("name"@, e.name@).arg(
            "detail"@,
            detail(e.server),
        ).with(
            "tag"@,
            if holds_text(disabled, e.name@) {
                say::entry("manage.mcp.list.disabled_tag"@).val()
            } else {
                say::ValView::Text(Seq::empty())
            },
        ),
    )
}

pub open spec fn list_entries(es: Seq<McpServerEntry>, disabled: Seq<String>, n: int) -> Seq<
    say::LineView,
>
    decreases n,
{
    if n <= 0 {
        Seq::empty()
    } else {
        list_entries(es, disabled, n - 1).push(list_entry(es[n - 1], disabled))
    }
}

pub open spec fn source_lines(s: McpSource) -> Seq<say::LineView> {
    let head = say::said(
        say::entry("manage.mcp.list.source"@).arg("level"@, s.level@).arg("path"@, s.path@),
    );
    if s.servers.len() == 0 {
        head.push(say::LineView::Msg(say::entry("manage.mcp.list.empty"@)))
    } else {
        head + list_entries(s.servers@, s.disabled@, s.servers.len() as int)
    }
}

/// The number of the first `n` sources that exist.
pub open spec fn existing(sources: Seq<McpSource>, n: int) -> nat
    decreases n,
{
    if n <= 0 {
        0
    } else if sources[n - 1].exists {
        existing(sources, n - 1) + 1
    } else {
        existing(sources, n - 1)
    }
}

pub open spec fn existing_lines(sources: Seq<McpSource>, n: int) -> Seq<say::LineView>
    decreases n,
{
    if n <= 0 {
        Seq::empty()
    } else if sources[n - 1].exists {
        existing_lines(sources, n - 1) + source_lines(sources[n - 1])
    } else {
        existing_lines(sources, n - 1)
    }
}

/// What `mcp list` prints: the servers of each source that exists.
pub open spec fn mcp_list_lines(sources: Seq<McpSource>) -> Seq<say::LineView> {
    let n = existing(sources, sources.len() as int);
    let head = say::said(say::entry("manage.mcp.list.header"@).arg("count"@, numeral::dec(n)));
    if n == 0 {
        if sources.len() == 0 {
            head
        } else {
            head.push(
                say::LineView::Msg(
                    say::entry("manage.mcp.list.none"@).arg("path"@, sources[0].path@),
                ),
            )
        }
    } else {
        head + existing_lines(sources, sources.len() as int)
    }
}

fn source_lines_of(s: &McpSource, out: &mut Output)
    ensures
        final(out)@ == old(out)@ + source_lines(*s),
{
    out.say(msg("manage.mcp.list.source").arg("level", &s.level).arg("path", &s.path));
    let ghost head = out@;
    if s.servers.len() == 0 {
        out.say(msg("manage.mcp.list.empty"));
        assert(out@ =~= old(out)@ + source_lines(*s));
        return;
    }
    let mut i: usize = 0;
    assert(out@ =~= head + list_entries(s.servers@, s.disabled@, 0));
    while i < s.servers.len()
        invariant
            i <= s.servers.len(),
            out@ == head + list_entries(s.servers@, s.disabled@, i as int),
        decreases s.servers.len() - i,
    {
        let e = &s.servers[i];
        let tag = if holds_text_of(&s.disabled, &e.name) {
            msg("manage.mcp.list.disabled_tag").val()
        } else {
            Val::Text(String::new())
        };
        out.say(
            msg("manage.mcp.list.entry").arg("name", &e.name).arg(
                "detail",
                &mcp_detail(&e.server),
            ).with("tag", tag),
        );
        i = i + 1;
        assert(out@ =~= head + list_entries(s.servers@, s.disabled@, i as int));
    }
    assert(out@ =~= old(out)@ + source_lines(*s));
}

pub fn mcp_list(sources: &Vec<McpSource>) -> (out: Output)
    ensures
        out@ == mcp_list_lines(sources@),
{
    let mut n: usize = 0;
    let mut i: usize = 0;
    while i < sources.len()
        invariant
            i <= sources.len(),
            n == existing(sources@, i as int),
            n <= i,
        decreases sources.len() - i,
    {
        if sources[i].exists {
            n = n + 1;
        }
        i = i + 1;
    }
    let mut out = just(msg("manage.mcp.list.header").arg("count", &dec_usize(n)));
    if n == 0 {
        if sources.len() > 0 {
            out.say(msg("manage.mcp.list.none").arg("path", &sources[0].path));
        }
        return out;
    }
    let ghost head = out@;
    let mut j: usize = 0;
    assert(out@ =~= head + existing_lines(sources@, 0));
    while j < sources.len()
        invariant
            j <= sources.len(),
            out@ == head + existing_lines(sources@, j as int),
        decreases sources.len() - j,
    {
        if sources[j].exists {
            source_lines_of(&sources[j], &mut out);
        }
        j = j + 1;
        assert(out@ =~= head + existing_lines(sources@, j as int));
    }
    out
}

// ── Status ──────────────────────────────────────────────────────────────────

pub open spec fn noted(key: Seq<char>, name: Seq<char>, v: Seq<String>, n: int) -> Seq<
    say::LineView,
>
    decreases n,
{
    if n <= 0 {
        Seq::empty()
    } else {
        noted(key, name, v, n - 1).push(say::LineView::Msg(say::entry(key).arg(name, v[n - 1]@)))
    }
}

fn note_all(key: &str, name: &str, v: &Vec<String>, out: &mut Output)
    ensures
        final(out)@ == old(out)@ + noted(key@, name@, v@, v.len() as int),
{
    let mut i: usize = 0;
    assert(out@ =~= old(out)@ + noted(key@, name@, v@, 0));
    while i < v.len()
        invariant
            i <= v.len(),
            out@ == old(out)@ + noted(key@, name@, v@, i as int),
        decreases v.len() - i,
    {
        out.say(msg(key).arg(name, &v[i]));
        i = i + 1;
        assert(out@ =~= old(out)@ + noted(key@, name@, v@, i as int));
    }
}

pub open spec fn all_warnings(sources: Seq<McpSource>, n: int) -> Seq<say::LineView>
    decreases n,
{
    if n <= 0 {
        Seq::empty()
    } else {
        all_warnings(sources, n - 1) + noted(
            "manage.mcp.status.warning"@,
            "warning"@,
            sources[n - 1].warnings@,
            sources[n - 1].warnings.len() as int,
        )
    }
}

/// The lines on the servers in effect, under the given names.
pub open spec fn status_entries(
    effective: Seq<McpServerEntry>,
    names: Seq<Seq<char>>,
    n: int,
) -> Seq<say::LineView>
    decreases n,
{
    if n <= 0 {
        Seq::empty()
    } else {
        status_entries(effective, names, n - 1).push(
            say::LineView::Msg(
                say::entry("manage.mcp.status.entry"@).arg("name"@, names[n - 1]).arg(
                    "detail"@,
                    detail(effective[server_index(effective, names[n - 1], 0)].server),
                ),
            ),
        )
    }
}

/// What `mcp status` prints, given the names in alphabetical order.
pub open spec fn mcp_status_lines(
    effective: Seq<McpServerEntry>,
    names: Seq<Seq<char>>,
    notes: Seq<String>,
    sources: Seq<McpSource>,
) -> Seq<say::LineView> {
    let head = say::said(
        say::entry("manage.mcp.status.header"@).arg("count"@, numeral::dec(names.len())),
    );
    let body = if names.len() == 0 {
        say::said(say::entry("manage.mcp.status.none"@))
    } else {
        status_entries(effective, names, names.len() as int)
    };
    head + body + noted("manage.mcp.status.note"@, "note"@, notes, notes.len() as int)
        + all_warnings(sources, sources.len() as int)
}

proof fn lemma_server_index(servers: Seq<McpServerEntry>, name: Seq<char>, i: int)
    requires
        0 <= i <= servers.len(),
        exists|k: int| i <= k < servers.len() && (#[trigger] servers[k]).name@ == name,
    ensures
        i <= server_index(servers, name, i) < servers.len(),
    decreases servers.len() - i,
{
    if i < servers.len() && servers[i].name@ != name {
        lemma_server_index(servers, name, i + 1);
    }
}

/// The value under a name.
pub open spec fn value_under(p: prompts::Pairs, k: Seq<char>) -> Option<Seq<char>> {
    if prompts::holds_key(p, k) {
        Some(p[prompts::key_index(p, k, 0)].1)
    } else {
        None
    }
}

/// Settings that give every name the same value, in whatever order.
pub open spec fn same_settings(a: prompts::Pairs, b: prompts::Pairs) -> bool {
    forall|k: Seq<char>| #[trigger] value_under(a, k) == value_under(b, k)
}

/// Two servers are configured alike.
pub open spec fn alike(a: McpServerConfig, b: McpServerConfig) -> bool {
    match (a, b) {
        (
            McpServerConfig::Stdio { command: c, args: x, env: e, timeout_ms: m },
            McpServerConfig::Stdio { command: d, args: y, env: f, timeout_ms: n },
        ) => c@ == d@ && text::texts(x@) == text::texts(y@) && same_settings(
            manage::pair_texts(e@),
            manage::pair_texts(f@),
        ) && m == n,
        (
            McpServerConfig::Http { url: u, headers: g, timeout_ms: m, oauth: o, transport: s },
            McpServerConfig::Http { url: v, headers: h, timeout_ms: n, oauth: p, transport: t },
        ) => u@ == v@ && same_settings(manage::pair_texts(g@), manage::pair_texts(h@)) && m == n
            && manage::opt_text(o) == manage::opt_text(p) && s == t,
        _ => false,
    }
}

fn same_texts(a: &Vec<String>, b: &Vec<String>) -> (r: bool)
    ensures
        r == (text::texts(a@) == text::texts(b@)),
{
    let ghost av = text::texts(a@);
    let ghost bv = text::texts(b@);
    if a.len() != b.len() {
        assert(av.len() != bv.len());
        return false;
    }
    let mut i: usize = 0;
    while i < a.len()
        invariant
            i <= a.len(),
            a.len() == b.len(),
            av == text::texts(a@),
            bv == text::texts(b@),
            forall|k: int| 0 <= k < i ==> av[k] == bv[k],
        decreases a.len() - i,
    {
        assert(av[i as int] == a@[i as int]@ && bv[i as int] == b@[i as int]@);
        if !same(&a[i], &b[i]) {
            return false;
        }
        i = i + 1;
    }
    assert(av =~= bv);
    true
}

/// Whether every name of the first settings has its value in the second.
fn agrees(a: &Vec<(String, String)>, b: &Vec<(String, String)>) -> (r: bool)
    ensures
        r == forall|k: Seq<char>|
            prompts::holds_key(manage::pair_texts(a@), k) ==> #[trigger] value_under(
                manage::pair_texts(a@),
                k,
            ) == value_under(manage::pair_texts(b@), k),
{
    let ghost av = manage::pair_texts(a@);
    let ghost bv = manage::pair_texts(b@);
    let mut i: usize = 0;
    while i < a.len()
        invariant
            i <= a.len(),
            av == manage::pair_texts(a@),
            bv == manage::pair_texts(b@),
            forall|j: int|
                0 <= j < i ==> value_under(av, (#[trigger] av[j]).0) == value_under(bv, av[j].0),
        decreases a.len() - i,
    {
        let name = &a[i].0;
        assert(av[i as int].0 == name@);
        let x: usize = find_key(a, name);
        let y: usize = find_key(b, name);
        proof {
            prompts::key_index_stops(av, name@, 0);
            prompts::key_index_stops(bv, name@, 0);
            assert(x <= i);
            assert(av[x as int].1 == a@[x as int].1@);
        }
        if y >= b.len() || !same(&a[x].1, &b[y].1) {
            assert(y < b.len() ==> bv[y as int].1 == b@[y as int].1@);
            assert(prompts::holds_key(av, name@));
            assert(value_under(av, name@) != value_under(bv, name@));
            return false;
        }
        assert(bv[y as int].1 == b@[y as int].1@);
        i = i + 1;
    }
    proof {
        assert forall|k: Seq<char>| prompts::holds_key(av, k) implies #[trigger] value_under(av, k)
            == value_under(bv, k) by {
            prompts::key_index_stops(av, k, 0);
            assert(av[prompts::key_index(av, k, 0)].0 == k);
        }
    }
    true
}

fn same_settings_of(a: &Vec<(String, String)>, b: &Vec<(String, String)>) -> (r: bool)
    ensures
        r == same_settings(manage::pair_texts(a@), manage::pair_texts(b@)),
{
    let ghost av = manage::pair_texts(a@);
    let ghost bv = manage::pair_texts(b@);
    let there = agrees(a, b);
    let back = agrees(b, a);
    proof {
        if there && back {
            assert forall|k: Seq<char>| #[trigger] value_under(av, k) == value_under(bv, k) by {
                if prompts::holds_key(bv, k) {
                    assert(value_under(bv, k) == value_under(av, k));
                }
            }
        }
        if same_settings(av, bv) {
            assert forall|k: Seq<char>| prompts::holds_key(bv, k) implies #[trigger] value_under(
                bv,
                k,
            ) == value_under(av, k) by {
                assert(value_under(av, k) == value_under(bv, k));
            }
        }
    }
    there && back
}

fn same_opt(a: &Option<String>, b: &Option<String>) -> (r: bool)
    ensures
        r == (manage::opt_text(*a) == manage::opt_text(*b)),
{
    match (a, b) {
        (Some(x), Some(y)) => same(x, y),
        (None, None) => true,
        _ => false,
    }
}

fn alike_of(a: &McpServerConfig, b: &McpServerConfig) -> (r: bool)
    ensures
        r == alike(*a, *b),
{
    match (a, b) {
        (
            McpServerConfig::Stdio { command: c, args: x, env: e, timeout_ms: m },
            McpServerConfig::Stdio { command: d, args: y, env: f, timeout_ms: n },
        ) => same(c, d) && same_texts(x, y) && same_settings_of(e, f) && same_limit(*m, *n),
        (
            McpServerConfig::Http { url: u, headers: g, timeout_ms: m, oauth: o, transport: s },
            McpServerConfig::Http { url: v, headers: h, timeout_ms: n, oauth: p, transport: t },
        ) => same(u, v) && same_settings_of(g, h) && same_limit(*m, *n) && same_opt(o, p) && *s
            == *t,
        _ => false,
    }
}

fn same_limit(a: Option<u64>, b: Option<u64>) -> (r: bool)
    ensures
        r == (a == b),
{
    match (a, b) {
        (Some(x), Some(y)) => x == y,
        (None, None) => true,
        _ => false,
    }
}

/// The server, under its name, stands in the source just so.
pub open spec fn stands_in(s: McpSource, e: McpServerEntry) -> bool {
    let k = server_index(s.servers@, e.name@, 0);
    k < s.servers.len() && alike(s.servers@[k].server, e.server)
}

/// The server comes from some source.
pub open spec fn from_source(sources: Seq<McpSource>, e: McpServerEntry) -> bool {
    exists|i: int| 0 <= i < sources.len() && stands_in(#[trigger] sources[i], e)
}

/// Which servers of the configuration come from no source, in order.
pub open spec fn own_servers(configured: Seq<McpServerEntry>, sources: Seq<McpSource>, n: int) -> Seq<
    usize,
>
    decreases n,
{
    if n <= 0 {
        Seq::empty()
    } else if from_source(sources, configured[n - 1]) {
        own_servers(configured, sources, n - 1)
    } else {
        own_servers(configured, sources, n - 1).push((n - 1) as usize)
    }
}

/// Finds the servers that the configuration itself names: those that no source accounts
/// for, by their places.
pub fn mcp_own_servers(configured: &Vec<McpServerEntry>, sources: &Vec<McpSource>) -> (r: Vec<usize>)
    ensures
        r@ == own_servers(configured@, sources@, configured.len() as int),
{
    let mut r: Vec<usize> = Vec::new();
    let mut i: usize = 0;
    while i < configured.len()
        invariant
            i <= configured.len(),
            r@ == own_servers(configured@, sources@, i as int),
        decreases configured.len() - i,
    {
        let e = &configured[i];
        let mut found: bool = false;
        let mut j: usize = 0;
        while j < sources.len()
            invariant
                j <= sources.len(),
                found <==> exists|k: int| 0 <= k < j && stands_in(#[trigger] sources@[k], *e),
            decreases sources.len() - j,
        {
            let k: usize = server_index_of(&sources[j].servers, &e.name);
            if k < sources[j].servers.len() && alike_of(&sources[j].servers[k].server, &e.server) {
                assert(stands_in(sources@[j as int], *e));
                found = true;
            }
            j = j + 1;
        }
        if !found {
            r.push(i);
        }
        i = i + 1;
    }
    r
}

/// Shows the servers in effect by name, what the merging of the sources noted, and what
/// the sources were warned of.
pub fn mcp_status(
    effective: &Vec<McpServerEntry>,
    notes: &Vec<String>,
    sources: &Vec<McpSource>,
) -> (out: Output)
    ensures
        exists|names: Seq<Seq<char>>|
            #[trigger] order::sorted_set(names, server_names(effective@)) && out@
                == mcp_status_lines(effective@, names, notes@, sources@),
{
    let all = names_of(effective);
    let names = sort_dedup(&all);
    let ghost nv = text::texts(names@);
    assert(nv.len() == names.len());
    let mut out = just(msg("manage.mcp.status.header").arg("count", &dec_usize(names.len())));
    let ghost head = out@;
    if names.len() == 0 {
        out.say(msg("manage.mcp.status.none"));
        assert(out@ =~= head + say::said(say::entry("manage.mcp.status.none"@)));
    } else {
        let mut i: usize = 0;
        assert(out@ =~= head + status_entries(effective@, nv, 0));
        while i < names.len()
            invariant
                i <= names.len(),
                nv == text::texts(names@),
                order::sorted_set(nv, server_names(effective@)),
                out@ == head + status_entries(effective@, nv, i as int),
            decreases names.len() - i,
        {
            assert(nv[i as int] == names@[i as int]@);
            let k: usize = server_index_of(effective, &names[i]);
            proof {
                assert(nv.contains(nv[i as int]));
                let sn = server_names(effective@);
                assert(sn.contains(nv[i as int]));
                let m = choose|m: int| 0 <= m < sn.len() && sn[m] == nv[i as int];
                assert(effective@[m].name@ == nv[i as int]);
                lemma_server_index(effective@, nv[i as int], 0);
            }
            out.say(
                msg("manage.mcp.status.entry").arg("name", &names[i]).arg(
                    "detail",
                    &mcp_detail(&effective[k].server),
                ),
            );
            i = i + 1;
            assert(out@ =~= head + status_entries(effective@, nv, i as int));
        }
    }
    note_all("manage.mcp.status.note", "note", notes, &mut out);
    let ghost so_far = out@;
    let mut j: usize = 0;
    assert(out@ =~= so_far + all_warnings(sources@, 0));
    while j < sources.len()
        invariant
            j <= sources.len(),
            out@ == so_far + all_warnings(sources@, j as int),
        decreases sources.len() - j,
    {
        note_all("manage.mcp.status.warning", "warning", &sources[j].warnings, &mut out);
        j = j + 1;
        assert(out@ =~= so_far + all_warnings(sources@, j as int));
    }
    assert(order::sorted_set(nv, server_names(effective@)));
    out
}

/// Whether a management command is one on tool servers that works on their configuration.
pub fn run_mcp_cmd(cmd: &ManageCmd) -> (r: bool)
    ensures
        r == (cmd is McpAdd || cmd is McpRemove || cmd is McpEnable || cmd is McpDisable
            || cmd is McpList || cmd is McpStatus),
{
    match cmd {
        ManageCmd::McpAdd(_) | ManageCmd::McpRemove { .. } | ManageCmd::McpEnable {
            ..
        } | ManageCmd::McpDisable { .. } | ManageCmd::McpList | ManageCmd::McpStatus => true,
        _ => false,
    }
}

/// A line on a server: its name, how it is reached, and a mark if it is switched off.
pub open spec fn tells_of(l: say::LineView, e: McpServerEntry, off: bool) -> bool {
    match l {
        say::LineView::Msg(m) => {
            &&& m.args.len() == 3
            &&& m.args[0].1 == say::ValView::Text(e.name@)
            &&& m.args[1].1 == say::ValView::Text(detail(e.server))
            &&& off == (m.args[2].1 is Entry)
            &&& !off ==> m.args[2].1 == say::ValView::Text(Seq::empty())
        },
        _ => false,
    }
}

proof fn entries_hold_each(es: Seq<McpServerEntry>, disabled: Seq<String>, n: int)
    requires
        0 <= n <= es.len(),
    ensures
        list_entries(es, disabled, n).len() == n,
        forall|i: int|
            0 <= i < n ==> #[trigger] list_entries(es, disabled, n)[i] == list_entry(
                es[i],
                disabled,
            ),
    decreases n,
{
    if n > 0 {
        entries_hold_each(es, disabled, n - 1);
    }
}

/// A source is listed with its level and its path, and behind them every server that it names,
/// in order, those that it switches off with a mark.
pub proof fn every_server_is_listed(s: McpSource)
    ensures
        source_lines(s).len() == (if s.servers@.len() == 0 {
            2nat
        } else {
            s.servers@.len() + 1
        }),
        source_lines(s)[0] matches say::LineView::Msg(m) && m.args.len() == 2 && m.args[0].1
            == say::ValView::Text(s.level@) && m.args[1].1 == say::ValView::Text(s.path@),
        forall|i: int|
            0 <= i < s.servers@.len() ==> tells_of(
                #[trigger] source_lines(s)[i + 1],
                s.servers@[i],
                exists|k: int|
                    0 <= k < s.disabled@.len() && (#[trigger] s.disabled@[k])@
                        == s.servers@[i].name@,
            ),
{
    entries_hold_each(s.servers@, s.disabled@, s.servers@.len() as int);
    assert forall|i: int| 0 <= i < s.servers@.len() implies tells_of(
        #[trigger] source_lines(s)[i + 1],
        s.servers@[i],
        exists|k: int|
            0 <= k < s.disabled@.len() && (#[trigger] s.disabled@[k])@ == s.servers@[i].name@,
    ) by {
        assert(source_lines(s)[i + 1] == list_entries(
            s.servers@,
            s.disabled@,
            s.servers@.len() as int,
        )[i]);
    }
}

proof fn existing_of_front(v: Seq<McpSource>, x: McpSource, n: int)
    requires
        0 <= n <= v.len(),
    ensures
        existing(v.push(x), n) == existing(v, n),
        existing_lines(v.push(x), n) == existing_lines(v, n),
    decreases n,
{
    if n > 0 {
        existing_of_front(v, x, n - 1);
        assert(v.push(x)[n - 1] == v[n - 1]);
    }
}


/// One more source that exists adds its lines at the end of the listing and one to the count;
/// one that does not exist adds nothing.
pub proof fn every_source_is_listed(v: Seq<McpSource>, x: McpSource)
    requires
        existing(v, v.len() as int) > 0,
    ensures
        ({
            let before = mcp_list_lines(v);
            let after = mcp_list_lines(v.push(x));
            let n = existing(v, v.len() as int);
            &&& x.exists ==> after.skip(1) == before.skip(1) + source_lines(x)
            &&& x.exists ==> (after[0] matches say::LineView::Msg(m) && m.args.len() == 1
                && m.args[0].1 == say::ValView::Text(numeral::dec(n + 1)))
            &&& !x.exists ==> after == before
        }),
{
    existing_of_front(v, x, v.len() as int);
    let b = existing_lines(v, v.len() as int);
    let before = mcp_list_lines(v);
    let after = mcp_list_lines(v.push(x));
    assert(before.skip(1) =~= b);
    if x.exists {
        assert(after.skip(1) =~= b + source_lines(x));
    }
}

/// A server that is looked for is the first of its name; none is found where no server has it.
pub proof fn servers_are_found_by_name(v: Seq<McpServerEntry>, name: Seq<char>, i: int)
    requires
        0 <= i <= v.len(),
        forall|j: int| 0 <= j < i ==> (#[trigger] v[j]).name@ != name,
        i < v.len() ==> v[i].name@ == name,
    ensures
        server_index(v, name, 0) == i,
{
    found_from(v, name, 0, i);
}

proof fn found_from(v: Seq<McpServerEntry>, name: Seq<char>, j: int, i: int)
    requires
        0 <= j <= i <= v.len(),
        forall|j: int| 0 <= j < i ==> (#[trigger] v[j]).name@ != name,
        i < v.len() ==> v[i].name@ == name,
    ensures
        server_index(v, name, j) == i,
    decreases i - j,
{
    if j < i {
        assert(v[j].name@ != name);
        found_from(v, name, j + 1, i);
    }
}

} // verus!
