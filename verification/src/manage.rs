//! Management commands: which one a command line names, and with what arguments.
use vstd::prelude::*;

use crate::pieces;
use crate::pieces::{join_of, split_once_of};
use crate::say;
use crate::say::{just, msg, Msg, Output};
use crate::text;
use crate::text::{cat, chars_of, copy_text, has_prefix, same, text_of, trimmed};

verus! {

/// How a remote server is spoken to.
#[derive(Clone, Copy, Debug, PartialEq, Eq, Structural)]
pub enum McpHttpTransport {
    Streamable,
    Sse,
}

/// The arguments of `mcp add`, already checked against each other.
#[derive(Debug)]
pub struct McpAddArgs {
    pub name: String,
    /// The program of a local server; a server has either a program or an address.
    pub command: Option<String>,
    pub args: Vec<String>,
    /// The address of a remote server.
    pub url: Option<String>,
    pub transport: Option<McpHttpTransport>,
    /// Environment variables, in the order in which they were given.
    pub env: Vec<(String, String)>,
    /// Whether the server belongs to the project, not to the user.
    pub project: bool,
}

#[verifier::ext_equal]
pub struct McpAddView {
    pub name: Seq<char>,
    pub command: Option<Seq<char>>,
    pub args: Seq<Seq<char>>,
    pub url: Option<Seq<char>>,
    pub transport: Option<McpHttpTransport>,
    pub env: Seq<(Seq<char>, Seq<char>)>,
    pub project: bool,
}

pub open spec fn opt_text(o: Option<String>) -> Option<Seq<char>> {
    match o {
        Some(s) => Some(s@),
        None => None,
    }
}

pub open spec fn pair_texts(v: Seq<(String, String)>) -> Seq<(Seq<char>, Seq<char>)> {
    Seq::new(v.len(), |i: int| (v[i].0@, v[i].1@))
}

impl View for McpAddArgs {
    type V = McpAddView;

    open spec fn view(&self) -> McpAddView {
        McpAddView {
            name: self.name@,
            command: opt_text(self.command),
            args: text::texts(self.args@),
            url: opt_text(self.url),
            transport: self.transport,
            env: pair_texts(self.env@),
            project: self.project,
        }
    }
}

/// A management command.
#[derive(Debug)]
pub enum ManageCmd<S = String, A = McpAddArgs> {
    ModelsList,
    ModelsCatalog(S),
    AuthList,
    AuthSave { provider: S },
    AuthRemove { provider: S },
    AuthLogin { id: S },
    AuthLogout { provider: S },
    McpLogin { server: S },
    McpLogout { server: S },
    McpAdd(A),
    McpRemove { name: S, project: bool },
    McpEnable { name: S },
    McpDisable { name: S },
    McpList,
    McpStatus,
    ConfigPath,
    ConfigCheck,
    ConfigGet { key: S },
    ConfigShow,
    ConfigKeys { prefix: Option<S> },
    ConfigSet { key: S, value: S },
}

impl ManageCmd {
    pub open spec fn view(&self) -> ManageCmd<Seq<char>, McpAddView> {
        match self {
            ManageCmd::ModelsList => ManageCmd::ModelsList,
            ManageCmd::ModelsCatalog(f) => ManageCmd::ModelsCatalog(f@),
            ManageCmd::AuthList => ManageCmd::AuthList,
            ManageCmd::AuthSave { provider } => ManageCmd::AuthSave { provider: provider@ },
            ManageCmd::AuthRemove { provider } => ManageCmd::AuthRemove { provider: provider@ },
            ManageCmd::AuthLogin { id } => ManageCmd::AuthLogin { id: id@ },
            ManageCmd::AuthLogout { provider } => ManageCmd::AuthLogout { provider: provider@ },
            ManageCmd::McpLogin { server } => ManageCmd::McpLogin { server: server@ },
            ManageCmd::McpLogout { server } => ManageCmd::McpLogout { server: server@ },
            ManageCmd::McpAdd(a) => ManageCmd::McpAdd(a@),
            ManageCmd::McpRemove { name, project } => ManageCmd::McpRemove {
                name: name@,
                project: *project,
            },
            ManageCmd::McpEnable { name } => ManageCmd::McpEnable { name: name@ },
            ManageCmd::McpDisable { name } => ManageCmd::McpDisable { name: name@ },
            ManageCmd::McpList => ManageCmd::McpList,
            ManageCmd::McpStatus => ManageCmd::McpStatus,
            ManageCmd::ConfigPath => ManageCmd::ConfigPath,
            ManageCmd::ConfigCheck => ManageCmd::ConfigCheck,
            ManageCmd::ConfigGet { key } => ManageCmd::ConfigGet { key: key@ },
            ManageCmd::ConfigShow => ManageCmd::ConfigShow,
            ManageCmd::ConfigKeys { prefix } => ManageCmd::ConfigKeys { prefix: opt_text(*prefix) },
            ManageCmd::ConfigSet { key, value } => ManageCmd::ConfigSet { key: key@, value: value@ },
        }
    }
}

/// What a command line is, seen as a management command.
#[derive(Debug)]
pub enum Route<C = ManageCmd, M = Msg, H = Output> {
    /// No management command: the line goes on as it would without them.
    Fallthrough,
    /// A management command with wrong arguments: the message is printed.
    Usage(M),
    Run(C),
    /// A request for help: the lines are printed.
    Help(H),
}

pub type RouteView = Route<ManageCmd<Seq<char>, McpAddView>, say::MsgView, Seq<say::LineView>>;

impl Route {
    pub open spec fn view(&self) -> RouteView {
        match self {
            Route::Fallthrough => Route::Fallthrough,
            Route::Usage(m) => Route::Usage(m@),
            Route::Run(c) => Route::Run(c.view()),
            Route::Help(h) => Route::Help(h@),
        }
    }
}

pub open spec fn usage(key: Seq<char>) -> RouteView {
    Route::Usage(say::entry(key))
}

fn usage_of(key: &str) -> (r: Route)
    ensures
        r.view() == usage(key@),
{
    Route::Usage(msg(key))
}

// ── Lists of words ──────────────────────────────────────────────────────────

fn tail_of(v: &Vec<String>, from: usize) -> (r: Vec<String>)
    requires
        from <= v.len(),
    ensures
        text::texts(r@) == text::texts(v@).skip(from as int),
        r.len() == v.len() - from,
{
    let mut r: Vec<String> = Vec::new();
    let mut i: usize = from;
    assert(text::texts(r@) =~= text::texts(v@).subrange(from as int, i as int));
    while i < v.len()
        invariant
            from <= i <= v.len(),
            r.len() == i - from,
            text::texts(r@) == text::texts(v@).subrange(from as int, i as int),
        decreases v.len() - i,
    {
        let s = copy_text(&v[i]);
        proof {
            text::lemma_texts_push(r@, s);
        }
        r.push(s);
        i = i + 1;
        assert(text::texts(r@) =~= text::texts(v@).subrange(from as int, i as int));
    }
    assert(text::texts(r@) =~= text::texts(v@).skip(from as int));
    r
}

pub open spec fn is_flag(s: Seq<char>) -> bool {
    s.len() > 0 && s[0] == '-'
}

pub fn flag_like(s: &str) -> (r: bool)
    ensures
        r == is_flag(s@),
{
    let v = chars_of(s);
    v.len() > 0 && v[0] == '-'
}

fn starts_at(s: &str) -> (r: bool)
    ensures
        r == (s@.len() > 0 && s@[0] == '@'),
{
    let v = chars_of(s);
    v.len() > 0 && v[0] == '@'
}

pub open spec fn is_list_action(s: Seq<char>) -> bool {
    s == "list"@ || s == "ls"@
}

fn list_action(s: &str) -> (r: bool)
    ensures
        r == is_list_action(s@),
{
    same(s, "list") || same(s, "ls")
}

// ── Provider names ──────────────────────────────────────────────────────────

pub open spec fn is_provider_char(c: char) -> bool {
    text::is_digit(c) || text::is_lower(c) || c == '-'
}

/// The normal form of a provider name.
pub open spec fn provider_form(s: Seq<char>) -> Seq<char> {
    let t = text::trim(s);
    Seq::new(t.len(), |i: int| text::lower_char(t[i]))
}

/// A provider name is made of ASCII letters, digits and hyphens and does not begin with a
/// hyphen.
pub open spec fn is_provider(s: Seq<char>) -> bool {
    let p = provider_form(s);
    &&& p.len() > 0
    &&& p[0] != '-'
    &&& forall|i: int| 0 <= i < p.len() ==> is_provider_char(#[trigger] p[i])
}

pub open spec fn bad_provider(s: Seq<char>) -> say::MsgView {
    say::entry("manage.auth.invalid_provider"@).arg("provider"@, s)
}

/// A normal form is its own normal form, and is again a provider name.
pub proof fn provider_form_is_stable(s: Seq<char>)
    requires
        is_provider(s),
    ensures
        is_provider(provider_form(s)),
        provider_form(provider_form(s)) == provider_form(s),
{
    let p = provider_form(s);
    assert(!text::is_white(p[0])) by {
        assert(is_provider_char(p[0]));
    }
    assert(!text::is_white(p.last())) by {
        assert(is_provider_char(p[p.len() - 1]));
    }
    assert(text::trim(p) == p);
    assert(provider_form(p) =~= p) by {
        assert forall|i: int| 0 <= i < p.len() implies text::lower_char(p[i]) == p[i] by {
            assert(is_provider_char(p[i]));
        }
    }
}

pub fn validate_provider(provider: &str) -> (r: Result<String, Msg>)
    ensures
        match r {
            Ok(p) => is_provider(provider@) && p@ == provider_form(provider@),
            Err(m) => !is_provider(provider@) && m@ == bad_provider(provider@),
        },
{
    let t = trimmed(provider);
    let v = chars_of(&t);
    let mut w: Vec<char> = Vec::new();
    let mut ok: bool = v.len() > 0;
    let mut i: usize = 0;
    let ghost form = provider_form(provider@);
    while i < v.len()
        invariant
            i <= v.len(),
            v@ == text::trim(provider@),
            form == provider_form(provider@),
            w@ == form.take(i as int),
            ok == (v.len() > 0 && forall|k: int| 0 <= k < i ==> is_provider_char(#[trigger] form[k])),
        decreases v.len() - i,
    {
        let c = text::to_lower_char(v[i]);
        assert(form[i as int] == c);
        if !(('0' <= c && c <= '9') || ('a' <= c && c <= 'z') || c == '-') {
            ok = false;
        }
        w.push(c);
        i = i + 1;
        assert(w@ =~= form.take(i as int));
    }
    assert(form.take(i as int) =~= form);
    if ok && w[0] != '-' {
        Ok(text_of(&w))
    } else {
        Err(msg("manage.auth.invalid_provider").arg("provider", provider))
    }
}

// ── auth ────────────────────────────────────────────────────────────────────

/// The arguments other than `--stdin`.
pub open spec fn without_stdin(args: Seq<Seq<char>>) -> Seq<Seq<char>>
    decreases args.len(),
{
    if args.len() == 0 {
        Seq::empty()
    } else if args.last() == "--stdin"@ {
        without_stdin(args.drop_last())
    } else {
        without_stdin(args.drop_last()).push(args.last())
    }
}

/// `auth save` takes one provider and `--stdin`.
pub open spec fn auth_save_route(args: Seq<Seq<char>>) -> RouteView {
    let names = without_stdin(args);
    if names.len() == 0 {
        usage("manage.auth.stdin_required"@)
    } else if names.len() > 1 {
        usage("manage.usage.auth"@)
    } else if !is_provider(names[0]) {
        Route::Usage(bad_provider(names[0]))
    } else if args.contains("--stdin"@) {
        Route::Run(ManageCmd::AuthSave { provider: provider_form(names[0]) })
    } else {
        usage("manage.auth.stdin_required"@)
    }
}

pub fn route_auth_save(args: &Vec<String>) -> (r: Route)
    ensures
        r.view() == auth_save_route(text::texts(args@)),
{
    let ghost av = text::texts(args@);
    let mut stdin: bool = false;
    let mut names: Vec<String> = Vec::new();
    let mut i: usize = 0;
    assert(text::texts(names@) =~= without_stdin(av.take(0)));
    while i < args.len()
        invariant
            i <= args.len(),
            av == text::texts(args@),
            stdin == av.take(i as int).contains("--stdin"@),
            text::texts(names@) == without_stdin(av.take(i as int)),
        decreases args.len() - i,
    {
        let ghost head = av.take(i + 1);
        assert(head.drop_last() =~= av.take(i as int));
        assert(head.last() == args@[i as int]@);
        assert(head == av.take(i as int).push(args@[i as int]@));
        if same(&args[i], "--stdin") {
            stdin = true;
            assert(head[i as int] == "--stdin"@);
        } else {
            let s = copy_text(&args[i]);
            proof {
                text::lemma_texts_push(names@, s);
                if av.take(i as int).contains("--stdin"@) {
                    let k = choose|k: int|
                        0 <= k < av.take(i as int).len() && av.take(i as int)[k] == "--stdin"@;
                    assert(head[k] == "--stdin"@);
                }
            }
            names.push(s);
        }
        i = i + 1;
    }
    assert(av.take(i as int) =~= av);
    let ghost nv = text::texts(names@);
    assert(nv.len() == names@.len());
    if names.len() == 0 {
        return usage_of("manage.auth.stdin_required");
    }
    if names.len() > 1 {
        return usage_of("manage.usage.auth");
    }
    assert(nv[0] == names@[0]@);
    match validate_provider(&names[0]) {
        Ok(provider) => if stdin {
            Route::Run(ManageCmd::AuthSave { provider })
        } else {
            usage_of("manage.auth.stdin_required")
        },
        Err(m) => Route::Usage(m),
    }
}

/// `auth remove` and `auth logout` take exactly one provider.
pub open spec fn one_provider_route(args: Seq<Seq<char>>, logout: bool) -> RouteView {
    if args.len() != 1 {
        usage("manage.usage.auth"@)
    } else if !is_provider(args[0]) {
        Route::Usage(bad_provider(args[0]))
    } else if logout {
        Route::Run(ManageCmd::AuthLogout { provider: provider_form(args[0]) })
    } else {
        Route::Run(ManageCmd::AuthRemove { provider: provider_form(args[0]) })
    }
}

pub fn route_auth_remove(args: &Vec<String>) -> (r: Route)
    ensures
        r.view() == one_provider_route(text::texts(args@), false),
{
    if args.len() != 1 {
        return usage_of("manage.usage.auth");
    }
    assert(text::texts(args@)[0] == args@[0]@);
    match validate_provider(&args[0]) {
        Ok(provider) => Route::Run(ManageCmd::AuthRemove { provider }),
        Err(m) => Route::Usage(m),
    }
}

pub fn route_auth_logout(args: &Vec<String>) -> (r: Route)
    ensures
        r.view() == one_provider_route(text::texts(args@), true),
{
    if args.len() != 1 {
        return usage_of("manage.usage.auth");
    }
    assert(text::texts(args@)[0] == args@[0]@);
    match validate_provider(&args[0]) {
        Ok(provider) => Route::Run(ManageCmd::AuthLogout { provider }),
        Err(m) => Route::Usage(m),
    }
}

/// Exactly one argument, neither blank nor a flag.
pub open spec fn one_name(args: Seq<Seq<char>>) -> Option<Seq<char>> {
    if args.len() == 1 && !text::is_blank(args[0]) && !is_flag(args[0]) {
        Some(text::trim(args[0]))
    } else {
        None
    }
}

fn one_name_of(args: &Vec<String>) -> (r: Option<String>)
    ensures
        opt_text(r) == one_name(text::texts(args@)),
{
    if args.len() == 1 {
        assert(text::texts(args@)[0] == args@[0]@);
        let t = trimmed(&args[0]);
        if !t.as_str().is_empty() && !flag_like(&args[0]) {
            return Some(t);
        }
    }
    None
}

pub open spec fn auth_login_route(args: Seq<Seq<char>>) -> RouteView {
    match one_name(args) {
        Some(id) => Route::Run(ManageCmd::AuthLogin { id }),
        None => usage("manage.auth.login.usage"@),
    }
}

pub fn route_auth_login(args: &Vec<String>) -> (r: Route)
    ensures
        r.view() == auth_login_route(text::texts(args@)),
{
    match one_name_of(args) {
        Some(id) => Route::Run(ManageCmd::AuthLogin { id }),
        None => usage_of("manage.auth.login.usage"),
    }
}

// ── mcp ─────────────────────────────────────────────────────────────────────

pub open spec fn mcp_login_route(args: Seq<Seq<char>>) -> RouteView {
    match one_name(args) {
        Some(server) => Route::Run(ManageCmd::McpLogin { server }),
        None => usage("manage.mcp.login.usage"@),
    }
}

pub fn route_mcp_login(args: &Vec<String>) -> (r: Route)
    ensures
        r.view() == mcp_login_route(text::texts(args@)),
{
    match one_name_of(args) {
        Some(server) => Route::Run(ManageCmd::McpLogin { server }),
        None => usage_of("manage.mcp.login.usage"),
    }
}

pub open spec fn mcp_logout_route(args: Seq<Seq<char>>) -> RouteView {
    match one_name(args) {
        Some(server) => Route::Run(ManageCmd::McpLogout { server }),
        None => usage("manage.mcp.usage"@),
    }
}

pub fn route_mcp_logout(args: &Vec<String>) -> (r: Route)
    ensures
        r.view() == mcp_logout_route(text::texts(args@)),
{
    match one_name_of(args) {
        Some(server) => Route::Run(ManageCmd::McpLogout { server }),
        None => usage_of("manage.mcp.usage"),
    }
}

pub open spec fn mcp_toggle_route(args: Seq<Seq<char>>, disabled: bool) -> RouteView {
    match one_name(args) {
        Some(name) => if disabled {
            Route::Run(ManageCmd::McpDisable { name })
        } else {
            Route::Run(ManageCmd::McpEnable { name })
        },
        None => usage("manage.mcp.usage"@),
    }
}

pub fn route_mcp_toggle(args: &Vec<String>, disabled: bool) -> (r: Route)
    ensures
        r.view() == mcp_toggle_route(text::texts(args@), disabled),
{
    match one_name_of(args) {
        Some(name) => if disabled {
            Route::Run(ManageCmd::McpDisable { name })
        } else {
            Route::Run(ManageCmd::McpEnable { name })
        },
        None => usage_of("manage.mcp.usage"),
    }
}

/// Reads the arguments of `mcp remove` from the `i`-th on: the name found so far and
/// whether `--project` was given; nothing where a flag or a second name stands.
pub open spec fn mcp_remove_args(
    args: Seq<Seq<char>>,
    i: int,
    name: Option<Seq<char>>,
    project: bool,
) -> Option<(Option<Seq<char>>, bool)>
    decreases args.len() - i,
{
    if i < 0 || i >= args.len() {
        Some((name, project))
    } else if args[i] == "--project"@ {
        mcp_remove_args(args, i + 1, name, true)
    } else if is_flag(args[i]) || name is Some {
        None
    } else {
        mcp_remove_args(args, i + 1, Some(text::trim(args[i])), project)
    }
}

/// `mcp remove` takes one name and perhaps `--project`.
pub open spec fn mcp_remove_route(args: Seq<Seq<char>>) -> RouteView {
    match mcp_remove_args(args, 0, None, false) {
        Some((Some(name), project)) => if name.len() > 0 {
            Route::Run(ManageCmd::McpRemove { name, project })
        } else {
            usage("manage.mcp.usage"@)
        },
        _ => usage("manage.mcp.usage"@),
    }
}

pub fn route_mcp_remove(args: &Vec<String>) -> (r: Route)
    ensures
        r.view() == mcp_remove_route(text::texts(args@)),
{
    let ghost av = text::texts(args@);
    let mut name: Option<String> = None;
    let mut project: bool = false;
    let mut i: usize = 0;
    while i < args.len()
        invariant
            i <= args.len(),
            av == text::texts(args@),
            mcp_remove_args(av, 0, None, false) == mcp_remove_args(
                av,
                i as int,
                opt_text(name),
                project,
            ),
        decreases args.len() - i,
    {
        assert(av[i as int] == args@[i as int]@);
        if same(&args[i], "--project") {
            project = true;
        } else if flag_like(&args[i]) || name.is_some() {
            return usage_of("manage.mcp.usage");
        } else {
            name = Some(trimmed(&args[i]));
        }
        i = i + 1;
    }
    match name {
        Some(n) => if n.as_str().is_empty() {
            usage_of("manage.mcp.usage")
        } else {
            Route::Run(ManageCmd::McpRemove { name: n, project })
        },
        None => usage_of("manage.mcp.usage"),
    }
}

// ── mcp add ─────────────────────────────────────────────────────────────────

/// What has been read of the arguments of `mcp add`.
#[verifier::ext_equal]
pub struct AddState {
    pub name: Option<Seq<char>>,
    pub command: Option<Seq<char>>,
    pub args: Seq<Seq<char>>,
    pub url: Option<Seq<char>>,
    pub transport: Option<McpHttpTransport>,
    pub env: Seq<(Seq<char>, Seq<char>)>,
    pub project: bool,
}

pub open spec fn add_start() -> AddState {
    AddState {
        name: None,
        command: None,
        args: Seq::empty(),
        url: None,
        transport: None,
        env: Seq::empty(),
        project: false,
    }
}

pub open spec fn missing_value(flag: Seq<char>) -> RouteView {
    Route::Usage(say::entry("manage.mcp.add.missing_value"@).arg("flag"@, flag))
}

pub open spec fn takes_value(flag: Seq<char>) -> bool {
    flag == "--command"@ || flag == "--arg"@ || flag == "--url"@ || flag == "--type"@ || flag
        == "--env"@
}

/// A flag with its value taken into what was read, or the usage message.
pub open spec fn add_flag(st: AddState, flag: Seq<char>, v: Seq<char>) -> Result<
    AddState,
    RouteView,
> {
    if flag == "--command"@ {
        Ok(AddState { command: Some(v), ..st })
    } else if flag == "--arg"@ {
        Ok(AddState { args: st.args.push(v), ..st })
    } else if flag == "--url"@ {
        Ok(AddState { url: Some(v), ..st })
    } else if flag == "--type"@ {
        if v == "http"@ {
            Ok(AddState { transport: Some(McpHttpTransport::Streamable), ..st })
        } else if v == "sse"@ {
            Ok(AddState { transport: Some(McpHttpTransport::Sse), ..st })
        } else {
            Err(Route::Usage(say::entry("manage.mcp.add.bad_type"@).arg("value"@, v)))
        }
    } else {
        match pieces::split_once(v, '=') {
            Some((k, val)) => if text::is_blank(k) {
                Err(Route::Usage(say::entry("manage.mcp.add.bad_env"@).arg("value"@, v)))
            } else {
                Ok(AddState { env: st.env.push((text::trim(k), val)), ..st })
            },
            None => Err(Route::Usage(say::entry("manage.mcp.add.bad_env"@).arg("value"@, v))),
        }
    }
}

/// Reads the arguments of `mcp add` from the `i`-th on.
pub open spec fn add_read(args: Seq<Seq<char>>, i: int, st: AddState) -> Result<
    AddState,
    RouteView,
>
    decreases args.len() - i,
{
    if i < 0 || i >= args.len() {
        Ok(st)
    } else if takes_value(args[i]) {
        if i + 1 >= args.len() {
            Err(missing_value(args[i]))
        } else {
            match add_flag(st, args[i], args[i + 1]) {
                Ok(next) => add_read(args, i + 2, next),
                Err(e) => Err(e),
            }
        }
    } else if args[i] == "--project"@ {
        add_read(args, i + 1, AddState { project: true, ..st })
    } else if is_flag(args[i]) || st.name is Some {
        Err(usage("manage.mcp.usage"@))
    } else {
        add_read(args, i + 1, AddState { name: Some(text::trim(args[i])), ..st })
    }
}

/// A server needs a name and either a program or an address; what belongs to the one kind
/// is refused with the other.
pub open spec fn add_checked(st: AddState) -> RouteView {
    match st.name {
        None => usage("manage.mcp.add.name_required"@),
        Some(name) => if name.len() == 0 {
            usage("manage.mcp.add.name_required"@)
        } else if st.command is Some && st.url is Some {
            usage("manage.mcp.add.conflict"@)
        } else if st.command is None && st.url is None {
            usage("manage.mcp.add.need_target"@)
        } else if st.command is Some && st.transport is Some {
            usage("manage.mcp.add.type_url_only"@)
        } else if st.url is Some && (st.args.len() > 0 || st.env.len() > 0) {
            usage("manage.mcp.add.arg_command_only"@)
        } else {
            Route::Run(
                ManageCmd::McpAdd(
                    McpAddView {
                        name,
                        command: st.command,
                        args: st.args,
                        url: st.url,
                        transport: st.transport,
                        env: st.env,
                        project: st.project,
                    },
                ),
            )
        },
    }
}

pub open spec fn mcp_add_route(args: Seq<Seq<char>>) -> RouteView {
    match add_read(args, 0, add_start()) {
        Ok(st) => add_checked(st),
        Err(r) => r,
    }
}

/// A server that `mcp add` accepts has exactly one of a program and an address, and no
/// argument that belongs to the other kind.
pub proof fn mcp_add_accepts_one_kind(args: Seq<Seq<char>>)
    ensures
        mcp_add_route(args) matches Route::Run(ManageCmd::McpAdd(a)) ==> {
            &&& a.name.len() > 0
            &&& a.command is Some <==> a.url is None
            &&& a.command is Some ==> a.transport is None
            &&& a.url is Some ==> a.args.len() == 0 && a.env.len() == 0
        },
{
    lemma_add_read_errors(args, 0, add_start());
}

proof fn lemma_add_read_errors(args: Seq<Seq<char>>, i: int, st: AddState)
    ensures
        add_read(args, i, st) matches Err(r) ==> r is Usage,
    decreases args.len() - i,
{
    if i < 0 || i >= args.len() {
    } else if takes_value(args[i]) {
        if i + 1 < args.len() {
            match add_flag(st, args[i], args[i + 1]) {
                Ok(next) => lemma_add_read_errors(args, i + 2, next),
                Err(e) => {},
            }
        }
    } else if args[i] == "--project"@ {
        lemma_add_read_errors(args, i + 1, AddState { project: true, ..st });
    } else if !(is_flag(args[i]) || st.name is Some) {
        lemma_add_read_errors(args, i + 1, AddState { name: Some(text::trim(args[i])), ..st });
    }
}

pub fn missing_flag_value(flag: &str) -> (r: Route)
    ensures
        r.view() == missing_value(flag@),
{
    Route::Usage(msg("manage.mcp.add.missing_value").arg("flag", flag))
}

struct Adding {
    name: Option<String>,
    command: Option<String>,
    args: Vec<String>,
    url: Option<String>,
    transport: Option<McpHttpTransport>,
    env: Vec<(String, String)>,
    project: bool,
}

impl Adding {
    spec fn view(&self) -> AddState {
        AddState {
            name: opt_text(self.name),
            command: opt_text(self.command),
            args: text::texts(self.args@),
            url: opt_text(self.url),
            transport: self.transport,
            env: pair_texts(self.env@),
            project: self.project,
        }
    }

    /// Takes one flag with its value; on a wrong value the usage message is returned.
    fn take(&mut self, flag: &str, v: &str) -> (r: Option<Route>)
        ensures
            match r {
                None => add_flag(old(self)@, flag@, v@) == Ok::<AddState, RouteView>(final(self)@),
                Some(u) => add_flag(old(self)@, flag@, v@) == Err::<AddState, RouteView>(u.view()),
            },
    {
        if same(flag, "--command") {
            self.command = Some(copy_text(v));
        } else if same(flag, "--arg") {
            let s = copy_text(v);
            proof {
                text::lemma_texts_push(self.args@, s);
            }
            self.args.push(s);
        } else if same(flag, "--url") {
            self.url = Some(copy_text(v));
        } else if same(flag, "--type") {
            if same(v, "http") {
                self.transport = Some(McpHttpTransport::Streamable);
            } else if same(v, "sse") {
                self.transport = Some(McpHttpTransport::Sse);
            } else {
                return Some(Route::Usage(msg("manage.mcp.add.bad_type").arg("value", v)));
            }
        } else {
            match split_once_of(v, '=') {
                Some((k, val)) => {
                    let key = trimmed(&k);
                    if key.as_str().is_empty() {
                        return Some(Route::Usage(msg("manage.mcp.add.bad_env").arg("value", v)));
                    }
                    let ghost before = self.env@;
                    self.env.push((key, val));
                    assert(pair_texts(self.env@) =~= pair_texts(before).push((key@, val@)));
                },
                None => {
                    return Some(Route::Usage(msg("manage.mcp.add.bad_env").arg("value", v)));
                },
            }
        }
        None
    }

    fn checked(self) -> (r: Route)
        ensures
            r.view() == add_checked(self@),
    {
        let name = match self.name {
            Some(n) => n,
            None => {
                return usage_of("manage.mcp.add.name_required");
            },
        };
        if name.as_str().is_empty() {
            return usage_of("manage.mcp.add.name_required");
        }
        if self.command.is_some() && self.url.is_some() {
            usage_of("manage.mcp.add.conflict")
        } else if self.command.is_none() && self.url.is_none() {
            usage_of("manage.mcp.add.need_target")
        } else if self.command.is_some() && self.transport.is_some() {
            usage_of("manage.mcp.add.type_url_only")
        } else if self.url.is_some() && (self.args.len() > 0 || self.env.len() > 0) {
            usage_of("manage.mcp.add.arg_command_only")
        } else {
            Route::Run(
                ManageCmd::McpAdd(
                    McpAddArgs {
                        name,
                        command: self.command,
                        args: self.args,
                        url: self.url,
                        transport: self.transport,
                        env: self.env,
                        project: self.project,
                    },
                ),
            )
        }
    }
}

fn takes_value_of(flag: &str) -> (r: bool)
    ensures
        r == takes_value(flag@),
{
    same(flag, "--command") || same(flag, "--arg") || same(flag, "--url") || same(flag, "--type")
        || same(flag, "--env")
}

pub fn route_mcp_add(args: &Vec<String>) -> (r: Route)
    ensures
        r.view() == mcp_add_route(text::texts(args@)),
{
    let ghost av = text::texts(args@);
    let mut st = Adding {
        name: None,
        command: None,
        args: Vec::new(),
        url: None,
        transport: None,
        env: Vec::new(),
        project: false,
    };
    assert(st@ =~= add_start());
    let mut i: usize = 0;
    while i < args.len()
        invariant
            i <= args.len(),
            av == text::texts(args@),
            add_read(av, 0, add_start()) == add_read(av, i as int, st@),
        decreases args.len() - i,
    {
        assert(av[i as int] == args@[i as int]@);
        if takes_value_of(&args[i]) {
            if i + 1 >= args.len() {
                return missing_flag_value(&args[i]);
            }
            assert(av[i + 1] == args@[i + 1]@);
            match st.take(&args[i], &args[i + 1]) {
                Some(u) => {
                    return u;
                },
                None => {},
            }
            i = i + 2;
        } else if same(&args[i], "--project") {
            let ghost before = st@;
            st.project = true;
            assert(st@ =~= AddState { project: true, ..before });
            i = i + 1;
        } else if flag_like(&args[i]) || st.name.is_some() {
            return usage_of("manage.mcp.usage");
        } else {
            let ghost before = st@;
            st.name = Some(trimmed(&args[i]));
            assert(st@ =~= AddState { name: Some(text::trim(av[i as int])), ..before });
            i = i + 1;
        }
    }
    st.checked()
}

// ── help ────────────────────────────────────────────────────────────────────

pub open spec fn is_verb(s: Seq<char>) -> bool {
    s == "models"@ || s == "auth"@ || s == "mcp"@ || s == "config"@
}

fn verb(s: &str) -> (r: bool)
    ensures
        r == is_verb(s@),
{
    same(s, "models") || same(s, "auth") || same(s, "mcp") || same(s, "config")
}

pub open spec fn is_mcp_subverb(s: Seq<char>) -> bool {
    s == "add"@ || s == "remove"@ || s == "rm"@ || s == "enable"@ || s == "disable"@ || s
        == "list"@ || s == "ls"@ || s == "status"@ || s == "login"@ || s == "logout"@
}

fn mcp_subverb(s: &str) -> (r: bool)
    ensures
        r == is_mcp_subverb(s@),
{
    same(s, "add") || same(s, "remove") || same(s, "rm") || same(s, "enable") || same(s, "disable")
        || same(s, "list") || same(s, "ls") || same(s, "status") || same(s, "login") || same(
        s,
        "logout",
    )
}

pub open spec fn is_help_flag(s: Seq<char>) -> bool {
    s == "--help"@ || s == "-h"@
}

/// The words behind the first one ask for help: the second is `help`, or a help flag is
/// among them.
pub open spec fn wants_help(t: Seq<Seq<char>>) -> bool {
    ||| t.len() > 1 && t[1] == "help"@
    ||| exists|i: int| 1 <= i < t.len() && is_help_flag(#[trigger] t[i])
}

/// What help is asked for, if any: nothing in particular, a verb, or a verb of `mcp`.
pub open spec fn topic(t: Seq<Seq<char>>) -> Option<Seq<char>> {
    if t.len() == 0 {
        None
    } else if t[0] == "help"@ {
        if t.len() == 1 {
            Some(Seq::empty())
        } else if t.len() == 2 && is_verb(t[1]) {
            Some(t[1])
        } else {
            None
        }
    } else if !is_verb(t[0]) || !wants_help(t) {
        None
    } else if t[0] == "mcp"@ && t.len() > 1 && is_mcp_subverb(t[1]) {
        Some("mcp "@ + t[1])
    } else {
        Some(t[0])
    }
}

pub fn help_topic(tokens: &Vec<String>) -> (r: Option<String>)
    ensures
        opt_text(r) == topic(text::texts(tokens@)),
{
    let ghost tv = text::texts(tokens@);
    if tokens.len() == 0 {
        return None;
    }
    assert(tv[0] == tokens@[0]@);
    if tokens.len() > 1 {
        assert(tv[1] == tokens@[1]@);
    }
    if same(&tokens[0], "help") {
        if tokens.len() == 1 {
            return Some(String::new());
        } else if tokens.len() == 2 && verb(&tokens[1]) {
            return Some(copy_text(&tokens[1]));
        } else {
            return None;
        }
    }
    if !verb(&tokens[0]) {
        return None;
    }
    let mut wants: bool = tokens.len() > 1 && same(&tokens[1], "help");
    let mut i: usize = 1;
    while i < tokens.len()
        invariant
            1 <= i <= tokens.len(),
            tv == text::texts(tokens@),
            wants <==> (tv.len() > 1 && tv[1] == "help"@) || exists|k: int|
                1 <= k < i && is_help_flag(#[trigger] tv[k]),
        decreases tokens.len() - i,
    {
        assert(tv[i as int] == tokens@[i as int]@);
        if same(&tokens[i], "--help") || same(&tokens[i], "-h") {
            assert(is_help_flag(tv[i as int]));
            wants = true;
        }
        i = i + 1;
    }
    if !wants {
        return None;
    }
    if same(&tokens[0], "mcp") && tokens.len() > 1 && mcp_subverb(&tokens[1]) {
        return Some(cat("mcp ", &tokens[1]));
    }
    Some(copy_text(&tokens[0]))
}

pub open spec fn help_row(row: Seq<char>) -> Seq<say::LineView> {
    seq![
        say::LineView::Msg(say::entry("manage.help.title"@)),
        say::LineView::Msg(say::entry(row)),
        say::LineView::Text(Seq::empty()),
        say::LineView::Msg(say::entry("manage.help.hint"@)),
    ]
}

pub open spec fn help_all() -> Seq<say::LineView> {
    seq![
        say::LineView::Msg(say::entry("manage.help.title"@)),
        say::LineView::Msg(say::entry("manage.help.row.models"@)),
        say::LineView::Msg(say::entry("manage.help.row.auth"@)),
        say::LineView::Msg(say::entry("manage.help.row.mcp"@)),
        say::LineView::Msg(say::entry("manage.help.row.config"@)),
        say::LineView::Text(Seq::empty()),
        say::LineView::Msg(say::entry("manage.help.hint"@)),
    ]
}

/// The help on a topic.
pub open spec fn help_lines(topic: Seq<char>) -> Seq<say::LineView> {
    if topic == "models"@ {
        help_row("manage.help.row.models"@)
    } else if topic == "auth"@ {
        help_row("manage.help.row.auth"@)
    } else if topic == "mcp"@ {
        help_row("manage.help.row.mcp"@)
    } else if topic == "mcp add"@ {
        say::said(say::entry("manage.mcp.add.usage"@))
    } else if text::starts_with(topic, "mcp "@) {
        say::said(say::entry("manage.mcp.usage"@))
    } else if topic == "config"@ {
        help_row("manage.help.row.config"@)
    } else {
        help_all()
    }
}

fn help_row_of(row: &str) -> (o: Output)
    ensures
        o@ == help_row(row@),
{
    let mut o = just(msg("manage.help.title"));
    o.say(msg(row));
    o.print(String::new());
    o.say(msg("manage.help.hint"));
    assert(o@ =~= help_row(row@));
    o
}

pub fn help_text(topic: &str) -> (o: Output)
    ensures
        o@ == help_lines(topic@),
{
    if same(topic, "models") {
        help_row_of("manage.help.row.models")
    } else if same(topic, "auth") {
        help_row_of("manage.help.row.auth")
    } else if same(topic, "mcp") {
        help_row_of("manage.help.row.mcp")
    } else if same(topic, "mcp add") {
        just(msg("manage.mcp.add.usage"))
    } else if has_prefix(topic, "mcp ") {
        just(msg("manage.mcp.usage"))
    } else if same(topic, "config") {
        help_row_of("manage.help.row.config")
    } else {
        let mut o = just(msg("manage.help.title"));
        o.say(msg("manage.help.row.models"));
        o.say(msg("manage.help.row.auth"));
        o.say(msg("manage.help.row.mcp"));
        o.say(msg("manage.help.row.config"));
        o.print(String::new());
        o.say(msg("manage.help.hint"));
        assert(o@ =~= help_all());
        o
    }
}

// ── route ───────────────────────────────────────────────────────────────────

/// `models` with the words behind it.
pub open spec fn models_route(rest: Seq<Seq<char>>) -> RouteView {
    if rest.len() == 0 {
        Route::Fallthrough
    } else if rest.len() == 1 && is_list_action(rest[0]) {
        Route::Run(ManageCmd::ModelsList)
    } else if rest[0] == "catalog"@ || rest[0] == "cat"@ {
        Route::Run(ManageCmd::ModelsCatalog(pieces::join(rest.skip(1), " "@)))
    } else if is_list_action(rest[0]) {
        usage("manage.usage.models"@)
    } else {
        Route::Fallthrough
    }
}

/// `auth` with the words behind it.
pub open spec fn auth_route(rest: Seq<Seq<char>>) -> RouteView {
    if rest.len() == 0 {
        Route::Fallthrough
    } else if is_list_action(rest[0]) {
        if rest.len() == 1 {
            Route::Run(ManageCmd::AuthList)
        } else {
            usage("manage.usage.auth"@)
        }
    } else if rest[0] == "save"@ {
        auth_save_route(rest.skip(1))
    } else if rest[0] == "remove"@ || rest[0] == "rm"@ {
        one_provider_route(rest.skip(1), false)
    } else if rest[0] == "login"@ {
        auth_login_route(rest.skip(1))
    } else if rest[0] == "logout"@ {
        one_provider_route(rest.skip(1), true)
    } else {
        Route::Fallthrough
    }
}

/// `mcp` with the words behind it.
pub open spec fn mcp_route(rest: Seq<Seq<char>>) -> RouteView {
    if rest.len() == 0 {
        Route::Fallthrough
    } else if rest[0] == "login"@ {
        mcp_login_route(rest.skip(1))
    } else if rest[0] == "logout"@ {
        mcp_logout_route(rest.skip(1))
    } else if rest[0] == "add"@ {
        mcp_add_route(rest.skip(1))
    } else if rest[0] == "remove"@ || rest[0] == "rm"@ {
        mcp_remove_route(rest.skip(1))
    } else if rest[0] == "enable"@ {
        mcp_toggle_route(rest.skip(1), false)
    } else if rest[0] == "disable"@ {
        mcp_toggle_route(rest.skip(1), true)
    } else if is_list_action(rest[0]) {
        if rest.len() == 1 {
            Route::Run(ManageCmd::McpList)
        } else {
            usage("manage.mcp.usage"@)
        }
    } else if rest[0] == "status"@ {
        if rest.len() == 1 {
            Route::Run(ManageCmd::McpStatus)
        } else {
            usage("manage.mcp.usage"@)
        }
    } else {
        Route::Fallthrough
    }
}

/// A command of `config` that takes no argument.
pub open spec fn config_plain(
    n: nat,
    c: ManageCmd<Seq<char>, McpAddView>,
) -> RouteView {
    if n == 1 {
        Route::Run(c)
    } else {
        usage("manage.usage.config"@)
    }
}

/// `config` with the words behind it.
pub open spec fn config_route(rest: Seq<Seq<char>>) -> RouteView {
    if rest.len() == 0 {
        Route::Fallthrough
    } else if rest[0] == "path"@ {
        config_plain(rest.len(), ManageCmd::ConfigPath)
    } else if rest[0] == "check"@ {
        config_plain(rest.len(), ManageCmd::ConfigCheck)
    } else if rest[0] == "keys"@ {
        if rest.len() == 1 {
            Route::Run(ManageCmd::ConfigKeys { prefix: None })
        } else if rest.len() == 2 {
            Route::Run(ManageCmd::ConfigKeys { prefix: Some(rest[1]) })
        } else {
            usage("manage.usage.config"@)
        }
    } else if rest[0] == "show"@ {
        config_plain(rest.len(), ManageCmd::ConfigShow)
    } else if rest[0] == "get"@ {
        if rest.len() == 2 {
            Route::Run(ManageCmd::ConfigGet { key: rest[1] })
        } else {
            usage("manage.usage.config"@)
        }
    } else if rest[0] == "set"@ {
        if rest.len() == 3 {
            Route::Run(ManageCmd::ConfigSet { key: rest[1], value: rest[2] })
        } else {
            usage("manage.usage.config"@)
        }
    } else {
        Route::Fallthrough
    }
}

/// What the words of a command line are, seen as a management command.
pub open spec fn routed(t: Seq<Seq<char>>) -> RouteView {
    if t.len() == 0 || (t[0].len() > 0 && (t[0][0] == '@' || t[0][0] == '-')) {
        Route::Fallthrough
    } else {
        match topic(t) {
            Some(what) => Route::Help(help_lines(what)),
            None => if t[0] == "models"@ {
                models_route(t.skip(1))
            } else if t[0] == "auth"@ {
                auth_route(t.skip(1))
            } else if t[0] == "mcp"@ {
                mcp_route(t.skip(1))
            } else if t[0] == "config"@ {
                config_route(t.skip(1))
            } else {
                Route::Fallthrough
            },
        }
    }
}

fn route_models(rest: &Vec<String>) -> (r: Route)
    ensures
        r.view() == models_route(text::texts(rest@)),
{
    let ghost rv = text::texts(rest@);
    if rest.len() == 0 {
        return Route::Fallthrough;
    }
    assert(rv[0] == rest@[0]@);
    if rest.len() == 1 && list_action(&rest[0]) {
        Route::Run(ManageCmd::ModelsList)
    } else if same(&rest[0], "catalog") || same(&rest[0], "cat") {
        let filter = tail_of(rest, 1);
        Route::Run(ManageCmd::ModelsCatalog(join_of(&filter, " ")))
    } else if list_action(&rest[0]) {
        usage_of("manage.usage.models")
    } else {
        Route::Fallthrough
    }
}

fn route_auth(rest: &Vec<String>) -> (r: Route)
    ensures
        r.view() == auth_route(text::texts(rest@)),
{
    let ghost rv = text::texts(rest@);
    if rest.len() == 0 {
        return Route::Fallthrough;
    }
    assert(rv[0] == rest@[0]@);
    let args = tail_of(rest, 1);
    if list_action(&rest[0]) {
        if rest.len() == 1 {
            Route::Run(ManageCmd::AuthList)
        } else {
            usage_of("manage.usage.auth")
        }
    } else if same(&rest[0], "save") {
        route_auth_save(&args)
    } else if same(&rest[0], "remove") || same(&rest[0], "rm") {
        route_auth_remove(&args)
    } else if same(&rest[0], "login") {
        route_auth_login(&args)
    } else if same(&rest[0], "logout") {
        route_auth_logout(&args)
    } else {
        Route::Fallthrough
    }
}

fn route_mcp(rest: &Vec<String>) -> (r: Route)
    ensures
        r.view() == mcp_route(text::texts(rest@)),
{
    let ghost rv = text::texts(rest@);
    if rest.len() == 0 {
        return Route::Fallthrough;
    }
    assert(rv[0] == rest@[0]@);
    let args = tail_of(rest, 1);
    if same(&rest[0], "login") {
        route_mcp_login(&args)
    } else if same(&rest[0], "logout") {
        route_mcp_logout(&args)
    } else if same(&rest[0], "add") {
        route_mcp_add(&args)
    } else if same(&rest[0], "remove") || same(&rest[0], "rm") {
        route_mcp_remove(&args)
    } else if same(&rest[0], "enable") {
        route_mcp_toggle(&args, false)
    } else if same(&rest[0], "disable") {
        route_mcp_toggle(&args, true)
    } else if list_action(&rest[0]) {
        if rest.len() == 1 {
            Route::Run(ManageCmd::McpList)
        } else {
            usage_of("manage.mcp.usage")
        }
    } else if same(&rest[0], "status") {
        if rest.len() == 1 {
            Route::Run(ManageCmd::McpStatus)
        } else {
            usage_of("manage.mcp.usage")
        }
    } else {
        Route::Fallthrough
    }
}

fn route_config(rest: &Vec<String>) -> (r: Route)
    ensures
        r.view() == config_route(text::texts(rest@)),
{
    let ghost rv = text::texts(rest@);
    if rest.len() == 0 {
        return Route::Fallthrough;
    }
    assert(rv[0] == rest@[0]@);
    if rest.len() > 1 {
        assert(rv[1] == rest@[1]@);
    }
    if rest.len() > 2 {
        assert(rv[2] == rest@[2]@);
    }
    let n: usize = rest.len();
    if same(&rest[0], "path") {
        if n == 1 {
            return Route::Run(ManageCmd::ConfigPath);
        }
    } else if same(&rest[0], "check") {
        if n == 1 {
            return Route::Run(ManageCmd::ConfigCheck);
        }
    } else if same(&rest[0], "keys") {
        if n == 1 {
            return Route::Run(ManageCmd::ConfigKeys { prefix: None });
        } else if n == 2 {
            return Route::Run(ManageCmd::ConfigKeys { prefix: Some(copy_text(&rest[1])) });
        }
    } else if same(&rest[0], "show") {
        if n == 1 {
            return Route::Run(ManageCmd::ConfigShow);
        }
    } else if same(&rest[0], "get") {
        if n == 2 {
            return Route::Run(ManageCmd::ConfigGet { key: copy_text(&rest[1]) });
        }
    } else if same(&rest[0], "set") {
        if n == 3 {
            return Route::Run(
                ManageCmd::ConfigSet { key: copy_text(&rest[1]), value: copy_text(&rest[2]) },
            );
        }
    } else {
        return Route::Fallthrough;
    }
    usage_of("manage.usage.config")
}

/// Recognises a management command by its words alone.
pub fn route(tokens: &Vec<String>) -> (r: Route)
    ensures
        r.view() == routed(text::texts(tokens@)),
{
    let ghost tv = text::texts(tokens@);
    if tokens.len() == 0 {
        return Route::Fallthrough;
    }
    assert(tv[0] == tokens@[0]@);
    if starts_at(&tokens[0]) || flag_like(&tokens[0]) {
        return Route::Fallthrough;
    }
    match help_topic(tokens) {
        Some(what) => {
            return Route::Help(help_text(&what));
        },
        None => {},
    }
    let rest = tail_of(tokens, 1);
    if same(&tokens[0], "models") {
        route_models(&rest)
    } else if same(&tokens[0], "auth") {
        route_auth(&rest)
    } else if same(&tokens[0], "mcp") {
        route_mcp(&rest)
    } else if same(&tokens[0], "config") {
        route_config(&rest)
    } else {
        Route::Fallthrough
    }
}

/// A reserved word on its own is never taken for a management command.
pub proof fn bare_verb_falls_through(t: Seq<Seq<char>>)
    requires
        t.len() == 1,
        t[0] != "help"@,
    ensures
        routed(t) is Fallthrough,
{
}

/// A line that begins with a flag or a file reference is never taken for one either.
pub proof fn flags_and_files_fall_through(t: Seq<Seq<char>>)
    requires
        t.len() > 0,
        t[0].len() > 0,
        t[0][0] == '-' || t[0][0] == '@',
    ensures
        routed(t) is Fallthrough,
{
}

/// A flag before each of some values.
pub open spec fn each_behind(flag: Seq<char>, v: Seq<Seq<char>>) -> Seq<Seq<char>>
    decreases v.len(),
{
    if v.len() == 0 {
        Seq::empty()
    } else {
        seq![flag, v[0]] + each_behind(flag, v.drop_first())
    }
}

proof fn add_words()
    ensures
        "--command"@.len() == 9,
        "--arg"@ == seq!['-', '-', 'a', 'r', 'g'],
        "--url"@ == seq!['-', '-', 'u', 'r', 'l'],
        "--type"@.len() == 6,
        "--env"@ == seq!['-', '-', 'e', 'n', 'v'],
        "--project"@.len() == 9,
        "--command"@[2] == 'c',
        "--project"@[2] == 'p',
        "--command"@[0] == '-',
        "--type"@[0] == '-',
        "--project"@[0] == '-',
{
    reveal_strlit("--command");
    reveal_strlit("--arg");
    reveal_strlit("--url");
    reveal_strlit("--type");
    reveal_strlit("--env");
    reveal_strlit("--project");
    assert("--arg"@ =~= seq!['-', '-', 'a', 'r', 'g']);
    assert("--url"@ =~= seq!['-', '-', 'u', 'r', 'l']);
    assert("--env"@ =~= seq!['-', '-', 'e', 'n', 'v']);
}

proof fn values_are_collected(head: Seq<Seq<char>>, v: Seq<Seq<char>>, tail: Seq<Seq<char>>, st: AddState)
    ensures
        add_read(head + each_behind("--arg"@, v) + tail, head.len() as int, st) == add_read(
            head + each_behind("--arg"@, v) + tail,
            (head + each_behind("--arg"@, v)).len() as int,
            AddState { args: st.args + v, ..st },
        ),
    decreases v.len(),
{
    add_words();
    let args = head + each_behind("--arg"@, v) + tail;
    if v.len() == 0 {
        assert(st.args + v =~= st.args);
        assert(head + each_behind("--arg"@, v) =~= head);
        assert(AddState { args: st.args + v, ..st } =~= st);
    } else {
        let d = v.drop_first();
        let h = head + seq!["--arg"@, v[0]];
        assert(args =~= h + each_behind("--arg"@, d) + tail);
        let n = head.len() as int;
        assert(args[n] == "--arg"@);
        assert(args[n + 1] == v[0]);
        let next = AddState { args: st.args.push(v[0]), ..st };
        values_are_collected(h, d, tail, next);
        assert(st.args.push(v[0]) + d =~= st.args + v);
        assert(head + each_behind("--arg"@, v) =~= h + each_behind("--arg"@, d));
    }
}

proof fn pair_is_word(p: (Seq<char>, Seq<char>))
    requires
        !text::has_char(p.0, '='),
        p.0.len() > 0,
        text::is_trimmed(p.0),
    ensures
        pieces::split_once(p.0 + seq!['='] + p.1, '=') == Some(p),
        text::trim(p.0) == p.0,
        !text::is_blank(p.0),
{
    pieces::cuts_are_at_the_first_and_last(p.0, '=', p.1);
    text::white_space_around_goes(Seq::empty(), p.0, Seq::empty());
}

/// Variables as they are written behind `--env`.
pub open spec fn as_words(env: Seq<(Seq<char>, Seq<char>)>) -> Seq<Seq<char>> {
    Seq::new(env.len(), |i: int| env[i].0 + seq!['='] + env[i].1)
}

proof fn variables_are_collected(head: Seq<Seq<char>>, env: Seq<(Seq<char>, Seq<char>)>, st: AddState)
    requires
        forall|i: int|
            0 <= i < env.len() ==> (#[trigger] env[i]).0.len() > 0 && text::is_trimmed(env[i].0)
                && !text::has_char(env[i].0, '='),
    ensures
        add_read(head + each_behind("--env"@, as_words(env)), head.len() as int, st) == Ok::<
            AddState,
            RouteView,
        >(AddState { env: st.env + env, ..st }),
    decreases env.len(),
{
    add_words();
    let v = as_words(env);
    let args = head + each_behind("--env"@, v);
    if env.len() == 0 {
        assert(st.env + env =~= st.env);
        assert(AddState { env: st.env + env, ..st } =~= st);
    } else {
        let d = env.drop_first();
        assert(v.drop_first() =~= as_words(d));
        let h = head + seq!["--env"@, v[0]];
        assert(args =~= h + each_behind("--env"@, as_words(d)));
        let n = head.len() as int;
        assert(args[n] == "--env"@);
        assert(args[n + 1] == v[0]);
        assert(env[0].0.len() > 0);
        pair_is_word(env[0]);
        let next = AddState { env: st.env.push(env[0]), ..st };
        assert(add_flag(st, args[n], args[n + 1]) == Ok::<AddState, RouteView>(next));
        assert forall|i: int| 0 <= i < d.len() implies (#[trigger] d[i]).0.len() > 0
            && text::is_trimmed(d[i].0) && !text::has_char(d[i].0, '=') by {
            assert(d[i] == env[i + 1]);
        }
        variables_are_collected(h, d, next);
        assert(st.env.push(env[0]) + d =~= st.env + env);
    }
}

/// `mcp add` takes up a program with all its arguments and all its variables, in the order in
/// which they are given.
pub proof fn programs_are_added_whole(
    name: Seq<char>,
    command: Seq<char>,
    v: Seq<Seq<char>>,
    env: Seq<(Seq<char>, Seq<char>)>,
)
    requires
        name.len() > 0,
        name[0] != '-',
        text::is_trimmed(name),
        forall|i: int|
            0 <= i < env.len() ==> (#[trigger] env[i]).0.len() > 0 && text::is_trimmed(env[i].0)
                && !text::has_char(env[i].0, '='),
    ensures
        mcp_add_route(
            seq![name, "--command"@, command] + each_behind("--arg"@, v) + each_behind(
                "--env"@,
                as_words(env),
            ),
        ) == RouteView::Run(
            ManageCmd::McpAdd(
                McpAddView {
                    name,
                    command: Some(command),
                    args: v,
                    url: None,
                    transport: None,
                    env,
                    project: false,
                },
            ),
        ),
{
    add_words();
    let head = seq![name, "--command"@, command];
    let h2 = head + each_behind("--arg"@, v);
    let tail = each_behind("--env"@, as_words(env));
    let args = head + each_behind("--arg"@, v) + tail;
    text::white_space_around_goes(Seq::empty(), name, Seq::empty());
    assert(args[0] == name && args[1] == "--command"@ && args[2] == command);
    assert(name[0] != '-');
    let s1 = AddState { name: Some(name), ..add_start() };
    let s2 = AddState { command: Some(command), ..s1 };
    assert(add_read(args, 0, add_start()) == add_read(args, 1, s1));
    assert(add_read(args, 1, s1) == add_read(args, 3, s2));
    values_are_collected(head, v, tail, s2);
    let s3 = AddState { args: s2.args + v, ..s2 };
    variables_are_collected(h2, env, s3);
    assert(s2.args + v =~= v);
    assert(s3.env + env =~= env);
}

/// `mcp add` takes up an address, `mcp remove` the name and where it is removed from.
pub proof fn addresses_are_added(name: Seq<char>, url: Seq<char>)
    requires
        name.len() > 0,
        name[0] != '-',
        text::is_trimmed(name),
    ensures
        mcp_add_route(seq![name, "--url"@, url, "--project"@]) == RouteView::Run(
            ManageCmd::McpAdd(
                McpAddView {
                    name,
                    command: None,
                    args: Seq::empty(),
                    url: Some(url),
                    transport: None,
                    env: Seq::empty(),
                    project: true,
                },
            ),
        ),
        mcp_remove_route(seq![name]) == RouteView::Run(
            ManageCmd::McpRemove { name, project: false },
        ),
        mcp_remove_route(seq![name, "--project"@]) == RouteView::Run(
            ManageCmd::McpRemove { name, project: true },
        ),
{
    add_words();
    text::white_space_around_goes(Seq::empty(), name, Seq::empty());
    let args = seq![name, "--url"@, url, "--project"@];
    let s1 = AddState { name: Some(name), ..add_start() };
    let s2 = AddState { url: Some(url), ..s1 };
    let s3 = AddState { project: true, ..s2 };
    assert(add_read(args, 0, add_start()) == add_read(args, 1, s1));
    assert(add_read(args, 1, s1) == add_read(args, 3, s2));
    assert(add_read(args, 3, s2) == add_read(args, 4, s3));
    reveal_with_fuel(mcp_remove_args, 4);
}

} // verus!
