//! How a management command runs: what is read and written, in which order, and what is
//! printed at the end.
use vstd::prelude::*;

use crate::admin;
use crate::admin::{
    auth_list, auth_logout, auth_remove, auth_save, models_catalog, models_list, CatalogEntry,
    ModelProfile, OAuthRow,
};
use crate::config;
use crate::config::{
    config_check_error, config_check_summary, config_check_warnings, config_keys, config_path,
    config_set, config_show, configuration_text, value_text, ConfigWarning, KeyInfo,
};
use crate::data;
use crate::data::Data;
use crate::manage;
use crate::manage::{validate_provider, ManageCmd};
use crate::numeral;
use crate::order;
use crate::pieces;
use crate::pieces::join_of;
use crate::say;
use crate::say::{just, msg, Msg, Output};
use crate::secrets;
use crate::secrets::config_get;
use crate::servers;
use crate::servers::{
    mcp_add, mcp_list, mcp_remove, mcp_set_disabled, mcp_status, resolve_mcp_http_server,
    McpServerConfig, McpServerEntry, McpSource,
};
use crate::text;
use crate::text::copy_text;

verus! {

/// What is to be done next for a management command.
#[derive(Debug)]
pub enum ManageStep {
    LoadConfig,
    LoadCatalog,
    /// Read all of the standard input.
    ReadStdin,
    LoadKeys,
    SaveKey { provider: String, key: String },
    /// Put these keys in place of the stored ones.
    ReplaceKeys { keys: Vec<(String, String)> },
    /// Remove what signing in has left of a provider: its credentials and its key.
    SignOut { provider: String },
    SignIn { id: String },
    McpSignIn { url: String, oauth: Option<String> },
    McpSignOut { url: String },
    AddServer { name: String, server: McpServerConfig, project: bool },
    RemoveServer { name: String, project: bool },
    SwitchServer { name: String, disabled: bool },
    LoadServers,
    FindConfigFile,
    /// Read the configuration as it is written.
    ReadSettings,
    WriteSetting { key: String, value: String },
    ListSettings,
    /// Print the lines and end with the code.
    Done { out: Output, err: Output, code: i32 },
    /// Print the lines, then the text as it is, and end well.
    Print { out: Output, text: String },
    /// End with an error, which may have a cause.
    Fail { why: Msg, cause: Option<String> },
    /// The event does not belong to the command.
    Unexpected,
}

/// A configuration that was loaded, with what goes with it.
#[derive(Debug)]
pub struct ConfigFacts {
    pub default: ModelProfile,
    pub models: Vec<ModelProfile>,
    pub keys: Vec<(String, String)>,
    pub oauth: Vec<OAuthRow>,
    /// The time, in milliseconds.
    pub now: i64,
    /// The time that stands for never.
    pub never: i64,
    pub servers: Vec<McpServerEntry>,
    /// How many tool switches there are.
    pub tools: usize,
    pub warnings: Vec<ConfigWarning>,
}

/// What came of a step.
#[derive(Debug)]
pub enum ManageEvent {
    Config(ConfigFacts),
    ConfigFailed(String),
    Catalog(Vec<CatalogEntry>),
    Stdin(String),
    Keys(Vec<(String, String)>),
    /// The key of this provider, or the keys that were left, are stored in this file.
    Stored { provider: String, path: String },
    SignedOut { oauth_removed: bool, key_removed: bool, oauth_path: String, key_path: String },
    /// There is no such way to sign in; these are the ones there are.
    NoSuchSignIn { ids: Vec<String> },
    /// Signing in gave a key for this provider.
    SignedInKey { provider: String, key: String },
    /// Signing in gave credentials, which are stored in this file.
    SignedIn { provider: String, path: String, email: Option<String>, grant_expired: bool },
    CredentialsNotStored { error: String },
    McpSignedIn { path: String },
    McpSignedOut { removed: bool, path: String },
    ServerWritten { path: String },
    ServerRemoved { removed: bool, path: String },
    Servers {
        sources: Vec<McpSource>,
        configured: Vec<McpServerEntry>,
        notes: Vec<String>,
    },
    Switched { path: String },
    ConfigFile { path: String, exists: bool },
    Settings(Data),
    SettingsFailed(String),
    SettingWritten(Result<String, String>),
    SettingKeys(Vec<KeyInfo>),
}

/// The command ends well with these lines on the standard output and the error output.
pub open spec fn ends(s: ManageStep, out: Seq<say::LineView>, err: Seq<say::LineView>) -> bool {
    s matches ManageStep::Done { out: o, err: e, code } && o@ == out && e@ == err && code == 0
}

pub open spec fn fails(s: ManageStep, why: say::MsgView) -> bool {
    s matches ManageStep::Fail { why: w, cause } && w@ == why && cause is None
}

fn told(out: Output) -> (s: ManageStep)
    ensures
        ends(s, out@, say::silence()),
{
    ManageStep::Done { out, err: Output::new(), code: 0 }
}

fn noted(err: Output) -> (s: ManageStep)
    ensures
        ends(s, say::silence(), err@),
{
    ManageStep::Done { out: Output::new(), err, code: 0 }
}

fn failed(why: Msg) -> (s: ManageStep)
    ensures
        fails(s, why@),
{
    ManageStep::Fail { why, cause: None }
}

/// The first step of a command.
pub open spec fn begins(cmd: ManageCmd, s: ManageStep) -> bool {
    match cmd {
        ManageCmd::ModelsList => s is LoadConfig,
        ManageCmd::ModelsCatalog(_) => s is LoadCatalog,
        ManageCmd::AuthList => s is LoadConfig,
        ManageCmd::AuthSave { provider } => s is ReadStdin,
        ManageCmd::AuthRemove { provider } => s is LoadKeys,
        ManageCmd::AuthLogin { id } => s matches ManageStep::SignIn { id: i } && i@ == id@,
        ManageCmd::AuthLogout { provider } => if manage::is_provider(provider@) {
            s matches ManageStep::SignOut { provider: p } && p@ == manage::provider_form(provider@)
        } else {
            fails(s, manage::bad_provider(provider@))
        },
        ManageCmd::McpLogin { server } => s is LoadConfig,
        ManageCmd::McpLogout { server } => s is LoadConfig,
        ManageCmd::McpAdd(a) => if a.command is Some <==> a.url is Some {
            fails(s, say::entry("manage.mcp.add.conflict"@))
        } else {
            s matches ManageStep::AddServer { name, server, project } && name@ == a.name@
                && servers::describes(a, server) && project == a.project
        },
        ManageCmd::McpRemove { name, project } => s matches ManageStep::RemoveServer {
            name: n,
            project: p,
        } && n@ == name@ && p == project,
        ManageCmd::McpEnable { name } => s is LoadServers,
        ManageCmd::McpDisable { name } => s is LoadServers,
        ManageCmd::McpList => s is LoadServers,
        ManageCmd::McpStatus => s is LoadServers,
        ManageCmd::ConfigPath => s is FindConfigFile,
        ManageCmd::ConfigCheck => s is LoadConfig,
        ManageCmd::ConfigGet { key } => s is ReadSettings,
        ManageCmd::ConfigShow => s is ReadSettings,
        ManageCmd::ConfigKeys { prefix } => s is ListSettings,
        ManageCmd::ConfigSet { key, value } => s matches ManageStep::WriteSetting {
            key: k,
            value: v,
        } && k@ == key@ && v@ == value@,
    }
}

pub fn begin_manage_cmd(cmd: &ManageCmd) -> (s: ManageStep)
    ensures
        begins(*cmd, s),
{
    match cmd {
        ManageCmd::ModelsList => ManageStep::LoadConfig,
        ManageCmd::ModelsCatalog(_) => ManageStep::LoadCatalog,
        ManageCmd::AuthList => ManageStep::LoadConfig,
        ManageCmd::AuthSave { .. } => ManageStep::ReadStdin,
        ManageCmd::AuthRemove { .. } => ManageStep::LoadKeys,
        ManageCmd::AuthLogin { id } => ManageStep::SignIn { id: copy_text(id) },
        ManageCmd::AuthLogout { provider } => match validate_provider(provider) {
            Ok(p) => ManageStep::SignOut { provider: p },
            Err(m) => failed(m),
        },
        ManageCmd::McpLogin { .. } => ManageStep::LoadConfig,
        ManageCmd::McpLogout { .. } => ManageStep::LoadConfig,
        ManageCmd::McpAdd(a) => match a.to_server() {
            Ok(server) => ManageStep::AddServer {
                name: copy_text(&a.name),
                server,
                project: a.project,
            },
            Err(m) => failed(m),
        },
        ManageCmd::McpRemove { name, project } => ManageStep::RemoveServer {
            name: copy_text(name),
            project: *project,
        },
        ManageCmd::McpEnable { .. } => ManageStep::LoadServers,
        ManageCmd::McpDisable { .. } => ManageStep::LoadServers,
        ManageCmd::McpList => ManageStep::LoadServers,
        ManageCmd::McpStatus => ManageStep::LoadServers,
        ManageCmd::ConfigPath => ManageStep::FindConfigFile,
        ManageCmd::ConfigCheck => ManageStep::LoadConfig,
        ManageCmd::ConfigGet { .. } => ManageStep::ReadSettings,
        ManageCmd::ConfigShow => ManageStep::ReadSettings,
        ManageCmd::ConfigKeys { .. } => ManageStep::ListSettings,
        ManageCmd::ConfigSet { key, value } => ManageStep::WriteSetting {
            key: copy_text(key),
            value: copy_text(value),
        },
    }
}

// ── Keys and signing in ─────────────────────────────────────────────────────

pub open spec fn provider_and_path(key: Seq<char>, provider: Seq<char>, path: Seq<char>) -> say::MsgView {
    say::entry(key).arg("provider"@, provider).arg("path"@, path)
}

/// A typed key goes to the store, unless it is blank.
pub open spec fn saves_key(s: ManageStep, provider: Seq<char>, key: Seq<char>) -> bool {
    if text::is_blank(key) {
        fails(s, say::entry("manage.auth.empty_key"@))
    } else {
        s matches ManageStep::SaveKey { provider: p, key: k } && p@ == provider && k@ == text::trim(
            key,
        )
    }
}

fn save_key(provider: &str, key: &str) -> (s: ManageStep)
    ensures
        saves_key(s, provider@, key@),
{
    match auth_save(key) {
        Ok(k) => ManageStep::SaveKey { provider: copy_text(provider), key: k },
        Err(m) => failed(m),
    }
}

/// What is said once signing in has left credentials.
pub open spec fn signed_in(
    s: ManageStep,
    provider: Seq<char>,
    path: Seq<char>,
    email: Option<String>,
    grant_expired: bool,
) -> bool {
    let saved = say::said(provider_and_path("manage.auth.login.saved_oauth"@, provider, path));
    let account = match email {
        Some(e) => say::said(say::entry("manage.auth.login.account"@).arg("email"@, e@)),
        None => Seq::empty(),
    };
    ends(
        s,
        saved + account,
        if grant_expired {
            say::said(say::entry("manage.auth.oauth_grant_expired"@))
        } else {
            say::silence()
        },
    )
}

/// How `auth login` goes on.
pub open spec fn login_goes_on(id: Seq<char>, e: ManageEvent, s: ManageStep) -> bool {
    match e {
        ManageEvent::NoSuchSignIn { ids } => fails(
            s,
            say::entry("manage.auth.login.not_found"@).arg("id"@, id).arg(
                "ids"@,
                pieces::join(text::texts(ids@), ", "@),
            ),
        ),
        ManageEvent::SignedInKey { provider, key } => saves_key(s, provider@, key@),
        ManageEvent::Stored { provider, path } => ends(
            s,
            say::said(provider_and_path("manage.auth.login.saved_key"@, provider@, path@)),
            say::silence(),
        ),
        ManageEvent::SignedIn { provider, path, email, grant_expired } => signed_in(
            s,
            provider@,
            path@,
            email,
            grant_expired,
        ),
        ManageEvent::CredentialsNotStored { error } => fails(
            s,
            say::entry("manage.auth.login.save_failed"@).arg("err"@, error@),
        ),
        _ => s is Unexpected,
    }
}

/// `auth login`: a key that signing in gave is stored like a typed one; credentials are
/// reported with their account.
pub fn auth_login(id: &str, event: &ManageEvent) -> (s: ManageStep)
    ensures
        login_goes_on(id@, *event, s),
{
    match event {
        ManageEvent::NoSuchSignIn { ids } => failed(
            msg("manage.auth.login.not_found").arg("id", id).arg("ids", &join_of(ids, ", ")),
        ),
        ManageEvent::SignedInKey { provider, key } => save_key(provider, key),
        ManageEvent::Stored { provider, path } => told(
            just(msg("manage.auth.login.saved_key").arg("provider", provider).arg("path", path)),
        ),
        ManageEvent::SignedIn { provider, path, email, grant_expired } => {
            let mut out = just(
                msg("manage.auth.login.saved_oauth").arg("provider", provider).arg("path", path),
            );
            let ghost saved = out@;
            match email {
                Some(e) => {
                    out.say(msg("manage.auth.login.account").arg("email", e));
                    assert(out@ =~= saved + say::said(
                        say::entry("manage.auth.login.account"@).arg("email"@, e@),
                    ));
                },
                None => {
                    assert(out@ =~= saved + Seq::empty());
                },
            }
            let err = if *grant_expired {
                just(msg("manage.auth.oauth_grant_expired"))
            } else {
                Output::new()
            };
            ManageStep::Done { out, err, code: 0 }
        },
        ManageEvent::CredentialsNotStored { error } => failed(
            msg("manage.auth.login.save_failed").arg("err", error),
        ),
        _ => ManageStep::Unexpected,
    }
}

/// What is said once a provider's credentials and key are gone.
pub open spec fn signed_out_lines(
    provider: Seq<char>,
    oauth_removed: bool,
    key_removed: bool,
    oauth_path: Seq<char>,
    key_path: Seq<char>,
) -> Seq<say::LineView> {
    (if oauth_removed {
        say::said(provider_and_path("manage.auth.logout.oauth_removed"@, provider, oauth_path))
    } else {
        Seq::empty()
    }) + (if key_removed {
        say::said(provider_and_path("manage.auth.logout.key_removed"@, provider, key_path))
    } else {
        Seq::empty()
    })
}

fn signed_out(
    provider: &str,
    oauth_removed: bool,
    key_removed: bool,
    oauth_path: &str,
    key_path: &str,
) -> (s: ManageStep)
    requires
        manage::is_provider(provider@),
    ensures
        if oauth_removed || key_removed {
            ends(
                s,
                say::silence(),
                signed_out_lines(provider@, oauth_removed, key_removed, oauth_path@, key_path@),
            )
        } else {
            fails(s, admin::no_credentials(provider@))
        },
{
    match auth_logout(provider, oauth_removed, key_removed) {
        Err(m) => failed(m),
        Ok(o) => {
            let mut err = Output::new();
            if o.oauth_removed {
                err.say(
                    msg("manage.auth.logout.oauth_removed").arg("provider", provider).arg(
                        "path",
                        oauth_path,
                    ),
                );
            }
            if o.api_key_removed {
                err.say(
                    msg("manage.auth.logout.key_removed").arg("provider", provider).arg(
                        "path",
                        key_path,
                    ),
                );
            }
            assert(err@ =~= signed_out_lines(
                provider@,
                oauth_removed,
                key_removed,
                oauth_path@,
                key_path@,
            ));
            noted(err)
        },
    }
}

// ── Servers ─────────────────────────────────────────────────────────────────

/// The address of a server that can be signed in to and how, or why there is none.
pub open spec fn server_url(es: Seq<McpServerEntry>, server: Seq<char>) -> Result<
    (Seq<char>, Option<Seq<char>>),
    say::MsgView,
> {
    let k = servers::server_index(es, server, 0);
    if k >= es.len() {
        Err(
            say::entry("manage.mcp.not_found"@).arg("server"@, server).arg(
                "names"@,
                pieces::join(servers::server_names(es), ", "@),
            ),
        )
    } else {
        match es[k].server {
            McpServerConfig::Http { url, oauth, .. } => Ok((url@, manage::opt_text(oauth))),
            McpServerConfig::Stdio { .. } => Err(
                say::entry("manage.mcp.stdio_only"@).arg("server"@, server),
            ),
        }
    }
}

/// What `mcp status` prints; the names are in alphabetical order.
pub open spec fn status_lines(
    effective: Seq<McpServerEntry>,
    notes: Seq<String>,
    sources: Seq<McpSource>,
) -> Seq<say::LineView> {
    let names = choose|n: Seq<Seq<char>>| order::sorted_set(n, servers::server_names(effective));
    servers::mcp_status_lines(effective, names, notes, sources)
}

fn status_of(effective: &Vec<McpServerEntry>, notes: &Vec<String>, sources: &Vec<McpSource>) -> (out:
    Output)
    ensures
        out@ == status_lines(effective@, notes@, sources@),
{
    let out = mcp_status(effective, notes, sources);
    proof {
        let of = servers::server_names(effective@);
        let a = choose|n: Seq<Seq<char>>| #[trigger]
            order::sorted_set(n, of) && out@ == servers::mcp_status_lines(
                effective@,
                n,
                notes@,
                sources@,
            );
        let b = choose|n: Seq<Seq<char>>| order::sorted_set(n, of);
        order::sorted_set_is_unique(a, b, of);
    }
    out
}

/// How the commands on servers go on once the servers are known.
pub open spec fn servers_known(
    cmd: ManageCmd,
    sources: Seq<McpSource>,
    configured: Seq<McpServerEntry>,
    notes: Seq<String>,
    s: ManageStep,
) -> bool {
    match cmd {
        ManageCmd::McpEnable { name } => s matches ManageStep::SwitchServer { name: n, disabled }
            && n@ == name@ && !disabled,
        ManageCmd::McpDisable { name } => if servers::is_known(sources, configured, name@) {
            s matches ManageStep::SwitchServer { name: n, disabled } && n@ == name@ && disabled
        } else {
            fails(s, say::entry("manage.mcp.toggle.not_found"@).arg("name"@, name@))
        },
        ManageCmd::McpList => ends(s, servers::mcp_list_lines(sources), say::silence()),
        ManageCmd::McpStatus => ends(s, status_lines(configured, notes, sources), say::silence()),
        _ => s is Unexpected,
    }
}

fn with_servers(
    cmd: &ManageCmd,
    sources: &Vec<McpSource>,
    configured: &Vec<McpServerEntry>,
    notes: &Vec<String>,
) -> (s: ManageStep)
    ensures
        servers_known(*cmd, sources@, configured@, notes@, s),
{
    match cmd {
        ManageCmd::McpEnable { name } => match mcp_set_disabled(
            sources,
            configured,
            name,
            "",
            false,
        ) {
            Ok(_) => ManageStep::SwitchServer { name: copy_text(name), disabled: false },
            Err(m) => failed(m),
        },
        ManageCmd::McpDisable { name } => match mcp_set_disabled(
            sources,
            configured,
            name,
            "",
            true,
        ) {
            Ok(_) => ManageStep::SwitchServer { name: copy_text(name), disabled: true },
            Err(m) => failed(m),
        },
        ManageCmd::McpList => told(mcp_list(sources)),
        ManageCmd::McpStatus => told(status_of(configured, notes, sources)),
        _ => ManageStep::Unexpected,
    }
}

// ── With the configuration ──────────────────────────────────────────────────

pub open spec fn check_lines(f: ConfigFacts) -> Seq<say::LineView> {
    say::said(
        say::entry("manage.config.check_ok"@).arg(
            "models"@,
            numeral::dec((1 + f.models.len()) as nat),
        ).arg("default"@, admin::text_or(f.default.alias, f.default.id@)).arg(
            "mcp"@,
            numeral::dec(f.servers.len() as nat),
        ).arg("tools"@, numeral::dec(f.tools as nat)),
    ) + config::warning_lines(f.warnings@, f.warnings.len() as int)
}

/// How a command goes on once the configuration is loaded.
pub open spec fn config_known(cmd: ManageCmd, f: ConfigFacts, s: ManageStep) -> bool {
    match cmd {
        ManageCmd::ModelsList => ends(
            s,
            admin::models_lines(f.default, f.models@),
            say::silence(),
        ),
        ManageCmd::AuthList => ends(
            s,
            admin::auth_lines(f.default, f.models@, f.keys@, f.oauth@, f.now, f.never),
            say::silence(),
        ),
        ManageCmd::McpLogin { server } => match server_url(f.servers@, server@) {
            Ok((u, o)) => s matches ManageStep::McpSignIn { url, oauth } && url@ == u
                && manage::opt_text(oauth) == o,
            Err(m) => fails(s, m),
        },
        ManageCmd::McpLogout { server } => match server_url(f.servers@, server@) {
            Ok((u, _)) => s matches ManageStep::McpSignOut { url } && url@ == u,
            Err(m) => fails(s, m),
        },
        ManageCmd::ConfigCheck => ends(s, check_lines(f), say::silence()),
        _ => s is Unexpected,
    }
}

fn with_config(cmd: &ManageCmd, f: &ConfigFacts) -> (s: ManageStep)
    ensures
        config_known(*cmd, *f, s),
{
    match cmd {
        ManageCmd::ModelsList => told(models_list(&f.default, &f.models)),
        ManageCmd::AuthList => told(
            auth_list(&f.default, &f.models, &f.keys, &f.oauth, f.now, f.never),
        ),
        ManageCmd::McpLogin { server } => match resolve_mcp_http_server(&f.servers, server) {
            Ok((url, oauth)) => ManageStep::McpSignIn { url, oauth },
            Err(m) => failed(m),
        },
        ManageCmd::McpLogout { server } => match resolve_mcp_http_server(&f.servers, server) {
            Ok((url, _)) => ManageStep::McpSignOut { url },
            Err(m) => failed(m),
        },
        ManageCmd::ConfigCheck => {
            let mut out = just(
                config_check_summary(&f.default, f.models.len(), f.servers.len(), f.tools),
            );
            let more = config_check_warnings(&f.warnings);
            out.append(more);
            told(out)
        },
        _ => ManageStep::Unexpected,
    }
}

/// How the commands that only need the configuration end where it cannot be loaded.
pub open spec fn config_failed(cmd: ManageCmd, error: Seq<char>, s: ManageStep) -> bool {
    match cmd {
        ManageCmd::ConfigCheck => s matches ManageStep::Done { out, err, code } && out@
            == say::silence() && err@ == say::said(
            say::entry("manage.config.check_failed"@).arg("error"@, error),
        ) && code == 1,
        _ => s matches ManageStep::Fail { why, cause } && why@ == say::entry("error.load_config"@)
            && manage::opt_text(cause) == Some(error),
    }
}

// ── The course of a command ─────────────────────────────────────────────────

/// What follows an event in the course of a command.
pub open spec fn goes_on(cmd: ManageCmd, e: ManageEvent, s: ManageStep) -> bool {
    match e {
        ManageEvent::Config(f) => config_known(cmd, f, s),
        ManageEvent::ConfigFailed(error) => config_failed(cmd, error@, s),
        ManageEvent::Servers { sources, configured, notes } => servers_known(
            cmd,
            sources@,
            configured@,
            notes@,
            s,
        ),
        _ => match cmd {
            ManageCmd::AuthLogin { id } => login_goes_on(id@, e, s),
            ManageCmd::ModelsCatalog(filter) => match e {
                ManageEvent::Catalog(entries) => ends(
                    s,
                    admin::catalog_lines(filter@, entries@),
                    say::silence(),
                ),
                _ => s is Unexpected,
            },
            ManageCmd::AuthSave { provider } => match e {
                ManageEvent::Stdin(key) => saves_key(s, provider@, key@),
                ManageEvent::Stored { path, .. } => ends(
                    s,
                    say::silence(),
                    say::said(provider_and_path("manage.auth.saved"@, provider@, path@)),
                ),
                _ => s is Unexpected,
            },
            ManageCmd::AuthRemove { provider } => match e {
                ManageEvent::Keys(store) => removes_key(s, provider@, store@),
                ManageEvent::Stored { path, .. } => ends(
                    s,
                    say::silence(),
                    say::said(provider_and_path("manage.auth.removed"@, provider@, path@)),
                ),
                _ => s is Unexpected,
            },
            ManageCmd::AuthLogout { provider } => match e {
                ManageEvent::SignedOut { oauth_removed, key_removed, oauth_path, key_path } =>
                if !manage::is_provider(provider@) {
                    fails(s, manage::bad_provider(provider@))
                } else if oauth_removed || key_removed {
                    ends(
                        s,
                        say::silence(),
                        signed_out_lines(
                            provider@,
                            oauth_removed,
                            key_removed,
                            oauth_path@,
                            key_path@,
                        ),
                    )
                } else {
                    fails(s, admin::no_credentials(provider@))
                },
                _ => s is Unexpected,
            },
            ManageCmd::McpLogin { server } => match e {
                ManageEvent::McpSignedIn { path } => ends(
                    s,
                    say::said(
                        say::entry("manage.mcp.login.saved"@).arg("server"@, server@).arg(
                            "path"@,
                            path@,
                        ),
                    ),
                    say::silence(),
                ),
                _ => s is Unexpected,
            },
            ManageCmd::McpLogout { server } => match e {
                ManageEvent::McpSignedOut { removed, path } => if removed {
                    ends(
                        s,
                        say::silence(),
                        say::said(
                            say::entry("manage.mcp.logout.removed"@).arg("server"@, server@).arg(
                                "path"@,
                                path@,
                            ),
                        ),
                    )
                } else {
                    fails(s, say::entry("manage.mcp.logout.not_found"@).arg("server"@, server@))
                },
                _ => s is Unexpected,
            },
            ManageCmd::McpAdd(a) => match e {
                ManageEvent::ServerWritten { path } => ends(
                    s,
                    say::said(servers::name_and_path("manage.mcp.add.saved"@, a.name@, path@)),
                    say::silence(),
                ),
                _ => s is Unexpected,
            },
            ManageCmd::McpRemove { name, .. } => match e {
                ManageEvent::ServerRemoved { removed, path } => if removed {
                    ends(
                        s,
                        say::said(
                            servers::name_and_path("manage.mcp.remove.removed"@, name@, path@),
                        ),
                        say::silence(),
                    )
                } else {
                    fails(
                        s,
                        servers::name_and_path("manage.mcp.remove.not_found"@, name@, path@),
                    )
                },
                _ => s is Unexpected,
            },
            ManageCmd::McpEnable { name } => switched(e, name@, "manage.mcp.enable.done"@, s),
            ManageCmd::McpDisable { name } => switched(e, name@, "manage.mcp.disable.done"@, s),
            ManageCmd::ConfigPath => match e {
                ManageEvent::ConfigFile { path, exists } => ends(
                    s,
                    say::said(
                        say::entry(
                            if exists {
                                "manage.config.path"@
                            } else {
                                "manage.config.path_missing"@
                            },
                        ).arg("path"@, path@),
                    ),
                    say::silence(),
                ),
                _ => s is Unexpected,
            },
            ManageCmd::ConfigShow => match e {
                ManageEvent::Settings(v) => s matches ManageStep::Print { out, text } && out@ == (
                if secrets::holds_secret(v@, Seq::empty()) {
                    say::said(say::entry("manage.config.masked"@))
                } else {
                    say::silence()
                }) && text@ == config::page_text(
                    config::toml_page(config::toml_put(secrets::masked(v@, Seq::empty()))),
                ),
                ManageEvent::SettingsFailed(error) => unreadable(s, error@),
                _ => s is Unexpected,
            },
            ManageCmd::ConfigGet { key } => match e {
                ManageEvent::Settings(v) => match secrets::shown(v@, key@) {
                    Ok(d) => s matches ManageStep::Print { out, text } && out@ == say::silence()
                        && text@ == config::alone(
                        d,
                        config::toml_document(config::toml_put(d)),
                        config::toml_inline(config::toml_put(d)),
                    ),
                    Err(m) => ends(s, say::said(m), say::silence()),
                },
                ManageEvent::SettingsFailed(error) => unreadable(s, error@),
                _ => s is Unexpected,
            },
            ManageCmd::ConfigSet { key, .. } => match e {
                ManageEvent::SettingWritten(r) => ends(
                    s,
                    say::said(
                        match r {
                            Ok(path) => say::entry("manage.config.set_ok"@).arg("key"@, key@).arg(
                                "path"@,
                                path@,
                            ),
                            Err(x) => say::entry("manage.config.set_failed"@).arg("error"@, x@),
                        },
                    ),
                    say::silence(),
                ),
                _ => s is Unexpected,
            },
            ManageCmd::ConfigKeys { prefix } => match e {
                ManageEvent::SettingKeys(keys) => ends(
                    s,
                    config::key_lines(keys@, text_ref(prefix)),
                    say::silence(),
                ),
                _ => s is Unexpected,
            },
            _ => s is Unexpected,
        },
    }
}

pub open spec fn text_ref(o: Option<String>) -> Option<Seq<char>> {
    match o {
        Some(s) => Some(s@),
        None => None,
    }
}

pub open spec fn unreadable(s: ManageStep, error: Seq<char>) -> bool {
    ends(
        s,
        say::said(say::entry("manage.config.check_failed"@).arg("error"@, error)),
        say::silence(),
    )
}

pub open spec fn switched(e: ManageEvent, name: Seq<char>, key: Seq<char>, s: ManageStep) -> bool {
    match e {
        ManageEvent::Switched { path } => ends(
            s,
            say::said(servers::name_and_path(key, name, path@)),
            say::silence(),
        ),
        _ => s is Unexpected,
    }
}

/// The key of a provider leaves the store, if it is there.
pub open spec fn removes_key(s: ManageStep, provider: Seq<char>, store: Seq<(String, String)>) -> bool {
    let norm = manage::provider_form(provider);
    if !manage::is_provider(provider) {
        fails(s, manage::bad_provider(provider))
    } else if admin::stored(store, norm, store.len() as int) is None {
        fails(s, admin::no_credentials(provider))
    } else {
        s matches ManageStep::ReplaceKeys { keys } && manage::pair_texts(keys@)
            == admin::without_key(store, norm, store.len() as int)
    }
}

/// The step that follows an event. Together with the first step this is the whole course
/// of a management command: the host does what the step says and hands the event back,
/// until a step ends the command.
pub fn run_manage_cmd(cmd: &ManageCmd, event: &ManageEvent) -> (s: ManageStep)
    ensures
        goes_on(*cmd, *event, s),
{
    match event {
        ManageEvent::Config(f) => {
            return with_config(cmd, f);
        },
        ManageEvent::ConfigFailed(error) => {
            return match cmd {
                ManageCmd::ConfigCheck => ManageStep::Done {
                    out: Output::new(),
                    err: just(config_check_error(error)),
                    code: 1,
                },
                _ => ManageStep::Fail {
                    why: msg("error.load_config"),
                    cause: Some(copy_text(error)),
                },
            };
        },
        ManageEvent::Servers { sources, configured, notes } => {
            return with_servers(cmd, sources, configured, notes);
        },
        _ => {},
    }
    match cmd {
        ManageCmd::AuthLogin { id } => auth_login(id, event),
        ManageCmd::ModelsCatalog(filter) => match event {
            ManageEvent::Catalog(entries) => told(models_catalog(filter, entries)),
            _ => ManageStep::Unexpected,
        },
        ManageCmd::AuthSave { provider } => match event {
            ManageEvent::Stdin(key) => save_key(provider, key),
            ManageEvent::Stored { path, .. } => noted(
                just(msg("manage.auth.saved").arg("provider", provider).arg("path", path)),
            ),
            _ => ManageStep::Unexpected,
        },
        ManageCmd::AuthRemove { provider } => match event {
            ManageEvent::Keys(store) => match auth_remove(store, provider) {
                Ok(keys) => ManageStep::ReplaceKeys { keys },
                Err(m) => failed(m),
            },
            ManageEvent::Stored { path, .. } => noted(
                just(msg("manage.auth.removed").arg("provider", provider).arg("path", path)),
            ),
            _ => ManageStep::Unexpected,
        },
        ManageCmd::AuthLogout { provider } => match event {
            ManageEvent::SignedOut { oauth_removed, key_removed, oauth_path, key_path } => {
                match validate_provider(provider) {
                    Err(m) => failed(m),
                    Ok(_) => signed_out(
                        provider,
                        *oauth_removed,
                        *key_removed,
                        oauth_path,
                        key_path,
                    ),
                }
            },
            _ => ManageStep::Unexpected,
        },
        ManageCmd::McpLogin { server } => match event {
            ManageEvent::McpSignedIn { path } => told(
                just(msg("manage.mcp.login.saved").arg("server", server).arg("path", path)),
            ),
            _ => ManageStep::Unexpected,
        },
        ManageCmd::McpLogout { server } => match event {
            ManageEvent::McpSignedOut { removed, path } => if *removed {
                noted(
                    just(msg("manage.mcp.logout.removed").arg("server", server).arg("path", path)),
                )
            } else {
                failed(msg("manage.mcp.logout.not_found").arg("server", server))
            },
            _ => ManageStep::Unexpected,
        },
        ManageCmd::McpAdd(a) => match event {
            ManageEvent::ServerWritten { path } => told(just(mcp_add(a, path))),
            _ => ManageStep::Unexpected,
        },
        ManageCmd::McpRemove { name, .. } => match event {
            ManageEvent::ServerRemoved { removed, path } => match mcp_remove(
                name,
                path,
                *removed,
            ) {
                Ok(m) => told(just(m)),
                Err(m) => failed(m),
            },
            _ => ManageStep::Unexpected,
        },
        ManageCmd::McpEnable { name } => match event {
            ManageEvent::Switched { path } => told(
                just(msg("manage.mcp.enable.done").arg("name", name).arg("path", path)),
            ),
            _ => ManageStep::Unexpected,
        },
        ManageCmd::McpDisable { name } => match event {
            ManageEvent::Switched { path } => told(
                just(msg("manage.mcp.disable.done").arg("name", name).arg("path", path)),
            ),
            _ => ManageStep::Unexpected,
        },
        ManageCmd::ConfigPath => match event {
            ManageEvent::ConfigFile { path, exists } => told(just(config_path(path, *exists))),
            _ => ManageStep::Unexpected,
        },
        ManageCmd::ConfigShow => match event {
            ManageEvent::Settings(v) => {
                let (out, value) = config_show(v);
                ManageStep::Print { out, text: configuration_text(&value) }
            },
            ManageEvent::SettingsFailed(error) => told(just(config_check_error(error))),
            _ => ManageStep::Unexpected,
        },
        ManageCmd::ConfigGet { key } => match event {
            ManageEvent::Settings(v) => match config_get(v, key) {
                Ok(value) => ManageStep::Print { out: Output::new(), text: value_text(&value) },
                Err(m) => told(just(m)),
            },
            ManageEvent::SettingsFailed(error) => told(just(config_check_error(error))),
            _ => ManageStep::Unexpected,
        },
        ManageCmd::ConfigSet { key, .. } => match event {
            ManageEvent::SettingWritten(r) => told(just(config_set(key, r))),
            _ => ManageStep::Unexpected,
        },
        ManageCmd::ConfigKeys { prefix } => match event {
            ManageEvent::SettingKeys(keys) => {
                let p: Option<&str> = match prefix {
                    Some(s) => Some(s.as_str()),
                    None => None,
                };
                told(config_keys(keys, p))
            },
            _ => ManageStep::Unexpected,
        },
        _ => ManageStep::Unexpected,
    }
}

} // verus!
