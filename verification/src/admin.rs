//! What the management commands on models and credentials print and decide.
use vstd::prelude::*;

use crate::manage;
use crate::manage::validate_provider;
use crate::numeral;
use crate::numeral::{dec_text, dec_usize, dec_wide};
use crate::pieces;
use crate::pieces::join_of;
use crate::say;
use crate::say::{just, msg, Msg, Output, Val};
use crate::text;
use crate::text::{cat, copy_text, padded_left, padded_right, same, trimmed};

verus! {

/// A configured model, and where its key could come from.
#[derive(Debug)]
pub struct ModelProfile {
    pub id: String,
    pub alias: Option<String>,
    /// The provider's name.
    pub api: String,
    pub base_url: String,
    /// Whether the configured key is empty as it is written.
    pub config_key_empty: bool,
    /// The configured key with the environment put in.
    pub expanded_key: String,
    /// The environment variable that may hold the key.
    pub env_name: String,
    /// Whether that variable is set, and not to the empty text.
    pub env_set: bool,
}

pub open spec fn text_or(o: Option<String>, other: Seq<char>) -> Seq<char> {
    match o {
        Some(s) => s@,
        None => other,
    }
}

pub fn text_or_of(o: &Option<String>, other: &str) -> (r: String)
    ensures
        r@ == text_or(*o, other@),
{
    match o {
        Some(s) => copy_text(s),
        None => copy_text(other),
    }
}

// ── models list ─────────────────────────────────────────────────────────────

pub open spec fn profile_msg(key: Seq<char>, p: ModelProfile) -> say::MsgView {
    say::entry(key).arg("id"@, p.id@).arg("alias"@, text_or(p.alias, "-"@)).arg("api"@, p.api@).arg(
        "base_url"@,
        p.base_url@,
    )
}

fn profile_msg_of(key: &str, p: &ModelProfile) -> (m: Msg)
    ensures
        m@ == profile_msg(key@, *p),
{
    msg(key).arg("id", &p.id).arg("alias", &text_or_of(&p.alias, "-")).arg("api", &p.api).arg(
        "base_url",
        &p.base_url,
    )
}

pub open spec fn profile_rows(models: Seq<ModelProfile>, n: int) -> Seq<say::LineView>
    decreases n,
{
    if n <= 0 {
        Seq::empty()
    } else {
        profile_rows(models, n - 1).push(
            say::LineView::Msg(profile_msg("manage.models.entry"@, models[n - 1])),
        )
    }
}

/// The configured models: the default one first, then the others.
pub open spec fn models_lines(default: ModelProfile, models: Seq<ModelProfile>) -> Seq<
    say::LineView,
> {
    let head = say::said(
        say::entry("manage.models.header"@).arg("count"@, numeral::dec(1 + models.len())),
    ).push(say::LineView::Msg(profile_msg("manage.models.entry_default"@, default)));
    let body = if models.len() == 0 {
        say::said(say::entry("manage.models.no_extra"@))
    } else {
        profile_rows(models, models.len() as int)
    };
    (head + body).push(say::LineView::Msg(say::entry("manage.models.no_catalog"@)))
}

pub fn models_list(default: &ModelProfile, models: &Vec<ModelProfile>) -> (out: Output)
    ensures
        out@ == models_lines(*default, models@),
{
    let mut out = just(msg("manage.models.header").arg("count", &dec_wide(1 + models.len() as u128)));
    out.say(profile_msg_of("manage.models.entry_default", default));
    let ghost head = out@;
    if models.len() == 0 {
        out.say(msg("manage.models.no_extra"));
        assert(out@ =~= head + say::said(say::entry("manage.models.no_extra"@)));
    } else {
        let mut i: usize = 0;
        assert(out@ =~= head + profile_rows(models@, 0));
        while i < models.len()
            invariant
                i <= models.len(),
                out@ == head + profile_rows(models@, i as int),
            decreases models.len() - i,
        {
            out.say(profile_msg_of("manage.models.entry", &models[i]));
            i = i + 1;
            assert(out@ =~= head + profile_rows(models@, i as int));
        }
    }
    out.say(msg("manage.models.no_catalog"));
    out
}

// ── models catalog ──────────────────────────────────────────────────────────

/// A model of the built-in catalogue.
#[derive(Debug)]
pub struct CatalogEntry {
    pub pattern: String,
    pub api: String,
    pub max_input_tokens: u64,
    pub max_output_tokens: u64,
    pub supports_thinking: bool,
}

/// One row of the catalogue's table.
pub open spec fn catalog_row(
    pattern: Seq<char>,
    api: Seq<char>,
    input: Seq<char>,
    output: Seq<char>,
    thinking: Seq<char>,
) -> Seq<char> {
    "  "@ + text::pad_right(pattern, 22) + " "@ + text::pad_right(api, 24) + " "@ + text::pad_left(
        input,
        10,
    ) + " "@ + text::pad_left(output, 9) + "  "@ + thinking
}

fn catalog_row_of(pattern: &str, api: &str, input: &str, output: &str, thinking: &str) -> (r: String)
    ensures
        r@ == catalog_row(pattern@, api@, input@, output@, thinking@),
{
    let r = cat("  ", &padded_right(pattern, 22));
    let r = cat(&cat(&r, " "), &padded_right(api, 24));
    let r = cat(&cat(&r, " "), &padded_left(input, 10));
    let r = cat(&cat(&r, " "), &padded_left(output, 9));
    cat(&cat(&r, "  "), thinking)
}

pub open spec fn yes_no(b: bool) -> Seq<char> {
    if b {
        "yes"@
    } else {
        "no"@
    }
}

fn yes_no_of(b: bool) -> (r: &'static str)
    ensures
        r@ == yes_no(b),
{
    if b {
        "yes"
    } else {
        "no"
    }
}

pub open spec fn catalog_rows(entries: Seq<CatalogEntry>, n: int) -> Seq<say::LineView>
    decreases n,
{
    if n <= 0 {
        Seq::empty()
    } else {
        let e = entries[n - 1];
        catalog_rows(entries, n - 1).push(
            say::LineView::Text(
                catalog_row(
                    e.pattern@,
                    e.api@,
                    numeral::dec(e.max_input_tokens as nat),
                    numeral::dec(e.max_output_tokens as nat),
                    yes_no(e.supports_thinking),
                ),
            ),
        )
    }
}

/// The catalogue entries that matched a filter, as a table.
pub open spec fn catalog_lines(filter: Seq<char>, entries: Seq<CatalogEntry>) -> Seq<
    say::LineView,
> {
    if entries.len() == 0 {
        seq![
            say::LineView::Text(
                "内置目录中没有匹配 `"@ + filter
                    + "` 的模型（可用 `agent models list` 查看当前 provider 的真实清单）"@,
            ),
        ]
    } else {
        let head = seq![
            say::LineView::Text(
                "内置模型目录（离线近似；未匹配的模型沿用配置/默认值）："@ + numeral::dec(entries.len())
                    + " 条"@,
            ),
            say::LineView::Text(
                catalog_row("id 模式"@, "建议 api"@, "上下文"@, "最大输出"@, "思考"@),
            ),
        ];
        (head + catalog_rows(entries, entries.len() as int)).push(
            say::LineView::Text(Seq::empty()),
        ).push(
            say::LineView::Text(
                "提示：目录只补缺（显式 max_input_tokens / max_output_tokens 优先）；运行时可用模型请用 `agent models list`。"@,
            ),
        )
    }
}

pub fn models_catalog(filter: &str, entries: &Vec<CatalogEntry>) -> (out: Output)
    ensures
        out@ == catalog_lines(filter@, entries@),
{
    let mut out = Output::new();
    if entries.len() == 0 {
        let t = cat("内置目录中没有匹配 `", filter);
        out.print(
            cat(&t, "` 的模型（可用 `agent models list` 查看当前 provider 的真实清单）"),
        );
        assert(out@ =~= catalog_lines(filter@, entries@));
        return out;
    }
    let t = cat(
        "内置模型目录（离线近似；未匹配的模型沿用配置/默认值）：",
        &dec_usize(entries.len()),
    );
    out.print(cat(&t, " 条"));
    out.print(catalog_row_of("id 模式", "建议 api", "上下文", "最大输出", "思考"));
    let ghost head = out@;
    let mut i: usize = 0;
    assert(out@ =~= head + catalog_rows(entries@, 0));
    while i < entries.len()
        invariant
            i <= entries.len(),
            out@ == head + catalog_rows(entries@, i as int),
        decreases entries.len() - i,
    {
        let e = &entries[i];
        out.print(
            catalog_row_of(
                &e.pattern,
                &e.api,
                &dec_text(e.max_input_tokens),
                &dec_text(e.max_output_tokens),
                yes_no_of(e.supports_thinking),
            ),
        );
        i = i + 1;
        assert(out@ =~= head + catalog_rows(entries@, i as int));
    }
    out.print(String::new());
    out.print(
        copy_text(
            "提示：目录只补缺（显式 max_input_tokens / max_output_tokens 优先）；运行时可用模型请用 `agent models list`。",
        ),
    );
    assert(out@ =~= catalog_lines(filter@, entries@));
    out
}

// ── Where a key comes from ──────────────────────────────────────────────────

/// Where the key of a model comes from; never the key itself.
#[derive(Debug)]
pub enum KeySource<S = String> {
    Config,
    AuthToml,
    /// The environment variable of that name.
    Env(S),
    /// Nowhere; the variable of that name would be looked at.
    Missing(S),
}

impl KeySource {
    pub open spec fn view(&self) -> KeySource<Seq<char>> {
        match self {
            KeySource::Config => KeySource::Config,
            KeySource::AuthToml => KeySource::AuthToml,
            KeySource::Env(n) => KeySource::Env(n@),
            KeySource::Missing(n) => KeySource::Missing(n@),
        }
    }
}

/// The value stored under a key.
pub open spec fn stored(store: Seq<(String, String)>, key: Seq<char>, n: int) -> Option<Seq<char>>
    decreases n,
{
    if n <= 0 {
        None
    } else if store[n - 1].0@ == key {
        Some(store[n - 1].1@)
    } else {
        stored(store, key, n - 1)
    }
}

pub fn stored_of<'a>(store: &'a Vec<(String, String)>, key: &str) -> (r: Option<&'a str>)
    ensures
        match r {
            Some(v) => stored(store@, key@, store.len() as int) == Some(v@),
            None => stored(store@, key@, store.len() as int) is None,
        },
{
    let mut i: usize = store.len();
    while i > 0
        invariant
            i <= store.len(),
            stored(store@, key@, store.len() as int) == stored(store@, key@, i as int),
        decreases i,
    {
        if same(&store[i - 1].0, key) {
            return Some(store[i - 1].1.as_str());
        }
        i = i - 1;
    }
    None
}

pub open spec fn has_stored(store: Seq<(String, String)>, key: Seq<char>) -> bool {
    stored(store, key, store.len() as int) matches Some(v) && v.len() > 0
}

/// The configured key comes first, then the stored one, then the environment; an empty
/// key counts as none.
pub open spec fn source_of(
    config_key_empty: bool,
    expanded: Seq<char>,
    store: Seq<(String, String)>,
    provider: Seq<char>,
    env_name: Seq<char>,
    env_set: bool,
) -> KeySource<Seq<char>> {
    if !config_key_empty && expanded.len() > 0 {
        KeySource::Config
    } else if has_stored(store, provider) {
        KeySource::AuthToml
    } else if env_set {
        KeySource::Env(env_name)
    } else {
        KeySource::Missing(env_name)
    }
}

pub fn key_source_core(
    config_key_empty: bool,
    expanded_config_value: &str,
    store: &Vec<(String, String)>,
    provider: &str,
    env_name: &str,
    env_set: bool,
) -> (r: KeySource)
    ensures
        r.view() == source_of(
            config_key_empty,
            expanded_config_value@,
            store@,
            provider@,
            env_name@,
            env_set,
        ),
{
    if !config_key_empty && !expanded_config_value.is_empty() {
        return KeySource::Config;
    }
    match stored_of(store, provider) {
        Some(k) => if !k.is_empty() {
            return KeySource::AuthToml;
        },
        None => {},
    }
    if env_set {
        KeySource::Env(copy_text(env_name))
    } else {
        KeySource::Missing(copy_text(env_name))
    }
}

pub open spec fn profile_source(p: ModelProfile, store: Seq<(String, String)>) -> KeySource<
    Seq<char>,
> {
    source_of(p.config_key_empty, p.expanded_key@, store, p.api@, p.env_name@, p.env_set)
}

pub fn key_source(profile: &ModelProfile, store: &Vec<(String, String)>) -> (r: KeySource)
    ensures
        r.view() == profile_source(*profile, store@),
{
    key_source_core(
        profile.config_key_empty,
        &profile.expanded_key,
        store,
        &profile.api,
        &profile.env_name,
        profile.env_set,
    )
}

// ── auth list ───────────────────────────────────────────────────────────────

/// Credentials got by signing in.
#[derive(Debug)]
pub struct OAuthRow {
    pub provider: String,
    /// When the credentials run out, in milliseconds.
    pub expires: i64,
    pub expired: bool,
    pub email: Option<String>,
    /// Whether the sign-in itself has run out.
    pub grant_expired: bool,
}

/// A stretch of time in the largest fitting unit, at least one minute.
pub open spec fn duration(ms: int) -> say::MsgView {
    let mins = if ms < 60_000 {
        1
    } else {
        ms / 60_000
    };
    if mins < 60 {
        say::entry("manage.auth.dur_min"@).arg("n"@, numeral::dec(mins as nat))
    } else if mins < 2880 {
        say::entry("manage.auth.dur_hour"@).arg("n"@, numeral::dec((mins / 60) as nat))
    } else {
        say::entry("manage.auth.dur_day"@).arg("n"@, numeral::dec((mins / 1440) as nat))
    }
}

pub fn humanize_ms(ms: i128) -> (m: Msg)
    requires
        ms <= 0x1_0000_0000_0000_0000,
    ensures
        m@ == duration(ms as int),
{
    let mins: u64 = if ms < 60_000 {
        1
    } else {
        (ms as u128 / 60_000) as u64
    };
    if mins < 60 {
        msg("manage.auth.dur_min").arg("n", &dec_text(mins))
    } else if mins < 2880 {
        msg("manage.auth.dur_hour").arg("n", &dec_text(mins / 60))
    } else {
        msg("manage.auth.dur_day").arg("n", &dec_text(mins / 1440))
    }
}

pub open spec fn source_val(s: KeySource<Seq<char>>, provider: Seq<char>) -> say::ValView {
    match s {
        KeySource::Config => say::entry("manage.auth.source_config"@).val(),
        KeySource::AuthToml => say::entry("manage.auth.source_auth_toml"@).val(),
        KeySource::Env(name) => say::entry("manage.auth.source_env"@).arg("name"@, name).val(),
        KeySource::Missing(name) => say::entry("manage.auth.source_missing"@).arg(
            "name"@,
            name,
        ).arg("provider"@, provider).val(),
    }
}

fn source_val_of(s: KeySource, provider: &str) -> (v: Val)
    ensures
        v.view() == source_val(s.view(), provider@),
{
    match s {
        KeySource::Config => msg("manage.auth.source_config").val(),
        KeySource::AuthToml => msg("manage.auth.source_auth_toml").val(),
        KeySource::Env(name) => msg("manage.auth.source_env").arg("name", &name).val(),
        KeySource::Missing(name) => msg("manage.auth.source_missing").arg("name", &name).arg(
            "provider",
            provider,
        ).val(),
    }
}

/// The line on one model: its provider, its alias or id, and where its key comes from.
pub open spec fn auth_row(p: ModelProfile, store: Seq<(String, String)>) -> say::LineView {
    say::LineView::Msg(
        say::entry("manage.auth.row"@).arg("provider"@, p.api@).arg(
            "model"@,
            text_or(p.alias, p.id@),
        ).with("source"@, source_val(profile_source(p, store), p.api@)),
    )
}

fn auth_row_of(p: &ModelProfile, store: &Vec<(String, String)>) -> (m: Msg)
    ensures
        say::LineView::Msg(m@) == auth_row(*p, store@),
{
    let source = source_val_of(key_source(p, store), &p.api);
    msg("manage.auth.row").arg("provider", &p.api).arg("model", &text_or_of(&p.alias, &p.id)).with(
        "source",
        source,
    )
}

pub open spec fn auth_rows(models: Seq<ModelProfile>, store: Seq<(String, String)>, n: int) -> Seq<
    say::LineView,
>
    decreases n,
{
    if n <= 0 {
        Seq::empty()
    } else {
        auth_rows(models, store, n - 1).push(auth_row(models[n - 1], store))
    }
}

/// How long signed-in credentials last; `never` is the time that stands for no end.
pub open spec fn expiry(r: OAuthRow, now: i64, never: i64) -> say::ValView {
    if r.expires >= never - 86_400_000 {
        say::entry("manage.auth.oauth_longlived"@).val()
    } else if r.expired {
        say::entry("manage.auth.oauth_expired"@).val()
    } else {
        say::entry("manage.auth.oauth_valid"@).with("remaining"@, duration(r.expires - now).val()).val()
    }
}

pub open spec fn who(email: Option<String>) -> Seq<char> {
    match email {
        Some(e) => " <"@ + e@ + ">"@,
        None => Seq::empty(),
    }
}

pub open spec fn oauth_lines(r: OAuthRow, now: i64, never: i64) -> Seq<say::LineView> {
    let row = say::LineView::Msg(
        say::entry("manage.auth.oauth_row"@).arg("provider"@, r.provider@).arg(
            "who"@,
            who(r.email),
        ).with("expiry"@, expiry(r, now, never)),
    );
    if r.grant_expired {
        seq![row, say::LineView::Msg(say::entry("manage.auth.oauth_grant_expired"@))]
    } else {
        seq![row]
    }
}

pub open spec fn oauth_rows(rows: Seq<OAuthRow>, now: i64, never: i64, n: int) -> Seq<say::LineView>
    decreases n,
{
    if n <= 0 {
        Seq::empty()
    } else {
        oauth_rows(rows, now, never, n - 1) + oauth_lines(rows[n - 1], now, never)
    }
}

fn oauth_lines_of(r: &OAuthRow, now: i64, never: i64, out: &mut Output)
    ensures
        final(out)@ == old(out)@ + oauth_lines(*r, now, never),
{
    let long: bool = r.expires as i128 >= never as i128 - 86_400_000;
    let expiry = if long {
        msg("manage.auth.oauth_longlived").val()
    } else if r.expired {
        msg("manage.auth.oauth_expired").val()
    } else {
        let left: i128 = r.expires as i128 - now as i128;
        msg("manage.auth.oauth_valid").with("remaining", humanize_ms(left).val()).val()
    };
    let who = match &r.email {
        Some(e) => {
            let w = cat(" <", e);
            cat(&w, ">")
        },
        None => String::new(),
    };
    out.say(
        msg("manage.auth.oauth_row").arg("provider", &r.provider).arg("who", &who).with(
            "expiry",
            expiry,
        ),
    );
    if r.grant_expired {
        out.say(msg("manage.auth.oauth_grant_expired"));
    }
    assert(out@ =~= old(out)@ + oauth_lines(*r, now, never));
}

/// Some model or some signed-in credentials use the provider.
pub open spec fn is_claimed(
    default: ModelProfile,
    models: Seq<ModelProfile>,
    oauth: Seq<OAuthRow>,
    provider: Seq<char>,
) -> bool {
    ||| default.api@ == provider
    ||| exists|i: int| 0 <= i < models.len() && (#[trigger] models[i]).api@ == provider
    ||| exists|i: int| 0 <= i < oauth.len() && (#[trigger] oauth[i]).provider@ == provider
}

fn claimed(
    default: &ModelProfile,
    models: &Vec<ModelProfile>,
    oauth: &Vec<OAuthRow>,
    provider: &str,
) -> (r: bool)
    ensures
        r == is_claimed(*default, models@, oauth@, provider@),
{
    if same(&default.api, provider) {
        return true;
    }
    let mut i: usize = 0;
    while i < models.len()
        invariant
            i <= models.len(),
            forall|k: int| 0 <= k < i ==> (#[trigger] models@[k]).api@ != provider@,
        decreases models.len() - i,
    {
        if same(&models[i].api, provider) {
            return true;
        }
        i = i + 1;
    }
    let mut j: usize = 0;
    while j < oauth.len()
        invariant
            j <= oauth.len(),
            forall|k: int| 0 <= k < j ==> (#[trigger] oauth@[k]).provider@ != provider@,
        decreases oauth.len() - j,
    {
        if same(&oauth[j].provider, provider) {
            return true;
        }
        j = j + 1;
    }
    false
}

/// The stored keys, not empty ones, that nothing uses.
pub open spec fn orphans(
    default: ModelProfile,
    models: Seq<ModelProfile>,
    oauth: Seq<OAuthRow>,
    store: Seq<(String, String)>,
    n: int,
) -> Seq<Seq<char>>
    decreases n,
{
    if n <= 0 {
        Seq::empty()
    } else {
        let prev = orphans(default, models, oauth, store, n - 1);
        if store[n - 1].1@.len() > 0 && !is_claimed(default, models, oauth, store[n - 1].0@) {
            prev.push(store[n - 1].0@)
        } else {
            prev
        }
    }
}

fn orphans_of(
    default: &ModelProfile,
    models: &Vec<ModelProfile>,
    oauth: &Vec<OAuthRow>,
    store: &Vec<(String, String)>,
) -> (r: Vec<String>)
    ensures
        text::texts(r@) == orphans(*default, models@, oauth@, store@, store.len() as int),
{
    let mut r: Vec<String> = Vec::new();
    let mut i: usize = 0;
    assert(text::texts(r@) =~= Seq::<Seq<char>>::empty());
    while i < store.len()
        invariant
            i <= store.len(),
            text::texts(r@) == orphans(*default, models@, oauth@, store@, i as int),
        decreases store.len() - i,
    {
        if !store[i].1.as_str().is_empty() && !claimed(default, models, oauth, &store[i].0) {
            let k = copy_text(&store[i].0);
            proof {
                text::lemma_texts_push(r@, k);
            }
            r.push(k);
        }
        i = i + 1;
    }
    r
}

/// Everything `auth list` prints: a row for each model, the signed-in credentials, and
/// the stored keys that nothing uses.
pub open spec fn auth_lines(
    default: ModelProfile,
    models: Seq<ModelProfile>,
    store: Seq<(String, String)>,
    oauth: Seq<OAuthRow>,
    now: i64,
    never: i64,
) -> Seq<say::LineView> {
    let head = say::said(
        say::entry("manage.auth.header"@).arg("count"@, numeral::dec(1 + models.len())),
    ).push(auth_row(default, store));
    let rows = head + auth_rows(models, store, models.len() as int) + oauth_rows(
        oauth,
        now,
        never,
        oauth.len() as int,
    );
    let lost = orphans(default, models, oauth, store, store.len() as int);
    if lost.len() == 0 {
        rows
    } else {
        rows.push(
            say::LineView::Msg(
                say::entry("manage.auth.orphan"@).arg("keys"@, pieces::join(lost, ", "@)),
            ),
        )
    }
}

pub fn auth_list(
    default: &ModelProfile,
    models: &Vec<ModelProfile>,
    store: &Vec<(String, String)>,
    oauth: &Vec<OAuthRow>,
    now: i64,
    never: i64,
) -> (out: Output)
    ensures
        out@ == auth_lines(*default, models@, store@, oauth@, now, never),
{
    let mut out = just(msg("manage.auth.header").arg("count", &dec_wide(1 + models.len() as u128)));
    out.say(auth_row_of(default, store));
    let ghost head = out@;
    let mut i: usize = 0;
    assert(out@ =~= head + auth_rows(models@, store@, 0));
    while i < models.len()
        invariant
            i <= models.len(),
            out@ == head + auth_rows(models@, store@, i as int),
        decreases models.len() - i,
    {
        out.say(auth_row_of(&models[i], store));
        i = i + 1;
        assert(out@ =~= head + auth_rows(models@, store@, i as int));
    }
    let ghost rows = out@;
    let mut j: usize = 0;
    assert(out@ =~= rows + oauth_rows(oauth@, now, never, 0));
    while j < oauth.len()
        invariant
            j <= oauth.len(),
            out@ == rows + oauth_rows(oauth@, now, never, j as int),
        decreases oauth.len() - j,
    {
        oauth_lines_of(&oauth[j], now, never, &mut out);
        j = j + 1;
        assert(out@ =~= rows + oauth_rows(oauth@, now, never, j as int));
    }
    let lost = orphans_of(default, models, oauth, store);
    assert(lost.len() == text::texts(lost@).len());
    if lost.len() > 0 {
        out.say(msg("manage.auth.orphan").arg("keys", &join_of(&lost, ", ")));
    }
    out
}

/// Stores that differ at most in what the keys are, not in which there are.
pub open spec fn same_keys_held(a: Seq<(String, String)>, b: Seq<(String, String)>) -> bool {
    a.len() == b.len() && forall|i: int|
        0 <= i < a.len() ==> (#[trigger] a[i]).0@ == (#[trigger] b[i]).0@ && (a[i].1@.len() == 0) == (
        b[i].1@.len() == 0)
}

/// Models that differ at most in what their key is, not in whether there is one.
pub open spec fn same_but_for_key(a: ModelProfile, b: ModelProfile) -> bool {
    a == (ModelProfile { expanded_key: a.expanded_key, ..b }) && (a.expanded_key@.len() == 0) == (
    b.expanded_key@.len() == 0)
}

proof fn lemma_same_stored(
    a: Seq<(String, String)>,
    b: Seq<(String, String)>,
    key: Seq<char>,
    n: int,
)
    requires
        same_keys_held(a, b),
        n <= a.len(),
    ensures
        match stored(a, key, n) {
            Some(v) => stored(b, key, n) matches Some(w) && (v.len() == 0) == (w.len() == 0),
            None => stored(b, key, n) is None,
        },
    decreases n,
{
    if n > 0 {
        assert(a[n - 1].0@ == b[n - 1].0@);
        lemma_same_stored(a, b, key, n - 1);
    }
}

proof fn lemma_same_rows(
    p: Seq<ModelProfile>,
    q: Seq<ModelProfile>,
    a: Seq<(String, String)>,
    b: Seq<(String, String)>,
    n: int,
)
    requires
        same_keys_held(a, b),
        p.len() == q.len(),
        forall|i: int| 0 <= i < p.len() ==> same_but_for_key(#[trigger] p[i], q[i]),
        n <= p.len(),
    ensures
        auth_rows(p, a, n) == auth_rows(q, b, n),
    decreases n,
{
    if n > 0 {
        lemma_same_rows(p, q, a, b, n - 1);
        assert(same_but_for_key(p[n - 1], q[n - 1]));
        lemma_same_stored(a, b, p[n - 1].api@, a.len() as int);
    }
}

proof fn lemma_same_orphans(
    d: ModelProfile,
    e: ModelProfile,
    p: Seq<ModelProfile>,
    q: Seq<ModelProfile>,
    oauth: Seq<OAuthRow>,
    a: Seq<(String, String)>,
    b: Seq<(String, String)>,
    n: int,
)
    requires
        same_keys_held(a, b),
        same_but_for_key(d, e),
        p.len() == q.len(),
        forall|i: int| 0 <= i < p.len() ==> same_but_for_key(#[trigger] p[i], q[i]),
        n <= a.len(),
    ensures
        orphans(d, p, oauth, a, n) == orphans(e, q, oauth, b, n),
    decreases n,
{
    if n > 0 {
        lemma_same_orphans(d, e, p, q, oauth, a, b, n - 1);
        assert(a[n - 1].0@ == b[n - 1].0@);
        let k = a[n - 1].0@;
        if is_claimed(d, p, oauth, k) && d.api@ != k {
            if exists|i: int| 0 <= i < p.len() && (#[trigger] p[i]).api@ == k {
                let i = choose|i: int| 0 <= i < p.len() && (#[trigger] p[i]).api@ == k;
                assert(same_but_for_key(p[i], q[i]));
            }
        }
        if is_claimed(e, q, oauth, k) && e.api@ != k {
            if exists|i: int| 0 <= i < q.len() && (#[trigger] q[i]).api@ == k {
                let i = choose|i: int| 0 <= i < q.len() && (#[trigger] q[i]).api@ == k;
                assert(same_but_for_key(p[i], q[i]));
            }
        }
    }
}

/// The listing tells where the keys come from and never what they are: it is the same for
/// any other keys, configured or stored, in the places of these.
pub proof fn key_listing_tells_no_key(
    d: ModelProfile,
    e: ModelProfile,
    p: Seq<ModelProfile>,
    q: Seq<ModelProfile>,
    a: Seq<(String, String)>,
    b: Seq<(String, String)>,
    oauth: Seq<OAuthRow>,
    now: i64,
    never: i64,
)
    requires
        same_but_for_key(d, e),
        p.len() == q.len(),
        forall|i: int| 0 <= i < p.len() ==> same_but_for_key(#[trigger] p[i], q[i]),
        same_keys_held(a, b),
    ensures
        auth_lines(d, p, a, oauth, now, never) == auth_lines(e, q, b, oauth, now, never),
{
    lemma_same_stored(a, b, d.api@, a.len() as int);
    lemma_same_rows(p, q, a, b, p.len() as int);
    lemma_same_orphans(d, e, p, q, oauth, a, b, a.len() as int);
}

// ── auth save, remove, logout ───────────────────────────────────────────────

/// The key to store: what was typed without white space around it. An empty one is refused.
pub fn auth_save(key: &str) -> (r: Result<String, Msg>)
    ensures
        match r {
            Ok(k) => !text::is_blank(key@) && k@ == text::trim(key@),
            Err(m) => text::is_blank(key@) && m@ == say::entry("manage.auth.empty_key"@),
        },
{
    let k = trimmed(key);
    if k.as_str().is_empty() {
        Err(msg("manage.auth.empty_key"))
    } else {
        Ok(k)
    }
}

/// Which credentials signing out removed.
#[derive(Clone, Copy, Debug, PartialEq, Eq, Structural)]
pub struct LogoutOutcome {
    pub oauth_removed: bool,
    pub api_key_removed: bool,
}

pub open spec fn no_credentials(provider: Seq<char>) -> say::MsgView {
    say::entry("manage.auth.not_found"@).arg("provider"@, manage::provider_form(provider))
}

/// What signing out came to: an error where the name is none of a provider's or where
/// there was nothing to remove.
pub fn auth_logout(provider: &str, oauth_removed: bool, api_key_removed: bool) -> (r: Result<
    LogoutOutcome,
    Msg,
>)
    ensures
        match r {
            Ok(o) => manage::is_provider(provider@) && (oauth_removed || api_key_removed) && o == (
            LogoutOutcome { oauth_removed, api_key_removed }),
            Err(m) => if !manage::is_provider(provider@) {
                m@ == manage::bad_provider(provider@)
            } else {
                !oauth_removed && !api_key_removed && m@ == no_credentials(provider@)
            },
        },
{
    match validate_provider(provider) {
        Err(m) => Err(m),
        Ok(norm) => if !oauth_removed && !api_key_removed {
            Err(msg("manage.auth.not_found").arg("provider", &norm))
        } else {
            Ok(LogoutOutcome { oauth_removed, api_key_removed })
        },
    }
}

/// The first `n` stored entries without those under the key.
pub open spec fn without_key(store: Seq<(String, String)>, key: Seq<char>, n: int) -> Seq<
    (Seq<char>, Seq<char>),
>
    decreases n,
{
    if n <= 0 {
        Seq::empty()
    } else if store[n - 1].0@ == key {
        without_key(store, key, n - 1)
    } else {
        without_key(store, key, n - 1).push((store[n - 1].0@, store[n - 1].1@))
    }
}

/// The entries that stay when the key of a provider is removed; an error where there is
/// none.
pub fn auth_remove(store: &Vec<(String, String)>, provider: &str) -> (r: Result<
    Vec<(String, String)>,
    Msg,
>)
    ensures
        match r {
            Ok(rest) => {
                &&& manage::is_provider(provider@)
                &&& stored(store@, manage::provider_form(provider@), store.len() as int) is Some
                &&& manage::pair_texts(rest@) == without_key(
                    store@,
                    manage::provider_form(provider@),
                    store.len() as int,
                )
            },
            Err(m) => if !manage::is_provider(provider@) {
                m@ == manage::bad_provider(provider@)
            } else {
                &&& stored(store@, manage::provider_form(provider@), store.len() as int) is None
                &&& m@ == no_credentials(provider@)
            },
        },
{
    let norm = match validate_provider(provider) {
        Ok(n) => n,
        Err(m) => {
            return Err(m);
        },
    };
    if stored_of(store, &norm).is_none() {
        return Err(msg("manage.auth.not_found").arg("provider", &norm));
    }
    let mut rest: Vec<(String, String)> = Vec::new();
    let mut i: usize = 0;
    assert(manage::pair_texts(rest@) =~= without_key(store@, norm@, 0));
    while i < store.len()
        invariant
            i <= store.len(),
            manage::pair_texts(rest@) == without_key(store@, norm@, i as int),
        decreases store.len() - i,
    {
        if !same(&store[i].0, &norm) {
            let ghost before = rest@;
            rest.push((copy_text(&store[i].0), copy_text(&store[i].1)));
            assert(manage::pair_texts(rest@) =~= manage::pair_texts(before).push(
                (store@[i as int].0@, store@[i as int].1@),
            ));
        }
        i = i + 1;
    }
    Ok(rest)
}

/// After removing, nothing is stored under the key any more.
pub proof fn removed_key_is_gone(store: Seq<(String, String)>, key: Seq<char>, n: int)
    requires
        0 <= n <= store.len(),
    ensures
        forall|i: int|
            0 <= i < without_key(store, key, n).len() ==> (#[trigger] without_key(
                store,
                key,
                n,
            )[i]).0 != key,
    decreases n,
{
    if n > 0 {
        removed_key_is_gone(store, key, n - 1);
        let prev = without_key(store, key, n - 1);
        let all = without_key(store, key, n);
        assert forall|i: int| 0 <= i < all.len() implies (#[trigger] all[i]).0 != key by {
            if i < prev.len() {
                assert(all[i] == prev[i]);
            }
        }
    }
}

proof fn profile_rows_hold_each(v: Seq<ModelProfile>, n: int)
    requires
        0 <= n <= v.len(),
    ensures
        profile_rows(v, n).len() == n,
        forall|i: int|
            0 <= i < n ==> #[trigger] profile_rows(v, n)[i] == say::LineView::Msg(
                profile_msg("manage.models.entry"@, v[i]),
            ),
    decreases n,
{
    if n > 0 {
        profile_rows_hold_each(v, n - 1);
    }
}

/// A line on a model: its id, its alias or a dash, its provider and its address.
pub open spec fn tells_of(l: say::LineView, p: ModelProfile) -> bool {
    match l {
        say::LineView::Msg(m) => {
            &&& m.args.len() == 4
            &&& m.args[0].1 == say::ValView::Text(p.id@)
            &&& m.args[1].1 == say::ValView::Text(
                match p.alias {
                    Some(a) => a@,
                    None => seq!['-'],
                },
            )
            &&& m.args[2].1 == say::ValView::Text(p.api@)
            &&& m.args[3].1 == say::ValView::Text(p.base_url@)
        },
        _ => false,
    }
}

/// Every configured model is listed, the default one first and the others in order behind it,
/// and their number is told.
pub proof fn every_model_is_listed(d: ModelProfile, v: Seq<ModelProfile>)
    ensures
        models_lines(d, v).len() == (if v.len() == 0 {
            4nat
        } else {
            v.len() + 3
        }),
        tells_of(models_lines(d, v)[1], d),
        forall|i: int| 0 <= i < v.len() ==> tells_of(#[trigger] models_lines(d, v)[i + 2], v[i]),
        models_lines(d, v)[0] matches say::LineView::Msg(m) && m.args.len() == 1 && m.args[0].1
            == say::ValView::Text(numeral::dec(v.len() + 1)),
{
    reveal_strlit("-");
    assert("-"@ =~= seq!['-']);
    profile_rows_hold_each(v, v.len() as int);
    assert forall|i: int| 0 <= i < v.len() implies tells_of(
        #[trigger] models_lines(d, v)[i + 2],
        v[i],
    ) by {
        assert(models_lines(d, v)[i + 2] == profile_rows(v, v.len() as int)[i]);
    }
}

proof fn auth_rows_hold_each(v: Seq<ModelProfile>, store: Seq<(String, String)>, n: int)
    requires
        0 <= n <= v.len(),
    ensures
        auth_rows(v, store, n).len() == n,
        forall|i: int| 0 <= i < n ==> #[trigger] auth_rows(v, store, n)[i] == auth_row(v[i], store),
    decreases n,
{
    if n > 0 {
        auth_rows_hold_each(v, store, n - 1);
    }
}

/// A line on the key of a model: its provider, and its alias or else its id.
pub open spec fn tells_key_of(l: say::LineView, p: ModelProfile) -> bool {
    match l {
        say::LineView::Msg(m) => {
            &&& m.args.len() == 3
            &&& m.args[0].1 == say::ValView::Text(p.api@)
            &&& m.args[1].1 == say::ValView::Text(
                match p.alias {
                    Some(a) => a@,
                    None => p.id@,
                },
            )
        },
        _ => false,
    }
}

/// The key of every configured model is listed, that of the default one first.
pub proof fn every_key_is_listed(
    d: ModelProfile,
    v: Seq<ModelProfile>,
    store: Seq<(String, String)>,
    oauth: Seq<OAuthRow>,
    now: i64,
    never: i64,
)
    ensures
        ({
            let lines = auth_lines(d, v, store, oauth, now, never);
            &&& lines.len() >= v.len() + oauth.len() + 2
            &&& tells_key_of(lines[1], d)
            &&& forall|i: int| 0 <= i < v.len() ==> tells_key_of(#[trigger] lines[i + 2], v[i])
        }),
{
    auth_rows_hold_each(v, store, v.len() as int);
    oauth_rows_are_many(oauth, now, never, oauth.len() as int);
    let lines = auth_lines(d, v, store, oauth, now, never);
    assert forall|i: int| 0 <= i < v.len() implies tells_key_of(#[trigger] lines[i + 2], v[i]) by {
        assert(lines[i + 2] == auth_rows(v, store, v.len() as int)[i]);
    }
}

proof fn oauth_rows_are_many(v: Seq<OAuthRow>, now: i64, never: i64, n: int)
    requires
        0 <= n <= v.len(),
    ensures
        oauth_rows(v, now, never, n).len() >= n,
    decreases n,
{
    if n > 0 {
        oauth_rows_are_many(v, now, never, n - 1);
    }
}

proof fn kept_of_front(store: Seq<(String, String)>, x: (String, String), key: Seq<char>, n: int)
    requires
        0 <= n <= store.len(),
    ensures
        without_key(store.push(x), key, n) == without_key(store, key, n),
        stored(store.push(x), key, n) == stored(store, key, n),
    decreases n,
{
    if n > 0 {
        kept_of_front(store, x, key, n - 1);
        assert(store.push(x)[n - 1] == store[n - 1]);
    }
}

/// Removing the key of a provider leaves every other key stored, as it is and where it is.
pub proof fn other_keys_stay(store: Seq<(String, String)>, x: (String, String), key: Seq<char>)
    ensures
        ({
            let n = store.len() as int;
            let w = store.push(x);
            &&& x.0@ != key ==> without_key(w, key, n + 1) == without_key(store, key, n).push(
                (x.0@, x.1@),
            )
            &&& x.0@ == key ==> without_key(w, key, n + 1) == without_key(store, key, n)
            &&& x.0@ == key ==> stored(w, key, n + 1) == Some(x.1@)
            &&& x.0@ != key ==> stored(w, key, n + 1) == stored(store, key, n)
        }),
{
    kept_of_front(store, x, key, store.len() as int);
}

} // verus!
