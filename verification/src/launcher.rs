//! Starting a browser: which program, with which arguments, and where it then listens.
use vstd::prelude::*;

use crate::pieces;
use crate::pieces::split_of;
use crate::repl;
use crate::secrets::lower_of;
use crate::session;
use crate::text;
use crate::text::{
    cat, chars_of, copy_text, find_at, has_prefix, has_suffix, same, sub_text, trimmed,
};

verus! {

/// Why a browser could not be started.
#[derive(Debug)]
pub enum LaunchError {
    BinaryNotFound,
    TempDir(String),
    Spawn(String),
    /// It did not listen in time; in milliseconds.
    Timeout(u64),
    Exited(String),
}

/// A stretch of time as it is shown.
pub uninterp spec fn shown_duration(ms: u64) -> Seq<char>;

/// How `std::time::Duration` writes itself for programmers.
#[verifier::external_body]
pub(crate) fn duration_text(ms: u64) -> (r: String)
    ensures
        r@ == shown_duration(ms),
{
    format!("{:?}", std::time::Duration::from_millis(ms))
}

pub open spec fn launch_message(e: LaunchError) -> Seq<char> {
    match e {
        LaunchError::BinaryNotFound =>
        "未找到 chromium/chrome 可执行文件（PATH 探测失败；可用 BROWSER_PATH 环境变量或 LaunchOptions::binary 显式指定）"@,
        LaunchError::TempDir(x) => "创建临时目录失败: "@ + x@,
        LaunchError::Spawn(x) => "spawn 失败: "@ + x@,
        LaunchError::Timeout(ms) => "等待 DevTools 端点超时（"@ + shown_duration(ms) + "）"@,
        LaunchError::Exited(x) => "chromium 进程提前退出: "@ + x@,
    }
}

impl LaunchError {
    pub fn message(&self) -> (r: String)
        ensures
            r@ == launch_message(*self),
    {
        match self {
            LaunchError::BinaryNotFound => copy_text(
                "未找到 chromium/chrome 可执行文件（PATH 探测失败；可用 BROWSER_PATH 环境变量或 LaunchOptions::binary 显式指定）",
            ),
            LaunchError::TempDir(x) => cat("创建临时目录失败: ", x),
            LaunchError::Spawn(x) => cat("spawn 失败: ", x),
            LaunchError::Timeout(ms) => cat(
                &cat("等待 DevTools 端点超时（", &duration_text(*ms)),
                "）",
            ),
            LaunchError::Exited(x) => cat("chromium 进程提前退出: ", x),
        }
    }
}

/// Where a browser listens.
#[derive(Debug, PartialEq, Eq)]
pub struct DevToolsEndpoint<S = String> {
    pub ws_url: S,
    pub port: Option<u16>,
}

impl DevToolsEndpoint {
    pub open spec fn view(&self) -> DevToolsEndpoint<Seq<char>> {
        DevToolsEndpoint { ws_url: self.ws_url@, port: self.port }
    }
}

/// How a browser is to be started.
#[derive(Debug)]
pub struct LaunchOptions {
    /// The program; otherwise it is looked for.
    pub binary: Option<String>,
    /// Whether it runs without a sandbox; otherwise the environment decides.
    pub no_sandbox: Option<bool>,
    /// How long is waited until it listens, in milliseconds.
    pub timeout: Option<u64>,
}

impl Default for LaunchOptions {
    fn default() -> (r: LaunchOptions)
        ensures
            r.binary is None,
            r.no_sandbox is None,
            r.timeout is None,
    {
        LaunchOptions { binary: None, no_sandbox: None, timeout: None }
    }
}

/// Whether the value of a variable of the environment switches something on.
pub open spec fn switches_on(v: Option<Seq<char>>) -> bool {
    match v {
        None => false,
        Some(s) => {
            let t = text::lower(text::trim(s));
            t == "1"@ || t == "true"@ || t == "on"@ || t == "yes"@
        },
    }
}

pub fn env_flag(value: Option<&str>) -> (r: bool)
    ensures
        r == switches_on(repl::str_text(value)),
{
    match value {
        None => false,
        Some(s) => {
            let t = lower_of(&trimmed(s));
            same(&t, "1") || same(&t, "true") || same(&t, "on") || same(&t, "yes")
        },
    }
}

impl LaunchOptions {
    /// Whether the browser runs without a sandbox, given the variable that may say so.
    pub fn no_sandbox(&self, env: Option<&str>) -> (r: bool)
        ensures
            r == (match self.no_sandbox {
                Some(v) => v,
                None => switches_on(repl::str_text(env)),
            }),
    {
        match self.no_sandbox {
            Some(v) => v,
            None => env_flag(env),
        }
    }

    /// How long is waited until the browser listens, in milliseconds.
    pub fn timeout(&self) -> (r: u64)
        ensures
            r == (match self.timeout {
                Some(ms) => ms,
                None => 15000,
            }),
    {
        match self.timeout {
            Some(ms) => ms,
            None => 15000,
        }
    }
}

// ── The program ─────────────────────────────────────────────────────────────

/// The programs that are looked for, in order.
pub open spec fn browser_names() -> Seq<Seq<char>> {
    seq![
        "chromium"@,
        "chromium-browser"@,
        "google-chrome"@,
        "google-chrome-stable"@,
        "chrome"@,
        "msedge"@,
        "microsoft-edge"@,
    ]
}

fn browser_name_list() -> (r: Vec<&'static str>)
    ensures
        repl::strs(r@) == browser_names(),
{
    let r = vec![
        "chromium",
        "chromium-browser",
        "google-chrome",
        "google-chrome-stable",
        "chrome",
        "msedge",
        "microsoft-edge",
    ];
    assert(repl::strs(r@) =~= browser_names());
    r
}

/// A drive of Windows.
pub open spec fn is_drive(dir: Seq<char>) -> bool {
    dir.len() == 2 && text::is_letter(dir[0]) && dir[1] == ':'
}

/// A file in a directory. On Windows the name is that of a plain file.
pub open spec fn joined(dir: Seq<char>, name: Seq<char>, windows: bool) -> Seq<char> {
    if windows {
        if dir.len() == 0 || text::ends_with(dir, "/"@) || text::ends_with(dir, "\\"@)
            || is_drive(dir) {
            dir + name
        } else {
            dir + "\\"@ + name
        }
    } else if text::starts_with(name, "/"@) {
        name
    } else if dir.len() == 0 || text::ends_with(dir, "/"@) {
        dir + name
    } else {
        dir + "/"@ + name
    }
}

/// What separates the directories of a search path.
pub open spec fn path_separator(windows: bool) -> char {
    if windows {
        ';'
    } else {
        ':'
    }
}

/// The files of a name in the directories of a search path.
pub open spec fn on_path(name: Seq<char>, path: Seq<char>, windows: bool) -> Seq<Seq<char>> {
    let dirs = pieces::split(path, path_separator(windows));
    Seq::new(dirs.len(), |i: int| joined(dirs[i], name, windows))
}

pub(crate) fn joined_of(dir: &str, name: &str, windows: bool) -> (r: String)
    ensures
        r@ == joined(dir@, name@, windows),
{
    if windows {
        let v = chars_of(dir);
        if dir.is_empty() || has_suffix(dir, "/") || has_suffix(dir, "\\") || (v.len() == 2
            && (('a' <= v[0] && v[0] <= 'z') || ('A' <= v[0] && v[0] <= 'Z')) && v[1] == ':') {
            cat(dir, name)
        } else {
            cat(&cat(dir, "\\"), name)
        }
    } else if has_prefix(name, "/") {
        copy_text(name)
    } else if dir.is_empty() || has_suffix(dir, "/") {
        cat(dir, name)
    } else {
        cat(&cat(dir, "/"), name)
    }
}

/// Where a program is looked for: the first of these files that can be run is taken.
pub fn find_on_path(name: &str, path_list: &str, windows: bool) -> (r: Vec<String>)
    ensures
        text::texts(r@) == on_path(name@, path_list@, windows),
{
    let sep: char = if windows {
        ';'
    } else {
        ':'
    };
    let dirs = split_of(path_list, sep);
    let ghost dv = text::texts(dirs@);
    let mut r: Vec<String> = Vec::new();
    let mut i: usize = 0;
    assert(text::texts(r@) =~= on_path(name@, path_list@, windows).take(0));
    while i < dirs.len()
        invariant
            i <= dirs.len(),
            dv == text::texts(dirs@),
            dv == pieces::split(path_list@, path_separator(windows)),
            text::texts(r@) == on_path(name@, path_list@, windows).take(i as int),
        decreases dirs.len() - i,
    {
        assert(dv[i as int] == dirs@[i as int]@);
        let s = joined_of(&dirs[i], name, windows);
        proof {
            text::lemma_texts_push(r@, s);
        }
        r.push(s);
        i = i + 1;
        assert(text::texts(r@) =~= on_path(name@, path_list@, windows).take(i as int));
    }
    assert(text::texts(r@) =~= on_path(name@, path_list@, windows));
    r
}

/// Where the first `n` programs are looked for, in order.
pub open spec fn candidates(names: Seq<Seq<char>>, path: Seq<char>, windows: bool, n: int) -> Seq<
    Seq<char>,
>
    decreases n,
{
    if n <= 0 {
        Seq::empty()
    } else {
        candidates(names, path, windows, n - 1) + on_path(names[n - 1], path, windows)
    }
}

/// Where a browser is looked for, in order.
pub fn browser_candidates(path_list: &str, windows: bool) -> (r: Vec<String>)
    ensures
        text::texts(r@) == candidates(
            browser_names(),
            path_list@,
            windows,
            browser_names().len() as int,
        ),
{
    let names = browser_name_list();
    assert(names.len() == browser_names().len());
    let mut r: Vec<String> = Vec::new();
    let mut i: usize = 0;
    assert(text::texts(r@) =~= candidates(browser_names(), path_list@, windows, 0));
    while i < names.len()
        invariant
            i <= names.len(),
            repl::strs(names@) == browser_names(),
            text::texts(r@) == candidates(browser_names(), path_list@, windows, i as int),
        decreases names.len() - i,
    {
        assert(browser_names()[i as int] == names@[i as int]@);
        let mut more = find_on_path(names[i], path_list, windows);
        let ghost a = r@;
        let ghost b = more@;
        r.append(&mut more);
        assert(text::texts(r@) =~= text::texts(a) + text::texts(b));
        i = i + 1;
    }
    r
}

/// The program that is started: the one that is asked for, the one that the environment
/// names if it is a file, or the one that was found.
pub open spec fn chosen_binary(
    explicit: Option<Seq<char>>,
    browser_path: Option<Seq<char>>,
    is_file: bool,
    found: Option<Seq<char>>,
) -> Option<Seq<char>> {
    if explicit is Some {
        explicit
    } else if browser_path is Some && is_file {
        browser_path
    } else {
        found
    }
}

pub fn resolve_binary(
    explicit: &Option<String>,
    browser_path: &Option<String>,
    is_file: bool,
    found: &Option<String>,
) -> (r: Option<String>)
    ensures
        session::opt_text(r) == chosen_binary(
            session::opt_text(*explicit),
            session::opt_text(*browser_path),
            is_file,
            session::opt_text(*found),
        ),
{
    if let Some(p) = explicit {
        return Some(copy_text(p));
    }
    if let Some(p) = browser_path {
        if is_file {
            return Some(copy_text(p));
        }
    }
    match found {
        Some(p) => Some(copy_text(p)),
        None => None,
    }
}

// ── Where it listens ────────────────────────────────────────────────────────

/// What the library needs of an address.
#[derive(Debug)]
pub struct UrlParts<S = String> {
    pub scheme: S,
    pub has_host: bool,
    pub port: Option<u16>,
}

impl UrlParts {
    pub open spec fn view(&self) -> UrlParts<Seq<char>> {
        UrlParts { scheme: self.scheme@, has_host: self.has_host, port: self.port }
    }
}

/// The parts of an address, if it is one.
pub uninterp spec fn url_parts(s: Seq<char>) -> Option<UrlParts<Seq<char>>>;

pub open spec fn opt_parts(o: Option<UrlParts>) -> Option<UrlParts<Seq<char>>> {
    match o {
        Some(p) => Some(p.view()),
        None => None,
    }
}

/// `url::Url::parse`, and of the address `scheme`, `host_str` and `port`.
#[verifier::external_body]
fn parse_url(s: &str) -> (r: Option<UrlParts>)
    ensures
        opt_parts(r) == url_parts(s@),
{
    url::Url::parse(s).ok().map(
        |u|
            UrlParts {
                scheme: u.scheme().to_string(),
                has_host: u.host_str().is_some(),
                port: u.port(),
            },
    )
}

/// The address that a line of a browser's output tells.
pub open spec fn told_url(line: Seq<char>) -> Option<Seq<char>> {
    match text::find_from(line, "DevTools listening on "@, 0) {
        Some(i) => Some(text::trim(line.skip(i + "DevTools listening on "@.len()))),
        None => None,
    }
}

/// Where a browser listens at an address with these parts.
pub open spec fn endpoint(url: Seq<char>, parts: Option<UrlParts<Seq<char>>>) -> Option<
    DevToolsEndpoint<Seq<char>>,
> {
    match parts {
        Some(p) => if (p.scheme == "ws"@ || p.scheme == "wss"@) && p.has_host {
            Some(DevToolsEndpoint { ws_url: url, port: p.port })
        } else {
            None
        },
        None => None,
    }
}

pub open spec fn opt_endpoint(o: Option<DevToolsEndpoint>) -> Option<DevToolsEndpoint<Seq<char>>> {
    match o {
        Some(e) => Some(e.view()),
        None => None,
    }
}

/// Where a browser listens at an address with these parts.
pub fn endpoint_of(ws_url: String, parts: &Option<UrlParts>) -> (r: Option<DevToolsEndpoint>)
    ensures
        opt_endpoint(r) == endpoint(ws_url@, opt_parts(*parts)),
{
    match parts {
        Some(p) => if (same(&p.scheme, "ws") || same(&p.scheme, "wss")) && p.has_host {
            Some(DevToolsEndpoint { ws_url, port: p.port })
        } else {
            None
        },
        None => None,
    }
}

/// Where a browser listens, if a line of its output tells.
pub fn parse_devtools_line(line: &str) -> (r: Option<DevToolsEndpoint>)
    ensures
        opt_endpoint(r) == (match told_url(line@) {
            Some(u) => endpoint(u, url_parts(u)),
            None => None,
        }),
{
    let v = chars_of(line);
    let marker = chars_of("DevTools listening on ");
    match find_at(&v, &marker, 0) {
        None => None,
        Some(i) => {
            assert(line@.skip(i + marker@.len()) =~= line@.subrange(
                i + marker@.len(),
                line@.len() as int,
            ));
            let n: usize = v.len();
            assert(i + marker@.len() <= n);
            let url = trimmed(&sub_text(&v, i + marker.len(), n));
            let parts = parse_url(&url);
            endpoint_of(url, &parts)
        },
    }
}

/// The arguments of the browser.
pub open spec fn browser_args(data_dir: Seq<char>, no_sandbox: bool) -> Seq<Seq<char>> {
    let args = seq![
        "--headless=new"@,
        "--remote-debugging-port=0"@,
        "--user-data-dir="@ + data_dir,
    ];
    if no_sandbox {
        args.push("--no-sandbox"@)
    } else {
        args
    }
}

pub fn build_args(data_dir: &str, no_sandbox: bool) -> (r: Vec<String>)
    ensures
        text::texts(r@) == browser_args(data_dir@, no_sandbox),
{
    let mut r = vec![
        copy_text("--headless=new"),
        copy_text("--remote-debugging-port=0"),
        cat("--user-data-dir=", data_dir),
    ];
    if no_sandbox {
        r.push(copy_text("--no-sandbox"));
    }
    assert(text::texts(r@) =~= browser_args(data_dir@, no_sandbox));
    r
}

/// What happens while a browser starts.
#[derive(Debug)]
pub enum LaunchEvent {
    /// It wrote a line.
    Line(String),
    /// Its output could not be read.
    ReadFailed(String),
    /// Its output has ended.
    Ended,
    /// So many milliseconds have passed.
    TimedOut(u64),
}

/// What comes of it: where the browser listens, or why it was not started; nothing as long
/// as it has to be waited for.
pub fn read_devtools_endpoint(event: &LaunchEvent) -> (r: Option<
    Result<DevToolsEndpoint, LaunchError>,
>)
    ensures
        match event {
            LaunchEvent::Line(l) => {
                let e = match told_url(l@) {
                    Some(u) => endpoint(u, url_parts(u)),
                    None => None,
                };
                match e {
                    Some(x) => r matches Some(Ok(y)) && y.view() == x,
                    None => r is None,
                }
            },
            LaunchEvent::ReadFailed(e) => r matches Some(Err(LaunchError::Spawn(m))) && m@
                == "读取 stderr 失败: "@ + e@,
            LaunchEvent::Ended => r matches Some(Err(LaunchError::Exited(m))) && m@
                == "进程退出且未输出 DevTools 端点"@,
            LaunchEvent::TimedOut(ms) => r matches Some(Err(LaunchError::Timeout(n))) && n == ms,
        },
{
    match event {
        LaunchEvent::Line(l) => match parse_devtools_line(l) {
            Some(e) => Some(Ok(e)),
            None => None,
        },
        LaunchEvent::ReadFailed(e) => Some(
            Err(LaunchError::Spawn(cat("读取 stderr 失败: ", e))),
        ),
        LaunchEvent::Ended => Some(
            Err(LaunchError::Exited(copy_text("进程退出且未输出 DevTools 端点"))),
        ),
        LaunchEvent::TimedOut(ms) => Some(Err(LaunchError::Timeout(*ms))),
    }
}

// ── The process ─────────────────────────────────────────────────────────────

/// How a browser is started.
#[derive(Debug)]
pub struct LaunchPlan {
    pub binary: String,
    pub args: Vec<String>,
    /// How long is waited until it listens, in milliseconds.
    pub timeout: u64,
}

/// A browser that runs.
#[derive(Debug)]
pub struct BrowserProcess {
    /// Its process, as long as it has not been closed: the number, unless it has ended.
    child: Option<Option<u32>>,
    endpoint: DevToolsEndpoint,
}

/// What happens while a browser is closed.
#[derive(Debug)]
pub enum CloseEvent {
    Begin,
    /// The process has ended.
    Exited,
    /// The time that it was given is over.
    GraceOver,
}

/// What is to be done to close a browser.
#[derive(Debug, PartialEq, Eq)]
pub enum CloseStep {
    /// Ask the group of processes to end, and wait so many milliseconds.
    Terminate { group: u32, grace: u64 },
    /// End the group of processes, and wait.
    KillGroup { group: u32 },
    /// End the process, and wait.
    KillChild,
    Done,
}

impl BrowserProcess {
    pub closed spec fn child(self) -> Option<Option<u32>> {
        self.child
    }

    pub closed spec fn endpoint(self) -> DevToolsEndpoint<Seq<char>> {
        self.endpoint.view()
    }

    /// How a browser is started, given what the environment says, the program that was
    /// found, and the directory that was made for it.
    pub fn launch(
        opts: &LaunchOptions,
        browser_path: &Option<String>,
        is_file: bool,
        found: &Option<String>,
        no_sandbox: Option<&str>,
        data_dir: &Result<String, String>,
    ) -> (r: Result<LaunchPlan, LaunchError>)
        ensures
            ({
                let binary = chosen_binary(
                    session::opt_text(opts.binary),
                    session::opt_text(*browser_path),
                    is_file,
                    session::opt_text(*found),
                );
                match (binary, *data_dir) {
                    (None, _) => r matches Err(LaunchError::BinaryNotFound),
                    (Some(_), Err(e)) => r matches Err(LaunchError::TempDir(m)) && m@ == e@,
                    (Some(b), Ok(d)) => {
                        &&& r matches Ok(p)
                        &&& p.binary@ == b
                        &&& text::texts(p.args@) == browser_args(
                            d@,
                            match opts.no_sandbox {
                                Some(v) => v,
                                None => switches_on(repl::str_text(no_sandbox)),
                            },
                        )
                        &&& p.timeout == (match opts.timeout {
                            Some(ms) => ms,
                            None => 15000,
                        })
                    },
                }
            }),
    {
        match resolve_binary(&opts.binary, browser_path, is_file, found) {
            None => Err(LaunchError::BinaryNotFound),
            Some(binary) => match data_dir {
                Err(e) => Err(LaunchError::TempDir(copy_text(e))),
                Ok(d) => Ok(
                    LaunchPlan {
                        binary,
                        args: build_args(d, opts.no_sandbox(no_sandbox)),
                        timeout: opts.timeout(),
                    },
                ),
            },
        }
    }

    /// The browser that was started and listens.
    pub fn started(pid: Option<u32>, endpoint: DevToolsEndpoint) -> (p: BrowserProcess)
        ensures
            p.child() == Some(pid),
            p.endpoint() == endpoint.view(),
    {
        BrowserProcess { child: Some(pid), endpoint }
    }

    /// Where the browser listens.
    pub fn ws_url(&self) -> (r: &str)
        ensures
            r@ == self.endpoint().ws_url,
    {
        &self.endpoint.ws_url
    }

    /// The port that it listens at.
    pub fn port(&self) -> (r: Option<u16>)
        ensures
            r == self.endpoint().port,
    {
        self.endpoint.port
    }

    /// The number of its process.
    pub fn pid(&self) -> (r: Option<u32>)
        ensures
            r == (match self.child() {
                Some(p) => p,
                None => None,
            }),
    {
        match self.child {
            Some(p) => p,
            None => None,
        }
    }

    /// Closes the browser. On Unix its group of processes is asked to end and ended after
    /// two seconds; elsewhere the process is ended at once.
    pub fn close(&mut self, unix: bool, event: &CloseEvent) -> (r: CloseStep)
        ensures
            final(self).endpoint() == old(self).endpoint(),
            match (old(self).child(), *event) {
                (None, _) => r == CloseStep::Done && final(self).child() is None,
                (Some(_), CloseEvent::Exited) => r == CloseStep::Done && final(self).child() is None,
                (Some(pid), CloseEvent::Begin) => if !unix {
                    r == CloseStep::KillChild && final(self).child() is None
                } else {
                    match pid {
                        Some(p) => r == (CloseStep::Terminate { group: p, grace: 2000 })
                            && final(self).child() == old(self).child(),
                        None => r == CloseStep::Done && final(self).child() is None,
                    }
                },
                (Some(pid), CloseEvent::GraceOver) => {
                    &&& final(self).child() is None
                    &&& match pid {
                        Some(p) => r == (CloseStep::KillGroup { group: p }),
                        None => r == CloseStep::Done,
                    }
                },
            },
    {
        let pid: Option<u32> = match self.child {
            None => {
                return CloseStep::Done;
            },
            Some(p) => p,
        };
        match event {
            CloseEvent::Begin => {
                if !unix {
                    self.child = None;
                    return CloseStep::KillChild;
                }
                match pid {
                    Some(p) => CloseStep::Terminate { group: p, grace: 2000 },
                    None => {
                        self.child = None;
                        CloseStep::Done
                    },
                }
            },
            CloseEvent::Exited => {
                self.child = None;
                CloseStep::Done
            },
            CloseEvent::GraceOver => {
                self.child = None;
                match pid {
                    Some(p) => CloseStep::KillGroup { group: p },
                    None => CloseStep::Done,
                }
            },
        }
    }
}

// ── What holds of every search ──────────────────────────────────────────────

/// A program is looked for in every directory of the search path, in order.
pub proof fn every_directory_is_searched(name: Seq<char>, dirs: Seq<Seq<char>>)
    requires
        dirs.len() > 0,
        forall|i: int, k: int|
            0 <= i < dirs.len() && 0 <= k < dirs[i].len() ==> #[trigger] dirs[i][k] != ':',
        forall|i: int|
            0 <= i < dirs.len() ==> (#[trigger] dirs[i]).len() > 0 && dirs[i].last() != '/',
        name.len() > 0 && name[0] != '/',
    ensures
        on_path(name, pieces::join(dirs, seq![':']), false) == Seq::new(
            dirs.len(),
            |i: int| dirs[i] + seq!['/'] + name,
        ),
{
    pieces::joined_fields_read_back(dirs, ':');
    reveal_strlit("/");
    assert("/"@ =~= seq!['/']);
    let v = on_path(name, pieces::join(dirs, seq![':']), false);
    assert(name.take(1)[0] == name[0]);
    assert forall|i: int| 0 <= i < dirs.len() implies v[i] == #[trigger] dirs[i] + seq!['/']
        + name by {
        let d = dirs[i];
        assert(d.skip(d.len() - 1)[0] == d.last());
    }
    assert(v =~= Seq::new(dirs.len(), |i: int| dirs[i] + seq!['/'] + name));
}

/// All places of one program come before those of the next.
pub proof fn programs_are_searched_in_order(
    names: Seq<Seq<char>>,
    path: Seq<char>,
    windows: bool,
    k: int,
) -> (r: (Seq<Seq<char>>, Seq<Seq<char>>))
    requires
        0 <= k < names.len(),
    ensures
        candidates(names, path, windows, names.len() as int) == r.0 + on_path(
            names[k],
            path,
            windows,
        ) + r.1,
        r.0 == candidates(names, path, windows, k),
        r.0.len() == k * pieces::split(path, path_separator(windows)).len(),
{
    let b = searched_upto(names, path, windows, k, names.len() as int);
    searched_so_far(names, path, windows, k);
    (candidates(names, path, windows, k), b)
}

proof fn searched_so_far(names: Seq<Seq<char>>, path: Seq<char>, windows: bool, n: int)
    requires
        0 <= n,
    ensures
        candidates(names, path, windows, n).len() == n * pieces::split(
            path,
            path_separator(windows),
        ).len(),
    decreases n,
{
    let d = pieces::split(path, path_separator(windows)).len();
    if n > 0 {
        searched_so_far(names, path, windows, n - 1);
        assert(on_path(names[n - 1], path, windows).len() == d);
        one_time_more(n, d);
    } else {
        assert(n * d == 0) by (nonlinear_arith)
            requires
                n == 0,
        ;
    }
}

proof fn one_time_more(n: int, d: nat)
    ensures
        n * d == (n - 1) * d + d,
{
    assert(n * d == (n - 1) * d + d) by (nonlinear_arith);
}

proof fn searched_upto(names: Seq<Seq<char>>, path: Seq<char>, windows: bool, k: int, n: int) -> (r:
    Seq<Seq<char>>)
    requires
        0 <= k < n <= names.len(),
    ensures
        candidates(names, path, windows, n) == candidates(names, path, windows, k) + on_path(
            names[k],
            path,
            windows,
        ) + r,
    decreases n,
{
    let e = Seq::<Seq<char>>::empty();
    let c = candidates(names, path, windows, k) + on_path(names[k], path, windows);
    if k == n - 1 {
        assert(c + e =~= c);
        e
    } else {
        let r = searched_upto(names, path, windows, k, n - 1);
        let more = on_path(names[n - 1], path, windows);
        assert(c + r + more =~= c + (r + more));
        r + more
    }
}

/// The address is what stands behind the words that tell it, whatever stands before them and
/// whatever white space stands around it.
pub proof fn the_address_is_told(a: Seq<char>, u: Seq<char>, b: Seq<char>)
    requires
        !text::has_char(a, 'D'),
        text::is_trimmed(u),
        text::all_white(b),
    ensures
        told_url(a + "DevTools listening on "@ + u + b) == Some(u),
{
    let p = "DevTools listening on "@;
    reveal_strlit("DevTools listening on ");
    let s = a + p + u + b;
    let n = a.len() as int;
    assert(s.take(n + p.len()) =~= a + p);
    words_are_found(s, a, p, 0);
    let e = Seq::<char>::empty();
    assert(s.skip(n + p.len()) =~= e + u + b);
    text::white_space_around_goes(e, u, b);
}

proof fn words_are_found(s: Seq<char>, a: Seq<char>, p: Seq<char>, i: int)
    requires
        p.len() > 0,
        !text::has_char(a, p[0]),
        s.len() >= a.len() + p.len(),
        s.take((a.len() + p.len()) as int) == a + p,
        0 <= i <= a.len(),
    ensures
        text::find_from(s, p, i) == Some(a.len() as int),
    decreases a.len() - i,
{
    let n = a.len() as int;
    let f = s.take(n + p.len());
    if i < n {
        assert(s.subrange(i, i + p.len())[0] == s[i]);
        assert(f[i] == a[i]);
        words_are_found(s, a, p, i + 1);
    } else {
        assert(s.subrange(n, n + p.len()) =~= p) by {
            assert forall|k: int| 0 <= k < p.len() implies s[n + k] == p[k] by {
                assert(f[n + k] == p[k]);
            }
        }
    }
}

/// Without those words no address is told.
pub proof fn other_lines_tell_no_address(s: Seq<char>)
    requires
        !text::has_char(s, 'D'),
    ensures
        told_url(s) is None,
{
    reveal_strlit("DevTools listening on ");
    never_found(s, "DevTools listening on "@, 0);
}

proof fn never_found(s: Seq<char>, p: Seq<char>, i: int)
    requires
        p.len() > 0,
        !text::has_char(s, p[0]),
        0 <= i,
    ensures
        text::find_from(s, p, i) is None,
    decreases s.len() + 1 - i,
{
    if i + p.len() <= s.len() {
        assert(s.subrange(i, i + p.len())[0] == s[i]);
        never_found(s, p, i + 1);
    }
}

} // verus!
