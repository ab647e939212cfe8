//! The tool that drives a browser: what is asked of it, the requests that answer it, and
//! what is told.
use base64::Engine;
use vstd::prelude::*;

use crate::cdp;
use crate::cdp::{signed_text, CdpEvent};
use crate::data;
use crate::data::{table, table1, table2, text_data, Data};
use crate::json;
use crate::json::{js_string, write_json_lines};
use crate::launcher;
use crate::launcher::joined_of;
use crate::manage;
use crate::numeral;
use crate::numeral::dec_usize;
use crate::paste;
use crate::text;
use crate::text::{cat, copy_text, same, trimmed};

verus! {

/// How long a page may load, in milliseconds.
pub const NAV_TIMEOUT: u64 = 5000;

/// How long a browser may take to start, in milliseconds.
pub const LAUNCH_TIMEOUT: u64 = 15000;

/// What the model is told of the tool.
pub const PROMPT_SECTION: &'static str = "<browser>\nbrowser 工具已启用：headless Chromium + CDP 最小客户端。\n动作：navigate(url) 打开页面；evaluate(js) 在页面执行 JavaScript（returnByValue 取回，JSON 序列化）；\nscreenshot(selector?, full_page?) 截图（PNG 落盘 .gyre/artifacts/ 并返回路径）；\nclick(selector) / text(selector, text) / scroll(selector?/direction?/amount?) 模拟交互；close 关闭浏览器。\n首次动作自动启动浏览器，close 后下次动作重新启动。\n</browser>";

/// Why the tool failed.
#[derive(Debug)]
pub enum ToolError<S = String> {
    InvalidArgs(S),
    Execution(S),
    Io(S),
}

impl ToolError {
    pub open spec fn view(&self) -> ToolError<Seq<char>> {
        match self {
            ToolError::InvalidArgs(s) => ToolError::InvalidArgs(s@),
            ToolError::Execution(s) => ToolError::Execution(s@),
            ToolError::Io(s) => ToolError::Io(s@),
        }
    }

    fn copy(&self) -> (r: ToolError)
        ensures
            r.view() == self.view(),
    {
        match self {
            ToolError::InvalidArgs(s) => ToolError::InvalidArgs(copy_text(s)),
            ToolError::Execution(s) => ToolError::Execution(copy_text(s)),
            ToolError::Io(s) => ToolError::Io(copy_text(s)),
        }
    }
}

pub type ErrorView = ToolError<Seq<char>>;

fn invalid(s: &str) -> (r: ToolError)
    ensures
        r.view() == ErrorView::InvalidArgs(s@),
{
    ToolError::InvalidArgs(copy_text(s))
}

fn failed(s: &str, t: &str) -> (r: ToolError)
    ensures
        r.view() == ErrorView::Execution(s@ + t@),
{
    ToolError::Execution(cat(s, t))
}

// ── Arguments ───────────────────────────────────────────────────────────────

/// A text among the arguments, without the spaces around it; none if nothing is left.
pub open spec fn given(input: data::DataView, key: Seq<char>) -> Option<Seq<char>> {
    match input.text_field(key) {
        Some(s) => if text::trim(s).len() > 0 {
            Some(text::trim(s))
        } else {
            None
        },
        None => None,
    }
}

fn given_of(input: &Data, key: &str) -> (r: Option<String>)
    ensures
        manage::opt_text(r) == given(input@, key@),
{
    match input.text_field(key) {
        Some(s) => {
            let t = trimmed(s);
            if t.as_str().is_empty() {
                None
            } else {
                Some(t)
            }
        },
        None => None,
    }
}

/// Why the arguments of an action are refused, if they are.
pub open spec fn refusal(action: Seq<char>, input: data::DataView) -> Option<ErrorView> {
    if action == "navigate"@ {
        if given(input, "url"@) is Some {
            None
        } else {
            Some(ToolError::InvalidArgs("navigate 需要 'url' 参数"@))
        }
    } else if action == "evaluate"@ {
        if given(input, "js"@) is Some {
            None
        } else {
            Some(ToolError::InvalidArgs("evaluate 需要 'js' 参数"@))
        }
    } else if action == "click"@ {
        if given(input, "selector"@) is Some {
            None
        } else {
            Some(ToolError::InvalidArgs("click 需要 'selector' 参数"@))
        }
    } else if action == "text"@ {
        if given(input, "selector"@) is Some && given(input, "text"@) is Some {
            None
        } else {
            Some(ToolError::InvalidArgs("text 需要 'selector' 与 'text' 参数"@))
        }
    } else if action == "screenshot"@ || action == "scroll"@ || action == "close"@ {
        None
    } else {
        Some(ToolError::InvalidArgs("未知动作: "@ + action))
    }
}

pub open spec fn result_view(r: Result<(), ToolError>) -> Option<ErrorView> {
    match r {
        Ok(()) => None,
        Err(e) => Some(e.view()),
    }
}

// ── Steps ───────────────────────────────────────────────────────────────────

/// Where an action stands.
#[derive(Debug)]
pub enum WorkState<S = String> {
    /// The page was asked to open; events before this number are old.
    Navigate { url: S, since: u64 },
    Evaluate,
    /// The page was asked to show the part of it that a picture is taken of.
    Locate { full_page: bool },
    Capture,
    Click { selector: S },
    Fill { selector: S },
    ScrollTo { selector: S },
    ScrollBy,
}

pub type StateView = WorkState<Seq<char>>;

impl WorkState {
    pub open spec fn view(&self) -> StateView {
        match self {
            WorkState::Navigate { url, since } => WorkState::Navigate { url: url@, since: *since },
            WorkState::Evaluate => WorkState::Evaluate,
            WorkState::Locate { full_page } => WorkState::Locate { full_page: *full_page },
            WorkState::Capture => WorkState::Capture,
            WorkState::Click { selector } => WorkState::Click { selector: selector@ },
            WorkState::Fill { selector } => WorkState::Fill { selector: selector@ },
            WorkState::ScrollTo { selector } => WorkState::ScrollTo { selector: selector@ },
            WorkState::ScrollBy => WorkState::ScrollBy,
        }
    }
}

/// What an action does next.
#[derive(Debug)]
pub enum WorkStep<S = String, D = Data, B = Vec<u8>> {
    /// Make this request in the session of the page.
    Send { method: S, params: D, state: WorkState<S> },
    /// Wait for the page to load.
    WaitForLoad { url: S, since: u64 },
    /// Save the picture.
    Save { png: B },
    /// Tell this.
    Tell { told: S },
    Fail { error: ToolError<S> },
}

pub type StepView = WorkStep<Seq<char>, data::DataView, Seq<u8>>;

impl WorkStep {
    pub open spec fn view(&self) -> StepView {
        match self {
            WorkStep::Send { method, params, state } => WorkStep::Send {
                method: method@,
                params: params@,
                state: state.view(),
            },
            WorkStep::WaitForLoad { url, since } => WorkStep::WaitForLoad { url: url@, since: *since },
            WorkStep::Save { png } => WorkStep::Save { png: png@ },
            WorkStep::Tell { told } => WorkStep::Tell { told: told@ },
            WorkStep::Fail { error } => WorkStep::Fail { error: error.view() },
        }
    }
}

/// A request that computes an expression in the page.
pub open spec fn evaluation(js: Seq<char>, state: StateView) -> StepView {
    WorkStep::Send {
        method: "Runtime.evaluate"@,
        params: data::DataView::Table(
            seq![
                ("expression"@, data::DataView::Text(js)),
                ("returnByValue"@, data::DataView::Bool(true)),
                ("awaitPromise"@, data::DataView::Bool(true)),
            ],
        ),
        state,
    }
}

fn evaluation_of(js: &str, state: WorkState) -> (r: WorkStep)
    ensures
        r.view() == evaluation(js@, state.view()),
{
    let params = table(
        vec![
            (copy_text("expression"), text_data(js)),
            (copy_text("returnByValue"), Data::Bool(true)),
            (copy_text("awaitPromise"), Data::Bool(true)),
        ],
    );
    assert(params@->Table_0 =~= (evaluation(js@, state.view())->params)->Table_0);
    WorkStep::Send { method: copy_text("Runtime.evaluate"), params, state }
}

/// An expression that finds an element and does something with it.
pub open spec fn with_element(selector: Seq<char>, deed: Seq<char>) -> Seq<char> {
    "(() => { const el = document.querySelector("@ + json::quoted(selector)
        + "); if (!el) return {ok:false, reason:'selector 未命中'}; "@ + deed + " })()"@
}

fn with_element_of(selector: &str, deed: &str) -> (r: String)
    ensures
        r@ == with_element(selector@, deed@),
{
    cat(
        &cat(
            &cat(
                &cat("(() => { const el = document.querySelector(", &js_string(selector)),
                "); if (!el) return {ok:false, reason:'selector 未命中'}; ",
            ),
            deed,
        ),
        " })()",
    )
}

/// Brings an element into view.
pub open spec fn show_deed() -> Seq<char> {
    "el.scrollIntoView({behavior:'instant', block:'center'}); return {ok:true};"@
}

/// Fills a text into an element and tells the page.
pub open spec fn fill_deed(t: Seq<char>) -> Seq<char> {
    "el.focus(); el.value = "@ + json::quoted(t)
        + "; el.dispatchEvent(new Event('input', {bubbles:true})); el.dispatchEvent(new Event('change', {bubbles:true})); return {ok:true, tag: el.tagName};"@
}

/// The request that takes a picture.
pub open spec fn capture(full_page: bool) -> StepView {
    let head = seq![("format"@, data::DataView::Text("png"@))];
    WorkStep::Send {
        method: "Page.captureScreenshot"@,
        params: data::DataView::Table(
            if full_page {
                head.push(("captureBeyondViewport"@, data::DataView::Bool(true)))
            } else {
                head
            },
        ),
        state: WorkState::Capture,
    }
}

fn capture_of(full_page: bool) -> (r: WorkStep)
    ensures
        r.view() == capture(full_page),
{
    let params = if full_page {
        table2("format", text_data("png"), "captureBeyondViewport", Data::Bool(true))
    } else {
        table1("format", text_data("png"))
    };
    assert(params@->Table_0 =~= (capture(full_page)->params)->Table_0);
    WorkStep::Send {
        method: copy_text("Page.captureScreenshot"),
        params,
        state: WorkState::Capture,
    }
}

pub open spec fn navigate_step(input: data::DataView, since: u64) -> StepView {
    match given(input, "url"@) {
        Some(url) => WorkStep::Send {
            method: "Page.navigate"@,
            params: data::DataView::Table(seq![("url"@, data::DataView::Text(url))]),
            state: WorkState::Navigate { url, since },
        },
        None => WorkStep::Fail { error: ToolError::InvalidArgs("navigate 需要 'url' 参数"@) },
    }
}

pub open spec fn evaluate_step(input: data::DataView) -> StepView {
    match given(input, "js"@) {
        Some(js) => evaluation(js, WorkState::Evaluate),
        None => WorkStep::Fail { error: ToolError::InvalidArgs("evaluate 需要 'js' 参数"@) },
    }
}

/// Whether the whole page is to be on the picture.
pub open spec fn wants_full_page(input: data::DataView) -> bool {
    match input.field("full_page"@) {
        Some(v) => v.flag() == Some(true),
        None => false,
    }
}

pub open spec fn screenshot_step(input: data::DataView) -> StepView {
    match input.text_field("selector"@) {
        Some(sel) => evaluation(
            with_element(sel, show_deed()),
            WorkState::Locate { full_page: wants_full_page(input) },
        ),
        None => capture(wants_full_page(input)),
    }
}

pub open spec fn click_step(input: data::DataView) -> StepView {
    match given(input, "selector"@) {
        Some(sel) => evaluation(
            with_element(sel, "el.click(); return {ok:true, tag: el.tagName};"@),
            WorkState::Click { selector: sel },
        ),
        None => WorkStep::Fail { error: ToolError::InvalidArgs("click 需要 'selector' 参数"@) },
    }
}

pub open spec fn text_step(input: data::DataView) -> StepView {
    match (given(input, "selector"@), input.text_field("text"@)) {
        (None, _) => WorkStep::Fail {
            error: ToolError::InvalidArgs("text 需要 'selector' 参数"@),
        },
        (Some(_), None) => WorkStep::Fail {
            error: ToolError::InvalidArgs("text 需要 'text' 参数"@),
        },
        (Some(sel), Some(t)) => evaluation(
            with_element(sel, fill_deed(t)),
            WorkState::Fill { selector: sel },
        ),
    }
}

/// How far is scrolled, in pixels.
pub open spec fn scroll_amount(input: data::DataView) -> i64 {
    match input.field("amount"@) {
        Some(v) => match v.whole() {
            Some(n) => n,
            None => 500i64,
        },
        None => 500i64,
    }
}

pub open spec fn scroll_sign(input: data::DataView) -> Seq<char> {
    if input.text_field("direction"@) == Some("up"@) {
        "-1"@
    } else {
        "1"@
    }
}

pub open spec fn scroll_step(input: data::DataView) -> StepView {
    match given(input, "selector"@) {
        Some(sel) => evaluation(
            with_element(sel, show_deed()),
            WorkState::ScrollTo { selector: sel },
        ),
        None => evaluation(
            "(() => { window.scrollBy({top: "@ + scroll_sign(input) + " * "@ + cdp::signed(
                scroll_amount(input),
            ) + ", behavior: 'instant'}); return {ok:true, y: window.scrollY}; })()"@,
            WorkState::ScrollBy,
        ),
    }
}

/// The first step of an action.
pub open spec fn first_step(action: Seq<char>, input: data::DataView, since: u64) -> StepView {
    if action == "navigate"@ {
        navigate_step(input, since)
    } else if action == "evaluate"@ {
        evaluate_step(input)
    } else if action == "screenshot"@ {
        screenshot_step(input)
    } else if action == "click"@ {
        click_step(input)
    } else if action == "text"@ {
        text_step(input)
    } else if action == "scroll"@ {
        scroll_step(input)
    } else {
        WorkStep::Fail { error: ToolError::InvalidArgs("未知动作: "@ + action) }
    }
}

// ── Replies ─────────────────────────────────────────────────────────────────

/// The exception that an expression raised.
pub open spec fn exception(resp: data::DataView) -> Option<Seq<char>> {
    match resp.field("exceptionDetails"@) {
        Some(ex) => {
            let t = match ex.text_field("text"@) {
                Some(t) => t,
                None => "JS 异常"@,
            };
            let desc = match ex.field("exception"@) {
                Some(e) => match e.text_field("description"@) {
                    Some(d) => d,
                    None => Seq::empty(),
                },
                None => Seq::empty(),
            };
            Some("JS 异常: "@ + t + " "@ + desc)
        },
        None => None,
    }
}

fn exception_of(resp: &Data) -> (r: Option<String>)
    ensures
        manage::opt_text(r) == exception(resp@),
{
    match resp.field("exceptionDetails") {
        Some(ex) => {
            let t = match ex.text_field("text") {
                Some(t) => copy_text(t),
                None => copy_text("JS 异常"),
            };
            let desc = match ex.field("exception") {
                Some(e) => match e.text_field("description") {
                    Some(d) => copy_text(d),
                    None => String::new(),
                },
                None => String::new(),
            };
            Some(cat(&cat(&cat("JS 异常: ", &t), " "), &desc))
        },
        None => None,
    }
}

/// The value that an expression has.
pub open spec fn computed(resp: data::DataView) -> Option<data::DataView> {
    match resp.field("result"@) {
        Some(r) => r.field("value"@),
        None => None,
    }
}

fn computed_of(resp: &Data) -> (r: Option<&Data>)
    ensures
        data::opt_data(r) == computed(resp@),
{
    match resp.field("result") {
        Some(x) => x.field("value"),
        None => None,
    }
}

/// What an expression gave: its value, or the exception.
pub fn eval_value(resp: &Data) -> (r: Result<Data, ToolError>)
    ensures
        match exception(resp@) {
            Some(e) => r matches Err(x) && x.view() == ErrorView::Execution(e),
            None => r matches Ok(v) && v@ == cdp::or_null(computed(resp@)),
        },
{
    match exception_of(resp) {
        Some(e) => Err(ToolError::Execution(e)),
        None => match computed_of(resp) {
            Some(v) => Ok(v.copy()),
            None => Ok(Data::Null),
        },
    }
}

pub open spec fn says_ok(v: data::DataView) -> bool {
    match v.field("ok"@) {
        Some(x) => x.flag() == Some(true),
        None => false,
    }
}

fn says_ok_of(v: &Data) -> (r: bool)
    ensures
        r == says_ok(v@),
{
    match v.field("ok") {
        Some(x) => match x.flag() {
            Some(b) => b,
            None => false,
        },
        None => false,
    }
}

pub open spec fn text_or(v: data::DataView, key: Seq<char>, other: Seq<char>) -> Seq<char> {
    match v.text_field(key) {
        Some(s) => s,
        None => other,
    }
}

fn text_or_of(v: &Data, key: &str, other: &str) -> (r: String)
    ensures
        r@ == text_or(v@, key@, other@),
{
    match v.text_field(key) {
        Some(s) => copy_text(s),
        None => copy_text(other),
    }
}

/// Why something did not work in the page.
pub open spec fn because(what: Seq<char>, v: data::DataView) -> StepView {
    WorkStep::Fail {
        error: ToolError::Execution(what + " 失败: "@ + text_or(v, "reason"@, "未知原因"@)),
    }
}

fn because_of(what: &str, v: &Data) -> (r: WorkStep)
    ensures
        r.view() == because(what@, v@),
{
    WorkStep::Fail {
        error: failed(&cat(what, " 失败: "), &text_or_of(v, "reason", "未知原因")),
    }
}

pub open spec fn decode_fault(e: Seq<char>) -> Seq<char> {
    "截图 base64 解码失败: "@ + e
}

/// What is told about a text in base 64 that is none.
pub uninterp spec fn decode_error(t: Seq<char>) -> Seq<char>;

/// `base64::engine::general_purpose::STANDARD.decode`, with the text of its error: it gives
/// the bytes whose encoding the text is, and fails on every text that is not exactly the
/// encoding of some bytes.
#[verifier::external_body]
fn decode_base64(t: &str) -> (r: Result<Vec<u8>, String>)
    ensures
        match r {
            Ok(b) => paste::base64(b@) == t@,
            Err(e) => e@ == decode_error(t@) && forall|b: Seq<u8>| #[trigger]
                paste::base64(b) != t@,
        },
{
    base64::engine::general_purpose::STANDARD.decode(t).map_err(|e| e.to_string())
}

/// A picture came: it is saved, or it is told why it cannot be.
pub open spec fn captured(resp: data::DataView, s: StepView) -> bool {
    match resp.text_field("data"@) {
        None => s == (StepView::Fail { error: ToolError::Execution("截图响应缺少 data"@) }),
        Some(t) => if exists|b: Seq<u8>| #[trigger] paste::base64(b) == t {
            s matches WorkStep::Save { png } && paste::base64(png) == t
        } else {
            s == (StepView::Fail { error: ToolError::Execution(decode_fault(decode_error(t))) })
        },
    }
}

/// The step behind a reply in which an expression was computed.
pub open spec fn computed_step(state: StateView, v: data::DataView) -> StepView {
    match state {
        WorkState::Locate { full_page } => if says_ok(v) {
            capture(full_page)
        } else {
            WorkStep::Fail {
                error: ToolError::Execution(
                    "截图定位失败: "@ + text_or(v, "reason"@, "未知原因"@),
                ),
            }
        },
        WorkState::Click { selector } => if says_ok(v) {
            WorkStep::Tell {
                told: "已点击 <"@ + text_or(v, "tag"@, Seq::empty()) + ">（"@ + selector + "）"@,
            }
        } else {
            because("click"@, v)
        },
        WorkState::Fill { selector } => if says_ok(v) {
            WorkStep::Tell {
                told: "已填入 <"@ + text_or(v, "tag"@, Seq::empty()) + ">（"@ + selector + "）"@,
            }
        } else {
            because("text"@, v)
        },
        WorkState::ScrollTo { selector } => if says_ok(v) {
            WorkStep::Tell { told: "已滚动到 "@ + selector }
        } else {
            because("scroll"@, v)
        },
        _ => WorkStep::Tell { told: "已滚动（当前 scrollY="@ + cdp::signed(scroll_top(v)) + "）"@ },
    }
}

/// How far down the page is.
pub open spec fn scroll_top(v: data::DataView) -> i64 {
    match v.field("y"@) {
        Some(y) => match y.whole() {
            Some(n) => n,
            None => 0i64,
        },
        None => 0i64,
    }
}

/// A reply was given to the request of an action.
pub open spec fn goes_on(state: StateView, resp: data::DataView, s: StepView) -> bool {
    match state {
        WorkState::Navigate { url, since } => s == (match resp.text_field("errorText"@) {
            Some(e) => StepView::Fail { error: ToolError::Execution("导航失败: "@ + e) },
            None => WorkStep::WaitForLoad { url, since },
        }),
        WorkState::Evaluate => s == (match exception(resp) {
            Some(e) => StepView::Fail { error: ToolError::Execution(e) },
            None => WorkStep::Tell {
                told: match computed(resp) {
                    Some(v) => json::json_lines(json::put_in(v)),
                    None => "(undefined)"@,
                },
            },
        }),
        WorkState::Capture => captured(resp, s),
        _ => s == (match exception(resp) {
            Some(e) => StepView::Fail { error: ToolError::Execution(e) },
            None => computed_step(state, cdp::or_null(computed(resp))),
        }),
    }
}

fn captured_of(resp: &Data) -> (s: WorkStep)
    ensures
        captured(resp@, s.view()),
{
    match resp.text_field("data") {
        None => WorkStep::Fail { error: ToolError::Execution(copy_text("截图响应缺少 data")) },
        Some(t) => match decode_base64(t) {
            Ok(png) => WorkStep::Save { png },
            Err(e) => WorkStep::Fail { error: failed("截图 base64 解码失败: ", &e) },
        },
    }
}

fn computed_step_of(state: &WorkState, v: &Data) -> (s: WorkStep)
    ensures
        s.view() == computed_step(state.view(), v@),
{
    match state {
        WorkState::Locate { full_page } => if says_ok_of(v) {
            capture_of(*full_page)
        } else {
            WorkStep::Fail {
                error: failed("截图定位失败: ", &text_or_of(v, "reason", "未知原因")),
            }
        },
        WorkState::Click { selector } => if says_ok_of(v) {
            WorkStep::Tell { told: done_text("已点击 <", v, selector) }
        } else {
            because_of("click", v)
        },
        WorkState::Fill { selector } => if says_ok_of(v) {
            WorkStep::Tell { told: done_text("已填入 <", v, selector) }
        } else {
            because_of("text", v)
        },
        WorkState::ScrollTo { selector } => if says_ok_of(v) {
            WorkStep::Tell { told: cat("已滚动到 ", selector) }
        } else {
            because_of("scroll", v)
        },
        _ => {
            let y: i64 = match v.field("y") {
                Some(y) => match y.whole() {
                    Some(n) => n,
                    None => 0,
                },
                None => 0,
            };
            WorkStep::Tell { told: cat(&cat("已滚动（当前 scrollY=", &signed_text(y)), "）") }
        },
    }
}

fn done_text(head: &str, v: &Data, selector: &str) -> (r: String)
    ensures
        r@ == head@ + text_or(v@, "tag"@, Seq::empty()) + ">（"@ + selector@ + "）"@,
{
    let tag = match v.text_field("tag") {
        Some(s) => copy_text(s),
        None => String::new(),
    };
    cat(&cat(&cat(&cat(head, &tag), ">（"), selector), "）")
}

/// What an action does once the reply to its request has come.
pub fn next_step(state: &WorkState, reply: &Result<Data, ToolError>) -> (s: WorkStep)
    ensures
        match reply {
            Ok(resp) => goes_on(state.view(), resp@, s.view()),
            Err(e) => s.view() == (StepView::Fail { error: e.view() }),
        },
{
    let resp = match reply {
        Ok(d) => d,
        Err(e) => {
            return WorkStep::Fail { error: e.copy() };
        },
    };
    match state {
        WorkState::Navigate { url, since } => match resp.text_field("errorText") {
            Some(e) => WorkStep::Fail { error: failed("导航失败: ", e) },
            None => WorkStep::WaitForLoad { url: copy_text(url), since: *since },
        },
        WorkState::Evaluate => match exception_of(resp) {
            Some(e) => WorkStep::Fail { error: ToolError::Execution(e) },
            None => match computed_of(resp) {
                Some(v) => WorkStep::Tell { told: write_json_lines(v) },
                None => WorkStep::Tell { told: copy_text("(undefined)") },
            },
        },
        WorkState::Capture => captured_of(resp),
        _ => match eval_value(resp) {
            Ok(v) => computed_step_of(state, &v),
            Err(e) => WorkStep::Fail { error: e },
        },
    }
}

/// Whether an event says that the page of a session has loaded.
pub fn is_load_event(e: &CdpEvent, session_id: &str) -> (r: bool)
    ensures
        r == (e.method@ == "Page.loadEventFired"@ && manage::opt_text(e.session_id) == Some(
            session_id@,
        )),
{
    if !same(&e.method, "Page.loadEventFired") {
        return false;
    }
    match &e.session_id {
        Some(s) => same(s, session_id),
        None => false,
    }
}

/// What is told of a page that was opened, given what the event says that it has loaded;
/// without it, it may still be loading.
pub fn navigated(url: &str, loaded: Option<&Data>) -> (r: String)
    ensures
        r@ == "已导航到 "@ + url@ + (match data::opt_data(loaded) {
            Some(p) => match p.text_field("errorText"@) {
                Some(e) => "（加载报错: "@ + e + "）"@,
                None => Seq::empty(),
            },
            None => "（5s 超时，页面可能仍在加载）"@,
        }),
{
    let note = match loaded {
        Some(p) => match p.text_field("errorText") {
            Some(e) => cat(&cat("（加载报错: ", e), "）"),
            None => String::new(),
        },
        None => copy_text("（5s 超时，页面可能仍在加载）"),
    };
    cat(&cat("已导航到 ", url), &note)
}

/// Where a picture is saved in a workspace.
pub open spec fn screenshot_file(root: Seq<char>, id: Seq<char>, windows: bool) -> Seq<char> {
    let dir = launcher::joined(
        launcher::joined(root, ".gyre"@, windows),
        "artifacts"@,
        windows,
    );
    launcher::joined(dir, id + ".png"@, windows)
}

pub fn screenshot_path(root: &str, id: &str, windows: bool) -> (r: String)
    ensures
        r@ == screenshot_file(root@, id@, windows),
{
    let dir = joined_of(&joined_of(root, ".gyre", windows), "artifacts", windows);
    joined_of(&dir, &cat(id, ".png"), windows)
}

/// What is told of a picture that was saved.
pub fn save_screenshot(path: &Result<String, String>, png: &Vec<u8>) -> (r: Result<
    String,
    ToolError,
>)
    ensures
        match path {
            Ok(p) => r matches Ok(t) && t@ == "截图已保存: "@ + p@ + "（"@ + numeral::dec(
                png@.len(),
            ) + " 字节）"@,
            Err(e) => r matches Err(x) && x.view() == ErrorView::Io(e@),
        },
{
    match path {
        Ok(p) => Ok(
            cat(&cat(&cat(&cat("截图已保存: ", p), "（"), &dec_usize(png.len())), " 字节）"),
        ),
        Err(e) => Err(ToolError::Io(copy_text(e))),
    }
}

// ── A session ───────────────────────────────────────────────────────────────

/// Where the making of a session stands.
#[derive(Debug)]
pub enum SetupState<S = String> {
    /// A page was asked for.
    Creating,
    /// It was asked to join the page.
    Attaching,
    EnablingPage { session_id: S },
    EnablingRuntime { session_id: S },
}

/// What is done next to make a session.
#[derive(Debug)]
pub enum SetupStep<S = String, D = Data> {
    /// Make this request, to the browser or in a session.
    Send { method: S, params: D, session: Option<S>, state: SetupState<S> },
    Ready { session_id: S },
    Fail { error: ToolError<S> },
}

pub type SetupStateView = SetupState<Seq<char>>;

pub type SetupView = SetupStep<Seq<char>, data::DataView>;

impl SetupState {
    pub open spec fn view(&self) -> SetupStateView {
        match self {
            SetupState::Creating => SetupState::Creating,
            SetupState::Attaching => SetupState::Attaching,
            SetupState::EnablingPage { session_id } => SetupState::EnablingPage {
                session_id: session_id@,
            },
            SetupState::EnablingRuntime { session_id } => SetupState::EnablingRuntime {
                session_id: session_id@,
            },
        }
    }
}

impl SetupStep {
    pub open spec fn view(&self) -> SetupView {
        match self {
            SetupStep::Send { method, params, session, state } => SetupStep::Send {
                method: method@,
                params: params@,
                session: manage::opt_text(*session),
                state: state.view(),
            },
            SetupStep::Ready { session_id } => SetupStep::Ready { session_id: session_id@ },
            SetupStep::Fail { error } => SetupStep::Fail { error: error.view() },
        }
    }
}

/// The request for a new, empty page.
pub open spec fn create_page() -> SetupView {
    SetupStep::Send {
        method: "Target.createTarget"@,
        params: data::DataView::Table(seq![("url"@, data::DataView::Text("about:blank"@))]),
        session: None,
        state: SetupState::Creating,
    }
}

/// Begins a session.
pub fn begin_session() -> (s: SetupStep)
    ensures
        s.view() == create_page(),
{
    SetupStep::Send {
        method: copy_text("Target.createTarget"),
        params: table1("url", text_data("about:blank")),
        session: None,
        state: SetupState::Creating,
    }
}

pub open spec fn lacks(s: Seq<char>) -> SetupView {
    SetupStep::Fail { error: ToolError::Execution(s) }
}

/// What is done once the reply to a request has come.
pub open spec fn setup_step(state: SetupStateView, resp: data::DataView) -> SetupView {
    match state {
        SetupState::Creating => match resp.text_field("targetId"@) {
            Some(id) => SetupStep::Send {
                method: "Target.attachToTarget"@,
                params: data::DataView::Table(
                    seq![
                        ("targetId"@, data::DataView::Text(id)),
                        ("flatten"@, data::DataView::Bool(true)),
                    ],
                ),
                session: None,
                state: SetupState::Attaching,
            },
            None => lacks("Target.createTarget 响应缺少 targetId"@),
        },
        SetupState::Attaching => match resp.text_field("sessionId"@) {
            Some(id) => SetupStep::Send {
                method: "Page.enable"@,
                params: data::DataView::Table(Seq::empty()),
                session: Some(id),
                state: SetupState::EnablingPage { session_id: id },
            },
            None => lacks("Target.attachToTarget 响应缺少 sessionId"@),
        },
        SetupState::EnablingPage { session_id } => SetupStep::Send {
            method: "Runtime.enable"@,
            params: data::DataView::Table(Seq::empty()),
            session: Some(session_id),
            state: SetupState::EnablingRuntime { session_id },
        },
        SetupState::EnablingRuntime { session_id } => SetupStep::Ready { session_id },
    }
}

fn no_params() -> (r: Data)
    ensures
        r@ == data::DataView::Table(Seq::empty()),
{
    let r = table(Vec::new());
    assert(r@->Table_0 =~= Seq::empty());
    r
}

/// Goes on with a session.
pub fn next_setup(state: &SetupState, reply: &Result<Data, ToolError>) -> (s: SetupStep)
    ensures
        s.view() == (match reply {
            Ok(resp) => setup_step(state.view(), resp@),
            Err(e) => SetupStep::Fail { error: e.view() },
        }),
{
    let resp = match reply {
        Ok(d) => d,
        Err(e) => {
            return SetupStep::Fail { error: e.copy() };
        },
    };
    match state {
        SetupState::Creating => match resp.text_field("targetId") {
            Some(id) => SetupStep::Send {
                method: copy_text("Target.attachToTarget"),
                params: table2("targetId", text_data(id), "flatten", Data::Bool(true)),
                session: None,
                state: SetupState::Attaching,
            },
            None => SetupStep::Fail {
                error: ToolError::Execution(copy_text("Target.createTarget 响应缺少 targetId")),
            },
        },
        SetupState::Attaching => match resp.text_field("sessionId") {
            Some(id) => SetupStep::Send {
                method: copy_text("Page.enable"),
                params: no_params(),
                session: Some(copy_text(id)),
                state: SetupState::EnablingPage { session_id: copy_text(id) },
            },
            None => SetupStep::Fail {
                error: ToolError::Execution(copy_text("Target.attachToTarget 响应缺少 sessionId")),
            },
        },
        SetupState::EnablingPage { session_id } => SetupStep::Send {
            method: copy_text("Runtime.enable"),
            params: no_params(),
            session: Some(copy_text(session_id)),
            state: SetupState::EnablingRuntime { session_id: copy_text(session_id) },
        },
        SetupState::EnablingRuntime { session_id } => SetupStep::Ready {
            session_id: copy_text(session_id),
        },
    }
}

// ── The tool ────────────────────────────────────────────────────────────────

/// What a call of the tool comes to.
#[derive(Debug)]
pub enum CallStep {
    Fail(ToolError),
    Tell(String),
    /// Close the browser.
    Close,
    /// Carry out an action, in a browser that is to be started first unless one runs.
    Run { launch: bool, action: String },
}

/// The tool, and the session of the browser that it drives, if one runs.
#[derive(Debug)]
pub struct BrowserTool {
    pub session_id: Option<String>,
}

impl Default for BrowserTool {
    fn default() -> (t: BrowserTool)
        ensures
            t.session_id is None,
    {
        BrowserTool { session_id: None }
    }
}

impl BrowserTool {
    pub fn new() -> (t: BrowserTool)
        ensures
            t.session_id is None,
    {
        BrowserTool { session_id: None }
    }

    pub fn name(&self) -> (r: &'static str)
        ensures
            r@ == "browser"@,
    {
        "browser"
    }

    pub fn description(&self) -> (r: &'static str)
        ensures
            r@ == "控制 headless chromium 浏览网页：navigate(url) 打开页面；evaluate(js) 在页面执行 JavaScript（returnByValue 取回结果）；screenshot(selector?, full_page?) 截图保存；click(selector)、text(selector, text)、scroll(selector?/direction?/amount?) 模拟交互；close 关闭浏览器实例。"@,
    {
        "控制 headless chromium 浏览网页：navigate(url) 打开页面；evaluate(js) 在页面执行 JavaScript（returnByValue 取回结果）；screenshot(selector?, full_page?) 截图保存；click(selector)、text(selector, text)、scroll(selector?/direction?/amount?) 模拟交互；close 关闭浏览器实例。"
    }

    pub fn schema(&self) -> (r: Data)
        ensures
            r@ == schema_view(),
    {
        browser_schema()
    }

    /// The tool may be stopped while it works.
    pub fn interruptible(&self) -> (r: bool)
        ensures
            r,
    {
        true
    }

    /// Whether the arguments of an action will do. No browser is started for those that
    /// will not.
    pub fn validate(action: &str, input: &Data) -> (r: Result<(), ToolError>)
        ensures
            result_view(r) == refusal(action@, input@),
    {
        if same(action, "navigate") {
            if given_of(input, "url").is_none() {
                return Err(invalid("navigate 需要 'url' 参数"));
            }
        } else if same(action, "evaluate") {
            if given_of(input, "js").is_none() {
                return Err(invalid("evaluate 需要 'js' 参数"));
            }
        } else if same(action, "click") {
            if given_of(input, "selector").is_none() {
                return Err(invalid("click 需要 'selector' 参数"));
            }
        } else if same(action, "text") {
            if given_of(input, "selector").is_none() || given_of(input, "text").is_none() {
                return Err(invalid("text 需要 'selector' 与 'text' 参数"));
            }
        } else if !(same(action, "screenshot") || same(action, "scroll") || same(action, "close")) {
            return Err(ToolError::InvalidArgs(cat("未知动作: ", action)));
        }
        Ok(())
    }

    /// What a call of the tool comes to.
    pub fn execute(&mut self, input: &Data, cancelled: bool) -> (r: CallStep)
        ensures
            called(manage::opt_text(old(self).session_id), input@, cancelled, r),
            manage::opt_text(final(self).session_id) == (if r is Close {
                None
            } else {
                manage::opt_text(old(self).session_id)
            }),
    {
        if cancelled {
            return CallStep::Fail(ToolError::Execution(copy_text("browser: 操作已被取消")));
        }
        let action = match input.text_field("action") {
            Some(a) => a,
            None => {
                return CallStep::Fail(invalid("缺少 'action' 参数"));
            },
        };
        match Self::validate(action, input) {
            Err(e) => CallStep::Fail(e),
            Ok(()) => if same(action, "close") {
                if self.session_id.is_none() {
                    CallStep::Tell(copy_text("browser: 无运行中的浏览器实例"))
                } else {
                    self.session_id = None;
                    CallStep::Close
                }
            } else {
                CallStep::Run { launch: self.session_id.is_none(), action: copy_text(action) }
            },
        }
    }

    /// What is told once the browser has been closed.
    pub fn closed(result: &Result<(), ToolError>) -> (r: Result<String, ToolError>)
        ensures
            match result {
                Ok(()) => r matches Ok(t) && t@ == "browser: 已关闭浏览器实例"@,
                Err(e) => r matches Err(x) && x.view() == e.view(),
            },
    {
        match result {
            Ok(()) => Ok(copy_text("browser: 已关闭浏览器实例")),
            Err(e) => Err(e.copy()),
        }
    }

    /// A session was made.
    pub fn ready(&mut self, session_id: String)
        ensures
            manage::opt_text(final(self).session_id) == Some(session_id@),
    {
        self.session_id = Some(session_id);
    }

    /// Begins an action; events before the given number are old.
    pub fn begin(action: &str, input: &Data, since: u64) -> (s: WorkStep)
        ensures
            s.view() == first_step(action@, input@, since),
    {
        if same(action, "navigate") {
            Self::navigate(input, since)
        } else if same(action, "evaluate") {
            Self::evaluate(input)
        } else if same(action, "screenshot") {
            Self::screenshot(input)
        } else if same(action, "click") {
            Self::click(input)
        } else if same(action, "text") {
            Self::text(input)
        } else if same(action, "scroll") {
            Self::scroll(input)
        } else {
            WorkStep::Fail { error: ToolError::InvalidArgs(cat("未知动作: ", action)) }
        }
    }

    /// Opens a page.
    fn navigate(input: &Data, since: u64) -> (s: WorkStep)
        ensures
            s.view() == navigate_step(input@, since),
    {
        match given_of(input, "url") {
            Some(url) => WorkStep::Send {
                method: copy_text("Page.navigate"),
                params: table1("url", text_data(&url)),
                state: WorkState::Navigate { url, since },
            },
            None => WorkStep::Fail { error: invalid("navigate 需要 'url' 参数") },
        }
    }

    /// Computes an expression.
    fn evaluate(input: &Data) -> (s: WorkStep)
        ensures
            s.view() == evaluate_step(input@),
    {
        match given_of(input, "js") {
            Some(js) => evaluation_of(&js, WorkState::Evaluate),
            None => WorkStep::Fail { error: invalid("evaluate 需要 'js' 参数") },
        }
    }

    /// Takes a picture.
    fn screenshot(input: &Data) -> (s: WorkStep)
        ensures
            s.view() == screenshot_step(input@),
    {
        let full_page = match input.field("full_page") {
            Some(v) => match v.flag() {
                Some(b) => b,
                None => false,
            },
            None => false,
        };
        match input.text_field("selector") {
            Some(sel) => evaluation_of(
                &with_element_of(
                    sel,
                    "el.scrollIntoView({behavior:'instant', block:'center'}); return {ok:true};",
                ),
                WorkState::Locate { full_page },
            ),
            None => capture_of(full_page),
        }
    }

    /// Clicks an element.
    fn click(input: &Data) -> (s: WorkStep)
        ensures
            s.view() == click_step(input@),
    {
        match given_of(input, "selector") {
            Some(sel) => evaluation_of(
                &with_element_of(&sel, "el.click(); return {ok:true, tag: el.tagName};"),
                WorkState::Click { selector: sel },
            ),
            None => WorkStep::Fail { error: invalid("click 需要 'selector' 参数") },
        }
    }

    /// Fills in a text.
    fn text(input: &Data) -> (s: WorkStep)
        ensures
            s.view() == text_step(input@),
    {
        match given_of(input, "selector") {
            None => WorkStep::Fail { error: invalid("text 需要 'selector' 参数") },
            Some(sel) => match input.text_field("text") {
                None => WorkStep::Fail { error: invalid("text 需要 'text' 参数") },
                Some(t) => {
                    let deed = cat(
                        &cat("el.focus(); el.value = ", &js_string(t)),
                        "; el.dispatchEvent(new Event('input', {bubbles:true})); el.dispatchEvent(new Event('change', {bubbles:true})); return {ok:true, tag: el.tagName};",
                    );
                    evaluation_of(&with_element_of(&sel, &deed), WorkState::Fill { selector: sel })
                },
            },
        }
    }

    /// Scrolls to an element, or by so many pixels.
    fn scroll(input: &Data) -> (s: WorkStep)
        ensures
            s.view() == scroll_step(input@),
    {
        match given_of(input, "selector") {
            Some(sel) => evaluation_of(
                &with_element_of(
                    &sel,
                    "el.scrollIntoView({behavior:'instant', block:'center'}); return {ok:true};",
                ),
                WorkState::ScrollTo { selector: sel },
            ),
            None => {
                let up = match input.text_field("direction") {
                    Some(d) => same(d, "up"),
                    None => false,
                };
                let sign = if up {
                    "-1"
                } else {
                    "1"
                };
                let amount: i64 = match input.field("amount") {
                    Some(v) => match v.whole() {
                        Some(n) => n,
                        None => 500,
                    },
                    None => 500,
                };
                let js = cat(
                    &cat(
                        &cat(&cat("(() => { window.scrollBy({top: ", sign), " * "),
                        &signed_text(amount),
                    ),
                    ", behavior: 'instant'}); return {ok:true, y: window.scrollY}; })()",
                );
                evaluation_of(&js, WorkState::ScrollBy)
            },
        }
    }
}

/// What a call of the tool comes to, with the session of the browser that runs, if any.
pub open spec fn called(
    session: Option<Seq<char>>,
    input: data::DataView,
    cancelled: bool,
    r: CallStep,
) -> bool {
    if cancelled {
        r matches CallStep::Fail(e) && e.view() == ErrorView::Execution("browser: 操作已被取消"@)
    } else {
        match input.text_field("action"@) {
            None => r matches CallStep::Fail(e) && e.view() == ErrorView::InvalidArgs(
                "缺少 'action' 参数"@,
            ),
            Some(a) => match refusal(a, input) {
                Some(why) => r matches CallStep::Fail(e) && e.view() == why,
                None => if a == "close"@ {
                    if session is None {
                        r matches CallStep::Tell(t) && t@ == "browser: 无运行中的浏览器实例"@
                    } else {
                        r is Close
                    }
                } else {
                    r matches CallStep::Run { launch, action } && launch == (session is None)
                        && action@ == a
                },
            },
        }
    }
}

// ── Its arguments ───────────────────────────────────────────────────────────

/// An argument of a type.
pub open spec fn argument(kind: Seq<char>, what: Seq<char>) -> data::DataView {
    data::DataView::Table(
        seq![
            ("type"@, data::DataView::Text(kind)),
            ("description"@, data::DataView::Text(what)),
        ],
    )
}

/// An argument that is one of these texts.
pub open spec fn choice(of: Seq<Seq<char>>, what: Seq<char>) -> data::DataView {
    data::DataView::Table(
        seq![
            ("type"@, data::DataView::Text("string"@)),
            ("enum"@, text_list(of)),
            ("description"@, data::DataView::Text(what)),
        ],
    )
}

pub open spec fn text_list(of: Seq<Seq<char>>) -> data::DataView {
    data::DataView::List(Seq::new(of.len(), |i: int| data::DataView::Text(of[i])))
}

/// The actions of the tool.
pub open spec fn actions() -> Seq<Seq<char>> {
    seq![
        "navigate"@,
        "evaluate"@,
        "screenshot"@,
        "click"@,
        "text"@,
        "scroll"@,
        "close"@,
    ]
}

pub open spec fn properties() -> Seq<(Seq<char>, data::DataView)> {
    seq![
        (
            "action"@,
            choice(
                actions(),
                "浏览器操作：navigate 打开页面；evaluate 执行 JS；screenshot 截图；click/text/scroll 模拟交互；close 关闭浏览器"@,
            ),
        ),
        ("url"@, argument("string"@, "navigate：要打开的 URL"@)),
        (
            "js"@,
            argument(
                "string"@,
                "evaluate：要执行的 JavaScript（returnByValue + awaitPromise 取回结果）"@,
            ),
        ),
        ("selector"@, argument("string"@, "screenshot/click/text/scroll：CSS 选择器"@)),
        ("text"@, argument("string"@, "text：填入输入框的文本"@)),
        ("full_page"@, argument("boolean"@, "screenshot：true 时截取整页而非视口"@)),
        (
            "direction"@,
            choice(seq!["up"@, "down"@], "scroll：无 selector 时的滚动方向（默认 down）"@),
        ),
        ("amount"@, argument("integer"@, "scroll：滚动像素数（默认 500）"@)),
    ]
}

/// What the arguments of the tool look like.
pub open spec fn schema_view() -> data::DataView {
    data::DataView::Table(
        seq![
            ("type"@, data::DataView::Text("object"@)),
            ("required"@, text_list(seq!["action"@])),
            ("properties"@, data::DataView::Table(properties())),
        ],
    )
}

fn argument_of(kind: &str, what: &str) -> (r: Data)
    ensures
        r@ == argument(kind@, what@),
{
    table2("type", text_data(kind), "description", text_data(what))
}

fn text_list_of(of: Vec<&'static str>) -> (r: Data)
    ensures
        r@ == text_list(Seq::new(of@.len(), |i: int| of@[i]@)),
{
    let mut v: Vec<Data> = Vec::new();
    let mut i: usize = 0;
    while i < of.len()
        invariant
            i <= of.len(),
            v.len() == i,
            forall|j: int| 0 <= j < i ==> (#[trigger] v@[j])@ == data::DataView::Text(of@[j]@),
        decreases of.len() - i,
    {
        v.push(text_data(of[i]));
        i = i + 1;
    }
    let r = Data::List(v);
    assert(r@->List_0 =~= text_list(Seq::new(of@.len(), |i: int| of@[i]@))->List_0);
    r
}

fn choice_of(of: Data, what: &str) -> (r: Data)
    ensures
        r@ == data::DataView::Table(
            seq![
                ("type"@, data::DataView::Text("string"@)),
                ("enum"@, of@),
                ("description"@, data::DataView::Text(what@)),
            ],
        ),
{
    let r = table(
        vec![
            (copy_text("type"), text_data("string")),
            (copy_text("enum"), of),
            (copy_text("description"), text_data(what)),
        ],
    );
    assert(r@->Table_0 =~= seq![
        ("type"@, data::DataView::Text("string"@)),
        ("enum"@, of@),
        ("description"@, data::DataView::Text(what@)),
    ]);
    r
}

fn properties_of() -> (r: Data)
    ensures
        r@ == data::DataView::Table(properties()),
{
    let names = vec!["navigate", "evaluate", "screenshot", "click", "text", "scroll", "close"];
    assert(Seq::new(names@.len(), |i: int| names@[i]@) =~= actions());
    let ways = vec!["up", "down"];
    assert(Seq::new(ways@.len(), |i: int| ways@[i]@) =~= seq!["up"@, "down"@]);
    let r = table(
        vec![
            (
                copy_text("action"),
                choice_of(
                    text_list_of(names),
                    "浏览器操作：navigate 打开页面；evaluate 执行 JS；screenshot 截图；click/text/scroll 模拟交互；close 关闭浏览器",
                ),
            ),
            (copy_text("url"), argument_of("string", "navigate：要打开的 URL")),
            (
                copy_text("js"),
                argument_of(
                    "string",
                    "evaluate：要执行的 JavaScript（returnByValue + awaitPromise 取回结果）",
                ),
            ),
            (
                copy_text("selector"),
                argument_of("string", "screenshot/click/text/scroll：CSS 选择器"),
            ),
            (copy_text("text"), argument_of("string", "text：填入输入框的文本")),
            (
                copy_text("full_page"),
                argument_of("boolean", "screenshot：true 时截取整页而非视口"),
            ),
            (
                copy_text("direction"),
                choice_of(text_list_of(ways), "scroll：无 selector 时的滚动方向（默认 down）"),
            ),
            (copy_text("amount"), argument_of("integer", "scroll：滚动像素数（默认 500）")),
        ],
    );
    assert(r@->Table_0 =~= properties());
    r
}

/// What the arguments of the tool look like.
pub fn browser_schema() -> (r: Data)
    ensures
        r@ == schema_view(),
{
    let need = vec!["action"];
    assert(Seq::new(need@.len(), |i: int| need@[i]@) =~= seq!["action"@]);
    let r = table(
        vec![
            (copy_text("type"), text_data("object")),
            (copy_text("required"), text_list_of(need)),
            (copy_text("properties"), properties_of()),
        ],
    );
    assert(r@->Table_0 =~= schema_view()->Table_0);
    r
}

// ── What holds of every call ────────────────────────────────────────────────

/// A call whose arguments will not do starts no browser, and an action whose arguments
/// will do begins with a request.
pub proof fn valid_actions_begin(action: Seq<char>, input: data::DataView, since: u64)
    requires
        refusal(action, input) is None,
        action != "close"@,
    ensures
        first_step(action, input, since) is Send,
{
}

/// A refused call starts nothing, whatever browser runs.
pub proof fn refused_calls_start_nothing(
    session: Option<Seq<char>>,
    input: data::DataView,
    cancelled: bool,
    r: CallStep,
)
    requires
        called(session, input, cancelled, r),
        cancelled || input.text_field("action"@) is None || refusal(
            input.text_field("action"@)->0,
            input,
        ) is Some,
    ensures
        r is Fail,
{
}

/// What is saved is the picture that the browser sent.
pub proof fn saved_picture_is_the_one_sent(resp: data::DataView, s: StepView)
    requires
        goes_on(StateView::Capture, resp, s),
    ensures
        s matches WorkStep::Save { png } ==> resp.text_field("data"@) == Some(paste::base64(png)),
{
}

/// A session is made in four requests, in this order, if every reply has what it should.
pub proof fn session_takes_four_requests(target: data::DataView, attached: data::DataView, a: data::DataView, b: data::DataView)
    requires
        target.text_field("targetId"@) is Some,
        attached.text_field("sessionId"@) is Some,
    ensures
        ({
            let s1 = setup_step(SetupStateView::Creating, target);
            let s2 = setup_step(s1->state, attached);
            let s3 = setup_step(s2->state, a);
            let s4 = setup_step(s3->state, b);
            &&& s1 is Send
            &&& s2 is Send
            &&& s3 is Send
            &&& s4 == (SetupView::Ready { session_id: attached.text_field("sessionId"@)->0 })
        }),
{
}

/// A request that has the page compute an expression and hand its value back.
pub open spec fn asks_page(s: StepView, js: Seq<char>) -> bool {
    s matches WorkStep::Send { method, params, .. } && method == "Runtime.evaluate"@
        && params.text_field("expression"@) == Some(js) && params.field("returnByValue"@) == Some(
        data::DataView::Bool(true),
    ) && params.field("awaitPromise"@) == Some(data::DataView::Bool(true))
}

proof fn evaluation_asks(js: Seq<char>, state: StateView)
    ensures
        asks_page(evaluation(js, state), js),
{
    reveal_strlit("expression");
    reveal_strlit("returnByValue");
    reveal_strlit("awaitPromise");
    let t = evaluation(js, state)->params->Table_0;
    assert(t[0].0 != t[1].0) by {
        assert(t[0].0.len() != t[1].0.len());
    }
    assert(t[0].0 != t[2].0) by {
        assert(t[0].0.len() != t[2].0.len());
    }
    assert(t[1].0 != t[2].0) by {
        assert(t[1].0.len() != t[2].0.len());
    }
    reveal_with_fuel(data::entry_value, 4);
    assert(t.drop_first()[0] == t[1]);
    assert(t.drop_first().drop_first()[0] == t[2]);
}

/// The look for the element of a selector, and the way out where there is none.
pub open spec fn lookup(selector: Seq<char>) -> Seq<Seq<char>> {
    seq![
        "const el = document.querySelector("@ + json::quoted(selector) + ");"@,
        "if (!el) return {ok:false"@,
    ]
}

proof fn element_is_looked_up(selector: Seq<char>, deed: Seq<char>, parts: Seq<Seq<char>>)
    requires
        text::holds_in_order(deed + " })()"@, parts),
    ensures
        text::holds_in_order(with_element(selector, deed), lookup(selector) + parts),
{
    let rest = deed + " })()"@;
    reveal_strlit("(() => { const el = document.querySelector(");
    reveal_strlit("(() => { ");
    reveal_strlit("const el = document.querySelector(");
    reveal_strlit("); if (!el) return {ok:false, reason:'selector 未命中'}; ");
    reveal_strlit(");");
    reveal_strlit(" ");
    reveal_strlit("if (!el) return {ok:false");
    reveal_strlit(", reason:'selector 未命中'}; ");
    let tail = ", reason:'selector 未命中'}; "@;
    let found = "const el = document.querySelector("@ + json::quoted(selector) + ");"@;
    let miss = "if (!el) return {ok:false"@;
    if parts.len() > 0 {
        let i = choose|i: int| #[trigger]
            text::matches_at(rest, parts[0], i) && text::holds_in_order(
                rest.skip(i + parts[0].len()),
                parts.drop_first(),
            );
        let more = tail + rest;
        assert(more.subrange(i + tail.len(), i + tail.len() + parts[0].len()) =~= rest.subrange(
            i,
            i + parts[0].len(),
        ));
        assert(text::matches_at(more, parts[0], i + tail.len()));
        assert(more.skip(i + tail.len() + parts[0].len()) =~= rest.skip(i + parts[0].len()));
    }
    assert(text::holds_in_order(tail + rest, parts));
    text::lemma_holds_next(" "@, miss, tail + rest, parts);
    text::lemma_holds_next("(() => { "@, found, " "@ + miss + (tail + rest), seq![miss] + parts);
    assert("(() => { "@ + "const el = document.querySelector("@
        =~= "(() => { const el = document.querySelector("@);
    assert(");"@ + " "@ + miss + tail =~= "); if (!el) return {ok:false, reason:'selector 未命中'}; "@);
    assert("(() => { "@ + found + (" "@ + miss + (tail + rest)) =~= with_element(selector, deed));
    assert(seq![found] + (seq![miss] + parts) =~= lookup(selector) + parts);
}

/// A click looks the element of the selector up and, where there is one, clicks it before it
/// answers that all went well.
pub proof fn clicking_clicks_the_element(input: data::DataView, since: u64, selector: Seq<char>) -> (js:
    Seq<char>)
    requires
        selector.len() > 0,
        input.text_field("selector"@) matches Some(s) && text::trim(s) == selector,
    ensures
        asks_page(first_step("click"@, input, since), js),
        text::holds_in_order(
            js,
            lookup(selector) + seq![" el.click(); return {ok:true, tag: el.tagName};"@],
        ),
        first_step("click"@, input, since)->state == (StateView::Click { selector }),
{
    actions_differ();
    let deed = "el.click(); return {ok:true, tag: el.tagName};"@;
    let js = with_element(selector, deed);
    evaluation_asks(js, WorkState::Click { selector });
    reveal_strlit("el.click(); return {ok:true, tag: el.tagName};");
    reveal_strlit(" el.click(); return {ok:true, tag: el.tagName};");
    reveal_strlit("(() => { const el = document.querySelector(");
    reveal_strlit("(() => { ");
    reveal_strlit("const el = document.querySelector(");
    reveal_strlit("); if (!el) return {ok:false, reason:'selector 未命中'}; ");
    reveal_strlit(");");
    reveal_strlit(" ");
    reveal_strlit("if (!el) return {ok:false");
    reveal_strlit(", reason:'selector 未命中'};");
    let done = " el.click(); return {ok:true, tag: el.tagName};"@;
    let gap = ", reason:'selector 未命中'};"@;
    let end = " })()"@;
    let found = "const el = document.querySelector("@ + json::quoted(selector) + ");"@;
    let miss = "if (!el) return {ok:false"@;
    text::lemma_holds_next(gap, done, end, Seq::empty());
    let r2 = gap + done + end;
    text::lemma_holds_next(" "@, miss, r2, seq![done] + Seq::empty());
    let r1 = " "@ + miss + r2;
    text::lemma_holds_next("(() => { "@, found, r1, seq![miss] + (seq![done] + Seq::empty()));
    assert("(() => { "@ + found + r1 =~= js);
    assert(seq![found] + (seq![miss] + (seq![done] + Seq::<Seq<char>>::empty())) =~= lookup(selector)
        + seq![done]);
    js
}

proof fn actions_differ()
    ensures
        "click"@ != "navigate"@ && "click"@ != "evaluate"@ && "click"@ != "screenshot"@,
        "text"@ != "navigate"@ && "text"@ != "evaluate"@ && "text"@ != "screenshot"@ && "text"@
            != "click"@,
        "scroll"@ != "navigate"@ && "scroll"@ != "evaluate"@ && "scroll"@ != "screenshot"@
            && "scroll"@ != "click"@ && "scroll"@ != "text"@,
        "screenshot"@ != "navigate"@ && "screenshot"@ != "evaluate"@,
        "evaluate"@ != "navigate"@,
{
    reveal_strlit("navigate");
    reveal_strlit("evaluate");
    reveal_strlit("screenshot");
    reveal_strlit("click");
    reveal_strlit("text");
    reveal_strlit("scroll");
    assert("evaluate"@[0] == 'e' && "navigate"@[0] == 'n');
    assert("navigate"@.len() == 8 && "evaluate"@.len() == 8 && "screenshot"@.len() == 10);
    assert("click"@.len() == 5 && "text"@.len() == 4 && "scroll"@.len() == 6);
}

/// Filling puts the text into the element of the selector, and then tells the page of it as of
/// something that was typed and changed, before it answers that all went well.
pub proof fn filling_sets_the_text(
    input: data::DataView,
    since: u64,
    selector: Seq<char>,
    t: Seq<char>,
) -> (js: Seq<char>)
    requires
        selector.len() > 0,
        input.text_field("selector"@) matches Some(s) && text::trim(s) == selector,
        input.text_field("text"@) == Some(t),
    ensures
        asks_page(first_step("text"@, input, since), js),
        text::holds_in_order(
            js,
            lookup(selector) + seq![
                "el.value = "@ + json::quoted(t) + "; "@,
                "el.dispatchEvent(new Event('input', {bubbles:true})); "@,
                "el.dispatchEvent(new Event('change', {bubbles:true})); "@,
                "return {ok:true"@,
            ],
        ),
        first_step("text"@, input, since)->state == (StateView::Fill { selector }),
{
    actions_differ();
    let js = with_element(selector, fill_deed(t));
    evaluation_asks(js, WorkState::Fill { selector });
    reveal_strlit("el.focus(); el.value = ");
    reveal_strlit("el.focus(); ");
    reveal_strlit("el.value = ");
    reveal_strlit(
        "; el.dispatchEvent(new Event('input', {bubbles:true})); el.dispatchEvent(new Event('change', {bubbles:true})); return {ok:true, tag: el.tagName};",
    );
    reveal_strlit("; ");
    reveal_strlit("el.dispatchEvent(new Event('input', {bubbles:true})); ");
    reveal_strlit("el.dispatchEvent(new Event('change', {bubbles:true})); ");
    reveal_strlit("return {ok:true");
    reveal_strlit(", tag: el.tagName};");
    let none = Seq::<char>::empty();
    let value = "el.value = "@ + json::quoted(t) + "; "@;
    let typed = "el.dispatchEvent(new Event('input', {bubbles:true})); "@;
    let changed = "el.dispatchEvent(new Event('change', {bubbles:true})); "@;
    let done = "return {ok:true"@;
    let end = ", tag: el.tagName};"@ + " })()"@;
    text::lemma_holds_next(none, done, end, Seq::empty());
    let r3 = none + done + end;
    let p3 = seq![done] + Seq::<Seq<char>>::empty();
    text::lemma_holds_next(none, changed, r3, p3);
    let r2 = none + changed + r3;
    let p2 = seq![changed] + p3;
    text::lemma_holds_next(none, typed, r2, p2);
    let r1 = none + typed + r2;
    let p1 = seq![typed] + p2;
    text::lemma_holds_next("el.focus(); "@, value, r1, p1);
    let r0 = "el.focus(); "@ + value + r1;
    let p0 = seq![value] + p1;
    assert("el.focus(); "@ + "el.value = "@ =~= "el.focus(); el.value = "@);
    assert("; "@ + typed + changed + done + ", tag: el.tagName};"@
        =~= "; el.dispatchEvent(new Event('input', {bubbles:true})); el.dispatchEvent(new Event('change', {bubbles:true})); return {ok:true, tag: el.tagName};"@);
    assert(r0 =~= fill_deed(t) + " })()"@);
    element_is_looked_up(selector, fill_deed(t), p0);
    assert(lookup(selector) + p0 =~= lookup(selector) + seq![value, typed, changed, done]);
    js
}

proof fn showing_scrolls(selector: Seq<char>)
    ensures
        text::holds_in_order(
            with_element(selector, show_deed()),
            lookup(selector) + seq!["el.scrollIntoView("@, "return {ok:true}"@],
        ),
{
    reveal_strlit("el.scrollIntoView({behavior:'instant', block:'center'}); return {ok:true};");
    reveal_strlit("el.scrollIntoView(");
    reveal_strlit("{behavior:'instant', block:'center'}); ");
    reveal_strlit("return {ok:true}");
    reveal_strlit(";");
    let none = Seq::<char>::empty();
    let a = "el.scrollIntoView("@;
    let b = "return {ok:true}"@;
    let gap = "{behavior:'instant', block:'center'}); "@;
    let end = ";"@ + " })()"@;
    text::lemma_holds_next(gap, b, end, Seq::empty());
    let p1 = seq![b] + Seq::<Seq<char>>::empty();
    text::lemma_holds_next(none, a, gap + b + end, p1);
    assert(none + a + (gap + b + end) =~= show_deed() + " })()"@);
    element_is_looked_up(selector, show_deed(), seq![a] + p1);
    assert(lookup(selector) + (seq![a] + p1) =~= lookup(selector) + seq![a, b]);
}

/// Scrolling to an element brings the element of the selector into view; without a selector the
/// page is scrolled by the number of pixels asked for, or 500, and up only where that is asked.
pub proof fn scrolling_scrolls(input: data::DataView, since: u64, up: bool, amount: Seq<char>) -> (js:
    Seq<char>)
    requires
        up <==> input.text_field("direction"@) == Some("up"@),
        amount == (match input.field("amount"@) {
            Some(data::DataView::Int(n)) => if n < 0 {
                "-"@ + numeral::dec((-n) as nat)
            } else {
                numeral::dec(n as nat)
            },
            _ => numeral::dec(500),
        }),
    ensures
        asks_page(first_step("scroll"@, input, since), js),
        input.text_field("selector"@) matches Some(s) && text::trim(s).len() > 0
            ==> text::holds_in_order(
            js,
            lookup(text::trim(input.text_field("selector"@)->0)) + seq![
                "el.scrollIntoView("@,
                "return {ok:true}"@,
            ],
        ) && first_step("scroll"@, input, since)->state == (StateView::ScrollTo {
            selector: text::trim(input.text_field("selector"@)->0),
        }),
        input.text_field("selector"@) is None ==> text::holds_in_order(
            js,
            seq![
                "window.scrollBy({top: "@ + (if up {
                    "-1 * "@
                } else {
                    "1 * "@
                }) + amount + ","@,
                "return {ok:true, y: window.scrollY}"@,
            ],
        ),
{
    actions_differ();
    let step = first_step("scroll"@, input, since);
    match given(input, "selector"@) {
        Some(selector) => {
            let js = with_element(selector, show_deed());
            evaluation_asks(js, WorkState::ScrollTo { selector });
            showing_scrolls(selector);
            js
        },
        None => {
            let js = "(() => { window.scrollBy({top: "@ + scroll_sign(input) + " * "@ + cdp::signed(
                scroll_amount(input),
            ) + ", behavior: 'instant'}); return {ok:true, y: window.scrollY}; })()"@;
            evaluation_asks(js, WorkState::ScrollBy);
            reveal_strlit("(() => { window.scrollBy({top: ");
            reveal_strlit("(() => { ");
            reveal_strlit("window.scrollBy({top: ");
            reveal_strlit(" * ");
            reveal_strlit("-1");
            reveal_strlit("1");
            reveal_strlit("-1 * ");
            reveal_strlit("1 * ");
            reveal_strlit(", behavior: 'instant'}); return {ok:true, y: window.scrollY}; })()");
            reveal_strlit(",");
            reveal_strlit(" behavior: 'instant'}); ");
            reveal_strlit("return {ok:true, y: window.scrollY}");
            reveal_strlit("; })()");
            let sign = if up {
                "-1 * "@
            } else {
                "1 * "@
            };
            assert(sign =~= scroll_sign(input) + " * "@);
            let n = cdp::signed(scroll_amount(input));
            let a = "window.scrollBy({top: "@ + sign + n + ","@;
            let b = "return {ok:true, y: window.scrollY}"@;
            let gap = " behavior: 'instant'}); "@;
            text::lemma_holds_next(gap, b, "; })()"@, Seq::empty());
            let p1 = seq![b] + Seq::<Seq<char>>::empty();
            let r1 = gap + b + "; })()"@;
            text::lemma_holds_next("(() => { "@, a, r1, p1);
            assert("(() => { "@ + "window.scrollBy({top: "@ =~= "(() => { window.scrollBy({top: "@);
            assert(","@ + gap + b + "; })()"@
                =~= ", behavior: 'instant'}); return {ok:true, y: window.scrollY}; })()"@);
            assert("(() => { "@ + a + r1 =~= js);
            assert(seq![a] + p1 =~= seq![a, b]);
            assert(n == amount);
            js
        },
    }
}

/// A picture is taken as PNG, of the whole page just where that is asked for; of an element only
/// once the page has shown it.
pub proof fn pictures_are_taken(input: data::DataView, since: u64, shown: data::DataView, full: bool)
    requires
        full <==> input.field("full_page"@) == Some(data::DataView::Bool(true)),
    ensures
        input.text_field("selector"@) is None ==> takes_picture(
            first_step("screenshot"@, input, since),
            full,
        ),
        input.text_field("selector"@) matches Some(s) ==> exists|js: Seq<char>| #[trigger]
            asks_page(first_step("screenshot"@, input, since), js) && text::holds_in_order(
                js,
                lookup(s) + seq!["el.scrollIntoView("@, "return {ok:true}"@],
            ),
        input.text_field("selector"@) is Some && shown.field("ok"@) == Some(
            data::DataView::Bool(true),
        ) ==> takes_picture(
            computed_step(first_step("screenshot"@, input, since)->state, shown),
            full,
        ),
        input.text_field("selector"@) is Some && shown.field("ok"@) != Some(
            data::DataView::Bool(true),
        ) ==> computed_step(first_step("screenshot"@, input, since)->state, shown) is Fail,
{
    actions_differ();
    reveal_strlit("format");
    reveal_strlit("captureBeyondViewport");
    assert("format"@.len() != "captureBeyondViewport"@.len());
    reveal_with_fuel(data::entry_value, 3);
    let t = capture(full)->params->Table_0;
    assert(takes_picture(capture(full), full)) by {
        if full {
            assert(t.drop_first()[0] == t[1]);
        } else {
            assert(t.drop_first().len() == 0);
        }
    }
    if let Some(s) = input.text_field("selector"@) {
        let js = with_element(s, show_deed());
        evaluation_asks(js, WorkState::Locate { full_page: wants_full_page(input) });
        showing_scrolls(s);
        assert(asks_page(first_step("screenshot"@, input, since), js));
    }
}

pub open spec fn takes_picture(s: StepView, full: bool) -> bool {
    s matches WorkStep::Send { method, params, state } && method == "Page.captureScreenshot"@
        && params.text_field("format"@) == Some("png"@) && state is Capture && (full <==> params.field(
        "captureBeyondViewport"@,
    ) == Some(data::DataView::Bool(true)))
}

/// Opening a page asks for the address that was given, waits for that page to load and not for
/// one that loaded before, and fails with the browser's reason where it has one.
pub proof fn navigation_opens_the_page(
    input: data::DataView,
    since: u64,
    url: Seq<char>,
    resp: data::DataView,
    s: StepView,
)
    requires
        url.len() > 0,
        input.text_field("url"@) matches Some(u) && text::trim(u) == url,
        goes_on(first_step("navigate"@, input, since)->state, resp, s),
    ensures
        first_step("navigate"@, input, since) matches WorkStep::Send { method, params, .. } && method
            == "Page.navigate"@ && params.text_field("url"@) == Some(url),
        resp.text_field("errorText"@) is None ==> s == (StepView::WaitForLoad { url, since }),
        resp.text_field("errorText"@) matches Some(e) ==> s matches WorkStep::Fail { error }
            && error matches ToolError::Execution(m) && text::ends_with(m, e),
{
    let t = first_step("navigate"@, input, since)->params->Table_0;
    assert(t[0].0 == "url"@);
    if let Some(e) = resp.text_field("errorText"@) {
        let m = "导航失败: "@ + e;
        assert(m.skip(m.len() - e.len()) =~= e);
    }
}

/// An expression is handed to the page as it is, and its value is told as JSON; an exception that
/// it raises is an error and tells its description.
pub proof fn expressions_are_computed(
    input: data::DataView,
    since: u64,
    js: Seq<char>,
    resp: data::DataView,
    s: StepView,
)
    requires
        js.len() > 0,
        input.text_field("js"@) matches Some(x) && text::trim(x) == js,
        goes_on(first_step("evaluate"@, input, since)->state, resp, s),
    ensures
        asks_page(first_step("evaluate"@, input, since), js),
        match resp.field("exceptionDetails"@) {
            None => match resp.field("result"@) {
                Some(r) => match r.field("value"@) {
                    Some(v) => s == (StepView::Tell { told: json::json_lines(json::put_in(v)) }),
                    None => s is Tell,
                },
                None => s is Tell,
            },
            Some(d) => s matches WorkStep::Fail { error } && error matches ToolError::Execution(e) && (
            match d.field("exception"@) {
                Some(x) => match x.text_field("description"@) {
                    Some(m) => text::ends_with(e, m),
                    None => true,
                },
                None => true,
            }),
        },
{
    actions_differ();
    evaluation_asks(js, WorkState::Evaluate);
    if let Some(e) = exception(resp) {
        if let Some(d) = resp.field("exceptionDetails"@) {
            if let Some(x) = d.field("exception"@) {
                if let Some(m) = x.text_field("description"@) {
                    assert(e.skip(e.len() - m.len()) =~= m);
                }
            }
        }
    }
}

/// A click or a text is told as done only where the page says so, and then by its selector; where
/// it does not, that is an error with the page's reason.
pub proof fn deeds_are_done_where_the_page_says_so(
    fill: bool,
    selector: Seq<char>,
    resp: data::DataView,
    v: data::DataView,
    s: StepView,
)
    requires
        resp.field("exceptionDetails"@) is None,
        resp.field("result"@) matches Some(r) && r.field("value"@) == Some(v),
        goes_on(
            if fill {
                StateView::Fill { selector }
            } else {
                StateView::Click { selector }
            },
            resp,
            s,
        ),
    ensures
        v.field("ok"@) == Some(data::DataView::Bool(true)) ==> (s matches WorkStep::Tell { told }
            && text::holds_in_order(told, seq![selector])),
        v.field("ok"@) != Some(data::DataView::Bool(true)) ==> (s matches WorkStep::Fail { error }
            && error matches ToolError::Execution(e) && (v.text_field("reason"@) matches Some(m)
            ==> text::ends_with(e, m))),
{
    if v.field("ok"@) == Some(data::DataView::Bool(true)) {
        let told = s->told;
        let head = (if fill {
            "已填入 <"@
        } else {
            "已点击 <"@
        }) + text_or(v, "tag"@, Seq::empty()) + ">（"@;
        text::lemma_holds_next(head, selector, "）"@, Seq::empty());
        assert(seq![selector] + Seq::<Seq<char>>::empty() =~= seq![selector]);
    } else if let Some(m) = v.text_field("reason"@) {
        let e = (if fill {
            "text"@
        } else {
            "click"@
        }) + " 失败: "@ + m;
        assert(e.skip(e.len() - m.len()) =~= m);
    }
}

} // verus!
