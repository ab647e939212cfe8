//! Changing the model of a running session.
use vstd::prelude::*;

use crate::data;
use crate::data::Data;
use crate::manage;
use crate::say;
use crate::say::{just, msg, Output};
use crate::text::copy_text;

verus! {

/// A model as the configuration has it, with everything that comes from elsewhere put in.
#[derive(Debug)]
pub struct SwitchProfile {
    pub id: String,
    pub api: String,
    pub auth: String,
    pub base_url: String,
    /// The key in the configuration, with the environment put in.
    pub inline_key: String,
    pub max_input_tokens: usize,
    pub max_output_tokens: Option<usize>,
    pub headers: Vec<(String, String)>,
    pub extra_body: Data,
    pub tokenizer: Option<String>,
    pub quirks: Data,
}

/// A model as the agent uses it.
#[derive(Debug)]
pub struct Model {
    pub id: String,
    pub provider: String,
    pub api: String,
    pub max_input_tokens: usize,
    pub max_output_tokens: usize,
    pub supports_tools: bool,
    pub supports_streaming: bool,
    pub supports_thinking: bool,
    pub extra_body: Data,
    pub tokenizer: Option<String>,
}

/// What goes with each call of a provider.
#[derive(Debug)]
pub struct CallContext {
    pub api_key: Option<String>,
    pub base_url: Option<String>,
    pub max_in_flight: Option<usize>,
    pub headers: Vec<(String, String)>,
    pub quirks: Data,
    pub auth: String,
}

/// The model of a session.
#[derive(Debug)]
pub struct ModelState {
    pub api_key: String,
    pub base_url: String,
    pub max_output: usize,
    pub model: Model,
    pub provider_ctx: CallContext,
}

/// The key that is used: the one that was found, or else the one in the configuration.
pub open spec fn chosen_key(found: Seq<char>, inline: Seq<char>) -> Seq<char> {
    if found.len() == 0 {
        inline
    } else {
        found
    }
}

pub open spec fn output_limit(p: SwitchProfile) -> usize {
    match p.max_output_tokens {
        Some(n) => n,
        None => 4096,
    }
}

/// The session uses this model with this key.
pub open spec fn uses(s: ModelState, p: SwitchProfile, found: Seq<char>, thinking: bool) -> bool {
    &&& s.api_key@ == chosen_key(found, p.inline_key@)
    &&& s.base_url@ == p.base_url@
    &&& s.max_output == output_limit(p)
    &&& s.model.id@ == p.id@
    &&& s.model.provider@ == "openai-compatible"@
    &&& s.model.api@ == p.api@
    &&& s.model.max_input_tokens == p.max_input_tokens
    &&& s.model.max_output_tokens == output_limit(p)
    &&& s.model.supports_tools
    &&& s.model.supports_streaming
    &&& s.model.supports_thinking == thinking
    &&& s.model.extra_body@ == p.extra_body@
    &&& manage::opt_text(s.model.tokenizer) == manage::opt_text(p.tokenizer)
    &&& manage::opt_text(s.provider_ctx.api_key) == Some(s.api_key@)
    &&& manage::opt_text(s.provider_ctx.base_url) == Some(p.base_url@)
    &&& s.provider_ctx.max_in_flight is None
    &&& manage::pair_texts(s.provider_ctx.headers@) == manage::pair_texts(p.headers@)
    &&& s.provider_ctx.quirks@ == p.quirks@
    &&& s.provider_ctx.auth@ == p.auth@
}

pub fn copy_pairs(v: &Vec<(String, String)>) -> (r: Vec<(String, String)>)
    ensures
        manage::pair_texts(r@) == manage::pair_texts(v@),
{
    let mut r: Vec<(String, String)> = Vec::new();
    let mut i: usize = 0;
    while i < v.len()
        invariant
            i <= v.len(),
            manage::pair_texts(r@) == manage::pair_texts(v@).take(i as int),
        decreases v.len() - i,
    {
        let ghost before = r@;
        let ghost pair = (v@[i as int].0@, v@[i as int].1@);
        r.push((copy_text(&v[i].0), copy_text(&v[i].1)));
        assert(manage::pair_texts(r@) =~= manage::pair_texts(before).push(pair));
        i = i + 1;
        assert(manage::pair_texts(r@) =~= manage::pair_texts(v@).take(i as int));
    }
    assert(manage::pair_texts(r@) =~= manage::pair_texts(v@));
    r
}

/// The model that a name stands for: one with that name, or else the one with that role.
pub open spec fn resolved(by_name: Option<SwitchProfile>, by_role: Option<SwitchProfile>) -> Option<
    SwitchProfile,
> {
    if by_name is Some {
        by_name
    } else {
        by_role
    }
}

/// Changes the model of a session to the one that a name or a role stands for, with the
/// key that was found for it. Where there is none, nothing changes and `not_found` is said.
pub fn apply_model_switch(
    by_name: &Option<SwitchProfile>,
    by_role: &Option<SwitchProfile>,
    not_found: &str,
    found_key: &str,
    thinking: bool,
    state: &mut ModelState,
) -> (r: (bool, Output))
    ensures
        match resolved(*by_name, *by_role) {
            Some(p) => r.0 && uses(*final(state), p, found_key@, thinking) && r.1@
                == say::silence(),
            None => !r.0 && *final(state) == *old(state) && r.1@ == say::said(
                say::entry("model.switch_failed"@).arg("e"@, not_found@),
            ),
        },
{
    let p = match by_name {
        Some(p) => p,
        None => match by_role {
            Some(p) => p,
            None => {
                return (false, just(msg("model.switch_failed").arg("e", not_found)));
            },
        },
    };
    let key = if found_key.is_empty() {
        copy_text(&p.inline_key)
    } else {
        copy_text(found_key)
    };
    let max_output: usize = match p.max_output_tokens {
        Some(n) => n,
        None => 4096,
    };
    let tokenizer = match &p.tokenizer {
        Some(t) => Some(copy_text(t)),
        None => None,
    };
    let model = Model {
        id: copy_text(&p.id),
        provider: copy_text("openai-compatible"),
        api: copy_text(&p.api),
        max_input_tokens: p.max_input_tokens,
        max_output_tokens: max_output,
        supports_tools: true,
        supports_streaming: true,
        supports_thinking: thinking,
        extra_body: p.extra_body.copy(),
        tokenizer,
    };
    let provider_ctx = CallContext {
        api_key: Some(copy_text(&key)),
        base_url: Some(copy_text(&p.base_url)),
        max_in_flight: None,
        headers: copy_pairs(&p.headers),
        quirks: p.quirks.copy(),
        auth: copy_text(&p.auth),
    };
    *state = ModelState {
        api_key: key,
        base_url: copy_text(&p.base_url),
        max_output,
        model,
        provider_ctx,
    };
    (true, Output::new())
}

} // verus!
