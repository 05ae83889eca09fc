//! Which model provider a task uses, and what it takes to start one.

use crate::digits::{self, number_text};
use crate::edge::budget::{self, edge_context_window, edge_infer_url};
use crate::edge::proxy::EdgeProxyConfig;
use crate::random::{self, edge_proxy_token};
use crate::text::{self, starts_with, strip_prefix, trimmed};
use vstd::prelude::*;

verus! {

/// The provider that the browser chose. The model is selected there; the connection is
/// made here.
pub enum OpenCodeProvider {
    Ollama { base_url: Option<String> },
    Edge { worker_url: String, owner_key: Option<String>, context_window: Option<usize> },
}

/// The provider of a task, ready for use.
pub enum TaskProvider {
    /// An Ollama server, where another than the default was named.
    Ollama { base_url: Option<String> },
    /// A running edge proxy.
    Edge { proxy_url: String, api_key: String },
}

/// What has to be done to get the provider of a task.
pub enum ProviderPlan {
    /// Nothing: it is an Ollama server.
    Ollama { base_url: Option<String> },
    /// An edge proxy for `model_id` has to be started.
    Edge {
        worker_url: String,
        owner_key: Option<String>,
        model_id: String,
        context_window: Option<usize>,
    },
}

/// A plan as a mathematical value.
pub enum PlanView {
    Ollama { base_url: Option<Seq<char>> },
    Edge {
        worker_url: Seq<char>,
        owner_key: Option<Seq<char>>,
        model_id: Seq<char>,
        context_window: Option<usize>,
    },
}

impl View for ProviderPlan {
    type V = PlanView;

    open spec fn view(&self) -> PlanView {
        match *self {
            ProviderPlan::Ollama { base_url } => PlanView::Ollama {
                base_url: text::opt_view(base_url),
            },
            ProviderPlan::Edge { worker_url, owner_key, model_id, context_window } => PlanView::Edge {
                worker_url: worker_url@,
                owner_key: text::opt_view(owner_key),
                model_id: model_id@,
                context_window,
            },
        }
    }
}

/// The first of two optional texts that is there.
pub open spec fn first_of(a: Option<Seq<char>>, b: Option<Seq<char>>) -> Option<Seq<char>> {
    match a {
        Some(t) => Some(t),
        None => b,
    }
}

/// The plan for a model and a choice of provider, or why they do not go together.
pub open spec fn plan_of(
    model: Seq<char>,
    ollama_base: Option<Seq<char>>,
    provider: Option<OpenCodeProvider>,
) -> Result<PlanView, Seq<char>> {
    match provider {
        Some(OpenCodeProvider::Ollama { base_url }) => if text::begins(model, "ollama/"@) {
            Ok(PlanView::Ollama { base_url: first_of(text::opt_view(base_url), ollama_base) })
        } else {
            Err("Ollama task provider requires an ollama/... model"@)
        },
        Some(OpenCodeProvider::Edge { worker_url, owner_key, context_window }) => match text::after_prefix(
            model,
            "rlm-edge/"@,
        ) {
            Some(model_id) => Ok(
                PlanView::Edge {
                    worker_url: worker_url@,
                    owner_key: text::opt_view(owner_key),
                    model_id,
                    context_window,
                },
            ),
            None => Err("edge task provider requires an rlm-edge/... model"@),
        },
        None => if text::begins(model, "ollama/"@) {
            Ok(PlanView::Ollama { base_url: ollama_base })
        } else {
            Err("no native OpenCode provider adapter was supplied for this model"@)
        },
    }
}

/// The plan for a model and a choice of provider. Without a choice only an Ollama model
/// has a provider.
pub fn resolve_task_provider(
    model: &str,
    ollama_base: Option<String>,
    provider: Option<OpenCodeProvider>,
) -> (plan: Result<ProviderPlan, String>)
    ensures
        match plan {
            Ok(p) => plan_of(model@, text::opt_view(ollama_base), provider) == Ok::<
                PlanView,
                Seq<char>,
            >(p@),
            Err(e) => plan_of(model@, text::opt_view(ollama_base), provider) == Err::<
                PlanView,
                Seq<char>,
            >(e@),
        },
{
    match provider {
        Some(OpenCodeProvider::Ollama { base_url }) => {
            if !starts_with(model, "ollama/") {
                return Err("Ollama task provider requires an ollama/... model".to_owned());
            }
            let base_url: Option<String> = match base_url {
                Some(b) => Some(b),
                None => ollama_base,
            };
            Ok(ProviderPlan::Ollama { base_url })
        },
        Some(OpenCodeProvider::Edge { worker_url, owner_key, context_window }) => match strip_prefix(
            model,
            "rlm-edge/",
        ) {
            Some(model_id) => Ok(
                ProviderPlan::Edge { worker_url, owner_key, model_id, context_window },
            ),
            None => Err("edge task provider requires an rlm-edge/... model".to_owned()),
        },
        None => if starts_with(model, "ollama/") {
            Ok(ProviderPlan::Ollama { base_url: ollama_base })
        } else {
            Err("no native OpenCode provider adapter was supplied for this model".to_owned())
        },
    }
}

// ---------------------------------------------------------------------------
// The owner's key
// ---------------------------------------------------------------------------

/// A key without white space around it, where anything is left of it.
pub open spec fn usable_key(key: Option<Seq<char>>) -> Option<Seq<char>> {
    match key {
        Some(k) => if text::trim(k).len() > 0 {
            Some(text::trim(k))
        } else {
            None
        },
        None => None,
    }
}

/// The owner's key for a worker, by where it comes from: the client, the two variables of
/// the environment, the key file.
pub open spec fn owner_key_of(
    client: Option<Seq<char>>,
    rlm_owner_infer_key: Option<Seq<char>>,
    owner_infer_key: Option<Seq<char>>,
    key_file: Option<Seq<char>>,
) -> Option<Seq<char>> {
    first_of(
        usable_key(client),
        first_of(
            usable_key(rlm_owner_infer_key),
            first_of(usable_key(owner_infer_key), usable_key(key_file)),
        ),
    )
}

/// A key without white space around it, where anything is left of it.
fn usable(key: Option<String>) -> (out: Option<String>)
    ensures
        text::opt_view(out) == usable_key(text::opt_view(key)),
{
    match key {
        Some(k) => {
            let t: String = trimmed(k.as_str());
            if t.as_str().is_empty() {
                None
            } else {
                Some(t)
            }
        },
        None => None,
    }
}

/// The owner's key for a worker: the client's, or else that of the environment (first
/// `RLM_OWNER_INFER_KEY`, then `OWNER_INFER_KEY`), or else that of the key file. A key
/// that is only white space does not count.
pub fn resolve_owner_infer_key(
    client: Option<String>,
    rlm_owner_infer_key: Option<String>,
    owner_infer_key: Option<String>,
    key_file: Option<String>,
) -> (key: Option<String>)
    ensures
        text::opt_view(key) == owner_key_of(
            text::opt_view(client),
            text::opt_view(rlm_owner_infer_key),
            text::opt_view(owner_infer_key),
            text::opt_view(key_file),
        ),
        text::opt_view(key) == first_of(
            usable_key(text::opt_view(client)),
            first_of(
                usable_key(text::opt_view(rlm_owner_infer_key)),
                first_of(
                    usable_key(text::opt_view(owner_infer_key)),
                    usable_key(text::opt_view(key_file)),
                ),
            ),
        ),
{
    if let Some(key) = usable(client) {
        return Some(key);
    }
    if let Some(key) = usable(rlm_owner_infer_key) {
        return Some(key);
    }
    if let Some(key) = usable(owner_infer_key) {
        return Some(key);
    }
    usable(key_file)
}

// ---------------------------------------------------------------------------
// Starting an edge proxy
// ---------------------------------------------------------------------------

/// Why an edge proxy cannot be started for a worker and a model.
pub open spec fn edge_refusal(worker_url: Seq<char>, model_id: Seq<char>) -> Option<Seq<char>> {
    match budget::infer_url_of(worker_url) {
        Err(e) => Some(e),
        Ok(_) => if text::trim(model_id).len() == 0 {
            Some("edge model id required"@)
        } else {
            None
        },
    }
}

/// Why an edge proxy cannot be started for a worker and a model.
pub fn check_edge_proxy(worker_url: &str, model_id: &str) -> (refusal: Option<String>)
    ensures
        text::opt_view(refusal) == edge_refusal(worker_url@, model_id@),
{
    if let Err(e) = edge_infer_url(worker_url) {
        return Some(e);
    }
    if trimmed(model_id).as_str().is_empty() {
        return Some("edge model id required".to_owned());
    }
    None
}

/// The configuration of an edge proxy with the key `api_key`.
pub fn edge_proxy_config(
    worker_url: String,
    owner_key: Option<String>,
    model_id: String,
    context_window: Option<usize>,
    api_key: String,
) -> (cfg: EdgeProxyConfig)
    ensures
        cfg.worker_url == worker_url,
        cfg.owner_key == owner_key,
        cfg.model_id == model_id,
        cfg.api_key == api_key,
        cfg.context_window == budget::window_of(context_window),
        cfg.context_window >= budget::EDGE_MIN_CONTEXT_WINDOW,
{
    EdgeProxyConfig {
        worker_url,
        owner_key,
        model_id,
        api_key,
        context_window: edge_context_window(context_window),
    }
}

/// The configuration of an edge proxy with a fresh random key, or why there is none: the
/// worker's address or the model will not do, or no random bytes could be had.
pub fn prepare_edge_proxy(
    worker_url: String,
    owner_key: Option<String>,
    model_id: String,
    context_window: Option<usize>,
) -> (cfg: Result<EdgeProxyConfig, String>)
    ensures
        match cfg {
            Ok(c) => {
                &&& edge_refusal(worker_url@, model_id@) is None
                &&& c.worker_url == worker_url
                &&& c.owner_key == owner_key
                &&& c.model_id == model_id
                &&& c.context_window == budget::window_of(context_window)
                &&& random::is_secret(c.api_key@, 24)
            },
            Err(e) => match edge_refusal(worker_url@, model_id@) {
                Some(refusal) => e@ == refusal,
                None => text::begins(e@, "edge proxy token: "@),
            },
        },
{
    if let Some(refusal) = check_edge_proxy(worker_url.as_str(), model_id.as_str()) {
        return Err(refusal);
    }
    match edge_proxy_token() {
        Ok(api_key) => Ok(
            edge_proxy_config(worker_url, owner_key, model_id, context_window, api_key),
        ),
        Err(e) => Err(e),
    }
}

/// The address at which OpenCode reaches a proxy that listens on `port`.
pub fn edge_base_url(port: u16) -> (url: String)
    ensures
        url@ == "http://127.0.0.1:"@ + digits::decimal(port as nat) + "/v1"@,
{
    let mut url: String = "http://127.0.0.1:".to_owned();
    url.append(number_text(port as u128).as_str());
    url.append("/v1");
    url
}

// ---------------------------------------------------------------------------
// Laws
// ---------------------------------------------------------------------------

/// A model is planned for the provider that was chosen where its name says so, and refused
/// where it does not; without a choice only Ollama's models are planned for.
pub proof fn law_plan_follows_the_choice(
    id: Seq<char>,
    model: Seq<char>,
    fallback: Option<Seq<char>>,
    provider: OpenCodeProvider,
)
    ensures
        plan_of("ollama/"@ + id, fallback, None) == Ok::<PlanView, Seq<char>>(
            PlanView::Ollama { base_url: fallback },
        ),
        !text::begins(model, "ollama/"@) ==> plan_of(model, fallback, None) is Err,
        provider matches OpenCodeProvider::Ollama { base_url } ==> {
            &&& base_url matches Some(b) ==> plan_of("ollama/"@ + id, fallback, Some(provider))
                == Ok::<PlanView, Seq<char>>(PlanView::Ollama { base_url: Some(b@) })
            &&& base_url is None ==> plan_of("ollama/"@ + id, fallback, Some(provider)) == Ok::<
                PlanView,
                Seq<char>,
            >(PlanView::Ollama { base_url: fallback })
            &&& !text::begins(model, "ollama/"@) ==> plan_of(model, fallback, Some(provider)) is Err
        },
        provider matches OpenCodeProvider::Edge { worker_url, owner_key, context_window } ==> {
            &&& plan_of("rlm-edge/"@ + id, fallback, Some(provider)) == Ok::<PlanView, Seq<char>>(
                PlanView::Edge {
                    worker_url: worker_url@,
                    owner_key: text::opt_view(owner_key),
                    model_id: id,
                    context_window,
                },
            )
            &&& !text::begins(model, "rlm-edge/"@) ==> plan_of(
                model,
                fallback,
                Some(provider),
            ) is Err
        },
{
    text::law_prefix("ollama/"@, id, model);
    text::law_prefix("rlm-edge/"@, id, model);
    if let Some(r) = text::after_prefix(model, "rlm-edge/"@) {
        text::law_prefix("rlm-edge/"@, r, model);
    }
}

/// White space around a key does not count, and a key of nothing else is none.
pub proof fn law_usable_key(a: Seq<char>, key: Seq<char>, b: Seq<char>)
    requires
        forall|i: int| 0 <= i < a.len() ==> text::is_space(#[trigger] a[i]),
        forall|i: int| 0 <= i < b.len() ==> text::is_space(#[trigger] b[i]),
        key.len() > 0 && !text::is_space(key[0]) && !text::is_space(key.last()),
    ensures
        usable_key(Some(a + key + b)) == Some(key),
        usable_key(Some(a)) is None,
        usable_key(None) is None,
{
    text::law_trimming(a, key, b, text::CharClass::Space);
    text::lemma_trim_start_skips(a, Seq::empty(), text::CharClass::Space);
    assert(a + Seq::<char>::empty() =~= a);
}

/// The client's key goes before those of the environment, and those before that of the file.
pub proof fn law_keys_have_an_order(
    client: Option<Seq<char>>,
    first: Option<Seq<char>>,
    second: Option<Seq<char>>,
    file: Option<Seq<char>>,
)
    ensures
        usable_key(client) is Some ==> owner_key_of(client, first, second, file) == usable_key(
            client,
        ),
        usable_key(client) is None && usable_key(first) is Some ==> owner_key_of(
            client,
            first,
            second,
            file,
        ) == usable_key(first),
        usable_key(client) is None && usable_key(first) is None && usable_key(second) is Some
            ==> owner_key_of(client, first, second, file) == usable_key(second),
        owner_key_of(None, None, None, file) == usable_key(file),
{
}

/// A proxy is started for a worker with an address and a model with a name, and for no other.
pub proof fn law_proxy_needs_both(base: Seq<char>, model_id: Seq<char>, blank: Seq<char>)
    requires
        text::begins(base, "https://"@) || text::begins(base, "http://"@),
        !text::is_space(base.last()) && base.last() != '/',
        !text::finishes(base, "/infer"@),
        model_id.len() > 0 && !text::is_space(model_id[0]) && !text::is_space(model_id.last()),
        forall|i: int| 0 <= i < blank.len() ==> text::is_space(#[trigger] blank[i]),
    ensures
        edge_refusal(base, model_id) is None,
        edge_refusal(base, blank) is Some,
        edge_refusal("worker.example"@, model_id) is Some,
{
    let e = Seq::<char>::empty();
    budget::law_infer_url(base);
    text::law_trimming(e, model_id, e, text::CharClass::Space);
    assert(e + model_id + e =~= model_id);
    text::lemma_trim_start_skips(blank, e, text::CharClass::Space);
    assert(blank + e =~= blank);
    let other = "worker.example"@;
    reveal_strlit("worker.example");
    reveal_strlit("https://");
    reveal_strlit("http://");
    text::law_white_space('w');
    text::law_white_space('e');
    assert(other[0] == 'w' && other.last() == 'e' && other.len() == 14);
    assert(other.subrange(0, 8)[0] == 'w' && other.subrange(0, 7)[0] == 'w');
    assert("https://"@[0] == 'h' && "http://"@[0] == 'h');
    budget::law_other_addresses_are_refused(other);
}

} // verus!
