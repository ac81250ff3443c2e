//! Which model providers an AI configuration asks for: the chat model and
//! the embedder, with the endpoint, model, key and embedding width of each,
//! or the reason the configuration cannot be used. The caller builds the
//! clients.

use vstd::prelude::*;
use crate::books::epub::opt_view;

verus! {

/// Where the models run.
#[derive(Debug, Clone, Copy, PartialEq, Eq, Structural)]
pub enum AiMode {
    Local,
    Cloud,
    /// Local embeddings, cloud chat model.
    Hybrid,
}

/// A kind of model provider.
#[derive(Debug, Clone, Copy, PartialEq, Eq, Structural)]
pub enum ProviderType {
    Ollama,
    OpenAiCompatible,
    /// Models run in process from downloaded files.
    HuggingFace,
    OpenAi,
    Anthropic,
}

/// The local provider settings.
#[derive(Debug, Clone)]
pub struct LocalAiConfig {
    pub provider: ProviderType,
    pub base_url: String,
    pub llm_model: String,
    pub embedding_model: String,
    pub api_key: Option<String>,
}

/// The cloud provider settings.
#[derive(Debug, Clone)]
pub struct CloudAiConfig {
    pub llm_provider: ProviderType,
    pub llm_model: String,
    pub llm_api_key: Option<String>,
    pub llm_base_url: Option<String>,
    pub embedding_provider: ProviderType,
    pub embedding_model: String,
    pub embedding_api_key: Option<String>,
    pub embedding_base_url: Option<String>,
}

/// The client to build for a model.
#[derive(Debug, Clone, Copy, PartialEq, Eq, Structural)]
pub enum Backend {
    Ollama,
    OpenAiCompatible,
    /// The in-process runtime, which reads its models from the whole
    /// configuration.
    Embedded,
    OpenAi,
    Anthropic,
}

/// One model client: its backend, endpoint, model, key and, for an
/// embedder, the width of its vectors (0 for a chat model).
#[derive(Debug, Clone)]
pub struct ProviderChoice {
    pub backend: Backend,
    pub base_url: Option<String>,
    pub model: String,
    pub api_key: Option<String>,
    pub dimensions: usize,
}

/// The clients a configuration asks for.
#[derive(Debug, Clone)]
pub struct ProviderPlan {
    pub llm: Option<ProviderChoice>,
    pub embedder: Option<ProviderChoice>,
}

/// The endpoint of an OpenAI-compatible server when none is configured.
pub const DEFAULT_COMPATIBLE_BASE_URL: &'static str = "http://localhost:8000/v1";

pub open spec fn choice_view(c: ProviderChoice) -> (Backend, Option<Seq<char>>, Seq<char>, Option<Seq<char>>, nat) {
    (c.backend, opt_view(c.base_url), c.model@, opt_view(c.api_key), c.dimensions as nat)
}

pub open spec fn opt_choice_view(c: Option<ProviderChoice>) -> Option<(Backend, Option<Seq<char>>, Seq<char>, Option<Seq<char>>, nat)> {
    match c {
        Some(c) => Some(choice_view(c)),
        None => None,
    }
}

pub open spec fn plan_view(p: ProviderPlan) -> (
    Option<(Backend, Option<Seq<char>>, Seq<char>, Option<Seq<char>>, nat)>,
    Option<(Backend, Option<Seq<char>>, Seq<char>, Option<Seq<char>>, nat)>,
) {
    (opt_choice_view(p.llm), opt_choice_view(p.embedder))
}

pub open spec fn embedded_choice() -> (Backend, Option<Seq<char>>, Seq<char>, Option<Seq<char>>, nat) {
    (Backend::Embedded, None, seq![], None, 0)
}

/// Local mode: Ollama (768-wide embeddings) or an OpenAI-compatible server
/// (1024-wide, with the local key) for both models; the in-process runtime
/// only in a build that has it; any other provider is refused.
pub open spec fn local_plan_spec(l: LocalAiConfig, embedded_runtime: bool) -> Result<
    (
        Option<(Backend, Option<Seq<char>>, Seq<char>, Option<Seq<char>>, nat)>,
        Option<(Backend, Option<Seq<char>>, Seq<char>, Option<Seq<char>>, nat)>,
    ),
    Seq<char>,
> {
    match l.provider {
        ProviderType::Ollama => Ok(
            (
                Some((Backend::Ollama, Some(l.base_url@), l.llm_model@, None, 0)),
                Some((Backend::Ollama, Some(l.base_url@), l.embedding_model@, None, 768)),
            ),
        ),
        ProviderType::OpenAiCompatible => Ok(
            (
                Some((Backend::OpenAiCompatible, Some(l.base_url@), l.llm_model@, opt_view(l.api_key), 0)),
                Some((Backend::OpenAiCompatible, Some(l.base_url@), l.embedding_model@, opt_view(l.api_key), 1024)),
            ),
        ),
        ProviderType::HuggingFace => if embedded_runtime {
            Ok((Some(embedded_choice()), Some(embedded_choice())))
        } else {
            Err(
                "Embedded Hugging Face local runtime requires building grafium-core with the `llm-local` (or `llm-local-vulkan`) Cargo feature enabled."@,
            )
        },
        _ => Err("Unsupported local provider"@),
    }
}

/// The local embedder of hybrid mode: Ollama or an OpenAI-compatible server,
/// none otherwise.
pub open spec fn hybrid_embedder_spec(l: LocalAiConfig) -> Option<(Backend, Option<Seq<char>>, Seq<char>, Option<Seq<char>>, nat)> {
    match l.provider {
        ProviderType::Ollama => Some((Backend::Ollama, Some(l.base_url@), l.embedding_model@, None, 768)),
        ProviderType::OpenAiCompatible => Some(
            (Backend::OpenAiCompatible, Some(l.base_url@), l.embedding_model@, opt_view(l.api_key), 1024),
        ),
        _ => None,
    }
}

/// The cloud chat model: OpenAI and Anthropic need a key; an
/// OpenAI-compatible server defaults to the local endpoint; other providers
/// give no chat model.
pub open spec fn cloud_llm_spec(c: CloudAiConfig) -> Result<Option<(Backend, Option<Seq<char>>, Seq<char>, Option<Seq<char>>, nat)>, Seq<char>> {
    match c.llm_provider {
        ProviderType::OpenAi => match c.llm_api_key {
            Some(k) => Ok(Some((Backend::OpenAi, None, c.llm_model@, Some(k@), 0))),
            None => Err("Missing OpenAI API key"@),
        },
        ProviderType::Anthropic => match c.llm_api_key {
            Some(k) => Ok(Some((Backend::Anthropic, None, c.llm_model@, Some(k@), 0))),
            None => Err("Missing Anthropic API key"@),
        },
        ProviderType::OpenAiCompatible => Ok(
            Some(
                (
                    Backend::OpenAiCompatible,
                    Some(
                        match c.llm_base_url {
                            Some(u) => u@,
                            None => DEFAULT_COMPATIBLE_BASE_URL@,
                        },
                    ),
                    c.llm_model@,
                    opt_view(c.llm_api_key),
                    0,
                ),
            ),
        ),
        _ => Ok(None),
    }
}

/// The embedding key: its own, else the chat model's.
pub open spec fn embed_key_spec(c: CloudAiConfig) -> Option<Seq<char>> {
    match c.embedding_api_key {
        Some(k) => Some(k@),
        None => opt_view(c.llm_api_key),
    }
}

/// The cloud embedder: OpenAI (1536-wide) needs a key; an OpenAI-compatible
/// server (1024-wide) takes its own endpoint, else the chat model's, else
/// the local default; other providers give no embedder.
pub open spec fn cloud_embedder_spec(c: CloudAiConfig) -> Result<Option<(Backend, Option<Seq<char>>, Seq<char>, Option<Seq<char>>, nat)>, Seq<char>> {
    match c.embedding_provider {
        ProviderType::OpenAi => match embed_key_spec(c) {
            Some(k) => Ok(Some((Backend::OpenAi, None, c.embedding_model@, Some(k), 1536))),
            None => Err("Missing OpenAI embedding API key"@),
        },
        ProviderType::OpenAiCompatible => Ok(
            Some(
                (
                    Backend::OpenAiCompatible,
                    Some(
                        match c.embedding_base_url {
                            Some(u) => u@,
                            None => match c.llm_base_url {
                                Some(u) => u@,
                                None => DEFAULT_COMPATIBLE_BASE_URL@,
                            },
                        },
                    ),
                    c.embedding_model@,
                    embed_key_spec(c),
                    1024,
                ),
            ),
        ),
        _ => Ok(None),
    }
}

/// The clients of a configuration, or the first reason it cannot be used
/// (the chat model is checked before the embedder). A mode whose settings
/// are absent asks for nothing.
pub open spec fn provider_plan_spec(
    mode: AiMode,
    local: Option<LocalAiConfig>,
    cloud: Option<CloudAiConfig>,
    embedded_runtime: bool,
) -> Result<
    (
        Option<(Backend, Option<Seq<char>>, Seq<char>, Option<Seq<char>>, nat)>,
        Option<(Backend, Option<Seq<char>>, Seq<char>, Option<Seq<char>>, nat)>,
    ),
    Seq<char>,
> {
    match mode {
        AiMode::Local => match local {
            Some(l) => local_plan_spec(l, embedded_runtime),
            None => Ok((None, None)),
        },
        AiMode::Cloud => match cloud {
            Some(c) => match cloud_llm_spec(c) {
                Err(e) => Err(e),
                Ok(llm) => match cloud_embedder_spec(c) {
                    Err(e) => Err(e),
                    Ok(emb) => Ok((llm, emb)),
                },
            },
            None => Ok((None, None)),
        },
        AiMode::Hybrid => {
            let emb = match local {
                Some(l) => hybrid_embedder_spec(l),
                None => None,
            };
            match cloud {
                Some(c) => match cloud_llm_spec(c) {
                    Err(e) => Err(e),
                    Ok(llm) => Ok((llm, emb)),
                },
                None => Ok((None, emb)),
            }
        },
    }
}

fn opt_owned(o: &Option<String>) -> (r: Option<String>)
    ensures
        opt_view(r) == opt_view(*o),
{
    match o {
        Some(s) => Some(crate::text::owned(s.as_str())),
        None => None,
    }
}

fn choice(backend: Backend, base_url: Option<String>, model: &str, api_key: Option<String>, dimensions: usize) -> (r: ProviderChoice)
    ensures
        choice_view(r) == (backend, opt_view(base_url), model@, opt_view(api_key), dimensions as nat),
{
    ProviderChoice { backend, base_url, model: crate::text::owned(model), api_key, dimensions }
}

fn embedded() -> (r: ProviderChoice)
    ensures
        choice_view(r) == embedded_choice(),
{
    let model = String::new();
    proof {
        assert(model@ =~= Seq::<char>::empty());
    }
    ProviderChoice { backend: Backend::Embedded, base_url: None, model, api_key: None, dimensions: 0 }
}

fn local_plan(l: &LocalAiConfig, embedded_runtime: bool) -> (r: Result<ProviderPlan, String>)
    ensures
        match r {
            Ok(p) => local_plan_spec(*l, embedded_runtime) == Ok::<_, Seq<char>>(plan_view(p)),
            Err(m) => local_plan_spec(*l, embedded_runtime) == Err::<(Option<(Backend, Option<Seq<char>>, Seq<char>, Option<Seq<char>>, nat)>, Option<(Backend, Option<Seq<char>>, Seq<char>, Option<Seq<char>>, nat)>), Seq<char>>(m@),
        },
{
    match l.provider {
        ProviderType::Ollama => {
            let llm = choice(Backend::Ollama, Some(crate::text::owned(l.base_url.as_str())), l.llm_model.as_str(), None, 0);
            let emb = choice(Backend::Ollama, Some(crate::text::owned(l.base_url.as_str())), l.embedding_model.as_str(), None, 768);
            Ok(ProviderPlan { llm: Some(llm), embedder: Some(emb) })
        },
        ProviderType::OpenAiCompatible => {
            let llm = choice(
                Backend::OpenAiCompatible,
                Some(crate::text::owned(l.base_url.as_str())),
                l.llm_model.as_str(),
                opt_owned(&l.api_key),
                0,
            );
            let emb = choice(
                Backend::OpenAiCompatible,
                Some(crate::text::owned(l.base_url.as_str())),
                l.embedding_model.as_str(),
                opt_owned(&l.api_key),
                1024,
            );
            Ok(ProviderPlan { llm: Some(llm), embedder: Some(emb) })
        },
        ProviderType::HuggingFace => {
            if embedded_runtime {
                Ok(ProviderPlan { llm: Some(embedded()), embedder: Some(embedded()) })
            } else {
                Err(
                    crate::text::owned(
                        "Embedded Hugging Face local runtime requires building grafium-core with the `llm-local` (or `llm-local-vulkan`) Cargo feature enabled.",
                    ),
                )
            }
        },
        _ => Err(crate::text::owned("Unsupported local provider")),
    }
}

fn hybrid_embedder(l: &LocalAiConfig) -> (r: Option<ProviderChoice>)
    ensures
        opt_choice_view(r) == hybrid_embedder_spec(*l),
{
    match l.provider {
        ProviderType::Ollama => Some(
            choice(Backend::Ollama, Some(crate::text::owned(l.base_url.as_str())), l.embedding_model.as_str(), None, 768),
        ),
        ProviderType::OpenAiCompatible => Some(
            choice(
                Backend::OpenAiCompatible,
                Some(crate::text::owned(l.base_url.as_str())),
                l.embedding_model.as_str(),
                opt_owned(&l.api_key),
                1024,
            ),
        ),
        _ => None,
    }
}

fn cloud_llm(c: &CloudAiConfig) -> (r: Result<Option<ProviderChoice>, String>)
    ensures
        match r {
            Ok(x) => cloud_llm_spec(*c) == Ok::<_, Seq<char>>(opt_choice_view(x)),
            Err(m) => cloud_llm_spec(*c) == Err::<Option<(Backend, Option<Seq<char>>, Seq<char>, Option<Seq<char>>, nat)>, Seq<char>>(m@),
        },
{
    match c.llm_provider {
        ProviderType::OpenAi => match &c.llm_api_key {
            Some(k) => Ok(Some(choice(Backend::OpenAi, None, c.llm_model.as_str(), Some(crate::text::owned(k.as_str())), 0))),
            None => Err(crate::text::owned("Missing OpenAI API key")),
        },
        ProviderType::Anthropic => match &c.llm_api_key {
            Some(k) => Ok(Some(choice(Backend::Anthropic, None, c.llm_model.as_str(), Some(crate::text::owned(k.as_str())), 0))),
            None => Err(crate::text::owned("Missing Anthropic API key")),
        },
        ProviderType::OpenAiCompatible => {
            let base = match &c.llm_base_url {
                Some(u) => crate::text::owned(u.as_str()),
                None => crate::text::owned(DEFAULT_COMPATIBLE_BASE_URL),
            };
            Ok(Some(choice(Backend::OpenAiCompatible, Some(base), c.llm_model.as_str(), opt_owned(&c.llm_api_key), 0)))
        },
        _ => Ok(None),
    }
}

fn cloud_embedder(c: &CloudAiConfig) -> (r: Result<Option<ProviderChoice>, String>)
    ensures
        match r {
            Ok(x) => cloud_embedder_spec(*c) == Ok::<_, Seq<char>>(opt_choice_view(x)),
            Err(m) => cloud_embedder_spec(*c) == Err::<Option<(Backend, Option<Seq<char>>, Seq<char>, Option<Seq<char>>, nat)>, Seq<char>>(m@),
        },
{
    let key = match &c.embedding_api_key {
        Some(k) => Some(crate::text::owned(k.as_str())),
        None => opt_owned(&c.llm_api_key),
    };
    assert(opt_view(key) == embed_key_spec(*c));
    match c.embedding_provider {
        ProviderType::OpenAi => match key {
            Some(k) => Ok(Some(choice(Backend::OpenAi, None, c.embedding_model.as_str(), Some(k), 1536))),
            None => Err(crate::text::owned("Missing OpenAI embedding API key")),
        },
        ProviderType::OpenAiCompatible => {
            let base = match &c.embedding_base_url {
                Some(u) => crate::text::owned(u.as_str()),
                None => match &c.llm_base_url {
                    Some(u) => crate::text::owned(u.as_str()),
                    None => crate::text::owned(DEFAULT_COMPATIBLE_BASE_URL),
                },
            };
            Ok(Some(choice(Backend::OpenAiCompatible, Some(base), c.embedding_model.as_str(), key, 1024)))
        },
        _ => Ok(None),
    }
}

/// The clients an AI configuration asks for, or why it cannot be used.
/// `embedded_runtime` says whether this build carries the in-process model
/// runtime.
pub fn provider_plan(
    mode: AiMode,
    local: &Option<LocalAiConfig>,
    cloud: &Option<CloudAiConfig>,
    embedded_runtime: bool,
) -> (r: Result<ProviderPlan, String>)
    ensures
        match r {
            Ok(p) => provider_plan_spec(mode, *local, *cloud, embedded_runtime) == Ok::<_, Seq<char>>(plan_view(p)),
            Err(m) => provider_plan_spec(mode, *local, *cloud, embedded_runtime) == Err::<(Option<(Backend, Option<Seq<char>>, Seq<char>, Option<Seq<char>>, nat)>, Option<(Backend, Option<Seq<char>>, Seq<char>, Option<Seq<char>>, nat)>), Seq<char>>(m@),
        },
{
    match mode {
        AiMode::Local => match local {
            Some(l) => local_plan(l, embedded_runtime),
            None => Ok(ProviderPlan { llm: None, embedder: None }),
        },
        AiMode::Cloud => match cloud {
            Some(c) => {
                let llm = match cloud_llm(c) {
                    Ok(x) => x,
                    Err(e) => return Err(e),
                };
                let emb = match cloud_embedder(c) {
                    Ok(x) => x,
                    Err(e) => return Err(e),
                };
                Ok(ProviderPlan { llm, embedder: emb })
            },
            None => Ok(ProviderPlan { llm: None, embedder: None }),
        },
        AiMode::Hybrid => {
            let emb = match local {
                Some(l) => hybrid_embedder(l),
                None => None,
            };
            match cloud {
                Some(c) => {
                    let llm = match cloud_llm(c) {
                        Ok(x) => x,
                        Err(e) => return Err(e),
                    };
                    Ok(ProviderPlan { llm, embedder: emb })
                },
                None => Ok(ProviderPlan { llm: None, embedder: emb }),
            }
        },
    }
}

} // verus!
