use grafium_core::providers::{
    provider_plan, AiMode, Backend, CloudAiConfig, LocalAiConfig, ProviderChoice, ProviderType,
};

fn local(provider: ProviderType, key: Option<&str>) -> LocalAiConfig {
    LocalAiConfig {
        provider,
        base_url: "http://127.0.0.1:11434".to_string(),
        llm_model: "chat".to_string(),
        embedding_model: "embed".to_string(),
        api_key: key.map(String::from),
    }
}

fn cloud(llm: ProviderType, embed: ProviderType) -> CloudAiConfig {
    CloudAiConfig {
        llm_provider: llm,
        llm_model: "big".to_string(),
        llm_api_key: None,
        llm_base_url: None,
        embedding_provider: embed,
        embedding_model: "vec".to_string(),
        embedding_api_key: None,
        embedding_base_url: None,
    }
}

type View = (Backend, Option<String>, String, Option<String>, usize);

fn view(c: &Option<ProviderChoice>) -> Option<View> {
    c.as_ref()
        .map(|c| (c.backend, c.base_url.clone(), c.model.clone(), c.api_key.clone(), c.dimensions))
}

#[test]
fn local_providers_give_both_models() {
    let p = provider_plan(AiMode::Local, &Some(local(ProviderType::Ollama, None)), &None, false).unwrap();
    assert_eq!(view(&p.llm), Some((Backend::Ollama, Some("http://127.0.0.1:11434".to_string()), "chat".to_string(), None, 0)));
    assert_eq!(view(&p.embedder), Some((Backend::Ollama, Some("http://127.0.0.1:11434".to_string()), "embed".to_string(), None, 768)));
    let p = provider_plan(AiMode::Local, &Some(local(ProviderType::OpenAiCompatible, Some("k"))), &None, false).unwrap();
    assert_eq!(view(&p.embedder).unwrap().4, 1024);
    assert_eq!(view(&p.llm).unwrap().3, Some("k".to_string()));
    assert_eq!(
        provider_plan(AiMode::Local, &Some(local(ProviderType::OpenAi, None)), &None, false).err(),
        Some("Unsupported local provider".to_string())
    );
    assert!(provider_plan(AiMode::Local, &Some(local(ProviderType::HuggingFace, None)), &None, false)
        .unwrap_err()
        .starts_with("Embedded Hugging Face local runtime requires"));
    let p = provider_plan(AiMode::Local, &Some(local(ProviderType::HuggingFace, None)), &None, true).unwrap();
    assert_eq!(view(&p.llm).unwrap().0, Backend::Embedded);
    let p = provider_plan(AiMode::Local, &None, &None, false).unwrap();
    assert!(p.llm.is_none() && p.embedder.is_none());
}

#[test]
fn cloud_providers_need_their_keys() {
    let c = cloud(ProviderType::OpenAi, ProviderType::OpenAi);
    assert_eq!(provider_plan(AiMode::Cloud, &None, &Some(c.clone()), false).err(), Some("Missing OpenAI API key".to_string()));
    let c = cloud(ProviderType::Anthropic, ProviderType::OpenAi);
    assert_eq!(provider_plan(AiMode::Cloud, &None, &Some(c), false).err(), Some("Missing Anthropic API key".to_string()));
    let c = cloud(ProviderType::OpenAiCompatible, ProviderType::OpenAi);
    assert_eq!(provider_plan(AiMode::Cloud, &None, &Some(c), false).err(), Some("Missing OpenAI embedding API key".to_string()));
    let mut c = cloud(ProviderType::Anthropic, ProviderType::OpenAi);
    c.llm_api_key = Some("shared".to_string());
    let p = provider_plan(AiMode::Cloud, &None, &Some(c), false).unwrap();
    assert_eq!(view(&p.llm), Some((Backend::Anthropic, None, "big".to_string(), Some("shared".to_string()), 0)));
    assert_eq!(view(&p.embedder), Some((Backend::OpenAi, None, "vec".to_string(), Some("shared".to_string()), 1536)));
}

#[test]
fn compatible_servers_default_to_the_local_endpoint() {
    let c = cloud(ProviderType::OpenAiCompatible, ProviderType::OpenAiCompatible);
    let p = provider_plan(AiMode::Cloud, &None, &Some(c.clone()), false).unwrap();
    assert_eq!(view(&p.llm).unwrap().1, Some("http://localhost:8000/v1".to_string()));
    assert_eq!(view(&p.embedder).unwrap().1, Some("http://localhost:8000/v1".to_string()));
    assert_eq!(view(&p.embedder).unwrap().4, 1024);
    let mut c2 = c;
    c2.llm_base_url = Some("http://llm".to_string());
    let p = provider_plan(AiMode::Cloud, &None, &Some(c2.clone()), false).unwrap();
    assert_eq!(view(&p.embedder).unwrap().1, Some("http://llm".to_string()));
    c2.embedding_base_url = Some("http://emb".to_string());
    let p = provider_plan(AiMode::Cloud, &None, &Some(c2), false).unwrap();
    assert_eq!(view(&p.embedder).unwrap().1, Some("http://emb".to_string()));
}

#[test]
fn hybrid_takes_local_embeddings_and_a_cloud_model() {
    let mut c = cloud(ProviderType::OpenAi, ProviderType::OpenAi);
    c.llm_api_key = Some("k".to_string());
    let p = provider_plan(AiMode::Hybrid, &Some(local(ProviderType::Ollama, None)), &Some(c), false).unwrap();
    assert_eq!(view(&p.llm).unwrap().0, Backend::OpenAi);
    assert_eq!(view(&p.embedder).unwrap().0, Backend::Ollama);
    let p = provider_plan(AiMode::Hybrid, &Some(local(ProviderType::HuggingFace, None)), &None, false).unwrap();
    assert!(p.llm.is_none() && p.embedder.is_none());
}
