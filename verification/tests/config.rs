use code_review_agent::config::{
    parse_u32_exec, parse_u32_or_default, ConfigError, Configuration, ModelOptions, RequestField,
};

fn config() -> Configuration {
    Configuration {
        api_key: "key".to_string(),
        api_endpoint: " https://openrouter.ai/api/v1/chat/completions ".to_string(),
        model: " z-ai/glm-5 ".to_string(),
        max_turns: 50,
        max_retries: 3,
        gitlab_token: Some("  ".to_string()),
        system_prompt_path: Some("".to_string()),
        model_options: ModelOptions { reasoning_effort: Some(" high ".to_string()), max_completion_tokens: None },
    }
}

#[test]
fn normalizing_trims_and_fills_in() {
    let c = config().normalized(Some("fallback".to_string())).ok().expect("valid");
    assert_eq!(c.api_endpoint, "https://openrouter.ai/api/v1/chat/completions");
    assert_eq!(c.model, "z-ai/glm-5");
    assert_eq!(c.gitlab_token.as_deref(), Some("fallback"));
    assert_eq!(c.system_prompt_path, None);
    assert_eq!(c.model_options.reasoning_effort.as_deref(), Some("high"));
    let again = c.clone().normalized(Some("fallback".to_string())).ok().expect("still valid");
    assert!(again == c);
}

#[test]
fn normalizing_refuses_missing_values() {
    let mut c = config();
    c.api_key = " ".to_string();
    assert_eq!(c.normalized(None).err(), Some(ConfigError::EmptyApiKey));
    let mut c = config();
    c.api_endpoint = "  ".to_string();
    assert_eq!(c.normalized(None).err(), Some(ConfigError::EmptyEndpoint));
    let mut c = config();
    c.model = "\t".to_string();
    assert_eq!(c.normalized(None).err(), Some(ConfigError::EmptyModel));
    let mut c = config();
    c.api_endpoint = "not a url".to_string();
    match c.normalized(None).err() {
        Some(ConfigError::InvalidEndpoint { endpoint, reason }) => {
            assert_eq!(endpoint, "not a url");
            assert!(!reason.is_empty());
        }
        other => panic!("unexpected: {other:?}"),
    }
    assert_eq!(
        ConfigError::EmptyModel.message(),
        "Model must not be empty. Please provide --model or set CODE_REVIEW_AGENT_MODEL."
    );
}

#[test]
fn numbers_parse_with_defaults() {
    assert_eq!(parse_u32_or_default::<50>(""), Ok(50));
    assert_eq!(parse_u32_or_default::<50>("  "), Ok(50));
    assert_eq!(parse_u32_or_default::<50>(" 7 "), Ok(7));
    assert_eq!(parse_u32_or_default::<50>("+7"), Ok(7));
    assert_eq!(parse_u32_or_default::<50>("4294967295"), Ok(u32::MAX));
    assert_eq!(
        parse_u32_or_default::<50>("4294967296"),
        Err("invalid numeric value: \"4294967296\"".to_string())
    );
    assert_eq!(parse_u32_or_default::<50>("x1"), Err("invalid numeric value: \"x1\"".to_string()));
    assert_eq!(parse_u32_exec("12"), Some(12));
    assert_eq!(parse_u32_exec("-1"), None);
}

#[test]
fn model_options_become_request_fields() {
    let o = ModelOptions { reasoning_effort: Some("high".to_string()), max_completion_tokens: Some(9) };
    assert_eq!(
        o.to_request_fields(),
        vec![RequestField::ReasoningEffort("high".to_string()), RequestField::MaxCompletionTokens(9)]
    );
    let o = ModelOptions { reasoning_effort: Some(" ".to_string()), max_completion_tokens: None };
    assert!(o.to_request_fields().is_empty());
}

#[test]
fn secrets_are_redacted() {
    let mut c = config();
    c.api_key = "s3cr3t".to_string();
    c.gitlab_token = Some("t0k3n".to_string());
    assert!(!c.redacted().contains("s3cr3t") && !c.redacted().contains("t0k3n"));
    assert_eq!(c.redacted(), "Configuration { api_key: \"<redacted>\", gitlab_token: Some(\"<redacted>\") }");
    let mut c = config();
    c.gitlab_token = None;
    assert_eq!(c.redacted(), "Configuration { api_key: \"<redacted>\", gitlab_token: None }");
}
