use vstd::prelude::*;

use crate::agent::client::opt_text;
use crate::text::{
    copy_str, is_blank, is_blank_str, is_white_space, lemma_trim_empty_iff_blank,
    lemma_trim_idempotent, push_str, to_chars, trim, trim_bounds, trimmed,
};

verus! {

/// Configuration for the code review agent.
///
/// Values can be set via CLI flags or `CODE_REVIEW_AGENT_*` environment variables.
/// CLI flags take precedence over env vars, which take precedence over defaults.
/// (No `Debug`: the API key and the GitLab token must not be printed.)
#[derive(Clone, PartialEq, Eq)]
pub struct Configuration {
    /// API key sent in the `Authorization` header
    pub api_key: String,
    /// OpenAI API compatible endpoint, e.g. `https://openrouter.ai/api/v1/chat/completions`
    pub api_endpoint: String,
    /// Model to use for code review, e.g. `z-ai/glm-5.2`
    pub model: String,
    /// Maximum number of turns the agent can take before the program exits
    pub max_turns: u32,
    /// Maximum number of retries for a failed provider request within a single turn.
    /// The first attempt is not counted; `0` disables retries.
    pub max_retries: u32,
    /// Optional GitLab access token used to post the review as an MR comment.
    pub gitlab_token: Option<String>,
    /// Optional path to a file containing the system prompt.
    pub system_prompt_path: Option<String>,
    /// Extra arguments passed to the model provider in the request body.
    pub model_options: ModelOptions,
}

/// Model-specific options that are merged into the request body sent to the provider.
#[derive(Debug, Clone, Default, PartialEq, Eq)]
pub struct ModelOptions {
    /// Reasoning effort for the model, e.g. `low`, `medium`, `high` or other model-specific values
    pub reasoning_effort: Option<String>,
    /// Maximum number of tokens the model may generate
    pub max_completion_tokens: Option<u32>,
}

/// A field merged into the request body sent to the provider.
#[derive(Debug, Clone, PartialEq, Eq)]
pub enum RequestField {
    /// `"reasoning": { "effort": <effort> }`
    ReasoningEffort(String),
    /// `"max_completion_tokens": <n>`
    MaxCompletionTokens(u32),
}

impl ModelOptions {
    /// The request fields for these options, in order: the reasoning effort
    /// when it is set and not blank (as given), then the completion-token
    /// limit when it is set.
    pub fn to_request_fields(&self) -> (fields: Vec<RequestField>)
        ensures
            ({
                let has_effort = self.reasoning_effort is Some && !is_blank(
                    self.reasoning_effort->0@,
                );
                let has_max = self.max_completion_tokens is Some;
                &&& fields@.len() == (if has_effort { 1int } else { 0int }) + (if has_max {
                    1int
                } else {
                    0int
                })
                &&& has_effort ==> (fields@[0] matches RequestField::ReasoningEffort(e) && e@
                    == self.reasoning_effort->0@)
                &&& has_max ==> fields@.last() == RequestField::MaxCompletionTokens(
                    self.max_completion_tokens->0,
                )
            }),
    {
        let mut fields: Vec<RequestField> = Vec::new();
        if let Some(effort) = &self.reasoning_effort {
            if !is_blank_str(effort.as_str()) {
                fields.push(RequestField::ReasoningEffort(effort.clone()));
            }
        }
        if let Some(n) = self.max_completion_tokens {
            fields.push(RequestField::MaxCompletionTokens(n));
        }
        fields
    }
}

// ---------------------------------------------------------------------------
// Numbers given on the command line or in the environment
// ---------------------------------------------------------------------------

/// Whether `c` is an ASCII decimal digit.
pub open spec fn is_digit(c: char) -> bool {
    '0' <= c && c <= '9'
}

/// The value of a string of decimal digits.
pub open spec fn digits_value(s: Seq<char>) -> nat
    decreases s.len(),
{
    if s.len() == 0 {
        0
    } else {
        digits_value(s.drop_last()) * 10 + ((s.last() as u32) - ('0' as u32)) as nat
    }
}

/// What `str::parse::<u32>` accepts: an optional `+` followed by at least
/// one ASCII digit, with a value that fits in `u32`.
pub open spec fn parse_u32(s: Seq<char>) -> Option<u32> {
    let digits = unsigned_digits(s);
    if digits.len() == 0 || !all_digits(digits) {
        None
    } else if digits_value(digits) > u32::MAX {
        None
    } else {
        Some(digits_value(digits) as u32)
    }
}

/// `s` without a leading `+`.
pub open spec fn unsigned_digits(s: Seq<char>) -> Seq<char> {
    if s.len() > 0 && s[0] == '+' {
        s.skip(1)
    } else {
        s
    }
}

/// Every character of `s` is an ASCII digit.
pub open spec fn all_digits(s: Seq<char>) -> bool {
    forall|i: int| 0 <= i < s.len() ==> is_digit(#[trigger] s[i])
}

/// A longer digit string is worth at least as much as its prefix.
proof fn lemma_digits_value_prefix(s: Seq<char>, i: int)
    requires
        0 <= i <= s.len(),
        forall|k: int| 0 <= k < s.len() ==> is_digit(#[trigger] s[k]),
    ensures
        digits_value(s.take(i)) <= digits_value(s),
    decreases s.len() - i,
{
    if i < s.len() {
        lemma_digits_value_prefix(s, i + 1);
        assert(s.take(i + 1).drop_last() == s.take(i));
    } else {
        assert(s.take(i) == s);
    }
}

/// What `text.parse::<u32>()` gives (see `parse_u32`).
pub fn parse_u32_exec(text: &str) -> (r: Option<u32>)
    ensures
        r == parse_u32(text@),
{
    let v = to_chars(text);
    let start: usize = if v.len() > 0 && v[0] == '+' {
        1
    } else {
        0
    };
    let ghost digits = if text@.len() > 0 && text@[0] == '+' {
        text@.skip(1)
    } else {
        text@
    };
    assert(digits == v@.skip(start as int));
    if start == v.len() {
        return None;
    }
    let mut acc: u64 = 0;
    let mut i = start;
    while i < v.len()
        invariant
            start <= i <= v.len(),
            v@ == text@,
            digits == unsigned_digits(text@),
            digits.len() > 0,
            start == (if text@.len() > 0 && text@[0] == '+' { 1usize } else { 0usize }),
            digits == v@.skip(start as int),
            forall|k: int| start <= k < i ==> is_digit(#[trigger] v@[k]),
            acc == digits_value(v@.subrange(start as int, i as int)),
            acc <= u32::MAX,
        decreases v.len() - i,
    {
        let c = v[i];
        if !('0' <= c && c <= '9') {
            assert(digits[i - start] == v@[i as int]);
            assert(!is_digit(digits[i - start]));
            return None;
        }
        assert(v@.subrange(start as int, i + 1).drop_last() == v@.subrange(start as int, i as int));
        let d = (c as u32 - '0' as u32) as u64;
        acc = acc * 10 + d;
        if acc > 4294967295 {
            proof {
                if all_digits(digits) {
                    lemma_digits_value_prefix(digits, i + 1 - start);
                    assert(digits.take(i + 1 - start) == v@.subrange(start as int, i + 1));
                }
            }
            return None;
        }
        i = i + 1;
    }
    assert(v@.subrange(start as int, v.len() as int) == digits);
    Some(acc as u32)
}


/// What `format!("{:?}", s)` gives for a string: the quoted, escaped form.
pub uninterp spec fn debug_quoted(s: Seq<char>) -> Seq<char>;

/// The `Debug` form of a string (via `format!("{:?}", ..)`); the result is
/// `debug_quoted(s@)`.
#[verifier::external_body]
fn debug_str(s: &str) -> (r: String)
    ensures
        r@ == debug_quoted(s@),
{
    format!("{:?}", s)
}

/// Parses a numeric value, treating empty or whitespace-only input as `DEFAULT`.
pub fn parse_u32_or_default<const DEFAULT: u32>(s: &str) -> (r: Result<u32, String>)
    ensures
        ({
            let t = trim(s@);
            if t.len() == 0 {
                r == Ok::<u32, String>(DEFAULT)
            } else {
                match parse_u32(t) {
                    Some(n) => r == Ok::<u32, String>(n),
                    None => r matches Err(m) && m@ == "invalid numeric value: "@ + debug_quoted(t),
                }
            }
        }),
{
    let t = trimmed(s);
    if t.as_str().is_empty() {
        Ok(DEFAULT)
    } else {
        match parse_u32_exec(t.as_str()) {
            Some(n) => Ok(n),
            None => {
                let mut m = copy_str("invalid numeric value: ");
                let q = debug_str(t.as_str());
                push_str(&mut m, q.as_str());
                Err(m)
            },
        }
    }
}

// ---------------------------------------------------------------------------
// Normalizing the configuration
// ---------------------------------------------------------------------------

/// What `Url::parse` reports for a text: `None` when it parses, otherwise
/// the error's message.
pub uninterp spec fn url_parse_error(s: Seq<char>) -> Option<Seq<char>>;

/// Parses `s` as a URL (reqwest's `Url::parse`); returns `None` when it
/// parses and the error's text otherwise, that is `url_parse_error(s@)`.
#[verifier::external_body]
fn check_url(s: &str) -> (r: Option<String>)
    ensures
        opt_text(r) == url_parse_error(s@),
{
    match reqwest::Url::parse(s) {
        Ok(_) => None,
        Err(e) => Some(e.to_string()),
    }
}

/// Why a configuration was refused.
#[derive(Debug, Clone, PartialEq, Eq)]
pub enum ConfigError {
    EmptyApiKey,
    EmptyEndpoint,
    /// The endpoint (trimmed) and the URL parser's reason.
    InvalidEndpoint { endpoint: String, reason: String },
    EmptyModel,
}

/// The message of a configuration error.
pub open spec fn config_error_text(e: ConfigError) -> Seq<char> {
    match e {
        ConfigError::EmptyApiKey => "API key must not be empty. Please provide --api-key or set CODE_REVIEW_AGENT_API_KEY."@,
        ConfigError::EmptyEndpoint => "API endpoint must not be empty. Please provide --api-endpoint or set CODE_REVIEW_AGENT_API_ENDPOINT."@,
        ConfigError::InvalidEndpoint { endpoint, reason } => "API endpoint '"@ + endpoint@ + "' is not a valid URL: "@ + reason@,
        ConfigError::EmptyModel => "Model must not be empty. Please provide --model or set CODE_REVIEW_AGENT_MODEL."@,
    }
}

impl ConfigError {
    /// The message reported for this error.
    pub fn message(&self) -> (m: String)
        ensures
            m@ == config_error_text(*self),
    {
        match self {
            ConfigError::EmptyApiKey => copy_str(
                "API key must not be empty. Please provide --api-key or set CODE_REVIEW_AGENT_API_KEY.",
            ),
            ConfigError::EmptyEndpoint => copy_str(
                "API endpoint must not be empty. Please provide --api-endpoint or set CODE_REVIEW_AGENT_API_ENDPOINT.",
            ),
            ConfigError::InvalidEndpoint { endpoint, reason } => {
                let mut m = copy_str("API endpoint '");
                push_str(&mut m, endpoint.as_str());
                push_str(&mut m, "' is not a valid URL: ");
                push_str(&mut m, reason.as_str());
                m
            },
            ConfigError::EmptyModel => copy_str(
                "Model must not be empty. Please provide --model or set CODE_REVIEW_AGENT_MODEL.",
            ),
        }
    }
}

/// The configuration as plain values.
#[verifier::ext_equal]
pub struct ConfigurationView {
    pub api_key: Seq<char>,
    pub api_endpoint: Seq<char>,
    pub model: Seq<char>,
    pub max_turns: u32,
    pub max_retries: u32,
    pub gitlab_token: Option<Seq<char>>,
    pub system_prompt_path: Option<Seq<char>>,
    pub reasoning_effort: Option<Seq<char>>,
    pub max_completion_tokens: Option<u32>,
}

impl View for Configuration {
    type V = ConfigurationView;

    open spec fn view(&self) -> ConfigurationView {
        ConfigurationView {
            api_key: self.api_key@,
            api_endpoint: self.api_endpoint@,
            model: self.model@,
            max_turns: self.max_turns,
            max_retries: self.max_retries,
            gitlab_token: opt_text(self.gitlab_token),
            system_prompt_path: opt_text(self.system_prompt_path),
            reasoning_effort: opt_text(self.model_options.reasoning_effort),
            max_completion_tokens: self.model_options.max_completion_tokens,
        }
    }
}

/// `o` unless it is absent or blank.
pub open spec fn non_blank(o: Option<Seq<char>>) -> Option<Seq<char>> {
    match o {
        Some(s) => if is_blank(s) {
            None
        } else {
            Some(s)
        },
        None => None,
    }
}

/// The trimmed text of `o`, unless it is absent or trims to nothing.
pub open spec fn trimmed_non_empty(o: Option<Seq<char>>) -> Option<Seq<char>> {
    match o {
        Some(s) => if trim(s).len() == 0 {
            None
        } else {
            Some(trim(s))
        },
        None => None,
    }
}

/// The error of a refused configuration as plain values.
pub enum ConfigErrorView {
    EmptyApiKey,
    EmptyEndpoint,
    InvalidEndpoint { endpoint: Seq<char>, reason: Seq<char> },
    EmptyModel,
}

/// The view of a configuration error.
pub open spec fn config_error_view(e: ConfigError) -> ConfigErrorView {
    match e {
        ConfigError::EmptyApiKey => ConfigErrorView::EmptyApiKey,
        ConfigError::EmptyEndpoint => ConfigErrorView::EmptyEndpoint,
        ConfigError::InvalidEndpoint { endpoint, reason } => ConfigErrorView::InvalidEndpoint {
            endpoint: endpoint@,
            reason: reason@,
        },
        ConfigError::EmptyModel => ConfigErrorView::EmptyModel,
    }
}

/// Normalizing a configuration, given the `GITLAB_API_TOKEN` fallback: a
/// blank GitLab token gives way to the fallback (if that is not blank); a
/// blank prompt path is dropped; the reasoning effort is trimmed and dropped
/// when empty. Then, in order: a blank API key is refused; the endpoint is
/// trimmed and refused when empty or not a URL; the model is trimmed and
/// refused when empty.
pub open spec fn normalize(c: ConfigurationView, fallback_token: Option<Seq<char>>) -> Result<ConfigurationView, ConfigErrorView> {
    let endpoint = trim(c.api_endpoint);
    let model = trim(c.model);
    if is_blank(c.api_key) {
        Err(ConfigErrorView::EmptyApiKey)
    } else if endpoint.len() == 0 {
        Err(ConfigErrorView::EmptyEndpoint)
    } else if url_parse_error(endpoint) is Some {
        Err(
            ConfigErrorView::InvalidEndpoint {
                endpoint: endpoint,
                reason: url_parse_error(endpoint)->0,
            },
        )
    } else if model.len() == 0 {
        Err(ConfigErrorView::EmptyModel)
    } else {
        Ok(
            ConfigurationView {
                api_endpoint: endpoint,
                model: model,
                gitlab_token: match non_blank(c.gitlab_token) {
                    Some(t) => Some(t),
                    None => non_blank(fallback_token),
                },
                system_prompt_path: non_blank(c.system_prompt_path),
                reasoning_effort: trimmed_non_empty(c.reasoning_effort),
                ..c
            },
        )
    }
}

/// `o` unless it is absent or blank.
fn keep_non_blank(o: Option<String>) -> (r: Option<String>)
    ensures
        opt_text(r) == non_blank(opt_text(o)),
{
    match o {
        Some(s) => if is_blank_str(s.as_str()) {
            None
        } else {
            Some(s)
        },
        None => None,
    }
}

impl Configuration {
    /// Normalizes and checks the configuration (see `normalize`);
    /// `fallback_gitlab_token` is the value of `GITLAB_API_TOKEN`, if set.
    pub fn normalized(self, fallback_gitlab_token: Option<String>) -> (r: Result<Self, ConfigError>)
        ensures
            match normalize(self@, opt_text(fallback_gitlab_token)) {
                Ok(v) => r matches Ok(c) && c@ == v,
                Err(e) => r matches Err(x) && config_error_view(x) == e,
            },
    {
        let ghost orig = self@;
        let mut c = self;
        c.gitlab_token = match keep_non_blank(c.gitlab_token) {
            Some(t) => Some(t),
            None => keep_non_blank(fallback_gitlab_token),
        };
        c.system_prompt_path = keep_non_blank(c.system_prompt_path);
        c.model_options.reasoning_effort = match c.model_options.reasoning_effort {
            Some(e) => {
                let t = trimmed(e.as_str());
                if t.as_str().is_empty() {
                    None
                } else {
                    Some(t)
                }
            },
            None => None,
        };
        if is_blank_str(c.api_key.as_str()) {
            return Err(ConfigError::EmptyApiKey);
        }
        c.api_endpoint = trimmed(c.api_endpoint.as_str());
        if c.api_endpoint.as_str().is_empty() {
            return Err(ConfigError::EmptyEndpoint);
        }
        if let Some(reason) = check_url(c.api_endpoint.as_str()) {
            return Err(ConfigError::InvalidEndpoint { endpoint: c.api_endpoint, reason });
        }
        c.model = trimmed(c.model.as_str());
        if c.model.as_str().is_empty() {
            return Err(ConfigError::EmptyModel);
        }
        assert(c@ =~= normalize(orig, opt_text(fallback_gitlab_token))->Ok_0);
        Ok(c)
    }
}

/// How a configuration is shown (its `Debug` form): the secrets redacted.
pub open spec fn redacted_text(has_gitlab_token: bool) -> Seq<char> {
    "Configuration { api_key: \"<redacted>\", gitlab_token: "@ + (if has_gitlab_token {
        "Some(\"<redacted>\")"@
    } else {
        "None"@
    }) + " }"@
}

impl Configuration {
    /// The configuration as it may be printed: the API key is replaced by
    /// `<redacted>`, and so is the GitLab token when there is one.
    pub fn redacted(&self) -> (r: String)
        ensures
            r@ == redacted_text(self.gitlab_token is Some),
    {
        let mut r = copy_str("Configuration { api_key: \"<redacted>\", gitlab_token: ");
        if self.gitlab_token.is_some() {
            push_str(&mut r, "Some(\"<redacted>\")");
        } else {
            push_str(&mut r, "None");
        }
        push_str(&mut r, " }");
        r
    }
}

/// Normalizing is idempotent: with the same `GITLAB_API_TOKEN` fallback, a
/// normalized configuration normalizes to itself.
pub proof fn lemma_normalize_idempotent(c: ConfigurationView, fallback: Option<Seq<char>>)
    requires
        normalize(c, fallback) is Ok,
    ensures
        normalize(normalize(c, fallback)->Ok_0, fallback) == normalize(c, fallback),
{
    let n = normalize(c, fallback)->Ok_0;
    lemma_trim_idempotent(c.api_endpoint);
    lemma_trim_idempotent(c.model);
    lemma_trim_empty_iff_blank(c.api_key);
    if let Some(e) = c.reasoning_effort {
        lemma_trim_idempotent(e);
        lemma_trim_empty_iff_blank(trim(e));
        lemma_trim_empty_iff_blank(e);
    }
    assert(trim(n.api_endpoint) == n.api_endpoint);
    assert(trim(n.model) == n.model);
    assert(!is_blank(n.api_key));
    assert(normalize(n, fallback) is Ok);
    assert(non_blank(n.gitlab_token) == n.gitlab_token);
    assert(non_blank(n.system_prompt_path) == n.system_prompt_path);
    assert(trimmed_non_empty(n.reasoning_effort) == n.reasoning_effort);
    assert(normalize(n, fallback)->Ok_0 =~= n);
}

/// The GitLab token of a normalized configuration: a token that was
/// configured and is not blank is kept as it is, whatever the fallback;
/// the fallback is taken only when no such token was configured, and then
/// only if it is not blank itself. The fallback decides nothing else:
/// with any two fallbacks, normalizing succeeds or fails alike, with the
/// same error, and every other field comes out the same.
pub proof fn lemma_configured_token_wins(
    c: ConfigurationView,
    f: Option<Seq<char>>,
    g: Option<Seq<char>>,
)
    ensures
        normalize(c, f) is Ok <==> normalize(c, g) is Ok,
        normalize(c, f) is Err ==> normalize(c, f) == normalize(c, g),
        normalize(c, f) is Ok ==> ({
            let a = normalize(c, f)->Ok_0;
            let b = normalize(c, g)->Ok_0;
            &&& c.gitlab_token matches Some(t) ==> (!is_blank(t) ==> a.gitlab_token == Some(t))
            &&& (c.gitlab_token is None || is_blank(c.gitlab_token->0)) ==> a.gitlab_token == (
                if f is Some && !is_blank(f->0) {
                    f
                } else {
                    None
                })
            &&& a.api_key == b.api_key && a.api_endpoint == b.api_endpoint && a.model == b.model
            &&& a.max_turns == b.max_turns && a.max_retries == b.max_retries
            &&& a.system_prompt_path == b.system_prompt_path
            &&& a.reasoning_effort == b.reasoning_effort
            &&& a.max_completion_tokens == b.max_completion_tokens
        }),
{
}

} // verus!
