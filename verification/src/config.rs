//! Configuration types: providers, embeddings, scheduler and tracing
//! settings, budget limits, and configuration errors.
use vstd::prelude::*;
use vstd::string::*;

verus! {

/// Errors that can occur during configuration loading.
#[derive(Debug)]
pub enum ConfigError {
    /// A parse error occurred.
    ParseError(String),
    /// A file could not be read.
    FileError(String),
}

/// The display text of a configuration error.
pub open spec fn config_error_text(e: ConfigError) -> Seq<char> {
    match e {
        ConfigError::ParseError(m) => "Parse error: "@ + m@,
        ConfigError::FileError(m) => "File error: "@ + m@,
    }
}

impl ConfigError {
    /// The error's display text: its category, a colon, and the message.
    pub fn to_string(&self) -> (r: String)
        ensures
            r@ == config_error_text(*self),
    {
        match self {
            ConfigError::ParseError(m) => {
                let mut s = String::from_str("Parse error: ");
                s.append(m.as_str());
                s
            },
            ConfigError::FileError(m) => {
                let mut s = String::from_str("File error: ");
                s.append(m.as_str());
                s
            },
        }
    }
}

/// Supported LLM provider kinds.
#[derive(Debug, Clone, Copy, PartialEq, Eq, Structural)]
pub enum ProviderKind {
    /// Anthropic.
    Anthropic,
    /// `OpenAI`.
    OpenAI,
    /// `OpenRouter`, an aggregator of many models.
    OpenRouter,
    /// Google Gemini.
    Gemini,
    /// Groq inference.
    Groq,
    /// Mistral AI.
    Mistral,
    /// Cohere.
    Cohere,
    /// `DeepSeek`.
    DeepSeek,
    /// Perplexity AI.
    Perplexity,
    /// Together AI.
    Together,
    /// xAI (Grok).
    XAI,
    /// Ollama, local models.
    Ollama,
}

/// The configuration name of provider kind `k`.
pub open spec fn provider_name(k: ProviderKind) -> Seq<char> {
    match k {
        ProviderKind::Anthropic => "anthropic"@,
        ProviderKind::OpenAI => "openai"@,
        ProviderKind::OpenRouter => "openrouter"@,
        ProviderKind::Gemini => "gemini"@,
        ProviderKind::Groq => "groq"@,
        ProviderKind::Mistral => "mistral"@,
        ProviderKind::Cohere => "cohere"@,
        ProviderKind::DeepSeek => "deepseek"@,
        ProviderKind::Perplexity => "perplexity"@,
        ProviderKind::Together => "together"@,
        ProviderKind::XAI => "xai"@,
        ProviderKind::Ollama => "ollama"@,
    }
}

impl ProviderKind {
    /// The provider's configuration name, as written in configuration files.
    pub fn as_str(&self) -> (r: &'static str)
        ensures
            r@ == provider_name(*self),
    {
        match self {
            ProviderKind::Anthropic => "anthropic",
            ProviderKind::OpenAI => "openai",
            ProviderKind::OpenRouter => "openrouter",
            ProviderKind::Gemini => "gemini",
            ProviderKind::Groq => "groq",
            ProviderKind::Mistral => "mistral",
            ProviderKind::Cohere => "cohere",
            ProviderKind::DeepSeek => "deepseek",
            ProviderKind::Perplexity => "perplexity",
            ProviderKind::Together => "together",
            ProviderKind::XAI => "xai",
            ProviderKind::Ollama => "ollama",
        }
    }

    /// The provider's display text (its configuration name).
    pub fn to_string(&self) -> (r: String)
        ensures
            r@ == provider_name(*self),
    {
        String::from_str(self.as_str())
    }
}

/// Embedding providers for retrieval-augmented generation.
#[derive(Debug, Clone, Copy, PartialEq, Eq, Structural)]
pub enum EmbeddingProvider {
    /// `OpenAI` embeddings.
    OpenAI,
    /// Cohere embeddings.
    Cohere,
    /// Ollama local embeddings.
    Ollama,
    /// Voyage AI embeddings.
    VoyageAI,
    /// Gemini embeddings.
    Gemini,
    /// Together AI embeddings.
    Together,
    /// Llamafile local embeddings.
    Llamafile,
    /// `OpenRouter` embeddings.
    OpenRouter,
}

impl EmbeddingProvider {
    /// The provider's configuration name.
    pub fn as_str(&self) -> (r: &'static str)
        ensures
            r@ == match self {
                EmbeddingProvider::OpenAI => "openai"@,
                EmbeddingProvider::Cohere => "cohere"@,
                EmbeddingProvider::Ollama => "ollama"@,
                EmbeddingProvider::VoyageAI => "voyageai"@,
                EmbeddingProvider::Gemini => "gemini"@,
                EmbeddingProvider::Together => "together"@,
                EmbeddingProvider::Llamafile => "llamafile"@,
                EmbeddingProvider::OpenRouter => "openrouter"@,
            },
    {
        match self {
            EmbeddingProvider::OpenAI => "openai",
            EmbeddingProvider::Cohere => "cohere",
            EmbeddingProvider::Ollama => "ollama",
            EmbeddingProvider::VoyageAI => "voyageai",
            EmbeddingProvider::Gemini => "gemini",
            EmbeddingProvider::Together => "together",
            EmbeddingProvider::Llamafile => "llamafile",
            EmbeddingProvider::OpenRouter => "openrouter",
        }
    }
}

/// Scheduler configuration.
#[derive(Debug, Clone, Copy, PartialEq, Eq, Structural)]
pub struct SchedulerConfig {
    /// Maximum number of node activations running at once.
    pub max_in_flight: usize,
    /// Maximum retries of a failed provider call (zero disables retrying).
    pub max_retries: u32,
    /// Delay between retries, in milliseconds.
    pub retry_backoff_ms: u64,
}

/// Tracing configuration.
#[derive(Debug, Clone, Copy, PartialEq, Eq, Structural)]
pub struct TracingConfig {
    /// Whether run traces are written.
    pub enabled: bool,
    /// Size cap of a trace file in bytes (zero for none).
    pub max_file_bytes: u64,
    /// Whether traces include artifact payloads.
    pub include_artifacts: bool,
}

/// The default of flags that are on unless configured otherwise.
pub fn default_true() -> (r: bool)
    ensures
        r,
{
    true
}

/// The default number of worker replicas of an agent.
pub fn default_workers() -> (r: u32)
    ensures
        r == 1,
{
    1
}

/// Per-agent retrieval-augmented generation settings.
#[derive(Debug, PartialEq, Eq)]
pub struct NodeRagConfig {
    /// Whether the agent receives context and has its outputs indexed.
    pub enabled: bool,
    /// Override of the global number of retrieved entries.
    pub top_k: Option<usize>,
    /// Dot path selecting the indexed text within an artifact.
    pub index_path: Option<String>,
    /// Template of the indexed text, where `{{text}}` stands for the text.
    pub inject_format: Option<String>,
}

/// Which budget limit stopped a run.
#[derive(Debug, Clone, Copy, PartialEq, Eq, Structural)]
pub enum BudgetLimit {
    /// The cost limit.
    Cost,
    /// The token limit.
    Tokens,
    /// The wall-clock limit.
    WallClock,
    /// The round limit.
    Rounds,
}

/// The first budget limit reached, checked in the order cost, tokens,
/// wall-clock time, rounds. The cost and time comparisons are made on real
/// numbers by the caller and passed in as `cost_reached` and `time_reached`.
pub open spec fn budget_limit(
    cost_reached: bool,
    total_tokens: u64,
    max_tokens: u64,
    time_reached: bool,
    rounds_completed: u32,
    max_rounds: u32,
) -> Option<BudgetLimit> {
    if cost_reached {
        Some(BudgetLimit::Cost)
    } else if total_tokens >= max_tokens {
        Some(BudgetLimit::Tokens)
    } else if time_reached {
        Some(BudgetLimit::WallClock)
    } else if rounds_completed >= max_rounds {
        Some(BudgetLimit::Rounds)
    } else {
        None
    }
}

/// Decide whether a run's budget is exhausted, and by which limit.
pub fn exhausted_limit(
    cost_reached: bool,
    total_tokens: u64,
    max_tokens: u64,
    time_reached: bool,
    rounds_completed: u32,
    max_rounds: u32,
) -> (r: Option<BudgetLimit>)
    ensures
        r == budget_limit(cost_reached, total_tokens, max_tokens, time_reached, rounds_completed, max_rounds),
{
    if cost_reached {
        Some(BudgetLimit::Cost)
    } else if total_tokens >= max_tokens {
        Some(BudgetLimit::Tokens)
    } else if time_reached {
        Some(BudgetLimit::WallClock)
    } else if rounds_completed >= max_rounds {
        Some(BudgetLimit::Rounds)
    } else {
        None
    }
}

} // verus!
