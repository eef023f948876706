use eureka::agent::is_retryable_provider_error;
use eureka::config::{
    default_true, default_workers, exhausted_limit, BudgetLimit, EmbeddingProvider, ProviderKind,
};
use eureka::control::{exit_failure, ProcessOutput, MAX_OUTPUT_BYTES};
use eureka::graph::spec::GraphError;
use eureka::manifest::{default_control_timeout, default_tool_timeout, join, PromptPath};
use eureka::persistence::record::{RunRecord, RunStats, RunStatus};
use eureka::scheduler::error::SchedulerError;
use eureka::session::{
    record_completion, record_node_failure, record_scheduler_error, running_record, stable_hash,
    validation_failure,
};
use eureka::persistence::store::PersistenceError;
use eureka::text::{decimal, signed_decimal};

#[test]
fn default_true_returns_true() {
    assert!(default_true());
}

#[test]
fn defaults_of_workers_and_timeouts() {
    assert_eq!(default_workers(), 1);
    assert_eq!(default_tool_timeout(), 30);
    assert_eq!(default_control_timeout(), 60);
}

#[test]
fn all_provider_kinds_display() {
    let kinds = [
        ProviderKind::Anthropic,
        ProviderKind::OpenAI,
        ProviderKind::OpenRouter,
        ProviderKind::Gemini,
        ProviderKind::Groq,
        ProviderKind::Mistral,
        ProviderKind::Cohere,
        ProviderKind::DeepSeek,
        ProviderKind::Perplexity,
        ProviderKind::Together,
        ProviderKind::XAI,
        ProviderKind::Ollama,
    ];
    for kind in kinds {
        assert!(!kind.to_string().is_empty(), "display empty for {kind:?}");
    }
    assert_eq!(ProviderKind::OpenRouter.to_string(), "openrouter");
    assert_eq!(ProviderKind::XAI.as_str(), "xai");
    assert_eq!(EmbeddingProvider::VoyageAI.as_str(), "voyageai");
}

#[test]
fn budget_limits_are_checked_in_order() {
    assert_eq!(exhausted_limit(true, 10, 5, true, 9, 1), Some(BudgetLimit::Cost));
    assert_eq!(exhausted_limit(false, 1500, 1000, true, 0, 12), Some(BudgetLimit::Tokens));
    assert_eq!(exhausted_limit(false, 0, 1000, true, 0, 12), Some(BudgetLimit::WallClock));
    assert_eq!(exhausted_limit(false, 0, 1000, false, 12, 12), Some(BudgetLimit::Rounds));
    assert_eq!(exhausted_limit(false, 0, 5_000_000, false, 0, 12), None);
}

#[test]
fn decimal_and_uuid_texts() {
    assert_eq!(decimal(0), "0");
    assert_eq!(decimal(u64::MAX), "18446744073709551615");
    assert_eq!(signed_decimal(-42), "-42");
    let id = uuid::Uuid::now_v7();
    assert_eq!(PersistenceError::NotFound(id.as_u128()).to_string(), format!("run {id} was not found"));
}

#[test]
fn resolve_updates_absolute_path() {
    let mut path = PromptPath::from_raw("prompts/test.md".to_string());
    path.resolve("/home/user/mygraph");
    assert_eq!(path.as_str(), "prompts/test.md");
    assert_eq!(path.path(), "/home/user/mygraph/prompts/test.md");
}

#[test]
fn resolve_leaves_absolute_path_unchanged() {
    let mut path = PromptPath::from_raw("/absolute/prompts/test.md".to_string());
    path.resolve("/home/user/mygraph");
    assert_eq!(path.path(), "/absolute/prompts/test.md");
}

#[test]
fn empty_prompt_path_deserializes() {
    let path = PromptPath::from_raw(String::new());
    assert_eq!(path.as_str(), "");
}

#[test]
fn joining_paths() {
    assert_eq!(join("a/", "b"), "a/b");
    assert_eq!(join("", "b"), "b");
    assert_eq!(join("a", "/b"), "/b");
}

#[test]
fn process_output_is_trimmed_and_capped() {
    let out = ProcessOutput::from_parts(b"  hello\n\t".to_vec(), b"warn\xff".to_vec(), Some(0), true);
    assert_eq!(out.stdout, "hello");
    assert_eq!(out.stderr, "warn\u{fffd}");
    assert_eq!(out.exit_code, Some(0));
    assert!(out.success);

    let big = "é".repeat(MAX_OUTPUT_BYTES);
    let capped = ProcessOutput::from_parts(big.into_bytes(), vec![], None, false);
    let expected = format!("{}\n[truncated]", "é".repeat(MAX_OUTPUT_BYTES / 2));
    assert_eq!(capped.stdout, expected);

    let exact = "x".repeat(MAX_OUTPUT_BYTES);
    let kept = ProcessOutput::from_parts(exact.clone().into_bytes(), vec![], None, true);
    assert_eq!(kept.stdout, exact);
}

#[test]
fn exit_failure_message() {
    let out = ProcessOutput {
        stdout: String::new(),
        stderr: "e".repeat(600),
        exit_code: None,
        success: false,
    };
    let msg = exit_failure("ranker", &out);
    assert_eq!(msg, format!("Control node 'ranker' exited with code -1: {}", "e".repeat(500)));
}

#[test]
fn retryable_provider_errors() {
    assert!(is_retryable_provider_error("ProviderResponseError: status 200 OK: "));
    assert!(is_retryable_provider_error("upstream returned status 503"));
    assert!(is_retryable_provider_error("status 502 bad gateway"));
    assert!(!is_retryable_provider_error("status 400 bad request"));
    assert!(!is_retryable_provider_error(""));
}

#[test]
fn stable_hash_is_fnv1a_in_hex() {
    assert_eq!(stable_hash(b""), "cbf29ce484222325");
    assert_eq!(stable_hash(b"a"), "af63dc4c8601ec8c");
}

#[test]
fn validation_failure_lists_the_errors() {
    let e = validation_failure(&vec![GraphError::DanglingPort("a".into()), GraphError::MissingSink("b".into())]);
    assert_eq!(e.to_string(), "Graph validation failed with 2 errors: Dangling port: a; No sink node found: b");
}

#[test]
fn run_record_lifecycle() {
    let r = running_record(1, "g.yml".to_string(), serde_json::Value::Null);
    assert_eq!(r.status, RunStatus::Running);
    let failed = record_node_failure(r.clone(), "no model".to_string());
    assert_eq!((failed.status, failed.error.as_deref()), (RunStatus::Failed, Some("no model")));
    let paused = record_scheduler_error(r.clone(), &SchedulerError::Paused(RunStats::default()), "p".into());
    assert_eq!(paused.status, RunStatus::Paused);
    assert_eq!(paused.stats, Some(RunStats::default()));
    let node = record_scheduler_error(
        r.clone(),
        &SchedulerError::NodeFailed { node_id: "n".into(), round: 2, error: "boom".into() },
        "ignored".into(),
    );
    assert_eq!((node.status, node.error.as_deref()), (RunStatus::Failed, Some("boom")));
    let cancelled = record_scheduler_error(r.clone(), &SchedulerError::Cancelled, "Run cancelled".into());
    assert_eq!((cancelled.status, cancelled.error.as_deref()), (RunStatus::Cancelled, Some("Run cancelled")));
    let done = record_completion(r.clone(), RunStats::default(), false);
    assert_eq!(done.status, RunStatus::Completed);
    let halted: RunRecord = record_completion(r, RunStats::default(), true);
    assert_eq!(halted.status, RunStatus::Cancelled);
}

#[test]
fn process_output_keeps_stderr_excerpt_on_failure() {
    let long = "e".repeat(600);
    let failed = ProcessOutput::from_parts(vec![], long.clone().into_bytes(), Some(1), false);
    assert_eq!(failed.stderr, "e".repeat(500));
    let ok = ProcessOutput::from_parts(vec![], long.clone().into_bytes(), Some(0), true);
    assert_eq!(ok.stderr, long);
    let short = ProcessOutput::from_parts(vec![], b"boom".to_vec(), Some(2), false);
    assert_eq!(short.stderr, "boom");
}
