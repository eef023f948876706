use eureka::agent::tool::{args_summary, interpolate, result_preview, tool_output};
use eureka::agent::{
    build_preamble, compose_preamble, configured_iterations, initial_message, is_reserved_tool_name, labelled_message, merge_worker_outputs, split_outputs,
    worker_count,
};
use eureka::control::ProcessOutput;
use eureka::graph::artifact::Artifact;
use eureka::graph::node::PortMsg;
use eureka::graph::port::PortDef;
use eureka::json::Json;

fn s(t: &str) -> Json {
    Json::Str(t.to_string())
}

fn n(t: &str) -> Json {
    Json::Number(t.to_string())
}

fn obj(members: Vec<(&str, Json)>) -> Json {
    Json::Object(members.into_iter().map(|(k, v)| (k.to_string(), v)).collect())
}

fn arr(items: Vec<Json>) -> Json {
    Json::Array(items)
}

fn key(k: &str) -> String {
    k.to_string()
}

fn shown(j: &Json) -> String {
    format!("{j:?}")
}

fn cmd(parts: &[&str]) -> Vec<String> {
    parts.iter().map(|p| p.to_string()).collect()
}

fn args(pairs: &[(&str, &str)]) -> Vec<(String, String)> {
    pairs.iter().map(|(k, v)| (k.to_string(), v.to_string())).collect()
}

#[test]
fn test_merge_arrays_concatenated() {
    let a = obj(vec![("hypotheses", arr(vec![obj(vec![("id", n("1"))])])), ("meta", s("a"))]);
    let b = obj(vec![("hypotheses", arr(vec![obj(vec![("id", n("2"))]), obj(vec![("id", n("3"))])])), ("meta", s("b"))]);
    let merged = merge_worker_outputs(vec![a, b]);
    match merged.get(&key("hypotheses")) {
        Some(Json::Array(items)) => assert_eq!(items.len(), 3),
        other => panic!("expected an array, got {other:?}"),
    }
    assert_eq!(shown(merged.get(&key("meta")).unwrap()), shown(&s("b")));
}

#[test]
fn test_merge_single_passthrough() {
    let v = || obj(vec![("hypotheses", arr(vec![obj(vec![("id", n("1"))])]))]);
    assert_eq!(shown(&merge_worker_outputs(vec![v()])), shown(&v()));
}

#[test]
fn test_merge_empty() {
    assert!(merge_worker_outputs(vec![]).is_null());
}

#[test]
fn merge_takes_the_last_value_that_is_not_null_when_not_all_are_arrays() {
    let merged = merge_worker_outputs(vec![
        obj(vec![("x", arr(vec![n("1")])), ("y", s("first"))]),
        obj(vec![("x", s("text")), ("y", Json::Null)]),
        obj(vec![("z", Json::Bool(true))]),
        n("7"),
    ]);
    assert_eq!(shown(merged.get(&key("x")).unwrap()), shown(&s("text")));
    assert_eq!(shown(merged.get(&key("y")).unwrap()), shown(&s("first")));
    assert_eq!(shown(merged.get(&key("z")).unwrap()), shown(&Json::Bool(true)));
    assert!(merged.get(&key("w")).is_none());
    match &merged {
        Json::Object(members) => assert_eq!(members.len(), 3),
        other => panic!("expected an object, got {other:?}"),
    }
}

#[test]
fn merge_of_only_null_values_is_null() {
    let merged = merge_worker_outputs(vec![obj(vec![("k", Json::Null)]), obj(vec![("k", Json::Null)])]);
    assert!(merged.get(&key("k")).unwrap().is_null());
}

#[test]
fn test_interpolate_string_arg() {
    let result = interpolate(&cmd(&["search", "--query", "{{query}}"]), &args(&[("query", "CO2 catalysts")]));
    assert_eq!(result, vec!["search", "--query", "CO2 catalysts"]);
}

#[test]
fn test_interpolate_integer_arg() {
    let result = interpolate(&cmd(&["search", "--count", "{{count}}"]), &args(&[("count", "5")]));
    assert_eq!(result, vec!["search", "--count", "5"]);
}

#[test]
fn test_interpolate_inline_template() {
    let result = interpolate(&cmd(&["fetch-url", "https://api.example.com/{{path}}"]), &args(&[("path", "results")]));
    assert_eq!(result, vec!["fetch-url", "https://api.example.com/results"]);
}

#[test]
fn test_interpolate_missing_key_becomes_empty() {
    let result = interpolate(&cmd(&["cmd", "{{missing}}"]), &args(&[]));
    assert_eq!(result, vec!["cmd", ""]);
}

#[test]
fn test_interpolate_no_templates_unchanged() {
    let result = interpolate(&cmd(&["ls", "-la"]), &args(&[("query", "ignored")]));
    assert_eq!(result, vec!["ls", "-la"]);
}

#[test]
fn interpolate_replaces_every_occurrence_and_strips_what_is_left() {
    let result = interpolate(&cmd(&["{{a}}-{{a}}", "x{{b}}y{{c", "{{}}z"]), &args(&[("a", "1")]));
    assert_eq!(result, vec!["1-1", "xy{{c", "z"]);
}

#[test]
fn interpolate_applies_arguments_in_order() {
    let result = interpolate(&cmd(&["{{a}}"]), &args(&[("a", "{{b}}"), ("b", "2")]));
    assert_eq!(result, vec!["2"]);
}

fn port(p: &str, kind: &str) -> PortDef {
    PortDef { port: p.into(), kind: kind.into(), required: None }
}

#[test]
fn one_output_port_receives_the_whole_value() {
    let out = split_outputs(&vec![port("out", "Hypotheses")], obj(vec![("a", n("1"))]));
    assert_eq!(out.len(), 1);
    assert_eq!((out[0].0.as_str(), out[0].1.as_str()), ("out", "Hypotheses"));
    assert_eq!(shown(&out[0].2), shown(&obj(vec![("a", n("1"))])));
}

#[test]
fn several_output_ports_receive_their_members() {
    let value = obj(vec![("insights", obj(vec![("p", arr(vec![]))])), ("overview", s("Done"))]);
    let out = split_outputs(&vec![port("insights", "Insights"), port("overview", "Overview"), port("gap", "Gap")], value);
    assert_eq!(out.len(), 3);
    assert_eq!(out[0].0, "insights");
    assert_eq!(shown(&out[1].2), shown(&s("Done")));
    assert_eq!(out[2].1, "Gap");
    assert!(out[2].2.is_null());
}

#[test]
fn workers_are_at_least_one() {
    assert_eq!(worker_count(0), 1);
    assert_eq!(worker_count(1), 1);
    assert_eq!(worker_count(3), 3);
}

#[test]
fn labelled_message_joins_port_sections() {
    let parts = vec![("in".to_string(), "{}".to_string()), ("context".to_string(), "[]".to_string())];
    assert_eq!(labelled_message(&parts), "Port: in\n\n{}\n\n---\n\nPort: context\n\n[]");
    assert_eq!(labelled_message(&vec![]), "");
}

fn msg(p: &str, data: serde_json::Value) -> PortMsg {
    PortMsg { port: p.into(), artifact: Artifact { kind: "K".into(), data } }
}

#[test]
fn the_opening_message_labels_inputs_only_when_several_are_declared() {
    let data = serde_json::Value::from(vec![1, 2]);
    let pretty = serde_json::to_string_pretty(&data).unwrap();
    let single = initial_message(1, vec![msg("in", data.clone())]).unwrap();
    assert_eq!(single, pretty);
    let labelled = initial_message(2, vec![msg("context", data)]).unwrap();
    assert!(labelled.starts_with("Port: context"));
    assert_eq!(labelled, format!("Port: context\n\n{pretty}"));
    assert_eq!(initial_message(1, vec![]).unwrap(), "null");
}

fn process(success: bool, stdout: &str, stderr: &str, code: Option<i32>) -> ProcessOutput {
    ProcessOutput { stdout: stdout.into(), stderr: stderr.into(), exit_code: code, success }
}

#[test]
fn a_tool_answers_with_its_output_or_its_error() {
    assert_eq!(tool_output(&process(true, "hello", "", Some(0))), "hello");
    assert_eq!(tool_output(&process(false, "", "boom", Some(1))), "Error (exit 1): boom");
    assert_eq!(tool_output(&process(false, "", "killed", None)), "Error (exit -1): killed");
    let long = "e".repeat(600);
    assert_eq!(tool_output(&process(false, "", &long, Some(2))), format!("Error (exit 2): {}", "e".repeat(500)));
    assert_eq!(result_preview(&"r".repeat(501)).len(), 500);
}

#[test]
fn the_argument_summary_is_the_first_string_member() {
    let a = obj(vec![("count", n("3")), ("query", s("catalysts")), ("other", s("x"))]);
    assert_eq!(args_summary(&a), "catalysts");
    assert_eq!(args_summary(&obj(vec![("q", s(&"q".repeat(100)))])).len(), 80);
    assert_eq!(args_summary(&s("top-level")), "");
    assert_eq!(args_summary(&obj(vec![])), "");
}

#[test]
fn the_preamble_without_tools_names_the_turn_limit() {
    let p = compose_preamble("You are a tester.", None, &vec![], 5);
    assert_eq!(
        p,
        "You are a tester.\n\nYou have at most 5 turns. When you have completed your analysis, call the `submit` tool \
         with your structured output. Do not write JSON directly \u{2014} always use submit. IMPORTANT: You must call \
         `submit` before your turns run out."
    );
}

#[test]
fn the_preamble_lists_tools_and_shows_the_schema() {
    let names = vec!["search".to_string(), "fetch".to_string()];
    let p = compose_preamble("P", Some("{\n  \"type\": \"object\"\n}".to_string()), &names, 12);
    assert!(p.starts_with(
        "P\n\n# Output Schema\nYour `submit` call must conform to this JSON Schema:\n```json\n{\n  \"type\": \"object\"\n}\n```\n\nYou have at most 12 turns (each tool call"
    ));
    assert!(p.contains("Available tools: search, fetch. Use them"));
    let empty_schema = compose_preamble("P", Some("{}".to_string()), &names, 1);
    assert!(!empty_schema.contains("Output Schema"));
    let schema: serde_json::Value = serde_json::from_str(r#"{"type": "object"}"#).unwrap();
    let built = build_preamble("P", &names, 12, &schema);
    assert_eq!(built, p);
}

#[test]
fn submit_is_reserved_in_any_letter_case() {
    assert!(is_reserved_tool_name("submit"));
    assert!(is_reserved_tool_name("SuBmIt"));
    assert!(!is_reserved_tool_name("submit_now"));
    assert!(!is_reserved_tool_name("search"));
}

#[test]
fn the_turn_limit_comes_from_an_unsigned_integer_in_the_configuration() {
    assert_eq!(configured_iterations(&obj(vec![("max_iterations", n("7"))]), 10), 7);
    assert_eq!(configured_iterations(&obj(vec![]), 10), 10);
    assert_eq!(configured_iterations(&obj(vec![("max_iterations", n("7.5"))]), 10), 10);
    assert_eq!(configured_iterations(&obj(vec![("max_iterations", n("-3"))]), 10), 10);
    assert_eq!(configured_iterations(&obj(vec![("max_iterations", n("4294967296"))]), 10), 10);
    assert_eq!(configured_iterations(&obj(vec![("max_iterations", n("4294967295"))]), 10), 4294967295);
    assert_eq!(configured_iterations(&obj(vec![("max_iterations", n("99999999999999999999"))]), 10), 10);
    assert_eq!(configured_iterations(&obj(vec![("max_iterations", s("7"))]), 10), 10);
    assert_eq!(configured_iterations(&Json::Null, 3), 3);
}

#[test]
fn the_total_falls_back_to_input_plus_output() {
    assert_eq!(eureka::graph::node::total_tokens(3, 4, 0), 7);
    assert_eq!(eureka::graph::node::total_tokens(3, 4, 10), 10);
}
