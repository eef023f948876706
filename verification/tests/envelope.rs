use eureka::agent::tool::{argument_texts, parse_arguments};
use eureka::control::{emits_of_stdout, envelope_fields};
use eureka::graph::node::NodeError;
use eureka::rag::{chunk_texts, extract_texts};

fn value(text: &str) -> serde_json::Value {
    serde_json::from_str(text).unwrap()
}

fn internal(e: NodeError) -> String {
    match e {
        NodeError::Internal(m) => m,
        other => panic!("unexpected error {other:?}"),
    }
}

#[test]
fn stdout_lines_become_emits() {
    let out = "{\"port\":\"a\",\"artifact\":{\"kind\":\"k\",\"data\":{\"x\":1}}}\n\n  \n{\"port\":\"b\",\"artifact\":{\"kind\":\"j\"}}\n";
    let emits = emits_of_stdout(out).unwrap();
    assert_eq!(emits.len(), 2);
    assert_eq!(emits[0].port, "a");
    assert_eq!(emits[0].artifact.kind, "k");
    assert_eq!(emits[0].artifact.data, value("{\"x\":1}"));
    assert_eq!(emits[1].port, "b");
    assert_eq!(emits[1].artifact.kind, "j");
    assert!(emits[1].artifact.data.is_null());
    assert!(emits_of_stdout("").unwrap().is_empty());
}

#[test]
fn stdout_envelope_errors() {
    let bad = internal(emits_of_stdout("{\"port\":\"a\",\"artifact\":{\"kind\":\"k\"}}\nnot json").unwrap_err());
    assert!(bad.starts_with("Invalid emit envelope from control node: "));
    assert!(bad.len() > "Invalid emit envelope from control node: ".len());
    assert_eq!(internal(emits_of_stdout("{\"artifact\":{}}").unwrap_err()), "Emit envelope missing 'port'");
    assert_eq!(internal(emits_of_stdout("{\"port\":3}").unwrap_err()), "Emit envelope missing 'port'");
    assert_eq!(internal(emits_of_stdout("{\"port\":\"p\"}").unwrap_err()), "Emit envelope missing 'artifact'");
    assert_eq!(
        internal(emits_of_stdout("{\"port\":\"p\",\"artifact\":{\"data\":1}}").unwrap_err()),
        "Emit envelope missing 'artifact.kind'"
    );
}

#[test]
fn envelope_fields_read_port_kind_and_data() {
    let f = envelope_fields(&value("{\"port\":\"p\",\"artifact\":{\"kind\":\"k\",\"data\":[1,2]}}"));
    assert_eq!(f.port.as_deref(), Some("p"));
    let a = f.artifact.unwrap();
    assert_eq!(a.kind.as_deref(), Some("k"));
    assert_eq!(a.data, value("[1,2]"));
    let g = envelope_fields(&value("[1]"));
    assert!(g.port.is_none());
    assert!(g.artifact.is_none());
}

#[test]
fn arguments_are_parsed_and_written_as_texts() {
    let args = parse_arguments("{\"query\":\"cells\",\"limit\":5,\"deep\":{\"a\":true}}");
    let pairs = argument_texts(&args);
    let mut sorted = pairs.clone();
    sorted.sort();
    assert_eq!(
        sorted,
        vec![
            ("deep".to_string(), "{\"a\":true}".to_string()),
            ("limit".to_string(), "5".to_string()),
            ("query".to_string(), "cells".to_string()),
        ]
    );
    let empty = parse_arguments("not json");
    assert_eq!(empty, value("{}"));
    assert!(argument_texts(&empty).is_empty());
    assert!(argument_texts(&value("[1,2]")).is_empty());
}

#[test]
fn extract_texts_follows_the_path() {
    let data = value(
        "{\"hypotheses\":[{\"statement\":\"a\"},{\"statement\":\"\"},{\"other\":1},{\"statement\":2}],\"review\":{\"hypothesis\":{\"statement\":\"s\"}}}",
    );
    assert_eq!(extract_texts("hypotheses[*].statement", &data), vec!["a".to_string(), "2".to_string()]);
    assert_eq!(extract_texts("review.hypothesis.statement", &data), vec!["s".to_string()]);
    assert!(extract_texts("review.missing", &data).is_empty());
    assert_eq!(extract_texts("review.hypothesis", &data), vec!["{\"statement\":\"s\"}".to_string()]);
}

#[test]
fn chunk_texts_split_arrays() {
    assert_eq!(chunk_texts(&value("[1,\"x\",{\"a\":null}]")), vec!["1".to_string(), "\"x\"".to_string(), "{\"a\":null}".to_string()]);
    assert_eq!(chunk_texts(&value("{\"a\":1}")), vec!["{\"a\":1}".to_string()]);
    assert_eq!(chunk_texts(&value("\"s\"")), vec!["\"s\"".to_string()]);
}
