use eureka::config::NodeRagConfig;
use eureka::json::Json;
use eureka::rag::{chunk_values, document_id, estimated_tokens, extract_leaves, format_chunks, indexes_kind, node_indexed};

fn s(t: &str) -> Json {
    Json::Str(t.to_string())
}

fn obj(members: Vec<(&str, Json)>) -> Json {
    Json::Object(members.into_iter().map(|(k, v)| (k.to_string(), v)).collect())
}

fn shown(v: &[Json]) -> String {
    format!("{v:?}")
}

fn hypotheses() -> Json {
    obj(vec![(
        "hypotheses",
        Json::Array(vec![
            obj(vec![("statement", s("first")), ("score", Json::Number("3".into()))]),
            obj(vec![("statement", s(""))]),
            obj(vec![("statement", Json::Null)]),
            obj(vec![("statement", Json::Number("7".into()))]),
            s("not an object"),
        ]),
    )])
}

#[test]
fn a_fan_out_path_reaches_every_item_and_drops_empty_leaves() {
    let leaves = extract_leaves("hypotheses[*].statement", &hypotheses());
    assert_eq!(shown(&leaves), shown(&[s("first"), Json::Number("7".into())]));
}

#[test]
fn a_plain_path_follows_nested_fields() {
    let data = obj(vec![("review", obj(vec![("hypothesis", obj(vec![("statement", s("deep"))]))]))]);
    assert_eq!(shown(&extract_leaves("review.hypothesis.statement", &data)), shown(&[s("deep")]));
    assert!(extract_leaves("review.missing", &data).is_empty());
}

#[test]
fn an_empty_path_keeps_the_whole_payload() {
    let leaves = extract_leaves("", &s("payload"));
    assert_eq!(shown(&leaves), shown(&[s("payload")]));
    assert!(extract_leaves("[*]", &s("payload")).is_empty());
}

#[test]
fn chunks_are_array_items_or_the_payload() {
    let items = chunk_values(&Json::Array(vec![s("a"), Json::Bool(true)]));
    assert_eq!(shown(&items), shown(&[s("a"), Json::Bool(true)]));
    assert_eq!(shown(&chunk_values(&s("whole"))), shown(&[s("whole")]));
}

#[test]
fn kinds_are_filtered_only_when_listed() {
    assert!(indexes_kind(&vec![], &"Anything".to_string()));
    let kinds = vec!["Hypothesis".to_string(), "Review".to_string()];
    assert!(indexes_kind(&kinds, &"Review".to_string()));
    assert!(!indexes_kind(&kinds, &"Ranking".to_string()));
}

#[test]
fn nodes_are_indexed_unless_turned_off() {
    assert!(node_indexed(None));
    let off = NodeRagConfig { enabled: false, top_k: None, index_path: None, inject_format: None };
    assert!(!node_indexed(Some(&off)));
}

#[test]
fn chunks_are_formatted_with_the_template() {
    let texts = vec!["x".to_string(), "y".to_string()];
    let template = "Prior: {{text}} ({{text}})".to_string();
    assert_eq!(format_chunks(Some(&template), &texts), vec!["Prior: x (x)", "Prior: y (y)"]);
    assert_eq!(format_chunks(None, &texts), texts);
}

#[test]
fn document_ids_name_node_round_and_chunk() {
    assert_eq!(document_id("gen", 3, 0), "gen:r3:0");
    assert_eq!(document_id("gen", 12, 41), "gen:r12:41");
}

#[test]
fn token_estimates_round_each_text_up_to_a_quarter_of_its_bytes() {
    assert_eq!(estimated_tokens(&vec![]), 0);
    let texts = vec!["abcd".to_string(), "abcde".to_string(), "é".to_string()];
    assert_eq!(estimated_tokens(&texts), 1 + 2 + 1);
}
