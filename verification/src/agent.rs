//! Agent-side logic: MCP servers an agent may reach, whether a model
//! provider's error is worth retrying, and how the outputs of parallel
//! workers are merged.
use vstd::prelude::*;
use vstd::string::*;
use crate::graph::node::{NodeError, PortMsg};
use crate::graph::port::PortDef;
use crate::json::{
    data_member, data_of, data_seq, lemma_data_seq_index, lemma_data_seq_len, lemma_member_data, member,
    json_data, pretty_json, pretty_json_text, Json, JsonData,
};
use crate::text::{chars_of, contains_text, decimal, decimal_text, occurs, occurs_at};

pub mod tool;

verus! {

/// How an agent reaches an MCP server.
#[derive(Debug)]
pub enum McpTransport {
    /// A local server started as a subprocess.
    Stdio {
        /// The command line: program, then arguments.
        command: Vec<String>,
        /// Environment variables for the server, as (name, value) pairs.
        env: Vec<(String, String)>,
    },
    /// A remote server reached over streamable HTTP.
    Http {
        /// The server's endpoint.
        uri: String,
    },
}

/// An MCP server an agent may call tools on.
#[derive(Debug)]
pub struct McpServerDef {
    /// Name of the server, used in logs.
    pub name: String,
    /// How to reach the server.
    pub transport: McpTransport,
}

/// An error message from a model provider reports a transient failure: an
/// empty-body `200 OK` response, or status 503, 529 or 502.
pub open spec fn retryable(msg: Seq<char>) -> bool {
    occurs(msg, "ProviderResponseError: status 200 OK:"@) || occurs(msg, "status 503"@) || occurs(
        msg,
        "status 529"@,
    ) || occurs(msg, "status 502"@)
}

/// Whether a provider error with message `msg` is transient and safe to
/// retry.
pub fn is_retryable_provider_error(msg: &str) -> (r: bool)
    ensures
        r == retryable(msg@),
{
    contains_text(msg, "ProviderResponseError: status 200 OK:") || contains_text(msg, "status 503")
        || contains_text(msg, "status 529") || contains_text(msg, "status 502")
}

/// The values the outputs hold for key `k`, in order: one for each output
/// that is an object with a member of that key.
pub open spec fn values_for(outs: Seq<Json>, k: Seq<char>) -> Seq<Json>
    decreases outs.len(),
{
    if outs.len() == 0 {
        Seq::empty()
    } else {
        let rest = values_for(outs.drop_last(), k);
        match member(outs.last(), k) {
            Some(v) => rest.push(v),
            None => rest,
        }
    }
}

/// Some output is an object with a member of key `k`.
pub open spec fn has_key(outs: Seq<Json>, k: Seq<char>) -> bool {
    exists|i: int| 0 <= i < outs.len() && #[trigger] member(outs[i], k) is Some
}

/// The items of the arrays among `d`, in order.
pub open spec fn concat_items(d: Seq<JsonData>) -> Seq<JsonData>
    decreases d.len(),
{
    if d.len() == 0 {
        Seq::empty()
    } else {
        concat_items(d.drop_last()) + match d.last() {
            JsonData::Array(items) => items,
            _ => Seq::empty(),
        }
    }
}

/// The last of `d` that is not null, or null when there is none.
pub open spec fn last_present(d: Seq<JsonData>) -> JsonData
    decreases d.len(),
{
    if d.len() == 0 {
        JsonData::Null
    } else if d.last() is Null {
        last_present(d.drop_last())
    } else {
        d.last()
    }
}

/// Every one of `d` is an array.
pub open spec fn all_arrays(d: Seq<JsonData>) -> bool {
    forall|i: int| 0 <= i < d.len() ==> #[trigger] d[i] is Array
}

/// The merge of the values `d` of one key: one array of all their items
/// when every one is an array, else the last that is not null.
pub open spec fn merged(d: Seq<JsonData>) -> JsonData {
    if all_arrays(d) {
        JsonData::Array(concat_items(d))
    } else {
        last_present(d)
    }
}

/// `keys` holds a text equal to `k`.
pub open spec fn has_text(keys: Seq<String>, k: Seq<char>) -> bool {
    exists|t: int| 0 <= t < keys.len() && #[trigger] keys[t]@ == k
}

/// Whether `keys` holds a text equal to `k`.
fn contains_key(keys: &Vec<String>, k: &String) -> (r: bool)
    ensures
        r == has_text(keys@, k@),
{
    let mut t: usize = 0;
    while t < keys.len()
        invariant
            0 <= t <= keys@.len(),
            forall|u: int| 0 <= u < t ==> keys@[u]@ != k@,
        decreases keys@.len() - t,
    {
        if keys[t] == *k {
            return true;
        }
        t = t + 1;
    }
    false
}

/// The contents of one more value.
proof fn lemma_data_push(s: Seq<Json>, x: Json)
    ensures
        data_seq(s.push(x)) == data_seq(s).push(data_of(x)),
{
    assert(s.push(x).drop_last() =~= s);
}

/// Copies of the values the outputs hold for key `k`.
fn values_of_key(outputs: &Vec<Json>, k: &String) -> (r: Vec<Json>)
    ensures
        data_seq(r@) == data_seq(values_for(outputs@, k@)),
{
    let mut out: Vec<Json> = Vec::new();
    let mut i: usize = 0;
    while i < outputs.len()
        invariant
            0 <= i <= outputs@.len(),
            data_seq(out@) == data_seq(values_for(outputs@.subrange(0, i as int), k@)),
        decreases outputs@.len() - i,
    {
        let ghost pre = outputs@.subrange(0, i as int);
        let ghost cur = outputs@.subrange(0, i + 1);
        proof {
            assert(cur.drop_last() =~= pre);
            assert(cur.last() == outputs@[i as int]);
        }
        match outputs[i].get(k) {
            Some(v) => {
                let c = v.duplicate();
                proof {
                    lemma_data_push(out@, c);
                    lemma_data_push(values_for(pre, k@), *v);
                }
                out.push(c);
            },
            None => {},
        }
        i = i + 1;
    }
    assert(outputs@.subrange(0, outputs@.len() as int) =~= outputs@);
    out
}

/// Whether every one of `vals` is an array.
fn every_array(vals: &Vec<Json>) -> (r: bool)
    ensures
        r == all_arrays(data_seq(vals@)),
{
    proof {
        lemma_data_seq_len(vals@);
    }
    let mut i: usize = 0;
    while i < vals.len()
        invariant
            0 <= i <= vals@.len(),
            data_seq(vals@).len() == vals@.len(),
            forall|j: int| 0 <= j < i ==> #[trigger] data_seq(vals@)[j] is Array,
        decreases vals@.len() - i,
    {
        proof {
            lemma_data_seq_index(vals@, i as int);
        }
        if !vals[i].is_array() {
            return false;
        }
        i = i + 1;
    }
    true
}

/// One list of copies of the items of the arrays `vals`, in order.
fn concat_arrays(vals: &Vec<Json>) -> (r: Vec<Json>)
    ensures
        data_seq(r@) == concat_items(data_seq(vals@)),
{
    let ghost d = data_seq(vals@);
    proof {
        lemma_data_seq_len(vals@);
    }
    let mut out: Vec<Json> = Vec::new();
    let mut i: usize = 0;
    while i < vals.len()
        invariant
            0 <= i <= vals@.len(),
            d == data_seq(vals@),
            d.len() == vals@.len(),
            data_seq(out@) == concat_items(d.subrange(0, i as int)),
        decreases vals@.len() - i,
    {
        proof {
            lemma_data_seq_index(vals@, i as int);
            assert(d.subrange(0, i + 1).drop_last() =~= d.subrange(0, i as int));
            assert(d.subrange(0, i + 1).last() == d[i as int]);
        }
        match &vals[i] {
            Json::Array(items) => {
                let ghost base = concat_items(d.subrange(0, i as int));
                assert(base + data_seq(items@.subrange(0, 0)) =~= base);
                let mut j: usize = 0;
                while j < items.len()
                    invariant
                        0 <= j <= items@.len(),
                        data_seq(out@) == base + data_seq(items@.subrange(0, j as int)),
                    decreases items@.len() - j,
                {
                    let c = items[j].duplicate();
                    proof {
                        lemma_data_push(out@, c);
                        assert(items@.subrange(0, j + 1) =~= items@.subrange(0, j as int).push(items@[j as int]));
                        lemma_data_push(items@.subrange(0, j as int), items@[j as int]);
                        assert(base + data_seq(items@.subrange(0, j as int)).push(data_of(c)) =~= (base
                            + data_seq(items@.subrange(0, j as int))).push(data_of(c)));
                    }
                    out.push(c);
                    j = j + 1;
                }
                assert(items@.subrange(0, items@.len() as int) =~= items@);
            },
            _ => {
                assert(concat_items(d.subrange(0, i as int)) + Seq::<JsonData>::empty() =~= concat_items(
                    d.subrange(0, i as int),
                ));
            },
        }
        i = i + 1;
    }
    assert(d.subrange(0, vals@.len() as int) =~= d);
    out
}

/// A copy of the last of `vals` that is not null, or null.
fn last_present_value(vals: &Vec<Json>) -> (r: Json)
    ensures
        data_of(r) == last_present(data_seq(vals@)),
{
    let ghost d = data_seq(vals@);
    proof {
        lemma_data_seq_len(vals@);
    }
    let mut i: usize = vals.len();
    assert(d.subrange(0, i as int) =~= d);
    while i > 0
        invariant
            0 <= i <= vals@.len(),
            d == data_seq(vals@),
            d.len() == vals@.len(),
            last_present(d) == last_present(d.subrange(0, i as int)),
        decreases i,
    {
        proof {
            lemma_data_seq_index(vals@, i - 1);
            assert(d.subrange(0, i as int).drop_last() =~= d.subrange(0, i - 1));
            assert(d.subrange(0, i as int).last() == d[i - 1]);
        }
        if !vals[i - 1].is_null() {
            return vals[i - 1].duplicate();
        }
        i = i - 1;
    }
    Json::Null
}

/// The merge of the values `vals` of one key.
fn merge_values(vals: &Vec<Json>) -> (r: Json)
    ensures
        data_of(r) == merged(data_seq(vals@)),
{
    if every_array(vals) {
        let items = concat_arrays(vals);
        Json::Array(items)
    } else {
        last_present_value(vals)
    }
}

/// Merge the JSON outputs of parallel workers. No output gives `null`; one
/// output is passed through. Otherwise the result is an object with one
/// member for every key that some object output has: when all the values
/// of that key are arrays, the concatenation of their items, in output
/// order; otherwise the last of its values that is not null, or `null`.
pub fn merge_worker_outputs(outputs: Vec<Json>) -> (r: Json)
    ensures
        outputs@.len() == 0 ==> r is Null,
        outputs@.len() == 1 ==> r == outputs@[0],
        outputs@.len() > 1 ==> (r matches Json::Object(m) && {
            &&& forall|i: int, j: int| 0 <= i < j < m@.len() ==> m@[i].0@ != m@[j].0@
            &&& forall|i: int| 0 <= i < m@.len() ==> has_key(outputs@, #[trigger] m@[i].0@)
            &&& forall|k: Seq<char>| #[trigger] has_key(outputs@, k) ==> has_text(m@.map_values(|e: (String, Json)| e.0), k)
            &&& forall|i: int|
                0 <= i < m@.len() ==> data_of(#[trigger] m@[i].1) == merged(data_seq(values_for(outputs@, m@[i].0@)))
        }),
{
    if outputs.len() == 0 {
        return Json::Null;
    }
    if outputs.len() == 1 {
        let mut outputs = outputs;
        match outputs.pop() {
            Some(o) => {
                return o;
            },
            None => {
                return Json::Null;
            },
        }
    }
    let mut keys: Vec<String> = Vec::new();
    let mut i: usize = 0;
    while i < outputs.len()
        invariant
            0 <= i <= outputs@.len(),
            forall|a: int, b: int| 0 <= a < b < keys@.len() ==> keys@[a]@ != keys@[b]@,
            forall|t: int| 0 <= t < keys@.len() ==> has_key(outputs@, #[trigger] keys@[t]@),
            forall|k: Seq<char>, o: int|
                0 <= o < i && #[trigger] member(outputs@[o], k) is Some ==> has_text(keys@, k),
        decreases outputs@.len() - i,
    {
        match &outputs[i] {
            Json::Object(m) => {
                let mut j: usize = 0;
                while j < m.len()
                    invariant
                        0 <= i < outputs@.len(),
                        outputs@[i as int] == Json::Object(*m),
                        0 <= j <= m@.len(),
                        forall|a: int, b: int| 0 <= a < b < keys@.len() ==> keys@[a]@ != keys@[b]@,
                        forall|t: int| 0 <= t < keys@.len() ==> has_key(outputs@, #[trigger] keys@[t]@),
                        forall|k: Seq<char>, o: int|
                            0 <= o < i && #[trigger] member(outputs@[o], k) is Some ==> has_text(keys@, k),
                        forall|q: int| 0 <= q < j ==> has_text(keys@, #[trigger] m@[q].0@),
                    decreases m@.len() - j,
                {
                    proof {
                        assert(member(outputs@[i as int], m@[j as int].0@) is Some);
                    }
                    if !contains_key(&keys, &m[j].0) {
                        let ghost before = keys@;
                        keys.push(m[j].0.clone());
                        proof {
                            assert(keys@[before.len() as int]@ == m@[j as int].0@);
                            assert forall|k: Seq<char>| has_text(before, k) implies has_text(keys@, k) by {
                                let t = choose|t: int| 0 <= t < before.len() && #[trigger] before[t]@ == k;
                                assert(keys@[t] == before[t]);
                            }
                        }
                    }
                    j = j + 1;
                }
                proof {
                    assert forall|k: Seq<char>, o: int|
                        0 <= o < i + 1 && #[trigger] member(outputs@[o], k) is Some implies has_text(keys@, k) by {
                        if o == i {
                            let q = choose|q: int| 0 <= q < m@.len() && m@[q].0@ == k;
                            assert(has_text(keys@, m@[q].0@));
                        }
                    }
                }
            },
            _ => {},
        }
        i = i + 1;
    }
    let mut members: Vec<(String, Json)> = Vec::new();
    let mut t: usize = 0;
    while t < keys.len()
        invariant
            0 <= t <= keys@.len(),
            members@.len() == t,
            forall|a: int| 0 <= a < t ==> (#[trigger] members@[a]).0@ == keys@[a]@,
            forall|a: int|
                0 <= a < t ==> data_of(#[trigger] members@[a].1) == merged(
                    data_seq(values_for(outputs@, keys@[a]@)),
                ),
        decreases keys@.len() - t,
    {
        let vals = values_of_key(&outputs, &keys[t]);
        let v = merge_values(&vals);
        members.push((keys[t].clone(), v));
        t = t + 1;
    }
    let ghost m = members@;
    assert forall|k: Seq<char>| #[trigger] has_key(outputs@, k) implies has_text(
        m.map_values(|e: (String, Json)| e.0),
        k,
    ) by {
        let o = choose|o: int| 0 <= o < outputs@.len() && #[trigger] member(outputs@[o], k) is Some;
        assert(has_text(keys@, k));
        let a = choose|a: int| 0 <= a < keys@.len() && #[trigger] keys@[a]@ == k;
        assert(m.map_values(|e: (String, Json)| e.0)[a]@ == k);
    }
    Json::Object(members)
}

/// A shell tool an agent may call during its loop: the framework runs
/// `command` with the call's arguments on standard input and answers with
/// what it prints.
#[derive(Debug)]
pub struct ToolDef {
    /// Name the model uses to call the tool.
    pub name: String,
    /// Description shown to the model.
    pub description: String,
    /// The command line: program, then arguments; `{{name}}` stands for the
    /// call's argument `name`.
    pub command: Vec<String>,
    /// JSON Schema of the arguments.
    pub args_schema: serde_json::Value,
    /// Maximum wall-clock seconds to wait for the subprocess.
    pub timeout_secs: u32,
}

/// How many agent loops run in parallel for one activation: the configured
/// number, and at least one.
pub fn worker_count(configured: u32) -> (r: u32)
    ensures
        r == if configured == 0 {
            1
        } else {
            configured
        },
{
    if configured == 0 {
        1
    } else {
        configured
    }
}

/// Pairs of texts as plain values.
pub open spec fn text_pairs(parts: Seq<(String, String)>) -> Seq<(Seq<char>, Seq<char>)> {
    parts.map_values(|p: (String, String)| (p.0@, p.1@))
}

/// One input in the opening message of an agent with several declared
/// inputs: `Port: `, the port, a blank line, and the input's JSON text.
pub open spec fn port_section(port: Seq<char>, data: Seq<char>) -> Seq<char> {
    "Port: "@ + port + "\n\n"@ + data
}

/// The sections of all inputs, separated by a line `---` between blank
/// lines.
pub open spec fn labelled(parts: Seq<(Seq<char>, Seq<char>)>) -> Seq<char>
    decreases parts.len(),
{
    if parts.len() == 0 {
        Seq::empty()
    } else if parts.len() == 1 {
        port_section(parts[0].0, parts[0].1)
    } else {
        labelled(parts.drop_last()) + "\n\n---\n\n"@ + port_section(parts.last().0, parts.last().1)
    }
}

/// The opening message of an agent with several declared inputs, from each
/// input's port and JSON text, in order.
pub fn labelled_message(parts: &Vec<(String, String)>) -> (r: String)
    ensures
        r@ == labelled(text_pairs(parts@)),
{
    let ghost all = text_pairs(parts@);
    let mut out = String::new();
    let mut i: usize = 0;
    assert(all.subrange(0, 0) =~= Seq::<(Seq<char>, Seq<char>)>::empty());
    while i < parts.len()
        invariant
            0 <= i <= parts@.len(),
            all == text_pairs(parts@),
            out@ == labelled(all.subrange(0, i as int)),
        decreases parts@.len() - i,
    {
        let ghost before = out@;
        proof {
            assert(all.subrange(0, i + 1).drop_last() =~= all.subrange(0, i as int));
            assert(all.subrange(0, i + 1).last() == all[i as int]);
        }
        if i > 0 {
            out.append("\n\n---\n\n");
        }
        out.append("Port: ");
        out.append(parts[i].0.as_str());
        out.append("\n\n");
        out.append(parts[i].1.as_str());
        proof {
            let sec = port_section(parts@[i as int].0@, parts@[i as int].1@);
            if i > 0 {
                assert(out@ =~= before + "\n\n---\n\n"@ + sec);
            } else {
                assert(out@ =~= sec);
            }
        }
        i = i + 1;
    }
    assert(all.subrange(0, parts@.len() as int) =~= all);
    out
}

/// What an output port receives of an agent's output `value`: the member
/// named after the port, or null.
pub open spec fn port_value(value: Json, port: Seq<char>) -> JsonData {
    match member(value, port) {
        Some(v) => data_of(v),
        None => JsonData::Null,
    }
}

/// Split an agent's output `value` across its declared output ports, as
/// (port, kind, value) triples: with one port, the whole value goes to it;
/// otherwise each port, in order, receives the member named after it, or
/// null.
pub fn split_outputs(outputs: &Vec<PortDef>, value: Json) -> (r: Vec<(String, String, Json)>)
    ensures
        outputs@.len() == 1 ==> r@.len() == 1 && r@[0].0 == outputs@[0].port && r@[0].1 == outputs@[0].kind
            && r@[0].2 == value,
        outputs@.len() != 1 ==> r@.len() == outputs@.len() && forall|i: int|
            0 <= i < outputs@.len() ==> (#[trigger] r@[i]).0 == outputs@[i].port && r@[i].1 == outputs@[i].kind
                && data_of(r@[i].2) == port_value(value, outputs@[i].port@),
{
    let mut out: Vec<(String, String, Json)> = Vec::new();
    if outputs.len() == 1 {
        out.push((outputs[0].port.clone(), outputs[0].kind.clone(), value));
        return out;
    }
    let mut i: usize = 0;
    while i < outputs.len()
        invariant
            0 <= i <= outputs@.len(),
            out@.len() == i,
            forall|t: int|
                0 <= t < i ==> (#[trigger] out@[t]).0 == outputs@[t].port && out@[t].1 == outputs@[t].kind
                    && data_of(out@[t].2) == port_value(value, outputs@[t].port@),
        decreases outputs@.len() - i,
    {
        let v = match value.get(&outputs[i].port) {
            Some(v) => v.duplicate(),
            None => Json::Null,
        };
        out.push((outputs[i].port.clone(), outputs[i].kind.clone(), v));
        i = i + 1;
    }
    out
}

/// Each input's port and the indented JSON text of its payload.
pub open spec fn input_texts(inputs: Seq<PortMsg>) -> Seq<(Seq<char>, Seq<char>)> {
    inputs.map_values(|m: PortMsg| (m.port@, pretty_json_text(json_data(m.artifact.data))))
}

/// The opening message of an agent's loop. With more than one declared
/// input, every input that arrived, labelled by its port (see `labelled`);
/// otherwise the indented JSON text of the first input's payload, or of
/// `null` when none arrived.
pub open spec fn opening_text(declared_inputs: usize, inputs: Seq<PortMsg>) -> Seq<char> {
    if declared_inputs > 1 {
        labelled(input_texts(inputs))
    } else if inputs.len() > 0 {
        pretty_json_text(json_data(inputs[0].artifact.data))
    } else {
        seq!['n', 'u', 'l', 'l']
    }
}

/// Build the opening message of an agent's loop from the inputs of its
/// activation; a payload that could not be written as JSON would be an
/// internal error, but every payload can be.
pub fn initial_message(declared_inputs: usize, inputs: Vec<PortMsg>) -> (r: Result<String, NodeError>)
    ensures
        r matches Ok(t) && t@ == opening_text(declared_inputs, inputs@),
{
    if declared_inputs > 1 {
        let mut parts: Vec<(String, String)> = Vec::new();
        let mut i: usize = 0;
        while i < inputs.len()
            invariant
                0 <= i <= inputs@.len(),
                parts@.len() == i,
                text_pairs(parts@) == input_texts(inputs@.subrange(0, i as int)),
            decreases inputs@.len() - i,
        {
            let text = match pretty_json(&inputs[i].artifact.data) {
                Ok(t) => t,
                Err(m) => {
                    return Err(NodeError::Internal(m));
                },
            };
            let ghost before = parts@;
            parts.push((inputs[i].port.clone(), text));
            proof {
                let want = input_texts(inputs@.subrange(0, i + 1));
                assert(text_pairs(parts@).len() == want.len());
                assert forall|j: int| 0 <= j < want.len() implies text_pairs(parts@)[j] == want[j] by {
                    if j < i {
                        assert(parts@[j] == before[j]);
                        assert(text_pairs(before)[j] == input_texts(inputs@.subrange(0, i as int))[j]);
                    }
                }
                assert(text_pairs(parts@) =~= want);
            }
            i = i + 1;
        }
        assert(inputs@.subrange(0, inputs@.len() as int) =~= inputs@);
        Ok(labelled_message(&parts))
    } else {
        if inputs.len() > 0 {
            match pretty_json(&inputs[0].artifact.data) {
                Ok(t) => Ok(t),
                Err(m) => Err(NodeError::Internal(m)),
            }
        } else {
            proof {
                reveal_strlit("null");
            }
            Ok(String::from_str("null"))
        }
    }
}

/// The schema section of an agent's system preamble, from the indented
/// JSON text of its output schema: a heading and the text in a fenced
/// block; nothing when the schema is `null` or `{}`, or could not be
/// written.
pub open spec fn schema_section(text: Option<Seq<char>>) -> Seq<char> {
    match text {
        Some(s) => if s == "null"@ || s == "{}"@ {
            Seq::empty()
        } else {
            "\n\n# Output Schema\nYour `submit` call must conform to this JSON Schema:\n```json\n"@ + s + "\n```"@
        },
        None => Seq::empty(),
    }
}

/// Names joined by `, `.
pub open spec fn joined_names(names: Seq<Seq<char>>) -> Seq<char>
    decreases names.len(),
{
    if names.len() == 0 {
        Seq::empty()
    } else if names.len() == 1 {
        names[0]
    } else {
        joined_names(names.drop_last()) + ", "@ + names.last()
    }
}

/// The instructions that close an agent's system preamble: its turn limit,
/// the tools it may use when it has any, and that it must end by calling
/// `submit`.
pub open spec fn loop_instructions(tool_names: Seq<Seq<char>>, max_iterations: u32) -> Seq<char> {
    if tool_names.len() == 0 {
        "\n\nYou have at most "@ + decimal_text(max_iterations as nat)
            + " turns. When you have completed your analysis, call the `submit` tool with your structured output. Do not write JSON directly \u{2014} always use submit. IMPORTANT: You must call `submit` before your turns run out."@
    } else {
        "\n\nYou have at most "@ + decimal_text(max_iterations as nat)
            + " turns (each tool call or response counts as one turn). Available tools: "@ + joined_names(
            tool_names,
        )
            + ". Use them to gather information, but budget your turns \u{2014} leave at least one turn to call `submit`. When you are ready to deliver your final result, call the `submit` tool. Do not write JSON directly \u{2014} always use submit. IMPORTANT: You must call `submit` before your turns run out."@
    }
}

/// The full system preamble of an agent loop: the agent's own preamble,
/// the schema section, and the loop instructions.
pub open spec fn full_preamble(
    preamble: Seq<char>,
    schema_text: Option<Seq<char>>,
    tool_names: Seq<Seq<char>>,
    max_iterations: u32,
) -> Seq<char> {
    preamble + schema_section(schema_text) + loop_instructions(tool_names, max_iterations)
}

/// The names of tools as plain values.
pub open spec fn name_texts(names: Seq<String>) -> Seq<Seq<char>> {
    names.map_values(|n: String| n@)
}

/// The full system preamble of an agent loop from the agent's preamble,
/// the indented JSON text of its output schema (`None` when it could not
/// be written), the names of the tools it may call and its turn limit.
pub fn compose_preamble(
    preamble: &str,
    schema_text: Option<String>,
    tool_names: &Vec<String>,
    max_iterations: u32,
) -> (r: String)
    ensures
        r@ == full_preamble(
            preamble@,
            match schema_text {
                Some(s) => Some(s@),
                None => None,
            },
            name_texts(tool_names@),
            max_iterations,
        ),
{
    let ghost text: Option<Seq<char>> = match &schema_text {
        Some(s) => Some(s@),
        None => None,
    };
    let section = match schema_text {
        Some(s) => {
            let null = String::from_str("null");
            let empty = String::from_str("{}");
            if s == null || s == empty {
                String::new()
            } else {
                let mut t = String::from_str(
                    "\n\n# Output Schema\nYour `submit` call must conform to this JSON Schema:\n```json\n",
                );
                t.append(s.as_str());
                t.append("\n```");
                t
            }
        },
        None => String::new(),
    };
    assert(section@ == schema_section(text));
    let mut out = String::from_str(preamble);
    out.append(section.as_str());
    out.append("\n\nYou have at most ");
    out.append(decimal(max_iterations as u64).as_str());
    if tool_names.len() == 0 {
        out.append(
            " turns. When you have completed your analysis, call the `submit` tool with your structured output. Do not write JSON directly \u{2014} always use submit. IMPORTANT: You must call `submit` before your turns run out.",
        );
    } else {
        out.append(" turns (each tool call or response counts as one turn). Available tools: ");
        let names = join_names(tool_names);
        out.append(names.as_str());
        out.append(
            ". Use them to gather information, but budget your turns \u{2014} leave at least one turn to call `submit`. When you are ready to deliver your final result, call the `submit` tool. Do not write JSON directly \u{2014} always use submit. IMPORTANT: You must call `submit` before your turns run out.",
        );
    }
    assert(out@ =~= full_preamble(preamble@, text, name_texts(tool_names@), max_iterations));
    out
}

/// Build the full system preamble of an agent loop: the output schema is
/// written as indented JSON, and the preamble composed with that text (a
/// schema that could not be written would leave the section out, but every
/// schema can be).
pub fn build_preamble(
    preamble: &str,
    tool_names: &Vec<String>,
    max_iterations: u32,
    output_schema: &serde_json::Value,
) -> (r: String)
    ensures
        r@ == full_preamble(
            preamble@,
            Some(pretty_json_text(json_data(*output_schema))),
            name_texts(tool_names@),
            max_iterations,
        ),
{
    let text = match pretty_json(output_schema) {
        Ok(s) => Some(s),
        Err(_) => None,
    };
    compose_preamble(preamble, text, tool_names, max_iterations)
}

/// `names` joined by `, `.
fn join_names(names: &Vec<String>) -> (r: String)
    ensures
        r@ == joined_names(name_texts(names@)),
{
    let ghost all = name_texts(names@);
    let mut out = String::new();
    let mut i: usize = 0;
    assert(all.subrange(0, 0) =~= Seq::<Seq<char>>::empty());
    while i < names.len()
        invariant
            0 <= i <= names@.len(),
            all == name_texts(names@),
            out@ == joined_names(all.subrange(0, i as int)),
        decreases names@.len() - i,
    {
        let ghost before = out@;
        proof {
            assert(all.subrange(0, i + 1).drop_last() =~= all.subrange(0, i as int));
            assert(all.subrange(0, i + 1).last() == all[i as int]);
        }
        if i > 0 {
            out.append(", ");
        }
        out.append(names[i].as_str());
        proof {
            if i > 0 {
                assert(out@ =~= before + ", "@ + all[i as int]);
            } else {
                assert(out@ =~= all[i as int]);
            }
        }
        i = i + 1;
    }
    assert(all.subrange(0, names@.len() as int) =~= all);
    out
}

/// `name` is `submit` in any mix of ASCII letter case: the name of the tool
/// that ends every agent loop, which no declared tool may take.
pub open spec fn reserved_tool_name(name: Seq<char>) -> bool {
    &&& name.len() == 6
    &&& (name[0] == 's' || name[0] == 'S')
    &&& (name[1] == 'u' || name[1] == 'U')
    &&& (name[2] == 'b' || name[2] == 'B')
    &&& (name[3] == 'm' || name[3] == 'M')
    &&& (name[4] == 'i' || name[4] == 'I')
    &&& (name[5] == 't' || name[5] == 'T')
}

/// Whether a declared tool's name is reserved for the terminal `submit`
/// tool.
pub fn is_reserved_tool_name(name: &str) -> (r: bool)
    ensures
        r == reserved_tool_name(name@),
{
    let c = chars_of(name);
    c.len() == 6 && (c[0] == 's' || c[0] == 'S') && (c[1] == 'u' || c[1] == 'U') && (c[2] == 'b' || c[2] == 'B') && (
    c[3] == 'm' || c[3] == 'M') && (c[4] == 'i' || c[4] == 'I') && (c[5] == 't' || c[5] == 'T')
}

/// The value of a decimal digit.
pub open spec fn digit_value(c: char) -> nat {
    (c as nat - '0' as nat) as nat
}

/// `t` is made of decimal digits only.
pub open spec fn all_digits(t: Seq<char>) -> bool {
    forall|i: int| 0 <= i < t.len() ==> '0' <= #[trigger] t[i] <= '9'
}

/// The number the decimal digits `t` write.
pub open spec fn digits_value(t: Seq<char>) -> nat
    decreases t.len(),
{
    if t.len() == 0 {
        0
    } else {
        digits_value(t.drop_last()) * 10 + digit_value(t.last())
    }
}

/// The unsigned integer a JSON number written `t` stands for: a text of
/// decimal digits whose value fits in 64 bits.
pub open spec fn unsigned_of(t: Seq<char>) -> Option<u64> {
    if t.len() > 0 && all_digits(t) && digits_value(t) <= u64::MAX {
        Some(digits_value(t) as u64)
    } else {
        None
    }
}

/// The unsigned integer `t` writes, if it is one.
fn parse_unsigned(t: &str) -> (r: Option<u64>)
    ensures
        r == unsigned_of(t@),
{
    let c = chars_of(t);
    if c.len() == 0 {
        return None;
    }
    let mut value: u64 = 0;
    let mut i: usize = 0;
    while i < c.len()
        invariant
            0 <= i <= c@.len(),
            c@ == t@,
            all_digits(t@.subrange(0, i as int)),
            value == digits_value(t@.subrange(0, i as int)),
        decreases c@.len() - i,
    {
        let ghost pre = t@.subrange(0, i as int);
        let ghost cur = t@.subrange(0, i + 1);
        proof {
            assert(cur.drop_last() =~= pre);
            assert(cur.last() == t@[i as int]);
        }
        let ch = c[i];
        if ch < '0' || ch > '9' {
            proof {
                assert(!all_digits(t@));
            }
            return None;
        }
        let d: u64 = (ch as u32 - '0' as u32) as u64;
        assert(d == digit_value(ch));
        if value > (u64::MAX - d) / 10 {
            proof {
                lemma_digits_grow(t@, i + 1);
                assert(digits_value(cur) > u64::MAX) by (nonlinear_arith)
                    requires
                        digits_value(cur) == value * 10 + d,
                        value > (u64::MAX - d) / 10,
                        d <= 9,
                ;
            }
            return None;
        }
        value = value * 10 + d;
        i = i + 1;
    }
    assert(t@.subrange(0, c@.len() as int) =~= t@);
    Some(value)
}

/// The value of a prefix of digits is at most the value of the whole.
proof fn lemma_digits_grow(t: Seq<char>, n: int)
    requires
        0 <= n <= t.len(),
    ensures
        digits_value(t.subrange(0, n)) <= digits_value(t),
    decreases t.len() - n,
{
    if n < t.len() {
        lemma_digits_grow(t, n + 1);
        let a = t.subrange(0, n);
        let b = t.subrange(0, n + 1);
        assert(b.drop_last() =~= a);
        assert(digits_value(b) == digits_value(a) * 10 + digit_value(b.last()));
        assert(digits_value(a) <= digits_value(b)) by (nonlinear_arith)
            requires
                digits_value(b) == digits_value(a) * 10 + digit_value(b.last()),
        ;
    } else {
        assert(t.subrange(0, n) =~= t);
    }
}

/// The turn limit an agent's configuration sets: its `max_iterations`
/// member when that is an unsigned integer that fits in 32 bits; otherwise
/// the default.
pub open spec fn iteration_limit(config: JsonData, default: u32) -> u32 {
    match data_member(config, "max_iterations"@) {
        Some(JsonData::Number(t)) => match unsigned_of(t) {
            Some(v) => if v <= u32::MAX {
                v as u32
            } else {
                default
            },
            None => default,
        },
        _ => default,
    }
}

/// The turn limit set by an agent's configuration `config`.
pub fn configured_iterations(config: &Json, default: u32) -> (r: u32)
    ensures
        r == iteration_limit(data_of(*config), default),
{
    let key = String::from_str("max_iterations");
    proof {
        lemma_member_data(*config, key@);
    }
    match config.get(&key) {
        Some(Json::Number(t)) => match parse_unsigned(t.as_str()) {
            Some(v) => if v <= 4294967295 {
                v as u32
            } else {
                default
            },
            None => default,
        },
        _ => default,
    }
}

/// A provider error is retried exactly when its message contains one of
/// the transient markers: an empty-body `200 OK` response, or status 503
/// (unavailable), 529 (overloaded) or 502 (bad gateway).
pub proof fn law_retryable_markers(msg: Seq<char>)
    ensures
        retryable(msg) <==> (exists|i: int|
            0 <= i && i + "ProviderResponseError: status 200 OK:"@.len() <= msg.len() && #[trigger] msg.subrange(
                i,
                i + "ProviderResponseError: status 200 OK:"@.len(),
            ) == "ProviderResponseError: status 200 OK:"@) || (exists|i: int|
            0 <= i && i + "status 503"@.len() <= msg.len() && #[trigger] msg.subrange(i, i + "status 503"@.len())
                == "status 503"@) || (exists|i: int|
            0 <= i && i + "status 529"@.len() <= msg.len() && #[trigger] msg.subrange(i, i + "status 529"@.len())
                == "status 529"@) || (exists|i: int|
            0 <= i && i + "status 502"@.len() <= msg.len() && #[trigger] msg.subrange(i, i + "status 502"@.len())
                == "status 502"@),
{
    lemma_occurs_iff(msg, "ProviderResponseError: status 200 OK:"@);
    lemma_occurs_iff(msg, "status 503"@);
    lemma_occurs_iff(msg, "status 529"@);
    lemma_occurs_iff(msg, "status 502"@);
}

/// `x` occurs in `msg` exactly when some stretch of `msg` equals it.
proof fn lemma_occurs_iff(msg: Seq<char>, x: Seq<char>)
    ensures
        occurs(msg, x) <==> exists|i: int|
            0 <= i && i + x.len() <= msg.len() && #[trigger] msg.subrange(i, i + x.len()) == x,
{
    if occurs(msg, x) {
        let i = choose|i: int| occurs_at(msg, x, i);
        assert(msg.subrange(i, i + x.len()) == x);
    }
    if exists|i: int| 0 <= i && i + x.len() <= msg.len() && #[trigger] msg.subrange(i, i + x.len()) == x {
        let i = choose|i: int| 0 <= i && i + x.len() <= msg.len() && #[trigger] msg.subrange(i, i + x.len()) == x;
        assert(occurs_at(msg, x, i));
    }
}

/// The items of the array of key `k` in output `o`, as contents.
pub open spec fn array_member_items(o: Json, k: Seq<char>) -> Seq<JsonData> {
    match member(o, k) {
        Some(Json::Array(items)) => data_seq(items@),
        _ => Seq::empty(),
    }
}

/// When every worker's value of key `k` is an array, the merged value of
/// `k` is one array of all their items in worker order: the items of an
/// earlier worker come before those of a later one, each worker's in its
/// own order.
pub proof fn law_arrays_merge_in_worker_order(outs: Seq<Json>, k: Seq<char>)
    requires
        forall|i: int| 0 <= i < outs.len() ==> #[trigger] member(outs[i], k) matches Some(Json::Array(_)),
    ensures
        merged(data_seq(values_for(outs, k))) == JsonData::Array(
            outs.map_values(|o: Json| array_member_items(o, k)).flatten(),
        ),
{
    lemma_values_all(outs, k);
    let vs = values_for(outs, k);
    let d = data_seq(vs);
    lemma_data_seq_len(vs);
    let g = |x: JsonData| match x {
        JsonData::Array(items) => items,
        _ => Seq::<JsonData>::empty(),
    };
    let h = |o: Json| array_member_items(o, k);
    assert forall|i: int| 0 <= i < d.len() implies #[trigger] d[i] is Array && g(d[i]) == h(outs[i]) by {
        lemma_data_seq_index(vs, i);
        assert(member(outs[i], k) matches Some(Json::Array(_)));
    }
    assert(all_arrays(d));
    lemma_concat_flatten(d);
    assert(d.map_values(g) =~= outs.map_values(h));
    outs.map_values(h).lemma_flatten_and_flatten_alt_are_equivalent();
}

/// When every output has key `k`, its values are those of the outputs in
/// order.
proof fn lemma_values_all(outs: Seq<Json>, k: Seq<char>)
    requires
        forall|i: int| 0 <= i < outs.len() ==> #[trigger] member(outs[i], k) matches Some(Json::Array(_)),
    ensures
        values_for(outs, k).len() == outs.len(),
        forall|i: int| 0 <= i < outs.len() ==> Some(#[trigger] values_for(outs, k)[i]) == member(outs[i], k),
    decreases outs.len(),
{
    if outs.len() > 0 {
        let pre = outs.drop_last();
        assert forall|i: int| 0 <= i < pre.len() implies #[trigger] member(pre[i], k) matches Some(Json::Array(_)) by {
            assert(pre[i] == outs[i]);
            assert(member(outs[i], k) matches Some(Json::Array(_)));
        }
        lemma_values_all(pre, k);
        assert(member(outs[outs.len() - 1], k) matches Some(Json::Array(_)));
        assert forall|i: int| 0 <= i < outs.len() implies Some(#[trigger] values_for(outs, k)[i]) == member(outs[i], k) by {
            if i < outs.len() - 1 {
                assert(values_for(outs, k)[i] == values_for(pre, k)[i]);
                assert(pre[i] == outs[i]);
            }
        }
    }
}

/// The items of the arrays among `d`, as one flattening of their item lists.
proof fn lemma_concat_flatten(d: Seq<JsonData>)
    ensures
        concat_items(d) == d.map_values(
            |x: JsonData|
                match x {
                    JsonData::Array(items) => items,
                    _ => Seq::<JsonData>::empty(),
                },
        ).flatten_alt(),
    decreases d.len(),
{
    let g = |x: JsonData| match x {
        JsonData::Array(items) => items,
        _ => Seq::<JsonData>::empty(),
    };
    if d.len() > 0 {
        lemma_concat_flatten(d.drop_last());
        assert(d.map_values(g).drop_last() =~= d.drop_last().map_values(g));
    } else {
        assert(d.map_values(g) =~= Seq::<Seq<JsonData>>::empty());
    }
}

} // verus!
