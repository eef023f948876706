//! Decisions a run session makes around the scheduler: the port registry
//! a manifest declares, the text of a failed validation, the fingerprint of
//! the graph and configuration, and the lifecycle record of the run.
use vstd::prelude::*;
use vstd::string::*;
use crate::graph::port::{input_entry_of, output_entry_of, PortDef, PortSpec};
use crate::graph::spec::{graph_error_prefix, GraphError, GraphErrorKind};
use crate::graph::validate::PortRegistry;
use crate::persistence::record::{Revision, RunRecord, RunStats, RunStatus};
use crate::scheduler::error::SchedulerError;
use crate::text::{decimal, decimal_text, hex_char, hex_digits};

verus! {

/// The ports a manifest declares for one node kind.
#[derive(Debug)]
pub struct NodeDecl {
    /// The kind the ports are registered under: an agent's identifier, or
    /// a control node's kind.
    pub key: String,
    /// Input port declarations.
    pub inputs: Vec<PortDef>,
    /// Output port declarations.
    pub outputs: Vec<PortDef>,
}

/// The position of the last declaration for `key` in `decls`.
pub open spec fn last_decl(decls: Seq<NodeDecl>, key: Seq<char>) -> Option<int>
    decreases decls.len(),
{
    if decls.len() == 0 {
        None
    } else if decls.last().key@ == key {
        Some(decls.len() - 1)
    } else {
        last_decl(decls.drop_last(), key)
    }
}

/// `ps` holds the ports that declaration `d` declares.
pub open spec fn declares(d: NodeDecl, ps: PortSpec) -> bool {
    &&& ps.inputs@ == d.inputs@.map_values(|p: PortDef| input_entry_of(p))
    &&& ps.outputs@ == d.outputs@.map_values(|p: PortDef| output_entry_of(p))
}

/// Register the ports of every declaration, in order: a later declaration
/// of the same kind replaces an earlier one.
pub fn build_port_registry(decls: &Vec<NodeDecl>) -> (r: PortRegistry)
    ensures
        forall|k: Seq<char>|
            #![trigger r.lookup(k)]
            match last_decl(decls@, k) {
                None => r.lookup(k) is None,
                Some(i) => r.lookup(k) matches Some(ps) && declares(decls@[i], ps),
            },
{
    let mut reg = PortRegistry::new();
    let mut i: usize = 0;
    while i < decls.len()
        invariant
            0 <= i <= decls@.len(),
            forall|k: Seq<char>|
                #![trigger reg.lookup(k)]
                match last_decl(decls@.subrange(0, i as int), k) {
                    None => reg.lookup(k) is None,
                    Some(j) => reg.lookup(k) matches Some(ps) && declares(decls@[j], ps),
                },
        decreases decls@.len() - i,
    {
        let d = &decls[i];
        let spec = PortSpec::from_defs(d.inputs.as_slice(), d.outputs.as_slice());
        reg.register(d.key.clone(), spec);
        proof {
            let pre = decls@.subrange(0, i as int);
            let cur = decls@.subrange(0, i + 1);
            assert(cur.drop_last() =~= pre);
            assert forall|k: Seq<char>|
                #![trigger reg.lookup(k)]
                match last_decl(cur, k) {
                    None => reg.lookup(k) is None,
                    Some(j) => reg.lookup(k) matches Some(ps) && declares(decls@[j], ps),
                } by {
                if k == d.key@ {
                    assert(last_decl(cur, k) == Some(i as int));
                } else {
                    assert(last_decl(cur, k) == last_decl(pre, k));
                    if let Some(j) = last_decl(pre, k) {
                        lemma_last_decl_in(pre, k);
                        assert(pre[j] == decls@[j]);
                    }
                }
            }
        }
        i = i + 1;
    }
    proof {
        assert(decls@.subrange(0, decls@.len() as int) =~= decls@);
        assert forall|k: Seq<char>|
            #![trigger reg.lookup(k)]
            match last_decl(decls@, k) {
                None => reg.lookup(k) is None,
                Some(j) => reg.lookup(k) matches Some(ps) && declares(decls@[j], ps),
            } by {
            assert(last_decl(decls@.subrange(0, decls@.len() as int), k) == last_decl(decls@, k));
        }
    }
    reg
}

/// The last declaration of a key lies within the list and has that key.
proof fn lemma_last_decl_in(decls: Seq<NodeDecl>, key: Seq<char>)
    ensures
        last_decl(decls, key) matches Some(i) ==> 0 <= i < decls.len() && decls[i].key@ == key,
    decreases decls.len(),
{
    if decls.len() > 0 && decls.last().key@ != key {
        lemma_last_decl_in(decls.drop_last(), key);
        if let Some(i) = last_decl(decls.drop_last(), key) {
            assert(decls.drop_last()[i] == decls[i]);
        }
    }
}

/// The texts in `parts` joined by `sep`.
pub open spec fn joined_texts(parts: Seq<Seq<char>>, sep: Seq<char>) -> Seq<char>
    decreases parts.len(),
{
    if parts.len() == 0 {
        Seq::empty()
    } else if parts.len() == 1 {
        parts[0]
    } else {
        joined_texts(parts.drop_last(), sep) + sep + parts.last()
    }
}

/// The display texts of a list of graph errors.
pub open spec fn error_texts(errors: Seq<GraphError>) -> Seq<Seq<char>> {
    errors.map_values(|e: GraphError| graph_error_prefix(e@.0) + e@.1)
}

/// The message of a failed graph validation: the number of errors, then
/// their texts joined by `"; "`.
pub open spec fn validation_failure_text(errors: Seq<GraphError>) -> Seq<char> {
    "Graph validation failed with "@ + decimal_text(errors.len()) + " errors: "@ + joined_texts(
        error_texts(errors),
        "; "@,
    )
}

/// The error a session reports when graph validation found `errors`.
pub fn validation_failure(errors: &Vec<GraphError>) -> (r: GraphError)
    ensures
        r@ == (GraphErrorKind::ParseError, validation_failure_text(errors@)),
{
    let mut joined = String::new();
    let mut i: usize = 0;
    while i < errors.len()
        invariant
            0 <= i <= errors@.len(),
            joined@ == joined_texts(error_texts(errors@.subrange(0, i as int)), "; "@),
        decreases errors@.len() - i,
    {
        proof {
            let pre = errors@.subrange(0, i as int);
            let cur = errors@.subrange(0, i + 1);
            assert(error_texts(cur).drop_last() =~= error_texts(pre));
            assert(error_texts(cur).last() == graph_error_prefix(errors@[i as int]@.0) + errors@[i as int]@.1);
            if i == 0 {
                assert(error_texts(cur) =~= seq![error_texts(cur).last()]);
            }
        }
        if i > 0 {
            joined.append("; ");
        }
        joined.append(errors[i].to_string().as_str());
        i = i + 1;
    }
    proof {
        assert(errors@.subrange(0, errors@.len() as int) =~= errors@);
    }
    let mut msg = String::from_str("Graph validation failed with ");
    msg.append(decimal(errors.len() as u64).as_str());
    msg.append(" errors: ");
    msg.append(joined.as_str());
    GraphError::ParseError(msg)
}

/// The 64-bit FNV-1a hash of `bytes`.
pub open spec fn fnv1a(bytes: Seq<u8>) -> u64
    decreases bytes.len(),
{
    if bytes.len() == 0 {
        14695981039346656037u64
    } else {
        (((fnv1a(bytes.drop_last()) ^ (bytes.last() as u64)) as nat * 1099511628211nat) % 0x1_0000_0000_0000_0000nat) as u64
    }
}

/// The hexadecimal text of the last `n` digits of `v`.
fn hex_text(v: u64, n: u32) -> (r: String)
    ensures
        r@ == hex_digits(v as nat, n as nat),
    decreases n,
{
    if n == 0 {
        String::new()
    } else {
        let mut s = hex_text(v / 16, n - 1);
        s.append(hex_digit(v % 16));
        s
    }
}

/// The one-character text of hexadecimal digit `d`.
fn hex_digit(d: u64) -> (r: &'static str)
    requires
        d < 16,
    ensures
        r@ == seq![hex_char(d as nat)],
{
    proof {
        reveal_strlit("0");
        reveal_strlit("1");
        reveal_strlit("2");
        reveal_strlit("3");
        reveal_strlit("4");
        reveal_strlit("5");
        reveal_strlit("6");
        reveal_strlit("7");
        reveal_strlit("8");
        reveal_strlit("9");
        reveal_strlit("a");
        reveal_strlit("b");
        reveal_strlit("c");
        reveal_strlit("d");
        reveal_strlit("e");
        reveal_strlit("f");
    }
    if d == 0 {
        "0"
    } else if d == 1 {
        "1"
    } else if d == 2 {
        "2"
    } else if d == 3 {
        "3"
    } else if d == 4 {
        "4"
    } else if d == 5 {
        "5"
    } else if d == 6 {
        "6"
    } else if d == 7 {
        "7"
    } else if d == 8 {
        "8"
    } else if d == 9 {
        "9"
    } else if d == 10 {
        "a"
    } else if d == 11 {
        "b"
    } else if d == 12 {
        "c"
    } else if d == 13 {
        "d"
    } else if d == 14 {
        "e"
    } else {
        "f"
    }
}

/// The fingerprint of a serialized value: the FNV-1a hash of its bytes as
/// 16 lowercase hexadecimal digits.
pub fn stable_hash(bytes: &[u8]) -> (r: String)
    ensures
        r@ == hex_digits(fnv1a(bytes@) as nat, 16),
{
    let mut hash: u64 = 14695981039346656037;
    let mut i: usize = 0;
    while i < bytes.len()
        invariant
            0 <= i <= bytes@.len(),
            hash == fnv1a(bytes@.subrange(0, i as int)),
        decreases bytes@.len() - i,
    {
        proof {
            assert(bytes@.subrange(0, i + 1).drop_last() =~= bytes@.subrange(0, i as int));
        }
        hash = hash ^ (bytes[i] as u64);
        hash = hash.wrapping_mul(1099511628211);
        i = i + 1;
    }
    proof {
        assert(bytes@.subrange(0, bytes@.len() as int) =~= bytes@);
    }
    hex_text(hash, 16)
}

/// A new record for run `id`, marked running.
pub fn running_record(id: u128, graph: String, goal: serde_json::Value) -> (r: RunRecord)
    ensures
        r == (RunRecord {
            id,
            graph,
            goal,
            status: RunStatus::Running,
            revision: Revision(0),
            stats: None,
            error: None,
        }),
{
    let mut r = RunRecord::new(id, graph, goal);
    r.status = RunStatus::Running;
    r
}

/// The record of a run whose node could not be built: failed, with the
/// error's text.
pub fn record_node_failure(record: RunRecord, error_text: String) -> (r: RunRecord)
    ensures
        r == (RunRecord { status: RunStatus::Failed, error: Some(error_text), ..record }),
{
    RunRecord { status: RunStatus::Failed, error: Some(error_text), ..record }
}

/// The record of a run the scheduler stopped with `err`, whose display
/// text is `err_text`: a pause keeps the statistics at the pause; a failed
/// node marks the run failed with the node's error; anything else marks it
/// cancelled with the error's text.
pub fn record_scheduler_error(record: RunRecord, err: &SchedulerError, err_text: String) -> (r: RunRecord)
    ensures
        match *err {
            SchedulerError::Paused(s) => r == (RunRecord {
                status: RunStatus::Paused,
                stats: Some(s),
                ..record
            }),
            SchedulerError::NodeFailed { error, .. } => r == (RunRecord {
                status: RunStatus::Failed,
                error: Some(error),
                ..record
            }),
            _ => r == (RunRecord { status: RunStatus::Cancelled, error: Some(err_text), ..record }),
        },
{
    match err {
        SchedulerError::Paused(s) => RunRecord { status: RunStatus::Paused, stats: Some(*s), ..record },
        SchedulerError::NodeFailed { error, .. } => RunRecord {
            status: RunStatus::Failed,
            error: Some(error.clone()),
            ..record
        },
        _ => RunRecord { status: RunStatus::Cancelled, error: Some(err_text), ..record },
    }
}

/// The record of a run that drained: cancelled when it stopped on its
/// budget, completed otherwise, with its final statistics.
pub fn record_completion(record: RunRecord, stats: RunStats, budget_exhausted: bool) -> (r: RunRecord)
    ensures
        r == (RunRecord {
            status: if budget_exhausted {
                RunStatus::Cancelled
            } else {
                RunStatus::Completed
            },
            stats: Some(stats),
            ..record
        }),
{
    let status = if budget_exhausted {
        RunStatus::Cancelled
    } else {
        RunStatus::Completed
    };
    RunRecord { status, stats: Some(stats), ..record }
}

} // verus!
