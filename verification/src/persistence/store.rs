//! Persistence errors and the versioned in-memory run repository.
use vstd::prelude::*;
use vstd::string::*;
use crate::graph::artifact::copy_json;
use crate::persistence::checkpoint::{same_checkpoint, RunCheckpoint};
use crate::persistence::record::{Revision, RunFilter, RunRecord, RunStatus};
use crate::text::{signed_decimal, signed_text, uuid_string, uuid_text};

verus! {

/// Errors returned by the versioned persistence APIs.
#[derive(Debug)]
pub enum PersistenceError {
    /// The requested run does not exist.
    NotFound(u128),
    /// A run already exists with the requested identifier.
    AlreadyExists(u128),
    /// An optimistic-concurrency revision did not match.
    RevisionConflict {
        /// The run whose revision conflicted.
        run_id: u128,
        /// The revision supplied by the caller.
        expected: Revision,
        /// The revision currently stored.
        actual: Revision,
    },
    /// The persistence backend could not complete an operation.
    Io(String),
    /// A persisted record was malformed.
    Serialization(String),
    /// An external artifact would overwrite an existing buffered input.
    InputConflict {
        /// Target node.
        node_id: String,
        /// Target input port.
        port: String,
    },
}

/// The debug text of a revision, `Revision(n)`.
pub open spec fn revision_text(r: Revision) -> Seq<char> {
    "Revision("@ + signed_text(r.0 as int) + ")"@
}

/// The display text of a persistence error.
pub open spec fn persistence_error_text(e: PersistenceError) -> Seq<char> {
    match e {
        PersistenceError::NotFound(id) => "run "@ + uuid_text(id) + " was not found"@,
        PersistenceError::AlreadyExists(id) => "run "@ + uuid_text(id) + " already exists"@,
        PersistenceError::RevisionConflict { run_id, expected, actual } => "revision conflict for run "@
            + uuid_text(run_id) + ": expected "@ + revision_text(expected) + ", actual "@ + revision_text(actual),
        PersistenceError::Io(m) => "persistence I/O error: "@ + m@,
        PersistenceError::Serialization(m) => "invalid persisted run record: "@ + m@,
        PersistenceError::InputConflict { node_id, port } => "input already exists for node '"@ + node_id@
            + "' port '"@ + port@ + "'"@,
    }
}

/// The debug text of a revision.
fn revision_string(r: Revision) -> (s: String)
    ensures
        s@ == revision_text(r),
{
    let mut s = String::from_str("Revision(");
    s.append(signed_decimal(r.0).as_str());
    s.append(")");
    s
}

impl PersistenceError {
    /// The error's display text.
    pub fn to_string(&self) -> (r: String)
        ensures
            r@ == persistence_error_text(*self),
    {
        match self {
            PersistenceError::NotFound(id) => {
                let mut s = String::from_str("run ");
                s.append(uuid_string(*id).as_str());
                s.append(" was not found");
                s
            },
            PersistenceError::AlreadyExists(id) => {
                let mut s = String::from_str("run ");
                s.append(uuid_string(*id).as_str());
                s.append(" already exists");
                s
            },
            PersistenceError::RevisionConflict { run_id, expected, actual } => {
                let mut s = String::from_str("revision conflict for run ");
                s.append(uuid_string(*run_id).as_str());
                s.append(": expected ");
                s.append(revision_string(*expected).as_str());
                s.append(", actual ");
                s.append(revision_string(*actual).as_str());
                s
            },
            PersistenceError::Io(m) => {
                let mut s = String::from_str("persistence I/O error: ");
                s.append(m.as_str());
                s
            },
            PersistenceError::Serialization(m) => {
                let mut s = String::from_str("invalid persisted run record: ");
                s.append(m.as_str());
                s
            },
            PersistenceError::InputConflict { node_id, port } => {
                let mut s = String::from_str("input already exists for node '");
                s.append(node_id.as_str());
                s.append("' port '");
                s.append(port.as_str());
                s.append("'");
                s
            },
        }
    }
}

/// A durable scheduler event stored for a run.
#[derive(Debug, PartialEq)]
pub struct RunEvent {
    /// Run that produced the event.
    pub run_id: u128,
    /// Position of the event within its run, from zero.
    pub sequence: u64,
    /// Unix timestamp in milliseconds when the event was stored.
    pub timestamp_ms: u64,
    /// Serialized scheduler event payload.
    pub event: serde_json::Value,
}

impl Clone for RunEvent {
    fn clone(&self) -> (res: Self)
        ensures
            res == *self,
    {
        RunEvent {
            run_id: self.run_id,
            sequence: self.sequence,
            timestamp_ms: self.timestamp_ms,
            event: copy_json(&self.event),
        }
    }
}

/// Record identifiers strictly increase along `v`.
pub open spec fn sorted_ids(v: Seq<RunRecord>) -> bool {
    forall|i: int, j: int| 0 <= i < j < v.len() ==> v[i].id < v[j].id
}

/// The records of `v` by identifier.
pub open spec fn record_map(v: Seq<RunRecord>) -> Map<u128, RunRecord> {
    Map::new(
        |id: u128| exists|i: int| 0 <= i < v.len() && v[i].id == id,
        |id: u128| v[choose|i: int| 0 <= i < v.len() && v[i].id == id],
    )
}

/// Checkpoint run identifiers occur at most once in `v`.
pub open spec fn unique_runs(v: Seq<RunCheckpoint>) -> bool {
    forall|i: int, j: int| 0 <= i < v.len() && 0 <= j < v.len() && i != j ==> v[i].run_id != v[j].run_id
}

/// The checkpoints of `v` by run identifier.
pub open spec fn checkpoint_map(v: Seq<RunCheckpoint>) -> Map<u128, RunCheckpoint> {
    Map::new(
        |id: u128| exists|i: int| 0 <= i < v.len() && v[i].run_id == id,
        |id: u128| v[choose|i: int| 0 <= i < v.len() && v[i].run_id == id],
    )
}

/// The events of run `id` in `evs`, in order.
pub open spec fn events_for(evs: Seq<RunEvent>, id: u128) -> Seq<RunEvent>
    decreases evs.len(),
{
    if evs.len() == 0 {
        Seq::empty()
    } else if evs.last().run_id == id {
        events_for(evs.drop_last(), id).push(evs.last())
    } else {
        events_for(evs.drop_last(), id)
    }
}

/// `evs` without the events of run `id`.
pub open spec fn events_without(evs: Seq<RunEvent>, id: u128) -> Seq<RunEvent>
    decreases evs.len(),
{
    if evs.len() == 0 {
        Seq::empty()
    } else if evs.last().run_id == id {
        events_without(evs.drop_last(), id)
    } else {
        events_without(evs.drop_last(), id).push(evs.last())
    }
}

/// Each run's events are numbered 0, 1, 2, ... in the order they were
/// appended.
pub open spec fn numbered(evs: Seq<RunEvent>) -> bool {
    forall|id: u128, i: int| 0 <= i < events_for(evs, id).len() ==> (#[trigger] events_for(evs, id)[i]).sequence == i
}

/// Events of one run are unaffected by appending an event of another, and
/// gain it at the end otherwise.
proof fn lemma_events_push(evs: Seq<RunEvent>, e: RunEvent, id: u128)
    ensures
        events_for(evs.push(e), id) == if e.run_id == id {
            events_for(evs, id).push(e)
        } else {
            events_for(evs, id)
        },
{
    assert(evs.push(e).drop_last() =~= evs);
}

/// Removing the events of run `x` removes exactly those.
proof fn lemma_events_without(evs: Seq<RunEvent>, x: u128, id: u128)
    ensures
        events_for(events_without(evs, x), id) == if id == x {
            Seq::<RunEvent>::empty()
        } else {
            events_for(evs, id)
        },
    decreases evs.len(),
{
    if evs.len() > 0 {
        lemma_events_without(evs.drop_last(), x, id);
        if evs.last().run_id != x {
            lemma_events_push(events_without(evs.drop_last(), x), evs.last(), id);
        }
    }
}

/// A record with status `s` passes `filter`'s status constraint.
pub open spec fn status_matches(filter: RunFilter, s: RunStatus) -> bool {
    match filter.status {
        None => true,
        Some(w) => w == s,
    }
}

/// `r` lists the records of `runs` that pass `filter`, by increasing
/// identifier, cut to the filter's limit.
pub open spec fn listed(runs: Map<u128, RunRecord>, filter: RunFilter, r: Seq<RunRecord>) -> bool {
    &&& forall|i: int, j: int| 0 <= i < j < r.len() ==> r[i].id < r[j].id
    &&& forall|i: int|
        0 <= i < r.len() ==> runs.contains_key(#[trigger] r[i].id) && runs[r[i].id] == r[i] && status_matches(
            filter,
            r[i].status,
        )
    &&& match filter.limit {
        None => true,
        Some(l) => r.len() <= l,
    }
    &&& forall|id: u128|
        #![trigger runs[id]]
        runs.contains_key(id) && status_matches(filter, runs[id].status) ==> (exists|i: int|
            0 <= i < r.len() && r[i].id == id) || (filter.limit matches Some(l) && r.len() == l && forall|i: int|
            0 <= i < r.len() ==> r[i].id < id)
}

/// With sorted identifiers, the record at `i` is what the map holds for
/// its identifier.
proof fn lemma_record_at(v: Seq<RunRecord>, i: int)
    requires
        sorted_ids(v),
        0 <= i < v.len(),
    ensures
        record_map(v).contains_key(v[i].id),
        record_map(v)[v[i].id] == v[i],
{
    assert(record_map(v).contains_key(v[i].id));
    let j = choose|j: int| 0 <= j < v.len() && v[j].id == v[i].id;
    if j < i {
    } else if j > i {
    }
}

/// With unique run identifiers, the checkpoint at `i` is what the map holds
/// for its run.
proof fn lemma_checkpoint_at(v: Seq<RunCheckpoint>, i: int)
    requires
        unique_runs(v),
        0 <= i < v.len(),
    ensures
        checkpoint_map(v).contains_key(v[i].run_id),
        checkpoint_map(v)[v[i].run_id] == v[i],
{
    assert(checkpoint_map(v).contains_key(v[i].run_id));
    let j = choose|j: int| 0 <= j < v.len() && v[j].run_id == v[i].run_id;
    assert(j == i);
}

/// Versioned run repository, checkpoint store and event history held in
/// memory: run records by identifier, the latest checkpoint of each run,
/// and the events of all runs in the order they were appended.
pub struct InMemoryRunPersistence {
    runs: Vec<RunRecord>,
    checkpoints: Vec<RunCheckpoint>,
    events: Vec<RunEvent>,
}

impl InMemoryRunPersistence {
    /// Records are kept by increasing identifier, and each run has at most
    /// one checkpoint.
    #[verifier::type_invariant]
    closed spec fn well_formed(self) -> bool {
        &&& sorted_ids(self.runs@)
        &&& unique_runs(self.checkpoints@)
        &&& numbered(self.events@)
    }

    /// The stored run records by identifier.
    pub closed spec fn runs(self) -> Map<u128, RunRecord> {
        record_map(self.runs@)
    }

    /// The latest checkpoint of each run.
    pub closed spec fn checkpoints(self) -> Map<u128, RunCheckpoint> {
        checkpoint_map(self.checkpoints@)
    }

    /// The stored events of all runs, in the order they were appended.
    pub closed spec fn events(self) -> Seq<RunEvent> {
        self.events@
    }

    /// An empty store.
    pub fn new() -> (r: Self)
        ensures
            r.runs() == Map::<u128, RunRecord>::empty(),
            r.checkpoints() == Map::<u128, RunCheckpoint>::empty(),
            r.events() == Seq::<RunEvent>::empty(),
    {
        let r = InMemoryRunPersistence { runs: Vec::new(), checkpoints: Vec::new(), events: Vec::new() };
        assert(record_map(r.runs@) =~= Map::empty());
        assert(checkpoint_map(r.checkpoints@) =~= Map::empty());
        r
    }

    /// The position of the first record whose identifier is at least `id`.
    fn run_slot(&self, id: u128) -> (r: usize)
        ensures
            r <= self.runs@.len(),
            forall|j: int| 0 <= j < r ==> self.runs@[j].id < id,
            r < self.runs@.len() ==> self.runs@[r as int].id >= id,
            self.runs().contains_key(id) <==> (r < self.runs@.len() && self.runs@[r as int].id == id),
    {
        proof {
            use_type_invariant(self);
        }
        let mut i: usize = 0;
        while i < self.runs.len()
            invariant
                0 <= i <= self.runs@.len(),
                forall|j: int| 0 <= j < i ==> self.runs@[j].id < id,
            ensures
                0 <= i <= self.runs@.len(),
                forall|j: int| 0 <= j < i ==> self.runs@[j].id < id,
                i < self.runs@.len() ==> self.runs@[i as int].id >= id,
            decreases self.runs@.len() - i,
        {
            if self.runs[i].id >= id {
                break;
            }
            i = i + 1;
        }
        proof {
            if self.runs().contains_key(id) {
                let j = choose|j: int| 0 <= j < self.runs@.len() && self.runs@[j].id == id;
                if j > i {
                    assert(self.runs@[i as int].id < self.runs@[j].id);
                }
            }
            if i < self.runs@.len() && self.runs@[i as int].id == id {
                assert(record_map(self.runs@).contains_key(id));
            }
        }
        i
    }

    /// Insert a new run at revision zero. Fails with `AlreadyExists`, and
    /// changes nothing, when a run with that identifier is stored.
    pub fn create(&mut self, record: RunRecord) -> (r: Result<RunRecord, PersistenceError>)
        ensures
            old(self).runs().contains_key(record.id) <==> r is Err,
            r matches Err(e) ==> (e matches PersistenceError::AlreadyExists(id) && id == record.id)
                && final(self).runs() == old(self).runs(),
            r matches Ok(rec) ==> rec == (RunRecord { revision: Revision(0), ..record })
                && final(self).runs() == old(self).runs().insert(record.id, rec),
            final(self).checkpoints() == old(self).checkpoints(),
            final(self).events() == old(self).events(),
    {
        let rec = RunRecord { revision: Revision(0), ..record };
        let out = rec.clone();
        match self.insert(rec) {
            Ok(()) => Ok(out),
            Err(e) => Err(e),
        }
    }

    /// Store a run record as it is, revision included. Fails with
    /// `AlreadyExists`, and changes nothing, when a run with that identifier
    /// is stored.
    pub fn insert(&mut self, record: RunRecord) -> (r: Result<(), PersistenceError>)
        ensures
            old(self).runs().contains_key(record.id) <==> r is Err,
            r matches Err(e) ==> (e matches PersistenceError::AlreadyExists(id) && id == record.id)
                && final(self).runs() == old(self).runs(),
            r is Ok ==> final(self).runs() == old(self).runs().insert(record.id, record),
            final(self).checkpoints() == old(self).checkpoints(),
            final(self).events() == old(self).events(),
    {
        proof {
            use_type_invariant(&*self);
        }
        let id = record.id;
        let k = self.run_slot(id);
        if k < self.runs.len() && self.runs[k].id == id {
            return Err(PersistenceError::AlreadyExists(id));
        }
        let rec = record;
        let ghost out = rec;
        let mut runs = Vec::new();
        std::mem::swap(&mut runs, &mut self.runs);
        let ghost pre = runs@;
        runs.insert(k, rec);
        proof {
            let nv = runs@;
            assert forall|a: int, b: int| 0 <= a < b < nv.len() implies nv[a].id < nv[b].id by {
                if b < k {
                    assert(nv[a] == pre[a] && nv[b] == pre[b]);
                } else if b == k {
                    assert(nv[a] == pre[a]);
                } else if a < k {
                    assert(nv[a] == pre[a] && nv[b] == pre[b - 1]);
                    if k < pre.len() {
                        assert(pre[k as int].id > id);
                        assert(pre[k as int].id <= pre[b - 1].id);
                    }
                } else if a == k {
                    assert(nv[b] == pre[b - 1]);
                    assert(pre[k as int].id <= pre[b - 1].id);
                } else {
                    assert(nv[a] == pre[a - 1] && nv[b] == pre[b - 1]);
                }
            }
            lemma_record_at(nv, k as int);
            let expect = record_map(pre).insert(id, out);
            assert forall|q: u128| #[trigger] record_map(nv).contains_key(q) == expect.contains_key(q) && (
            record_map(nv).contains_key(q) ==> record_map(nv)[q] == expect[q]) by {
                if q != id {
                    if exists|j: int| 0 <= j < nv.len() && nv[j].id == q {
                        let j = choose|j: int| 0 <= j < nv.len() && nv[j].id == q;
                        lemma_record_at(nv, j);
                        let t = if j < k {
                            j
                        } else {
                            j - 1
                        };
                        assert(nv[j] == pre[t]);
                        lemma_record_at(pre, t);
                    }
                    if exists|j: int| 0 <= j < pre.len() && pre[j].id == q {
                        let j = choose|j: int| 0 <= j < pre.len() && pre[j].id == q;
                        let t = if j < k {
                            j
                        } else {
                            j + 1
                        };
                        assert(nv[t] == pre[j]);
                    }
                }
            }
            assert(record_map(nv) =~= expect);
        }
        self.runs = runs;
        Ok(())
    }

    /// The run with identifier `id`, if stored.
    pub fn get_versioned(&self, id: u128) -> (r: Option<RunRecord>)
        ensures
            r == (if self.runs().contains_key(id) {
                Some(self.runs()[id])
            } else {
                None
            }),
    {
        proof {
            use_type_invariant(self);
        }
        let k = self.run_slot(id);
        if k < self.runs.len() && self.runs[k].id == id {
            proof {
                lemma_record_at(self.runs@, k as int);
            }
            Some(self.runs[k].clone())
        } else {
            None
        }
    }

    /// Replace a stored run when its revision equals `expected`; the saved
    /// record gets the next revision. Fails with `NotFound` when the run is
    /// not stored and with `RevisionConflict` when the revisions differ,
    /// changing nothing.
    pub fn save_if_revision(&mut self, record: RunRecord, expected: Revision) -> (r: Result<
        RunRecord,
        PersistenceError,
    >)
        ensures
            !old(self).runs().contains_key(record.id) <==> (r matches Err(PersistenceError::NotFound(id))
                && id == record.id),
            old(self).runs().contains_key(record.id) && old(self).runs()[record.id].revision != expected <==> (
            r matches Err(PersistenceError::RevisionConflict { run_id, expected: e, actual })
                && run_id == record.id && e == expected && actual == old(self).runs()[record.id].revision),
            old(self).runs().contains_key(record.id) && old(self).runs()[record.id].revision == expected ==> r is Ok,
            r is Err ==> final(self).runs() == old(self).runs(),
            r matches Ok(rec) ==> old(self).runs().contains_key(record.id) && old(self).runs()[record.id].revision
                == expected && rec == (RunRecord { revision: next_revision(expected), ..record })
                && final(self).runs() == old(self).runs().insert(record.id, rec),
            final(self).checkpoints() == old(self).checkpoints(),
            final(self).events() == old(self).events(),
    {
        proof {
            use_type_invariant(&*self);
        }
        let id = record.id;
        let k = self.run_slot(id);
        if !(k < self.runs.len() && self.runs[k].id == id) {
            return Err(PersistenceError::NotFound(id));
        }
        proof {
            lemma_record_at(self.runs@, k as int);
        }
        let actual = self.runs[k].revision;
        if actual.0 != expected.0 {
            return Err(PersistenceError::RevisionConflict { run_id: id, expected, actual });
        }
        let next = if expected.0 < i64::MAX {
            expected.0 + 1
        } else {
            i64::MAX
        };
        let rec = RunRecord { revision: Revision(next), ..record };
        let out = rec.clone();
        let mut runs = Vec::new();
        std::mem::swap(&mut runs, &mut self.runs);
        let ghost pre = runs@;
        runs.set(k, rec);
        proof {
            let nv = runs@;
            assert forall|a: int, b: int| 0 <= a < b < nv.len() implies nv[a].id < nv[b].id by {
                assert(a != k ==> nv[a] == pre[a]);
                assert(b != k ==> nv[b] == pre[b]);
            }
            lemma_record_at(nv, k as int);
            let expect = record_map(pre).insert(id, out);
            assert forall|q: u128| #[trigger] record_map(nv).contains_key(q) == expect.contains_key(q) && (
            record_map(nv).contains_key(q) ==> record_map(nv)[q] == expect[q]) by {
                if q != id {
                    if exists|j: int| 0 <= j < nv.len() && nv[j].id == q {
                        let j = choose|j: int| 0 <= j < nv.len() && nv[j].id == q;
                        lemma_record_at(nv, j);
                        assert(nv[j] == pre[j]);
                        lemma_record_at(pre, j);
                    }
                    if exists|j: int| 0 <= j < pre.len() && pre[j].id == q {
                        let j = choose|j: int| 0 <= j < pre.len() && pre[j].id == q;
                        assert(nv[j] == pre[j]);
                    }
                }
            }
            assert(record_map(nv) =~= expect);
        }
        self.runs = runs;
        Ok(out)
    }

    /// The stored runs that pass `filter`, by increasing identifier, at most
    /// the filter's limit of them.
    pub fn list(&self, filter: RunFilter) -> (r: Vec<RunRecord>)
        ensures
            listed(self.runs(), filter, r@),
    {
        proof {
            use_type_invariant(self);
        }
        let mut out: Vec<RunRecord> = Vec::new();
        let ghost mut src: Seq<int> = Seq::empty();
        let mut i: usize = 0;
        while i < self.runs.len()
            invariant
                0 <= i <= self.runs@.len(),
                sorted_ids(self.runs@),
                src.len() == out@.len(),
                forall|j: int| 0 <= j < src.len() ==> 0 <= #[trigger] src[j] < i,
                forall|j: int| 0 <= j < src.len() ==> out@[j] == self.runs@[#[trigger] src[j]],
                forall|a: int, b: int| 0 <= a < b < src.len() ==> src[a] < src[b],
                forall|j: int| 0 <= j < out@.len() ==> status_matches(filter, (#[trigger] out@[j]).status),
                filter.limit matches Some(l) ==> out@.len() <= l,
                forall|t: int|
                    0 <= t < i && status_matches(filter, (#[trigger] self.runs@[t]).status) ==> (exists|j: int|
                        0 <= j < src.len() && src[j] == t) || (filter.limit matches Some(l) && out@.len() == l
                        && forall|j: int| 0 <= j < src.len() ==> src[j] < t),
            decreases self.runs@.len() - i,
        {
            let rec = &self.runs[i];
            let matches = match filter.status {
                None => true,
                Some(w) => w == rec.status,
            };
            let room = match filter.limit {
                None => true,
                Some(l) => out.len() < l,
            };
            if matches && room {
                let ghost old_src = src;
                let ghost old_out = out@;
                out.push(rec.clone());
                proof {
                    src = src.push(i as int);
                    assert forall|j: int| 0 <= j < src.len() implies out@[j] == self.runs@[#[trigger] src[j]] by {
                        if j < old_src.len() {
                            assert(out@[j] == old_out[j]);
                            assert(src[j] == old_src[j]);
                        }
                    }
                    assert forall|t: int|
                        0 <= t < i + 1 && status_matches(filter, (#[trigger] self.runs@[t]).status) implies (exists|j: int|
                            0 <= j < src.len() && src[j] == t) || (filter.limit matches Some(l) && out@.len() == l
                            && forall|j: int| 0 <= j < src.len() ==> src[j] < t) by {
                        if t == i {
                            assert(src[src.len() - 1] == t);
                        } else if exists|j: int| 0 <= j < old_src.len() && old_src[j] == t {
                            let j = choose|j: int| 0 <= j < old_src.len() && old_src[j] == t;
                            assert(src[j] == t);
                        }
                    }
                }
            }
            i = i + 1;
        }
        proof {
            let r = out@;
            let runs = self.runs();
            assert forall|a: int, b: int| 0 <= a < b < r.len() implies r[a].id < r[b].id by {
                assert(src[a] < src[b]);
            }
            assert forall|a: int| 0 <= a < r.len() implies runs.contains_key(#[trigger] r[a].id) && runs[r[a].id]
                == r[a] && status_matches(filter, r[a].status) by {
                lemma_record_at(self.runs@, src[a]);
            }
            assert forall|id: u128|
                #![trigger runs[id]]
                runs.contains_key(id) && status_matches(filter, runs[id].status) implies (exists|a: int|
                    0 <= a < r.len() && r[a].id == id) || (filter.limit matches Some(l) && r.len() == l && forall|a: int|
                    0 <= a < r.len() ==> r[a].id < id) by {
                let t = choose|t: int| 0 <= t < self.runs@.len() && self.runs@[t].id == id;
                lemma_record_at(self.runs@, t);
                if exists|j: int| 0 <= j < src.len() && src[j] == t {
                    let j = choose|j: int| 0 <= j < src.len() && src[j] == t;
                    assert(r[j].id == id);
                } else {
                    assert forall|a: int| 0 <= a < r.len() implies r[a].id < id by {
                        assert(src[a] < t);
                    }
                }
            }
        }
        out
    }
}

/// The revision that follows `r` (it saturates at the maximum).
pub open spec fn next_revision(r: Revision) -> Revision {
    if r.0 < i64::MAX {
        Revision((r.0 + 1) as i64)
    } else {
        r
    }
}

impl InMemoryRunPersistence {
    /// Delete a stored run together with its checkpoint and events. Fails
    /// with `NotFound`, changing nothing, when the run is not stored.
    pub fn delete_versioned(&mut self, id: u128) -> (r: Result<(), PersistenceError>)
        ensures
            !old(self).runs().contains_key(id) <==> r is Err,
            r matches Err(e) ==> (e matches PersistenceError::NotFound(x) && x == id) && final(self).runs()
                == old(self).runs() && final(self).checkpoints() == old(self).checkpoints() && final(self).events()
                == old(self).events(),
            r is Ok ==> final(self).runs() == old(self).runs().remove(id) && final(self).checkpoints() == old(
                self,
            ).checkpoints().remove(id) && final(self).events() == events_without(old(self).events(), id),
    {
        proof {
            use_type_invariant(&*self);
        }
        let k = self.run_slot(id);
        if !(k < self.runs.len() && self.runs[k].id == id) {
            return Err(PersistenceError::NotFound(id));
        }
        let mut runs = Vec::new();
        std::mem::swap(&mut runs, &mut self.runs);
        let ghost pre = runs@;
        runs.remove(k);
        proof {
            let nv = runs@;
            assert forall|a: int, b: int| 0 <= a < b < nv.len() implies nv[a].id < nv[b].id by {
                let ta = if a < k {
                    a
                } else {
                    a + 1
                };
                let tb = if b < k {
                    b
                } else {
                    b + 1
                };
                assert(nv[a] == pre[ta] && nv[b] == pre[tb]);
            }
            let expect = record_map(pre).remove(id);
            assert forall|q: u128| #[trigger] record_map(nv).contains_key(q) == expect.contains_key(q) && (
            record_map(nv).contains_key(q) ==> record_map(nv)[q] == expect[q]) by {
                if exists|j: int| 0 <= j < nv.len() && nv[j].id == q {
                    let j = choose|j: int| 0 <= j < nv.len() && nv[j].id == q;
                    lemma_record_at(nv, j);
                    let t = if j < k {
                        j
                    } else {
                        j + 1
                    };
                    assert(nv[j] == pre[t]);
                    lemma_record_at(pre, t);
                    assert(t != k);
                }
                if q != id && exists|j: int| 0 <= j < pre.len() && pre[j].id == q {
                    let j = choose|j: int| 0 <= j < pre.len() && pre[j].id == q;
                    assert(j != k);
                    let t = if j < k {
                        j
                    } else {
                        j - 1
                    };
                    assert(nv[t] == pre[j]);
                }
            }
            assert(record_map(nv) =~= expect);
        }
        self.runs = runs;
        self.remove_checkpoint(id);
        self.remove_events(id);
        Ok(())
    }

    /// Drop the checkpoint of run `id`, if any.
    fn remove_checkpoint(&mut self, id: u128)
        ensures
            final(self).runs() == old(self).runs(),
            final(self).checkpoints() == old(self).checkpoints().remove(id),
            final(self).events() == old(self).events(),
    {
        proof {
            use_type_invariant(&*self);
        }
        let mut i: usize = 0;
        while i < self.checkpoints.len()
            invariant
                0 <= i <= self.checkpoints@.len(),
                forall|j: int| 0 <= j < i ==> self.checkpoints@[j].run_id != id,
            ensures
                0 <= i <= self.checkpoints@.len(),
                forall|j: int| 0 <= j < i ==> self.checkpoints@[j].run_id != id,
                i < self.checkpoints@.len() ==> self.checkpoints@[i as int].run_id == id,
            decreases self.checkpoints@.len() - i,
        {
            if self.checkpoints[i].run_id == id {
                break;
            }
            i = i + 1;
        }
        if i == self.checkpoints.len() {
            proof {
                assert(checkpoint_map(self.checkpoints@).remove(id) =~= checkpoint_map(self.checkpoints@));
            }
            return;
        }
        let mut cps = Vec::new();
        std::mem::swap(&mut cps, &mut self.checkpoints);
        let ghost pre = cps@;
        cps.remove(i);
        proof {
            let nv = cps@;
            assert forall|a: int, b: int| 0 <= a < nv.len() && 0 <= b < nv.len() && a != b implies nv[a].run_id
                != nv[b].run_id by {
                let ta = if a < i {
                    a
                } else {
                    a + 1
                };
                let tb = if b < i {
                    b
                } else {
                    b + 1
                };
                assert(nv[a] == pre[ta] && nv[b] == pre[tb]);
            }
            let expect = checkpoint_map(pre).remove(id);
            assert forall|q: u128| #[trigger] checkpoint_map(nv).contains_key(q) == expect.contains_key(q) && (
            checkpoint_map(nv).contains_key(q) ==> checkpoint_map(nv)[q] == expect[q]) by {
                if exists|j: int| 0 <= j < nv.len() && nv[j].run_id == q {
                    let j = choose|j: int| 0 <= j < nv.len() && nv[j].run_id == q;
                    lemma_checkpoint_at(nv, j);
                    let t = if j < i {
                        j
                    } else {
                        j + 1
                    };
                    assert(nv[j] == pre[t]);
                    lemma_checkpoint_at(pre, t);
                    assert(t != i);
                }
                if q != id && exists|j: int| 0 <= j < pre.len() && pre[j].run_id == q {
                    let j = choose|j: int| 0 <= j < pre.len() && pre[j].run_id == q;
                    assert(j != i);
                    let t = if j < i {
                        j
                    } else {
                        j - 1
                    };
                    assert(nv[t] == pre[j]);
                }
            }
            assert(checkpoint_map(nv) =~= expect);
        }
        self.checkpoints = cps;
    }

    /// Drop the events of run `id`.
    fn remove_events(&mut self, id: u128)
        ensures
            final(self).runs() == old(self).runs(),
            final(self).checkpoints() == old(self).checkpoints(),
            final(self).events() == events_without(old(self).events(), id),
    {
        proof {
            use_type_invariant(&*self);
        }
        let ghost pre = self.events@;
        let mut kept: Vec<RunEvent> = Vec::new();
        let mut i: usize = 0;
        assert(pre.subrange(0, 0) =~= Seq::<RunEvent>::empty());
        while i < self.events.len()
            invariant
                0 <= i <= pre.len(),
                self.events@ == pre,
                kept@ == events_without(pre.subrange(0, i as int), id),
            decreases pre.len() - i,
        {
            proof {
                assert(pre.subrange(0, i + 1).drop_last() =~= pre.subrange(0, i as int));
            }
            if self.events[i].run_id != id {
                kept.push(self.events[i].clone());
            }
            i = i + 1;
        }
        proof {
            assert(pre.subrange(0, pre.len() as int) =~= pre);
            assert forall|q: u128, t: int| 0 <= t < events_for(kept@, q).len() implies (#[trigger] events_for(
                kept@,
                q,
            )[t]).sequence == t by {
                lemma_events_without(pre, id, q);
            }
        }
        self.events = kept;
    }

    /// Append `event` to the history of run `run_id`, stamped
    /// `timestamp_ms`; it is numbered after the run's earlier events.
    pub fn append_event(&mut self, run_id: u128, event: serde_json::Value, timestamp_ms: u64) -> (r: RunEvent)
        ensures
            r == (RunEvent {
                run_id,
                sequence: events_for(old(self).events(), run_id).len() as u64,
                timestamp_ms,
                event,
            }),
            final(self).events() == old(self).events().push(r),
            final(self).runs() == old(self).runs(),
            final(self).checkpoints() == old(self).checkpoints(),
    {
        proof {
            use_type_invariant(&*self);
        }
        let ghost pre = self.events@;
        let mut count: usize = 0;
        let mut i: usize = 0;
        assert(pre.subrange(0, 0) =~= Seq::<RunEvent>::empty());
        while i < self.events.len()
            invariant
                0 <= i <= pre.len(),
                self.events@ == pre,
                count == events_for(pre.subrange(0, i as int), run_id).len(),
                count <= i,
            decreases pre.len() - i,
        {
            proof {
                assert(pre.subrange(0, i + 1).drop_last() =~= pre.subrange(0, i as int));
            }
            if self.events[i].run_id == run_id {
                count = count + 1;
            }
            i = i + 1;
        }
        proof {
            assert(pre.subrange(0, pre.len() as int) =~= pre);
        }
        let entry = RunEvent { run_id, sequence: count as u64, timestamp_ms, event };
        let out = entry.clone();
        let mut evs = Vec::new();
        std::mem::swap(&mut evs, &mut self.events);
        evs.push(entry);
        proof {
            assert forall|q: u128, t: int| 0 <= t < events_for(evs@, q).len() implies (#[trigger] events_for(
                evs@,
                q,
            )[t]).sequence == t by {
                lemma_events_push(pre, out, q);
                if q == run_id && t == events_for(pre, q).len() {
                } else {
                    assert(events_for(evs@, q)[t] == events_for(pre, q)[t]);
                }
            }
        }
        self.events = evs;
        out
    }

    /// The events of run `run_id`, numbered from zero in the order they were
    /// appended.
    pub fn load_events(&self, run_id: u128) -> (r: Vec<RunEvent>)
        ensures
            r@ == events_for(self.events(), run_id),
            forall|i: int| 0 <= i < r@.len() ==> (#[trigger] r@[i]).sequence == i,
    {
        proof {
            use_type_invariant(self);
        }
        let ghost pre = self.events@;
        let mut out: Vec<RunEvent> = Vec::new();
        let mut i: usize = 0;
        assert(pre.subrange(0, 0) =~= Seq::<RunEvent>::empty());
        while i < self.events.len()
            invariant
                0 <= i <= pre.len(),
                self.events@ == pre,
                out@ == events_for(pre.subrange(0, i as int), run_id),
            decreases pre.len() - i,
        {
            proof {
                assert(pre.subrange(0, i + 1).drop_last() =~= pre.subrange(0, i as int));
            }
            if self.events[i].run_id == run_id {
                out.push(self.events[i].clone());
            }
            i = i + 1;
        }
        proof {
            assert(pre.subrange(0, pre.len() as int) =~= pre);
        }
        out
    }

    /// Delete the event history of run `run_id`.
    pub fn delete_events(&mut self, run_id: u128)
        ensures
            final(self).events() == events_without(old(self).events(), run_id),
            final(self).runs() == old(self).runs(),
            final(self).checkpoints() == old(self).checkpoints(),
    {
        self.remove_events(run_id);
    }

    /// The position of the checkpoint of run `id`.
    fn checkpoint_slot(&self, id: u128) -> (r: Option<usize>)
        ensures
            match r {
                Some(i) => i < self.checkpoints@.len() && self.checkpoints@[i as int].run_id == id
                    && self.checkpoints().contains_key(id) && self.checkpoints()[id] == self.checkpoints@[i as int],
                None => !self.checkpoints().contains_key(id),
            },
    {
        proof {
            use_type_invariant(self);
        }
        let mut i: usize = 0;
        while i < self.checkpoints.len()
            invariant
                0 <= i <= self.checkpoints@.len(),
                unique_runs(self.checkpoints@),
                forall|j: int| 0 <= j < i ==> self.checkpoints@[j].run_id != id,
            decreases self.checkpoints@.len() - i,
        {
            if self.checkpoints[i].run_id == id {
                proof {
                    lemma_checkpoint_at(self.checkpoints@, i as int);
                }
                return Some(i);
            }
            i = i + 1;
        }
        None
    }

    /// Save a checkpoint as the latest of its run. With `expected`, the
    /// stored revision (zero when there is none) must equal it, else the
    /// call fails with `RevisionConflict` and changes nothing. The saved
    /// checkpoint gets revision one, or the stored revision plus one.
    pub fn save_checkpoint(&mut self, checkpoint: RunCheckpoint, expected: Option<Revision>) -> (r: Result<
        RunCheckpoint,
        PersistenceError,
    >)
        requires
            old(self).checkpoints().contains_key(checkpoint.run_id) ==> old(self).checkpoints()[checkpoint.run_id].revision.0
                < i64::MAX,
        ensures
            ({
                let current = if old(self).checkpoints().contains_key(checkpoint.run_id) {
                    Some(old(self).checkpoints()[checkpoint.run_id].revision)
                } else {
                    None
                };
                match checkpoint_revision(current, expected) {
                    Err((e, a)) => (r matches Err(PersistenceError::RevisionConflict { run_id, expected: e2, actual })
                        && run_id == checkpoint.run_id && e2 == e && actual == a) && final(self).checkpoints()
                        == old(self).checkpoints(),
                    Ok(rev) => r matches Ok(saved) && same_checkpoint(
                        saved,
                        RunCheckpoint { revision: rev, ..checkpoint },
                    ) && final(self).checkpoints() == old(self).checkpoints().insert(
                        checkpoint.run_id,
                        RunCheckpoint { revision: rev, ..checkpoint },
                    ),
                }
            }),
            final(self).runs() == old(self).runs(),
            final(self).events() == old(self).events(),
    {
        proof {
            use_type_invariant(&*self);
        }
        let id = checkpoint.run_id;
        let slot = self.checkpoint_slot(id);
        let current = match slot {
            Some(i) => Some(self.checkpoints[i].revision),
            None => None,
        };
        let rev = match next_checkpoint_revision(current, expected) {
            Err((e, a)) => {
                return Err(PersistenceError::RevisionConflict { run_id: id, expected: e, actual: a });
            },
            Ok(rev) => rev,
        };
        let stored = RunCheckpoint { revision: rev, ..checkpoint };
        let out = stored.clone();
        let mut cps = Vec::new();
        std::mem::swap(&mut cps, &mut self.checkpoints);
        let ghost pre = cps@;
        let ghost at: int = match slot {
            Some(i) => i as int,
            None => pre.len() as int,
        };
        match slot {
            Some(i) => {
                cps.set(i, stored);
            },
            None => {
                cps.push(stored);
            },
        }
        proof {
            let nv = cps@;
            assert(nv[at].run_id == id);
            assert forall|a: int, b: int| 0 <= a < nv.len() && 0 <= b < nv.len() && a != b implies nv[a].run_id
                != nv[b].run_id by {
                if a != at && b != at {
                    assert(nv[a] == pre[a] && nv[b] == pre[b]);
                } else if a == at {
                    if b < pre.len() {
                        assert(nv[b] == pre[b]);
                    }
                } else {
                    if a < pre.len() {
                        assert(nv[a] == pre[a]);
                    }
                }
            }
            lemma_checkpoint_at(nv, at);
            let expect = checkpoint_map(pre).insert(id, nv[at]);
            assert forall|q: u128| #[trigger] checkpoint_map(nv).contains_key(q) == expect.contains_key(q) && (
            checkpoint_map(nv).contains_key(q) ==> checkpoint_map(nv)[q] == expect[q]) by {
                if q != id {
                    if exists|j: int| 0 <= j < nv.len() && nv[j].run_id == q {
                        let j = choose|j: int| 0 <= j < nv.len() && nv[j].run_id == q;
                        assert(j != at);
                        assert(nv[j] == pre[j]);
                        lemma_checkpoint_at(nv, j);
                        lemma_checkpoint_at(pre, j);
                    }
                    if exists|j: int| 0 <= j < pre.len() && pre[j].run_id == q {
                        let j = choose|j: int| 0 <= j < pre.len() && pre[j].run_id == q;
                        assert(j != at);
                        assert(nv[j] == pre[j]);
                    }
                }
            }
            assert(checkpoint_map(nv) =~= expect);
        }
        self.checkpoints = cps;
        Ok(out)
    }

    /// The latest checkpoint of run `run_id`, if any.
    pub fn load_checkpoint(&self, run_id: u128) -> (r: Option<RunCheckpoint>)
        ensures
            match r {
                Some(c) => self.checkpoints().contains_key(run_id) && same_checkpoint(
                    c,
                    self.checkpoints()[run_id],
                ),
                None => !self.checkpoints().contains_key(run_id),
            },
    {
        match self.checkpoint_slot(run_id) {
            Some(i) => Some(self.checkpoints[i].clone()),
            None => None,
        }
    }

    /// Delete the checkpoint of run `run_id`.
    pub fn delete_checkpoint(&mut self, run_id: u128)
        ensures
            final(self).checkpoints() == old(self).checkpoints().remove(run_id),
            final(self).runs() == old(self).runs(),
            final(self).events() == old(self).events(),
    {
        self.remove_checkpoint(run_id);
    }
}

/// The revision a checkpoint is saved under, given the stored revision
/// `current` (if any) and the revision the caller `expected` (if any): the
/// pair (expected, actual) when they differ, the stored revision zero
/// standing in for none.
pub open spec fn checkpoint_revision(current: Option<Revision>, expected: Option<Revision>) -> Result<
    Revision,
    (Revision, Revision),
> {
    let actual = match current {
        Some(c) => c,
        None => Revision(0),
    };
    match expected {
        Some(e) if e != actual => Err((e, actual)),
        _ => Ok(
            match current {
                None => Revision(1),
                Some(c) => Revision((c.0 + 1) as i64),
            },
        ),
    }
}

/// Decide a checkpoint save against the stored revision `current`: the
/// conflicting pair (expected, actual), or the revision to save under.
pub fn next_checkpoint_revision(current: Option<Revision>, expected: Option<Revision>) -> (r: Result<
    Revision,
    (Revision, Revision),
>)
    requires
        current matches Some(c) ==> c.0 < i64::MAX,
    ensures
        r == checkpoint_revision(current, expected),
{
    let actual = match current {
        Some(c) => c,
        None => Revision(0),
    };
    if let Some(e) = expected {
        if e.0 != actual.0 {
            return Err((e, actual));
        }
    }
    match current {
        None => Ok(Revision(1)),
        Some(c) => Ok(Revision(c.0 + 1)),
    }
}

/// Decide a versioned save of run `run_id` against its stored revision
/// `current` (`None` when the run is not stored): `NotFound`,
/// `RevisionConflict`, or the revision the record is saved under.
pub fn record_revision(run_id: u128, current: Option<Revision>, expected: Revision) -> (r: Result<
    Revision,
    PersistenceError,
>)
    ensures
        current is None <==> (r matches Err(PersistenceError::NotFound(x)) && x == run_id),
        (current matches Some(c) && c != expected) <==> (r matches Err(
            PersistenceError::RevisionConflict { run_id: x, expected: e, actual },
        ) && x == run_id && e == expected && current == Some(actual)),
        current == Some(expected) <==> r == Ok::<Revision, PersistenceError>(next_revision(expected)),
{
    match current {
        None => Err(PersistenceError::NotFound(run_id)),
        Some(c) => {
            if c.0 != expected.0 {
                Err(PersistenceError::RevisionConflict { run_id, expected, actual: c })
            } else if expected.0 < i64::MAX {
                Ok(Revision(expected.0 + 1))
            } else {
                Ok(Revision(i64::MAX))
            }
        },
    }
}

/// A run that was created reads back as the created record at revision
/// zero.
pub proof fn law_created_run_reads_back(runs: Map<u128, RunRecord>, record: RunRecord)
    requires
        !runs.contains_key(record.id),
    ensures
        ({
            let after = runs.insert(record.id, RunRecord { revision: Revision(0), ..record });
            &&& after.contains_key(record.id)
            &&& after[record.id] == RunRecord { revision: Revision(0), ..record }
            &&& forall|id: u128| id != record.id ==> after.contains_key(id) == runs.contains_key(id)
        }),
{
}

/// Optimistic concurrency: a save that succeeded at revision `e` leaves the
/// run at revision `e + 1`, so a second save that still expects `e` is
/// refused with a conflict.
pub proof fn law_stale_revision_refused(e: Revision)
    requires
        e.0 < i64::MAX,
    ensures
        next_revision(e).0 == e.0 + 1,
        next_revision(e) != e,
{
}

/// Checkpoint revisions count the saves of a run: the first save gets
/// revision one and every later save the stored revision plus one; a save
/// that expects a revision other than the stored one is refused.
pub proof fn law_checkpoint_revisions_count_saves(current: Option<Revision>, expected: Option<Revision>)
    requires
        current matches Some(c) ==> c.0 < i64::MAX,
    ensures
        current is None && (expected is None || expected == Some(Revision(0))) ==> checkpoint_revision(
            current,
            expected,
        ) == Ok::<Revision, (Revision, Revision)>(Revision(1)),
        forall|c: Revision|
            current == Some(c) && (expected is None || expected == Some(c)) ==> checkpoint_revision(current, expected)
                == Ok::<Revision, (Revision, Revision)>(Revision((c.0 + 1) as i64)),
        expected matches Some(e) && e != (match current {
            Some(c) => c,
            None => Revision(0),
        }) ==> checkpoint_revision(current, expected) is Err,
{
}

/// Deleting a run forgets its record, its checkpoint and its events, and
/// leaves the events of every other run as they were.
pub proof fn law_deleted_run_forgotten(
    runs: Map<u128, RunRecord>,
    checkpoints: Map<u128, RunCheckpoint>,
    events: Seq<RunEvent>,
    id: u128,
)
    ensures
        !runs.remove(id).contains_key(id),
        !checkpoints.remove(id).contains_key(id),
        events_for(events_without(events, id), id).len() == 0,
        forall|other: u128| other != id ==> #[trigger] events_for(events_without(events, id), other) == events_for(events, other),
{
    lemma_events_without(events, id, id);
    assert forall|other: u128| other != id implies #[trigger] events_for(events_without(events, id), other) == events_for(events, other) by {
        lemma_events_without(events, id, other);
    }
}

/// An appended event reads back last among its run's events; the events
/// of every other run read back as before.
pub proof fn law_appended_event_reads_back(events: Seq<RunEvent>, ev: RunEvent)
    ensures
        events_for(events.push(ev), ev.run_id) == events_for(events, ev.run_id).push(ev),
        forall|other: u128|
            other != ev.run_id ==> #[trigger] events_for(events.push(ev), other) == events_for(events, other),
{
    assert(events.push(ev).drop_last() =~= events);
}

} // verus!
