//! What the retrieval index takes of an emitted artifact: whether it is
//! indexed at all, the texts drawn from it (along a configured path, or one
//! per element), how each text is formatted, the documents' identifiers,
//! and the tokens their embedding is estimated to cost.
use vstd::prelude::*;
use vstd::string::*;
use crate::agent::has_text;
use crate::agent::tool::{placeholder, placeholder_chars, replace_all, replace_text};
use crate::config::NodeRagConfig;
use crate::agent::tool::value_text;
use crate::control::texts;
use crate::graph::artifact::copy_json;
use crate::json::{
    compact_json_text, data_member, data_of, data_seq, json_data, json_is_null, json_items, json_member, json_null,
    json_string, json_text,
    lemma_data_seq_concat, lemma_data_seq_index, lemma_data_seq_len, lemma_member_data, values_data, Json, JsonData,
};
use crate::text::{chars_of, decimal, decimal_text};
use vstd::utf8::encode_utf8;

verus! {

/// Artifacts of kind `kind` are indexed: every kind is when the list of
/// kinds is empty, otherwise only the listed ones.
pub open spec fn kind_indexed(index_kinds: Seq<String>, kind: Seq<char>) -> bool {
    index_kinds.len() == 0 || has_text(index_kinds, kind)
}

/// Whether artifacts of kind `kind` are indexed.
pub fn indexes_kind(index_kinds: &Vec<String>, kind: &String) -> (r: bool)
    ensures
        r == kind_indexed(index_kinds@, kind@),
{
    if index_kinds.len() == 0 {
        return true;
    }
    let mut t: usize = 0;
    while t < index_kinds.len()
        invariant
            0 <= t <= index_kinds@.len(),
            forall|u: int| 0 <= u < t ==> index_kinds@[u]@ != kind@,
        decreases index_kinds@.len() - t,
    {
        if index_kinds[t] == *kind {
            return true;
        }
        t = t + 1;
    }
    false
}

/// Whether a node with retrieval settings `config` has its outputs
/// indexed: unless its settings turn indexing off.
pub fn node_indexed(config: Option<&NodeRagConfig>) -> (r: bool)
    ensures
        r == match config {
            Some(c) => c.enabled,
            None => true,
        },
{
    match config {
        Some(c) => c.enabled,
        None => true,
    }
}

/// The segments of a path, split at every `.` (an empty path is one empty
/// segment).
pub open spec fn split_on_dots(s: Seq<char>) -> Seq<Seq<char>>
    decreases s.len(),
{
    if s.len() == 0 {
        seq![Seq::empty()]
    } else {
        let rest = split_on_dots(s.drop_last());
        if s.last() == '.' {
            rest.push(Seq::empty())
        } else {
            rest.update(rest.len() - 1, rest.last().push(s.last()))
        }
    }
}

/// A path has at least one segment.
proof fn lemma_split_nonempty(s: Seq<char>)
    ensures
        split_on_dots(s).len() >= 1,
    decreases s.len(),
{
    if s.len() > 0 {
        lemma_split_nonempty(s.drop_last());
    }
}

/// A segment that ends in `[*]` fans out over the array it reaches.
pub open spec fn fans_out(seg: Seq<char>) -> bool {
    seg.len() >= 3 && seg.subrange(seg.len() - 3, seg.len() as int) == seq!['[', '*', ']']
}

/// The field a segment names: the segment without a final `[*]`.
pub open spec fn field_of(seg: Seq<char>) -> Seq<char> {
    if fans_out(seg) {
        seg.subrange(0, seg.len() - 3)
    } else {
        seg
    }
}

/// What field `field` of `v` holds: `v` itself for an empty field, else
/// the member of that key, or null.
pub open spec fn child(v: JsonData, field: Seq<char>) -> JsonData {
    if field.len() == 0 {
        v
    } else {
        match data_member(v, field) {
            Some(c) => c,
            None => JsonData::Null,
        }
    }
}

/// One path segment applied to every current value, in order: each value
/// gives what its field holds; with a fan-out, the items of that array
/// instead (nothing when it is not an array).
pub open spec fn step(cur: Seq<JsonData>, seg: Seq<char>) -> Seq<JsonData>
    decreases cur.len(),
{
    if cur.len() == 0 {
        Seq::empty()
    } else {
        let c = child(cur.last(), field_of(seg));
        step(cur.drop_last(), seg) + if fans_out(seg) {
            match c {
                JsonData::Array(items) => items,
                _ => Seq::empty(),
            }
        } else {
            seq![c]
        }
    }
}

/// All path segments applied in order.
pub open spec fn walk(cur: Seq<JsonData>, segs: Seq<Seq<char>>) -> Seq<JsonData>
    decreases segs.len(),
{
    if segs.len() == 0 {
        cur
    } else {
        walk(step(cur, segs[0]), segs.drop_first())
    }
}

/// A leaf yields a text: a string that is not empty, or any value but a
/// string or null.
pub open spec fn yields_text(d: JsonData) -> bool {
    match d {
        JsonData::Str(t) => t.len() > 0,
        JsonData::Null => false,
        _ => true,
    }
}

/// The leaves that yield a text, in order.
pub open spec fn text_leaves(d: Seq<JsonData>) -> Seq<JsonData>
    decreases d.len(),
{
    if d.len() == 0 {
        Seq::empty()
    } else {
        text_leaves(d.drop_last()) + if yields_text(d.last()) {
            seq![d.last()]
        } else {
            Seq::empty()
        }
    }
}

/// The leaves an index path reaches in `data` that yield a text.
pub open spec fn path_leaves(path: Seq<char>, data: JsonData) -> Seq<JsonData> {
    text_leaves(walk(seq![data], split_on_dots(path)))
}

/// The segments of `path`.
fn split_path(path: &str) -> (r: Vec<String>)
    ensures
        r@.map_values(|t: String| t@) == split_on_dots(path@),
{
    let c = chars_of(path);
    let n = c.len();
    let mut segs: Vec<String> = Vec::new();
    let mut start: usize = 0;
    let mut i: usize = 0;
    assert(path@.subrange(0, 0) =~= Seq::<char>::empty());
    assert(segs@.map_values(|t: String| t@).push(path@.subrange(0, 0)) =~= seq![Seq::<char>::empty()]);
    while i < n
        invariant
            0 <= start <= i <= n,
            n == c@.len(),
            c@ == path@,
            split_on_dots(path@.subrange(0, i as int)) == segs@.map_values(|t: String| t@).push(
                path@.subrange(start as int, i as int),
            ),
        decreases n - i,
    {
        let ghost pre = path@.subrange(0, i as int);
        let ghost cur = path@.subrange(0, i + 1);
        let ghost before = segs@.map_values(|t: String| t@);
        proof {
            assert(cur.drop_last() =~= pre);
            assert(cur.last() == path@[i as int]);
        }
        if c[i] == '.' {
            let seg = String::from_str(path.substring_char(start, i));
            segs.push(seg);
            proof {
                assert(segs@.map_values(|t: String| t@) =~= before.push(path@.subrange(start as int, i as int)));
                assert(path@.subrange(i + 1, i + 1) =~= Seq::<char>::empty());
            }
            start = i + 1;
        } else {
            proof {
                assert(path@.subrange(start as int, i + 1) =~= path@.subrange(start as int, i as int).push(
                    path@[i as int],
                ));
                assert(before.push(path@.subrange(start as int, i as int)).update(
                    before.len() as int,
                    path@.subrange(start as int, i + 1),
                ) =~= before.push(path@.subrange(start as int, i + 1)));
            }
        }
        i = i + 1;
    }
    let last = String::from_str(path.substring_char(start, n));
    let ghost before = segs@.map_values(|t: String| t@);
    segs.push(last);
    assert(segs@.map_values(|t: String| t@) =~= before.push(path@.subrange(start as int, n as int)));
    assert(path@.subrange(0, n as int) =~= path@);
    segs
}

/// The field a segment names, and whether it fans out.
fn parse_segment(seg: &String) -> (r: (String, bool))
    ensures
        r.0@ == field_of(seg@),
        r.1 == fans_out(seg@),
{
    let c = chars_of(seg.as_str());
    let n = c.len();
    if n >= 3 && c[n - 3] == '[' && c[n - 2] == '*' && c[n - 1] == ']' {
        assert(seg@.subrange(n - 3, n as int) =~= seq!['[', '*', ']']);
        (String::from_str(seg.as_str().substring_char(0, n - 3)), true)
    } else {
        proof {
            if n >= 3 {
                let t = seg@.subrange(n - 3, n as int);
                if t == seq!['[', '*', ']'] {
                    assert(t[0] == seg@[n - 3] && t[1] == seg@[n - 2] && t[2] == seg@[n - 1]);
                }
            }
        }
        (seg.clone(), false)
    }
}

/// Copies of what field `field` of `v` holds.
fn child_value(v: &Json, field: &String) -> (r: Json)
    ensures
        data_of(r) == child(data_of(*v), field@),
{
    if field.as_str().unicode_len() == 0 {
        return v.duplicate();
    }
    proof {
        lemma_member_data(*v, field@);
    }
    match v.get(field) {
        Some(c) => c.duplicate(),
        None => Json::Null,
    }
}

/// One path segment applied to every value of `cur`.
fn apply_segment(cur: &Vec<Json>, field: &String, fan: bool) -> (r: Vec<Json>)
    ensures
        forall|seg: Seq<char>|
            field_of(seg) == field@ && fans_out(seg) == fan ==> data_seq(r@) == step(data_seq(cur@), seg),
{
    let ghost d = data_seq(cur@);
    proof {
        lemma_data_seq_len(cur@);
    }
    let mut next: Vec<Json> = Vec::new();
    let mut i: usize = 0;
    assert(d.subrange(0, 0) =~= Seq::<JsonData>::empty());
    while i < cur.len()
        invariant
            0 <= i <= cur@.len(),
            d == data_seq(cur@),
            d.len() == cur@.len(),
            forall|seg: Seq<char>|
                field_of(seg) == field@ && fans_out(seg) == fan ==> data_seq(next@) == step(
                    d.subrange(0, i as int),
                    seg,
                ),
        decreases cur@.len() - i,
    {
        proof {
            lemma_data_seq_index(cur@, i as int);
            assert(d.subrange(0, i + 1).drop_last() =~= d.subrange(0, i as int));
            assert(d.subrange(0, i + 1).last() == d[i as int]);
        }
        let c = child_value(&cur[i], field);
        let ghost before = next@;
        if fan {
            match c {
                Json::Array(items) => {
                    let mut items = items;
                    let ghost its = items@;
                    proof {
                        lemma_data_seq_concat(before, its);
                    }
                    next.append(&mut items);
                },
                _ => {
                    assert(before + Seq::<Json>::empty() =~= before);
                },
            }
            proof {
                assert forall|seg: Seq<char>| field_of(seg) == field@ && fans_out(seg) == fan implies data_seq(
                    next@,
                ) == step(d.subrange(0, i + 1), seg) by {
                    let prior = step(d.subrange(0, i as int), seg);
                    if data_seq(next@) != prior + match child(d[i as int], field@) {
                        JsonData::Array(items) => items,
                        _ => Seq::empty(),
                    } {
                        assert(data_seq(next@) =~= prior + match child(d[i as int], field@) {
                            JsonData::Array(items) => items,
                            _ => Seq::empty(),
                        });
                    }
                }
            }
        } else {
            let ghost cd = data_of(c);
            next.push(c);
            proof {
                assert(next@.drop_last() =~= before);
                assert forall|seg: Seq<char>| field_of(seg) == field@ && fans_out(seg) == fan implies data_seq(
                    next@,
                ) == step(d.subrange(0, i + 1), seg) by {
                    assert(data_seq(before).push(cd) =~= data_seq(before) + seq![cd]);
                }
            }
        }
        i = i + 1;
    }
    assert(d.subrange(0, cur@.len() as int) =~= d);
    next
}

/// The leaves of `cur` that yield a text, copied.
fn keep_text_leaves(cur: &Vec<Json>) -> (r: Vec<Json>)
    ensures
        data_seq(r@) == text_leaves(data_seq(cur@)),
{
    let ghost d = data_seq(cur@);
    proof {
        lemma_data_seq_len(cur@);
    }
    let mut out: Vec<Json> = Vec::new();
    let mut i: usize = 0;
    assert(d.subrange(0, 0) =~= Seq::<JsonData>::empty());
    while i < cur.len()
        invariant
            0 <= i <= cur@.len(),
            d == data_seq(cur@),
            d.len() == cur@.len(),
            data_seq(out@) == text_leaves(d.subrange(0, i as int)),
        decreases cur@.len() - i,
    {
        proof {
            lemma_data_seq_index(cur@, i as int);
            assert(d.subrange(0, i + 1).drop_last() =~= d.subrange(0, i as int));
            assert(d.subrange(0, i + 1).last() == d[i as int]);
        }
        let keep = match &cur[i] {
            Json::Str(t) => t.as_str().unicode_len() > 0,
            Json::Null => false,
            _ => true,
        };
        let ghost before = out@;
        if keep {
            let c = cur[i].duplicate();
            out.push(c);
            proof {
                assert(out@.drop_last() =~= before);
                assert(data_seq(before).push(data_of(c)) =~= data_seq(before) + seq![d[i as int]]);
            }
        } else {
            assert(data_seq(out@) + Seq::<JsonData>::empty() =~= data_seq(out@));
        }
        i = i + 1;
    }
    assert(d.subrange(0, cur@.len() as int) =~= d);
    out
}

/// The leaves that index path `path` reaches in `data` and that yield a
/// text: the path is split at every `.`; each segment names a field of
/// every current value (an empty one keeps the value) and, when it ends in
/// `[*]`, fans out over the items of that array; strings that are empty
/// and nulls are dropped.
pub fn extract_leaves(path: &str, data: &Json) -> (r: Vec<Json>)
    ensures
        data_seq(r@) == path_leaves(path@, data_of(*data)),
{
    let segs = split_path(path);
    let ghost sv = segs@.map_values(|t: String| t@);
    let mut cur: Vec<Json> = Vec::new();
    let first = data.duplicate();
    let ghost fd = data_of(first);
    cur.push(first);
    proof {
        assert(cur@.drop_last() =~= Seq::<Json>::empty());
        assert(cur@.last() == cur@[0]);
        assert(data_seq(Seq::<Json>::empty()) =~= Seq::<JsonData>::empty());
        assert(data_seq(cur@) == data_seq(Seq::<Json>::empty()).push(data_of(cur@[0])));
        assert(data_seq(cur@) =~= seq![data_of(*data)]);
    }
    let mut i: usize = 0;
    assert(sv.subrange(0, sv.len() as int) =~= sv);
    while i < segs.len()
        invariant
            0 <= i <= segs@.len(),
            sv == segs@.map_values(|t: String| t@),
            sv == split_on_dots(path@),
            walk(seq![data_of(*data)], sv) == walk(data_seq(cur@), sv.subrange(i as int, sv.len() as int)),
        decreases segs@.len() - i,
    {
        let (field, fan) = parse_segment(&segs[i]);
        let next = apply_segment(&cur, &field, fan);
        proof {
            let rest = sv.subrange(i as int, sv.len() as int);
            assert(rest[0] == sv[i as int]);
            assert(rest.drop_first() =~= sv.subrange(i + 1, sv.len() as int));
        }
        cur = next;
        i = i + 1;
    }
    assert(sv.subrange(sv.len() as int, sv.len() as int) =~= Seq::<Seq<char>>::empty());
    keep_text_leaves(&cur)
}

/// The texts of the leaves `d`, in order: each leaf's text (see
/// `value_text`), leaving out the empty ones.
pub open spec fn leaf_texts(d: Seq<JsonData>) -> Seq<Seq<char>>
    decreases d.len(),
{
    if d.len() == 0 {
        Seq::empty()
    } else {
        leaf_texts(d.drop_last()) + if value_text(d.last()).len() > 0 {
            seq![value_text(d.last())]
        } else {
            Seq::empty()
        }
    }
}

/// A copy of what field `field` of `v` holds: `v` itself for an empty
/// field, else that member, or null.
fn child_of_value(v: &serde_json::Value, field: &String) -> (r: serde_json::Value)
    ensures
        json_data(r) == child(json_data(*v), field@),
{
    if field.as_str().unicode_len() == 0 {
        return copy_json(v);
    }
    match json_member(v, field.as_str()) {
        Some(c) => copy_json(c),
        None => json_null(),
    }
}

/// One path segment applied to every value of `cur`.
fn apply_segment_to_values(cur: &Vec<serde_json::Value>, field: &String, fan: bool) -> (r: Vec<serde_json::Value>)
    ensures
        forall|seg: Seq<char>|
            field_of(seg) == field@ && fans_out(seg) == fan ==> values_data(r@) == step(values_data(cur@), seg),
{
    let ghost d = values_data(cur@);
    let mut next: Vec<serde_json::Value> = Vec::new();
    let mut i: usize = 0;
    assert(d.subrange(0, 0) =~= Seq::<JsonData>::empty());
    assert(values_data(next@) =~= Seq::<JsonData>::empty());
    while i < cur.len()
        invariant
            0 <= i <= cur@.len(),
            d == values_data(cur@),
            d.len() == cur@.len(),
            forall|seg: Seq<char>|
                field_of(seg) == field@ && fans_out(seg) == fan ==> values_data(next@) == step(
                    d.subrange(0, i as int),
                    seg,
                ),
        decreases cur@.len() - i,
    {
        proof {
            assert(d.subrange(0, i + 1).drop_last() =~= d.subrange(0, i as int));
            assert(d.subrange(0, i + 1).last() == d[i as int]);
            assert(d[i as int] == json_data(cur@[i as int]));
        }
        let c = child_of_value(&cur[i], field);
        let ghost before = next@;
        let ghost add: Seq<JsonData> = if fan {
            match json_data(c) {
                JsonData::Array(items) => items,
                _ => Seq::empty(),
            }
        } else {
            seq![json_data(c)]
        };
        if fan {
            match json_items(&c) {
                Some(items) => {
                    let mut items = items;
                    let ghost its = items@;
                    next.append(&mut items);
                    assert(values_data(next@) =~= values_data(before) + values_data(its));
                },
                None => {
                    assert(next@ =~= before);
                },
            }
        } else {
            next.push(c);
            assert(values_data(next@) =~= values_data(before) + seq![json_data(c)]);
        }
        assert(values_data(next@) == values_data(before) + add);
        proof {
            assert forall|seg: Seq<char>| field_of(seg) == field@ && fans_out(seg) == fan implies values_data(
                next@,
            ) == step(d.subrange(0, i + 1), seg) by {
            }
        }
        i = i + 1;
    }
    assert(d.subrange(0, cur@.len() as int) =~= d);
    next
}

/// The texts of the leaves of `cur` that yield one.
fn texts_of_leaves(cur: &Vec<serde_json::Value>) -> (r: Vec<String>)
    ensures
        texts(r@) == leaf_texts(text_leaves(values_data(cur@))),
{
    let ghost d = values_data(cur@);
    let mut out: Vec<String> = Vec::new();
    let mut i: usize = 0;
    assert(d.subrange(0, 0) =~= Seq::<JsonData>::empty());
    assert(texts(out@) =~= Seq::<Seq<char>>::empty());
    while i < cur.len()
        invariant
            0 <= i <= cur@.len(),
            d == values_data(cur@),
            d.len() == cur@.len(),
            texts(out@) == leaf_texts(text_leaves(d.subrange(0, i as int))),
        decreases cur@.len() - i,
    {
        let ghost x = d[i as int];
        proof {
            assert(d.subrange(0, i + 1).drop_last() =~= d.subrange(0, i as int));
            assert(d.subrange(0, i + 1).last() == x);
            assert(x == json_data(cur@[i as int]));
        }
        let ghost prior = text_leaves(d.subrange(0, i as int));
        let ghost before = out@;
        let text = match json_string(&cur[i]) {
            Some(t) => Some(t),
            None => if json_is_null(&cur[i]) {
                None
            } else {
                Some(json_text(&cur[i]))
            },
        };
        match text {
            Some(t) => {
                proof {
                    assert(!(x is Null));
                    assert(t@ == value_text(x));
                }
                if t.as_str().unicode_len() > 0 {
                    proof {
                        assert(yields_text(x));
                        assert(text_leaves(d.subrange(0, i + 1)) =~= prior.push(x));
                        assert(prior.push(x).drop_last() =~= prior);
                    }
                    out.push(t);
                    assert(texts(out@) =~= texts(before).push(t@));
                } else {
                    proof {
                        if yields_text(x) {
                            assert(text_leaves(d.subrange(0, i + 1)) =~= prior.push(x));
                            assert(prior.push(x).drop_last() =~= prior);
                            assert(leaf_texts(prior.push(x)) =~= leaf_texts(prior));
                        } else {
                            assert(text_leaves(d.subrange(0, i + 1)) =~= prior);
                        }
                    }
                }
            },
            None => {
                proof {
                    assert(!yields_text(x));
                    assert(text_leaves(d.subrange(0, i + 1)) =~= prior);
                }
            },
        }
        i = i + 1;
    }
    assert(d.subrange(0, cur@.len() as int) =~= d);
    out
}

/// The texts that index path `path` draws from the payload `data`: each
/// leaf the path reaches that yields a text, a string standing for itself
/// and any other value for its compact JSON text; empty texts are left
/// out.
pub fn extract_texts(path: &str, data: &serde_json::Value) -> (r: Vec<String>)
    ensures
        texts(r@) == leaf_texts(path_leaves(path@, json_data(*data))),
{
    let segs = split_path(path);
    let ghost sv = segs@.map_values(|t: String| t@);
    let mut cur: Vec<serde_json::Value> = Vec::new();
    cur.push(copy_json(data));
    assert(values_data(cur@) =~= seq![json_data(*data)]);
    let mut i: usize = 0;
    assert(sv.subrange(0, sv.len() as int) =~= sv);
    while i < segs.len()
        invariant
            0 <= i <= segs@.len(),
            sv == segs@.map_values(|t: String| t@),
            sv == split_on_dots(path@),
            walk(seq![json_data(*data)], sv) == walk(values_data(cur@), sv.subrange(i as int, sv.len() as int)),
        decreases segs@.len() - i,
    {
        let (field, fan) = parse_segment(&segs[i]);
        let next = apply_segment_to_values(&cur, &field, fan);
        proof {
            let rest = sv.subrange(i as int, sv.len() as int);
            assert(rest[0] == sv[i as int]);
            assert(rest.drop_first() =~= sv.subrange(i + 1, sv.len() as int));
        }
        cur = next;
        i = i + 1;
    }
    assert(sv.subrange(sv.len() as int, sv.len() as int) =~= Seq::<Seq<char>>::empty());
    texts_of_leaves(&cur)
}

/// The compact JSON texts of the contents `d`, in order, leaving out the
/// empty ones.
pub open spec fn chunk_text_list(d: Seq<JsonData>) -> Seq<Seq<char>>
    decreases d.len(),
{
    if d.len() == 0 {
        Seq::empty()
    } else {
        chunk_text_list(d.drop_last()) + if compact_json_text(d.last()).len() > 0 {
            seq![compact_json_text(d.last())]
        } else {
            Seq::empty()
        }
    }
}

/// The texts of the chunks of the payload `data` without an index path:
/// the compact JSON text of each item of an array, or of the payload
/// itself; empty texts are left out.
pub fn chunk_texts(data: &serde_json::Value) -> (r: Vec<String>)
    ensures
        texts(r@) == chunk_text_list(chunks_of(json_data(*data))),
{
    let mut out: Vec<String> = Vec::new();
    match json_items(data) {
        Some(items) => {
            let ghost d = values_data(items@);
            let mut i: usize = 0;
            assert(d.subrange(0, 0) =~= Seq::<JsonData>::empty());
            assert(texts(out@) =~= Seq::<Seq<char>>::empty());
            while i < items.len()
                invariant
                    0 <= i <= items@.len(),
                    d == values_data(items@),
                    d.len() == items@.len(),
                    texts(out@) == chunk_text_list(d.subrange(0, i as int)),
                decreases items@.len() - i,
            {
                proof {
                    assert(d.subrange(0, i + 1).drop_last() =~= d.subrange(0, i as int));
                    assert(d.subrange(0, i + 1).last() == d[i as int]);
                    assert(d[i as int] == json_data(items@[i as int]));
                }
                let t = json_text(&items[i]);
                let ghost before = out@;
                if t.as_str().unicode_len() > 0 {
                    out.push(t);
                    assert(texts(out@) =~= texts(before).push(t@));
                } else {
                    assert(texts(out@) =~= texts(before) + Seq::<Seq<char>>::empty());
                }
                i = i + 1;
            }
            assert(d.subrange(0, items@.len() as int) =~= d);
            assert(chunks_of(json_data(*data)) == d);
            assert(texts(out@) == chunk_text_list(chunks_of(json_data(*data))));
        },
        None => {
            let t = json_text(data);
            let ghost one = seq![json_data(*data)];
            assert(chunks_of(json_data(*data)) == one);
            assert(one.drop_last() =~= Seq::<JsonData>::empty());
            assert(one.last() == json_data(*data));
            assert(chunk_text_list(one.drop_last()) == Seq::<Seq<char>>::empty());
            if t.as_str().unicode_len() > 0 {
                out.push(t);
                assert(texts(out@) =~= seq![t@]);
                assert(chunk_text_list(one) =~= seq![t@]);
            } else {
                assert(texts(out@) =~= Seq::<Seq<char>>::empty());
                assert(chunk_text_list(one) =~= Seq::<Seq<char>>::empty());
            }
        },
    }
    out
}

/// The chunks of an artifact payload without an index path: the items of
/// an array, or the payload itself.
pub open spec fn chunks_of(data: JsonData) -> Seq<JsonData> {
    match data {
        JsonData::Array(items) => items,
        d => seq![d],
    }
}

/// Copies of the chunks of `data`.
pub fn chunk_values(data: &Json) -> (r: Vec<Json>)
    ensures
        data_seq(r@) == chunks_of(data_of(*data)),
{
    match data {
        Json::Array(items) => {
            let mut out: Vec<Json> = Vec::new();
            let mut i: usize = 0;
            while i < items.len()
                invariant
                    0 <= i <= items@.len(),
                    *data == Json::Array(*items),
                    data_seq(out@) == data_seq(items@.subrange(0, i as int)),
                decreases items@.len() - i,
            {
                let c = items[i].duplicate();
                let ghost before = out@;
                out.push(c);
                proof {
                    assert(out@.drop_last() =~= before);
                    assert(items@.subrange(0, i + 1).drop_last() =~= items@.subrange(0, i as int));
                }
                i = i + 1;
            }
            assert(items@.subrange(0, items@.len() as int) =~= items@);
            assert(data_of(*data) == JsonData::Array(data_seq(items@)));
            assert(data_seq(out@) == data_seq(items@));
            assert(chunks_of(data_of(*data)) == data_seq(items@));
            out
        },
        _ => {
            let mut out: Vec<Json> = Vec::new();
            let c = data.duplicate();
            out.push(c);
            proof {
                assert(out@.drop_last() =~= Seq::<Json>::empty());
                assert(out@.last() == out@[0]);
                assert(data_seq(Seq::<Json>::empty()) =~= Seq::<JsonData>::empty());
                assert(data_seq(out@) == data_seq(Seq::<Json>::empty()).push(data_of(out@[0])));
                assert(!(data_of(*data) is Array));
                assert(data_seq(out@) =~= seq![data_of(*data)]);
            }
            out
        },
    }
}

/// The indexed form of `text` under template `format`: every `{{text}}`
/// replaced by the text; without a template, the text itself.
pub open spec fn formatted(format: Option<Seq<char>>, text: Seq<char>) -> Seq<char> {
    match format {
        Some(f) => replace_all(f, placeholder("text"@), text),
        None => text,
    }
}

/// The indexed forms of `texts` under template `format`, in order.
pub fn format_chunks(format: Option<&String>, texts: &Vec<String>) -> (r: Vec<String>)
    ensures
        r@.len() == texts@.len(),
        forall|i: int|
            0 <= i < texts@.len() ==> (#[trigger] r@[i])@ == formatted(
                match format {
                    Some(f) => Some(f@),
                    None => None,
                },
                texts@[i]@,
            ),
{
    let pat = placeholder_chars("text");
    let mut out: Vec<String> = Vec::new();
    let mut i: usize = 0;
    while i < texts.len()
        invariant
            0 <= i <= texts@.len(),
            pat@ == placeholder("text"@),
            out@.len() == i,
            forall|t: int|
                0 <= t < i ==> (#[trigger] out@[t])@ == formatted(
                    match format {
                        Some(f) => Some(f@),
                        None => None,
                    },
                    texts@[t]@,
                ),
        decreases texts@.len() - i,
    {
        let s = match format {
            Some(f) => replace_text(f.as_str(), &pat, texts[i].as_str()),
            None => texts[i].clone(),
        };
        out.push(s);
        i = i + 1;
    }
    out
}

/// The identifier of chunk `i` of an artifact emitted by `node_id` in
/// `round`: `NODE:rROUND:I`.
pub open spec fn document_id_text(node_id: Seq<char>, round: u32, i: nat) -> Seq<char> {
    node_id + ":r"@ + decimal_text(round as nat) + ":"@ + decimal_text(i)
}

/// The identifier of chunk `i` of an artifact emitted by `node_id` in
/// `round`.
pub fn document_id(node_id: &str, round: u32, i: usize) -> (r: String)
    ensures
        r@ == document_id_text(node_id@, round, i as nat),
{
    let mut s = String::from_str(node_id);
    s.append(":r");
    s.append(decimal(round as u64).as_str());
    s.append(":");
    s.append(decimal(i as u64).as_str());
    s
}

/// The tokens embedding a text of `bytes` bytes is estimated to cost: a
/// quarter of its bytes, rounded up.
pub open spec fn token_estimate(bytes: nat) -> nat {
    (bytes + 3) / 4
}

/// The estimated tokens of all `texts`, counting each text's bytes in
/// UTF-8.
pub open spec fn total_estimate(texts: Seq<String>) -> nat
    decreases texts.len(),
{
    if texts.len() == 0 {
        0
    } else {
        total_estimate(texts.drop_last()) + token_estimate(encode_utf8(texts.last()@).len())
    }
}

/// The tokens that embedding all `texts` is estimated to cost.
pub fn estimated_tokens(texts: &Vec<String>) -> (r: u64)
    requires
        forall|i: int| 0 <= i < texts@.len() ==> encode_utf8((#[trigger] texts@[i])@).len() <= usize::MAX,
        total_estimate(texts@) <= u64::MAX,
    ensures
        r == total_estimate(texts@),
{
    let mut total: u64 = 0;
    let mut i: usize = 0;
    assert(texts@.subrange(0, 0) =~= Seq::<String>::empty());
    while i < texts.len()
        invariant
            0 <= i <= texts@.len(),
            total == total_estimate(texts@.subrange(0, i as int)),
            forall|j: int| 0 <= j < texts@.len() ==> encode_utf8((#[trigger] texts@[j])@).len() <= usize::MAX,
            total_estimate(texts@) <= u64::MAX,
        decreases texts@.len() - i,
    {
        proof {
            assert(texts@.subrange(0, i + 1).drop_last() =~= texts@.subrange(0, i as int));
            assert(texts@.subrange(0, i + 1).last() == texts@[i as int]);
            lemma_estimate_prefix(texts@, i + 1);
        }
        let st = texts[i].as_str();
        let bytes = st.len();
        assert(st.spec_bytes() == encode_utf8(st@));
        assert(bytes == encode_utf8(texts@[i as int]@).len());
        let part: u64 = (bytes / 4) as u64 + if bytes % 4 == 0 {
            0
        } else {
            1
        };
        assert(part == token_estimate(bytes as nat));
        total = total + part;
        i = i + 1;
    }
    assert(texts@.subrange(0, texts@.len() as int) =~= texts@);
    total
}

/// The estimate of a prefix is at most the whole estimate.
proof fn lemma_estimate_prefix(texts: Seq<String>, n: int)
    requires
        0 <= n <= texts.len(),
    ensures
        total_estimate(texts.subrange(0, n)) <= total_estimate(texts),
    decreases texts.len() - n,
{
    if n < texts.len() {
        lemma_estimate_prefix(texts, n + 1);
        assert(texts.subrange(0, n + 1).drop_last() =~= texts.subrange(0, n));
    } else {
        assert(texts.subrange(0, n) =~= texts);
    }
}

} // verus!
