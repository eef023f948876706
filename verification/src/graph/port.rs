//! Typed input and output ports of graph nodes.
use vstd::prelude::*;
use vstd::string::*;

verus! {

/// A lightweight port declaration as written in a manifest or an agent
/// definition: a port name, the artifact kind it carries, and (for inputs)
/// whether it must be wired.
#[derive(Debug)]
pub struct PortDef {
    /// The port name used in graph edges (e.g. `"in"`, `"out"`).
    pub port: String,
    /// The artifact kind accepted or emitted on this port.
    pub kind: String,
    /// Whether an input port is required; absent means required.
    pub required: Option<bool>,
}

/// The direction of a port.
#[derive(Debug, Clone, Copy, PartialEq, Eq, Structural)]
pub enum PortDirection {
    /// An input port, fed by inbound edges.
    Input,
    /// An output port, feeding outbound edges.
    Output,
}

/// Specification of a single port on a node.
#[derive(Debug)]
pub struct PortSpecEntry {
    /// The port name (unique within the node).
    pub name: String,
    /// The direction of this port.
    pub direction: PortDirection,
    /// The artifact kind the port accepts or emits.
    pub kind: String,
    /// Whether the port is required.
    pub required: bool,
}

/// The full port specification of a node.
#[derive(Debug)]
pub struct PortSpec {
    /// All input ports, in declaration order.
    pub inputs: Vec<PortSpecEntry>,
    /// All output ports, in declaration order.
    pub outputs: Vec<PortSpecEntry>,
}

impl Clone for PortDef {
    fn clone(&self) -> (res: Self)
        ensures
            res == *self,
    {
        let required = match self.required {
            Some(b) => Some(b),
            None => None,
        };
        PortDef { port: self.port.clone(), kind: self.kind.clone(), required }
    }
}

impl Clone for PortSpecEntry {
    fn clone(&self) -> (res: Self)
        ensures
            res == *self,
    {
        PortSpecEntry {
            name: self.name.clone(),
            direction: self.direction,
            kind: self.kind.clone(),
            required: self.required,
        }
    }
}

/// A copy of a list of port entries.
fn copy_entries(v: &Vec<PortSpecEntry>) -> (r: Vec<PortSpecEntry>)
    ensures
        r@ == v@,
{
    let mut out: Vec<PortSpecEntry> = Vec::new();
    let mut i: usize = 0;
    while i < v.len()
        invariant
            0 <= i <= v@.len(),
            out@ == v@.subrange(0, i as int),
        decreases v@.len() - i,
    {
        out.push(v[i].clone());
        assert(out@ =~= v@.subrange(0, i + 1));
        i = i + 1;
    }
    assert(out@ =~= v@);
    out
}

impl Clone for PortSpec {
    fn clone(&self) -> (res: Self)
        ensures
            res.inputs@ == self.inputs@,
            res.outputs@ == self.outputs@,
    {
        PortSpec { inputs: copy_entries(&self.inputs), outputs: copy_entries(&self.outputs) }
    }
}

/// The entry at `i` is the first one in `entries` named `name`.
pub open spec fn first_named(entries: Seq<PortSpecEntry>, name: Seq<char>, i: int) -> bool {
    &&& 0 <= i < entries.len()
    &&& entries[i].name@ == name
    &&& forall|j: int| 0 <= j < i ==> entries[j].name@ != name
}

/// Some entry of `entries` is named `name`.
pub open spec fn has_named(entries: Seq<PortSpecEntry>, name: Seq<char>) -> bool {
    exists|i: int| 0 <= i < entries.len() && entries[i].name@ == name
}

/// The first entry of `entries` named `name`, if there is one.
pub open spec fn lookup_entry(entries: Seq<PortSpecEntry>, name: Seq<char>) -> Option<PortSpecEntry> {
    if has_named(entries, name) {
        Some(entries[choose|i: int| first_named(entries, name, i)])
    } else {
        None
    }
}

/// The kind of the first entry named `name`, as a character sequence.
pub open spec fn lookup_kind(entries: Seq<PortSpecEntry>, name: Seq<char>) -> Option<Seq<char>> {
    match lookup_entry(entries, name) {
        Some(e) => Some(e.kind@),
        None => None,
    }
}

/// The view of an optional string.
pub open spec fn opt_str(o: Option<String>) -> Option<Seq<char>> {
    match o {
        Some(s) => Some(s@),
        None => None,
    }
}

/// The names of the required entries, in order.
pub open spec fn required_names(entries: Seq<PortSpecEntry>) -> Seq<Seq<char>>
    decreases entries.len(),
{
    if entries.len() == 0 {
        Seq::empty()
    } else {
        let rest = required_names(entries.drop_last());
        if entries.last().required {
            rest.push(entries.last().name@)
        } else {
            rest
        }
    }
}

/// The names of all entries, in order.
pub open spec fn all_names(entries: Seq<PortSpecEntry>) -> Seq<Seq<char>> {
    entries.map_values(|e: PortSpecEntry| e.name@)
}

/// The views of a sequence of strings.
pub open spec fn strs(v: Seq<String>) -> Seq<Seq<char>> {
    v.map_values(|s: String| s@)
}

/// The input entry declared by a port definition.
pub open spec fn input_entry_of(d: PortDef) -> PortSpecEntry {
    PortSpecEntry {
        name: d.port,
        direction: PortDirection::Input,
        kind: d.kind,
        required: match d.required {
            Some(b) => b,
            None => true,
        },
    }
}

/// The output entry declared by a port definition.
pub open spec fn output_entry_of(d: PortDef) -> PortSpecEntry {
    PortSpecEntry { name: d.port, direction: PortDirection::Output, kind: d.kind, required: false }
}

/// Two entries named alike are the same entry: the first match is unique.
pub proof fn lemma_first_named_unique(entries: Seq<PortSpecEntry>, name: Seq<char>, i: int, j: int)
    requires
        first_named(entries, name, i),
        first_named(entries, name, j),
    ensures
        i == j,
{
}

/// Scan `entries` for the first entry named `name` and return its index.
fn find_named(entries: &Vec<PortSpecEntry>, name: &str) -> (r: Option<usize>)
    ensures
        match r {
            Some(i) => first_named(entries@, name@, i as int) && lookup_entry(entries@, name@)
                == Some(entries@[i as int]),
            None => !has_named(entries@, name@) && lookup_entry(entries@, name@) is None,
        },
{
    let target = name.to_owned();
    let mut i: usize = 0;
    while i < entries.len()
        invariant
            0 <= i <= entries.len(),
            target@ == name@,
            forall|j: int| 0 <= j < i ==> entries@[j].name@ != name@,
        decreases entries.len() - i,
    {
        if entries[i].name == target {
            proof {
                assert(first_named(entries@, name@, i as int));
                let k = choose|k: int| first_named(entries@, name@, k);
                lemma_first_named_unique(entries@, name@, i as int, k);
            }
            return Some(i);
        }
        i = i + 1;
    }
    None
}

impl PortDef {
    /// Convert this declaration to an input port entry; the port is required
    /// unless `required: false` was given.
    pub fn to_input_spec(&self) -> (e: PortSpecEntry)
        ensures
            e == input_entry_of(*self),
    {
        let required = match self.required {
            Some(b) => b,
            None => true,
        };
        PortSpecEntry {
            name: self.port.clone(),
            direction: PortDirection::Input,
            kind: self.kind.clone(),
            required,
        }
    }

    /// Convert this declaration to an output port entry (never required).
    pub fn to_output_spec(&self) -> (e: PortSpecEntry)
        ensures
            e == output_entry_of(*self),
    {
        PortSpecEntry {
            name: self.port.clone(),
            direction: PortDirection::Output,
            kind: self.kind.clone(),
            required: false,
        }
    }
}

impl PortSpec {
    /// Create a port spec from input and output entries.
    pub fn new(inputs: Vec<PortSpecEntry>, outputs: Vec<PortSpecEntry>) -> (s: Self)
        ensures
            s.inputs@ == inputs@,
            s.outputs@ == outputs@,
    {
        PortSpec { inputs, outputs }
    }

    /// The kind expected by the first input port named `name`.
    pub fn input_kind(&self, name: &str) -> (r: Option<String>)
        ensures
            opt_str(r) == lookup_kind(self.inputs@, name@),
    {
        match find_named(&self.inputs, name) {
            Some(i) => Some(self.inputs[i].kind.clone()),
            None => None,
        }
    }

    /// The kind emitted by the first output port named `name`.
    pub fn output_kind(&self, name: &str) -> (r: Option<String>)
        ensures
            opt_str(r) == lookup_kind(self.outputs@, name@),
    {
        match find_named(&self.outputs, name) {
            Some(i) => Some(self.outputs[i].kind.clone()),
            None => None,
        }
    }

    /// Whether the first input port named `name` exists and is required.
    pub fn is_input_required(&self, name: &str) -> (r: bool)
        ensures
            r == match lookup_entry(self.inputs@, name@) {
                Some(e) => e.required,
                None => false,
            },
    {
        match find_named(&self.inputs, name) {
            Some(i) => self.inputs[i].required,
            None => false,
        }
    }
}

impl PortSpec {
    /// The names of all required input ports, in declaration order.
    pub fn required_inputs(&self) -> (r: Vec<String>)
        ensures
            strs(r@) == required_names(self.inputs@),
    {
        let mut out: Vec<String> = Vec::new();
        let mut i: usize = 0;
        while i < self.inputs.len()
            invariant
                0 <= i <= self.inputs.len(),
                strs(out@) == required_names(self.inputs@.subrange(0, i as int)),
            decreases self.inputs.len() - i,
        {
            let ghost pre = out@;
            proof {
                assert(self.inputs@.subrange(0, i + 1).drop_last() =~= self.inputs@.subrange(0, i as int));
            }
            if self.inputs[i].required {
                out.push(self.inputs[i].name.clone());
                assert(strs(out@) =~= strs(pre).push(self.inputs@[i as int].name@));
            }
            i = i + 1;
        }
        assert(self.inputs@.subrange(0, self.inputs@.len() as int) =~= self.inputs@);
        out
    }

    /// The names of all output ports, in declaration order.
    pub fn output_names(&self) -> (r: Vec<String>)
        ensures
            strs(r@) == all_names(self.outputs@),
    {
        names_of(&self.outputs)
    }

    /// The names of all input ports, in declaration order.
    pub fn input_names(&self) -> (r: Vec<String>)
        ensures
            strs(r@) == all_names(self.inputs@),
    {
        names_of(&self.inputs)
    }

    /// Build a port spec from input and output declarations: inputs are
    /// required unless marked otherwise, outputs are never required.
    pub fn from_defs(inputs: &[PortDef], outputs: &[PortDef]) -> (s: Self)
        ensures
            s.inputs@ == inputs@.map_values(|d: PortDef| input_entry_of(d)),
            s.outputs@ == outputs@.map_values(|d: PortDef| output_entry_of(d)),
    {
        let mut ins: Vec<PortSpecEntry> = Vec::new();
        let mut i: usize = 0;
        while i < inputs.len()
            invariant
                0 <= i <= inputs@.len(),
                ins@ == inputs@.subrange(0, i as int).map_values(|d: PortDef| input_entry_of(d)),
            decreases inputs@.len() - i,
        {
            ins.push(inputs[i].to_input_spec());
            assert(ins@ =~= inputs@.subrange(0, i + 1).map_values(|d: PortDef| input_entry_of(d)));
            i = i + 1;
        }
        let mut outs: Vec<PortSpecEntry> = Vec::new();
        let mut j: usize = 0;
        while j < outputs.len()
            invariant
                0 <= j <= outputs@.len(),
                outs@ == outputs@.subrange(0, j as int).map_values(|d: PortDef| output_entry_of(d)),
            decreases outputs@.len() - j,
        {
            outs.push(outputs[j].to_output_spec());
            assert(outs@ =~= outputs@.subrange(0, j + 1).map_values(|d: PortDef| output_entry_of(d)));
            j = j + 1;
        }
        assert(inputs@.subrange(0, inputs@.len() as int) =~= inputs@);
        assert(outputs@.subrange(0, outputs@.len() as int) =~= outputs@);
        PortSpec::new(ins, outs)
    }
}

/// The names of `entries`, in order.
fn names_of(entries: &Vec<PortSpecEntry>) -> (r: Vec<String>)
    ensures
        strs(r@) == all_names(entries@),
{
    let mut out: Vec<String> = Vec::new();
    let mut i: usize = 0;
    while i < entries.len()
        invariant
            0 <= i <= entries.len(),
            strs(out@) == all_names(entries@.subrange(0, i as int)),
        decreases entries.len() - i,
    {
        let ghost pre = out@;
        out.push(entries[i].name.clone());
        assert(strs(out@) =~= strs(pre).push(entries@[i as int].name@));
        assert(all_names(entries@.subrange(0, i + 1)) =~= all_names(entries@.subrange(0, i as int)).push(
            entries@[i as int].name@,
        ));
        i = i + 1;
    }
    assert(entries@.subrange(0, entries@.len() as int) =~= entries@);
    out
}

} // verus!
