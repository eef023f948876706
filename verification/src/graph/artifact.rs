//! Artifacts: the typed envelopes that flow along graph edges.
use vstd::prelude::*;
use vstd::string::*;

verus! {

/// serde_json's JSON value, carried through the engine without inspection.
#[verifier::external_type_specification]
#[verifier::external_body]
pub struct ExJsonValue(serde_json::Value);

/// Copy a JSON value.
///
/// Calls `serde_json::Value::clone`, the derived structural copy; the
/// contract claims the copy is the same value.
#[verifier::external_body]
pub(crate) fn copy_json(v: &serde_json::Value) -> (r: serde_json::Value)
    ensures
        r == *v,
{
    v.clone()
}

/// The kind of an artifact, by which ports are type-checked.
pub type ArtifactKind = String;

/// An artifact flowing through the graph: a kind tag used for port type
/// matching, plus a JSON payload that only the nodes interpret.
#[derive(Debug, PartialEq)]
pub struct Artifact {
    /// The kind of this artifact, used for port type checking.
    pub kind: String,
    /// The artifact payload.
    pub data: serde_json::Value,
}

/// Why an artifact could not be built.
#[derive(Debug, Clone, Copy, PartialEq, Eq, Structural)]
pub enum ArtifactError {
    /// The artifact kind was the empty string.
    EmptyKind,
}

impl Clone for Artifact {
    fn clone(&self) -> (res: Self)
        ensures
            res == *self,
    {
        Artifact { kind: self.kind.clone(), data: copy_json(&self.data) }
    }
}

impl Artifact {
    /// Build an artifact from a kind and an already serialized payload.
    /// An empty kind is rejected.
    pub fn new(kind: String, data: serde_json::Value) -> (r: Result<Self, ArtifactError>)
        ensures
            kind@.len() == 0 <==> r is Err,
            r matches Ok(a) ==> a.kind == kind && a.data == data,
    {
        if kind.as_str().is_empty() {
            Err(ArtifactError::EmptyKind)
        } else {
            Ok(Artifact { kind, data })
        }
    }

    /// A short description of the artifact: `Artifact(<kind>)`.
    pub fn to_string(&self) -> (r: String)
        ensures
            r@ == "Artifact("@ + self.kind@ + ")"@,
    {
        let mut s = String::from_str("Artifact(");
        s.append(self.kind.as_str());
        s.append(")");
        s
    }
}

} // verus!
