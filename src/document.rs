//! The graph document: nodes with pins and parameters, edges between pins,
//! and the structural checks that every parsed document passes.
use vstd::prelude::*;
use vstd::string::*;
use crate::text::{blank, is_blank, same_text};

verus! {

/// One end of an edge: a node id and a pin name on that node.
#[derive(Debug, Clone, PartialEq, Eq)]
pub struct Endpoint {
    pub node: String,
    pub pin: String,
}

/// A directed dependency from a producer pin to a consumer pin.
#[derive(Debug, Clone, PartialEq, Eq)]
pub struct Edge {
    pub from: Endpoint,
    pub to: Endpoint,
}

/// A named pin with a descriptive type tag.
#[derive(Debug, Clone, PartialEq, Eq)]
pub struct Pin {
    pub id: String,
    pub ty: String,
}

/// The value of a node parameter, as far as the graph logic reads it.
#[derive(Debug, Clone, PartialEq, Eq)]
pub enum ParamValue {
    /// A string value.
    Text(String),
    /// A non-negative integer that fits in 64 bits.
    Unsigned(u64),
    /// Any other value, kept in its JSON encoding.
    Other(String),
}

/// A keyed node parameter.
#[derive(Debug, Clone, PartialEq, Eq)]
pub struct Param {
    pub key: String,
    pub value: ParamValue,
}

/// A node of the graph: its id, its domain-qualified kind, its pins and its
/// parameters.
#[derive(Debug, Clone, PartialEq, Eq)]
pub struct Node {
    pub id: String,
    pub kind: String,
    pub inputs: Vec<Pin>,
    pub outputs: Vec<Pin>,
    pub params: Vec<Param>,
}

/// A whole graph document.
#[derive(Debug, Clone, PartialEq, Eq)]
pub struct GraphDoc {
    pub version: u32,
    pub name: String,
    pub nodes: Vec<Node>,
    pub edges: Vec<Edge>,
}

/// Why a document was refused.
#[derive(Debug, Clone, PartialEq, Eq)]
pub enum SpecError {
    Parse(String),
    EmptyName,
    DuplicateNodeId(String),
}

/// The message that describes a document error.
pub open spec fn spec_error_message(e: SpecError) -> Seq<char> {
    match e {
        SpecError::Parse(m) => "parse error: "@ + m@,
        SpecError::EmptyName => "graph name is empty"@,
        SpecError::DuplicateNodeId(id) => "duplicate node id: "@ + id@,
    }
}

impl SpecError {
    /// Describes the error.
    pub fn to_string(&self) -> (r: String)
        ensures
            r@ == spec_error_message(*self),
    {
        match self {
            SpecError::Parse(m) => String::from_str("parse error: ").concat(m.as_str()),
            SpecError::EmptyName => String::from_str("graph name is empty"),
            SpecError::DuplicateNodeId(id) => String::from_str("duplicate node id: ").concat(id.as_str()),
        }
    }
}

/// The id of node `i`.
pub open spec fn node_id(doc: GraphDoc, i: int) -> Seq<char> {
    doc.nodes@[i].id@
}

/// Node `j` repeats the id of an earlier node.
pub open spec fn is_duplicate_at(doc: GraphDoc, j: int) -> bool {
    exists|i: int| 0 <= i < j && #[trigger] node_id(doc, i) == node_id(doc, j)
}

/// No two nodes share an id.
pub open spec fn ids_unique(doc: GraphDoc) -> bool {
    forall|i: int, j: int|
        0 <= i < doc.nodes@.len() && 0 <= j < doc.nodes@.len() && i != j
            ==> node_id(doc, i) != node_id(doc, j)
}

/// A document that passes the structural checks: a name that is not blank
/// and unique node ids.
pub open spec fn is_valid_doc(doc: GraphDoc) -> bool {
    !is_blank(doc.name@) && ids_unique(doc)
}

/// The first value stored under `key`, if any.
pub open spec fn param_lookup(params: Seq<Param>, key: Seq<char>) -> Option<ParamValue>
    decreases params.len(),
{
    if params.len() == 0 {
        None
    } else if params[0].key@ == key {
        Some(params[0].value)
    } else {
        param_lookup(params.drop_first(), key)
    }
}

/// The parameter under `key` when it holds a string.
pub open spec fn text_param(params: Seq<Param>, key: Seq<char>) -> Option<Seq<char>> {
    match param_lookup(params, key) {
        Some(ParamValue::Text(s)) => Some(s@),
        _ => None,
    }
}

/// The parameter under `key` when it holds an unsigned integer.
pub open spec fn unsigned_param(params: Seq<Param>, key: Seq<char>) -> Option<u64> {
    match param_lookup(params, key) {
        Some(ParamValue::Unsigned(n)) => Some(n),
        _ => None,
    }
}

/// Node `j` is the first, in node order, to repeat an earlier id.
pub open spec fn is_first_duplicate(doc: GraphDoc, j: int) -> bool {
    &&& 0 <= j < doc.nodes@.len()
    &&& is_duplicate_at(doc, j)
    &&& forall|k: int| 0 <= k < j ==> !is_duplicate_at(doc, k)
}

/// Checks a document's structure: its name must not be blank once trimmed,
/// and no node id may repeat. The first repeated id in node order is
/// reported. Edges are not looked at.
pub fn validate_graph_doc(doc: &GraphDoc) -> (r: Result<(), SpecError>)
    ensures
        match r {
            Ok(()) => is_valid_doc(*doc),
            Err(SpecError::EmptyName) => is_blank(doc.name@),
            Err(SpecError::DuplicateNodeId(id)) => !is_blank(doc.name@) && exists|j: int|
                is_first_duplicate(*doc, j) && id@ == node_id(*doc, j),
            Err(SpecError::Parse(_)) => false,
        },
{
    if blank(doc.name.as_str()) {
        return Err(SpecError::EmptyName);
    }
    let n = doc.nodes.len();
    let mut j: usize = 0;
    while j < n
        invariant
            n == doc.nodes@.len(),
            !is_blank(doc.name@),
            j <= n,
            forall|k: int| 0 <= k < j ==> !is_duplicate_at(*doc, k),
        decreases n - j,
    {
        let mut i: usize = 0;
        while i < j
            invariant
                n == doc.nodes@.len(),
                !is_blank(doc.name@),
                i <= j < n,
                forall|k: int| 0 <= k < j ==> !is_duplicate_at(*doc, k),
                forall|k: int| 0 <= k < i ==> node_id(*doc, k) != node_id(*doc, j as int),
            decreases j - i,
        {
            if doc.nodes[i].id == doc.nodes[j].id {
                assert(node_id(*doc, i as int) == node_id(*doc, j as int));
                assert(is_duplicate_at(*doc, j as int));
                assert(is_first_duplicate(*doc, j as int));
                let id = doc.nodes[j].id.clone();
                assert(id@ == node_id(*doc, j as int));
                return Err(SpecError::DuplicateNodeId(id));
            }
            i = i + 1;
        }
        j = j + 1;
    }
    assert forall|a: int, b: int|
        0 <= a < doc.nodes@.len() && 0 <= b < doc.nodes@.len() && a != b
            implies node_id(*doc, a) != node_id(*doc, b) by {
        if a < b {
            assert(!is_duplicate_at(*doc, b));
        } else {
            assert(!is_duplicate_at(*doc, a));
        }
    }
    Ok(())
}

impl Node {
    /// The first parameter stored under `key`.
    pub fn param(&self, key: &str) -> (r: Option<&ParamValue>)
        ensures
            match r {
                Some(v) => param_lookup(self.params@, key@) == Some(*v),
                None => param_lookup(self.params@, key@) is None,
            },
    {
        let mut i: usize = 0;
        assert(self.params@.skip(0) =~= self.params@);
        while i < self.params.len()
            invariant
                i <= self.params@.len(),
                param_lookup(self.params@, key@) == param_lookup(self.params@.skip(i as int), key@),
            decreases self.params@.len() - i,
        {
            assert(self.params@.skip(i as int).drop_first() =~= self.params@.skip(i + 1));
            if same_text(self.params[i].key.as_str(), key) {
                return Some(&self.params[i].value);
            }
            i = i + 1;
        }
        None
    }
}

} // verus!
