//! A whole compile request on a parsed document: every node is validated
//! against the registered domains, then the document is compiled and its
//! frame-graph passes listed. The first failure ends the request.
use vstd::prelude::*;
use crate::adapter::{FrameGraphPassDesc, compile_for_tenengine, desc_view, frame_passes};
use crate::compiler::{CompileError, compile_error_message, compile_failure, compile_graph, ids_at, kahn_order, texts};
use crate::document::{GraphDoc, ids_unique};
use crate::plugin::{PluginRegistry, registry_verdict};

verus! {

/// What a successful request returns.
#[derive(Debug, Clone, PartialEq, Eq)]
pub struct CompileResult {
    pub graph_name: String,
    pub execution_order: Vec<String>,
    pub tenengine_passes: Vec<FrameGraphPassDesc>,
}

/// Every node before position `i` is accepted by the registry.
pub open spec fn nodes_accepted_upto(domains: Seq<crate::plugin::RegisteredDomain>, doc: GraphDoc, i: int) -> bool {
    forall|j: int| 0 <= j < i ==> registry_verdict(domains, (#[trigger] doc.nodes@[j]).kind@) is Ok
}

/// Node `i` is the first that the registry rejects.
pub open spec fn first_rejected(domains: Seq<crate::plugin::RegisteredDomain>, doc: GraphDoc, i: int) -> bool {
    &&& 0 <= i < doc.nodes@.len()
    &&& registry_verdict(domains, doc.nodes@[i].kind@) is Err
    &&& nodes_accepted_upto(domains, doc, i)
}

/// Runs a compile request: validates every node with the registry, in
/// node order, then compiles the document and lists its frame-graph passes.
/// Fails with the message of the first node the registry rejects, or else
/// with the message of the compile failure.
pub fn compile_document(registry: &PluginRegistry, doc: &GraphDoc) -> (r: Result<CompileResult, String>)
    requires
        ids_unique(*doc),
    ensures
        match r {
            Ok(res) => {
                &&& nodes_accepted_upto(registry@, *doc, doc.nodes@.len() as int)
                &&& kahn_order(*doc).len() == doc.nodes@.len()
                &&& res.graph_name@ == doc.name@
                &&& texts(res.execution_order@) == ids_at(*doc, kahn_order(*doc))
                &&& res.tenengine_passes@.map_values(|d: FrameGraphPassDesc| desc_view(d))
                    == frame_passes(*doc, kahn_order(*doc))
            },
            Err(m) => {
                ||| exists|i: int| first_rejected(registry@, *doc, i)
                    && Err::<(), Seq<char>>(m@) == registry_verdict(registry@, doc.nodes@[i].kind@)
                ||| nodes_accepted_upto(registry@, *doc, doc.nodes@.len() as int)
                    && exists|e: CompileError| compile_failure(*doc, e) && m@ == compile_error_message(e)
            },
        },
{
    let mut i: usize = 0;
    while i < doc.nodes.len()
        invariant
            i <= doc.nodes@.len(),
            nodes_accepted_upto(registry@, *doc, i as int),
        decreases doc.nodes@.len() - i,
    {
        match registry.validate_node_with_any_plugin(&doc.nodes[i]) {
            Ok(()) => {},
            Err(m) => {
                assert(first_rejected(registry@, *doc, i as int));
                return Err(m);
            },
        }
        i = i + 1;
    }
    let plan = match compile_graph(doc) {
        Ok(plan) => plan,
        Err(e) => {
            return Err(e.to_string());
        },
    };
    let passes = match compile_for_tenengine(doc) {
        Ok(passes) => passes,
        Err(e) => {
            return Err(e.to_string());
        },
    };
    Ok(CompileResult {
        graph_name: doc.name.clone(),
        execution_order: plan.order,
        tenengine_passes: passes,
    })
}

} // verus!
