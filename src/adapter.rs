//! The engine adapter: projects a compiled graph onto frame-graph pass
//! descriptors and onto a render-pipeline configuration.
use vstd::prelude::*;
use vstd::string::*;
use crate::compiler::{CompileError, compile_error_message, compile_failure, compile_positions, kahn_order, edges_resolve};
use crate::document::{Edge, GraphDoc, Node, ParamValue, ids_unique, text_param, unsigned_param};
use crate::compiler::texts;
use crate::text::{decimal, push_decimal};
use crate::text::{has_prefix, starts_with, same_text};

verus! {

/// A frame-graph pass: a node whose kind is in the `frame.` domain.
#[derive(Debug, Clone, PartialEq, Eq)]
pub struct FrameGraphPassDesc {
    pub node_id: String,
    pub node_kind: String,
    pub pass_name: Option<String>,
}

/// A render-pipeline configuration generated from a graph.
#[derive(Debug, Clone, PartialEq, Eq)]
pub struct RenderPipelineConfig {
    pub name: String,
    pub passes: Vec<PassConfig>,
    pub resources: Vec<ResourceConfig>,
}

/// One pass of a pipeline configuration.
#[derive(Debug, Clone, PartialEq, Eq)]
pub struct PassConfig {
    pub id: String,
    pub kind: PassKind,
    pub name: String,
    pub inputs: Vec<String>,
    pub outputs: Vec<String>,
    pub width: u32,
    pub height: u32,
    pub material: Option<String>,
    pub mesh: Option<String>,
}

/// The engine's classification of a pass.
#[derive(Debug, Clone, Copy, PartialEq, Eq, Structural)]
pub enum PassKind {
    Scene,
    Light,
    PostProcess,
    Effect,
    Custom,
}

/// A resource that a pipeline declares.
#[derive(Debug, Clone, PartialEq, Eq)]
pub struct ResourceConfig {
    pub id: String,
    pub kind: ResourceKind,
    pub format: Option<String>,
    pub width: u32,
    pub height: u32,
}

/// The shape of a declared resource.
#[derive(Debug, Clone, Copy, PartialEq, Eq, Structural)]
pub enum ResourceKind {
    Texture2D,
    TextureCube,
    Buffer,
}

/// Why the adapter failed.
#[derive(Debug, Clone, PartialEq, Eq)]
pub enum AdapterError {
    /// The compiler refused the graph.
    Compile(CompileError),
    /// A node's kind belongs to no domain the adapter knows.
    InvalidNodeKind(String),
}

/// The name of a pass kind.
pub open spec fn pass_kind_name(k: PassKind) -> Seq<char> {
    match k {
        PassKind::Scene => "Scene"@,
        PassKind::Light => "Light"@,
        PassKind::PostProcess => "PostProcess"@,
        PassKind::Effect => "Effect"@,
        PassKind::Custom => "Custom"@,
    }
}

impl PassKind {
    /// The kind's name.
    pub fn to_string(&self) -> (r: String)
        ensures
            r@ == pass_kind_name(*self),
    {
        match self {
            PassKind::Scene => String::from_str("Scene"),
            PassKind::Light => String::from_str("Light"),
            PassKind::PostProcess => String::from_str("PostProcess"),
            PassKind::Effect => String::from_str("Effect"),
            PassKind::Custom => String::from_str("Custom"),
        }
    }
}

/// The message that describes an adapter error.
pub open spec fn adapter_error_message(e: AdapterError) -> Seq<char> {
    match e {
        AdapterError::Compile(c) => compile_error_message(c),
        AdapterError::InvalidNodeKind(kind) => "Invalid node kind: "@ + kind@,
    }
}

impl AdapterError {
    /// Describes the error.
    pub fn to_string(&self) -> (r: String)
        ensures
            r@ == adapter_error_message(*self),
    {
        match self {
            AdapterError::Compile(c) => c.to_string(),
            AdapterError::InvalidNodeKind(kind) => String::from_str("Invalid node kind: ").concat(kind.as_str()),
        }
    }
}

/// The pass kind of a node kind, by its domain prefix: the four core frame
/// operations are scene passes, other frame kinds custom, shader kinds
/// effects, script and AI kinds custom; other prefixes have none.
pub open spec fn pass_kind_of(kind: Seq<char>) -> Option<PassKind> {
    if has_prefix(kind, "frame."@) {
        if kind == "frame.begin_pass"@ || kind == "frame.end_pass"@ || kind == "frame.read_resource"@
            || kind == "frame.write_resource"@ {
            Some(PassKind::Scene)
        } else {
            Some(PassKind::Custom)
        }
    } else if has_prefix(kind, "shader."@) {
        Some(PassKind::Effect)
    } else if has_prefix(kind, "script."@) || has_prefix(kind, "ai."@) {
        Some(PassKind::Custom)
    } else {
        None
    }
}

/// Classifies a node kind by its domain prefix.
pub fn node_kind_to_pass_kind(kind: &str) -> (r: Result<PassKind, AdapterError>)
    ensures
        match r {
            Ok(k) => pass_kind_of(kind@) == Some(k),
            Err(AdapterError::InvalidNodeKind(s)) => pass_kind_of(kind@) is None && s@ == kind@,
            Err(AdapterError::Compile(_)) => false,
        },
{
    if starts_with(kind, "frame.") {
        if same_text(kind, "frame.begin_pass") || same_text(kind, "frame.end_pass")
            || same_text(kind, "frame.read_resource") || same_text(kind, "frame.write_resource") {
            Ok(PassKind::Scene)
        } else {
            Ok(PassKind::Custom)
        }
    } else if starts_with(kind, "shader.") {
        Ok(PassKind::Effect)
    } else if starts_with(kind, "script.") {
        Ok(PassKind::Custom)
    } else if starts_with(kind, "ai.") {
        Ok(PassKind::Custom)
    } else {
        Err(AdapterError::InvalidNodeKind(kind.to_owned()))
    }
}

/// An optional string as optional text.
pub open spec fn opt_text(o: Option<String>) -> Option<Seq<char>> {
    match o {
        Some(s) => Some(s@),
        None => None,
    }
}

/// The parameter under `key` when it is a string.
fn string_param(node: &Node, key: &str) -> (r: Option<String>)
    ensures
        opt_text(r) == text_param(node.params@, key@),
{
    match node.param(key) {
        Some(ParamValue::Text(s)) => Some(s.clone()),
        _ => None,
    }
}

/// A frame pass descriptor as text: node id, node kind, pass name.
pub open spec fn desc_view(d: FrameGraphPassDesc) -> (Seq<char>, Seq<char>, Option<Seq<char>>) {
    (d.node_id@, d.node_kind@, opt_text(d.pass_name))
}

/// The frame pass descriptors for the nodes at the given positions, in
/// that order: nodes of other domains are skipped.
pub open spec fn frame_passes(doc: GraphDoc, order: Seq<usize>) -> Seq<(Seq<char>, Seq<char>, Option<Seq<char>>)>
    decreases order.len(),
{
    if order.len() == 0 {
        Seq::empty()
    } else {
        let rest = frame_passes(doc, order.drop_last());
        let node = doc.nodes@[order.last() as int];
        if has_prefix(node.kind@, "frame."@) {
            rest.push((node.id@, node.kind@, text_param(node.params@, "pass_name"@)))
        } else {
            rest
        }
    }
}

/// Compiles a document and lists its frame-graph passes in execution
/// order, each with its `pass_name` parameter when that is a string.
/// Compile failures are passed on unchanged.
pub fn compile_for_tenengine(doc: &GraphDoc) -> (r: Result<Vec<FrameGraphPassDesc>, AdapterError>)
    requires
        ids_unique(*doc),
    ensures
        match r {
            Ok(descs) => {
                &&& edges_resolve(*doc)
                &&& kahn_order(*doc).len() == doc.nodes@.len()
                &&& descs@.map_values(|d: FrameGraphPassDesc| desc_view(d)) == frame_passes(*doc, kahn_order(*doc))
            },
            Err(AdapterError::Compile(e)) => compile_failure(*doc, e),
            Err(AdapterError::InvalidNodeKind(_)) => false,
        },
{
    let order = match compile_positions(doc) {
        Ok(order) => order,
        Err(e) => {
            return Err(AdapterError::Compile(e));
        },
    };
    let mut out: Vec<FrameGraphPassDesc> = Vec::new();
    let mut p: usize = 0;
    while p < order.len()
        invariant
            p <= order@.len(),
            forall|q: int| 0 <= q < order@.len() ==> (order@[q] as int) < doc.nodes@.len(),
            out@.map_values(|d: FrameGraphPassDesc| desc_view(d)) == frame_passes(*doc, order@.subrange(0, p as int)),
        decreases order@.len() - p,
    {
        let node = &doc.nodes[order[p]];
        proof {
            assert(order@.subrange(0, p + 1).drop_last() =~= order@.subrange(0, p as int));
        }
        if starts_with(node.kind.as_str(), "frame.") {
            let d = FrameGraphPassDesc {
                node_id: node.id.clone(),
                node_kind: node.kind.clone(),
                pass_name: string_param(node, "pass_name"),
            };
            let ghost before = out@;
            out.push(d);
            proof {
                assert(out@.map_values(|d: FrameGraphPassDesc| desc_view(d)) =~= before.map_values(
                    |d: FrameGraphPassDesc| desc_view(d),
                ).push(desc_view(d)));
            }
        }
        p = p + 1;
    }
    proof {
        assert(order@.subrange(0, order@.len() as int) =~= order@);
    }
    Ok(out)
}

/// The source pins of the edges that end at node `id`, in edge order.
pub open spec fn incoming_pins(edges: Seq<Edge>, id: Seq<char>) -> Seq<Seq<char>>
    decreases edges.len(),
{
    if edges.len() == 0 {
        Seq::empty()
    } else {
        let rest = incoming_pins(edges.drop_last(), id);
        if edges.last().to.node@ == id {
            rest.push(edges.last().from.pin@)
        } else {
            rest
        }
    }
}

/// The target pins of the edges that start at node `id`, in edge order.
pub open spec fn outgoing_pins(edges: Seq<Edge>, id: Seq<char>) -> Seq<Seq<char>>
    decreases edges.len(),
{
    if edges.len() == 0 {
        Seq::empty()
    } else {
        let rest = outgoing_pins(edges.drop_last(), id);
        if edges.last().from.node@ == id {
            rest.push(edges.last().to.pin@)
        } else {
            rest
        }
    }
}

/// The parameter under `key` when it is an unsigned integer, cut to its
/// low 32 bits; `default` otherwise.
pub open spec fn dimension(params: Seq<crate::document::Param>, key: Seq<char>, default: u32) -> u32 {
    match unsigned_param(params, key) {
        Some(n) => (n % 0x1_0000_0000) as u32,
        None => default,
    }
}

pub const DEFAULT_WIDTH: u32 = 1280;
pub const DEFAULT_HEIGHT: u32 = 720;

/// The pass name of the `p`-th pass: its `pass_name` string parameter, or
/// `Pass_<p>`.
pub open spec fn pass_name_of(node: Node, p: nat) -> Seq<char> {
    match text_param(node.params@, "pass_name"@) {
        Some(s) => s,
        None => "Pass_"@ + decimal(p),
    }
}

/// `c` is the pass configuration of node `i` of `doc`, taken as the
/// `p`-th pass.
pub open spec fn is_pass_of(c: PassConfig, doc: GraphDoc, i: int, p: nat) -> bool {
    let node = doc.nodes@[i];
    &&& c.id@ == node.id@
    &&& pass_kind_of(node.kind@) == Some(c.kind)
    &&& c.name@ == pass_name_of(node, p)
    &&& texts(c.inputs@) == incoming_pins(doc.edges@, node.id@)
    &&& texts(c.outputs@) == outgoing_pins(doc.edges@, node.id@)
    &&& c.width == dimension(node.params@, "width"@, DEFAULT_WIDTH)
    &&& c.height == dimension(node.params@, "height"@, DEFAULT_HEIGHT)
    &&& opt_text(c.material) == text_param(node.params@, "material"@)
    &&& opt_text(c.mesh) == text_param(node.params@, "mesh"@)
}

/// The names of declared resources.
pub open spec fn names_of(res: Seq<(Seq<char>, u32, u32)>) -> Seq<Seq<char>> {
    res.map_values(|d: (Seq<char>, u32, u32)| d.0)
}

/// Declares, after `res`, a resource of size `w` by `h` for each pin name
/// of `outs` not declared yet.
pub open spec fn add_outputs(res: Seq<(Seq<char>, u32, u32)>, outs: Seq<Seq<char>>, w: u32, h: u32) -> Seq<(Seq<char>, u32, u32)>
    decreases outs.len(),
{
    if outs.len() == 0 {
        res
    } else {
        let r = add_outputs(res, outs.drop_last(), w, h);
        if names_of(r).contains(outs.last()) {
            r
        } else {
            r.push((outs.last(), w, h))
        }
    }
}

/// The resources that the passes of the nodes at the given positions
/// declare: one per output pin name, first seen first, sized by the pass
/// that first names it.
pub open spec fn declared_resources(doc: GraphDoc, order: Seq<usize>) -> Seq<(Seq<char>, u32, u32)>
    decreases order.len(),
{
    if order.len() == 0 {
        Seq::empty()
    } else {
        let node = doc.nodes@[order.last() as int];
        add_outputs(
            declared_resources(doc, order.drop_last()),
            outgoing_pins(doc.edges@, node.id@),
            dimension(node.params@, "width"@, DEFAULT_WIDTH),
            dimension(node.params@, "height"@, DEFAULT_HEIGHT),
        )
    }
}

/// `c` declares the resource `d`: a 2D texture `res_<name>` in RGBA8.
pub open spec fn is_resource_of(c: ResourceConfig, d: (Seq<char>, u32, u32)) -> bool {
    &&& c.id@ == "res_"@ + d.0
    &&& c.kind == ResourceKind::Texture2D
    &&& opt_text(c.format) == Some("RGBA8"@)
    &&& c.width == d.1
    &&& c.height == d.2
}

/// The node at position `p` of `order` is the first with a kind of no
/// known domain.
pub open spec fn first_unclassified(doc: GraphDoc, order: Seq<usize>, p: int) -> bool {
    &&& 0 <= p < order.len()
    &&& pass_kind_of(doc.nodes@[order[p] as int].kind@) is None
    &&& forall|q: int| 0 <= q < p ==> pass_kind_of(doc.nodes@[order[q] as int].kind@) is Some
}

/// The pins that edges ending at `id` start from, in edge order.
fn collect_inputs(edges: &Vec<Edge>, id: &String) -> (r: Vec<String>)
    ensures
        texts(r@) == incoming_pins(edges@, id@),
{
    let mut r: Vec<String> = Vec::new();
    let mut k: usize = 0;
    while k < edges.len()
        invariant
            k <= edges@.len(),
            texts(r@) == incoming_pins(edges@.subrange(0, k as int), id@),
        decreases edges@.len() - k,
    {
        assert(edges@.subrange(0, k + 1).drop_last() =~= edges@.subrange(0, k as int));
        if edges[k].to.node == *id {
            r.push(edges[k].from.pin.clone());
        }
        assert(texts(r@) =~= incoming_pins(edges@.subrange(0, k + 1), id@));
        k = k + 1;
    }
    assert(edges@.subrange(0, edges@.len() as int) =~= edges@);
    r
}

/// The pins that edges starting at `id` end at, in edge order.
fn collect_outputs(edges: &Vec<Edge>, id: &String) -> (r: Vec<String>)
    ensures
        texts(r@) == outgoing_pins(edges@, id@),
{
    let mut r: Vec<String> = Vec::new();
    let mut k: usize = 0;
    while k < edges.len()
        invariant
            k <= edges@.len(),
            texts(r@) == outgoing_pins(edges@.subrange(0, k as int), id@),
        decreases edges@.len() - k,
    {
        assert(edges@.subrange(0, k + 1).drop_last() =~= edges@.subrange(0, k as int));
        if edges[k].from.node == *id {
            r.push(edges[k].to.pin.clone());
        }
        assert(texts(r@) =~= outgoing_pins(edges@.subrange(0, k + 1), id@));
        k = k + 1;
    }
    assert(edges@.subrange(0, edges@.len() as int) =~= edges@);
    r
}

/// The parameter under `key` when it is an unsigned integer, cut to 32
/// bits, else `default`.
fn dimension_param(node: &Node, key: &str, default: u32) -> (r: u32)
    ensures
        r == dimension(node.params@, key@, default),
{
    match node.param(key) {
        Some(ParamValue::Unsigned(n)) => (*n % 0x1_0000_0000) as u32,
        _ => default,
    }
}

/// Whether `names` holds `name`.
fn contains_text(names: &Vec<String>, name: &String) -> (r: bool)
    ensures
        r == texts(names@).contains(name@),
{
    let mut i: usize = 0;
    while i < names.len()
        invariant
            i <= names@.len(),
            forall|j: int| 0 <= j < i ==> (#[trigger] names@[j])@ != name@,
        decreases names@.len() - i,
    {
        if names[i] == *name {
            assert(texts(names@)[i as int] == name@);
            return true;
        }
        i = i + 1;
    }
    assert forall|j: int| 0 <= j < texts(names@).len() implies texts(names@)[j] != name@ by {
        assert(names@[j]@ != name@);
    }
    false
}

/// `resources` and `names` stand for the declared resources `d`.
pub open spec fn stands_for(resources: Seq<ResourceConfig>, names: Seq<String>, d: Seq<(Seq<char>, u32, u32)>) -> bool {
    &&& resources.len() == d.len()
    &&& forall|i: int| 0 <= i < d.len() ==> is_resource_of(#[trigger] resources[i], d[i])
    &&& texts(names) == names_of(d)
}

/// Declares a resource for each output pin name not declared yet.
fn declare_outputs(
    names: &mut Vec<String>,
    resources: &mut Vec<ResourceConfig>,
    outputs: &Vec<String>,
    width: u32,
    height: u32,
    Ghost(d0): Ghost<Seq<(Seq<char>, u32, u32)>>,
)
    requires
        stands_for(old(resources)@, old(names)@, d0),
    ensures
        stands_for(final(resources)@, final(names)@, add_outputs(d0, texts(outputs@), width, height)),
{
    let mut j: usize = 0;
    while j < outputs.len()
        invariant
            j <= outputs@.len(),
            stands_for(resources@, names@, add_outputs(d0, texts(outputs@).subrange(0, j as int), width, height)),
        decreases outputs@.len() - j,
    {
        let o = &outputs[j];
        let ghost d = add_outputs(d0, texts(outputs@).subrange(0, j as int), width, height);
        assert(texts(outputs@).subrange(0, j + 1).drop_last() =~= texts(outputs@).subrange(0, j as int));
        assert(texts(outputs@).subrange(0, j + 1).last() == o@);
        if !contains_text(names, o) {
            let mut id = String::from_str("res_");
            id.append(o.as_str());
            let ghost before_names = names@;
            names.push(o.clone());
            resources.push(ResourceConfig {
                id,
                kind: ResourceKind::Texture2D,
                format: Some(String::from_str("RGBA8")),
                width,
                height,
            });
            proof {
                let d2 = d.push((o@, width, height));
                assert(texts(names@) =~= texts(before_names).push(o@));
                assert(names_of(d2) =~= names_of(d).push(o@));
                assert(forall|i: int| 0 <= i < d2.len() ==> is_resource_of(#[trigger] resources@[i], d2[i]));
            }
        }
        j = j + 1;
    }
    assert(texts(outputs@).subrange(0, outputs@.len() as int) =~= texts(outputs@));
}

/// Compiles a document into a render-pipeline configuration named after
/// the document.
///
/// Each node, in execution order, becomes one pass: its kind classified by
/// domain prefix, its name from a string `pass_name` parameter or else
/// `Pass_<position>`, as inputs the source pins of the edges that end at it
/// and as outputs the target pins of the edges that start at it, its size
/// from unsigned `width` and `height` parameters (1280 by 720 by default),
/// and its `material` and `mesh` string parameters. Each output pin name
/// declares one RGBA8 2D texture `res_<name>` the first time it appears,
/// sized by the pass that names it. The first node whose kind belongs to no
/// known domain fails with `InvalidNodeKind`; compile failures are passed
/// on unchanged.
pub fn compile_to_pipeline_config(doc: &GraphDoc) -> (r: Result<RenderPipelineConfig, AdapterError>)
    requires
        ids_unique(*doc),
    ensures
        match r {
            Ok(config) => {
                let order = kahn_order(*doc);
                &&& edges_resolve(*doc)
                &&& order.len() == doc.nodes@.len()
                &&& forall|p: int| 0 <= p < order.len() ==> !first_unclassified(*doc, order, p)
                &&& config.name@ == doc.name@
                &&& config.passes@.len() == order.len()
                &&& forall|p: int| 0 <= p < order.len() ==> is_pass_of(#[trigger] config.passes@[p], *doc, order[p] as int, p as nat)
                &&& config.resources@.len() == declared_resources(*doc, order).len()
                &&& forall|i: int| 0 <= i < config.resources@.len() ==>
                    is_resource_of(#[trigger] config.resources@[i], declared_resources(*doc, order)[i])
            },
            Err(AdapterError::Compile(e)) => compile_failure(*doc, e),
            Err(AdapterError::InvalidNodeKind(kind)) => {
                &&& edges_resolve(*doc)
                &&& kahn_order(*doc).len() == doc.nodes@.len()
                &&& exists|p: int| first_unclassified(*doc, kahn_order(*doc), p)
                    && kind@ == doc.nodes@[kahn_order(*doc)[p] as int].kind@
            },
        },
{
    let order = match compile_positions(doc) {
        Ok(order) => order,
        Err(e) => {
            return Err(AdapterError::Compile(e));
        },
    };
    let mut passes: Vec<PassConfig> = Vec::new();
    let mut resources: Vec<ResourceConfig> = Vec::new();
    let mut names: Vec<String> = Vec::new();
    let mut p: usize = 0;
    proof {
        assert(declared_resources(*doc, order@.subrange(0, 0)) =~= Seq::empty());
        assert(texts(names@) =~= names_of(Seq::empty()));
    }
    while p < order.len()
        invariant
            p <= order@.len(),
            edges_resolve(*doc),
            order@ == kahn_order(*doc),
            order@.len() == doc.nodes@.len(),
            forall|q: int| 0 <= q < order@.len() ==> (order@[q] as int) < doc.nodes@.len(),
            forall|q: int| 0 <= q < p ==> pass_kind_of(doc.nodes@[order@[q] as int].kind@) is Some,
            passes@.len() == p,
            forall|q: int| 0 <= q < p ==> is_pass_of(#[trigger] passes@[q], *doc, order@[q] as int, q as nat),
            stands_for(resources@, names@, declared_resources(*doc, order@.subrange(0, p as int))),
        decreases order@.len() - p,
    {
        let node = &doc.nodes[order[p]];
        let kind = match node_kind_to_pass_kind(node.kind.as_str()) {
            Ok(k) => k,
            Err(e) => {
                proof {
                    assert(first_unclassified(*doc, order@, p as int));
                    assert(e->InvalidNodeKind_0@ == doc.nodes@[kahn_order(*doc)[p as int] as int].kind@);
                }
                return Err(e);
            },
        };
        let inputs = collect_inputs(&doc.edges, &node.id);
        let outputs = collect_outputs(&doc.edges, &node.id);
        let width = dimension_param(node, "width", DEFAULT_WIDTH);
        let height = dimension_param(node, "height", DEFAULT_HEIGHT);
        proof {
            assert(order@.subrange(0, p + 1).drop_last() =~= order@.subrange(0, p as int));
            assert(order@.subrange(0, p + 1).last() == order@[p as int]);
        }
        declare_outputs(
            &mut names,
            &mut resources,
            &outputs,
            width,
            height,
            Ghost(declared_resources(*doc, order@.subrange(0, p as int))),
        );
        let name = match string_param(node, "pass_name") {
            Some(s) => s,
            None => {
                let mut s = String::from_str("Pass_");
                push_decimal(&mut s, passes.len());
                s
            },
        };
        let pass = PassConfig {
            id: node.id.clone(),
            kind,
            name,
            inputs,
            outputs,
            width,
            height,
            material: string_param(node, "material"),
            mesh: string_param(node, "mesh"),
        };
        passes.push(pass);
        p = p + 1;
    }
    proof {
        assert(order@.subrange(0, order@.len() as int) =~= order@);
        assert forall|q: int| 0 <= q < order@.len() implies !first_unclassified(*doc, order@, q) by {}
    }
    Ok(RenderPipelineConfig { name: doc.name.clone(), passes, resources })
}

} // verus!
