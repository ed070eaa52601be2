//! A node-graph intermediate representation: documents made of nodes and
//! directed pin-to-pin edges, domain catalogs of node kinds, a deterministic
//! topological compiler and an adapter that turns a compiled graph into
//! render-pass descriptors and a pipeline configuration.
pub mod text;
pub mod document;
pub mod compiler;
pub mod plugin;
pub mod domains;
pub mod adapter;
pub mod request;

pub use document::{
    Edge, Endpoint, GraphDoc, Node, Param, ParamValue, Pin, SpecError, validate_graph_doc,
};
pub use compiler::{CompileError, CompilePlan, compile_graph};
pub use plugin::{
    CategoryGroup, DomainPlugin, NodeTypeDescriptor, PluginRegistry, RegisteredDomain,
    list_nodes_by_domain_and_category, list_supported_node_kinds,
};
pub use domains::{
    AiTaskGraphPlugin, FrameGraphPlugin, ScriptGraphPlugin, ShaderGraphPlugin, build_plugin_registry,
};
pub use adapter::{
    AdapterError, FrameGraphPassDesc, PassConfig, PassKind, RenderPipelineConfig, ResourceConfig,
    ResourceKind, compile_for_tenengine, compile_to_pipeline_config, node_kind_to_pass_kind,
};
pub use request::{CompileResult, compile_document};
