//! The built-in domains: frame graph, shader graph, script graph and AI
//! task graph, each a fixed catalog of node kinds.
use vstd::prelude::*;
use crate::plugin::{DomainPlugin, NodeTypeDescriptor, PluginRegistry};

verus! {

/// Render passes and frame resources.
pub struct FrameGraphPlugin;

/// The node kinds of the `framegraph` domain.
pub open spec fn frame_graph_catalog() -> Seq<NodeTypeDescriptor> {
    seq![
        NodeTypeDescriptor {
            kind: "frame.begin_pass",
            category: "pass",
            description: "Begin a render pass scope.",
        },
        NodeTypeDescriptor {
            kind: "frame.end_pass",
            category: "pass",
            description: "End / finalize a render pass scope.",
        },
        NodeTypeDescriptor {
            kind: "frame.clear",
            category: "pass",
            description: "Clear render target (color/depth).",
        },
        NodeTypeDescriptor {
            kind: "frame.resolve",
            category: "pass",
            description: "Resolve MSAA render target.",
        },
        NodeTypeDescriptor {
            kind: "frame.copy_texture",
            category: "pass",
            description: "Copy between textures.",
        },
        NodeTypeDescriptor {
            kind: "frame.blit",
            category: "pass",
            description: "Fullscreen blit / post-process pass.",
        },
        NodeTypeDescriptor {
            kind: "frame.read_resource",
            category: "resource",
            description: "Declare read dependency to a resource.",
        },
        NodeTypeDescriptor {
            kind: "frame.write_resource",
            category: "resource",
            description: "Declare write dependency to a resource.",
        },
        NodeTypeDescriptor {
            kind: "frame.create_texture2d",
            category: "resource",
            description: "Create 2D texture resource.",
        },
        NodeTypeDescriptor {
            kind: "frame.create_texture_cube",
            category: "resource",
            description: "Create cube map texture.",
        },
        NodeTypeDescriptor {
            kind: "frame.create_buffer",
            category: "resource",
            description: "Create buffer (vertex/index/constant).",
        },
    ]
}

impl DomainPlugin for FrameGraphPlugin {
    open spec fn domain(&self) -> Seq<char> {
        "framegraph"@
    }

    open spec fn catalog(&self) -> Seq<NodeTypeDescriptor> {
        frame_graph_catalog()
    }

    fn domain_name(&self) -> (r: &'static str) {
        "framegraph"
    }

    fn node_types(&self) -> (r: Vec<NodeTypeDescriptor>) {
        let r = vec![
            NodeTypeDescriptor {
                kind: "frame.begin_pass",
                category: "pass",
                description: "Begin a render pass scope.",
            },
            NodeTypeDescriptor {
                kind: "frame.end_pass",
                category: "pass",
                description: "End / finalize a render pass scope.",
            },
            NodeTypeDescriptor {
                kind: "frame.clear",
                category: "pass",
                description: "Clear render target (color/depth).",
            },
            NodeTypeDescriptor {
                kind: "frame.resolve",
                category: "pass",
                description: "Resolve MSAA render target.",
            },
            NodeTypeDescriptor {
                kind: "frame.copy_texture",
                category: "pass",
                description: "Copy between textures.",
            },
            NodeTypeDescriptor {
                kind: "frame.blit",
                category: "pass",
                description: "Fullscreen blit / post-process pass.",
            },
            NodeTypeDescriptor {
                kind: "frame.read_resource",
                category: "resource",
                description: "Declare read dependency to a resource.",
            },
            NodeTypeDescriptor {
                kind: "frame.write_resource",
                category: "resource",
                description: "Declare write dependency to a resource.",
            },
            NodeTypeDescriptor {
                kind: "frame.create_texture2d",
                category: "resource",
                description: "Create 2D texture resource.",
            },
            NodeTypeDescriptor {
                kind: "frame.create_texture_cube",
                category: "resource",
                description: "Create cube map texture.",
            },
            NodeTypeDescriptor {
                kind: "frame.create_buffer",
                category: "resource",
                description: "Create buffer (vertex/index/constant).",
            },
        ];
        assert(r@ =~= frame_graph_catalog());
        r
    }
}

/// Material and shader nodes.
pub struct ShaderGraphPlugin;

/// The node kinds of the `shadergraph` domain.
pub open spec fn shader_graph_catalog() -> Seq<NodeTypeDescriptor> {
    seq![
        NodeTypeDescriptor {
            kind: "shader.input",
            category: "io",
            description: "Shader graph input (e.g. UV, Normal).",
        },
        NodeTypeDescriptor {
            kind: "shader.output",
            category: "io",
            description: "Shader graph final output (Base Color, Metallic, etc.).",
        },
        NodeTypeDescriptor {
            kind: "shader.vertex_interpolant",
            category: "io",
            description: "Pass data from vertex to pixel shader.",
        },
        NodeTypeDescriptor {
            kind: "shader.sample_texture2d",
            category: "texture",
            description: "Sample a 2D texture by UV.",
        },
        NodeTypeDescriptor {
            kind: "shader.sample_texture_cube",
            category: "texture",
            description: "Sample a cube map.",
        },
        NodeTypeDescriptor {
            kind: "shader.texture_object",
            category: "texture",
            description: "Texture object parameter.",
        },
        NodeTypeDescriptor {
            kind: "shader.tex_coord",
            category: "texture",
            description: "Texture coordinate (UV) input.",
        },
        NodeTypeDescriptor {
            kind: "shader.parallax_occlusion",
            category: "texture",
            description: "Parallax occlusion mapping.",
        },
        NodeTypeDescriptor {
            kind: "shader.multiply",
            category: "math",
            description: "Multiply (A * B).",
        },
        NodeTypeDescriptor {
            kind: "shader.add",
            category: "math",
            description: "Add (A + B).",
        },
        NodeTypeDescriptor {
            kind: "shader.subtract",
            category: "math",
            description: "Subtract (A - B).",
        },
        NodeTypeDescriptor {
            kind: "shader.divide",
            category: "math",
            description: "Divide (A / B).",
        },
        NodeTypeDescriptor {
            kind: "shader.lerp",
            category: "math",
            description: "Linear interpolate (Alpha blend).",
        },
        NodeTypeDescriptor {
            kind: "shader.clamp",
            category: "math",
            description: "Clamp value to min/max.",
        },
        NodeTypeDescriptor {
            kind: "shader.saturate",
            category: "math",
            description: "Clamp to [0, 1].",
        },
        NodeTypeDescriptor {
            kind: "shader.dot",
            category: "math",
            description: "Dot product.",
        },
        NodeTypeDescriptor {
            kind: "shader.cross",
            category: "math",
            description: "Cross product.",
        },
        NodeTypeDescriptor {
            kind: "shader.normalize",
            category: "math",
            description: "Normalize vector.",
        },
        NodeTypeDescriptor {
            kind: "shader.abs",
            category: "math",
            description: "Absolute value.",
        },
        NodeTypeDescriptor {
            kind: "shader.pow",
            category: "math",
            description: "Power (A ^ B).",
        },
        NodeTypeDescriptor {
            kind: "shader.sqrt",
            category: "math",
            description: "Square root.",
        },
        NodeTypeDescriptor {
            kind: "shader.one_minus",
            category: "math",
            description: "1 - X.",
        },
        NodeTypeDescriptor {
            kind: "shader.constant",
            category: "constant",
            description: "Constant scalar value.",
        },
        NodeTypeDescriptor {
            kind: "shader.constant2",
            category: "constant",
            description: "Constant 2D vector.",
        },
        NodeTypeDescriptor {
            kind: "shader.constant3",
            category: "constant",
            description: "Constant 3D vector.",
        },
        NodeTypeDescriptor {
            kind: "shader.constant4",
            category: "constant",
            description: "Constant 4D vector.",
        },
        NodeTypeDescriptor {
            kind: "shader.append_vector",
            category: "constant",
            description: "Append vector channels.",
        },
        NodeTypeDescriptor {
            kind: "shader.break_vector",
            category: "constant",
            description: "Break vector into components.",
        },
        NodeTypeDescriptor {
            kind: "shader.fresnel",
            category: "utility",
            description: "Fresnel / rim lighting.",
        },
        NodeTypeDescriptor {
            kind: "shader.normal_from_height",
            category: "utility",
            description: "Derive normal from height map.",
        },
        NodeTypeDescriptor {
            kind: "shader.desaturation",
            category: "utility",
            description: "Desaturate by luminance.",
        },
        NodeTypeDescriptor {
            kind: "shader.if",
            category: "utility",
            description: "Conditional (A >= B ? A : B).",
        },
    ]
}

impl DomainPlugin for ShaderGraphPlugin {
    open spec fn domain(&self) -> Seq<char> {
        "shadergraph"@
    }

    open spec fn catalog(&self) -> Seq<NodeTypeDescriptor> {
        shader_graph_catalog()
    }

    fn domain_name(&self) -> (r: &'static str) {
        "shadergraph"
    }

    fn node_types(&self) -> (r: Vec<NodeTypeDescriptor>) {
        let r = vec![
            NodeTypeDescriptor {
                kind: "shader.input",
                category: "io",
                description: "Shader graph input (e.g. UV, Normal).",
            },
            NodeTypeDescriptor {
                kind: "shader.output",
                category: "io",
                description: "Shader graph final output (Base Color, Metallic, etc.).",
            },
            NodeTypeDescriptor {
                kind: "shader.vertex_interpolant",
                category: "io",
                description: "Pass data from vertex to pixel shader.",
            },
            NodeTypeDescriptor {
                kind: "shader.sample_texture2d",
                category: "texture",
                description: "Sample a 2D texture by UV.",
            },
            NodeTypeDescriptor {
                kind: "shader.sample_texture_cube",
                category: "texture",
                description: "Sample a cube map.",
            },
            NodeTypeDescriptor {
                kind: "shader.texture_object",
                category: "texture",
                description: "Texture object parameter.",
            },
            NodeTypeDescriptor {
                kind: "shader.tex_coord",
                category: "texture",
                description: "Texture coordinate (UV) input.",
            },
            NodeTypeDescriptor {
                kind: "shader.parallax_occlusion",
                category: "texture",
                description: "Parallax occlusion mapping.",
            },
            NodeTypeDescriptor {
                kind: "shader.multiply",
                category: "math",
                description: "Multiply (A * B).",
            },
            NodeTypeDescriptor {
                kind: "shader.add",
                category: "math",
                description: "Add (A + B).",
            },
            NodeTypeDescriptor {
                kind: "shader.subtract",
                category: "math",
                description: "Subtract (A - B).",
            },
            NodeTypeDescriptor {
                kind: "shader.divide",
                category: "math",
                description: "Divide (A / B).",
            },
            NodeTypeDescriptor {
                kind: "shader.lerp",
                category: "math",
                description: "Linear interpolate (Alpha blend).",
            },
            NodeTypeDescriptor {
                kind: "shader.clamp",
                category: "math",
                description: "Clamp value to min/max.",
            },
            NodeTypeDescriptor {
                kind: "shader.saturate",
                category: "math",
                description: "Clamp to [0, 1].",
            },
            NodeTypeDescriptor {
                kind: "shader.dot",
                category: "math",
                description: "Dot product.",
            },
            NodeTypeDescriptor {
                kind: "shader.cross",
                category: "math",
                description: "Cross product.",
            },
            NodeTypeDescriptor {
                kind: "shader.normalize",
                category: "math",
                description: "Normalize vector.",
            },
            NodeTypeDescriptor {
                kind: "shader.abs",
                category: "math",
                description: "Absolute value.",
            },
            NodeTypeDescriptor {
                kind: "shader.pow",
                category: "math",
                description: "Power (A ^ B).",
            },
            NodeTypeDescriptor {
                kind: "shader.sqrt",
                category: "math",
                description: "Square root.",
            },
            NodeTypeDescriptor {
                kind: "shader.one_minus",
                category: "math",
                description: "1 - X.",
            },
            NodeTypeDescriptor {
                kind: "shader.constant",
                category: "constant",
                description: "Constant scalar value.",
            },
            NodeTypeDescriptor {
                kind: "shader.constant2",
                category: "constant",
                description: "Constant 2D vector.",
            },
            NodeTypeDescriptor {
                kind: "shader.constant3",
                category: "constant",
                description: "Constant 3D vector.",
            },
            NodeTypeDescriptor {
                kind: "shader.constant4",
                category: "constant",
                description: "Constant 4D vector.",
            },
            NodeTypeDescriptor {
                kind: "shader.append_vector",
                category: "constant",
                description: "Append vector channels.",
            },
            NodeTypeDescriptor {
                kind: "shader.break_vector",
                category: "constant",
                description: "Break vector into components.",
            },
            NodeTypeDescriptor {
                kind: "shader.fresnel",
                category: "utility",
                description: "Fresnel / rim lighting.",
            },
            NodeTypeDescriptor {
                kind: "shader.normal_from_height",
                category: "utility",
                description: "Derive normal from height map.",
            },
            NodeTypeDescriptor {
                kind: "shader.desaturation",
                category: "utility",
                description: "Desaturate by luminance.",
            },
            NodeTypeDescriptor {
                kind: "shader.if",
                category: "utility",
                description: "Conditional (A >= B ? A : B).",
            },
        ];
        assert(r@ =~= shader_graph_catalog());
        r
    }
}

/// Blueprint-style script nodes.
pub struct ScriptGraphPlugin;

/// The node kinds of the `scriptgraph` domain.
pub open spec fn script_graph_catalog() -> Seq<NodeTypeDescriptor> {
    seq![
        NodeTypeDescriptor {
            kind: "script.event_begin_play",
            category: "event",
            description: "Called when gameplay starts (like BeginPlay).",
        },
        NodeTypeDescriptor {
            kind: "script.event_tick",
            category: "event",
            description: "Called every frame (DeltaSeconds).",
        },
        NodeTypeDescriptor {
            kind: "script.event_input_action",
            category: "event",
            description: "Input action triggered (key/button).",
        },
        NodeTypeDescriptor {
            kind: "script.event_custom",
            category: "event",
            description: "Custom event (dispatched from elsewhere).",
        },
        NodeTypeDescriptor {
            kind: "script.branch",
            category: "flow",
            description: "Branch on condition (true/false).",
        },
        NodeTypeDescriptor {
            kind: "script.sequence",
            category: "flow",
            description: "Execute pins in sequence (Then 0, 1, 2...).",
        },
        NodeTypeDescriptor {
            kind: "script.for_loop",
            category: "flow",
            description: "For loop (First Index, Last Index, Loop Body).",
        },
        NodeTypeDescriptor {
            kind: "script.for_each_loop",
            category: "flow",
            description: "For each element in array.",
        },
        NodeTypeDescriptor {
            kind: "script.while_loop",
            category: "flow",
            description: "While condition is true.",
        },
        NodeTypeDescriptor {
            kind: "script.return",
            category: "flow",
            description: "Return / terminate execution path.",
        },
        NodeTypeDescriptor {
            kind: "script.delay",
            category: "flow",
            description: "Delay execution for duration.",
        },
        NodeTypeDescriptor {
            kind: "script.do_once",
            category: "flow",
            description: "Execute only once (then skip).",
        },
        NodeTypeDescriptor {
            kind: "script.gate",
            category: "flow",
            description: "Gate (open/close to allow flow).",
        },
        NodeTypeDescriptor {
            kind: "script.call_function",
            category: "call",
            description: "Call a named function.",
        },
        NodeTypeDescriptor {
            kind: "script.call_pure",
            category: "call",
            description: "Call pure function (no execution pin).",
        },
        NodeTypeDescriptor {
            kind: "script.print",
            category: "call",
            description: "Print string to log.",
        },
        NodeTypeDescriptor {
            kind: "script.get_variable",
            category: "variable",
            description: "Get variable value.",
        },
        NodeTypeDescriptor {
            kind: "script.set_variable",
            category: "variable",
            description: "Set variable value.",
        },
        NodeTypeDescriptor {
            kind: "script.promote_to_variable",
            category: "variable",
            description: "Promote value to variable.",
        },
        NodeTypeDescriptor {
            kind: "script.equal",
            category: "logic",
            description: "A == B.",
        },
        NodeTypeDescriptor {
            kind: "script.not_equal",
            category: "logic",
            description: "A != B.",
        },
        NodeTypeDescriptor {
            kind: "script.greater",
            category: "logic",
            description: "A > B.",
        },
        NodeTypeDescriptor {
            kind: "script.less",
            category: "logic",
            description: "A < B.",
        },
        NodeTypeDescriptor {
            kind: "script.and",
            category: "logic",
            description: "Boolean AND.",
        },
        NodeTypeDescriptor {
            kind: "script.or",
            category: "logic",
            description: "Boolean OR.",
        },
        NodeTypeDescriptor {
            kind: "script.not",
            category: "logic",
            description: "Boolean NOT.",
        },
    ]
}

impl DomainPlugin for ScriptGraphPlugin {
    open spec fn domain(&self) -> Seq<char> {
        "scriptgraph"@
    }

    open spec fn catalog(&self) -> Seq<NodeTypeDescriptor> {
        script_graph_catalog()
    }

    fn domain_name(&self) -> (r: &'static str) {
        "scriptgraph"
    }

    fn node_types(&self) -> (r: Vec<NodeTypeDescriptor>) {
        let r = vec![
            NodeTypeDescriptor {
                kind: "script.event_begin_play",
                category: "event",
                description: "Called when gameplay starts (like BeginPlay).",
            },
            NodeTypeDescriptor {
                kind: "script.event_tick",
                category: "event",
                description: "Called every frame (DeltaSeconds).",
            },
            NodeTypeDescriptor {
                kind: "script.event_input_action",
                category: "event",
                description: "Input action triggered (key/button).",
            },
            NodeTypeDescriptor {
                kind: "script.event_custom",
                category: "event",
                description: "Custom event (dispatched from elsewhere).",
            },
            NodeTypeDescriptor {
                kind: "script.branch",
                category: "flow",
                description: "Branch on condition (true/false).",
            },
            NodeTypeDescriptor {
                kind: "script.sequence",
                category: "flow",
                description: "Execute pins in sequence (Then 0, 1, 2...).",
            },
            NodeTypeDescriptor {
                kind: "script.for_loop",
                category: "flow",
                description: "For loop (First Index, Last Index, Loop Body).",
            },
            NodeTypeDescriptor {
                kind: "script.for_each_loop",
                category: "flow",
                description: "For each element in array.",
            },
            NodeTypeDescriptor {
                kind: "script.while_loop",
                category: "flow",
                description: "While condition is true.",
            },
            NodeTypeDescriptor {
                kind: "script.return",
                category: "flow",
                description: "Return / terminate execution path.",
            },
            NodeTypeDescriptor {
                kind: "script.delay",
                category: "flow",
                description: "Delay execution for duration.",
            },
            NodeTypeDescriptor {
                kind: "script.do_once",
                category: "flow",
                description: "Execute only once (then skip).",
            },
            NodeTypeDescriptor {
                kind: "script.gate",
                category: "flow",
                description: "Gate (open/close to allow flow).",
            },
            NodeTypeDescriptor {
                kind: "script.call_function",
                category: "call",
                description: "Call a named function.",
            },
            NodeTypeDescriptor {
                kind: "script.call_pure",
                category: "call",
                description: "Call pure function (no execution pin).",
            },
            NodeTypeDescriptor {
                kind: "script.print",
                category: "call",
                description: "Print string to log.",
            },
            NodeTypeDescriptor {
                kind: "script.get_variable",
                category: "variable",
                description: "Get variable value.",
            },
            NodeTypeDescriptor {
                kind: "script.set_variable",
                category: "variable",
                description: "Set variable value.",
            },
            NodeTypeDescriptor {
                kind: "script.promote_to_variable",
                category: "variable",
                description: "Promote value to variable.",
            },
            NodeTypeDescriptor {
                kind: "script.equal",
                category: "logic",
                description: "A == B.",
            },
            NodeTypeDescriptor {
                kind: "script.not_equal",
                category: "logic",
                description: "A != B.",
            },
            NodeTypeDescriptor {
                kind: "script.greater",
                category: "logic",
                description: "A > B.",
            },
            NodeTypeDescriptor {
                kind: "script.less",
                category: "logic",
                description: "A < B.",
            },
            NodeTypeDescriptor {
                kind: "script.and",
                category: "logic",
                description: "Boolean AND.",
            },
            NodeTypeDescriptor {
                kind: "script.or",
                category: "logic",
                description: "Boolean OR.",
            },
            NodeTypeDescriptor {
                kind: "script.not",
                category: "logic",
                description: "Boolean NOT.",
            },
        ];
        assert(r@ =~= script_graph_catalog());
        r
    }
}

/// Behavior-tree and AI task nodes.
pub struct AiTaskGraphPlugin;

/// The node kinds of the `aitaskgraph` domain.
pub open spec fn ai_task_catalog() -> Seq<NodeTypeDescriptor> {
    seq![
        NodeTypeDescriptor {
            kind: "ai.selector",
            category: "composite",
            description: "Run children until one succeeds.",
        },
        NodeTypeDescriptor {
            kind: "ai.sequence",
            category: "composite",
            description: "Run children in order until one fails.",
        },
        NodeTypeDescriptor {
            kind: "ai.task_move_to",
            category: "task",
            description: "Move AI agent to target position.",
        },
        NodeTypeDescriptor {
            kind: "ai.task_wait",
            category: "task",
            description: "Wait for duration in seconds.",
        },
    ]
}

impl DomainPlugin for AiTaskGraphPlugin {
    open spec fn domain(&self) -> Seq<char> {
        "aitaskgraph"@
    }

    open spec fn catalog(&self) -> Seq<NodeTypeDescriptor> {
        ai_task_catalog()
    }

    fn domain_name(&self) -> (r: &'static str) {
        "aitaskgraph"
    }

    fn node_types(&self) -> (r: Vec<NodeTypeDescriptor>) {
        let r = vec![
            NodeTypeDescriptor {
                kind: "ai.selector",
                category: "composite",
                description: "Run children until one succeeds.",
            },
            NodeTypeDescriptor {
                kind: "ai.sequence",
                category: "composite",
                description: "Run children in order until one fails.",
            },
            NodeTypeDescriptor {
                kind: "ai.task_move_to",
                category: "task",
                description: "Move AI agent to target position.",
            },
            NodeTypeDescriptor {
                kind: "ai.task_wait",
                category: "task",
                description: "Wait for duration in seconds.",
            },
        ];
        assert(r@ =~= ai_task_catalog());
        r
    }
}

/// A registry of the four built-in domains, in this order: frame graph,
/// shader graph, script graph, AI task graph.
pub fn build_plugin_registry() -> (r: PluginRegistry)
    ensures
        r@.len() == 4,
        r@[0].domain() == FrameGraphPlugin.domain() && r@[0].catalog() == frame_graph_catalog(),
        r@[1].domain() == ShaderGraphPlugin.domain() && r@[1].catalog() == shader_graph_catalog(),
        r@[2].domain() == ScriptGraphPlugin.domain() && r@[2].catalog() == script_graph_catalog(),
        r@[3].domain() == AiTaskGraphPlugin.domain() && r@[3].catalog() == ai_task_catalog(),
{
    let mut plugins = PluginRegistry::new();
    plugins.register(FrameGraphPlugin);
    plugins.register(ShaderGraphPlugin);
    plugins.register(ScriptGraphPlugin);
    plugins.register(AiTaskGraphPlugin);
    plugins
}

} // verus!
