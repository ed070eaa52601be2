use te_graph::{
    build_plugin_registry, compile_for_tenengine, DomainPlugin, compile_graph, compile_to_pipeline_config,
    node_kind_to_pass_kind, validate_graph_doc, AdapterError, CompileError, Edge, Endpoint,
    GraphDoc, Node, NodeTypeDescriptor, Param, ParamValue, PassKind, Pin, PluginRegistry,
    RegisteredDomain, ResourceKind, SpecError,
};

fn node(id: &str, kind: &str) -> Node {
    Node {
        id: id.to_string(),
        kind: kind.to_string(),
        inputs: vec![],
        outputs: vec![],
        params: vec![],
    }
}

fn with_params(mut n: Node, params: Vec<(&str, ParamValue)>) -> Node {
    for (k, v) in params {
        n.params.push(Param { key: k.to_string(), value: v });
    }
    n
}

fn text(s: &str) -> ParamValue {
    ParamValue::Text(s.to_string())
}

fn edge(from: &str, from_pin: &str, to: &str, to_pin: &str) -> Edge {
    Edge {
        from: Endpoint { node: from.to_string(), pin: from_pin.to_string() },
        to: Endpoint { node: to.to_string(), pin: to_pin.to_string() },
    }
}

fn doc(name: &str, nodes: Vec<Node>, edges: Vec<Edge>) -> GraphDoc {
    GraphDoc { version: 1, name: name.to_string(), nodes, edges }
}

fn position(order: &[String], id: &str) -> usize {
    order.iter().position(|x| x == id).unwrap()
}

#[test]
fn parse_and_validate_ok() {
    let d = doc("sample", vec![node("a", "k")], vec![]);
    assert!(validate_graph_doc(&d).is_ok());
    assert_eq!(d.name, "sample");
    assert_eq!(d.nodes.len(), 1);
}

#[test]
fn detect_duplicate_node_id() {
    let d = doc("sample", vec![node("a", "k"), node("a", "k2")], vec![]);
    let err = validate_graph_doc(&d).expect_err("must fail");
    match err {
        SpecError::DuplicateNodeId(id) => assert_eq!(id, "a"),
        _ => panic!("unexpected error"),
    }
}

#[test]
fn first_duplicate_in_node_order_is_reported() {
    let d = doc(
        "g",
        vec![node("x", "k"), node("y", "k"), node("y", "k"), node("x", "k")],
        vec![],
    );
    assert_eq!(validate_graph_doc(&d), Err(SpecError::DuplicateNodeId("y".to_string())));
}

#[test]
fn blank_name_is_refused() {
    let d = doc(" \t\n ", vec![node("a", "k"), node("a", "k")], vec![]);
    assert_eq!(validate_graph_doc(&d), Err(SpecError::EmptyName));
    let e = doc("", vec![], vec![]);
    assert_eq!(validate_graph_doc(&e), Err(SpecError::EmptyName));
    let ok = doc("  x  ", vec![], vec![]);
    assert_eq!(validate_graph_doc(&ok), Ok(()));
}

#[test]
fn topological_sort_ok() {
    let d = doc(
        "ok",
        vec![node("a", "test.node"), node("b", "test.node"), node("c", "test.node")],
        vec![edge("a", "o", "b", "i"), edge("b", "o", "c", "i")],
    );
    let plan = compile_graph(&d).expect("must compile");
    assert_eq!(plan.order, vec!["a", "b", "c"]);
}

#[test]
fn detect_cycle() {
    let d = doc(
        "cycle",
        vec![node("a", "test.node"), node("b", "test.node")],
        vec![edge("a", "o", "b", "i"), edge("b", "o", "a", "i")],
    );
    let err = compile_graph(&d).expect_err("must fail");
    assert_eq!(err, CompileError::CycleDetected);
}

#[test]
fn dag_order_holds_every_node_once_and_respects_edges() {
    let d = doc(
        "dag",
        vec![node("d", "t.n"), node("c", "t.n"), node("b", "t.n"), node("a", "t.n"), node("e", "t.n")],
        vec![
            edge("a", "o", "b", "i"),
            edge("a", "o", "c", "i"),
            edge("b", "o", "d", "i"),
            edge("c", "o", "d", "i"),
            edge("e", "o", "a", "i"),
        ],
    );
    let plan = compile_graph(&d).unwrap();
    assert_eq!(plan.order.len(), 5);
    for e in &d.edges {
        assert!(position(&plan.order, &e.from.node) < position(&plan.order, &e.to.node));
    }
    assert_eq!(plan.order, vec!["e", "a", "b", "c", "d"]);
}

#[test]
fn ready_nodes_are_taken_in_document_order_then_fifo() {
    let d = doc(
        "fifo",
        vec![node("x", "t.n"), node("y", "t.n"), node("z", "t.n"), node("w", "t.n")],
        vec![edge("y", "o", "w", "i"), edge("x", "o", "z", "i")],
    );
    assert_eq!(compile_graph(&d).unwrap().order, vec!["x", "y", "z", "w"]);
}

#[test]
fn empty_document_compiles_to_empty_plan() {
    let d = doc("empty", vec![], vec![]);
    assert!(compile_graph(&d).unwrap().order.is_empty());
}

#[test]
fn cycle_behind_acyclic_part_is_detected() {
    let d = doc(
        "c3",
        vec![node("s", "t.n"), node("a", "t.n"), node("b", "t.n"), node("c", "t.n")],
        vec![edge("s", "o", "a", "i"), edge("a", "o", "b", "i"), edge("b", "o", "c", "i"), edge("c", "o", "a", "i")],
    );
    assert_eq!(compile_graph(&d), Err(CompileError::CycleDetected));
    let selfloop = doc("self", vec![node("a", "t.n")], vec![edge("a", "o", "a", "i")]);
    assert_eq!(compile_graph(&selfloop), Err(CompileError::CycleDetected));
}

#[test]
fn missing_node_names_first_bad_edge() {
    let d = doc(
        "m",
        vec![node("a", "t.n"), node("b", "t.n")],
        vec![edge("a", "o", "b", "i"), edge("a", "o", "ghost", "i"), edge("nope", "o", "b", "i")],
    );
    assert_eq!(
        compile_graph(&d),
        Err(CompileError::MissingNode { edge_index: 1, node_id: "ghost".to_string() })
    );
    let both = doc("m2", vec![node("a", "t.n")], vec![edge("p", "o", "q", "i")]);
    assert_eq!(
        compile_graph(&both),
        Err(CompileError::MissingNode { edge_index: 0, node_id: "p".to_string() })
    );
}

#[test]
fn missing_node_comes_before_cycle() {
    let d = doc(
        "mc",
        vec![node("a", "t.n"), node("b", "t.n")],
        vec![edge("a", "o", "b", "i"), edge("b", "o", "a", "i"), edge("b", "o", "zz", "i")],
    );
    assert_eq!(
        compile_graph(&d),
        Err(CompileError::MissingNode { edge_index: 2, node_id: "zz".to_string() })
    );
}

#[test]
fn error_messages() {
    let e = CompileError::MissingNode { edge_index: 12, node_id: "q".to_string() };
    assert_eq!(e.to_string(), "edge #12 references unknown node 'q'");
    assert_eq!(CompileError::CycleDetected.to_string(), "cycle detected in graph");
    assert_eq!(SpecError::EmptyName.to_string(), "graph name is empty");
    assert_eq!(SpecError::DuplicateNodeId("n".to_string()).to_string(), "duplicate node id: n");
    assert_eq!(SpecError::Parse("bad".to_string()).to_string(), "parse error: bad");
    assert_eq!(AdapterError::InvalidNodeKind("x.y".to_string()).to_string(), "Invalid node kind: x.y");
    assert_eq!(
        AdapterError::Compile(CompileError::CycleDetected).to_string(),
        "cycle detected in graph"
    );
    assert_eq!(PassKind::PostProcess.to_string(), "PostProcess");
}

#[test]
fn registry_accepts_known_kinds_only() {
    let reg = build_plugin_registry();
    assert_eq!(reg.plugins().len(), 4);
    assert!(reg.validate_node_with_any_plugin(&node("n", "frame.begin_pass")).is_ok());
    assert!(reg.validate_node_with_any_plugin(&node("n", "shader.multiply")).is_ok());
    assert!(reg.validate_node_with_any_plugin(&node("n", "script.branch")).is_ok());
    assert!(reg.validate_node_with_any_plugin(&node("n", "ai.selector")).is_ok());
    assert_eq!(
        reg.validate_node_with_any_plugin(&node("n", "frame.unknown")),
        Err("node kind 'frame.unknown' is not handled by any plugin".to_string())
    );
    assert!(reg.validate_node_with_any_plugin(&node("n", "Frame.begin_pass")).is_err());
}

#[test]
fn first_registered_domain_governs() {
    let shared = NodeTypeDescriptor { kind: "x.shared", category: "c", description: "d" };
    let mut reg = PluginRegistry::new();
    reg.register(RegisteredDomain { name: "alpha", node_types: vec![shared] });
    reg.register(RegisteredDomain {
        name: "beta",
        node_types: vec![shared, NodeTypeDescriptor { kind: "x.only_beta", category: "c", description: "d" }],
    });
    assert_eq!(reg.plugins()[0].name, "alpha");
    assert!(reg.validate_node_with_any_plugin(&node("n", "x.shared")).is_ok());
    assert!(reg.validate_node_with_any_plugin(&node("n", "x.only_beta")).is_ok());
    assert!(reg.validate_node_with_any_plugin(&node("n", "x.none")).is_err());
}

#[test]
fn domain_validation_names_kind_and_domain() {
    let frame = te_graph::FrameGraphPlugin;
    assert_eq!(frame.domain_name(), "framegraph");
    assert_eq!(frame.node_types().len(), 11);
    assert!(frame.supports_kind("frame.blit"));
    assert!(!frame.supports_kind("shader.add"));
    assert_eq!(
        frame.validate_node(&node("n", "shader.add")),
        Err("node kind 'shader.add' is not supported in domain 'framegraph'".to_string())
    );
    assert_eq!(te_graph::ShaderGraphPlugin.node_types().len(), 32);
    assert_eq!(te_graph::ScriptGraphPlugin.node_types().len(), 26);
    assert_eq!(te_graph::AiTaskGraphPlugin.domain_name(), "aitaskgraph");
}

#[test]
fn compile_to_pass_descs() {
    let d = doc(
        "sample",
        vec![
            with_params(node("n1", "frame.begin_pass"), vec![("pass_name", text("Main"))]),
            node("n2", "frame.end_pass"),
        ],
        vec![edge("n1", "o", "n2", "i")],
    );
    let result = compile_for_tenengine(&d).expect("compile");
    assert_eq!(result.len(), 2);
    assert_eq!(result[0].pass_name.as_deref(), Some("Main"));
}

#[test]
fn pass_descs_in_order_with_names() {
    let d = doc(
        "sample",
        vec![
            node("n2", "frame.end_pass"),
            with_params(node("n1", "frame.begin_pass"), vec![("pass_name", text("Main"))]),
        ],
        vec![edge("n1", "o", "n2", "i")],
    );
    let r = compile_for_tenengine(&d).unwrap();
    assert_eq!(r.len(), 2);
    assert_eq!(r[0].node_id, "n1");
    assert_eq!(r[0].node_kind, "frame.begin_pass");
    assert_eq!(r[0].pass_name, Some("Main".to_string()));
    assert_eq!(r[1].node_id, "n2");
    assert_eq!(r[1].node_kind, "frame.end_pass");
    assert_eq!(r[1].pass_name, None);
}

#[test]
fn pass_descs_skip_other_domains_and_non_string_names() {
    let d = doc(
        "mixed",
        vec![
            with_params(node("a", "frame.clear"), vec![("pass_name", ParamValue::Unsigned(3))]),
            node("b", "shader.add"),
            node("c", "weird.kind"),
        ],
        vec![],
    );
    let r = compile_for_tenengine(&d).unwrap();
    assert_eq!(r.len(), 1);
    assert_eq!(r[0].node_id, "a");
    assert_eq!(r[0].pass_name, None);
    let cyc = doc("c", vec![node("a", "frame.clear")], vec![edge("a", "o", "a", "i")]);
    assert_eq!(compile_for_tenengine(&cyc), Err(AdapterError::Compile(CompileError::CycleDetected)));
}

#[test]
fn compile_to_pipeline_config_test() {
    let mut n1 = with_params(
        node("n1", "frame.begin_pass"),
        vec![
            ("pass_name", text("GBuffer")),
            ("width", ParamValue::Unsigned(1920)),
            ("height", ParamValue::Unsigned(1080)),
        ],
    );
    n1.outputs.push(Pin { id: "out".to_string(), ty: "color".to_string() });
    let mut n2 = with_params(node("n2", "frame.end_pass"), vec![("pass_name", text("Final"))]);
    n2.inputs.push(Pin { id: "in".to_string(), ty: "color".to_string() });
    let d = doc("test_pipeline", vec![n1, n2], vec![edge("n1", "out", "n2", "in")]);
    let config = compile_to_pipeline_config(&d).expect("compile");
    assert_eq!(config.name, "test_pipeline");
    assert_eq!(config.passes.len(), 2);
    assert_eq!(config.passes[0].name, "GBuffer");
    assert_eq!(config.passes[0].width, 1920);
    assert_eq!(config.passes[0].height, 1080);
}

#[test]
fn pipeline_passes_resources_and_defaults() {
    let d = doc(
        "p",
        vec![
            with_params(
                node("n1", "frame.begin_pass"),
                vec![("width", ParamValue::Unsigned(1920)), ("height", ParamValue::Unsigned(1080))],
            ),
            node("n2", "frame.end_pass"),
        ],
        vec![edge("n1", "out", "n2", "in")],
    );
    let c = compile_to_pipeline_config(&d).unwrap();
    assert_eq!(c.passes[0].id, "n1");
    assert_eq!(c.passes[0].kind, PassKind::Scene);
    assert_eq!(c.passes[0].name, "Pass_0");
    assert_eq!(c.passes[0].inputs, Vec::<String>::new());
    assert_eq!(c.passes[0].outputs, vec!["in"]);
    assert_eq!(c.passes[1].name, "Pass_1");
    assert_eq!(c.passes[1].inputs, vec!["out"]);
    assert_eq!(c.passes[1].width, 1280);
    assert_eq!(c.passes[1].height, 720);
    assert_eq!(c.passes[1].material, None);
    assert_eq!(c.resources.len(), 1);
    assert_eq!(c.resources[0].id, "res_in");
    assert_eq!(c.resources[0].kind, ResourceKind::Texture2D);
    assert_eq!(c.resources[0].format, Some("RGBA8".to_string()));
    assert_eq!(c.resources[0].width, 1920);
    assert_eq!(c.resources[0].height, 1080);
}

#[test]
fn pipeline_resources_deduplicate_by_pin_name() {
    let d = doc(
        "p",
        vec![
            node("a", "shader.input"),
            with_params(node("b", "script.branch"), vec![("width", ParamValue::Unsigned(64))]),
            with_params(
                node("c", "ai.selector"),
                vec![("material", text("m")), ("mesh", text("q")), ("height", text("big"))],
            ),
            node("d", "frame.blit"),
        ],
        vec![
            edge("a", "o", "c", "tex"),
            edge("b", "o", "c", "tex"),
            edge("b", "o2", "d", "other"),
            edge("c", "o", "d", "tex"),
        ],
    );
    let c = compile_to_pipeline_config(&d).unwrap();
    let ids: Vec<&str> = c.passes.iter().map(|p| p.id.as_str()).collect();
    assert_eq!(ids, vec!["a", "b", "c", "d"]);
    assert_eq!(c.passes[0].kind, PassKind::Effect);
    assert_eq!(c.passes[1].kind, PassKind::Custom);
    assert_eq!(c.passes[2].kind, PassKind::Custom);
    assert_eq!(c.passes[3].kind, PassKind::Custom);
    assert_eq!(c.passes[2].material, Some("m".to_string()));
    assert_eq!(c.passes[2].mesh, Some("q".to_string()));
    assert_eq!(c.passes[2].height, 720);
    assert_eq!(c.passes[2].inputs, vec!["o", "o"]);
    assert_eq!(c.passes[1].outputs, vec!["tex", "other"]);
    let res: Vec<(&str, u32, u32)> = c.resources.iter().map(|r| (r.id.as_str(), r.width, r.height)).collect();
    assert_eq!(res, vec![("res_tex", 1280, 720), ("res_other", 64, 720)]);
}

#[test]
fn pipeline_width_keeps_low_32_bits() {
    let d = doc(
        "p",
        vec![with_params(node("a", "frame.clear"), vec![("width", ParamValue::Unsigned((1u64 << 32) + 5))])],
        vec![],
    );
    let c = compile_to_pipeline_config(&d).unwrap();
    assert_eq!(c.passes[0].width, 5);
    assert!(c.resources.is_empty());
}

#[test]
fn pipeline_refuses_unknown_domain() {
    let d = doc(
        "p",
        vec![node("a", "frame.clear"), node("b", "mystery.node"), node("c", "other.node")],
        vec![edge("a", "o", "b", "i")],
    );
    assert_eq!(
        compile_to_pipeline_config(&d),
        Err(AdapterError::InvalidNodeKind("other.node".to_string()))
    );
    let bad = doc("p", vec![node("a", "frame.clear")], vec![edge("a", "o", "zz", "i")]);
    assert_eq!(
        compile_to_pipeline_config(&bad),
        Err(AdapterError::Compile(CompileError::MissingNode { edge_index: 0, node_id: "zz".to_string() }))
    );
}

#[test]
fn pass_kind_by_prefix() {
    assert_eq!(node_kind_to_pass_kind("frame.begin_pass"), Ok(PassKind::Scene));
    assert_eq!(node_kind_to_pass_kind("frame.write_resource"), Ok(PassKind::Scene));
    assert_eq!(node_kind_to_pass_kind("frame.blit"), Ok(PassKind::Custom));
    assert_eq!(node_kind_to_pass_kind("frame."), Ok(PassKind::Custom));
    assert_eq!(node_kind_to_pass_kind("shader.add"), Ok(PassKind::Effect));
    assert_eq!(node_kind_to_pass_kind("script.x"), Ok(PassKind::Custom));
    assert_eq!(node_kind_to_pass_kind("ai.x"), Ok(PassKind::Custom));
    assert_eq!(node_kind_to_pass_kind("frame"), Err(AdapterError::InvalidNodeKind("frame".to_string())));
    assert_eq!(node_kind_to_pass_kind(""), Err(AdapterError::InvalidNodeKind(String::new())));
}

#[test]
fn supported_kinds_are_sorted_and_unique() {
    let kinds = te_graph::list_supported_node_kinds(&build_plugin_registry());
    assert_eq!(kinds.len(), 11 + 32 + 26 + 4);
    for w in kinds.windows(2) {
        assert!(w[0] < w[1]);
    }
    assert_eq!(kinds[0], "ai.selector");
    assert!(kinds.contains(&"shader.if".to_string()));

    let shared = NodeTypeDescriptor { kind: "b.x", category: "c", description: "d" };
    let mut reg = PluginRegistry::new();
    reg.register(RegisteredDomain { name: "one", node_types: vec![shared, NodeTypeDescriptor { kind: "a.y", category: "c", description: "d" }] });
    reg.register(RegisteredDomain { name: "two", node_types: vec![shared, NodeTypeDescriptor { kind: "b", category: "c", description: "d" }] });
    assert_eq!(te_graph::list_supported_node_kinds(&reg), vec!["a.y", "b", "b.x"]);
    assert!(te_graph::list_supported_node_kinds(&PluginRegistry::new()).is_empty());
}

#[test]
fn nodes_grouped_by_domain_and_category() {
    let groups = te_graph::list_nodes_by_domain_and_category(&build_plugin_registry());
    let frame_pass = groups
        .iter()
        .find(|g| g.domain == "framegraph" && g.category == "pass")
        .unwrap();
    let kinds: Vec<&str> = frame_pass.nodes.iter().map(|n| n.kind).collect();
    assert_eq!(
        kinds,
        vec!["frame.begin_pass", "frame.end_pass", "frame.clear", "frame.resolve", "frame.copy_texture", "frame.blit"]
    );
    let total: usize = groups.iter().map(|g| g.nodes.len()).sum();
    assert_eq!(total, 73);
    for (i, a) in groups.iter().enumerate() {
        for b in &groups[i + 1..] {
            assert!(!(a.domain == b.domain && a.category == b.category));
        }
    }
    let ai_task = groups.iter().find(|g| g.domain == "aitaskgraph" && g.category == "task").unwrap();
    assert_eq!(ai_task.nodes.len(), 2);
}

#[test]
fn parameter_lookup_takes_first_entry() {
    let n = with_params(
        node("a", "frame.clear"),
        vec![("pass_name", text("First")), ("pass_name", text("Second")), ("x", ParamValue::Other("[1,2]".to_string()))],
    );
    assert_eq!(n.param("pass_name"), Some(&text("First")));
    assert_eq!(n.param("missing"), None);
    let d = doc("p", vec![n], vec![]);
    assert_eq!(compile_for_tenengine(&d).unwrap()[0].pass_name, Some("First".to_string()));
    assert!(PluginRegistry::default().plugins().is_empty());
}

#[test]
fn compile_request_runs_all_stages() {
    let reg = build_plugin_registry();
    let d = doc(
        "req",
        vec![
            node("n2", "frame.end_pass"),
            with_params(node("n1", "frame.begin_pass"), vec![("pass_name", text("Main"))]),
            node("s", "shader.add"),
        ],
        vec![edge("n1", "o", "n2", "i")],
    );
    let r = te_graph::compile_document(&reg, &d).unwrap();
    assert_eq!(r.graph_name, "req");
    assert_eq!(r.execution_order, vec!["n1", "s", "n2"]);
    assert_eq!(r.tenengine_passes.len(), 2);
    assert_eq!(r.tenengine_passes[0].node_id, "n1");

    let rejected = doc("req", vec![node("a", "frame.clear"), node("b", "nope.x"), node("c", "nope.y")], vec![]);
    assert_eq!(
        te_graph::compile_document(&reg, &rejected),
        Err("node kind 'nope.x' is not handled by any plugin".to_string())
    );
    let cyclic = doc("req", vec![node("a", "frame.clear")], vec![edge("a", "o", "a", "i")]);
    assert_eq!(te_graph::compile_document(&reg, &cyclic), Err("cycle detected in graph".to_string()));
    let missing = doc("req", vec![node("a", "frame.clear")], vec![edge("a", "o", "b", "i")]);
    assert_eq!(
        te_graph::compile_document(&reg, &missing),
        Err("edge #0 references unknown node 'b'".to_string())
    );
}
