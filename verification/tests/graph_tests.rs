use std::collections::HashMap;

use dm_core::graph::{detect_cycles, validate_graph, DataflowGraph, Edge, NodeInstance};
use dm_core::registry::NodeMeta;

fn node_meta(id: &str, inputs: &[&str], outputs: &[&str]) -> NodeMeta {
    NodeMeta {
        id: id.to_string(),
        name: id.to_string(),
        description: "test".to_string(),
        build: "noop".to_string(),
        system_deps: None,
        inputs: inputs.iter().map(|s| s.to_string()).collect(),
        outputs: outputs.iter().map(|s| s.to_string()).collect(),
        tags: vec!["test".to_string()],
        category: "Test".to_string(),
        github: None,
        source: None,
    }
}

fn node(id: &str, node_type: &str) -> NodeInstance {
    NodeInstance { id: id.to_string(), node_type: node_type.to_string(), config: HashMap::new() }
}

fn edge(from_node: &str, from_output: &str, to_node: &str, to_input: &str) -> Edge {
    Edge {
        from_node: from_node.to_string(),
        from_output: from_output.to_string(),
        to_node: to_node.to_string(),
        to_input: to_input.to_string(),
    }
}

#[test]
fn validate_valid_graph() {
    let registry = vec![
        node_meta("source", &[], &["out"]),
        node_meta("sink", &["in"], &[]),
    ];

    let graph = DataflowGraph {
        nodes: vec![
            NodeInstance {
                id: "n1".to_string(),
                node_type: "source".to_string(),
                config: HashMap::from([("rate".to_string(), serde_json::Value::from(30))]),
            },
            NodeInstance {
                id: "n2".to_string(),
                node_type: "sink".to_string(),
                config: HashMap::new(),
            },
        ],
        edges: vec![Edge {
            from_node: "n1".to_string(),
            from_output: "out".to_string(),
            to_node: "n2".to_string(),
            to_input: "in".to_string(),
        }],
    };

    let result = validate_graph(&graph, &registry);
    assert!(result.valid, "errors: {:?}", result.errors);
    assert!(result.errors.is_empty());
}

#[test]
fn detect_cycle_in_graph() {
    let graph = DataflowGraph {
        nodes: vec![
            NodeInstance {
                id: "a".to_string(),
                node_type: "t".to_string(),
                config: HashMap::new(),
            },
            NodeInstance {
                id: "b".to_string(),
                node_type: "t".to_string(),
                config: HashMap::new(),
            },
        ],
        edges: vec![
            Edge {
                from_node: "a".to_string(),
                from_output: "o".to_string(),
                to_node: "b".to_string(),
                to_input: "i".to_string(),
            },
            Edge {
                from_node: "b".to_string(),
                from_output: "o".to_string(),
                to_node: "a".to_string(),
                to_input: "i".to_string(),
            },
        ],
    };

    let cycles = detect_cycles(&graph);
    assert!(!cycles.is_empty());
    assert!(cycles.iter().any(|c| c.first() == Some(&"a".to_string()) || c.first() == Some(&"b".to_string())));
}

#[test]
fn validate_invalid_port_reports_error() {
    let registry = vec![
        node_meta("producer", &[], &["out"]),
        node_meta("consumer", &["in"], &[]),
    ];

    let graph = DataflowGraph {
        nodes: vec![
            NodeInstance {
                id: "p".to_string(),
                node_type: "producer".to_string(),
                config: HashMap::new(),
            },
            NodeInstance {
                id: "c".to_string(),
                node_type: "consumer".to_string(),
                config: HashMap::new(),
            },
        ],
        edges: vec![Edge {
            from_node: "p".to_string(),
            from_output: "wrong_out".to_string(),
            to_node: "c".to_string(),
            to_input: "in".to_string(),
        }],
    };

    let result = validate_graph(&graph, &registry);
    assert!(!result.valid);
    assert!(result.errors.iter().any(|e| e.contains("invalid output port")));
}

#[test]
fn camera_feeding_detector_is_valid() {
    let registry = vec![node_meta("cam", &[], &["frame"]), node_meta("det", &["frame"], &[])];
    let graph = DataflowGraph {
        nodes: vec![node("n1", "cam"), node("n2", "det")],
        edges: vec![edge("n1", "frame", "n2", "frame")],
    };
    let result = validate_graph(&graph, &registry);
    assert!(result.valid);
    assert_eq!(result.errors, Vec::<String>::new());
    assert!(result.warnings.is_empty());
}

#[test]
fn wrong_output_port_is_named_in_the_error() {
    let registry = vec![node_meta("cam", &[], &["frame"]), node_meta("det", &["frame"], &[])];
    let graph = DataflowGraph {
        nodes: vec![node("n1", "cam"), node("n2", "det")],
        edges: vec![edge("n1", "wrong", "n2", "frame")],
    };
    let result = validate_graph(&graph, &registry);
    assert!(!result.valid);
    assert_eq!(
        result.errors,
        vec!["invalid output port 'wrong' on node 'n1' (type 'cam')".to_string()]
    );
}

#[test]
fn three_node_cycle_is_detected() {
    let registry = vec![node_meta("t", &["i"], &["o"])];
    let graph = DataflowGraph {
        nodes: vec![node("a", "t"), node("b", "t"), node("c", "t")],
        edges: vec![edge("a", "o", "b", "i"), edge("b", "o", "c", "i"), edge("c", "o", "a", "i")],
    };
    let cycles = detect_cycles(&graph);
    assert_eq!(cycles, vec![vec!["a".to_string(), "b".to_string(), "c".to_string(), "a".to_string()]]);
    let result = validate_graph(&graph, &registry);
    assert!(!result.valid);
    assert_eq!(result.errors, vec!["cycle detected: a -> b -> c -> a".to_string()]);
}

#[test]
fn distinct_unconnected_nodes_are_valid() {
    let registry = vec![node_meta("t", &[], &[])];
    for n in 0..6 {
        let graph = DataflowGraph {
            nodes: (0..n).map(|i| node(&format!("n{i}"), "t")).collect(),
            edges: vec![],
        };
        let result = validate_graph(&graph, &registry);
        assert!(result.valid);
        assert_eq!(result.errors, Vec::<String>::new());
        assert!(detect_cycles(&graph).is_empty());
    }
}

#[test]
fn unknown_type_is_reported_for_each_node() {
    let graph = DataflowGraph { nodes: vec![node("a", "ghost"), node("b", "t")], edges: vec![] };
    let result = validate_graph(&graph, &[node_meta("t", &[], &[])]);
    assert!(!result.valid);
    assert_eq!(result.errors, vec!["unknown node type 'ghost' for node 'a'".to_string()]);
}

#[test]
fn repeated_id_yields_one_error_less_than_its_count() {
    let registry = vec![node_meta("t", &[], &[])];
    for k in 2..6 {
        let mut nodes = vec![node("other", "t")];
        for _ in 0..k {
            nodes.push(node("twin", "t"));
        }
        let result = validate_graph(&DataflowGraph { nodes, edges: vec![] }, &registry);
        let count = result.errors.iter().filter(|e| e.as_str() == "duplicate node id: twin").count();
        assert_eq!(count, k - 1);
        assert_eq!(result.errors.len(), k - 1);
        assert!(!result.valid);
    }
}

#[test]
fn self_loop_is_a_cycle() {
    let registry = vec![node_meta("t", &["i"], &["o"])];
    let graph = DataflowGraph {
        nodes: vec![node("a", "t"), node("b", "t")],
        edges: vec![edge("a", "o", "b", "i"), edge("b", "o", "b", "i")],
    };
    assert_eq!(detect_cycles(&graph), vec![vec!["b".to_string(), "b".to_string()]]);
    let result = validate_graph(&graph, &registry);
    assert_eq!(result.errors, vec!["cycle detected: b -> b".to_string()]);
}

#[test]
fn self_loop_on_a_missing_node_is_a_missing_endpoint() {
    let graph = DataflowGraph { nodes: vec![node("a", "t")], edges: vec![edge("x", "o", "x", "i")] };
    let result = validate_graph(&graph, &[node_meta("t", &["i"], &["o"])]);
    assert_eq!(result.errors, vec!["edge references missing from_node 'x'".to_string()]);
    assert!(detect_cycles(&graph).is_empty());
}

#[test]
fn missing_endpoints_skip_port_checks() {
    let registry = vec![node_meta("t", &["i"], &["o"])];
    let graph = DataflowGraph {
        nodes: vec![node("a", "t")],
        edges: vec![edge("a", "bad", "nowhere", "bad"), edge("nowhere", "bad", "a", "bad")],
    };
    let result = validate_graph(&graph, &registry);
    assert_eq!(
        result.errors,
        vec![
            "edge references missing to_node 'nowhere'".to_string(),
            "edge references missing from_node 'nowhere'".to_string(),
        ]
    );
}

#[test]
fn ports_are_checked_only_for_known_types() {
    let registry = vec![node_meta("t", &["i"], &["o"])];
    let graph = DataflowGraph {
        nodes: vec![node("a", "t"), node("b", "mystery")],
        edges: vec![edge("a", "nope", "b", "anything"), edge("b", "anything", "a", "nope")],
    };
    let result = validate_graph(&graph, &registry);
    assert_eq!(
        result.errors,
        vec![
            "unknown node type 'mystery' for node 'b'".to_string(),
            "invalid output port 'nope' on node 'a' (type 't')".to_string(),
            "invalid input port 'nope' on node 'a' (type 't')".to_string(),
            "cycle detected: a -> b -> a".to_string(),
        ]
    );
}

#[test]
fn findings_come_in_order_nodes_edges_cycles() {
    let registry = vec![node_meta("t", &["i"], &["o"]), node_meta("t", &["in"], &["out"])];
    let graph = DataflowGraph {
        nodes: vec![node("a", "t"), node("a", "u"), node("c", "t")],
        edges: vec![edge("c", "o", "a", "in"), edge("a", "out", "c", "in")],
    };
    let result = validate_graph(&graph, &registry);
    assert_eq!(
        result.errors,
        vec![
            "duplicate node id: a".to_string(),
            "unknown node type 'u' for node 'a'".to_string(),
            "invalid output port 'o' on node 'c' (type 't')".to_string(),
            "cycle detected: a -> c -> a".to_string(),
        ]
    );
}

#[test]
fn every_back_edge_is_reported() {
    let graph = DataflowGraph {
        nodes: vec![node("a", "t"), node("b", "t"), node("c", "t"), node("d", "t")],
        edges: vec![
            edge("a", "o", "b", "i"),
            edge("b", "o", "a", "i"),
            edge("b", "o", "c", "i"),
            edge("c", "o", "a", "i"),
            edge("c", "o", "c", "i"),
            edge("d", "o", "a", "i"),
            edge("a", "o", "c", "i"),
        ],
    };
    let ids = |c: &[&str]| c.iter().map(|s| s.to_string()).collect::<Vec<_>>();
    assert_eq!(
        detect_cycles(&graph),
        vec![ids(&["a", "b", "a"]), ids(&["a", "b", "c", "a"]), ids(&["c", "c"])]
    );
}

#[test]
fn acyclic_graphs_report_no_cycle() {
    let graph = DataflowGraph {
        nodes: vec![node("a", "t"), node("b", "t"), node("c", "t"), node("d", "t")],
        edges: vec![
            edge("a", "o", "b", "i"),
            edge("a", "o", "c", "i"),
            edge("b", "o", "d", "i"),
            edge("c", "o", "d", "i"),
            edge("a", "o", "d", "i"),
            edge("a", "o", "b", "i"),
        ],
    };
    assert!(detect_cycles(&graph).is_empty());
    let empty = DataflowGraph::default();
    assert!(detect_cycles(&empty).is_empty());
    assert!(validate_graph(&empty, &[]).valid);
}

#[test]
fn long_chain_does_not_exhaust_the_stack() {
    let n = 200_0;
    let nodes: Vec<NodeInstance> = (0..n).map(|i| node(&format!("n{i}"), "t")).collect();
    let mut edges: Vec<Edge> = (0..n - 1).map(|i| edge(&format!("n{i}"), "o", &format!("n{}", i + 1), "i")).collect();
    let graph = DataflowGraph { nodes: nodes.clone(), edges: edges.clone() };
    assert!(detect_cycles(&graph).is_empty());
    edges.push(edge(&format!("n{}", n - 1), "o", "n0", "i"));
    let cycles = detect_cycles(&DataflowGraph { nodes, edges });
    assert_eq!(cycles.len(), 1);
    assert_eq!(cycles[0].len(), n + 1);
    assert_eq!(cycles[0].first(), cycles[0].last());
}

#[test]
fn an_edge_given_twice_closes_its_cycle_twice() {
    let graph = DataflowGraph {
        nodes: vec![node("a", "t"), node("b", "t")],
        edges: vec![edge("a", "o", "b", "i"), edge("b", "o", "a", "i"), edge("b", "x", "a", "y")],
    };
    let cycle = vec!["a".to_string(), "b".to_string(), "a".to_string()];
    assert_eq!(detect_cycles(&graph), vec![cycle.clone(), cycle]);
}

#[test]
fn a_cycle_reached_from_several_nodes_is_reported_once() {
    let graph = DataflowGraph {
        nodes: vec![node("in1", "t"), node("a", "t"), node("b", "t"), node("in2", "t")],
        edges: vec![
            edge("in1", "o", "a", "i"),
            edge("in2", "o", "b", "i"),
            edge("a", "o", "b", "i"),
            edge("b", "o", "a", "i"),
        ],
    };
    assert_eq!(detect_cycles(&graph), vec![vec!["a".to_string(), "b".to_string(), "a".to_string()]]);
}
