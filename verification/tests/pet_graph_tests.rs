use codegraph::types::ParameterInfo;
use codegraph::CallRelation;
use codegraph::FunctionInfo;
use codegraph::PetCodeGraph;
use codegraph::PetGraphCodeGraph;
use codegraph::PetGraphStorage;
use codegraph::PetGraphStorageManager;
use uuid::Uuid;

fn plain_function(id: u128, name: &str, file: &str, line_start: usize, line_end: usize) -> FunctionInfo {
    FunctionInfo {
        id,
        name: name.to_string(),
        file_path: file.to_string(),
        line_start,
        line_end,
        namespace: "".to_string(),
        language: "rust".to_string(),
        signature: None,
        return_type: None,
        parameters: vec![],
    }
}

fn edge(caller: &FunctionInfo, callee: &FunctionInfo, line: usize, resolved: bool) -> CallRelation {
    CallRelation {
        caller_id: caller.id,
        callee_id: callee.id,
        caller_name: caller.name.clone(),
        callee_name: callee.name.clone(),
        caller_file: caller.file_path.clone(),
        callee_file: callee.file_path.clone(),
        line_number: line,
        is_resolved: resolved,
    }
}

fn create_test_petgraph() -> PetCodeGraph {
    let mut code_graph = PetCodeGraph::new();

    let function1 = FunctionInfo {
        id: Uuid::new_v4().as_u128(),
        name: "test_function1".to_string(),
        file_path: "test.rs".to_string(),
        line_start: 1,
        line_end: 10,
        namespace: "test".to_string(),
        language: "rust".to_string(),
        signature: Some("fn test_function1()".to_string()),
        return_type: Some("()".to_string()),
        parameters: vec![],
    };

    let function2 = FunctionInfo {
        id: Uuid::new_v4().as_u128(),
        name: "test_function2".to_string(),
        file_path: "test.rs".to_string(),
        line_start: 12,
        line_end: 20,
        namespace: "test".to_string(),
        language: "rust".to_string(),
        signature: Some("fn test_function2()".to_string()),
        return_type: Some("()".to_string()),
        parameters: vec![],
    };

    let function3 = FunctionInfo {
        id: Uuid::new_v4().as_u128(),
        name: "test_function3".to_string(),
        file_path: "lib.rs".to_string(),
        line_start: 1,
        line_end: 15,
        namespace: "lib".to_string(),
        language: "rust".to_string(),
        signature: Some("fn test_function3()".to_string()),
        return_type: Some("i32".to_string()),
        parameters: vec![],
    };

    let _node1 = code_graph.add_function(function1.clone());
    let _node2 = code_graph.add_function(function2.clone());
    let _node3 = code_graph.add_function(function3.clone());

    let relation1 = CallRelation {
        caller_id: function1.id,
        callee_id: function2.id,
        caller_name: function1.name.clone(),
        callee_name: function2.name.clone(),
        caller_file: function1.file_path.clone(),
        callee_file: function2.file_path.clone(),
        line_number: 5,
        is_resolved: true,
    };

    let relation2 = CallRelation {
        caller_id: function2.id,
        callee_id: function3.id,
        caller_name: function2.name.clone(),
        callee_name: function3.name.clone(),
        caller_file: function2.file_path.clone(),
        callee_file: function3.file_path.clone(),
        line_number: 15,
        is_resolved: false,
    };

    code_graph.add_call_relation(relation1).unwrap();
    code_graph.add_call_relation(relation2).unwrap();

    code_graph
}

#[test]
fn test_storage_roundtrip() {
    let code_graph = create_test_petgraph();

    let storage = PetGraphStorage::from_petgraph(&code_graph);
    let loaded_graph = storage.to_petgraph();

    assert_eq!(loaded_graph.get_all_functions().len(), 3);
    assert_eq!(loaded_graph.get_all_call_relations().len(), 2);

    assert_eq!(loaded_graph.function_names.len(), 3);
    assert!(loaded_graph.function_names.contains_key("test_function1"));
    assert!(loaded_graph.function_names.contains_key("test_function2"));
    assert!(loaded_graph.function_names.contains_key("test_function3"));

    assert_eq!(loaded_graph.file_functions.len(), 2);
    assert!(loaded_graph.file_functions.contains_key("test.rs"));
    assert!(loaded_graph.file_functions.contains_key("lib.rs"));

    assert_eq!(loaded_graph.stats.total_functions, 3);
    assert_eq!(loaded_graph.stats.resolved_calls, 1);
    assert_eq!(loaded_graph.stats.unresolved_calls, 1);
}

#[test]
fn test_graphml_export() {
    let code_graph = create_test_petgraph();

    let content = PetGraphStorageManager::export_to_graphml(&code_graph);

    assert!(content.len() > 0);
    assert!(content.contains("<?xml version=\"1.0\" encoding=\"UTF-8\"?>"));
    assert!(content.contains("<graphml xmlns=\"http://graphml.graphdrawing.org/xmlns\">"));
    assert!(content.contains("test_function1"));
    assert!(content.contains("test_function2"));
    assert!(content.contains("test_function3"));
}

#[test]
fn test_gexf_export() {
    let code_graph = create_test_petgraph();

    let content = PetGraphStorageManager::export_to_gexf(&code_graph);

    assert!(content.len() > 0);
    assert!(content.contains("<?xml version=\"1.0\" encoding=\"UTF-8\"?>"));
    assert!(content.contains("<gexf xmlns=\"http://www.gexf.net/1.3\" version=\"1.3\">"));
    assert!(content.contains("test_function1"));
    assert!(content.contains("test_function2"));
    assert!(content.contains("test_function3"));
}

#[test]
fn test_empty_graph_storage() {
    let empty_graph = PetCodeGraph::new();

    let storage = PetGraphStorage::from_petgraph(&empty_graph);
    let loaded_graph = storage.to_petgraph();

    assert_eq!(loaded_graph.get_all_functions().len(), 0);
    assert_eq!(loaded_graph.get_all_call_relations().len(), 0);
    assert_eq!(loaded_graph.function_names.len(), 0);
    assert_eq!(loaded_graph.file_functions.len(), 0);
    assert_eq!(loaded_graph.stats.total_functions, 0);
}

#[test]
fn test_complex_graph_storage() {
    let mut code_graph = PetCodeGraph::new();

    let mut functions = Vec::new();
    for i in 0..10 {
        let function = FunctionInfo {
            id: Uuid::new_v4().as_u128(),
            name: format!("function_{}", i),
            file_path: format!("file_{}.rs", i % 3),
            line_start: i * 10 + 1,
            line_end: i * 10 + 10,
            namespace: format!("namespace_{}", i % 2),
            language: "rust".to_string(),
            signature: Some(format!("fn function_{}()", i)),
            return_type: Some("()".to_string()),
            parameters: vec![],
        };
        functions.push(function);
    }

    for function in &functions {
        code_graph.add_function(function.clone());
    }

    for i in 0..9 {
        let relation = CallRelation {
            caller_id: functions[i].id,
            callee_id: functions[i + 1].id,
            caller_name: functions[i].name.clone(),
            callee_name: functions[i + 1].name.clone(),
            caller_file: functions[i].file_path.clone(),
            callee_file: functions[i + 1].file_path.clone(),
            line_number: i * 10 + 5,
            is_resolved: i % 2 == 0,
        };
        code_graph.add_call_relation(relation).unwrap();
    }

    let storage = PetGraphStorage::from_petgraph(&code_graph);
    let loaded_graph = storage.to_petgraph();

    assert_eq!(loaded_graph.get_all_functions().len(), 10);
    assert_eq!(loaded_graph.get_all_call_relations().len(), 9);
    assert_eq!(loaded_graph.function_names.len(), 10);
    assert_eq!(loaded_graph.file_functions.len(), 3);

    assert_eq!(loaded_graph.stats.total_functions, 10);
    assert_eq!(loaded_graph.stats.resolved_calls, 5);
    assert_eq!(loaded_graph.stats.unresolved_calls, 4);
}

#[test]
fn test_storage_with_parameters() {
    let mut code_graph = PetCodeGraph::new();

    let function = FunctionInfo {
        id: Uuid::new_v4().as_u128(),
        name: "test_function".to_string(),
        file_path: "test.rs".to_string(),
        line_start: 1,
        line_end: 10,
        namespace: "test".to_string(),
        language: "rust".to_string(),
        signature: Some("fn test_function(x: i32, y: String) -> i32".to_string()),
        return_type: Some("i32".to_string()),
        parameters: vec![
            ParameterInfo {
                name: "x".to_string(),
                declared_type: Some("i32".to_string()),
                default_value: None,
            },
            ParameterInfo {
                name: "y".to_string(),
                declared_type: Some("String".to_string()),
                default_value: Some("\"default\"".to_string()),
            },
        ],
    };

    code_graph.add_function(function);

    let storage = PetGraphStorage::from_petgraph(&code_graph);
    let loaded_graph = storage.to_petgraph();

    let functions = loaded_graph.get_all_functions();
    assert_eq!(functions.len(), 1);
    assert_eq!(functions[0].parameters.len(), 2);
    assert_eq!(functions[0].parameters[0].name, "x");
    assert_eq!(functions[0].parameters[0].declared_type, Some("i32".to_string()));
    assert_eq!(functions[0].parameters[1].name, "y");
    assert_eq!(functions[0].parameters[1].declared_type, Some("String".to_string()));
    assert_eq!(functions[0].parameters[1].default_value, Some("\"default\"".to_string()));
}

fn abc_graph() -> (PetGraphCodeGraph, FunctionInfo, FunctionInfo, FunctionInfo) {
    let mut graph = PetGraphCodeGraph::new();
    let a = plain_function(0xa, "A", "a.rs", 1, 3);
    let b = plain_function(0xb, "B", "b.rs", 4, 6);
    let c = plain_function(0xc, "C", "c.rs", 7, 9);
    assert_eq!(graph.add_function(a.clone()), 0);
    assert_eq!(graph.add_function(b.clone()), 1);
    assert_eq!(graph.add_function(c.clone()), 2);
    graph.add_call_relation(edge(&a, &b, 2, true)).unwrap();
    graph.add_call_relation(edge(&b, &c, 5, false)).unwrap();
    (graph, a, b, c)
}

#[test]
fn storage_round_trip_keeps_functions_edges_and_stats() {
    let (mut graph, a, _b, c) = abc_graph();
    graph.add_call_relation(edge(&c, &a, 8, true)).unwrap();
    graph.add_call_relation(edge(&c, &a, 8, true)).unwrap();
    graph.update_stats();

    let restored = PetGraphStorage::from_petgraph(&graph).to_petgraph();

    let before: Vec<(u128, String, String, usize, usize)> = graph
        .get_all_functions()
        .iter()
        .map(|f| (f.id, f.name.clone(), f.file_path.clone(), f.line_start, f.line_end))
        .collect();
    let after: Vec<(u128, String, String, usize, usize)> = restored
        .get_all_functions()
        .iter()
        .map(|f| (f.id, f.name.clone(), f.file_path.clone(), f.line_start, f.line_end))
        .collect();
    assert_eq!(before, after);

    let mut edges_before: Vec<(u128, u128, usize, bool)> = graph
        .get_all_call_relations()
        .iter()
        .map(|r| (r.caller_id, r.callee_id, r.line_number, r.is_resolved))
        .collect();
    let mut edges_after: Vec<(u128, u128, usize, bool)> = restored
        .get_all_call_relations()
        .iter()
        .map(|r| (r.caller_id, r.callee_id, r.line_number, r.is_resolved))
        .collect();
    assert_eq!(edges_before, edges_after);
    edges_before.sort();
    edges_after.sort();
    assert_eq!(edges_before, edges_after);
    assert_eq!(edges_after.len(), 4);

    assert_eq!(restored.stats.total_functions, graph.stats.total_functions);
    assert_eq!(restored.stats.total_files, 3);
    assert_eq!(restored.stats.total_languages, 1);
    assert_eq!(restored.stats.resolved_calls, 3);
    assert_eq!(restored.stats.unresolved_calls, 1);
    assert_eq!(*restored.stats.languages.get("rust").unwrap(), 3);
    assert_eq!(restored.function_names.get("A").unwrap(), &vec![0xau128]);
    assert_eq!(restored.file_functions.get("c.rs").unwrap(), &vec![0xcu128]);
    assert_eq!(restored.get_node_index(&0xb), Some(1));
    assert_eq!(restored.node_to_function.get(&2), Some(&0xcu128));
}

#[test]
fn stored_edge_without_function_is_left_out() {
    let (graph, a, _b, c) = abc_graph();
    let mut storage = PetGraphStorage::from_petgraph(&graph);
    let stranger = plain_function(0xdead, "stranger", "s.rs", 1, 1);
    storage.call_relations.insert(1, edge(&a, &stranger, 9, true));
    storage.call_relations.push(edge(&stranger, &c, 10, true));

    let restored = storage.to_petgraph();
    let lines: Vec<usize> = restored.get_all_call_relations().iter().map(|r| r.line_number).collect();
    assert_eq!(lines, vec![2, 5]);
    assert_eq!(restored.stats.resolved_calls, 1);
}

#[test]
fn dangling_edge_is_rejected_by_indexed_graph() {
    let (mut graph, a, _b, _c) = abc_graph();
    let stranger = plain_function(0x00000000_0000_0000_0000_00000000beef, "stranger", "s.rs", 1, 1);

    let refused = graph.add_call_relation(edge(&a, &stranger, 4, true));
    assert_eq!(
        refused,
        Err("Callee function 00000000-0000-0000-0000-00000000beef not found".to_string())
    );
    let refused = graph.add_call_relation(edge(&stranger, &a, 4, true));
    assert_eq!(
        refused,
        Err("Caller function 00000000-0000-0000-0000-00000000beef not found".to_string())
    );
    let both = plain_function(0x12345678_9abc_def0_1234_56789abcdef0, "other", "o.rs", 1, 1);
    let refused = graph.add_call_relation(edge(&both, &stranger, 4, true));
    assert_eq!(
        refused,
        Err("Caller function 12345678-9abc-def0-1234-56789abcdef0 not found".to_string())
    );

    assert_eq!(graph.get_all_call_relations().len(), 2);
    assert_eq!(graph.get_all_functions().len(), 3);
    assert_eq!(graph.stats.resolved_calls, 1);
    assert_eq!(graph.stats.unresolved_calls, 1);
    assert!(graph.get_callers(&stranger.id).is_empty());
    assert!(graph.get_callees(&stranger.id).is_empty());
    assert_eq!(graph.get_callees(&a.id).len(), 1);
}

#[test]
fn indexed_graph_answers_lookups() {
    let (graph, a, b, c) = abc_graph();
    assert_eq!(graph.get_node_index(&b.id), Some(1));
    assert_eq!(graph.get_node_index(&0x99), None);
    assert_eq!(graph.get_function(2).unwrap().name, "C");
    assert!(graph.get_function(3).is_none());
    assert_eq!(graph.get_function_by_id(&a.id).unwrap().name, "A");
    assert!(graph.get_function_by_id(&0x99).is_none());
    assert_eq!(graph.find_functions_by_name("B").len(), 1);
    assert_eq!(graph.find_functions_by_name("B")[0].id, b.id);
    assert!(graph.find_functions_by_name("Z").is_empty());
    assert_eq!(graph.find_functions_by_file("c.rs")[0].id, c.id);
    assert_eq!(graph.get_stats().total_functions, 3);

    let callers = graph.get_callers(&b.id);
    assert_eq!(callers.len(), 1);
    assert_eq!(callers[0].0.id, a.id);
    assert_eq!(callers[0].1.line_number, 2);
    let callees = graph.get_callees(&b.id);
    assert_eq!(callees.len(), 1);
    assert_eq!(callees[0].0.id, c.id);
    assert!(!callees[0].1.is_resolved);
}

#[test]
fn indexed_graph_hands_out_newest_edge_first() {
    let (mut graph, a, b, c) = abc_graph();
    graph.add_call_relation(edge(&a, &c, 20, true)).unwrap();
    graph.add_call_relation(edge(&a, &b, 30, true)).unwrap();
    let lines: Vec<usize> = graph.get_callees(&a.id).iter().map(|p| p.1.line_number).collect();
    assert_eq!(lines, vec![30, 20, 2]);
    let lines: Vec<usize> = graph.get_callers(&b.id).iter().map(|p| p.1.line_number).collect();
    assert_eq!(lines, vec![30, 2]);
}

#[test]
fn indexed_graph_call_chain() {
    let (graph, a, b, _c) = abc_graph();
    assert_eq!(graph.get_call_chain(&a.id, 3), vec![vec![0xau128, 0xb, 0xc]]);
    assert_eq!(graph.get_call_chain(&a.id, 2), vec![vec![0xau128, 0xb]]);
    assert_eq!(graph.get_call_chain(&b.id, 3), vec![vec![0xbu128, 0xc]]);
    assert_eq!(graph.get_call_chain(&0x99, 3), vec![vec![0x99u128]]);
}

#[test]
fn cycle_test_follows_the_edges() {
    let (mut graph, a, _b, c) = abc_graph();
    assert!(!graph.has_cycles());
    assert_eq!(graph.topological_sort(), Ok(vec![0, 1, 2]));
    let mut parts = graph.strongly_connected_components();
    assert_eq!(parts.len(), 3);
    assert_eq!(parts, vec![vec![2], vec![1], vec![0]]);

    graph.add_call_relation(edge(&c, &a, 8, true)).unwrap();
    assert!(graph.has_cycles());
    let sorted = graph.topological_sort();
    assert!(sorted.is_err());
    assert!(sorted.unwrap_err() < 3);
    parts = graph.strongly_connected_components();
    assert_eq!(parts.len(), 1);
    let mut group = parts[0].clone();
    group.sort();
    assert_eq!(group, vec![0, 1, 2]);
}

#[test]
fn self_call_is_a_cycle() {
    let mut graph = PetGraphCodeGraph::new();
    let a = plain_function(1, "a", "a.rs", 1, 2);
    graph.add_function(a.clone());
    assert!(!graph.has_cycles());
    graph.add_call_relation(edge(&a, &a, 1, true)).unwrap();
    assert!(graph.has_cycles());
    assert_eq!(graph.topological_sort(), Err(0));
}

#[test]
fn indexed_graph_diagrams_are_exact() {
    let (graph, _a, _b, _c) = abc_graph();
    let mermaid = "graph TD\n    00000000_0000_0000_0000_00000000000a[\"A\\na.rs\"]\n    00000000_0000_0000_0000_00000000000b[\"B\\nb.rs\"]\n    00000000_0000_0000_0000_00000000000c[\"C\\nc.rs\"]\n    00000000_0000_0000_0000_00000000000a --> 00000000_0000_0000_0000_00000000000b\n    00000000_0000_0000_0000_00000000000b --> 00000000_0000_0000_0000_00000000000c:::unresolved\n\nclassDef unresolved stroke-dasharray: 5 5\n";
    assert_eq!(graph.to_mermaid(), mermaid);
    let dot = "digraph CodeGraph {\n    rankdir=TB;\n    node [shape=box];\n\n    00000000_0000_0000_0000_00000000000a [label=\"A\\na.rs\"];\n    00000000_0000_0000_0000_00000000000b [label=\"B\\nb.rs\"];\n    00000000_0000_0000_0000_00000000000c [label=\"C\\nc.rs\"];\n    00000000_0000_0000_0000_00000000000a -> 00000000_0000_0000_0000_00000000000b;\n    00000000_0000_0000_0000_00000000000b -> 00000000_0000_0000_0000_00000000000c [style=dashed];\n}\n";
    assert_eq!(graph.to_dot(), dot);
}

#[test]
fn graphml_text_is_exact() {
    let mut graph = PetGraphCodeGraph::new();
    let a = plain_function(1, "main", "src/main.rs", 1, 12);
    let mut b = plain_function(2, "helper", "lib/util.py", 30, 45);
    b.language = "python".to_string();
    graph.add_function(a.clone());
    graph.add_function(b.clone());
    graph.add_call_relation(edge(&a, &b, 7, true)).unwrap();
    graph.add_call_relation(edge(&b, &b, 100, false)).unwrap();

    let expected = "<?xml version=\"1.0\" encoding=\"UTF-8\"?>\n<graphml xmlns=\"http://graphml.graphdrawing.org/xmlns\">\n  <key id=\"name\" for=\"node\" attr.name=\"name\" attr.type=\"string\"/>\n  <key id=\"file\" for=\"node\" attr.name=\"file\" attr.type=\"string\"/>\n  <key id=\"language\" for=\"node\" attr.name=\"language\" attr.type=\"string\"/>\n  <key id=\"line_start\" for=\"node\" attr.name=\"line_start\" attr.type=\"int\"/>\n  <key id=\"line_end\" for=\"node\" attr.name=\"line_end\" attr.type=\"int\"/>\n  <key id=\"line_number\" for=\"edge\" attr.name=\"line_number\" attr.type=\"int\"/>\n  <key id=\"is_resolved\" for=\"edge\" attr.name=\"is_resolved\" attr.type=\"boolean\"/>\n  <graph id=\"codegraph\" edgedefault=\"directed\">\n    <node id=\"n0\">\n      <data key=\"name\">main</data>\n      <data key=\"file\">src/main.rs</data>\n      <data key=\"language\">rust</data>\n      <data key=\"line_start\">1</data>\n      <data key=\"line_end\">12</data>\n    </node>\n    <node id=\"n1\">\n      <data key=\"name\">helper</data>\n      <data key=\"file\">lib/util.py</data>\n      <data key=\"language\">python</data>\n      <data key=\"line_start\">30</data>\n      <data key=\"line_end\">45</data>\n    </node>\n    <edge id=\"e0\" source=\"n0\" target=\"n1\">\n      <data key=\"line_number\">7</data>\n      <data key=\"is_resolved\">true</data>\n    </edge>\n    <edge id=\"e1\" source=\"n1\" target=\"n1\">\n      <data key=\"line_number\">100</data>\n      <data key=\"is_resolved\">false</data>\n    </edge>\n  </graph>\n</graphml>\n";
    assert_eq!(PetGraphStorageManager::export_to_graphml(&graph), expected);
}

#[test]
fn gexf_text_is_exact() {
    let mut graph = PetGraphCodeGraph::new();
    let a = plain_function(1, "main", "src/main.rs", 1, 12);
    let b = plain_function(2, "helper", "lib/util.rs", 30, 45);
    graph.add_function(a.clone());
    graph.add_function(b.clone());
    graph.add_call_relation(edge(&a, &b, 7, false)).unwrap();

    let expected = "<?xml version=\"1.0\" encoding=\"UTF-8\"?>\n<gexf xmlns=\"http://www.gexf.net/1.3\" version=\"1.3\">\n  <meta lastmodifieddate=\"2024-01-01\">\n    <creator>CodeGraph Exporter</creator>\n    <description>Code dependency graph</description>\n  </meta>\n  <graph mode=\"static\" defaultedgetype=\"directed\">\n    <attributes class=\"node\">\n      <attribute id=\"0\" title=\"name\" type=\"string\"/>\n      <attribute id=\"1\" title=\"file\" type=\"string\"/>\n      <attribute id=\"2\" title=\"language\" type=\"string\"/>\n      <attribute id=\"3\" title=\"line_start\" type=\"integer\"/>\n      <attribute id=\"4\" title=\"line_end\" type=\"integer\"/>\n    </attributes>\n    <attributes class=\"edge\">\n      <attribute id=\"0\" title=\"line_number\" type=\"integer\"/>\n      <attribute id=\"1\" title=\"is_resolved\" type=\"boolean\"/>\n    </attributes>\n    <nodes>\n      <node id=\"0\" label=\"main\">\n        <attvalues>\n          <attvalue for=\"0\" value=\"main\"/>\n          <attvalue for=\"1\" value=\"src/main.rs\"/>\n          <attvalue for=\"2\" value=\"rust\"/>\n          <attvalue for=\"3\" value=\"1\"/>\n          <attvalue for=\"4\" value=\"12\"/>\n        </attvalues>\n      </node>\n      <node id=\"1\" label=\"helper\">\n        <attvalues>\n          <attvalue for=\"0\" value=\"helper\"/>\n          <attvalue for=\"1\" value=\"lib/util.rs\"/>\n          <attvalue for=\"2\" value=\"rust\"/>\n          <attvalue for=\"3\" value=\"30\"/>\n          <attvalue for=\"4\" value=\"45\"/>\n        </attvalues>\n      </node>\n    </nodes>\n    <edges>\n      <edge id=\"0\" source=\"0\" target=\"1\">\n        <attvalues>\n          <attvalue for=\"0\" value=\"7\"/>\n          <attvalue for=\"1\" value=\"false\"/>\n        </attvalues>\n      </edge>\n    </edges>\n  </graph>\n</gexf>\n";
    assert_eq!(PetGraphStorageManager::export_to_gexf(&graph), expected);
}

#[test]
fn empty_indexed_graph_exports_are_well_formed() {
    let graph = PetGraphCodeGraph::new();
    assert_eq!(graph.to_mermaid(), "graph TD\n\nclassDef unresolved stroke-dasharray: 5 5\n");
    assert_eq!(graph.to_dot(), "digraph CodeGraph {\n    rankdir=TB;\n    node [shape=box];\n\n}\n");
    let graphml = PetGraphStorageManager::export_to_graphml(&graph);
    assert!(graphml.starts_with("<?xml version=\"1.0\" encoding=\"UTF-8\"?>\n<graphml "));
    assert!(graphml.ends_with("  <graph id=\"codegraph\" edgedefault=\"directed\">\n  </graph>\n</graphml>\n"));
    assert!(!graphml.contains("<node"));
    assert!(!graphml.contains("<edge"));
    let gexf = PetGraphStorageManager::export_to_gexf(&graph);
    assert!(gexf.starts_with("<?xml version=\"1.0\" encoding=\"UTF-8\"?>\n<gexf "));
    assert!(gexf.ends_with("    <nodes>\n    </nodes>\n    <edges>\n    </edges>\n  </graph>\n</gexf>\n"));
    assert!(!gexf.contains("<node "));
    assert!(!gexf.contains("<edge "));
}

#[test]
fn shared_identifier_leads_to_the_last_node() {
    let mut graph = PetGraphCodeGraph::new();
    let first = plain_function(7, "f", "a.rs", 1, 2);
    let second = plain_function(7, "g", "b.rs", 3, 4);
    assert_eq!(graph.add_function(first), 0);
    assert_eq!(graph.add_function(second), 1);
    assert_eq!(graph.get_node_index(&7), Some(1));
    assert_eq!(graph.get_function_by_id(&7).unwrap().name, "g");
    assert_eq!(graph.get_all_functions().len(), 2);
    assert_eq!(graph.stats.total_functions, 2);
    let restored = PetGraphStorage::from_petgraph(&graph).to_petgraph();
    assert_eq!(restored.get_node_index(&7), Some(1));
    assert_eq!(restored.get_all_functions().len(), 2);
}

fn numbered_graph(count: u128, arcs: &[(u128, u128)]) -> PetGraphCodeGraph {
    let mut graph = PetGraphCodeGraph::new();
    let mut functions = Vec::new();
    for id in 0..count {
        let f = plain_function(id, &format!("f{}", id), "f.rs", 1, 2);
        graph.add_function(f.clone());
        functions.push(f);
    }
    for (from, to) in arcs {
        graph
            .add_call_relation(edge(&functions[*from as usize], &functions[*to as usize], 1, true))
            .unwrap();
    }
    graph
}

#[test]
fn components_come_callee_first() {
    let arcs = [(0, 1), (1, 2), (2, 1), (0, 3), (3, 4), (4, 3), (2, 4), (5, 0), (6, 6)];
    let graph = numbered_graph(7, &arcs);
    let parts = graph.strongly_connected_components();

    let mut seen: Vec<u32> = parts.iter().flatten().cloned().collect();
    seen.sort();
    assert_eq!(seen, vec![0, 1, 2, 3, 4, 5, 6]);
    let group_of = |node: u32| parts.iter().position(|part| part.contains(&node)).unwrap();
    assert_eq!(group_of(1), group_of(2));
    assert_eq!(group_of(3), group_of(4));
    assert_ne!(group_of(1), group_of(3));
    assert_ne!(group_of(0), group_of(5));
    assert_eq!(parts[group_of(6)], vec![6]);
    for (from, to) in arcs {
        let (source, target) = (group_of(from as u32), group_of(to as u32));
        if source != target {
            assert!(target < source);
        }
    }
    assert!(graph.has_cycles());
    assert!(graph.topological_sort().is_err());
}

#[test]
fn topological_order_leads_every_call_forward() {
    let arcs = [(3, 1), (1, 0), (3, 0), (4, 3), (2, 0), (4, 2), (5, 4), (1, 2)];
    let graph = numbered_graph(6, &arcs);
    assert!(!graph.has_cycles());
    let order = graph.topological_sort().unwrap();
    let mut sorted = order.clone();
    sorted.sort();
    assert_eq!(sorted, vec![0, 1, 2, 3, 4, 5]);
    let place = |node: u32| order.iter().position(|n| *n == node).unwrap();
    for (from, to) in arcs {
        assert!(place(from as u32) < place(to as u32));
    }
    let parts = graph.strongly_connected_components();
    assert_eq!(parts.len(), 6);
}
