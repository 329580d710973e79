use codegraph::types::ParameterInfo;
use codegraph::CallRelation;
use codegraph::CodeGraph;
use codegraph::FunctionInfo;
use uuid::Uuid;

fn function(id: u128, name: &str, file: &str, line_start: usize, line_end: usize) -> FunctionInfo {
    FunctionInfo {
        id,
        name: name.to_string(),
        file_path: file.to_string(),
        line_start,
        line_end,
        namespace: "".to_string(),
        language: "rust".to_string(),
        signature: None,
        return_type: None,
        parameters: vec![],
    }
}

fn call(caller: &FunctionInfo, callee: &FunctionInfo, line: usize, resolved: bool) -> CallRelation {
    CallRelation {
        caller_id: caller.id,
        callee_id: callee.id,
        caller_name: caller.name.clone(),
        callee_name: callee.name.clone(),
        caller_file: caller.file_path.clone(),
        callee_file: callee.file_path.clone(),
        line_number: line,
        is_resolved: resolved,
    }
}

#[test]
fn test_code_graph_creation() {
    let mut code_graph = CodeGraph::new();

    let function1 = FunctionInfo {
        id: Uuid::new_v4().as_u128(),
        name: "test_function".to_string(),
        file_path: "test.rs".into(),
        line_start: 1,
        line_end: 10,
        namespace: "".to_string(),
        language: "rust".to_string(),
        signature: Some("fn test_function()".to_string()),
        return_type: Some("i32".to_string()),
        parameters: vec![ParameterInfo {
            name: "x".to_string(),
            declared_type: Some("i32".to_string()),
            default_value: None,
        }],
    };

    let function2 = FunctionInfo {
        id: Uuid::new_v4().as_u128(),
        name: "another_function".to_string(),
        file_path: "test.rs".into(),
        line_start: 12,
        line_end: 20,
        namespace: "".to_string(),
        language: "rust".to_string(),
        signature: Some("fn another_function()".to_string()),
        return_type: Some("String".to_string()),
        parameters: vec![],
    };

    code_graph.add_function(function1.clone());
    code_graph.add_function(function2.clone());

    assert_eq!(code_graph.functions.len(), 2);
    assert!(code_graph.functions.contains_key(&function1.id));
    assert!(code_graph.functions.contains_key(&function2.id));

    assert_eq!(code_graph.function_names.get("test_function").unwrap().len(), 1);
    assert_eq!(code_graph.function_names.get("another_function").unwrap().len(), 1);
}

#[test]
fn test_call_relation_creation() {
    let mut code_graph = CodeGraph::new();

    let caller_id = Uuid::new_v4().as_u128();
    let callee_id = Uuid::new_v4().as_u128();

    let relation = CallRelation {
        caller_id,
        callee_id,
        caller_name: "main".to_string(),
        callee_name: "calculate".to_string(),
        caller_file: "test.rs".into(),
        callee_file: "test.rs".into(),
        line_number: 3,
        is_resolved: true,
    };

    code_graph.add_call_relation(relation);

    assert_eq!(code_graph.call_relations.len(), 1);
    assert_eq!(code_graph.stats.resolved_calls, 1);
    assert_eq!(code_graph.stats.unresolved_calls, 0);
}

#[test]
fn test_function_lookup() {
    let mut code_graph = CodeGraph::new();

    let function = FunctionInfo {
        id: Uuid::new_v4().as_u128(),
        name: "test_function".to_string(),
        file_path: "test.rs".into(),
        line_start: 1,
        line_end: 10,
        namespace: "".to_string(),
        language: "rust".to_string(),
        signature: None,
        return_type: None,
        parameters: vec![],
    };

    code_graph.add_function(function.clone());

    let found_functions = code_graph.find_functions_by_name("test_function");
    assert_eq!(found_functions.len(), 1);
    assert_eq!(found_functions[0].name, "test_function");

    let file_functions = code_graph.find_functions_by_file("test.rs");
    assert_eq!(file_functions.len(), 1);
    assert_eq!(file_functions[0].name, "test_function");
}

#[test]
fn test_mermaid_export() {
    let mut code_graph = CodeGraph::new();

    let function1 = function(Uuid::new_v4().as_u128(), "main", "test.rs", 1, 5);
    let function2 = function(Uuid::new_v4().as_u128(), "calculate", "test.rs", 7, 12);

    code_graph.add_function(function1.clone());
    code_graph.add_function(function2.clone());

    let relation = CallRelation {
        caller_id: function1.id,
        callee_id: function2.id,
        caller_name: "main".to_string(),
        callee_name: "calculate".to_string(),
        caller_file: "test.rs".into(),
        callee_file: "test.rs".into(),
        line_number: 3,
        is_resolved: true,
    };

    code_graph.add_call_relation(relation);

    let mermaid = code_graph.to_mermaid();

    assert!(mermaid.contains("graph TD"));
    assert!(mermaid.contains("main"));
    assert!(mermaid.contains("calculate"));
    assert!(mermaid.contains("-->"));
}

#[test]
fn test_dot_export() {
    let mut code_graph = CodeGraph::new();

    let function = function(Uuid::new_v4().as_u128(), "test_function", "test.rs", 1, 10);

    code_graph.add_function(function);

    let dot = code_graph.to_dot();

    assert!(dot.contains("digraph CodeGraph"));
    assert!(dot.contains("rankdir=TB"));
    assert!(dot.contains("test_function"));
}

#[test]
fn mermaid_text_is_exact() {
    let mut code_graph = CodeGraph::new();
    let a = function(0xa1a2a3a4b1b2c1c2d1d2d3d4d5d6d7d8, "main", "src/main.rs", 1, 5);
    let b = function(0x00000000000000000000000000000001, "helper", "src/lib.rs", 7, 12);
    code_graph.add_function(a.clone());
    code_graph.add_function(b.clone());
    code_graph.add_call_relation(call(&a, &b, 3, true));
    code_graph.add_call_relation(call(&b, &a, 9, false));

    let ids = vec![a.id, b.id];
    let text = code_graph.to_mermaid_ordered(&ids);
    let expected = "graph TD\n    a1a2a3a4_b1b2_c1c2_d1d2_d3d4d5d6d7d8[\"main\\nsrc/main.rs\"]\n    00000000_0000_0000_0000_000000000001[\"helper\\nsrc/lib.rs\"]\n    a1a2a3a4_b1b2_c1c2_d1d2_d3d4d5d6d7d8 --> 00000000_0000_0000_0000_000000000001\n    00000000_0000_0000_0000_000000000001 --> a1a2a3a4_b1b2_c1c2_d1d2_d3d4d5d6d7d8:::unresolved\n\nclassDef unresolved stroke-dasharray: 5 5\n";
    assert_eq!(text, expected);
}

#[test]
fn dot_text_is_exact() {
    let mut code_graph = CodeGraph::new();
    let a = function(0xa1a2a3a4b1b2c1c2d1d2d3d4d5d6d7d8, "main", "src/main.rs", 1, 5);
    let b = function(0x00000000000000000000000000000001, "helper", "src/lib.rs", 7, 12);
    code_graph.add_function(a.clone());
    code_graph.add_function(b.clone());
    code_graph.add_call_relation(call(&a, &b, 3, true));
    code_graph.add_call_relation(call(&b, &a, 9, false));

    let ids = vec![b.id, a.id];
    let text = code_graph.to_dot_ordered(&ids);
    let expected = "digraph CodeGraph {\n    rankdir=TB;\n    node [shape=box];\n\n    00000000_0000_0000_0000_000000000001 [label=\"helper\\nsrc/lib.rs\"];\n    a1a2a3a4_b1b2_c1c2_d1d2_d3d4d5d6d7d8 [label=\"main\\nsrc/main.rs\"];\n    a1a2a3a4_b1b2_c1c2_d1d2_d3d4d5d6d7d8 -> 00000000_0000_0000_0000_000000000001;\n    00000000_0000_0000_0000_000000000001 -> a1a2a3a4_b1b2_c1c2_d1d2_d3d4d5d6d7d8 [style=dashed];\n}\n";
    assert_eq!(text, expected);
}

#[test]
fn node_name_matches_identifier_text() {
    let id = Uuid::new_v4();
    let name = codegraph::text::node_name_of(id.as_u128());
    assert_eq!(name, id.to_string().replace("-", "_"));
    assert_eq!(name.len(), 36);
}

#[test]
fn empty_graph_exports_are_well_formed() {
    let code_graph = CodeGraph::new();
    assert_eq!(
        code_graph.to_mermaid(),
        "graph TD\n\nclassDef unresolved stroke-dasharray: 5 5\n"
    );
    assert_eq!(
        code_graph.to_dot(),
        "digraph CodeGraph {\n    rankdir=TB;\n    node [shape=box];\n\n}\n"
    );
}

#[test]
fn counters_follow_the_contents() {
    let mut code_graph = CodeGraph::new();
    let a = function(1, "a", "x.rs", 1, 2);
    let mut b = function(2, "b", "y.py", 1, 2);
    b.language = "python".to_string();
    let c = function(3, "a", "x.rs", 5, 6);
    code_graph.add_function(a.clone());
    code_graph.add_function(b.clone());
    code_graph.add_function(c.clone());
    code_graph.add_call_relation(call(&a, &b, 1, true));
    code_graph.add_call_relation(call(&b, &c, 2, false));
    code_graph.add_call_relation(call(&c, &a, 3, true));
    code_graph.update_stats();

    let stats = code_graph.get_stats();
    assert_eq!(stats.total_functions, code_graph.functions.len());
    assert_eq!(stats.total_functions, 3);
    assert_eq!(*stats.languages.get("rust").unwrap(), 2);
    assert_eq!(*stats.languages.get("python").unwrap(), 1);
    let mut sum = 0;
    for i in 0..stats.languages.len() {
        sum += *stats.languages.value_at(i);
    }
    assert_eq!(sum, stats.total_functions);
    assert_eq!(stats.resolved_calls + stats.unresolved_calls, code_graph.call_relations.len());
    assert_eq!(stats.resolved_calls, 2);
    assert_eq!(stats.unresolved_calls, 1);
    assert_eq!(stats.total_files, 2);
    assert_eq!(stats.total_languages, 2);
    assert_eq!(code_graph.function_names.get("a").unwrap(), &vec![1u128, 3u128]);
    assert_eq!(code_graph.file_functions.get("x.rs").unwrap(), &vec![1u128, 3u128]);
}

#[test]
fn callers_and_callees_are_filtered_in_order() {
    let mut code_graph = CodeGraph::new();
    let a = function(1, "a", "x.rs", 1, 2);
    let b = function(2, "b", "x.rs", 3, 4);
    let c = function(3, "c", "x.rs", 5, 6);
    code_graph.add_function(a.clone());
    code_graph.add_function(b.clone());
    code_graph.add_function(c.clone());
    code_graph.add_call_relation(call(&a, &b, 10, true));
    code_graph.add_call_relation(call(&c, &b, 20, true));
    code_graph.add_call_relation(call(&a, &c, 30, true));

    let callers = code_graph.get_callers(&b.id);
    assert_eq!(callers.len(), 2);
    assert_eq!(callers[0].line_number, 10);
    assert_eq!(callers[1].line_number, 20);
    let callees = code_graph.get_callees(&a.id);
    assert_eq!(callees.len(), 2);
    assert_eq!(callees[0].callee_id, b.id);
    assert_eq!(callees[1].callee_id, c.id);
    assert!(code_graph.get_callees(&b.id).is_empty());
}

#[test]
fn dangling_edge_is_accepted_by_side_tables() {
    let mut code_graph = CodeGraph::new();
    let a = function(1, "a", "x.rs", 1, 2);
    let ghost = function(99, "ghost", "nowhere.rs", 1, 1);
    code_graph.add_function(a.clone());
    code_graph.add_call_relation(call(&a, &ghost, 4, true));

    assert_eq!(code_graph.call_relations.len(), 1);
    assert_eq!(code_graph.stats.resolved_calls, 1);
    assert!(!code_graph.functions.contains_key(&ghost.id));
    assert!(code_graph.find_functions_by_name("ghost").is_empty());
    assert_eq!(code_graph.get_callers(&ghost.id).len(), 1);
    assert_eq!(code_graph.get_callees(&a.id).len(), 1);

    let analyzer = codegraph::CodeGraphAnalyzer::with_graph(code_graph);
    assert!(analyzer.find_callers("ghost").is_empty());
    assert!(analyzer.find_callees("a").is_empty());
    assert!(analyzer.find_circular_dependencies().is_empty());
    assert_eq!(analyzer.find_root_functions().len(), 0);
    assert_eq!(analyzer.find_leaf_functions().len(), 1);
}

#[test]
fn call_chain_uses_one_visited_set() {
    let mut code_graph = CodeGraph::new();
    let a = function(1, "a", "x.rs", 1, 2);
    let b = function(2, "b", "x.rs", 3, 4);
    let c = function(3, "c", "x.rs", 5, 6);
    let d = function(4, "d", "x.rs", 7, 8);
    for f in [&a, &b, &c, &d] {
        code_graph.add_function(f.clone());
    }
    code_graph.add_call_relation(call(&a, &b, 1, true));
    code_graph.add_call_relation(call(&a, &c, 2, true));
    code_graph.add_call_relation(call(&b, &d, 3, true));
    code_graph.add_call_relation(call(&c, &d, 4, true));

    let chains = code_graph.get_call_chain(&a.id, 5);
    assert_eq!(chains, vec![vec![1u128, 2, 4]]);
    assert_eq!(code_graph.get_call_chain(&a.id, 0), Vec::<Vec<u128>>::new());
    assert_eq!(code_graph.get_call_chain(&a.id, 1), vec![vec![1u128]]);
    assert_eq!(code_graph.get_call_chain(&a.id, 2), vec![vec![1u128, 2], vec![1u128, 3]]);
    assert_eq!(code_graph.get_call_chain(&d.id, 3), vec![vec![4u128]]);
}
