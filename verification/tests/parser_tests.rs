use codegraph::parser::SymbolRecord;
use codegraph::parser::SymbolType;
use codegraph::text_map::Histogram;
use codegraph::text_map::IdIndex;
use codegraph::text_map::TextMap;
use codegraph::CodeParser;

fn symbol(guid: u128, name: &str, kind: SymbolType, row: usize) -> SymbolRecord {
    SymbolRecord {
        guid,
        name: name.to_string(),
        namespace: "".to_string(),
        language: "rust".to_string(),
        language_id: codegraph::signature::LanguageId::Rust,
        symbol_type: kind,
        start_row: row,
        end_row: row + 1,
        details: None,
    }
}

fn decl(guid: u128, name: &str, row: usize) -> SymbolRecord {
    symbol(guid, name, SymbolType::FunctionDeclaration, row)
}

fn site(guid: u128, name: &str, row: usize) -> SymbolRecord {
    symbol(guid, name, SymbolType::FunctionCall, row)
}

fn edges(graph: &codegraph::CodeGraph) -> Vec<(u128, u128, usize, bool)> {
    graph
        .call_relations
        .iter()
        .map(|r| (r.caller_id, r.callee_id, r.line_number, r.is_resolved))
        .collect()
}

#[test]
fn calls_are_resolved_after_all_declarations() {
    let mut parser = CodeParser::new();
    parser.parse_file("first.rs".to_string(), vec![decl(1, "start", 0), site(10, "finish", 4)]);
    parser.parse_file("second.rs".to_string(), vec![decl(2, "finish", 0)]);

    let graph = parser.build_code_graph().unwrap();
    assert_eq!(edges(&graph), vec![(1, 2, 5, true)]);
    let relation = &graph.call_relations[0];
    assert_eq!(relation.caller_name, "start");
    assert_eq!(relation.callee_name, "finish");
    assert_eq!(relation.caller_file, "first.rs");
    assert_eq!(relation.callee_file, "second.rs");
    assert_eq!(graph.functions.get(&2).unwrap().line_start, 1);
    assert_eq!(graph.functions.get(&2).unwrap().line_end, 2);
}

#[test]
fn unknown_name_gives_no_edge() {
    let mut parser = CodeParser::new();
    parser.parse_file("only.rs".to_string(), vec![decl(1, "start", 0), site(10, "nowhere", 1)]);
    let graph = parser.build_code_graph().unwrap();
    assert!(graph.call_relations.is_empty());
    assert_eq!(graph.stats.resolved_calls, 0);
    assert_eq!(graph.stats.unresolved_calls, 0);
    assert_eq!(graph.stats.total_functions, 1);
}

#[test]
fn every_function_of_the_name_gets_an_edge() {
    let mut parser = CodeParser::new();
    parser.parse_file(
        "a.rs".to_string(),
        vec![decl(1, "run", 0), site(10, "step", 1), decl(2, "step", 5)],
    );
    parser.parse_file("b.rs".to_string(), vec![decl(3, "step", 0), decl(4, "step", 5)]);
    let graph = parser.build_code_graph().unwrap();
    assert_eq!(edges(&graph), vec![(1, 2, 2, true), (1, 3, 2, true), (1, 4, 2, true)]);
    assert_eq!(graph.stats.resolved_calls, 3);
}

#[test]
fn call_before_any_declaration_has_no_caller() {
    let mut parser = CodeParser::new();
    parser.parse_file("a.rs".to_string(), vec![site(10, "run", 0), decl(1, "run", 2)]);
    parser.parse_file("b.rs".to_string(), vec![site(11, "run", 0)]);
    let graph = parser.build_code_graph().unwrap();
    assert!(graph.call_relations.is_empty());
}

#[test]
fn declaration_is_never_left() {
    let mut parser = CodeParser::new();
    parser.parse_file(
        "nest.rs".to_string(),
        vec![
            decl(1, "outer", 0),
            decl(2, "inner", 2),
            site(10, "leaf", 3),
            site(11, "leaf", 9),
            decl(3, "leaf", 20),
        ],
    );
    let graph = parser.build_code_graph().unwrap();
    assert_eq!(edges(&graph), vec![(2, 3, 4, true), (2, 3, 10, true)]);
}

#[test]
fn caller_is_the_first_function_of_the_name() {
    let mut parser = CodeParser::new();
    parser.parse_file("a.rs".to_string(), vec![decl(1, "main", 0), decl(5, "work", 9)]);
    parser.parse_file("b.rs".to_string(), vec![decl(2, "main", 0), site(10, "work", 1)]);
    let graph = parser.build_code_graph().unwrap();
    assert_eq!(edges(&graph), vec![(1, 5, 2, true)]);
}

#[test]
fn both_representations_say_the_same() {
    let mut parser = CodeParser::new();
    parser.parse_file(
        "a.rs".to_string(),
        vec![decl(1, "run", 0), site(10, "step", 1), decl(2, "step", 5), site(11, "run", 6)],
    );
    parser.parse_file("b.py".to_string(), vec![decl(3, "step", 0), site(12, "step", 1)]);

    let plain = parser.build_code_graph().unwrap();
    let indexed = parser.build_petgraph_code_graph().unwrap();

    let plain_edges = edges(&plain);
    let indexed_edges: Vec<(u128, u128, usize, bool)> = indexed
        .get_all_call_relations()
        .iter()
        .map(|r| (r.caller_id, r.callee_id, r.line_number, r.is_resolved))
        .collect();
    assert_eq!(plain_edges, indexed_edges);
    assert_eq!(
        plain_edges,
        vec![(1, 2, 2, true), (1, 3, 2, true), (2, 1, 7, true), (2, 2, 2, true), (2, 3, 2, true)]
    );
    assert_eq!(indexed.get_all_functions().len(), plain.functions.len());
    assert_eq!(indexed.stats.total_functions, plain.stats.total_functions);
    assert_eq!(indexed.stats.resolved_calls, plain.stats.resolved_calls);
    assert_eq!(indexed.stats.total_files, plain.stats.total_files);
    assert_eq!(indexed.stats.total_files, 2);
    assert_eq!(indexed.function_names.get("step"), plain.function_names.get("step"));
    assert_eq!(indexed.function_names.get("step").unwrap(), &vec![2u128, 3u128]);
    assert!(indexed.has_cycles());
}

#[test]
fn no_files_give_an_empty_graph() {
    let parser = CodeParser::new();
    assert_eq!(parser.file_count(), 0);
    let graph = parser.build_code_graph().unwrap();
    assert!(graph.functions.is_empty());
    assert!(graph.call_relations.is_empty());
    assert_eq!(graph.stats.total_functions, 0);
    assert_eq!(graph.stats.total_files, 0);
    assert_eq!(graph.stats.total_languages, 0);
    let indexed = parser.build_petgraph_code_graph().unwrap();
    assert!(indexed.get_all_functions().is_empty());
    assert!(!indexed.has_cycles());
}

#[test]
fn later_symbols_replace_those_of_the_same_file() {
    let mut parser = CodeParser::new();
    parser.parse_file("a.rs".to_string(), vec![decl(1, "old", 0)]);
    parser.parse_file("b.rs".to_string(), vec![decl(2, "other", 0)]);
    parser.parse_file("a.rs".to_string(), vec![decl(3, "new", 0)]);
    assert_eq!(parser.file_count(), 2);
    let graph = parser.build_code_graph().unwrap();
    assert!(graph.functions.contains_key(&3));
    assert!(!graph.functions.contains_key(&1));
    assert_eq!(graph.file_functions.key_at(0), "a.rs");
    assert_eq!(graph.file_functions.key_at(1), "b.rs");
}

#[test]
fn extracted_functions_follow_the_files() {
    let mut parser = CodeParser::new();
    parser.parse_file(
        "a.rs".to_string(),
        vec![decl(1, "run", 0), site(10, "step", 1), decl(2, "step", 5)],
    );
    parser.parse_file("b.rs".to_string(), vec![decl(3, "step", 7)]);
    let functions = parser.extract_functions();
    let listed: Vec<(u128, String, String, usize)> = functions
        .iter()
        .map(|f| (f.id, f.name.clone(), f.file_path.clone(), f.line_start))
        .collect();
    assert_eq!(
        listed,
        vec![
            (1, "run".to_string(), "a.rs".to_string(), 1),
            (2, "step".to_string(), "a.rs".to_string(), 6),
            (3, "step".to_string(), "b.rs".to_string(), 8),
        ]
    );
}

#[test]
fn source_extensions_are_recognised() {
    for extension in [
        "cpp", "cc", "cxx", "c++", "c", "h", "hpp", "hxx", "hh", "inl", "inc", "tpp", "tpl", "py",
        "py3", "pyx", "java", "js", "jsx", "rs", "ts", "tsx",
    ] {
        assert!(CodeParser::is_supported_extension(extension));
        assert!(CodeParser::is_supported_lowercase(extension));
    }
    assert!(CodeParser::is_supported_extension("RS"));
    assert!(CodeParser::is_supported_extension("Cpp"));
    assert!(!CodeParser::is_supported_lowercase("RS"));
    for extension in ["txt", "md", "", "rss", "go", "r"] {
        assert!(!CodeParser::is_supported_extension(extension));
    }
}

#[test]
fn build_directories_are_passed_over() {
    for name in [".git", ".", ".hidden", "target", "node_modules", "__pycache__"] {
        assert!(CodeParser::is_ignored_directory(name));
    }
    for name in ["src", "", "targets", "Target", "a.b", "node_module"] {
        assert!(!CodeParser::is_ignored_directory(name));
    }
}

#[test]
fn text_map_keeps_arrival_order() {
    let mut map: TextMap<u32> = TextMap::new();
    assert!(map.is_empty());
    map.insert("b".to_string(), 1);
    map.insert("a".to_string(), 2);
    map.insert("b".to_string(), 3);
    assert_eq!(map.len(), 2);
    assert_eq!(map.key_at(0), "b");
    assert_eq!(map.key_at(1), "a");
    assert_eq!(map.get("b"), Some(&3));
    assert_eq!(map.get("a"), Some(&2));
    assert_eq!(map.get("c"), None);
    assert_eq!(map.position("a"), Some(1));
    assert_eq!(map.position("A"), None);
    assert!(map.contains_key("a"));
    assert!(!map.contains_key(""));
    assert_eq!(*map.value_at(0), 3);
}

#[test]
fn index_lists_identifiers_in_arrival_order() {
    let mut index = IdIndex::new();
    index.append_id("f", 3);
    index.append_id("g", 1);
    index.append_id("f", 2);
    index.append_id("f", 3);
    assert_eq!(index.get("f"), Some(&vec![3u128, 2, 3]));
    assert_eq!(index.get("g"), Some(&vec![1u128]));
    let copy = index.duplicate();
    assert_eq!(copy.len(), 2);
    assert_eq!(copy.key_at(0), "f");
    assert_eq!(copy.get("f"), Some(&vec![3u128, 2, 3]));
}

#[test]
fn histogram_counts_texts() {
    let mut counts = Histogram::new();
    counts.increment("rust");
    counts.increment("go");
    counts.increment("rust");
    assert_eq!(counts.get("rust"), Some(&2));
    assert_eq!(counts.get("go"), Some(&1));
    let copy = counts.duplicate();
    assert_eq!(copy.get("rust"), Some(&2));
    assert_eq!(copy.key_at(1), "go");

    let texts = vec!["b".to_string(), "a".to_string(), "b".to_string(), "b".to_string()];
    let tally = Histogram::tally(&texts);
    assert_eq!(tally.len(), 2);
    assert_eq!(tally.key_at(0), "b");
    assert_eq!(tally.get("b"), Some(&3));
    assert_eq!(tally.get("a"), Some(&1));
    assert!(Histogram::tally(&vec![]).is_empty());
}

#[test]
fn ranking_prefers_high_scores_and_early_places() {
    let scores = vec![1usize, 5, 3, 5, 0, 3];
    assert_eq!(codegraph::ranking::rank(&scores, 10), vec![1, 3, 2, 5, 0, 4]);
    assert_eq!(codegraph::ranking::rank(&scores, 3), vec![1, 3, 2]);
    assert_eq!(codegraph::ranking::rank(&scores, 0), Vec::<usize>::new());
    assert_eq!(codegraph::ranking::rank(&vec![], 4), Vec::<usize>::new());
    assert_eq!(codegraph::ranking::rank(&vec![7, 7, 7], 2), vec![0, 1]);
}

#[test]
fn texts_are_formatted() {
    assert_eq!(
        codegraph::text::node_name_of(0xa1a2a3a4b1b2c1c2d1d2d3d4d5d6d7d8),
        "a1a2a3a4_b1b2_c1c2_d1d2_d3d4d5d6d7d8"
    );
    assert_eq!(codegraph::text::node_name_of(0), "00000000_0000_0000_0000_000000000000");
    assert_eq!(codegraph::text::node_name_of(u128::MAX), "ffffffff_ffff_ffff_ffff_ffffffffffff");
    assert_eq!(codegraph::text::replace_char_in("a-b--c", '-', '+'), "a+b++c");
    assert_eq!(codegraph::text::replace_char_in("", '-', '+'), "");
    assert_eq!(codegraph::text::bool_text_of(true), "true");
    assert_eq!(codegraph::text::bool_text_of(false), "false");
}

#[test]
fn cycle_walk_reports_the_path_from_the_first_place() {
    let mut graph = codegraph::CodeGraph::new();
    for id in 1..=4u128 {
        graph.add_function(codegraph::FunctionInfo {
            id,
            name: format!("f{}", id),
            file_path: "f.rs".to_string(),
            line_start: 1,
            line_end: 2,
            namespace: "".to_string(),
            language: "rust".to_string(),
            signature: None,
            return_type: None,
            parameters: vec![],
        });
    }
    let mut link = |from: u128, to: u128| {
        graph.add_call_relation(codegraph::CallRelation {
            caller_id: from,
            callee_id: to,
            caller_name: "".to_string(),
            callee_name: "".to_string(),
            caller_file: "".to_string(),
            callee_file: "".to_string(),
            line_number: 1,
            is_resolved: true,
        });
    };
    link(1, 2);
    link(2, 3);
    link(3, 2);
    link(3, 3);
    link(3, 4);
    link(4, 1);
    link(2, 99);
    let cycles = codegraph::cycles::find_cycles(&graph, &vec![1, 2, 3, 4]);
    assert_eq!(cycles, vec![vec![2u128, 3], vec![3u128], vec![1u128, 2, 3, 4]]);
    let cycles = codegraph::cycles::find_cycles(&graph, &vec![77, 4]);
    assert_eq!(cycles, vec![vec![2u128, 3], vec![3u128], vec![4u128, 1, 2, 3]]);
    assert_eq!(codegraph::cycles::position_in(&vec![5, 6, 5], 5), Some(0));
    assert_eq!(codegraph::cycles::position_in(&vec![5, 6, 5], 7), None);
    assert_eq!(codegraph::cycles::tail_from(&vec![5, 6, 7], 1), vec![6, 7]);
}

#[test]
fn numbers_are_written_in_decimal() {
    assert_eq!(codegraph::text::usize_text(0), "0");
    assert_eq!(codegraph::text::usize_text(7), "7");
    assert_eq!(codegraph::text::usize_text(10), "10");
    assert_eq!(codegraph::text::usize_text(1234567890), "1234567890");
    assert_eq!(codegraph::text::usize_text(usize::MAX), usize::MAX.to_string());
    assert_eq!(codegraph::text::digit_of(9), '9');
}
