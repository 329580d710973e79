use codegraph::parser::SymbolRecord;
use codegraph::parser::SymbolType;
use codegraph::signature::FunctionArg;
use codegraph::signature::FunctionDetails;
use codegraph::signature::LanguageId;
use codegraph::signature::TypeDef;
use codegraph::CodeGraph;
use codegraph::CodeGraphAnalyzer;
use codegraph::CodeParser;
use codegraph::PetGraphCodeGraph;

fn declaration(guid: u128, name: &str, language: &str, start_row: usize, end_row: usize) -> SymbolRecord {
    SymbolRecord {
        guid,
        name: name.to_string(),
        namespace: "".to_string(),
        language: language.to_string(),
        language_id: LanguageId::Other,
        symbol_type: SymbolType::FunctionDeclaration,
        start_row,
        end_row,
        details: None,
    }
}

fn call_site(guid: u128, name: &str, language: &str, row: usize) -> SymbolRecord {
    SymbolRecord {
        guid,
        name: name.to_string(),
        namespace: "".to_string(),
        language: language.to_string(),
        language_id: LanguageId::Other,
        symbol_type: SymbolType::FunctionCall,
        start_row: row,
        end_row: row,
        details: None,
    }
}

fn other(guid: u128, name: &str, language: &str, row: usize) -> SymbolRecord {
    SymbolRecord {
        guid,
        name: name.to_string(),
        namespace: "".to_string(),
        language: language.to_string(),
        language_id: LanguageId::Other,
        symbol_type: SymbolType::Other,
        start_row: row,
        end_row: row,
        details: None,
    }
}

/// The symbols of a file with the functions main, calculate, add and an
/// unused one, where main calls calculate and calculate calls add.
fn sample_symbols(base: u128, language: &str, unused: &str, printer: &str) -> Vec<SymbolRecord> {
    vec![
        declaration(base + 1, "main", language, 1, 4),
        other(base + 2, "result", language, 2),
        call_site(base + 3, "calculate", language, 2),
        call_site(base + 4, printer, language, 3),
        declaration(base + 5, "calculate", language, 6, 8),
        call_site(base + 6, "add", language, 7),
        declaration(base + 7, "add", language, 10, 12),
        declaration(base + 8, unused, language, 14, 16),
    ]
}

fn create_test_files() -> Vec<(String, Vec<SymbolRecord>)> {
    vec![
        ("test.py".to_string(), sample_symbols(0x100, "python", "unused_function", "print")),
        ("test.rs".to_string(), sample_symbols(0x200, "rust", "unused_function", "println")),
        ("test.js".to_string(), sample_symbols(0x300, "javascript", "unusedFunction", "log")),
    ]
}

fn analyzed(files: Vec<(String, Vec<SymbolRecord>)>) -> CodeGraphAnalyzer<CodeGraph> {
    let mut analyzer = CodeGraphAnalyzer::new();
    for (path, symbols) in files {
        analyzer.parse_file(path, symbols);
    }
    assert!(analyzer.analyze_directory().is_ok());
    analyzer
}

#[test]
fn test_analyzer_basic_functionality() {
    let mut analyzer = CodeGraphAnalyzer::new();
    for (path, symbols) in create_test_files() {
        analyzer.parse_file(path, symbols);
    }

    let result = analyzer.analyze_directory();
    assert!(result.is_ok());

    assert!(analyzer.get_code_graph().is_some());

    let stats = analyzer.get_stats().unwrap();
    assert!(stats.total_functions > 0);
    assert!(stats.total_files > 0);
}

#[test]
fn test_analyzer_call_chains() {
    let analyzer = analyzed(create_test_files());

    let chains = analyzer.find_call_chains("main", 3);

    assert!(!chains.is_empty());
}

#[test]
fn test_analyzer_circular_dependencies() {
    let analyzer = analyzed(create_test_files());

    let cycles = analyzer.find_circular_dependencies();

    assert!(cycles.is_empty());
}

#[test]
fn test_analyzer_complexity_analysis() {
    let analyzer = analyzed(create_test_files());

    let complex_functions = analyzer.find_most_complex_functions(5);
    let leaf_functions = analyzer.find_leaf_functions();
    let root_functions = analyzer.find_root_functions();

    assert!(!complex_functions.is_empty());
    assert!(!leaf_functions.is_empty());
    assert!(!root_functions.is_empty());
}

#[test]
fn test_analyzer_distribution_analysis() {
    let analyzer = analyzed(create_test_files());

    let lang_distribution = analyzer.get_language_distribution();
    let file_distribution = analyzer.get_file_distribution();

    assert!(!lang_distribution.is_empty());
    assert!(!file_distribution.is_empty());
}

#[test]
fn test_analyzer_report_generation() {
    let analyzer = analyzed(create_test_files());

    let report = analyzer.generate_call_report();

    assert!(report.contains("Code Graph Call Report"));
    assert!(report.contains("Total Functions"));
    assert!(report.contains("Language Distribution"));
}

#[test]
fn test_analyzer_export_formats() {
    let analyzer = analyzed(create_test_files());

    let mermaid = analyzer.export_mermaid();
    let dot = analyzer.export_dot();

    assert!(mermaid.is_some());
    assert!(dot.is_some());
}

#[test]
fn test_unsupported_file_handling() {
    let names = ["test.txt", "test.md"];
    let mut analyzer = CodeGraphAnalyzer::new();
    for name in names {
        let extension = name.rsplit('.').next().unwrap();
        if CodeParser::is_supported_extension(extension) {
            analyzer.parse_file(name.to_string(), vec![]);
        }
    }

    let result = analyzer.analyze_directory();
    assert!(result.is_ok());

    let stats = analyzer.get_stats();
    if let Some(stats) = stats {
        assert_eq!(stats.total_functions, 0);
    }
}

#[test]
fn test_generate_and_print_codegraph() {
    let mut parser = CodeParser::new();
    for (path, symbols) in create_test_files() {
        parser.parse_file(path, symbols);
    }
    let code_graph = parser.build_code_graph().expect("Failed to build code graph");
    let dot = code_graph.to_dot();
    println!("\n[CodeGraph DOT format]\n{}", dot);
    let mermaid = code_graph.to_mermaid();
    println!("\n[CodeGraph Mermaid format]\n{}", mermaid);
    println!("\n[CodeGraph Stats]\n{:?}", code_graph.stats);
    assert!(code_graph.functions.len() > 0);
}

fn chain_files(with_back_edge: bool) -> Vec<(String, Vec<SymbolRecord>)> {
    let mut symbols = vec![
        declaration(0xa, "A", "rust", 0, 2),
        call_site(1, "B", "rust", 1),
        declaration(0xb, "B", "rust", 3, 5),
        call_site(2, "C", "rust", 4),
        declaration(0xc, "C", "rust", 6, 8),
    ];
    if with_back_edge {
        symbols.push(call_site(3, "A", "rust", 7));
    }
    vec![("chain.rs".to_string(), symbols)]
}

fn ids(functions: &Vec<&codegraph::FunctionInfo>) -> Vec<u128> {
    functions.iter().map(|f| f.id).collect()
}

#[test]
fn chain_of_three_functions() {
    let analyzer = analyzed(chain_files(false));

    let chains = analyzer.find_call_chains("A", 3);
    assert_eq!(chains.len(), 1);
    assert_eq!(ids(&chains[0]), vec![0xa, 0xb, 0xc]);

    assert!(analyzer.find_circular_dependencies().is_empty());
    assert_eq!(ids(&analyzer.find_root_functions()), vec![0xc]);
    assert_eq!(ids(&analyzer.find_leaf_functions()), vec![0xa]);

    assert_eq!(ids(&analyzer.find_callers("B")), vec![0xa]);
    assert_eq!(ids(&analyzer.find_callees("B")), vec![0xc]);
    assert!(analyzer.find_callers("A").is_empty());
    assert!(analyzer.find_callees("C").is_empty());
    assert!(analyzer.find_callers("nobody").is_empty());
    assert!(analyzer.find_call_chains("nobody", 3).is_empty());
}

#[test]
fn chain_ends_at_the_depth_bound() {
    let analyzer = analyzed(chain_files(false));
    let chains = analyzer.find_call_chains("A", 2);
    assert_eq!(chains.len(), 1);
    assert_eq!(ids(&chains[0]), vec![0xa, 0xb]);
    let chains = analyzer.find_call_chains("A", 1);
    assert_eq!(chains.len(), 1);
    assert_eq!(ids(&chains[0]), vec![0xa]);
    assert!(analyzer.find_call_chains("A", 0).is_empty());
}

#[test]
fn back_edge_closes_a_cycle() {
    let analyzer = analyzed(chain_files(true));

    let cycles = analyzer.find_circular_dependencies();
    assert!(!cycles.is_empty());
    let rotations = [vec![0xa, 0xb, 0xc], vec![0xb, 0xc, 0xa], vec![0xc, 0xa, 0xb]];
    assert!(cycles.iter().any(|cycle| rotations.contains(&ids(cycle))));
    assert_eq!(cycles.len(), 1);

    let from_a = analyzer.circular_dependencies_among(&vec![0xa, 0xb, 0xc]);
    assert_eq!(from_a.len(), 1);
    assert_eq!(ids(&from_a[0]), vec![0xa, 0xb, 0xc]);
    let from_c = analyzer.circular_dependencies_among(&vec![0xc, 0xb, 0xa]);
    assert_eq!(from_c.len(), 1);
    assert_eq!(ids(&from_c[0]), vec![0xc, 0xa, 0xb]);

    assert!(analyzer.find_leaf_functions().is_empty());
    assert!(analyzer.find_root_functions().is_empty());
}

fn analyzed_indexed(files: Vec<(String, Vec<SymbolRecord>)>) -> CodeGraphAnalyzer<PetGraphCodeGraph> {
    let mut analyzer = CodeGraphAnalyzer::new_indexed();
    for (path, symbols) in files {
        analyzer.parse_file(path, symbols);
    }
    assert!(analyzer.analyze_directory_indexed().is_ok());
    analyzer
}

#[test]
fn analyses_run_over_the_indexed_graph() {
    let analyzer = analyzed_indexed(chain_files(false));

    let chains = analyzer.find_call_chains("A", 3);
    assert_eq!(chains.len(), 1);
    assert_eq!(ids(&chains[0]), vec![0xa, 0xb, 0xc]);
    assert!(analyzer.find_circular_dependencies().is_empty());
    assert_eq!(ids(&analyzer.find_root_functions()), vec![0xc]);
    assert_eq!(ids(&analyzer.find_leaf_functions()), vec![0xa]);
    assert_eq!(ids(&analyzer.find_callers("B")), vec![0xa]);
    assert_eq!(ids(&analyzer.find_callees("B")), vec![0xc]);
    assert_eq!(analyzer.get_stats().unwrap().total_functions, 3);
    assert_eq!(analyzer.get_language_distribution().get("rust"), Some(&3));
    assert_eq!(analyzer.get_file_distribution().get("chain.rs"), Some(&3));

    let cyclic = analyzed_indexed(chain_files(true));
    assert!(cyclic.get_code_graph().unwrap().has_cycles());
    let cycles = cyclic.circular_dependencies_among(&vec![0xb, 0xa, 0xc]);
    assert_eq!(cycles.len(), 1);
    assert_eq!(ids(&cycles[0]), vec![0xb, 0xc, 0xa]);
    let ranked = cyclic.most_complex_among(&vec![0xc, 0xb, 0xa], 2);
    let listed: Vec<(u128, usize)> = ranked.iter().map(|(f, score)| (f.id, *score)).collect();
    assert_eq!(listed, vec![(0xc, 2), (0xb, 2)]);
    let report = cyclic.generate_call_report();
    assert!(report.contains("Resolved Calls: 3\n"));
    assert!(report.contains("  Cycle 1: "));
    assert_eq!(
        cyclic.export_mermaid().unwrap(),
        cyclic.get_code_graph().unwrap().to_mermaid()
    );
    assert_eq!(cyclic.export_dot().unwrap(), cyclic.get_code_graph().unwrap().to_dot());
}

#[test]
fn analyzer_takes_a_finished_graph() {
    let mut graph = PetGraphCodeGraph::new();
    for (id, name) in [(1u128, "one"), (2u128, "two")] {
        graph.add_function(codegraph::FunctionInfo {
            id,
            name: name.to_string(),
            file_path: "f.rs".to_string(),
            line_start: 1,
            line_end: 2,
            namespace: "".to_string(),
            language: "rust".to_string(),
            signature: None,
            return_type: None,
            parameters: vec![],
        });
    }
    let analyzer = CodeGraphAnalyzer::with_graph(graph);
    let mut leaves = ids(&analyzer.find_leaf_functions());
    leaves.sort();
    assert_eq!(leaves, vec![1, 2]);
    assert_eq!(ids(&analyzer.find_call_chains("two", 4)[0]), vec![2]);
}

#[test]
fn leaves_and_roots_of_a_graph_without_edges() {
    let files = vec![(
        "lonely.rs".to_string(),
        vec![
            declaration(1, "one", "rust", 0, 1),
            declaration(2, "two", "rust", 2, 3),
            declaration(3, "three", "rust", 4, 5),
            call_site(9, "missing", "rust", 5),
        ],
    )];
    let analyzer = analyzed(files);
    assert_eq!(analyzer.get_code_graph().unwrap().call_relations.len(), 0);

    let mut leaves = ids(&analyzer.find_leaf_functions());
    let mut roots = ids(&analyzer.find_root_functions());
    leaves.sort();
    roots.sort();
    assert_eq!(leaves, vec![1, 2, 3]);
    assert_eq!(roots, vec![1, 2, 3]);
    let shared: Vec<u128> = leaves.iter().filter(|id| roots.contains(id)).cloned().collect();
    assert_eq!(shared, vec![1, 2, 3]);
}

#[test]
fn analyses_without_a_graph_are_empty() {
    let analyzer = CodeGraphAnalyzer::new();
    assert!(analyzer.get_code_graph().is_none());
    assert!(analyzer.get_stats().is_none());
    assert!(analyzer.find_callers("main").is_empty());
    assert!(analyzer.find_callees("main").is_empty());
    assert!(analyzer.find_call_chains("main", 3).is_empty());
    assert!(analyzer.find_circular_dependencies().is_empty());
    assert!(analyzer.find_most_complex_functions(3).is_empty());
    assert!(analyzer.find_leaf_functions().is_empty());
    assert!(analyzer.find_root_functions().is_empty());
    assert!(analyzer.get_language_distribution().is_empty());
    assert!(analyzer.get_file_distribution().is_empty());
    assert_eq!(analyzer.generate_call_report(), "No code graph available");
    assert!(analyzer.export_mermaid().is_none());
    assert!(analyzer.export_dot().is_none());
}

#[test]
fn most_complex_functions_are_ranked() {
    let files = vec![(
        "rank.rs".to_string(),
        vec![
            declaration(1, "hub", "rust", 0, 9),
            call_site(11, "left", "rust", 1),
            call_site(12, "right", "rust", 2),
            call_site(13, "left", "rust", 3),
            declaration(2, "left", "rust", 10, 12),
            call_site(14, "right", "rust", 11),
            declaration(3, "right", "rust", 13, 15),
            declaration(4, "idle", "rust", 16, 18),
        ],
    )];
    let analyzer = analyzed(files);

    let ranked = analyzer.most_complex_among(&vec![4, 3, 2, 1], 10);
    let listed: Vec<(u128, usize)> = ranked.iter().map(|(f, score)| (f.id, *score)).collect();
    assert_eq!(listed, vec![(2, 3), (1, 3), (3, 2), (4, 0)]);

    let ranked = analyzer.most_complex_among(&vec![1, 2, 3, 4], 2);
    let listed: Vec<(u128, usize)> = ranked.iter().map(|(f, score)| (f.id, *score)).collect();
    assert_eq!(listed, vec![(1, 3), (2, 3)]);

    let ranked = analyzer.most_complex_among(&vec![1, 77, 4], 5);
    let listed: Vec<(u128, usize)> = ranked.iter().map(|(f, score)| (f.id, *score)).collect();
    assert_eq!(listed, vec![(1, 3), (4, 0)]);

    let top = analyzer.find_most_complex_functions(3);
    assert_eq!(top.len(), 3);
    assert_eq!(top[0].1, 3);
    assert_eq!(top[1].1, 3);
    assert_eq!(top[2].1, 2);
    assert_eq!(top[2].0.id, 3);
    assert!(analyzer.find_most_complex_functions(0).is_empty());
}

#[test]
fn distributions_count_every_function() {
    let files = vec![
        (
            "src/app/util.rs".to_string(),
            vec![declaration(1, "a", "rust", 0, 1), declaration(2, "b", "rust", 2, 3)],
        ),
        ("src/lib/util.rs".to_string(), vec![declaration(3, "c", "rust", 0, 1)]),
        ("tools/run.py".to_string(), vec![declaration(4, "d", "python", 0, 1)]),
    ];
    let analyzer = analyzed(files);

    let languages = analyzer.get_language_distribution();
    assert_eq!(languages.len(), 2);
    assert_eq!(languages.get("rust"), Some(&3));
    assert_eq!(languages.get("python"), Some(&1));
    assert_eq!(languages.get("java"), None);

    let files = analyzer.get_file_distribution();
    assert_eq!(files.len(), 2);
    assert_eq!(files.get("util.rs"), Some(&3));
    assert_eq!(files.get("run.py"), Some(&1));

    let ordered = analyzer.language_distribution_among(&vec![4, 1, 99, 2]);
    assert_eq!(ordered.len(), 2);
    assert_eq!(ordered.key_at(0), "python");
    assert_eq!(ordered.key_at(1), "rust");
    assert_eq!(ordered.get("rust"), Some(&2));
}

#[test]
fn file_without_a_name_is_counted_as_unknown() {
    let files = vec![("..".to_string(), vec![declaration(1, "a", "rust", 0, 1)])];
    let analyzer = analyzed(files);
    let distribution = analyzer.get_file_distribution();
    assert_eq!(distribution.get("unknown"), Some(&1));
}

#[test]
fn report_text_is_exact() {
    let analyzer = analyzed(chain_files(true));
    let graph = analyzer.get_code_graph().unwrap();
    let order = vec![0xa, 0xb, 0xc];
    let complex = analyzer.most_complex_among(&order, 10);
    let cycles = analyzer.circular_dependencies_among(&order);
    let report = codegraph::analyzer::report_text_of(graph.get_stats(), &complex, &cycles);
    let expected = "=== Code Graph Call Report ===\n\nTotal Functions: 3\nTotal Files: 1\nResolved Calls: 3\nUnresolved Calls: 0\nLanguages: 1\n\nLanguage Distribution:\n  rust: 3\n\nMost Complex Functions:\n  A (chain.rs): 2 calls\n  B (chain.rs): 2 calls\n  C (chain.rs): 2 calls\n\nCircular Dependencies:\n  Cycle 1: A -> B -> C\n";
    assert_eq!(report, expected);

    let plain = analyzed(chain_files(false));
    let report = plain.generate_call_report();
    assert!(report.starts_with("=== Code Graph Call Report ===\n\nTotal Functions: 3\nTotal Files: 1\nResolved Calls: 2\nUnresolved Calls: 0\nLanguages: 1\n\nLanguage Distribution:\n  rust: 3\n\nMost Complex Functions:\n"));
    assert!(report.ends_with("\nCircular Dependencies:\n  No circular dependencies found\n"));
    assert!(report.contains("  B (chain.rs): 2 calls\n"));
    assert!(report.contains("  A (chain.rs): 1 calls\n"));
}

#[test]
fn built_graph_counters_agree() {
    let analyzer = analyzed(create_test_files());
    let graph = analyzer.get_code_graph().unwrap();
    let stats = graph.get_stats();
    assert_eq!(stats.total_functions, graph.functions.len());
    assert_eq!(stats.total_functions, 12);
    let mut sum = 0;
    for i in 0..stats.languages.len() {
        sum += *stats.languages.value_at(i);
    }
    assert_eq!(sum, stats.total_functions);
    assert_eq!(stats.resolved_calls + stats.unresolved_calls, graph.call_relations.len());
    assert_eq!(stats.unresolved_calls, 0);
    assert_eq!(stats.resolved_calls, 18);
    assert_eq!(stats.total_files, 3);
    assert_eq!(stats.total_languages, 3);
}

#[test]
fn arguments_become_parameters() {
    let mut symbol = declaration(5, "scale", "rust", 9, 19);
    symbol.namespace = "math".to_string();
    symbol.language_id = LanguageId::Rust;
    symbol.details = Some(FunctionDetails {
        template_types: vec![],
        args: vec![
            FunctionArg {
                name: "x".to_string(),
                type_: Some(TypeDef { name: Some("f64".to_string()), ..Default::default() }),
            },
            FunctionArg { name: "by".to_string(), type_: None },
        ],
        return_type: Some(TypeDef { name: Some("f64".to_string()), ..Default::default() }),
    });
    let parser = CodeParser::new();
    let function = parser._create_function_info(&symbol, "src/math.rs");
    assert_eq!(function.id, 5);
    assert_eq!(function.name, "scale");
    assert_eq!(function.file_path, "src/math.rs");
    assert_eq!(function.line_start, 10);
    assert_eq!(function.line_end, 20);
    assert_eq!(function.namespace, "math");
    assert_eq!(function.language, "rust");
    assert_eq!(function.signature, Some("fn scale(x: f64, by: _) -> f64".to_string()));
    assert_eq!(function.return_type, Some("f64".to_string()));
    assert_eq!(function.parameters.len(), 2);
    assert_eq!(function.parameters[0].name, "x");
    assert_eq!(function.parameters[0].declared_type, Some("f64".to_string()));
    assert_eq!(function.parameters[0].default_value, None);
    assert_eq!(function.parameters[1].name, "by");
    assert_eq!(function.parameters[1].declared_type, None);

    let bare = declaration(6, "bare", "python", 0, 1);
    let function = parser._create_function_info(&bare, "a.py");
    assert_eq!(function.signature, Some("bare(...)".to_string()));
    assert_eq!(function.return_type, None);
    assert!(function.parameters.is_empty());
    let site = call_site(7, "bare", "python", 3);
    assert_eq!(parser._extract_function_signature(&site), None);
}
