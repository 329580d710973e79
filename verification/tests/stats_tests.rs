use codegraph::types::CodeGraphStats;

#[test]
fn test_stats_default() {
    let stats = CodeGraphStats::default();

    assert_eq!(stats.total_functions, 0);
    assert_eq!(stats.total_files, 0);
    assert_eq!(stats.total_languages, 0);
    assert_eq!(stats.resolved_calls, 0);
    assert_eq!(stats.unresolved_calls, 0);
    assert!(stats.languages.is_empty());
}
