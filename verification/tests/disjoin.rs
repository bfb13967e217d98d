use conllx_hash_disjoin::engine::DisjoinEngine;
use conllx_hash_disjoin::pipeline::disjoin_records;

fn lines(texts: &[&str]) -> Vec<String> {
    texts.iter().map(|t| t.to_string()).collect()
}

#[test]
fn disjoin_removes_matching_records() {
    let remove = lines(&["A", "B"]);
    let keep = lines(&["A", "C", "B", "D"]);
    let (out, remove_report, keep_report) = disjoin_records(&remove, &keep, 42);
    assert_eq!(out, lines(&["C", "D"]));
    assert_eq!(remove_report.total, 2);
    assert_eq!(remove_report.unique, 2);
    assert_eq!(keep_report.total, 4);
    assert_eq!(keep_report.unique, 4);
}

#[test]
fn disjoin_self_is_empty() {
    let corpus = lines(&["a", "b", "c", "b"]);
    let (out, remove_report, keep_report) = disjoin_records(&corpus, &corpus, 17);
    assert!(out.is_empty());
    assert_eq!(remove_report.total, 4);
    assert_eq!(remove_report.unique, 3);
    assert_eq!(keep_report.total, 4);
    assert_eq!(keep_report.unique, 3);
}

#[test]
fn disjoin_empty_remove_passes_all() {
    let remove: Vec<String> = Vec::new();
    let keep = lines(&["a", "b", "a"]);
    let (out, remove_report, keep_report) = disjoin_records(&remove, &keep, 3);
    assert_eq!(out, lines(&["a", "b", "a"]));
    assert_eq!(remove_report.total, 0);
    assert_eq!(remove_report.unique, 0);
    assert_eq!(keep_report.total, 3);
    assert_eq!(keep_report.unique, 2);
}

#[test]
fn disjoin_empty_keep_outputs_nothing() {
    let remove = lines(&["a", "b"]);
    let keep: Vec<String> = Vec::new();
    let (out, remove_report, keep_report) = disjoin_records(&remove, &keep, 3);
    assert!(out.is_empty());
    assert_eq!(remove_report.total, 2);
    assert_eq!(remove_report.unique, 2);
    assert_eq!(keep_report.total, 0);
    assert_eq!(keep_report.unique, 0);
}

#[test]
fn disjoin_preserves_keep_order() {
    let remove = lines(&["b"]);
    let keep = lines(&["a", "b", "c", "b", "d"]);
    let (out, _, _) = disjoin_records(&remove, &keep, 99);
    assert_eq!(out, lines(&["a", "c", "d"]));
}

#[test]
fn disjoin_engine_phases() {
    let mut engine = DisjoinEngine::new(7);
    engine.push_remove("alpha");
    engine.push_remove("alpha");
    assert_eq!(engine.remove_records_seen(), 2);
    let remove_report = engine.finish_remove();
    assert_eq!(remove_report.total, 2);
    assert_eq!(remove_report.unique, 1);
    assert!(!engine.push_keep("alpha"));
    assert!(engine.push_keep("beta"));
    assert!(engine.push_keep("beta"));
    assert_eq!(engine.keep_records_seen(), 3);
    let keep_report = engine.keep_report();
    assert_eq!(keep_report.total, 3);
    assert_eq!(keep_report.unique, 2);
}
