use conllx_hash_disjoin::engine::DedupEngine;
use conllx_hash_disjoin::fingerprint::hash_sentence;
use conllx_hash_disjoin::pipeline::dedup_records;

fn lines(texts: &[&str]) -> Vec<String> {
    texts.iter().map(|t| t.to_string()).collect()
}

#[test]
fn determinism_within_run() {
    let seed: u64 = 0x5eed;
    assert_eq!(
        hash_sentence("the quick brown fox", seed),
        hash_sentence("the quick brown fox", seed)
    );
    assert_eq!(hash_sentence("", seed), hash_sentence("", seed));
}

#[test]
fn xxhash_known_empty_digest() {
    assert_eq!(hash_sentence("", 0), 0xef46db3751d8e999);
}

#[test]
fn dedup_first_occurrence() {
    let input = lines(&["x", "y", "x", "z", "y"]);
    let (out, report) = dedup_records(&input, 42);
    assert_eq!(out, lines(&["x", "y", "z"]));
    assert_eq!(report.total, 5);
    assert_eq!(report.unique, 3);
}

#[test]
fn dedup_empty_input() {
    let input: Vec<String> = Vec::new();
    let (out, report) = dedup_records(&input, 42);
    assert!(out.is_empty());
    assert_eq!(report.total, 0);
    assert_eq!(report.unique, 0);
}

#[test]
fn dedup_keeps_distinct_lines() {
    let input = lines(&["x", "y"]);
    let (out, report) = dedup_records(&input, 7);
    assert_eq!(out, lines(&["x", "y"]));
    assert_eq!(report.total, 2);
    assert_eq!(report.unique, 2);
}

#[test]
fn dedup_identical_lines_collapse() {
    let input = lines(&["a", "a", "a"]);
    let (out, report) = dedup_records(&input, 9);
    assert_eq!(out, lines(&["a"]));
    assert_eq!(report.total, 3);
    assert_eq!(report.unique, 1);
}

#[test]
fn dedup_report_accuracy() {
    let input = lines(&["p", "q", "p", "p", "r", "q"]);
    let (_, report) = dedup_records(&input, 1234);
    assert_eq!(report.total, 6);
    assert_eq!(report.unique, 3);
}

#[test]
fn dedup_engine_streams() {
    let mut engine = DedupEngine::new(77);
    assert!(engine.process("alpha"));
    assert!(!engine.process("alpha"));
    assert!(engine.process("beta"));
    assert!(!engine.process("alpha"));
    assert_eq!(engine.records_seen(), 4);
    let report = engine.report();
    assert_eq!(report.total, 4);
    assert_eq!(report.unique, 2);
}

#[test]
fn dedup_same_seed_same_output() {
    let input = lines(&["u", "v", "u", "w"]);
    let (out_a, rep_a) = dedup_records(&input, 555);
    let (out_b, rep_b) = dedup_records(&input, 555);
    assert_eq!(out_a, out_b);
    assert_eq!(rep_a, rep_b);
}
