use conllx_hash_disjoin::engine::DedupEngine;
use conllx_hash_disjoin::fingerprint::hash_sentence;
use conllx_hash_disjoin::sentence::Sentence;

fn sentence(forms: &[&str]) -> Sentence {
    Sentence { forms: forms.iter().map(|f| f.to_string()).collect() }
}

#[test]
fn extract_text_skips_root() {
    let s = sentence(&["root", "ab", "c"]);
    assert_eq!(s.extract_text(), "abc");
}

#[test]
fn extract_text_single_token() {
    let s = sentence(&["root"]);
    assert_eq!(s.extract_text(), "");
}

#[test]
fn extract_text_no_tokens() {
    let s = sentence(&[]);
    assert_eq!(s.extract_text(), "");
}

#[test]
fn root_exclusion() {
    let seed: u64 = 0xabcd;
    let a = sentence(&["root-one", "the", "cat", "sat"]);
    let b = sentence(&["root-two", "the", "cat", "sat"]);
    assert_eq!(
        conllx_hash_disjoin::sentence::fingerprint_sentence(&a, seed),
        conllx_hash_disjoin::sentence::fingerprint_sentence(&b, seed)
    );
}

#[test]
fn concatenation_quirk_collides_by_construction() {
    let seed: u64 = 0xabcd;
    let a = sentence(&["root", "ab", "c"]);
    let b = sentence(&["root", "a", "bc"]);
    assert_eq!(
        conllx_hash_disjoin::sentence::fingerprint_sentence(&a, seed),
        conllx_hash_disjoin::sentence::fingerprint_sentence(&b, seed)
    );
}

#[test]
fn sentence_and_line_fingerprints_agree() {
    let seed: u64 = 31;
    let s = sentence(&["root", "hello", "world"]);
    assert_eq!(
        conllx_hash_disjoin::sentence::fingerprint_sentence(&s, seed),
        hash_sentence("helloworld", seed)
    );
}

#[test]
fn dedup_structured_stream_by_extracted_text() {
    let mut engine = DedupEngine::new(5);
    let first = sentence(&["root", "hello"]);
    let same_but_root = sentence(&["ROOT", "hello"]);
    let other = sentence(&["root", "world"]);
    assert!(engine.process(first.extract_text().as_str()));
    assert!(!engine.process(same_but_root.extract_text().as_str()));
    assert!(engine.process(other.extract_text().as_str()));
    let report = engine.report();
    assert_eq!(report.total, 3);
    assert_eq!(report.unique, 2);
}
