//! The fingerprinter: a record's text is mapped to a 64-bit digest under a
//! per-run hash seed.  Within one run the digest is a pure function of the
//! seed and the text, so equal text always fingerprints equally; digests are
//! not comparable across runs with different seeds.

use vstd::prelude::*;

verus! {

/// The xxHash64 digest of a text's bytes under a seed.  The digest is left
/// uninterpreted: the library states only that it is a pure function of the
/// seed and the text.
pub uninterp spec fn xxh64_of(seed: u64, text: Seq<char>) -> u64;

/// Relies on `twox_hash::XxHash64` (`with_seed`, `Hasher::write`,
/// `Hasher::finish`): the xxHash64 digest of the text's UTF-8 bytes, a pure
/// function of the seed and the text alone.
#[verifier::external_body]
fn xxh64_str(seed: u64, text: &str) -> (fp: u64)
    ensures
        fp == xxh64_of(seed, text@),
{
    let mut hasher = twox_hash::XxHash64::with_seed(seed);
    std::hash::Hasher::write(&mut hasher, text.as_bytes());
    std::hash::Hasher::finish(&hasher)
}

/// Fingerprint one record of text under the run's seed.
pub fn hash_sentence(sentence: &str, seed: u64) -> (fp: u64)
    ensures
        fp == xxh64_of(seed, sentence@),
{
    xxh64_str(seed, sentence)
}

/// The set of fingerprints of a sequence of records under one seed.
pub open spec fn fingerprints_of(seed: u64, recs: Seq<Seq<char>>) -> Set<u64>
    decreases recs.len(),
{
    if recs.len() == 0 {
        Set::empty()
    } else {
        fingerprints_of(seed, recs.drop_last()).insert(xxh64_of(seed, recs.last()))
    }
}

/// A fingerprint lies in the fingerprint set of a record sequence exactly
/// when some record of the sequence has that fingerprint.
pub proof fn lemma_fingerprints_of_contains(seed: u64, recs: Seq<Seq<char>>, f: u64)
    ensures
        fingerprints_of(seed, recs).contains(f) <==> exists|i: int|
            0 <= i < recs.len() && xxh64_of(seed, #[trigger] recs[i]) == f,
    decreases recs.len(),
{
    if recs.len() == 0 {
    } else {
        let prefix = recs.drop_last();
        lemma_fingerprints_of_contains(seed, prefix, f);
        assert(recs[recs.len() - 1] == recs.last());
        if fingerprints_of(seed, recs).contains(f) && f != xxh64_of(seed, recs.last()) {
            let i = choose|i: int| 0 <= i < prefix.len() && xxh64_of(seed, #[trigger] prefix[i]) == f;
            assert(recs[i] == prefix[i]);
        }
        if exists|i: int| 0 <= i < recs.len() && xxh64_of(seed, #[trigger] recs[i]) == f {
            let i = choose|i: int| 0 <= i < recs.len() && xxh64_of(seed, #[trigger] recs[i]) == f;
            if i < recs.len() - 1 {
                assert(prefix[i] == recs[i]);
                assert(fingerprints_of(seed, prefix).contains(f));
            }
        }
    }
}

/// Determinism within a run: under a fixed seed, fingerprinting the same
/// text twice gives the same value.
pub proof fn lemma_fingerprint_deterministic(seed: u64, a: Seq<char>, b: Seq<char>)
    requires
        a == b,
    ensures
        xxh64_of(seed, a) == xxh64_of(seed, b),
{
}

} // verus!
