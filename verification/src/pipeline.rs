//! Whole-corpus runs of the two engines over records held in memory, the
//! mathematical statement of what each run outputs, and the laws the outputs
//! obey: membership is decided by fingerprints alone, output order is a
//! subsequence of input order, and disjoining a corpus against itself leaves
//! nothing.

use vstd::prelude::*;

use crate::engine::{DedupEngine, DisjoinEngine, Report};
use crate::fingerprint::{fingerprints_of, lemma_fingerprints_of_contains, xxh64_of};

verus! {

/// The texts of a sequence of records.
pub open spec fn views_of(records: Seq<String>) -> Seq<Seq<char>> {
    records.map_values(|s: String| s@)
}

/// What disjoin outputs: the keep records whose fingerprints are absent from
/// the remove set, in keep-stream order.
pub open spec fn disjoin_select(seed: u64, remove_fps: Set<u64>, keeps: Seq<Seq<char>>) -> Seq<
    Seq<char>,
>
    decreases keeps.len(),
{
    if keeps.len() == 0 {
        Seq::empty()
    } else {
        let rest = disjoin_select(seed, remove_fps, keeps.drop_last());
        if remove_fps.contains(xxh64_of(seed, keeps.last())) {
            rest
        } else {
            rest.push(keeps.last())
        }
    }
}

/// What dedup outputs: each record whose fingerprint no earlier record has,
/// in input order.
pub open spec fn dedup_select(seed: u64, recs: Seq<Seq<char>>) -> Seq<Seq<char>>
    decreases recs.len(),
{
    if recs.len() == 0 {
        Seq::empty()
    } else {
        let rest = dedup_select(seed, recs.drop_last());
        if fingerprints_of(seed, recs.drop_last()).contains(xxh64_of(seed, recs.last())) {
            rest
        } else {
            rest.push(recs.last())
        }
    }
}

/// Deduplicate a corpus of records: keep the first occurrence of each
/// fingerprint, in input order, and report total records and distinct
/// fingerprints.
pub fn dedup_records(records: &Vec<String>, seed: u64) -> (res: (Vec<String>, Report))
    ensures
        views_of(res.0@) == dedup_select(seed, views_of(records@)),
        res.1.total == records@.len(),
        res.1.unique == fingerprints_of(seed, views_of(records@)).len(),
{
    let mut engine = DedupEngine::new(seed);
    let mut out: Vec<String> = Vec::new();
    let mut i: usize = 0;
    while i < records.len()
        invariant
            i <= records@.len(),
            engine.inv(),
            engine.seed() == seed,
            engine.history() == views_of(records@).take(i as int),
            views_of(out@) == dedup_select(seed, engine.history()),
        decreases records@.len() - i,
    {
        proof {
            assert(views_of(records@)[i as int] == records@[i as int]@);
            assert(views_of(records@).take(i as int).push(views_of(records@)[i as int])
                =~= views_of(records@).take(i + 1));
        }
        let keep = engine.process(records[i].as_str());
        if keep {
            let ghost old_out = out@;
            out.push(records[i].clone());
            proof {
                assert(views_of(out@) =~= views_of(old_out).push(records@[i as int]@));
            }
        }
        proof {
            assert(engine.history().drop_last() =~= views_of(records@).take(i as int));
        }
        i = i + 1;
    }
    proof {
        assert(views_of(records@).take(records@.len() as int) =~= views_of(records@));
    }
    let report = engine.report();
    (out, report)
}

/// Disjoin one corpus against another: drain the remove records into a
/// fingerprint set, then keep, in order, each keep record whose fingerprint
/// is absent from that set.  Returns the output and one report per phase.
pub fn disjoin_records(remove: &Vec<String>, keep: &Vec<String>, seed: u64) -> (res: (
    Vec<String>,
    Report,
    Report,
))
    ensures
        views_of(res.0@) == disjoin_select(
            seed,
            fingerprints_of(seed, views_of(remove@)),
            views_of(keep@),
        ),
        res.1.total == remove@.len(),
        res.1.unique == fingerprints_of(seed, views_of(remove@)).len(),
        res.2.total == keep@.len(),
        res.2.unique == fingerprints_of(seed, views_of(keep@)).len(),
{
    let mut engine = DisjoinEngine::new(seed);
    let mut i: usize = 0;
    while i < remove.len()
        invariant
            i <= remove@.len(),
            engine.inv(),
            engine.seed() == seed,
            !engine.filtering(),
            engine.remove_history() == views_of(remove@).take(i as int),
            engine.keep_history() == Seq::<Seq<char>>::empty(),
        decreases remove@.len() - i,
    {
        proof {
            assert(views_of(remove@)[i as int] == remove@[i as int]@);
            assert(views_of(remove@).take(i as int).push(views_of(remove@)[i as int])
                =~= views_of(remove@).take(i + 1));
        }
        engine.push_remove(remove[i].as_str());
        i = i + 1;
    }
    proof {
        assert(views_of(remove@).take(remove@.len() as int) =~= views_of(remove@));
    }
    let remove_report = engine.finish_remove();

    let ghost remove_fps = fingerprints_of(seed, views_of(remove@));
    let mut out: Vec<String> = Vec::new();
    let mut j: usize = 0;
    while j < keep.len()
        invariant
            j <= keep@.len(),
            engine.inv(),
            engine.seed() == seed,
            engine.filtering(),
            engine.remove_history() == views_of(remove@),
            engine.keep_history() == views_of(keep@).take(j as int),
            views_of(out@) == disjoin_select(seed, remove_fps, engine.keep_history()),
            remove_fps == fingerprints_of(seed, views_of(remove@)),
        decreases keep@.len() - j,
    {
        proof {
            assert(views_of(keep@)[j as int] == keep@[j as int]@);
            assert(views_of(keep@).take(j as int).push(views_of(keep@)[j as int])
                =~= views_of(keep@).take(j + 1));
        }
        let kept = engine.push_keep(keep[j].as_str());
        if kept {
            let ghost old_out = out@;
            out.push(keep[j].clone());
            proof {
                assert(views_of(out@) =~= views_of(old_out).push(keep@[j as int]@));
            }
        }
        proof {
            assert(engine.keep_history().drop_last() =~= views_of(keep@).take(j as int));
        }
        j = j + 1;
    }
    proof {
        assert(views_of(keep@).take(keep@.len() as int) =~= views_of(keep@));
    }
    let keep_report = engine.keep_report();
    (out, remove_report, keep_report)
}

/// One sequence is an in-order selection of another: matching elements from
/// the back, every element of `sub` occurs in `sup`, in the same order.
pub open spec fn is_subsequence_of<A>(sub: Seq<A>, sup: Seq<A>) -> bool
    decreases sup.len(),
{
    if sub.len() == 0 {
        true
    } else if sup.len() == 0 {
        false
    } else if sub.last() == sup.last() {
        is_subsequence_of(sub.drop_last(), sup.drop_last())
    } else {
        is_subsequence_of(sub, sup.drop_last())
    }
}

/// A subsequence of a sequence is one of that sequence extended by an
/// element.
pub proof fn lemma_subsequence_extend_sup<A>(sub: Seq<A>, sup: Seq<A>, x: A)
    requires
        is_subsequence_of(sub, sup),
    ensures
        is_subsequence_of(sub, sup.push(x)),
    decreases sub.len() + sup.len(), 1int,
{
    assert(sup.push(x).drop_last() =~= sup);
    if sub.len() == 0 {
    } else if sub.last() == x {
        lemma_subsequence_drop_sub(sub, sup);
    } else {
    }
}

/// Dropping the last element of a subsequence leaves a subsequence.
pub proof fn lemma_subsequence_drop_sub<A>(sub: Seq<A>, sup: Seq<A>)
    requires
        is_subsequence_of(sub, sup),
        sub.len() > 0,
    ensures
        is_subsequence_of(sub.drop_last(), sup),
    decreases sub.len() + sup.len(), 0int,
{
    assert(sup.len() > 0);
    assert(sup.drop_last().push(sup.last()) =~= sup);
    if sub.last() == sup.last() {
        if sub.drop_last().len() > 0 {
            lemma_subsequence_extend_sup(sub.drop_last(), sup.drop_last(), sup.last());
        }
    } else {
        lemma_subsequence_drop_sub(sub, sup.drop_last());
        lemma_subsequence_extend_sup(sub.drop_last(), sup.drop_last(), sup.last());
    }
}

/// Disjoin order preservation: whatever the remove set holds, the output is
/// a subsequence of the keep stream.
pub proof fn lemma_disjoin_subsequence(seed: u64, remove_fps: Set<u64>, keeps: Seq<Seq<char>>)
    ensures
        is_subsequence_of(disjoin_select(seed, remove_fps, keeps), keeps),
    decreases keeps.len(),
{
    if keeps.len() == 0 {
    } else {
        let prefix = keeps.drop_last();
        let rest = disjoin_select(seed, remove_fps, prefix);
        lemma_disjoin_subsequence(seed, remove_fps, prefix);
        assert(prefix.push(keeps.last()) =~= keeps);
        if remove_fps.contains(xxh64_of(seed, keeps.last())) {
            lemma_subsequence_extend_sup(rest, prefix, keeps.last());
        } else {
            assert(rest.push(keeps.last()).drop_last() =~= rest);
        }
    }
}

/// Dedup order preservation: the output is a subsequence of the input
/// stream.
pub proof fn lemma_dedup_subsequence(seed: u64, recs: Seq<Seq<char>>)
    ensures
        is_subsequence_of(dedup_select(seed, recs), recs),
    decreases recs.len(),
{
    if recs.len() == 0 {
    } else {
        let prefix = recs.drop_last();
        let rest = dedup_select(seed, prefix);
        lemma_dedup_subsequence(seed, prefix);
        assert(prefix.push(recs.last()) =~= recs);
        if fingerprints_of(seed, prefix).contains(xxh64_of(seed, recs.last())) {
            lemma_subsequence_extend_sup(rest, prefix, recs.last());
        } else {
            assert(rest.push(recs.last()).drop_last() =~= rest);
        }
    }
}

/// Disjoin correctness: a record appears in the output exactly when the keep
/// stream holds it and its fingerprint is absent from the remove set.
pub proof fn lemma_disjoin_membership(
    seed: u64,
    remove_fps: Set<u64>,
    keeps: Seq<Seq<char>>,
    r: Seq<char>,
)
    ensures
        disjoin_select(seed, remove_fps, keeps).contains(r) <==> (keeps.contains(r)
            && !remove_fps.contains(xxh64_of(seed, r))),
    decreases keeps.len(),
{
    if keeps.len() == 0 {
    } else {
        let prefix = keeps.drop_last();
        let rest = disjoin_select(seed, remove_fps, prefix);
        let out = disjoin_select(seed, remove_fps, keeps);
        lemma_disjoin_membership(seed, remove_fps, prefix, r);
        if out.contains(r) {
            let i = choose|i: int| 0 <= i < out.len() && out[i] == r;
            if remove_fps.contains(xxh64_of(seed, keeps.last())) || i < rest.len() {
                assert(rest[i] == r);
                assert(rest.contains(r));
                let k = choose|k: int| 0 <= k < prefix.len() && prefix[k] == r;
                assert(keeps[k] == r);
            } else {
                assert(r == keeps.last());
                assert(keeps[keeps.len() - 1] == r);
            }
        }
        if keeps.contains(r) && !remove_fps.contains(xxh64_of(seed, r)) {
            let i = choose|i: int| 0 <= i < keeps.len() && keeps[i] == r;
            if i < keeps.len() - 1 {
                assert(prefix[i] == r);
                assert(prefix.contains(r));
                let k = choose|k: int| 0 <= k < rest.len() && rest[k] == r;
                assert(out[k] == r);
            } else {
                assert(r == keeps.last());
                assert(out[out.len() - 1] == r);
            }
        }
    }
}

/// Every keep record whose fingerprint lies in the remove set is filtered
/// out; if that covers the whole keep stream, nothing is output.
pub proof fn lemma_disjoin_covered_empty(seed: u64, remove_fps: Set<u64>, keeps: Seq<Seq<char>>)
    requires
        forall|i: int| 0 <= i < keeps.len() ==> remove_fps.contains(
            xxh64_of(seed, #[trigger] keeps[i]),
        ),
    ensures
        disjoin_select(seed, remove_fps, keeps) == Seq::<Seq<char>>::empty(),
    decreases keeps.len(),
{
    if keeps.len() == 0 {
    } else {
        let prefix = keeps.drop_last();
        assert(forall|i: int|
            0 <= i < prefix.len() ==> #[trigger] prefix[i] == keeps[i]);
        lemma_disjoin_covered_empty(seed, remove_fps, prefix);
        assert(keeps[keeps.len() - 1] == keeps.last());
    }
}

/// Disjoin idempotence under repetition: with the remove stream equal to the
/// keep stream, the output is empty.
pub proof fn lemma_disjoin_self_empty(seed: u64, recs: Seq<Seq<char>>)
    ensures
        disjoin_select(seed, fingerprints_of(seed, recs), recs) == Seq::<Seq<char>>::empty(),
{
    assert forall|i: int| 0 <= i < recs.len() implies fingerprints_of(seed, recs).contains(
        xxh64_of(seed, #[trigger] recs[i]),
    ) by {
        lemma_fingerprints_of_contains(seed, recs, xxh64_of(seed, recs[i]));
    }
    lemma_disjoin_covered_empty(seed, fingerprints_of(seed, recs), recs);
}

} // verus!
