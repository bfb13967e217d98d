//! Structured records: a sentence is an ordered sequence of tokens, each
//! carrying a textual form.  By convention the token at index 0 is a
//! synthetic root and is excluded from fingerprinting.  The fingerprinted
//! text is the concatenation of the remaining forms in token order, with no
//! separator (so `["ab", "c"]` and `["a", "bc"]` yield the same text; this is
//! inherited, documented behaviour, not corrected here).

use vstd::prelude::*;
use vstd::string::StringExecFns;

use crate::fingerprint::{hash_sentence, xxh64_of};

verus! {

/// A structured sentence, reduced to what fingerprinting reads: the form of
/// each token, in token order, with the synthetic root at index 0.
#[derive(Clone, Debug)]
pub struct Sentence {
    pub forms: Vec<String>,
}

/// The concatenation of a sequence of texts, in order, with no separator.
pub open spec fn concat_texts(texts: Seq<Seq<char>>) -> Seq<char>
    decreases texts.len(),
{
    if texts.len() == 0 {
        Seq::empty()
    } else {
        concat_texts(texts.drop_last()) + texts.last()
    }
}

/// The forms of a sentence, as sequences of characters.
pub open spec fn form_views(s: Sentence) -> Seq<Seq<char>> {
    s.forms@.map_values(|f: String| f@)
}

/// The text a sentence is fingerprinted over: every form but the root's,
/// concatenated in token order.
pub open spec fn sentence_key(s: Sentence) -> Seq<char> {
    if form_views(s).len() <= 1 {
        Seq::empty()
    } else {
        concat_texts(form_views(s).subrange(1, form_views(s).len() as int))
    }
}

impl Sentence {
    /// Extract the text to fingerprint: the forms of all tokens at index 1
    /// and above, concatenated in order.
    pub fn extract_text(&self) -> (text: String)
        ensures
            text@ == sentence_key(*self),
    {
        let mut text = String::new();
        let n = self.forms.len();
        if n <= 1 {
            return text;
        }
        let mut i: usize = 1;
        while i < n
            invariant
                1 <= i <= n,
                n == self.forms@.len(),
                text@ == concat_texts(form_views(*self).subrange(1, i as int)),
            decreases n - i,
        {
            text.append(self.forms[i].as_str());
            i = i + 1;
            proof {
                let fv = form_views(*self);
                assert(fv.subrange(1, i as int).drop_last() =~= fv.subrange(1, i - 1));
                assert(fv.subrange(1, i as int).last() == fv[i - 1]);
            }
        }
        proof {
            assert(form_views(*self).len() == n);
        }
        text
    }
}

/// Fingerprint a structured sentence under the run's seed: the digest of its
/// root-excluded concatenated form text.
pub fn fingerprint_sentence(sentence: &Sentence, seed: u64) -> (fp: u64)
    ensures
        fp == xxh64_of(seed, sentence_key(*sentence)),
{
    let text = sentence.extract_text();
    hash_sentence(text.as_str(), seed)
}

/// Root exclusion: two sentences of equal length whose forms agree at every
/// index but 0 have the same fingerprinted text, and so the same fingerprint
/// under any seed.
pub proof fn lemma_root_excluded(a: Sentence, b: Sentence)
    requires
        a.forms@.len() == b.forms@.len(),
        forall|i: int| 1 <= i < a.forms@.len() ==> #[trigger] a.forms@[i]@ == b.forms@[i]@,
    ensures
        sentence_key(a) == sentence_key(b),
{
    if form_views(a).len() > 1 {
        let n = form_views(a).len() as int;
        assert(form_views(a).subrange(1, n) =~= form_views(b).subrange(1, n));
    }
}

} // verus!
