//! Fast edit distance computation using rapidfuzz's Myers bit-parallel algorithm.
//!
//! Provides O([K/64]×M) Levenshtein distance for char-level comparison.
//! Use [`crate::alignment::align`] when you need S/D/I breakdown or alignment traceback.

use vstd::prelude::*;
use crate::alignment::{edit_distance_of, lemma_lev_same_matches};

verus! {

/// `rapidfuzz::distance::levenshtein::distance` with its default weights
/// (insertion, deletion and substitution each cost 1): the Levenshtein
/// distance between the two id sequences.
#[verifier::external_body]
pub(crate) fn levenshtein_ids(s1: &[u64], s2: &[u64]) -> (d: usize)
    ensures
        d == edit_distance_of(s1@, s2@),
{
    rapidfuzz::distance::levenshtein::distance(s1.iter().copied(), s2.iter().copied())
}

/// The Unicode scalar value of `c`.
fn char_code(c: char) -> (r: u32)
    ensures
        r as int == c as int,
{
    c as u32
}

/// Compute Levenshtein distance between two char sequences using rapidfuzz.
///
/// Uses Myers bit-parallel algorithm for O([K/64]×M) complexity where K is
/// the edit distance and M is the shorter sequence length.
pub fn rapidfuzz_char_distance(s1: &[char], s2: &[char]) -> (d: usize)
    ensures
        d == edit_distance_of(s1@, s2@),
{
    let mut v1: Vec<u64> = Vec::with_capacity(s1.len());
    let mut k: usize = 0;
    while k < s1.len()
        invariant
            k <= s1@.len(),
            v1@.len() == k,
            forall|t: int| 0 <= t < k ==> v1@[t] as int == s1@[t] as int,
        decreases s1@.len() - k,
    {
        let c = s1[k];
        let code = char_code(c);
        v1.push(code as u64);
        k += 1;
    }
    let mut v2: Vec<u64> = Vec::with_capacity(s2.len());
    let mut k: usize = 0;
    while k < s2.len()
        invariant
            k <= s2@.len(),
            v2@.len() == k,
            forall|t: int| 0 <= t < k ==> v2@[t] as int == s2@[t] as int,
        decreases s2@.len() - k,
    {
        let c = s2[k];
        let code = char_code(c);
        v2.push(code as u64);
        k += 1;
    }
    proof {
        assert forall|x: int, y: int|
            0 <= x < s1@.len() && 0 <= y < s2@.len() implies (#[trigger] s1@[x] == #[trigger] s2@[y])
            == (v1@[x] == v2@[y]) by {
            if v1@[x] == v2@[y] {
                assert(s1@[x] as int == s2@[y] as int);
            }
        }
        lemma_lev_same_matches(s1@, s2@, v1@, v2@, s1@.len(), s2@.len());
    }
    levenshtein_ids(&v1, &v2)
}

} // verus!
