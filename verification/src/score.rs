//! Scoring of a single dataset entry against a query.
//!
//! A similarity score is a double in `[0.0, 1.0]` produced by one of two
//! metrics of the `strsim` crate. The library never computes with the doubles
//! themselves: it carries each score as the bit pattern of the double, read as
//! a `u64`. For non-negative doubles the unsigned integer order of the bit
//! patterns agrees with the numeric order of the doubles, so `0` stands for
//! `0.0`, `BITS_ONE` stands for `1.0`, and comparing two scores as `u64`
//! compares the similarities.

use vstd::prelude::*;
use vstd::string::StrSliceExecFns;

verus! {

/// The bit pattern of the double `1.0`. Every similarity score lies in
/// `[0, BITS_ONE]`, which says that the double it encodes lies in `[0.0, 1.0]`.
pub const BITS_ONE: u64 = 0x3FF0_0000_0000_0000;

/// The bit pattern of `strsim::normalized_damerau_levenshtein(a, b)`: an
/// edit-distance similarity, a function of the two character sequences alone.
pub uninterp spec fn edit_sim(a: Seq<char>, b: Seq<char>) -> u64;

/// The bit pattern of `strsim::sorensen_dice(a, b)`: a character-bigram
/// overlap similarity, a function of the two character sequences alone.
pub uninterp spec fn bigram_sim(a: Seq<char>, b: Seq<char>) -> u64;

/// Relies on `strsim::normalized_damerau_levenshtein`: it returns
/// `1.0 - distance / max_len` (and `1.0` for two empty strings), a double in
/// `[0.0, 1.0]` that depends on the two strings alone and is `1.0` exactly
/// when the strings are equal.
#[verifier::external_body]
fn edit_similarity(a: &str, b: &str) -> (r: u64)
    ensures
        r == edit_sim(a@, b@),
        r <= BITS_ONE,
        (a@ == b@) ==> r == BITS_ONE,
{
    strsim::normalized_damerau_levenshtein(a, b).to_bits()
}

/// Relies on `strsim::sorensen_dice`: after removing whitespace from both
/// strings, it returns `1.0` if the filtered strings are equal (so for equal
/// inputs, two empty strings included), else twice the number of shared
/// character bigrams divided by the summed byte lengths of the filtered
/// strings less two — a double in `[0.0, 1.0]` that depends on the two
/// strings alone.
#[verifier::external_body]
fn bigram_similarity(a: &str, b: &str) -> (r: u64)
    ensures
        r == bigram_sim(a@, b@),
        r <= BITS_ONE,
        (a@ == b@) ==> r == BITS_ONE,
{
    strsim::sorensen_dice(a, b).to_bits()
}

/// The similarity of one text field `s` against the query `q`: queries of at
/// most one character use the edit-distance metric, longer queries the bigram
/// metric.
pub open spec fn query_sim(q: Seq<char>, s: Seq<char>) -> u64 {
    if q.len() <= 1 {
        edit_sim(s, q)
    } else {
        bigram_sim(s, q)
    }
}

/// The score of a dataset entry `(key, value)` against the query `q`: the
/// better of the two fields' similarities.
pub open spec fn entry_score(q: Seq<char>, key: Seq<char>, value: Seq<char>) -> u64 {
    if query_sim(q, key) >= query_sim(q, value) {
        query_sim(q, key)
    } else {
        query_sim(q, value)
    }
}

/// Metric selection is decided by the query's character count alone: at most
/// one character selects the edit-distance similarity, two or more the bigram
/// similarity. The boundary sits exactly between one and two characters.
pub proof fn lemma_metric_selection(q: Seq<char>, s: Seq<char>)
    ensures
        q.len() <= 1 ==> query_sim(q, s) == edit_sim(s, q),
        q.len() >= 2 ==> query_sim(q, s) == bigram_sim(s, q),
{
}

/// Scores one dataset entry against the query: the better of the key's and
/// the value's similarity, under the metric the query's character count
/// selects. The score encodes a double in `[0.0, 1.0]`, and an exact match on
/// either field scores `1.0`.
pub fn score_entry(query: &str, key: &str, value: &str) -> (score: u64)
    ensures
        score == entry_score(query@, key@, value@),
        score <= BITS_ONE,
        (key@ == query@ || value@ == query@) ==> score == BITS_ONE,
{
    let n = query.unicode_len();
    let sim_key: u64;
    let sim_value: u64;
    if n <= 1 {
        sim_key = edit_similarity(key, query);
        sim_value = edit_similarity(value, query);
    } else {
        sim_key = bigram_similarity(key, query);
        sim_value = bigram_similarity(value, query);
    }
    if sim_key >= sim_value {
        sim_key
    } else {
        sim_value
    }
}

} // verus!
