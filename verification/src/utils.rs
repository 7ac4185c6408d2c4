//! Text tidying and shuffling helpers: collapsing runs of spaces, replacing
//! them, and randomly permuting word lists.

use crate::text::{
    chars_of, contains_in, contains_seq, lemma_replace_len_lt, lower_of, lowercase, replace_in,
    spec_replace, string_of, trim_in, trim_spec,
};
use vstd::prelude::*;

verus! {

/// Two consecutive spaces, the pattern that [`trim_tabs`] collapses.
pub open spec fn double_space() -> Seq<char> {
    seq![' ', ' ']
}

/// A single space.
pub open spec fn single_space() -> Seq<char> {
    seq![' ']
}

/// The fixed point of collapsing each double space into a single one.
pub open spec fn collapse_spaces(s: Seq<char>) -> Seq<char>
    decreases s.len(),
        via collapse_spaces_decreases
{
    if contains_seq(s, double_space()) {
        collapse_spaces(spec_replace(s, double_space(), single_space()))
    } else {
        s
    }
}

#[via_fn]
proof fn collapse_spaces_decreases(s: Seq<char>) {
    if contains_seq(s, double_space()) {
        lemma_replace_len_lt(s, double_space(), single_space());
    }
}

/// What [`trim_tabs`] returns: runs of spaces collapsed, then white space
/// trimmed from both ends.
pub open spec fn spec_trim_tabs(s: Seq<char>) -> Seq<char> {
    trim_spec(collapse_spaces(s))
}

/// Collapses every run of spaces down to a single space and trims the
/// result.
pub fn trim_tabs_chars(source: &Vec<char>) -> (r: Vec<char>)
    ensures
        r@ == spec_trim_tabs(source@),
{
    let mut dbl: Vec<char> = Vec::new();
    dbl.push(' ');
    dbl.push(' ');
    let mut sgl: Vec<char> = Vec::new();
    sgl.push(' ');
    proof {
        assert(dbl@ =~= double_space());
        assert(sgl@ =~= single_space());
    }
    let mut cur = source.clone();
    while contains_in(&cur, &dbl)
        invariant
            dbl@ == double_space(),
            sgl@ == single_space(),
            collapse_spaces(cur@) == collapse_spaces(source@),
        decreases cur@.len(),
    {
        proof {
            lemma_replace_len_lt(cur@, double_space(), single_space());
        }
        cur = replace_in(&cur, &dbl, &sgl);
    }
    trim_in(&cur)
}

/// Collapses every run of spaces down to a single space and trims the
/// result.
pub fn trim_tabs(source: &str) -> (r: String)
    ensures
        r@ == spec_trim_tabs(source@),
{
    let cs = chars_of(source);
    let t = trim_tabs_chars(&cs);
    string_of(&t)
}

/// What [`replace_tabs`] returns: the tidied text, lowered, with each
/// remaining space replaced by the replacement text.
pub open spec fn spec_replace_tabs(s: Seq<char>, replacement: Seq<char>) -> Seq<char> {
    spec_replace(lower_of(spec_trim_tabs(s)), single_space(), replacement)
}

/// Tidies the text with [`trim_tabs`], lowers it, and replaces each space
/// with the given replacement.
pub fn replace_tabs(source: &str, replacement: &str) -> (r: String)
    ensures
        r@ == spec_replace_tabs(source@, replacement@),
{
    let trimmed = trim_tabs(source);
    let lowered = lowercase(trimmed.as_str());
    let cs = chars_of(lowered.as_str());
    let mut sgl: Vec<char> = Vec::new();
    sgl.push(' ');
    proof {
        assert(sgl@ =~= single_space());
    }
    let rep = chars_of(replacement);
    let replaced = replace_in(&cs, &sgl, &rep);
    string_of(&replaced)
}

/// Whether `p` is a permutation of the positions below `n`.
pub open spec fn is_position_permutation(p: Seq<int>, n: nat) -> bool {
    &&& p.len() == n
    &&& forall|i: int| 0 <= i < p.len() ==> 0 <= #[trigger] p[i] < n
    &&& forall|i: int, j: int| 0 <= i < j < p.len() ==> p[i] != p[j]
}

/// `s` reordered by reading its positions in the order `p` gives them.
pub open spec fn apply_permutation<T>(s: Seq<T>, p: Seq<int>) -> Seq<T> {
    Seq::new(p.len(), |i: int| s[p[i]])
}

/// Reading a sequence through a permutation of its positions keeps exactly
/// its elements: the reordered sequence holds the same values, as a
/// multiset.
pub proof fn lemma_permutation_preserves_multiset<T>(s: Seq<T>, p: Seq<int>)
    requires
        is_position_permutation(p, s.len()),
    ensures
        apply_permutation(s, p).to_multiset() == s.to_multiset(),
    decreases p.len(),
{
    broadcast use vstd::seq_lib::group_to_multiset_ensures;

    let n = p.len() as int;
    let ap = apply_permutation(s, p);
    if n == 0 {
        assert(ap =~= s);
    } else {
        let k = p.last();
        let pd = p.drop_last();
        let s2 = s.remove(k);
        let p2 = pd.map_values(|i: int| if i > k { i - 1 } else { i });
        assert forall|i: int, j: int| 0 <= i < j < p2.len() implies p2[i] != p2[j] by {
            assert(pd[i] == p[i] && pd[j] == p[j]);
            assert(p[i] != k && p[j] != k);
        }
        assert forall|i: int| 0 <= i < p2.len() implies 0 <= #[trigger] p2[i] < s2.len() by {
            assert(pd[i] == p[i]);
            assert(p[i] != k);
        }
        assert(is_position_permutation(p2, s2.len()));
        lemma_permutation_preserves_multiset(s2, p2);
        assert(apply_permutation(s2, p2) =~= ap.drop_last());
        assert(ap =~= ap.drop_last().push(s[k]));
        assert(ap.drop_last().push(s[k]).to_multiset() =~= ap.drop_last().to_multiset().insert(
            s[k],
        ));
        assert(s2.to_multiset() =~= s.to_multiset().remove(s[k]));
        assert(s.contains(s[k]));
        assert(s.to_multiset().count(s[k]) > 0);
        assert(s.to_multiset().remove(s[k]).insert(s[k]) =~= s.to_multiset());
    }
}

/// Relies on rand's SliceRandom::shuffle: the positions below `n` in an
/// order picked at random, so only the permutation property holds of every
/// outcome.
#[verifier::external_body]
pub fn random_in_range(n: usize) -> (r: Vec<usize>)
    ensures
        r@.len() == n,
        forall|i: int| 0 <= i < r@.len() ==> #[trigger] r@[i] < n,
        forall|i: int, j: int| 0 <= i < j < r@.len() ==> r@[i] != r@[j],
{
    let mut positions: Vec<usize> = (0..n).collect();
    rand::seq::SliceRandom::shuffle(&mut positions[..], &mut rand::rng());
    positions
}

/// Relies on rand's SliceRandom::shuffle: the cloned elements in an order
/// picked at random; nothing relates a generic clone to its original, so
/// only the length is promised.
#[verifier::external_body]
pub fn shuffle<T: Clone>(source: Box<Vec<T>>) -> (r: Vec<T>)
    ensures
        r@.len() == source@.len(),
{
    let mut shuffled: Vec<T> = source.iter().cloned().collect();
    rand::seq::SliceRandom::shuffle(&mut shuffled[..], &mut rand::rng());
    shuffled
}

/// A random reordering of the given descriptions: the result reads the
/// source's entries through some permutation of their positions.
pub fn shuffle_descriptions(source: &mut Vec<String>) -> (r: Vec<String>)
    ensures
        *final(source) == *old(source),
        r@.len() == old(source)@.len(),
        r@.to_multiset() == old(source)@.to_multiset(),
        exists|p: Seq<int>|
            is_position_permutation(p, old(source)@.len()) && r@ == apply_permutation(
                old(source)@,
                p,
            ),
{
    let n = source.len();
    let shuffled_idx = random_in_range(n);
    let ghost p = shuffled_idx@.map_values(|u: usize| u as int);
    let mut shuffled_descriptions: Vec<String> = Vec::new();
    let mut i: usize = 0;
    while i < shuffled_idx.len()
        invariant
            i <= shuffled_idx@.len(),
            shuffled_idx@.len() == n == source@.len(),
            forall|k: int| 0 <= k < shuffled_idx@.len() ==> #[trigger] shuffled_idx@[k] < n,
            p == shuffled_idx@.map_values(|u: usize| u as int),
            shuffled_descriptions@ == apply_permutation(source@, p.take(i as int)),
        decreases shuffled_idx@.len() - i,
    {
        let idx = shuffled_idx[i];
        shuffled_descriptions.push(source[idx].clone());
        proof {
            assert(shuffled_descriptions@ =~= apply_permutation(source@, p.take(i + 1)));
        }
        i = i + 1;
    }
    proof {
        assert(p.take(p.len() as int) =~= p);
        assert(is_position_permutation(p, source@.len()));
        lemma_permutation_preserves_multiset(source@, p);
    }
    shuffled_descriptions
}

} // verus!
