//! Compiling patterns with the `regex` crate, and asking which words every
//! pattern matches.

use crate::pattern::texts;
use regex::RegexSet;
use vstd::prelude::*;

verus! {

/// A compiled set of regular expressions of the `regex` crate.
#[verifier::external_type_specification]
#[verifier::external_body]
pub struct ExRegexSet(regex::RegexSet);

/// The patterns that a set was compiled from, in their order:
/// `RegexSet::patterns`.
pub uninterp spec fn set_patterns(set: RegexSet) -> Seq<Seq<char>>;

/// The positions, among the patterns of a set, of those that match
/// somewhere in a haystack: `RegexSet::matches`.
pub uninterp spec fn set_matches(set: RegexSet, haystack: Seq<char>) -> Set<int>;

/// Whether `RegexSet::new` accepts these patterns: each is a regular
/// expression in the crate's syntax, and together they stay within its
/// default size limits.
pub uninterp spec fn compiles(patterns: Seq<Seq<char>>) -> bool;

/// The most patterns that one set can hold: the `regex` crate numbers the
/// patterns of a set with identifiers that go no further.
pub const MAX_PATTERNS: usize = 0x7FFF_FFFF;

/// The position `k` is in `found`.
pub open spec fn names(found: Seq<usize>, k: int) -> bool {
    exists|i: int| 0 <= i < found.len() && found[i] == k
}

/// Compiles patterns with `RegexSet::new`. Whether it succeeds depends on
/// the patterns alone; a set that comes back holds exactly those patterns,
/// in the order given. Of more than `MAX_PATTERNS` patterns the crate makes
/// no error: it stops at an assertion when it numbers them, so such a list
/// is kept out.
#[verifier::external_body]
pub(crate) fn compile(patterns: &Vec<String>) -> (r: Result<RegexSet, regex::Error>)
    requires
        patterns@.len() <= MAX_PATTERNS,
    ensures
        r is Ok <==> compiles(texts(patterns@)),
        r matches Ok(set) ==> set_patterns(set) == texts(patterns@),
{
    RegexSet::new(patterns)
}

/// The number of patterns in a set, from `RegexSet::len`.
#[verifier::external_body]
pub(crate) fn pattern_count(set: &RegexSet) -> (count: usize)
    ensures
        count == set_patterns(*set).len(),
{
    set.len()
}

/// The positions of the patterns that match `haystack`, from
/// `RegexSet::matches`: each is the position of a pattern of the set, and
/// they come in increasing order.
#[verifier::external_body]
pub(crate) fn matched_indices(set: &RegexSet, haystack: &str) -> (found: Vec<usize>)
    ensures
        forall|i: int, j: int| 0 <= i < j < found@.len() ==> found@[i] < found@[j],
        forall|i: int| 0 <= i < found@.len() ==> found@[i] < set_patterns(*set).len(),
        forall|k: int| set_matches(*set, haystack@).contains(k) <==> names(found@, k),
{
    set.matches(haystack).into_iter().collect()
}

/// Whether one set can hold `count` patterns.
pub fn fits_one_set(count: usize) -> (yes: bool)
    ensures
        yes == (count <= MAX_PATTERNS),
{
    count <= MAX_PATTERNS
}

/// Every one of `count` patterns is among the matched.
pub open spec fn all_match(count: nat, matched: Set<int>) -> bool {
    forall|k: int| 0 <= k < count ==> matched.contains(k)
}

/// A word is still possible when every pattern of the set matches it.
pub open spec fn survivor(set: RegexSet, word: Seq<char>) -> bool {
    all_match(set_patterns(set).len(), set_matches(set, word))
}

/// The positions in `found` increase and are positions of `count` patterns.
pub open spec fn ascending_below(found: Seq<usize>, count: nat) -> bool {
    &&& forall|i: int, j: int| 0 <= i < j < found.len() ==> found[i] < found[j]
    &&& forall|i: int| 0 <= i < found.len() ==> found[i] < count
}

/// `found` names every position below `count`.
pub open spec fn names_all(found: Seq<usize>, count: nat) -> bool {
    forall|k: int| 0 <= k < count ==> #[trigger] names(found, k)
}

/// In an increasing sequence of positions, the one at `i` is at least `i`.
proof fn lemma_at_least_index(found: Seq<usize>, count: nat, i: int)
    requires
        ascending_below(found, count),
        0 <= i < found.len(),
    ensures
        found[i] >= i,
    decreases i,
{
    if i > 0 {
        lemma_at_least_index(found, count, i - 1);
    }
}

/// In an increasing sequence of positions below `count`, the one at `i`
/// leaves room for those after it.
proof fn lemma_leaves_room(found: Seq<usize>, count: nat, i: int)
    requires
        ascending_below(found, count),
        0 <= i < found.len(),
    ensures
        found[i] + (found.len() - i) <= count,
    decreases found.len() - i,
{
    if i + 1 < found.len() {
        lemma_leaves_room(found, count, i + 1);
    }
}

/// A sequence that names every position below `count` starts with the
/// positions below `n`, each at its own place.
proof fn lemma_starts_in_order(found: Seq<usize>, count: nat, n: nat)
    requires
        ascending_below(found, count),
        names_all(found, count),
        n <= count,
    ensures
        found.len() >= n,
        forall|j: int| 0 <= j < n ==> found[j] == j,
    decreases n,
{
    if n > 0 {
        let k = (n - 1) as int;
        lemma_starts_in_order(found, count, k as nat);
        assert(names(found, k));
        let p = choose|p: int| 0 <= p < found.len() && found[p] == k;
        if p < k {
            assert(found[p] == p);
        }
        assert(p >= k);
        lemma_at_least_index(found, count, k);
        assert(found[k] == k);
    }
}

/// Among increasing positions below `count`, all are there exactly when
/// there are `count` of them.
pub proof fn lemma_count_decides(found: Seq<usize>, count: nat)
    requires
        ascending_below(found, count),
    ensures
        (found.len() == count) <==> names_all(found, count),
{
    if found.len() == count {
        assert forall|k: int| 0 <= k < count implies names(found, k) by {
            lemma_at_least_index(found, count, k);
            lemma_leaves_room(found, count, k);
            assert(found[k] == k);
        }
    }
    if names_all(found, count) {
        lemma_starts_in_order(found, count, count);
        if found.len() > 0 {
            lemma_at_least_index(found, count, found.len() - 1);
        }
    }
}

/// Whether every pattern matched, given how many patterns there are and
/// which of them matched: the two counts are equal.
pub fn all_matched(count: usize, found: &Vec<usize>) -> (yes: bool)
    ensures
        yes == (found@.len() == count),
        ascending_below(found@, count as nat) ==> (yes <==> names_all(found@, count as nat)),
{
    proof {
        if ascending_below(found@, count as nat) {
            lemma_count_decides(found@, count as nat);
        }
    }
    found.len() == count
}

/// Whether every pattern of the set matches `word`.
pub fn survives(set: &RegexSet, word: &str) -> (yes: bool)
    ensures
        yes == survivor(*set, word@),
{
    let found = matched_indices(set, word);
    let count = pattern_count(set);
    let yes = all_matched(count, &found);
    proof {
        let matched = set_matches(*set, word@);
        if yes {
            assert forall|k: int| 0 <= k < count implies matched.contains(k) by {
                assert(names(found@, k));
            }
        }
        if all_match(count as nat, matched) {
            assert forall|k: int| 0 <= k < count implies names(found@, k) by {
                assert(matched.contains(k));
            }
        }
    }
    yes
}

/// The words that every pattern of the set matches, in the order in which
/// they stand in `words`.
pub fn survivors(set: &RegexSet, words: &Vec<String>) -> (out: Vec<String>)
    ensures
        texts(out@) == texts(words@).filter(|word: Seq<char>| survivor(*set, word)),
{
    let ghost all = texts(words@);
    let ghost keep = |word: Seq<char>| survivor(*set, word);
    let mut out: Vec<String> = Vec::new();
    let mut i: usize = 0;
    proof {
        reveal(Seq::filter);
        assert(all.take(0).filter(keep) == Seq::<Seq<char>>::empty());
    }
    while i < words.len()
        invariant
            i <= words.len(),
            all == texts(words@),
            keep == |word: Seq<char>| survivor(*set, word),
            texts(out@) == all.take(i as int).filter(keep),
        decreases words.len() - i,
    {
        let ghost before = texts(out@);
        if survives(set, words[i].as_str()) {
            out.push(words[i].clone());
            assert(texts(out@) == before.push(words@[i as int]@));
        }
        i += 1;
        proof {
            reveal(Seq::filter);
            let now = all.take(i as int);
            assert(now.drop_last() == all.take(i - 1));
            assert(now.last() == words@[i - 1]@);
        }
    }
    assert(all.take(words.len() as int) == all);
    out
}

} // verus!
