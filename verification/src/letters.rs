//! Sets of letters. A set is kept as an ordered set of code points, so that
//! walking it gives the letters in increasing order.

use std::collections::BTreeSet;
use vstd::prelude::*;
use vstd::std_specs::cmp::OrdSpec;
use vstd::std_specs::iter::IteratorSpec;

verus! {

/// Whether a number is the code point of some `char`.
pub open spec fn is_char_code(code: u32) -> bool {
    code <= 0xD7FF || (0xE000 <= code && code <= 0x10FFFF)
}

/// The letters whose code points are in `codes`.
pub open spec fn letters(codes: Set<u32>) -> Set<char> {
    Set::new(|c: char| codes.contains(c as u32))
}

/// The code points strictly increase along the sequence.
pub open spec fn ascends(s: Seq<char>) -> bool {
    forall|i: int, j: int| 0 <= i < j < s.len() ==> (s[i] as u32) < (s[j] as u32)
}

/// `s` lists the letters of `set`, each once, in increasing order.
pub open spec fn lists(s: Seq<char>, set: Set<char>) -> bool {
    &&& ascends(s)
    &&& forall|c: char| s.contains(c) <==> set.contains(c)
}

/// The letters of a set in increasing order: the one sequence that lists
/// the set.
pub open spec fn sorted(set: Set<char>) -> Seq<char> {
    choose|s: Seq<char>| lists(s, set)
}

/// A listing without its last letter lists the set without that letter.
proof fn lemma_drop_last_lists(s: Seq<char>, set: Set<char>)
    requires
        lists(s, set),
        s.len() > 0,
    ensures
        lists(s.drop_last(), set.remove(s.last())),
{
    let front = s.drop_last();
    let rest = set.remove(s.last());
    assert forall|c: char| front.contains(c) <==> rest.contains(c) by {
        if front.contains(c) {
            let i = choose|i: int| 0 <= i < front.len() && front[i] == c;
            assert(s[i] == c);
            assert(s.contains(c));
        }
        if rest.contains(c) {
            assert(s.contains(c));
            let i = choose|i: int| 0 <= i < s.len() && s[i] == c;
            assert(front[i] == c);
        }
    }
}

/// A set has at most one increasing listing.
pub proof fn lemma_listing_unique(a: Seq<char>, b: Seq<char>, set: Set<char>)
    requires
        lists(a, set),
        lists(b, set),
    ensures
        a == b,
    decreases a.len(),
{
    if a.len() == 0 {
        if b.len() > 0 {
            assert(b.contains(b[0]));
            assert(a.contains(b[0]));
        }
        assert(a =~= b);
    } else {
        assert(a.contains(a.last()));
        assert(b.contains(a.last()));
        assert(b.contains(b.last()));
        assert(a.contains(b.last()));
        assert(a.last() == b.last());
        lemma_drop_last_lists(a, set);
        lemma_drop_last_lists(b, set);
        lemma_listing_unique(a.drop_last(), b.drop_last(), set.remove(a.last()));
        assert(a =~= a.drop_last().push(a.last()));
        assert(b =~= b.drop_last().push(b.last()));
    }
}

/// The letters of `set` whose code point is below `bound`, in increasing
/// order.
spec fn listing_below(set: Set<char>, bound: nat) -> Seq<char>
    decreases bound,
{
    if bound == 0 {
        Seq::empty()
    } else {
        let code = (bound - 1) as u32;
        let before = listing_below(set, (bound - 1) as nat);
        if is_char_code(code) && set.contains(code as char) {
            before.push(code as char)
        } else {
            before
        }
    }
}

proof fn lemma_listing_below(set: Set<char>, bound: nat)
    requires
        bound <= 0x110000,
    ensures
        ascends(listing_below(set, bound)),
        forall|i: int|
            0 <= i < listing_below(set, bound).len() ==> ((#[trigger] listing_below(
                set,
                bound,
            )[i]) as u32) < bound,
        forall|c: char|
            listing_below(set, bound).contains(c) <==> (set.contains(c) && (c as u32) < bound),
    decreases bound,
{
    if bound > 0 {
        let code = (bound - 1) as u32;
        let before = listing_below(set, (bound - 1) as nat);
        let now = listing_below(set, bound);
        lemma_listing_below(set, (bound - 1) as nat);
        assert forall|c: char| now.contains(c) <==> (set.contains(c) && (c as u32) < bound) by {
            lemma_char_code(c);
            if now.contains(c) {
                let i = choose|i: int| 0 <= i < now.len() && now[i] == c;
                if i < before.len() {
                    assert(before[i] == c);
                    assert(before.contains(c));
                }
            }
            if set.contains(c) && (c as u32) < bound {
                if c as u32 == code {
                    assert(now[now.len() - 1] == c);
                } else {
                    assert(before.contains(c));
                    let i = choose|i: int| 0 <= i < before.len() && before[i] == c;
                    assert(now[i] == c);
                }
            }
        }
    }
}

/// Every set of letters has an increasing listing, and `sorted` is it.
pub proof fn lemma_sorted_lists(set: Set<char>)
    ensures
        lists(sorted(set), set),
{
    lemma_listing_below(set, 0x110000);
    let all = listing_below(set, 0x110000);
    assert forall|c: char| all.contains(c) <==> set.contains(c) by {
        lemma_char_code(c);
    }
    assert(lists(all, set));
}

/// An increasing listing of a set is its sorted form.
pub proof fn lemma_sorted_is(s: Seq<char>, set: Set<char>)
    requires
        lists(s, set),
    ensures
        sorted(set) == s,
{
    lemma_listing_unique(sorted(set), s, set);
}

/// Every `char` has a code point, and is the `char` of that code point.
pub proof fn lemma_char_code(c: char)
    ensures
        is_char_code(c as u32),
        (c as u32) as char == c,
{
}

/// `a` comes before `b` in the order of `Ord`.
spec fn precedes<K: Ord>(a: K, b: K) -> bool {
    a.cmp_spec(&b) is Less
}

/// Whether `code` is in the set.
pub fn holds(set: &BTreeSet<u32>, code: u32) -> (found: bool)
    ensures
        found == set@.contains(code),
{
    broadcast use vstd::std_specs::btree::group_btree_axioms;
    broadcast use vstd::laws_cmp::group_laws_cmp;

    set.contains(&code)
}

/// Adds `code` to the set.
pub fn put(set: &mut BTreeSet<u32>, code: u32)
    ensures
        final(set)@ == old(set)@.insert(code),
{
    broadcast use vstd::std_specs::btree::group_btree_axioms;
    broadcast use vstd::laws_cmp::group_laws_cmp;

    set.insert(code);
}

/// The code points of the set in increasing order.
pub fn ascending_codes(set: &BTreeSet<u32>) -> (codes: Vec<u32>)
    ensures
        forall|i: int, j: int| 0 <= i < j < codes@.len() ==> codes@[i] < codes@[j],
        forall|code: u32| codes@.contains(code) <==> set@.contains(code),
{
    broadcast use vstd::std_specs::btree::group_btree_axioms;
    broadcast use vstd::laws_cmp::group_laws_cmp;
    broadcast use vstd::laws_cmp::lemma_ref_obeys_cmp_spec;

    let mut codes: Vec<u32> = Vec::new();
    for code in walk: set.iter()
        invariant
            codes@.len() == walk.index(),
            forall|k: int| 0 <= k < codes@.len() ==> codes@[k] == *walk.seq()[k],
            walk.seq() == vstd::std_specs::btree::spec_btree_keys_iter(set).remaining(),
    {
        codes.push(*code);
    }
    proof {
        let keys = vstd::std_specs::btree::spec_btree_keys_iter(set).remaining();
        assert(codes@ =~= keys.unref());
        vstd::std_specs::btree::axiom_increasing_seq_meaning::<&u32>(keys);
        assert forall|i: int, j: int| 0 <= i < j < codes@.len() implies codes@[i] < codes@[j] by {
            assert(precedes(keys[i], keys[j]));
        }
        assert forall|code: u32| codes@.contains(code) <==> set@.contains(code) by {
            assert(codes@.to_set().contains(code) == codes@.contains(code));
        }
    }
    codes
}

/// The character with a given code point, from `char::from_u32`: `None` for
/// a surrogate and for a number above `0x10FFFF`, which are the numbers that
/// are no code point of a `char`.
#[verifier::external_body]
pub(crate) fn char_from_code(code: u32) -> (c: Option<char>)
    ensures
        c == (if is_char_code(code) {
            Some(code as char)
        } else {
            None
        }),
{
    char::from_u32(code)
}

/// The letters that are in `excluded` and not in `possible`, in increasing
/// order.
pub fn sorted_difference(excluded: &BTreeSet<u32>, possible: &BTreeSet<u32>) -> (out: Vec<char>)
    ensures
        lists(out@, letters(excluded@).difference(letters(possible@))),
        out@ == sorted(letters(excluded@).difference(letters(possible@))),
{
    let codes = ascending_codes(excluded);
    let mut out: Vec<char> = Vec::new();
    let mut i: usize = 0;
    while i < codes.len()
        invariant
            i <= codes.len(),
            forall|a: int, b: int| 0 <= a < b < codes@.len() ==> codes@[a] < codes@[b],
            ascends(out@),
            forall|m: int, k: int|
                0 <= m < out@.len() && i <= k < codes@.len() ==> (out@[m] as u32) < codes@[k],
            forall|c: char|
                out@.contains(c) <==> (codes@.take(i as int).contains(c as u32)
                    && !possible@.contains(c as u32)),
        decreases codes.len() - i,
    {
        let code = codes[i];
        let ghost before = out@;
        let ghost seen = codes@.take(i as int);
        if !holds(possible, code) {
            match char_from_code(code) {
                Some(c) => {
                    out.push(c);
                },
                None => {},
            }
        }
        i += 1;
        proof {
            let now = codes@.take(i as int);
            assert(now =~= seen.push(code));
            assert forall|c: char|
                out@.contains(c) <==> (now.contains(c as u32) && !possible@.contains(
                    c as u32,
                )) by {
                if out@.contains(c) {
                    let m = choose|m: int| 0 <= m < out@.len() && out@[m] == c;
                    if m < before.len() {
                        assert(before[m] == c);
                        assert(before.contains(c));
                        let k = choose|k: int| 0 <= k < seen.len() && seen[k] == c as u32;
                        assert(now[k] == c as u32);
                    } else {
                        assert(now[i - 1] == c as u32);
                    }
                }
                if now.contains(c as u32) && !possible@.contains(c as u32) {
                    let k = choose|k: int| 0 <= k < now.len() && now[k] == c as u32;
                    if k < seen.len() {
                        assert(seen[k] == c as u32);
                        assert(seen.contains(c as u32));
                        assert(before.contains(c));
                        let m = choose|m: int| 0 <= m < before.len() && before[m] == c;
                        assert(out@[m] == c);
                    } else {
                        lemma_char_code(c);
                        assert(out@[out@.len() - 1] == c);
                    }
                }
            }
        }
    }
    proof {
        assert(codes@.take(codes@.len() as int) =~= codes@);
        let dead = letters(excluded@).difference(letters(possible@));
        assert forall|c: char| out@.contains(c) <==> dead.contains(c) by {}
        lemma_sorted_is(out@, dead);
    }
    out
}

} // verus!
