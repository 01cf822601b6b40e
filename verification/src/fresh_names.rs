//! Picking a name that is not taken: candidates are tried in order, and since different
//! candidates are different names, each taken one rules out a name that was there, so the
//! search ends within one more try than there are names.
use vstd::prelude::*;

verus! {

/// No two candidate numbers give the same name.
pub open spec fn injective(cand: spec_fn(nat) -> Seq<char>) -> bool {
    forall|a: nat, b: nat| #[trigger] cand(a) == #[trigger] cand(b) ==> a == b
}

/// The name is some candidate numbered `n` or more.
pub open spec fn candidate_from(x: Seq<char>, cand: spec_fn(nat) -> Seq<char>, n: nat) -> bool {
    exists|k: nat| k >= n && x == #[trigger] cand(k)
}

/// How many of `names` are candidates numbered `n` or more.
pub open spec fn count_candidates_from(names: Seq<Seq<char>>, cand: spec_fn(nat) -> Seq<char>, n: nat) -> nat
    decreases names.len(),
{
    if names.len() == 0 {
        0
    } else {
        count_candidates_from(names.drop_last(), cand, n) + if candidate_from(names.last(), cand, n) {
            1nat
        } else {
            0nat
        }
    }
}

/// The count only falls as `n` grows, never exceeds the names, and falls when candidate
/// `n` is taken.
pub proof fn lemma_count_candidates(names: Seq<Seq<char>>, cand: spec_fn(nat) -> Seq<char>, n: nat)
    requires
        injective(cand),
    ensures
        count_candidates_from(names, cand, n + 1) <= count_candidates_from(names, cand, n),
        count_candidates_from(names, cand, n) <= names.len(),
        names.contains(cand(n)) ==> count_candidates_from(names, cand, n + 1) < count_candidates_from(names, cand, n),
    decreases names.len(),
{
    if names.len() > 0 {
        let rest = names.drop_last();
        let x = names.last();
        lemma_count_candidates(rest, cand, n);
        if candidate_from(x, cand, n + 1) {
            let k = choose|k: nat| k >= n + 1 && x == #[trigger] cand(k);
            assert(candidate_from(x, cand, n));
            if x == cand(n) {
                assert(cand(k) == cand(n));
            }
        }
        if x == cand(n) {
            assert(candidate_from(x, cand, n));
        }
        if names.contains(cand(n)) && x != cand(n) {
            let i = choose|i: int| 0 <= i < names.len() && names[i] == cand(n);
            assert(rest[i] == names[i]);
            assert(rest.contains(cand(n)));
        }
    }
}

} // verus!
