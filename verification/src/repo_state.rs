//! Which repositories are being torn down. A close marks its repository for as long as it
//! runs; closes nest (removing a repository closes its daemon, which marks it again), and
//! only the mark that actually added the repository takes it off again, so an inner close
//! ending cannot reopen the window an outer one is holding shut.
use vstd::prelude::*;
use crate::text::{owned, str_eq};

verus! {

/// The repositories with a teardown in flight.
pub struct ClosingRepos {
    repos: Vec<String>,
}

impl View for ClosingRepos {
    type V = Set<Seq<char>>;

    closed spec fn view(&self) -> Set<Seq<char>> {
        Set::new(|r: Seq<char>| exists|i: int| 0 <= i < self.repos@.len() && self.repos@[i]@ == r)
    }
}

impl ClosingRepos {
    /// Nothing is being closed.
    pub fn new() -> (r: Self)
        ensures
            r@ == Set::<Seq<char>>::empty(),
    {
        let r = ClosingRepos { repos: Vec::new() };
        assert(r@ =~= Set::<Seq<char>>::empty());
        r
    }

    fn index_of(&self, repo: &str) -> (r: Option<usize>)
        ensures
            match r {
                Some(i) => i < self.repos@.len() && self.repos@[i as int]@ == repo@,
                None => !self@.contains(repo@),
            },
    {
        let mut i: usize = 0;
        while i < self.repos.len()
            invariant
                i <= self.repos@.len(),
                forall|j: int| 0 <= j < i ==> self.repos@[j]@ != repo@,
            decreases self.repos@.len() - i,
        {
            if str_eq(self.repos[i].as_str(), repo) {
                return Some(i);
            }
            i = i + 1;
        }
        None
    }

    /// Whether `repo` is being closed.
    pub fn is_closing(&self, repo: &str) -> (r: bool)
        ensures
            r == self@.contains(repo@),
    {
        match self.index_of(repo) {
            Some(i) => {
                assert(self@.contains(repo@)) by {
                    assert(self.repos@[i as int]@ == repo@);
                }
                true
            },
            None => false,
        }
    }

    /// Mark `repo` as closing; the answer says whether this mark added it, and so is the
    /// one to take it off.
    pub fn mark(&mut self, repo: &str) -> (inserted: bool)
        ensures
            inserted == !old(self)@.contains(repo@),
            final(self)@ == old(self)@.insert(repo@),
    {
        match self.index_of(repo) {
            Some(i) => {
                assert(self@.contains(repo@)) by {
                    assert(self.repos@[i as int]@ == repo@);
                }
                assert(self@.insert(repo@) =~= self@);
                false
            },
            None => {
                let ghost before = self.repos@;
                self.repos.push(owned(repo));
                assert forall|r: Seq<char>| #[trigger] self@.contains(r) == old(self)@.insert(repo@).contains(r) by {
                    assert(self@.contains(r) == has_view(self.repos@, r));
                    assert(old(self)@.contains(r) == has_view(before, r));
                    if has_view(before, r) {
                        let j = choose|j: int| 0 <= j < before.len() && before[j]@ == r;
                        assert(self.repos@[j] == before[j]);
                    }
                    if r == repo@ {
                        assert(self.repos@[before.len() as int]@ == r);
                    }
                    if has_view(self.repos@, r) {
                        let j = choose|j: int| 0 <= j < self.repos@.len() && self.repos@[j]@ == r;
                        if j < before.len() {
                            assert(self.repos@[j] == before[j]);
                            assert(has_view(before, r));
                        }
                    }
                }
                assert(self@ =~= old(self)@.insert(repo@));
                true
            },
        }
    }

    /// End a close of `repo`: the mark that added it takes it off; any other leaves it.
    pub fn unmark(&mut self, repo: &str, inserted: bool)
        ensures
            inserted ==> final(self)@ == old(self)@.remove(repo@),
            !inserted ==> final(self)@ == old(self)@,
    {
        if !inserted {
            return;
        }
        let ghost before = self.repos@;
        let mut kept: Vec<String> = Vec::new();
        let mut i: usize = 0;
        while i < self.repos.len()
            invariant
                i <= self.repos@.len(),
                self.repos@ == before,
                forall|r: Seq<char>| #[trigger] has_view(kept@, r) <==> (r != repo@ && has_view_upto(before, i as int, r)),
            decreases self.repos@.len() - i,
        {
            let ghost k0 = kept@;
            if !str_eq(self.repos[i].as_str(), repo) {
                kept.push(owned(self.repos[i].as_str()));
                assert forall|r: Seq<char>| #[trigger] has_view(kept@, r) <==> (r != repo@ && has_view_upto(
                    before,
                    i + 1,
                    r,
                )) by {
                    if has_view(kept@, r) {
                        let j = choose|j: int| 0 <= j < kept@.len() && kept@[j]@ == r;
                        if j < k0.len() {
                            assert(kept@[j] == k0[j]);
                            assert(has_view(k0, r));
                            let q = choose|q: int| 0 <= q < i && before[q]@ == r;
                            assert(has_view_upto(before, i + 1, r));
                        } else {
                            assert(before[i as int]@ == r);
                            assert(has_view_upto(before, i + 1, r));
                        }
                    }
                    if r != repo@ && has_view_upto(before, i + 1, r) {
                        let j = choose|j: int| 0 <= j < i + 1 && before[j]@ == r;
                        if j < i {
                            assert(has_view_upto(before, i as int, r));
                            assert(has_view(k0, r));
                            let q = choose|q: int| 0 <= q < k0.len() && k0[q]@ == r;
                            assert(kept@[q] == k0[q]);
                        } else {
                            assert(kept@[k0.len() as int]@ == r);
                        }
                    }
                }
            } else {
                assert forall|r: Seq<char>| #[trigger] has_view(kept@, r) <==> (r != repo@ && has_view_upto(
                    before,
                    i + 1,
                    r,
                )) by {
                    if r != repo@ && has_view_upto(before, i + 1, r) {
                        let j = choose|j: int| 0 <= j < i + 1 && before[j]@ == r;
                        assert(j < i);
                        assert(has_view_upto(before, i as int, r));
                    }
                    if has_view(kept@, r) {
                        assert(has_view(k0, r));
                        let q = choose|q: int| 0 <= q < i && before[q]@ == r;
                        assert(has_view_upto(before, i + 1, r));
                    }
                }
            }
            i = i + 1;
        }
        self.repos = kept;
        assert forall|r: Seq<char>| #[trigger] self@.contains(r) == old(self)@.remove(repo@).contains(r) by {
            assert(self@.contains(r) == has_view(self.repos@, r));
            assert(old(self)@.contains(r) == has_view_upto(before, before.len() as int, r));
        }
        assert(self@ =~= old(self)@.remove(repo@));
    }
}

/// Some element's view is `r`.
pub open spec fn has_view(v: Seq<String>, r: Seq<char>) -> bool {
    exists|j: int| 0 <= j < v.len() && v[j]@ == r
}

/// Some element before `n` has view `r`.
pub open spec fn has_view_upto(v: Seq<String>, n: int, r: Seq<char>) -> bool {
    exists|j: int| 0 <= j < n && v[j]@ == r
}

/// Closes nest: while an outer close holds a repository, an inner mark adds nothing,
/// ending the inner close leaves it closing, and ending the outer one clears it.
pub proof fn law_nested_closes(s: Set<Seq<char>>, repo: Seq<char>)
    requires
        !s.contains(repo),
    ensures
        ({
            let outer = s.insert(repo);
            &&& outer.contains(repo)
            &&& outer.insert(repo) == outer
            &&& outer.remove(repo) == s
        }),
{
    assert(s.insert(repo).insert(repo) =~= s.insert(repo));
    assert(s.insert(repo).remove(repo) =~= s);
}

} // verus!
