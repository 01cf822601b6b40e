//! Sub-task managers: which manager session belongs to which child, whether a child's
//! manager can be recovered, and why a task may not start another sub-task.
use vstd::prelude::*;
use crate::comment_store::{insert_at, lemma_stable_sort_sorted, sorted_by, stable_sort, weak_order};
use crate::text::{chars_lt, chars_of, lemma_seq_lt_asymmetric, lemma_seq_lt_irreflexive, lemma_seq_lt_total,
    lemma_seq_lt_transitive, owned, seq_lt, str_eq};

verus! {

/// A manager session as these rules read it.
pub struct ManagerFacts {
    pub id: String,
    pub created: u64,
    /// The child it manages; empty for the setup manager.
    pub subtask_slug: String,
    pub archived: bool,
    pub ended: bool,
    pub has_resume_token: bool,
}

/// A manager can still be used while it runs, or when it can be resumed.
pub open spec fn usable(m: ManagerFacts) -> bool {
    !m.archived && (!m.ended || m.has_resume_token)
}

pub fn manager_is_usable(m: &ManagerFacts) -> (r: bool)
    ensures
        r == usable(*m),
{
    !m.archived && (!m.ended || m.has_resume_token)
}

/// Managers are listed by creation time, then id.
pub open spec fn manager_after(a: ManagerFacts, b: ManagerFacts) -> bool {
    a.created > b.created || (a.created == b.created && seq_lt(b.id@, a.id@))
}

pub open spec fn by_manager_order() -> spec_fn(ManagerFacts, ManagerFacts) -> bool {
    |a: ManagerFacts, b: ManagerFacts| manager_after(a, b)
}

fn manager_after_exec(a: &ManagerFacts, b: &ManagerFacts) -> (r: bool)
    ensures
        r == manager_after(*a, *b),
{
    if a.created > b.created {
        return true;
    }
    if a.created < b.created {
        return false;
    }
    let ai = chars_of(a.id.as_str());
    let bi = chars_of(b.id.as_str());
    chars_lt(bi.as_slice(), ai.as_slice())
}

fn insert_manager(out: &mut Vec<ManagerFacts>, x: ManagerFacts)
    ensures
        final(out)@ == old(out)@.insert(insert_at(old(out)@, x, by_manager_order()), x),
{
    let mut i: usize = 0;
    loop
        invariant
            i <= out@.len(),
            forall|j: int| 0 <= j < i ==> !manager_after(#[trigger] out@[j], x),
        ensures
            i <= out@.len(),
            forall|j: int| 0 <= j < i ==> !manager_after(#[trigger] out@[j], x),
            i == out@.len() || manager_after(out@[i as int], x),
        decreases out@.len() - i,
    {
        if i == out.len() {
            break;
        }
        if manager_after_exec(&out[i], &x) {
            break;
        }
        i = i + 1;
    }
    proof {
        crate::comment_store::lemma_insert_at(out@, x, by_manager_order(), i as int);
    }
    out.insert(i, x);
}

/// The managers by creation time, then id.
pub fn sort_managers(v: Vec<ManagerFacts>) -> (r: Vec<ManagerFacts>)
    ensures
        r@ == stable_sort(v@, by_manager_order()),
{
    let ghost s = v@;
    let mut rest = v;
    let mut out: Vec<ManagerFacts> = Vec::new();
    let ghost mut k: int = 0;
    proof {
        assert(s.take(0) =~= Seq::<ManagerFacts>::empty());
        assert(rest@ =~= s.skip(0));
    }
    while rest.len() > 0
        invariant
            0 <= k <= s.len(),
            rest@ == s.skip(k),
            out@ == stable_sort(s.take(k), by_manager_order()),
        decreases rest@.len(),
    {
        let x = rest.remove(0);
        proof {
            assert(s.take(k + 1).drop_last() =~= s.take(k));
            assert(s.take(k + 1).last() == s[k]);
            assert(rest@ =~= s.skip(k + 1));
        }
        insert_manager(&mut out, x);
        proof {
            k = k + 1;
        }
    }
    proof {
        assert(s.take(k) =~= s);
    }
    out
}

/// The index of the last manager of `slug` (empty: the setup manager), if any.
pub open spec fn last_manager_of(ms: Seq<ManagerFacts>, slug: Seq<char>) -> Option<int>
    decreases ms.len(),
{
    if ms.len() == 0 {
        None
    } else if ms.last().subtask_slug@ == slug {
        Some(ms.len() - 1)
    } else {
        last_manager_of(ms.drop_last(), slug)
    }
}

pub fn last_manager_for(ms: &Vec<ManagerFacts>, slug: &str) -> (r: Option<usize>)
    ensures
        match r {
            Some(i) => last_manager_of(ms@, slug@) == Some(i as int) && i < ms@.len(),
            None => last_manager_of(ms@, slug@) is None,
        },
{
    let mut j: usize = ms.len();
    assert(ms@.take(j as int) =~= ms@);
    while j > 0
        invariant
            j <= ms@.len(),
            last_manager_of(ms@, slug@) == last_manager_of(ms@.take(j as int), slug@),
        decreases j,
    {
        proof {
            assert(ms@.take(j as int).drop_last() =~= ms@.take(j - 1));
            assert(ms@.take(j as int).last() == ms@[j - 1]);
        }
        if str_eq(ms[j - 1].subtask_slug.as_str(), slug) {
            return Some(j - 1);
        }
        j = j - 1;
    }
    None
}

/// A child's manager can be recovered unless it has one that is still usable.
pub fn can_recover(manager: Option<&ManagerFacts>) -> (r: bool)
    ensures
        r == !(manager matches Some(m) && usable(*m)),
{
    match manager {
        Some(m) => !manager_is_usable(m),
        None => true,
    }
}

/// A child of the task as the start rule reads it.
pub struct ChildFacts {
    pub draft: bool,
    pub archived: bool,
    pub has_worktree: bool,
    pub worktree_empty: bool,
    /// Whether the worktree path is a directory on disk.
    pub worktree_is_dir: bool,
}

/// A child that has no dedicated worktree to work in.
pub open spec fn lacks_worktree(c: ChildFacts) -> bool {
    c.draft || c.archived || !c.has_worktree || c.worktree_empty || !c.worktree_is_dir
}

/// Why the task may not start another sub-task, checked in this order; empty when it may.
pub open spec fn start_refusal(
    draft: bool,
    archived: bool,
    has_worktree: bool,
    setup_manager_exists: bool,
    children: Seq<ChildFacts>,
) -> Seq<char> {
    if draft {
        "Draft tasks cannot start sub-tasks"@
    } else if archived {
        "Archived tasks cannot start sub-tasks"@
    } else if !has_worktree {
        "A dedicated task worktree is required"@
    } else if setup_manager_exists {
        "A sub-task setup manager already exists"@
    } else if exists|i: int| 0 <= i < children.len() && lacks_worktree(#[trigger] children[i]) {
        "All active sub-tasks need dedicated worktrees before starting another"@
    } else {
        ""@
    }
}

fn any_lacks_worktree(children: &Vec<ChildFacts>) -> (r: bool)
    ensures
        r == exists|i: int| 0 <= i < children@.len() && lacks_worktree(#[trigger] children@[i]),
{
    let mut i: usize = 0;
    while i < children.len()
        invariant
            i <= children@.len(),
            forall|j: int| 0 <= j < i ==> !lacks_worktree(#[trigger] children@[j]),
        decreases children@.len() - i,
    {
        let c = &children[i];
        if c.draft || c.archived || !c.has_worktree || c.worktree_empty || !c.worktree_is_dir {
            assert(lacks_worktree(children@[i as int]));
            return true;
        }
        i = i + 1;
    }
    false
}

/// Whether the task may start another sub-task, and if not, why; see [`start_refusal`].
pub fn start_disabled_reason(
    draft: bool,
    archived: bool,
    has_worktree: bool,
    setup_manager_exists: bool,
    children: &Vec<ChildFacts>,
) -> (r: (bool, String))
    ensures
        r.1@ == start_refusal(draft, archived, has_worktree, setup_manager_exists, children@),
        r.0 == (r.1@.len() == 0),
{
    let reason = if draft {
        owned("Draft tasks cannot start sub-tasks")
    } else if archived {
        owned("Archived tasks cannot start sub-tasks")
    } else if !has_worktree {
        owned("A dedicated task worktree is required")
    } else if setup_manager_exists {
        owned("A sub-task setup manager already exists")
    } else if any_lacks_worktree(children) {
        owned("All active sub-tasks need dedicated worktrees before starting another")
    } else {
        owned("")
    };
    proof {
        reveal_strlit("");
        reveal_strlit("Draft tasks cannot start sub-tasks");
        reveal_strlit("Archived tasks cannot start sub-tasks");
        reveal_strlit("A dedicated task worktree is required");
        reveal_strlit("A sub-task setup manager already exists");
        reveal_strlit("All active sub-tasks need dedicated worktrees before starting another");
    }
    let can = reason.as_str().unicode_len() == 0;
    (can, reason)
}

/// Recovering a child's manager needs the child among the active sub-tasks, without a
/// usable manager.
pub fn recover_check(found: bool, recoverable: bool) -> (r: Result<(), String>)
    ensures
        !found ==> (r matches Err(e) && e@ == "Task has no matching active sub-task to recover"@),
        found && !recoverable ==> (r matches Err(e) && e@ == "The active sub-task already has a usable manager session"@),
        found && recoverable ==> r is Ok,
{
    if !found {
        return Err(owned("Task has no matching active sub-task to recover"));
    }
    if !recoverable {
        return Err(owned("The active sub-task already has a usable manager session"));
    }
    Ok(())
}

proof fn lemma_manager_order_weak()
    ensures
        weak_order(by_manager_order()),
{
    assert forall|a: ManagerFacts, b: ManagerFacts| #[trigger] by_manager_order()(a, b) implies !by_manager_order()(
        b,
        a,
    ) by {
        lemma_seq_lt_irreflexive(a.id@);
        if seq_lt(b.id@, a.id@) {
            lemma_seq_lt_asymmetric(b.id@, a.id@);
        }
    }
    assert forall|a: ManagerFacts, b: ManagerFacts, x: ManagerFacts|
        #![trigger by_manager_order()(a, x), by_manager_order()(a, b)]
        by_manager_order()(a, x) && !by_manager_order()(a, b) implies by_manager_order()(b, x) by {
        lemma_seq_lt_total(a.id@, b.id@);
        lemma_seq_lt_irreflexive(a.id@);
        if seq_lt(x.id@, a.id@) && seq_lt(a.id@, b.id@) {
            lemma_seq_lt_transitive(x.id@, a.id@, b.id@);
        }
    }
}

/// Managers are listed oldest first (ties by id), however they were found.
pub proof fn law_managers_oldest_first(ms: Seq<ManagerFacts>)
    ensures
        sorted_by(stable_sort(ms, by_manager_order()), by_manager_order()),
{
    lemma_manager_order_weak();
    lemma_stable_sort_sorted(ms, by_manager_order());
}

} // verus!
