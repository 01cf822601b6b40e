//! The lists behind an artifact's review: comments, each with an id no other comment of
//! the artifact has, kept in line order; drafts, one per anchor, kept by artifact and
//! line; which drafts went stale; and the marker of a review handed to the agent.
use vstd::prelude::*;
use crate::artifacts::{clamp_chars, ArtifactComment};
use crate::codec::{artifact_text_hash, fnv1a64, hex_fixed};
use crate::fresh_names::{count_candidates_from, injective, lemma_count_candidates};
use crate::hosted::opt_view;
use crate::text::{
    chars_lt, chars_of, decimal, lemma_decimal_injective, lemma_seq_lt_asymmetric, lemma_seq_lt_irreflexive,
    lemma_seq_lt_total, lemma_seq_lt_transitive, owned, push_decimal, push_str, seq_lt, str_eq, trim, trim_str,
};
use vstd::string::StringSliceAdditionalSpecFns;

verus! {

broadcast use vstd::seq_lib::group_seq_properties;

// ---- stable insertion order -----------------------------------------------------

/// Where a stable insertion puts `x` into `s`: before the first element that orders
/// after it.
pub open spec fn insert_at<T>(s: Seq<T>, x: T, after: spec_fn(T, T) -> bool) -> int
    decreases s.len(),
{
    if s.len() == 0 {
        0
    } else if after(s[0], x) {
        0
    } else {
        1 + insert_at(s.drop_first(), x, after)
    }
}

/// `s` sorted by `after`, ties keeping their order: each element in turn goes after
/// everything that does not order after it.
pub open spec fn stable_sort<T>(s: Seq<T>, after: spec_fn(T, T) -> bool) -> Seq<T>
    decreases s.len(),
{
    if s.len() == 0 {
        s
    } else {
        let p = stable_sort(s.drop_last(), after);
        p.insert(insert_at(p, s.last(), after), s.last())
    }
}

pub proof fn lemma_insert_at<T>(s: Seq<T>, x: T, after: spec_fn(T, T) -> bool, i: int)
    requires
        0 <= i <= s.len(),
        forall|j: int| 0 <= j < i ==> !after(#[trigger] s[j], x),
        i == s.len() || after(s[i], x),
    ensures
        insert_at(s, x, after) == i,
    decreases s.len(),
{
    if s.len() > 0 && i > 0 {
        let t = s.drop_first();
        assert forall|j: int| 0 <= j < i - 1 implies !after(#[trigger] t[j], x) by {
            assert(t[j] == s[j + 1]);
        }
        if i < s.len() {
            assert(t[i - 1] == s[i]);
        }
        lemma_insert_at(t, x, after, i - 1);
    }
}

proof fn lemma_stable_sort_len<T>(s: Seq<T>, after: spec_fn(T, T) -> bool)
    ensures
        stable_sort(s, after).len() == s.len(),
        forall|x: T| 0 <= #[trigger] insert_at(stable_sort(s, after), x, after) <= s.len(),
    decreases s.len(),
{
    if s.len() > 0 {
        lemma_stable_sort_len(s.drop_last(), after);
    }
    assert forall|x: T| 0 <= #[trigger] insert_at(stable_sort(s, after), x, after) <= s.len() by {
        lemma_insert_at_range(stable_sort(s, after), x, after);
    }
}

proof fn lemma_insert_at_range<T>(s: Seq<T>, x: T, after: spec_fn(T, T) -> bool)
    ensures
        0 <= insert_at(s, x, after) <= s.len(),
    decreases s.len(),
{
    if s.len() > 0 {
        lemma_insert_at_range(s.drop_first(), x, after);
    }
}

/// No element orders after a later one.
pub open spec fn sorted_by<T>(s: Seq<T>, after: spec_fn(T, T) -> bool) -> bool {
    forall|i: int, j: int| 0 <= i < j < s.len() ==> !after(#[trigger] s[i], #[trigger] s[j])
}

/// `after` orders by a key: never both ways, and what orders after `x` is ordered after
/// by everything not before it.
pub open spec fn weak_order<T>(after: spec_fn(T, T) -> bool) -> bool {
    &&& forall|a: T, b: T| #[trigger] after(a, b) ==> !after(b, a)
    &&& forall|a: T, b: T, x: T| #![trigger after(a, x), after(a, b)] after(a, x) && !after(a, b) ==> after(b, x)
}

/// Elements whose keys are pairwise distinct.
pub open spec fn unique_by<T, K>(s: Seq<T>, key: spec_fn(T) -> K) -> bool {
    forall|i: int, j: int| 0 <= i < j < s.len() ==> key(#[trigger] s[i]) != key(#[trigger] s[j])
}

proof fn lemma_insert_at_bounds<T>(s: Seq<T>, x: T, after: spec_fn(T, T) -> bool)
    ensures
        0 <= insert_at(s, x, after) <= s.len(),
        forall|j: int| 0 <= j < insert_at(s, x, after) ==> !after(#[trigger] s[j], x),
        insert_at(s, x, after) < s.len() ==> after(s[insert_at(s, x, after)], x),
    decreases s.len(),
{
    if s.len() > 0 && !after(s[0], x) {
        let t = s.drop_first();
        lemma_insert_at_bounds(t, x, after);
        assert forall|j: int| 0 <= j < insert_at(s, x, after) implies !after(#[trigger] s[j], x) by {
            if j > 0 {
                assert(s[j] == t[j - 1]);
            }
        }
        if insert_at(s, x, after) < s.len() {
            assert(s[insert_at(s, x, after)] == t[insert_at(t, x, after)]);
        }
    }
}

proof fn lemma_insert_sorted<T>(p: Seq<T>, x: T, after: spec_fn(T, T) -> bool)
    requires
        weak_order(after),
        sorted_by(p, after),
    ensures
        sorted_by(p.insert(insert_at(p, x, after), x), after),
{
    let i = insert_at(p, x, after);
    lemma_insert_at_bounds(p, x, after);
    p.insert_ensures(i, x);
    let t = p.insert(i, x);
    assert forall|a: int, b: int| 0 <= a < b < t.len() implies !after(#[trigger] t[a], #[trigger] t[b]) by {
        if b < i {
            assert(t[a] == p[a] && t[b] == p[b]);
        } else if b == i {
            assert(t[a] == p[a]);
        } else if a == i {
            assert(t[b] == p[b - 1]);
            assert(after(p[i], x));
            if i < b - 1 {
                assert(!after(p[i], p[b - 1]));
            } else if after(p[i], p[i]) {
                assert(!after(p[i], p[i]));
            }
            assert(after(p[b - 1], x));
        } else if a < i {
            assert(t[a] == p[a] && t[b] == p[b - 1]);
        } else {
            assert(t[a] == p[a - 1] && t[b] == p[b - 1]);
        }
    }
}

/// Whatever order `s` was in, `stable_sort` puts it in `after`'s order.
pub proof fn lemma_stable_sort_sorted<T>(s: Seq<T>, after: spec_fn(T, T) -> bool)
    requires
        weak_order(after),
    ensures
        sorted_by(stable_sort(s, after), after),
    decreases s.len(),
{
    if s.len() > 0 {
        lemma_stable_sort_sorted(s.drop_last(), after);
        lemma_insert_sorted(stable_sort(s.drop_last(), after), s.last(), after);
    }
}

/// A key occurs among the keys exactly when some element has it.
proof fn lemma_map_contains<T, K>(s: Seq<T>, key: spec_fn(T) -> K, k: K)
    ensures
        s.map_values(key).contains(k) <==> exists|y: T| s.contains(y) && key(y) == k,
{
    if s.map_values(key).contains(k) {
        let j = choose|j: int| 0 <= j < s.map_values(key).len() && s.map_values(key)[j] == k;
        assert(s.contains(s[j]));
    }
    if exists|y: T| s.contains(y) && key(y) == k {
        let y = choose|y: T| s.contains(y) && key(y) == k;
        let j = choose|j: int| 0 <= j < s.len() && s[j] == y;
        assert(s.map_values(key)[j] == k);
    }
}

/// Sorting keeps the keys present, and keeps distinct keys distinct.
proof fn lemma_stable_sort_keys<T, K>(s: Seq<T>, after: spec_fn(T, T) -> bool, key: spec_fn(T) -> K)
    ensures
        stable_sort(s, after).len() == s.len(),
        forall|k: K| s.map_values(key).contains(k) <==> #[trigger] stable_sort(s, after).map_values(key).contains(k),
        forall|x: T| s.contains(x) <==> #[trigger] stable_sort(s, after).contains(x),
        unique_by(s, key) ==> unique_by(stable_sort(s, after), key),
    decreases s.len(),
{
    if s.len() > 0 {
        let s0 = s.drop_last();
        let x = s.last();
        lemma_stable_sort_keys(s0, after, key);
        let p = stable_sort(s0, after);
        let i = insert_at(p, x, after);
        lemma_insert_at_bounds(p, x, after);
        p.insert_ensures(i, x);
        let t = p.insert(i, x);
        assert(t == stable_sort(s, after));
        assert forall|y: T| s.contains(y) <==> #[trigger] t.contains(y) by {
            if s.contains(y) {
                let j = choose|j: int| 0 <= j < s.len() && s[j] == y;
                if j == s.len() - 1 {
                    assert(t[i] == y);
                } else {
                    assert(s0[j] == y);
                    assert(s0.contains(y));
                    assert(p.contains(y));
                    let q = choose|q: int| 0 <= q < p.len() && p[q] == y;
                    if q < i {
                        assert(t[q] == y);
                    } else {
                        assert(t[q + 1] == y);
                    }
                }
            }
            if t.contains(y) {
                let j = choose|j: int| 0 <= j < t.len() && t[j] == y;
                if j == i {
                    assert(s[s.len() - 1] == y);
                } else {
                    let q = if j < i {
                        j
                    } else {
                        j - 1
                    };
                    assert(p[q] == y);
                    assert(p.contains(y));
                    assert(s0.contains(y));
                    let r = choose|r: int| 0 <= r < s0.len() && s0[r] == y;
                    assert(s[r] == y);
                }
            }
        }
        assert forall|k: K| s.map_values(key).contains(k) <==> #[trigger] t.map_values(key).contains(k) by {
            lemma_map_contains(s, key, k);
            lemma_map_contains(t, key, k);
            if s.map_values(key).contains(k) {
                let y = choose|y: T| s.contains(y) && key(y) == k;
                assert(t.contains(y));
            }
            if t.map_values(key).contains(k) {
                let y = choose|y: T| t.contains(y) && key(y) == k;
                assert(s.contains(y));
            }
        }
        if unique_by(s, key) {
            assert(unique_by(s0, key)) by {
                assert forall|a: int, b: int| 0 <= a < b < s0.len() implies key(#[trigger] s0[a]) != key(
                    #[trigger] s0[b],
                ) by {
                    assert(s0[a] == s[a] && s0[b] == s[b]);
                }
            }
            assert(!p.map_values(key).contains(key(x))) by {
                if p.map_values(key).contains(key(x)) {
                    let r = choose|r: int| 0 <= r < s0.len() && s0.map_values(key)[r] == key(x);
                    assert(s[r] == s0[r]);
                    assert(key(s[r]) != key(s[s.len() - 1]));
                }
            }
            assert forall|a: int, b: int| 0 <= a < b < t.len() implies key(#[trigger] t[a]) != key(#[trigger] t[b]) by {
                if a == i {
                    let q = b - 1;
                    assert(t[b] == p[q]);
                    assert(p.map_values(key)[q] == key(p[q]));
                } else if b == i {
                    assert(t[a] == p[a]);
                    assert(p.map_values(key)[a] == key(p[a]));
                } else {
                    let qa = if a < i {
                        a
                    } else {
                        a - 1
                    };
                    let qb = if b < i {
                        b
                    } else {
                        b - 1
                    };
                    assert(t[a] == p[qa] && t[b] == p[qb]);
                }
            }
        }
    }
}

// ---- comments -------------------------------------------------------------------

/// Comments are kept in line order, then in the order they were made.
pub open spec fn comment_after(a: ArtifactComment, b: ArtifactComment) -> bool {
    a.line_start > b.line_start || (a.line_start == b.line_start && a.created_at_ms > b.created_at_ms)
}

pub open spec fn by_comment_order() -> spec_fn(ArtifactComment, ArtifactComment) -> bool {
    |a: ArtifactComment, b: ArtifactComment| comment_after(a, b)
}

fn insert_comment(out: &mut Vec<ArtifactComment>, x: ArtifactComment)
    ensures
        final(out)@ == old(out)@.insert(insert_at(old(out)@, x, by_comment_order()), x),
{
    let mut i: usize = 0;
    loop
        invariant
            i <= out@.len(),
            forall|j: int| 0 <= j < i ==> !comment_after(#[trigger] out@[j], x),
        ensures
            i <= out@.len(),
            forall|j: int| 0 <= j < i ==> !comment_after(#[trigger] out@[j], x),
            i == out@.len() || comment_after(out@[i as int], x),
        decreases out@.len() - i,
    {
        if i == out.len() {
            break;
        }
        let a = &out[i];
        if a.line_start > x.line_start || (a.line_start == x.line_start && a.created_at_ms > x.created_at_ms) {
            break;
        }
        i = i + 1;
    }
    proof {
        lemma_insert_at(out@, x, by_comment_order(), i as int);
    }
    out.insert(i, x);
}

/// The comments in line order, ties in the order given.
pub fn sort_comments(v: Vec<ArtifactComment>) -> (r: Vec<ArtifactComment>)
    ensures
        r@ == stable_sort(v@, by_comment_order()),
        forall|i: int, j: int|
            0 <= i < j < r@.len() ==> (#[trigger] r@[i]).line_start < (#[trigger] r@[j]).line_start || (r@[i].line_start
                == r@[j].line_start && r@[i].created_at_ms <= r@[j].created_at_ms),
{
    let ghost s = v@;
    let mut rest = v;
    let mut out: Vec<ArtifactComment> = Vec::new();
    let ghost mut k: int = 0;
    proof {
        assert(s.take(0) =~= Seq::<ArtifactComment>::empty());
        assert(rest@ =~= s.skip(0));
    }
    while rest.len() > 0
        invariant
            0 <= k <= s.len(),
            rest@ == s.skip(k),
            out@ == stable_sort(s.take(k), by_comment_order()),
        decreases rest@.len(),
    {
        let x = rest.remove(0);
        proof {
            assert(s.take(k + 1).drop_last() =~= s.take(k));
            assert(s.take(k + 1).last() == s[k]);
            assert(rest@ =~= s.skip(k + 1));
        }
        insert_comment(&mut out, x);
        proof {
            k = k + 1;
        }
    }
    proof {
        assert(s.take(k) =~= s);
        law_comments_by_line_then_time(s);
    }
    out
}

/// The ids of the comments, in order.
pub open spec fn comment_ids(cs: Seq<ArtifactComment>) -> Seq<Seq<char>> {
    cs.map_values(comment_id_key())
}

/// A comment's id.
pub open spec fn comment_id_key() -> spec_fn(ArtifactComment) -> Seq<char> {
    |c: ArtifactComment| c.id@
}

/// The id of a comment made at `ms`.
pub open spec fn base_id(ms: nat) -> Seq<char> {
    "c"@ + decimal(ms)
}

/// The id of a comment made at `ms` when `c<ms>` is taken.
pub open spec fn suffixed_id(ms: nat, n: nat) -> Seq<char> {
    "c"@ + decimal(ms) + "_"@ + decimal(n)
}

/// The id a new comment made at `ms` gets among `ids`: `c<ms>`, or when that is taken,
/// `c<ms>_<n>` for the least `n` from 2 up that is free.
pub open spec fn fresh_id_ok(id: Seq<char>, ids: Seq<Seq<char>>, ms: nat) -> bool {
    &&& !ids.contains(id)
    &&& (id == base_id(ms) || (ids.contains(base_id(ms)) && exists|n: nat|
        n >= 2 && id == suffixed_id(ms, n) && forall|m: nat| 2 <= m < n ==> ids.contains(#[trigger] suffixed_id(ms, m))))
}

proof fn lemma_suffixed_injective(ms: nat)
    ensures
        injective(|n: nat| suffixed_id(ms, n)),
{
    assert forall|a: nat, b: nat| #[trigger] suffixed_id(ms, a) == #[trigger] suffixed_id(ms, b) implies a == b by {
        let p = "c"@ + decimal(ms) + "_"@;
        assert(suffixed_id(ms, a).skip(p.len() as int) =~= decimal(a));
        assert(suffixed_id(ms, b).skip(p.len() as int) =~= decimal(b));
        lemma_decimal_injective(a, b);
    }
}

fn has_id(cs: &Vec<ArtifactComment>, id: &str) -> (r: bool)
    ensures
        r == comment_ids(cs@).contains(id@),
{
    let mut i: usize = 0;
    while i < cs.len()
        invariant
            i <= cs@.len(),
            forall|j: int| 0 <= j < i ==> cs@[j].id@ != id@,
        decreases cs@.len() - i,
    {
        if str_eq(cs[i].id.as_str(), id) {
            proof {
                assert(comment_ids(cs@)[i as int] == id@);
            }
            return true;
        }
        i = i + 1;
    }
    proof {
        if comment_ids(cs@).contains(id@) {
            let j = choose|j: int| 0 <= j < comment_ids(cs@).len() && comment_ids(cs@)[j] == id@;
            assert(cs@[j].id@ == id@);
        }
    }
    false
}

/// The id for a comment made at `ms`; see [`fresh_id_ok`].
pub fn fresh_comment_id(cs: &Vec<ArtifactComment>, ms: u64) -> (r: String)
    requires
        cs@.len() < u64::MAX - 2,
    ensures
        fresh_id_ok(r@, comment_ids(cs@), ms as nat),
{
    let ghost ids = comment_ids(cs@);
    let mut id = owned("c");
    push_decimal(&mut id, ms, 0);
    assert(id@ == base_id(ms as nat));
    if !has_id(cs, id.as_str()) {
        return id;
    }
    let mut n: u64 = 2;
    let mut candidate = owned("c");
    push_decimal(&mut candidate, ms, 0);
    push_str(&mut candidate, "_");
    push_decimal(&mut candidate, n, 0);
    let ghost cand = |k: nat| suffixed_id(ms as nat, k);
    proof {
        lemma_suffixed_injective(ms as nat);
        lemma_count_candidates(ids, cand, 2);
    }
    while has_id(cs, candidate.as_str())
        invariant
            ids == comment_ids(cs@),
            ids.len() == cs@.len(),
            cs@.len() < u64::MAX - 2,
            ids.contains(base_id(ms as nat)),
            2 <= n,
            candidate@ == suffixed_id(ms as nat, n as nat),
            forall|m: nat| 2 <= m < n ==> ids.contains(#[trigger] suffixed_id(ms as nat, m)),
            cand == (|k: nat| suffixed_id(ms as nat, k)),
            injective(cand),
            (n - 2) + count_candidates_from(ids, cand, n as nat) <= count_candidates_from(ids, cand, 2),
            count_candidates_from(ids, cand, 2) <= ids.len(),
        decreases count_candidates_from(ids, cand, n as nat),
    {
        proof {
            lemma_count_candidates(ids, cand, n as nat);
            assert(cand(n as nat) == candidate@);
        }
        n = n + 1;
        candidate = owned("c");
        push_decimal(&mut candidate, ms, 0);
        push_str(&mut candidate, "_");
        push_decimal(&mut candidate, n, 0);
        proof {
            assert forall|m: nat| 2 <= m < n implies ids.contains(#[trigger] suffixed_id(ms as nat, m)) by {
                if m == n - 1 {
                }
            }
        }
    }
    proof {
        assert(suffixed_id(ms as nat, n as nat) == candidate@);
        assert(fresh_id_ok(candidate@, ids, ms as nat));
    }
    candidate
}


/// The first `n` chars of `s`, or all of them.
pub open spec fn clamped(s: Seq<char>, n: nat) -> Seq<char> {
    s.take(
        if n < s.len() {
            n as int
        } else {
            s.len() as int
        },
    )
}

/// The comment made from these fields among comments with `ids`: a fresh id, the label and
/// excerpt clamped to 120 and 500 chars, the body trimmed.
pub open spec fn added_comment(
    c: ArtifactComment,
    ids: Seq<Seq<char>>,
    artifact: Seq<char>,
    anchor_id: Seq<char>,
    anchor_kind: Seq<char>,
    anchor_label: Seq<char>,
    anchor_excerpt: Seq<char>,
    line_start: u32,
    line_end: u32,
    body: Seq<char>,
    ms: u64,
) -> bool {
    &&& fresh_id_ok(c.id@, ids, ms as nat)
    &&& c.artifact@ == artifact
    &&& c.anchor_id@ == anchor_id
    &&& c.anchor_kind@ == anchor_kind
    &&& c.anchor_label@ == clamped(anchor_label, 120)
    &&& c.anchor_excerpt@ == clamped(anchor_excerpt, 500)
    &&& c.line_start == line_start
    &&& c.line_end == line_end
    &&& c.body@ == trim(body)
    &&& c.created_at_ms == ms
}

/// Add a comment made at `created_at_ms`: refused when its body is blank; otherwise it
/// joins the list, which comes back in line order.
pub fn add_comment(
    comments: Vec<ArtifactComment>,
    artifact: &str,
    anchor_id: String,
    anchor_kind: String,
    anchor_label: &str,
    anchor_excerpt: &str,
    line_start: u32,
    line_end: u32,
    body: &str,
    created_at_ms: u64,
) -> (r: Result<Vec<ArtifactComment>, String>)
    requires
        comments@.len() < u64::MAX - 2,
    ensures
        trim(body@).len() == 0 ==> (r matches Err(e) && e@ == "comment body is empty"@),
        trim(body@).len() > 0 ==> (r matches Ok(out) && exists|c: ArtifactComment|
            #![trigger comments@.push(c)]
            added_comment(
                c,
                comment_ids(comments@),
                artifact@,
                anchor_id@,
                anchor_kind@,
                anchor_label@,
                anchor_excerpt@,
                line_start,
                line_end,
                body@,
                created_at_ms,
            ) && out@ == stable_sort(comments@.push(c), by_comment_order())),
        trim(body@).len() > 0 ==> (r matches Ok(out) && forall|i: int, j: int|
            0 <= i < j < out@.len() ==> (#[trigger] out@[i]).line_start < (#[trigger] out@[j]).line_start || (
            out@[i].line_start == out@[j].line_start && out@[i].created_at_ms <= out@[j].created_at_ms)),
{
    let trimmed = trim_str(body);
    if trimmed.as_str().unicode_len() == 0 {
        return Err(owned("comment body is empty"));
    }
    let id = fresh_comment_id(&comments, created_at_ms);
    let c = ArtifactComment {
        id,
        artifact: owned(artifact),
        anchor_id,
        anchor_kind,
        anchor_label: clamp_chars(anchor_label, 120),
        anchor_excerpt: clamp_chars(anchor_excerpt, 500),
        line_start,
        line_end,
        body: trimmed,
        created_at_ms,
    };
    let ghost g = c;
    let mut all = comments;
    all.push(c);
    let out = sort_comments(all);
    proof {
        assert(added_comment(
            g,
            comment_ids(comments@),
            artifact@,
            anchor_id@,
            anchor_kind@,
            anchor_label@,
            anchor_excerpt@,
            line_start,
            line_end,
            body@,
            created_at_ms,
        ));
    }
    Ok(out)
}


// ---- drafts ---------------------------------------------------------------------

/// A comment being written, one per anchor of an artifact. `stale` is not stored: it says
/// the artifact changed since the draft was saved.
pub struct ArtifactCommentDraft {
    pub artifact: String,
    pub anchor_id: String,
    pub anchor_kind: String,
    pub anchor_label: String,
    pub anchor_excerpt: String,
    pub line_start: u32,
    pub line_end: u32,
    pub body: String,
    pub artifact_hash: String,
    pub updated_at_ms: u64,
    pub stale: bool,
}

/// Drafts are kept by artifact, then line, then the time they were saved.
pub open spec fn draft_after(a: ArtifactCommentDraft, b: ArtifactCommentDraft) -> bool {
    seq_lt(b.artifact@, a.artifact@) || (a.artifact@ == b.artifact@ && (a.line_start > b.line_start || (a.line_start
        == b.line_start && a.updated_at_ms > b.updated_at_ms)))
}

pub open spec fn by_draft_order() -> spec_fn(ArtifactCommentDraft, ArtifactCommentDraft) -> bool {
    |a: ArtifactCommentDraft, b: ArtifactCommentDraft| draft_after(a, b)
}

fn draft_after_exec(a: &ArtifactCommentDraft, b: &ArtifactCommentDraft) -> (r: bool)
    ensures
        r == draft_after(*a, *b),
{
    let aa = chars_of(a.artifact.as_str());
    let ba = chars_of(b.artifact.as_str());
    if chars_lt(ba.as_slice(), aa.as_slice()) {
        return true;
    }
    str_eq(a.artifact.as_str(), b.artifact.as_str()) && (a.line_start > b.line_start || (a.line_start == b.line_start
        && a.updated_at_ms > b.updated_at_ms))
}

fn insert_draft(out: &mut Vec<ArtifactCommentDraft>, x: ArtifactCommentDraft)
    ensures
        final(out)@ == old(out)@.insert(insert_at(old(out)@, x, by_draft_order()), x),
{
    let mut i: usize = 0;
    loop
        invariant
            i <= out@.len(),
            forall|j: int| 0 <= j < i ==> !draft_after(#[trigger] out@[j], x),
        ensures
            i <= out@.len(),
            forall|j: int| 0 <= j < i ==> !draft_after(#[trigger] out@[j], x),
            i == out@.len() || draft_after(out@[i as int], x),
        decreases out@.len() - i,
    {
        if i == out.len() {
            break;
        }
        if draft_after_exec(&out[i], &x) {
            break;
        }
        i = i + 1;
    }
    proof {
        lemma_insert_at(out@, x, by_draft_order(), i as int);
    }
    out.insert(i, x);
}

/// The drafts by artifact and line, ties in the order given.
pub fn sort_drafts(v: Vec<ArtifactCommentDraft>) -> (r: Vec<ArtifactCommentDraft>)
    ensures
        r@ == stable_sort(v@, by_draft_order()),
        forall|i: int, j: int|
            0 <= i < j < r@.len() ==> seq_lt((#[trigger] r@[i]).artifact@, (#[trigger] r@[j]).artifact@) || (
            r@[i].artifact@ == r@[j].artifact@ && (r@[i].line_start < r@[j].line_start || (r@[i].line_start
            == r@[j].line_start && r@[i].updated_at_ms <= r@[j].updated_at_ms))),
{
    let ghost s = v@;
    let mut rest = v;
    let mut out: Vec<ArtifactCommentDraft> = Vec::new();
    let ghost mut k: int = 0;
    proof {
        assert(s.take(0) =~= Seq::<ArtifactCommentDraft>::empty());
        assert(rest@ =~= s.skip(0));
    }
    while rest.len() > 0
        invariant
            0 <= k <= s.len(),
            rest@ == s.skip(k),
            out@ == stable_sort(s.take(k), by_draft_order()),
        decreases rest@.len(),
    {
        let x = rest.remove(0);
        proof {
            assert(s.take(k + 1).drop_last() =~= s.take(k));
            assert(s.take(k + 1).last() == s[k]);
            assert(rest@ =~= s.skip(k + 1));
        }
        insert_draft(&mut out, x);
        proof {
            k = k + 1;
        }
    }
    proof {
        assert(s.take(k) =~= s);
        law_drafts_by_artifact_line_time(s);
    }
    out
}

/// The drafts that are not the one at `anchor_id` of `artifact`, in order.
pub open spec fn other_drafts(s: Seq<ArtifactCommentDraft>, artifact: Seq<char>, anchor_id: Seq<char>) -> Seq<
    ArtifactCommentDraft,
>
    decreases s.len(),
{
    if s.len() == 0 {
        s
    } else {
        let rest = other_drafts(s.drop_last(), artifact, anchor_id);
        if s.last().artifact@ == artifact && s.last().anchor_id@ == anchor_id {
            rest
        } else {
            rest.push(s.last())
        }
    }
}

/// Drop the draft at `anchor_id` of `artifact`.
pub fn remove_draft(drafts: Vec<ArtifactCommentDraft>, artifact: &str, anchor_id: &str) -> (r: Vec<
    ArtifactCommentDraft,
>)
    ensures
        r@ == other_drafts(drafts@, artifact@, anchor_id@),
{
    let ghost s = drafts@;
    let mut rest = drafts;
    let mut out: Vec<ArtifactCommentDraft> = Vec::new();
    let ghost mut k: int = 0;
    proof {
        assert(s.take(0) =~= Seq::<ArtifactCommentDraft>::empty());
        assert(rest@ =~= s.skip(0));
    }
    while rest.len() > 0
        invariant
            0 <= k <= s.len(),
            rest@ == s.skip(k),
            out@ == other_drafts(s.take(k), artifact@, anchor_id@),
        decreases rest@.len(),
    {
        let x = rest.remove(0);
        proof {
            assert(s.take(k + 1).drop_last() =~= s.take(k));
            assert(s.take(k + 1).last() == s[k]);
            assert(rest@ =~= s.skip(k + 1));
        }
        if !(str_eq(x.artifact.as_str(), artifact) && str_eq(x.anchor_id.as_str(), anchor_id)) {
            out.push(x);
        }
        proof {
            k = k + 1;
        }
    }
    proof {
        assert(s.take(k) =~= s);
    }
    out
}

/// The draft saved from these fields: label and excerpt clamped to 120 and 500 chars, not
/// stale.
pub open spec fn saved_draft(
    d: ArtifactCommentDraft,
    artifact: Seq<char>,
    anchor_id: Seq<char>,
    anchor_kind: Seq<char>,
    anchor_label: Seq<char>,
    anchor_excerpt: Seq<char>,
    line_start: u32,
    line_end: u32,
    body: Seq<char>,
    artifact_hash: Seq<char>,
    updated_at_ms: u64,
) -> bool {
    &&& d.artifact@ == artifact
    &&& d.anchor_id@ == anchor_id
    &&& d.anchor_kind@ == anchor_kind
    &&& d.anchor_label@ == clamped(anchor_label, 120)
    &&& d.anchor_excerpt@ == clamped(anchor_excerpt, 500)
    &&& d.line_start == line_start
    &&& d.line_end == line_end
    &&& d.body@ == body
    &&& d.artifact_hash@ == artifact_hash
    &&& d.updated_at_ms == updated_at_ms
    &&& !d.stale
}

/// Save a draft: it replaces the anchor's previous draft, and the list comes back by
/// artifact and line.
pub fn save_draft(
    drafts: Vec<ArtifactCommentDraft>,
    artifact: &str,
    anchor_id: String,
    anchor_kind: String,
    anchor_label: &str,
    anchor_excerpt: &str,
    line_start: u32,
    line_end: u32,
    body: String,
    artifact_hash: String,
    updated_at_ms: u64,
) -> (r: Vec<ArtifactCommentDraft>)
    ensures
        exists|d: ArtifactCommentDraft|
            #![trigger saved_draft(d, artifact@, anchor_id@, anchor_kind@, anchor_label@, anchor_excerpt@, line_start, line_end, body@, artifact_hash@, updated_at_ms)]
            saved_draft(
                d,
                artifact@,
                anchor_id@,
                anchor_kind@,
                anchor_label@,
                anchor_excerpt@,
                line_start,
                line_end,
                body@,
                artifact_hash@,
                updated_at_ms,
            ) && r@ == stable_sort(other_drafts(drafts@, artifact@, anchor_id@).push(d), by_draft_order()),
        forall|i: int, j: int|
            0 <= i < j < r@.len() ==> seq_lt((#[trigger] r@[i]).artifact@, (#[trigger] r@[j]).artifact@) || (
            r@[i].artifact@ == r@[j].artifact@ && (r@[i].line_start < r@[j].line_start || (r@[i].line_start
            == r@[j].line_start && r@[i].updated_at_ms <= r@[j].updated_at_ms))),
{
    let mut kept = remove_draft(drafts, artifact, anchor_id.as_str());
    let d = ArtifactCommentDraft {
        artifact: owned(artifact),
        anchor_id,
        anchor_kind,
        anchor_label: clamp_chars(anchor_label, 120),
        anchor_excerpt: clamp_chars(anchor_excerpt, 500),
        line_start,
        line_end,
        body,
        artifact_hash,
        updated_at_ms,
        stale: false,
    };
    let ghost g = d;
    kept.push(d);
    let out = sort_drafts(kept);
    proof {
        assert(saved_draft(
            g,
            artifact@,
            anchor_id@,
            anchor_kind@,
            anchor_label@,
            anchor_excerpt@,
            line_start,
            line_end,
            body@,
            artifact_hash@,
            updated_at_ms,
        ));
    }
    out
}

/// Mark each draft stale unless `current[i]`, the hash its artifact has now, is the one
/// it was saved against; `None` when the artifact could not be read.
pub fn mark_stale_drafts(drafts: Vec<ArtifactCommentDraft>, current: &Vec<Option<String>>) -> (r: Vec<
    ArtifactCommentDraft,
>)
    requires
        current@.len() == drafts@.len(),
    ensures
        r@.len() == drafts@.len(),
        forall|i: int|
            0 <= i < r@.len() ==> #[trigger] r@[i] == (ArtifactCommentDraft {
                stale: opt_view(current@[i]) != Some(drafts@[i].artifact_hash@),
                ..drafts@[i]
            }),
{
    let ghost s = drafts@;
    let mut rest = drafts;
    let mut out: Vec<ArtifactCommentDraft> = Vec::new();
    let mut k: usize = 0;
    let n = current.len();
    proof {
        assert(rest@ =~= s.skip(0));
    }
    while rest.len() > 0
        invariant
            k <= s.len(),
            n == s.len(),
            current@.len() == s.len(),
            rest@ == s.skip(k as int),
            out@.len() == k,
            forall|i: int|
                0 <= i < k ==> #[trigger] out@[i] == (ArtifactCommentDraft {
                    stale: opt_view(current@[i]) != Some(s[i].artifact_hash@),
                    ..s[i]
                }),
        decreases rest@.len(),
    {
        let mut x = rest.remove(0);
        proof {
            assert(x == s[k as int]);
            assert(rest@ =~= s.skip(k + 1));
        }
        let fresh = match &current[k] {
            Some(h) => str_eq(h.as_str(), x.artifact_hash.as_str()),
            None => false,
        };
        x.stale = !fresh;
        out.push(x);
        k = k + 1;
    }
    out
}

// ---- the pending review ---------------------------------------------------------

/// The marker of a review handed to the agent: which artifact, which review file, and the
/// artifact's hash when it was sent.
pub struct ArtifactReviewPending {
    pub version: u32,
    pub artifact: String,
    pub review: String,
    pub artifact_hash_at_send: String,
    pub created_at_ms: u64,
}

/// The marker written when `review` of `artifact` (hashed `artifact_hash`) is handed over.
pub fn new_review_pending(artifact: &str, review: String, artifact_hash: String, created_at_ms: u64) -> (r:
    ArtifactReviewPending)
    ensures
        r.version == 1,
        r.artifact@ == artifact@,
        r.review == review,
        r.artifact_hash_at_send == artifact_hash,
        r.created_at_ms == created_at_ms,
{
    ArtifactReviewPending { version: 1, artifact: owned(artifact), review, artifact_hash_at_send: artifact_hash, created_at_ms }
}

/// What a stored marker means for `artifact`.
pub enum PendingStep {
    /// The marker is for another artifact, or the artifact changed since: remove it.
    Stale,
    /// The artifact's current hash decides; ask again with it.
    NeedsHash,
    /// The review is still pending.
    Current { artifact: String, review: String },
}

/// Read a stored marker for `artifact`, given the artifact's hash now once it is needed.
pub fn pending_step(pending: &ArtifactReviewPending, artifact: &str, current_hash: Option<&str>) -> (r: PendingStep)
    ensures
        pending.artifact@ != artifact@ ==> r is Stale,
        pending.artifact@ == artifact@ ==> match current_hash {
            Some(h) => if h@ == pending.artifact_hash_at_send@ {
                r matches PendingStep::Current { artifact: a, review: v } && a@ == pending.artifact@ && v@
                    == pending.review@
            } else {
                r is Stale
            },
            None => r is NeedsHash,
        },
{
    if !str_eq(pending.artifact.as_str(), artifact) {
        return PendingStep::Stale;
    }
    match current_hash {
        None => PendingStep::NeedsHash,
        Some(h) => if str_eq(h, pending.artifact_hash_at_send.as_str()) {
            PendingStep::Current { artifact: owned(pending.artifact.as_str()), review: owned(pending.review.as_str()) }
        } else {
            PendingStep::Stale
        },
    }
}

/// Whether the stored marker already records this review of this artifact, so that a
/// repeated finalization writes nothing.
pub fn pending_records(pending: &Option<ArtifactReviewPending>, artifact: &str, review: &str) -> (r: bool)
    ensures
        r == (pending matches Some(p) && p.artifact@ == artifact@ && p.review@ == review@),
{
    match pending {
        Some(p) => str_eq(p.artifact.as_str(), artifact) && str_eq(p.review.as_str(), review),
        None => false,
    }
}

/// Whether the comments markdown on disk is the one the review was prepared from; only
/// then are the comment files cleared.
pub fn markdown_matches_prepared(markdown: Option<&str>, comments_hash: &str) -> (r: bool)
    ensures
        r == (markdown matches Some(m) && hex_fixed(fnv1a64(m.spec_bytes()) as nat, 16) == comments_hash@),
{
    match markdown {
        Some(m) => {
            let h = artifact_text_hash(m);
            str_eq(h.as_str(), comments_hash)
        },
        None => false,
    }
}


// ---- what the lists keep ----------------------------------------------------------

proof fn lemma_comment_order_weak()
    ensures
        weak_order(by_comment_order()),
{
    assert forall|a: ArtifactComment, b: ArtifactComment| #[trigger]
        by_comment_order()(a, b) implies !by_comment_order()(b, a) by {}
    assert forall|a: ArtifactComment, b: ArtifactComment, x: ArtifactComment|
        #![trigger by_comment_order()(a, x), by_comment_order()(a, b)]
        by_comment_order()(a, x) && !by_comment_order()(a, b) implies by_comment_order()(b, x) by {}
}

proof fn lemma_draft_order_weak()
    ensures
        weak_order(by_draft_order()),
{
    assert forall|a: ArtifactCommentDraft, b: ArtifactCommentDraft| #[trigger]
        by_draft_order()(a, b) implies !by_draft_order()(b, a) by {
        lemma_seq_lt_irreflexive(a.artifact@);
        if seq_lt(b.artifact@, a.artifact@) {
            lemma_seq_lt_asymmetric(b.artifact@, a.artifact@);
        }
    }
    assert forall|a: ArtifactCommentDraft, b: ArtifactCommentDraft, x: ArtifactCommentDraft|
        #![trigger by_draft_order()(a, x), by_draft_order()(a, b)]
        by_draft_order()(a, x) && !by_draft_order()(a, b) implies by_draft_order()(b, x) by {
        lemma_seq_lt_total(a.artifact@, b.artifact@);
        lemma_seq_lt_irreflexive(a.artifact@);
        if seq_lt(x.artifact@, a.artifact@) && seq_lt(a.artifact@, b.artifact@) {
            lemma_seq_lt_transitive(x.artifact@, a.artifact@, b.artifact@);
        }
    }
}

/// A draft's anchor: its artifact and anchor id.
pub open spec fn draft_key() -> spec_fn(ArtifactCommentDraft) -> (Seq<char>, Seq<char>) {
    |d: ArtifactCommentDraft| (d.artifact@, d.anchor_id@)
}

proof fn lemma_other_drafts(s: Seq<ArtifactCommentDraft>, artifact: Seq<char>, anchor_id: Seq<char>)
    ensures
        forall|y: ArtifactCommentDraft| #[trigger]
            other_drafts(s, artifact, anchor_id).contains(y) ==> s.contains(y) && draft_key()(y) != (artifact, anchor_id),
        unique_by(s, draft_key()) ==> unique_by(other_drafts(s, artifact, anchor_id), draft_key()),
    decreases s.len(),
{
    if s.len() > 0 {
        let s0 = s.drop_last();
        lemma_other_drafts(s0, artifact, anchor_id);
        let r0 = other_drafts(s0, artifact, anchor_id);
        let r = other_drafts(s, artifact, anchor_id);
        assert forall|y: ArtifactCommentDraft| #[trigger] r.contains(y) implies s.contains(y) && draft_key()(y) != (
            artifact,
            anchor_id,
        ) by {
            let j = choose|j: int| 0 <= j < r.len() && r[j] == y;
            if j < r0.len() {
                assert(r0[j] == y);
                assert(r0.contains(y));
                let q = choose|q: int| 0 <= q < s0.len() && s0[q] == y;
                assert(s[q] == y);
            } else {
                assert(y == s.last());
                assert(s[s.len() - 1] == y);
            }
        }
        if unique_by(s, draft_key()) {
            assert(unique_by(s0, draft_key())) by {
                assert forall|a: int, b: int| 0 <= a < b < s0.len() implies draft_key()(#[trigger] s0[a]) != draft_key()(
                    #[trigger] s0[b],
                ) by {
                    assert(s0[a] == s[a] && s0[b] == s[b]);
                }
            }
            if r.len() > r0.len() {
                assert forall|a: int, b: int| 0 <= a < b < r.len() implies draft_key()(#[trigger] r[a]) != draft_key()(
                    #[trigger] r[b],
                ) by {
                    if b == r.len() - 1 {
                        assert(r[b] == s.last());
                        assert(r0[a] == r[a]);
                        assert(r0.contains(r[a]));
                        let q = choose|q: int| 0 <= q < s0.len() && s0[q] == r[a];
                        assert(s[q] == s0[q]);
                        assert(s[s.len() - 1] == s.last());
                    } else {
                        assert(r0[a] == r[a] && r0[b] == r[b]);
                    }
                }
            }
        }
    }
}

/// However the stored drafts were ordered, they come back ordered by artifact name, then by
/// the line they start on, then by the time they were saved.
pub proof fn law_drafts_by_artifact_line_time(drafts: Seq<ArtifactCommentDraft>)
    ensures
        stable_sort(drafts, by_draft_order()).len() == drafts.len(),
        forall|i: int, j: int|
            0 <= i < j < drafts.len() ==> seq_lt(
                (#[trigger] stable_sort(drafts, by_draft_order())[i]).artifact@,
                (#[trigger] stable_sort(drafts, by_draft_order())[j]).artifact@,
            ) || (stable_sort(drafts, by_draft_order())[i].artifact@ == stable_sort(drafts, by_draft_order())[j].artifact@
                && (stable_sort(drafts, by_draft_order())[i].line_start < stable_sort(drafts, by_draft_order())[j].line_start
                || (stable_sort(drafts, by_draft_order())[i].line_start == stable_sort(drafts, by_draft_order())[j].line_start
                && stable_sort(drafts, by_draft_order())[i].updated_at_ms <= stable_sort(
                drafts,
                by_draft_order(),
            )[j].updated_at_ms))),
{
    lemma_draft_order_weak();
    lemma_stable_sort_sorted(drafts, by_draft_order());
    lemma_stable_sort_len(drafts, by_draft_order());
    let r = stable_sort(drafts, by_draft_order());
    assert forall|i: int, j: int| 0 <= i < j < drafts.len() implies seq_lt((#[trigger] r[i]).artifact@, (#[trigger] r[j]).artifact@) || (
        r[i].artifact@ == r[j].artifact@ && (r[i].line_start < r[j].line_start || (r[i].line_start == r[j].line_start
        && r[i].updated_at_ms <= r[j].updated_at_ms))) by {
        assert(!by_draft_order()(r[i], r[j]));
        lemma_seq_lt_total(r[i].artifact@, r[j].artifact@);
    }
}

/// However the stored list was ordered, the comments come back ordered by the line they
/// start on, and comments starting on the same line by the time they were made.
pub proof fn law_comments_by_line_then_time(comments: Seq<ArtifactComment>)
    ensures
        stable_sort(comments, by_comment_order()).len() == comments.len(),
        forall|i: int, j: int|
            0 <= i < j < comments.len() ==> (#[trigger] stable_sort(comments, by_comment_order())[i]).line_start
                < (#[trigger] stable_sort(comments, by_comment_order())[j]).line_start || (stable_sort(
                comments,
                by_comment_order(),
            )[i].line_start == stable_sort(comments, by_comment_order())[j].line_start && stable_sort(
                comments,
                by_comment_order(),
            )[i].created_at_ms <= stable_sort(comments, by_comment_order())[j].created_at_ms),
{
    lemma_comment_order_weak();
    lemma_stable_sort_sorted(comments, by_comment_order());
    lemma_stable_sort_len(comments, by_comment_order());
    let r = stable_sort(comments, by_comment_order());
    assert forall|i: int, j: int| 0 <= i < j < comments.len() implies (#[trigger] r[i]).line_start < (#[trigger] r[j]).line_start || (
        r[i].line_start == r[j].line_start && r[i].created_at_ms <= r[j].created_at_ms) by {
        assert(!by_comment_order()(r[i], r[j]));
    }
}

/// Comments come back in line order, then in the order they were made, however the stored
/// list was ordered.
pub proof fn law_comments_in_line_order(comments: Seq<ArtifactComment>)
    ensures
        sorted_by(stable_sort(comments, by_comment_order()), by_comment_order()),
{
    lemma_comment_order_weak();
    lemma_stable_sort_sorted(comments, by_comment_order());
}

/// Adding a comment keeps every comment, and since the new id is none of the others,
/// distinct ids stay distinct.
pub proof fn law_comment_ids_stay_distinct(comments: Seq<ArtifactComment>, c: ArtifactComment, ms: nat)
    requires
        unique_by(comments, comment_id_key()),
        fresh_id_ok(c.id@, comment_ids(comments), ms),
    ensures
        unique_by(stable_sort(comments.push(c), by_comment_order()), comment_id_key()),
        forall|x: ArtifactComment| #[trigger]
            stable_sort(comments.push(c), by_comment_order()).contains(x) <==> comments.push(c).contains(x),
{
    let all = comments.push(c);
    assert(unique_by(all, comment_id_key())) by {
        assert forall|a: int, b: int| 0 <= a < b < all.len() implies comment_id_key()(#[trigger] all[a])
            != comment_id_key()(#[trigger] all[b]) by {
            if b == comments.len() {
                assert(all[a] == comments[a]);
                assert(comment_ids(comments)[a] == comments[a].id@);
            } else {
                assert(all[a] == comments[a] && all[b] == comments[b]);
            }
        }
    }
    lemma_stable_sort_keys(all, by_comment_order(), comment_id_key());
}

/// Drafts come back by artifact, then line, then time, however the stored list was
/// ordered.
pub proof fn law_drafts_in_order(drafts: Seq<ArtifactCommentDraft>)
    ensures
        sorted_by(stable_sort(drafts, by_draft_order()), by_draft_order()),
{
    lemma_draft_order_weak();
    lemma_stable_sort_sorted(drafts, by_draft_order());
}

/// Saving a draft leaves one draft for its anchor, the saved one; the other anchors'
/// drafts are kept, and one draft per anchor stays one draft per anchor.
pub proof fn law_one_draft_per_anchor(drafts: Seq<ArtifactCommentDraft>, d: ArtifactCommentDraft)
    ensures
        ({
            let out = stable_sort(other_drafts(drafts, d.artifact@, d.anchor_id@).push(d), by_draft_order());
            &&& out.contains(d)
            &&& forall|y: ArtifactCommentDraft| #[trigger]
                out.contains(y) && draft_key()(y) == draft_key()(d) ==> y == d
            &&& forall|y: ArtifactCommentDraft| #[trigger]
                drafts.contains(y) && draft_key()(y) != draft_key()(d) ==> out.contains(y)
            &&& unique_by(drafts, draft_key()) ==> unique_by(out, draft_key())
        }),
{
    let kept = other_drafts(drafts, d.artifact@, d.anchor_id@);
    let all = kept.push(d);
    lemma_other_drafts(drafts, d.artifact@, d.anchor_id@);
    lemma_other_drafts_keeps(drafts, d.artifact@, d.anchor_id@);
    lemma_stable_sort_keys(all, by_draft_order(), draft_key());
    assert(all[kept.len() as int] == d);
    assert(all.contains(d));
    assert forall|y: ArtifactCommentDraft| #[trigger]
        all.contains(y) && draft_key()(y) == draft_key()(d) implies y == d by {
        let j = choose|j: int| 0 <= j < all.len() && all[j] == y;
        if j < kept.len() {
            assert(kept[j] == y);
            assert(kept.contains(y));
        }
    }
    assert forall|y: ArtifactCommentDraft| #[trigger]
        drafts.contains(y) && draft_key()(y) != draft_key()(d) implies all.contains(y) by {
        assert(kept.contains(y));
        let j = choose|j: int| 0 <= j < kept.len() && kept[j] == y;
        assert(all[j] == y);
    }
    if unique_by(drafts, draft_key()) {
        assert(unique_by(all, draft_key())) by {
            assert forall|a: int, b: int| 0 <= a < b < all.len() implies draft_key()(#[trigger] all[a]) != draft_key()(
                #[trigger] all[b],
            ) by {
                if b == kept.len() {
                    assert(all[a] == kept[a]);
                    assert(kept.contains(kept[a]));
                } else {
                    assert(all[a] == kept[a] && all[b] == kept[b]);
                }
            }
        }
    }
}

proof fn lemma_other_drafts_keeps(s: Seq<ArtifactCommentDraft>, artifact: Seq<char>, anchor_id: Seq<char>)
    ensures
        forall|y: ArtifactCommentDraft| #[trigger]
            s.contains(y) && draft_key()(y) != (artifact, anchor_id) ==> other_drafts(s, artifact, anchor_id).contains(y),
    decreases s.len(),
{
    if s.len() > 0 {
        let s0 = s.drop_last();
        lemma_other_drafts_keeps(s0, artifact, anchor_id);
        let r0 = other_drafts(s0, artifact, anchor_id);
        let r = other_drafts(s, artifact, anchor_id);
        assert forall|y: ArtifactCommentDraft| #[trigger]
            s.contains(y) && draft_key()(y) != (artifact, anchor_id) implies r.contains(y) by {
            let j = choose|j: int| 0 <= j < s.len() && s[j] == y;
            if j == s.len() - 1 {
                assert(r[r.len() - 1] == y);
            } else {
                assert(s0[j] == y);
                assert(s0.contains(y));
                assert(r0.contains(y));
                let q = choose|q: int| 0 <= q < r0.len() && r0[q] == y;
                assert(r[q] == y);
            }
        }
    }
}

/// Saving a draft at an anchor: a blank `body` drops the anchor's draft, and any other
/// body is saved as [`save_draft`] saves it, with `artifact_hash` the hash of the
/// artifact's current text (read only when the body is not blank).
pub fn edit_draft(
    drafts: Vec<ArtifactCommentDraft>,
    artifact: &str,
    anchor_id: String,
    anchor_kind: String,
    anchor_label: &str,
    anchor_excerpt: &str,
    line_start: u32,
    line_end: u32,
    body: String,
    artifact_hash: Option<String>,
    updated_at_ms: u64,
) -> (r: Vec<ArtifactCommentDraft>)
    requires
        body@.len() > 0 ==> artifact_hash is Some,
    ensures
        body@.len() == 0 ==> r@ == other_drafts(drafts@, artifact@, anchor_id@),
        body@.len() > 0 ==> exists|d: ArtifactCommentDraft|
            #![trigger saved_draft(d, artifact@, anchor_id@, anchor_kind@, anchor_label@, anchor_excerpt@, line_start, line_end, body@, artifact_hash->0@, updated_at_ms)]
            saved_draft(
                d,
                artifact@,
                anchor_id@,
                anchor_kind@,
                anchor_label@,
                anchor_excerpt@,
                line_start,
                line_end,
                body@,
                artifact_hash->0@,
                updated_at_ms,
            ) && r@ == stable_sort(other_drafts(drafts@, artifact@, anchor_id@).push(d), by_draft_order()),
{
    if body.unicode_len() == 0 {
        return remove_draft(drafts, artifact, anchor_id.as_str());
    }
    let hash = match artifact_hash {
        Some(h) => h,
        None => {
            proof {
                assert(false);
            }
            String::new()
        },
    };
    save_draft(
        drafts,
        artifact,
        anchor_id,
        anchor_kind,
        anchor_label,
        anchor_excerpt,
        line_start,
        line_end,
        body,
        hash,
        updated_at_ms,
    )
}

} // verus!
