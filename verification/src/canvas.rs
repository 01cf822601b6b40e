//! The Orbitron board's sidecar: what a stored board must satisfy before it is read or
//! written, and the normal form of its relations.
//!
//! The geometry is floating point and the component check belongs to the task store, so
//! the caller hands in, per item, whether its name is a safe path component and whether
//! its numbers are finite; the rules over those facts live here.
use vstd::prelude::*;
use crate::text::{
    chars_lt, chars_of, lemma_seq_lt_asymmetric, lemma_seq_lt_irreflexive, lemma_seq_lt_total, owned, seq_lt, str_eq,
};

verus! {

/// The version of the board file this app reads and writes.
pub const CANVAS_DOC_VERSION: u32 = 1;

/// How two tasks on the board relate.
#[derive(Clone, Copy, PartialEq, Eq, Structural)]
pub enum CanvasRelationKind {
    Blocks,
    Surface,
    Informs,
}

/// A relation between two tasks, by slug.
pub struct CanvasRelation {
    pub a: String,
    pub b: String,
    pub kind: CanvasRelationKind,
}

/// A concept hull as the rules read it.
pub struct ConceptFacts {
    pub id: String,
    /// Whether the id is a safe path component.
    pub id_safe: bool,
    /// Whether its position and size are finite.
    pub finite: bool,
}

/// A task placement as the rules read it.
pub struct PlacementFacts {
    pub slug: String,
    /// Whether the slug is a safe path component.
    pub slug_safe: bool,
    /// Whether its position is finite.
    pub finite: bool,
}

/// A board as the rules read it. Placements come in key order; `endpoints_safe[i]` says
/// whether each endpoint of `relations[i]` is a safe path component.
pub struct CanvasFacts {
    pub version: u32,
    pub concepts: Vec<ConceptFacts>,
    pub placements: Vec<PlacementFacts>,
    pub relations: Vec<CanvasRelation>,
    pub endpoints_safe: Vec<(bool, bool)>,
    pub camera_finite: bool,
    pub scale_finite_positive: bool,
}

/// Why a board is refused.
pub enum CanvasError {
    UnsupportedVersion(u32),
    UnsafeConceptId(String),
    DuplicateConceptId(String),
    NonFiniteConcept(String),
    UnsafePlacementKey(String),
    NonFinitePlacement(String),
    UnsafeRelationEndpoint(String, String),
    SelfRelation(String),
    CameraNotFinite,
    BadScale,
}

/// A refusal, over the views of its names.
pub enum CanvasFault {
    UnsupportedVersion(u32),
    UnsafeConceptId(Seq<char>),
    DuplicateConceptId(Seq<char>),
    NonFiniteConcept(Seq<char>),
    UnsafePlacementKey(Seq<char>),
    NonFinitePlacement(Seq<char>),
    UnsafeRelationEndpoint(Seq<char>, Seq<char>),
    SelfRelation(Seq<char>),
    CameraNotFinite,
    BadScale,
}

pub open spec fn fault_of(e: CanvasError) -> CanvasFault {
    match e {
        CanvasError::UnsupportedVersion(v) => CanvasFault::UnsupportedVersion(v),
        CanvasError::UnsafeConceptId(s) => CanvasFault::UnsafeConceptId(s@),
        CanvasError::DuplicateConceptId(s) => CanvasFault::DuplicateConceptId(s@),
        CanvasError::NonFiniteConcept(s) => CanvasFault::NonFiniteConcept(s@),
        CanvasError::UnsafePlacementKey(s) => CanvasFault::UnsafePlacementKey(s@),
        CanvasError::NonFinitePlacement(s) => CanvasFault::NonFinitePlacement(s@),
        CanvasError::UnsafeRelationEndpoint(a, b) => CanvasFault::UnsafeRelationEndpoint(a@, b@),
        CanvasError::SelfRelation(s) => CanvasFault::SelfRelation(s@),
        CanvasError::CameraNotFinite => CanvasFault::CameraNotFinite,
        CanvasError::BadScale => CanvasFault::BadScale,
    }
}

/// A relation's endpoints and kind.
pub type RelView = (Seq<char>, Seq<char>, CanvasRelationKind);

pub open spec fn rel_view(r: CanvasRelation) -> RelView {
    (r.a@, r.b@, r.kind)
}

pub open spec fn rel_views(rs: Seq<CanvasRelation>) -> Seq<RelView> {
    rs.map_values(|r: CanvasRelation| rel_view(r))
}

/// The endpoints of a relation, smaller first.
pub open spec fn sorted_pair(r: RelView) -> (Seq<char>, Seq<char>) {
    if seq_lt(r.1, r.0) {
        (r.1, r.0)
    } else {
        (r.0, r.1)
    }
}

/// The first relation of `out` between `a` and `b`.
pub open spec fn find_pair(out: Seq<RelView>, a: Seq<char>, b: Seq<char>) -> Option<int>
    decreases out.len(),
{
    if out.len() == 0 {
        None
    } else {
        match find_pair(out.drop_last(), a, b) {
            Some(i) => Some(i),
            None => if out.last().0 == a && out.last().1 == b {
                Some(out.len() - 1)
            } else {
                None
            },
        }
    }
}

/// Add one relation to the relations normalized so far.
pub open spec fn norm_step(out: Seq<RelView>, r: RelView, safe: (bool, bool)) -> Result<Seq<RelView>, CanvasFault> {
    if !safe.0 || !safe.1 {
        Err(CanvasFault::UnsafeRelationEndpoint(r.0, r.1))
    } else if r.0 == r.1 {
        Err(CanvasFault::SelfRelation(r.0))
    } else {
        let p = sorted_pair(r);
        match find_pair(out, p.0, p.1) {
            Some(i) => Ok(out.update(i, (p.0, p.1, r.2))),
            None => Ok(out.push((p.0, p.1, r.2))),
        }
    }
}

/// The normal form of a board's relations: each pair once, smaller slug first, in the
/// order pairs first appear, with the kind the last relation of that pair gave it.
pub open spec fn normalized(rels: Seq<RelView>, safe: Seq<(bool, bool)>) -> Result<Seq<RelView>, CanvasFault>
    decreases rels.len(),
{
    if rels.len() == 0 {
        Ok(seq![])
    } else {
        match normalized(rels.drop_last(), safe.take(rels.len() - 1)) {
            Err(e) => Err(e),
            Ok(out) => norm_step(out, rels.last(), safe[rels.len() - 1]),
        }
    }
}

/// The kind the last relation between `a` and `b` gives them.
pub open spec fn last_kind(rels: Seq<RelView>, a: Seq<char>, b: Seq<char>) -> Option<CanvasRelationKind>
    decreases rels.len(),
{
    if rels.len() == 0 {
        None
    } else if sorted_pair(rels.last()) == (a, b) {
        Some(rels.last().2)
    } else {
        last_kind(rels.drop_last(), a, b)
    }
}

proof fn lemma_find_pair(out: Seq<RelView>, a: Seq<char>, b: Seq<char>)
    ensures
        match find_pair(out, a, b) {
            Some(i) => 0 <= i < out.len() && out[i].0 == a && out[i].1 == b,
            None => forall|i: int| 0 <= i < out.len() ==> !(out[i].0 == a && out[i].1 == b),
        },
    decreases out.len(),
{
    if out.len() > 0 {
        lemma_find_pair(out.drop_last(), a, b);
        match find_pair(out.drop_last(), a, b) {
            Some(i) => {},
            None => {
                assert forall|i: int| 0 <= i < out.len() - 1 implies !(out[i].0 == a && out[i].1 == b) by {
                    assert(out.drop_last()[i] == out[i]);
                }
            },
        }
    }
}

fn find_pair_exec(out: &Vec<CanvasRelation>, a: &str, b: &str) -> (r: Option<usize>)
    ensures
        match r {
            Some(i) => find_pair(rel_views(out@), a@, b@) == Some(i as int),
            None => find_pair(rel_views(out@), a@, b@) is None,
        },
{
    let ghost v = rel_views(out@);
    let mut i: usize = 0;
    assert(v.take(0) =~= Seq::<RelView>::empty());
    while i < out.len()
        invariant
            v == rel_views(out@),
            i <= out@.len(),
            find_pair(v.take(i as int), a@, b@) is None,
        decreases out@.len() - i,
    {
        proof {
            assert(v.take(i + 1).drop_last() =~= v.take(i as int));
            assert(v.take(i + 1).last() == rel_view(out@[i as int]));
        }
        if str_eq(out[i].a.as_str(), a) && str_eq(out[i].b.as_str(), b) {
            proof {
                lemma_find_pair_prefix(v, i as int, a@, b@);
            }
            return Some(i);
        }
        i = i + 1;
    }
    assert(v.take(i as int) =~= v);
    None
}

proof fn lemma_find_pair_prefix(v: Seq<RelView>, i: int, a: Seq<char>, b: Seq<char>)
    requires
        0 <= i < v.len(),
        find_pair(v.take(i), a, b) is None,
        v[i].0 == a && v[i].1 == b,
    ensures
        find_pair(v, a, b) == Some(i),
    decreases v.len(),
{
    if v.len() - 1 == i {
        assert(v.drop_last() =~= v.take(i));
    } else {
        assert(v.drop_last().take(i) =~= v.take(i));
        lemma_find_pair_prefix(v.drop_last(), i, a, b);
    }
}

proof fn lemma_norm_err(rels: Seq<RelView>, safe: Seq<(bool, bool)>, k: int)
    requires
        0 <= k <= rels.len(),
        safe.len() == rels.len(),
        normalized(rels.take(k), safe.take(k)) is Err,
    ensures
        normalized(rels, safe) == normalized(rels.take(k), safe.take(k)),
    decreases rels.len(),
{
    if rels.len() == k {
        assert(rels.take(k) =~= rels);
        assert(safe.take(k) =~= safe);
    } else {
        let r2 = rels.drop_last();
        let s2 = safe.take(rels.len() - 1);
        assert(r2.take(k) =~= rels.take(k));
        assert(s2.take(k) =~= safe.take(k));
        lemma_norm_err(r2, s2, k);
    }
}

/// Put a board's relations in normal form; see [`normalized`].
pub fn normalize_relations(relations: Vec<CanvasRelation>, endpoints_safe: &Vec<(bool, bool)>) -> (r: Result<
    Vec<CanvasRelation>,
    CanvasError,
>)
    requires
        endpoints_safe@.len() == relations@.len(),
    ensures
        match r {
            Ok(out) => normalized(rel_views(relations@), endpoints_safe@) == Ok::<Seq<RelView>, CanvasFault>(
                rel_views(out@),
            ),
            Err(e) => normalized(rel_views(relations@), endpoints_safe@) == Err::<Seq<RelView>, CanvasFault>(
                fault_of(e),
            ),
        },
{
    let ghost all = rel_views(relations@);
    let n = relations.len();
    let mut out: Vec<CanvasRelation> = Vec::new();
    let mut i: usize = 0;
    assert(all.take(0) =~= Seq::<RelView>::empty());
    assert(endpoints_safe@.take(0) =~= Seq::<(bool, bool)>::empty());
    assert(rel_views(out@) =~= Seq::<RelView>::empty());
    while i < n
        invariant
            all == rel_views(relations@),
            n == relations@.len(),
            endpoints_safe@.len() == n,
            i <= n,
            normalized(all.take(i as int), endpoints_safe@.take(i as int)) == Ok::<Seq<RelView>, CanvasFault>(
                rel_views(out@),
            ),
        decreases n - i,
    {
        let ghost before = rel_views(out@);
        proof {
            assert(all.take(i + 1).drop_last() =~= all.take(i as int));
            assert(endpoints_safe@.take(i + 1).take(i as int) =~= endpoints_safe@.take(i as int));
            assert(all.take(i + 1).last() == rel_view(relations@[i as int]));
            assert(endpoints_safe@.take(i + 1)[i as int] == endpoints_safe@[i as int]);
        }
        let r = &relations[i];
        let (sa, sb) = endpoints_safe[i];
        if !sa || !sb {
            proof {
                lemma_norm_err(all, endpoints_safe@, i + 1);
            }
            return Err(CanvasError::UnsafeRelationEndpoint(owned(r.a.as_str()), owned(r.b.as_str())));
        }
        if str_eq(r.a.as_str(), r.b.as_str()) {
            proof {
                lemma_norm_err(all, endpoints_safe@, i + 1);
            }
            return Err(CanvasError::SelfRelation(owned(r.a.as_str())));
        }
        let av = chars_of(r.a.as_str());
        let bv = chars_of(r.b.as_str());
        let (a, b) = if chars_lt(bv.as_slice(), av.as_slice()) {
            (owned(r.b.as_str()), owned(r.a.as_str()))
        } else {
            (owned(r.a.as_str()), owned(r.b.as_str()))
        };
        assert((a@, b@) == sorted_pair(rel_view(*r)));
        proof {
            lemma_find_pair(before, a@, b@);
        }
        match find_pair_exec(&out, a.as_str(), b.as_str()) {
            Some(at) => {
                out.set(at, CanvasRelation { a, b, kind: r.kind });
                assert(rel_views(out@) =~= before.update(
                    at as int,
                    (sorted_pair(rel_view(*r)).0, sorted_pair(rel_view(*r)).1, r.kind),
                ));
            },
            None => {
                out.push(CanvasRelation { a, b, kind: r.kind });
                assert(rel_views(out@) =~= before.push(
                    (sorted_pair(rel_view(*r)).0, sorted_pair(rel_view(*r)).1, r.kind),
                ));
            },
        }
        i = i + 1;
    }
    assert(all.take(n as int) =~= all);
    assert(endpoints_safe@.take(n as int) =~= endpoints_safe@);
    Ok(out)
}

/// A concept's id, safety and finiteness.
pub open spec fn concept_view(c: ConceptFacts) -> (Seq<char>, bool, bool) {
    (c.id@, c.id_safe, c.finite)
}

pub open spec fn concept_views(cs: Seq<ConceptFacts>) -> Seq<(Seq<char>, bool, bool)> {
    cs.map_values(|c: ConceptFacts| concept_view(c))
}

/// The first fault among the concepts: an unsafe id, an id seen before, or geometry that
/// is not finite, checked in that order for each concept in turn.
pub open spec fn concept_fault(cs: Seq<(Seq<char>, bool, bool)>) -> Option<CanvasFault>
    decreases cs.len(),
{
    if cs.len() == 0 {
        None
    } else {
        match concept_fault(cs.drop_last()) {
            Some(e) => Some(e),
            None => {
                let c = cs.last();
                if !c.1 {
                    Some(CanvasFault::UnsafeConceptId(c.0))
                } else if exists|k: int| 0 <= k < cs.len() - 1 && #[trigger] cs[k].0 == c.0 {
                    Some(CanvasFault::DuplicateConceptId(c.0))
                } else if !c.2 {
                    Some(CanvasFault::NonFiniteConcept(c.0))
                } else {
                    None
                }
            },
        }
    }
}

pub open spec fn placement_view(p: PlacementFacts) -> (Seq<char>, bool, bool) {
    (p.slug@, p.slug_safe, p.finite)
}

pub open spec fn placement_views(ps: Seq<PlacementFacts>) -> Seq<(Seq<char>, bool, bool)> {
    ps.map_values(|p: PlacementFacts| placement_view(p))
}

/// The first placement with an unsafe key or a position that is not finite.
pub open spec fn placement_fault(ps: Seq<(Seq<char>, bool, bool)>) -> Option<CanvasFault>
    decreases ps.len(),
{
    if ps.len() == 0 {
        None
    } else {
        match placement_fault(ps.drop_last()) {
            Some(e) => Some(e),
            None => {
                let p = ps.last();
                if !p.1 {
                    Some(CanvasFault::UnsafePlacementKey(p.0))
                } else if !p.2 {
                    Some(CanvasFault::NonFinitePlacement(p.0))
                } else {
                    None
                }
            },
        }
    }
}

/// A board is accepted when its version is this app's, its concepts and placements are
/// sound, its relations normalize, and its camera is finite with a positive scale; what
/// is kept is the normalized relations.
pub open spec fn validated(f: CanvasFacts) -> Result<Seq<RelView>, CanvasFault> {
    if f.version != CANVAS_DOC_VERSION {
        Err(CanvasFault::UnsupportedVersion(f.version))
    } else {
        match concept_fault(concept_views(f.concepts@)) {
            Some(e) => Err(e),
            None => match placement_fault(placement_views(f.placements@)) {
                Some(e) => Err(e),
                None => match normalized(rel_views(f.relations@), f.endpoints_safe@) {
                    Err(e) => Err(e),
                    Ok(out) => if !f.camera_finite {
                        Err(CanvasFault::CameraNotFinite)
                    } else if !f.scale_finite_positive {
                        Err(CanvasFault::BadScale)
                    } else {
                        Ok(out)
                    },
                },
            },
        }
    }
}

proof fn lemma_concept_fault_prefix(cs: Seq<(Seq<char>, bool, bool)>, k: int)
    requires
        0 <= k <= cs.len(),
        concept_fault(cs.take(k)) is Some,
    ensures
        concept_fault(cs) == concept_fault(cs.take(k)),
    decreases cs.len(),
{
    if cs.len() == k {
        assert(cs.take(k) =~= cs);
    } else {
        assert(cs.drop_last().take(k) =~= cs.take(k));
        lemma_concept_fault_prefix(cs.drop_last(), k);
    }
}

proof fn lemma_placement_fault_prefix(ps: Seq<(Seq<char>, bool, bool)>, k: int)
    requires
        0 <= k <= ps.len(),
        placement_fault(ps.take(k)) is Some,
    ensures
        placement_fault(ps) == placement_fault(ps.take(k)),
    decreases ps.len(),
{
    if ps.len() == k {
        assert(ps.take(k) =~= ps);
    } else {
        assert(ps.drop_last().take(k) =~= ps.take(k));
        lemma_placement_fault_prefix(ps.drop_last(), k);
    }
}

fn check_concepts(cs: &Vec<ConceptFacts>) -> (r: Option<CanvasError>)
    ensures
        match r {
            Some(e) => concept_fault(concept_views(cs@)) == Some(fault_of(e)),
            None => concept_fault(concept_views(cs@)) is None,
        },
{
    let ghost all = concept_views(cs@);
    let mut i: usize = 0;
    assert(all.take(0) =~= Seq::<(Seq<char>, bool, bool)>::empty());
    while i < cs.len()
        invariant
            all == concept_views(cs@),
            i <= cs@.len(),
            concept_fault(all.take(i as int)) is None,
        decreases cs@.len() - i,
    {
        let ghost pre = all.take(i + 1);
        proof {
            assert(pre.drop_last() =~= all.take(i as int));
            assert(pre.last() == concept_view(cs@[i as int]));
        }
        let c = &cs[i];
        if !c.id_safe {
            proof {
                lemma_concept_fault_prefix(all, i + 1);
            }
            return Some(CanvasError::UnsafeConceptId(owned(c.id.as_str())));
        }
        let mut j: usize = 0;
        let mut dup = false;
        while j < i && !dup
            invariant
                all == concept_views(cs@),
                i < cs@.len(),
                j <= i,
                pre == all.take(i + 1),
                *c == cs@[i as int],
                dup ==> j < i && pre[j as int].0 == cs@[i as int].id@,
                !dup ==> forall|k: int| 0 <= k < j ==> pre[k].0 != cs@[i as int].id@,
            decreases i - j + if dup {
                0int
            } else {
                1int
            },
        {
            assert(pre[j as int] == concept_view(cs@[j as int]));
            if str_eq(cs[j].id.as_str(), c.id.as_str()) {
                dup = true;
            } else {
                j = j + 1;
            }
        }
        if dup {
            proof {
                lemma_concept_fault_prefix(all, i + 1);
            }
            return Some(CanvasError::DuplicateConceptId(owned(c.id.as_str())));
        }
        if !c.finite {
            proof {
                lemma_concept_fault_prefix(all, i + 1);
            }
            return Some(CanvasError::NonFiniteConcept(owned(c.id.as_str())));
        }
        i = i + 1;
    }
    assert(all.take(i as int) =~= all);
    None
}

fn check_placements(ps: &Vec<PlacementFacts>) -> (r: Option<CanvasError>)
    ensures
        match r {
            Some(e) => placement_fault(placement_views(ps@)) == Some(fault_of(e)),
            None => placement_fault(placement_views(ps@)) is None,
        },
{
    let ghost all = placement_views(ps@);
    let mut i: usize = 0;
    assert(all.take(0) =~= Seq::<(Seq<char>, bool, bool)>::empty());
    while i < ps.len()
        invariant
            all == placement_views(ps@),
            i <= ps@.len(),
            placement_fault(all.take(i as int)) is None,
        decreases ps@.len() - i,
    {
        proof {
            assert(all.take(i + 1).drop_last() =~= all.take(i as int));
            assert(all.take(i + 1).last() == placement_view(ps@[i as int]));
        }
        let p = &ps[i];
        if !p.slug_safe {
            proof {
                lemma_placement_fault_prefix(all, i + 1);
            }
            return Some(CanvasError::UnsafePlacementKey(owned(p.slug.as_str())));
        }
        if !p.finite {
            proof {
                lemma_placement_fault_prefix(all, i + 1);
            }
            return Some(CanvasError::NonFinitePlacement(owned(p.slug.as_str())));
        }
        i = i + 1;
    }
    assert(all.take(i as int) =~= all);
    None
}

/// Check a board before it is read or written, and put its relations in normal form; see
/// [`validated`]. A refused board is reported with its first fault.
pub fn validate_and_normalize(facts: CanvasFacts) -> (r: Result<Vec<CanvasRelation>, CanvasError>)
    requires
        facts.endpoints_safe@.len() == facts.relations@.len(),
    ensures
        match r {
            Ok(out) => validated(facts) == Ok::<Seq<RelView>, CanvasFault>(rel_views(out@)),
            Err(e) => validated(facts) == Err::<Seq<RelView>, CanvasFault>(fault_of(e)),
        },
{
    if facts.version != CANVAS_DOC_VERSION {
        return Err(CanvasError::UnsupportedVersion(facts.version));
    }
    match check_concepts(&facts.concepts) {
        Some(e) => {
            return Err(e);
        },
        None => {},
    }
    match check_placements(&facts.placements) {
        Some(e) => {
            return Err(e);
        },
        None => {},
    }
    let camera_finite = facts.camera_finite;
    let scale_ok = facts.scale_finite_positive;
    let out = match normalize_relations(facts.relations, &facts.endpoints_safe) {
        Ok(out) => out,
        Err(e) => {
            return Err(e);
        },
    };
    if !camera_finite {
        return Err(CanvasError::CameraNotFinite);
    }
    if !scale_ok {
        return Err(CanvasError::BadScale);
    }
    Ok(out)
}

/// Each stored relation as its pair, smaller slug first, with its kind.
pub open spec fn sorted_views(rels: Seq<RelView>) -> Seq<RelView> {
    rels.map_values(|r: RelView| (sorted_pair(r).0, sorted_pair(r).1, r.2))
}

/// The normal form keeps the pairs in the order they first appear among the stored
/// relations: each of its pairs is stored, and a pair that comes earlier was first
/// stored earlier.
pub proof fn law_pairs_in_first_occurrence_order(rels: Seq<RelView>, safe: Seq<(bool, bool)>)
    requires
        safe.len() == rels.len(),
        normalized(rels, safe) is Ok,
    ensures
        ({
            let out = normalized(rels, safe)->Ok_0;
            let sv = sorted_views(rels);
            &&& forall|i: int|
                0 <= i < out.len() ==> (#[trigger] find_pair(sv, out[i].0, out[i].1) matches Some(x) && x
                    < rels.len())
            &&& forall|i: int, j: int|
                0 <= i < j < out.len() ==> find_pair(sv, #[trigger] out[i].0, out[i].1)->0 < find_pair(
                    sv,
                    #[trigger] out[j].0,
                    out[j].1,
                )->0
        }),
    decreases rels.len(),
{
    if rels.len() == 0 {
        return;
    }
    let r2 = rels.drop_last();
    let s2 = safe.take(rels.len() - 1);
    law_pairs_in_first_occurrence_order(r2, s2);
    law_relations_normal_form(r2, s2);
    let prev = normalized(r2, s2)->Ok_0;
    let out = normalized(rels, safe)->Ok_0;
    let r = rels.last();
    let p = sorted_pair(r);
    let sv = sorted_views(rels);
    let sv2 = sorted_views(r2);
    assert(sv.drop_last() =~= sv2);
    assert(sv.last() == (p.0, p.1, r.2));
    lemma_find_pair(prev, p.0, p.1);
    // Pairs already kept keep their first occurrence.
    assert forall|a: Seq<char>, b: Seq<char>| #[trigger] find_pair(sv2, a, b) is Some implies find_pair(sv, a, b)
        == find_pair(sv2, a, b) by {}
    match find_pair(prev, p.0, p.1) {
        Some(at) => {
            assert(out =~= prev.update(at, (p.0, p.1, r.2)));
            assert forall|i: int| 0 <= i < out.len() implies out[i].0 == prev[i].0 && out[i].1 == prev[i].1 by {}
            assert forall|i: int| 0 <= i < out.len() implies (#[trigger] find_pair(sv, out[i].0, out[i].1) matches Some(
                x,
            ) && x < rels.len()) by {
                assert(find_pair(sv2, prev[i].0, prev[i].1) is Some);
            }
            assert forall|i: int, j: int| 0 <= i < j < out.len() implies find_pair(
                sv,
                #[trigger] out[i].0,
                out[i].1,
            )->0 < find_pair(sv, #[trigger] out[j].0, out[j].1)->0 by {
                assert(find_pair(sv2, prev[i].0, prev[i].1) is Some);
                assert(find_pair(sv2, prev[j].0, prev[j].1) is Some);
                assert(find_pair(sv2, prev[i].0, prev[i].1)->0 < find_pair(sv2, prev[j].0, prev[j].1)->0);
            }
        },
        None => {
            assert(out =~= prev.push((p.0, p.1, r.2)));
            lemma_find_pair(sv2, p.0, p.1);
            if find_pair(sv2, p.0, p.1) is Some {
                let k = find_pair(sv2, p.0, p.1)->0;
                assert(sv2[k] == (sorted_pair(r2[k]).0, sorted_pair(r2[k]).1, r2[k].2));
                assert(find_pair(prev, sorted_pair(r2[k]).0, sorted_pair(r2[k]).1) is Some);
                assert(false);
            }
            assert(find_pair(sv, p.0, p.1) == Some(rels.len() - 1));
            assert forall|i: int| 0 <= i < out.len() implies (#[trigger] find_pair(sv, out[i].0, out[i].1) matches Some(
                x,
            ) && x < rels.len()) by {
                if i < prev.len() {
                    assert(out[i] == prev[i]);
                    assert(find_pair(sv2, prev[i].0, prev[i].1) is Some);
                }
            }
            assert forall|i: int, j: int| 0 <= i < j < out.len() implies find_pair(
                sv,
                #[trigger] out[i].0,
                out[i].1,
            )->0 < find_pair(sv, #[trigger] out[j].0, out[j].1)->0 by {
                assert(out[i] == prev[i]);
                assert(find_pair(sv2, prev[i].0, prev[i].1) is Some);
                if j < prev.len() {
                    assert(out[j] == prev[j]);
                    assert(find_pair(sv2, prev[j].0, prev[j].1) is Some);
                    assert(find_pair(sv2, prev[i].0, prev[i].1)->0 < find_pair(sv2, prev[j].0, prev[j].1)->0);
                }
            }
        },
    }
}

/// Relations already in normal form, all with safe endpoints, normalize to themselves.
proof fn lemma_normal_form_fixed(out: Seq<RelView>, k: int)
    requires
        0 <= k <= out.len(),
        forall|i: int| 0 <= i < out.len() ==> seq_lt(#[trigger] out[i].0, out[i].1),
        forall|i: int, j: int|
            0 <= i < j < out.len() ==> !(#[trigger] out[i].0 == #[trigger] out[j].0 && out[i].1 == out[j].1),
    ensures
        normalized(out.take(k), Seq::new(k as nat, |i: int| (true, true))) == Ok::<Seq<RelView>, CanvasFault>(
            out.take(k),
        ),
    decreases k,
{
    let safe = Seq::new(k as nat, |i: int| (true, true));
    if k == 0 {
        assert(out.take(0) =~= Seq::<RelView>::empty());
    } else {
        lemma_normal_form_fixed(out, k - 1);
        let prev = out.take(k - 1);
        assert(out.take(k).drop_last() =~= prev);
        assert(safe.take(k - 1) =~= Seq::new((k - 1) as nat, |i: int| (true, true)));
        let r = out[k - 1];
        assert(out.take(k).last() == r);
        assert(seq_lt(r.0, r.1));
        lemma_seq_lt_asymmetric(r.0, r.1);
        lemma_seq_lt_irreflexive(r.0);
        assert(sorted_pair(r) == (r.0, r.1));
        lemma_find_pair(prev, r.0, r.1);
        if find_pair(prev, r.0, r.1) is Some {
            let i = find_pair(prev, r.0, r.1)->0;
            assert(out[i].0 == prev[i].0 && out[i].1 == prev[i].1);
            assert(false);
        }
        assert(prev.push((r.0, r.1, r.2)) =~= out.take(k));
    }
}

/// Normalizing is idempotent: a second pass over a normalized board, whose endpoints
/// are still safe, changes nothing.
pub proof fn law_normal_form_is_stable(rels: Seq<RelView>, safe: Seq<(bool, bool)>)
    requires
        safe.len() == rels.len(),
        normalized(rels, safe) is Ok,
    ensures
        ({
            let out = normalized(rels, safe)->Ok_0;
            normalized(out, Seq::new(out.len(), |i: int| (true, true))) == Ok::<Seq<RelView>, CanvasFault>(out)
        }),
{
    let out = normalized(rels, safe)->Ok_0;
    law_relations_normal_form(rels, safe);
    lemma_normal_form_fixed(out, out.len() as int);
    assert(out.take(out.len() as int) =~= out);
}

/// Relations are undirected and carry one kind per pair: in a normalized board every
/// relation has its smaller slug first, no two relations join the same pair, each
/// relation has the kind the last stored relation of its pair gave, and every stored
/// relation's pair is there.
pub proof fn law_relations_normal_form(rels: Seq<RelView>, safe: Seq<(bool, bool)>)
    requires
        safe.len() == rels.len(),
        normalized(rels, safe) is Ok,
    ensures
        ({
            let out = normalized(rels, safe)->Ok_0;
            &&& forall|i: int| 0 <= i < out.len() ==> seq_lt(#[trigger] out[i].0, out[i].1)
            &&& forall|i: int, j: int|
                0 <= i < j < out.len() ==> !(#[trigger] out[i].0 == #[trigger] out[j].0 && out[i].1 == out[j].1)
            &&& forall|i: int| 0 <= i < out.len() ==> last_kind(rels, #[trigger] out[i].0, out[i].1) == Some(out[i].2)
            &&& forall|k: int|
                0 <= k < rels.len() ==> find_pair(out, #[trigger] sorted_pair(rels[k]).0, sorted_pair(rels[k]).1) is Some
        }),
    decreases rels.len(),
{
    if rels.len() == 0 {
        return;
    }
    let r2 = rels.drop_last();
    let s2 = safe.take(rels.len() - 1);
    law_relations_normal_form(r2, s2);
    let prev = normalized(r2, s2)->Ok_0;
    let out = normalized(rels, safe)->Ok_0;
    let r = rels.last();
    let p = sorted_pair(r);
    assert(r.0 != r.1);
    lemma_seq_lt_total(r.0, r.1);
    assert(seq_lt(p.0, p.1));
    lemma_find_pair(prev, p.0, p.1);
    assert forall|i: int| 0 <= i < out.len() implies last_kind(rels, #[trigger] out[i].0, out[i].1) == Some(out[i].2) by {
        if out[i].0 == p.0 && out[i].1 == p.1 {
            assert(out[i].2 == r.2);
        } else {
            assert(out[i] == prev[i]);
        }
    }
    assert forall|k: int| 0 <= k < rels.len() implies find_pair(out, #[trigger] sorted_pair(rels[k]).0, sorted_pair(rels[k]).1) is Some by {
        let q = sorted_pair(rels[k]);
        lemma_find_pair(out, q.0, q.1);
        if k == rels.len() - 1 {
            match find_pair(prev, p.0, p.1) {
                Some(at) => {
                    assert(out[at].0 == p.0 && out[at].1 == p.1);
                },
                None => {
                    assert(out[prev.len() as int].0 == p.0 && out[prev.len() as int].1 == p.1);
                },
            }
        } else {
            assert(rels[k] == r2[k]);
            lemma_find_pair(prev, q.0, q.1);
            let at = find_pair(prev, q.0, q.1)->0;
            assert(out[at].0 == q.0 && out[at].1 == q.1);
        }
    }
}

/// A board that validates has its relations in normal form: smaller slug first, each pair
/// once with the kind its last stored relation gave, every stored pair kept, and the
/// pairs in the order they were first stored.
pub proof fn law_validated_relations(f: CanvasFacts)
    requires
        f.endpoints_safe@.len() == f.relations@.len(),
        validated(f) is Ok,
    ensures
        ({
            let rels = rel_views(f.relations@);
            let out = validated(f)->Ok_0;
            &&& out == normalized(rels, f.endpoints_safe@)->Ok_0
            &&& forall|i: int| 0 <= i < out.len() ==> seq_lt(#[trigger] out[i].0, out[i].1)
            &&& forall|i: int, j: int|
                0 <= i < j < out.len() ==> !(#[trigger] out[i].0 == #[trigger] out[j].0 && out[i].1 == out[j].1)
            &&& forall|i: int| 0 <= i < out.len() ==> last_kind(rels, #[trigger] out[i].0, out[i].1) == Some(out[i].2)
            &&& forall|i: int, j: int|
                0 <= i < j < out.len() ==> find_pair(sorted_views(rels), #[trigger] out[i].0, out[i].1)->0 < find_pair(
                    sorted_views(rels),
                    #[trigger] out[j].0,
                    out[j].1,
                )->0
        }),
{
    let rels = rel_views(f.relations@);
    assert(rels.len() == f.endpoints_safe@.len());
    law_relations_normal_form(rels, f.endpoints_safe@);
    law_pairs_in_first_occurrence_order(rels, f.endpoints_safe@);
}

/// Validating a validated board again changes nothing: the same board with its relations
/// replaced by the normalized ones (whose endpoints are still safe) validates to the same
/// relations.
pub proof fn law_validation_is_stable(f: CanvasFacts, g: CanvasFacts)
    requires
        f.endpoints_safe@.len() == f.relations@.len(),
        validated(f) is Ok,
        g.version == f.version,
        g.concepts@ == f.concepts@,
        g.placements@ == f.placements@,
        g.camera_finite == f.camera_finite,
        g.scale_finite_positive == f.scale_finite_positive,
        rel_views(g.relations@) == validated(f)->Ok_0,
        g.endpoints_safe@ == Seq::new(g.relations@.len(), |i: int| (true, true)),
    ensures
        validated(g) == validated(f),
{
    let rels = rel_views(f.relations@);
    assert(rels.len() == f.endpoints_safe@.len());
    law_normal_form_is_stable(rels, f.endpoints_safe@);
    let out = validated(f)->Ok_0;
    assert(rel_views(g.relations@).len() == g.relations@.len());
    assert(g.endpoints_safe@ =~= Seq::new(out.len(), |i: int| (true, true)));
}

} // verus!
