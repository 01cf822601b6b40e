//! What the board and the session list show of a task: its live sessions, the phase it is
//! in and the step titles, when it last changed, and the order sessions are listed in.
use vstd::prelude::*;
use crate::comment_store::{insert_at, lemma_stable_sort_sorted, sorted_by, stable_sort, weak_order};
use crate::text::{
    chars_lt, chars_of, lemma_seq_lt_asymmetric, lemma_seq_lt_irreflexive, lemma_seq_lt_total, lemma_seq_lt_transitive,
    owned, seq_lt, str_eq,
};

verus! {

/// A session as the board reads it.
pub struct BoardSession {
    pub archived: bool,
    pub generic: bool,
    pub phase: String,
    pub execution_id: String,
    pub playbook: String,
}

/// A session that runs the task's own playbook: not a generic one, and on the current
/// engine one that belongs to an execution (before it, one of the task's playbook).
pub open spec fn primary_session(engine_version: u64, task_playbook: Seq<char>, s: BoardSession) -> bool {
    !s.generic && if engine_version >= 2 {
        s.execution_id@.len() > 0
    } else {
        s.playbook@ == task_playbook
    }
}

pub fn is_primary_playbook_session(engine_version: u64, task_playbook: &str, s: &BoardSession) -> (r: bool)
    ensures
        r == primary_session(engine_version, task_playbook@, *s),
{
    !s.generic && if engine_version >= 2 {
        s.execution_id.as_str().unicode_len() > 0
    } else {
        str_eq(s.playbook.as_str(), task_playbook)
    }
}

/// The sessions not archived, in order.
pub open spec fn live(s: Seq<BoardSession>) -> Seq<BoardSession>
    decreases s.len(),
{
    if s.len() == 0 {
        s
    } else if s.last().archived {
        live(s.drop_last())
    } else {
        live(s.drop_last()).push(s.last())
    }
}

/// The title of the step with key `phase`, or the phase itself.
pub open spec fn step_title(steps: Seq<(Seq<char>, Seq<char>)>, phase: Seq<char>) -> Seq<char>
    decreases steps.len(),
{
    if steps.len() == 0 {
        phase
    } else if steps[0].0 == phase {
        steps[0].1
    } else {
        step_title(steps.drop_first(), phase)
    }
}

/// The phase of the last live session that runs the task's playbook, or none.
pub open spec fn current_phase(engine_version: u64, task_playbook: Seq<char>, live: Seq<BoardSession>) -> Seq<char>
    decreases live.len(),
{
    if live.len() == 0 {
        seq![]
    } else if primary_session(engine_version, task_playbook, live.last()) {
        live.last().phase@
    } else {
        current_phase(engine_version, task_playbook, live.drop_last())
    }
}

/// What the board card says of the latest session.
pub open spec fn latest_title(draft: bool, live: Seq<BoardSession>, steps: Seq<(Seq<char>, Seq<char>)>) -> Seq<char> {
    if draft {
        "Draft"@
    } else if live.len() == 0 {
        "No sessions"@
    } else if live.last().generic {
        "Generic"@
    } else {
        step_title(steps, live.last().phase@)
    }
}

/// A session that is not archived.
pub open spec fn not_archived() -> spec_fn(BoardSession) -> bool {
    |s: BoardSession| !s.archived
}

/// The sessions a card counts are exactly the sessions not archived, in order.
pub proof fn law_live_sessions_are_the_unarchived(sessions: Seq<BoardSession>)
    ensures
        live(sessions) == sessions.filter(not_archived()),
    decreases sessions.len(),
{
    reveal(Seq::filter);
    if sessions.len() > 0 {
        law_live_sessions_are_the_unarchived(sessions.drop_last());
    }
}

/// The card's current phase is the phase of the last live session that runs the task's
/// playbook, and empty when no live session does.
pub proof fn law_current_phase_is_last_primary(engine_version: u64, task_playbook: Seq<char>, live: Seq<BoardSession>)
    ensures
        forall|k: int|
            0 <= k < live.len() && primary_session(engine_version, task_playbook, #[trigger] live[k]) && (forall|j: int|
                k < j < live.len() ==> !primary_session(engine_version, task_playbook, live[j])) ==> current_phase(
                engine_version,
                task_playbook,
                live,
            ) == live[k].phase@,
        (forall|k: int| 0 <= k < live.len() ==> !primary_session(engine_version, task_playbook, #[trigger] live[k]))
            ==> current_phase(engine_version, task_playbook, live).len() == 0,
    decreases live.len(),
{
    if live.len() > 0 {
        let d = live.drop_last();
        law_current_phase_is_last_primary(engine_version, task_playbook, d);
        assert forall|k: int|
            0 <= k < live.len() && primary_session(engine_version, task_playbook, #[trigger] live[k]) && (forall|j: int|
                k < j < live.len() ==> !primary_session(engine_version, task_playbook, live[j])) implies current_phase(
            engine_version,
            task_playbook,
            live,
        ) == live[k].phase@ by {
            if k < live.len() - 1 {
                assert(!primary_session(engine_version, task_playbook, live[live.len() - 1]));
                assert(d[k] == live[k]);
                assert forall|j: int| k < j < d.len() implies !primary_session(engine_version, task_playbook, d[j]) by {
                    assert(d[j] == live[j]);
                }
            }
        }
        if forall|k: int| 0 <= k < live.len() ==> !primary_session(engine_version, task_playbook, #[trigger] live[k]) {
            assert(!primary_session(engine_version, task_playbook, live[live.len() - 1]));
            assert forall|k: int| 0 <= k < d.len() implies !primary_session(engine_version, task_playbook, #[trigger] d[k]) by {
                assert(d[k] == live[k]);
            }
        }
    }
}

/// A phase's step title is the title of the first step whose key is the phase, and the
/// phase itself when no step has that key.
pub proof fn law_step_title_first_match(steps: Seq<(String, String)>, phase: Seq<char>)
    ensures
        forall|k: int|
            0 <= k < steps.len() && (#[trigger] steps[k]).0@ == phase && (forall|j: int|
                0 <= j < k ==> steps[j].0@ != phase) ==> step_title(step_views(steps), phase) == steps[k].1@,
        (forall|k: int| 0 <= k < steps.len() ==> (#[trigger] steps[k]).0@ != phase) ==> step_title(
            step_views(steps),
            phase,
        ) == phase,
    decreases steps.len(),
{
    if steps.len() > 0 {
        let rest = steps.drop_first();
        law_step_title_first_match(rest, phase);
        assert(step_views(steps).drop_first() =~= step_views(rest));
        assert(step_views(steps)[0] == (steps[0].0@, steps[0].1@));
        assert forall|k: int|
            0 <= k < steps.len() && (#[trigger] steps[k]).0@ == phase && (forall|j: int|
                0 <= j < k ==> steps[j].0@ != phase) implies step_title(step_views(steps), phase) == steps[k].1@ by {
            if k > 0 {
                assert(steps[0].0@ != phase);
                assert(rest[k - 1] == steps[k]);
                assert forall|j: int| 0 <= j < k - 1 implies rest[j].0@ != phase by {
                    assert(rest[j] == steps[j + 1]);
                }
            }
        }
        if forall|k: int| 0 <= k < steps.len() ==> (#[trigger] steps[k]).0@ != phase {
            assert(steps[0].0@ != phase);
            assert forall|k: int| 0 <= k < rest.len() implies (#[trigger] rest[k]).0@ != phase by {
                assert(rest[k] == steps[k + 1]);
            }
        }
    }
}

pub open spec fn step_views(steps: Seq<(String, String)>) -> Seq<(Seq<char>, Seq<char>)> {
    steps.map_values(|p: (String, String)| (p.0@, p.1@))
}

/// A task's card on the board.
pub struct BoardSummary {
    pub session_count: usize,
    pub current_phase: String,
    pub current_step_title: String,
    pub latest_session_title: String,
}

fn step_title_exec(steps: &Vec<(String, String)>, phase: &str) -> (r: String)
    ensures
        r@ == step_title(step_views(steps@), phase@),
{
    let ghost sv = step_views(steps@);
    let mut i: usize = 0;
    assert(sv.skip(0) =~= sv);
    while i < steps.len()
        invariant
            i <= steps@.len(),
            sv == step_views(steps@),
            step_title(sv, phase@) == step_title(sv.skip(i as int), phase@),
        decreases steps@.len() - i,
    {
        proof {
            assert(sv.skip(i as int).drop_first() =~= sv.skip(i + 1));
            assert(sv.skip(i as int)[0] == sv[i as int]);
        }
        if str_eq(steps[i].0.as_str(), phase) {
            return owned(steps[i].1.as_str());
        }
        i = i + 1;
    }
    owned(phase)
}

/// The card for a task with these sessions (in the order they were made) and, when its
/// playbook is known, these step keys and titles.
pub fn board_summary(
    draft: bool,
    engine_version: u64,
    task_playbook: &str,
    sessions: &Vec<BoardSession>,
    steps: &Vec<(String, String)>,
) -> (r: BoardSummary)
    ensures
        r.session_count == live(sessions@).len(),
        r.session_count == sessions@.filter(not_archived()).len(),
        r.current_phase@ == current_phase(engine_version, task_playbook@, live(sessions@)),
        r.current_step_title@ == step_title(step_views(steps@), r.current_phase@),
        r.latest_session_title@ == latest_title(draft, live(sessions@), step_views(steps@)),
        forall|k: int|
            0 <= k < steps@.len() && (#[trigger] steps@[k]).0@ == r.current_phase@ && (forall|j: int|
                0 <= j < k ==> steps@[j].0@ != r.current_phase@) ==> r.current_step_title@ == steps@[k].1@,
        (forall|k: int| 0 <= k < steps@.len() ==> (#[trigger] steps@[k]).0@ != r.current_phase@)
            ==> r.current_step_title@ == r.current_phase@,
        !draft && live(sessions@).len() > 0 && !live(sessions@).last().generic ==> forall|k: int|
            0 <= k < steps@.len() && (#[trigger] steps@[k]).0@ == live(sessions@).last().phase@ && (forall|j: int|
                0 <= j < k ==> steps@[j].0@ != live(sessions@).last().phase@) ==> r.latest_session_title@
                == steps@[k].1@,
        !draft && live(sessions@).len() > 0 && !live(sessions@).last().generic && (forall|k: int|
            0 <= k < steps@.len() ==> (#[trigger] steps@[k]).0@ != live(sessions@).last().phase@)
            ==> r.latest_session_title@ == live(sessions@).last().phase@,
{
    let mut count: usize = 0;
    let mut phase: Option<usize> = None;
    let mut last: Option<usize> = None;
    let mut i: usize = 0;
    proof {
        assert(sessions@.take(0) =~= Seq::<BoardSession>::empty());
    }
    while i < sessions.len()
        invariant
            i <= sessions@.len(),
            count == live(sessions@.take(i as int)).len(),
            count <= i,
            match last {
                Some(j) => j < i && live(sessions@.take(i as int)).len() > 0 && live(sessions@.take(i as int)).last()
                    == sessions@[j as int],
                None => live(sessions@.take(i as int)).len() == 0,
            },
            match phase {
                Some(j) => j < i && current_phase(engine_version, task_playbook@, live(sessions@.take(i as int)))
                    == sessions@[j as int].phase@,
                None => current_phase(engine_version, task_playbook@, live(sessions@.take(i as int))) == Seq::<
                    char,
                >::empty(),
            },
        decreases sessions@.len() - i,
    {
        proof {
            assert(sessions@.take(i + 1).drop_last() =~= sessions@.take(i as int));
            assert(sessions@.take(i + 1).last() == sessions@[i as int]);
        }
        let s = &sessions[i];
        proof {
            let t = sessions@.take(i + 1);
            if !sessions@[i as int].archived {
                assert(live(t) == live(sessions@.take(i as int)).push(sessions@[i as int]));
                assert(live(t).drop_last() =~= live(sessions@.take(i as int)));
                assert(live(t).last() == sessions@[i as int]);
            } else {
                assert(live(t) == live(sessions@.take(i as int)));
            }
        }
        if !s.archived {
            count = count + 1;
            last = Some(i);
            if is_primary_playbook_session(engine_version, task_playbook, s) {
                phase = Some(i);
            }
        }
        i = i + 1;
    }
    proof {
        assert(sessions@.take(i as int) =~= sessions@);
    }
    let current = match phase {
        Some(j) => owned(sessions[j].phase.as_str()),
        None => String::new(),
    };
    let current_title = step_title_exec(steps, current.as_str());
    let latest = if draft {
        owned("Draft")
    } else {
        match last {
            None => owned("No sessions"),
            Some(j) => if sessions[j].generic {
                owned("Generic")
            } else {
                step_title_exec(steps, sessions[j].phase.as_str())
            },
        }
    };
    proof {
        law_live_sessions_are_the_unarchived(sessions@);
        law_step_title_first_match(steps@, current@);
        if !draft && live(sessions@).len() > 0 {
            law_step_title_first_match(steps@, live(sessions@).last().phase@);
        }
    }
    BoardSummary { session_count: count, current_phase: current, current_step_title: current_title, latest_session_title: latest }
}

/// The latest of `start` and `times`.
pub open spec fn latest_of(start: u64, times: Seq<u64>) -> u64
    decreases times.len(),
{
    if times.len() == 0 {
        start
    } else {
        let m = latest_of(start, times.drop_last());
        if times.last() > m {
            times.last()
        } else {
            m
        }
    }
}

/// When a task last changed: its creation, or any later change to its files or sessions.
pub fn task_updated_at(created: u64, times: &Vec<u64>) -> (r: u64)
    ensures
        r == latest_of(created, times@),
        r >= created,
        forall|i: int| 0 <= i < times@.len() ==> r >= #[trigger] times@[i],
{
    let mut m = created;
    let mut i: usize = 0;
    proof {
        assert(times@.take(0) =~= Seq::<u64>::empty());
    }
    while i < times.len()
        invariant
            i <= times@.len(),
            m == latest_of(created, times@.take(i as int)),
            m >= created,
            forall|k: int| 0 <= k < i ==> m >= #[trigger] times@[k],
        decreases times@.len() - i,
    {
        proof {
            assert(times@.take(i + 1).drop_last() =~= times@.take(i as int));
            assert(times@.take(i + 1).last() == times@[i as int]);
        }
        if times[i] > m {
            m = times[i];
        }
        i = i + 1;
    }
    proof {
        assert(times@.take(i as int) =~= times@);
    }
    m
}

// ---- the session list -----------------------------------------------------------------

/// A row of the session list, by what it is ordered on; `index` is the row's place in
/// the caller's list.
pub struct SessionRow {
    pub created: u64,
    pub task_slug: String,
    pub id: String,
    pub index: usize,
}

/// Newest first; then by task, then by session id.
pub open spec fn row_after(a: SessionRow, b: SessionRow) -> bool {
    a.created < b.created || (a.created == b.created && (seq_lt(b.task_slug@, a.task_slug@) || (a.task_slug@
        == b.task_slug@ && seq_lt(b.id@, a.id@))))
}

pub open spec fn by_row_order() -> spec_fn(SessionRow, SessionRow) -> bool {
    |a: SessionRow, b: SessionRow| row_after(a, b)
}

fn row_after_exec(a: &SessionRow, b: &SessionRow) -> (r: bool)
    ensures
        r == row_after(*a, *b),
{
    if a.created != b.created {
        return a.created < b.created;
    }
    let at = chars_of(a.task_slug.as_str());
    let bt = chars_of(b.task_slug.as_str());
    if chars_lt(bt.as_slice(), at.as_slice()) {
        return true;
    }
    if !str_eq(a.task_slug.as_str(), b.task_slug.as_str()) {
        return false;
    }
    let ai = chars_of(a.id.as_str());
    let bi = chars_of(b.id.as_str());
    chars_lt(bi.as_slice(), ai.as_slice())
}

fn insert_row(out: &mut Vec<SessionRow>, x: SessionRow)
    ensures
        final(out)@ == old(out)@.insert(insert_at(old(out)@, x, by_row_order()), x),
{
    let mut i: usize = 0;
    loop
        invariant
            i <= out@.len(),
            forall|j: int| 0 <= j < i ==> !row_after(#[trigger] out@[j], x),
        ensures
            i <= out@.len(),
            forall|j: int| 0 <= j < i ==> !row_after(#[trigger] out@[j], x),
            i == out@.len() || row_after(out@[i as int], x),
        decreases out@.len() - i,
    {
        if i == out.len() {
            break;
        }
        if row_after_exec(&out[i], &x) {
            break;
        }
        i = i + 1;
    }
    proof {
        crate::comment_store::lemma_insert_at(out@, x, by_row_order(), i as int);
    }
    out.insert(i, x);
}

/// The session list's rows in its order: newest first, then by task and session id.
pub fn sort_session_rows(v: Vec<SessionRow>) -> (r: Vec<SessionRow>)
    ensures
        r@ == stable_sort(v@, by_row_order()),
{
    let ghost s = v@;
    let mut rest = v;
    let mut out: Vec<SessionRow> = Vec::new();
    let ghost mut k: int = 0;
    proof {
        assert(s.take(0) =~= Seq::<SessionRow>::empty());
        assert(rest@ =~= s.skip(0));
    }
    while rest.len() > 0
        invariant
            0 <= k <= s.len(),
            rest@ == s.skip(k),
            out@ == stable_sort(s.take(k), by_row_order()),
        decreases rest@.len(),
    {
        let x = rest.remove(0);
        proof {
            assert(s.take(k + 1).drop_last() =~= s.take(k));
            assert(s.take(k + 1).last() == s[k]);
            assert(rest@ =~= s.skip(k + 1));
        }
        insert_row(&mut out, x);
        proof {
            k = k + 1;
        }
    }
    proof {
        assert(s.take(k) =~= s);
    }
    out
}

proof fn lemma_row_order_weak()
    ensures
        weak_order(by_row_order()),
{
    assert forall|a: SessionRow, b: SessionRow| #[trigger] by_row_order()(a, b) implies !by_row_order()(b, a) by {
        lemma_seq_lt_irreflexive(a.task_slug@);
        lemma_seq_lt_irreflexive(a.id@);
        if seq_lt(b.task_slug@, a.task_slug@) {
            lemma_seq_lt_asymmetric(b.task_slug@, a.task_slug@);
        }
        if seq_lt(b.id@, a.id@) {
            lemma_seq_lt_asymmetric(b.id@, a.id@);
        }
    }
    assert forall|a: SessionRow, b: SessionRow, x: SessionRow|
        #![trigger by_row_order()(a, x), by_row_order()(a, b)]
        by_row_order()(a, x) && !by_row_order()(a, b) implies by_row_order()(b, x) by {
        lemma_seq_lt_total(a.task_slug@, b.task_slug@);
        lemma_seq_lt_total(a.id@, b.id@);
        lemma_seq_lt_irreflexive(a.task_slug@);
        lemma_seq_lt_irreflexive(a.id@);
        if seq_lt(x.task_slug@, a.task_slug@) && seq_lt(a.task_slug@, b.task_slug@) {
            lemma_seq_lt_transitive(x.task_slug@, a.task_slug@, b.task_slug@);
        }
        if seq_lt(x.id@, a.id@) && seq_lt(a.id@, b.id@) {
            lemma_seq_lt_transitive(x.id@, a.id@, b.id@);
        }
    }
}

/// The session list is newest first (then by task and id), however the rows were found.
pub proof fn law_session_list_newest_first(rows: Seq<SessionRow>)
    ensures
        sorted_by(stable_sort(rows, by_row_order()), by_row_order()),
{
    lemma_row_order_weak();
    lemma_stable_sort_sorted(rows, by_row_order());
}

/// A session list row's step title, and whether it is a step of the task's playbook.
pub fn session_row_title(generic: bool, phase: &str, execution_id: &str, steps: &Vec<(String, String)>) -> (r: (
    String,
    bool,
))
    ensures
        r.0@ == if generic {
            "Generic"@
        } else {
            step_title(step_views(steps@), phase@)
        },
        r.1 == (!generic && execution_id@.len() > 0 && exists|i: int|
            0 <= i < steps@.len() && (#[trigger] step_views(steps@)[i]).0 == phase@),
{
    let mut found = false;
    let mut i: usize = 0;
    while i < steps.len()
        invariant
            i <= steps@.len(),
            found == exists|k: int| 0 <= k < i && (#[trigger] step_views(steps@)[k]).0 == phase@,
        decreases steps@.len() - i,
    {
        if str_eq(steps[i].0.as_str(), phase) {
            found = true;
        }
        proof {
            if !found {
                assert forall|k: int| 0 <= k < i + 1 implies !((#[trigger] step_views(steps@)[k]).0 == phase@) by {
                    if k == i {
                        assert(step_views(steps@)[k].0 == steps@[k].0@);
                    }
                }
            } else {
                assert(step_views(steps@)[i as int].0 == steps@[i as int].0@);
            }
        }
        i = i + 1;
    }
    let title = if generic {
        owned("Generic")
    } else {
        step_title_exec(steps, phase)
    };
    (title, !generic && execution_id.unicode_len() > 0 && found)
}


// ---- sessions of a task -----------------------------------------------------------------

/// Sessions launch only from a finished task on the current engine.
pub fn session_launch_check(engine_version: u64, draft: bool, archived: bool) -> (r: Result<(), String>)
    ensures
        engine_version < 2 ==> (r matches Err(e) && e@
            == "pre-v2 task data is read-only; create a new v2 task to launch sessions"@),
        engine_version >= 2 && (draft || archived) ==> (r matches Err(e) && e@
            == "draft or archived tasks cannot launch sessions"@),
        engine_version >= 2 && !draft && !archived ==> r is Ok,
{
    if engine_version < 2 {
        return Err(owned("pre-v2 task data is read-only; create a new v2 task to launch sessions"));
    }
    if draft || archived {
        return Err(owned("draft or archived tasks cannot launch sessions"));
    }
    Ok(())
}

/// A session is archived under its task; a blank task is refused.
pub fn archive_task_slug(task_slug: &str) -> (r: Result<String, String>)
    ensures
        crate::text::trim(task_slug@).len() == 0 ==> (r matches Err(e) && e@ == "sessions must be attached to a task"@),
        crate::text::trim(task_slug@).len() > 0 ==> (r matches Ok(t) && t@ == crate::text::trim(task_slug@)),
{
    let t = crate::text::trim_str(task_slug);
    if t.as_str().unicode_len() == 0 {
        return Err(owned("sessions must be attached to a task"));
    }
    Ok(t)
}

/// A task's session as it is listed: by creation time, then id (ids grow with time, so
/// same-second sessions still come in the order they were made); `index` is its place in
/// the caller's list.
pub struct SessionKey {
    pub created: u64,
    pub id: String,
    pub index: usize,
}

pub open spec fn session_after(a: SessionKey, b: SessionKey) -> bool {
    a.created > b.created || (a.created == b.created && seq_lt(b.id@, a.id@))
}

pub open spec fn by_session_order() -> spec_fn(SessionKey, SessionKey) -> bool {
    |a: SessionKey, b: SessionKey| session_after(a, b)
}

fn insert_session(out: &mut Vec<SessionKey>, x: SessionKey)
    ensures
        final(out)@ == old(out)@.insert(insert_at(old(out)@, x, by_session_order()), x),
{
    let mut i: usize = 0;
    loop
        invariant
            i <= out@.len(),
            forall|j: int| 0 <= j < i ==> !session_after(#[trigger] out@[j], x),
        ensures
            i <= out@.len(),
            forall|j: int| 0 <= j < i ==> !session_after(#[trigger] out@[j], x),
            i == out@.len() || session_after(out@[i as int], x),
        decreases out@.len() - i,
    {
        if i == out.len() {
            break;
        }
        let a = &out[i];
        let later = if a.created != x.created {
            a.created > x.created
        } else {
            let ai = chars_of(a.id.as_str());
            let xi = chars_of(x.id.as_str());
            chars_lt(xi.as_slice(), ai.as_slice())
        };
        if later {
            break;
        }
        i = i + 1;
    }
    proof {
        crate::comment_store::lemma_insert_at(out@, x, by_session_order(), i as int);
    }
    out.insert(i, x);
}

/// A task's sessions oldest first, then by id.
pub fn sort_sessions(v: Vec<SessionKey>) -> (r: Vec<SessionKey>)
    ensures
        r@ == stable_sort(v@, by_session_order()),
{
    let ghost s = v@;
    let mut rest = v;
    let mut out: Vec<SessionKey> = Vec::new();
    let ghost mut k: int = 0;
    proof {
        assert(s.take(0) =~= Seq::<SessionKey>::empty());
        assert(rest@ =~= s.skip(0));
    }
    while rest.len() > 0
        invariant
            0 <= k <= s.len(),
            rest@ == s.skip(k),
            out@ == stable_sort(s.take(k), by_session_order()),
        decreases rest@.len(),
    {
        let x = rest.remove(0);
        proof {
            assert(s.take(k + 1).drop_last() =~= s.take(k));
            assert(s.take(k + 1).last() == s[k]);
            assert(rest@ =~= s.skip(k + 1));
        }
        insert_session(&mut out, x);
        proof {
            k = k + 1;
        }
    }
    proof {
        assert(s.take(k) =~= s);
    }
    out
}

proof fn lemma_session_order_weak()
    ensures
        weak_order(by_session_order()),
{
    assert forall|a: SessionKey, b: SessionKey| #[trigger] by_session_order()(a, b) implies !by_session_order()(b, a) by {
        lemma_seq_lt_irreflexive(a.id@);
        if seq_lt(b.id@, a.id@) {
            lemma_seq_lt_asymmetric(b.id@, a.id@);
        }
    }
    assert forall|a: SessionKey, b: SessionKey, x: SessionKey|
        #![trigger by_session_order()(a, x), by_session_order()(a, b)]
        by_session_order()(a, x) && !by_session_order()(a, b) implies by_session_order()(b, x) by {
        lemma_seq_lt_total(a.id@, b.id@);
        lemma_seq_lt_irreflexive(a.id@);
        if seq_lt(x.id@, a.id@) && seq_lt(a.id@, b.id@) {
            lemma_seq_lt_transitive(x.id@, a.id@, b.id@);
        }
    }
}

/// A task's sessions are listed oldest first (then by id), however they were read, so
/// its latest session, and the phase derived from it, do not depend on directory order.
pub proof fn law_sessions_oldest_first(keys: Seq<SessionKey>)
    ensures
        sorted_by(stable_sort(keys, by_session_order()), by_session_order()),
{
    lemma_session_order_weak();
    lemma_stable_sort_sorted(keys, by_session_order());
}

/// The step title the sidebar shows for a session: `Generic` for a generic session;
/// otherwise the title of the session's phase in the task's retained definition (its
/// steps as `(key, title)`), the phase itself when there is no definition or no such
/// step, and why the definition could not be read when it could not.
pub fn session_step_title(generic: bool, phase: &str, definition: Option<Result<Vec<(String, String)>, String>>) -> (r:
    String)
    ensures
        generic ==> r@ == "Generic"@,
        !generic ==> r@ == match definition {
            None => phase@,
            Some(Ok(steps)) => step_title(step_views(steps@), phase@),
            Some(Err(e)) => "Execution unavailable: "@ + e@,
        },
{
    if generic {
        return owned("Generic");
    }
    match definition {
        None => owned(phase),
        Some(Ok(steps)) => step_title_exec(&steps, phase),
        Some(Err(e)) => {
            let mut m = owned("Execution unavailable: ");
            crate::text::push_str(&mut m, e.as_str());
            m
        },
    }
}

} // verus!
