//! Task activity as the sidebar shows it: what each session of a task is doing, and
//! which one speaks for the task.
use vstd::prelude::*;
use crate::text::{chars_lt, owned, push_str, seq_lt};

verus! {

/// A task's state in the sidebar.
#[derive(Clone, Copy, PartialEq, Eq, Structural)]
pub enum TaskActivityStatus {
    Running,
    WaitingForInput,
    WaitingForApproval,
    Failed,
    Completed,
}

/// What the activity rules read of a session's stored record.
pub struct SessionFacts {
    pub id: String,
    pub created: u64,
    pub archived: bool,
    pub exit_code: Option<i32>,
    pub ended_at: Option<u64>,
    pub exit_notification_read_at: Option<u64>,
    pub phase_completed_at: Option<u64>,
    pub notification_read_at: Option<u64>,
    /// Whether the session runs its task's playbook (not a generic one).
    pub primary: bool,
}

/// The harness process as the daemon reports it.
#[derive(Clone, Copy, PartialEq, Eq, Structural)]
pub enum ProcessState {
    Starting,
    Alive,
    Exited,
}

/// The agent inside the process.
#[derive(Clone, Copy, PartialEq, Eq, Structural)]
pub enum AgentState {
    WaitingForInput,
    WaitingForApproval,
    Busy,
    Idle,
    Unknown,
}

/// What the daemon says of a live session.
pub struct DaemonState {
    /// Whether the harness adapter understands the session's output.
    pub supported: bool,
    /// `Some(reason)` when the playbook state is failed.
    pub failed_reason: Option<String>,
    pub process: ProcessState,
    pub agent: AgentState,
}

/// A session's contribution: a status with its tier (lower speaks first), and the tier
/// at which it is the task's active session, if it is.
#[derive(Clone, Copy)]
pub struct Projection {
    pub status: Option<(u8, TaskActivityStatus)>,
    pub active_tier: Option<u8>,
}

/// A failed exit the user has not looked at since it ended.
pub open spec fn unacknowledged_failure(s: SessionFacts) -> bool {
    (s.exit_code matches Some(code) && code != 0) && match s.ended_at {
        None => true,
        Some(ended) => match s.exit_notification_read_at {
            None => true,
            Some(read) => ended > read,
        },
    }
}

pub fn has_unacknowledged_terminal_failure(session: &SessionFacts) -> (r: bool)
    ensures
        r == unacknowledged_failure(*session),
{
    let failed = match session.exit_code {
        Some(code) => code != 0,
        None => false,
    };
    failed && match session.ended_at {
        None => true,
        Some(ended) => match session.exit_notification_read_at {
            None => true,
            Some(read) => ended > read,
        },
    }
}

/// What the session's stored record alone says.
pub open spec fn durable_status(s: SessionFacts) -> Option<(u8, TaskActivityStatus)> {
    if unacknowledged_failure(s) {
        Some((2u8, TaskActivityStatus::Failed))
    } else if s.primary && match s.phase_completed_at {
        Some(done) => match s.notification_read_at {
            None => true,
            Some(read) => done > read,
        },
        None => false,
    } {
        Some((2u8, TaskActivityStatus::Completed))
    } else {
        None
    }
}

/// A session's projection, from its record and what the daemon says of it (`None` when
/// the daemon does not know it). Waiting on the user outranks running, which outranks
/// what the record says.
pub open spec fn projection_spec(s: SessionFacts, state: Option<DaemonState>) -> Projection {
    match state {
        None => Projection { status: durable_status(s), active_tier: None },
        Some(st) => if st.supported && st.failed_reason is Some {
            let acknowledged = st.process == ProcessState::Exited && (s.exit_code matches Some(code) && code != 0)
                && !unacknowledged_failure(s);
            Projection {
                status: if st.failed_reason->0@ == "StaleSource"@ || acknowledged {
                    durable_status(s)
                } else {
                    Some((2u8, TaskActivityStatus::Failed))
                },
                active_tier: None,
            }
        } else {
            let live = st.process == ProcessState::Starting || st.process == ProcessState::Alive;
            let input = st.supported && live && st.agent == AgentState::WaitingForInput;
            let approval = st.supported && live && st.agent == AgentState::WaitingForApproval;
            let busy = st.process == ProcessState::Starting || (st.supported && live && st.agent == AgentState::Busy);
            Projection {
                status: if input {
                    Some((0u8, TaskActivityStatus::WaitingForInput))
                } else if approval {
                    Some((0u8, TaskActivityStatus::WaitingForApproval))
                } else if busy {
                    Some((1u8, TaskActivityStatus::Running))
                } else {
                    durable_status(s)
                },
                active_tier: if busy {
                    Some(0u8)
                } else if input || approval {
                    Some(1u8)
                } else {
                    None
                },
            }
        },
    }
}

fn durable_status_exec(s: &SessionFacts) -> (r: Option<(u8, TaskActivityStatus)>)
    ensures
        r == durable_status(*s),
{
    if has_unacknowledged_terminal_failure(s) {
        return Some((2, TaskActivityStatus::Failed));
    }
    let completed_unread = match s.phase_completed_at {
        Some(done) => match s.notification_read_at {
            None => true,
            Some(read) => done > read,
        },
        None => false,
    };
    if s.primary && completed_unread {
        Some((2, TaskActivityStatus::Completed))
    } else {
        None
    }
}

pub fn project_task_session_activity(session: &SessionFacts, daemon_state: Option<&DaemonState>) -> (r: Projection)
    ensures
        r == projection_spec(
            *session,
            match daemon_state {
                Some(s) => Some(*s),
                None => None,
            },
        ),
{
    let durable = durable_status_exec(session);
    let state = match daemon_state {
        None => {
            return Projection { status: durable, active_tier: None };
        },
        Some(st) => st,
    };
    if state.supported {
        match &state.failed_reason {
            Some(reason) => {
                let exited_failed = state.process == ProcessState::Exited && match session.exit_code {
                    Some(code) => code != 0,
                    None => false,
                };
                let acknowledged = exited_failed && !has_unacknowledged_terminal_failure(session);
                let stale = crate::text::str_eq(reason.as_str(), "StaleSource");
                return Projection {
                    status: if stale || acknowledged {
                        durable
                    } else {
                        Some((2, TaskActivityStatus::Failed))
                    },
                    active_tier: None,
                };
            },
            None => {},
        }
    }
    let live = state.process == ProcessState::Starting || state.process == ProcessState::Alive;
    let input = state.supported && live && state.agent == AgentState::WaitingForInput;
    let approval = state.supported && live && state.agent == AgentState::WaitingForApproval;
    let busy = state.process == ProcessState::Starting || (state.supported && live && state.agent == AgentState::Busy);
    let status = if input {
        Some((0, TaskActivityStatus::WaitingForInput))
    } else if approval {
        Some((0, TaskActivityStatus::WaitingForApproval))
    } else if busy {
        Some((1, TaskActivityStatus::Running))
    } else {
        durable
    };
    let active_tier = if busy {
        Some(0)
    } else if input || approval {
        Some(1)
    } else {
        None
    };
    Projection { status, active_tier }
}

/// `(tier, created, id)` of `a` ranks before that of `b`: the lower tier, then the
/// newer session, then the larger id.
pub open spec fn ranks_before(tier_a: u8, created_a: u64, id_a: Seq<char>, tier_b: u8, created_b: u64, id_b: Seq<char>) -> bool {
    tier_a < tier_b || (tier_a == tier_b && (created_a > created_b || (created_a == created_b && seq_lt(id_b, id_a))))
}

/// The index of the session whose `tier` (given per session) ranks first among the
/// first `k`, ties keeping the earlier winner.
pub open spec fn best_upto(sessions: Seq<SessionFacts>, tiers: Seq<Option<u8>>, k: int) -> Option<int>
    decreases k,
{
    if k <= 0 {
        None
    } else {
        let prev = best_upto(sessions, tiers, k - 1);
        let i = k - 1;
        if sessions[i].archived || tiers[i] is None {
            prev
        } else {
            match prev {
                None => Some(i),
                Some(p) => if ranks_before(
                    tiers[i]->0,
                    sessions[i].created,
                    sessions[i].id@,
                    tiers[p]->0,
                    sessions[p].created,
                    sessions[p].id@,
                ) {
                    Some(i)
                } else {
                    Some(p)
                },
            }
        }
    }
}

/// The status of a projection, without its tier.
pub open spec fn status_kind(s: Option<(u8, TaskActivityStatus)>) -> Option<TaskActivityStatus> {
    match s {
        Some((_, k)) => Some(k),
        None => None,
    }
}

/// The tiers at which each session reports a status.
pub open spec fn status_tiers(ps: Seq<Projection>) -> Seq<Option<u8>> {
    ps.map_values(|p: Projection| tier_spec(p.status))
}

/// The tier of a status.
pub open spec fn tier_spec(s: Option<(u8, TaskActivityStatus)>) -> Option<u8> {
    match s {
        Some((t, _)) => Some(t),
        None => None,
    }
}

/// The tiers at which each session is active.
pub open spec fn active_tiers(ps: Seq<Projection>) -> Seq<Option<u8>> {
    ps.map_values(|p: Projection| p.active_tier)
}

/// The task's summary: the status of the best-ranked session that reports one, and the
/// best-ranked active session (by index). Archived sessions never count.
pub struct ActivityChoice {
    pub status: Option<TaskActivityStatus>,
    pub active: Option<usize>,
}

fn tier_of(p: Option<(u8, TaskActivityStatus)>) -> (r: Option<u8>)
    ensures
        r == tier_spec(p),
{
    match p {
        Some((t, _)) => Some(t),
        None => None,
    }
}

/// Pick what speaks for a task from its sessions and their projections.
pub fn select_task_activity(sessions: &Vec<SessionFacts>, projections: &Vec<Projection>) -> (r: ActivityChoice)
    requires
        sessions@.len() == projections@.len(),
    ensures
        match best_upto(sessions@, status_tiers(projections@), sessions@.len() as int) {
            Some(i) => r.status == status_kind(projections@[i].status),
            None => r.status is None,
        },
        match best_upto(sessions@, active_tiers(projections@), sessions@.len() as int) {
            Some(i) => r.active == Some(i as usize),
            None => r.active is None,
        },
{
    let ghost st = status_tiers(projections@);
    let ghost at = active_tiers(projections@);
    let mut best_status: Option<usize> = None;
    let mut best_active: Option<usize> = None;
    let mut i: usize = 0;
    while i < sessions.len()
        invariant
            sessions@.len() == projections@.len(),
            st == status_tiers(projections@),
            at == active_tiers(projections@),
            i <= sessions@.len(),
            match best_status {
                Some(b) => best_upto(sessions@, st, i as int) == Some(b as int) && b < i && st[b as int] is Some,
                None => best_upto(sessions@, st, i as int) is None,
            },
            match best_active {
                Some(b) => best_upto(sessions@, at, i as int) == Some(b as int) && b < i && at[b as int] is Some,
                None => best_upto(sessions@, at, i as int) is None,
            },
        decreases sessions@.len() - i,
    {
        let s = &sessions[i];
        let p = projections[i];
        assert(st[i as int] == tier_spec(p.status));
        assert(at[i as int] == p.active_tier);
        if !s.archived {
            match tier_of(p.status) {
                Some(t) => {
                    let replace = match best_status {
                        None => true,
                        Some(b) => {
                            let bt = match tier_of(projections[b].status) {
                                Some(x) => x,
                                None => 0,
                            };
                            assert(st[b as int] == tier_spec(projections@[b as int].status));
                            t < bt || (t == bt && (s.created > sessions[b].created || (s.created == sessions[b].created
                                && chars_lt(
                                crate::text::chars_of(sessions[b].id.as_str()).as_slice(),
                                crate::text::chars_of(s.id.as_str()).as_slice(),
                            ))))
                        },
                    };
                    if replace {
                        best_status = Some(i);
                    }
                },
                None => {},
            }
            match p.active_tier {
                Some(t) => {
                    let replace = match best_active {
                        None => true,
                        Some(b) => {
                            let bt = match projections[b].active_tier {
                                Some(x) => x,
                                None => 0,
                            };
                            t < bt || (t == bt && (s.created > sessions[b].created || (s.created == sessions[b].created
                                && chars_lt(
                                crate::text::chars_of(sessions[b].id.as_str()).as_slice(),
                                crate::text::chars_of(s.id.as_str()).as_slice(),
                            ))))
                        },
                    };
                    if replace {
                        best_active = Some(i);
                    }
                },
                None => {},
            }
        }
        i = i + 1;
    }
    let status = match best_status {
        Some(b) => {
            assert(st[b as int] == tier_spec(projections@[b as int].status));
            match projections[b].status {
                Some((_, s)) => Some(s),
                None => None,
            }
        },
        None => None,
    };
    ActivityChoice { status, active: best_active }
}

/// Whether some session that is not archived is active.
pub open spec fn actionable(sessions: Seq<SessionFacts>, projections: Seq<Projection>) -> bool {
    exists|i: int| 0 <= i < sessions.len() && !sessions[i].archived && (#[trigger] projections[i]).active_tier is Some
}

/// Whether a task has a session the user can act on now.
pub fn task_has_actionable_session(sessions: &Vec<SessionFacts>, projections: &Vec<Projection>) -> (r: bool)
    requires
        sessions@.len() == projections@.len(),
    ensures
        r == actionable(sessions@, projections@),
{
    let mut i: usize = 0;
    while i < sessions.len()
        invariant
            sessions@.len() == projections@.len(),
            i <= sessions@.len(),
            forall|k: int| 0 <= k < i ==> !(!sessions@[k].archived && (#[trigger] projections@[k]).active_tier is Some),
        decreases sessions@.len() - i,
    {
        if !sessions[i].archived && projections[i].active_tier.is_some() {
            assert(projections@[i as int].active_tier is Some);
            return true;
        }
        i = i + 1;
    }
    false
}

/// The sidebar speaks for a task through its active subtask chain: from a task with no
/// session to act on, it follows `active_subtask` to a child not visited yet. `None`
/// stops the walk at the current task.
pub fn next_activity_task(active_subtask: &str, actionable_now: bool, visited: &Vec<String>) -> (r: Option<String>)
    ensures
        match r {
            Some(child) => child@ == active_subtask@ && active_subtask@.len() > 0 && !actionable_now && !crate::app_config::views(
                visited@,
            ).contains(active_subtask@),
            None => active_subtask@.len() == 0 || actionable_now || crate::app_config::views(visited@).contains(
                active_subtask@,
            ),
        },
{
    if active_subtask.unicode_len() == 0 || actionable_now {
        return None;
    }
    let mut i: usize = 0;
    while i < visited.len()
        invariant
            i <= visited@.len(),
            forall|k: int| 0 <= k < i ==> (#[trigger] visited@[k])@ != active_subtask@,
        decreases visited@.len() - i,
    {
        if crate::text::str_eq(visited[i].as_str(), active_subtask) {
            assert(crate::app_config::views(visited@)[i as int] == active_subtask@);
            return None;
        }
        i = i + 1;
    }
    assert(!crate::app_config::views(visited@).contains(active_subtask@)) by {
        assert forall|k: int| 0 <= k < visited@.len() implies crate::app_config::views(visited@)[k] != active_subtask@ by {
            assert(crate::app_config::views(visited@)[k] == visited@[k]@);
        }
    }
    Some(owned(active_subtask))
}

/// What the sidebar needs of one task: its active sub-task, its sessions, and each
/// session's projection.
pub struct TaskActivityFacts {
    pub active_subtask: String,
    pub sessions: Vec<SessionFacts>,
    pub projections: Vec<Projection>,
}

/// A task's activity being resolved: the tasks visited so far, and the last one read.
pub struct ActivityResolution {
    pub visited: Vec<String>,
    pub current: Option<TaskActivityFacts>,
}

/// What the app is to do next.
pub enum ActivityAction {
    /// Read the task `slug` and its sessions, and project each session.
    Read { slug: String },
    /// The summary, chosen among the sessions of the task last read (empty when the task
    /// itself could not be read).
    Report(ActivityChoice),
}

/// `c` is what [`select_task_activity`] chooses among `f`'s sessions.
pub open spec fn choice_ok(c: ActivityChoice, f: TaskActivityFacts) -> bool {
    &&& match best_upto(f.sessions@, status_tiers(f.projections@), f.sessions@.len() as int) {
        Some(i) => c.status == status_kind(f.projections@[i].status),
        None => c.status is None,
    }
    &&& match best_upto(f.sessions@, active_tiers(f.projections@), f.sessions@.len() as int) {
        Some(i) => c.active == Some(i as usize),
        None => c.active is None,
    }
}

pub open spec fn facts_fit(f: TaskActivityFacts) -> bool {
    f.sessions@.len() == f.projections@.len()
}

/// Begin resolving task `slug`'s activity: read it.
pub fn activity_start(slug: &str) -> (r: (ActivityResolution, ActivityAction))
    ensures
        crate::app_config::views(r.0.visited@) == seq![slug@],
        r.0.current is None,
        r.1 matches ActivityAction::Read { slug: s } && s@ == slug@,
{
    let mut visited: Vec<String> = Vec::new();
    visited.push(owned(slug));
    proof {
        assert(crate::app_config::views(visited@) =~= seq![slug@]);
    }
    (ActivityResolution { visited, current: None }, ActivityAction::Read { slug: owned(slug) })
}

/// The next step after reading a task (`None` when it or its sessions could not be
/// read). A task whose sessions are not actionable defers to its active sub-task, each
/// task visited once; the summary is chosen among the sessions of the last task read;
/// a task that cannot be read at all has the empty summary.
pub fn activity_step(state: ActivityResolution, read: Option<TaskActivityFacts>) -> (r: (ActivityResolution, ActivityAction))
    requires
        read matches Some(f) ==> facts_fit(f),
        state.current matches Some(c) ==> facts_fit(c),
    ensures
        r.0.current matches Some(c) ==> facts_fit(c),
        match read {
            None => {
                &&& r.0.visited == state.visited
                &&& r.0.current == state.current
                &&& match state.current {
                    None => r.1 matches ActivityAction::Report(c) && c.status is None && c.active is None,
                    Some(c) => r.1 matches ActivityAction::Report(x) && choice_ok(x, c),
                }
            },
            Some(f) => {
                &&& r.0.current == Some(f)
                &&& if f.active_subtask@.len() > 0 && !actionable(f.sessions@, f.projections@)
                    && !crate::app_config::views(state.visited@).contains(f.active_subtask@) {
                    &&& r.1 matches ActivityAction::Read { slug } && slug@ == f.active_subtask@
                    &&& crate::app_config::views(r.0.visited@) == crate::app_config::views(state.visited@).push(
                        f.active_subtask@,
                    )
                } else {
                    r.0.visited == state.visited && (r.1 matches ActivityAction::Report(x) && choice_ok(x, f))
                }
            },
        },
{
    let ActivityResolution { visited, current } = state;
    match read {
        None => {
            let choice = match &current {
                None => ActivityChoice { status: None, active: None },
                Some(c) => select_task_activity(&c.sessions, &c.projections),
            };
            (ActivityResolution { visited, current }, ActivityAction::Report(choice))
        },
        Some(f) => {
            let now = task_has_actionable_session(&f.sessions, &f.projections);
            match next_activity_task(f.active_subtask.as_str(), now, &visited) {
                Some(child) => {
                    let mut visited = visited;
                    let ghost before = visited@;
                    let slug = owned(child.as_str());
                    visited.push(child);
                    proof {
                        assert(crate::app_config::views(visited@) =~= crate::app_config::views(before).push(
                            f.active_subtask@,
                        ));
                    }
                    (ActivityResolution { visited, current: Some(f) }, ActivityAction::Read { slug })
                },
                None => {
                    let choice = select_task_activity(&f.sessions, &f.projections);
                    (ActivityResolution { visited, current: Some(f) }, ActivityAction::Report(choice))
                },
            }
        },
    }
}

/// The footer's tallies of the daemon's sessions.
pub struct SessionCounts {
    pub total: u32,
    pub alive: u32,
    pub exited: u32,
    pub busy: u32,
    pub waiting_for_input: u32,
    pub waiting_for_approval: u32,
    pub idle: u32,
    pub unknown: u32,
}

/// How many of `states` satisfy `pred`.
pub open spec fn count_where(
    states: Seq<(ProcessState, AgentState)>,
    pred: spec_fn((ProcessState, AgentState)) -> bool,
) -> nat
    decreases states.len(),
{
    if states.len() == 0 {
        0
    } else {
        count_where(states.drop_last(), pred) + if pred(states.last()) {
            1nat
        } else {
            0nat
        }
    }
}

/// A process that is starting or running counts as alive.
pub open spec fn is_alive(s: (ProcessState, AgentState)) -> bool {
    s.0 == ProcessState::Starting || s.0 == ProcessState::Alive
}

pub open spec fn is_exited(s: (ProcessState, AgentState)) -> bool {
    s.0 == ProcessState::Exited
}

pub open spec fn agent_is(a: AgentState) -> spec_fn((ProcessState, AgentState)) -> bool {
    |s: (ProcessState, AgentState)| s.1 == a
}

/// The tallies of the states the daemon reported, one per session.
pub open spec fn counts_of(c: SessionCounts, states: Seq<(ProcessState, AgentState)>) -> bool {
    &&& c.total == states.len()
    &&& c.alive == count_where(states, |s: (ProcessState, AgentState)| is_alive(s))
    &&& c.exited == count_where(states, |s: (ProcessState, AgentState)| is_exited(s))
    &&& c.busy == count_where(states, agent_is(AgentState::Busy))
    &&& c.waiting_for_input == count_where(states, agent_is(AgentState::WaitingForInput))
    &&& c.waiting_for_approval == count_where(states, agent_is(AgentState::WaitingForApproval))
    &&& c.idle == count_where(states, agent_is(AgentState::Idle))
    &&& c.unknown == count_where(states, agent_is(AgentState::Unknown))
}

/// Tally the sessions' process and agent states. Each session is alive or exited, and
/// its agent is in exactly one of the five states.
pub fn count_session_states(states: &Vec<(ProcessState, AgentState)>) -> (c: SessionCounts)
    requires
        states@.len() <= u32::MAX,
    ensures
        counts_of(c, states@),
        c.alive + c.exited == c.total,
        c.busy + c.waiting_for_input + c.waiting_for_approval + c.idle + c.unknown == c.total,
{
    let ghost s = states@;
    let mut c = SessionCounts {
        total: 0,
        alive: 0,
        exited: 0,
        busy: 0,
        waiting_for_input: 0,
        waiting_for_approval: 0,
        idle: 0,
        unknown: 0,
    };
    let mut i: usize = 0;
    assert(s.take(0) =~= Seq::<(ProcessState, AgentState)>::empty());
    while i < states.len()
        invariant
            s == states@,
            s.len() <= u32::MAX,
            i <= s.len(),
            counts_of(c, s.take(i as int)),
            c.alive + c.exited == i,
            c.busy + c.waiting_for_input + c.waiting_for_approval + c.idle + c.unknown == i,
        decreases s.len() - i,
    {
        let (p, a) = states[i];
        proof {
            assert(s.take(i + 1).drop_last() =~= s.take(i as int));
            assert(s.take(i + 1).last() == s[i as int]);
        }
        c.total = c.total + 1;
        match p {
            ProcessState::Starting | ProcessState::Alive => {
                c.alive = c.alive + 1;
            },
            ProcessState::Exited => {
                c.exited = c.exited + 1;
            },
        }
        match a {
            AgentState::Busy => {
                c.busy = c.busy + 1;
            },
            AgentState::WaitingForInput => {
                c.waiting_for_input = c.waiting_for_input + 1;
            },
            AgentState::WaitingForApproval => {
                c.waiting_for_approval = c.waiting_for_approval + 1;
            },
            AgentState::Idle => {
                c.idle = c.idle + 1;
            },
            AgentState::Unknown => {
                c.unknown = c.unknown + 1;
            },
        }
        i = i + 1;
    }
    assert(s.take(i as int) =~= s);
    c
}

/// The sidebar's key for a task of a repository.
pub fn task_activity_key(repo_path: &str, slug: &str) -> (r: String)
    ensures
        r@ == repo_path@ + ":"@ + slug@,
{
    let mut k = owned(repo_path);
    push_str(&mut k, ":");
    push_str(&mut k, slug);
    k
}

/// The repositories a close plan names.
pub open spec fn plan_repos(plan: Seq<(String, Vec<(String, String)>)>) -> Seq<Seq<char>> {
    plan.map_values(|p: (String, Vec<(String, String)>)| p.0@)
}

/// The repositories closed, in plan order, and the errors met.
pub struct CloseOutcome {
    pub closed: Vec<String>,
    pub errors: Vec<String>,
}

/// Closing repositories on quit: stop each repository's daemon, and acknowledge the
/// sessions that were stopped with it.
pub trait RepoCloser {
    fn close_repo(&mut self, repo: &str) -> Result<(), String>;

    fn acknowledge_exited(&mut self, repo: &str, refs: &Vec<(String, String)>) -> Result<(), String>;
}

/// A closer together with the record, in order, of the calls made through it.
pub struct LoggedCloser<C: RepoCloser> {
    closer: C,
    closes: Ghost<Seq<(Seq<char>, Result<(), String>)>>,
    acks: Ghost<Seq<(Seq<char>, Seq<(String, String)>, Result<(), String>)>>,
}

impl<C: RepoCloser> LoggedCloser<C> {
    /// Every `close_repo` so far: the repository and what the close returned.
    pub closed spec fn closes(&self) -> Seq<(Seq<char>, Result<(), String>)> {
        self.closes@
    }

    /// Every `acknowledge_exited` so far: the repository, its session refs, and the result.
    pub closed spec fn acks(&self) -> Seq<(Seq<char>, Seq<(String, String)>, Result<(), String>)> {
        self.acks@
    }

    /// `closer`, with no call made yet.
    pub fn new(closer: C) -> (r: Self)
        ensures
            r.closes() == Seq::<(Seq<char>, Result<(), String>)>::empty(),
            r.acks() == Seq::<(Seq<char>, Seq<(String, String)>, Result<(), String>)>::empty(),
    {
        LoggedCloser { closer, closes: Ghost(Seq::empty()), acks: Ghost(Seq::empty()) }
    }

    /// The closer itself.
    pub fn closer(&self) -> &C {
        &self.closer
    }

    /// Stop `repo`'s daemon, and record the call.
    pub fn close_repo(&mut self, repo: &str) -> (r: Result<(), String>)
        ensures
            final(self).closes() == old(self).closes().push((repo@, r)),
            final(self).acks() == old(self).acks(),
    {
        let r = self.closer.close_repo(repo);
        self.closes = Ghost(self.closes@.push((repo@, r)));
        r
    }

    /// Acknowledge `repo`'s stopped sessions `refs`, and record the call.
    pub fn acknowledge_exited(&mut self, repo: &str, refs: &Vec<(String, String)>) -> (r: Result<(), String>)
        ensures
            final(self).acks() == old(self).acks().push((repo@, refs@, r)),
            final(self).closes() == old(self).closes(),
    {
        let r = self.closer.acknowledge_exited(repo, refs);
        self.acks = Ghost(self.acks@.push((repo@, refs@, r)));
        r
    }
}

/// The message for a failed acknowledgement of `repo`'s stopped sessions.
pub open spec fn ack_error(repo: Seq<char>, error: Seq<char>) -> Seq<char> {
    "acknowledge stopped sessions for "@ + repo + ": "@ + error
}

/// Running `plan` made the close calls `closes` and the acknowledgements `acks`, and
/// ended with `closed` and `errors`: each repository is closed in plan order; one that
/// closed has its stopped sessions acknowledged and is listed as closed, with the
/// acknowledgement's failure reported; one that did not close reports the close's error.
pub open spec fn close_run(
    plan: Seq<(String, Vec<(String, String)>)>,
    closes: Seq<(Seq<char>, Result<(), String>)>,
    acks: Seq<(Seq<char>, Seq<(String, String)>, Result<(), String>)>,
    closed: Seq<Seq<char>>,
    errors: Seq<Seq<char>>,
) -> bool
    decreases plan.len(),
{
    if plan.len() == 0 {
        closes.len() == 0 && acks.len() == 0 && closed.len() == 0 && errors.len() == 0
    } else {
        let item = plan.last();
        &&& closes.len() >= 1
        &&& closes.last().0 == item.0@
        &&& match closes.last().1 {
            Ok(_) => {
                &&& acks.len() >= 1
                &&& acks.last().0 == item.0@
                &&& acks.last().1 == item.1@
                &&& closed.len() >= 1
                &&& closed.last() == item.0@
                &&& match acks.last().2 {
                    Ok(_) => close_run(plan.drop_last(), closes.drop_last(), acks.drop_last(), closed.drop_last(), errors),
                    Err(e) => errors.len() >= 1 && errors.last() == ack_error(item.0@, e@) && close_run(
                        plan.drop_last(),
                        closes.drop_last(),
                        acks.drop_last(),
                        closed.drop_last(),
                        errors.drop_last(),
                    ),
                }
            },
            Err(e) => errors.len() >= 1 && errors.last() == e@ && close_run(
                plan.drop_last(),
                closes.drop_last(),
                acks,
                closed,
                errors.drop_last(),
            ),
        }
    }
}

pub open spec fn string_views(v: Seq<String>) -> Seq<Seq<char>> {
    v.map_values(|s: String| s@)
}

/// Every repository whose daemon stopped counts as closed, even when acknowledging its
/// sessions failed; every failure is reported.
pub fn execute_close_repo_acknowledgment_plan<C: RepoCloser>(
    plan: &Vec<(String, Vec<(String, String)>)>,
    closer: &mut LoggedCloser<C>,
) -> (r: CloseOutcome)
    ensures
        final(closer).closes().len() >= old(closer).closes().len(),
        final(closer).closes().subrange(0, old(closer).closes().len() as int) == old(closer).closes(),
        final(closer).acks().len() >= old(closer).acks().len(),
        final(closer).acks().subrange(0, old(closer).acks().len() as int) == old(closer).acks(),
        close_run(
            plan@,
            final(closer).closes().skip(old(closer).closes().len() as int),
            final(closer).acks().skip(old(closer).acks().len() as int),
            string_views(r.closed@),
            string_views(r.errors@),
        ),
        r.closed@.len() <= plan@.len(),
        r.closed@.len() + r.errors@.len() >= plan@.len(),
        forall|k: int| 0 <= k < r.closed@.len() ==> plan_repos(plan@).contains((#[trigger] r.closed@[k])@),
{
    let mut closed: Vec<String> = Vec::new();
    let mut errors: Vec<String> = Vec::new();
    let ghost mut from: Seq<int> = seq![];
    let ghost c0 = closer.closes();
    let ghost a0 = closer.acks();
    let mut i: usize = 0;
    proof {
        assert(plan@.take(0) =~= Seq::<(String, Vec<(String, String)>)>::empty());
        assert(closer.closes().skip(c0.len() as int) =~= Seq::<(Seq<char>, Result<(), String>)>::empty());
        assert(closer.acks().skip(a0.len() as int) =~= Seq::<(Seq<char>, Seq<(String, String)>, Result<(), String>)>::empty());
        assert(string_views(closed@) =~= Seq::<Seq<char>>::empty());
        assert(string_views(errors@) =~= Seq::<Seq<char>>::empty());
        assert(closer.closes().subrange(0, c0.len() as int) =~= c0);
        assert(closer.acks().subrange(0, a0.len() as int) =~= a0);
    }
    while i < plan.len()
        invariant
            i <= plan@.len(),
            closed@.len() <= i,
            closed@.len() + errors@.len() >= i,
            from.len() == closed@.len(),
            forall|k: int| 0 <= k < closed@.len() ==> 0 <= #[trigger] from[k] < i && closed@[k]@ == plan@[from[k]].0@,
            closer.closes().len() >= c0.len(),
            closer.closes().subrange(0, c0.len() as int) == c0,
            closer.acks().len() >= a0.len(),
            closer.acks().subrange(0, a0.len() as int) == a0,
            close_run(
                plan@.take(i as int),
                closer.closes().skip(c0.len() as int),
                closer.acks().skip(a0.len() as int),
                string_views(closed@),
                string_views(errors@),
            ),
        decreases plan@.len() - i,
    {
        let ghost cs = closer.closes();
        let ghost acs = closer.acks();
        let ghost cl = closed@;
        let ghost er = errors@;
        let repo = plan[i].0.as_str();
        let closed_now = closer.close_repo(repo);
        proof {
            assert(plan@.take(i + 1).drop_last() =~= plan@.take(i as int));
            assert(plan@.take(i + 1).last() == plan@[i as int]);
            assert(closer.closes().skip(c0.len() as int).drop_last() =~= cs.skip(c0.len() as int));
            assert(closer.closes().skip(c0.len() as int).last() == (repo@, closed_now));
            assert(closer.closes().subrange(0, c0.len() as int) =~= cs.subrange(0, c0.len() as int));
        }
        match closed_now {
            Ok(()) => {
                let acked = closer.acknowledge_exited(repo, &plan[i].1);
                proof {
                    assert(closer.acks().skip(a0.len() as int).drop_last() =~= acs.skip(a0.len() as int));
                    assert(closer.acks().skip(a0.len() as int).last() == (repo@, plan@[i as int].1@, acked));
                    assert(closer.acks().subrange(0, a0.len() as int) =~= acs.subrange(0, a0.len() as int));
                }
                match acked {
                    Ok(()) => {},
                    Err(error) => {
                        let mut m = owned("acknowledge stopped sessions for ");
                        push_str(&mut m, repo);
                        push_str(&mut m, ": ");
                        push_str(&mut m, error.as_str());
                        errors.push(m);
                        proof {
                            assert(string_views(errors@).drop_last() =~= string_views(er));
                            assert(string_views(errors@).last() == ack_error(repo@, error@));
                        }
                    },
                }
                closed.push(owned(repo));
                proof {
                    from = from.push(i as int);
                    assert(string_views(closed@).drop_last() =~= string_views(cl));
                    assert(string_views(closed@).last() == repo@);
                }
            },
            Err(error) => {
                errors.push(error);
                proof {
                    assert(string_views(errors@).drop_last() =~= string_views(er));
                    assert(string_views(errors@).last() == error@);
                    assert(closer.acks().skip(a0.len() as int) == acs.skip(a0.len() as int));
                    assert(string_views(closed@) =~= string_views(cl));
                }
            },
        }
        i = i + 1;
    }
    proof {
        assert(plan@.take(i as int) =~= plan@);
    }
    assert forall|k: int| 0 <= k < closed@.len() implies plan_repos(plan@).contains((#[trigger] closed@[k])@) by {
        assert(plan_repos(plan@)[from[k]] == closed@[k]@);
    }
    CloseOutcome { closed, errors }
}

/// The lanes other than this window's own: `(is_own, answers)` for each lane socket.
pub open spec fn other_lanes(lanes: Seq<(bool, bool)>, answering: bool) -> nat
    decreases lanes.len(),
{
    if lanes.len() == 0 {
        0
    } else {
        other_lanes(lanes.drop_last(), answering) + if !lanes.last().0 && lanes.last().1 == answering {
            1nat
        } else {
            0nat
        }
    }
}

/// How many other lanes answer (extra daemons) and how many do not (stale sockets).
pub fn foreign_lane_counts(lanes: &Vec<(bool, bool)>) -> (r: (u32, u32))
    requires
        lanes@.len() <= u32::MAX,
    ensures
        r.0 == other_lanes(lanes@, true),
        r.1 == other_lanes(lanes@, false),
{
    let mut extra: u32 = 0;
    let mut stale: u32 = 0;
    let mut i: usize = 0;
    proof {
        assert(lanes@.take(0) =~= Seq::<(bool, bool)>::empty());
    }
    while i < lanes.len()
        invariant
            i <= lanes@.len(),
            lanes@.len() <= u32::MAX,
            extra == other_lanes(lanes@.take(i as int), true),
            stale == other_lanes(lanes@.take(i as int), false),
            extra + stale <= i,
        decreases lanes@.len() - i,
    {
        proof {
            assert(lanes@.take(i + 1).drop_last() =~= lanes@.take(i as int));
            assert(lanes@.take(i + 1).last() == lanes@[i as int]);
        }
        let (own, answers) = lanes[i];
        if !own {
            if answers {
                extra = extra + 1;
            } else {
                stale = stale + 1;
            }
        }
        i = i + 1;
    }
    proof {
        assert(lanes@.take(i as int) =~= lanes@);
    }
    (extra, stale)
}

/// Where a session's daemon is reached: `None` for this window's own lane (the
/// session's namespace is this window's), else the lane of the session's namespace
/// (`None` inside for the bare lane).
pub fn socket_route(own_ns: &str, meta_ns: &str) -> (r: Option<Option<String>>)
    ensures
        own_ns@ == meta_ns@ ==> r is None,
        own_ns@ != meta_ns@ && meta_ns@.len() == 0 ==> r == Some(None::<String>),
        own_ns@ != meta_ns@ && meta_ns@.len() > 0 ==> (r matches Some(Some(ns)) && ns@ == meta_ns@),
{
    if crate::text::str_eq(own_ns, meta_ns) {
        return None;
    }
    if meta_ns.unicode_len() == 0 {
        Some(None)
    } else {
        Some(Some(owned(meta_ns)))
    }
}

} // verus!
