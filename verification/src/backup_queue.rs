//! Auto-backup trigger queue.
//!
//! Archiving a task, committing, pushing and saving an artifact must stay instant, so the
//! automatic path never zips inline: call sites publish into this per-repo coalescing
//! queue and one worker drains it. Each repo has two slots, ever: the run in flight and
//! the latest pending request. Time is a caller-supplied millisecond reading, so the
//! debounce is deterministic.
use vstd::prelude::*;
use crate::text::{chars_lt, chars_of, lemma_seq_lt_asymmetric, lemma_seq_lt_total, lemma_seq_lt_transitive, owned, seq_lt};

verus! {

/// What asked for a backup.
#[derive(Clone, Copy, Debug, PartialEq, Eq, Structural)]
pub enum BackupTrigger {
    PreArchive,
    PostArtifactChange,
    PostPushCommit,
    Manual,
    Mcp,
}

/// The repository's backup settings as far as the trigger gate reads them.
pub struct BackupDefaults {
    pub destination: String,
    pub enabled: bool,
    pub retention: u32,
    pub trigger_pre_archive: bool,
    pub trigger_post_artifact_change: bool,
    pub trigger_post_push_commit: bool,
}

/// A burst schedules its work from the burst's end: every publish pushes the deadline
/// out by this many milliseconds.
pub const BACKUP_DEBOUNCE_MS: u64 = 2000;

/// Whether `trigger` may enqueue a backup, given whether the feature is ready
/// for this repository (enabled, with a usable destination).
pub open spec fn publish_allowed(settings: BackupDefaults, feature_ready: bool, trigger: BackupTrigger) -> bool {
    feature_ready && match trigger {
        BackupTrigger::PreArchive => settings.trigger_pre_archive,
        BackupTrigger::PostArtifactChange => settings.trigger_post_artifact_change,
        BackupTrigger::PostPushCommit => settings.trigger_post_push_commit,
        BackupTrigger::Manual | BackupTrigger::Mcp => false,
    }
}

/// Should this trigger enqueue a backup? Only the three automatic triggers pass; a
/// manual or MCP request never goes through the debounce queue.
pub fn should_publish(settings: &BackupDefaults, feature_ready: bool, trigger: BackupTrigger) -> (r: bool)
    ensures
        r == publish_allowed(*settings, feature_ready, trigger),
{
    if !feature_ready {
        return false;
    }
    match trigger {
        BackupTrigger::PreArchive => settings.trigger_pre_archive,
        BackupTrigger::PostArtifactChange => settings.trigger_post_artifact_change,
        BackupTrigger::PostPushCommit => settings.trigger_post_push_commit,
        BackupTrigger::Manual | BackupTrigger::Mcp => false,
    }
}

/// One repository's two slots: the run in flight, and the pending request with the
/// millisecond deadline after which it may start.
#[derive(Clone, Copy, Debug)]
pub struct Slot {
    pub in_progress: bool,
    pub pending: Option<Pending>,
}

/// A scheduled request: what asked for it, and when it may start.
#[derive(Clone, Copy, Debug)]
pub struct Pending {
    pub trigger: BackupTrigger,
    pub deadline: u64,
}

pub open spec fn empty_slot() -> Slot {
    Slot { in_progress: false, pending: None }
}

struct Entry {
    repo: String,
    slot: Slot,
}

/// The per-repo coalescing queue. Its view maps each repository key to its slots.
pub struct BackupQueue {
    entries: Vec<Entry>,
}

/// The queue as a map from repository key to slots.
pub type QueueView = Map<Seq<char>, Slot>;

pub open spec fn slot_of(q: QueueView, repo: Seq<char>) -> Slot {
    if q.contains_key(repo) {
        q[repo]
    } else {
        empty_slot()
    }
}

/// `publish`: replace the repo's pending request and push its deadline out.
pub open spec fn publish_spec(q: QueueView, repo: Seq<char>, trigger: BackupTrigger, now: u64) -> QueueView {
    q.insert(
        repo,
        Slot { in_progress: slot_of(q, repo).in_progress, pending: Some(Pending { trigger, deadline: (now + BACKUP_DEBOUNCE_MS) as u64 }) },
    )
}

/// The repo has a pending request past its deadline and nothing in flight.
pub open spec fn ready(s: Slot, now: u64) -> bool {
    !s.in_progress && match s.pending {
        Some(p) => p.deadline <= now,
        None => false,
    }
}

pub open spec fn ready_key(q: QueueView, k: Seq<char>, now: u64) -> bool {
    q.contains_key(k) && ready(q[k], now)
}

/// `k` is the least ready key: the one `take_ready` serves.
pub open spec fn least_ready(q: QueueView, k: Seq<char>, now: u64) -> bool {
    ready_key(q, k, now) && forall|j: Seq<char>| #[trigger] ready_key(q, j, now) && j != k ==> seq_lt(k, j)
}

pub open spec fn any_ready(q: QueueView, now: u64) -> bool {
    exists|k: Seq<char>| #[trigger] ready_key(q, k, now)
}

/// What `take_ready` returns, and the queue it leaves.
pub open spec fn take_ready_spec(q: QueueView, now: u64) -> (QueueView, Option<(Seq<char>, BackupTrigger)>) {
    if any_ready(q, now) {
        let k = choose|k: Seq<char>| least_ready(q, k, now);
        (q.insert(k, Slot { in_progress: true, pending: None }), Some((k, q[k].pending.unwrap().trigger)))
    } else {
        (q, None)
    }
}

/// `finish`: clear the in-flight flag of a known repo.
pub open spec fn finish_spec(q: QueueView, repo: Seq<char>) -> QueueView {
    if q.contains_key(repo) {
        q.insert(repo, Slot { in_progress: false, pending: q[repo].pending })
    } else {
        q
    }
}

/// `begin`: claim the in-flight slot unless it is already taken.
pub open spec fn begin_spec(q: QueueView, repo: Seq<char>) -> (QueueView, bool) {
    if slot_of(q, repo).in_progress {
        (q, false)
    } else {
        (q.insert(repo, Slot { in_progress: true, pending: slot_of(q, repo).pending }), true)
    }
}

/// `busy`: something is running or scheduled for the repo.
pub open spec fn busy_spec(q: QueueView, repo: Seq<char>) -> bool {
    slot_of(q, repo).in_progress || slot_of(q, repo).pending.is_some()
}

pub open spec fn pending_keys(q: QueueView) -> Set<Seq<char>> {
    q.dom().filter(|k: Seq<char>| q[k].pending.is_some())
}

proof fn lemma_any_ready_has_least(q: QueueView, now: u64)
    requires
        q.dom().finite(),
        any_ready(q, now),
    ensures
        exists|k: Seq<char>| least_ready(q, k, now),
    decreases q.dom().len(),
{
    let k0 = choose|k: Seq<char>| #[trigger] ready_key(q, k, now);
    let rest = q.remove(k0);
    if any_ready(rest, now) {
        lemma_any_ready_has_least(rest, now);
        let m = choose|k: Seq<char>| least_ready(rest, k, now);
        lemma_seq_lt_total(m, k0);
        if seq_lt(m, k0) {
            assert forall|j: Seq<char>| #[trigger] ready_key(q, j, now) && j != m implies seq_lt(m, j) by {
                if j != k0 {
                    assert(ready_key(rest, j, now));
                }
            }
            assert(least_ready(q, m, now));
        } else {
            assert forall|j: Seq<char>| #[trigger] ready_key(q, j, now) && j != k0 implies seq_lt(k0, j) by {
                if j != m {
                    assert(ready_key(rest, j, now));
                    lemma_seq_lt_transitive(k0, m, j);
                }
            }
            assert(least_ready(q, k0, now));
        }
    } else {
        assert forall|j: Seq<char>| #[trigger] ready_key(q, j, now) && j != k0 implies seq_lt(k0, j) by {
            assert(ready_key(rest, j, now));
        }
        assert(least_ready(q, k0, now));
    }
}

proof fn lemma_least_ready_unique(q: QueueView, a: Seq<char>, b: Seq<char>, now: u64)
    requires
        least_ready(q, a, now),
        least_ready(q, b, now),
    ensures
        a == b,
{
    if a != b {
        assert(ready_key(q, b, now));
        assert(seq_lt(a, b));
        assert(ready_key(q, a, now));
        assert(seq_lt(b, a));
        lemma_seq_lt_asymmetric(a, b);
    }
}

impl Entry {
    spec fn key(self) -> Seq<char> {
        self.repo@
    }
}

impl BackupQueue {
    spec fn keys_distinct(s: Seq<Entry>) -> bool {
        forall|i: int, j: int| 0 <= i < s.len() && 0 <= j < s.len() && i != j ==> s[i].key() != s[j].key()
    }

    spec fn map_of(s: Seq<Entry>) -> QueueView {
        Map::new(
            |k: Seq<char>| exists|i: int| 0 <= i < s.len() && s[i].key() == k,
            |k: Seq<char>| s[choose|i: int| 0 <= i < s.len() && s[i].key() == k].slot,
        )
    }

    /// Each repository appears once.
    pub closed spec fn wf(self) -> bool {
        Self::keys_distinct(self.entries@)
    }

    pub closed spec fn view(self) -> QueueView {
        Self::map_of(self.entries@)
    }

    /// A queue holds finitely many repositories.
    pub proof fn lemma_view_finite(self)
        ensures
            self.view().dom().finite(),
    {
        Self::lemma_dom_finite(self.entries@);
    }

    proof fn lemma_lookup(s: Seq<Entry>, i: int)
        requires
            Self::keys_distinct(s),
            0 <= i < s.len(),
        ensures
            Self::map_of(s).contains_key(s[i].key()),
            Self::map_of(s)[s[i].key()] == s[i].slot,
    {
        let k = s[i].key();
        assert(exists|j: int| 0 <= j < s.len() && s[j].key() == k);
        let j = choose|j: int| 0 <= j < s.len() && s[j].key() == k;
        assert(j == i);
    }

    proof fn lemma_dom_finite(s: Seq<Entry>)
        ensures
            Self::map_of(s).dom().finite(),
        decreases s.len(),
    {
        if s.len() == 0 {
            assert(Self::map_of(s).dom() =~= Set::empty());
        } else {
            let t = s.drop_last();
            Self::lemma_dom_finite(t);
            assert(Self::map_of(s).dom() =~= Self::map_of(t).dom().insert(s.last().key())) by {
                assert forall|k: Seq<char>| Self::map_of(s).dom().contains(k) implies Self::map_of(t).dom().insert(
                    s.last().key(),
                ).contains(k) by {
                    let i = choose|i: int| 0 <= i < s.len() && s[i].key() == k;
                    if i < t.len() {
                        assert(t[i] == s[i]);
                    }
                }
                assert forall|k: Seq<char>| Self::map_of(t).dom().insert(s.last().key()).contains(k) implies Self::map_of(
                    s,
                ).dom().contains(k) by {
                    if k != s.last().key() {
                        let i = choose|i: int| 0 <= i < t.len() && t[i].key() == k;
                        assert(s[i] == t[i]);
                    } else {
                        assert(s[s.len() - 1].key() == k);
                    }
                }
            }
        }
    }

    /// The position of `repo` in the entry list.
    fn find(&self, repo: &str) -> (r: Option<usize>)
        requires
            self.wf(),
        ensures
            match r {
                Some(i) => i < self.entries@.len() && self.entries@[i as int].key() == repo@,
                None => !self@.contains_key(repo@),
            },
    {
        let target = owned(repo);
        let mut i: usize = 0;
        while i < self.entries.len()
            invariant
                i <= self.entries@.len(),
                target@ == repo@,
                forall|k: int| 0 <= k < i ==> self.entries@[k].key() != repo@,
            decreases self.entries@.len() - i,
        {
            if self.entries[i].repo == target {
                return Some(i);
            }
            i = i + 1;
        }
        None
    }

    proof fn lemma_set(s: Seq<Entry>, i: int, e: Entry)
        requires
            Self::keys_distinct(s),
            0 <= i < s.len(),
            e.key() == s[i].key(),
        ensures
            Self::keys_distinct(s.update(i, e)),
            Self::map_of(s.update(i, e)) == Self::map_of(s).insert(e.key(), e.slot),
    {
        let t = s.update(i, e);
        assert forall|a: int, b: int| 0 <= a < t.len() && 0 <= b < t.len() && a != b implies t[a].key() != t[b].key() by {
            if a == i {
                assert(t[b] == s[b]);
            } else if b == i {
                assert(t[a] == s[a]);
            } else {
                assert(t[a] == s[a]);
                assert(t[b] == s[b]);
            }
        }
        Self::lemma_lookup(t, i);
        assert forall|k: Seq<char>| #[trigger] Self::map_of(t).contains_key(k) == Self::map_of(s).insert(e.key(), e.slot).contains_key(k) by {
            if Self::map_of(t).contains_key(k) {
                let j = choose|j: int| 0 <= j < t.len() && t[j].key() == k;
                if j != i {
                    assert(s[j] == t[j]);
                }
            }
            if Self::map_of(s).contains_key(k) && k != e.key() {
                let j = choose|j: int| 0 <= j < s.len() && s[j].key() == k;
                assert(j != i);
                assert(t[j] == s[j]);
            }
        }
        assert forall|k: Seq<char>| Self::map_of(t).contains_key(k) implies #[trigger] Self::map_of(t)[k] == Self::map_of(
            s,
        ).insert(e.key(), e.slot)[k] by {
            let j = choose|j: int| 0 <= j < t.len() && t[j].key() == k;
            Self::lemma_lookup(t, j);
            if j != i {
                assert(t[j] == s[j]);
                Self::lemma_lookup(s, j);
            }
        }
        assert(Self::map_of(t) =~= Self::map_of(s).insert(e.key(), e.slot));
    }

    proof fn lemma_push(s: Seq<Entry>, e: Entry)
        requires
            Self::keys_distinct(s),
            !Self::map_of(s).contains_key(e.key()),
        ensures
            Self::keys_distinct(s.push(e)),
            Self::map_of(s.push(e)) == Self::map_of(s).insert(e.key(), e.slot),
    {
        let t = s.push(e);
        let n = s.len() as int;
        assert forall|a: int| 0 <= a < n implies s[a].key() != e.key() by {
            if s[a].key() == e.key() {
                assert(Self::map_of(s).contains_key(e.key()));
            }
        }
        assert forall|a: int, b: int| 0 <= a < t.len() && 0 <= b < t.len() && a != b implies t[a].key() != t[b].key() by {
            if a < n {
                assert(t[a] == s[a]);
            }
            if b < n {
                assert(t[b] == s[b]);
            }
        }
        Self::lemma_lookup(t, n);
        assert forall|k: Seq<char>| #[trigger] Self::map_of(t).contains_key(k) == Self::map_of(s).insert(e.key(), e.slot).contains_key(k) by {
            if Self::map_of(t).contains_key(k) {
                let j = choose|j: int| 0 <= j < t.len() && t[j].key() == k;
                if j < n {
                    assert(s[j] == t[j]);
                }
            }
            if Self::map_of(s).contains_key(k) {
                let j = choose|j: int| 0 <= j < s.len() && s[j].key() == k;
                assert(t[j] == s[j]);
            }
        }
        assert forall|k: Seq<char>| Self::map_of(t).contains_key(k) implies #[trigger] Self::map_of(t)[k] == Self::map_of(
            s,
        ).insert(e.key(), e.slot)[k] by {
            let j = choose|j: int| 0 <= j < t.len() && t[j].key() == k;
            Self::lemma_lookup(t, j);
            if j < n {
                assert(t[j] == s[j]);
                Self::lemma_lookup(s, j);
            }
        }
        assert(Self::map_of(t) =~= Self::map_of(s).insert(e.key(), e.slot));
    }

    fn put(&mut self, i: Option<usize>, repo: &str, slot: Slot)
        requires
            old(self).wf(),
            match i {
                Some(i) => i < old(self).entries@.len() && old(self).entries@[i as int].key() == repo@,
                None => !old(self)@.contains_key(repo@),
            },
        ensures
            final(self).wf(),
            final(self)@ == old(self)@.insert(repo@, slot),
    {
        let e = Entry { repo: owned(repo), slot };
        match i {
            Some(i) => {
                proof {
                    Self::lemma_set(self.entries@, i as int, e);
                }
                self.entries.set(i, e);
            },
            None => {
                proof {
                    Self::lemma_push(self.entries@, e);
                }
                self.entries.push(e);
            },
        }
    }

    proof fn lemma_slot(&self, repo: &str, i: Option<usize>)
        requires
            self.wf(),
            match i {
                Some(i) => i < self.entries@.len() && self.entries@[i as int].key() == repo@,
                None => !self@.contains_key(repo@),
            },
        ensures
            slot_of(self@, repo@) == match i {
                Some(i) => self.entries@[i as int].slot,
                None => empty_slot(),
            },
    {
        if let Some(i) = i {
            Self::lemma_lookup(self.entries@, i as int);
        }
    }

    fn slot_at(&self, i: Option<usize>) -> (s: Slot)
        requires
            match i {
                Some(i) => i < self.entries@.len(),
                None => true,
            },
        ensures
            s == match i {
                Some(i) => self.entries@[i as int].slot,
                None => empty_slot(),
            },
    {
        match i {
            Some(i) => self.entries[i].slot,
            None => Slot { in_progress: false, pending: None },
        }
    }

    /// An empty queue.
    pub fn new() -> (q: Self)
        ensures
            q.wf(),
            q@ == Map::<Seq<char>, Slot>::empty(),
    {
        let q = BackupQueue { entries: Vec::new() };
        assert(q@ =~= Map::<Seq<char>, Slot>::empty());
        q
    }

    /// Replace this repo's pending request and push the debounce deadline out. Replacing
    /// rather than appending is what bounds the queue.
    pub fn publish(&mut self, repo: &str, trigger: BackupTrigger, now: u64)
        requires
            old(self).wf(),
            now <= u64::MAX - BACKUP_DEBOUNCE_MS,
        ensures
            final(self).wf(),
            final(self)@ == publish_spec(old(self)@, repo@, trigger, now),
    {
        let i = self.find(repo);
        proof {
            self.lemma_slot(repo, i);
        }
        let cur = self.slot_at(i);
        let slot = Slot { in_progress: cur.in_progress, pending: Some(Pending { trigger, deadline: now + BACKUP_DEBOUNCE_MS }) };
        self.put(i, repo, slot);
    }

    /// The next repo whose pending request is past its deadline and has nothing in flight,
    /// the least such key first so that no repo can starve another. It is marked in
    /// progress; the worker calls `finish` when the run is done or failed.
    pub fn take_ready(&mut self, now: u64) -> (r: Option<(String, BackupTrigger)>)
        requires
            old(self).wf(),
        ensures
            final(self).wf(),
            (final(self)@, match r {
                Some(p) => Some((p.0@, p.1)),
                None => None::<(Seq<char>, BackupTrigger)>,
            }) == take_ready_spec(old(self)@, now),
    {
        let ghost q = self@;
        let mut best: Option<usize> = None;
        let mut best_chars: Vec<char> = Vec::new();
        let mut i: usize = 0;
        while i < self.entries.len()
            invariant
                self.wf(),
                self@ == q,
                i <= self.entries@.len(),
                match best {
                    Some(b) => {
                        &&& b < i
                        &&& ready(self.entries@[b as int].slot, now)
                        &&& best_chars@ == self.entries@[b as int].key()
                        &&& forall|j: int|
                            0 <= j < i && j != b && ready(#[trigger] self.entries@[j].slot, now) ==> seq_lt(
                                best_chars@,
                                self.entries@[j].key(),
                            )
                    },
                    None => forall|j: int| 0 <= j < i ==> !ready(#[trigger] self.entries@[j].slot, now),
                },
            decreases self.entries@.len() - i,
        {
            let s = self.entries[i].slot;
            let is_ready = !s.in_progress && match s.pending {
                Some(p) => p.deadline <= now,
                None => false,
            };
            if is_ready {
                let cand = chars_of(self.entries[i].repo.as_str());
                let better = match best {
                    None => true,
                    Some(_) => chars_lt(cand.as_slice(), best_chars.as_slice()),
                };
                if better {
                    proof {
                        if let Some(b) = best {
                            assert forall|j: int|
                                0 <= j < i + 1 && j != i && ready(#[trigger] self.entries@[j].slot, now) implies seq_lt(
                                cand@,
                                self.entries@[j].key(),
                            ) by {
                                if j != b {
                                    lemma_seq_lt_transitive(cand@, best_chars@, self.entries@[j].key());
                                }
                            }
                        }
                    }
                    best = Some(i);
                    best_chars = cand;
                } else {
                    proof {
                        let b = best.unwrap();
                        lemma_seq_lt_total(cand@, best_chars@);
                        assert(self.entries@[b as int].key() != self.entries@[i as int].key());
                    }
                }
            }
            i = i + 1;
        }
        match best {
            None => {
                proof {
                    if any_ready(q, now) {
                        let k = choose|k: Seq<char>| #[trigger] ready_key(q, k, now);
                        let j = choose|j: int| 0 <= j < self.entries@.len() && self.entries@[j].key() == k;
                        Self::lemma_lookup(self.entries@, j);
                        assert(ready(self.entries@[j].slot, now));
                    }
                }
                None
            },
            Some(b) => {
                let ghost kb = self.entries@[b as int].key();
                proof {
                    Self::lemma_lookup(self.entries@, b as int);
                    assert(ready_key(q, kb, now));
                    assert forall|k: Seq<char>| #[trigger] ready_key(q, k, now) && k != kb implies seq_lt(kb, k) by {
                        let j = choose|j: int| 0 <= j < self.entries@.len() && self.entries@[j].key() == k;
                        Self::lemma_lookup(self.entries@, j);
                    }
                    assert(least_ready(q, kb, now));
                    assert(any_ready(q, now));
                    let c = choose|k: Seq<char>| least_ready(q, k, now);
                    lemma_least_ready_unique(q, c, kb, now);
                }
                let trigger = match self.entries[b].slot.pending {
                    Some(p) => p.trigger,
                    None => BackupTrigger::Manual,
                };
                let repo = self.entries[b].repo.clone();
                let rs = repo.as_str();
                self.put(Some(b), rs, Slot { in_progress: true, pending: None });
                Some((repo, trigger))
            },
        }
    }

    /// Clear the in-flight flag; the next pending request may then start.
    pub fn finish(&mut self, repo: &str)
        requires
            old(self).wf(),
        ensures
            final(self).wf(),
            final(self)@ == finish_spec(old(self)@, repo@),
    {
        let i = self.find(repo);
        if let Some(k) = i {
            proof {
                self.lemma_slot(repo, i);
            }
            let cur = self.slot_at(i);
            self.put(i, repo, Slot { in_progress: false, pending: cur.pending });
        }
    }

    /// Claim the in-flight slot for work run outside the worker. `false` means this repo is
    /// already being zipped or extracted and the caller must not proceed.
    pub fn begin(&mut self, repo: &str) -> (r: bool)
        requires
            old(self).wf(),
        ensures
            final(self).wf(),
            (final(self)@, r) == begin_spec(old(self)@, repo@),
    {
        let i = self.find(repo);
        proof {
            self.lemma_slot(repo, i);
        }
        let cur = self.slot_at(i);
        if cur.in_progress {
            return false;
        }
        self.put(i, repo, Slot { in_progress: true, pending: cur.pending });
        true
    }

    /// Is anything running or already scheduled for this repo?
    pub fn busy(&self, repo: &str) -> (r: bool)
        requires
            self.wf(),
        ensures
            r == busy_spec(self@, repo@),
    {
        let i = self.find(repo);
        proof {
            self.lemma_slot(repo, i);
        }
        let cur = self.slot_at(i);
        cur.in_progress || cur.pending.is_some()
    }

    /// The trigger of this repo's pending request.
    pub fn pending(&self, repo: &str) -> (r: Option<BackupTrigger>)
        requires
            self.wf(),
        ensures
            r == match slot_of(self@, repo@).pending {
                Some(p) => Some(p.trigger),
                None => None::<BackupTrigger>,
            },
    {
        let i = self.find(repo);
        proof {
            self.lemma_slot(repo, i);
        }
        let cur = self.slot_at(i);
        match cur.pending {
            Some(p) => Some(p.trigger),
            None => None,
        }
    }

    /// How many repos have a pending request.
    pub fn pending_total(&self) -> (r: usize)
        requires
            self.wf(),
        ensures
            r == pending_keys(self@).len(),
    {
        let ghost s = self.entries@;
        let mut count: usize = 0;
        let mut i: usize = 0;
        let ghost mut seen: Set<Seq<char>> = Set::empty();
        while i < self.entries.len()
            invariant
                self.wf(),
                s == self.entries@,
                i <= s.len(),
                seen.finite(),
                count == seen.len(),
                count <= i,
                forall|k: Seq<char>|
                    seen.contains(k) <==> exists|j: int| 0 <= j < i && #[trigger] s[j].key() == k && s[j].slot.pending.is_some(),
            decreases s.len() - i,
        {
            if self.entries[i].slot.pending.is_some() {
                proof {
                    let k = s[i as int].key();
                    if seen.contains(k) {
                        let j = choose|j: int| 0 <= j < i && #[trigger] s[j].key() == k && s[j].slot.pending.is_some();
                        assert(false);
                    }
                    seen = seen.insert(k);
                }
                count = count + 1;
            }
            i = i + 1;
        }
        proof {
            assert forall|k: Seq<char>| seen.contains(k) <==> #[trigger] pending_keys(self@).contains(k) by {
                if seen.contains(k) {
                    let j = choose|j: int| 0 <= j < i && #[trigger] s[j].key() == k && s[j].slot.pending.is_some();
                    Self::lemma_lookup(s, j);
                }
                if pending_keys(self@).contains(k) {
                    let j = choose|j: int| 0 <= j < s.len() && s[j].key() == k;
                    Self::lemma_lookup(s, j);
                }
            }
            assert(seen =~= pending_keys(self@));
        }
        count
    }
}

/// A later publish for the same repo replaces the earlier one entirely: a burst of
/// publishes leaves exactly the last request pending.
pub proof fn law_publish_replaces(q: QueueView, repo: Seq<char>, t1: BackupTrigger, n1: u64, t2: BackupTrigger, n2: u64)
    requires
        n1 <= u64::MAX - BACKUP_DEBOUNCE_MS,
        n2 <= u64::MAX - BACKUP_DEBOUNCE_MS,
    ensures
        publish_spec(publish_spec(q, repo, t1, n1), repo, t2, n2) == publish_spec(q, repo, t2, n2),
{
    assert(publish_spec(publish_spec(q, repo, t1, n1), repo, t2, n2) =~= publish_spec(q, repo, t2, n2));
}

/// Publishing adds its repo to the pending set and nothing else: the pending total grows
/// by at most one, however many times a repo publishes.
pub proof fn law_publish_pending_keys(q: QueueView, repo: Seq<char>, t: BackupTrigger, now: u64)
    requires
        now <= u64::MAX - BACKUP_DEBOUNCE_MS,
    ensures
        pending_keys(publish_spec(q, repo, t, now)) == pending_keys(q).insert(repo),
{
    assert(pending_keys(publish_spec(q, repo, t, now)) =~= pending_keys(q).insert(repo));
}

/// Distinct repos do not share slots: publishing, beginning or finishing one repo leaves
/// every other repo's slots as they were.
pub proof fn law_repos_independent(q: QueueView, repo: Seq<char>, other: Seq<char>, t: BackupTrigger, now: u64)
    requires
        repo != other,
        now <= u64::MAX - BACKUP_DEBOUNCE_MS,
    ensures
        slot_of(publish_spec(q, repo, t, now), other) == slot_of(q, other),
        slot_of(begin_spec(q, repo).0, other) == slot_of(q, other),
        slot_of(finish_spec(q, repo), other) == slot_of(q, other),
{
}

/// A debounced request reads as busy from the moment it is published.
pub proof fn law_busy_after_publish(q: QueueView, repo: Seq<char>, t: BackupTrigger, now: u64)
    requires
        now <= u64::MAX - BACKUP_DEBOUNCE_MS,
    ensures
        busy_spec(publish_spec(q, repo, t, now), repo),
{
}

/// `begin` claims the slot, and a second claim is refused without changing anything.
pub proof fn law_begin_refuses_second_claim(q: QueueView, repo: Seq<char>)
    ensures
        begin_spec(q, repo).1 ==> busy_spec(begin_spec(q, repo).0, repo),
        !begin_spec(begin_spec(q, repo).0, repo).1,
        begin_spec(begin_spec(q, repo).0, repo).0 == begin_spec(q, repo).0,
{
}

/// Once finished, a repo is claimable again.
pub proof fn law_finish_reenables_begin(q: QueueView, repo: Seq<char>)
    ensures
        begin_spec(finish_spec(begin_spec(q, repo).0, repo), repo).1,
{
}

/// A repo with nothing pending reads idle once its run finishes.
pub proof fn law_finish_clears_busy(q: QueueView, repo: Seq<char>)
    requires
        slot_of(q, repo).pending.is_none(),
    ensures
        !busy_spec(finish_spec(q, repo), repo),
{
}

/// The worker never picks a repo that has a run in flight, manual or automatic.
pub proof fn law_in_flight_never_taken(q: QueueView, repo: Seq<char>, now: u64)
    requires
        q.dom().finite(),
        slot_of(q, repo).in_progress,
    ensures
        match take_ready_spec(q, now).1 {
            Some(p) => p.0 != repo,
            None => true,
        },
{
    if any_ready(q, now) {
        lemma_any_ready_has_least(q, now);
    }
}

/// Inside the debounce window the request is still coalescing and is not served.
pub proof fn law_not_ready_before_deadline(q: QueueView, repo: Seq<char>, t: BackupTrigger, at: u64, now: u64)
    requires
        q.dom().finite(),
        at <= u64::MAX - BACKUP_DEBOUNCE_MS,
        now < at + BACKUP_DEBOUNCE_MS,
    ensures
        match take_ready_spec(publish_spec(q, repo, t, at), now).1 {
            Some(p) => p.0 != repo,
            None => true,
        },
{
    let q1 = publish_spec(q, repo, t, at);
    if any_ready(q1, now) {
        lemma_any_ready_has_least(q1, now);
    }
}

/// Past the deadline, with nothing in flight, the worker is served a request.
pub proof fn law_ready_after_deadline(q: QueueView, repo: Seq<char>, t: BackupTrigger, at: u64, now: u64)
    requires
        q.dom().finite(),
        !slot_of(q, repo).in_progress,
        at <= u64::MAX - BACKUP_DEBOUNCE_MS,
        at + BACKUP_DEBOUNCE_MS <= now,
    ensures
        take_ready_spec(publish_spec(q, repo, t, at), now).1.is_some(),
{
    let q1 = publish_spec(q, repo, t, at);
    assert(ready_key(q1, repo, now));
}

/// A served request is in flight: the repo reads busy, a manual claim is refused, and the
/// worker is not served it a second time.
pub proof fn law_taken_is_in_flight(q: QueueView, now: u64)
    requires
        q.dom().finite(),
        take_ready_spec(q, now).1.is_some(),
    ensures
        ({
            let (q1, r) = take_ready_spec(q, now);
            let repo = r.unwrap().0;
            &&& busy_spec(q1, repo)
            &&& !begin_spec(q1, repo).1
            &&& q1.dom().finite()
            &&& match take_ready_spec(q1, now).1 {
                Some(p) => p.0 != repo,
                None => true,
            }
        }),
{
    lemma_any_ready_has_least(q, now);
    let (q1, r) = take_ready_spec(q, now);
    let repo = r.unwrap().0;
    assert(q1.dom() =~= q.dom().insert(repo));
    law_in_flight_never_taken(q1, repo, now);
}

/// The request served is the one that was pending for that repo, and the least ready key.
pub proof fn law_take_ready_serves_least(q: QueueView, now: u64)
    requires
        q.dom().finite(),
        take_ready_spec(q, now).1.is_some(),
    ensures
        ({
            let r = take_ready_spec(q, now).1.unwrap();
            &&& least_ready(q, r.0, now)
            &&& q[r.0].pending == Some(Pending { trigger: r.1, deadline: q[r.0].pending.unwrap().deadline })
        }),
{
    lemma_any_ready_has_least(q, now);
}


/// A backup restores only into the repository it was taken of (both as canonical paths).
pub fn backup_identity_check(backup_repo: &str, expected: &str) -> (r: Result<(), String>)
    ensures
        backup_repo@ == expected@ ==> r is Ok,
        backup_repo@ != expected@ ==> (r matches Err(e) && e@ == "this backup belongs to "@ + backup_repo@ + ", not "@
            + expected@),
{
    if crate::text::str_eq(backup_repo, expected) {
        return Ok(());
    }
    let mut m = crate::text::owned("this backup belongs to ");
    crate::text::push_str(&mut m, backup_repo);
    crate::text::push_str(&mut m, ", not ");
    crate::text::push_str(&mut m, expected);
    Err(m)
}

} // verus!
