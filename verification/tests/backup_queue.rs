use alinery::backup_queue::{should_publish, BackupDefaults, BackupQueue, BackupTrigger, BACKUP_DEBOUNCE_MS};

fn all_triggers_on(dest: &str) -> BackupDefaults {
    BackupDefaults {
        destination: dest.to_string(),
        enabled: true,
        retention: 10,
        trigger_pre_archive: true,
        trigger_post_artifact_change: true,
        trigger_post_push_commit: true,
    }
}

/// Readiness as the caller reports it: enabled, with a destination set, and usable as the
/// caller found it on disk.
fn ready(settings: &BackupDefaults, destination_usable: bool) -> bool {
    settings.enabled && !settings.destination.is_empty() && destination_usable
}

const AUTO: [BackupTrigger; 3] = [BackupTrigger::PreArchive, BackupTrigger::PostArtifactChange, BackupTrigger::PostPushCommit];
const T0: u64 = 1_000;

#[test]
fn gate_off_when_feature_disabled() {
    let mut settings = all_triggers_on("/tmp/dest");
    settings.enabled = false;
    for trigger in AUTO {
        assert!(!should_publish(&settings, ready(&settings, true), trigger), "{trigger:?} passed");
    }
}

#[test]
fn gate_off_when_destination_unset_or_invalid() {
    let mut unset = all_triggers_on("/tmp/dest");
    unset.destination = String::new();
    assert!(!should_publish(&unset, ready(&unset, true), BackupTrigger::PreArchive));

    // Whether a destination is usable (one inside the repository is not) is worked out on
    // disk by the caller; an unusable one publishes nothing, whatever the triggers say.
    let unusable = all_triggers_on("/tmp/repo/.alinery/backups");
    for trigger in AUTO {
        assert!(!should_publish(&unusable, ready(&unusable, false), trigger));
    }
    assert!(should_publish(&unusable, ready(&unusable, true), BackupTrigger::PreArchive));
}

#[test]
fn gate_matches_trigger_flag_independently() {
    let mut settings = all_triggers_on("/tmp/dest");
    settings.trigger_post_artifact_change = false;
    settings.trigger_post_push_commit = false;
    let ok = ready(&settings, true);
    assert!(should_publish(&settings, ok, BackupTrigger::PreArchive));
    assert!(!should_publish(&settings, ok, BackupTrigger::PostArtifactChange));
    assert!(!should_publish(&settings, ok, BackupTrigger::PostPushCommit));
}

#[test]
fn gate_never_gates_manual_or_mcp() {
    let mut settings = all_triggers_on("/tmp/dest");
    settings.trigger_pre_archive = false;
    settings.trigger_post_artifact_change = false;
    settings.trigger_post_push_commit = false;
    let ok = ready(&settings, true);
    assert!(!should_publish(&settings, ok, BackupTrigger::Manual));
    assert!(!should_publish(&settings, ok, BackupTrigger::Mcp));
    assert!(ok);
}

#[test]
fn rapid_publishes_collapse_to_one_pending() {
    let mut queue = BackupQueue::new();
    for (i, trigger) in [
        BackupTrigger::PostArtifactChange,
        BackupTrigger::PostArtifactChange,
        BackupTrigger::PostArtifactChange,
        BackupTrigger::PostArtifactChange,
        BackupTrigger::PreArchive,
    ]
    .into_iter()
    .enumerate()
    {
        queue.publish("/r", trigger, T0 + i as u64 * 10);
    }
    assert_eq!(queue.pending_total(), 1);
    assert_eq!(queue.pending("/r"), Some(BackupTrigger::PreArchive));
}

#[test]
fn publish_during_in_progress_replaces_pending_not_backlog() {
    let mut queue = BackupQueue::new();
    queue.publish("/r", BackupTrigger::PreArchive, T0);
    assert!(queue.take_ready(T0 + BACKUP_DEBOUNCE_MS).is_some());
    for _ in 0..3 {
        queue.publish("/r", BackupTrigger::PostArtifactChange, T0);
    }
    assert_eq!(queue.pending_total(), 1);
    assert_eq!(queue.pending("/r"), Some(BackupTrigger::PostArtifactChange));
}

#[test]
fn pending_is_not_ready_before_debounce_deadline() {
    let mut queue = BackupQueue::new();
    queue.publish("/r", BackupTrigger::PreArchive, T0);
    assert_eq!(queue.take_ready(T0 + 1_000), None);
}

#[test]
fn pending_becomes_ready_after_debounce() {
    let mut queue = BackupQueue::new();
    queue.publish("/r", BackupTrigger::PreArchive, T0);
    assert_eq!(queue.take_ready(T0 + BACKUP_DEBOUNCE_MS), Some(("/r".to_string(), BackupTrigger::PreArchive)));
    assert_eq!(queue.take_ready(T0 + 3_000), None);
}

#[test]
fn republish_refreshes_the_deadline() {
    let mut queue = BackupQueue::new();
    queue.publish("/r", BackupTrigger::PreArchive, T0);
    queue.publish("/r", BackupTrigger::PreArchive, T0 + 1_000);
    assert_eq!(queue.take_ready(T0 + 2_000), None);
    assert!(queue.take_ready(T0 + 3_000).is_some());
}

#[test]
fn distinct_repos_do_not_share_slots() {
    let mut queue = BackupQueue::new();
    queue.publish("/a", BackupTrigger::PreArchive, T0);
    queue.publish("/b", BackupTrigger::PostPushCommit, T0);
    let ready = T0 + BACKUP_DEBOUNCE_MS;
    let first = queue.take_ready(ready).unwrap();
    let second = queue.take_ready(ready).unwrap();
    let mut repos = [first.0, second.0];
    repos.sort();
    assert_eq!(repos, ["/a".to_string(), "/b".to_string()]);
}

#[test]
fn finish_clears_in_progress_and_allows_next() {
    let mut queue = BackupQueue::new();
    queue.publish("/r", BackupTrigger::PreArchive, T0);
    assert!(queue.take_ready(T0 + BACKUP_DEBOUNCE_MS).is_some());

    queue.publish("/r", BackupTrigger::PostArtifactChange, T0 + BACKUP_DEBOUNCE_MS);
    let later = T0 + BACKUP_DEBOUNCE_MS + BACKUP_DEBOUNCE_MS;
    assert_eq!(queue.take_ready(later), None, "in-flight must block");

    queue.finish("/r");
    assert_eq!(queue.take_ready(later), Some(("/r".to_string(), BackupTrigger::PostArtifactChange)));
}

#[test]
fn busy_covers_pending_then_in_flight_then_clears() {
    let mut queue = BackupQueue::new();
    assert!(!queue.busy("/r"), "idle repo must not read busy");

    queue.publish("/r", BackupTrigger::PreArchive, T0);
    assert!(queue.busy("/r"), "debounced trigger is about to zip");

    assert!(queue.take_ready(T0 + BACKUP_DEBOUNCE_MS).is_some());
    assert!(queue.busy("/r"), "in flight");

    queue.finish("/r");
    assert!(!queue.busy("/r"));
}

#[test]
fn begin_claims_the_slot_and_refuses_a_second_claim() {
    let mut queue = BackupQueue::new();
    assert!(queue.begin("/r"));
    assert!(queue.busy("/r"));
    assert!(!queue.begin("/r"), "second claim must be refused");

    queue.finish("/r");
    assert!(!queue.busy("/r"));
    assert!(queue.begin("/r"), "claimable again once finished");
}

#[test]
fn begin_blocks_the_worker_and_the_worker_blocks_begin() {
    let mut queue = BackupQueue::new();
    assert!(queue.begin("/r"));
    queue.publish("/r", BackupTrigger::PostArtifactChange, T0);
    assert_eq!(queue.take_ready(T0 + BACKUP_DEBOUNCE_MS), None, "manual claim must hold off the worker");

    queue.finish("/r");
    assert!(queue.take_ready(T0 + BACKUP_DEBOUNCE_MS).is_some());
    assert!(!queue.begin("/r"), "worker claim must hold off manual");
}

#[test]
fn take_ready_serves_the_least_repo_first() {
    let mut queue = BackupQueue::new();
    queue.publish("/b", BackupTrigger::PreArchive, T0);
    queue.publish("/a", BackupTrigger::PostPushCommit, T0);
    assert_eq!(queue.take_ready(T0 + BACKUP_DEBOUNCE_MS), Some(("/a".to_string(), BackupTrigger::PostPushCommit)));
    assert_eq!(queue.take_ready(T0 + BACKUP_DEBOUNCE_MS), Some(("/b".to_string(), BackupTrigger::PreArchive)));
    assert_eq!(queue.take_ready(T0 + BACKUP_DEBOUNCE_MS), None);
}
