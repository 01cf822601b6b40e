use alinery::artifacts::{chat_image_check, review_approval_prompt};
use alinery::board::{
    archive_task_slug, session_launch_check, sort_sessions, SessionKey,
    board_summary, is_primary_playbook_session, session_row_title, sort_session_rows, task_updated_at, BoardSession,
    SessionRow,
};
use alinery::backup_queue::backup_identity_check;
use alinery::connections::{github_git_protocol, github_login_outcome};
use alinery::git_ops::{commit_check, git_step_failure, push_check, removal_record_check, worktree_removal_check};
use alinery::json::Json;
use alinery::mcp_status::{is_mcp_binary_name, mcp_status};
use alinery::repo_state::ClosingRepos;
use alinery::session_stream::{frame_session_channel_bytes, pump_step, StreamEvent};
use alinery::subtasks::{
    can_recover, last_manager_for, manager_is_usable, recover_check, sort_managers, start_disabled_reason, ChildFacts,
    ManagerFacts,
};
use alinery::task_names::{
    accepted_attachment_name, attachment_candidates, classify_attachment_entry, clean_related_tags, draft_names,
    draft_slug_choice, duplicate_check, duplicate_names, latest_draft_slug, numbered_slug, parse_u64,
    requested_task_slug, suffixed_attachment_name, AttachmentEntry, BaseDraft, DraftCandidate, DraftSlug, RelatedTag,
};

fn s(v: &str) -> String {
    v.to_string()
}

#[test]
fn duplicates_count_generations() {
    let d = duplicate_names("Fix login  ", "fix-login", "alinery/fix-login", "/w/.alinery/worktrees/fix-login");
    assert_eq!(d.name, "Fix login D+1");
    assert_eq!(d.requested_slug, "fix-login");
    assert_eq!(d.branch_name, "alinery/fix-login");
    assert_eq!(d.worktree_name.as_deref(), Some("fix-login"));
    let d = duplicate_names("Fix login D+1", "fix-login-2", "alinery/fix-login-2", "/w/worktrees/fix-login-2");
    assert_eq!(d.name, "Fix login D+2");
    assert_eq!(d.requested_slug, "fix-login");
    assert_eq!(d.branch_name, "alinery/fix-login");
    assert_eq!(d.worktree_name.as_deref(), Some("fix-login"));
    let d = duplicate_names("Fix D+0", "fix-0", "b", "");
    assert_eq!(d.name, "Fix D+0 D+1");
    assert_eq!(d.requested_slug, "fix-0");
    assert!(d.worktree_name.is_none());
    let d = duplicate_names("A D+x D+9", "a", "b", "w");
    assert_eq!(d.name, "A D+x D+10");
    let max = format!("X D+{}", u64::MAX);
    assert_eq!(duplicate_names(&max, "x", "b", "w").name, format!("{max} D+1"));
    assert_eq!(duplicate_check(true, 3).err().as_deref(), Some("draft tasks cannot be duplicated"));
    assert_eq!(
        duplicate_check(false, 1).err().as_deref(),
        Some("pre-v2 task data cannot be duplicated into executable work")
    );
    assert!(duplicate_check(false, 2).is_ok());
    assert_eq!(numbered_slug("fix", 3), "fix-3");
}

#[test]
fn numbers_parse_like_from_str() {
    let p = |x: &str| parse_u64(&x.chars().collect());
    assert_eq!(p("42"), Some(42));
    assert_eq!(p("+7"), Some(7));
    assert_eq!(p("007"), Some(7));
    assert_eq!(p(""), None);
    assert_eq!(p("+"), None);
    assert_eq!(p("-1"), None);
    assert_eq!(p("18446744073709551615"), Some(u64::MAX));
    assert_eq!(p("18446744073709551616"), None);
}

#[test]
fn attachment_names_do_not_collide() {
    assert!(matches!(classify_attachment_entry("   "), AttachmentEntry::Skip));
    assert!(matches!(classify_attachment_entry(" https://x.io/a "), AttachmentEntry::Url(u) if u == "https://x.io/a"));
    assert!(matches!(classify_attachment_entry("http://x"), AttachmentEntry::Url(_)));
    assert!(matches!(classify_attachment_entry(" /tmp/a.txt"), AttachmentEntry::Path(p) if p == "/tmp/a.txt"));
    assert_eq!(suffixed_attachment_name("trace.log", 2).as_deref(), Some("trace-2.log"));
    assert_eq!(suffixed_attachment_name("archive.tar.gz", 3).as_deref(), Some("archive.tar-3.gz"));
    assert_eq!(suffixed_attachment_name("README", 2).as_deref(), Some("README-2"));
    assert_eq!(suffixed_attachment_name(".bashrc", 2).as_deref(), Some(".bashrc-2"));
    let c = attachment_candidates("a.png");
    assert_eq!(c.len(), 99);
    assert_eq!(c[0], "a.png");
    assert_eq!(c[1], "a-2.png");
    assert_eq!(c[98], "a-99.png");
    let taken = vec![s("a.png"), s("a-2.png")];
    assert_eq!(accepted_attachment_name(&taken, "b.png"), Ok(s("b.png")));
    assert_eq!(accepted_attachment_name(&taken, "a.png"), Ok(s("a-3.png")));
}

fn cand(slug: &str, draft: bool, archived: bool, name: &str, created: u64) -> DraftCandidate {
    DraftCandidate { slug: s(slug), draft, archived, name: s(name), created }
}

#[test]
fn drafts_reuse_the_latest_with_the_name() {
    let cands = vec![
        cand("a", true, false, "Plan", 5),
        cand("c", true, false, "Plan", 9),
        cand("b", true, false, "Plan", 9),
        cand("d", true, true, "Plan", 20),
        cand("e", false, false, "Plan", 30),
        cand("f", true, false, "Other", 40),
    ];
    assert_eq!(latest_draft_slug(&cands, "Plan").as_deref(), Some("c"));
    assert_eq!(latest_draft_slug(&cands, "Nope"), None);
    assert!(matches!(draft_slug_choice("plan", &BaseDraft::Reusable, Some(s("c"))), DraftSlug::Use(x) if x == "plan"));
    assert!(matches!(draft_slug_choice("plan", &BaseDraft::Taken, Some(s("c"))), DraftSlug::Use(x) if x == "c"));
    assert!(matches!(draft_slug_choice("plan", &BaseDraft::Taken, None), DraftSlug::Unique));
    assert!(matches!(
        draft_slug_choice("plan", &BaseDraft::Unreadable { dir_exists: true }, None),
        DraftSlug::Unique
    ));
    assert!(matches!(
        draft_slug_choice("plan", &BaseDraft::Unreadable { dir_exists: false }, None),
        DraftSlug::Use(x) if x == "plan"
    ));
}

#[test]
fn session_frames_carry_their_length() {
    let f = frame_session_channel_bytes(vec![1, 2, 3]);
    assert_eq!(f.len(), 1024);
    assert_eq!(&f[..7], &[3, 0, 0, 0, 1, 2, 3]);
    assert!(f[7..].iter().all(|b| *b == 0));
    let big = vec![7u8; 2000];
    let f = frame_session_channel_bytes(big.clone());
    assert_eq!(f.len(), 2004);
    assert_eq!(&f[..4], &[0xd0, 0x07, 0, 0]);
    assert_eq!(&f[4..], &big[..]);
}

#[test]
fn session_reads_are_batched_in_order() {
    let mut pending = Vec::new();
    let step = pump_step(&mut pending, StreamEvent::Read(vec![1, 2]));
    assert!(step.send.is_none() && !step.stop);
    let step = pump_step(&mut pending, StreamEvent::Read(vec![3]));
    assert!(step.send.is_none());
    let step = pump_step(&mut pending, StreamEvent::Idle);
    assert_eq!(step.send, Some(vec![1, 2, 3]));
    assert!(pending.is_empty());
    let step = pump_step(&mut pending, StreamEvent::Idle);
    assert!(step.send.is_none());
    let step = pump_step(&mut pending, StreamEvent::Read(vec![9u8; 16384]));
    assert_eq!(step.send.map(|b| b.len()), Some(16384));
    let _ = pump_step(&mut pending, StreamEvent::Read(vec![4]));
    let step = pump_step(&mut pending, StreamEvent::Closed);
    assert_eq!(step.send, Some(vec![4]));
    assert!(step.stop);
    let step = pump_step(&mut pending, StreamEvent::Closed);
    assert!(step.send.is_none() && step.stop);
}

#[test]
fn chat_images_and_review_prompts() {
    assert_eq!(chat_image_check("a.PNG", 10), Ok(s("image/png")));
    assert_eq!(chat_image_check("a.png", 6 * 1024 * 1024), Err(s("a.png — larger than 5 MB")));
    assert_eq!(chat_image_check("a.txt", 10), Err(s("a.txt — not a chat image")));
    let p = review_approval_prompt("", "review.md", "/r/review.md");
    assert!(p.starts_with("Review playbook action: approve this PR through the harness, not through Alinery.\nPR URL: not set"));
    assert!(p.contains("\nReview findings artifact: review.md\nReview findings path: /r/review.md\n"));
    let p = review_approval_prompt("https://github.com/o/r/pull/1", "review.md", "/r/review.md");
    assert!(p.contains("\nPR URL: https://github.com/o/r/pull/1\n"));
    assert_eq!(p.lines().count(), 7);
}

fn manager(id: &str, created: u64, slug: &str, ended: bool, token: bool) -> ManagerFacts {
    ManagerFacts { id: s(id), created, subtask_slug: s(slug), archived: false, ended, has_resume_token: token }
}

fn child(ok: bool) -> ChildFacts {
    ChildFacts { draft: false, archived: false, has_worktree: true, worktree_empty: false, worktree_is_dir: ok }
}

#[test]
fn subtask_managers_and_start_rules() {
    let sorted = sort_managers(vec![
        manager("b", 5, "kid", true, false),
        manager("a", 5, "", false, false),
        manager("c", 1, "kid", false, false),
    ]);
    let ids: Vec<&str> = sorted.iter().map(|m| m.id.as_str()).collect();
    assert_eq!(ids, vec!["c", "a", "b"]);
    let i = last_manager_for(&sorted, "kid");
    assert_eq!(i, Some(2));
    assert!(can_recover(Some(&sorted[2])));
    assert!(!can_recover(Some(&sorted[0])));
    assert!(can_recover(None));
    assert_eq!(last_manager_for(&sorted, ""), Some(1));
    assert_eq!(last_manager_for(&sorted, "other"), None);
    assert!(manager_is_usable(&manager("x", 1, "", true, true)));
    assert_eq!(start_disabled_reason(true, false, true, false, &vec![]), (false, s("Draft tasks cannot start sub-tasks")));
    assert_eq!(
        start_disabled_reason(false, false, false, false, &vec![]).1,
        "A dedicated task worktree is required"
    );
    assert_eq!(
        start_disabled_reason(false, false, true, false, &vec![child(true), child(false)]).1,
        "All active sub-tasks need dedicated worktrees before starting another"
    );
    assert_eq!(start_disabled_reason(false, false, true, false, &vec![child(true)]), (true, s("")));
    assert_eq!(recover_check(false, true).err().as_deref(), Some("Task has no matching active sub-task to recover"));
    assert_eq!(
        recover_check(true, false).err().as_deref(),
        Some("The active sub-task already has a usable manager session")
    );
    assert!(recover_check(true, true).is_ok());
}

#[test]
fn nested_closes_keep_the_repo_closing() {
    let mut closing = ClosingRepos::new();
    assert!(!closing.is_closing("/r"));
    let outer = closing.mark("/r");
    assert!(outer);
    let inner = closing.mark("/r");
    assert!(!inner);
    closing.unmark("/r", inner);
    assert!(closing.is_closing("/r"));
    let other = closing.mark("/s");
    closing.unmark("/r", outer);
    assert!(!closing.is_closing("/r"));
    assert!(closing.is_closing("/s"));
    closing.unmark("/s", other);
    assert!(!closing.is_closing("/s"));
}

fn bs(archived: bool, generic: bool, phase: &str, execution: &str) -> BoardSession {
    BoardSession { archived, generic, phase: s(phase), execution_id: s(execution), playbook: s("pb") }
}

#[test]
fn board_cards_follow_the_live_sessions() {
    let steps = vec![(s("plan"), s("Plan the work")), (s("build"), s("Build it"))];
    let sessions = vec![
        bs(false, false, "plan", "x1"),
        bs(false, false, "build", "x1"),
        bs(true, false, "review", "x1"),
        bs(false, true, "", ""),
    ];
    let card = board_summary(false, 2, "pb", &sessions, &steps);
    assert_eq!(card.session_count, 3);
    assert_eq!(card.current_phase, "build");
    assert_eq!(card.current_step_title, "Build it");
    assert_eq!(card.latest_session_title, "Generic");
    let card = board_summary(true, 2, "pb", &sessions, &steps);
    assert_eq!(card.latest_session_title, "Draft");
    let card = board_summary(false, 2, "pb", &vec![], &steps);
    assert_eq!((card.session_count, card.current_phase.as_str(), card.latest_session_title.as_str()), (0, "", "No sessions"));
    let card = board_summary(false, 1, "pb", &vec![bs(false, false, "odd", "")], &steps);
    assert_eq!(card.current_phase, "odd");
    assert_eq!(card.current_step_title, "odd");
    assert!(!is_primary_playbook_session(2, "pb", &bs(false, false, "plan", "")));
    assert_eq!(task_updated_at(10, &vec![3, 40, 12]), 40);
    assert_eq!(task_updated_at(10, &vec![]), 10);
    assert_eq!(session_row_title(false, "plan", "x", &steps), (s("Plan the work"), true));
    assert_eq!(session_row_title(false, "gone", "x", &steps), (s("gone"), false));
    assert_eq!(session_row_title(true, "plan", "x", &steps), (s("Generic"), false));
}

#[test]
fn session_rows_are_newest_first() {
    let row = |created: u64, task: &str, id: &str, index: usize| SessionRow { created, task_slug: s(task), id: s(id), index };
    let sorted = sort_session_rows(vec![row(1, "a", "x", 0), row(5, "b", "y", 1), row(5, "a", "z", 2), row(5, "a", "w", 3)]);
    let order: Vec<usize> = sorted.iter().map(|r| r.index).collect();
    assert_eq!(order, vec![3, 2, 1, 0]);
}

#[test]
fn drafts_are_named_and_slugged() {
    assert_eq!(draft_names(0, "x").err().as_deref(), Some("maximum live sessions must be positive"));
    assert_eq!(draft_names(1, "   ").err().as_deref(), Some("task name is empty"));
    assert_eq!(draft_names(1, "  Fix the Login! "), Ok((s("Fix the Login!"), s("fix-the-login"))));
    assert_eq!(requested_task_slug("", Some("kept"), "Name"), Ok(s("kept")));
    assert_eq!(requested_task_slug("  ", Some(""), "My Name"), Ok(s("my-name")));
    assert_eq!(requested_task_slug(" good-slug ", None, "x"), Ok(s("good-slug")));
    assert_eq!(
        requested_task_slug("Bad Slug", None, "x").err().as_deref(),
        Some("task slug must use lowercase letters, numbers, and single dashes")
    );
}

fn tag(repo: &str, slug: &str, name: &str, safe: bool) -> RelatedTag {
    RelatedTag { repo_path: s(repo), slug: s(slug), name: s(name), slug_safe: safe }
}

#[test]
fn related_tags_are_cleaned() {
    let out = clean_related_tags(
        &vec![tag(" /r ", " a ", " A ", true), tag("/r", "a", "again", true), tag("/q", "b", "", true)],
        "/self",
        "me",
    );
    assert_eq!(out, Ok(vec![(s("/r"), s("a"), s("A")), (s("/q"), s("b"), s(""))]));
    assert_eq!(
        clean_related_tags(&vec![tag("", "a", "", true)], "/self", "me").err().as_deref(),
        Some("related task is missing repo or slug")
    );
    assert_eq!(
        clean_related_tags(&vec![tag("/r", "../x", "", false)], "/self", "me").err().as_deref(),
        Some("invalid related-task slug '../x'")
    );
    assert_eq!(
        clean_related_tags(&vec![tag("/r", "a", "", true), tag("/self", "me", "", true)], "/self", "me").err().as_deref(),
        Some("cannot tag a task as related to itself")
    );
}

#[test]
fn sessions_launch_and_list_in_order() {
    assert_eq!(
        session_launch_check(1, false, false).err().as_deref(),
        Some("pre-v2 task data is read-only; create a new v2 task to launch sessions")
    );
    assert_eq!(session_launch_check(2, true, false).err().as_deref(), Some("draft or archived tasks cannot launch sessions"));
    assert!(session_launch_check(2, false, false).is_ok());
    assert_eq!(archive_task_slug("  "), Err(s("sessions must be attached to a task")));
    assert_eq!(archive_task_slug(" t "), Ok(s("t")));
    let key = |created: u64, id: &str, index: usize| SessionKey { created, id: s(id), index };
    let sorted = sort_sessions(vec![key(5, "s2", 0), key(1, "s9", 1), key(5, "s1", 2)]);
    let order: Vec<usize> = sorted.iter().map(|k| k.index).collect();
    assert_eq!(order, vec![1, 2, 0]);
}

#[test]
fn mcp_status_reports_the_socket() {
    assert!(is_mcp_binary_name("alinery-mcp"));
    assert!(is_mcp_binary_name("alinery-mcp-aarch64-apple-darwin"));
    assert!(!is_mcp_binary_name("alinery-mcpx"));
    let status = Some(Json::Object(vec![(s("clients"), Json::Number(Some(3)))]));
    let st = mcp_status(true, s("/r"), s("/r/mcp.sock"), true, &status, s("/bin/alinery-mcp"), s(""));
    assert!(st.running && st.socket_reachable && st.binary_found);
    assert_eq!(st.clients, 3);
    let st = mcp_status(false, s("/r"), s("/r/mcp.sock"), true, &status, s(""), s("boom"));
    assert!(!st.running);
    assert_eq!(st.clients, 0);
    assert!(!st.binary_found);
    assert_eq!(st.error, "boom");
    let st = mcp_status(true, s("/r"), s(""), true, &status, s(""), s(""));
    assert!(!st.running);
}

#[test]
fn backups_restore_only_into_their_repository() {
    assert!(backup_identity_check("/repo", "/repo").is_ok());
    assert_eq!(backup_identity_check("/other", "/repo"), Err(s("this backup belongs to /other, not /repo")));
}

#[test]
fn github_login_helpers() {
    assert_eq!(github_git_protocol(Some("ssh\n")), "ssh");
    assert_eq!(github_git_protocol(Some("git")), "https");
    assert_eq!(github_git_protocol(None), "https");
    assert_eq!(github_login_outcome(false, "  ", false), Err(s("GitHub login failed")));
    assert_eq!(github_login_outcome(false, " denied\n", false), Err(s("denied")));
    assert_eq!(
        github_login_outcome(true, "", false),
        Err(s("GitHub login completed without an active account"))
    );
    assert!(github_login_outcome(true, "", true).is_ok());
}

#[test]
fn git_step_checks() {
    assert_eq!(worktree_removal_check(false, "w").err().as_deref(), Some(["this", "task has no dedicated worktree to remove"].join(" ").as_str()));
    assert_eq!(worktree_removal_check(true, "").err().as_deref(), Some("worktree already removed"));
    assert!(worktree_removal_check(true, "/w").is_ok());
    assert!(removal_record_check("/w", "/w").is_ok());
    assert_eq!(removal_record_check("/x", "/w").err().as_deref(), Some("task worktree changed during removal"));
    assert_eq!(push_check("").err().as_deref(), Some("worktree removed — nothing to push"));
    assert!(push_check("/w").is_ok());
    assert_eq!(commit_check("", "m").err().as_deref(), Some("worktree removed — nothing to commit"));
    assert_eq!(commit_check("/w", "  ").err().as_deref(), Some("commit message is empty"));
    assert_eq!(commit_check("/w", " fix it \n"), Ok(s("fix it")));
    assert_eq!(git_step_failure("push", "  rejected\n"), "git push failed: rejected");
}
