use alinery::account::{
    callback_wait_check, callback_wait_step, mutate_if_current, save_unless_cancelled, CallbackSeen, CallbackStep, Expect,
    SignInAttempt,
};
use alinery::artifacts::{
    prepare_comments_start, prepare_comments_step, validate_comments_finalization, write_artifact_comment_markdown,
    ArtifactComment, PrepAction, PrepEvent, PreparedArtifactCommentSnapshot,
};
use alinery::codec::artifact_text_hash;
use alinery::comment_store::{edit_draft, ArtifactCommentDraft};

fn s(v: &str) -> String {
    v.to_string()
}

fn comment(artifact: &str) -> ArtifactComment {
    ArtifactComment {
        id: s("c1"),
        artifact: s(artifact),
        anchor_id: s("a1"),
        anchor_kind: s("line"),
        anchor_label: s("L1"),
        anchor_excerpt: s("text"),
        line_start: 1,
        line_end: 1,
        body: s("Fix this"),
        created_at_ms: 5,
    }
}

#[test]
fn an_empty_selection_is_refused() {
    let (_, action) = prepare_comments_start(vec![]);
    assert!(matches!(action, PrepAction::Fail(e) if e == "no artifact comments selected"));
}

#[test]
fn reviews_are_prepared_in_order_with_their_hashes() {
    let (p, action) = prepare_comments_start(vec![s("design.md"), s("plan.md")]);
    assert!(matches!(&action, PrepAction::LoadComments { artifact } if artifact == "design.md"));
    let (p, action) = prepare_comments_step(p, PrepEvent::Comments(Ok(vec![comment("design.md")])));
    let expected = write_artifact_comment_markdown("design.md", &vec![comment("design.md")]);
    assert!(matches!(&action, PrepAction::Place { artifact, markdown } if artifact == "design.md" && *markdown == expected));
    let (p, action) = prepare_comments_step(p, PrepEvent::Placed(Ok((s("design.review-001.md"), s("/t/design.review-001.md")))));
    assert!(matches!(&action, PrepAction::LoadComments { artifact } if artifact == "plan.md"));
    let (p, action) = prepare_comments_step(p, PrepEvent::Comments(Ok(vec![comment("plan.md")])));
    assert!(matches!(action, PrepAction::Place { .. }));
    let (p, action) = prepare_comments_step(p, PrepEvent::Placed(Ok((s("plan.review-002.md"), s("/t/plan.review-002.md")))));
    assert!(matches!(action, PrepAction::Ready));
    assert_eq!(p.items.len(), 2);
    assert_eq!((p.items[0].artifact.as_str(), p.items[0].review.as_str()), ("design.md", "design.review-001.md"));
    assert_eq!(p.items[0].comments_hash, artifact_text_hash(&expected));
    assert_eq!(p.rows[1], (s("plan.md"), s("/t/plan.review-002.md")));

    let plan_md = write_artifact_comment_markdown("plan.md", &vec![comment("plan.md")]);
    let checks = vec![Ok(()), Ok(())];
    let texts = vec![Ok(expected.clone()), Ok(plan_md)];
    assert_eq!(validate_comments_finalization(&p.items, &checks, &texts), Ok(()));
    let changed = vec![Ok(expected), Ok(s("edited"))];
    assert_eq!(
        validate_comments_finalization(&p.items, &checks, &changed),
        Err(s("prepared review hash mismatch for plan.md"))
    );
}

#[test]
fn an_artifact_without_comments_is_refused() {
    let (p, _) = prepare_comments_start(vec![s("design.md")]);
    let (_, action) = prepare_comments_step(p, PrepEvent::Comments(Ok(vec![])));
    assert!(matches!(action, PrepAction::Fail(e) if e == "no comments to prepare for design.md"));
}

#[test]
fn finalizing_nothing_is_refused() {
    let none: Vec<PreparedArtifactCommentSnapshot> = vec![];
    assert_eq!(validate_comments_finalization(&none, &vec![], &vec![]), Err(s("artifact comment provenance is empty")));
    let bad = vec![PreparedArtifactCommentSnapshot { artifact: s("a.md"), review: s("b.review-001.md"), comments_hash: s("x") }];
    assert_eq!(
        validate_comments_finalization(&bad, &vec![Ok(())], &vec![Ok(s("x"))]),
        Err(s("invalid prepared review for a.md"))
    );
}

fn draft(anchor: &str) -> ArtifactCommentDraft {
    ArtifactCommentDraft {
        artifact: s("a.md"),
        anchor_id: s(anchor),
        anchor_kind: s("line"),
        anchor_label: s("L"),
        anchor_excerpt: s("x"),
        line_start: 1,
        line_end: 1,
        body: s("b"),
        artifact_hash: s("h"),
        updated_at_ms: 1,
        stale: false,
    }
}

#[test]
fn a_blank_draft_is_dropped() {
    let out = edit_draft(vec![draft("k1"), draft("k2")], "a.md", s("k1"), s("line"), "L", "x", 1, 1, s(""), None, 9);
    assert_eq!(out.len(), 1);
    assert_eq!(out[0].anchor_id, "k2");
    let kept = edit_draft(vec![draft("k2")], "a.md", s("k1"), s("line"), "L", "x", 2, 2, s("note"), Some(s("h2")), 9);
    assert_eq!(kept.len(), 2);
}

#[test]
fn a_cancelled_sign_in_never_saves() {
    let mut attempt = SignInAttempt::cancelled();
    let saved = std::cell::Cell::new(false);
    let (r, unused) = save_unless_cancelled(&mut attempt, || {
        saved.set(true);
        Ok(())
    });
    assert_eq!(r, Err(s("Sign-in cancelled")));
    assert!(unused.is_some());
    assert!(!saved.get());
    assert!(!attempt.committed);
}

#[test]
fn a_stale_credential_is_never_mutated() {
    let ran = std::cell::Cell::new(false);
    let (r, unused) = mutate_if_current(Ok(None), &Expect::Session(s("s")), |_| {
        ran.set(true);
        Ok(1)
    });
    assert_eq!(r, Ok(None));
    assert!(unused.is_some());
    assert!(!ran.get());
}

#[test]
fn the_callback_wait_stops_and_answers_as_it_should() {
    assert_eq!(callback_wait_check(true, 0, 10), Some(s("Sign-in cancelled")));
    assert_eq!(callback_wait_check(false, 10, 10), Some(s("Sign-in timed out")));
    assert_eq!(callback_wait_check(false, 5, 10), None);
    assert!(matches!(callback_wait_step(CallbackSeen::Idle, 10, "n"), CallbackStep::Poll));
    assert!(matches!(
        callback_wait_step(CallbackSeen::AcceptError(s("boom")), 10, "n"),
        CallbackStep::Fail(e) if e == "receive pairing callback: boom"
    ));
    assert!(matches!(
        callback_wait_step(CallbackSeen::Request { line: None, now_ms: 5 }, 10, "n"),
        CallbackStep::Answer { page_ok: false, code: None }
    ));
    assert!(matches!(
        callback_wait_step(CallbackSeen::Request { line: Some(s("GET /")), now_ms: 11 }, 10, "n"),
        CallbackStep::Fail(e) if e == "Sign-in timed out"
    ));
    assert!(matches!(
        callback_wait_step(CallbackSeen::Request { line: Some(s("GET /?code=c1&nonce=n HTTP/1.1\r\n")), now_ms: 5 }, 10, "n"),
        CallbackStep::Answer { page_ok: true, code: Some(c) } if c == "c1"
    ));
    assert!(matches!(
        callback_wait_step(CallbackSeen::Request { line: Some(s("GET /?code=c1&nonce=other HTTP/1.1\r\n")), now_ms: 5 }, 10, "n"),
        CallbackStep::Answer { page_ok: false, code: None }
    ));
}
