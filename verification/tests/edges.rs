use alinery::daemon::{
    activity_start, activity_step, execute_close_repo_acknowledgment_plan, foreign_lane_counts, ActivityAction, LoggedCloser,
    RepoCloser,
};
use alinery::account::loopback_html;
use alinery::app_config::{activate_repo_in_config, repo_busy_message, AppConfig, AppearancePrefs};
use alinery::connections::linear_token_fresh;
use alinery::hosted::hosted_headers;
use alinery::imports::{linear_credential_error, linear_ref_error, owner_repo, parse_issue_path};
use alinery::json::Json;
use alinery::orbitron_agent::{detached_write_error, host_tool_names, CanvasEditMode};
use alinery::orbitron_rpc::{bootstrap_negotiate, bootstrap_set_model, get_state_request};
use alinery::paths::{account_auth_path_in, registry_path, tokens_path_in};

fn s(v: &str) -> String {
    v.to_string()
}

#[test]
fn paths_join_under_their_directory() {
    assert_eq!(account_auth_path_in("/cfg"), "/cfg/auth.json");
    assert_eq!(account_auth_path_in("/cfg/"), "/cfg/auth.json");
    assert_eq!(tokens_path_in("/x"), "/x/tokens.toml");
    assert_eq!(registry_path("/repo"), "/repo/.alinery/playbooks/community-imports.toml");
}

#[test]
fn github_references_read() {
    assert_eq!(owner_repo(" acme ", " tools.git "), Some((s("acme"), s("tools"))));
    assert_eq!(owner_repo("a/b", "c"), None);
    assert_eq!(owner_repo("", "c"), None);
    let r = parse_issue_path("acme/tools/issues/42").map(|r| (r.owner, r.repo, r.number));
    assert_eq!(r, Some((s("acme"), s("tools"), 42)));
    assert!(parse_issue_path("acme/tools/issues/0").is_none());
    assert_eq!(
        linear_credential_error("expired"),
        "Linear credential could not be used: expired. Reconnect it in Settings → Connections."
    );
    assert_eq!(linear_ref_error("xyz"), "not a Linear issue id or URL: xyz");
}

#[test]
fn linear_tokens_refresh_a_minute_early() {
    assert!(linear_token_fresh(1000, 900));
    assert!(!linear_token_fresh(1000, 940));
    assert!(!linear_token_fresh(5, u64::MAX));
}

#[test]
fn hosted_requests_carry_the_token_when_signed_in() {
    assert_eq!(hosted_headers(None), vec![s("Accept: application/json"), s("Content-Type: application/json")]);
    assert_eq!(hosted_headers(Some("t"))[2], "Authorization: Bearer t");
}

#[test]
fn orbitron_tools_follow_the_edit_mode() {
    assert_eq!(host_tool_names(CanvasEditMode::ReadOnly), vec!["board_get"]);
    assert!(host_tool_names(CanvasEditMode::AutoEdit).len() > 1);
    assert_eq!(
        detached_write_error(false, false),
        Some("The board isn't open. Return to Orbitron View to apply board changes.")
    );
    assert_eq!(detached_write_error(true, false), None);
    assert_eq!(detached_write_error(false, true), None);
    match get_state_request() {
        Json::Object(m) => assert!(matches!(&m[0].1, Json::Str(t) if t == "get_state")),
        _ => panic!("expected an object"),
    }
    match bootstrap_negotiate() {
        Json::Object(m) => assert!(matches!(&m[1].1, Json::Number(Some(2)))),
        _ => panic!("expected an object"),
    }
    match bootstrap_set_model() {
        Json::Object(m) => assert!(matches!(&m[2].1, Json::Str(t) if t == "grok-4.6")),
        _ => panic!("expected an object"),
    }
    let ok = loopback_html(true);
    assert!(ok.contains("Authorization received"));
    assert_ne!(ok, loopback_html(false));
}

#[test]
fn activating_a_repo_lists_it_once() {
    let cfg = AppConfig {
        active_repo: s("/a"),
        known_repos: vec![s("/a"), s(" /b "), s("/b")],
        mcp_enabled: true,
        appearance: AppearancePrefs::default(),
        settings_version: 0,
    };
    let out = activate_repo_in_config(cfg, " /b ");
    assert_eq!(out.active_repo, "/b");
    assert_eq!(out.known_repos, vec![s("/a"), s("/b")]);
    assert!(out.mcp_enabled);
    assert_eq!(out.settings_version, 1);
}

#[test]
fn busy_repos_are_named_by_folder() {
    assert_eq!(repo_busy_message("/home/me/proj"), "proj is open in another Alinery window.");
    assert_eq!(repo_busy_message("/"), "/ is open in another Alinery window.");
}

#[test]
fn other_lanes_split_into_extra_and_stale() {
    let lanes = vec![(true, true), (false, true), (false, false), (false, true), (true, false)];
    assert_eq!(foreign_lane_counts(&lanes), (2, 1));
    assert_eq!(foreign_lane_counts(&vec![]), (0, 0));
}

struct ScriptedCloser {
    calls: Vec<String>,
}

impl RepoCloser for ScriptedCloser {
    fn close_repo(&mut self, repo: &str) -> Result<(), String> {
        self.calls.push(format!("close {repo}"));
        if repo == "/b" {
            Err("daemon for /b did not stop".to_string())
        } else {
            Ok(())
        }
    }

    fn acknowledge_exited(&mut self, repo: &str, refs: &Vec<(String, String)>) -> Result<(), String> {
        self.calls.push(format!("ack {repo} {}", refs.len()));
        if repo == "/c" {
            Err("disk full".to_string())
        } else {
            Ok(())
        }
    }
}

#[test]
fn closing_on_quit_keeps_every_failure_in_plan_order() {
    let plan = vec![
        (s("/a"), vec![(s("t"), s("s1"))]),
        (s("/b"), vec![]),
        (s("/c"), vec![(s("t"), s("s2")), (s("u"), s("s3"))]),
    ];
    let mut closer = LoggedCloser::new(ScriptedCloser { calls: vec![] });
    let out = execute_close_repo_acknowledgment_plan(&plan, &mut closer);
    assert_eq!(out.closed, vec![s("/a"), s("/c")]);
    assert_eq!(
        out.errors,
        vec![s("daemon for /b did not stop"), s("acknowledge stopped sessions for /c: disk full")]
    );
    assert_eq!(closer.closer().calls, vec!["close /a", "ack /a 1", "close /b", "close /c", "ack /c 2"]);
}

#[test]
fn a_reference_reads_back_from_its_label() {
    let r = alinery::imports::GitHubIssueRef { owner: s("acme"), repo: s("tools-x"), number: 42 };
    let label = r.label();
    assert_eq!(label, "acme/tools-x#42");
    for default in [None, Some((s("o"), s("r")))] {
        let back = alinery::imports::parse_github_ref(&label, default).map(|b| (b.owner, b.repo, b.number));
        assert_eq!(back, Some((s("acme"), s("tools-x"), 42)));
    }
}

fn task_facts(active_subtask: &str) -> alinery::daemon::TaskActivityFacts {
    alinery::daemon::TaskActivityFacts { active_subtask: s(active_subtask), sessions: vec![], projections: vec![] }
}

#[test]
fn activity_defers_to_the_active_subtask_once() {
    let (state, action) = activity_start("parent");
    assert!(matches!(&action, ActivityAction::Read { slug } if slug == "parent"));
    let (state, action) = activity_step(state, Some(task_facts("child")));
    assert!(matches!(&action, ActivityAction::Read { slug } if slug == "child"));
    // The child points back at the parent: it is not visited again.
    let (state, action) = activity_step(state, Some(task_facts("parent")));
    assert!(matches!(&action, ActivityAction::Report(c) if c.status.is_none() && c.active.is_none()));
    assert_eq!(state.visited, vec![s("parent"), s("child")]);

    let (state, _) = activity_start("gone");
    let (state, action) = activity_step(state, None);
    assert!(matches!(&action, ActivityAction::Report(c) if c.status.is_none() && c.active.is_none()));
    assert!(state.current.is_none());
}

#[test]
fn sessions_are_routed_to_their_lane() {
    assert_eq!(alinery::daemon::socket_route("dev", "dev"), None);
    assert_eq!(alinery::daemon::socket_route("dev", ""), Some(None));
    assert_eq!(alinery::daemon::socket_route("", "dev"), Some(Some(s("dev"))));
}

#[test]
fn session_step_titles() {
    let steps = vec![(s("plan"), s("Plan it")), (s("build"), s("Build it"))];
    assert_eq!(alinery::board::session_step_title(true, "plan", None), "Generic");
    assert_eq!(alinery::board::session_step_title(false, "build", Some(Ok(steps.clone()))), "Build it");
    assert_eq!(alinery::board::session_step_title(false, "ship", Some(Ok(steps))), "ship");
    assert_eq!(alinery::board::session_step_title(false, "plan", None), "plan");
    assert_eq!(
        alinery::board::session_step_title(false, "plan", Some(Err(s("bad yaml")))),
        "Execution unavailable: bad yaml"
    );
}
