use alinery::account::{
    accounts_url, display_label, entitlement_url, parse_entitlement_id, parse_entitlement_plan, plan_label,
    production_livemode, AccountUser,
};
use alinery::app_config::{dedupe_known_repos, is_hex_rgb};
use alinery::artifacts::{
    artifact_comment_stem, clamp_chars, prepared_review_name_ok, review_file_name,
};
use alinery::callback::{parse_desktop_login_callback, parse_oauth_callback, OAuthCallback};
use alinery::codec::{
    artifact_text_hash, base64_decode, base64_url_no_pad, fnv1a64_hex, percent_decode, percent_encode,
};
use alinery::community::{format_utc, list_url, publication_id, safe_transport};
use alinery::daemon::task_activity_key;
use alinery::git_ops::compare_url;
use alinery::hosted::{is_paid_plan, paid_from_stored_plan, upsell_for};
use alinery::imports::{github_repo_from_remote, parse_github_ref, parse_linear_ref};
use alinery::json::Json;
use alinery::notify::{dock_badge_value, session_attention_body};
use alinery::omp_update::{expected_sha256, normalize_omp_version, omp_github_asset_name, sums_url_for_asset};
use alinery::orbitron_agent::sanitize_text;
use alinery::paths::{join_path, local_playbook_path, slugify};
use alinery::settings::shell_quote;

fn s(v: &str) -> String {
    v.to_string()
}

#[test]
fn fnv_hash_matches_known_values() {
    assert_eq!(fnv1a64_hex(""), "cbf29ce484222325");
    assert_eq!(fnv1a64_hex("a"), "af63dc4c8601ec8c");
    assert_eq!(fnv1a64_hex("hello"), "a430d84680aabd0b");
    assert_eq!(artifact_text_hash("hello"), "a430d84680aabd0b");
    assert_eq!(artifact_text_hash(""), "cbf29ce484222325");
    assert_eq!(artifact_text_hash("a"), "af63dc4c8601ec8c");
    for text in ["", "x", "# review\n", "é"] {
        let h = artifact_text_hash(text);
        assert_eq!(h.len(), 16);
        assert!(h.chars().all(|c| c.is_ascii_digit() || ('a'..='f').contains(&c)));
    }
}

#[test]
fn utc_timestamps_format_as_iso() {
    assert_eq!(format_utc(0), "1970-01-01T00:00:00Z");
    assert_eq!(format_utc(951782400), "2000-02-29T00:00:00Z");
    assert_eq!(format_utc(1700000000), "2023-11-14T22:13:20Z");
}

#[test]
fn base64_round_trips() {
    assert_eq!(base64_url_no_pad(b"hello"), "aGVsbG8");
    assert_eq!(base64_decode("eyJh").unwrap(), b"{\"a".to_vec());
    assert_eq!(base64_decode("eyJhIjoxfQ==").unwrap(), b"{\"a\":1}".to_vec());
    assert_eq!(base64_decode("ey!h").unwrap_err(), "rpc_chunk data is not base64");
}

#[test]
fn percent_codec_examples() {
    assert_eq!(percent_encode("a b/c~"), "a%20b%2Fc~");
    assert_eq!(percent_decode("a+b%2Fc").unwrap(), "a b/c");
    assert_eq!(percent_decode("%zz").unwrap_err(), "invalid percent encoding");
    assert!(percent_decode("%ff").is_err());
}

#[test]
fn oauth_callback_reads_code_and_state() {
    let r = parse_oauth_callback("GET /oauth/linear/callback?code=abc&state=xyz HTTP/1.1\r\nHost: x\r\n\r\n");
    assert_eq!(r, Ok(OAuthCallback::Code { code: s("abc"), state: s("xyz") }));
}

#[test]
fn oauth_callback_error_wins_over_code() {
    let r = parse_oauth_callback(
        "GET /oauth/linear/callback?code=abc&state=xyz&error=denied&error_description=No+thanks HTTP/1.1\r\n",
    );
    assert_eq!(r, Ok(OAuthCallback::Error { message: s("No thanks"), state: s("xyz") }));
}

#[test]
fn oauth_callback_failures() {
    assert_eq!(parse_oauth_callback(""), Err(s("invalid OAuth callback request")));
    assert_eq!(
        parse_oauth_callback("GET /oauth/linear/callback HTTP/1.1\r\n"),
        Err(s("OAuth callback is missing query parameters"))
    );
    assert_eq!(parse_oauth_callback("GET /elsewhere?code=a HTTP/1.1\r\n"), Err(s("unexpected OAuth callback path")));
    assert_eq!(
        parse_oauth_callback("GET /oauth/linear/callback?code=a HTTP/1.1\r\n"),
        Err(s("OAuth callback is missing state"))
    );
    assert_eq!(
        parse_oauth_callback("GET /oauth/linear/callback?state=a HTTP/1.1\r\n"),
        Err(s("OAuth callback is missing code"))
    );
}

#[test]
fn oauth_callback_last_value_of_a_key_wins() {
    let r = parse_oauth_callback("GET /oauth/linear/callback?code=one&code=two&state=s HTTP/1.1\r\n");
    assert_eq!(r, Ok(OAuthCallback::Code { code: s("two"), state: s("s") }));
}

#[test]
fn desktop_login_callback_reads_code_and_nonce() {
    assert_eq!(
        parse_desktop_login_callback("GET /?code=c1&nonce=n1 HTTP/1.1\r\n"),
        Ok((s("c1"), s("n1")))
    );
    assert_eq!(
        parse_desktop_login_callback("GET /?code=c1 HTTP/1.1\r\n"),
        Err(s("pairing callback is missing nonce"))
    );
    assert_eq!(
        parse_desktop_login_callback("GET /x?code=c1 HTTP/1.1\r\n"),
        Err(s("unexpected pairing callback path"))
    );
}

#[test]
fn accounts_origin_from_environment() {
    assert_eq!(accounts_url(None), "https://accounts.alinery.ai");
    assert_eq!(accounts_url(Some("///")), "https://accounts.alinery.ai");
    assert_eq!(accounts_url(Some("http://localhost:3000//")), "http://localhost:3000");
    assert!(production_livemode("https://accounts.alinery.ai"));
    assert!(!production_livemode("http://localhost:3000"));
}

#[test]
fn plans_and_entitlements() {
    assert_eq!(plan_label("founders"), "Founders Edition");
    assert_eq!(plan_label("gold"), "gold");
    let row = Json::Object(vec![(s("plan"), Json::Str(s("teams")))]);
    assert_eq!(parse_entitlement_id(Ok(vec![row])), Ok(Some(s("teams"))));
    let row = Json::Object(vec![(s("plan"), Json::Str(s("teams")))]);
    assert_eq!(parse_entitlement_plan(Ok(vec![row])), Ok(Some(s("Teams"))));
    let empty = Json::Object(vec![(s("plan"), Json::Str(s("")))]);
    assert_eq!(parse_entitlement_id(Ok(vec![empty])), Ok(None));
    assert_eq!(parse_entitlement_id(Ok(vec![])), Ok(None));
    assert_eq!(parse_entitlement_id(Err(s("eof"))), Err(s("bad entitlement response: eof")));
    assert_eq!(
        entitlement_url("https://a.b", true),
        "https://a.b/rest/v1/entitlements?select=plan&livemode=eq.true"
    );
}

#[test]
fn chip_label_prefers_email() {
    let u = AccountUser { id: s("u"), email: Some(s("a@b.c")), providers: vec![s("github")] };
    assert_eq!(display_label(&u), "a@b.c");
    let u = AccountUser { id: s("u"), email: None, providers: vec![s("github")] };
    assert_eq!(display_label(&u), "github");
}

#[test]
fn paid_plans() {
    assert!(is_paid_plan("founders"));
    assert!(is_paid_plan("teams"));
    assert!(!is_paid_plan("free"));
    assert!(paid_from_stored_plan(Some("Founders Edition"), false));
    assert!(!paid_from_stored_plan(Some("founders"), false));
    assert!(paid_from_stored_plan(Some("Free"), true));
    assert!(!paid_from_stored_plan(None, false));
    assert!(upsell_for(false, false).is_some());
    assert!(upsell_for(true, true).is_none());
}

#[test]
fn known_repos_are_deduplicated_in_order() {
    let out = dedupe_known_repos(vec![s("/a"), s("/b"), s("/a"), s("/c"), s("/b")]);
    assert_eq!(out, vec![s("/a"), s("/b"), s("/c")]);
}

#[test]
fn accent_colors_are_hex() {
    assert!(is_hex_rgb("#a1B2c3"));
    assert!(!is_hex_rgb("a1b2c3"));
    assert!(!is_hex_rgb("#a1b2c"));
    assert!(!is_hex_rgb("#a1b2cg"));
}

#[test]
fn artifact_review_names() {
    assert_eq!(artifact_comment_stem("docs/plan.md"), "plan");
    assert_eq!(artifact_comment_stem(".hidden"), ".hidden");
    assert_eq!(review_file_name("plan", 7), "plan.review-007.md");
    assert!(prepared_review_name_ok("docs/plan.md", "plan.review-012.md"));
    assert!(!prepared_review_name_ok("docs/plan.md", "plan.review-12.md"));
    assert_eq!(clamp_chars("héllo", 2), "hé");
}

#[test]
fn browse_urls() {
    assert_eq!(list_url("https://x.y/", None, None).unwrap(), "https://x.y/api/desktop/playbooks");
    assert_eq!(
        list_url("https://x.y", Some("  a b "), Some("c/d")).unwrap(),
        "https://x.y/api/desktop/playbooks?q=a%20b&cursor=c%2Fd"
    );
    assert_eq!(list_url("https://x.y", Some("   "), None).unwrap(), "https://x.y/api/desktop/playbooks");
    let long = "q".repeat(81);
    assert_eq!(list_url("https://x.y", Some(&long), None).unwrap_err(), "Invalid query.");
}

#[test]
fn publication_ids_are_lowercase_uuids() {
    assert!(publication_id("123e4567-e89b-12d3-a456-426614174000"));
    assert!(!publication_id("123E4567-e89b-12d3-a456-426614174000"));
    assert!(!publication_id("123e4567e89b-12d3-a456-426614174000-"));
    assert!(!publication_id("../etc"));
}

#[test]
fn transport_errors_are_not_echoed() {
    assert_eq!(safe_transport("connection refused to 10.0.0.1"), "Could not reach the playbook library.");
}

#[test]
fn pull_request_compare_urls() {
    assert_eq!(
        compare_url("git@github.com:o/r.git", "main", "feat"),
        Some(s("https://github.com/o/r/compare/main...feat?expand=1"))
    );
    assert_eq!(
        compare_url("https://gitlab.com/o/r", "main", "feat"),
        Some(s("https://gitlab.com/o/r/compare/main...feat"))
    );
    assert_eq!(compare_url("/local/path", "main", "feat"), None);
}

#[test]
fn github_references() {
    let r = parse_github_ref("https://github.com/o/r/issues/12", None).unwrap();
    assert_eq!((r.owner.as_str(), r.repo.as_str(), r.number), ("o", "r", 12));
    assert_eq!(r.label(), "o/r#12");
    let r = parse_github_ref("o/r#5", None).unwrap();
    assert_eq!((r.owner.as_str(), r.repo.as_str(), r.number), ("o", "r", 5));
    let r = parse_github_ref("#9", Some((s("a"), s("b")))).unwrap();
    assert_eq!((r.owner.as_str(), r.repo.as_str(), r.number), ("a", "b", 9));
    assert!(parse_github_ref("#9", None).is_none());
    assert_eq!(github_repo_from_remote("git@github.com:o/r.git"), Some((s("o"), s("r"))));
    assert_eq!(github_repo_from_remote("https://gitlab.com/o/r"), None);
}

#[test]
fn linear_references() {
    assert_eq!(parse_linear_ref("ENG-123"), Some(s("ENG-123")));
    assert_eq!(parse_linear_ref("https://linear.app/acme/issue/ENG-7/some-title"), Some(s("ENG-7")));
    assert_eq!(parse_linear_ref("hello"), None);
}

#[test]
fn dock_badge_and_notifications() {
    assert_eq!(dock_badge_value(0), None);
    assert_eq!(dock_badge_value(-3), None);
    assert_eq!(dock_badge_value(4), Some(4));
    assert_eq!(
        session_attention_body(Some(s("fix-bug")), Some(s("Fix the bug")), "idle").unwrap(),
        "Fix the bug — idle, needs you"
    );
    assert_eq!(session_attention_body(Some(s("fix-bug")), None, "failure").unwrap(), "fix-bug — failed");
    assert_eq!(session_attention_body(None, None, "completed").unwrap(), "session — completed");
    assert_eq!(session_attention_body(None, None, "nap").unwrap_err(), "unsupported attention reason: nap");
}

#[test]
fn omp_release_assets() {
    assert_eq!(omp_github_asset_name("macos", "aarch64"), Some("omp-darwin-arm64"));
    assert_eq!(omp_github_asset_name("linux", "x86_64"), Some("omp-linux-x64"));
    assert_eq!(omp_github_asset_name("windows", "x86_64"), None);
    assert_eq!(normalize_omp_version("  omp/v1.2.3 "), "1.2.3");
    assert_eq!(normalize_omp_version("vv2.0"), "2.0");
    let sums = "aaa  other\nbbb *omp-linux-x64\nccc omp-linux-x64\n";
    assert_eq!(expected_sha256(sums, "omp-linux-x64"), Some(s("bbb")));
    assert_eq!(expected_sha256(sums, "missing"), None);
    assert_eq!(
        sums_url_for_asset("https://h/r/download/v1/omp-linux-x64"),
        Some(s("https://h/r/download/v1/SHA256SUMS.txt"))
    );
    assert_eq!(sums_url_for_asset("noslash"), None);
}

#[test]
fn secrets_are_masked_in_logs() {
    assert_eq!(sanitize_text("XAI_API_KEY=sk-123 ok", Some("sk-123")), "****** ok");
    assert_eq!(sanitize_text("token sk-1", None), "token sk-1");
    assert_eq!(sanitize_text("token sk-1", Some("")), "token sk-1");
}

#[test]
fn paths_and_slugs() {
    assert_eq!(join_path("/repo", "a/b"), "/repo/a/b");
    assert_eq!(join_path("/repo/", "a"), "/repo/a");
    assert_eq!(join_path("/repo", "/abs"), "/abs");
    assert_eq!(local_playbook_path("/repo", "k"), "/repo/.alinery/playbooks/k/playbook.md");
    assert_eq!(slugify("  Fix the Bug!! now "), "fix-the-bug-now");
    assert_eq!(slugify("***"), "task");
    assert_eq!(task_activity_key("/repo", "fix"), "/repo:fix");
}

#[test]
fn shell_quoting_escapes_single_quotes() {
    assert_eq!(shell_quote("it's"), "'it'\\''s'");
    assert_eq!(shell_quote(""), "''");
}
