use alinery::community::{
    publish_authenticated, put_publication, status_row, AuthAttempt, CommunityHttp, CommunityHttpRequest,
    CommunityHttpResponse, CommunityImportRecord, LoggedHttp, PublishResult,
};
use alinery::json::Json;

const ID: &str = "0123abcd-0000-4000-8000-00000000000a";

fn st(v: &str) -> Json {
    Json::Str(v.to_string())
}

fn obj(members: Vec<(&str, Json)>) -> Json {
    Json::Object(members.into_iter().map(|(k, v)| (k.to_string(), v)).collect())
}

struct ScriptedHttp {
    replies: Vec<(u16, Json)>,
    sent: Vec<CommunityHttpRequest>,
}

impl CommunityHttp for ScriptedHttp {
    fn exchange(&mut self, request: CommunityHttpRequest) -> Result<CommunityHttpResponse, String> {
        self.sent.push(request);
        let (status, json) = self.replies.remove(0);
        Ok(CommunityHttpResponse { status, body: b"{}".to_vec(), json: Some(json) })
    }
}

fn line(r: &CommunityHttpRequest) -> String {
    format!("{} {}", r.method, r.url)
}

#[test]
fn a_taken_key_is_looked_up_and_updated() {
    let conflict = obj(vec![
        ("code", st("conflict")),
        ("error", st("You already published this playbook. Update it.")),
    ]);
    let mine = obj(vec![(
        "playbooks",
        Json::Array(vec![obj(vec![("playbook_key", st("k")), ("id", st(ID))])]),
    )]);
    let saved = obj(vec![("ok", Json::Bool(true)), ("id", st(ID)), ("version", Json::Number(Some(2)))]);
    let mut http = LoggedHttp::new(ScriptedHttp {
        replies: vec![(200, obj(vec![("valid", Json::Bool(true))])), (409, conflict), (200, mine), (200, saved)],
        sent: vec![],
    });
    let r = publish_authenticated(&mut http, "https://a", "t", "S", "k", None);
    match r {
        AuthAttempt::Response(PublishResult::Saved { id, label, playbook_key, title, description, version }) => {
            assert_eq!(id, ID);
            assert_eq!((label.as_str(), playbook_key.as_str(), title.as_str(), description.as_str()), ("", "", "", ""));
            assert_eq!(version, 2);
        },
        _ => panic!("expected a saved publication"),
    }
    let lines: Vec<String> = http.transport().sent.iter().map(line).collect();
    assert_eq!(
        lines,
        vec![
            "POST https://a/api/desktop/playbooks/validate".to_string(),
            "POST https://a/api/desktop/playbooks".to_string(),
            "GET https://a/api/desktop/playbooks/mine".to_string(),
            format!("PUT https://a/api/desktop/playbooks/{ID}"),
        ]
    );
}

#[test]
fn a_concurrent_update_is_tried_three_times() {
    let busy = || obj(vec![("code", st("conflict")), ("error", st("Playbook was updated concurrently. Try again."))]);
    let mut http = LoggedHttp::new(ScriptedHttp { replies: vec![(409, busy()), (409, busy()), (409, busy()), (409, busy())], sent: vec![] });
    let r = put_publication(&mut http, "https://a/", "t", ID, "S");
    match r {
        AuthAttempt::Response(PublishResult::Failed { message, code }) => {
            assert_eq!(message, "Playbook was updated concurrently. Try again.");
            assert_eq!(code, "conflict");
        },
        _ => panic!("expected the conflict"),
    }
    assert_eq!(http.transport().sent.len(), 3);
    for r in &http.transport().sent {
        assert_eq!(line(r), format!("PUT https://a/api/desktop/playbooks/{ID}"));
        assert_eq!(r.headers[2], "Authorization: Bearer t");
        assert_eq!(r.body.as_deref(), Some("{\"attest\":true,\"source\":\"S\"}"));
    }
}

#[test]
fn a_record_without_a_publication_id_is_not_asked_about() {
    let record = CommunityImportRecord {
        id: "abc".to_string(),
        label: "l".to_string(),
        playbook_key: "k".to_string(),
        local_scope: "repo".to_string(),
        local_key: "lk".to_string(),
        imported_version: 3,
        local_sha256: "h".to_string(),
        imported_at: "now".to_string(),
    };
    let mut http = LoggedHttp::new(ScriptedHttp { replies: vec![], sent: vec![] });
    let row = status_row(&mut http, "https://a", &record, true, None);
    assert!(http.transport().sent.is_empty());
    assert_eq!(row.error.as_deref(), Some("Playbook not found."));
    assert!(row.local_missing && !row.locally_edited && !row.remote_missing && !row.update_available);
    assert!(row.remote_version.is_none() && row.title.is_none());
    assert_eq!((row.id.as_str(), row.local_key.as_str(), row.imported_version), ("abc", "lk", 3));
}
