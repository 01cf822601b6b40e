//! The community playbook library: browse URLs, response reading, the import registry
//! and the status of each imported playbook.
//!
//! The accounts service answers over an injected transport, [`CommunityHttp`]. Every
//! failure reaches the user as one of a few sentences, and nothing that names the
//! service-role key is ever echoed back.
use vstd::prelude::*;
use vstd::string::*;
use crate::codec::{pct_encode_bytes, percent_encode};
use crate::json::{
    bool_field, field, parsed_bool_field, parsed_bool_field_exec, parsed_str_field, parsed_str_field_exec,
    str_field, str_field_or_empty, str_field_or_empty_exec, u64_field, u64_field_exec, Json,
};
use crate::text::{
    chars_of, contains_chars, contains_seq, owned, push_decimal, push_str, str_eq, trim, trim_end_char, trim_end_char_exec,
    trim_str,
};

verus! {

broadcast use vstd::seq_lib::group_seq_properties;

pub open spec fn unavailable() -> Seq<char> {
    "Playbook library is unavailable."@
}

pub open spec fn unreachable() -> Seq<char> {
    "Could not reach the playbook library."@
}

pub open spec fn not_found() -> Seq<char> {
    "Playbook not found."@
}

/// The name of the service-role key, as text.
pub open spec fn service_role_key() -> Seq<char> {
    "SUPABASE_SERVICE_ROLE_KEY"@
}

/// The name of the service-role key, as the bytes a body would hold.
pub open spec fn service_role_bytes() -> Seq<u8> {
    seq![
        83u8, 85u8, 80u8, 65u8, 66u8, 65u8, 83u8, 69u8, 95u8, 83u8, 69u8, 82u8, 86u8, 73u8, 67u8, 69u8, 95u8,
        82u8, 79u8, 76u8, 69u8, 95u8, 75u8, 69u8, 89u8,
    ]
}

/// Some window of `body` spells the service-role key.
pub open spec fn names_service_role(body: Seq<u8>) -> bool {
    exists|i: int|
        0 <= i && i + service_role_bytes().len() <= body.len() && #[trigger] body.subrange(
            i,
            i + service_role_bytes().len(),
        ) == service_role_bytes()
}

/// A request to the accounts service.
pub struct CommunityHttpRequest {
    pub method: String,
    pub url: String,
    pub headers: Vec<String>,
    pub body: Option<String>,
}

/// The service's answer: its status, its raw body, and the body read as JSON when it is.
pub struct CommunityHttpResponse {
    pub status: u16,
    pub body: Vec<u8>,
    pub json: Option<Json>,
}

/// The transport to the accounts service. Production sends the request with curl;
/// tests answer from a script.
pub trait CommunityHttp {
    fn exchange(&mut self, request: CommunityHttpRequest) -> Result<CommunityHttpResponse, String>;
}

/// A transport together with the record, in order, of every exchange made through it:
/// the request sent and what came back.
pub struct LoggedHttp<H: CommunityHttp> {
    transport: H,
    log: Ghost<Seq<(CommunityHttpRequest, Result<CommunityHttpResponse, String>)>>,
}

impl<H: CommunityHttp> LoggedHttp<H> {
    /// Every exchange made through this handle so far.
    pub closed spec fn exchanges(&self) -> Seq<(CommunityHttpRequest, Result<CommunityHttpResponse, String>)> {
        self.log@
    }

    /// `transport`, with nothing sent yet.
    pub fn new(transport: H) -> (r: Self)
        ensures
            r.exchanges() == Seq::<(CommunityHttpRequest, Result<CommunityHttpResponse, String>)>::empty(),
    {
        LoggedHttp { transport, log: Ghost(Seq::empty()) }
    }

    /// The transport itself.
    pub fn transport(&self) -> &H {
        &self.transport
    }

    /// Send `request` and record it with what came back.
    pub fn exchange(&mut self, request: CommunityHttpRequest) -> (r: Result<CommunityHttpResponse, String>)
        ensures
            final(self).exchanges() == old(self).exchanges().push((request, r)),
    {
        let ghost sent = request;
        let r = self.transport.exchange(request);
        self.log = Ghost(self.log@.push((sent, r)));
        r
    }
}

/// `req` is `method` on `url` with exactly the header lines `headers` and the body `body`.
pub open spec fn is_request(
    req: CommunityHttpRequest,
    method: Seq<char>,
    url: Seq<char>,
    headers: Seq<Seq<char>>,
    body: Option<Seq<char>>,
) -> bool {
    &&& req.method@ == method
    &&& req.url@ == url
    &&& req.headers@.len() == headers.len()
    &&& forall|i: int| 0 <= i < headers.len() ==> (#[trigger] req.headers@[i])@ == headers[i]
    &&& opt_string_view(req.body) == body
}

/// The header lines of an anonymous request.
pub open spec fn browse_header_lines() -> Seq<Seq<char>> {
    seq!["Accept: application/json"@, "Content-Type: application/json"@]
}

/// The header lines of a request that carries the bearer `token`.
pub open spec fn authed_header_lines(token: Seq<char>) -> Seq<Seq<char>> {
    browse_header_lines().push("Authorization: Bearer "@ + token)
}

/// The headers of every anonymous browse request.
pub fn browse_headers() -> (r: Vec<String>)
    ensures
        r@.len() == 2,
        r@[0]@ == "Accept: application/json"@,
        r@[1]@ == "Content-Type: application/json"@,
{
    let mut v: Vec<String> = Vec::new();
    v.push(owned("Accept: application/json"));
    v.push(owned("Content-Type: application/json"));
    v
}

/// Whether `body` names the service-role key anywhere.
pub fn body_names_service_role(body: &[u8]) -> (r: bool)
    ensures
        r == names_service_role(body@),
{
    let key: [u8; 25] = [
        83u8, 85u8, 80u8, 65u8, 66u8, 65u8, 83u8, 69u8, 95u8, 83u8, 69u8, 82u8, 86u8, 73u8, 67u8, 69u8, 95u8,
        82u8, 79u8, 76u8, 69u8, 95u8, 75u8, 69u8, 89u8,
    ];
    assert(key@ =~= service_role_bytes());
    if body.len() < 25 {
        assert forall|i: int|
            0 <= i && i + service_role_bytes().len() <= body@.len() implies #[trigger] body@.subrange(
                i,
                i + service_role_bytes().len(),
            ) != service_role_bytes() by {}
        return false;
    }
    let n = body.len();
    let last = n - 25;
    let mut i: usize = 0;
    loop
        invariant
            n == body@.len(),
            25 <= body@.len(),
            last == body@.len() - 25,
            i <= last,
            key@ == service_role_bytes(),
            forall|m: int| 0 <= m < i ==> #[trigger] body@.subrange(m, m + 25) != service_role_bytes(),
        ensures
            forall|m: int| 0 <= m <= last ==> #[trigger] body@.subrange(m, m + 25) != service_role_bytes(),
        decreases last - i,
    {
        let mut k: usize = 0;
        let mut same = true;
        while k < 25
            invariant
                k <= 25,
                n == body@.len(),
                i + 25 <= body@.len(),
                key@ == service_role_bytes(),
                same == (forall|t: int| 0 <= t < k ==> body@[i + t] == key@[t]),
            decreases 25 - k,
        {
            if body[i + k] != key[k] {
                same = false;
            }
            k = k + 1;
        }
        if same {
            assert(body@.subrange(i as int, i + 25) =~= service_role_bytes());
            return true;
        } else {
            assert(body@.subrange(i as int, i + 25) != service_role_bytes()) by {
                let t = choose|t: int| 0 <= t < 25 && body@[i + t] != key@[t];
                assert(body@.subrange(i as int, i + 25)[t] == body@[i + t]);
            }
        }
        if i == last {
            break;
        }
        i = i + 1;
    }
    false
}

/// `s` contains `p`.
pub fn str_contains(s: &str, p: &str) -> (r: bool)
    ensures
        r == contains_seq(s@, p@),
{
    let v = chars_of(s);
    let w = chars_of(p);
    contains_chars(v.as_slice(), w.as_slice())
}

/// The sentence for a failed library request, from its status, raw body and parsed body.
pub open spec fn library_failure_spec(status: u16, body: Seq<u8>, parsed: Option<Json>) -> Seq<char> {
    if status == 503 || names_service_role(body) {
        unavailable()
    } else {
        match parsed_str_field(parsed, "error"@) {
            Some(e) => if contains_seq(e, service_role_key()) {
                unavailable()
            } else if e.len() > 0 {
                e
            } else {
                unreachable()
            },
            None => unreachable(),
        }
    }
}

/// What to tell the user when the library answered with `status`. `parsed` is `body`
/// read as JSON, `None` when it is not JSON.
pub fn library_failure_message(status: u16, body: &[u8], parsed: &Option<Json>) -> (r: String)
    ensures
        r@ == library_failure_spec(status, body@, *parsed),
{
    if status == 503 || body_names_service_role(body) {
        return owned("Playbook library is unavailable.");
    }
    match parsed_str_field_exec(parsed, "error") {
        Some(e) => {
            if str_contains(e.as_str(), "SUPABASE_SERVICE_ROLE_KEY") {
                owned("Playbook library is unavailable.")
            } else if e.as_str().unicode_len() > 0 {
                e
            } else {
                owned("Could not reach the playbook library.")
            }
        },
        None => owned("Could not reach the playbook library."),
    }
}

/// A transport error, cleaned: it never reaches the user verbatim.
pub open spec fn safe_transport_spec(error: Seq<char>) -> Seq<char> {
    if contains_seq(error, service_role_key()) {
        unavailable()
    } else {
        unreachable()
    }
}

/// The sentence for a transport failure.
pub fn safe_transport(error: &str) -> (r: String)
    ensures
        r@ == safe_transport_spec(error@),
{
    if str_contains(error, "SUPABASE_SERVICE_ROLE_KEY") {
        owned("Playbook library is unavailable.")
    } else {
        owned("Could not reach the playbook library.")
    }
}

/// The browse URL for an optional search and an optional page cursor. A search is
/// trimmed first; one over 80 chars is refused.
pub open spec fn list_url_spec(base: Seq<char>, q: Option<Seq<char>>, cursor: Option<Seq<char>>) -> Result<
    Seq<char>,
    Seq<char>,
> {
    let path = trim_end_char(base, '/') + "/api/desktop/playbooks"@;
    let qpart: Option<Seq<char>> = match q {
        Some(raw) => if trim(raw).len() > 0 {
            Some("q="@ + pct_encode_bytes(vstd::utf8::encode_utf8(trim(raw))))
        } else {
            None
        },
        None => None,
    };
    let cpart: Option<Seq<char>> = match cursor {
        Some(raw) => if raw.len() > 0 {
            Some("cursor="@ + pct_encode_bytes(vstd::utf8::encode_utf8(raw)))
        } else {
            None
        },
        None => None,
    };
    if q is Some && trim(q.unwrap()).len() > 80 {
        Err("Invalid query."@)
    } else {
        Ok(
            match (qpart, cpart) {
                (None, None) => path,
                (Some(a), None) => path + "?"@ + a,
                (None, Some(b)) => path + "?"@ + b,
                (Some(a), Some(b)) => path + "?"@ + a + "&"@ + b,
            },
        )
    }
}

/// The browse URL; see [`list_url_spec`].
pub fn list_url(base: &str, q: Option<&str>, cursor: Option<&str>) -> (r: Result<String, String>)
    ensures
        match r {
            Ok(u) => list_url_spec(base@, opt_view(q), opt_view(cursor)) == Ok::<Seq<char>, Seq<char>>(u@),
            Err(e) => list_url_spec(base@, opt_view(q), opt_view(cursor)) == Err::<Seq<char>, Seq<char>>(e@),
        },
{
    let mut qpart: Option<String> = None;
    match q {
        Some(raw) => {
            let trimmed = trim_str(raw);
            let n = trimmed.as_str().unicode_len();
            if n > 0 {
                if n > 80 {
                    return Err(owned("Invalid query."));
                }
                let mut p = owned("q=");
                let enc = percent_encode(trimmed.as_str());
                push_str(&mut p, enc.as_str());
                qpart = Some(p);
            }
        },
        None => {},
    }
    let mut cpart: Option<String> = None;
    match cursor {
        Some(raw) => {
            if raw.unicode_len() > 0 {
                let mut p = owned("cursor=");
                let enc = percent_encode(raw);
                push_str(&mut p, enc.as_str());
                cpart = Some(p);
            }
        },
        None => {},
    }
    let bv = chars_of(base);
    let trimmed_base = trim_end_char_exec(&bv, '/');
    let mut out = crate::text::string_of(trimmed_base.as_slice());
    push_str(&mut out, "/api/desktop/playbooks");
    match qpart {
        Some(a) => {
            push_str(&mut out, "?");
            push_str(&mut out, a.as_str());
            match cpart {
                Some(b) => {
                    push_str(&mut out, "&");
                    push_str(&mut out, b.as_str());
                },
                None => {},
            }
        },
        None => match cpart {
            Some(b) => {
                push_str(&mut out, "?");
                push_str(&mut out, b.as_str());
            },
            None => {},
        },
    }
    Ok(out)
}

/// The view of an optional borrowed string.
pub open spec fn opt_view(s: Option<&str>) -> Option<Seq<char>> {
    match s {
        Some(t) => Some(t@),
        None => None,
    }
}


pub open spec fn is_lower_hex_byte(b: u8) -> bool {
    (48 <= b && b <= 57) || (97 <= b && b <= 102)
}

/// Where a publication id has its dashes: `8-4-4-4-12`.
pub open spec fn dash_at(i: int) -> bool {
    i == 8 || i == 13 || i == 18 || i == 23
}

/// A publication id is a lowercase hyphenated UUID: 36 bytes, dashes after the groups
/// of 8, 4, 4 and 4 hex digits, and 12 hex digits after the last dash.
pub open spec fn publication_id_spec(bs: Seq<u8>) -> bool {
    bs.len() == 36 && forall|i: int|
        0 <= i < 36 ==> if dash_at(i) {
            #[trigger] bs[i] == 45
        } else {
            is_lower_hex_byte(bs[i])
        }
}

/// Whether `id` names a publication at all; anything else is answered "not found"
/// without a request.
pub fn publication_id(id: &str) -> (r: bool)
    ensures
        r == publication_id_spec(id.spec_bytes()),
{
    let bytes = id.as_bytes();
    if bytes.len() != 36 {
        return false;
    }
    let mut i: usize = 0;
    while i < 36
        invariant
            bytes@ == id.spec_bytes(),
            bytes@.len() == 36,
            i <= 36,
            forall|k: int|
                0 <= k < i ==> if dash_at(k) {
                    #[trigger] bytes@[k] == 45
                } else {
                    is_lower_hex_byte(bytes@[k])
                },
        decreases 36 - i,
    {
        let b = bytes[i];
        if i == 8 || i == 13 || i == 18 || i == 23 {
            if b != 45u8 {
                return false;
            }
        } else if !((48u8 <= b && b <= 57u8) || (97u8 <= b && b <= 102u8)) {
            return false;
        }
        i = i + 1;
    }
    true
}

/// A validation finding the library reports for a published document.
pub struct Diagnostic {
    pub code: String,
    pub message: String,
    pub line: Option<usize>,
    pub field: Option<String>,
    pub severity: String,
}

/// The outcome of publishing a playbook.
pub enum PublishResult {
    Saved { id: String, label: String, playbook_key: String, title: String, description: String, version: u64 },
    NeedsAccount,
    LabelRequired,
    Invalid { diagnostics: Vec<Diagnostic> },
    Failed { message: String, code: String },
}

/// The sentence for a publish failure code; `error` is the server's own sentence.
pub open spec fn publish_message(code: Seq<char>, error: Seq<char>) -> Seq<char> {
    if code == "key_changed"@ {
        "The playbook key cannot change. Publish a new one."@
    } else if code == "label_taken"@ {
        "That label is taken."@
    } else if code == "label_set"@ {
        "That label is already set."@
    } else if code == "invalid_label"@ {
        "Label must be a lowercase slug, 2 to 32 characters."@
    } else if code == "attest_required"@ {
        "Confirm you can share this playbook."@
    } else if code == "too_large"@ {
        "Playbook is larger than 256 KiB."@
    } else if code == "unsupported_media_type"@ {
        "Expected application/json."@
    } else if code == "forbidden"@ {
        "You cannot update this playbook."@
    } else if code == "not_found"@ {
        not_found()
    } else if error.len() > 0 && !contains_seq(error, service_role_key()) {
        error
    } else {
        unreachable()
    }
}

/// A failed publish as `(message, code)`.
pub open spec fn publish_failure_spec(status: u16, body: Seq<u8>, parsed: Option<Json>) -> (Seq<char>, Seq<char>) {
    if status == 503 || names_service_role(body) {
        (unavailable(), "unavailable"@)
    } else {
        let code = match parsed_str_field(parsed, "code"@) {
            Some(c) => c,
            None => seq![],
        };
        let error = match parsed_str_field(parsed, "error"@) {
            Some(e) => e,
            None => seq![],
        };
        (publish_message(code, error), code)
    }
}

/// A publish the service refused, with the sentence for its code.
pub fn publish_failure(status: u16, body: &[u8], parsed: &Option<Json>) -> (r: PublishResult)
    ensures
        match r {
            PublishResult::Failed { message, code } => publish_failure_spec(status, body@, *parsed) == (
            message@, code@),
            _ => false,
        },
{
    if status == 503 || body_names_service_role(body) {
        return PublishResult::Failed {
            message: owned("Playbook library is unavailable."),
            code: owned("unavailable"),
        };
    }
    let code = match parsed_str_field_exec(parsed, "code") {
        Some(c) => c,
        None => String::new(),
    };
    let error = match parsed_str_field_exec(parsed, "error") {
        Some(e) => e,
        None => String::new(),
    };
    let c = code.as_str();
    let message = if str_eq(c, "key_changed") {
        owned("The playbook key cannot change. Publish a new one.")
    } else if str_eq(c, "label_taken") {
        owned("That label is taken.")
    } else if str_eq(c, "label_set") {
        owned("That label is already set.")
    } else if str_eq(c, "invalid_label") {
        owned("Label must be a lowercase slug, 2 to 32 characters.")
    } else if str_eq(c, "attest_required") {
        owned("Confirm you can share this playbook.")
    } else if str_eq(c, "too_large") {
        owned("Playbook is larger than 256 KiB.")
    } else if str_eq(c, "unsupported_media_type") {
        owned("Expected application/json.")
    } else if str_eq(c, "forbidden") {
        owned("You cannot update this playbook.")
    } else if str_eq(c, "not_found") {
        owned("Playbook not found.")
    } else if error.as_str().unicode_len() > 0 && !str_contains(error.as_str(), "SUPABASE_SERVICE_ROLE_KEY") {
        error
    } else {
        owned("Could not reach the playbook library.")
    };
    PublishResult::Failed { message, code }
}

/// A saved publication as the service confirmed it; its fields are those of the reply.
pub open spec fn saved_ok(j: Json) -> bool {
    str_field_or_empty(j, "id"@).len() > 0 && match u64_field(j, "version"@) {
        Some(v) => v >= 1,
        None => false,
    }
}

/// Read the service's reply to a successful create or update.
pub fn saved_detail(body: &[u8], parsed: &Option<Json>) -> (r: PublishResult)
    ensures
        match parsed {
            None => r matches PublishResult::Failed { message, code } && message@ == unreachable() && code@
                == Seq::<char>::empty(),
            Some(j) => if bool_field(*j, "ok"@) != Some(true) {
                r matches PublishResult::Failed { message, code } && publish_failure_spec(200, body@, *parsed) == (
                message@, code@)
            } else if !saved_ok(*j) {
                r matches PublishResult::Failed { message, code } && message@ == unreachable() && code@
                    == Seq::<char>::empty()
            } else {
                r matches PublishResult::Saved { id, label, playbook_key, title, description, version } && id@
                    == str_field_or_empty(*j, "id"@) && label@ == str_field_or_empty(*j, "label"@) && playbook_key@
                    == str_field_or_empty(*j, "playbook_key"@) && title@ == str_field_or_empty(*j, "title"@)
                    && description@ == str_field_or_empty(*j, "description"@) && Some(version) == u64_field(
                    *j,
                    "version"@,
                )
            },
        },
{
    let j = match parsed {
        Some(j) => j,
        None => {
            return PublishResult::Failed {
                message: owned("Could not reach the playbook library."),
                code: String::new(),
            };
        },
    };
    if crate::json::bool_field_exec(j, "ok") != Some(true) {
        return publish_failure(200, body, parsed);
    }
    let id = str_field_or_empty_exec(j, "id");
    let version = match u64_field_exec(j, "version") {
        Some(v) => v,
        None => 0,
    };
    if id.as_str().unicode_len() == 0 || version < 1 {
        return PublishResult::Failed {
            message: owned("Could not reach the playbook library."),
            code: String::new(),
        };
    }
    PublishResult::Saved {
        id,
        label: str_field_or_empty_exec(j, "label"),
        playbook_key: str_field_or_empty_exec(j, "playbook_key"),
        title: str_field_or_empty_exec(j, "title"),
        description: str_field_or_empty_exec(j, "description"),
        version,
    }
}


/// One playbook of the catalog, as the service lists it.
pub struct CommunitySummary {
    pub id: String,
    pub label: String,
    pub playbook_key: String,
    pub title: String,
    pub description: String,
    pub default_harness: String,
    pub has_coding_step: bool,
    pub step_count: u64,
    pub version: u64,
    pub body_sha256: String,
    pub published_at: String,
    pub updated_at: String,
}

/// A member that may be spelled two ways: `None` when both spellings are present,
/// `Some(None)` when neither is.
pub open spec fn alias_field(j: Json, a: Seq<char>, b: Seq<char>) -> Option<Option<Json>> {
    match (field(j, a), field(j, b)) {
        (Some(_), Some(_)) => None,
        (Some(x), None) => Some(Some(x)),
        (None, y) => Some(y),
    }
}

pub open spec fn alias_str(j: Json, a: Seq<char>, b: Seq<char>) -> Option<Seq<char>> {
    match alias_field(j, a, b) {
        Some(Some(Json::Str(s))) => Some(s@),
        _ => None,
    }
}

pub open spec fn alias_u64(j: Json, a: Seq<char>, b: Seq<char>) -> Option<u64> {
    match alias_field(j, a, b) {
        Some(Some(Json::Number(Some(n)))) => Some(n),
        _ => None,
    }
}

pub open spec fn alias_bool(j: Json, a: Seq<char>, b: Seq<char>) -> Option<bool> {
    match alias_field(j, a, b) {
        Some(Some(Json::Bool(x))) => Some(x),
        _ => None,
    }
}

/// An object carrying every member of a summary with the right type. Each camelCase
/// member may instead be spelled in snake_case, but not both.
pub open spec fn summary_ok(j: Json) -> bool {
    &&& j is Object
    &&& str_field(j, "id"@) is Some
    &&& str_field(j, "label"@) is Some
    &&& alias_str(j, "playbookKey"@, "playbook_key"@) is Some
    &&& str_field(j, "title"@) is Some
    &&& str_field(j, "description"@) is Some
    &&& alias_str(j, "defaultHarness"@, "default_harness"@) is Some
    &&& alias_bool(j, "hasCodingStep"@, "has_coding_step"@) is Some
    &&& alias_u64(j, "stepCount"@, "step_count"@) is Some
    &&& u64_field(j, "version"@) is Some
    &&& alias_str(j, "bodySha256"@, "body_sha256"@) is Some
    &&& alias_str(j, "publishedAt"@, "published_at"@) is Some
    &&& alias_str(j, "updatedAt"@, "updated_at"@) is Some
}

/// The summary an object describes, field by field.
pub open spec fn summary_matches(s: CommunitySummary, j: Json) -> bool {
    &&& Some(s.id@) == str_field(j, "id"@)
    &&& Some(s.label@) == str_field(j, "label"@)
    &&& Some(s.playbook_key@) == alias_str(j, "playbookKey"@, "playbook_key"@)
    &&& Some(s.title@) == str_field(j, "title"@)
    &&& Some(s.description@) == str_field(j, "description"@)
    &&& Some(s.default_harness@) == alias_str(j, "defaultHarness"@, "default_harness"@)
    &&& Some(s.has_coding_step) == alias_bool(j, "hasCodingStep"@, "has_coding_step"@)
    &&& Some(s.step_count) == alias_u64(j, "stepCount"@, "step_count"@)
    &&& Some(s.version) == u64_field(j, "version"@)
    &&& Some(s.body_sha256@) == alias_str(j, "bodySha256"@, "body_sha256"@)
    &&& Some(s.published_at@) == alias_str(j, "publishedAt"@, "published_at"@)
    &&& Some(s.updated_at@) == alias_str(j, "updatedAt"@, "updated_at"@)
}

fn alias_field_exec<'a>(j: &'a Json, a: &str, b: &str) -> (r: Option<Option<&'a Json>>)
    ensures
        match r {
            None => alias_field(*j, a@, b@) is None,
            Some(None) => alias_field(*j, a@, b@) == Some(None::<Json>),
            Some(Some(v)) => alias_field(*j, a@, b@) == Some(Some(*v)),
        },
{
    match (j.get(a), j.get(b)) {
        (Some(_), Some(_)) => None,
        (Some(x), None) => Some(Some(x)),
        (None, y) => Some(y),
    }
}

fn alias_str_exec(j: &Json, a: &str, b: &str) -> (r: Option<String>)
    ensures
        match r {
            Some(s) => alias_str(*j, a@, b@) == Some(s@),
            None => alias_str(*j, a@, b@) is None,
        },
{
    match alias_field_exec(j, a, b) {
        Some(Some(v)) => match v.as_str() {
            Some(s) => Some(owned(s.as_str())),
            None => None,
        },
        _ => None,
    }
}

fn alias_u64_exec(j: &Json, a: &str, b: &str) -> (r: Option<u64>)
    ensures
        r == alias_u64(*j, a@, b@),
{
    match alias_field_exec(j, a, b) {
        Some(Some(v)) => v.as_u64(),
        _ => None,
    }
}

fn alias_bool_exec(j: &Json, a: &str, b: &str) -> (r: Option<bool>)
    ensures
        r == alias_bool(*j, a@, b@),
{
    match alias_field_exec(j, a, b) {
        Some(Some(v)) => v.as_bool(),
        _ => None,
    }
}

/// Read one catalog entry.
pub fn summary_from_json(j: &Json) -> (r: Option<CommunitySummary>)
    ensures
        match r {
            Some(s) => summary_ok(*j) && summary_matches(s, *j),
            None => !summary_ok(*j),
        },
{
    match j {
        Json::Object(_) => {},
        _ => {
            return None;
        },
    }
    let id = match crate::json::str_field_exec(j, "id") { Some(x) => x, None => { return None; } };
    let label = match crate::json::str_field_exec(j, "label") { Some(x) => x, None => { return None; } };
    let playbook_key = match alias_str_exec(j, "playbookKey", "playbook_key") { Some(x) => x, None => { return None; } };
    let title = match crate::json::str_field_exec(j, "title") { Some(x) => x, None => { return None; } };
    let description = match crate::json::str_field_exec(j, "description") { Some(x) => x, None => { return None; } };
    let default_harness = match alias_str_exec(j, "defaultHarness", "default_harness") { Some(x) => x, None => { return None; } };
    let has_coding_step = match alias_bool_exec(j, "hasCodingStep", "has_coding_step") { Some(x) => x, None => { return None; } };
    let step_count = match alias_u64_exec(j, "stepCount", "step_count") { Some(x) => x, None => { return None; } };
    let version = match u64_field_exec(j, "version") { Some(x) => x, None => { return None; } };
    let body_sha256 = match alias_str_exec(j, "bodySha256", "body_sha256") { Some(x) => x, None => { return None; } };
    let published_at = match alias_str_exec(j, "publishedAt", "published_at") { Some(x) => x, None => { return None; } };
    let updated_at = match alias_str_exec(j, "updatedAt", "updated_at") { Some(x) => x, None => { return None; } };
    Some(CommunitySummary {
        id,
        label,
        playbook_key,
        title,
        description,
        default_harness,
        has_coding_step,
        step_count,
        version,
        body_sha256,
        published_at,
        updated_at,
    })
}

/// A single catalog entry reply: `Ok` with the summary when it reads; otherwise the
/// sentence for the failure.
pub open spec fn parse_summary_err(body: Seq<u8>, parsed: Option<Json>) -> Option<Seq<char>> {
    match parsed {
        None => Some(unreachable()),
        Some(j) => if bool_field(j, "ok"@) != Some(true) {
            Some(library_failure_spec(200, body, parsed))
        } else if !summary_ok(j) {
            Some(unreachable())
        } else {
            None
        },
    }
}

/// Read the reply to `GET /api/desktop/playbooks/{id}`.
pub fn parse_summary(body: &[u8], parsed: &Option<Json>) -> (r: Result<CommunitySummary, String>)
    ensures
        match r {
            Ok(s) => parse_summary_err(body@, *parsed) is None && summary_matches(s, parsed->0),
            Err(e) => parse_summary_err(body@, *parsed) == Some(e@),
        },
{
    let j = match parsed {
        Some(j) => j,
        None => {
            return Err(owned("Could not reach the playbook library."));
        },
    };
    if crate::json::bool_field_exec(j, "ok") != Some(true) {
        return Err(library_failure_message(200, body, parsed));
    }
    match summary_from_json(j) {
        Some(s) => Ok(s),
        None => Err(owned("Could not reach the playbook library.")),
    }
}


/// One entry of the repository's import registry.
pub struct CommunityImportRecord {
    pub id: String,
    pub label: String,
    pub playbook_key: String,
    pub local_scope: String,
    pub local_key: String,
    pub imported_version: u64,
    pub local_sha256: String,
    pub imported_at: String,
}

/// The records that neither share `id` nor `local_key` with a new one, in order.
pub open spec fn others(records: Seq<CommunityImportRecord>, id: Seq<char>, key: Seq<char>) -> Seq<
    CommunityImportRecord,
>
    decreases records.len(),
{
    if records.len() == 0 {
        seq![]
    } else {
        let rest = others(records.drop_last(), id, key);
        let r = records.last();
        if r.id@ != id && r.local_key@ != key {
            rest.push(r)
        } else {
            rest
        }
    }
}

/// The records whose local key is not `key`, in order.
pub open spec fn without_key(records: Seq<CommunityImportRecord>, key: Seq<char>) -> Seq<CommunityImportRecord>
    decreases records.len(),
{
    if records.len() == 0 {
        seq![]
    } else {
        let rest = without_key(records.drop_last(), key);
        if records.last().local_key@ != key {
            rest.push(records.last())
        } else {
            rest
        }
    }
}

/// A record of another local key than `key`.
pub open spec fn other_key(key: Seq<char>) -> spec_fn(CommunityImportRecord) -> bool {
    |r: CommunityImportRecord| r.local_key@ != key
}

/// Forgetting local key `key` keeps exactly the records of other keys, in their order: the
/// result is the registry filtered by `local_key != key`, so no record of `key` is left
/// and every record of another key stays.
pub proof fn law_forget_keeps_exactly_other_keys(records: Seq<CommunityImportRecord>, key: Seq<char>)
    ensures
        without_key(records, key) == records.filter(other_key(key)),
        forall|k: int| 0 <= k < without_key(records, key).len() ==> (#[trigger] without_key(records, key)[k]).local_key@
            != key && records.contains(without_key(records, key)[k]),
        forall|i: int| 0 <= i < records.len() && (#[trigger] records[i]).local_key@ != key ==> without_key(
            records,
            key,
        ).contains(records[i]),
    decreases records.len(),
{
    reveal(Seq::filter);
    if records.len() > 0 {
        let d = records.drop_last();
        law_forget_keeps_exactly_other_keys(d, key);
        let o = without_key(records, key);
        let od = without_key(d, key);
        assert(d.filter(other_key(key)) == od);
        assert forall|k: int| 0 <= k < o.len() implies (#[trigger] o[k]).local_key@ != key && records.contains(o[k]) by {
            if k < od.len() {
                assert(o[k] == od[k]);
                let j = choose|j: int| 0 <= j < d.len() && d[j] == od[k];
                assert(records[j] == d[j]);
            } else {
                assert(o[k] == records.last());
                assert(records[records.len() - 1] == records.last());
            }
        }
        assert forall|i: int| 0 <= i < records.len() && (#[trigger] records[i]).local_key@ != key implies o.contains(
            records[i],
        ) by {
            if i < d.len() {
                assert(d[i] == records[i]);
                let j = choose|j: int| 0 <= j < od.len() && od[j] == d[i];
                assert(o[j] == od[j]);
            } else {
                assert(o[o.len() - 1] == records[i]);
            }
        }
    }
}

/// A record of neither publication `id` nor local key `key`.
pub open spec fn unrelated(id: Seq<char>, key: Seq<char>) -> spec_fn(CommunityImportRecord) -> bool {
    |r: CommunityImportRecord| r.id@ != id && r.local_key@ != key
}

/// Importing replaces: the registry after an import is the records of other publications
/// and other local keys, in order, then the new record; so the new record is the only one
/// of its publication and the only one of its local key.
pub proof fn law_import_replaces(records: Seq<CommunityImportRecord>, record: CommunityImportRecord)
    ensures
        others(records, record.id@, record.local_key@) == records.filter(unrelated(record.id@, record.local_key@)),
        forall|k: int|
            0 <= k < others(records, record.id@, record.local_key@).len() ==> (#[trigger] others(
                records,
                record.id@,
                record.local_key@,
            )[k]).id@ != record.id@ && others(records, record.id@, record.local_key@)[k].local_key@
                != record.local_key@,
    decreases records.len(),
{
    reveal(Seq::filter);
    if records.len() > 0 {
        law_import_replaces(records.drop_last(), record);
        let o = others(records, record.id@, record.local_key@);
        let od = others(records.drop_last(), record.id@, record.local_key@);
        assert forall|k: int| 0 <= k < o.len() implies (#[trigger] o[k]).id@ != record.id@ && o[k].local_key@
            != record.local_key@ by {
            if k < od.len() {
                assert(o[k] == od[k]);
            }
        }
    }
}

/// The registry after importing `record`: an earlier record of the same publication or
/// the same local key is replaced, and the new one goes last.
pub fn record_import(records: Vec<CommunityImportRecord>, record: CommunityImportRecord) -> (r: Vec<
    CommunityImportRecord,
>)
    ensures
        r@ == others(records@, record.id@, record.local_key@).push(record),
        r@ == records@.filter(unrelated(record.id@, record.local_key@)).push(record),
{
    let ghost whole = records@;
    let n = records.len();
    let mut rest = records;
    let mut out: Vec<CommunityImportRecord> = Vec::new();
    let mut i: usize = 0;
    assert(whole.take(0) =~= Seq::<CommunityImportRecord>::empty());
    while rest.len() > 0
        invariant
            n == whole.len(),
            i <= whole.len(),
            rest@ == whole.skip(i as int),
            out@ == others(whole.take(i as int), record.id@, record.local_key@),
        decreases rest@.len(),
    {
        let r = rest.remove(0);
        proof {
            assert(whole.take(i + 1).drop_last() =~= whole.take(i as int));
            assert(whole.take(i + 1).last() == whole[i as int]);
            assert(whole.skip(i as int)[0] == whole[i as int]);
            assert(whole.skip(i as int).drop_first() =~= whole.skip(i + 1));
        }
        if !str_eq(r.id.as_str(), record.id.as_str()) && !str_eq(r.local_key.as_str(), record.local_key.as_str()) {
            out.push(r);
        }
        i = i + 1;
    }
    assert(whole.take(i as int) =~= whole);
    proof {
        law_import_replaces(whole, record);
    }
    out.push(record);
    out
}

/// Drop the records for local key `key`. `None` when none had it: the registry file is
/// then left as it is.
pub fn forget_repo_import(records: Vec<CommunityImportRecord>, key: &str) -> (r: Option<Vec<CommunityImportRecord>>)
    ensures
        match r {
            Some(v) => v@ == without_key(records@, key@) && v@.len() < records@.len(),
            None => without_key(records@, key@) == records@,
        },
        r matches Some(v) ==> v@ == records@.filter(other_key(key@)) && (forall|k: int|
            0 <= k < v@.len() ==> (#[trigger] v@[k]).local_key@ != key@) && (forall|i: int|
            0 <= i < records@.len() && (#[trigger] records@[i]).local_key@ != key@ ==> v@.contains(records@[i])),
{
    let ghost whole = records@;
    let n = records.len();
    let mut rest = records;
    let mut out: Vec<CommunityImportRecord> = Vec::new();
    let mut i: usize = 0;
    assert(whole.take(0) =~= Seq::<CommunityImportRecord>::empty());
    while rest.len() > 0
        invariant
            n == whole.len(),
            i <= whole.len(),
            rest@ == whole.skip(i as int),
            out@ == without_key(whole.take(i as int), key@),
            out@.len() == i ==> out@ == whole.take(i as int),
            out@.len() <= i,
        decreases rest@.len(),
    {
        let r = rest.remove(0);
        proof {
            assert(whole.take(i + 1).drop_last() =~= whole.take(i as int));
            assert(whole.take(i + 1).last() == whole[i as int]);
            assert(whole.skip(i as int)[0] == whole[i as int]);
            assert(whole.skip(i as int).drop_first() =~= whole.skip(i + 1));
        }
        if !str_eq(r.local_key.as_str(), key) {
            out.push(r);
            proof {
                if out@.len() == i + 1 {
                    assert(out@ =~= whole.take(i + 1));
                }
            }
        }
        i = i + 1;
    }
    assert(whole.take(i as int) =~= whole);
    proof {
        law_forget_keeps_exactly_other_keys(whole, key@);
    }
    if out.len() == n {
        None
    } else {
        Some(out)
    }
}

/// The registry holds at most one record per publication and one per local key.
pub open spec fn registry_ok(rs: Seq<CommunityImportRecord>) -> bool {
    forall|i: int, j: int|
        0 <= i < j < rs.len() ==> (#[trigger] rs[i]).id@ != (#[trigger] rs[j]).id@ && rs[i].local_key@ != rs[j].local_key@
}

proof fn lemma_others_avoid(rs: Seq<CommunityImportRecord>, id: Seq<char>, key: Seq<char>, x: CommunityImportRecord)
    requires
        forall|j: int| 0 <= j < rs.len() ==> (#[trigger] rs[j]).id@ != x.id@ && rs[j].local_key@ != x.local_key@,
    ensures
        forall|k: int|
            0 <= k < others(rs, id, key).len() ==> (#[trigger] others(rs, id, key)[k]).id@ != x.id@ && others(
                rs,
                id,
                key,
            )[k].local_key@ != x.local_key@,
    decreases rs.len(),
{
    if rs.len() > 0 {
        let d = rs.drop_last();
        lemma_others_avoid(d, id, key, x);
        let o = others(rs, id, key);
        let od = others(d, id, key);
        assert(rs.last() == rs[rs.len() - 1]);
        assert forall|k: int| 0 <= k < o.len() implies (#[trigger] o[k]).id@ != x.id@ && o[k].local_key@
            != x.local_key@ by {
            if k < od.len() {
                assert(o[k] == od[k]);
            } else {
                assert(o[k] == rs.last());
            }
        }
    }
}

proof fn lemma_others_filtered(rs: Seq<CommunityImportRecord>, id: Seq<char>, key: Seq<char>)
    ensures
        forall|k: int|
            0 <= k < others(rs, id, key).len() ==> (#[trigger] others(rs, id, key)[k]).id@ != id && others(
                rs,
                id,
                key,
            )[k].local_key@ != key,
    decreases rs.len(),
{
    if rs.len() > 0 {
        let d = rs.drop_last();
        lemma_others_filtered(d, id, key);
        let o = others(rs, id, key);
        let od = others(d, id, key);
        assert forall|k: int| 0 <= k < o.len() implies (#[trigger] o[k]).id@ != id && o[k].local_key@ != key by {
            if k < od.len() {
                assert(o[k] == od[k]);
            } else {
                assert(o[k] == rs.last());
            }
        }
    }
}

proof fn lemma_others_ok(rs: Seq<CommunityImportRecord>, id: Seq<char>, key: Seq<char>)
    requires
        registry_ok(rs),
    ensures
        registry_ok(others(rs, id, key)),
    decreases rs.len(),
{
    if rs.len() > 0 {
        let d = rs.drop_last();
        assert(registry_ok(d)) by {
            assert forall|i: int, j: int| 0 <= i < j < d.len() implies (#[trigger] d[i]).id@ != (#[trigger] d[j]).id@
                && d[i].local_key@ != d[j].local_key@ by {
                assert(d[i] == rs[i] && d[j] == rs[j]);
            }
        }
        lemma_others_ok(d, id, key);
        let last = rs.last();
        assert forall|j: int| 0 <= j < d.len() implies (#[trigger] d[j]).id@ != last.id@ && d[j].local_key@
            != last.local_key@ by {
            assert(d[j] == rs[j] && last == rs[rs.len() - 1]);
        }
        lemma_others_avoid(d, id, key, last);
    }
}

proof fn lemma_without_key_avoid(rs: Seq<CommunityImportRecord>, key: Seq<char>, x: CommunityImportRecord)
    requires
        forall|j: int| 0 <= j < rs.len() ==> (#[trigger] rs[j]).id@ != x.id@ && rs[j].local_key@ != x.local_key@,
    ensures
        forall|k: int|
            0 <= k < without_key(rs, key).len() ==> (#[trigger] without_key(rs, key)[k]).id@ != x.id@ && without_key(
                rs,
                key,
            )[k].local_key@ != x.local_key@,
    decreases rs.len(),
{
    if rs.len() > 0 {
        let d = rs.drop_last();
        lemma_without_key_avoid(d, key, x);
        let o = without_key(rs, key);
        let od = without_key(d, key);
        assert(rs.last() == rs[rs.len() - 1]);
        assert forall|k: int| 0 <= k < o.len() implies (#[trigger] o[k]).id@ != x.id@ && o[k].local_key@
            != x.local_key@ by {
            if k < od.len() {
                assert(o[k] == od[k]);
            } else {
                assert(o[k] == rs.last());
            }
        }
    }
}

proof fn lemma_without_key_ok(rs: Seq<CommunityImportRecord>, key: Seq<char>)
    requires
        registry_ok(rs),
    ensures
        registry_ok(without_key(rs, key)),
    decreases rs.len(),
{
    if rs.len() > 0 {
        let d = rs.drop_last();
        assert(registry_ok(d)) by {
            assert forall|i: int, j: int| 0 <= i < j < d.len() implies (#[trigger] d[i]).id@ != (#[trigger] d[j]).id@
                && d[i].local_key@ != d[j].local_key@ by {
                assert(d[i] == rs[i] && d[j] == rs[j]);
            }
        }
        lemma_without_key_ok(d, key);
        let last = rs.last();
        assert forall|j: int| 0 <= j < d.len() implies (#[trigger] d[j]).id@ != last.id@ && d[j].local_key@
            != last.local_key@ by {
            assert(d[j] == rs[j] && last == rs[rs.len() - 1]);
        }
        lemma_without_key_avoid(d, key, last);
    }
}

/// The import registry keeps one record per publication and one per local key: recording
/// an import keeps it so (the new record is found last), and so does forgetting a key.
pub proof fn law_registry_unique(records: Seq<CommunityImportRecord>, record: CommunityImportRecord, key: Seq<char>)
    requires
        registry_ok(records),
    ensures
        registry_ok(others(records, record.id@, record.local_key@).push(record)),
        others(records, record.id@, record.local_key@).push(record).last() == record,
        registry_ok(without_key(records, key)),
{
    let o = others(records, record.id@, record.local_key@);
    lemma_others_ok(records, record.id@, record.local_key@);
    lemma_others_filtered(records, record.id@, record.local_key@);
    let p = o.push(record);
    assert forall|i: int, j: int| 0 <= i < j < p.len() implies (#[trigger] p[i]).id@ != (#[trigger] p[j]).id@
        && p[i].local_key@ != p[j].local_key@ by {
        assert(p[i] == o[i]);
        if j < o.len() {
            assert(p[j] == o[j]);
        }
    }
    lemma_without_key_ok(records, key);
}

/// What the user sees for one imported playbook.
pub struct DownloadStatusRow {
    pub id: String,
    pub label: String,
    pub playbook_key: String,
    pub local_key: String,
    pub title: Option<String>,
    pub description: Option<String>,
    pub imported_version: u64,
    pub remote_version: Option<u64>,
    pub update_available: bool,
    pub remote_missing: bool,
    pub local_missing: bool,
    pub locally_edited: bool,
    pub error: Option<String>,
}

/// The remote half of a row: `(title, description, remote_version, update_available,
/// remote_missing, error)`. `outcome` is `None` when no request was made, else the
/// transport's answer.
pub open spec fn row_remote(imported: u64, outcome: Option<Result<CommunityHttpResponse, String>>) -> (
    Option<Seq<char>>,
    Option<Seq<char>>,
    Option<u64>,
    bool,
    bool,
    Option<Seq<char>>,
) {
    match outcome {
        None => (None, None, None, false, false, Some(not_found())),
        Some(Err(e)) => (None, None, None, false, false, Some(safe_transport_spec(e@))),
        Some(Ok(resp)) => if resp.status == 404 {
            (None, None, None, false, true, None)
        } else if resp.status == 503 || names_service_role(resp.body@) {
            (None, None, None, false, false, Some(unavailable()))
        } else if resp.status == 401 {
            (None, None, None, false, false, Some(unreachable()))
        } else if resp.status != 200 {
            (None, None, None, false, false, Some(library_failure_spec(resp.status, resp.body@, resp.json)))
        } else {
            match parse_summary_err(resp.body@, resp.json) {
                Some(e) => (None, None, None, false, false, Some(e)),
                None => {
                    let j = resp.json->0;
                    (
                        str_field(j, "title"@),
                        str_field(j, "description"@),
                        u64_field(j, "version"@),
                        u64_field(j, "version"@)->0 > imported,
                        false,
                        None,
                    )
                },
            }
        },
    }
}

pub open spec fn opt_string_view(s: Option<String>) -> Option<Seq<char>> {
    match s {
        Some(t) => Some(t@),
        None => None,
    }
}

/// Whether a file whose hash is `local_hash` (`None` when it could not be read) was
/// edited since the import recorded `recorded`.
pub open spec fn edited(local_missing: bool, local_hash: Option<Seq<char>>, recorded: Seq<char>) -> bool {
    !local_missing && match local_hash {
        Some(h) => h != recorded,
        None => true,
    }
}

/// `row` reports `record` with the local state and the remote half given.
pub open spec fn row_matches(
    row: DownloadStatusRow,
    record: CommunityImportRecord,
    local_missing: bool,
    local_hash: Option<Seq<char>>,
    remote: (Option<Seq<char>>, Option<Seq<char>>, Option<u64>, bool, bool, Option<Seq<char>>),
) -> bool {
    &&& row.id@ == record.id@
    &&& row.label@ == record.label@
    &&& row.playbook_key@ == record.playbook_key@
    &&& row.local_key@ == record.local_key@
    &&& row.imported_version == record.imported_version
    &&& row.local_missing == local_missing
    &&& row.locally_edited == edited(local_missing, local_hash, record.local_sha256@)
    &&& opt_string_view(row.title) == remote.0
    &&& opt_string_view(row.description) == remote.1
    &&& row.remote_version == remote.2
    &&& row.update_available == remote.3
    &&& row.remote_missing == remote.4
    &&& opt_string_view(row.error) == remote.5
}

/// The row for `record`, given the local file's state and the service's answer
/// (`None` when the id was not worth asking about).
pub fn status_row_from(
    record: &CommunityImportRecord,
    local_missing: bool,
    local_hash: Option<String>,
    outcome: Option<Result<CommunityHttpResponse, String>>,
) -> (row: DownloadStatusRow)
    ensures
        row_matches(row, *record, local_missing, opt_string_view(local_hash), row_remote(record.imported_version, outcome)),
{
    let locally_edited = if local_missing {
        false
    } else {
        match &local_hash {
            Some(h) => !str_eq(h.as_str(), record.local_sha256.as_str()),
            None => true,
        }
    };
    let mut row = DownloadStatusRow {
        id: owned(record.id.as_str()),
        label: owned(record.label.as_str()),
        playbook_key: owned(record.playbook_key.as_str()),
        local_key: owned(record.local_key.as_str()),
        title: None,
        description: None,
        imported_version: record.imported_version,
        remote_version: None,
        update_available: false,
        remote_missing: false,
        local_missing,
        locally_edited,
        error: None,
    };
    let response = match outcome {
        None => {
            row.error = Some(owned("Playbook not found."));
            return row;
        },
        Some(Err(e)) => {
            row.error = Some(safe_transport(e.as_str()));
            return row;
        },
        Some(Ok(response)) => response,
    };
    if response.status == 404 {
        row.remote_missing = true;
        return row;
    }
    if response.status == 503 || body_names_service_role(response.body.as_slice()) {
        row.error = Some(owned("Playbook library is unavailable."));
        return row;
    }
    if response.status == 401 {
        row.error = Some(owned("Could not reach the playbook library."));
        return row;
    }
    if response.status != 200 {
        row.error = Some(library_failure_message(response.status, response.body.as_slice(), &response.json));
        return row;
    }
    match parse_summary(response.body.as_slice(), &response.json) {
        Ok(summary) => {
            row.update_available = summary.version > record.imported_version;
            row.remote_version = Some(summary.version);
            row.title = Some(summary.title);
            row.description = Some(summary.description);
        },
        Err(e) => {
            row.error = Some(e);
        },
    }
    row
}

/// Where publication `id` is described.
pub open spec fn publication_url(base: Seq<char>, id: Seq<char>) -> Seq<char> {
    trim_end_char(base, '/') + "/api/desktop/playbooks/"@ + id
}

/// The anonymous request for publication `id`'s summary.
pub fn publication_request(base: &str, id: &str) -> (r: CommunityHttpRequest)
    ensures
        is_request(r, "GET"@, publication_url(base@, id@), browse_header_lines(), None),
{
    let mut url = endpoint(base, "/api/desktop/playbooks/");
    push_str(&mut url, id);
    let r = CommunityHttpRequest { method: owned("GET"), url, headers: browse_headers(), body: None };
    assert(r.url@ =~= publication_url(base@, id@));
    r
}

/// The status of one imported playbook: the local file's state, and what the library
/// says of the publication. An id that is not a publication id is reported missing
/// without a request.
pub fn status_row<H: CommunityHttp>(
    http: &mut LoggedHttp<H>,
    base: &str,
    record: &CommunityImportRecord,
    local_missing: bool,
    local_hash: Option<String>,
) -> (row: DownloadStatusRow)
    ensures
        !publication_id_spec(vstd::utf8::encode_utf8(record.id@)) ==> row_matches(
            row,
            *record,
            local_missing,
            opt_string_view(local_hash),
            row_remote(record.imported_version, None),
        ) && final(http).exchanges() == old(http).exchanges(),
        publication_id_spec(vstd::utf8::encode_utf8(record.id@)) ==> {
            &&& final(http).exchanges().len() == old(http).exchanges().len() + 1
            &&& final(http).exchanges().drop_last() == old(http).exchanges()
            &&& is_request(
                final(http).exchanges().last().0,
                "GET"@,
                publication_url(base@, record.id@),
                browse_header_lines(),
                None,
            )
            &&& row_matches(
                row,
                *record,
                local_missing,
                opt_string_view(local_hash),
                row_remote(record.imported_version, Some(final(http).exchanges().last().1)),
            )
        },
{
    if !publication_id(record.id.as_str()) {
        return status_row_from(record, local_missing, local_hash, None);
    }
    let request = publication_request(base, record.id.as_str());
    let ghost h0 = http.exchanges();
    let outcome = http.exchange(request);
    assert(http.exchanges().drop_last() =~= h0);
    status_row_from(record, local_missing, local_hash, Some(outcome))
}


/// A page of the catalog.
pub struct CommunityList {
    pub playbooks: Vec<CommunitySummary>,
    pub next_cursor: Option<String>,
}

/// Every element is a summary.
pub open spec fn all_summaries(items: Seq<Json>) -> bool {
    forall|i: int| 0 <= i < items.len() ==> summary_ok(#[trigger] items[i])
}

/// `l` is the page the reply `j` describes.
pub open spec fn page_matches(l: CommunityList, j: Json) -> bool {
    match field(j, "playbooks"@) {
        Some(Json::Array(items)) => l.playbooks@.len() == items@.len() && (forall|i: int|
            0 <= i < items@.len() ==> summary_matches(#[trigger] l.playbooks@[i], items@[i]))
            && opt_string_view(l.next_cursor) == crate::json::str_field(j, "next_cursor"@),
        _ => false,
    }
}

/// The failure sentence for a catalog page reply, or `None` when it reads.
pub open spec fn parse_list_err(body: Seq<u8>, parsed: Option<Json>) -> Option<Seq<char>> {
    match parsed {
        None => Some(unreachable()),
        Some(j) => if bool_field(j, "ok"@) != Some(true) {
            Some(library_failure_spec(200, body, parsed))
        } else {
            match field(j, "playbooks"@) {
                Some(Json::Array(items)) => if !all_summaries(items@) {
                    Some(unreachable())
                } else {
                    match field(j, "next_cursor"@) {
                        Some(Json::Null) => None,
                        Some(Json::Str(_)) => None,
                        _ => Some(unreachable()),
                    }
                },
                _ => Some(unreachable()),
            }
        },
    }
}

/// Read a catalog page reply.
pub fn parse_list(body: &[u8], parsed: &Option<Json>) -> (r: Result<CommunityList, String>)
    ensures
        match r {
            Ok(l) => parse_list_err(body@, *parsed) is None && page_matches(l, parsed->0),
            Err(e) => parse_list_err(body@, *parsed) == Some(e@),
        },
{
    let j = match parsed {
        Some(j) => j,
        None => {
            return Err(owned("Could not reach the playbook library."));
        },
    };
    if crate::json::bool_field_exec(j, "ok") != Some(true) {
        return Err(library_failure_message(200, body, parsed));
    }
    let items = match j.get("playbooks") {
        Some(Json::Array(items)) => items,
        _ => {
            return Err(owned("Could not reach the playbook library."));
        },
    };
    let mut playbooks: Vec<CommunitySummary> = Vec::new();
    let mut i: usize = 0;
    while i < items.len()
        invariant
            *parsed == Some(*j),
            bool_field(*j, "ok"@) == Some(true),
            field(*j, "playbooks"@) == Some(Json::Array(*items)),
            i <= items@.len(),
            playbooks@.len() == i,
            forall|k: int| 0 <= k < i ==> summary_ok(#[trigger] items@[k]),
            forall|k: int| 0 <= k < i ==> summary_matches(#[trigger] playbooks@[k], items@[k]),
        decreases items@.len() - i,
    {
        match summary_from_json(&items[i]) {
            Some(s) => {
                playbooks.push(s);
                assert(summary_matches(playbooks@[i as int], items@[i as int]));
            },
            None => {
                return Err(owned("Could not reach the playbook library."));
            },
        }
        i = i + 1;
    }
    let next_cursor = match j.get("next_cursor") {
        Some(Json::Null) => None,
        Some(Json::Str(c)) => Some(owned(c.as_str())),
        _ => {
            return Err(owned("Could not reach the playbook library."));
        },
    };
    Ok(CommunityList { playbooks, next_cursor })
}

/// What a browse reply means: the page, or the sentence for the failure. A 401 is not
/// a sign-in problem here, since browsing is anonymous.
pub open spec fn list_reply_err(resp: CommunityHttpResponse) -> Option<Seq<char>> {
    if resp.status == 503 || names_service_role(resp.body@) {
        Some(unavailable())
    } else if resp.status == 401 {
        Some(unreachable())
    } else if resp.status != 200 {
        Some(library_failure_spec(resp.status, resp.body@, resp.json))
    } else {
        parse_list_err(resp.body@, resp.json)
    }
}

/// Turn the service's browse reply into a page.
pub fn list_reply(response: CommunityHttpResponse) -> (r: Result<CommunityList, String>)
    ensures
        match r {
            Ok(l) => list_reply_err(response) is None && page_matches(l, response.json->0),
            Err(e) => list_reply_err(response) == Some(e@),
        },
{
    if response.status == 503 || body_names_service_role(response.body.as_slice()) {
        return Err(owned("Playbook library is unavailable."));
    }
    if response.status == 401 {
        return Err(owned("Could not reach the playbook library."));
    }
    if response.status != 200 {
        return Err(library_failure_message(response.status, response.body.as_slice(), &response.json));
    }
    parse_list(response.body.as_slice(), &response.json)
}

/// Browse the catalog. A refused search never leaves the machine; a transport error is
/// returned as the transport reported it; any reply is read by [`list_reply`].
pub fn list_community_playbooks_with<H: CommunityHttp>(
    http: &mut LoggedHttp<H>,
    base: &str,
    q: Option<&str>,
    cursor: Option<&str>,
) -> (r: Result<CommunityList, String>)
    ensures
        list_url_spec(base@, opt_view(q), opt_view(cursor)) is Err ==> r is Err && list_url_spec(
            base@,
            opt_view(q),
            opt_view(cursor),
        ) == Err::<Seq<char>, Seq<char>>(r->Err_0@) && final(http).exchanges() == old(http).exchanges(),
        list_url_spec(base@, opt_view(q), opt_view(cursor)) matches Ok(url) ==> {
            &&& final(http).exchanges().len() == old(http).exchanges().len() + 1
            &&& final(http).exchanges().drop_last() == old(http).exchanges()
            &&& is_request(final(http).exchanges().last().0, "GET"@, url, browse_header_lines(), None)
            &&& match final(http).exchanges().last().1 {
                Err(e) => r == Err::<CommunityList, String>(e),
                Ok(resp) => match r {
                    Ok(l) => list_reply_err(resp) is None && page_matches(l, resp.json->0),
                    Err(e) => list_reply_err(resp) == Some(e@),
                },
            }
        },
{
    let url = match list_url(base, q, cursor) {
        Ok(u) => u,
        Err(e) => {
            return Err(e);
        },
    };
    let request = CommunityHttpRequest { method: owned("GET"), url, headers: browse_headers(), body: None };
    let ghost h0 = http.exchanges();
    let answer = http.exchange(request);
    assert(http.exchanges().drop_last() =~= h0);
    match answer {
        Ok(response) => list_reply(response),
        Err(e) => Err(e),
    }
}

/// `rows` are the statuses of `records`, in order, with `local` the state of each local
/// copy, and `log` the requests they made: one summary request for each record whose id
/// is a publication id, none for the others.
pub open spec fn status_rows_run(
    log: Seq<Exchange>,
    rows: Seq<DownloadStatusRow>,
    records: Seq<CommunityImportRecord>,
    local: Seq<(bool, Option<String>)>,
    base: Seq<char>,
) -> bool
    decreases records.len(),
{
    if records.len() == 0 {
        log.len() == 0 && rows.len() == 0
    } else {
        let record = records.last();
        let l = local.last();
        &&& rows.len() == records.len()
        &&& local.len() == records.len()
        &&& if !publication_id_spec(vstd::utf8::encode_utf8(record.id@)) {
            &&& row_matches(rows.last(), record, l.0, opt_string_view(l.1), row_remote(record.imported_version, None))
            &&& status_rows_run(log, rows.drop_last(), records.drop_last(), local.drop_last(), base)
        } else {
            &&& log.len() >= 1
            &&& is_request(log.last().0, "GET"@, publication_url(base, record.id@), browse_header_lines(), None)
            &&& row_matches(
                rows.last(),
                record,
                l.0,
                opt_string_view(l.1),
                row_remote(record.imported_version, Some(log.last().1)),
            )
            &&& status_rows_run(log.drop_last(), rows.drop_last(), records.drop_last(), local.drop_last(), base)
        }
    }
}

/// The status of every record in the registry, in registry order.
pub fn community_download_status_with<H: CommunityHttp>(
    http: &mut LoggedHttp<H>,
    base: &str,
    records: &Vec<CommunityImportRecord>,
    local: &Vec<(bool, Option<String>)>,
) -> (rows: Vec<DownloadStatusRow>)
    requires
        records@.len() == local@.len(),
    ensures
        rows@.len() == records@.len(),
        forall|i: int|
            0 <= i < rows@.len() ==> (#[trigger] rows@[i]).id@ == records@[i].id@ && rows@[i].local_key@
                == records@[i].local_key@ && rows@[i].local_missing == local@[i].0,
        final(http).exchanges().len() >= old(http).exchanges().len(),
        final(http).exchanges().subrange(0, old(http).exchanges().len() as int) == old(http).exchanges(),
        status_rows_run(
            final(http).exchanges().skip(old(http).exchanges().len() as int),
            rows@,
            records@,
            local@,
            base@,
        ),
{
    let ghost h0 = http.exchanges();
    let mut rows: Vec<DownloadStatusRow> = Vec::new();
    let mut i: usize = 0;
    proof {
        assert(http.exchanges().skip(h0.len() as int) =~= Seq::<Exchange>::empty());
        assert(http.exchanges().subrange(0, h0.len() as int) =~= h0);
        assert(records@.take(0) =~= Seq::<CommunityImportRecord>::empty());
    }
    while i < records.len()
        invariant
            records@.len() == local@.len(),
            i <= records@.len(),
            rows@.len() == i,
            forall|k: int|
                0 <= k < i ==> (#[trigger] rows@[k]).id@ == records@[k].id@ && rows@[k].local_key@
                    == records@[k].local_key@ && rows@[k].local_missing == local@[k].0,
            http.exchanges().len() >= h0.len(),
            http.exchanges().subrange(0, h0.len() as int) == h0,
            status_rows_run(
                http.exchanges().skip(h0.len() as int),
                rows@,
                records@.take(i as int),
                local@.take(i as int),
                base@,
            ),
        decreases records@.len() - i,
    {
        let ghost h1 = http.exchanges();
        let ghost r1 = rows@;
        let hash = match &local[i].1 {
            Some(h) => Some(owned(h.as_str())),
            None => None,
        };
        assert(opt_string_view(hash) == opt_string_view(local@[i as int].1));
        let row = status_row(http, base, &records[i], local[i].0, hash);
        rows.push(row);
        proof {
            let rs = records@.take(i + 1);
            let ls = local@.take(i + 1);
            assert(rs.drop_last() =~= records@.take(i as int));
            assert(ls.drop_last() =~= local@.take(i as int));
            assert(rs.last() == records@[i as int]);
            assert(ls.last() == local@[i as int]);
            assert(rows@.drop_last() =~= r1);
            assert(rows@.last() == row);
            if publication_id_spec(vstd::utf8::encode_utf8(records@[i as int].id@)) {
                assert(http.exchanges().skip(h0.len() as int).drop_last() =~= h1.skip(h0.len() as int));
                assert(http.exchanges().skip(h0.len() as int).last() == http.exchanges().last());
                assert(http.exchanges().subrange(0, h0.len() as int) =~= h1.subrange(0, h0.len() as int));
            }
        }
        i = i + 1;
    }
    proof {
        assert(records@.take(i as int) =~= records@);
        assert(local@.take(i as int) =~= local@);
    }
    rows
}


/// The proleptic Gregorian date `(year, month, day)` of `days` after 1970-01-01, by the
/// era/day-of-era decomposition of the civil calendar (eras of 400 years, each year
/// counted from March).
pub open spec fn civil_from_days(days: nat) -> (int, int, int) {
    let z = days + 719468;
    let era = z / 146097;
    let doe = z % 146097;
    let yoe = (doe - doe / 1460 + doe / 36524 - doe / 146096) / 365;
    let y = yoe + era * 400;
    let doy = doe - (365 * yoe + yoe / 4 - yoe / 100);
    let mp = (5 * doy + 2) / 153;
    let d = doy - (153 * mp + 2) / 5 + 1;
    let m = if mp < 10 {
        mp + 3
    } else {
        mp - 9
    };
    (if m <= 2 {
        y + 1
    } else {
        y
    }, m, d)
}

/// `secs` after the epoch as `YYYY-MM-DDTHH:MM:SSZ`.
pub open spec fn format_utc_spec(secs: u64) -> Seq<char> {
    let (y, m, d) = civil_from_days((secs / 86400) as nat);
    let tod = secs % 86400;
    crate::text::dec_padded(y as nat, 4) + "-"@ + crate::text::dec_padded(m as nat, 2) + "-"@
        + crate::text::dec_padded(d as nat, 2) + "T"@ + crate::text::dec_padded((tod / 3600) as nat, 2) + ":"@
        + crate::text::dec_padded(((tod % 3600) / 60) as nat, 2) + ":"@ + crate::text::dec_padded((tod % 60) as nat, 2)
        + "Z"@
}

proof fn lemma_year_of_era(doe: u32)
    by (bit_vector)
    requires
        doe < 146097,
    ensures
        365 * ((doe - doe / 1460 + doe / 36524 - doe / 146096) / 365) + ((doe - doe / 1460 + doe / 36524 - doe
            / 146096) / 365) / 4 - ((doe - doe / 1460 + doe / 36524 - doe / 146096) / 365) / 100 <= doe,
        doe - (365 * ((doe - doe / 1460 + doe / 36524 - doe / 146096) / 365) + ((doe - doe / 1460 + doe / 36524
            - doe / 146096) / 365) / 4 - ((doe - doe / 1460 + doe / 36524 - doe / 146096) / 365) / 100) <= 365,
        (doe - doe / 1460 + doe / 36524 - doe / 146096) / 365 <= 399,
{
}

proof fn lemma_day_of_year(doy: u32)
    by (bit_vector)
    requires
        doy <= 365,
    ensures
        (153 * ((5 * doy + 2) / 153) + 2) / 5 <= doy,
        (5 * doy + 2) / 153 <= 11,
        doy - (153 * ((5 * doy + 2) / 153) + 2) / 5 + 1 <= 31,
{
}

/// An instant as an RFC 3339 UTC timestamp, second precision.
pub fn format_utc(secs: u64) -> (r: String)
    ensures
        r@ == format_utc_spec(secs),
{
    let days = secs / 86400;
    let tod = secs % 86400;
    let hour = tod / 3600;
    let minute = (tod % 3600) / 60;
    let second = tod % 60;
    let z = days + 719468;
    let era = z / 146097;
    let doe = z % 146097;
    proof {
        lemma_year_of_era(doe as u32);
    }
    let yoe = (doe - doe / 1460 + doe / 36524 - doe / 146096) / 365;
    let mut year = yoe + era * 400;
    let doy = doe - (365 * yoe + yoe / 4 - yoe / 100);
    proof {
        lemma_day_of_year(doy as u32);
    }
    let mp = (5 * doy + 2) / 153;
    let day = doy - (153 * mp + 2) / 5 + 1;
    let month = if mp < 10 {
        mp + 3
    } else {
        mp - 9
    };
    if month <= 2 {
        year = year + 1;
    }
    let mut out = String::new();
    push_decimal(&mut out, year, 4);
    push_str(&mut out, "-");
    push_decimal(&mut out, month, 2);
    push_str(&mut out, "-");
    push_decimal(&mut out, day, 2);
    push_str(&mut out, "T");
    push_decimal(&mut out, hour, 2);
    push_str(&mut out, ":");
    push_decimal(&mut out, minute, 2);
    push_str(&mut out, ":");
    push_decimal(&mut out, second, 2);
    push_str(&mut out, "Z");
    proof {
        assert(out@ =~= format_utc_spec(secs));
    }
    out
}


/// One authorized attempt: the reply, a refusal of the token, or a transport error.
pub enum AuthAttempt<T> {
    Response(T),
    Unauthorized,
    Transport(String),
}

pub open spec fn create_conflict() -> Seq<char> {
    "You already published this playbook. Update it."@
}

pub open spec fn concurrent_conflict() -> Seq<char> {
    "Playbook was updated concurrently. Try again."@
}

pub open spec fn key_changed() -> Seq<char> {
    "The playbook key cannot change. Publish a new one."@
}

pub open spec fn truncated_mine() -> Seq<char> {
    "You already published this playbook, but it is not in the newest 1000. It was not updated."@
}

/// A failure with `message` and `code`.
pub open spec fn failed_with(r: PublishResult, message: Seq<char>, code: Seq<char>) -> bool {
    r matches PublishResult::Failed { message: m, code: c } && m@ == message && c@ == code
}

/// `r` is what [`publish_failure`] gives for this reply.
pub open spec fn is_publish_failure(r: PublishResult, status: u16, body: Seq<u8>, parsed: Option<Json>) -> bool {
    failed_with(r, publish_failure_spec(status, body, parsed).0, publish_failure_spec(status, body, parsed).1)
}

fn unreachable_failure() -> (r: PublishResult)
    ensures
        failed_with(r, unreachable(), seq![]),
{
    PublishResult::Failed { message: owned("Could not reach the playbook library."), code: String::new() }
}

fn failed(message: &str, code: &str) -> (r: PublishResult)
    ensures
        failed_with(r, message@, code@),
{
    PublishResult::Failed { message: owned(message), code: owned(code) }
}

/// One diagnostic object as the service reports it.
pub open spec fn diagnostic_matches(d: Diagnostic, item: Json) -> bool {
    &&& d.code@ == str_field_or_empty(item, "code"@)
    &&& d.message@ == str_field_or_empty(item, "message"@)
    &&& d.line == match u64_field(item, "line"@) {
        Some(n) => Some(n as usize),
        None => None::<usize>,
    }
    &&& opt_string_view(d.field) == str_field(item, "field"@)
    &&& d.severity@ == "error"@
}

/// The diagnostics a reply carries: one per element of its `diagnostics` array, none
/// when there is no such array.
pub open spec fn diagnostics_match(ds: Seq<Diagnostic>, j: Json) -> bool {
    match field(j, "diagnostics"@) {
        Some(Json::Array(items)) => ds.len() == items@.len() && forall|i: int|
            0 <= i < ds.len() ==> diagnostic_matches(#[trigger] ds[i], items@[i]),
        _ => ds.len() == 0,
    }
}

/// The validation findings in a reply.
pub fn server_diagnostics(value: &Json) -> (r: Vec<Diagnostic>)
    ensures
        diagnostics_match(r@, *value),
{
    let mut out: Vec<Diagnostic> = Vec::new();
    let items = match value.get("diagnostics") {
        Some(Json::Array(items)) => items,
        _ => {
            return out;
        },
    };
    let mut i: usize = 0;
    while i < items.len()
        invariant
            field(*value, "diagnostics"@) == Some(Json::Array(*items)),
            i <= items@.len(),
            out@.len() == i,
            forall|k: int| 0 <= k < i ==> diagnostic_matches(#[trigger] out@[k], items@[k]),
        decreases items@.len() - i,
    {
        let item = &items[i];
        let line = match u64_field_exec(item, "line") {
            Some(n) => Some(n as usize),
            None => None,
        };
        let d = Diagnostic {
            code: str_field_or_empty_exec(item, "code"),
            message: str_field_or_empty_exec(item, "message"),
            line,
            field: crate::json::str_field_exec(item, "field"),
            severity: owned("error"),
        };
        out.push(d);
        assert(diagnostic_matches(out@[i as int], items@[i as int]));
        i = i + 1;
    }
    out
}

/// The diagnostics of an optional parse result; none when the body did not parse.
pub open spec fn parsed_diagnostics_match(ds: Seq<Diagnostic>, parsed: Option<Json>) -> bool {
    match parsed {
        Some(j) => diagnostics_match(ds, j),
        None => ds.len() == 0,
    }
}

fn parsed_diagnostics(parsed: &Option<Json>) -> (r: Vec<Diagnostic>)
    ensures
        parsed_diagnostics_match(r@, *parsed),
{
    match parsed {
        Some(j) => server_diagnostics(j),
        None => Vec::new(),
    }
}

/// `code` and `error` of a reply, `""` where absent.
pub open spec fn reply_code(parsed: Option<Json>) -> Seq<char> {
    crate::json::parsed_str_field_or_empty(parsed, "code"@)
}

pub open spec fn reply_error(parsed: Option<Json>) -> Seq<char> {
    crate::json::parsed_str_field_or_empty(parsed, "error"@)
}

/// What one `PUT` reply means: `None` to try again, else the result. `attempt` counts
/// from zero; a concurrent-update conflict is retried while `attempt < 2`.
pub open spec fn put_step_ok(r: Option<PublishResult>, resp: CommunityHttpResponse, attempt: u32) -> bool {
    if resp.status == 503 || names_service_role(resp.body@) {
        r matches Some(x) && failed_with(x, unavailable(), "unavailable"@)
    } else if resp.status == 200 || resp.status == 201 {
        r matches Some(x) && saved_detail_ok(x, resp.body@, resp.json)
    } else if reply_code(resp.json) == "key_changed"@ {
        r matches Some(x) && failed_with(x, key_changed(), "key_changed"@)
    } else if reply_code(resp.json) == "conflict"@ && reply_error(resp.json) == concurrent_conflict() {
        if attempt < 2 {
            r is None
        } else {
            r matches Some(x) && failed_with(x, concurrent_conflict(), "conflict"@)
        }
    } else {
        r matches Some(x) && is_publish_failure(x, resp.status, resp.body@, resp.json)
    }
}

/// `r` is what [`saved_detail`] gives for this reply.
pub open spec fn saved_detail_ok(r: PublishResult, body: Seq<u8>, parsed: Option<Json>) -> bool {
    match parsed {
        None => failed_with(r, unreachable(), seq![]),
        Some(j) => if bool_field(j, "ok"@) != Some(true) {
            is_publish_failure(r, 200, body, parsed)
        } else if !saved_ok(j) {
            failed_with(r, unreachable(), seq![])
        } else {
            r matches PublishResult::Saved { id, label, playbook_key, title, description, version } && id@
                == str_field_or_empty(j, "id"@) && label@ == str_field_or_empty(j, "label"@) && playbook_key@
                == str_field_or_empty(j, "playbook_key"@) && title@ == str_field_or_empty(j, "title"@)
                && description@ == str_field_or_empty(j, "description"@) && Some(version) == u64_field(
                j,
                "version"@,
            )
        },
    }
}

/// Read one reply to `PUT /api/desktop/playbooks/{id}`.
pub fn put_step(response: &CommunityHttpResponse, attempt: u32) -> (r: Option<PublishResult>)
    ensures
        put_step_ok(r, *response, attempt),
{
    if response.status == 503 || body_names_service_role(response.body.as_slice()) {
        return Some(failed("Playbook library is unavailable.", "unavailable"));
    }
    if response.status == 200 || response.status == 201 {
        return Some(saved_detail(response.body.as_slice(), &response.json));
    }
    let code = crate::json::parsed_str_field_or_empty_exec(&response.json, "code");
    let error = crate::json::parsed_str_field_or_empty_exec(&response.json, "error");
    if str_eq(code.as_str(), "key_changed") {
        return Some(failed("The playbook key cannot change. Publish a new one.", "key_changed"));
    }
    if str_eq(code.as_str(), "conflict") && str_eq(error.as_str(), "Playbook was updated concurrently. Try again.") {
        if attempt < 2 {
            return None;
        }
        return Some(failed("Playbook was updated concurrently. Try again.", "conflict"));
    }
    Some(publish_failure(response.status, response.body.as_slice(), &response.json))
}

/// The headers of an authorized request.
pub fn authed_headers(token: &str) -> (r: Vec<String>)
    ensures
        r@.len() == 3,
        r@[0]@ == "Accept: application/json"@,
        r@[1]@ == "Content-Type: application/json"@,
        r@[2]@ == "Authorization: Bearer "@ + token@,
{
    let mut v = browse_headers();
    let mut auth = owned("Authorization: Bearer ");
    push_str(&mut auth, token);
    v.push(auth);
    v
}

/// The authorized request: `method` on `url` with `body`, carrying the bearer `token`.
pub fn authed_request(token: &str, method: &str, url: String, body: Option<String>) -> (r: CommunityHttpRequest)
    ensures
        is_request(r, method@, url@, authed_header_lines(token@), opt_string_view(body)),
        r.method@ == method@,
        r.url == url,
        r.body == body,
        r.headers@.len() == 3,
        r.headers@[0]@ == "Accept: application/json"@,
        r.headers@[1]@ == "Content-Type: application/json"@,
        r.headers@[2]@ == "Authorization: Bearer "@ + token@,
{
    CommunityHttpRequest { method: owned(method), url, headers: authed_headers(token), body }
}

/// What the transport's answer to an authorized request means: a 401 refuses the token,
/// any other reply is the response, and a transport error stays one.
pub open spec fn auth_attempt_ok(r: AuthAttempt<CommunityHttpResponse>, outcome: Result<CommunityHttpResponse, String>) -> bool {
    match outcome {
        Ok(resp) => if resp.status == 401 {
            r is Unauthorized
        } else {
            r == AuthAttempt::<CommunityHttpResponse>::Response(resp)
        },
        Err(e) => r == AuthAttempt::<CommunityHttpResponse>::Transport(e),
    }
}

/// Classify the transport's answer; see [`auth_attempt_ok`].
pub fn auth_attempt(outcome: Result<CommunityHttpResponse, String>) -> (r: AuthAttempt<CommunityHttpResponse>)
    ensures
        auth_attempt_ok(r, outcome),
{
    match outcome {
        Ok(response) => if response.status == 401 {
            AuthAttempt::Unauthorized
        } else {
            AuthAttempt::Response(response)
        },
        Err(e) => AuthAttempt::Transport(e),
    }
}

/// Send one authorized request; a 401 means the token was refused.
pub fn authed_json<H: CommunityHttp>(http: &mut LoggedHttp<H>, token: &str, method: &str, url: String, body: Option<String>) -> (r: AuthAttempt<
    CommunityHttpResponse,
>)
    ensures
        r matches AuthAttempt::Response(resp) ==> resp.status != 401,
        final(http).exchanges().len() == old(http).exchanges().len() + 1,
        final(http).exchanges().drop_last() == old(http).exchanges(),
        is_request(final(http).exchanges().last().0, method@, url@, authed_header_lines(token@), opt_string_view(body)),
        auth_attempt_ok(r, final(http).exchanges().last().1),
{
    let request = authed_request(token, method, url, body);
    let ghost h0 = http.exchanges();
    let r = auth_attempt(http.exchange(request));
    assert(http.exchanges().drop_last() =~= h0);
    r
}

/// The reply of an attempt, or the attempt's end as a publish outcome.
pub fn take_publish(attempt: AuthAttempt<CommunityHttpResponse>) -> (r: Result<CommunityHttpResponse, AuthAttempt<PublishResult>>)
    ensures
        match attempt {
            AuthAttempt::Response(resp) => r == Ok::<CommunityHttpResponse, AuthAttempt<PublishResult>>(resp),
            AuthAttempt::Unauthorized => r matches Err(AuthAttempt::Unauthorized),
            AuthAttempt::Transport(m) => r matches Err(AuthAttempt::Transport(m2)) && m2 == m,
        },
{
    match attempt {
        AuthAttempt::Response(response) => Ok(response),
        AuthAttempt::Unauthorized => Err(AuthAttempt::Unauthorized),
        AuthAttempt::Transport(message) => Err(AuthAttempt::Transport(message)),
    }
}

/// `base` without trailing slashes, then `path`.
pub fn endpoint(base: &str, path: &str) -> (r: String)
    ensures
        r@ == trim_end_char(base@, '/') + path@,
{
    let bv = chars_of(base);
    let tb = trim_end_char_exec(&bv, '/');
    let mut url = crate::text::string_of(tb.as_slice());
    push_str(&mut url, path);
    url
}

/// The `PUT` body: the source, attested.
pub open spec fn put_body(source: Seq<char>) -> Seq<char> {
    "{\"attest\":true,\"source\":"@ + crate::json::json_quoted(source) + "}"@
}

/// The body of a `PUT` of `source`; see [`put_body`].
pub fn publish_put_body(source: &str) -> (r: String)
    ensures
        r@ == put_body(source@),
{
    let mut body = owned("{\"attest\":true,\"source\":");
    let quoted = crate::json::json_string(source);
    push_str(&mut body, quoted.as_str());
    push_str(&mut body, "}");
    body
}

/// The validation body: the source alone.
pub open spec fn validate_body(source: Seq<char>) -> Seq<char> {
    "{\"source\":"@ + crate::json::json_quoted(source) + "}"@
}

/// The body that asks the service to validate `source`; see [`validate_body`].
pub fn publish_validate_body(source: &str) -> (r: String)
    ensures
        r@ == validate_body(source@),
{
    let mut body = owned("{\"source\":");
    let quoted = crate::json::json_string(source);
    push_str(&mut body, quoted.as_str());
    push_str(&mut body, "}");
    body
}

/// One exchange and what came back, as the transport's log records it.
pub type Exchange = (CommunityHttpRequest, Result<CommunityHttpResponse, String>);

/// `log` is the `PUT`s of an update from attempt `attempt` on, and `r` what they end
/// with: each sends `body` to `url` with the bearer `token`; a refused token or a
/// transport error ends it, a concurrent-update conflict is tried again while
/// `attempt < 2`, and any other reply gives the result [`put_step`] reads from it.
pub open spec fn put_run(
    log: Seq<Exchange>,
    r: AuthAttempt<PublishResult>,
    url: Seq<char>,
    body: Seq<char>,
    token: Seq<char>,
    attempt: u32,
) -> bool
    decreases log.len(),
{
    if log.len() == 0 {
        false
    } else {
        &&& is_request(log[0].0, "PUT"@, url, authed_header_lines(token), Some(body))
        &&& match log[0].1 {
            Err(m) => log.len() == 1 && r == AuthAttempt::<PublishResult>::Transport(m),
            Ok(resp) => if resp.status == 401 {
                log.len() == 1 && r is Unauthorized
            } else if put_step_ok(None, resp, attempt) {
                put_run(log.drop_first(), r, url, body, token, (attempt + 1) as u32)
            } else {
                log.len() == 1 && (r matches AuthAttempt::Response(x) && put_step_ok(Some(x), resp, attempt))
            },
        }
    }
}

/// An update makes at most three attempts in all: at most `3 - attempt` from attempt
/// `attempt` on.
pub proof fn law_update_tries_at_most_three_times(
    log: Seq<Exchange>,
    r: AuthAttempt<PublishResult>,
    url: Seq<char>,
    body: Seq<char>,
    token: Seq<char>,
    attempt: u32,
)
    requires
        attempt <= 2,
        put_run(log, r, url, body, token, attempt),
    ensures
        1 <= log.len() <= 3 - attempt,
    decreases log.len(),
{
    if log.len() > 1 {
        law_update_tries_at_most_three_times(log.drop_first(), r, url, body, token, (attempt + 1) as u32);
    }
}

/// The exchanges of `h2` after those of `h0`, where `h1` is `h0` and one more.
proof fn lemma_log_step<A>(h0: Seq<A>, h1: Seq<A>, h2: Seq<A>)
    requires
        h1.len() == h0.len() + 1,
        h1.drop_last() == h0,
        h2.len() >= h1.len(),
        h2.subrange(0, h1.len() as int) == h1,
    ensures
        h2.len() > h0.len(),
        h2.subrange(0, h0.len() as int) == h0,
        h2.skip(h0.len() as int).len() >= 1,
        h2.skip(h0.len() as int)[0] == h1.last(),
        h2.skip(h0.len() as int).drop_first() == h2.skip(h1.len() as int),
{
    assert(h2.subrange(0, h0.len() as int) =~= h1.drop_last());
    assert(h2[h0.len() as int] == h1[h0.len() as int]);
    assert(h2.skip(h0.len() as int).drop_first() =~= h2.skip(h1.len() as int));
}

/// The update's attempts from `attempt` on.
fn put_attempts<H: CommunityHttp>(http: &mut LoggedHttp<H>, url: &String, body: &String, token: &str, attempt: u32) -> (r: AuthAttempt<
    PublishResult,
>)
    requires
        attempt <= 2,
    ensures
        final(http).exchanges().len() > old(http).exchanges().len(),
        final(http).exchanges().subrange(0, old(http).exchanges().len() as int) == old(http).exchanges(),
        put_run(final(http).exchanges().skip(old(http).exchanges().len() as int), r, url@, body@, token@, attempt),
        put_outcome(r),
    decreases 2 - attempt,
{
    let ghost h0 = http.exchanges();
    let attempted = authed_json(http, token, "PUT", owned(url.as_str()), Some(owned(body.as_str())));
    let ghost h1 = http.exchanges();
    proof {
        lemma_log_step(h0, h1, h1);
    }
    let response = match take_publish(attempted) {
        Ok(response) => response,
        Err(stopped) => {
            return stopped;
        },
    };
    match put_step(&response, attempt) {
        Some(result) => {
            proof {
                lemma_put_step_outcome(result, response, attempt);
            }
            AuthAttempt::Response(result)
        },
        None => {
            let r = put_attempts(http, url, body, token, attempt + 1);
            proof {
                lemma_log_step(h0, h1, http.exchanges());
            }
            r
        },
    }
}

/// Update publication `id` with `source`, retrying a concurrent-update conflict twice.
pub fn put_publication<H: CommunityHttp>(http: &mut LoggedHttp<H>, base: &str, token: &str, id: &str, source: &str) -> (r: AuthAttempt<
    PublishResult,
>)
    ensures
        put_outcome(r),
        final(http).exchanges().len() > old(http).exchanges().len(),
        final(http).exchanges().subrange(0, old(http).exchanges().len() as int) == old(http).exchanges(),
        put_run(
            final(http).exchanges().skip(old(http).exchanges().len() as int),
            r,
            publication_url(base@, id@),
            put_body(source@),
            token@,
            0,
        ),
{
    let mut url = endpoint(base, "/api/desktop/playbooks/");
    push_str(&mut url, id);
    assert(url@ =~= publication_url(base@, id@));
    let body = publish_put_body(source);
    put_attempts(http, &url, &body, token, 0)
}


/// An update ends saved, failed, or with the token refused or the transport down;
/// never asking for an account, a label or a fix.
pub open spec fn put_outcome(r: AuthAttempt<PublishResult>) -> bool {
    match r {
        AuthAttempt::Response(x) => x is Saved || x is Failed,
        _ => true,
    }
}

proof fn lemma_put_step_outcome(x: PublishResult, resp: CommunityHttpResponse, attempt: u32)
    requires
        put_step_ok(Some(x), resp, attempt),
    ensures
        x is Saved || x is Failed,
{
}

/// What the `mine` listing says: `Ok(id)` of the first publication with this playbook
/// key when that id is a publication id, else the result to report.
pub open spec fn mine_step_ok(r: Result<String, PublishResult>, resp: CommunityHttpResponse, key: Seq<char>) -> bool {
    if resp.status != 200 || names_service_role(resp.body@) {
        r matches Err(x) && is_publish_failure(x, resp.status, resp.body@, resp.json)
    } else {
        match resp.json {
            None => r matches Err(x) && failed_with(x, unreachable(), seq![]),
            Some(j) => match mine_id(j, key) {
                Some(id) => r matches Ok(s) && s@ == id,
                None => r matches Err(x) && failed_with(
                    x,
                    if bool_field(j, "truncated"@) == Some(true) {
                        truncated_mine()
                    } else {
                        create_conflict()
                    },
                    "conflict"@,
                ),
            },
        }
    }
}

/// The first row of `rows` whose `playbook_key` is `key`.
pub open spec fn first_row_with_key(rows: Seq<Json>, key: Seq<char>) -> Option<Json>
    decreases rows.len(),
{
    if rows.len() == 0 {
        None
    } else if str_field(rows[0], "playbook_key"@) == Some(key) {
        Some(rows[0])
    } else {
        first_row_with_key(rows.drop_first(), key)
    }
}

/// The publication id the listing gives for `key`, when it is a valid one.
pub open spec fn mine_id(j: Json, key: Seq<char>) -> Option<Seq<char>> {
    match field(j, "playbooks"@) {
        Some(Json::Array(rows)) => match first_row_with_key(rows@, key) {
            Some(row) => match str_field(row, "id"@) {
                Some(id) => if publication_id_spec(vstd::utf8::encode_utf8(id)) {
                    Some(id)
                } else {
                    None
                },
                None => None,
            },
            None => None,
        },
        _ => None,
    }
}

fn mine_id_exec(j: &Json, key: &str) -> (r: Option<String>)
    ensures
        match r {
            Some(s) => mine_id(*j, key@) == Some(s@),
            None => mine_id(*j, key@) is None,
        },
{
    let rows = match j.get("playbooks") {
        Some(Json::Array(rows)) => rows,
        _ => {
            return None;
        },
    };
    let mut i: usize = 0;
    assert(rows@.skip(0) =~= rows@);
    while i < rows.len()
        invariant
            field(*j, "playbooks"@) == Some(Json::Array(*rows)),
            i <= rows@.len(),
            first_row_with_key(rows@, key@) == first_row_with_key(rows@.skip(i as int), key@),
        decreases rows@.len() - i,
    {
        let ghost rest = rows@.skip(i as int);
        assert(rest[0] == rows@[i as int]);
        assert(rest.drop_first() =~= rows@.skip(i + 1));
        let row = &rows[i];
        match crate::json::str_field_exec(row, "playbook_key") {
            Some(k) => {
                if str_eq(k.as_str(), key) {
                    return match crate::json::str_field_exec(row, "id") {
                        Some(id) => if publication_id(id.as_str()) {
                            Some(id)
                        } else {
                            None
                        },
                        None => None,
                    };
                }
            },
            None => {},
        }
        i = i + 1;
    }
    None
}

/// Read the `GET /api/desktop/playbooks/mine` reply.
pub fn mine_step(response: &CommunityHttpResponse, key: &str) -> (r: Result<String, PublishResult>)
    ensures
        mine_step_ok(r, *response, key@),
{
    if response.status != 200 || body_names_service_role(response.body.as_slice()) {
        return Err(publish_failure(response.status, response.body.as_slice(), &response.json));
    }
    let j = match &response.json {
        Some(j) => j,
        None => {
            return Err(unreachable_failure());
        },
    };
    let truncated = match crate::json::bool_field_exec(j, "truncated") {
        Some(t) => t,
        None => false,
    };
    match mine_id_exec(j, key) {
        Some(id) => Ok(id),
        None => {
            if truncated {
                Err(
                    failed(
                        "You already published this playbook, but it is not in the newest 1000. It was not updated.",
                        "conflict",
                    ),
                )
            } else {
                Err(failed("You already published this playbook. Update it.", "conflict"))
            }
        },
    }
}

/// The publication id a `mine` listing reply leads to an update of, if any.
pub open spec fn mine_target(resp: CommunityHttpResponse, key: Seq<char>) -> Option<Seq<char>> {
    if resp.status != 200 || names_service_role(resp.body@) {
        None
    } else {
        match resp.json {
            None => None,
            Some(j) => mine_id(j, key),
        }
    }
}

/// `log` is a lookup of this user's publication of `key` followed by its update, and `r`
/// what it ends with: a `GET` of the listing with the bearer `token`; a refused token or
/// a transport error ends it; a listing that names the publication leads to its update
/// (see [`put_run`]); any other reply gives the result [`mine_step`] reads from it.
pub open spec fn mine_run(
    log: Seq<Exchange>,
    r: AuthAttempt<PublishResult>,
    base: Seq<char>,
    token: Seq<char>,
    source: Seq<char>,
    key: Seq<char>,
) -> bool {
    if log.len() == 0 {
        false
    } else {
        &&& is_request(
            log[0].0,
            "GET"@,
            trim_end_char(base, '/') + "/api/desktop/playbooks/mine"@,
            authed_header_lines(token),
            None,
        )
        &&& match log[0].1 {
            Err(m) => log.len() == 1 && r == AuthAttempt::<PublishResult>::Transport(m),
            Ok(resp) => if resp.status == 401 {
                log.len() == 1 && r is Unauthorized
            } else {
                match mine_target(resp, key) {
                    Some(id) => put_run(log.drop_first(), r, publication_url(base, id), put_body(source), token, 0),
                    None => log.len() == 1 && (r matches AuthAttempt::Response(x) && mine_step_ok(
                        Err(x),
                        resp,
                        key,
                    )),
                }
            },
        }
    }
}

/// Find this user's publication of `key` and update it.
pub fn mine_then_put<H: CommunityHttp>(http: &mut LoggedHttp<H>, base: &str, token: &str, source: &str, key: &str) -> (r: AuthAttempt<
    PublishResult,
>)
    ensures
        put_outcome(r),
        final(http).exchanges().len() > old(http).exchanges().len(),
        final(http).exchanges().subrange(0, old(http).exchanges().len() as int) == old(http).exchanges(),
        mine_run(final(http).exchanges().skip(old(http).exchanges().len() as int), r, base@, token@, source@, key@),
{
    let ghost h0 = http.exchanges();
    let url = endpoint(base, "/api/desktop/playbooks/mine");
    let attempted = authed_json(http, token, "GET", url, None);
    let ghost h1 = http.exchanges();
    proof {
        lemma_log_step(h0, h1, h1);
    }
    let response = match take_publish(attempted) {
        Ok(response) => response,
        Err(stopped) => {
            return stopped;
        },
    };
    match mine_step(&response, key) {
        Ok(id) => {
            let r = put_publication(http, base, token, id.as_str(), source);
            proof {
                lemma_log_step(h0, h1, http.exchanges());
            }
            r
        },
        Err(result) => {
            assert(result is Failed);
            AuthAttempt::Response(result)
        },
    }
}

/// What the validation reply says to do next.
pub enum ValidateStep {
    Done(AuthAttempt<PublishResult>),
    Put(String),
    Mine,
    Create,
}

pub open spec fn validate_step_ok(r: ValidateStep, resp: CommunityHttpResponse) -> bool {
    if resp.status == 503 || names_service_role(resp.body@) {
        r matches ValidateStep::Done(AuthAttempt::Response(x)) && failed_with(x, unavailable(), "unavailable"@)
    } else if resp.status == 401 {
        r matches ValidateStep::Done(AuthAttempt::Unauthorized)
    } else if resp.status != 200 {
        r matches ValidateStep::Done(AuthAttempt::Response(x)) && is_publish_failure(
            x,
            resp.status,
            resp.body@,
            resp.json,
        )
    } else {
        match resp.json {
            None => r matches ValidateStep::Done(AuthAttempt::Response(x)) && failed_with(x, unreachable(), seq![]),
            Some(j) => if bool_field(j, "valid"@) == Some(false) {
                r matches ValidateStep::Done(AuthAttempt::Response(PublishResult::Invalid { diagnostics }))
                    && diagnostics_match(diagnostics@, j)
            } else if bool_field(j, "key_taken"@) == Some(true) {
                match str_field(j, "existing_id"@) {
                    Some(id) => if publication_id_spec(vstd::utf8::encode_utf8(id)) {
                        r matches ValidateStep::Put(s) && s@ == id
                    } else {
                        r is Mine
                    },
                    None => r is Mine,
                }
            } else {
                r is Create
            },
        }
    }
}

/// Read the reply to `POST /api/desktop/playbooks/validate`.
pub fn validate_step(response: &CommunityHttpResponse) -> (r: ValidateStep)
    ensures
        validate_step_ok(r, *response),
{
    if response.status == 503 || body_names_service_role(response.body.as_slice()) {
        return ValidateStep::Done(AuthAttempt::Response(failed("Playbook library is unavailable.", "unavailable")));
    }
    if response.status == 401 {
        return ValidateStep::Done(AuthAttempt::Unauthorized);
    }
    if response.status != 200 {
        return ValidateStep::Done(
            AuthAttempt::Response(publish_failure(response.status, response.body.as_slice(), &response.json)),
        );
    }
    let j = match &response.json {
        Some(j) => j,
        None => {
            return ValidateStep::Done(AuthAttempt::Response(unreachable_failure()));
        },
    };
    if crate::json::bool_field_exec(j, "valid") == Some(false) {
        return ValidateStep::Done(AuthAttempt::Response(PublishResult::Invalid { diagnostics: server_diagnostics(j) }));
    }
    if crate::json::bool_field_exec(j, "key_taken") == Some(true) {
        return match crate::json::str_field_exec(j, "existing_id") {
            Some(id) => if publication_id(id.as_str()) {
                ValidateStep::Put(id)
            } else {
                ValidateStep::Mine
            },
            None => ValidateStep::Mine,
        };
    }
    ValidateStep::Create
}

/// What the create reply says: the result, or `None` to look the publication up.
pub open spec fn create_step_ok(r: Option<PublishResult>, resp: CommunityHttpResponse) -> bool {
    if resp.status == 503 || names_service_role(resp.body@) {
        r matches Some(x) && failed_with(x, unavailable(), "unavailable"@)
    } else if resp.status == 201 || resp.status == 200 {
        r matches Some(x) && saved_detail_ok(x, resp.body@, resp.json)
    } else if reply_code(resp.json) == "label_required"@ {
        r matches Some(PublishResult::LabelRequired)
    } else if reply_code(resp.json) == "conflict"@ && reply_error(resp.json) == create_conflict() {
        r is None
    } else if reply_code(resp.json) == "invalid_playbook"@ {
        r matches Some(PublishResult::Invalid { diagnostics }) && parsed_diagnostics_match(diagnostics@, resp.json)
    } else {
        r matches Some(x) && is_publish_failure(x, resp.status, resp.body@, resp.json)
    }
}

/// Read the reply to `POST /api/desktop/playbooks`.
pub fn create_step(response: &CommunityHttpResponse) -> (r: Option<PublishResult>)
    ensures
        create_step_ok(r, *response),
{
    if response.status == 503 || body_names_service_role(response.body.as_slice()) {
        return Some(failed("Playbook library is unavailable.", "unavailable"));
    }
    if response.status == 201 || response.status == 200 {
        return Some(saved_detail(response.body.as_slice(), &response.json));
    }
    let code = crate::json::parsed_str_field_or_empty_exec(&response.json, "code");
    let error = crate::json::parsed_str_field_or_empty_exec(&response.json, "error");
    if str_eq(code.as_str(), "label_required") {
        return Some(PublishResult::LabelRequired);
    }
    if str_eq(code.as_str(), "conflict") && str_eq(error.as_str(), "You already published this playbook. Update it.") {
        return None;
    }
    if str_eq(code.as_str(), "invalid_playbook") {
        return Some(PublishResult::Invalid { diagnostics: parsed_diagnostics(&response.json) });
    }
    Some(publish_failure(response.status, response.body.as_slice(), &response.json))
}

/// The create body: the source, attested, with the label when one was chosen.
pub open spec fn create_body(source: Seq<char>, label: Option<Seq<char>>) -> Seq<char> {
    match label {
        Some(l) => "{\"attest\":true,\"label\":"@ + crate::json::json_quoted(l) + ",\"source\":"@
            + crate::json::json_quoted(source) + "}"@,
        None => "{\"attest\":true,\"source\":"@ + crate::json::json_quoted(source) + "}"@,
    }
}

/// The body that creates a publication of `source`; see [`create_body`].
pub fn publish_create_body(source: &str, label: Option<&str>) -> (r: String)
    ensures
        r@ == create_body(
            source@,
            match label {
                Some(l) => Some(l@),
                None => None,
            },
        ),
{
    let quoted = crate::json::json_string(source);
    let mut create = match label {
        Some(l) => {
            let mut c = owned("{\"attest\":true,\"label\":");
            let ql = crate::json::json_string(l);
            push_str(&mut c, ql.as_str());
            push_str(&mut c, ",\"source\":");
            c
        },
        None => owned("{\"attest\":true,\"source\":"),
    };
    push_str(&mut create, quoted.as_str());
    push_str(&mut create, "}");
    create
}

/// The publication id a validation reply says to update, if any.
pub open spec fn validate_put_id(resp: CommunityHttpResponse) -> Option<Seq<char>> {
    if resp.status == 503 || names_service_role(resp.body@) || resp.status != 200 {
        None
    } else {
        match resp.json {
            None => None,
            Some(j) => if bool_field(j, "valid"@) == Some(false) {
                None
            } else if bool_field(j, "key_taken"@) == Some(true) {
                match str_field(j, "existing_id"@) {
                    Some(id) => if publication_id_spec(vstd::utf8::encode_utf8(id)) {
                        Some(id)
                    } else {
                        None
                    },
                    None => None,
                }
            } else {
                None
            },
        }
    }
}

/// `log` is a creation of a publication of `source` and what follows it, and `r` what
/// it ends with: a `POST` of the create body with the bearer `token`; a refused token or a
/// transport error ends it; a reply that the playbook is already published leads to
/// the lookup and update of [`mine_run`]; any other reply gives the result
/// [`create_step`] reads from it.
pub open spec fn create_run(
    log: Seq<Exchange>,
    r: AuthAttempt<PublishResult>,
    base: Seq<char>,
    token: Seq<char>,
    source: Seq<char>,
    key: Seq<char>,
    label: Option<Seq<char>>,
) -> bool {
    if log.len() == 0 {
        false
    } else {
        &&& is_request(
            log[0].0,
            "POST"@,
            trim_end_char(base, '/') + "/api/desktop/playbooks"@,
            authed_header_lines(token),
            Some(create_body(source, label)),
        )
        &&& match log[0].1 {
            Err(m) => log.len() == 1 && r == AuthAttempt::<PublishResult>::Transport(m),
            Ok(resp) => if resp.status == 401 {
                log.len() == 1 && r is Unauthorized
            } else if create_step_ok(None, resp) {
                mine_run(log.drop_first(), r, base, token, source, key)
            } else {
                log.len() == 1 && (r matches AuthAttempt::Response(x) && create_step_ok(Some(x), resp))
            },
        }
    }
}

/// `log` is a publication of `source` and `r` what it ends with: a `POST` asking the
/// service to validate `source`, with the bearer `token`; a refused token or a transport
/// error ends it; a reply that asks for it leads to a creation ([`create_run`]), a lookup
/// of this user's publication ([`mine_run`]) or an update of the publication it names
/// ([`put_run`]); any other reply gives the result [`validate_step`] reads from it.
pub open spec fn publish_run(
    log: Seq<Exchange>,
    r: AuthAttempt<PublishResult>,
    base: Seq<char>,
    token: Seq<char>,
    source: Seq<char>,
    key: Seq<char>,
    label: Option<Seq<char>>,
) -> bool {
    if log.len() == 0 {
        false
    } else {
        &&& is_request(
            log[0].0,
            "POST"@,
            trim_end_char(base, '/') + "/api/desktop/playbooks/validate"@,
            authed_header_lines(token),
            Some(validate_body(source)),
        )
        &&& match log[0].1 {
            Err(m) => log.len() == 1 && r == AuthAttempt::<PublishResult>::Transport(m),
            Ok(resp) => if resp.status == 401 {
                log.len() == 1 && r is Unauthorized
            } else if validate_step_ok(ValidateStep::Create, resp) {
                create_run(log.drop_first(), r, base, token, source, key, label)
            } else if validate_step_ok(ValidateStep::Mine, resp) {
                mine_run(log.drop_first(), r, base, token, source, key)
            } else if validate_put_id(resp) is Some {
                put_run(
                    log.drop_first(),
                    r,
                    publication_url(base, validate_put_id(resp)->0),
                    put_body(source),
                    token,
                    0,
                )
            } else {
                log.len() == 1 && validate_step_ok(ValidateStep::Done(r), resp)
            },
        }
    }
}

/// Publish `source` (playbook `key`) with a valid token: validate it, then create it,
/// or update the existing publication when the key is already taken by this user.
pub fn publish_authenticated<H: CommunityHttp>(
    http: &mut LoggedHttp<H>,
    base: &str,
    token: &str,
    source: &str,
    key: &str,
    label: Option<&str>,
) -> (r: AuthAttempt<PublishResult>)
    ensures
        r matches AuthAttempt::Response(x) ==> !(x is NeedsAccount),
        final(http).exchanges().len() > old(http).exchanges().len(),
        final(http).exchanges().subrange(0, old(http).exchanges().len() as int) == old(http).exchanges(),
        publish_run(
            final(http).exchanges().skip(old(http).exchanges().len() as int),
            r,
            base@,
            token@,
            source@,
            key@,
            opt_view(label),
        ),
{
    let ghost h0 = http.exchanges();
    let validate_url = endpoint(base, "/api/desktop/playbooks/validate");
    let validate_body = publish_validate_body(source);
    let attempted = authed_json(http, token, "POST", validate_url, Some(validate_body));
    let ghost h1 = http.exchanges();
    proof {
        lemma_log_step(h0, h1, h1);
    }
    let response = match take_publish(attempted) {
        Ok(response) => response,
        Err(stopped) => {
            return stopped;
        },
    };
    match validate_step(&response) {
        ValidateStep::Done(result) => {
            return result;
        },
        ValidateStep::Put(id) => {
            let r = put_publication(http, base, token, id.as_str(), source);
            proof {
                lemma_log_step(h0, h1, http.exchanges());
            }
            return r;
        },
        ValidateStep::Mine => {
            let r = mine_then_put(http, base, token, source, key);
            proof {
                lemma_log_step(h0, h1, http.exchanges());
            }
            return r;
        },
        ValidateStep::Create => {},
    }
    let create_url = endpoint(base, "/api/desktop/playbooks");
    let create = publish_create_body(source, label);
    let attempted = authed_json(http, token, "POST", create_url, Some(create));
    let ghost h2 = http.exchanges();
    proof {
        lemma_log_step(h1, h2, h2);
    }
    let response = match take_publish(attempted) {
        Ok(response) => response,
        Err(stopped) => {
            proof {
                lemma_log_step(h0, h1, h2);
            }
            return stopped;
        },
    };
    match create_step(&response) {
        Some(result) => {
            proof {
                lemma_log_step(h0, h1, h2);
            }
            AuthAttempt::Response(result)
        },
        None => {
            let r = mine_then_put(http, base, token, source, key);
            proof {
                lemma_log_step(h1, h2, http.exchanges());
                lemma_log_step(h0, h1, http.exchanges());
            }
            r
        },
    }
}


/// A published document as downloaded for import.
pub struct SourceDetail {
    pub document: String,
    pub version: u64,
    pub label: String,
    pub playbook_key: String,
}

/// The failure sentence for a source reply body, or `None` when it reads.
pub open spec fn parse_source_err(body: Seq<u8>, parsed: Option<Json>) -> Option<Seq<char>> {
    match parsed {
        None => Some(unreachable()),
        Some(j) => if bool_field(j, "ok"@) != Some(true) {
            Some(library_failure_spec(200, body, parsed))
        } else if str_field(j, "body"@) is None {
            Some(unreachable())
        } else if !(u64_field(j, "version"@) matches Some(v) && v >= 1) {
            Some(unreachable())
        } else {
            None
        },
    }
}

/// Read the reply to `GET /api/desktop/playbooks/{id}/source`.
pub fn parse_source(body: &[u8], parsed: &Option<Json>) -> (r: Result<SourceDetail, String>)
    ensures
        match r {
            Ok(d) => parse_source_err(body@, *parsed) is None && Some(d.document@) == str_field(parsed->0, "body"@)
                && Some(d.version) == u64_field(parsed->0, "version"@) && d.label@ == str_field_or_empty(
                parsed->0,
                "label"@,
            ) && d.playbook_key@ == str_field_or_empty(parsed->0, "playbook_key"@),
            Err(e) => parse_source_err(body@, *parsed) == Some(e@),
        },
{
    let j = match parsed {
        Some(j) => j,
        None => {
            return Err(owned("Could not reach the playbook library."));
        },
    };
    if crate::json::bool_field_exec(j, "ok") != Some(true) {
        return Err(library_failure_message(200, body, parsed));
    }
    let document = match crate::json::str_field_exec(j, "body") {
        Some(d) => d,
        None => {
            return Err(owned("Could not reach the playbook library."));
        },
    };
    let version = match u64_field_exec(j, "version") {
        Some(v) => if v >= 1 {
            v
        } else {
            return Err(owned("Could not reach the playbook library."));
        },
        None => {
            return Err(owned("Could not reach the playbook library."));
        },
    };
    Ok(
        SourceDetail {
            document,
            version,
            label: str_field_or_empty_exec(j, "label"),
            playbook_key: str_field_or_empty_exec(j, "playbook_key"),
        },
    )
}

/// The failure sentence for a source reply, or `None` when it reads.
pub open spec fn source_reply_err(resp: CommunityHttpResponse) -> Option<Seq<char>> {
    if resp.status == 503 || names_service_role(resp.body@) {
        Some(unavailable())
    } else if resp.status == 404 {
        Some(not_found())
    } else if resp.status != 200 {
        Some(library_failure_spec(resp.status, resp.body@, resp.json))
    } else {
        parse_source_err(resp.body@, resp.json)
    }
}

/// Turn an authorized source download's reply into the document.
pub fn source_reply(response: &CommunityHttpResponse) -> (r: Result<SourceDetail, String>)
    ensures
        match r {
            Ok(d) => source_reply_err(*response) is None && Some(d.document@) == str_field(response.json->0, "body"@)
                && Some(d.version) == u64_field(response.json->0, "version"@),
            Err(e) => source_reply_err(*response) == Some(e@),
        },
{
    if response.status == 503 || body_names_service_role(response.body.as_slice()) {
        return Err(owned("Playbook library is unavailable."));
    }
    if response.status == 404 {
        return Err(owned("Playbook not found."));
    }
    if response.status != 200 {
        return Err(library_failure_message(response.status, response.body.as_slice(), &response.json));
    }
    parse_source(response.body.as_slice(), &response.json)
}

} // verus!
