//! The account chip's backend: pairing callbacks, the stored credential, token refresh
//! rules, and the compare-and-mutate that keeps one window from overwriting another's
//! newer session.
//!
//! A credential carries a `session_id` minted at pairing that survives every rotation;
//! a mutation names the session (and, for most, the refresh token) it started from and
//! happens only while that is still what is stored.
use vstd::prelude::*;
use crate::hosted::{paid_plan, paid_stored, paid_from_stored_plan, is_paid_plan, opt_view};
use crate::json::{field, str_of, Json};
use crate::text::{chars_of, is_digit, owned, push_decimal, push_str, str_eq, string_of, trim_end_char, trim_end_char_exec};

verus! {

pub open spec fn default_accounts_url() -> Seq<char> {
    "https://accounts.alinery.ai"@
}

pub open spec fn sign_in_cancelled() -> Seq<char> {
    "Sign-in cancelled"@
}

/// The accounts origin: `ALINERY_ACCOUNTS_URL` without trailing slashes when that is
/// set and not blank, else production.
pub open spec fn accounts_url_spec(env: Option<Seq<char>>) -> Seq<char> {
    match env {
        Some(v) => if trim_end_char(v, '/').len() > 0 {
            trim_end_char(v, '/')
        } else {
            default_accounts_url()
        },
        None => default_accounts_url(),
    }
}

/// The accounts origin for the value of `ALINERY_ACCOUNTS_URL`, if set.
pub fn accounts_url(env: Option<&str>) -> (r: String)
    ensures
        r@ == accounts_url_spec(
            match env {
                Some(v) => Some(v@),
                None => None,
            },
        ),
{
    match env {
        Some(v) => {
            let cv = chars_of(v);
            let t = trim_end_char_exec(&cv, '/');
            if t.len() > 0 {
                string_of(t.as_slice())
            } else {
                owned("https://accounts.alinery.ai")
            }
        },
        None => owned("https://accounts.alinery.ai"),
    }
}

/// Pairing against anything but the production origin uses Stripe test mode.
pub fn production_livemode(accounts_url: &str) -> (r: bool)
    ensures
        r == (accounts_url@ == default_accounts_url()),
{
    str_eq(accounts_url, "https://accounts.alinery.ai")
}

/// The signed-in user, as the pairing service describes it.
pub struct AccountUser {
    pub id: String,
    pub email: Option<String>,
    pub providers: Vec<String>,
}

/// What the credential file holds.
pub struct AccountTokens {
    pub access_token: String,
    pub refresh_token: String,
    pub expires_at: u64,
    pub user: AccountUser,
    pub plan: Option<String>,
    pub paid: bool,
    pub session_id: String,
}

/// What the frontend is told; never a token.
pub struct AccountStatus {
    pub signed_in: bool,
    pub email: Option<String>,
    pub plan: Option<String>,
    pub paid: bool,
    pub unavailable: bool,
}

/// The outcome of signing out.
pub struct AccountSignOutResult {
    pub signed_in: bool,
    pub email: Option<String>,
    pub plan: Option<String>,
    pub paid: bool,
    pub unavailable: bool,
    pub remote_revoked: bool,
}

/// Why the stored credential could not be used.
pub enum AccountAuthError {
    Corrupt(String),
    InvalidRefreshToken(String),
    Transient(String),
}

impl AccountAuthError {
    /// A corrupt file or a refresh token proven dead: the credential is cleared.
    pub fn clears_credential(&self) -> (r: bool)
        ensures
            r == (self is Corrupt || self is InvalidRefreshToken),
    {
        match self {
            AccountAuthError::Corrupt(_) | AccountAuthError::InvalidRefreshToken(_) => true,
            AccountAuthError::Transient(_) => false,
        }
    }

    /// The message the error carries.
    pub fn message(&self) -> (r: String)
        ensures
            match self {
                AccountAuthError::Corrupt(s) => r@ == s@,
                AccountAuthError::InvalidRefreshToken(s) => r@ == s@,
                AccountAuthError::Transient(s) => r@ == s@,
            },
    {
        match self {
            AccountAuthError::Corrupt(s) => owned(s.as_str()),
            AccountAuthError::InvalidRefreshToken(s) => owned(s.as_str()),
            AccountAuthError::Transient(s) => owned(s.as_str()),
        }
    }
}

/// The signed-out status.
pub open spec fn is_signed_out(s: AccountStatus) -> bool {
    !s.signed_in && s.email is None && s.plan is None && !s.paid && !s.unavailable
}

pub fn signed_out_status() -> (r: AccountStatus)
    ensures
        is_signed_out(r),
{
    AccountStatus { signed_in: false, email: None, plan: None, paid: false, unavailable: false }
}

/// The label for a plan id; an unknown id is shown as it is.
pub open spec fn plan_label_spec(plan: Seq<char>) -> Seq<char> {
    if plan == "founders"@ {
        "Founders Edition"@
    } else if plan == "teams"@ {
        "Teams"@
    } else if plan == "free"@ {
        "Free"@
    } else {
        plan
    }
}

pub fn plan_label(plan: &str) -> (r: String)
    ensures
        r@ == plan_label_spec(plan@),
{
    if str_eq(plan, "founders") {
        owned("Founders Edition")
    } else if str_eq(plan, "teams") {
        owned("Teams")
    } else if str_eq(plan, "free") {
        owned("Free")
    } else {
        owned(plan)
    }
}

/// The plan of the first entitlement row, when it is a non-empty string.
pub open spec fn first_plan(rows: Seq<Json>) -> Option<Seq<char>> {
    if rows.len() == 0 {
        None
    } else {
        match str_of(field(rows[0], "plan"@)) {
            Some(p) => if p.len() > 0 {
                Some(p)
            } else {
                None
            },
            None => None,
        }
    }
}

/// The entitlement lookup's answer. `rows` is the body read as a JSON array, or the
/// reader's message when it is not one. `Ok(None)` is a successful answer with no plan.
pub fn parse_entitlement_id(rows: Result<Vec<Json>, String>) -> (r: Result<Option<String>, String>)
    ensures
        match rows {
            Ok(v) => r matches Ok(p) && opt_view(p) == first_plan(v@),
            Err(e) => r matches Err(m) && m@ == "bad entitlement response: "@ + e@,
        },
{
    match rows {
        Err(e) => {
            let mut m = owned("bad entitlement response: ");
            push_str(&mut m, e.as_str());
            Err(m)
        },
        Ok(v) => {
            if v.len() == 0 {
                return Ok(None);
            }
            match v[0].get("plan") {
                Some(p) => match p.as_str() {
                    Some(s) => if s.as_str().unicode_len() > 0 {
                        Ok(Some(owned(s.as_str())))
                    } else {
                        Ok(None)
                    },
                    None => Ok(None),
                },
                None => Ok(None),
            }
        },
    }
}

/// The entitlement lookup's answer as a plan label.
pub fn parse_entitlement_plan(rows: Result<Vec<Json>, String>) -> (r: Result<Option<String>, String>)
    ensures
        match rows {
            Ok(v) => r matches Ok(p) && opt_view(p) == match first_plan(v@) {
                Some(id) => Some(plan_label_spec(id)),
                None => None,
            },
            Err(e) => r matches Err(m) && m@ == "bad entitlement response: "@ + e@,
        },
{
    match parse_entitlement_id(rows) {
        Ok(Some(id)) => Ok(Some(plan_label(id.as_str()))),
        Ok(None) => Ok(None),
        Err(e) => Err(e),
    }
}

/// What the entitlement lookup answered: a status outside 2xx is an error; otherwise the
/// first row's plan as its label, and whether that plan is a paid one.
pub fn account_plan_from_response(status: u16, rows: Result<Vec<Json>, String>) -> (r: Result<
    (Option<String>, bool),
    String,
>)
    ensures
        !(200 <= status < 300) ==> (r matches Err(m) && m@ == "entitlement HTTP "@ + crate::text::decimal(
            status as nat,
        )),
        200 <= status < 300 ==> match rows {
            Ok(v) => r matches Ok((p, paid)) && opt_view(p) == match first_plan(v@) {
                Some(id) => Some(plan_label_spec(id)),
                None => None,
            } && paid == (first_plan(v@) matches Some(id) && paid_plan(id)),
            Err(e) => r matches Err(m) && m@ == "bad entitlement response: "@ + e@,
        },
{
    if !(200 <= status && status < 300) {
        let mut m = owned("entitlement HTTP ");
        push_decimal(&mut m, status as u64, 0);
        return Err(m);
    }
    match parse_entitlement_id(rows) {
        Err(e) => Err(e),
        Ok(None) => Ok((None, false)),
        Ok(Some(id)) => {
            let paid = is_paid_plan(id.as_str());
            Ok((Some(plan_label(id.as_str())), paid))
        },
    }
}

/// The entitlement query: one table serves test and live mode, so it filters on
/// `livemode`.
pub fn entitlement_url(base: &str, livemode: bool) -> (r: String)
    ensures
        r@ == base@ + "/rest/v1/entitlements?select=plan&livemode=eq."@ + (if livemode {
            "true"@
        } else {
            "false"@
        }),
{
    let mut u = owned(base);
    push_str(&mut u, "/rest/v1/entitlements?select=plan&livemode=eq.");
    if livemode {
        push_str(&mut u, "true");
    } else {
        push_str(&mut u, "false");
    }
    u
}

/// The chip's label: the email, or the first provider when there is none.
pub open spec fn display_label_spec(user: AccountUser) -> Seq<char> {
    match user.email {
        Some(e) => e@,
        None => if user.providers@.len() > 0 {
            user.providers@[0]@
        } else {
            seq![]
        },
    }
}

pub fn display_label(user: &AccountUser) -> (r: String)
    ensures
        r@ == display_label_spec(*user),
{
    match &user.email {
        Some(e) => owned(e.as_str()),
        None => if user.providers.len() > 0 {
            owned(user.providers[0].as_str())
        } else {
            String::new()
        },
    }
}

/// The status a stored credential gives, flagged unavailable or not.
pub open spec fn status_of(s: AccountStatus, t: AccountTokens, unavailable: bool) -> bool {
    &&& s.signed_in
    &&& opt_view(s.email) == Some(display_label_spec(t.user))
    &&& opt_view(s.plan) == opt_view(t.plan)
    &&& s.paid == paid_stored(opt_view(t.plan), t.paid)
    &&& s.unavailable == unavailable
}

fn copy_opt(s: &Option<String>) -> (r: Option<String>)
    ensures
        opt_view(r) == opt_view(*s),
{
    match s {
        Some(t) => Some(owned(t.as_str())),
        None => None,
    }
}

fn status_with(tokens: &AccountTokens, unavailable: bool) -> (r: AccountStatus)
    ensures
        status_of(r, *tokens, unavailable),
{
    let plan_ref: Option<&str> = match &tokens.plan {
        Some(p) => Some(p.as_str()),
        None => None,
    };
    AccountStatus {
        signed_in: true,
        email: Some(display_label(&tokens.user)),
        plan: copy_opt(&tokens.plan),
        paid: paid_from_stored_plan(plan_ref, tokens.paid),
        unavailable,
    }
}

/// The status of a usable credential.
pub fn status_for(tokens: &AccountTokens) -> (r: AccountStatus)
    ensures
        status_of(r, *tokens, false),
{
    status_with(tokens, false)
}

/// The status of a credential that could not be refreshed just now.
pub fn status_unavailable(tokens: &AccountTokens) -> (r: AccountStatus)
    ensures
        status_of(r, *tokens, true),
{
    status_with(tokens, true)
}

/// The page the browser shows after the pairing redirect.
pub open spec fn loopback_html_spec(ok: bool) -> Seq<char> {
    let (title, lede) = if ok {
        ("Authorization received"@, "Return to Alinery."@)
    } else {
        ("This link expired"@, "Return to Alinery and try again."@)
    };
    "<!doctype html>\n<html lang=\"en\">\n<head>\n<meta charset=\"utf-8\">\n<meta name=\"viewport\" content=\"width=device-width, initial-scale=1\">\n<title>"@ + title + " · Alinery</title>\n<style>\n:root {\n  --canvas: #000104;\n  --surface: #08090b;\n  --text-strong: #fffefa;\n  --text: #f4f1ea;\n  --muted: #9b9b97;\n  --border: rgb(244 241 234 / 0.12);\n  --font-ui: -apple-system, BlinkMacSystemFont, \"SF Pro Text\", \"Inter\", system-ui, sans-serif;\n}\n@media (prefers-color-scheme: light) {\n  :root {\n    --canvas: #fffefa;\n    --surface: #ffffff;\n    --text-strong: #0a0a0a;\n    --text: #0a0a0a;\n    --muted: #60625e;\n    --border: rgb(10 10 10 / 0.12);\n  }\n}\n* { box-sizing: border-box; }\nhtml, body { margin: 0; min-height: 100%; }\nbody {\n  min-height: 100vh;\n  display: flex;\n  justify-content: center;\n  padding: 32px 16px 64px;\n  background: var(--canvas);\n  color: var(--text);\n  font: 400 14px/1.45 var(--font-ui);\n}\nmain { width: 100%; max-width: 420px; }\n.kicker {\n  margin: 0 0 8px;\n  color: var(--muted);\n  font-size: 12px;\n  font-weight: 500;\n  letter-spacing: 0.02em;\n}\nh1 {\n  margin: 0 0 16px;\n  color: var(--text-strong);\n  font-size: 20px;\n  font-weight: 600;\n  letter-spacing: -0.03em;\n}\n.lede { margin: 0; color: var(--muted); }\n</style>\n</head>\n<body>\n<main>\n<p class=\"kicker\">Alinery</p>\n<h1>"@ + title + "</h1>\n<p class=\"lede\">"@ + lede + "</p>\n</main>\n</body>\n</html>"@
}

pub fn loopback_html(ok: bool) -> (r: String)
    ensures
        r@ == loopback_html_spec(ok),
{
    let (title, lede) = if ok {
        ("Authorization received", "Return to Alinery.")
    } else {
        ("This link expired", "Return to Alinery and try again.")
    };
    let mut out = owned("<!doctype html>\n<html lang=\"en\">\n<head>\n<meta charset=\"utf-8\">\n<meta name=\"viewport\" content=\"width=device-width, initial-scale=1\">\n<title>");
    push_str(&mut out, title);
    push_str(&mut out, " · Alinery</title>\n<style>\n:root {\n  --canvas: #000104;\n  --surface: #08090b;\n  --text-strong: #fffefa;\n  --text: #f4f1ea;\n  --muted: #9b9b97;\n  --border: rgb(244 241 234 / 0.12);\n  --font-ui: -apple-system, BlinkMacSystemFont, \"SF Pro Text\", \"Inter\", system-ui, sans-serif;\n}\n@media (prefers-color-scheme: light) {\n  :root {\n    --canvas: #fffefa;\n    --surface: #ffffff;\n    --text-strong: #0a0a0a;\n    --text: #0a0a0a;\n    --muted: #60625e;\n    --border: rgb(10 10 10 / 0.12);\n  }\n}\n* { box-sizing: border-box; }\nhtml, body { margin: 0; min-height: 100%; }\nbody {\n  min-height: 100vh;\n  display: flex;\n  justify-content: center;\n  padding: 32px 16px 64px;\n  background: var(--canvas);\n  color: var(--text);\n  font: 400 14px/1.45 var(--font-ui);\n}\nmain { width: 100%; max-width: 420px; }\n.kicker {\n  margin: 0 0 8px;\n  color: var(--muted);\n  font-size: 12px;\n  font-weight: 500;\n  letter-spacing: 0.02em;\n}\nh1 {\n  margin: 0 0 16px;\n  color: var(--text-strong);\n  font-size: 20px;\n  font-weight: 600;\n  letter-spacing: -0.03em;\n}\n.lede { margin: 0; color: var(--muted); }\n</style>\n</head>\n<body>\n<main>\n<p class=\"kicker\">Alinery</p>\n<h1>");
    push_str(&mut out, title);
    push_str(&mut out, "</h1>\n<p class=\"lede\">");
    push_str(&mut out, lede);
    push_str(&mut out, "</p>\n</main>\n</body>\n</html>");
    out
}


/// The user block of a token refresh reply.
pub struct GoTrueUser {
    pub id: String,
    pub email: Option<String>,
    pub providers: Vec<String>,
}

/// A token refresh reply; every member is optional.
pub struct GoTrueRefreshResponse {
    pub error: Option<String>,
    pub error_description: Option<String>,
    pub error_code: Option<String>,
    pub msg: Option<String>,
    pub access_token: Option<String>,
    pub refresh_token: Option<String>,
    pub expires_in: Option<u64>,
    pub user: Option<GoTrueUser>,
}

/// The codes that prove this refresh token is dead.
pub open spec fn dead_token_code(code: Seq<char>) -> bool {
    code == "invalid_grant"@ || code == "refresh_token_not_found"@ || code == "refresh_token_already_used"@
        || code == "session_not_found"@
}

pub open spec fn opt_dead(code: Option<String>) -> bool {
    match code {
        Some(c) => dead_token_code(c@),
        None => false,
    }
}

/// When the reply proves the token dead: the first of its description, `msg`, `error`
/// and `error_code` that is present, else a fixed sentence.
pub open spec fn invalid_token_message(v: GoTrueRefreshResponse) -> Option<Seq<char>> {
    if !(opt_dead(v.error) || opt_dead(v.error_code)) {
        None
    } else {
        Some(
            match (v.error_description, v.msg, v.error, v.error_code) {
                (Some(d), _, _, _) => d@,
                (None, Some(m), _, _) => m@,
                (None, None, Some(e), _) => e@,
                (None, None, None, Some(c)) => c@,
                (None, None, None, None) => "invalid refresh token"@,
            },
        )
    }
}

fn dead_code(code: &Option<String>) -> (r: bool)
    ensures
        r == opt_dead(*code),
{
    match code {
        Some(c) => {
            let t = c.as_str();
            str_eq(t, "invalid_grant") || str_eq(t, "refresh_token_not_found") || str_eq(
                t,
                "refresh_token_already_used",
            ) || str_eq(t, "session_not_found")
        },
        None => false,
    }
}

/// The message that proves the token dead, if the reply carries one.
pub fn invalid_refresh_token_message(value: &GoTrueRefreshResponse) -> (r: Option<String>)
    ensures
        opt_view(r) == invalid_token_message(*value),
{
    if !(dead_code(&value.error) || dead_code(&value.error_code)) {
        return None;
    }
    match &value.error_description {
        Some(d) => {
            return Some(owned(d.as_str()));
        },
        None => {},
    }
    match &value.msg {
        Some(m) => {
            return Some(owned(m.as_str()));
        },
        None => {},
    }
    match &value.error {
        Some(e) => {
            return Some(owned(e.as_str()));
        },
        None => {},
    }
    match &value.error_code {
        Some(c) => Some(owned(c.as_str())),
        None => Some(owned("invalid refresh token")),
    }
}

/// How a refresh reply is classified: a dead token first, then the HTTP status, then a
/// reply that lacks an access token. `parsed` is `None` when the body did not read.
pub open spec fn classify_ok(
    r: Result<GoTrueRefreshResponse, AccountAuthError>,
    status: u16,
    parsed: Option<GoTrueRefreshResponse>,
) -> bool {
    if parsed is Some && invalid_token_message(parsed->0) is Some {
        r matches Err(AccountAuthError::InvalidRefreshToken(m)) && m@ == invalid_token_message(parsed->0)->0
    } else if !(200 <= status && status < 300) {
        r matches Err(AccountAuthError::Transient(m)) && m@ == "refresh HTTP "@ + crate::text::decimal(status as nat)
    } else if parsed is None {
        r matches Err(AccountAuthError::Transient(m)) && m@ == "bad refresh response"@
    } else if match parsed->0.access_token {
        Some(t) => t@.len() == 0,
        None => true,
    } {
        r matches Err(AccountAuthError::Transient(m)) && m@ == "refresh response is missing access_token"@
    } else {
        r == Ok::<GoTrueRefreshResponse, AccountAuthError>(parsed->0)
    }
}

pub fn classify_refresh_response(status: u16, parsed: Option<GoTrueRefreshResponse>) -> (r: Result<
    GoTrueRefreshResponse,
    AccountAuthError,
>)
    ensures
        classify_ok(r, status, parsed),
{
    match &parsed {
        Some(v) => match invalid_refresh_token_message(v) {
            Some(m) => {
                return Err(AccountAuthError::InvalidRefreshToken(m));
            },
            None => {},
        },
        None => {},
    }
    if !(200 <= status && status < 300) {
        let mut m = owned("refresh HTTP ");
        push_decimal(&mut m, status as u64, 0);
        proof {
            assert(crate::text::dec_padded(status as nat, 0) == crate::text::decimal(status as nat));
        }
        return Err(AccountAuthError::Transient(m));
    }
    let value = match parsed {
        Some(v) => v,
        None => {
            return Err(AccountAuthError::Transient(owned("bad refresh response")));
        },
    };
    let missing = match &value.access_token {
        Some(t) => t.as_str().unicode_len() == 0,
        None => true,
    };
    if missing {
        return Err(AccountAuthError::Transient(owned("refresh response is missing access_token")));
    }
    Ok(value)
}

/// The credential after a refresh: the new access token, the new refresh token unless
/// it is missing or blank, an expiry `expires_in` (default an hour) from now, the new
/// user if one came back, and the same plan, paid flag and session.
pub open spec fn refreshed_from(out: AccountTokens, v: GoTrueRefreshResponse, t: AccountTokens, now: u64) -> bool {
    &&& out.access_token@ == match v.access_token {
        Some(a) => a@,
        None => seq![],
    }
    &&& out.refresh_token@ == match v.refresh_token {
        Some(r) => if r@.len() > 0 {
            r@
        } else {
            t.refresh_token@
        },
        None => t.refresh_token@,
    }
    &&& out.expires_at == if now + match v.expires_in {
        Some(n) => n,
        None => 3600u64,
    } > u64::MAX {
        u64::MAX
    } else {
        (now + match v.expires_in {
            Some(n) => n,
            None => 3600u64,
        }) as u64
    }
    &&& match v.user {
        Some(u) => out.user.id == u.id && out.user.email == u.email && out.user.providers == u.providers,
        None => out.user.id@ == t.user.id@ && opt_view(out.user.email) == opt_view(t.user.email)
            && crate::app_config::views(out.user.providers@) == crate::app_config::views(t.user.providers@),
    }
    &&& opt_view(out.plan) == opt_view(t.plan)
    &&& out.paid == t.paid
    &&& out.session_id@ == t.session_id@
}

fn copy_strings(v: &Vec<String>) -> (r: Vec<String>)
    ensures
        crate::app_config::views(r@) == crate::app_config::views(v@),
{
    let mut out: Vec<String> = Vec::new();
    let mut i: usize = 0;
    while i < v.len()
        invariant
            i <= v@.len(),
            out@.len() == i,
            forall|k: int| 0 <= k < i ==> (#[trigger] out@[k])@ == v@[k]@,
        decreases v@.len() - i,
    {
        out.push(owned(v[i].as_str()));
        i = i + 1;
    }
    assert(crate::app_config::views(out@) =~= crate::app_config::views(v@));
    out
}

/// A copy of `user`.
pub fn copy_user(user: &AccountUser) -> (r: AccountUser)
    ensures
        r.id@ == user.id@,
        opt_view(r.email) == opt_view(user.email),
        crate::app_config::views(r.providers@) == crate::app_config::views(user.providers@),
{
    AccountUser { id: owned(user.id.as_str()), email: copy_opt(&user.email), providers: copy_strings(&user.providers) }
}

/// Rotate `tokens` with a refresh reply received at `now_secs`.
pub fn tokens_from_refresh(value: GoTrueRefreshResponse, tokens: &AccountTokens, now_secs: u64) -> (r: AccountTokens)
    ensures
        refreshed_from(r, value, *tokens, now_secs),
{
    let ghost v = value;
    let access_token = match value.access_token {
        Some(a) => a,
        None => String::new(),
    };
    let refresh_token = match value.refresh_token {
        Some(r) => if r.as_str().unicode_len() > 0 {
            r
        } else {
            owned(tokens.refresh_token.as_str())
        },
        None => owned(tokens.refresh_token.as_str()),
    };
    let expires_in = match value.expires_in {
        Some(n) => n,
        None => 3600,
    };
    let expires_at = now_secs.saturating_add(expires_in);
    let user = match value.user {
        Some(u) => AccountUser { id: u.id, email: u.email, providers: u.providers },
        None => copy_user(&tokens.user),
    };
    AccountTokens {
        access_token,
        refresh_token,
        expires_at,
        user,
        plan: copy_opt(&tokens.plan),
        paid: tokens.paid,
        session_id: owned(tokens.session_id.as_str()),
    }
}

/// The pairing service's answer to a code exchange; every member but `ok` may be absent.
pub struct PairingExchange {
    pub ok: bool,
    pub error: Option<String>,
    pub access_token: Option<String>,
    pub refresh_token: Option<String>,
    pub expires_at: Option<u64>,
    pub user: Option<AccountUser>,
}

/// A string member that is present and not empty.
pub open spec fn nonempty(o: Option<String>) -> Option<Seq<char>> {
    match o {
        Some(s) => if s@.len() > 0 {
            Some(s@)
        } else {
            None
        },
        None => None,
    }
}

/// Why an exchange answer yields no credential, checked in this order; `None` when it
/// yields one.
pub open spec fn exchange_error(v: PairingExchange) -> Option<Seq<char>> {
    if !v.ok {
        Some(
            match v.error {
                Some(e) => e@,
                None => "This pairing code is invalid or expired."@,
            },
        )
    } else if nonempty(v.access_token) is None {
        Some("pairing exchange response is missing access_token"@)
    } else if nonempty(v.refresh_token) is None {
        Some("pairing exchange response is missing refresh_token"@)
    } else if v.expires_at is None {
        Some("pairing exchange response is missing expires_at"@)
    } else if v.user is None {
        Some("pairing exchange response is missing user"@)
    } else {
        None
    }
}

/// A session id as minted at pairing: 32 lowercase hex digits.
pub open spec fn is_session_id(s: Seq<char>) -> bool {
    s.len() == 32 && forall|i: int| 0 <= i < 32 ==> is_digit(#[trigger] s[i]) || ('a' <= s[i] && s[i] <= 'f')
}

/// `uuid::Uuid::new_v4().simple().to_string()`: a random version-4 UUID written as 32
/// lowercase hex digits. Which digits come out is left unsaid; the call panics only when
/// the operating system cannot supply random bytes.
#[verifier::external_body]
fn new_session_id() -> (r: String)
    ensures
        is_session_id(r@),
{
    uuid::Uuid::new_v4().simple().to_string()
}

/// The credential a pairing exchange yields: its tokens and user, no plan yet, and a new
/// session id that every later rotation keeps.
pub fn pairing_tokens(value: PairingExchange) -> (r: Result<AccountTokens, String>)
    ensures
        match exchange_error(value) {
            Some(m) => r matches Err(e) && e@ == m,
            None => r matches Ok(t) && Some(t.access_token@) == nonempty(value.access_token) && Some(t.refresh_token@)
                == nonempty(value.refresh_token) && Some(t.expires_at) == value.expires_at && Some(t.user)
                == value.user && t.plan is None && !t.paid && is_session_id(t.session_id@),
        },
{
    if !value.ok {
        return match value.error {
            Some(e) => Err(e),
            None => Err(owned("This pairing code is invalid or expired.")),
        };
    }
    let access_token = match value.access_token {
        Some(a) => if a.as_str().unicode_len() > 0 {
            a
        } else {
            return Err(owned("pairing exchange response is missing access_token"));
        },
        None => {
            return Err(owned("pairing exchange response is missing access_token"));
        },
    };
    let refresh_token = match value.refresh_token {
        Some(t) => if t.as_str().unicode_len() > 0 {
            t
        } else {
            return Err(owned("pairing exchange response is missing refresh_token"));
        },
        None => {
            return Err(owned("pairing exchange response is missing refresh_token"));
        },
    };
    let expires_at = match value.expires_at {
        Some(e) => e,
        None => {
            return Err(owned("pairing exchange response is missing expires_at"));
        },
    };
    let user = match value.user {
        Some(u) => u,
        None => {
            return Err(owned("pairing exchange response is missing user"));
        },
    };
    let session_id = new_session_id();
    Ok(AccountTokens { access_token, refresh_token, expires_at, user, plan: None, paid: false, session_id })
}

/// The exchange request's body: `{"code": .., "nonce": ..}`.
pub open spec fn exchange_body(code: Seq<char>, nonce: Seq<char>) -> Seq<char> {
    "{\"code\":"@ + crate::json::json_quoted(code) + ",\"nonce\":"@ + crate::json::json_quoted(nonce) + "}"@
}

/// The body that trades a pairing code for a credential; see [`exchange_body`].
pub fn pairing_exchange_body(code: &str, nonce: &str) -> (r: String)
    ensures
        r@ == exchange_body(code@, nonce@),
{
    let mut b = owned("{\"code\":");
    let c = crate::json::json_string(code);
    push_str(&mut b, c.as_str());
    push_str(&mut b, ",\"nonce\":");
    let n = crate::json::json_string(nonce);
    push_str(&mut b, n.as_str());
    push_str(&mut b, "}");
    b
}

/// The auth service every environment uses.
pub open spec fn supabase_url_spec() -> Seq<char> {
    "https://cppinfludeyomoyinrkl.supabase.co"@
}

/// The auth service's publishable key; it names the project, it grants nothing.
pub open spec fn publishable_key_spec() -> Seq<char> {
    "sb_publishable_BJ356xdHfbL0B0BeHfqf7A_QBDFiAto"@
}

pub fn supabase_url() -> (r: &'static str)
    ensures
        r@ == supabase_url_spec(),
{
    "https://cppinfludeyomoyinrkl.supabase.co"
}

/// The token endpoint's URL for a rotation.
pub fn refresh_url(base: &str) -> (r: String)
    ensures
        r@ == base@ + "/auth/v1/token?grant_type=refresh_token"@,
{
    let mut u = owned(base);
    push_str(&mut u, "/auth/v1/token?grant_type=refresh_token");
    u
}

/// A refresh is sent with the publishable key as both key and bearer.
pub fn refresh_headers() -> (r: Vec<String>)
    ensures
        r@.len() == 3,
        r@[0]@ == "apikey: "@ + publishable_key_spec(),
        r@[1]@ == "Authorization: Bearer "@ + publishable_key_spec(),
        r@[2]@ == "Content-Type: application/json"@,
{
    let mut v: Vec<String> = Vec::new();
    let mut a = owned("apikey: ");
    push_str(&mut a, "sb_publishable_BJ356xdHfbL0B0BeHfqf7A_QBDFiAto");
    v.push(a);
    let mut b = owned("Authorization: Bearer ");
    push_str(&mut b, "sb_publishable_BJ356xdHfbL0B0BeHfqf7A_QBDFiAto");
    v.push(b);
    v.push(owned("Content-Type: application/json"));
    v
}

/// An entitlement lookup is sent with the publishable key and the user's access token.
pub fn entitlement_headers(access_token: &str) -> (r: Vec<String>)
    ensures
        r@.len() == 3,
        r@[0]@ == "apikey: "@ + publishable_key_spec(),
        r@[1]@ == "Authorization: Bearer "@ + access_token@,
        r@[2]@ == "Accept: application/json"@,
{
    let mut v: Vec<String> = Vec::new();
    let mut a = owned("apikey: ");
    push_str(&mut a, "sb_publishable_BJ356xdHfbL0B0BeHfqf7A_QBDFiAto");
    v.push(a);
    let mut b = owned("Authorization: Bearer ");
    push_str(&mut b, access_token);
    v.push(b);
    v.push(owned("Accept: application/json"));
    v
}

/// The endpoint that ends the server session of an access token.
pub fn logout_url(base: &str) -> (r: String)
    ensures
        r@ == base@ + "/auth/v1/logout"@,
{
    let mut u = owned(base);
    push_str(&mut u, "/auth/v1/logout");
    u
}

/// A logout is sent with the publishable key and the session's access token.
pub fn logout_headers(access_token: &str) -> (r: Vec<String>)
    ensures
        r@.len() == 2,
        r@[0]@ == "apikey: "@ + publishable_key_spec(),
        r@[1]@ == "Authorization: Bearer "@ + access_token@,
{
    let mut v: Vec<String> = Vec::new();
    let mut a = owned("apikey: ");
    push_str(&mut a, "sb_publishable_BJ356xdHfbL0B0BeHfqf7A_QBDFiAto");
    v.push(a);
    let mut b = owned("Authorization: Bearer ");
    push_str(&mut b, access_token);
    v.push(b);
    v
}

/// Whether the logout request reached the service and was accepted: a 2xx answer.
pub fn logout_accepted(status: Result<u16, String>) -> (r: bool)
    ensures
        r == (status matches Ok(code) && 200 <= code < 300),
{
    match status {
        Ok(code) => 200 <= code && code < 300,
        Err(_) => false,
    }
}

/// The refresh request's body: `{"refresh_token": ..}`.
pub open spec fn refresh_body(refresh_token: Seq<char>) -> Seq<char> {
    "{\"refresh_token\":"@ + crate::json::json_quoted(refresh_token) + "}"@
}

/// The body that asks for a rotation of `tokens`; see [`refresh_body`].
pub fn refresh_request_body(tokens: &AccountTokens) -> (r: String)
    ensures
        r@ == refresh_body(tokens.refresh_token@),
{
    let mut b = owned("{\"refresh_token\":");
    let t = crate::json::json_string(tokens.refresh_token.as_str());
    push_str(&mut b, t.as_str());
    push_str(&mut b, "}");
    b
}

/// What a compare-and-mutate must still find stored: the session, or the session at one
/// refresh token.
pub enum Expect {
    Session(String),
    Generation { session: String, refresh: String },
}

pub open spec fn expect_matches(e: Expect, current: AccountTokens) -> bool {
    match e {
        Expect::Session(s) => current.session_id@ == s@,
        Expect::Generation { session, refresh } => current.session_id@ == session@ && current.refresh_token@
            == refresh@,
    }
}

impl Expect {
    pub fn matches(&self, current: &AccountTokens) -> (r: bool)
        ensures
            r == expect_matches(*self, *current),
    {
        match self {
            Expect::Session(session) => str_eq(current.session_id.as_str(), session.as_str()),
            Expect::Generation { session, refresh } => str_eq(current.session_id.as_str(), session.as_str())
                && str_eq(current.refresh_token.as_str(), refresh.as_str()),
        }
    }
}

/// The generation a request started from.
pub fn generation_of(tokens: &AccountTokens) -> (r: Expect)
    ensures
        r matches Expect::Generation { session, refresh } && session@ == tokens.session_id@ && refresh@
            == tokens.refresh_token@,
{
    Expect::Generation { session: owned(tokens.session_id.as_str()), refresh: owned(tokens.refresh_token.as_str()) }
}

/// What is stored, when it is still what `expect` names. `loaded` is the read of the
/// credential file.
pub open spec fn current_spec(loaded: Result<Option<AccountTokens>, AccountAuthError>, expect: Expect) -> Option<
    AccountTokens,
> {
    match loaded {
        Ok(Some(current)) => if expect_matches(expect, current) {
            Some(current)
        } else {
            None
        },
        _ => None,
    }
}

pub fn current_if(loaded: Result<Option<AccountTokens>, AccountAuthError>, expect: &Expect) -> (r: Option<AccountTokens>)
    ensures
        r == current_spec(loaded, *expect),
{
    match loaded {
        Ok(Some(current)) => if expect.matches(&current) {
            Some(current)
        } else {
            None
        },
        _ => None,
    }
}

/// Compare, then mutate: `op` gets the stored credential only while it is still the one
/// `expect` names; otherwise `op` is not run, it is handed back unused, and the answer is
/// `Ok(None)`.
pub fn mutate_if_current<T, F: FnOnce(AccountTokens) -> Result<T, String>>(
    loaded: Result<Option<AccountTokens>, AccountAuthError>,
    expect: &Expect,
    op: F,
) -> (r: (Result<Option<T>, String>, Option<F>))
    requires
        forall|t: AccountTokens| op.requires((t,)),
    ensures
        current_spec(loaded, *expect) is None ==> r.0 == Ok::<Option<T>, String>(None) && r.1 == Some(op),
        current_spec(loaded, *expect) matches Some(c) ==> r.1 is None && match r.0 {
            Ok(Some(v)) => op.ensures((c,), Ok::<T, String>(v)),
            Err(e) => op.ensures((c,), Err::<T, String>(e)),
            Ok(None) => false,
        },
{
    match current_if(loaded, expect) {
        None => (Ok(None), Some(op)),
        Some(current) => match op(current) {
            Ok(v) => (Ok(Some(v)), None),
            Err(e) => (Err(e), None),
        },
    }
}

/// One in-flight pairing: cancelled by the user, or committed once its credential is
/// stored.
pub struct SignInAttempt {
    pub cancelled: bool,
    pub committed: bool,
}

/// A pairing is never both cancelled and committed.
pub open spec fn attempt_ok(a: SignInAttempt) -> bool {
    !(a.cancelled && a.committed)
}

impl SignInAttempt {
    pub fn fresh() -> (r: Self)
        ensures
            !r.cancelled && !r.committed,
    {
        SignInAttempt { cancelled: false, committed: false }
    }

    /// An attempt already cancelled.
    pub fn cancelled() -> (r: Self)
        ensures
            r.cancelled && !r.committed,
    {
        let mut a = Self::fresh();
        a.cancel();
        a
    }

    pub fn cancel(&mut self)
        ensures
            final(self).cancelled,
            final(self).committed == old(self).committed,
    {
        self.cancelled = true;
    }

    pub fn is_cancelled(&self) -> (r: bool)
        ensures
            r == self.cancelled,
    {
        self.cancelled
    }
}

/// Register a new pairing. Refused while another is live: neither cancelled nor
/// committed.
pub fn begin_sign_in_attempt(slot: &mut Option<SignInAttempt>) -> (r: Result<(), String>)
    ensures
        (*old(slot) matches Some(a) && !a.cancelled && !a.committed) ==> (r matches Err(e) && e@
            == "Sign-in already in progress"@ && *final(slot) == *old(slot)),
        !(*old(slot) matches Some(a) && !a.cancelled && !a.committed) ==> (r is Ok && (*final(slot) matches Some(
            a,
        ) && !a.cancelled && !a.committed)),
{
    let live = match slot {
        Some(a) => !a.cancelled && !a.committed,
        None => false,
    };
    if live {
        return Err(owned("Sign-in already in progress"));
    }
    *slot = Some(SignInAttempt::fresh());
    Ok(())
}

/// Unregister whatever pairing the slot holds.
pub fn end_sign_in_attempt(slot: &mut Option<SignInAttempt>)
    ensures
        *final(slot) is None,
{
    *slot = None;
}

/// Cancel a pairing, unless its credential is already stored.
pub fn mark_sign_in_cancelled(attempt: &mut SignInAttempt) -> (r: Result<(), String>)
    ensures
        old(attempt).committed ==> (r matches Err(e) && e@ == "Sign-in already completed"@ && *final(attempt)
            == *old(attempt)),
        !old(attempt).committed ==> (r is Ok && final(attempt).cancelled && !final(attempt).committed),
        attempt_ok(*old(attempt)) ==> attempt_ok(*final(attempt)),
{
    if attempt.committed {
        return Err(owned("Sign-in already completed"));
    }
    attempt.cancelled = true;
    Ok(())
}

/// Store a pairing's credential with `save`, unless the pairing was cancelled: then `save`
/// is not run and is handed back unused. A stored credential commits the attempt; cancel
/// and commit are never both true.
pub fn save_unless_cancelled<F: FnOnce() -> Result<(), String>>(attempt: &mut SignInAttempt, save: F) -> (r: (
    Result<(), String>,
    Option<F>,
))
    requires
        save.requires(()),
    ensures
        old(attempt).cancelled ==> (r.0 matches Err(e) && e@ == sign_in_cancelled() && *final(attempt) == *old(
            attempt,
        ) && r.1 == Some(save)),
        !old(attempt).cancelled ==> r.1 is None && save.ensures((), r.0) && final(attempt).cancelled == old(
            attempt,
        ).cancelled && final(attempt).committed == (old(attempt).committed || r.0 is Ok),
        attempt_ok(*old(attempt)) ==> attempt_ok(*final(attempt)),
{
    if attempt.cancelled {
        return (Err(owned("Sign-in cancelled")), Some(save));
    }
    let res = save();
    if res.is_ok() {
        attempt.committed = true;
    }
    (res, None)
}

/// The result of a sign-out that left nothing stored.
pub fn signed_out_result(remote_revoked: bool) -> (r: AccountSignOutResult)
    ensures
        !r.signed_in && r.email is None && r.plan is None && !r.paid && !r.unavailable && r.remote_revoked
            == remote_revoked,
{
    AccountSignOutResult { signed_in: false, email: None, plan: None, paid: false, unavailable: false, remote_revoked }
}

/// Reported when the local credential could not be removed.
pub fn local_clear_failed(error: String) -> (r: String)
    ensures
        r@ == "could not remove this device's credential: "@ + error@,
{
    let mut m = owned("could not remove this device's credential: ");
    push_str(&mut m, error.as_str());
    m
}

/// A sign-out that found a newer pairing in place reports that session.
pub fn sign_out_status_for_remaining(status: AccountStatus, remote_revoked: bool) -> (r: AccountSignOutResult)
    ensures
        r.signed_in == status.signed_in && r.email == status.email && r.plan == status.plan && r.paid == status.paid
            && r.unavailable == status.unavailable && r.remote_revoked == remote_revoked,
{
    AccountSignOutResult {
        signed_in: status.signed_in,
        email: status.email,
        plan: status.plan,
        paid: status.paid,
        unavailable: status.unavailable,
        remote_revoked,
    }
}

// ---- waiting for the pairing callback ---------------------------------------------

/// Before each look at the loopback listener: a cancelled sign-in stops the wait, then a
/// passed deadline does; `None` to keep waiting.
pub fn callback_wait_check(cancelled: bool, now_ms: u64, deadline_ms: u64) -> (r: Option<String>)
    ensures
        cancelled ==> (r matches Some(e) && e@ == sign_in_cancelled()),
        !cancelled && now_ms >= deadline_ms ==> (r matches Some(e) && e@ == "Sign-in timed out"@),
        !cancelled && now_ms < deadline_ms ==> r is None,
{
    if cancelled {
        return Some(owned("Sign-in cancelled"));
    }
    if now_ms >= deadline_ms {
        return Some(owned("Sign-in timed out"));
    }
    None
}

/// What one look at the loopback listener found.
pub enum CallbackSeen {
    /// No connection is waiting.
    Idle,
    /// The listener failed.
    AcceptError(String),
    /// A connection, accepted at `now_ms`: its request line, or `None` when none could be
    /// read.
    Request { line: Option<String>, now_ms: u64 },
}

/// What to do about it.
pub enum CallbackStep {
    /// Stop waiting with this error.
    Fail(String),
    /// Wait a moment and look again.
    Poll,
    /// Answer the connection with the success page or the failure page; `code` ends the
    /// wait with the pairing code, `None` keeps waiting.
    Answer { page_ok: bool, code: Option<String> },
}

/// What a look at the listener leads to: a connection accepted after the deadline ends
/// the wait; an unreadable request gets the failure page; a request that is this
/// sign-in's own callback (its nonce is `expected_nonce`) gets the success page and ends
/// the wait with its code; any other request gets the failure page and is ignored.
pub fn callback_wait_step(seen: CallbackSeen, deadline_ms: u64, expected_nonce: &str) -> (r: CallbackStep)
    ensures
        match seen {
            CallbackSeen::Idle => r is Poll,
            CallbackSeen::AcceptError(e) => r matches CallbackStep::Fail(m) && m@ == "receive pairing callback: "@ + e@,
            CallbackSeen::Request { line, now_ms } => if now_ms >= deadline_ms {
                r matches CallbackStep::Fail(m) && m@ == "Sign-in timed out"@
            } else {
                match line {
                    None => r matches CallbackStep::Answer { page_ok: false, code: None },
                    Some(l) => match crate::callback::desktop_login_callback_spec(l@) {
                        Ok((code, nonce)) => if nonce == expected_nonce@ {
                            r matches CallbackStep::Answer { page_ok: true, code: Some(c) } && c@ == code
                        } else {
                            r matches CallbackStep::Answer { page_ok: false, code: None }
                        },
                        Err(_) => r matches CallbackStep::Answer { page_ok: false, code: None },
                    },
                }
            },
        },
{
    match seen {
        CallbackSeen::Idle => CallbackStep::Poll,
        CallbackSeen::AcceptError(e) => {
            let mut m = owned("receive pairing callback: ");
            push_str(&mut m, e.as_str());
            CallbackStep::Fail(m)
        },
        CallbackSeen::Request { line, now_ms } => {
            if now_ms >= deadline_ms {
                return CallbackStep::Fail(owned("Sign-in timed out"));
            }
            match line {
                None => CallbackStep::Answer { page_ok: false, code: None },
                Some(l) => match crate::callback::parse_desktop_login_callback(l.as_str()) {
                    Ok((code, nonce)) => if str_eq(nonce.as_str(), expected_nonce) {
                        CallbackStep::Answer { page_ok: true, code: Some(code) }
                    } else {
                        CallbackStep::Answer { page_ok: false, code: None }
                    },
                    Err(_) => CallbackStep::Answer { page_ok: false, code: None },
                },
            }
        },
    }
}

} // verus!
