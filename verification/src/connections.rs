//! The GitHub and Linear connection rows, the curl transport's framing, and Linear's
//! OAuth token replies.
use vstd::prelude::*;
use vstd::utf8::*;
use crate::codec::string_from_utf8;
use crate::json::{bool_field, field, str_field, str_of, u64_field, Json};
use crate::text::{
    all_digits, chars_of, is_digit, owned, replace_char, replace_char_exec, str_eq, string_of, trim, trim_chars,
};

verus! {

broadcast use vstd::seq_lib::group_seq_properties;

/// One row of the connections list.
pub struct ConnectionStatus {
    pub provider: String,
    pub name: String,
    pub kind: String,
    pub connected: bool,
    pub reconnect: bool,
    pub available: bool,
    /// Whether this app owns a credential it can remove.
    pub removable: bool,
    pub account: String,
    pub detail: String,
}

/// Why the stored Linear credential could not be used.
pub enum LinearTokenError {
    Corrupt(String),
    Transient(String),
}

impl LinearTokenError {
    /// Only a credential that will not parse is dead until the user reconnects; its
    /// account label is cleared so the row offers Reconnect.
    pub fn clears_account_label(&self) -> (r: bool)
        ensures
            r == (self is Corrupt),
    {
        match self {
            LinearTokenError::Corrupt(_) => true,
            LinearTokenError::Transient(_) => false,
        }
    }

    pub fn reason(&self) -> (r: &str)
        ensures
            match self {
                LinearTokenError::Corrupt(s) => r@ == s@,
                LinearTokenError::Transient(s) => r@ == s@,
            },
    {
        match self {
            LinearTokenError::Corrupt(reason) => reason.as_str(),
            LinearTokenError::Transient(reason) => reason.as_str(),
        }
    }
}

/// The Linear row. `available` is whether an OAuth client id is configured; `present`
/// whether a token is stored (or why that could not be told); `account` the stored
/// label, trimmed.
pub open spec fn linear_row_ok(r: ConnectionStatus, available: bool, present: Result<bool, String>, account: Seq<char>) -> bool {
    &&& r.provider@ == "linear"@
    &&& r.name@ == "Linear"@
    &&& match present {
        Ok(true) => {
            &&& r.kind@ == "Web"@
            &&& r.connected
            &&& r.reconnect == (account.len() == 0)
            &&& r.available
            &&& r.removable
            &&& r.account@ == account
            &&& r.detail@ == if account.len() == 0 {
                "Connected — reconnect to show your account"@
            } else {
                "Connected"@
            }
        },
        Ok(false) => {
            &&& r.kind@ == if available {
                "Web"@
            } else {
                "Unavailable"@
            }
            &&& !r.connected && !r.reconnect && !r.removable
            &&& r.available == available
            &&& r.account@ == Seq::<char>::empty()
            &&& r.detail@ == if available {
                "Not connected"@
            } else {
                "OAuth is unavailable on this platform"@
            }
        },
        Err(e) => {
            &&& r.kind@ == if available {
                "Web"@
            } else {
                "Unavailable"@
            }
            &&& !r.connected && !r.removable
            &&& r.reconnect == available
            &&& r.available == available
            &&& r.account@ == Seq::<char>::empty()
            &&& r.detail@ == if available {
                e@
            } else {
                "OAuth is unavailable on this platform"@
            }
        },
    }
}

fn web_or_unavailable(available: bool) -> (r: String)
    ensures
        r@ == if available {
            "Web"@
        } else {
            "Unavailable"@
        },
{
    if available {
        owned("Web")
    } else {
        owned("Unavailable")
    }
}

/// The Linear row of the connections list.
pub fn linear_connection_status(available: bool, present: Result<bool, String>, account: String) -> (r: ConnectionStatus)
    ensures
        linear_row_ok(r, available, present, account@),
{
    match present {
        Ok(true) => {
            let unlabelled = account.as_str().unicode_len() == 0;
            let detail = if unlabelled {
                owned("Connected — reconnect to show your account")
            } else {
                owned("Connected")
            };
            ConnectionStatus {
                provider: owned("linear"),
                name: owned("Linear"),
                kind: owned("Web"),
                connected: true,
                reconnect: unlabelled,
                available: true,
                removable: true,
                account,
                detail,
            }
        },
        Ok(false) => ConnectionStatus {
            provider: owned("linear"),
            name: owned("Linear"),
            kind: web_or_unavailable(available),
            connected: false,
            reconnect: false,
            available,
            removable: false,
            account: String::new(),
            detail: if available {
                owned("Not connected")
            } else {
                owned("OAuth is unavailable on this platform")
            },
        },
        Err(error) => ConnectionStatus {
            provider: owned("linear"),
            name: owned("Linear"),
            kind: web_or_unavailable(available),
            connected: false,
            reconnect: available,
            available,
            removable: false,
            account: String::new(),
            detail: if available {
                error
            } else {
                owned("OAuth is unavailable on this platform")
            },
        },
    }
}

/// The first account of `accounts` whose `active` is `true`.
pub open spec fn first_active(accounts: Seq<Json>) -> Option<Json>
    decreases accounts.len(),
{
    if accounts.len() == 0 {
        None
    } else if bool_field(accounts[0], "active"@) == Some(true) {
        Some(accounts[0])
    } else {
        first_active(accounts.drop_first())
    }
}

/// The active github.com account in `gh auth status --json hosts` output.
pub open spec fn active_account(value: Json) -> Option<Json> {
    match field(value, "hosts"@) {
        Some(hosts) => match field(hosts, "github.com"@) {
            Some(Json::Array(accounts)) => first_active(accounts@),
            _ => None,
        },
        None => None,
    }
}

/// The GitHub row. `installed` is whether the CLI ran; `value` its output read as JSON
/// (`None` when it was not JSON).
pub open spec fn github_row_ok(r: ConnectionStatus, installed: bool, value: Option<Json>) -> bool {
    &&& r.provider@ == "github"@
    &&& r.name@ == "GitHub"@
    &&& r.kind@ == "Web"@
    &&& !r.removable
    &&& if !installed {
        !r.connected && !r.reconnect && !r.available && r.account@ == Seq::<char>::empty() && r.detail@
            == "GitHub CLI is not installed"@
    } else {
        let active = match value {
            Some(v) => active_account(v),
            None => None,
        };
        let connected = match active {
            Some(a) => str_field(a, "state"@) == Some("success"@),
            None => false,
        };
        &&& r.connected == connected
        &&& r.reconnect == (active is Some && !connected)
        &&& r.available
        &&& r.account@ == match active {
            Some(a) => match str_field(a, "login"@) {
                Some(l) => l,
                None => seq![],
            },
            None => seq![],
        }
        &&& r.detail@ == if connected {
            "Connected"@
        } else {
            "Not connected"@
        }
    }
}

fn active_account_exec(value: &Json) -> (r: Option<&Json>)
    ensures
        match r {
            Some(a) => active_account(*value) == Some(*a),
            None => active_account(*value) is None,
        },
{
    let hosts = match value.get("hosts") {
        Some(h) => h,
        None => {
            return None;
        },
    };
    let accounts = match hosts.get("github.com") {
        Some(Json::Array(a)) => a,
        _ => {
            return None;
        },
    };
    let mut i: usize = 0;
    assert(accounts@.skip(0) =~= accounts@);
    while i < accounts.len()
        invariant
            active_account(*value) == first_active(accounts@.skip(i as int)),
            i <= accounts@.len(),
        decreases accounts@.len() - i,
    {
        let ghost rest = accounts@.skip(i as int);
        assert(rest[0] == accounts@[i as int]);
        assert(rest.drop_first() =~= accounts@.skip(i + 1));
        if crate::json::bool_field_exec(&accounts[i], "active") == Some(true) {
            return Some(&accounts[i]);
        }
        i = i + 1;
    }
    None
}

/// The GitHub row of the connections list, from what `gh auth status` printed.
pub fn github_connection_status(installed: bool, value: &Option<Json>) -> (r: ConnectionStatus)
    ensures
        github_row_ok(r, installed, *value),
{
    if !installed {
        return ConnectionStatus {
            provider: owned("github"),
            name: owned("GitHub"),
            kind: owned("Web"),
            connected: false,
            reconnect: false,
            available: false,
            removable: false,
            account: String::new(),
            detail: owned("GitHub CLI is not installed"),
        };
    }
    let active = match value {
        Some(v) => active_account_exec(v),
        None => None,
    };
    let connected = match active {
        Some(a) => match crate::json::str_field_exec(a, "state") {
            Some(s) => str_eq(s.as_str(), "success"),
            None => false,
        },
        None => false,
    };
    let account = match active {
        Some(a) => match crate::json::str_field_exec(a, "login") {
            Some(l) => l,
            None => String::new(),
        },
        None => String::new(),
    };
    ConnectionStatus {
        provider: owned("github"),
        name: owned("GitHub"),
        kind: owned("Web"),
        connected,
        reconnect: active.is_some() && !connected,
        available: true,
        removable: false,
        detail: if connected {
            owned("Connected")
        } else {
            owned("Not connected")
        },
        account,
    }
}

/// A value quoted for a curl config file: backslash, double quote, newline and carriage
/// return escaped, in that order.
pub open spec fn curl_quoted(s: Seq<char>) -> Seq<char> {
    replace_char(
        replace_char(replace_char(replace_char(s, '\\', "\\\\"@), '"', "\\\""@), '\n', "\\n"@),
        '\r',
        "\\r"@,
    )
}

pub fn curl_config_quote(value: &str) -> (r: String)
    ensures
        r@ == curl_quoted(value@),
{
    let v = chars_of(value);
    let a = chars_of("\\\\");
    let b = chars_of("\\\"");
    let c = chars_of("\\n");
    let d = chars_of("\\r");
    let s1 = replace_char_exec(v.as_slice(), '\\', a.as_slice());
    let s2 = replace_char_exec(s1.as_slice(), '"', b.as_slice());
    let s3 = replace_char_exec(s2.as_slice(), '\n', c.as_slice());
    let s4 = replace_char_exec(s3.as_slice(), '\r', d.as_slice());
    string_of(s4.as_slice())
}

/// An HTTP answer as curl reported it.
pub struct CurlResponse {
    pub status: u16,
    pub body: Vec<u8>,
}

/// The marker curl writes before the status code.
pub open spec fn status_mark() -> Seq<u8> {
    seq![
        10u8, 95u8, 95u8, 65u8, 76u8, 73u8, 78u8, 69u8, 82u8, 89u8, 95u8, 72u8, 84u8, 84u8, 80u8, 95u8, 83u8, 84u8,
        65u8, 84u8, 85u8, 83u8, 95u8, 95u8, 58u8,
    ]
}

pub open spec fn mark_at(bs: Seq<u8>, i: int) -> bool {
    0 <= i && i + 25 <= bs.len() && bs.subrange(i, i + 25) == status_mark()
}

/// The last position at or before `k` where the marker starts.
pub open spec fn last_mark_upto(bs: Seq<u8>, k: int) -> Option<int>
    decreases k + 1,
{
    if k < 0 {
        None
    } else if mark_at(bs, k) {
        Some(k)
    } else {
        last_mark_upto(bs, k - 1)
    }
}

pub open spec fn last_mark(bs: Seq<u8>) -> Option<int> {
    last_mark_upto(bs, bs.len() - 25)
}

/// The value of a run of decimal digits.
pub open spec fn digits_value(s: Seq<char>) -> nat
    decreases s.len(),
{
    if s.len() == 0 {
        0
    } else {
        digits_value(s.drop_last()) * 10 + ((s.last() as u32) - 48) as nat
    }
}

/// `u16::from_str`: an optional `+`, then at least one digit, the value in range.
pub open spec fn parse_u16_spec(t: Seq<char>) -> Option<u16> {
    let d = if t.len() > 0 && t[0] == '+' {
        t.drop_first()
    } else {
        t
    };
    if d.len() > 0 && all_digits(d) && digits_value(d) <= 65535 {
        Some(digits_value(d) as u16)
    } else {
        None
    }
}

proof fn lemma_digits_value_mono(s: Seq<char>, x: char)
    requires
        is_digit(x),
    ensures
        digits_value(s.push(x)) >= digits_value(s),
        digits_value(s.push(x)) == digits_value(s) * 10 + ((x as u32) - 48),
{
    assert(s.push(x).drop_last() =~= s);
}

proof fn lemma_digits_value_prefix(s: Seq<char>, i: int)
    requires
        0 <= i <= s.len(),
        all_digits(s),
    ensures
        digits_value(s.take(i)) <= digits_value(s),
    decreases s.len() - i,
{
    if i < s.len() {
        lemma_digits_value_prefix(s, i + 1);
        assert(s.take(i + 1) =~= s.take(i).push(s[i]));
        lemma_digits_value_mono(s.take(i), s[i]);
    }
}

/// Parse a status code.
pub fn parse_u16(t: &Vec<char>) -> (r: Option<u16>)
    ensures
        r == parse_u16_spec(t@),
{
    let n = t.len();
    let start: usize = if n > 0 && t[0] == '+' {
        1
    } else {
        0
    };
    let ghost d = t@.skip(start as int);
    assert(d == (if t@.len() > 0 && t@[0] == '+' {
        t@.drop_first()
    } else {
        t@
    }));
    if start >= n {
        assert(d.len() == 0);
        return None;
    }
    let mut v: u32 = 0;
    let mut i: usize = start;
    assert(d.take(0) =~= Seq::<char>::empty());
    while i < n
        invariant
            n == t@.len(),
            start <= i <= n,
            d == t@.skip(start as int),
            d == (if t@.len() > 0 && t@[0] == '+' {
                t@.drop_first()
            } else {
                t@
            }),
            forall|k: int| 0 <= k < i - start ==> is_digit(#[trigger] d[k]),
            v as nat == digits_value(d.take(i - start)),
            v <= 65535,
        decreases n - i,
    {
        let c = t[i];
        assert(d[i - start] == c);
        if !('0' <= c && c <= '9') {
            assert(!is_digit(d[i - start]));
            return None;
        }
        proof {
            assert(d.take(i + 1 - start) =~= d.take(i - start).push(c));
            lemma_digits_value_mono(d.take(i - start), c);
        }
        let next: u32 = v * 10 + ((c as u32) - 48);
        if next > 65535 {
            proof {
                if all_digits(d) {
                    lemma_digits_value_prefix(d, i + 1 - start);
                }
            }
            return None;
        }
        v = next;
        i = i + 1;
    }
    assert(d.take(i - start) =~= d);
    Some(v as u16)
}

/// How curl's output splits: the body before the last marker, and the status after it.
pub open spec fn split_status_ok(r: Result<CurlResponse, String>, stdout: Seq<u8>) -> bool {
    match last_mark(stdout) {
        None => r matches Err(e) && e@ == "curl response missing HTTP status"@,
        Some(pos) => {
            let rest = stdout.skip(pos + 25);
            let status = if valid_utf8(rest) {
                parse_u16_spec(trim(decode_utf8(rest)))
            } else {
                None
            };
            match status {
                None => r matches Err(e) && e@ == "curl response missing HTTP status"@,
                Some(s) => r matches Ok(resp) && resp.status == s && resp.body@ == stdout.take(pos),
            }
        },
    }
}

fn mark_at_exec(bs: &[u8], i: usize) -> (r: bool)
    requires
        i + 25 <= bs@.len(),
    ensures
        r == mark_at(bs@, i as int),
{
    let mark: [u8; 25] = [
        10u8, 95u8, 95u8, 65u8, 76u8, 73u8, 78u8, 69u8, 82u8, 89u8, 95u8, 72u8, 84u8, 84u8, 80u8, 95u8, 83u8, 84u8,
        65u8, 84u8, 85u8, 83u8, 95u8, 95u8, 58u8,
    ];
    assert(mark@ =~= status_mark());
    let n = bs.len();
    let mut k: usize = 0;
    while k < 25
        invariant
            n == bs@.len(),
            k <= 25,
            i + 25 <= bs@.len(),
            mark@ == status_mark(),
            forall|t: int| 0 <= t < k ==> bs@[i + t] == mark@[t],
        decreases 25 - k,
    {
        if bs[i + k] != mark[k] {
            assert(bs@.subrange(i as int, i + 25)[k as int] == bs@[i + k]);
            return false;
        }
        k = k + 1;
    }
    assert(bs@.subrange(i as int, i + 25) =~= status_mark());
    true
}

proof fn lemma_last_mark_upto(bs: Seq<u8>, k: int)
    ensures
        last_mark_upto(bs, k) matches Some(p) ==> mark_at(bs, p),
    decreases k + 1,
{
    if k >= 0 && !mark_at(bs, k) {
        lemma_last_mark_upto(bs, k - 1);
    }
}

fn last_mark_exec(bs: &[u8]) -> (r: Option<usize>)
    ensures
        match r {
            Some(p) => last_mark(bs@) == Some(p as int) && p + 25 <= bs@.len(),
            None => last_mark(bs@) is None,
        },
{
    let n = bs.len();
    if n < 25 {
        assert(last_mark_upto(bs@, bs@.len() - 25) is None);
        return None;
    }
    let mut k: usize = n - 25;
    loop
        invariant
            n == bs@.len(),
            25 <= n,
            k + 25 <= n,
            last_mark(bs@) == last_mark_upto(bs@, k as int),
        decreases k,
    {
        if mark_at_exec(bs, k) {
            proof {
                lemma_last_mark_upto(bs@, k as int);
            }
            return Some(k);
        }
        if k == 0 {
            assert(last_mark_upto(bs@, -1) is None);
            return None;
        }
        k = k - 1;
    }
}

/// Split curl's output into body and status.
pub fn split_curl_status(stdout: &[u8]) -> (r: Result<CurlResponse, String>)
    ensures
        split_status_ok(r, stdout@),
{
    let n = stdout.len();
    let pos = match last_mark_exec(stdout) {
        Some(p) => p,
        None => {
            return Err(owned("curl response missing HTTP status"));
        },
    };
    let mut rest: Vec<u8> = Vec::new();
    let mut i: usize = pos + 25;
    while i < stdout.len()
        invariant
            pos + 25 <= i <= stdout@.len(),
            rest@ == stdout@.subrange(pos + 25, i as int),
        decreases stdout@.len() - i,
    {
        rest.push(stdout[i]);
        assert(stdout@.subrange(pos + 25, i + 1) =~= stdout@.subrange(pos + 25, i as int).push(stdout@[i as int]));
        i = i + 1;
    }
    assert(rest@ =~= stdout@.skip(pos + 25));
    let text = match string_from_utf8(rest) {
        Ok(t) => t,
        Err(_) => {
            return Err(owned("curl response missing HTTP status"));
        },
    };
    let tv = chars_of(text.as_str());
    let trimmed = trim_chars(&tv);
    let status = match parse_u16(&trimmed) {
        Some(s) => s,
        None => {
            return Err(owned("curl response missing HTTP status"));
        },
    };
    let mut body: Vec<u8> = Vec::new();
    let mut j: usize = 0;
    while j < pos
        invariant
            j <= pos,
            pos + 25 <= stdout@.len(),
            body@ == stdout@.take(j as int),
        decreases pos - j,
    {
        body.push(stdout[j]);
        assert(stdout@.take(j + 1) =~= stdout@.take(j as int).push(stdout@[j as int]));
        j = j + 1;
    }
    Ok(CurlResponse { status, body })
}

/// Linear's OAuth credential.
pub struct LinearOAuthTokens {
    pub access_token: String,
    pub refresh_token: String,
    pub expires_at: u64,
    pub account: String,
}

/// The credential a token reply gives at `now`: its access token (required, not
/// blank), its refresh token or the one in hand, and an expiry `expires_in` (default a
/// day less a second) from now.
pub open spec fn linear_tokens_ok(
    r: Result<LinearOAuthTokens, String>,
    value: Json,
    refresh_token: Seq<char>,
    account: Seq<char>,
    now: u64,
) -> bool {
    match str_field(value, "access_token"@) {
        Some(a) if a.len() > 0 => r matches Ok(t) && t.access_token@ == a && t.refresh_token@ == match str_field(
            value,
            "refresh_token"@,
        ) {
            Some(x) => x,
            None => refresh_token,
        } && t.expires_at == (if now + match u64_field(value, "expires_in"@) {
            Some(n) => n,
            None => 86399u64,
        } > u64::MAX {
            u64::MAX as int
        } else {
            now + match u64_field(value, "expires_in"@) {
                Some(n) => n,
                None => 86399u64,
            }
        }) && t.account@ == account,
        _ => r matches Err(e) && e@ == "Linear OAuth response is missing access_token"@,
    }
}

/// Read Linear's token reply, received at `now_secs`.
pub fn tokens_from_linear_response(value: &Json, refresh_token: &str, account: String, now_secs: u64) -> (r: Result<
    LinearOAuthTokens,
    String,
>)
    ensures
        linear_tokens_ok(r, *value, refresh_token@, account@, now_secs),
{
    let access_token = match crate::json::str_field_exec(value, "access_token") {
        Some(a) => if a.as_str().unicode_len() > 0 {
            a
        } else {
            return Err(owned("Linear OAuth response is missing access_token"));
        },
        None => {
            return Err(owned("Linear OAuth response is missing access_token"));
        },
    };
    let refresh = match crate::json::str_field_exec(value, "refresh_token") {
        Some(x) => x,
        None => owned(refresh_token),
    };
    let expires_in = match crate::json::u64_field_exec(value, "expires_in") {
        Some(n) => n,
        None => 86399,
    };
    Ok(
        LinearOAuthTokens {
            access_token,
            refresh_token: refresh,
            expires_at: now_secs.saturating_add(expires_in),
            account,
        },
    )
}

/// The Linear OAuth client this build uses when no other is configured.
pub open spec fn default_linear_client_id() -> Seq<char> {
    "175bd9ec87c9edbdf6125968776f62dc"@
}

/// The Linear OAuth client: `ALINERY_LINEAR_CLIENT_ID` from the environment when it is
/// not blank, else the one the build was given, else this build's own.
pub open spec fn linear_client_id_spec(env: Option<Seq<char>>, built: Option<Seq<char>>) -> Seq<char> {
    match env {
        Some(e) => if crate::text::trim(e).len() > 0 {
            e
        } else {
            match built {
                Some(b) => b,
                None => default_linear_client_id(),
            }
        },
        None => match built {
            Some(b) => b,
            None => default_linear_client_id(),
        },
    }
}

pub fn linear_client_id(env: Option<&str>, built: Option<&str>) -> (r: String)
    ensures
        r@ == linear_client_id_spec(
            match env {
                Some(s) => Some(s@),
                None => None,
            },
            match built {
                Some(s) => Some(s@),
                None => None,
            },
        ),
{
    match env {
        Some(e) => {
            let t = crate::text::trim_str(e);
            if t.as_str().unicode_len() > 0 {
                return crate::text::owned(e);
            }
        },
        None => {},
    }
    match built {
        Some(b) => crate::text::owned(b),
        None => crate::text::owned("175bd9ec87c9edbdf6125968776f62dc"),
    }
}

/// A duration in milliseconds as seconds with three decimals, as curl's config reads it.
pub open spec fn secs3(ms: u64) -> Seq<char> {
    crate::text::decimal((ms / 1000) as nat) + "."@ + crate::text::dec_padded((ms % 1000) as nat, 3)
}

/// The curl config for one request: the URL, quiet with errors, following redirects,
/// both timeouts, the status marker after the body, each header, the method unless it
/// is `GET`, and the body when there is one.
pub open spec fn curl_config_spec(
    url: Seq<char>,
    method: Seq<char>,
    headers: Seq<Seq<char>>,
    body: Option<Seq<char>>,
    connect_ms: u64,
    total_ms: u64,
) -> Seq<char> {
    "url = \""@ + curl_quoted(url) + "\"\nsilent\nshow-error\nlocation\nconnect-timeout = "@ + secs3(connect_ms)
        + "\nmax-time = "@ + secs3(total_ms) + "\nwrite-out = \"\\n__ALINERY_HTTP_STATUS__:%{http_code}\"\n"@
        + header_lines(headers) + (if method != "GET"@ {
        "request = \""@ + curl_quoted(method) + "\"\n"@
    } else {
        seq![]
    }) + match body {
        Some(b) => "data-binary = \""@ + curl_quoted(b) + "\"\n"@,
        None => seq![],
    }
}

pub open spec fn header_lines(headers: Seq<Seq<char>>) -> Seq<char>
    decreases headers.len(),
{
    if headers.len() == 0 {
        seq![]
    } else {
        header_lines(headers.drop_last()) + "header = \""@ + curl_quoted(headers.last()) + "\"\n"@
    }
}

fn push_secs3(out: &mut String, ms: u64)
    ensures
        final(out)@ == old(out)@ + secs3(ms),
{
    crate::text::push_decimal(out, ms / 1000, 0);
    crate::text::push_str(out, ".");
    crate::text::push_decimal(out, ms % 1000, 3);
}

pub fn curl_config(url: &str, method: &str, headers: &Vec<String>, body: Option<&str>, connect_ms: u64, total_ms: u64) -> (r:
    String)
    ensures
        r@ == curl_config_spec(
            url@,
            method@,
            crate::app_config::views(headers@),
            match body {
                Some(b) => Some(b@),
                None => None,
            },
            connect_ms,
            total_ms,
        ),
{
    let mut c = owned("url = \"");
    let q = curl_config_quote(url);
    crate::text::push_str(&mut c, q.as_str());
    crate::text::push_str(&mut c, "\"\nsilent\nshow-error\nlocation\nconnect-timeout = ");
    push_secs3(&mut c, connect_ms);
    crate::text::push_str(&mut c, "\nmax-time = ");
    push_secs3(&mut c, total_ms);
    crate::text::push_str(&mut c, "\nwrite-out = \"\\n__ALINERY_HTTP_STATUS__:%{http_code}\"\n");
    let ghost head = c@;
    let ghost hs = crate::app_config::views(headers@);
    let mut i: usize = 0;
    assert(hs.take(0) =~= Seq::<Seq<char>>::empty());
    while i < headers.len()
        invariant
            hs == crate::app_config::views(headers@),
            i <= headers@.len(),
            c@ == head + header_lines(hs.take(i as int)),
        decreases headers@.len() - i,
    {
        proof {
            assert(hs.take(i + 1).drop_last() =~= hs.take(i as int));
            assert(hs.take(i + 1).last() == headers@[i as int]@);
        }
        crate::text::push_str(&mut c, "header = \"");
        let hq = curl_config_quote(headers[i].as_str());
        crate::text::push_str(&mut c, hq.as_str());
        crate::text::push_str(&mut c, "\"\n");
        i = i + 1;
    }
    assert(hs.take(i as int) =~= hs);
    if !str_eq(method, "GET") {
        crate::text::push_str(&mut c, "request = \"");
        let mq = curl_config_quote(method);
        crate::text::push_str(&mut c, mq.as_str());
        crate::text::push_str(&mut c, "\"\n");
    }
    match body {
        Some(b) => {
            crate::text::push_str(&mut c, "data-binary = \"");
            let bq = curl_config_quote(b);
            crate::text::push_str(&mut c, bq.as_str());
            crate::text::push_str(&mut c, "\"\n");
        },
        None => {},
    }
    c
}

/// A form body: each `key=value` percent-encoded, joined by `&`.
pub open spec fn form_body(fields: Seq<(Seq<char>, Seq<char>)>) -> Seq<char>
    decreases fields.len(),
{
    if fields.len() == 0 {
        seq![]
    } else {
        let f = fields.last();
        let item = crate::codec::pct_encode_bytes(encode_utf8(f.0)) + "="@ + crate::codec::pct_encode_bytes(
            encode_utf8(f.1),
        );
        if fields.len() == 1 {
            item
        } else {
            form_body(fields.drop_last()) + "&"@ + item
        }
    }
}

pub open spec fn field_views(fields: Seq<(String, String)>) -> Seq<(Seq<char>, Seq<char>)> {
    fields.map_values(|f: (String, String)| (f.0@, f.1@))
}

pub fn linear_oauth_form(fields: &Vec<(String, String)>) -> (r: String)
    ensures
        r@ == form_body(field_views(fields@)),
{
    let ghost fs = field_views(fields@);
    let mut out = String::new();
    let mut i: usize = 0;
    assert(fs.take(0) =~= Seq::<(Seq<char>, Seq<char>)>::empty());
    while i < fields.len()
        invariant
            fs == field_views(fields@),
            i <= fields@.len(),
            out@ == form_body(fs.take(i as int)),
        decreases fields@.len() - i,
    {
        proof {
            assert(fs.take(i + 1).drop_last() =~= fs.take(i as int));
            assert(fs.take(i + 1).last() == (fields@[i as int].0@, fields@[i as int].1@));
        }
        if i > 0 {
            crate::text::push_str(&mut out, "&");
        }
        let k = crate::codec::percent_encode(fields[i].0.as_str());
        crate::text::push_str(&mut out, k.as_str());
        crate::text::push_str(&mut out, "=");
        let v = crate::codec::percent_encode(fields[i].1.as_str());
        crate::text::push_str(&mut out, v.as_str());
        i = i + 1;
    }
    assert(fs.take(i as int) =~= fs);
    out
}

/// The error an OAuth token reply reports: its description, else its code.
pub open spec fn oauth_error_spec(value: Json) -> Option<Seq<char>> {
    match str_field(value, "error"@) {
        None => None,
        Some(e) => Some(
            match str_field(value, "error_description"@) {
                Some(d) => d,
                None => e,
            },
        ),
    }
}

pub fn linear_oauth_error(value: &Json) -> (r: Option<String>)
    ensures
        crate::hosted::opt_view(r) == oauth_error_spec(*value),
{
    match crate::json::str_field_exec(value, "error") {
        None => None,
        Some(e) => match crate::json::str_field_exec(value, "error_description") {
            Some(d) => Some(d),
            None => Some(e),
        },
    }
}

/// The account a viewer reply names: its name, else its email, else "Linear account".
/// `errors` is the reply's `errors` member as JSON text (`null` when absent); it is
/// reported when the reply has no viewer.
pub open spec fn viewer_account_spec(value: Json, errors: Seq<char>) -> Result<Seq<char>, Seq<char>> {
    let viewer = match field(value, "data"@) {
        Some(d) => field(d, "viewer"@),
        None => None,
    };
    match viewer {
        None => Err("Linear connection failed: "@ + errors),
        Some(v) => Ok(
            match str_field(v, "name"@) {
                Some(n) => n,
                None => match str_field(v, "email"@) {
                    Some(e) => e,
                    None => "Linear account"@,
                },
            },
        ),
    }
}

pub fn linear_viewer_account(value: &Json, errors: &str) -> (r: Result<String, String>)
    ensures
        match r {
            Ok(a) => viewer_account_spec(*value, errors@) == Ok::<Seq<char>, Seq<char>>(a@),
            Err(e) => viewer_account_spec(*value, errors@) == Err::<Seq<char>, Seq<char>>(e@),
        },
{
    let viewer = match value.get("data") {
        Some(d) => d.get("viewer"),
        None => None,
    };
    match viewer {
        None => {
            let mut m = owned("Linear connection failed: ");
            crate::text::push_str(&mut m, errors);
            Err(m)
        },
        Some(v) => match crate::json::str_field_exec(v, "name") {
            Some(n) => Ok(n),
            None => match crate::json::str_field_exec(v, "email") {
                Some(e) => Ok(e),
                None => Ok(owned("Linear account")),
            },
        },
    }
}

/// The page the browser is redirected to, to authorize this app with PKCE.
pub open spec fn authorize_url_spec(client_id: Seq<char>, callback: Seq<char>, state: Seq<char>, challenge: Seq<char>) -> Seq<
    char,
> {
    "https://linear.app/oauth/authorize?client_id="@ + crate::codec::pct_encode_bytes(encode_utf8(client_id))
        + "&redirect_uri="@ + crate::codec::pct_encode_bytes(encode_utf8(callback))
        + "&response_type=code&scope=read&state="@ + crate::codec::pct_encode_bytes(encode_utf8(state))
        + "&code_challenge="@ + crate::codec::pct_encode_bytes(encode_utf8(challenge))
        + "&code_challenge_method=S256"@
}

pub fn linear_authorize_url(client_id: &str, callback: &str, state: &str, challenge: &str) -> (r: String)
    ensures
        r@ == authorize_url_spec(client_id@, callback@, state@, challenge@),
{
    let mut u = owned("https://linear.app/oauth/authorize?client_id=");
    let a = crate::codec::percent_encode(client_id);
    crate::text::push_str(&mut u, a.as_str());
    crate::text::push_str(&mut u, "&redirect_uri=");
    let b = crate::codec::percent_encode(callback);
    crate::text::push_str(&mut u, b.as_str());
    crate::text::push_str(&mut u, "&response_type=code&scope=read&state=");
    let c = crate::codec::percent_encode(state);
    crate::text::push_str(&mut u, c.as_str());
    crate::text::push_str(&mut u, "&code_challenge=");
    let d = crate::codec::percent_encode(challenge);
    crate::text::push_str(&mut u, d.as_str());
    crate::text::push_str(&mut u, "&code_challenge_method=S256");
    u
}

/// A stored Linear access token is used while it has more than a minute left.
pub fn linear_token_fresh(expires_at: u64, now_secs: u64) -> (r: bool)
    ensures
        r == (expires_at > crate::account_flow::sat_add(now_secs, 60)),
{
    expires_at > now_secs.saturating_add(60)
}

/// What the browser's redirect means for the login that waits for it.
pub enum CallbackVerdict {
    /// The authorization code of this login.
    Code(String),
    /// This login was refused, with Linear's message.
    Refused(String),
    /// Not this login's answer: keep waiting.
    Ignore,
}

/// Only a callback that carries this login's `state` ends the wait.
pub fn linear_callback_verdict(parsed: Result<crate::callback::OAuthCallback, String>, expected_state: &str) -> (r:
    CallbackVerdict)
    ensures
        match parsed {
            Ok(crate::callback::OAuthCallback::Code { code, state }) => if state@ == expected_state@ {
                r matches CallbackVerdict::Code(c) && c@ == code@
            } else {
                r is Ignore
            },
            Ok(crate::callback::OAuthCallback::Error { message, state }) => if state@ == expected_state@ {
                r matches CallbackVerdict::Refused(m) && m@ == message@
            } else {
                r is Ignore
            },
            Err(_) => r is Ignore,
        },
{
    match parsed {
        Ok(crate::callback::OAuthCallback::Code { code, state }) => if str_eq(state.as_str(), expected_state) {
            CallbackVerdict::Code(code)
        } else {
            CallbackVerdict::Ignore
        },
        Ok(crate::callback::OAuthCallback::Error { message, state }) => if str_eq(state.as_str(), expected_state) {
            CallbackVerdict::Refused(message)
        } else {
            CallbackVerdict::Ignore
        },
        Err(_) => CallbackVerdict::Ignore,
    }
}

/// The HTTP answer to the browser: a short page saying whether the code was received.
pub open spec fn callback_page(ok: bool) -> Seq<char> {
    if ok {
        "<h1>Authorization received</h1><p>You can close this window and return to Alinery.</p>"@
    } else {
        "<h1>Linear connection failed</h1><p>Return to Alinery for details.</p>"@
    }
}

pub fn linear_callback_response(ok: bool) -> (r: String)
    ensures
        r@ == "HTTP/1.1 200 OK\r\nContent-Type: text/html; charset=utf-8\r\nContent-Length: "@ + crate::text::decimal(
            callback_page(ok).len(),
        ) + "\r\nConnection: close\r\n\r\n"@ + callback_page(ok),
{
    let body = if ok {
        "<h1>Authorization received</h1><p>You can close this window and return to Alinery.</p>"
    } else {
        "<h1>Linear connection failed</h1><p>Return to Alinery for details.</p>"
    };
    let mut r = owned("HTTP/1.1 200 OK\r\nContent-Type: text/html; charset=utf-8\r\nContent-Length: ");
    let n = body.unicode_len();
    crate::text::push_decimal(&mut r, n as u64, 0);
    crate::text::push_str(&mut r, "\r\nConnection: close\r\n\r\n");
    crate::text::push_str(&mut r, body);
    r
}


/// The git protocol `gh auth login` is told to set up: the one already configured when it
/// is `ssh` or `https` (trimmed), else `https`.
pub open spec fn git_protocol_spec(configured: Option<Seq<char>>) -> Seq<char> {
    match configured {
        Some(c) => if crate::text::trim(c) == "ssh"@ || crate::text::trim(c) == "https"@ {
            crate::text::trim(c)
        } else {
            "https"@
        },
        None => "https"@,
    }
}

/// `configured` is what `gh config get git_protocol` printed, when it succeeded.
pub fn github_git_protocol(configured: Option<&str>) -> (r: String)
    ensures
        r@ == git_protocol_spec(
            match configured {
                Some(c) => Some(c@),
                None => None,
            },
        ),
{
    match configured {
        Some(c) => {
            let t = crate::text::trim_str(c);
            if crate::text::str_eq(t.as_str(), "ssh") || crate::text::str_eq(t.as_str(), "https") {
                t
            } else {
                crate::text::owned("https")
            }
        },
        None => crate::text::owned("https"),
    }
}

/// How a browser login through `gh` ended: its error output (trimmed) when it failed, a
/// fixed sentence when that is blank; and a login that left no account is a failure too.
pub fn github_login_outcome(exited_ok: bool, stderr: &str, connected_after: bool) -> (r: Result<(), String>)
    ensures
        !exited_ok ==> (r matches Err(e) && e@ == if crate::text::trim(stderr@).len() == 0 {
            "GitHub login failed"@
        } else {
            crate::text::trim(stderr@)
        }),
        exited_ok && !connected_after ==> (r matches Err(e) && e@ == "GitHub login completed without an active account"@),
        exited_ok && connected_after ==> r is Ok,
{
    if !exited_ok {
        let t = crate::text::trim_str(stderr);
        if t.as_str().unicode_len() == 0 {
            return Err(crate::text::owned("GitHub login failed"));
        }
        return Err(t);
    }
    if !connected_after {
        return Err(crate::text::owned("GitHub login completed without an active account"));
    }
    Ok(())
}

} // verus!
