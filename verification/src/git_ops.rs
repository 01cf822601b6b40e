//! Pull requests of a task's branch: the compare URL to open one, and the reading of
//! GitHub's answers about them.
use vstd::prelude::*;
use crate::imports::{
    before_first, issue_number, issue_number_spec, label_spec, remote_hostpath, replace_first, GitHubIssueRef,
};
use crate::json::{field, str_field, str_of, u64_field, Json};
use crate::text::{
    all_digits, all_digits_exec, chars_of, contains_chars, contains_seq, is_alnum, lower_seq, owned, push_chars,
    push_str, rsplit_once, rsplit_once_chars, slice_chars, split, split_once, split_once_chars, str_eq, string_of,
    strip_prefix, strip_prefix_exec, trim, trim_chars, trim_end_char, trim_end_char_exec, trim_end_seq,
    trim_end_seq_exec,
};

verus! {

broadcast use vstd::seq_lib::group_seq_properties;

/// The host of a remote with any `user@` removed, and for SSH remotes a trailing
/// `:port` removed.
pub open spec fn web_host(host: Seq<char>, is_ssh: bool) -> Seq<char> {
    let h = match rsplit_once(host, '@') {
        Some((_, h)) => h,
        None => host,
    };
    if is_ssh {
        match rsplit_once(h, ':') {
            Some((a, p)) => if p.len() > 0 && all_digits(p) {
                a
            } else {
                h
            },
            None => h,
        }
    } else {
        h
    }
}

/// The web page that opens a pull request from `branch` into `base` for this remote.
pub open spec fn compare_url_spec(remote: Seq<char>, base: Seq<char>, branch: Seq<char>) -> Option<Seq<char>> {
    let r = trim(remote);
    let is_ssh = strip_prefix(r, "git@"@) is Some || strip_prefix(r, "ssh://"@) is Some;
    match remote_hostpath(r) {
        None => None,
        Some(hp0) => {
            let hp = trim_end_seq(trim_end_char(hp0, '/'), ".git"@);
            match split_once(hp, '/') {
                None => None,
                Some((host0, ownerrepo)) => {
                    let host = web_host(host0, is_ssh);
                    if host.len() == 0 || !ownerrepo.contains('/') {
                        None
                    } else {
                        Some(
                            "https://"@ + host + "/"@ + ownerrepo + "/compare/"@ + base + "..."@ + branch + if contains_seq(
                                host,
                                "github"@,
                            ) {
                                "?expand=1"@
                            } else {
                                seq![]
                            },
                        )
                    }
                },
            }
        },
    }
}

fn has_char(v: &Vec<char>, c: char) -> (r: bool)
    ensures
        r == v@.contains(c),
{
    proof {
        crate::text::lemma_first_index_of(v@, c);
    }
    match crate::text::find_char(v.as_slice(), c) {
        Some(i) => {
            assert(v@[i as int] == c);
            true
        },
        None => false,
    }
}

pub fn compare_url(remote: &str, base: &str, branch: &str) -> (r: Option<String>)
    ensures
        match r {
            Some(u) => compare_url_spec(remote@, base@, branch@) == Some(u@),
            None => compare_url_spec(remote@, base@, branch@) is None,
        },
{
    let rv = chars_of(remote);
    let r = trim_chars(&rv);
    let is_ssh = strip_prefix_exec(&r, "git@").is_some() || strip_prefix_exec(&r, "ssh://").is_some();
    let hp0 = match strip_prefix_exec(&r, "git@") {
        Some(rest) => crate::imports::replace_first_exec(&rest, ':', "/"),
        None => match strip_prefix_exec(&r, "ssh://") {
            Some(rest) => rest,
            None => match strip_prefix_exec(&r, "https://") {
                Some(rest) => rest,
                None => match strip_prefix_exec(&r, "http://") {
                    Some(rest) => rest,
                    None => {
                        return None;
                    },
                },
            },
        },
    };
    assert(remote_hostpath(r@) == Some(hp0@));
    let a = trim_end_char_exec(&hp0, '/');
    let git = chars_of(".git");
    let hp = trim_end_seq_exec(&a, git.as_slice());
    let (host0, ownerrepo) = match split_once_chars(&hp, '/') {
        Some(x) => x,
        None => {
            return None;
        },
    };
    let h = match rsplit_once_chars(&host0, '@') {
        Some((_, h)) => h,
        None => host0,
    };
    let host = if is_ssh {
        match rsplit_once_chars(&h, ':') {
            Some((a, p)) => if p.len() > 0 && all_digits_exec(p.as_slice()) {
                a
            } else {
                h
            },
            None => h,
        }
    } else {
        h
    };
    if host.len() == 0 || !has_char(&ownerrepo, '/') {
        return None;
    }
    let gh = chars_of("github");
    let expand = contains_chars(host.as_slice(), gh.as_slice());
    let mut out = owned("https://");
    push_chars(&mut out, host.as_slice());
    push_str(&mut out, "/");
    push_chars(&mut out, ownerrepo.as_slice());
    push_str(&mut out, "/compare/");
    push_str(&mut out, base);
    push_str(&mut out, "...");
    push_str(&mut out, branch);
    if expand {
        push_str(&mut out, "?expand=1");
    } else {
        proof {
            assert(out@ + Seq::<char>::empty() =~= out@);
        }
    }
    Some(out)
}

/// A path component GitHub allows in an owner or repository name.
pub open spec fn valid_component(p: Seq<char>) -> bool {
    p.len() > 0 && p != "."@ && p != ".."@ && forall|i: int|
        0 <= i < p.len() ==> is_alnum(#[trigger] p[i]) || p[i] == '-' || p[i] == '_' || p[i] == '.'
}

/// The text before the first `?` or `#`.
pub open spec fn before_query(s: Seq<char>) -> Seq<char> {
    let a = before_first(s, '?');
    before_first(a, '#')
}

/// The pull request a `https://github.com/owner/repo/pull/N` URL names.
pub open spec fn pull_ref_spec(url: Seq<char>) -> Option<(Seq<char>, Seq<char>, u64)> {
    match strip_prefix(trim(url), "https://github.com/"@) {
        None => None,
        Some(rest) => {
            let path = trim_end_char(before_query(rest), '/');
            let parts = split(path, '/');
            if parts.len() != 4 || parts[2] != "pull"@ || !valid_component(parts[0]) || !valid_component(parts[1]) {
                None
            } else {
                match issue_number_spec(parts[3]) {
                    Some(n) => Some((parts[0], parts[1], n)),
                    None => None,
                }
            }
        },
    }
}

fn valid_component_exec(p: &Vec<char>) -> (r: bool)
    ensures
        r == valid_component(p@),
{
    if p.len() == 0 || crate::text::chars_eq_str(p.as_slice(), ".") || crate::text::chars_eq_str(p.as_slice(), "..") {
        return false;
    }
    let mut i: usize = 0;
    while i < p.len()
        invariant
            i <= p@.len(),
            forall|k: int| 0 <= k < i ==> is_alnum(#[trigger] p@[k]) || p@[k] == '-' || p@[k] == '_' || p@[k] == '.',
        decreases p@.len() - i,
    {
        let c = p[i];
        if !(crate::text::is_alnum_char(c) || c == '-' || c == '_' || c == '.') {
            return false;
        }
        i = i + 1;
    }
    true
}

pub fn github_pull_request_ref(url: &str) -> (r: Option<GitHubIssueRef>)
    ensures
        match r {
            Some(x) => pull_ref_spec(url@) matches Some(v) && crate::imports::ref_is(x, v),
            None => pull_ref_spec(url@) is None,
        },
{
    let uv = chars_of(url);
    let t = trim_chars(&uv);
    let rest = match strip_prefix_exec(&t, "https://github.com/") {
        Some(r) => r,
        None => {
            return None;
        },
    };
    let a = crate::imports::before_first_exec(&rest, '?');
    let b = crate::imports::before_first_exec(&a, '#');
    let path = trim_end_char_exec(&b, '/');
    let parts = crate::callback::split_chars(&path, '/');
    if parts.len() != 4 || !crate::text::chars_eq_str(parts[2].as_slice(), "pull") || !valid_component_exec(&parts[0])
        || !valid_component_exec(&parts[1]) {
        return None;
    }
    let number = match issue_number(string_of(parts[3].as_slice()).as_str()) {
        Some(n) => n,
        None => {
            return None;
        },
    };
    Some(GitHubIssueRef { owner: string_of(parts[0].as_slice()), repo: string_of(parts[1].as_slice()), number })
}

/// Where a pull request stands.
#[derive(Clone, Copy, PartialEq, Eq, Structural)]
pub enum PullRequestState {
    Open,
    Merged,
    Closed,
}

/// A pull request of a task's branch.
pub struct PullRequest {
    pub number: u64,
    pub url: String,
    pub state: PullRequestState,
}

/// The state GitHub's `state` and `merged_at` give: open and unmerged, closed and
/// merged, or closed unmerged; anything else is malformed.
pub open spec fn pr_state(j: Json) -> Option<PullRequestState> {
    match (str_field(j, "state"@), field(j, "merged_at"@)) {
        (Some(s), Some(Json::Null)) => if s == "open"@ {
            Some(PullRequestState::Open)
        } else if s == "closed"@ {
            Some(PullRequestState::Closed)
        } else {
            None
        },
        (Some(s), Some(Json::Str(_))) => if s == "closed"@ {
            Some(PullRequestState::Merged)
        } else {
            None
        },
        _ => None,
    }
}

/// A pull request object: its `html_url` must name a pull request whose number is its
/// `number`.
pub open spec fn pr_from_json(j: Json) -> Option<(u64, Seq<char>, PullRequestState)> {
    match str_field(j, "html_url"@) {
        None => None,
        Some(url) => match pull_ref_spec(url) {
            None => None,
            Some(reference) => match u64_field(j, "number"@) {
                None => None,
                Some(n) => if n != reference.2 {
                    None
                } else {
                    match pr_state(j) {
                        Some(s) => Some((n, url, s)),
                        None => None,
                    }
                },
            },
        },
    }
}

pub fn pull_request_from_json(value: &Json) -> (r: Result<PullRequest, String>)
    ensures
        match r {
            Ok(p) => pr_from_json(*value) == Some((p.number, p.url@, p.state)),
            Err(e) => pr_from_json(*value) is None && e@ == "invalid GitHub pull request response"@,
        },
{
    let url = match crate::json::str_field_exec(value, "html_url") {
        Some(u) => u,
        None => {
            return Err(owned("invalid GitHub pull request response"));
        },
    };
    let reference = match github_pull_request_ref(url.as_str()) {
        Some(r) => r,
        None => {
            return Err(owned("invalid GitHub pull request response"));
        },
    };
    let number = match crate::json::u64_field_exec(value, "number") {
        Some(n) => n,
        None => {
            return Err(owned("invalid GitHub pull request response"));
        },
    };
    if number != reference.number {
        return Err(owned("invalid GitHub pull request response"));
    }
    let state_s = crate::json::str_field_exec(value, "state");
    let merged = value.get("merged_at");
    let state = match (state_s, merged) {
        (Some(s), Some(Json::Null)) => if str_eq(s.as_str(), "open") {
            PullRequestState::Open
        } else if str_eq(s.as_str(), "closed") {
            PullRequestState::Closed
        } else {
            return Err(owned("invalid GitHub pull request response"));
        },
        (Some(s), Some(Json::Str(_))) => if str_eq(s.as_str(), "closed") {
            PullRequestState::Merged
        } else {
            return Err(owned("invalid GitHub pull request response"));
        },
        _ => {
            return Err(owned("invalid GitHub pull request response"));
        },
    };
    Ok(PullRequest { number, url, state })
}

/// `value["a"]["b"]`, with a missing member read as absent.
pub open spec fn path2(j: Json, a: Seq<char>, b: Seq<char>) -> Option<Json> {
    match field(j, a) {
        Some(x) => field(x, b),
        None => None,
    }
}

pub open spec fn path3(j: Json, a: Seq<char>, b: Seq<char>, c: Seq<char>) -> Option<Json> {
    match path2(j, a, b) {
        Some(x) => field(x, c),
        None => None,
    }
}

/// ASCII case-insensitive equality.
pub open spec fn eq_ignore_case(a: Seq<char>, b: Seq<char>) -> bool {
    lower_seq(a) == lower_seq(b)
}

/// A listed pull request whose head is `branch` of `owner/repo` itself, not a fork.
pub open spec fn head_matches(j: Json, owner: Seq<char>, repo: Seq<char>, branch: Seq<char>) -> bool {
    &&& str_of(path2(j, "head"@, "ref"@)) == Some(branch)
    &&& match str_of(path3(j, "head"@, "repo"@, "full_name"@)) {
        Some(name) => eq_ignore_case(name, owner + "/"@ + repo),
        None => false,
    }
    &&& match str_of(path3(j, "head"@, "user"@, "login"@)) {
        Some(login) => eq_ignore_case(login, owner),
        None => false,
    }
}

/// `(open, number)` orders candidates: an open one beats any closed one, then the
/// larger number wins.
pub open spec fn beats(a: (u64, PullRequestState), b: (u64, PullRequestState)) -> bool {
    let ao = a.1 == PullRequestState::Open;
    let bo = b.1 == PullRequestState::Open;
    (ao && !bo) || (ao == bo && a.0 > b.0)
}

/// The branch's pull request among the first `k` listed ones: `Err` when a matching
/// one is malformed, else the best match.
pub open spec fn select_upto(items: Seq<Json>, k: int, owner: Seq<char>, repo: Seq<char>, branch: Seq<char>) -> Result<
    Option<(u64, Seq<char>, PullRequestState)>,
    (),
>
    decreases k,
{
    if k <= 0 {
        Ok(None)
    } else {
        match select_upto(items, k - 1, owner, repo, branch) {
            Err(()) => Err(()),
            Ok(prev) => {
                let j = items[k - 1];
                if !head_matches(j, owner, repo, branch) {
                    Ok(prev)
                } else {
                    match pr_from_json(j) {
                        None => Err(()),
                        Some(p) => match prev {
                            None => Ok(Some(p)),
                            Some(q) => if beats((p.0, p.2), (q.0, q.2)) {
                                Ok(Some(p))
                            } else {
                                Ok(Some(q))
                            },
                        },
                    }
                }
            },
        }
    }
}

proof fn lemma_select_err_sticks(items: Seq<Json>, k: int, m: int, owner: Seq<char>, repo: Seq<char>, branch: Seq<char>)
    requires
        0 <= k <= m,
        select_upto(items, k, owner, repo, branch) is Err,
    ensures
        select_upto(items, m, owner, repo, branch) is Err,
    decreases m - k,
{
    if k < m {
        lemma_select_err_sticks(items, k, m - 1, owner, repo, branch);
    }
}

fn lower_string(s: &str) -> (r: Vec<char>)
    ensures
        r@ == lower_seq(s@),
{
    crate::text::lower_chars(chars_of(s).as_slice())
}

fn eq_ignore_case_exec(a: &str, b: &Vec<char>) -> (r: bool)
    ensures
        r == eq_ignore_case(a@, b@),
{
    let la = lower_string(a);
    let lb = crate::text::lower_chars(b.as_slice());
    crate::text::chars_eq(la.as_slice(), lb.as_slice())
}

fn path_str(j: &Json, a: &str, b: &str, c: Option<&str>) -> (r: Option<String>)
    ensures
        match c {
            None => match r {
                Some(s) => str_of(path2(*j, a@, b@)) == Some(s@),
                None => str_of(path2(*j, a@, b@)) is None,
            },
            Some(cc) => match r {
                Some(s) => str_of(path3(*j, a@, b@, cc@)) == Some(s@),
                None => str_of(path3(*j, a@, b@, cc@)) is None,
            },
        },
{
    let x = match j.get(a) {
        Some(x) => x,
        None => {
            return None;
        },
    };
    let y = match x.get(b) {
        Some(y) => y,
        None => {
            return None;
        },
    };
    let z = match c {
        Some(cc) => match y.get(cc) {
            Some(z) => z,
            None => {
                return None;
            },
        },
        None => y,
    };
    match z.as_str() {
        Some(s) => Some(owned(s.as_str())),
        None => None,
    }
}

fn head_matches_exec(j: &Json, owner: &str, repo: &str, branch: &str) -> (r: bool)
    ensures
        r == head_matches(*j, owner@, repo@, branch@),
{
    let head_ref = path_str(j, "head", "ref", None);
    let ok_ref = match &head_ref {
        Some(s) => str_eq(s.as_str(), branch),
        None => false,
    };
    if !ok_ref {
        return false;
    }
    let mut full = chars_of(owner);
    full.push('/');
    crate::text::append_chars(&mut full, chars_of(repo).as_slice());
    assert(full@ =~= owner@ + "/"@ + repo@) by {
        reveal_strlit("/");
    }
    let ok_name = match path_str(j, "head", "repo", Some("full_name")) {
        Some(name) => eq_ignore_case_exec(name.as_str(), &full),
        None => false,
    };
    if !ok_name {
        return false;
    }
    match path_str(j, "head", "user", Some("login")) {
        Some(login) => eq_ignore_case_exec(login.as_str(), &chars_of(owner)),
        None => false,
    }
}

/// `r` is what [`select_branch_pull_request`] gives for the list `value`.
pub open spec fn select_ok(
    r: Result<Option<PullRequest>, String>,
    value: Json,
    owner: Seq<char>,
    repo: Seq<char>,
    branch: Seq<char>,
) -> bool {
    match value {
        Json::Array(items) => match r {
            Ok(Some(p)) => select_upto(items@, items@.len() as int, owner, repo, branch) == Ok::<
                Option<(u64, Seq<char>, PullRequestState)>,
                (),
            >(Some((p.number, p.url@, p.state))),
            Ok(None) => select_upto(items@, items@.len() as int, owner, repo, branch) == Ok::<
                Option<(u64, Seq<char>, PullRequestState)>,
                (),
            >(None),
            Err(e) => select_upto(items@, items@.len() as int, owner, repo, branch) is Err && e@
                == "invalid GitHub pull request response"@,
        },
        _ => r matches Err(e) && e@ == "invalid GitHub pull request list"@,
    }
}

/// The branch's pull request in GitHub's list: the open one if any, else the latest.
/// Only pull requests whose head is this repository's own branch count.
pub fn select_branch_pull_request(value: &Json, owner: &str, repo: &str, branch: &str) -> (r: Result<
    Option<PullRequest>,
    String,
>)
    ensures
        select_ok(r, *value, owner@, repo@, branch@),
{
    let items = match value {
        Json::Array(items) => items,
        _ => {
            return Err(owned("invalid GitHub pull request list"));
        },
    };
    let mut selected: Option<PullRequest> = None;
    let mut i: usize = 0;
    while i < items.len()
        invariant
            *value == Json::Array(*items),
            i <= items@.len(),
            match selected {
                Some(p) => select_upto(items@, i as int, owner@, repo@, branch@) == Ok::<
                    Option<(u64, Seq<char>, PullRequestState)>,
                    (),
                >(Some((p.number, p.url@, p.state))),
                None => select_upto(items@, i as int, owner@, repo@, branch@) == Ok::<
                    Option<(u64, Seq<char>, PullRequestState)>,
                    (),
                >(None),
            },
        decreases items@.len() - i,
    {
        let item = &items[i];
        if head_matches_exec(item, owner, repo, branch) {
            let pull = match pull_request_from_json(item) {
                Ok(p) => p,
                Err(e) => {
                    proof {
                        lemma_select_err_sticks(items@, i + 1, items@.len() as int, owner@, repo@, branch@);
                    }
                    return Err(e);
                },
            };
            let replace = match &selected {
                None => true,
                Some(prev) => {
                    let po = pull.state == PullRequestState::Open;
                    let qo = prev.state == PullRequestState::Open;
                    (po && !qo) || (po == qo && pull.number > prev.number)
                },
            };
            if replace {
                selected = Some(pull);
            }
        }
        i = i + 1;
    }
    Ok(selected)
}

/// The remote default branch named by `git symbolic-ref --short refs/remotes/origin/HEAD`
/// (`origin/<branch>`), or `main` when git gave no such answer.
pub open spec fn base_branch_spec(stdout: Option<Seq<char>>) -> Seq<char> {
    match stdout {
        Some(out) => match strip_prefix(trim(out), "origin/"@) {
            Some(b) => if b.len() > 0 {
                b
            } else {
                "main"@
            },
            None => "main"@,
        },
        None => "main"@,
    }
}

/// `stdout` is the command's output when it succeeded.
pub fn base_branch_from(stdout: Option<&str>) -> (r: String)
    ensures
        r@ == base_branch_spec(
            match stdout {
                Some(s) => Some(s@),
                None => None,
            },
        ),
{
    match stdout {
        Some(out) => {
            let v = chars_of(out);
            let t = trim_chars(&v);
            match strip_prefix_exec(&t, "origin/") {
                Some(b) => if b.len() > 0 {
                    string_of(b.as_slice())
                } else {
                    owned("main")
                },
                None => owned("main"),
            }
        },
        None => owned("main"),
    }
}

/// How a task's pull request is looked up: the repository of `origin`, and GitHub's API.
/// Production asks git and the `gh` CLI; tests answer from a script.
pub trait PullRequestLookup {
    /// The `(owner, repo)` of the `origin` remote when it is on GitHub.
    fn origin(&mut self) -> Result<Option<(String, String)>, String>;

    /// `GET endpoint` with these query fields.
    fn request(&mut self, endpoint: &str, fields: &Vec<(String, String)>) -> Result<Json, String>;
}

/// A lookup together with the record, in order, of the calls made through it.
pub struct LoggedLookup<L: PullRequestLookup> {
    lookup: L,
    origins: Ghost<Seq<Result<Option<(String, String)>, String>>>,
    requests: Ghost<Seq<(Seq<char>, Seq<(String, String)>, Result<Json, String>)>>,
}

impl<L: PullRequestLookup> LoggedLookup<L> {
    /// What every `origin` call so far returned.
    pub closed spec fn origins(&self) -> Seq<Result<Option<(String, String)>, String>> {
        self.origins@
    }

    /// Every `request` so far: the endpoint, the query fields, and what came back.
    pub closed spec fn requests(&self) -> Seq<(Seq<char>, Seq<(String, String)>, Result<Json, String>)> {
        self.requests@
    }

    /// `lookup`, with no call made yet.
    pub fn new(lookup: L) -> (r: Self)
        ensures
            r.origins() == Seq::<Result<Option<(String, String)>, String>>::empty(),
            r.requests() == Seq::<(Seq<char>, Seq<(String, String)>, Result<Json, String>)>::empty(),
    {
        LoggedLookup { lookup, origins: Ghost(Seq::empty()), requests: Ghost(Seq::empty()) }
    }

    /// The lookup itself.
    pub fn lookup(&self) -> &L {
        &self.lookup
    }

    /// Ask for `origin`'s repository, and record the answer.
    pub fn origin(&mut self) -> (r: Result<Option<(String, String)>, String>)
        ensures
            final(self).origins() == old(self).origins().push(r),
            final(self).requests() == old(self).requests(),
    {
        let r = self.lookup.origin();
        self.origins = Ghost(self.origins@.push(r));
        r
    }

    /// `GET endpoint` with these query fields, and record the call.
    pub fn request(&mut self, endpoint: &str, fields: &Vec<(String, String)>) -> (r: Result<Json, String>)
        ensures
            final(self).requests() == old(self).requests().push((endpoint@, fields@, r)),
            final(self).origins() == old(self).origins(),
    {
        let r = self.lookup.request(endpoint, fields);
        self.requests = Ghost(self.requests@.push((endpoint@, fields@, r)));
        r
    }
}

/// The API path of one pull request, as text.
pub open spec fn pull_endpoint_spec(owner: Seq<char>, repo: Seq<char>, number: u64) -> Seq<char> {
    "repos/"@ + owner + "/"@ + repo + "/pulls/"@ + crate::text::decimal(number as nat)
}

/// The API path of a repository's pull requests.
pub open spec fn pulls_endpoint_spec(owner: Seq<char>, repo: Seq<char>) -> Seq<char> {
    "repos/"@ + owner + "/"@ + repo + "/pulls"@
}

/// `q` is the query for `branch`'s pull requests in `state`, newest first.
pub open spec fn is_pulls_query(q: Seq<(String, String)>, owner: Seq<char>, branch: Seq<char>, state: Seq<char>) -> bool {
    &&& q.len() == 5
    &&& q[0].0@ == "head"@ && q[0].1@ == owner + ":"@ + branch
    &&& q[1].0@ == "state"@ && q[1].1@ == state
    &&& q[2].0@ == "sort"@ && q[2].1@ == "created"@
    &&& q[3].0@ == "direction"@ && q[3].1@ == "desc"@
    &&& q[4].0@ == "per_page"@ && q[4].1@ == "100"@
}

/// `r` is what a stored link's lookup gives when GitHub answered `value`: the pull
/// request it describes, refused when it is another one than `number`.
pub open spec fn linked_pull_ok(r: Result<Option<PullRequest>, String>, value: Json, number: u64) -> bool {
    match pr_from_json(value) {
        None => r matches Err(e) && e@ == "invalid GitHub pull request response"@,
        Some(t) => if t.0 != number {
            r matches Err(e) && e@ == "GitHub returned a different pull request"@
        } else {
            r matches Ok(Some(p)) && (p.number, p.url@, p.state) == t
        },
    }
}

/// `reqs` are the searches for `branch`'s pull request after `origin` answered
/// `origin`, and `r` what they give: none when `origin` is not on GitHub; the open ones
/// first, then all of them when no open one is the branch's.
pub open spec fn branch_search_ok(
    reqs: Seq<(Seq<char>, Seq<(String, String)>, Result<Json, String>)>,
    origin: Result<Option<(String, String)>, String>,
    r: Result<Option<PullRequest>, String>,
    branch: Seq<char>,
) -> bool {
    match origin {
        Err(e) => reqs.len() == 0 && r == Err::<Option<PullRequest>, String>(e),
        Ok(None) => reqs.len() == 0 && r == Ok::<Option<PullRequest>, String>(None),
        Ok(Some(o)) => {
            &&& reqs.len() >= 1
            &&& reqs[0].0 == pulls_endpoint_spec(o.0@, o.1@)
            &&& is_pulls_query(reqs[0].1, o.0@, branch, "open"@)
            &&& match reqs[0].2 {
                Err(e) => reqs.len() == 1 && r == Err::<Option<PullRequest>, String>(e),
                Ok(v) => if select_ok(Ok(None), v, o.0@, o.1@, branch) {
                    &&& reqs.len() == 2
                    &&& reqs[1].0 == pulls_endpoint_spec(o.0@, o.1@)
                    &&& is_pulls_query(reqs[1].1, o.0@, branch, "all"@)
                    &&& match reqs[1].2 {
                        Err(e) => r == Err::<Option<PullRequest>, String>(e),
                        Ok(v2) => select_ok(r, v2, o.0@, o.1@, branch),
                    }
                } else {
                    reqs.len() == 1 && select_ok(r, v, o.0@, o.1@, branch)
                },
            }
        },
    }
}

/// The API path of one pull request.
pub fn pull_endpoint(reference: &GitHubIssueRef) -> (r: String)
    ensures
        r@ == "repos/"@ + reference.owner@ + "/"@ + reference.repo@ + "/pulls/"@ + crate::text::decimal(
            reference.number as nat,
        ),
{
    let mut e = owned("repos/");
    push_str(&mut e, reference.owner.as_str());
    push_str(&mut e, "/");
    push_str(&mut e, reference.repo.as_str());
    push_str(&mut e, "/pulls/");
    crate::text::push_decimal(&mut e, reference.number, 0);
    e
}

/// The query for a branch's pull requests in one state, newest first.
pub fn pulls_query(owner: &str, branch: &str, state: &str) -> (r: Vec<(String, String)>)
    ensures
        r@.len() == 5,
        r@[0].0@ == "head"@ && r@[0].1@ == owner@ + ":"@ + branch@,
        r@[1].0@ == "state"@ && r@[1].1@ == state@,
        r@[2].0@ == "sort"@ && r@[2].1@ == "created"@,
        r@[3].0@ == "direction"@ && r@[3].1@ == "desc"@,
        r@[4].0@ == "per_page"@ && r@[4].1@ == "100"@,
{
    let mut head = owned(owner);
    push_str(&mut head, ":");
    push_str(&mut head, branch);
    let mut q: Vec<(String, String)> = Vec::new();
    q.push((owned("head"), head));
    q.push((owned("state"), owned(state)));
    q.push((owned("sort"), owned("created")));
    q.push((owned("direction"), owned("desc")));
    q.push((owned("per_page"), owned("100")));
    q
}

/// Find a task's pull request. A stored pull-request link stays authoritative, even after
/// a merge or the branch's removal; otherwise the branch's pull requests on `origin` are
/// searched, open ones first so that many old ones cannot hide an open one.
pub fn find_task_pull_request<L: PullRequestLookup>(lookup: &mut LoggedLookup<L>, branch: &str, pr_url: &str) -> (r: Result<
    Option<PullRequest>,
    String,
>)
    ensures
        pull_ref_spec(pr_url@) matches Some(rf) ==> match r {
            Ok(Some(p)) => p.number == rf.2,
            Ok(None) => false,
            Err(_) => true,
        },
        pull_ref_spec(pr_url@) matches Some(rf) ==> {
            &&& final(lookup).origins() == old(lookup).origins()
            &&& final(lookup).requests().len() == old(lookup).requests().len() + 1
            &&& final(lookup).requests().drop_last() == old(lookup).requests()
            &&& final(lookup).requests().last().0 == pull_endpoint_spec(rf.0, rf.1, rf.2)
            &&& final(lookup).requests().last().1.len() == 0
            &&& match final(lookup).requests().last().2 {
                Err(e) => r == Err::<Option<PullRequest>, String>(e),
                Ok(v) => linked_pull_ok(r, v, rf.2),
            }
        },
        pull_ref_spec(pr_url@) is None && branch@.len() == 0 ==> r == Ok::<Option<PullRequest>, String>(None)
            && final(lookup).origins() == old(lookup).origins() && final(lookup).requests() == old(
            lookup,
        ).requests(),
        pull_ref_spec(pr_url@) is None && branch@.len() > 0 ==> {
            &&& final(lookup).origins().len() == old(lookup).origins().len() + 1
            &&& final(lookup).origins().drop_last() == old(lookup).origins()
            &&& final(lookup).requests().len() >= old(lookup).requests().len()
            &&& final(lookup).requests().subrange(0, old(lookup).requests().len() as int) == old(lookup).requests()
            &&& branch_search_ok(
                final(lookup).requests().skip(old(lookup).requests().len() as int),
                final(lookup).origins().last(),
                r,
                branch@,
            )
        },
{
    let ghost o0 = lookup.origins();
    let ghost q0 = lookup.requests();
    match github_pull_request_ref(pr_url) {
        Some(reference) => {
            let endpoint = pull_endpoint(&reference);
            let none: Vec<(String, String)> = Vec::new();
            let answer = lookup.request(endpoint.as_str(), &none);
            assert(lookup.requests().drop_last() =~= q0);
            assert(endpoint@ =~= pull_endpoint_spec(reference.owner@, reference.repo@, reference.number));
            let value = match answer {
                Ok(v) => v,
                Err(e) => {
                    return Err(e);
                },
            };
            let pull = match pull_request_from_json(&value) {
                Ok(p) => p,
                Err(e) => {
                    return Err(e);
                },
            };
            if pull.number != reference.number {
                return Err(owned("GitHub returned a different pull request"));
            }
            Ok(Some(pull))
        },
        None => {
            if branch.unicode_len() == 0 {
                return Ok(None);
            }
            let origin = lookup.origin();
            proof {
                assert(lookup.origins().drop_last() =~= o0);
                assert(lookup.requests().skip(q0.len() as int) =~= Seq::<(Seq<char>, Seq<(String, String)>, Result<Json, String>)>::empty());
                assert(lookup.requests().subrange(0, q0.len() as int) =~= q0);
            }
            let (owner, repo_name) = match origin {
                Ok(Some(o)) => o,
                Ok(None) => {
                    return Ok(None);
                },
                Err(e) => {
                    return Err(e);
                },
            };
            let mut endpoint = owned("repos/");
            push_str(&mut endpoint, owner.as_str());
            push_str(&mut endpoint, "/");
            push_str(&mut endpoint, repo_name.as_str());
            push_str(&mut endpoint, "/pulls");
            assert(endpoint@ =~= pulls_endpoint_spec(owner@, repo_name@));
            let open_query = pulls_query(owner.as_str(), branch, "open");
            let answer = lookup.request(endpoint.as_str(), &open_query);
            let ghost q1 = lookup.requests();
            proof {
                assert(q1.skip(q0.len() as int) =~= seq![(endpoint@, open_query@, answer)]);
                assert(q1.subrange(0, q0.len() as int) =~= q0);
            }
            let value = match answer {
                Ok(v) => v,
                Err(e) => {
                    return Err(e);
                },
            };
            match select_branch_pull_request(&value, owner.as_str(), repo_name.as_str(), branch) {
                Ok(Some(p)) => {
                    return Ok(Some(p));
                },
                Ok(None) => {},
                Err(e) => {
                    return Err(e);
                },
            }
            let all_query = pulls_query(owner.as_str(), branch, "all");
            let answer = lookup.request(endpoint.as_str(), &all_query);
            proof {
                assert(lookup.requests().skip(q0.len() as int) =~= seq![
                    (endpoint@, open_query@, Ok::<Json, String>(value)),
                    (endpoint@, all_query@, answer),
                ]);
                assert(lookup.requests().subrange(0, q0.len() as int) =~= q0);
            }
            let value = match answer {
                Ok(v) => v,
                Err(e) => {
                    return Err(e);
                },
            };
            select_branch_pull_request(&value, owner.as_str(), repo_name.as_str(), branch)
        },
    }
}

/// The link a push stores: the compare page, unless the task already links a real pull
/// request (the durable link is how a merged one is found later). `Ok(None)` keeps the
/// stored link; a task whose branch changed during the push is refused.
pub fn pushed_pr_url(task_branch: &str, pushed_branch: &str, task_pr_url: &str, url: &str) -> (r: Result<
    Option<String>,
    String,
>)
    ensures
        task_branch@ != pushed_branch@ ==> (r matches Err(e) && e@ == "task branch changed during push"@),
        task_branch@ == pushed_branch@ && pull_ref_spec(task_pr_url@) is None ==> (r matches Ok(Some(u)) && u@ == url@),
        task_branch@ == pushed_branch@ && pull_ref_spec(task_pr_url@) is Some ==> r == Ok::<Option<String>, String>(None),
{
    if !str_eq(task_branch, pushed_branch) {
        return Err(owned("task branch changed during push"));
    }
    match github_pull_request_ref(task_pr_url) {
        None => Ok(Some(owned(url))),
        Some(_) => Ok(None),
    }
}

/// A discovered pull request is stored only while the task still has the branch and the
/// link the lookup started from.
pub fn discovered_pr_check(task_branch: &str, task_pr_url: &str, branch: &str, previous_url: &str) -> (r: Result<
    (),
    String,
>)
    ensures
        r is Ok <==> (task_branch@ == branch@ && task_pr_url@ == previous_url@),
        r matches Err(e) ==> e@ == "task branch or PR link changed during lookup"@,
{
    if !str_eq(task_branch, branch) || !str_eq(task_pr_url, previous_url) {
        Err(owned("task branch or PR link changed during lookup"))
    } else {
        Ok(())
    }
}

/// What `git commit` reported on failure: its stderr, or its stdout when stderr is blank.
pub fn commit_failure(stderr: &str, stdout: &str) -> (r: String)
    ensures
        r@ == "git commit failed: "@ + if trim(stderr@).len() == 0 {
            trim(stdout@)
        } else {
            trim(stderr@)
        },
{
    let e = crate::text::trim_str(stderr);
    let detail = if e.as_str().unicode_len() == 0 {
        crate::text::trim_str(stdout)
    } else {
        e
    };
    let mut m = owned("git commit failed: ");
    push_str(&mut m, detail.as_str());
    m
}


/// A task's worktree can be removed when it has a dedicated one that is still there.
pub fn worktree_removal_check(has_worktree: bool, worktree: &str) -> (r: Result<(), String>)
    ensures
        !has_worktree ==> (r matches Err(e) && e@ == "this "@ + "task has no dedicated worktree to remove"@),
        has_worktree && worktree@.len() == 0 ==> (r matches Err(e) && e@ == "worktree already removed"@),
        has_worktree && worktree@.len() > 0 ==> r is Ok,
{
    if !has_worktree {
        let mut m = owned("this ");
        push_str(&mut m, "task has no dedicated worktree to remove");
        return Err(m);
    }
    if worktree.unicode_len() == 0 {
        return Err(owned("worktree already removed"));
    }
    Ok(())
}

/// The removal is recorded only while the task still names the worktree that was removed.
pub fn removal_record_check(current: &str, removed: &str) -> (r: Result<(), String>)
    ensures
        current@ == removed@ ==> r is Ok,
        current@ != removed@ ==> (r matches Err(e) && e@ == "task worktree changed during removal"@),
{
    if str_eq(current, removed) {
        Ok(())
    } else {
        Err(owned("task worktree changed during removal"))
    }
}

/// A push needs the task's worktree.
pub fn push_check(worktree: &str) -> (r: Result<(), String>)
    ensures
        worktree@.len() == 0 ==> (r matches Err(e) && e@ == "worktree removed — nothing to push"@),
        worktree@.len() > 0 ==> r is Ok,
{
    if worktree.unicode_len() == 0 {
        return Err(owned("worktree removed — nothing to push"));
    }
    Ok(())
}

/// A commit needs the task's worktree and a message; the message is committed trimmed.
pub fn commit_check(worktree: &str, message: &str) -> (r: Result<String, String>)
    ensures
        worktree@.len() == 0 ==> (r matches Err(e) && e@ == "worktree removed — nothing to commit"@),
        worktree@.len() > 0 && crate::text::trim(message@).len() == 0 ==> (r matches Err(e) && e@
            == "commit message is empty"@),
        worktree@.len() > 0 && crate::text::trim(message@).len() > 0 ==> (r matches Ok(m) && m@ == crate::text::trim(
            message@,
        )),
{
    if worktree.unicode_len() == 0 {
        return Err(owned("worktree removed — nothing to commit"));
    }
    let m = crate::text::trim_str(message);
    if m.as_str().unicode_len() == 0 {
        return Err(owned("commit message is empty"));
    }
    Ok(m)
}

/// A failed git step's message: `git <step> failed: <its error output, trimmed>`.
pub fn git_step_failure(step: &str, stderr: &str) -> (r: String)
    ensures
        r@ == "git "@ + step@ + " failed: "@ + crate::text::trim(stderr@),
{
    let mut m = owned("git ");
    push_str(&mut m, step);
    push_str(&mut m, " failed: ");
    let t = crate::text::trim_str(stderr);
    push_str(&mut m, t.as_str());
    m
}

} // verus!
