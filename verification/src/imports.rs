//! Issue imports: Linear identifiers, GitHub issue and pull-request references, and the
//! task description composed from a GitHub thread.
use vstd::prelude::*;
use vstd::string::*;
use crate::connections::digits_value;
use crate::json::{field, str_field, str_field_exec, str_field_or_empty, str_field_or_empty_exec, Json};
use crate::text::{
    all_alpha, all_alpha_exec, all_digits, all_digits_exec, append_chars, chars_of, find_char, find_seq,
    find_seq_from, first_index_of, has_suffix, lemma_first_index_of, owned, push_chars, push_decimal, push_str,
    rsplit_once, rsplit_once_chars, slice_chars, split, split_once, split_once_chars, str_eq, string_of,
    strip_prefix, strip_prefix_exec, trim, trim_chars, trim_end_char, trim_end_char_exec, trim_end_seq,
    trim_end_seq_exec, trim_start_char, trim_start_char_exec, upper_chars, upper_seq, replace_all,
    replace_all_exec,
};

verus! {

broadcast use vstd::seq_lib::group_seq_properties;

/// The text before the first `c` (all of it when there is none).
pub open spec fn before_first(s: Seq<char>, c: char) -> Seq<char> {
    match first_index_of(s, c) {
        Some(i) => s.take(i),
        None => s,
    }
}

pub fn before_first_exec(v: &Vec<char>, c: char) -> (r: Vec<char>)
    ensures
        r@ == before_first(v@, c),
{
    proof {
        lemma_first_index_of(v@, c);
    }
    match find_char(v.as_slice(), c) {
        Some(i) => slice_chars(v, 0, i),
        None => slice_chars(v, 0, v.len()),
    }
}

/// `LETTERS-DIGITS`: a non-empty run of ASCII letters, a dash, a non-empty run of digits.
pub open spec fn linear_id_shape(c: Seq<char>) -> bool {
    match split_once(c, '-') {
        Some((a, b)) => a.len() > 0 && all_alpha(a) && b.len() > 0 && all_digits(b),
        None => false,
    }
}

/// The identifier a Linear reference names: a bare `ENG-123`, or the segment after
/// `/issue/` in an issue URL; uppercased.
pub open spec fn linear_ref_spec(input: Seq<char>) -> Option<Seq<char>> {
    let s = trim(input);
    let candidate = trim(
        match find_seq(s, "/issue/"@) {
            Some(idx) => before_first(s.skip(idx + 7), '/'),
            None => s,
        },
    );
    if linear_id_shape(candidate) {
        Some(upper_seq(candidate))
    } else {
        None
    }
}

pub fn parse_linear_ref(input: &str) -> (r: Option<String>)
    ensures
        match r {
            Some(id) => linear_ref_spec(input@) == Some(id@),
            None => linear_ref_spec(input@) is None,
        },
{
    let v = chars_of(input);
    let s = trim_chars(&v);
    let marker = chars_of("/issue/");
    proof {
        reveal_strlit("/issue/");
        crate::text::lemma_find_from(s@, marker@, 0);
    }
    let picked = match find_seq_from(s.as_slice(), marker.as_slice(), 0) {
        Some(idx) => {
            let rest = slice_chars(&s, idx + 7, s.len());
            assert(rest@ =~= s@.skip(idx + 7));
            before_first_exec(&rest, '/')
        },
        None => slice_chars(&s, 0, s.len()),
    };
    assert(picked@ == match find_seq(s@, "/issue/"@) {
        Some(idx) => before_first(s@.skip(idx + 7), '/'),
        None => s@,
    });
    let candidate = trim_chars(&picked);
    let ok = match split_once_chars(&candidate, '-') {
        Some((a, b)) => a.len() > 0 && all_alpha_exec(a.as_slice()) && b.len() > 0 && all_digits_exec(b.as_slice()),
        None => false,
    };
    if ok {
        Some(string_of(upper_chars(candidate.as_slice()).as_slice()))
    } else {
        None
    }
}

/// A GitHub issue or pull request.
pub struct GitHubIssueRef {
    pub owner: String,
    pub repo: String,
    pub number: u64,
}

/// `owner/repo#number`.
pub open spec fn label_spec(r: GitHubIssueRef) -> Seq<char> {
    r.owner@ + "/"@ + r.repo@ + "#"@ + crate::text::decimal(r.number as nat)
}

impl GitHubIssueRef {
    pub fn label(&self) -> (r: String)
        ensures
            r@ == label_spec(*self),
    {
        let mut out = owned(self.owner.as_str());
        push_str(&mut out, "/");
        push_str(&mut out, self.repo.as_str());
        push_str(&mut out, "#");
        push_decimal(&mut out, self.number, 0);
        out
    }
}

/// A positive issue number written in plain decimal digits, surrounding blanks allowed.
pub open spec fn issue_number_spec(s: Seq<char>) -> Option<u64> {
    let t = trim(s);
    if t.len() > 0 && all_digits(t) && digits_value(t) <= u64::MAX && digits_value(t) > 0 {
        Some(digits_value(t) as u64)
    } else {
        None
    }
}

proof fn lemma_digits_push(s: Seq<char>, x: char)
    requires
        crate::text::is_digit(x),
    ensures
        digits_value(s.push(x)) == digits_value(s) * 10 + ((x as u32) - 48),
{
    assert(s.push(x).drop_last() =~= s);
}

proof fn lemma_digits_prefix(s: Seq<char>, i: int)
    requires
        0 <= i <= s.len(),
        all_digits(s),
    ensures
        digits_value(s.take(i)) <= digits_value(s),
    decreases s.len() - i,
{
    if i < s.len() {
        lemma_digits_prefix(s, i + 1);
        assert(s.take(i + 1) =~= s.take(i).push(s[i]));
        lemma_digits_push(s.take(i), s[i]);
    }
}

pub(crate) fn digits_u64(t: &Vec<char>) -> (r: Option<u64>)
    requires
        all_digits(t@),
    ensures
        match r {
            Some(n) => n == digits_value(t@),
            None => digits_value(t@) > u64::MAX,
        },
{
    let mut v: u64 = 0;
    let mut i: usize = 0;
    assert(t@.take(0) =~= Seq::<char>::empty());
    while i < t.len()
        invariant
            all_digits(t@),
            i <= t@.len(),
            v == digits_value(t@.take(i as int)),
        decreases t@.len() - i,
    {
        let c = t[i];
        assert(crate::text::is_digit(t@[i as int]));
        proof {
            assert(t@.take(i + 1) =~= t@.take(i as int).push(c));
            lemma_digits_push(t@.take(i as int), c);
        }
        let d: u64 = (c as u64) - 48;
        if v > (u64::MAX - d) / 10 {
            proof {
                lemma_digits_prefix(t@, i + 1);
                assert(v * 10 + d > u64::MAX) by (nonlinear_arith)
                    requires
                        v > (u64::MAX - d) / 10,
                        d <= 9,
                ;
            }
            return None;
        }
        proof {
            assert(v * 10 + d <= u64::MAX) by (nonlinear_arith)
                requires
                    v <= (u64::MAX - d) / 10,
                    d <= 9,
            ;
        }
        v = v * 10 + d;
        i = i + 1;
    }
    assert(t@.take(i as int) =~= t@);
    Some(v)
}

pub fn issue_number(s: &str) -> (r: Option<u64>)
    ensures
        r == issue_number_spec(s@),
{
    let v = chars_of(s);
    let t = trim_chars(&v);
    if t.len() == 0 || !all_digits_exec(t.as_slice()) {
        return None;
    }
    match digits_u64(&t) {
        Some(n) => if n > 0 {
            Some(n)
        } else {
            None
        },
        None => None,
    }
}

/// An owner and repository name: trimmed, the repository without `.git` suffixes, both
/// non-empty and free of `/` and `#`.
pub open spec fn owner_repo_spec(owner: Seq<char>, repo: Seq<char>) -> Option<(Seq<char>, Seq<char>)> {
    let o = trim(owner);
    let r = trim_end_seq(trim(repo), ".git"@);
    if o.len() > 0 && r.len() > 0 && !o.contains('/') && !r.contains('/') && !o.contains('#') && !r.contains('#') {
        Some((o, r))
    } else {
        None
    }
}

fn has_char(v: &Vec<char>, c: char) -> (r: bool)
    ensures
        r == v@.contains(c),
{
    proof {
        lemma_first_index_of(v@, c);
    }
    match find_char(v.as_slice(), c) {
        Some(i) => {
            assert(v@[i as int] == c);
            true
        },
        None => false,
    }
}

fn owner_repo_chars(owner: &Vec<char>, repo: &Vec<char>) -> (r: Option<(String, String)>)
    ensures
        match r {
            Some((o, p)) => owner_repo_spec(owner@, repo@) == Some((o@, p@)),
            None => owner_repo_spec(owner@, repo@) is None,
        },
{
    let o = trim_chars(owner);
    let rt = trim_chars(repo);
    let git = chars_of(".git");
    let r = trim_end_seq_exec(&rt, git.as_slice());
    if o.len() > 0 && r.len() > 0 && !has_char(&o, '/') && !has_char(&r, '/') && !has_char(&o, '#') && !has_char(
        &r,
        '#',
    ) {
        Some((string_of(o.as_slice()), string_of(r.as_slice())))
    } else {
        None
    }
}

pub fn owner_repo(owner: &str, repo: &str) -> (r: Option<(String, String)>)
    ensures
        match r {
            Some((o, p)) => owner_repo_spec(owner@, repo@) == Some((o@, p@)),
            None => owner_repo_spec(owner@, repo@) is None,
        },
{
    owner_repo_chars(&chars_of(owner), &chars_of(repo))
}

/// `s` with its first `c` replaced by `r`.
pub open spec fn replace_first(s: Seq<char>, c: char, r: Seq<char>) -> Seq<char> {
    match first_index_of(s, c) {
        Some(i) => s.take(i) + r + s.skip(i + 1),
        None => s,
    }
}

/// The host and path of a remote URL: scp-style `git@host:path`, or `ssh://`,
/// `https://` or `http://` URLs.
pub open spec fn remote_hostpath(r: Seq<char>) -> Option<Seq<char>> {
    match strip_prefix(r, "git@"@) {
        Some(rest) => Some(replace_first(rest, ':', "/"@)),
        None => match strip_prefix(r, "ssh://"@) {
            Some(rest) => Some(rest),
            None => match strip_prefix(r, "https://"@) {
                Some(rest) => Some(rest),
                None => strip_prefix(r, "http://"@),
            },
        },
    }
}

/// The github.com repository an `origin` remote points at.
pub open spec fn repo_from_remote_spec(remote: Seq<char>) -> Option<(Seq<char>, Seq<char>)> {
    let r = trim_end_seq(trim_end_char(trim(remote), '/'), ".git"@);
    match remote_hostpath(r) {
        None => None,
        Some(hp) => match split_once(hp, '/') {
            None => None,
            Some((host, path)) => {
                let h1 = match rsplit_once(host, '@') {
                    Some((_, h)) => h,
                    None => host,
                };
                let h2 = before_first(h1, ':');
                if h2 != "github.com"@ || split(path, '/').len() < 2 {
                    None
                } else {
                    owner_repo_spec(split(path, '/')[0], split(path, '/')[1])
                }
            },
        },
    }
}

pub fn replace_first_exec(v: &Vec<char>, c: char, r: &str) -> (out: Vec<char>)
    ensures
        out@ == replace_first(v@, c, r@),
{
    proof {
        lemma_first_index_of(v@, c);
    }
    let n = v.len();
    match find_char(v.as_slice(), c) {
        Some(i) => {
            let mut out = slice_chars(v, 0, i);
            let rv = chars_of(r);
            append_chars(&mut out, rv.as_slice());
            let tail = slice_chars(v, i + 1, v.len());
            append_chars(&mut out, tail.as_slice());
            out
        },
        None => slice_chars(v, 0, v.len()),
    }
}

fn remote_hostpath_exec(r: &Vec<char>) -> (out: Option<Vec<char>>)
    ensures
        match out {
            Some(hp) => remote_hostpath(r@) == Some(hp@),
            None => remote_hostpath(r@) is None,
        },
{
    match strip_prefix_exec(r, "git@") {
        Some(rest) => {
            return Some(replace_first_exec(&rest, ':', "/"));
        },
        None => {},
    }
    match strip_prefix_exec(r, "ssh://") {
        Some(rest) => {
            return Some(rest);
        },
        None => {},
    }
    match strip_prefix_exec(r, "https://") {
        Some(rest) => {
            return Some(rest);
        },
        None => {},
    }
    strip_prefix_exec(r, "http://")
}

pub fn github_repo_from_remote(remote: &str) -> (out: Option<(String, String)>)
    ensures
        match out {
            Some((o, p)) => repo_from_remote_spec(remote@) == Some((o@, p@)),
            None => repo_from_remote_spec(remote@) is None,
        },
{
    let v = chars_of(remote);
    let t = trim_chars(&v);
    let t2 = trim_end_char_exec(&t, '/');
    let git = chars_of(".git");
    let r = trim_end_seq_exec(&t2, git.as_slice());
    let hp = match remote_hostpath_exec(&r) {
        Some(hp) => hp,
        None => {
            return None;
        },
    };
    let (host, path) = match split_once_chars(&hp, '/') {
        Some(x) => x,
        None => {
            return None;
        },
    };
    let h1 = match rsplit_once_chars(&host, '@') {
        Some((_, h)) => h,
        None => host,
    };
    let h2 = before_first_exec(&h1, ':');
    if !crate::text::chars_eq_str(h2.as_slice(), "github.com") {
        return None;
    }
    let parts = crate::callback::split_chars(&path, '/');
    if parts.len() < 2 {
        return None;
    }
    owner_repo_chars(&parts[0], &parts[1])
}

/// A GitHub issue or pull-request path `owner/repo/issues|pull/N`, ignoring any query,
/// fragment, and leading or trailing slashes.
pub open spec fn issue_path_spec(path: Seq<char>) -> Option<(Seq<char>, Seq<char>, u64)> {
    let p = trim_end_char(trim_start_char(before_first(before_first(path, '?'), '#'), '/'), '/');
    let parts = split(p, '/');
    if parts.len() != 4 || !(parts[2] == "issues"@ || parts[2] == "pull"@) {
        None
    } else {
        match owner_repo_spec(parts[0], parts[1]) {
            None => None,
            Some((o, r)) => match issue_number_spec(parts[3]) {
                None => None,
                Some(n) => Some((o, r, n)),
            },
        }
    }
}

/// `r` is the reference `(owner, repo, number)`.
pub open spec fn ref_is(r: GitHubIssueRef, v: (Seq<char>, Seq<char>, u64)) -> bool {
    r.owner@ == v.0 && r.repo@ == v.1 && r.number == v.2
}

fn issue_path_chars(path: &Vec<char>) -> (r: Option<GitHubIssueRef>)
    ensures
        match r {
            Some(x) => issue_path_spec(path@) matches Some(v) && ref_is(x, v),
            None => issue_path_spec(path@) is None,
        },
{
    let a = before_first_exec(path, '?');
    let b = before_first_exec(&a, '#');
    let c = trim_start_char_exec(&b, '/');
    let p = trim_end_char_exec(&c, '/');
    let parts = crate::callback::split_chars(&p, '/');
    if parts.len() != 4 {
        return None;
    }
    if !(crate::text::chars_eq_str(parts[2].as_slice(), "issues") || crate::text::chars_eq_str(
        parts[2].as_slice(),
        "pull",
    )) {
        return None;
    }
    let (owner, repo) = match owner_repo_chars(&parts[0], &parts[1]) {
        Some(x) => x,
        None => {
            return None;
        },
    };
    let number = match issue_number(string_of(parts[3].as_slice()).as_str()) {
        Some(n) => n,
        None => {
            return None;
        },
    };
    Some(GitHubIssueRef { owner, repo, number })
}

pub fn parse_issue_path(path: &str) -> (r: Option<GitHubIssueRef>)
    ensures
        match r {
            Some(x) => issue_path_spec(path@) matches Some(v) && ref_is(x, v),
            None => issue_path_spec(path@) is None,
        },
{
    issue_path_chars(&chars_of(path))
}

/// What a reference typed by the user names. A bare `#N` or `N` needs the active
/// repository's default; otherwise a github.com URL, an `owner/repo/issues|pull/N` path,
/// or `owner/repo#N`.
pub open spec fn github_ref_spec(input: Seq<char>, default_repo: Option<(Seq<char>, Seq<char>)>) -> Option<
    (Seq<char>, Seq<char>, u64),
> {
    let s = trim_end_char(trim(input), '/');
    if s.len() == 0 {
        None
    } else if strip_prefix(s, "#"@) is Some && issue_number_spec(strip_prefix(s, "#"@)->0) is Some {
        match default_repo {
            Some((o, r)) => Some((o, r, issue_number_spec(strip_prefix(s, "#"@)->0)->0)),
            None => None,
        }
    } else if issue_number_spec(s) is Some {
        match default_repo {
            Some((o, r)) => Some((o, r, issue_number_spec(s)->0)),
            None => None,
        }
    } else {
        let url_path = match strip_prefix(s, "https://github.com/"@) {
            Some(p) => Some(p),
            None => strip_prefix(s, "http://github.com/"@),
        };
        if url_path is Some && issue_path_spec(url_path->0) is Some {
            issue_path_spec(url_path->0)
        } else if issue_path_spec(s) is Some {
            issue_path_spec(s)
        } else {
            match rsplit_once(s, '#') {
                None => None,
                Some((repo_ref, number)) => match issue_number_spec(number) {
                    None => None,
                    Some(n) => match split_once(repo_ref, '/') {
                        None => None,
                        Some((o, r)) => match owner_repo_spec(o, r) {
                            None => None,
                            Some((o2, r2)) => Some((o2, r2, n)),
                        },
                    },
                },
            }
        }
    }
}

/// `c` occurs at most once in `s`.
pub open spec fn at_most_once(s: Seq<char>, c: char) -> bool {
    forall|i: int, j: int| 0 <= i < j < s.len() ==> !(#[trigger] s[i] == c && #[trigger] s[j] == c)
}

proof fn lemma_amo_take(s: Seq<char>, c: char, k: int)
    requires
        at_most_once(s, c),
        0 <= k <= s.len(),
    ensures
        at_most_once(s.take(k), c),
{
    assert forall|i: int, j: int| 0 <= i < j < s.take(k).len() implies !(#[trigger] s.take(k)[i] == c
        && #[trigger] s.take(k)[j] == c) by {
        assert(s.take(k)[i] == s[i] && s.take(k)[j] == s[j]);
    }
}

proof fn lemma_amo_skip(s: Seq<char>, c: char, k: int)
    requires
        at_most_once(s, c),
        0 <= k <= s.len(),
    ensures
        at_most_once(s.skip(k), c),
{
    assert forall|i: int, j: int| 0 <= i < j < s.skip(k).len() implies !(#[trigger] s.skip(k)[i] == c
        && #[trigger] s.skip(k)[j] == c) by {
        assert(s.skip(k)[i] == s[i + k] && s.skip(k)[j] == s[j + k]);
    }
}

proof fn lemma_amo_trim_start_char(s: Seq<char>, c: char, d: char)
    requires
        at_most_once(s, c),
    ensures
        at_most_once(trim_start_char(s, d), c),
    decreases s.len(),
{
    if s.len() > 0 && s[0] == d {
        lemma_amo_skip(s, c, 1);
        assert(s.skip(1) =~= s.drop_first());
        lemma_amo_trim_start_char(s.drop_first(), c, d);
    }
}

proof fn lemma_amo_trim_end_char(s: Seq<char>, c: char, d: char)
    requires
        at_most_once(s, c),
    ensures
        at_most_once(trim_end_char(s, d), c),
    decreases s.len(),
{
    if s.len() > 0 && s.last() == d {
        lemma_amo_take(s, c, s.len() - 1);
        assert(s.take(s.len() - 1) =~= s.drop_last());
        lemma_amo_trim_end_char(s.drop_last(), c, d);
    }
}

proof fn lemma_amo_before_first(s: Seq<char>, c: char, d: char)
    requires
        at_most_once(s, c),
    ensures
        at_most_once(crate::imports::before_first(s, d), c),
{
    lemma_first_index_of(s, d);
    match first_index_of(s, d) {
        Some(i) => lemma_amo_take(s, c, i),
        None => {},
    }
}

/// Splitting on a character that occurs at most once gives at most two pieces.
proof fn lemma_split_short(s: Seq<char>, c: char)
    requires
        at_most_once(s, c),
    ensures
        split(s, c).len() <= 2,
{
    lemma_first_index_of(s, c);
    match first_index_of(s, c) {
        Some(i) => {
            let rest = s.skip(i + 1);
            lemma_first_index_of(rest, c);
            if first_index_of(rest, c) is Some {
                let j = first_index_of(rest, c)->0;
                assert(rest[j] == s[i + 1 + j]);
                assert(s[i] == c && s[i + 1 + j] == c);
                assert(false);
            }
            assert(split(rest, c) == seq![rest]);
        },
        None => {},
    }
}

/// Decimal digits read back as their number.
proof fn lemma_decimal_value(n: nat)
    ensures
        crate::text::decimal(n).len() >= 1,
        all_digits(crate::text::decimal(n)),
        digits_value(crate::text::decimal(n)) == n,
    decreases n,
{
    if n < 10 {
        let d = crate::text::decimal(n);
        assert(d == seq![crate::text::digit(n as int)]);
        assert(d.drop_last() =~= Seq::<char>::empty());
        assert(digits_value(Seq::<char>::empty()) == 0);
        assert(d.last() == crate::text::digit(n as int));
        assert(((crate::text::digit(n as int) as u32) - 48) as nat == n);
    } else {
        lemma_decimal_value(n / 10);
        let d = crate::text::decimal(n);
        let x = crate::text::digit((n % 10) as int);
        assert(d == crate::text::decimal(n / 10).push(x));
        assert(d.drop_last() =~= crate::text::decimal(n / 10));
        assert(d.last() == x);
        assert(((x as u32) - 48) as nat == n % 10);
        assert(n == (n / 10) * 10 + n % 10) by (nonlinear_arith);
        assert forall|i: int| 0 <= i < d.len() implies crate::text::is_digit(#[trigger] d[i]) by {
            if i < d.len() - 1 {
                assert(d[i] == crate::text::decimal(n / 10)[i]);
            }
        }
    }
}

/// A part of a reference: nonempty, with no `/`, `#` or whitespace.
pub open spec fn plain_ref_part(s: Seq<char>) -> bool {
    s.len() > 0 && forall|i: int| 0 <= i < s.len() ==> #[trigger] s[i] != '/' && s[i] != '#' && !crate::text::is_ws(s[i])
}

/// A part without whitespace or slashes differs from `p` wherever `p` has a slash first.
proof fn lemma_not_url(s: Seq<char>, o: Seq<char>, p: Seq<char>, slash: int)
    requires
        plain_ref_part(o),
        s.len() > o.len(),
        s.take(o.len() as int) == o,
        s[o.len() as int] == '/',
        o.len() + 1 < s.len() ==> s[o.len() as int + 1] != '/',
        0 <= slash < p.len(),
        p[slash] == '/',
        slash + 1 < p.len() && p[slash + 1] == '/',
        forall|k: int| 0 <= k < slash ==> p[k] != '/',
    ensures
        strip_prefix(s, p) is None,
{
    if crate::text::has_prefix(s, p) {
        assert(s.take(p.len() as int)[slash] == p[slash]);
        if o.len() < slash {
            assert(s.take(p.len() as int)[o.len() as int] == p[o.len() as int]);
        } else if o.len() > slash {
            assert(s.take(o.len() as int)[slash] == o[slash]);
        } else {
            assert(s.take(p.len() as int)[slash + 1] == p[slash + 1]);
        }
    }
}

/// The label text of `o`, `p` and digits `d`.
pub open spec fn label_text(o: Seq<char>, p: Seq<char>, d: Seq<char>) -> Seq<char> {
    o + "/"@ + p + "#"@ + d
}

proof fn lemma_label_index(o: Seq<char>, p: Seq<char>, d: Seq<char>)
    ensures
        label_text(o, p, d).len() == o.len() + p.len() + d.len() + 2,
        forall|i: int| 0 <= i < o.len() ==> label_text(o, p, d)[i] == o[i],
        label_text(o, p, d)[o.len() as int] == '/',
        forall|i: int| 0 <= i < p.len() ==> label_text(o, p, d)[o.len() + 1 + i] == p[i],
        label_text(o, p, d)[(o.len() + p.len() + 1) as int] == '#',
        forall|i: int| 0 <= i < d.len() ==> label_text(o, p, d)[o.len() + p.len() + 2 + i] == d[i],
{
    reveal_strlit("/");
    reveal_strlit("#");
}

proof fn lemma_label_not_path(o: Seq<char>, p: Seq<char>, d: Seq<char>)
    requires
        plain_ref_part(o),
        plain_ref_part(p),
        all_digits(d),
    ensures
        crate::imports::issue_path_spec(label_text(o, p, d)) is None,
{
    let s = label_text(o, p, d);
    lemma_label_index(o, p, d);
    assert(at_most_once(s, '/')) by {
        assert forall|i: int, j: int| 0 <= i < j < s.len() implies !(#[trigger] s[i] == '/' && #[trigger] s[j] == '/') by {
            if s[i] == '/' && s[j] == '/' {
                if i < o.len() {
                    assert(s[i] == o[i]);
                } else if i > o.len() && i < o.len() + p.len() + 1 {
                    assert(s[i] == p[i - o.len() - 1]);
                } else if i > o.len() + p.len() + 1 {
                    assert(s[i] == d[i - o.len() - p.len() - 2]);
                } else if j < o.len() + p.len() + 1 {
                    assert(s[j] == p[j - o.len() - 1]);
                } else if j > o.len() + p.len() + 1 {
                    assert(s[j] == d[j - o.len() - p.len() - 2]);
                }
            }
        }
    }
    let q = before_first(before_first(s, '?'), '#');
    lemma_amo_before_first(s, '/', '?');
    lemma_amo_before_first(before_first(s, '?'), '/', '#');
    lemma_amo_trim_start_char(q, '/', '/');
    lemma_amo_trim_end_char(trim_start_char(q, '/'), '/', '/');
    lemma_split_short(trim_end_char(trim_start_char(q, '/'), '/'), '/');
}

proof fn lemma_label_not_url(o: Seq<char>, p: Seq<char>, d: Seq<char>)
    requires
        plain_ref_part(o),
        plain_ref_part(p),
    ensures
        strip_prefix(label_text(o, p, d), "https://github.com/"@) is None,
        strip_prefix(label_text(o, p, d), "http://github.com/"@) is None,
{
    reveal_strlit("https://github.com/");
    reveal_strlit("http://github.com/");
    let s = label_text(o, p, d);
    lemma_label_index(o, p, d);
    assert(s.take(o.len() as int) =~= o);
    let https = "https://github.com/"@;
    let http = "http://github.com/"@;
    assert(https[6] == '/' && https[7] == '/');
    assert(forall|k: int| 0 <= k < 6 ==> https[k] != '/');
    lemma_not_url(s, o, https, 6);
    assert(http[5] == '/' && http[6] == '/');
    assert(forall|k: int| 0 <= k < 5 ==> http[k] != '/');
    lemma_not_url(s, o, http, 5);
}

proof fn lemma_label_split(o: Seq<char>, p: Seq<char>, d: Seq<char>)
    requires
        plain_ref_part(o),
        plain_ref_part(p),
        all_digits(d),
    ensures
        rsplit_once(label_text(o, p, d), '#') == Some((o + "/"@ + p, d)),
        split_once(o + "/"@ + p, '/') == Some((o, p)),
{
    reveal_strlit("/");
    let s = label_text(o, p, d);
    lemma_label_index(o, p, d);
    let head = o + "/"@ + p;
    let hash_at = (o.len() + p.len() + 1) as int;
    assert forall|k: int| hash_at < k < s.len() implies s[k] != '#' by {
        assert(s[k] == d[k - o.len() - p.len() - 2]);
    }
    crate::text::lemma_last_index_char(s, '#', hash_at);
    assert(s.take(hash_at) =~= head);
    assert(s.skip(hash_at + 1) =~= d);
    assert forall|k: int| 0 <= k < o.len() implies head[k] != '/' by {
        assert(head[k] == o[k]);
    }
    assert(head[o.len() as int] == '/');
    crate::text::lemma_first_index_char(head, '/', o.len() as int);
    assert(head.take(o.len() as int) =~= o);
    assert(head.skip(o.len() as int + 1) =~= p);
}

proof fn lemma_ref_spec_owner_repo(
    s: Seq<char>,
    default_repo: Option<(Seq<char>, Seq<char>)>,
    h: Seq<char>,
    d: Seq<char>,
    o: Seq<char>,
    p: Seq<char>,
    n: u64,
)
    requires
        s.len() > 0,
        trim_end_char(trim(s), '/') == s,
        strip_prefix(s, "#"@) is None,
        crate::imports::issue_number_spec(s) is None,
        strip_prefix(s, "https://github.com/"@) is None,
        strip_prefix(s, "http://github.com/"@) is None,
        crate::imports::issue_path_spec(s) is None,
        rsplit_once(s, '#') == Some((h, d)),
        crate::imports::issue_number_spec(d) == Some(n),
        split_once(h, '/') == Some((o, p)),
        crate::imports::owner_repo_spec(o, p) == Some((o, p)),
    ensures
        github_ref_spec(s, default_repo) == Some((o, p, n)),
{
}

/// A reference read back from its label: `owner/repo#number` names that issue again,
/// whatever the default repository, when the owner and repository are nonempty, hold no
/// `/`, `#` or whitespace, the repository does not end in `.git`, and the number is
/// positive.
pub proof fn law_label_reads_back(r: GitHubIssueRef, default_repo: Option<(Seq<char>, Seq<char>)>)
    requires
        plain_ref_part(r.owner@),
        plain_ref_part(r.repo@),
        !has_suffix(r.repo@, ".git"@),
        r.number > 0,
    ensures
        github_ref_spec(label_spec(r), default_repo) == Some((r.owner@, r.repo@, r.number)),
{
    let o = r.owner@;
    let p = r.repo@;
    let n = r.number as nat;
    let d = crate::text::decimal(n);
    lemma_decimal_value(n);
    let s = label_text(o, p, d);
    assert(label_spec(r) == s);
    assert(s.len() > 0 && trim_end_char(trim(s), '/') == s) by {
        lemma_label_index(o, p, d);
        assert(s[0] == o[0]);
        assert(s.last() == d[d.len() - 1]);
        assert(crate::text::is_digit(d[d.len() - 1]));
        crate::text::lemma_trim_noop(s);
    }
    assert(strip_prefix(s, "#"@) is None) by {
        reveal_strlit("#");
        lemma_label_index(o, p, d);
        assert(s[0] == o[0]);
        if crate::text::has_prefix(s, "#"@) {
            assert(s.take(1)[0] == s[0]);
        }
    }
    assert(crate::imports::issue_number_spec(s) is None) by {
        lemma_label_index(o, p, d);
        crate::text::lemma_trim_noop(s);
        assert(!crate::text::is_digit(s[o.len() as int]));
    }
    lemma_label_not_url(o, p, d);
    lemma_label_not_path(o, p, d);
    lemma_label_split(o, p, d);
    assert(crate::imports::issue_number_spec(d) == Some(r.number)) by {
        crate::text::lemma_trim_noop(d);
    }
    assert(crate::imports::owner_repo_spec(o, p) == Some((o, p))) by {
        crate::text::lemma_trim_noop(o);
        crate::text::lemma_trim_noop(p);
        assert(trim_end_seq(p, ".git"@) == p);
        assert(!o.contains('/') && !o.contains('#'));
        assert(!p.contains('/') && !p.contains('#'));
    }
    lemma_ref_spec_owner_repo(s, default_repo, o + "/"@ + p, d, o, p, r.number);
}

pub fn parse_github_ref(input: &str, default_repo: Option<(String, String)>) -> (r: Option<GitHubIssueRef>)
    ensures
        match r {
            Some(x) => github_ref_spec(
                input@,
                match default_repo {
                    Some((o, p)) => Some((o@, p@)),
                    None => None,
                },
            ) matches Some(v) && ref_is(x, v),
            None => github_ref_spec(
                input@,
                match default_repo {
                    Some((o, p)) => Some((o@, p@)),
                    None => None,
                },
            ) is None,
        },
{
    let v = chars_of(input);
    let t = trim_chars(&v);
    let s = trim_end_char_exec(&t, '/');
    if s.len() == 0 {
        return None;
    }
    match strip_prefix_exec(&s, "#") {
        Some(rest) => match issue_number(string_of(rest.as_slice()).as_str()) {
            Some(n) => {
                return match default_repo {
                    Some((owner, repo)) => Some(GitHubIssueRef { owner, repo, number: n }),
                    None => None,
                };
            },
            None => {},
        },
        None => {},
    }
    let ss = string_of(s.as_slice());
    match issue_number(ss.as_str()) {
        Some(n) => {
            return match default_repo {
                Some((owner, repo)) => Some(GitHubIssueRef { owner, repo, number: n }),
                None => None,
            };
        },
        None => {},
    }
    let url_path = match strip_prefix_exec(&s, "https://github.com/") {
        Some(p) => Some(p),
        None => strip_prefix_exec(&s, "http://github.com/"),
    };
    match url_path {
        Some(p) => match issue_path_chars(&p) {
            Some(issue) => {
                return Some(issue);
            },
            None => {},
        },
        None => {},
    }
    match issue_path_chars(&s) {
        Some(issue) => {
            return Some(issue);
        },
        None => {},
    }
    let (repo_ref, number) = match rsplit_once_chars(&s, '#') {
        Some(x) => x,
        None => {
            return None;
        },
    };
    let n = match issue_number(string_of(number.as_slice()).as_str()) {
        Some(n) => n,
        None => {
            return None;
        },
    };
    let (o, r) = match split_once_chars(&repo_ref, '/') {
        Some(x) => x,
        None => {
            return None;
        },
    };
    match owner_repo_chars(&o, &r) {
        Some((owner, repo)) => Some(GitHubIssueRef { owner, repo, number: n }),
        None => None,
    }
}

/// An issue, or a pull request (GitHub's issues API serves both).
#[derive(Clone, Copy, PartialEq, Eq, Structural)]
pub enum GitHubResourceKind {
    Issue,
    PullRequest,
}

pub open spec fn segment_spec(k: GitHubResourceKind) -> Seq<char> {
    match k {
        GitHubResourceKind::Issue => "issues"@,
        GitHubResourceKind::PullRequest => "pull"@,
    }
}

impl GitHubResourceKind {
    /// The URL segment for this kind.
    pub fn url_segment(self) -> (r: &'static str)
        ensures
            r@ == segment_spec(self),
    {
        match self {
            GitHubResourceKind::Issue => "issues",
            GitHubResourceKind::PullRequest => "pull",
        }
    }
}

/// The web page of a reference.
pub fn github_resource_url(reference: &GitHubIssueRef, kind: GitHubResourceKind) -> (r: String)
    ensures
        r@ == "https://github.com/"@ + reference.owner@ + "/"@ + reference.repo@ + "/"@ + segment_spec(kind) + "/"@
            + crate::text::decimal(reference.number as nat),
{
    let mut out = owned("https://github.com/");
    push_str(&mut out, reference.owner.as_str());
    push_str(&mut out, "/");
    push_str(&mut out, reference.repo.as_str());
    push_str(&mut out, "/");
    push_str(&mut out, kind.url_segment());
    push_str(&mut out, "/");
    push_decimal(&mut out, reference.number, 0);
    out
}

/// A GitHub issue or pull request as fetched.
pub struct GitHubResource {
    pub reference: GitHubIssueRef,
    pub kind: GitHubResourceKind,
    pub title: String,
    pub body: String,
    pub url: String,
    pub comment_count: u64,
}

/// One comment of a thread.
pub struct GitHubDiscussionItem {
    pub source: GitHubIssueRef,
    pub body: String,
    pub author: Option<String>,
    pub created_at: Option<String>,
    pub url: Option<String>,
}

/// The API URL of one page of comments (100 a page).
pub fn github_comments_page(resource: &GitHubResource, page: u64) -> (r: String)
    ensures
        r@ == "https://api.github.com/repos/"@ + resource.reference.owner@ + "/"@ + resource.reference.repo@
            + "/issues/"@ + crate::text::decimal(resource.reference.number as nat)
            + "/comments?per_page=100&page="@ + crate::text::decimal(page as nat),
{
    let mut out = owned("https://api.github.com/repos/");
    push_str(&mut out, resource.reference.owner.as_str());
    push_str(&mut out, "/");
    push_str(&mut out, resource.reference.repo.as_str());
    push_str(&mut out, "/issues/");
    push_decimal(&mut out, resource.reference.number, 0);
    push_str(&mut out, "/comments?per_page=100&page=");
    push_decimal(&mut out, page, 0);
    out
}

/// The text with a section heading started: a line break if it lacks one, a blank line,
/// then the title.
pub open spec fn section_started(d: Seq<char>, title: Seq<char>) -> Seq<char> {
    (if d.len() > 0 && d.last() == '\n' {
        d
    } else {
        d.push('\n')
    }) + "\n"@ + title
}

pub fn start_github_section(description: &mut String, title: &str)
    ensures
        final(description)@ == section_started(old(description)@, title@),
{
    let n = description.as_str().unicode_len();
    let ends = n > 0 && description.as_str().get_char(n - 1) == '\n';
    if !ends {
        crate::text::push_char(description, '\n');
    }
    push_str(description, "\n");
    push_str(description, title);
    proof {
        if n > 0 {
            assert(old(description)@.last() == old(description)@[n - 1]);
        }
        reveal_strlit("\n");
    }
}

pub open spec fn opt_view(s: Option<String>) -> Option<Seq<char>> {
    match s {
        Some(t) => Some(t@),
        None => None,
    }
}

/// One comment as markdown: a heading with its source, author, date and link, then its
/// body.
pub open spec fn comment_markdown(item: GitHubDiscussionItem) -> Seq<char> {
    "\n\n### "@ + label_spec(item.source) + " — "@ + match item.author {
        Some(a) => a@,
        None => "unknown GitHub author"@,
    } + match item.created_at {
        Some(c) => " — "@ + c@,
        None => seq![],
    } + match item.url {
        Some(u) => " — "@ + u@,
        None => seq![],
    } + "\n\n"@ + item.body@
}

pub fn github_comment_markdown(item: &GitHubDiscussionItem) -> (r: String)
    ensures
        r@ == comment_markdown(*item),
{
    let mut m = owned("\n\n### ");
    let label = item.source.label();
    push_str(&mut m, label.as_str());
    push_str(&mut m, " — ");
    match &item.author {
        Some(a) => push_str(&mut m, a.as_str()),
        None => push_str(&mut m, "unknown GitHub author"),
    }
    let ghost after_author = m@;
    match &item.created_at {
        Some(c) => {
            push_str(&mut m, " — ");
            push_str(&mut m, c.as_str());
        },
        None => {},
    }
    let ghost after_created = m@;
    match &item.url {
        Some(u) => {
            push_str(&mut m, " — ");
            push_str(&mut m, u.as_str());
        },
        None => {},
    }
    push_str(&mut m, "\n\n");
    push_str(&mut m, item.body.as_str());
    proof {
        assert(m@ =~= comment_markdown(*item));
    }
    m
}

/// Size in bytes.
pub open spec fn blen(s: Seq<char>) -> int {
    vstd::utf8::encode_utf8(s).len() as int
}

/// The import cap.
pub open spec fn max_import_bytes() -> int {
    65536
}

/// Total bytes of a list of texts.
pub open spec fn total_len(cs: Seq<Seq<char>>) -> int
    decreases cs.len(),
{
    if cs.len() == 0 {
        0
    } else {
        total_len(cs.drop_last()) + blen(cs.last())
    }
}

/// How many of the newest texts fit in `budget` bytes, taken newest first and stopping
/// at the first that does not fit.
pub open spec fn newest_fit(cs: Seq<Seq<char>>, budget: int) -> nat
    decreases cs.len(),
{
    if cs.len() == 0 || blen(cs.last()) > budget {
        0
    } else {
        1 + newest_fit(cs.drop_last(), budget - blen(cs.last()))
    }
}

/// The texts concatenated.
pub open spec fn concat(cs: Seq<Seq<char>>) -> Seq<char>
    decreases cs.len(),
{
    if cs.len() == 0 {
        seq![]
    } else {
        concat(cs.drop_last()) + cs.last()
    }
}

/// The opening of a description: the link, then the body when there is one.
pub open spec fn description_head(selected: GitHubResource) -> Seq<char> {
    if selected.body@.len() == 0 {
        "GitHub: "@ + selected.url@ + "\n"@
    } else {
        "GitHub: "@ + selected.url@ + "\n\n"@ + selected.body@
    }
}

/// The description of an imported thread: the opening, then the comments under a
/// heading. Past 64 KiB (or when the thread had more comments than were fetched) only
/// the newest comments that fit are kept, followed by a notice naming the thread.
pub open spec fn description_spec(selected: GitHubResource, comments: Seq<Seq<char>>, truncated: bool) -> Seq<char> {
    let head = description_head(selected);
    if comments.len() == 0 && !truncated {
        head
    } else {
        let started = section_started(head, "## GitHub Comments"@);
        if !truncated && blen(head) + 20 + total_len(comments) <= max_import_bytes() {
            started + concat(comments)
        } else {
            let notice = "\n\nGitHub import truncated. Additional discussion remains at "@ + selected.url@ + "."@;
            let budget = max_import_bytes() - (blen(head) + 20 + blen(notice));
            let k = newest_fit(comments, budget);
            started + concat(comments.skip(comments.len() - k)) + notice
        }
    }
}

fn byte_len(s: &String) -> (r: usize)
    ensures
        r == blen(s@),
{
    let b = s.as_str().as_bytes();
    b.len()
}

proof fn lemma_newest_fit_bound(cs: Seq<Seq<char>>, budget: int)
    ensures
        newest_fit(cs, budget) <= cs.len(),
    decreases cs.len(),
{
    if !(cs.len() == 0 || blen(cs.last()) > budget) {
        lemma_newest_fit_bound(cs.drop_last(), budget - blen(cs.last()));
    }
}

proof fn lemma_concat_push(cs: Seq<Seq<char>>, c: Seq<char>)
    ensures
        concat(cs.push(c)) == concat(cs) + c,
{
    assert(cs.push(c).drop_last() =~= cs);
}

proof fn lemma_total_nonneg(cs: Seq<Seq<char>>)
    ensures
        total_len(cs) >= 0,
    decreases cs.len(),
{
    if cs.len() > 0 {
        lemma_total_nonneg(cs.drop_last());
    }
}

fn markdowns(discussion: &Vec<GitHubDiscussionItem>) -> (r: Vec<String>)
    ensures
        r@.map_values(|s: String| s@) == discussion@.map_values(|i: GitHubDiscussionItem| comment_markdown(i)),
{
    let ghost cs = discussion@.map_values(|i: GitHubDiscussionItem| comment_markdown(i));
    let mut comments: Vec<String> = Vec::new();
    let mut i: usize = 0;
    while i < discussion.len()
        invariant
            cs == discussion@.map_values(|i: GitHubDiscussionItem| comment_markdown(i)),
            i <= discussion@.len(),
            comments@.len() == i,
            forall|k: int| 0 <= k < i ==> (#[trigger] comments@[k])@ == cs[k],
        decreases discussion@.len() - i,
    {
        comments.push(github_comment_markdown(&discussion[i]));
        i = i + 1;
    }
    assert(comments@.map_values(|s: String| s@) =~= cs);
    comments
}

/// Whether the opening, the heading and every comment fit in the cap.
fn fits_whole(head_len: usize, comments: &Vec<String>) -> (r: bool)
    ensures
        r == (head_len + 20 + total_len(comments@.map_values(|s: String| s@)) <= max_import_bytes()),
{
    let ghost cs = comments@.map_values(|s: String| s@);
    if head_len > 65536 || 65536 - head_len < 20 {
        proof {
            lemma_total_nonneg(cs);
        }
        return false;
    }
    let mut room: usize = 65536 - head_len - 20;
    let mut j: usize = 0;
    assert(cs.take(0) =~= Seq::<Seq<char>>::empty());
    while j < comments.len()
        invariant
            cs == comments@.map_values(|s: String| s@),
            j <= comments@.len(),
            head_len + 20 <= 65536,
            room == 65536 - head_len - 20 - total_len(cs.take(j as int)),
        decreases comments@.len() - j,
    {
        assert(cs.take(j + 1).drop_last() =~= cs.take(j as int));
        assert(cs.take(j + 1).last() == cs[j as int]);
        assert(cs[j as int] == comments@[j as int]@);
        let l = byte_len(&comments[j]);
        if l > room {
            proof {
                let rest = cs.skip(j + 1);
                assert(cs =~= cs.take(j + 1) + rest);
                lemma_total_split(cs.take(j + 1), rest);
                lemma_total_nonneg(rest);
            }
            return false;
        }
        room = room - l;
        j = j + 1;
    }
    assert(cs.take(j as int) =~= cs);
    true
}

proof fn lemma_total_split(a: Seq<Seq<char>>, b: Seq<Seq<char>>)
    ensures
        total_len(a + b) == total_len(a) + total_len(b),
    decreases b.len(),
{
    if b.len() == 0 {
        assert(a + b =~= a);
    } else {
        lemma_total_split(a, b.drop_last());
        assert((a + b).drop_last() =~= a + b.drop_last());
    }
}

/// How many of the newest comments fit in `budget` bytes.
fn newest_count(comments: &Vec<String>, budget: usize) -> (r: usize)
    ensures
        r == newest_fit(comments@.map_values(|s: String| s@), budget as int),
        r <= comments@.len(),
{
    let ghost cs = comments@.map_values(|s: String| s@);
    let n = comments.len();
    let mut left = budget;
    let mut kept: usize = 0;
    assert(cs.take(n as int) =~= cs);
    while kept < n
        invariant
            n == comments@.len(),
            cs == comments@.map_values(|s: String| s@),
            kept <= n,
            newest_fit(cs, budget as int) == kept + newest_fit(cs.take(n - kept), left as int),
        decreases n - kept,
    {
        let idx = n - 1 - kept;
        let ghost pre = cs.take(n - kept);
        assert(pre.last() == cs[idx as int]);
        assert(cs[idx as int] == comments@[idx as int]@);
        assert(pre.drop_last() =~= cs.take(n - kept - 1));
        let l = byte_len(&comments[idx]);
        if l > left {
            return kept;
        }
        left = left - l;
        kept = kept + 1;
    }
    assert(cs.take(0) =~= Seq::<Seq<char>>::empty());
    kept
}

/// Append the comments from index `from` on.
fn push_from(description: &mut String, comments: &Vec<String>, from: usize)
    requires
        from <= comments@.len(),
    ensures
        final(description)@ == old(description)@ + concat(comments@.map_values(|s: String| s@).skip(from as int)),
{
    let ghost cs = comments@.map_values(|s: String| s@);
    let ghost start = description@;
    let mut k: usize = from;
    assert(cs.subrange(from as int, from as int) =~= Seq::<Seq<char>>::empty());
    while k < comments.len()
        invariant
            cs == comments@.map_values(|s: String| s@),
            from <= k <= comments@.len(),
            description@ == start + concat(cs.subrange(from as int, k as int)),
        decreases comments@.len() - k,
    {
        assert(cs[k as int] == comments@[k as int]@);
        proof {
            lemma_concat_push(cs.subrange(from as int, k as int), cs[k as int]);
            assert(cs.subrange(from as int, k + 1) =~= cs.subrange(from as int, k as int).push(cs[k as int]));
        }
        push_str(description, comments[k].as_str());
        k = k + 1;
    }
    assert(cs.subrange(from as int, k as int) =~= cs.skip(from as int));
}

/// Compose the task description of an imported issue or pull request.
pub fn compose_github_description(
    selected: &GitHubResource,
    discussion: &Vec<GitHubDiscussionItem>,
    comments_truncated: bool,
) -> (r: String)
    ensures
        r@ == description_spec(*selected, discussion@.map_values(|i: GitHubDiscussionItem| comment_markdown(i)), comments_truncated),
{
    let ghost cs = discussion@.map_values(|i: GitHubDiscussionItem| comment_markdown(i));
    let mut description = owned("GitHub: ");
    push_str(&mut description, selected.url.as_str());
    if selected.body.as_str().unicode_len() == 0 {
        push_str(&mut description, "\n");
    } else {
        push_str(&mut description, "\n\n");
        push_str(&mut description, selected.body.as_str());
    }
    assert(description@ =~= description_head(*selected));
    if discussion.len() == 0 && !comments_truncated {
        return description;
    }
    let comments = markdowns(discussion);
    let head_len = byte_len(&description);
    if !comments_truncated && fits_whole(head_len, &comments) {
        start_github_section(&mut description, "## GitHub Comments");
        push_from(&mut description, &comments, 0);
        assert(cs.skip(0) =~= cs);
        return description;
    }
    let mut notice = owned("\n\nGitHub import truncated. Additional discussion remains at ");
    push_str(&mut notice, selected.url.as_str());
    push_str(&mut notice, ".");
    let notice_len = byte_len(&notice);
    let ghost budget = max_import_bytes() - (blen(description_head(*selected)) + 20 + blen(notice@));
    let kept = if head_len <= 65536 && 65536 - head_len >= 20 && 65536 - head_len - 20 >= notice_len {
        newest_count(&comments, 65536 - head_len - 20 - notice_len)
    } else {
        proof {
            if cs.len() > 0 {
                assert(blen(cs.last()) >= 0);
            }
        }
        0
    };
    start_github_section(&mut description, "## GitHub Comments");
    push_from(&mut description, &comments, comments.len() - kept);
    push_str(&mut description, notice.as_str());
    description
}

proof fn lemma_total_front(c: Seq<char>, cs: Seq<Seq<char>>)
    ensures
        total_len(seq![c] + cs) == blen(c) + total_len(cs),
    decreases cs.len(),
{
    if cs.len() == 0 {
        assert(seq![c] + cs =~= seq![c]);
        assert(seq![c].drop_last() =~= Seq::<Seq<char>>::empty());
    } else {
        lemma_total_front(c, cs.drop_last());
        assert((seq![c] + cs).drop_last() =~= seq![c] + cs.drop_last());
    }
}

/// Hide the stored tokens in a message.
pub open spec fn redacted(message: Seq<char>, tokens: Seq<Option<String>>) -> Seq<char>
    decreases tokens.len(),
{
    if tokens.len() == 0 {
        message
    } else {
        let m = redacted(message, tokens.drop_last());
        match tokens.last() {
            Some(t) => replace_all(m, t@, "[REDACTED]"@),
            None => m,
        }
    }
}

/// The GitHub API client's credentials: the CLI's token and the configured one, each
/// kept only when not blank.
pub struct GitHubClient<T> {
    pub transport: T,
    pub connected_token: Option<String>,
    pub configured_token: Option<String>,
}

pub open spec fn non_blank(t: Option<String>) -> Option<Seq<char>> {
    match t {
        Some(s) => if trim(s@).len() > 0 {
            Some(s@)
        } else {
            None
        },
        None => None,
    }
}

fn keep_non_blank(t: Option<String>) -> (r: Option<String>)
    ensures
        opt_view(r) == non_blank(t),
        r matches Some(s) ==> s@.len() > 0,
{
    match t {
        Some(s) => {
            let tr = trim_chars(&chars_of(s.as_str()));
            if tr.len() > 0 {
                proof {
                    if s@.len() == 0 {
                        assert(trim(s@) =~= s@);
                    }
                }
                Some(s)
            } else {
                None
            }
        },
        None => None,
    }
}

impl<T> GitHubClient<T> {
    pub fn new(transport: T, connected_token: Option<String>, configured_token: Option<String>) -> (r: Self)
        ensures
            opt_view(r.connected_token) == non_blank(connected_token),
            opt_view(r.configured_token) == non_blank(configured_token),
            r.transport == transport,
    {
        GitHubClient {
            transport,
            connected_token: keep_non_blank(connected_token),
            configured_token: keep_non_blank(configured_token),
        }
    }

    /// The message with every occurrence of either token replaced by `[REDACTED]`.
    pub fn redact_tokens(&self, message: String) -> (r: String)
        requires
            self.connected_token matches Some(t) ==> t@.len() > 0,
            self.configured_token matches Some(t) ==> t@.len() > 0,
        ensures
            r@ == redacted(message@, seq![self.connected_token, self.configured_token]),
    {
        let mut m = chars_of(message.as_str());
        let red = chars_of("[REDACTED]");
        match &self.connected_token {
            Some(t) => {
                let tv = chars_of(t.as_str());
                m = replace_all_exec(&m, tv.as_slice(), red.as_slice());
            },
            None => {},
        }
        match &self.configured_token {
            Some(t) => {
                let tv = chars_of(t.as_str());
                m = replace_all_exec(&m, tv.as_slice(), red.as_slice());
            },
            None => {},
        }
        proof {
            let toks = seq![self.connected_token, self.configured_token];
            assert(toks.drop_last() =~= seq![self.connected_token]);
            assert(toks.drop_last().drop_last() =~= Seq::<Option<String>>::empty());
            reveal_with_fuel(redacted, 3);
        }
        string_of(m.as_slice())
    }
}

/// A Linear issue as imported.
pub struct LinearTicket {
    pub identifier: String,
    pub title: String,
    pub description: String,
}

/// Reported when the stored Linear credential cannot be used.
pub fn linear_credential_error(reason: &str) -> (r: String)
    ensures
        r@ == "Linear credential could not be used: "@ + reason@ + ". Reconnect it in Settings → Connections."@,
{
    let mut m = owned("Linear credential could not be used: ");
    push_str(&mut m, reason);
    push_str(&mut m, ". Reconnect it in Settings → Connections.");
    m
}

/// Reported when a reference names no Linear issue.
pub fn linear_ref_error(reference: &str) -> (r: String)
    ensures
        r@ == "not a Linear issue id or URL: "@ + reference@,
{
    let mut m = owned("not a Linear issue id or URL: ");
    push_str(&mut m, reference);
    m
}

/// The GraphQL request body that fetches issue `id`.
pub open spec fn linear_query_spec(id: Seq<char>) -> Seq<char> {
    "{\"query\":\"query { issue(id: \\\""@ + id + "\\\") { identifier title description } }\"}"@
}

pub fn linear_issue_query(id: &str) -> (r: String)
    ensures
        r@ == linear_query_spec(id@),
{
    let mut q = owned("{\"query\":\"query { issue(id: \\\"");
    push_str(&mut q, id);
    push_str(&mut q, "\\\") { identifier title description } }\"}");
    q
}

/// The issue a Linear reply describes. `errors` is the reply's `errors` member as JSON
/// text, when it has one; it wins. An absent or null issue is not found; the identifier
/// falls back to the one asked for.
pub open spec fn linear_ticket_spec(errors: Option<Seq<char>>, value: Json, id: Seq<char>) -> Result<
    (Seq<char>, Seq<char>, Seq<char>),
    Seq<char>,
> {
    match errors {
        Some(e) => Err("Linear error: "@ + e),
        None => {
            let issue = match field(value, "data"@) {
                Some(d) => field(d, "issue"@),
                None => None,
            };
            match issue {
                None => Err("Linear issue not found: "@ + id),
                Some(Json::Null) => Err("Linear issue not found: "@ + id),
                Some(i) => Ok(
                    (
                        if str_field_or_empty(i, "identifier"@).len() == 0 {
                            id
                        } else {
                            str_field_or_empty(i, "identifier"@)
                        },
                        str_field_or_empty(i, "title"@),
                        str_field_or_empty(i, "description"@),
                    ),
                ),
            }
        },
    }
}

pub fn linear_ticket(errors: Option<String>, value: &Json, id: String) -> (r: Result<LinearTicket, String>)
    ensures
        match r {
            Ok(t) => linear_ticket_spec(crate::notify::opt_view(errors), *value, id@) == Ok::<
                (Seq<char>, Seq<char>, Seq<char>),
                Seq<char>,
            >((t.identifier@, t.title@, t.description@)),
            Err(e) => linear_ticket_spec(crate::notify::opt_view(errors), *value, id@) == Err::<
                (Seq<char>, Seq<char>, Seq<char>),
                Seq<char>,
            >(e@),
        },
{
    match errors {
        Some(e) => {
            let mut m = owned("Linear error: ");
            push_str(&mut m, e.as_str());
            return Err(m);
        },
        None => {},
    }
    let issue = match value.get("data") {
        Some(d) => d.get("issue"),
        None => None,
    };
    match issue {
        Some(i) => match i {
            Json::Null => {
                let mut m = owned("Linear issue not found: ");
                push_str(&mut m, id.as_str());
                Err(m)
            },
            _ => {
                let ident = str_field_or_empty_exec(i, "identifier");
                let identifier = if ident.as_str().unicode_len() == 0 {
                    id
                } else {
                    ident
                };
                Ok(
                    LinearTicket {
                        identifier,
                        title: str_field_or_empty_exec(i, "title"),
                        description: str_field_or_empty_exec(i, "description"),
                    },
                )
            },
        },
        None => {
            let mut m = owned("Linear issue not found: ");
            push_str(&mut m, id.as_str());
            Err(m)
        },
    }
}

/// GitHub's error message in a reply, with its status when it gives one.
pub open spec fn github_error_spec(v: Json) -> Option<Seq<char>> {
    match str_field(v, "message"@) {
        None => None,
        Some(msg) => Some(
            match str_field(v, "status"@) {
                Some(status) => msg + " ("@ + status + ")"@,
                None => msg,
            },
        ),
    }
}

pub fn github_error(v: &Json) -> (r: Option<String>)
    ensures
        match r {
            Some(m) => github_error_spec(*v) == Some(m@),
            None => github_error_spec(*v) is None,
        },
{
    match str_field_exec(v, "message") {
        None => None,
        Some(msg) => match str_field_exec(v, "status") {
            Some(status) => {
                let mut m = msg;
                push_str(&mut m, " (");
                push_str(&mut m, status.as_str());
                push_str(&mut m, ")");
                Some(m)
            },
            None => Some(msg),
        },
    }
}

} // verus!
