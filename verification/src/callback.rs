//! Loopback HTTP callbacks: the browser's `GET` after an OAuth or pairing redirect.
//!
//! Only the request line is read. Its target is split into path and query, and the query
//! into percent-decoded `key=value` pairs, where a repeated key keeps its last value.
use vstd::prelude::*;
use vstd::string::*;
use vstd::utf8::*;
use crate::codec::{pct_decode, percent_decode};
use crate::text::{
    chars_eq_str, chars_of, find_char, first_index_of, is_ws, is_ws_char, lead_ws, lemma_first_index_of, lemma_lead_ws,
    owned, slice_chars, split, split_once, split_once_chars, string_of,
};

verus! {

broadcast use vstd::seq_lib::group_seq_properties;

/// The first line as `str::lines` yields it: up to the first `\n`, without a `\r` just
/// before it. An empty request has no lines.
pub open spec fn first_line(s: Seq<char>) -> Option<Seq<char>> {
    if s.len() == 0 {
        None
    } else {
        match first_index_of(s, '\n') {
            Some(i) => Some(if i > 0 && s[i - 1] == '\r' {
                s.take(i - 1)
            } else {
                s.take(i)
            }),
            None => Some(s),
        }
    }
}

/// Length of the leading run of non-whitespace.
pub open spec fn word_len(s: Seq<char>) -> nat
    decreases s.len(),
{
    if s.len() > 0 && !is_ws(s[0]) {
        1 + word_len(s.drop_first())
    } else {
        0
    }
}

pub proof fn lemma_lead_ws_bound(s: Seq<char>)
    ensures
        lead_ws(s) <= s.len(),
        lead_ws(s) < s.len() ==> !is_ws(s[lead_ws(s) as int]),
    decreases s.len(),
{
    if s.len() > 0 && is_ws(s[0]) {
        lemma_lead_ws_bound(s.drop_first());
    }
}

pub proof fn lemma_word_len_bound(s: Seq<char>)
    ensures
        word_len(s) <= s.len(),
        s.len() > 0 && !is_ws(s[0]) ==> word_len(s) >= 1,
    decreases s.len(),
{
    if s.len() > 0 && !is_ws(s[0]) {
        lemma_word_len_bound(s.drop_first());
    }
}

proof fn lemma_word_len(s: Seq<char>, i: int)
    requires
        0 <= i <= s.len(),
        forall|k: int| 0 <= k < i ==> !is_ws(s[k]),
        i == s.len() || is_ws(s[i]),
    ensures
        word_len(s) == i,
    decreases i,
{
    if i > 0 {
        let t = s.drop_first();
        assert forall|k: int| 0 <= k < i - 1 implies !is_ws(t[k]) by {
            assert(t[k] == s[k + 1]);
        }
        if i - 1 < t.len() {
            assert(t[i - 1] == s[i]);
        }
        lemma_word_len(t, i - 1);
    }
}

/// The whitespace-separated words of `s`, as `str::split_whitespace` yields them.
pub open spec fn words(s: Seq<char>) -> Seq<Seq<char>>
    decreases s.len(),
{
    let t = s.skip(lead_ws(s) as int);
    proof {
        lemma_lead_ws_bound(s);
        if t.len() > 0 {
            assert(t[0] == s[lead_ws(s) as int]);
        }
        lemma_word_len_bound(t);
    }
    if t.len() == 0 {
        seq![]
    } else {
        seq![t.take(word_len(t) as int)] + words(t.skip(word_len(t) as int))
    }
}

/// The request target: the second word of the first line.
pub open spec fn request_target(request: Seq<char>) -> Option<Seq<char>> {
    match first_line(request) {
        Some(line) => if words(line).len() > 1 {
            Some(words(line)[1])
        } else {
            None
        },
        None => None,
    }
}

/// A query piece splits at its first `=`; a piece without one is a key with an empty value.
pub open spec fn raw_pair(p: Seq<char>) -> (Seq<char>, Seq<char>) {
    match split_once(p, '=') {
        Some(kv) => kv,
        None => (p, seq![]),
    }
}

/// Percent-decode each piece's key, then value, in order; the first failure wins.
pub open spec fn decode_pairs(ps: Seq<Seq<char>>) -> Result<Seq<(Seq<char>, Seq<char>)>, Seq<char>>
    decreases ps.len(),
{
    if ps.len() == 0 {
        Ok(seq![])
    } else {
        let (k, v) = raw_pair(ps[0]);
        match pct_decode(encode_utf8(k)) {
            Err(e) => Err(e),
            Ok(dk) => match pct_decode(encode_utf8(v)) {
                Err(e) => Err(e),
                Ok(dv) => match decode_pairs(ps.drop_first()) {
                    Ok(rest) => Ok(seq![(dk, dv)] + rest),
                    Err(e) => Err(e),
                },
            },
        }
    }
}

/// The value of the last pair whose key is `key`.
pub open spec fn lookup(pairs: Seq<(Seq<char>, Seq<char>)>, key: Seq<char>) -> Option<Seq<char>>
    decreases pairs.len(),
{
    if pairs.len() == 0 {
        None
    } else if pairs.last().0 == key {
        Some(pairs.last().1)
    } else {
        lookup(pairs.drop_last(), key)
    }
}

/// The decoded pairs of a query string.
pub open spec fn query_pairs(query: Seq<char>) -> Result<Seq<(Seq<char>, Seq<char>)>, Seq<char>> {
    decode_pairs(split(query, '&'))
}

/// The first line of `request`, if any.
fn first_line_exec(request: &Vec<char>) -> (r: Option<Vec<char>>)
    ensures
        match r {
            Some(l) => first_line(request@) == Some(l@),
            None => first_line(request@) == None::<Seq<char>>,
        },
{
    if request.len() == 0 {
        return None;
    }
    proof {
        lemma_first_index_of(request@, '\n');
    }
    match find_char(request.as_slice(), '\n') {
        Some(i) => {
            if i > 0 && request[i - 1] == '\r' {
                let l = slice_chars(request, 0, i - 1);
                assert(l@ =~= request@.take(i - 1));
                Some(l)
            } else {
                let l = slice_chars(request, 0, i);
                assert(l@ =~= request@.take(i as int));
                Some(l)
            }
        },
        None => {
            let l = slice_chars(request, 0, request.len());
            assert(l@ =~= request@);
            Some(l)
        },
    }
}

/// Skip whitespace from `i`; the position of the next non-whitespace char or the end.
fn skip_ws(v: &Vec<char>, i: usize) -> (j: usize)
    requires
        i <= v@.len(),
    ensures
        i <= j <= v@.len(),
        j - i == lead_ws(v@.skip(i as int)),
{
    let mut j = i;
    while j < v.len() && is_ws_char(v[j])
        invariant
            i <= j <= v@.len(),
            forall|k: int| i <= k < j ==> is_ws(v@[k]),
        decreases v@.len() - j,
    {
        j = j + 1;
    }
    proof {
        let t = v@.skip(i as int);
        assert forall|k: int| 0 <= k < j - i implies is_ws(t[k]) by {
            assert(t[k] == v@[i + k]);
        }
        if j < v@.len() {
            assert(t[j - i] == v@[j as int]);
        }
        lemma_lead_ws(t, j - i);
    }
    j
}

/// Skip non-whitespace from `i`.
fn skip_word(v: &Vec<char>, i: usize) -> (j: usize)
    requires
        i <= v@.len(),
    ensures
        i <= j <= v@.len(),
        j - i == word_len(v@.skip(i as int)),
{
    let mut j = i;
    while j < v.len() && !is_ws_char(v[j])
        invariant
            i <= j <= v@.len(),
            forall|k: int| i <= k < j ==> !is_ws(v@[k]),
        decreases v@.len() - j,
    {
        j = j + 1;
    }
    proof {
        let t = v@.skip(i as int);
        assert forall|k: int| 0 <= k < j - i implies !is_ws(t[k]) by {
            assert(t[k] == v@[i + k]);
        }
        if j < v@.len() {
            assert(t[j - i] == v@[j as int]);
        }
        lemma_word_len(t, j - i);
    }
    j
}

/// The second whitespace-separated word of `line`.
fn second_word(line: &Vec<char>) -> (r: Option<Vec<char>>)
    ensures
        match r {
            Some(w) => words(line@).len() > 1 && words(line@)[1] == w@,
            None => words(line@).len() <= 1,
        },
{
    let ghost s = line@;
    let a0 = skip_ws(line, 0);
    assert(s.skip(0) =~= s);
    if a0 == line.len() {
        assert(s.skip(a0 as int).len() == 0);
        return None;
    }
    let b0 = skip_word(line, a0);
    let a1 = skip_ws(line, b0);
    proof {
        let t = s.skip(a0 as int);
        lemma_lead_ws_bound(s);
        assert(t[0] == s[a0 as int]);
        let rest = t.skip(word_len(t) as int);
        assert(rest =~= s.skip(b0 as int));
        assert(words(s) == seq![t.take(word_len(t) as int)] + words(rest));
    }
    if a1 == line.len() {
        proof {
            let rest = s.skip(b0 as int);
            assert(rest.skip(lead_ws(rest) as int).len() == 0);
            assert(words(rest) =~= Seq::<Seq<char>>::empty());
        }
        return None;
    }
    let b1 = skip_word(line, a1);
    let w = slice_chars(line, a1, b1);
    proof {
        let rest = s.skip(b0 as int);
        let t2 = rest.skip(lead_ws(rest) as int);
        assert(t2 =~= s.skip(a1 as int));
        lemma_lead_ws_bound(rest);
        assert(t2[0] == s[a1 as int]);
        assert(words(rest) == seq![t2.take(word_len(t2) as int)] + words(t2.skip(word_len(t2) as int)));
        assert(w@ =~= t2.take(word_len(t2) as int));
    }
    Some(w)
}

/// The request target of `request`.
fn target_of(request: &Vec<char>) -> (r: Option<Vec<char>>)
    ensures
        match r {
            Some(t) => request_target(request@) == Some(t@),
            None => request_target(request@) == None::<Seq<char>>,
        },
{
    match first_line_exec(request) {
        Some(line) => second_word(&line),
        None => None,
    }
}

/// The pieces of `v` between `c` separators.
pub fn split_chars(v: &Vec<char>, c: char) -> (r: Vec<Vec<char>>)
    ensures
        r@.len() == split(v@, c).len(),
        forall|i: int| 0 <= i < r@.len() ==> #[trigger] r@[i]@ == split(v@, c)[i],
{
    let mut out: Vec<Vec<char>> = Vec::new();
    let mut rest = slice_chars(v, 0, v.len());
    let ghost mut done: Seq<Seq<char>> = seq![];
    assert(rest@ =~= v@);
    loop
        invariant
            split(v@, c) == done + split(rest@, c),
            out@.len() == done.len(),
            forall|i: int| 0 <= i < out@.len() ==> #[trigger] out@[i]@ == done[i],
        decreases rest@.len(),
    {
        proof {
            lemma_first_index_of(rest@, c);
        }
        match find_char(rest.as_slice(), c) {
            Some(i) => {
                let piece = slice_chars(&rest, 0, i);
                let tail = slice_chars(&rest, i + 1, rest.len());
                proof {
                    assert(piece@ =~= rest@.take(i as int));
                    assert(tail@ =~= rest@.skip(i + 1));
                    assert(split(rest@, c) == seq![piece@] + split(tail@, c));
                    assert(done + split(rest@, c) =~= done.push(piece@) + split(tail@, c));
                    done = done.push(piece@);
                }
                out.push(piece);
                rest = tail;
            },
            None => {
                proof {
                    assert(split(rest@, c) == seq![rest@]);
                    done = done.push(rest@);
                }
                out.push(rest);
                assert(split(v@, c) =~= done);
                return out;
            },
        }
    }
}

/// One query piece as a (key, value) pair of char vectors.
fn raw_pair_exec(p: &Vec<char>) -> (r: (Vec<char>, Vec<char>))
    ensures
        raw_pair(p@) == (r.0@, r.1@),
{
    match split_once_chars(p, '=') {
        Some(kv) => kv,
        None => (slice_chars(p, 0, p.len()), Vec::new()),
    }
}

/// Percent-decode every query piece into (key, value) pairs.
fn decode_pairs_exec(ps: &Vec<Vec<char>>, spec_ps: Ghost<Seq<Seq<char>>>) -> (r: Result<Vec<(String, String)>, String>)
    requires
        ps@.len() == spec_ps@.len(),
        forall|i: int| 0 <= i < ps@.len() ==> #[trigger] ps@[i]@ == spec_ps@[i],
    ensures
        match r {
            Ok(v) => decode_pairs(spec_ps@) is Ok && v@.len() == decode_pairs(spec_ps@)->Ok_0.len() && forall|i: int|
                0 <= i < v@.len() ==> (#[trigger] v@[i]).0@ == decode_pairs(spec_ps@)->Ok_0[i].0 && v@[i].1@
                    == decode_pairs(spec_ps@)->Ok_0[i].1,
            Err(e) => decode_pairs(spec_ps@) == Err::<Seq<(Seq<char>, Seq<char>)>, Seq<char>>(e@),
        },
{
    let ghost whole = spec_ps@;
    let mut out: Vec<(String, String)> = Vec::new();
    let ghost mut acc: Seq<(Seq<char>, Seq<char>)> = seq![];
    let mut i: usize = 0;
    while i < ps.len()
        invariant
            whole == spec_ps@,
            ps@.len() == whole.len(),
            forall|j: int| 0 <= j < ps@.len() ==> #[trigger] ps@[j]@ == whole[j],
            i <= whole.len(),
            out@.len() == acc.len(),
            forall|j: int| 0 <= j < out@.len() ==> (#[trigger] out@[j]).0@ == acc[j].0 && out@[j].1@ == acc[j].1,
            decode_pairs(whole) == match decode_pairs(whole.skip(i as int)) {
                Ok(rest) => Ok(acc + rest),
                Err(e) => Err(e),
            },
        decreases whole.len() - i,
    {
        let ghost cur = whole.skip(i as int);
        assert(cur[0] == whole[i as int]);
        assert(cur.drop_first() =~= whole.skip(i + 1));
        let (k, v) = raw_pair_exec(&ps[i]);
        let ks = string_of(k.as_slice());
        let dk = match percent_decode(ks.as_str()) {
            Ok(d) => d,
            Err(e) => {
                return Err(e);
            },
        };
        let vs = string_of(v.as_slice());
        let dv = match percent_decode(vs.as_str()) {
            Ok(d) => d,
            Err(e) => {
                return Err(e);
            },
        };
        proof {
            match decode_pairs(whole.skip(i + 1)) {
                Ok(rest) => {
                    assert(acc + (seq![(dk@, dv@)] + rest) =~= acc.push((dk@, dv@)) + rest);
                },
                Err(_) => {},
            }
            acc = acc.push((dk@, dv@));
        }
        out.push((dk, dv));
        i = i + 1;
    }
    proof {
        assert(whole.skip(i as int) =~= Seq::<Seq<char>>::empty());
        assert(acc + Seq::<(Seq<char>, Seq<char>)>::empty() =~= acc);
    }
    Ok(out)
}

/// The last value given for `key`.
fn lookup_exec(pairs: &Vec<(String, String)>, key: &str, spec_pairs: Ghost<Seq<(Seq<char>, Seq<char>)>>) -> (r: Option<String>)
    requires
        pairs@.len() == spec_pairs@.len(),
        forall|i: int| 0 <= i < pairs@.len() ==> (#[trigger] pairs@[i]).0@ == spec_pairs@[i].0 && pairs@[i].1@ == spec_pairs@[i].1,
    ensures
        match r {
            Some(v) => lookup(spec_pairs@, key@) == Some(v@),
            None => lookup(spec_pairs@, key@) == None::<Seq<char>>,
        },
{
    let k = owned(key);
    let mut j: usize = pairs.len();
    while j > 0
        invariant
            j <= pairs@.len(),
            pairs@.len() == spec_pairs@.len(),
            forall|i: int| 0 <= i < pairs@.len() ==> (#[trigger] pairs@[i]).0@ == spec_pairs@[i].0 && pairs@[i].1@ == spec_pairs@[i].1,
            k@ == key@,
            lookup(spec_pairs@, key@) == lookup(spec_pairs@.take(j as int), key@),
        decreases j,
    {
        let ghost pre = spec_pairs@.take(j as int);
        assert(pre.last() == spec_pairs@[j - 1]);
        assert(pre.drop_last() =~= spec_pairs@.take(j - 1));
        if pairs[j - 1].0 == k {
            return Some(pairs[j - 1].1.clone());
        }
        j = j - 1;
    }
    None
}

/// What the browser's OAuth redirect reported.
#[derive(Debug, PartialEq, Eq)]
pub enum OAuthCallback {
    Code { code: String, state: String },
    Error { message: String, state: String },
}

/// The decoded query pairs of a callback whose path must be `path`; each error is the
/// message the caller chose for that failure.
pub open spec fn callback_pairs(
    request: Seq<char>,
    path: Seq<char>,
    e_req: Seq<char>,
    e_query: Seq<char>,
    e_path: Seq<char>,
) -> Result<Seq<(Seq<char>, Seq<char>)>, Seq<char>> {
    match request_target(request) {
        None => Err(e_req),
        Some(target) => match split_once(target, '?') {
            None => Err(e_query),
            Some(pq) => if pq.0 != path {
                Err(e_path)
            } else {
                query_pairs(pq.1)
            },
        },
    }
}

/// Read the request line, check the path, and decode the query pairs.
fn target_query(request: &str, path: &str, e_req: &str, e_query: &str, e_path: &str) -> (r: Result<
    Vec<(String, String)>,
    String,
>)
    ensures
        match r {
            Ok(v) => callback_pairs(request@, path@, e_req@, e_query@, e_path@) is Ok && v@.len()
                == callback_pairs(request@, path@, e_req@, e_query@, e_path@)->Ok_0.len() && forall|i: int|
                0 <= i < v@.len() ==> (#[trigger] v@[i]).0@ == callback_pairs(
                    request@,
                    path@,
                    e_req@,
                    e_query@,
                    e_path@,
                )->Ok_0[i].0 && v@[i].1@ == callback_pairs(request@, path@, e_req@, e_query@, e_path@)->Ok_0[i].1,
            Err(e) => callback_pairs(request@, path@, e_req@, e_query@, e_path@) == Err::<
                Seq<(Seq<char>, Seq<char>)>,
                Seq<char>,
            >(e@),
        },
{
    let req = chars_of(request);
    let target = match target_of(&req) {
        Some(t) => t,
        None => {
            return Err(owned(e_req));
        },
    };
    let (p, q) = match split_once_chars(&target, '?') {
        Some(pq) => pq,
        None => {
            return Err(owned(e_query));
        },
    };
    if !chars_eq_str(p.as_slice(), path) {
        return Err(owned(e_path));
    }
    let pieces = split_chars(&q, '&');
    decode_pairs_exec(&pieces, Ghost(split(q@, '&')))
}

/// The OAuth callback, as a pure function of the request's chars: `Ok((true, code,
/// state))` for a code, `Ok((false, message, state))` for a reported error.
pub open spec fn oauth_callback_spec(request: Seq<char>) -> Result<(bool, Seq<char>, Seq<char>), Seq<char>> {
    match callback_pairs(
        request,
        "/oauth/linear/callback"@,
        "invalid OAuth callback request"@,
        "OAuth callback is missing query parameters"@,
        "unexpected OAuth callback path"@,
    ) {
        Err(e) => Err(e),
        Ok(pairs) => match lookup(pairs, "state"@) {
            None => Err("OAuth callback is missing state"@),
            Some(state) => match lookup(pairs, "error"@) {
                Some(error) => Ok(
                    (
                        false,
                        match lookup(pairs, "error_description"@) {
                            Some(d) => d,
                            None => error,
                        },
                        state,
                    ),
                ),
                None => match lookup(pairs, "code"@) {
                    Some(code) => Ok((true, code, state)),
                    None => Err("OAuth callback is missing code"@),
                },
            },
        },
    }
}

/// Parse the browser's GET to `/oauth/linear/callback`. A reported `error` wins over a
/// `code`; its message is `error_description` when given.
pub fn parse_oauth_callback(request: &str) -> (r: Result<OAuthCallback, String>)
    ensures
        match r {
            Ok(OAuthCallback::Code { code, state }) => oauth_callback_spec(request@) == Ok::<
                (bool, Seq<char>, Seq<char>),
                Seq<char>,
            >((true, code@, state@)),
            Ok(OAuthCallback::Error { message, state }) => oauth_callback_spec(request@) == Ok::<
                (bool, Seq<char>, Seq<char>),
                Seq<char>,
            >((false, message@, state@)),
            Err(e) => oauth_callback_spec(request@) == Err::<(bool, Seq<char>, Seq<char>), Seq<char>>(e@),
        },
{
    let pairs = match target_query(
        request,
        "/oauth/linear/callback",
        "invalid OAuth callback request",
        "OAuth callback is missing query parameters",
        "unexpected OAuth callback path",
    ) {
        Ok(v) => v,
        Err(e) => {
            return Err(e);
        },
    };
    let ghost sp = callback_pairs(
        request@,
        "/oauth/linear/callback"@,
        "invalid OAuth callback request"@,
        "OAuth callback is missing query parameters"@,
        "unexpected OAuth callback path"@,
    )->Ok_0;
    let state = match lookup_exec(&pairs, "state", Ghost(sp)) {
        Some(s) => s,
        None => {
            return Err(owned("OAuth callback is missing state"));
        },
    };
    match lookup_exec(&pairs, "error", Ghost(sp)) {
        Some(error) => {
            let message = match lookup_exec(&pairs, "error_description", Ghost(sp)) {
                Some(d) => d,
                None => error,
            };
            return Ok(OAuthCallback::Error { message, state });
        },
        None => {},
    }
    match lookup_exec(&pairs, "code", Ghost(sp)) {
        Some(code) => Ok(OAuthCallback::Code { code, state }),
        None => Err(owned("OAuth callback is missing code")),
    }
}

/// The pairing callback, as a pure function of the request's chars: `(code, nonce)`.
pub open spec fn desktop_login_callback_spec(request: Seq<char>) -> Result<(Seq<char>, Seq<char>), Seq<char>> {
    match callback_pairs(
        request,
        "/"@,
        "invalid pairing callback request"@,
        "pairing callback is missing query parameters"@,
        "unexpected pairing callback path"@,
    ) {
        Err(e) => Err(e),
        Ok(pairs) => match lookup(pairs, "code"@) {
            None => Err("pairing callback is missing code"@),
            Some(code) => match lookup(pairs, "nonce"@) {
                None => Err("pairing callback is missing nonce"@),
                Some(nonce) => Ok((code, nonce)),
            },
        },
    }
}

/// Parse the browser's GET to `/?code=..&nonce=..` after the sign-in page redirects.
pub fn parse_desktop_login_callback(request: &str) -> (r: Result<(String, String), String>)
    ensures
        match r {
            Ok((code, nonce)) => desktop_login_callback_spec(request@) == Ok::<(Seq<char>, Seq<char>), Seq<char>>(
                (code@, nonce@),
            ),
            Err(e) => desktop_login_callback_spec(request@) == Err::<(Seq<char>, Seq<char>), Seq<char>>(e@),
        },
{
    let pairs = match target_query(
        request,
        "/",
        "invalid pairing callback request",
        "pairing callback is missing query parameters",
        "unexpected pairing callback path",
    ) {
        Ok(v) => v,
        Err(e) => {
            return Err(e);
        },
    };
    let ghost sp = callback_pairs(
        request@,
        "/"@,
        "invalid pairing callback request"@,
        "pairing callback is missing query parameters"@,
        "unexpected pairing callback path"@,
    )->Ok_0;
    let code = match lookup_exec(&pairs, "code", Ghost(sp)) {
        Some(c) => c,
        None => {
            return Err(owned("pairing callback is missing code"));
        },
    };
    match lookup_exec(&pairs, "nonce", Ghost(sp)) {
        Some(nonce) => Ok((code, nonce)),
        None => Err(owned("pairing callback is missing nonce")),
    }
}


/// The first word of `line` at or after `i`, and where the rest begins.
fn next_word(line: &Vec<char>, i: usize) -> (r: Option<(Vec<char>, usize)>)
    requires
        i <= line@.len(),
    ensures
        match r {
            None => words(line@.skip(i as int)).len() == 0,
            Some((w, j)) => words(line@.skip(i as int)).len() > 0 && words(line@.skip(i as int))[0] == w@ && i <= j
                <= line@.len() && words(line@.skip(j as int)) == words(line@.skip(i as int)).drop_first(),
        },
{
    let ghost s = line@.skip(i as int);
    let a = skip_ws(line, i);
    if a == line.len() {
        proof {
            assert(s.skip(lead_ws(s) as int).len() == 0);
        }
        return None;
    }
    let b = skip_word(line, a);
    let w = slice_chars(line, a, b);
    proof {
        let t = s.skip(lead_ws(s) as int);
        assert(t =~= line@.skip(a as int));
        lemma_lead_ws_bound(s);
        assert(t[0] == line@[a as int]);
        let rest = t.skip(word_len(t) as int);
        assert(rest =~= line@.skip(b as int));
        assert(words(s) == seq![t.take(word_len(t) as int)] + words(rest));
        assert(w@ =~= t.take(word_len(t) as int));
        assert(words(s).drop_first() =~= words(rest));
    }
    Some((w, b))
}

/// The first two whitespace-separated words of `line`.
pub fn first_two_words(line: &Vec<char>) -> (r: Option<(Vec<char>, Vec<char>)>)
    ensures
        match r {
            Some((a, b)) => words(line@).len() > 1 && words(line@)[0] == a@ && words(line@)[1] == b@,
            None => words(line@).len() <= 1,
        },
{
    assert(line@.skip(0) =~= line@);
    let (first, j) = match next_word(line, 0) {
        Some(x) => x,
        None => {
            return None;
        },
    };
    match next_word(line, j) {
        Some((second, _)) => Some((first, second)),
        None => None,
    }
}

} // verus!
