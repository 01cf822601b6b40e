//! The names a new task takes: a duplicate's name, slug, branch and worktree, the numbered
//! slug a taken one gives way to, attachment file names that do not collide, and which
//! draft a name reuses.
use vstd::prelude::*;
use crate::artifacts::{extension_of, file_name_of, file_stem_of, path_file_name};
use crate::connections::digits_value;
use crate::paths::{kebab, law_slug_kebab, slug_spec, slugify};
use crate::fresh_names::{count_candidates_from, injective, lemma_count_candidates};
use crate::text::{
    all_digits, all_digits_exec, chars_eq_str, chars_of, decimal, has_prefix, lemma_decimal_injective,
    lemma_last_index_of, occurs_at, occurs_at_exec, owned, push_decimal, push_str, rfind_char, rsplit_once,
    rsplit_once_chars, seq_lt, chars_lt, slice_chars, starts_with, str_eq, string_of, trim, trim_end, trim_end_chars,
    trim_str,
};

verus! {

broadcast use vstd::seq_lib::group_seq_properties;

// ---- numbers and patterns ---------------------------------------------------------

/// `u64::from_str`: an optional `+`, then at least one digit, the value in range.
pub open spec fn parse_u64_spec(t: Seq<char>) -> Option<u64> {
    let d = if t.len() > 0 && t[0] == '+' {
        t.drop_first()
    } else {
        t
    };
    if d.len() > 0 && all_digits(d) && digits_value(d) <= u64::MAX {
        Some(digits_value(d) as u64)
    } else {
        None
    }
}

pub fn parse_u64(t: &Vec<char>) -> (r: Option<u64>)
    ensures
        r == parse_u64_spec(t@),
{
    let d = if t.len() > 0 && t[0] == '+' {
        slice_chars(t, 1, t.len())
    } else {
        slice_chars(t, 0, t.len())
    };
    proof {
        if t@.len() > 0 && t@[0] == '+' {
            assert(d@ =~= t@.drop_first());
        } else {
            assert(d@ =~= t@);
        }
    }
    if d.len() == 0 || !all_digits_exec(d.as_slice()) {
        return None;
    }
    match crate::imports::digits_u64(&d) {
        Some(n) => Some(n),
        None => None,
    }
}

/// The last position where `p` occurs in `s` at or before `i`.
pub open spec fn rfind_at_or_before(s: Seq<char>, p: Seq<char>, i: int) -> Option<int>
    decreases i + 1,
{
    if i < 0 {
        None
    } else if occurs_at(s, p, i) {
        Some(i)
    } else {
        rfind_at_or_before(s, p, i - 1)
    }
}

/// `str::rfind` with a string pattern.
pub open spec fn rfind_seq(s: Seq<char>, p: Seq<char>) -> Option<int> {
    rfind_at_or_before(s, p, s.len() - p.len())
}

fn rfind_seq_exec(v: &Vec<char>, p: &Vec<char>) -> (r: Option<usize>)
    ensures
        match r {
            Some(k) => rfind_seq(v@, p@) == Some(k as int) && k + p@.len() <= v@.len(),
            None => rfind_seq(v@, p@) is None,
        },
{
    if p.len() > v.len() {
        return None;
    }
    let mut j: usize = v.len() - p.len();
    loop
        invariant
            j + p@.len() <= v@.len(),
            rfind_seq(v@, p@) == rfind_at_or_before(v@, p@, j as int),
        decreases j,
    {
        if occurs_at_exec(v.as_slice(), p.as_slice(), j) {
            return Some(j);
        }
        if j == 0 {
            assert(rfind_at_or_before(v@, p@, -1) is None);
            return None;
        }
        j = j - 1;
    }
}

// ---- duplicates -------------------------------------------------------------------

/// The generation a task name carries: `<base> D+<n>` with `n` a positive number.
pub open spec fn name_generation(name: Seq<char>) -> Option<(Seq<char>, u64)> {
    let t = trim_end(name);
    match rfind_seq(t, " D+"@) {
        Some(i) => match parse_u64_spec(t.skip(i + 3)) {
            Some(n) => if n > 0 {
                Some((t.take(i), n))
            } else {
                None
            },
            None => None,
        },
        None => None,
    }
}

/// A duplicate's name: one generation on, `<base> D+<n+1>`; else the name with ` D+1`.
pub open spec fn duplicate_name_spec(name: Seq<char>) -> Seq<char> {
    match name_generation(name) {
        Some((base, n)) => if n < u64::MAX {
            base + " D+"@ + decimal((n + 1) as nat)
        } else {
            trim_end(name) + " D+1"@
        },
        None => trim_end(name) + " D+1"@,
    }
}

/// A duplicate of a duplicate drops the dedupe number (`-<n>`) from a slug, branch or
/// worktree name, so the new task is numbered against the original's name.
pub open spec fn identity_base(value: Seq<char>, generation: bool) -> Seq<char> {
    if generation {
        match rsplit_once(value, '-') {
            Some((base, number)) => if parse_u64_spec(number) is Some {
                base
            } else {
                value
            },
            None => value,
        }
    } else {
        value
    }
}

/// The names a duplicate asks for.
pub struct DuplicateNames {
    pub name: String,
    pub requested_slug: String,
    pub branch_name: String,
    pub worktree_name: Option<String>,
}

fn identity_base_exec(value: &str, generation: bool) -> (r: String)
    ensures
        r@ == identity_base(value@, generation),
{
    if generation {
        let v = chars_of(value);
        match rsplit_once_chars(&v, '-') {
            Some((base, number)) => {
                if parse_u64(&number).is_some() {
                    return string_of(base.as_slice());
                }
            },
            None => {},
        }
    }
    owned(value)
}

/// The name a duplicate of a task named `name` gets; see [`duplicate_name_spec`].
pub fn duplicate_name(name: &str) -> (r: (String, bool))
    ensures
        r.0@ == duplicate_name_spec(name@),
        r.1 == name_generation(name@) is Some,
{
    let v = chars_of(name);
    let t = trim_end_chars(&v);
    let pat = chars_of(" D+");
    proof {
        reveal_strlit(" D+");
    }
    assert(pat@.len() == 3);
    let tn = t.len();
    match rfind_seq_exec(&t, &pat) {
        Some(i) => {
            let number = slice_chars(&t, i + 3, tn);
            assert(number@ =~= t@.skip(i + 3));
            match parse_u64(&number) {
                Some(n) => if n > 0 {
                    let base = slice_chars(&t, 0, i);
                    assert(base@ =~= t@.take(i as int));
                    if n < u64::MAX {
                        let mut out = string_of(base.as_slice());
                        push_str(&mut out, " D+");
                        push_decimal(&mut out, n + 1, 0);
                        return (out, true);
                    } else {
                        let mut out = string_of(t.as_slice());
                        push_str(&mut out, " D+1");
                        return (out, true);
                    }
                },
                None => {},
            }
        },
        None => {},
    }
    let mut out = string_of(t.as_slice());
    push_str(&mut out, " D+1");
    (out, false)
}

/// What a duplicate of a task asks to be called. The worktree name is the last component
/// of the source's worktree path, when it has one.
pub fn duplicate_names(name: &str, slug: &str, branch: &str, worktree: &str) -> (r: DuplicateNames)
    ensures
        r.name@ == duplicate_name_spec(name@),
        r.requested_slug@ == identity_base(slug@, name_generation(name@) is Some),
        r.branch_name@ == identity_base(branch@, name_generation(name@) is Some),
        match file_name_of(worktree@) {
            Some(w) => r.worktree_name matches Some(x) && x@ == identity_base(w, name_generation(name@) is Some),
            None => r.worktree_name is None,
        },
{
    let (new_name, generation) = duplicate_name(name);
    let worktree_name = match path_file_name(worktree) {
        Some(w) => {
            let ws = string_of(w.as_slice());
            Some(identity_base_exec(ws.as_str(), generation))
        },
        None => None,
    };
    DuplicateNames {
        name: new_name,
        requested_slug: identity_base_exec(slug, generation),
        branch_name: identity_base_exec(branch, generation),
        worktree_name,
    }
}

/// Only finished, current-engine tasks are duplicated.
pub fn duplicate_check(draft: bool, engine_version: u64) -> (r: Result<(), String>)
    ensures
        draft ==> (r matches Err(e) && e@ == "draft tasks cannot be duplicated"@),
        !draft && engine_version < 2 ==> (r matches Err(e) && e@
            == "pre-v2 task data cannot be duplicated into executable work"@),
        !draft && engine_version >= 2 ==> r is Ok,
{
    if draft {
        return Err(owned("draft tasks cannot be duplicated"));
    }
    if engine_version < 2 {
        return Err(owned("pre-v2 task data cannot be duplicated into executable work"));
    }
    Ok(())
}

/// The slug tried when `base` is taken: `<base>-<n>`, from 2 up.
pub open spec fn numbered_slug_spec(base: Seq<char>, n: nat) -> Seq<char> {
    base + "-"@ + decimal(n)
}

pub fn numbered_slug(base: &str, n: u64) -> (r: String)
    ensures
        r@ == numbered_slug_spec(base@, n as nat),
{
    let mut s = owned(base);
    push_str(&mut s, "-");
    push_decimal(&mut s, n, 0);
    s
}


// ---- what the naming keeps ----------------------------------------------------------

/// A number's decimal form is digits that read back as the number.
pub proof fn lemma_decimal_digits(n: nat)
    ensures
        all_digits(decimal(n)),
        digits_value(decimal(n)) == n,
        decimal(n).len() > 0,
    decreases n,
{
    if n < 10 {
        assert(decimal(n) == seq![crate::text::digit(n as int)]);
        assert(decimal(n).drop_last() =~= Seq::<char>::empty());
        assert(decimal(n).last() == crate::text::digit(n as int));
        assert((crate::text::digit(n as int) as u32) == 48 + n);
        assert(digits_value(Seq::<char>::empty()) == 0);
    } else {
        lemma_decimal_digits(n / 10);
        let d = decimal(n);
        assert(d == decimal(n / 10).push(crate::text::digit((n % 10) as int)));
        assert(d.drop_last() =~= decimal(n / 10));
        assert(d.last() == crate::text::digit((n % 10) as int));
        assert((crate::text::digit((n % 10) as int) as u32) == 48 + n % 10);
        assert(digits_value(d) == digits_value(decimal(n / 10)) * 10 + n % 10);
        assert((n / 10) * 10 + n % 10 == n);
        assert forall|i: int| 0 <= i < d.len() implies crate::text::is_digit(#[trigger] d[i]) by {
            if i < d.len() - 1 {
                assert(d[i] == decimal(n / 10)[i]);
            }
        }
    }
}

proof fn lemma_parse_decimal(n: nat)
    requires
        n <= u64::MAX,
    ensures
        parse_u64_spec(decimal(n)) == Some(n as u64),
{
    lemma_decimal_digits(n);
    assert(crate::text::is_digit(decimal(n)[0]));
}

proof fn lemma_rfind_at_or_before(s: Seq<char>, p: Seq<char>, i: int, j: int)
    requires
        0 <= j <= i,
        occurs_at(s, p, j),
        forall|k: int| j < k <= i ==> !occurs_at(s, p, k),
    ensures
        rfind_at_or_before(s, p, i) == Some(j),
    decreases i - j,
{
    if i > j {
        lemma_rfind_at_or_before(s, p, i - 1, j);
    }
}

proof fn lemma_trim_end_digit_tail(t: Seq<char>)
    requires
        t.len() > 0,
        crate::text::is_digit(t.last()),
    ensures
        trim_end(t) == t,
{
    assert(crate::text::trail_ws(t) == 0);
    assert(t.take(t.len() as int) =~= t);
}

proof fn lemma_last_pattern(x: Seq<char>, d: Seq<char>)
    requires
        all_digits(d),
    ensures
        rfind_seq(x + " D+"@ + d, " D+"@) == Some(x.len() as int),
{
    reveal_strlit(" D+");
    let pat = " D+"@;
    let t = x + pat + d;
    assert(t.subrange(x.len() as int, x.len() + 3int) =~= pat);
    assert forall|k: int| x.len() < k <= t.len() - 3 implies !occurs_at(t, pat, k) by {
        if occurs_at(t, pat, k) {
            assert(t.subrange(k, k + 3)[0] == t[k]);
            if k == x.len() + 1 {
                assert(t[k] == 'D');
            } else if k == x.len() + 2 {
                assert(t[k] == '+');
            } else {
                assert(t[k] == d[k - x.len() - 3]);
                assert(crate::text::is_digit(d[k - x.len() - 3]));
            }
        }
    }
    lemma_rfind_at_or_before(t, pat, t.len() - 3, x.len() as int);
}

/// `<x> D+<m>` carries generation `m` over `x`.
proof fn lemma_generation_of(x: Seq<char>, m: nat)
    requires
        1 <= m <= u64::MAX,
    ensures
        name_generation(x + " D+"@ + decimal(m)) == Some((x, m as u64)),
{
    reveal_strlit(" D+");
    let t = x + " D+"@ + decimal(m);
    lemma_decimal_digits(m);
    assert(t.last() == decimal(m)[decimal(m).len() - 1]);
    lemma_trim_end_digit_tail(t);
    lemma_last_pattern(x, decimal(m));
    assert(t.skip(x.len() + 3int) =~= decimal(m));
    assert(t.take(x.len() as int) =~= x);
    lemma_parse_decimal(m);
}

/// Duplicating counts generations on: the duplicate of `<base> D+<n>` carries `n + 1`
/// over the same base, and the duplicate of any other name carries 1 over the name.
pub proof fn law_duplicate_counts_on(name: Seq<char>)
    ensures
        name_generation(duplicate_name_spec(name)) == Some(
            match name_generation(name) {
                Some((base, n)) => if n < u64::MAX {
                    (base, (n + 1) as u64)
                } else {
                    (trim_end(name), 1u64)
                },
                None => (trim_end(name), 1u64),
            },
        ),
{
    reveal_strlit(" D+1");
    reveal_strlit(" D+");
    assert(decimal(1) == seq!['1']);
    assert(" D+1"@ =~= " D+"@ + decimal(1));
    match name_generation(name) {
        Some((base, n)) => {
            if n < u64::MAX {
                lemma_generation_of(base, (n + 1) as nat);
            } else {
                assert(trim_end(name) + " D+1"@ =~= trim_end(name) + " D+"@ + decimal(1));
                lemma_generation_of(trim_end(name), 1);
            }
        },
        None => {
            assert(trim_end(name) + " D+1"@ =~= trim_end(name) + " D+"@ + decimal(1));
            lemma_generation_of(trim_end(name), 1);
        },
    }
}

/// A duplicate is numbered against the original's name: the identity base of a numbered
/// slug `<base>-<n>` is `<base>`.
pub proof fn law_identity_base_undoes_numbering(base: Seq<char>, n: u64)
    ensures
        identity_base(numbered_slug_spec(base, n as nat), true) == base,
{
    reveal_strlit("-");
    let d = decimal(n as nat);
    let s = numbered_slug_spec(base, n as nat);
    lemma_decimal_digits(n as nat);
    assert(s[base.len() as int] == '-');
    assert forall|k: int| base.len() < k < s.len() implies s[k] != '-' by {
        assert(s[k] == d[k - base.len() - 1]);
        assert(crate::text::is_digit(d[k - base.len() - 1]));
    }
    lemma_last_index_of(s, '-');
    match crate::text::last_index_of(s, '-') {
        Some(j) => {
            assert(j == base.len());
        },
        None => {
            assert(s[base.len() as int] == '-');
        },
    }
    assert(s.take(base.len() as int) =~= base);
    assert(s.skip(base.len() + 1int) =~= d);
    lemma_parse_decimal(n as nat);
}


// ---- attachments ------------------------------------------------------------------

/// How an attachment entry is taken: a blank one is skipped, a web link is kept as a
/// link, anything else is a file path; each trimmed.
pub enum AttachmentEntry {
    Skip,
    Url(String),
    Path(String),
}

pub fn classify_attachment_entry(entry: &str) -> (r: AttachmentEntry)
    ensures
        trim(entry@).len() == 0 ==> r is Skip,
        trim(entry@).len() > 0 && (has_prefix(trim(entry@), "https://"@) || has_prefix(trim(entry@), "http://"@))
            ==> (r matches AttachmentEntry::Url(u) && u@ == trim(entry@)),
        trim(entry@).len() > 0 && !(has_prefix(trim(entry@), "https://"@) || has_prefix(trim(entry@), "http://"@))
            ==> (r matches AttachmentEntry::Path(p) && p@ == trim(entry@)),
{
    let t = trim_str(entry);
    if t.as_str().unicode_len() == 0 {
        return AttachmentEntry::Skip;
    }
    let v = chars_of(t.as_str());
    let https = chars_of("https://");
    let http = chars_of("http://");
    if starts_with(v.as_slice(), https.as_slice()) || starts_with(v.as_slice(), http.as_slice()) {
        AttachmentEntry::Url(t)
    } else {
        AttachmentEntry::Path(t)
    }
}

/// The name tried in place of a taken `base`: `<stem>-<n>.<ext>`, or `<stem>-<n>` when it
/// has no extension; none when `base` has no file stem.
pub open spec fn suffixed_name(base: Seq<char>, n: nat) -> Option<Seq<char>> {
    match file_stem_of(base) {
        None => None,
        Some(stem) => Some(
            match extension_of(base) {
                Some(e) => stem + "-"@ + decimal(n) + "."@ + e,
                None => stem + "-"@ + decimal(n),
            },
        ),
    }
}

/// `Path::file_stem` and `Path::extension` of `base`.
fn stem_and_extension(base: &str) -> (r: Option<(Vec<char>, Option<Vec<char>>)>)
    ensures
        match r {
            Some((stem, ext)) => file_stem_of(base@) == Some(stem@) && match ext {
                Some(e) => extension_of(base@) == Some(e@),
                None => extension_of(base@) is None,
            },
            None => file_stem_of(base@) is None && extension_of(base@) is None,
        },
{
    let name = match path_file_name(base) {
        None => {
            return None;
        },
        Some(n) => n,
    };
    proof {
        lemma_last_index_of(name@, '.');
    }
    match rfind_char(name.as_slice(), '.') {
        Some(d) => if d > 0 {
            let stem = slice_chars(&name, 0, d);
            let ext = slice_chars(&name, d + 1, name.len());
            Some((stem, Some(ext)))
        } else {
            Some((slice_chars(&name, 0, name.len()), None))
        },
        None => Some((slice_chars(&name, 0, name.len()), None)),
    }
}

/// The `n`-th name tried for `base`; see [`suffixed_name`].
pub fn suffixed_attachment_name(base: &str, n: u64) -> (r: Option<String>)
    ensures
        match r {
            Some(x) => suffixed_name(base@, n as nat) == Some(x@),
            None => suffixed_name(base@, n as nat) is None,
        },
{
    match stem_and_extension(base) {
        None => None,
        Some((stem, ext)) => {
            let mut out = string_of(stem.as_slice());
            push_str(&mut out, "-");
            push_decimal(&mut out, n, 0);
            match ext {
                Some(e) => {
                    push_str(&mut out, ".");
                    let es = string_of(e.as_slice());
                    push_str(&mut out, es.as_str());
                },
                None => {},
            }
            Some(out)
        },
    }
}

/// The names tried, in order, for a file copied into a task's attachments: `base`, then
/// (when it has a stem) its suffixed names from 2 to 99.
pub fn attachment_candidates(base: &str) -> (r: Vec<String>)
    ensures
        r@.len() == if file_stem_of(base@) is Some {
            99int
        } else {
            1int
        },
        r@[0]@ == base@,
        forall|i: int| 1 <= i < r@.len() ==> suffixed_name(base@, (i + 1) as nat) == Some(#[trigger] r@[i]@),
{
    let mut out: Vec<String> = Vec::new();
    out.push(owned(base));
    if stem_and_extension(base).is_none() {
        return out;
    }
    let mut n: u64 = 2;
    while n <= 99
        invariant
            2 <= n <= 100,
            file_stem_of(base@) is Some,
            out@.len() == n - 1,
            out@[0]@ == base@,
            forall|i: int| 1 <= i < out@.len() ==> suffixed_name(base@, (i + 1) as nat) == Some(#[trigger] out@[i]@),
        decreases 100 - n,
    {
        match suffixed_attachment_name(base, n) {
            Some(x) => {
                out.push(x);
            },
            None => {
                return out;
            },
        }
        n = n + 1;
    }
    out
}

proof fn lemma_suffixed_name_injective(base: Seq<char>)
    requires
        file_stem_of(base) is Some,
    ensures
        injective(|n: nat| suffixed_name(base, n)->0),
{
    let stem = file_stem_of(base)->0;
    assert forall|a: nat, b: nat| #[trigger] suffixed_name(base, a)->0 == #[trigger] suffixed_name(base, b)->0 implies a
        == b by {
        let p = stem + "-"@;
        let tail = match extension_of(base) {
            Some(e) => "."@ + e,
            None => Seq::<char>::empty(),
        };
        assert(suffixed_name(base, a)->0 =~= p + decimal(a) + tail);
        assert(suffixed_name(base, b)->0 =~= p + decimal(b) + tail);
        let x = p + decimal(a) + tail;
        let y = p + decimal(b) + tail;
        assert(decimal(a).len() == decimal(b).len());
        assert(x.subrange(p.len() as int, (p.len() + decimal(a).len()) as int) =~= decimal(a));
        assert(y.subrange(p.len() as int, (p.len() + decimal(b).len()) as int) =~= decimal(b));
        lemma_decimal_injective(a, b);
    }
}

fn names_contain(names: &Vec<String>, x: &str) -> (r: bool)
    ensures
        r == names@.map_values(|s: String| s@).contains(x@),
{
    let ghost views = names@.map_values(|s: String| s@);
    let mut i: usize = 0;
    while i < names.len()
        invariant
            i <= names@.len(),
            views == names@.map_values(|s: String| s@),
            forall|j: int| 0 <= j < i ==> names@[j]@ != x@,
        decreases names@.len() - i,
    {
        if str_eq(names[i].as_str(), x) {
            assert(views[i as int] == x@);
            return true;
        }
        i = i + 1;
    }
    proof {
        if views.contains(x@) {
            let j = choose|j: int| 0 <= j < views.len() && views[j] == x@;
            assert(names@[j]@ == x@);
        }
    }
    false
}

/// The name a file takes among the attachments already accepted (`names`): its own name
/// when that is free, else its first free suffixed name from 2 up.
pub open spec fn accepted_name_ok(r: Result<Seq<char>, Seq<char>>, names: Seq<Seq<char>>, base: Seq<char>) -> bool {
    if !names.contains(base) {
        r == Ok::<Seq<char>, Seq<char>>(base)
    } else if file_stem_of(base) is None {
        r == Err::<Seq<char>, Seq<char>>("unusable file name"@)
    } else {
        r matches Ok(x) && !names.contains(x) && exists|n: nat|
            n >= 2 && suffixed_name(base, n) == Some(x) && forall|m: nat|
                2 <= m < n ==> names.contains(#[trigger] suffixed_name(base, m)->0)
    }
}

pub fn accepted_attachment_name(names: &Vec<String>, base: &str) -> (r: Result<String, String>)
    requires
        names@.len() < u64::MAX - 2,
    ensures
        accepted_name_ok(
            match r {
                Ok(x) => Ok::<Seq<char>, Seq<char>>(x@),
                Err(e) => Err::<Seq<char>, Seq<char>>(e@),
            },
            names@.map_values(|s: String| s@),
            base@,
        ),
{
    let ghost views = names@.map_values(|s: String| s@);
    if !names_contain(names, base) {
        return Ok(owned(base));
    }
    if stem_and_extension(base).is_none() {
        return Err(owned("unusable file name"));
    }
    let ghost cand = |k: nat| suffixed_name(base@, k)->0;
    proof {
        lemma_suffixed_name_injective(base@);
        lemma_count_candidates(views, cand, 2);
    }
    let mut n: u64 = 2;
    let mut candidate = match suffixed_attachment_name(base, n) {
        Some(x) => x,
        None => {
            return Err(owned("unusable file name"));
        },
    };
    while names_contain(names, candidate.as_str())
        invariant
            views == names@.map_values(|s: String| s@),
            views.len() == names@.len(),
            names@.len() < u64::MAX - 2,
            views.contains(base@),
            file_stem_of(base@) is Some,
            2 <= n,
            cand == (|k: nat| suffixed_name(base@, k)->0),
            injective(cand),
            suffixed_name(base@, n as nat) == Some(candidate@),
            forall|m: nat| 2 <= m < n ==> views.contains(#[trigger] suffixed_name(base@, m)->0),
            (n - 2) + count_candidates_from(views, cand, n as nat) <= count_candidates_from(views, cand, 2),
            count_candidates_from(views, cand, 2) <= views.len(),
        decreases count_candidates_from(views, cand, n as nat),
    {
        proof {
            assert(cand(n as nat) == candidate@);
            lemma_count_candidates(views, cand, n as nat);
        }
        n = n + 1;
        candidate = match suffixed_attachment_name(base, n) {
            Some(x) => x,
            None => {
                return Err(owned("unusable file name"));
            },
        };
    }
    Ok(candidate)
}

// ---- drafts -----------------------------------------------------------------------

/// A task directory as the draft lookup reads it.
pub struct DraftCandidate {
    pub slug: String,
    pub draft: bool,
    pub archived: bool,
    pub name: String,
    pub created: u64,
}

/// A draft that is not archived and has this name can be written again.
pub open spec fn reusable_named(c: DraftCandidate, name: Seq<char>) -> bool {
    c.draft && !c.archived && c.name@ == name
}

/// The latest reusable draft named `name` among `s`: by creation time, then by slug.
pub open spec fn latest_draft_spec(s: Seq<DraftCandidate>, name: Seq<char>) -> Option<(u64, Seq<char>)>
    decreases s.len(),
{
    if s.len() == 0 {
        None
    } else {
        let best = latest_draft_spec(s.drop_last(), name);
        let c = s.last();
        if reusable_named(c, name) && match best {
            None => true,
            Some((created, slug)) => c.created > created || (c.created == created && seq_lt(slug, c.slug@)),
        } {
            Some((c.created, c.slug@))
        } else {
            best
        }
    }
}

pub fn latest_draft_slug(cands: &Vec<DraftCandidate>, name: &str) -> (r: Option<String>)
    ensures
        match latest_draft_spec(cands@, name@) {
            Some((_, slug)) => r matches Some(x) && x@ == slug,
            None => r is None,
        },
{
    let mut best: Option<(u64, usize)> = None;
    let mut i: usize = 0;
    while i < cands.len()
        invariant
            i <= cands@.len(),
            match latest_draft_spec(cands@.take(i as int), name@) {
                Some((created, slug)) => best matches Some((c, j)) && c == created && j < i && cands@[j as int].slug@
                    == slug,
                None => best is None,
            },
        decreases cands@.len() - i,
    {
        proof {
            assert(cands@.take(i + 1).drop_last() =~= cands@.take(i as int));
            assert(cands@.take(i + 1).last() == cands@[i as int]);
        }
        let c = &cands[i];
        if c.draft && !c.archived && str_eq(c.name.as_str(), name) {
            let beats = match best {
                None => true,
                Some((created, j)) => {
                    let a = chars_of(cands[j].slug.as_str());
                    let b = chars_of(c.slug.as_str());
                    c.created > created || (c.created == created && chars_lt(a.as_slice(), b.as_slice()))
                },
            };
            if beats {
                best = Some((c.created, i));
            }
        }
        i = i + 1;
    }
    proof {
        assert(cands@.take(i as int) =~= cands@);
    }
    match best {
        Some((_, j)) => Some(owned(cands[j].slug.as_str())),
        None => None,
    }
}

/// What reading the task at the base slug found.
pub enum BaseDraft {
    /// A draft that can be written again.
    Reusable,
    /// Some other task.
    Taken,
    /// Nothing readable; whether its directory exists.
    Unreadable { dir_exists: bool },
}

/// Which slug a draft is written under.
pub enum DraftSlug {
    Use(String),
    /// A fresh numbered slug from the base (the checks are on disk).
    Unique,
}

/// The base slug when it holds a reusable draft; otherwise the latest reusable draft with
/// this name; otherwise a fresh slug, or the base itself when nothing is there at all.
/// `latest` is only consulted when the base is not a reusable draft.
pub fn draft_slug_choice(base: &str, base_task: &BaseDraft, latest: Option<String>) -> (r: DraftSlug)
    ensures
        match base_task {
            BaseDraft::Reusable => r matches DraftSlug::Use(s) && s@ == base@,
            BaseDraft::Taken => match latest {
                Some(l) => r matches DraftSlug::Use(s) && s@ == l@,
                None => r is Unique,
            },
            BaseDraft::Unreadable { dir_exists } => match latest {
                Some(l) => r matches DraftSlug::Use(s) && s@ == l@,
                None => if *dir_exists {
                    r is Unique
                } else {
                    r matches DraftSlug::Use(s) && s@ == base@
                },
            },
        },
{
    match base_task {
        BaseDraft::Reusable => DraftSlug::Use(owned(base)),
        BaseDraft::Taken => match latest {
            Some(l) => DraftSlug::Use(l),
            None => DraftSlug::Unique,
        },
        BaseDraft::Unreadable { dir_exists } => match latest {
            Some(l) => DraftSlug::Use(l),
            None => if *dir_exists {
                DraftSlug::Unique
            } else {
                DraftSlug::Use(owned(base))
            },
        },
    }
}


// ---- writing a draft ----------------------------------------------------------------

/// A draft's name and the slug it is filed under, or why it is refused: no live sessions
/// allowed, or a blank name.
pub open spec fn draft_names_spec(max_live_sessions: u32, name: Seq<char>) -> Result<(Seq<char>, Seq<char>), Seq<char>> {
    if max_live_sessions == 0 {
        Err("maximum live sessions must be positive"@)
    } else if trim(name).len() == 0 || slug_spec(trim(name)).len() == 0 {
        Err("task name is empty"@)
    } else {
        Ok((trim(name), slug_spec(trim(name))))
    }
}

pub fn draft_names(max_live_sessions: u32, name: &str) -> (r: Result<(String, String), String>)
    ensures
        match r {
            Ok((n, b)) => draft_names_spec(max_live_sessions, name@) == Ok::<(Seq<char>, Seq<char>), Seq<char>>(
                (n@, b@),
            ),
            Err(e) => draft_names_spec(max_live_sessions, name@) == Err::<(Seq<char>, Seq<char>), Seq<char>>(e@),
        },
{
    if max_live_sessions == 0 {
        return Err(owned("maximum live sessions must be positive"));
    }
    let n = trim_str(name);
    if n.as_str().unicode_len() == 0 {
        return Err(owned("task name is empty"));
    }
    let base = slugify(n.as_str());
    if base.as_str().unicode_len() == 0 {
        return Err(owned("task name is empty"));
    }
    Ok((n, base))
}

/// The task slug a draft asks for: the one given, which must already be a slug; when none
/// is given, the one it asked for before, or the slug of its name.
pub open spec fn requested_slug_spec(task_slug: Seq<char>, previous: Option<Seq<char>>, name: Seq<char>) -> Result<
    Seq<char>,
    Seq<char>,
> {
    if trim(task_slug).len() == 0 {
        Ok(
            match previous {
                Some(p) => if p.len() > 0 {
                    p
                } else {
                    slug_spec(name)
                },
                None => slug_spec(name),
            },
        )
    } else if slug_spec(trim(task_slug)) == trim(task_slug) {
        Ok(trim(task_slug))
    } else {
        Err("task slug must use lowercase letters, numbers, and single dashes"@)
    }
}

pub fn requested_task_slug(task_slug: &str, previous: Option<&str>, name: &str) -> (r: Result<String, String>)
    ensures
        match r {
            Ok(x) => requested_slug_spec(
                task_slug@,
                match previous {
                    Some(p) => Some(p@),
                    None => None,
                },
                name@,
            ) == Ok::<Seq<char>, Seq<char>>(x@),
            Err(e) => requested_slug_spec(
                task_slug@,
                match previous {
                    Some(p) => Some(p@),
                    None => None,
                },
                name@,
            ) == Err::<Seq<char>, Seq<char>>(e@),
        },
{
    let t = trim_str(task_slug);
    if t.as_str().unicode_len() == 0 {
        return Ok(
            match previous {
                Some(p) => if p.unicode_len() > 0 {
                    owned(p)
                } else {
                    slugify(name)
                },
                None => slugify(name),
            },
        );
    }
    let normalized = slugify(t.as_str());
    if str_eq(normalized.as_str(), t.as_str()) {
        Ok(t)
    } else {
        Err(owned("task slug must use lowercase letters, numbers, and single dashes"))
    }
}

/// A slug a draft asks for is always a slug: kebab case, and its own slug.
pub proof fn law_requested_slug_is_kebab(task_slug: Seq<char>, name: Seq<char>)
    ensures
        requested_slug_spec(task_slug, None, name) matches Ok(x) ==> kebab(x) && slug_spec(x) == x,
{
    law_slug_kebab(name);
    law_slug_kebab(trim(task_slug));
}

// ---- related tasks ------------------------------------------------------------------

/// A related-task tag as given: the task's repository and slug, a display name, and
/// whether the trimmed slug is a safe path component.
pub struct RelatedTag {
    pub repo_path: String,
    pub slug: String,
    pub name: String,
    pub slug_safe: bool,
}

/// The tags kept, as trimmed `(repository, slug, name)`: each needs a repository and a safe
/// slug, none may be the task itself, and a repeat of an earlier tag is dropped. The
/// first bad tag refuses the whole list.
pub open spec fn cleaned_tags(tags: Seq<RelatedTag>, self_path: Seq<char>, self_slug: Seq<char>) -> Result<
    Seq<(Seq<char>, Seq<char>, Seq<char>)>,
    Seq<char>,
>
    decreases tags.len(),
{
    if tags.len() == 0 {
        Ok(seq![])
    } else {
        match cleaned_tags(tags.drop_last(), self_path, self_slug) {
            Err(e) => Err(e),
            Ok(prev) => {
                let t = tags.last();
                let repo = trim(t.repo_path@);
                let slug = trim(t.slug@);
                if repo.len() == 0 || slug.len() == 0 {
                    Err("related task is missing repo or slug"@)
                } else if !t.slug_safe {
                    Err("invalid related-task slug '"@ + slug + "'"@)
                } else if repo == self_path && slug == self_slug {
                    Err("cannot tag a task as related to itself"@)
                } else if exists|i: int| 0 <= i < prev.len() && (#[trigger] prev[i]).0 == repo && prev[i].1 == slug {
                    Ok(prev)
                } else {
                    Ok(prev.push((repo, slug, trim(t.name@))))
                }
            },
        }
    }
}

pub open spec fn tag_views(v: Seq<(String, String, String)>) -> Seq<(Seq<char>, Seq<char>, Seq<char>)> {
    v.map_values(|t: (String, String, String)| (t.0@, t.1@, t.2@))
}

/// Clean a task's related-task tags; see [`cleaned_tags`]. A tag whose name is blank is
/// named after the task it points to by the caller.
pub fn clean_related_tags(tags: &Vec<RelatedTag>, self_path: &str, self_slug: &str) -> (r: Result<
    Vec<(String, String, String)>,
    String,
>)
    ensures
        match r {
            Ok(v) => cleaned_tags(tags@, self_path@, self_slug@) == Ok::<
                Seq<(Seq<char>, Seq<char>, Seq<char>)>,
                Seq<char>,
            >(tag_views(v@)),
            Err(e) => cleaned_tags(tags@, self_path@, self_slug@) == Err::<
                Seq<(Seq<char>, Seq<char>, Seq<char>)>,
                Seq<char>,
            >(e@),
        },
{
    let mut out: Vec<(String, String, String)> = Vec::new();
    let mut i: usize = 0;
    proof {
        assert(tags@.take(0) =~= Seq::<RelatedTag>::empty());
        assert(tag_views(out@) =~= Seq::<(Seq<char>, Seq<char>, Seq<char>)>::empty());
    }
    while i < tags.len()
        invariant
            i <= tags@.len(),
            cleaned_tags(tags@.take(i as int), self_path@, self_slug@) == Ok::<
                Seq<(Seq<char>, Seq<char>, Seq<char>)>,
                Seq<char>,
            >(tag_views(out@)),
        decreases tags@.len() - i,
    {
        proof {
            assert(tags@.take(i + 1).drop_last() =~= tags@.take(i as int));
            assert(tags@.take(i + 1).last() == tags@[i as int]);
        }
        let t = &tags[i];
        let repo = trim_str(t.repo_path.as_str());
        let slug = trim_str(t.slug.as_str());
        if repo.as_str().unicode_len() == 0 || slug.as_str().unicode_len() == 0 {
            proof {
                lemma_cleaned_prefix_err(tags@, self_path@, self_slug@, i + 1);
                lemma_err_sticks(tags@, self_path@, self_slug@, i + 1);
            }
            return Err(owned("related task is missing repo or slug"));
        }
        if !t.slug_safe {
            let mut m = owned("invalid related-task slug '");
            push_str(&mut m, slug.as_str());
            push_str(&mut m, "'");
            proof {
                lemma_cleaned_prefix_err(tags@, self_path@, self_slug@, i + 1);
                lemma_err_sticks(tags@, self_path@, self_slug@, i + 1);
            }
            return Err(m);
        }
        if str_eq(repo.as_str(), self_path) && str_eq(slug.as_str(), self_slug) {
            proof {
                lemma_cleaned_prefix_err(tags@, self_path@, self_slug@, i + 1);
                lemma_err_sticks(tags@, self_path@, self_slug@, i + 1);
            }
            return Err(owned("cannot tag a task as related to itself"));
        }
        let mut dup = false;
        let mut j: usize = 0;
        while j < out.len()
            invariant
                j <= out@.len(),
                !dup ==> forall|k: int| 0 <= k < j ==> !((#[trigger] tag_views(out@)[k]).0 == repo@ && tag_views(
                    out@,
                )[k].1 == slug@),
                dup ==> exists|k: int| 0 <= k < out@.len() && (#[trigger] tag_views(out@)[k]).0 == repo@ && tag_views(
                    out@,
                )[k].1 == slug@,
            decreases out@.len() - j,
        {
            if !dup && str_eq(out[j].0.as_str(), repo.as_str()) && str_eq(out[j].1.as_str(), slug.as_str()) {
                dup = true;
                assert(tag_views(out@)[j as int].0 == repo@ && tag_views(out@)[j as int].1 == slug@);
            }
            j = j + 1;
        }
        if !dup {
            let name = trim_str(t.name.as_str());
            let ghost before = out@;
            out.push((repo, slug, name));
            proof {
                assert(tag_views(out@) =~= tag_views(before).push((trim(t.repo_path@), trim(t.slug@), trim(t.name@))));
            }
        }
        proof {
            lemma_cleaned_prefix_ok(tags@, self_path@, self_slug@, i + 1);
        }
        i = i + 1;
    }
    proof {
        assert(tags@.take(i as int) =~= tags@);
    }
    Ok(out)
}

proof fn lemma_cleaned_prefix_err(tags: Seq<RelatedTag>, self_path: Seq<char>, self_slug: Seq<char>, n: int)
    requires
        0 < n <= tags.len(),
    ensures
        cleaned_tags(tags.take(n), self_path, self_slug) == cleaned_tags(tags.take(n - 1).push(tags[n - 1]), self_path, self_slug),
{
    assert(tags.take(n) =~= tags.take(n - 1).push(tags[n - 1]));
}

proof fn lemma_err_sticks(tags: Seq<RelatedTag>, self_path: Seq<char>, self_slug: Seq<char>, n: int)
    requires
        0 <= n <= tags.len(),
        cleaned_tags(tags.take(n), self_path, self_slug) is Err,
    ensures
        cleaned_tags(tags, self_path, self_slug) == cleaned_tags(tags.take(n), self_path, self_slug),
    decreases tags.len() - n,
{
    if n < tags.len() {
        assert(tags.take(n + 1).drop_last() =~= tags.take(n));
        lemma_err_sticks(tags, self_path, self_slug, n + 1);
    } else {
        assert(tags.take(n) =~= tags);
    }
}

proof fn lemma_cleaned_prefix_ok(tags: Seq<RelatedTag>, self_path: Seq<char>, self_slug: Seq<char>, n: int)
    requires
        0 < n <= tags.len(),
    ensures
        cleaned_tags(tags.take(n), self_path, self_slug) == cleaned_tags(tags.take(n - 1).push(tags[n - 1]), self_path, self_slug),
{
    assert(tags.take(n) =~= tags.take(n - 1).push(tags[n - 1]));
}

/// A cleaned list never holds the task itself, nor the same task twice.
pub proof fn law_related_tags_distinct(tags: Seq<RelatedTag>, self_path: Seq<char>, self_slug: Seq<char>)
    ensures
        cleaned_tags(tags, self_path, self_slug) matches Ok(v) ==> {
            &&& forall|i: int| 0 <= i < v.len() ==> !((#[trigger] v[i]).0 == self_path && v[i].1 == self_slug)
            &&& forall|i: int, j: int| 0 <= i < j < v.len() ==> !((#[trigger] v[i]).0 == (#[trigger] v[j]).0 && v[i].1 == v[j].1)
        },
    decreases tags.len(),
{
    if tags.len() > 0 {
        law_related_tags_distinct(tags.drop_last(), self_path, self_slug);
        match cleaned_tags(tags.drop_last(), self_path, self_slug) {
            Ok(prev) => {
                let t = tags.last();
                let repo = trim(t.repo_path@);
                let slug = trim(t.slug@);
                if let Ok(v) = cleaned_tags(tags, self_path, self_slug) {
                    if v.len() > prev.len() {
                        assert(v == prev.push((repo, slug, trim(t.name@))));
                        assert forall|i: int, j: int| 0 <= i < j < v.len() implies !((#[trigger] v[i]).0 == (
                        #[trigger] v[j]).0 && v[i].1 == v[j].1) by {
                            if j == v.len() - 1 {
                                assert(v[i] == prev[i]);
                            } else {
                                assert(v[i] == prev[i] && v[j] == prev[j]);
                            }
                        }
                        assert forall|i: int| 0 <= i < v.len() implies !((#[trigger] v[i]).0 == self_path && v[i].1
                            == self_slug) by {
                            if i < v.len() - 1 {
                                assert(v[i] == prev[i]);
                            }
                        }
                    }
                }
            },
            Err(_) => {},
        }
    }
}

} // verus!
