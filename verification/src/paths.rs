//! File locations under a repository or the app's config directory.
//!
//! Paths are Unix path strings. Joining follows `PathBuf::push`: an absolute component
//! replaces the path, and a separator is added only where the base lacks one.
use vstd::prelude::*;
use crate::text::{owned, push_str, trim_end_char};

verus! {

broadcast use vstd::seq_lib::group_seq_properties;

/// `Path::new(base).join(rel)` on Unix.
pub open spec fn joined(base: Seq<char>, rel: Seq<char>) -> Seq<char> {
    if rel.len() > 0 && rel[0] == '/' {
        rel
    } else if base.len() == 0 || base.last() == '/' {
        base + rel
    } else {
        base + seq!['/'] + rel
    }
}

/// `base.join(rel)`.
pub fn join_path(base: &str, rel: &str) -> (r: String)
    ensures
        r@ == joined(base@, rel@),
{
    let rel_absolute = rel.unicode_len() > 0 && rel.get_char(0) == '/';
    if rel_absolute {
        return owned(rel);
    }
    let mut out = owned(base);
    let n = base.unicode_len();
    if n > 0 && base.get_char(n - 1) != '/' {
        push_str(&mut out, "/");
        proof {
            reveal_strlit("/");
        }
    }
    push_str(&mut out, rel);
    proof {
        if n > 0 {
            assert(base@.last() == base@[n - 1]);
        }
        if !(n == 0 || base@.last() == '/') {
            assert(out@ =~= base@ + seq!['/'] + rel@);
        }
    }
    out
}

/// The pairing credential inside the app config directory.
pub fn account_auth_path_in(config_dir: &str) -> (r: String)
    ensures
        r@ == joined(config_dir@, "auth.json"@),
{
    join_path(config_dir, "auth.json")
}

/// The xAI token file inside `dir`.
pub fn tokens_path_in(dir: &str) -> (r: String)
    ensures
        r@ == joined(dir@, "tokens.toml"@),
{
    join_path(dir, "tokens.toml")
}

/// The repository's record of playbooks imported from the community library.
pub fn registry_path(repo_dir: &str) -> (r: String)
    ensures
        r@ == joined(repo_dir@, ".alinery/playbooks/community-imports.toml"@),
{
    join_path(repo_dir, ".alinery/playbooks/community-imports.toml")
}

/// Where the repository keeps the playbook with key `key`.
pub fn local_playbook_path(repo_dir: &str, key: &str) -> (r: String)
    ensures
        r@ == joined(joined(joined(repo_dir@, ".alinery/playbooks"@), key@), "playbook.md"@),
{
    let a = join_path(repo_dir, ".alinery/playbooks");
    let b = join_path(a.as_str(), key);
    join_path(b.as_str(), "playbook.md")
}


/// Slug building: the chars kept so far and whether the last one pushed was a dash.
pub open spec fn slug_acc(cs: Seq<char>) -> (Seq<char>, bool)
    decreases cs.len(),
{
    if cs.len() == 0 {
        (seq![], false)
    } else {
        let (s, prev_dash) = slug_acc(cs.drop_last());
        let c = cs.last();
        if crate::text::is_alnum(c) {
            (s.push(crate::text::lower(c)), false)
        } else if s.len() > 0 && !prev_dash {
            (s.push('-'), true)
        } else {
            (s, prev_dash)
        }
    }
}

/// A task's slug: ASCII letters and digits lowercased, each run of other chars between
/// them one dash, no dash at either end; `task` when nothing is left.
pub open spec fn slug_spec(name: Seq<char>) -> Seq<char> {
    let t = crate::text::trim_end_char(slug_acc(name).0, '-');
    if t.len() == 0 {
        "task"@
    } else {
        t
    }
}

pub fn slugify(name: &str) -> (r: String)
    ensures
        r@ == slug_spec(name@),
{
    let v = crate::text::chars_of(name);
    let mut s: Vec<char> = Vec::new();
    let mut prev_dash = false;
    let mut i: usize = 0;
    assert(v@.take(0) =~= Seq::<char>::empty());
    while i < v.len()
        invariant
            i <= v@.len(),
            slug_acc(v@.take(i as int)) == (s@, prev_dash),
        decreases v@.len() - i,
    {
        let c = v[i];
        assert(v@.take(i + 1).drop_last() =~= v@.take(i as int));
        if crate::text::is_alnum_char(c) {
            s.push(crate::text::lower_char(c));
            prev_dash = false;
        } else if s.len() > 0 && !prev_dash {
            s.push('-');
            prev_dash = true;
        }
        i = i + 1;
    }
    assert(v@.take(i as int) =~= v@);
    let t = crate::text::trim_end_char_exec(&s, '-');
    if t.len() == 0 {
        owned("task")
    } else {
        crate::text::string_of(t.as_slice())
    }
}

/// Kebab case: lowercase ASCII letters and digits in runs joined by single dashes, with
/// no dash at either end.
pub open spec fn kebab(s: Seq<char>) -> bool {
    &&& s.len() > 0
    &&& forall|i: int| 0 <= i < s.len() ==> slug_char(#[trigger] s[i])
    &&& s[0] != '-'
    &&& s.last() != '-'
    &&& forall|i: int| 0 <= i < s.len() - 1 ==> !(#[trigger] s[i] == '-' && s[i + 1] == '-')
}

pub open spec fn slug_char(c: char) -> bool {
    crate::text::is_lower(c) || crate::text::is_digit(c) || c == '-'
}

/// What building a slug keeps true of the chars kept so far.
spec fn acc_ok(s: Seq<char>, prev_dash: bool) -> bool {
    &&& forall|i: int| 0 <= i < s.len() ==> slug_char(#[trigger] s[i])
    &&& s.len() > 0 ==> s[0] != '-'
    &&& forall|i: int| 0 <= i < s.len() - 1 ==> !(#[trigger] s[i] == '-' && s[i + 1] == '-')
    &&& prev_dash == (s.len() > 0 && s.last() == '-')
}

proof fn lemma_acc_ok(cs: Seq<char>)
    ensures
        acc_ok(slug_acc(cs).0, slug_acc(cs).1),
    decreases cs.len(),
{
    if cs.len() > 0 {
        lemma_acc_ok(cs.drop_last());
        let (s, pd) = slug_acc(cs.drop_last());
        let c = cs.last();
        let (s2, pd2) = slug_acc(cs);
        if crate::text::is_alnum(c) {
            let l = crate::text::lower(c);
            if crate::text::is_upper(c) {
                assert(l as u32 == c as u32 + 32);
            }
            assert(slug_char(l) && l != '-');
            assert forall|i: int| 0 <= i < s2.len() - 1 implies !(#[trigger] s2[i] == '-' && s2[i + 1] == '-') by {
                assert(s2[i] == s[i]);
                if i + 1 < s.len() {
                    assert(s2[i + 1] == s[i + 1]);
                }
            }
            assert forall|i: int| 0 <= i < s2.len() implies slug_char(#[trigger] s2[i]) by {
                if i < s.len() {
                    assert(s2[i] == s[i]);
                }
            }
        } else if s.len() > 0 && !pd {
            assert forall|i: int| 0 <= i < s2.len() - 1 implies !(#[trigger] s2[i] == '-' && s2[i + 1] == '-') by {
                assert(s2[i] == s[i]);
                if i + 1 < s.len() {
                    assert(s2[i + 1] == s[i + 1]);
                }
            }
            assert forall|i: int| 0 <= i < s2.len() implies slug_char(#[trigger] s2[i]) by {
                if i < s.len() {
                    assert(s2[i] == s[i]);
                }
            }
        }
    }
}

proof fn lemma_trim_dash_prefix(s: Seq<char>)
    ensures
        trim_end_char(s, '-').len() <= s.len(),
        trim_end_char(s, '-') == s.take(trim_end_char(s, '-').len() as int),
        trim_end_char(s, '-').len() > 0 ==> trim_end_char(s, '-').last() != '-',
    decreases s.len(),
{
    if s.len() > 0 && s.last() == '-' {
        lemma_trim_dash_prefix(s.drop_last());
        let t = trim_end_char(s, '-');
        assert(s.drop_last().take(t.len() as int) =~= s.take(t.len() as int));
    } else {
        assert(s.take(s.len() as int) =~= s);
    }
}

/// Building a slug from a kebab-case name gives the name back.
proof fn lemma_acc_of_kebab(s: Seq<char>, k: int)
    requires
        kebab(s),
        0 <= k <= s.len(),
    ensures
        slug_acc(s.take(k)) == (s.take(k), k > 0 && s[k - 1] == '-'),
    decreases k,
{
    if k > 0 {
        lemma_acc_of_kebab(s, k - 1);
        assert(s.take(k).drop_last() =~= s.take(k - 1));
        let c = s[k - 1];
        assert(s.take(k).last() == c);
        assert(slug_char(c));
        if c != '-' {
            assert(crate::text::is_alnum(c));
            assert(crate::text::lower(c) == c);
            assert(s.take(k - 1).push(c) =~= s.take(k));
        } else {
            assert(k - 1 > 0);
            assert(s[k - 2] != '-');
            assert(s.take(k - 1).push(c) =~= s.take(k));
        }
    }
}

/// A slug is kebab case (`task` when the name has no letter or digit), and slugifying a
/// slug gives it back.
pub proof fn law_slug_kebab(name: Seq<char>)
    ensures
        kebab(slug_spec(name)),
        slug_spec(slug_spec(name)) == slug_spec(name),
{
    reveal_strlit("task");
    lemma_acc_ok(name);
    let s = slug_acc(name).0;
    lemma_trim_dash_prefix(s);
    let t = trim_end_char(s, '-');
    if t.len() > 0 {
        assert forall|i: int| 0 <= i < t.len() implies slug_char(#[trigger] t[i]) by {
            assert(t[i] == s[i]);
        }
        assert forall|i: int| 0 <= i < t.len() - 1 implies !(#[trigger] t[i] == '-' && t[i + 1] == '-') by {
            assert(t[i] == s[i] && t[i + 1] == s[i + 1]);
        }
        assert(t[0] == s[0]);
    } else {
        let w = "task"@;
        assert(kebab(w)) by {
            assert forall|i: int| 0 <= i < w.len() implies slug_char(#[trigger] w[i]) by {}
        }
    }
    let g = slug_spec(name);
    assert(kebab(g));
    lemma_acc_of_kebab(g, g.len() as int);
    assert(g.take(g.len() as int) =~= g);
    lemma_trim_dash_prefix(g);
    assert(trim_end_char(g, '-') == g);
}

} // verus!
