//! The `modelRoles:` map of the OMP agent's YAML config: reading it, removing it, and
//! writing it back below the rest of the file. Only this top-level map is understood;
//! every other line is kept as it is.
use vstd::prelude::*;
use crate::text::{
    chars_eq_str, chars_lt, chars_of, lead_ws, lead_ws_exec, lemma_lines_append, lemma_seq_lt_asymmetric,
    lemma_seq_lt_irreflexive, lemma_seq_lt_total, lemma_seq_lt_transitive, lines, lines_exec, owned, push_str,
    seq_lt, slice_chars, split_once, split_once_chars, str_eq, string_of, strip_prefix, strip_prefix_exec, trim,
    trim_chars, trim_end, trim_end_chars, trim_start, trim_start_chars,
};

verus! {

broadcast use vstd::seq_lib::group_seq_properties;

/// A role and the model it uses.
pub type Entry = (Seq<char>, Seq<char>);

pub type Roles = Map<Seq<char>, Seq<char>>;

/// What follows `modelRoles:` on a line that opens the map (after leading blanks).
pub open spec fn marker_rest(trimmed: Seq<char>) -> Option<Seq<char>> {
    strip_prefix(trim_start(trimmed), "modelRoles:"@)
}

/// A value in matching double or single quotes.
pub open spec fn is_quoted(v: Seq<char>) -> bool {
    v.len() > 0 && ((v[0] == '"' && v.last() == '"') || (v[0] == '\'' && v.last() == '\''))
}

/// One line read while looking for, or inside, the map. The state is whether the map is
/// open, whether reading has stopped, and the roles read so far (always `Some`: the
/// reader takes every text; a value that is a lone quote is kept as it is).
pub open spec fn parse_step(st: (bool, bool, Option<Roles>), line: Seq<char>) -> (bool, bool, Option<Roles>) {
    let (in_block, done, roles) = st;
    let trimmed = trim_end(line);
    if done || roles is None {
        st
    } else if !in_block {
        match marker_rest(trimmed) {
            None => st,
            Some(rest) => {
                let r = trim(rest);
                if r.len() == 0 {
                    (true, false, roles)
                } else if r == "{}"@ || r == "null"@ || r == "~"@ {
                    (false, true, roles)
                } else {
                    st
                }
            },
        }
    } else if trimmed.len() == 0 || trimmed[0] == '#' {
        st
    } else if lead_ws(line) == 0 {
        (in_block, true, roles)
    } else {
        let body = trim_start(trimmed);
        if body.len() > 0 && body[0] == '-' {
            st
        } else {
            match split_once(body, ':') {
                None => st,
                Some((k, v)) => {
                    let key = trim(k);
                    let value = trim(v);
                    if value.len() == 0 {
                        st
                    } else {
                        let value2 = if is_quoted(value) && value.len() >= 2 {
                            value.subrange(1, value.len() - 1)
                        } else {
                            value
                        };
                        if key.len() > 0 {
                            (in_block, done, Some(roles->0.insert(key, value2)))
                        } else {
                            st
                        }
                    }
                },
            }
        }
    }
}

pub open spec fn parse_upto(ls: Seq<Seq<char>>, k: int) -> (bool, bool, Option<Roles>)
    decreases k,
{
    if k <= 0 {
        (false, false, Some(Map::empty()))
    } else {
        parse_step(parse_upto(ls, k - 1), ls[k - 1])
    }
}

/// The roles of the first top-level `modelRoles:` map, the last value of a role winning.
pub open spec fn parse_roles(text: Seq<char>) -> Option<Roles> {
    parse_upto(lines(text), lines(text).len() as int).2
}

/// One line of the text with the map removed: the map's opening line and its indented
/// lines, blanks and comments go; the first unindented line after it is kept.
pub open spec fn strip_step(st: (bool, Seq<char>), line: Seq<char>) -> (bool, Seq<char>) {
    let (skipping, out) = st;
    let trimmed = trim_end(line);
    if !skipping {
        match marker_rest(trimmed) {
            Some(rest) => (trim(rest).len() == 0, out),
            None => (false, out + line + "\n"@),
        }
    } else if trimmed.len() == 0 || trimmed[0] == '#' {
        st
    } else if lead_ws(line) == 0 {
        (false, out + line + "\n"@)
    } else {
        st
    }
}

pub open spec fn strip_upto(ls: Seq<Seq<char>>, k: int) -> (bool, Seq<char>)
    decreases k,
{
    if k <= 0 {
        (false, seq![])
    } else {
        strip_step(strip_upto(ls, k - 1), ls[k - 1])
    }
}

pub open spec fn strip_roles(text: Seq<char>) -> Seq<char> {
    strip_upto(lines(text), lines(text).len() as int).1
}

/// `s` without the blank lines at its end (one line ending is kept).
pub open spec fn drop_blank_tail(s: Seq<char>) -> Seq<char>
    decreases s.len(),
{
    if s.len() >= 2 && s[s.len() - 1] == '\n' && s[s.len() - 2] == '\n' {
        drop_blank_tail(s.drop_last())
    } else {
        s
    }
}

/// The rest of the file, ending its last line.
pub open spec fn render_base(existing: Seq<char>) -> Seq<char> {
    let b = drop_blank_tail(strip_roles(existing));
    if b.len() > 0 && b.last() != '\n' {
        b + "\n"@
    } else {
        b
    }
}

pub open spec fn entry_line(e: Entry) -> Seq<char> {
    "  "@ + e.0 + ": "@ + e.1 + "\n"@
}

pub open spec fn entries_text(es: Seq<Entry>) -> Seq<char>
    decreases es.len(),
{
    if es.len() == 0 {
        seq![]
    } else {
        entries_text(es.drop_last()) + entry_line(es.last())
    }
}

/// The rest of the file followed by a blank line, unless it is empty or already ends
/// with one.
pub open spec fn sep(b: Seq<char>) -> Seq<char> {
    if b.len() > 0 && !(b.len() >= 2 && b[b.len() - 1] == '\n' && b[b.len() - 2] == '\n') {
        b + "\n"@
    } else {
        b
    }
}

/// The file with the map written last, after a blank line, one role per line in the
/// given order; without roles, just the rest of the file.
pub open spec fn render_roles(existing: Seq<char>, es: Seq<Entry>) -> Seq<char> {
    let b = render_base(existing);
    if es.len() == 0 {
        b
    } else {
        sep(b) + "modelRoles:\n"@ + entries_text(es)
    }
}

/// Entries in strictly increasing role order.
pub open spec fn sorted_entries(es: Seq<Entry>) -> bool {
    forall|i: int, j: int| 0 <= i < j < es.len() ==> seq_lt(#[trigger] es[i].0, #[trigger] es[j].0)
}

/// No role is listed twice.
pub open spec fn unique_roles(es: Seq<Entry>) -> bool {
    forall|i: int, j: int| 0 <= i < j < es.len() ==> #[trigger] es[i].0 != #[trigger] es[j].0
}

/// The same entries, in any order.
pub open spec fn same_entries(a: Seq<Entry>, b: Seq<Entry>) -> bool {
    a.len() == b.len() && forall|p: Entry| a.contains(p) <==> b.contains(p)
}

/// The map the entries give, a later entry of a role winning.
pub open spec fn entries_map(es: Seq<Entry>) -> Roles
    decreases es.len(),
{
    if es.len() == 0 {
        Map::empty()
    } else {
        entries_map(es.drop_last()).insert(es.last().0, es.last().1)
    }
}

/// `es` lists exactly the roles of `m`, once each.
pub open spec fn lists_roles(es: Seq<Entry>, m: Roles) -> bool {
    &&& unique_roles(es)
    &&& forall|i: int| 0 <= i < es.len() ==> m.contains_key(#[trigger] es[i].0) && m[es[i].0] == es[i].1
    &&& forall|k: Seq<char>| #[trigger] m.contains_key(k) ==> exists|i: int| 0 <= i < es.len() && es[i].0 == k
}

pub open spec fn entry_views(v: Seq<(String, String)>) -> Seq<Entry> {
    v.map_values(|p: (String, String)| (p.0@, p.1@))
}

// ---- reading -------------------------------------------------------------------

proof fn lemma_parse_absorb(ls: Seq<Seq<char>>, k: int, n: int)
    requires
        0 <= k <= n,
        parse_upto(ls, k).1 || parse_upto(ls, k).2 is None,
    ensures
        parse_upto(ls, n) == parse_upto(ls, k),
    decreases n,
{
    if n > k {
        lemma_parse_absorb(ls, k, n - 1);
    }
}

/// Record `value` for `key` in the entries read so far.
fn insert_role(out: &mut Vec<(String, String)>, key: Vec<char>, value: Vec<char>, Ghost(m): Ghost<Roles>)
    requires
        lists_roles(entry_views(old(out)@), m),
    ensures
        lists_roles(entry_views(final(out)@), m.insert(key@, value@)),
{
    let ghost before = entry_views(out@);
    let k = string_of(key.as_slice());
    let v = string_of(value.as_slice());
    let mut i: usize = 0;
    while i < out.len()
        invariant
            before == entry_views(out@),
            lists_roles(before, m),
            k@ == key@,
            v@ == value@,
            i <= out@.len(),
            forall|j: int| 0 <= j < i ==> (#[trigger] out@[j]).0@ != key@,
        decreases out@.len() - i,
    {
        if str_eq(out[i].0.as_str(), k.as_str()) {
            out.set(i, (k, v));
            let ghost after = entry_views(out@);
            assert(after =~= before.update(i as int, (key@, value@)));
            let ghost m2 = m.insert(key@, value@);
            assert(before[i as int].0 == key@);
            assert forall|a: int, b: int| 0 <= a < b < after.len() implies #[trigger] after[a].0 != #[trigger] after[b].0 by {
                assert(before[a].0 != before[b].0);
            }
            assert forall|a: int| 0 <= a < after.len() implies m2.contains_key(#[trigger] after[a].0) && m2[after[a].0]
                == after[a].1 by {
                if a != i {
                    assert(after[a] == before[a]);
                    assert(before[a].0 != before[i as int].0);
                }
            }
            assert forall|kk: Seq<char>| #[trigger] m2.contains_key(kk) implies exists|a: int| 0 <= a < after.len() && after[a].0 == kk by {
                if kk == key@ {
                    assert(after[i as int].0 == kk);
                } else {
                    let a = choose|a: int| 0 <= a < before.len() && before[a].0 == kk;
                    assert(after[a].0 == kk);
                }
            }
            return;
        }
        i = i + 1;
    }
    out.push((k, v));
    let ghost after = entry_views(out@);
    assert(after =~= before.push((key@, value@)));
    let ghost m2 = m.insert(key@, value@);
    assert forall|a: int, b: int| 0 <= a < b < after.len() implies #[trigger] after[a].0 != #[trigger] after[b].0 by {
        if b == before.len() {
            assert(after[a] == before[a]);
            assert(before[a].0 == out@[a].0@);
        } else {
            assert(before[a].0 != before[b].0);
        }
    }
    assert forall|a: int| 0 <= a < after.len() implies m2.contains_key(#[trigger] after[a].0) && m2[after[a].0] == after[a].1 by {
        if a < before.len() {
            assert(after[a] == before[a]);
            assert(before[a].0 == out@[a].0@);
        }
    }
    assert forall|kk: Seq<char>| #[trigger] m2.contains_key(kk) implies exists|a: int| 0 <= a < after.len() && after[a].0 == kk by {
        if kk == key@ {
            assert(after[before.len() as int].0 == kk);
        } else {
            let a = choose|a: int| 0 <= a < before.len() && before[a].0 == kk;
            assert(after[a].0 == kk);
        }
    }
}

fn is_quoted_exec(v: &Vec<char>) -> (r: bool)
    ensures
        r == is_quoted(v@),
{
    v.len() > 0 && ((v[0] == '"' && v[v.len() - 1] == '"') || (v[0] == '\'' && v[v.len() - 1] == '\''))
}

/// Read the roles of the first top-level `modelRoles:` map (block form; an inline `{}`,
/// `null` or `~` is an empty map), best effort: every text is read. Values lose matching
/// quotes (a value that is a single quote keeps it); a role listed twice keeps its last
/// value.
pub fn parse_model_roles_yaml(text: &str) -> (r: Vec<(String, String)>)
    ensures
        parse_roles(text@) is Some,
        lists_roles(entry_views(r@), parse_roles(text@)->0),
{
    let v = chars_of(text);
    let ls = lines_exec(&v);
    let ghost all = lines(text@);
    let ghost n = all.len() as int;
    let mut out: Vec<(String, String)> = Vec::new();
    let mut in_block = false;
    let mut i: usize = 0;
    let ghost mut m: Roles = Map::empty();
    proof {
        assert(lists_roles(entry_views(out@), m)) by {
            assert(entry_views(out@) =~= Seq::<Entry>::empty());
        }
    }
    while i < ls.len()
        invariant
            all == lines(text@),
            n == all.len(),
            ls@.len() == n,
            forall|k: int| 0 <= k < n ==> #[trigger] ls@[k]@ == all[k],
            i <= n,
            parse_upto(all, i as int) == (in_block, false, Some(m)),
            lists_roles(entry_views(out@), m),
        decreases n - i,
    {
        let line = &ls[i];
        let ghost st = parse_upto(all, i as int);
        assert(line@ == all[i as int]);
        assert(parse_upto(all, i + 1) == parse_step(st, all[i as int]));
        let trimmed = trim_end_chars(line);
        if !in_block {
            let t = trim_start_chars(&trimmed);
            match strip_prefix_exec(&t, "modelRoles:") {
                Some(rest) => {
                    let r = trim_chars(&rest);
                    if r.len() == 0 {
                        in_block = true;
                    } else if chars_eq_str(r.as_slice(), "{}") || chars_eq_str(r.as_slice(), "null") || chars_eq_str(
                        r.as_slice(),
                        "~",
                    ) {
                        proof {
                            lemma_parse_absorb(all, i + 1, n);
                        }
                        return out;
                    }
                },
                None => {},
            }
        } else if trimmed.len() == 0 || trimmed[0] == '#' {
        } else if lead_ws_exec(line) == 0 {
            proof {
                lemma_parse_absorb(all, i + 1, n);
            }
            return out;
        } else {
            let body = trim_start_chars(&trimmed);
            if body.len() > 0 && body[0] == '-' {
            } else {
                match split_once_chars(&body, ':') {
                    None => {},
                    Some((k, val)) => {
                        let key = trim_chars(&k);
                        let value = trim_chars(&val);
                        if value.len() > 0 {
                            let q = is_quoted_exec(&value) && value.len() >= 2;
                            let value2 = if q {
                                slice_chars(&value, 1, value.len() - 1)
                            } else {
                                value
                            };
                            if key.len() > 0 {
                                insert_role(&mut out, key, value2, Ghost(m));
                                proof {
                                    m = m.insert(key@, value2@);
                                }
                            }
                        }
                    },
                }
            }
        }
        i = i + 1;
    }
    out
}

// ---- removing ------------------------------------------------------------------

/// The text without its `modelRoles:` map; every kept line ends with a line break.
pub fn strip_model_roles_yaml(text: &str) -> (r: String)
    ensures
        r@ == strip_roles(text@),
{
    let v = chars_of(text);
    let ls = lines_exec(&v);
    let ghost all = lines(text@);
    let ghost n = all.len() as int;
    let mut out = String::new();
    let mut skipping = false;
    let mut i: usize = 0;
    while i < ls.len()
        invariant
            all == lines(text@),
            n == all.len(),
            ls@.len() == n,
            forall|k: int| 0 <= k < n ==> #[trigger] ls@[k]@ == all[k],
            i <= n,
            strip_upto(all, i as int) == (skipping, out@),
        decreases n - i,
    {
        let line = &ls[i];
        assert(line@ == all[i as int]);
        let trimmed = trim_end_chars(line);
        if !skipping {
            let t = trim_start_chars(&trimmed);
            match strip_prefix_exec(&t, "modelRoles:") {
                Some(rest) => {
                    let r = trim_chars(&rest);
                    skipping = r.len() == 0;
                },
                None => {
                    crate::text::push_chars(&mut out, line.as_slice());
                    push_str(&mut out, "\n");
                },
            }
        } else if trimmed.len() == 0 || trimmed[0] == '#' {
        } else if lead_ws_exec(line) == 0 {
            skipping = false;
            crate::text::push_chars(&mut out, line.as_slice());
            push_str(&mut out, "\n");
        }
        i = i + 1;
    }
    out
}

// ---- writing -------------------------------------------------------------------

fn min_role_index(v: &Vec<(String, String)>) -> (r: usize)
    requires
        v@.len() > 0,
    ensures
        r < v@.len(),
        forall|j: int| 0 <= j < v@.len() ==> !seq_lt(#[trigger] v@[j].0@, v@[r as int].0@),
{
    let mut best: usize = 0;
    let mut i: usize = 1;
    proof {
        lemma_seq_lt_irreflexive(v@[0].0@);
    }
    while i < v.len()
        invariant
            0 < v@.len(),
            best < i <= v@.len(),
            forall|j: int| 0 <= j < i ==> !seq_lt(#[trigger] v@[j].0@, v@[best as int].0@),
        decreases v@.len() - i,
    {
        let ki = chars_of(v[i].0.as_str());
        let kb = chars_of(v[best].0.as_str());
        if chars_lt(ki.as_slice(), kb.as_slice()) {
            proof {
                lemma_seq_lt_irreflexive(v@[i as int].0@);
                assert forall|j: int| 0 <= j <= i implies !seq_lt(#[trigger] v@[j].0@, v@[i as int].0@) by {
                    if j < i && seq_lt(v@[j].0@, v@[i as int].0@) {
                        lemma_seq_lt_transitive(v@[j].0@, v@[i as int].0@, v@[best as int].0@);
                    }
                }
            }
            best = i;
        }
        i = i + 1;
    }
    best
}

/// The entries in increasing role order.
pub fn sort_roles(roles: Vec<(String, String)>) -> (r: Vec<(String, String)>)
    requires
        unique_roles(entry_views(roles@)),
    ensures
        sorted_entries(entry_views(r@)),
        same_entries(entry_views(r@), entry_views(roles@)),
{
    let ghost orig = entry_views(roles@);
    let mut rest = roles;
    let mut out: Vec<(String, String)> = Vec::new();
    proof {
        assert(entry_views(out@) =~= Seq::<Entry>::empty());
    }
    while rest.len() > 0
        invariant
            orig.len() == entry_views(out@).len() + entry_views(rest@).len(),
            unique_roles(entry_views(rest@)),
            sorted_entries(entry_views(out@)),
            forall|i: int, j: int|
                0 <= i < entry_views(out@).len() && 0 <= j < entry_views(rest@).len() ==> seq_lt(
                    #[trigger] entry_views(out@)[i].0,
                    #[trigger] entry_views(rest@)[j].0,
                ),
            forall|p: Entry| (entry_views(out@).contains(p) || entry_views(rest@).contains(p)) <==> orig.contains(p),
        decreases rest@.len(),
    {
        let ghost ro = entry_views(rest@);
        let ghost oo = entry_views(out@);
        let m = min_role_index(&rest);
        let x = rest.remove(m);
        let ghost x_view = (x.0@, x.1@);
        assert(x_view == ro[m as int]);
        out.push(x);
        let ghost ro2 = entry_views(rest@);
        let ghost oo2 = entry_views(out@);
        proof {
            assert(ro2 =~= ro.remove(m as int));
            assert(oo2 =~= oo.push(x_view));
            assert forall|i: int, j: int| 0 <= i < j < ro2.len() implies #[trigger] ro2[i].0 != #[trigger] ro2[j].0 by {
                let a = if i < m { i } else { i + 1 };
                let b = if j < m { j } else { j + 1 };
                assert(ro2[i] == ro[a] && ro2[j] == ro[b]);
            }
            assert forall|i: int, j: int| 0 <= i < j < oo2.len() implies seq_lt(#[trigger] oo2[i].0, #[trigger] oo2[j].0) by {
                if j == oo.len() {
                    assert(oo2[i] == oo[i]);
                } else {
                    assert(oo2[i] == oo[i] && oo2[j] == oo[j]);
                }
            }
            assert forall|i: int, j: int| 0 <= i < oo2.len() && 0 <= j < ro2.len() implies seq_lt(
                #[trigger] oo2[i].0,
                #[trigger] ro2[j].0,
            ) by {
                let b = if j < m { j } else { j + 1 };
                assert(ro2[j] == ro[b]);
                if i < oo.len() {
                    assert(oo2[i] == oo[i]);
                } else {
                    assert(oo2[i] == x_view);
                    assert(!seq_lt(ro[b].0, ro[m as int].0));
                    assert(ro[b].0 != ro[m as int].0) by {
                        if b < m {
                            assert(ro[b].0 != ro[m as int].0);
                        } else {
                            assert(ro[m as int].0 != ro[b].0);
                        }
                    }
                    lemma_seq_lt_total(ro[b].0, ro[m as int].0);
                }
            }
            assert forall|p: Entry| (oo2.contains(p) || ro2.contains(p)) <==> orig.contains(p) by {
                if ro.contains(p) {
                    let w = choose|w: int| 0 <= w < ro.len() && ro[w] == p;
                    if w == m {
                        assert(oo2[oo.len() as int] == p);
                    } else if w < m {
                        assert(ro2[w] == p);
                    } else {
                        assert(ro2[w - 1] == p);
                    }
                }
                if oo.contains(p) {
                    let w = choose|w: int| 0 <= w < oo.len() && oo[w] == p;
                    assert(oo2[w] == p);
                }
                if oo2.contains(p) {
                    let w = choose|w: int| 0 <= w < oo2.len() && oo2[w] == p;
                    if w < oo.len() {
                        assert(oo[w] == p);
                    } else {
                        assert(ro[m as int] == p);
                    }
                }
                if ro2.contains(p) {
                    let w = choose|w: int| 0 <= w < ro2.len() && ro2[w] == p;
                    if w < m {
                        assert(ro[w] == p);
                    } else {
                        assert(ro[w + 1] == p);
                    }
                }
            }
        }
    }
    proof {
        assert forall|p: Entry| entry_views(out@).contains(p) <==> orig.contains(p) by {
            if entry_views(rest@).contains(p) {
                let w = choose|w: int| 0 <= w < entry_views(rest@).len() && entry_views(rest@)[w] == p;
            }
        }
    }
    out
}

proof fn lemma_drop_blank_step(s: Seq<char>)
    requires
        s.len() >= 2 && s[s.len() - 1] == '\n' && s[s.len() - 2] == '\n',
    ensures
        drop_blank_tail(s.drop_last()) == drop_blank_tail(s),
{
}

/// Write `roles` as the file's `modelRoles:` map, in increasing role order, below the
/// rest of `existing`; no roles leaves no map.
pub fn render_model_roles_yaml(existing: &str, roles: Vec<(String, String)>) -> (r: String)
    requires
        unique_roles(entry_views(roles@)),
    ensures
        exists|s: Seq<Entry>|
            sorted_entries(s) && same_entries(s, entry_views(roles@)) && r@ == #[trigger] render_roles(existing@, s),
{
    let sorted = sort_roles(roles);
    let ghost s = entry_views(sorted@);
    let base0 = strip_model_roles_yaml(existing);
    let mut b: Vec<char> = chars_of(base0.as_str());
    while b.len() >= 2 && b[b.len() - 1] == '\n' && b[b.len() - 2] == '\n'
        invariant
            drop_blank_tail(b@) == drop_blank_tail(strip_roles(existing@)),
        decreases b@.len(),
    {
        proof {
            lemma_drop_blank_step(b@);
        }
        b.pop();
    }
    assert(drop_blank_tail(b@) == b@);
    let ghost dropped = b@;
    proof {
        reveal_strlit("\n");
    }
    if b.len() > 0 && b[b.len() - 1] != '\n' {
        b.push('\n');
        assert(b@ =~= dropped + "\n"@);
    }
    assert(b@ == render_base(existing@));
    if sorted.len() == 0 {
        let out = string_of(b.as_slice());
        assert(render_roles(existing@, s) == out@);
        return out;
    }
    let ghost based = b@;
    let n = b.len();
    if n > 0 && !(n >= 2 && b[n - 1] == '\n' && b[n - 2] == '\n') {
        b.push('\n');
        assert(b@ =~= based + "\n"@);
    }
    let mut out = string_of(b.as_slice());
    push_str(&mut out, "modelRoles:\n");
    let ghost head = out@;
    let mut i: usize = 0;
    assert(s.take(0) =~= Seq::<Entry>::empty());
    while i < sorted.len()
        invariant
            s == entry_views(sorted@),
            i <= sorted@.len(),
            out@ == head + entries_text(s.take(i as int)),
        decreases sorted@.len() - i,
    {
        proof {
            assert(s.take(i + 1).drop_last() =~= s.take(i as int));
            assert(s.take(i + 1).last() == (sorted@[i as int].0@, sorted@[i as int].1@));
        }
        push_str(&mut out, "  ");
        push_str(&mut out, sorted[i].0.as_str());
        push_str(&mut out, ": ");
        push_str(&mut out, sorted[i].1.as_str());
        push_str(&mut out, "\n");
        proof {
            assert(out@ =~= head + entries_text(s.take(i as int)) + entry_line(s.take(i + 1).last()));
        }
        i = i + 1;
    }
    assert(s.take(i as int) =~= s);
    assert(out@ == render_roles(existing@, s));
    out
}

// ---- reading back what was written ------------------------------------------------

/// Reading `ls` from state `st`.
pub open spec fn parse_from(st: (bool, bool, Option<Roles>), ls: Seq<Seq<char>>) -> (bool, bool, Option<Roles>)
    decreases ls.len(),
{
    if ls.len() == 0 {
        st
    } else {
        parse_step(parse_from(st, ls.drop_last()), ls.last())
    }
}

proof fn lemma_parse_upto_from(ls: Seq<Seq<char>>, k: int)
    requires
        0 <= k <= ls.len(),
    ensures
        parse_upto(ls, k) == parse_from((false, false, Some(Map::empty())), ls.take(k)),
    decreases k,
{
    if k > 0 {
        lemma_parse_upto_from(ls, k - 1);
        assert(ls.take(k).drop_last() =~= ls.take(k - 1));
        assert(ls.take(k).last() == ls[k - 1]);
    } else {
        assert(ls.take(0) =~= Seq::<Seq<char>>::empty());
    }
}

proof fn lemma_parse_from_append(st: (bool, bool, Option<Roles>), a: Seq<Seq<char>>, b: Seq<Seq<char>>)
    ensures
        parse_from(st, a + b) == parse_from(parse_from(st, a), b),
    decreases b.len(),
{
    if b.len() == 0 {
        assert(a + b =~= a);
    } else {
        assert((a + b).drop_last() =~= a + b.drop_last());
        assert((a + b).last() == b.last());
        lemma_parse_from_append(st, a, b.drop_last());
    }
}

/// No line opens a `modelRoles:` map.
pub open spec fn no_marker(ls: Seq<Seq<char>>) -> bool {
    forall|k: int| 0 <= k < ls.len() ==> marker_rest(trim_end(#[trigger] ls[k])) is None
}

proof fn lemma_parse_no_marker(ls: Seq<Seq<char>>)
    requires
        no_marker(ls),
    ensures
        parse_from((false, false, Some(Map::empty())), ls) == (false, false, Some(Map::<Seq<char>, Seq<char>>::empty())),
    decreases ls.len(),
{
    if ls.len() > 0 {
        let d = ls.drop_last();
        assert(no_marker(d)) by {
            assert forall|k: int| 0 <= k < d.len() implies marker_rest(trim_end(#[trigger] d[k])) is None by {
                assert(d[k] == ls[k]);
            }
        }
        lemma_parse_no_marker(d);
        assert(marker_rest(trim_end(ls[ls.len() - 1])) is None);
    }
}

/// A role line that reads back as itself: a role and a model that are non-empty, have no
/// surrounding blanks and no line break, a role without `:` that does not start with
/// `-`, and a model not wrapped in quotes.
pub open spec fn plain_entry(e: Entry) -> bool {
    &&& e.0.len() > 0
    &&& trim(e.0) == e.0
    &&& !e.0.contains(':')
    &&& e.0[0] != '-'
    &&& !e.0.contains('\n')
    &&& e.1.len() > 0
    &&& trim(e.1) == e.1
    &&& !is_quoted(e.1)
    &&& !e.1.contains('\n')
}

pub open spec fn entry_text(e: Entry) -> Seq<char> {
    "  "@ + e.0 + ": "@ + e.1
}

proof fn lemma_trimmed_ends(x: Seq<char>)
    requires
        x.len() > 0,
        trim(x) == x,
    ensures
        !crate::text::is_ws(x[0]),
        !crate::text::is_ws(x.last()),
{
    crate::text::lemma_trim_ends(x);
}

proof fn lemma_line_chars(e: Entry)
    requires
        plain_entry(e),
    ensures
        entry_text(e).len() == e.0.len() + e.1.len() + 4,
        entry_text(e)[0] == ' ',
        entry_text(e)[1] == ' ',
        entry_text(e)[2] == e.0[0],
        entry_text(e).last() == e.1.last(),
        entry_text(e).skip(2) == e.0 + ": "@ + e.1,
{
    reveal_strlit("  ");
    reveal_strlit(": ");
    let line = entry_text(e);
    assert(line.skip(2) =~= e.0 + ": "@ + e.1);
}

proof fn lemma_line_shape(e: Entry)
    requires
        plain_entry(e),
    ensures
        trim_end(entry_text(e)) == entry_text(e),
        entry_text(e).len() > 0 && entry_text(e)[0] == ' ',
        lead_ws(entry_text(e)) == 2,
        trim_start(entry_text(e)) == e.0 + ": "@ + e.1,
{
    let line = entry_text(e);
    lemma_line_chars(e);
    lemma_trimmed_ends(e.0);
    lemma_trimmed_ends(e.1);
    assert(crate::text::is_ws(' '));
    assert(crate::text::trail_ws(line) == 0);
    assert(line.take(line.len() as int) =~= line);
    crate::text::lemma_lead_ws(line, 2);
}

proof fn lemma_body_split(k: Seq<char>, v: Seq<char>)
    requires
        !k.contains(':'),
    ensures
        split_once(k + ": "@ + v, ':') == Some((k, " "@ + v)),
{
    reveal_strlit(": ");
    reveal_strlit(" ");
    let body = k + ": "@ + v;
    assert forall|j: int| 0 <= j < k.len() implies body[j] != ':' by {
        assert(body[j] == k[j]);
        if k[j] == ':' {
            assert(k.contains(':'));
        }
    }
    assert(body[k.len() as int] == ':');
    crate::text::lemma_first_index_char(body, ':', k.len() as int);
    assert(body.take(k.len() as int) =~= k);
    assert(body.skip(k.len() as int + 1) =~= " "@ + v);
}

proof fn lemma_value_trim(v: Seq<char>)
    requires
        v.len() > 0,
        trim(v) == v,
    ensures
        trim(" "@ + v) == v,
{
    reveal_strlit(" ");
    lemma_trimmed_ends(v);
    let after = " "@ + v;
    assert(after[0] == ' ');
    assert(after[1] == v[0]);
    assert(crate::text::is_ws(' '));
    crate::text::lemma_lead_ws(after, 1);
    assert(trim_start(after) =~= v);
    crate::text::lemma_trail_ws(v, v.len() as int);
    assert(v.take(v.len() as int) =~= v);
}

#[verifier::spinoff_prover]
#[verifier::rlimit(80)]
proof fn lemma_entry_step(m: Roles, e: Entry)
    requires
        plain_entry(e),
    ensures
        parse_step((true, false, Some(m)), entry_text(e)) == (true, false, Some(m.insert(e.0, e.1))),
{
    let line = entry_text(e);
    lemma_line_shape(e);
    lemma_body_split(e.0, e.1);
    lemma_value_trim(e.1);
    lemma_trimmed_ends(e.0);
    let trimmed = trim_end(line);
    assert(trimmed == line);
    assert(!(trimmed.len() == 0 || trimmed[0] == '#'));
    assert(lead_ws(line) != 0);
    let body = trim_start(trimmed);
    assert(body == e.0 + ": "@ + e.1);
    assert(body[0] == e.0[0]);
    assert(!(body.len() > 0 && body[0] == '-'));
    assert(split_once(body, ':') == Some((e.0, " "@ + e.1)));
    assert(trim(e.0) == e.0);
    assert(trim(" "@ + e.1) == e.1);
    assert(e.1.len() > 0 && !is_quoted(e.1));
}

proof fn lemma_entries_lines(s: Seq<Entry>)
    requires
        forall|i: int| 0 <= i < s.len() ==> plain_entry(#[trigger] s[i]),
    ensures
        lines(entries_text(s)) == s.map_values(|e: Entry| entry_text(e)),
        entries_text(s).len() == 0 || entries_text(s).last() == '\n',
    decreases s.len(),
{
    reveal_strlit("\n");
    if s.len() == 0 {
        assert(lines(entries_text(s)) =~= Seq::<Seq<char>>::empty());
        assert(s.map_values(|e: Entry| entry_text(e)) =~= Seq::<Seq<char>>::empty());
    } else {
        let d = s.drop_last();
        assert forall|i: int| 0 <= i < d.len() implies plain_entry(#[trigger] d[i]) by {
            assert(d[i] == s[i]);
        }
        lemma_entries_lines(d);
        let e = s.last();
        assert(plain_entry(s[s.len() - 1]));
        let l = entry_text(e);
        lemma_trimmed_ends(e.1);
        assert(entry_line(e) =~= l + "\n"@);
        lemma_lines_append(entries_text(d), entry_line(e));
        // one line without a break
        reveal_strlit("  ");
        reveal_strlit(": ");
        assert forall|j: int| 0 <= j < l.len() implies l[j] != '\n' by {
            if 2 <= j < 2 + e.0.len() {
                assert(l[j] == e.0[j - 2]);
                if e.0[j - 2] == '\n' {
                    assert(e.0.contains('\n'));
                }
            } else if 4 + e.0.len() <= j {
                assert(l[j] == e.1[j - 4 - e.0.len()]);
                if e.1[j - 4 - e.0.len()] == '\n' {
                    assert(e.1.contains('\n'));
                }
            }
        }
        let t = l + "\n"@;
        assert(t[l.len() as int] == '\n');
        assert forall|j: int| 0 <= j < l.len() implies t[j] != '\n' by {
            assert(t[j] == l[j]);
        }
        crate::text::lemma_first_index_char(t, '\n', l.len() as int);
        assert(t.take(l.len() as int) =~= l);
        assert(l.last() == e.1.last());
        assert(crate::text::is_ws('\r'));
        assert(crate::text::strip_cr(l) == l);
        assert(t.skip(l.len() as int + 1) =~= Seq::<char>::empty());
        assert(lines(Seq::<char>::empty()) =~= Seq::<Seq<char>>::empty());
        assert(lines(t) == seq![crate::text::strip_cr(t.take(l.len() as int))] + lines(t.skip(l.len() as int + 1)));
        assert(lines(t) =~= seq![l]);
        assert(s.map_values(|e: Entry| entry_text(e)) =~= d.map_values(|e: Entry| entry_text(e)).push(l));
        assert(entries_text(s).last() == '\n');
    }
}

proof fn lemma_parse_entries(m: Roles, s: Seq<Entry>)
    requires
        forall|i: int| 0 <= i < s.len() ==> plain_entry(#[trigger] s[i]),
    ensures
        parse_from((true, false, Some(m)), s.map_values(|e: Entry| entry_text(e))) == (
            true,
            false,
            Some(entries_map_from(m, s)),
        ),
    decreases s.len(),
{
    if s.len() > 0 {
        let d = s.drop_last();
        assert forall|i: int| 0 <= i < d.len() implies plain_entry(#[trigger] d[i]) by {
            assert(d[i] == s[i]);
        }
        lemma_parse_entries(m, d);
        let ls = s.map_values(|e: Entry| entry_text(e));
        assert(ls.drop_last() =~= d.map_values(|e: Entry| entry_text(e)));
        assert(ls.last() == entry_text(s.last()));
        assert(plain_entry(s[s.len() - 1]));
        lemma_entry_step(entries_map_from(m, d), s.last());
    }
}

/// `m` with the entries added in order.
pub open spec fn entries_map_from(m: Roles, es: Seq<Entry>) -> Roles
    decreases es.len(),
{
    if es.len() == 0 {
        m
    } else {
        entries_map_from(m, es.drop_last()).insert(es.last().0, es.last().1)
    }
}

proof fn lemma_entries_map_empty(es: Seq<Entry>)
    ensures
        entries_map_from(Map::empty(), es) == entries_map(es),
    decreases es.len(),
{
    if es.len() > 0 {
        lemma_entries_map_empty(es.drop_last());
    }
}

proof fn lemma_strip_ends(ls: Seq<Seq<char>>, k: int)
    requires
        0 <= k <= ls.len(),
    ensures
        strip_upto(ls, k).1.len() == 0 || strip_upto(ls, k).1.last() == '\n',
    decreases k,
{
    reveal_strlit("\n");
    if k > 0 {
        lemma_strip_ends(ls, k - 1);
    }
}

proof fn lemma_drop_blank_lines(b: Seq<char>)
    requires
        b.len() == 0 || b.last() == '\n',
        no_marker(lines(b)),
    ensures
        no_marker(lines(drop_blank_tail(b))),
        drop_blank_tail(b).len() == 0 || drop_blank_tail(b).last() == '\n',
    decreases b.len(),
{
    reveal_strlit("\n");
    if b.len() >= 2 && b[b.len() - 1] == '\n' && b[b.len() - 2] == '\n' {
        let d = b.drop_last();
        assert(d + "\n"@ =~= b);
        lemma_lines_append(d, "\n"@);
        let ld = lines(d);
        assert forall|k: int| 0 <= k < ld.len() implies marker_rest(trim_end(#[trigger] ld[k])) is None by {
            assert(lines(b)[k] == ld[k]);
        }
        assert(d.last() == '\n');
        lemma_drop_blank_lines(d);
    }
}

proof fn lemma_blank_line_no_marker(b: Seq<char>)
    requires
        b.len() == 0 || b.last() == '\n',
        no_marker(lines(b)),
    ensures
        no_marker(lines(b + "\n"@)),
{
    reveal_strlit("\n");
    reveal_strlit("modelRoles:");
    lemma_lines_append(b, "\n"@);
    let one = "\n"@;
    crate::text::lemma_first_index_char(one, '\n', 0);
    let e = Seq::<char>::empty();
    assert(one.take(0) =~= e);
    assert(one.skip(1) =~= e);
    assert(lines(e) =~= Seq::<Seq<char>>::empty());
    assert(crate::text::strip_cr(e) == e);
    assert(lines(one) == seq![crate::text::strip_cr(one.take(0))] + lines(one.skip(1)));
    assert(lines(one) =~= seq![e]);
    assert(trim_end(e) =~= e);
    assert(trim_start(e) =~= e);
    assert(!crate::text::has_prefix(e, "modelRoles:"@));
    assert(marker_rest(trim_end(e)) is None);
    let all = lines(b + "\n"@);
    assert forall|k: int| 0 <= k < all.len() implies marker_rest(trim_end(#[trigger] all[k])) is None by {
        if k < lines(b).len() {
            assert(all[k] == lines(b)[k]);
        } else {
            assert(all[k] == e);
        }
    }
}

proof fn lemma_base_lines(existing: Seq<char>)
    requires
        no_marker(lines(strip_roles(existing))),
    ensures
        no_marker(lines(render_base(existing))),
        render_base(existing).len() == 0 || render_base(existing).last() == '\n',
        no_marker(lines(sep(render_base(existing)))),
        sep(render_base(existing)).len() == 0 || sep(render_base(existing)).last() == '\n',
{
    reveal_strlit("\n");
    let ls0 = lines(existing);
    lemma_strip_ends(ls0, ls0.len() as int);
    let b0 = strip_roles(existing);
    lemma_drop_blank_lines(b0);
    let b = render_base(existing);
    assert(b == drop_blank_tail(b0));
    if sep(b) != b {
        lemma_blank_line_no_marker(b);
    }
}

proof fn lemma_block_lines(s: Seq<Entry>)
    requires
        s.len() > 0,
        forall|i: int| 0 <= i < s.len() ==> plain_entry(#[trigger] s[i]),
    ensures
        lines("modelRoles:\n"@ + entries_text(s)) == seq!["modelRoles:"@] + s.map_values(|e: Entry| entry_text(e)),
{
    reveal_strlit("\n");
    reveal_strlit("modelRoles:\n");
    reveal_strlit("modelRoles:");
    let mk = "modelRoles:\n"@;
    let open = "modelRoles:"@;
    lemma_lines_append(mk, entries_text(s));
    assert forall|j: int| 0 <= j < open.len() implies mk[j] != '\n' by {}
    assert(mk[open.len() as int] == '\n');
    crate::text::lemma_first_index_char(mk, '\n', open.len() as int);
    let e = Seq::<char>::empty();
    assert(mk.take(open.len() as int) =~= open);
    assert(mk.skip(open.len() as int + 1) =~= e);
    assert(lines(e) =~= Seq::<Seq<char>>::empty());
    assert(crate::text::strip_cr(open) == open);
    assert(lines(mk) == seq![crate::text::strip_cr(mk.take(open.len() as int))] + lines(mk.skip(open.len() as int + 1)));
    assert(lines(mk) =~= seq![open]);
    lemma_entries_lines(s);
}

proof fn lemma_open_step()
    ensures
        parse_step((false, false, Some(Map::empty())), "modelRoles:"@) == (
            true,
            false,
            Some(Map::<Seq<char>, Seq<char>>::empty()),
        ),
{
    reveal_strlit("modelRoles:");
    let open = "modelRoles:"@;
    crate::text::lemma_trail_ws(open, open.len() as int);
    assert(open.take(open.len() as int) =~= open);
    assert(trim_end(open) == open);
    crate::text::lemma_lead_ws(open, 0);
    assert(open.skip(0) =~= open);
    assert(trim_start(open) == open);
    assert(open.take(open.len() as int) =~= open);
    assert(open.skip(open.len() as int) =~= Seq::<char>::empty());
    assert(strip_prefix(open, "modelRoles:"@) == Some(Seq::<char>::empty()));
    assert(trim(Seq::<char>::empty()) =~= Seq::<char>::empty());
}

/// Writing roles and reading them back gives the same roles, when each role line reads
/// back as itself and the rest of the file opens no other `modelRoles:` map.
pub proof fn law_model_roles_roundtrip(existing: Seq<char>, s: Seq<Entry>)
    requires
        forall|i: int| 0 <= i < s.len() ==> plain_entry(#[trigger] s[i]),
        no_marker(lines(strip_roles(existing))),
    ensures
        parse_roles(render_roles(existing, s)) == Some(entries_map(s)),
{
    let init = (false, false, Some(Map::<Seq<char>, Seq<char>>::empty()));
    let text = render_roles(existing, s);
    lemma_parse_upto_from(lines(text), lines(text).len() as int);
    assert(lines(text).take(lines(text).len() as int) =~= lines(text));
    lemma_entries_map_empty(s);
    lemma_base_lines(existing);
    let b = render_base(existing);
    if s.len() == 0 {
        lemma_parse_no_marker(lines(b));
    } else {
        let b2 = sep(b);
        let block = "modelRoles:\n"@ + entries_text(s);
        assert(text =~= b2 + block);
        lemma_lines_append(b2, block);
        lemma_block_lines(s);
        let entry_lines = s.map_values(|e: Entry| entry_text(e));
        lemma_parse_no_marker(lines(b2));
        lemma_parse_from_append(init, lines(b2), seq!["modelRoles:"@] + entry_lines);
        lemma_parse_from_append(init, seq!["modelRoles:"@], entry_lines);
        lemma_open_step();
        let one = seq!["modelRoles:"@];
        assert(one.drop_last() =~= Seq::<Seq<char>>::empty());
        assert(one.last() == "modelRoles:"@);
        assert(parse_from(init, one.drop_last()) == init);
        assert(parse_from(init, seq!["modelRoles:"@]) == (true, false, Some(Map::<Seq<char>, Seq<char>>::empty())));
        lemma_parse_entries(Map::empty(), s);
    }
}


/// A line that opens a `modelRoles:` map.
pub open spec fn is_marker(l: Seq<char>) -> bool {
    marker_rest(trim_end(l)) is Some
}

/// At most one of `ls` opens a `modelRoles:` map.
pub open spec fn one_marker_at_most(ls: Seq<Seq<char>>) -> bool {
    forall|i: int, j: int| 0 <= i < j < ls.len() ==> !(is_marker(#[trigger] ls[i]) && is_marker(#[trigger] ls[j]))
}

proof fn lemma_lines_no_break(s: Seq<char>)
    ensures
        forall|k: int| 0 <= k < lines(s).len() ==> !(#[trigger] lines(s)[k]).contains('\n'),
    decreases s.len(),
{
    if s.len() > 0 {
        crate::text::lemma_first_index_of(s, '\n');
        match crate::text::first_index_of(s, '\n') {
            Some(i) => {
                lemma_lines_no_break(s.skip(i + 1));
                let h = crate::text::strip_cr(s.take(i));
                assert(!h.contains('\n')) by {
                    if h.contains('\n') {
                        let j = choose|j: int| 0 <= j < h.len() && h[j] == '\n';
                        assert(h[j] == s[j]);
                    }
                }
                assert forall|k: int| 0 <= k < lines(s).len() implies !(#[trigger] lines(s)[k]).contains('\n') by {
                    if k > 0 {
                        assert(lines(s)[k] == lines(s.skip(i + 1))[k - 1]);
                    }
                }
            },
            None => {
                assert(lines(s) == seq![s]);
                assert forall|k: int| 0 <= k < lines(s).len() implies !(#[trigger] lines(s)[k]).contains('\n') by {
                    if s.contains('\n') {
                        let j = choose|j: int| 0 <= j < s.len() && s[j] == '\n';
                    }
                }
            },
        }
    }
}

proof fn lemma_one_line(l: Seq<char>)
    requires
        !l.contains('\n'),
    ensures
        lines(l + "\n"@) == seq![crate::text::strip_cr(l)],
{
    reveal_strlit("\n");
    let t = l + "\n"@;
    assert(t[l.len() as int] == '\n');
    assert forall|j: int| 0 <= j < l.len() implies t[j] != '\n' by {
        assert(t[j] == l[j]);
        if l[j] == '\n' {
            assert(l.contains('\n'));
        }
    }
    crate::text::lemma_first_index_char(t, '\n', l.len() as int);
    assert(t.take(l.len() as int) =~= l);
    assert(t.skip(l.len() as int + 1) =~= Seq::<char>::empty());
    assert(lines(Seq::<char>::empty()) =~= Seq::<Seq<char>>::empty());
    assert(lines(t) =~= seq![crate::text::strip_cr(l)]);
}

proof fn lemma_marker_strip_cr(l: Seq<char>)
    ensures
        is_marker(crate::text::strip_cr(l)) == is_marker(l),
{
    if l.len() > 0 && l.last() == '\r' {
        let d = l.drop_last();
        assert(crate::text::is_ws('\r'));
        assert(crate::text::trail_ws(l) == 1 + crate::text::trail_ws(d));
        crate::text::lemma_trail_ws_props(d);
        assert(trim_end(l) =~= trim_end(d));
    }
}

proof fn lemma_strip_keeps_no_marker(ls: Seq<Seq<char>>, k: int)
    requires
        0 <= k <= ls.len(),
        one_marker_at_most(ls),
        forall|i: int| 0 <= i < ls.len() ==> !(#[trigger] ls[i]).contains('\n'),
    ensures
        no_marker(lines(strip_upto(ls, k).1)),
        strip_upto(ls, k).0 ==> exists|j: int| 0 <= j < k && is_marker(#[trigger] ls[j]),
    decreases k,
{
    reveal_strlit("\n");
    if k == 0 {
        assert(lines(Seq::<char>::empty()) =~= Seq::<Seq<char>>::empty());
    } else {
        lemma_strip_keeps_no_marker(ls, k - 1);
        lemma_strip_ends(ls, k - 1);
        let st = strip_upto(ls, k - 1);
        let line = ls[k - 1];
        let kept = st.1 + line + "\n"@;
        if strip_upto(ls, k).1 != st.1 {
            assert(strip_upto(ls, k).1 == kept);
            assert(!is_marker(line)) by {
                if st.0 {
                    let j = choose|j: int| 0 <= j < k - 1 && is_marker(#[trigger] ls[j]);
                    assert(!(is_marker(ls[j]) && is_marker(ls[k - 1])));
                }
            }
            assert(kept =~= st.1 + (line + "\n"@));
            lemma_lines_append(st.1, line + "\n"@);
            lemma_one_line(line);
            lemma_marker_strip_cr(line);
            assert forall|i: int| 0 <= i < lines(kept).len() implies marker_rest(trim_end(#[trigger] lines(kept)[i])) is None by {
                if i < lines(st.1).len() {
                    assert(lines(kept)[i] == lines(st.1)[i]);
                } else {
                    assert(lines(kept)[i] == crate::text::strip_cr(line));
                }
            }
        }
        if strip_upto(ls, k).0 && !st.0 {
            assert(is_marker(ls[k - 1]));
        }
    }
}

/// Writing roles back reads them back whenever the file holds at most one `modelRoles:`
/// map: after rendering `s` below `existing`, the roles read are exactly `s` (each role's
/// last value), given roles and values that are nonempty, single-line and already
/// trimmed, roles without `:` that do not start with `-`, and values not in quotes.
pub proof fn law_model_roles_roundtrip_one_map(existing: Seq<char>, s: Seq<Entry>)
    requires
        forall|i: int| 0 <= i < s.len() ==> plain_entry(#[trigger] s[i]),
        one_marker_at_most(lines(existing)),
    ensures
        parse_roles(render_roles(existing, s)) == Some(entries_map(s)),
{
    let ls = lines(existing);
    lemma_lines_no_break(existing);
    lemma_strip_keeps_no_marker(ls, ls.len() as int);
    law_model_roles_roundtrip(existing, s);
}

proof fn lemma_entries_map_unique(es: Seq<Entry>)
    requires
        unique_roles(es),
    ensures
        forall|i: int| 0 <= i < es.len() ==> entries_map(es).contains_key(#[trigger] es[i].0) && entries_map(es)[es[i].0]
            == es[i].1,
        forall|k: Seq<char>| #[trigger] entries_map(es).contains_key(k) ==> exists|i: int| 0 <= i < es.len() && es[i].0 == k,
    decreases es.len(),
{
    if es.len() > 0 {
        let d = es.drop_last();
        assert forall|i: int, j: int| 0 <= i < j < d.len() implies #[trigger] d[i].0 != #[trigger] d[j].0 by {
            assert(d[i] == es[i] && d[j] == es[j]);
        }
        lemma_entries_map_unique(d);
        assert forall|i: int| 0 <= i < es.len() implies entries_map(es).contains_key(#[trigger] es[i].0)
            && entries_map(es)[es[i].0] == es[i].1 by {
            if i < d.len() {
                assert(d[i] == es[i]);
                assert(es[i].0 != es[es.len() - 1].0);
            }
        }
        assert forall|k: Seq<char>| #[trigger] entries_map(es).contains_key(k) implies exists|i: int|
            0 <= i < es.len() && es[i].0 == k by {
            if k == es.last().0 {
                assert(es[es.len() - 1].0 == k);
            } else {
                assert(entries_map(d).contains_key(k));
                let i = choose|i: int| 0 <= i < d.len() && d[i].0 == k;
                assert(es[i] == d[i]);
            }
        }
    }
}

proof fn lemma_unique_no_dup(es: Seq<Entry>)
    requires
        unique_roles(es),
    ensures
        es.no_duplicates(),
{
    assert forall|i: int, j: int| 0 <= i < es.len() && 0 <= j < es.len() && i != j implies es[i] != es[j] by {
        if i < j {
            assert(es[i].0 != es[j].0);
        } else {
            assert(es[j].0 != es[i].0);
        }
    }
}

/// Roles written with [`render_model_roles_yaml`] and read back with
/// [`parse_model_roles_yaml`] are the roles written, in some order: for distinct roles
/// whose roles and values are nonempty, single-line and already trimmed, roles without
/// `:` that do not start with `-`, values not in quotes, written into a file that holds at
/// most one `modelRoles:` map. `written` and `read` are what the two functions' contracts
/// give.
pub proof fn law_roles_read_back_as_written(existing: Seq<char>, roles: Seq<Entry>, written: Seq<Entry>, read: Seq<Entry>)
    requires
        unique_roles(roles),
        forall|i: int| 0 <= i < roles.len() ==> plain_entry(#[trigger] roles[i]),
        one_marker_at_most(lines(existing)),
        sorted_entries(written),
        same_entries(written, roles),
        parse_roles(render_roles(existing, written)) is Some,
        lists_roles(read, parse_roles(render_roles(existing, written))->0),
    ensures
        same_entries(read, roles),
{
    assert forall|i: int| 0 <= i < written.len() implies plain_entry(#[trigger] written[i]) by {
        assert(written.contains(written[i]));
        assert(roles.contains(written[i]));
    }
    law_model_roles_roundtrip_one_map(existing, written);
    let m = entries_map(written);
    assert(unique_roles(written)) by {
        assert forall|i: int, j: int| 0 <= i < j < written.len() implies #[trigger] written[i].0 != #[trigger] written[j].0 by {
            lemma_seq_lt_irreflexive(written[i].0);
        }
    }
    lemma_entries_map_unique(written);
    assert forall|p: Entry| read.contains(p) implies roles.contains(p) by {
        let j = choose|j: int| 0 <= j < read.len() && read[j] == p;
        assert(m.contains_key(read[j].0));
        let i = choose|i: int| 0 <= i < written.len() && written[i].0 == p.0;
        assert(written[i] == p);
        assert(written.contains(p));
    }
    assert forall|p: Entry| roles.contains(p) implies read.contains(p) by {
        assert(written.contains(p));
        let i = choose|i: int| 0 <= i < written.len() && written[i] == p;
        assert(m.contains_key(written[i].0));
        let j = choose|j: int| 0 <= j < read.len() && read[j].0 == p.0;
        assert(read[j] == p);
    }
    lemma_unique_no_dup(read);
    lemma_unique_no_dup(roles);
    read.unique_seq_to_set();
    roles.unique_seq_to_set();
    assert(read.to_set() =~= roles.to_set());
}

} // verus!
