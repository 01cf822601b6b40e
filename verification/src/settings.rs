//! Shell quoting for commands the settings screen runs.
use vstd::prelude::*;
use crate::text::{chars_of, replace_char, replace_char_exec, string_of};

verus! {

/// `s` in single quotes, each `'` written as `'\''`.
pub open spec fn shell_quoted(s: Seq<char>) -> Seq<char> {
    seq!['\''] + replace_char(s, '\'', "'\\''"@) + seq!['\'']
}

pub fn shell_quote(s: &str) -> (r: String)
    ensures
        r@ == shell_quoted(s@),
{
    let v = chars_of(s);
    let rep = chars_of("'\\''");
    let body = replace_char_exec(v.as_slice(), '\'', rep.as_slice());
    let mut out: Vec<char> = Vec::new();
    out.push('\'');
    crate::text::append_chars(&mut out, body.as_slice());
    out.push('\'');
    assert(out@ =~= shell_quoted(s@));
    string_of(out.as_slice())
}

/// A harness's model-listing command with `{binary}` replaced by the quoted binary path.
pub fn models_command(models_cmd: &str, binary: &str) -> (r: String)
    ensures
        r@ == crate::text::replace_all(models_cmd@, "{binary}"@, shell_quoted(binary@)),
{
    let v = chars_of(models_cmd);
    let p = chars_of("{binary}");
    proof {
        reveal_strlit("{binary}");
    }
    let q = shell_quote(binary);
    let qv = chars_of(q.as_str());
    let out = crate::text::replace_all_exec(&v, p.as_slice(), qv.as_slice());
    string_of(out.as_slice())
}

/// The picker's models: the harness's own, then each non-blank line the listing
/// command printed, trimmed, unless it is already listed.
pub open spec fn merged_models(known: Seq<Seq<char>>, ls: Seq<Seq<char>>) -> Seq<Seq<char>>
    decreases ls.len(),
{
    if ls.len() == 0 {
        known
    } else {
        let before = merged_models(known, ls.drop_last());
        let m = crate::text::trim(ls.last());
        if m.len() > 0 && !before.contains(m) {
            before.push(m)
        } else {
            before
        }
    }
}

pub fn merge_model_lines(statics: Vec<String>, output: &str) -> (r: Vec<String>)
    ensures
        crate::app_config::views(r@) == merged_models(crate::app_config::views(statics@), crate::text::lines(output@)),
{
    let ghost known = crate::app_config::views(statics@);
    let v = chars_of(output);
    let ls = crate::text::lines_exec(&v);
    let ghost all = crate::text::lines(output@);
    let mut out = statics;
    let mut i: usize = 0;
    assert(all.take(0) =~= Seq::<Seq<char>>::empty());
    while i < ls.len()
        invariant
            all == crate::text::lines(output@),
            ls@.len() == all.len(),
            forall|k: int| 0 <= k < all.len() ==> #[trigger] ls@[k]@ == all[k],
            i <= all.len(),
            crate::app_config::views(out@) == merged_models(known, all.take(i as int)),
        decreases all.len() - i,
    {
        proof {
            assert(all.take(i + 1).drop_last() =~= all.take(i as int));
            assert(all.take(i + 1).last() == ls@[i as int]@);
        }
        let m = crate::text::trim_chars(&ls[i]);
        if m.len() > 0 {
            let ms = string_of(m.as_slice());
            let mut j: usize = 0;
            let mut found = false;
            while j < out.len() && !found
                invariant
                    j <= out@.len(),
                    ms@ == m@,
                    found ==> j < out@.len() && out@[j as int]@ == m@,
                    !found ==> forall|k: int| 0 <= k < j ==> (#[trigger] out@[k])@ != m@,
                decreases out@.len() - j + if found {
                    0int
                } else {
                    1int
                },
            {
                if crate::text::str_eq(out[j].as_str(), ms.as_str()) {
                    found = true;
                } else {
                    j = j + 1;
                }
            }
            let ghost before = crate::app_config::views(out@);
            if found {
                assert(before[j as int] == m@);
            } else {
                assert forall|k: int| 0 <= k < before.len() implies before[k] != m@ by {
                    assert(before[k] == out@[k]@);
                }
                out.push(ms);
                assert(crate::app_config::views(out@) =~= before.push(m@));
            }
        }
        i = i + 1;
    }
    assert(all.take(i as int) =~= all);
    out
}

} // verus!
