//! The bundled OMP binary's update check: which release asset this host runs, the
//! version strings compared, and the checksum list that must vouch for a download.
use vstd::prelude::*;
use crate::callback::{first_two_words, words};
use crate::text::{
    chars_eq_str, chars_of, lines, lines_exec, owned, push_str, rsplit_once, rsplit_once_chars, string_of, strip_prefix,
    strip_prefix_exec, trim, trim_chars, trim_start_char, trim_start_char_exec,
};

verus! {

broadcast use vstd::seq_lib::group_seq_properties;

/// The release asset for a host: Apple silicon macOS and x86-64 Linux are shipped.
pub open spec fn asset_for(os: Seq<char>, arch: Seq<char>) -> Option<Seq<char>> {
    if os == "macos"@ && arch == "aarch64"@ {
        Some("omp-darwin-arm64"@)
    } else if os == "linux"@ && arch == "x86_64"@ {
        Some("omp-linux-x64"@)
    } else {
        None
    }
}

/// The release asset for the host with this OS and architecture (as Rust names them).
pub fn omp_github_asset_name(os: &str, arch: &str) -> (r: Option<&'static str>)
    ensures
        match r {
            Some(a) => asset_for(os@, arch@) == Some(a@),
            None => asset_for(os@, arch@) is None,
        },
{
    if crate::text::str_eq(os, "macos") && crate::text::str_eq(arch, "aarch64") {
        Some("omp-darwin-arm64")
    } else if crate::text::str_eq(os, "linux") && crate::text::str_eq(arch, "x86_64") {
        Some("omp-linux-x64")
    } else {
        None
    }
}

/// A version as compared: trimmed, without an `omp/` tag prefix, without leading `v`s.
pub open spec fn normalized_version(raw: Seq<char>) -> Seq<char> {
    let t = trim(raw);
    let w = match strip_prefix(t, "omp/"@) {
        Some(rest) => rest,
        None => t,
    };
    trim_start_char(trim(w), 'v')
}

pub fn normalize_omp_version(raw: &str) -> (r: String)
    ensures
        r@ == normalized_version(raw@),
{
    let v = chars_of(raw);
    let t = trim_chars(&v);
    let w = match strip_prefix_exec(&t, "omp/") {
        Some(rest) => rest,
        None => t,
    };
    let w2 = trim_chars(&w);
    let out = trim_start_char_exec(&w2, 'v');
    string_of(out.as_slice())
}

/// The checksum the first matching line of a `SHA256SUMS` file gives for `asset`: a line
/// whose second word, without leading `*`s, is the asset's name.
pub open spec fn sha_in_lines(ls: Seq<Seq<char>>, asset: Seq<char>) -> Option<Seq<char>>
    decreases ls.len(),
{
    if ls.len() == 0 {
        None
    } else {
        let w = words(ls[0]);
        if w.len() >= 2 && trim_start_char(w[1], '*') == asset {
            Some(w[0])
        } else {
            sha_in_lines(ls.drop_first(), asset)
        }
    }
}

pub fn expected_sha256(sums_txt: &str, asset_name: &str) -> (r: Option<String>)
    ensures
        match r {
            Some(h) => sha_in_lines(lines(sums_txt@), asset_name@) == Some(h@),
            None => sha_in_lines(lines(sums_txt@), asset_name@) is None,
        },
{
    let v = chars_of(sums_txt);
    let ls = lines_exec(&v);
    let ghost all = lines(sums_txt@);
    let mut i: usize = 0;
    assert(all.skip(0) =~= all);
    while i < ls.len()
        invariant
            all == lines(sums_txt@),
            ls@.len() == all.len(),
            forall|k: int| 0 <= k < ls@.len() ==> #[trigger] ls@[k]@ == all[k],
            i <= ls@.len(),
            sha_in_lines(all, asset_name@) == sha_in_lines(all.skip(i as int), asset_name@),
        decreases ls@.len() - i,
    {
        let ghost rest = all.skip(i as int);
        assert(rest[0] == all[i as int]);
        assert(rest.drop_first() =~= all.skip(i + 1));
        assert(ls@[i as int]@ == all[i as int]);
        match first_two_words(&ls[i]) {
            Some((hash, name)) => {
                let n = trim_start_char_exec(&name, '*');
                if chars_eq_str(n.as_slice(), asset_name) {
                    return Some(string_of(hash.as_slice()));
                }
            },
            None => {},
        }
        i = i + 1;
    }
    None
}

/// The checksum file published beside a release asset.
pub open spec fn sums_url_spec(asset_url: Seq<char>) -> Option<Seq<char>> {
    match rsplit_once(asset_url, '/') {
        Some((prefix, _)) => Some(prefix + "/SHA256SUMS.txt"@),
        None => None,
    }
}

pub fn sums_url_for_asset(asset_url: &str) -> (r: Option<String>)
    ensures
        match r {
            Some(u) => sums_url_spec(asset_url@) == Some(u@),
            None => sums_url_spec(asset_url@) is None,
        },
{
    let v = chars_of(asset_url);
    match rsplit_once_chars(&v, '/') {
        Some((prefix, _)) => {
            let mut out = string_of(prefix.as_slice());
            push_str(&mut out, "/SHA256SUMS.txt");
            Some(out)
        },
        None => None,
    }
}

} // verus!
