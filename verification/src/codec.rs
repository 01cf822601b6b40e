//! Byte-level codecs: URL percent-encoding, base64 (URL-safe encode, standard decode),
//! and the FNV-1a 64-bit content hash in fixed-width hex.
use vstd::prelude::*;
use vstd::string::*;
use vstd::utf8::*;
use crate::text::{push_char, string_of};

verus! {

broadcast use vstd::seq_lib::group_seq_properties;

/// What `String::from_utf8`'s error prints for these bytes.
pub uninterp spec fn utf8_error_text(bytes: Seq<u8>) -> Seq<char>;

/// `String::from_utf8`; its error is rendered with `Display`. The contract claims what
/// the std documentation states: success exactly on valid UTF-8, with the decoded chars.
#[verifier::external_body]
pub(crate) fn string_from_utf8(bytes: Vec<u8>) -> (r: Result<String, String>)
    ensures
        match r {
            Ok(s) => valid_utf8(bytes@) && s@ == decode_utf8(bytes@),
            Err(m) => !valid_utf8(bytes@) && m@ == utf8_error_text(bytes@),
        },
{
    String::from_utf8(bytes).map_err(|e| e.to_string())
}

// ---- hex digits ---------------------------------------------------------------

pub open spec fn hex_upper(n: int) -> char {
    if n < 10 {
        (48 + n) as char
    } else {
        (55 + n) as char
    }
}

pub open spec fn hex_lower(n: int) -> char {
    if n < 10 {
        (48 + n) as char
    } else {
        (87 + n) as char
    }
}

pub fn hex_upper_char(n: u8) -> (c: char)
    requires
        n < 16,
    ensures
        c == hex_upper(n as int),
{
    if n < 10 {
        (48 + n) as char
    } else {
        (55 + n) as char
    }
}

pub fn hex_lower_char(n: u8) -> (c: char)
    requires
        n < 16,
    ensures
        c == hex_lower(n as int),
{
    if n < 10 {
        (48 + n) as char
    } else {
        (87 + n) as char
    }
}

/// `v` in `width` lowercase hex digits, most significant first, zero-padded.
pub open spec fn hex_fixed(v: nat, width: nat) -> Seq<char>
    decreases width,
{
    if width == 0 {
        seq![]
    } else {
        hex_fixed(v / 16, (width - 1) as nat).push(hex_lower((v % 16) as int))
    }
}

/// A lowercase hex digit.
pub open spec fn is_hex_lower(c: char) -> bool {
    ('0' <= c && c <= '9') || ('a' <= c && c <= 'f')
}

/// `hex_fixed(v, width)` is exactly `width` lowercase hex digits; so every FNV-1a hash
/// written by [`fnv1a64_hex`] or [`artifact_text_hash`] is 16 of them.
pub proof fn law_hex_fixed_shape(v: nat, width: nat)
    ensures
        hex_fixed(v, width).len() == width,
        forall|i: int| 0 <= i < width ==> is_hex_lower(#[trigger] hex_fixed(v, width)[i]),
    decreases width,
{
    if width > 0 {
        law_hex_fixed_shape(v / 16, (width - 1) as nat);
        let d = (v % 16) as int;
        assert(0 <= d < 16);
        assert(is_hex_lower(hex_lower(d))) by {
            if d < 10 {
                assert((48 + d) as char == hex_lower(d));
            } else {
                assert((87 + d) as char == hex_lower(d));
            }
        }
    }
}

fn hex_fixed_exec(v: u64, width: u32) -> (r: Vec<char>)
    ensures
        r@ == hex_fixed(v as nat, width as nat),
    decreases width,
{
    if width == 0 {
        Vec::new()
    } else {
        let mut r = hex_fixed_exec(v / 16, width - 1);
        r.push(hex_lower_char((v % 16) as u8));
        r
    }
}

// ---- FNV-1a -------------------------------------------------------------------

pub open spec fn fnv_offset() -> u64 {
    0xcbf29ce484222325u64
}

pub open spec fn fnv_prime() -> u64 {
    0x100000001b3u64
}

/// FNV-1a over `bs`: xor each byte in, then multiply by the prime modulo 2^64.
pub open spec fn fnv1a64(bs: Seq<u8>) -> u64
    decreases bs.len(),
{
    if bs.len() == 0 {
        fnv_offset()
    } else {
        (fnv1a64(bs.drop_last()) ^ (bs.last() as u64)).wrapping_mul(fnv_prime())
    }
}

/// The FNV-1a 64-bit hash of `input`'s UTF-8 bytes as 16 lowercase hex digits.
pub fn fnv1a64_hex(input: &str) -> (r: String)
    ensures
        r@ == hex_fixed(fnv1a64(input.spec_bytes()) as nat, 16),
{
    let bytes = input.as_bytes();
    let mut hash: u64 = 0xcbf29ce484222325u64;
    let mut i: usize = 0;
    while i < bytes.len()
        invariant
            i <= bytes@.len(),
            bytes@ == input.spec_bytes(),
            hash == fnv1a64(bytes@.take(i as int)),
        decreases bytes@.len() - i,
    {
        assert(bytes@.take(i + 1).drop_last() =~= bytes@.take(i as int));
        hash = hash ^ (bytes[i] as u64);
        hash = hash.wrapping_mul(0x100000001b3u64);
        i = i + 1;
    }
    assert(bytes@.take(bytes@.len() as int) =~= bytes@);
    let digits = hex_fixed_exec(hash, 16);
    string_of(digits.as_slice())
}

/// The stale-check hash of artifact text (non-cryptographic: it only gates UI state).
pub fn artifact_text_hash(text: &str) -> (r: String)
    ensures
        r@ == hex_fixed(fnv1a64(text.spec_bytes()) as nat, 16),
{
    fnv1a64_hex(text)
}

// ---- percent-encoding ---------------------------------------------------------

/// RFC 3986 unreserved bytes pass through.
pub open spec fn unreserved(b: u8) -> bool {
    (48 <= b <= 57) || (65 <= b <= 90) || (97 <= b <= 122) || b == 45 || b == 46 || b == 95 || b == 126
}

pub open spec fn pct_byte(b: u8) -> Seq<char> {
    if unreserved(b) {
        seq![b as char]
    } else {
        seq!['%', hex_upper((b / 16) as int), hex_upper((b % 16) as int)]
    }
}

pub open spec fn pct_encode_bytes(bs: Seq<u8>) -> Seq<char>
    decreases bs.len(),
{
    if bs.len() == 0 {
        seq![]
    } else {
        pct_encode_bytes(bs.drop_last()) + pct_byte(bs.last())
    }
}

/// A char that may stand in percent-encoded text: an ASCII letter or digit, one of
/// `-` `.` `_` `~`, or the `%` that starts an escape.
pub open spec fn url_safe_char(c: char) -> bool {
    ('0' <= c && c <= '9') || ('A' <= c && c <= 'Z') || ('a' <= c && c <= 'z') || c == '-' || c == '.' || c == '_'
        || c == '~' || c == '%'
}

/// Percent-encoding passes through exactly the RFC 3986 unreserved bytes (ASCII letters,
/// digits, `-`, `.`, `_`, `~`) and writes every other byte as `%` and two uppercase hex
/// digits (`0`-`9`, `A`-`F`); so encoded text holds no `&`, `=`, `?`, `#`, `+`, `/` or space.
pub proof fn law_percent_encoding(bs: Seq<u8>)
    ensures
        forall|k: int| 0 <= k < pct_encode_bytes(bs).len() ==> url_safe_char(#[trigger] pct_encode_bytes(bs)[k]),
        forall|b: u8|
            ('0' as u8 <= b <= '9' as u8) || ('A' as u8 <= b <= 'Z' as u8) || ('a' as u8 <= b <= 'z' as u8) || b
                == '-' as u8 || b == '.' as u8 || b == '_' as u8 || b == '~' as u8 ==> #[trigger] pct_encode_bytes(
                seq![b],
            ) == seq![b as char],
        forall|b: u8|
            !(('0' as u8 <= b <= '9' as u8) || ('A' as u8 <= b <= 'Z' as u8) || ('a' as u8 <= b <= 'z' as u8) || b
                == '-' as u8 || b == '.' as u8 || b == '_' as u8 || b == '~' as u8) ==> (#[trigger] pct_encode_bytes(
                seq![b],
            )) == seq!['%', "0123456789ABCDEF"@[(b / 16) as int], "0123456789ABCDEF"@[(b % 16) as int]],
    decreases bs.len(),
{
    reveal_strlit("0123456789ABCDEF");
    assert forall|n: int| 0 <= n < 16 implies #[trigger] hex_upper(n) == "0123456789ABCDEF"@[n] by {
        reveal_strlit("0123456789ABCDEF");
    }
    assert forall|b: u8| #[trigger] pct_encode_bytes(seq![b]) == pct_byte(b) by {
        assert(seq![b].drop_last() =~= Seq::<u8>::empty());
        assert(seq![b].last() == b);
        assert(pct_encode_bytes(Seq::<u8>::empty()) == Seq::<char>::empty());
        assert(Seq::<char>::empty() + pct_byte(b) =~= pct_byte(b));
    }
    if bs.len() > 0 {
        law_percent_encoding(bs.drop_last());
        let prev = pct_encode_bytes(bs.drop_last());
        let last = pct_byte(bs.last());
        assert forall|k: int| 0 <= k < last.len() implies url_safe_char(#[trigger] last[k]) by {
            let b = bs.last();
            if !unreserved(b) && k > 0 {
                assert(b / 16 < 16 && b % 16 < 16);
            }
        }
        assert forall|k: int| 0 <= k < pct_encode_bytes(bs).len() implies url_safe_char(#[trigger] pct_encode_bytes(bs)[k]) by {
            if k < prev.len() {
                assert(pct_encode_bytes(bs)[k] == prev[k]);
            } else {
                assert(pct_encode_bytes(bs)[k] == last[k - prev.len()]);
            }
        }
    }
}

fn is_unreserved(b: u8) -> (r: bool)
    ensures
        r == unreserved(b),
{
    (48 <= b && b <= 57) || (65 <= b && b <= 90) || (97 <= b && b <= 122) || b == 45 || b == 46 || b == 95
        || b == 126
}

/// Percent-encode every byte of `value` outside the unreserved set, with uppercase hex.
pub fn percent_encode(value: &str) -> (r: String)
    ensures
        r@ == pct_encode_bytes(value.spec_bytes()),
        forall|k: int| 0 <= k < r@.len() ==> url_safe_char(#[trigger] r@[k]),
{
    let bytes = value.as_bytes();
    let mut out = String::new();
    let mut i: usize = 0;
    while i < bytes.len()
        invariant
            i <= bytes@.len(),
            bytes@ == value.spec_bytes(),
            out@ == pct_encode_bytes(bytes@.take(i as int)),
        decreases bytes@.len() - i,
    {
        let b = bytes[i];
        assert(bytes@.take(i + 1).drop_last() =~= bytes@.take(i as int));
        if is_unreserved(b) {
            push_char(&mut out, b as char);
        } else {
            push_char(&mut out, '%');
            push_char(&mut out, hex_upper_char(b / 16));
            push_char(&mut out, hex_upper_char(b % 16));
        }
        i = i + 1;
        assert(out@ =~= pct_encode_bytes(bytes@.take(i as int)));
    }
    assert(bytes@.take(bytes@.len() as int) =~= bytes@);
    proof {
        law_percent_encoding(bytes@);
    }
    out
}

/// Why a percent-decode failed before the final UTF-8 check.
pub enum PctError {
    /// A `%` not followed by two more bytes, or two bytes that are not a hex number.
    Invalid,
    /// The two bytes after `%` are not UTF-8.
    NotUtf8(Seq<u8>),
}

pub open spec fn hex_val(b: u8) -> int {
    if 48 <= b <= 57 {
        b - 48
    } else if 97 <= b <= 102 {
        b - 87
    } else {
        b - 55
    }
}

pub open spec fn is_hex_byte(b: u8) -> bool {
    (48 <= b <= 57) || (97 <= b <= 102) || (65 <= b <= 70)
}

/// `u8::from_str_radix(s, 16)` on the two-byte string `a b`: an optional `+`, then hex
/// digits.
pub open spec fn hex_pair(a: u8, b: u8) -> Option<u8> {
    if a == 43 && is_hex_byte(b) {
        Some(hex_val(b) as u8)
    } else if is_hex_byte(a) && is_hex_byte(b) {
        Some((hex_val(a) * 16 + hex_val(b)) as u8)
    } else {
        None
    }
}

/// The bytes that `%XX`, `+` and literal bytes of `bs` from position `i` on decode to.
pub open spec fn pct_decode_from(bs: Seq<u8>, i: int) -> Result<Seq<u8>, PctError>
    decreases bs.len() - i,
{
    if i < 0 || i >= bs.len() {
        Ok(seq![])
    } else if bs[i] == 43 {
        match pct_decode_from(bs, i + 1) {
            Ok(t) => Ok(seq![32u8] + t),
            Err(e) => Err(e),
        }
    } else if bs[i] == 37 {
        if i + 2 < bs.len() {
            if !valid_utf8(seq![bs[i + 1], bs[i + 2]]) {
                Err(PctError::NotUtf8(seq![bs[i + 1], bs[i + 2]]))
            } else {
                match hex_pair(bs[i + 1], bs[i + 2]) {
                    Some(v) => match pct_decode_from(bs, i + 3) {
                        Ok(t) => Ok(seq![v] + t),
                        Err(e) => Err(e),
                    },
                    None => Err(PctError::Invalid),
                }
            }
        } else {
            Err(PctError::Invalid)
        }
    } else {
        match pct_decode_from(bs, i + 1) {
            Ok(t) => Ok(seq![bs[i]] + t),
            Err(e) => Err(e),
        }
    }
}

/// The full result of `percent_decode` on text whose UTF-8 bytes are `bs`.
pub open spec fn pct_decode(bs: Seq<u8>) -> Result<Seq<char>, Seq<char>> {
    match pct_decode_from(bs, 0) {
        Ok(out) => if valid_utf8(out) {
            Ok(decode_utf8(out))
        } else {
            Err(utf8_error_text(out))
        },
        Err(PctError::Invalid) => Err("invalid percent encoding"@),
        Err(PctError::NotUtf8(pair)) => Err(utf8_error_text(pair)),
    }
}

fn hex_byte_val(b: u8) -> (r: u8)
    requires
        is_hex_byte(b),
    ensures
        r as int == hex_val(b),
        r < 16,
{
    if 48 <= b && b <= 57 {
        b - 48
    } else if 97 <= b && b <= 102 {
        b - 87
    } else {
        b - 55
    }
}

fn is_hex_byte_exec(b: u8) -> (r: bool)
    ensures
        r == is_hex_byte(b),
{
    (48 <= b && b <= 57) || (97 <= b && b <= 102) || (65 <= b && b <= 70)
}

fn hex_pair_exec(a: u8, b: u8) -> (r: Option<u8>)
    ensures
        r == hex_pair(a, b),
{
    if a == 43 && is_hex_byte_exec(b) {
        Some(hex_byte_val(b))
    } else if is_hex_byte_exec(a) && is_hex_byte_exec(b) {
        Some(hex_byte_val(a) * 16 + hex_byte_val(b))
    } else {
        None
    }
}

spec fn prepend(prefix: Seq<u8>, r: Result<Seq<u8>, PctError>) -> Result<Seq<u8>, PctError> {
    match r {
        Ok(t) => Ok(prefix + t),
        Err(e) => Err(e),
    }
}

proof fn lemma_prepend_assoc(a: Seq<u8>, b: Seq<u8>, r: Result<Seq<u8>, PctError>)
    ensures
        prepend(a, prepend(b, r)) == prepend(a + b, r),
{
    match r {
        Ok(t) => {
            assert(a + (b + t) =~= (a + b) + t);
        },
        Err(_) => {},
    }
}

/// Decode `+` as space and `%XX` as the byte `XX`; the result must be UTF-8.
pub fn percent_decode(value: &str) -> (r: Result<String, String>)
    ensures
        match r {
            Ok(s) => pct_decode(value.spec_bytes()) == Ok::<Seq<char>, Seq<char>>(s@),
            Err(m) => pct_decode(value.spec_bytes()) == Err::<Seq<char>, Seq<char>>(m@),
        },
{
    let bytes = value.as_bytes();
    let n = bytes.len();
    let mut out: Vec<u8> = Vec::new();
    let mut i: usize = 0;
    assert(prepend(seq![], pct_decode_from(bytes@, 0)) == pct_decode_from(bytes@, 0)) by {
        match pct_decode_from(bytes@, 0) {
            Ok(t) => assert(Seq::<u8>::empty() + t =~= t),
            Err(_) => {},
        }
    }
    while i < n
        invariant
            n == bytes@.len(),
            bytes@ == value.spec_bytes(),
            i <= n,
            pct_decode_from(bytes@, 0) == prepend(out@, pct_decode_from(bytes@, i as int)),
        decreases n - i,
    {
        let b = bytes[i];
        if b == 43 {
            proof {
                assert(pct_decode_from(bytes@, i as int) == prepend(seq![32u8], pct_decode_from(bytes@, i + 1)));
                lemma_prepend_assoc(out@, seq![32u8], pct_decode_from(bytes@, i + 1));
            }
            let ghost before = out@;
            out.push(32u8);
            assert(out@ =~= before + seq![32u8]);
            i = i + 1;
        } else if b == 37 {
            if n - i > 2 {
                let mut pair: Vec<u8> = Vec::new();
                pair.push(bytes[i + 1]);
                pair.push(bytes[i + 2]);
                assert(pair@ =~= seq![bytes@[i + 1], bytes@[i + 2]]);
                match string_from_utf8(pair) {
                    Err(m) => {
                        return Err(m);
                    },
                    Ok(_) => {},
                }
                match hex_pair_exec(bytes[i + 1], bytes[i + 2]) {
                    Some(v) => {
                        proof {
                            assert(pct_decode_from(bytes@, i as int) == prepend(seq![v], pct_decode_from(bytes@, i + 3)));
                            lemma_prepend_assoc(out@, seq![v], pct_decode_from(bytes@, i + 3));
                        }
                        let ghost before = out@;
                        out.push(v);
                        assert(out@ =~= before + seq![v]);
                        i = i + 3;
                    },
                    None => {
                        return Err(String::from_str("invalid percent encoding"));
                    },
                }
            } else {
                return Err(String::from_str("invalid percent encoding"));
            }
        } else {
            proof {
                assert(pct_decode_from(bytes@, i as int) == prepend(seq![b], pct_decode_from(bytes@, i + 1)));
                lemma_prepend_assoc(out@, seq![b], pct_decode_from(bytes@, i + 1));
            }
            let ghost before = out@;
            out.push(b);
            assert(out@ =~= before + seq![b]);
            i = i + 1;
        }
    }
    assert(pct_decode_from(bytes@, n as int) == Ok::<Seq<u8>, PctError>(seq![]));
    assert(out@ + Seq::<u8>::empty() =~= out@);
    string_from_utf8(out)
}

// ---- base64 ------------------------------------------------------------------

/// The URL-safe base64 alphabet.
pub open spec fn b64url(n: int) -> char {
    if n < 26 {
        (65 + n) as char
    } else if n < 52 {
        (71 + n) as char
    } else if n < 62 {
        (n - 4) as char
    } else if n == 62 {
        '-'
    } else {
        '_'
    }
}

/// The URL- and filename-safe base64 alphabet of RFC 4648, table 2.
pub open spec fn rfc4648_url_alphabet() -> Seq<char> {
    "ABCDEFGHIJKLMNOPQRSTUVWXYZabcdefghijklmnopqrstuvwxyz0123456789-_"@
}

/// Each sextet value is written as its char of the URL-safe alphabet: `-` for 62 and `_`
/// for 63, never `+` or `/`.
pub proof fn law_base64url_alphabet()
    ensures
        forall|k: int| 0 <= k < 64 ==> #[trigger] b64url(k) == rfc4648_url_alphabet()[k],
{
    reveal_strlit("ABCDEFGHIJKLMNOPQRSTUVWXYZabcdefghijklmnopqrstuvwxyz0123456789-_");
    assert forall|k: int| 0 <= k < 64 implies #[trigger] b64url(k) == rfc4648_url_alphabet()[k] by {
        reveal_strlit("ABCDEFGHIJKLMNOPQRSTUVWXYZabcdefghijklmnopqrstuvwxyz0123456789-_");
    }
}

/// One group of up to three bytes, unpadded.
pub open spec fn b64url_group(bs: Seq<u8>) -> Seq<char> {
    let a = bs[0] as int;
    let b = if bs.len() > 1 {
        bs[1] as int
    } else {
        0
    };
    let c = if bs.len() > 2 {
        bs[2] as int
    } else {
        0
    };
    let first = seq![b64url(a / 4), b64url((a % 4) * 16 + b / 16)];
    if bs.len() == 1 {
        first
    } else if bs.len() == 2 {
        first.push(b64url((b % 16) * 4 + c / 64))
    } else {
        first.push(b64url((b % 16) * 4 + c / 64)).push(b64url(c % 64))
    }
}

/// Unpadded URL-safe base64 of `bs`.
pub open spec fn b64url_encode(bs: Seq<u8>) -> Seq<char>
    decreases bs.len(),
{
    if bs.len() == 0 {
        seq![]
    } else if bs.len() <= 3 {
        b64url_group(bs)
    } else {
        b64url_group(bs.take(3)) + b64url_encode(bs.skip(3))
    }
}

fn b64url_char(n: u8) -> (c: char)
    requires
        n < 64,
    ensures
        c == b64url(n as int),
{
    if n < 26 {
        (65 + n) as char
    } else if n < 52 {
        (71 + n) as char
    } else if n < 62 {
        (n - 4) as char
    } else if n == 62 {
        '-'
    } else {
        '_'
    }
}

fn encode_group(a: u8, b: u8, c: u8, len: usize, g: Ghost<Seq<u8>>) -> (r: Vec<char>)
    requires
        1 <= len <= 3,
        g@.len() == len,
        g@[0] == a,
        len > 1 ==> g@[1] == b,
        len > 2 ==> g@[2] == c,
        len <= 1 ==> b == 0,
        len <= 2 ==> c == 0,
    ensures
        r@ == b64url_group(g@),
{
    let mut r: Vec<char> = Vec::new();
    r.push(b64url_char(a / 4));
    r.push(b64url_char((a % 4) * 16 + b / 16));
    if len > 1 {
        r.push(b64url_char((b % 16) * 4 + c / 64));
    }
    if len > 2 {
        r.push(b64url_char(c % 64));
    }
    assert(r@ =~= b64url_group(g@));
    r
}

proof fn lemma_b64url_step(rest: Seq<u8>)
    requires
        rest.len() > 0,
    ensures
        rest.len() <= 3 ==> b64url_encode(rest) == b64url_group(rest) + b64url_encode(rest.skip(rest.len() as int)),
        rest.len() > 3 ==> b64url_encode(rest) == b64url_group(rest.take(3)) + b64url_encode(rest.skip(3)),
{
    if rest.len() <= 3 {
        assert(rest.skip(rest.len() as int) =~= Seq::<u8>::empty());
        assert(b64url_group(rest) + Seq::<char>::empty() =~= b64url_group(rest));
    }
}

/// Unpadded URL-safe base64, as PKCE challenges use.
pub fn base64_url_no_pad(bytes: &[u8]) -> (r: String)
    ensures
        r@ == b64url_encode(bytes@),
{
    let n = bytes.len();
    let mut out = String::new();
    let mut i: usize = 0;
    assert(bytes@.skip(0) =~= bytes@);
    while i < n
        invariant
            n == bytes@.len(),
            i <= n,
            b64url_encode(bytes@) == out@ + b64url_encode(bytes@.skip(i as int)),
        decreases n - i,
    {
        let ghost rest = bytes@.skip(i as int);
        let len: usize = if n - i >= 3 { 3 } else { n - i };
        let a = bytes[i];
        let b: u8 = if len > 1 { bytes[i + 1] } else { 0 };
        let c: u8 = if len > 2 { bytes[i + 2] } else { 0 };
        let ghost g = if rest.len() <= 3 { rest } else { rest.take(3) };
        proof {
            lemma_b64url_step(rest);
            if rest.len() <= 3 {
                assert(rest.skip(rest.len() as int) =~= bytes@.skip(i + len));
            } else {
                assert(rest.skip(3) =~= bytes@.skip(i + len));
            }
        }
        let grp = encode_group(a, b, c, len, Ghost(g));
        let ghost old_out = out@;
        crate::text::push_chars(&mut out, grp.as_slice());
        assert(out@ + b64url_encode(bytes@.skip(i + len)) =~= old_out + (b64url_group(g) + b64url_encode(bytes@.skip(i + len))));
        i = i + len;
    }
    proof {
        assert(bytes@.skip(n as int) =~= Seq::<u8>::empty());
        assert(out@ + Seq::<char>::empty() =~= out@);
    }
    out
}

/// The 6-bit value of a standard-alphabet base64 char, if it is one.
pub open spec fn b64_value(b: u8) -> Option<u8> {
    if 65 <= b <= 90 {
        Some((b - 65) as u8)
    } else if 97 <= b <= 122 {
        Some((b - 97 + 26) as u8)
    } else if 48 <= b <= 57 {
        Some((b - 48 + 52) as u8)
    } else if b == 43 {
        Some(62u8)
    } else if b == 47 {
        Some(63u8)
    } else {
        None
    }
}

/// Padding and line breaks are skipped.
pub open spec fn b64_ignored(b: u8) -> bool {
    b == 61 || b == 13 || b == 10
}

/// The sextets of `bs`, or `None` at the first byte that is neither a base64 char
/// nor ignorable.
pub open spec fn b64_sextets(bs: Seq<u8>) -> Option<Seq<u8>>
    decreases bs.len(),
{
    if bs.len() == 0 {
        Some(seq![])
    } else {
        match b64_sextets(bs.drop_last()) {
            None => None,
            Some(s) => if b64_ignored(bs.last()) {
                Some(s)
            } else {
                match b64_value(bs.last()) {
                    Some(v) => Some(s.push(v)),
                    None => None,
                }
            },
        }
    }
}

/// The bytes that a run of sextets packs into: whole groups of four give three bytes,
/// and a tail of two or three gives one or two. A single trailing sextet is dropped.
pub open spec fn b64_pack(s: Seq<u8>) -> Seq<u8>
    decreases s.len(),
{
    if s.len() < 2 {
        seq![]
    } else {
        let a = s[0] as int;
        let b = s[1] as int;
        let c = if s.len() > 2 {
            s[2] as int
        } else {
            0
        };
        let d = if s.len() > 3 {
            s[3] as int
        } else {
            0
        };
        let first = seq![(a * 4 + b / 16) as u8];
        if s.len() == 2 {
            first
        } else if s.len() == 3 {
            first.push(((b % 16) * 16 + c / 4) as u8)
        } else {
            first.push(((b % 16) * 16 + c / 4) as u8).push(((c % 4) * 64 + d) as u8) + b64_pack(s.skip(4))
        }
    }
}

/// The standard base64 alphabet of RFC 4648, table 1: the char for each sextet value.
pub open spec fn rfc4648_alphabet() -> Seq<char> {
    "ABCDEFGHIJKLMNOPQRSTUVWXYZabcdefghijklmnopqrstuvwxyz0123456789+/"@
}

/// Each char of the standard alphabet reads back as its own position, and nothing else
/// reads as a sextet: `A`-`Z` are 0-25, `a`-`z` 26-51, `0`-`9` 52-61, `+` is 62 and `/` 63.
pub proof fn law_base64_alphabet()
    ensures
        rfc4648_alphabet().len() == 64,
        forall|k: int| 0 <= k < 64 ==> b64_value((#[trigger] rfc4648_alphabet()[k]) as u8) == Some(k as u8),
        forall|b: u8| #[trigger] b64_value(b) is Some ==> rfc4648_alphabet()[b64_value(b)->0 as int] as u8 == b,
{
    reveal_strlit("ABCDEFGHIJKLMNOPQRSTUVWXYZabcdefghijklmnopqrstuvwxyz0123456789+/");
    let a = rfc4648_alphabet();
    assert(a.len() == 64);
    assert forall|k: int| 0 <= k < 64 implies b64_value((#[trigger] a[k]) as u8) == Some(k as u8) by {
        reveal_strlit("ABCDEFGHIJKLMNOPQRSTUVWXYZabcdefghijklmnopqrstuvwxyz0123456789+/");
    }
    assert forall|b: u8| #[trigger] b64_value(b) is Some implies a[b64_value(b)->0 as int] as u8 == b by {
        reveal_strlit("ABCDEFGHIJKLMNOPQRSTUVWXYZabcdefghijklmnopqrstuvwxyz0123456789+/");
    }
}

/// The byte of the standard-alphabet char for sextet `n`.
pub open spec fn std_b64_byte(n: int) -> u8 {
    rfc4648_alphabet()[n] as u8
}

/// Standard base64 as RFC 4648 writes it: each group of three bytes as four chars, and a
/// last group of one or two bytes padded with `=`.
pub open spec fn std_b64_encode(bs: Seq<u8>) -> Seq<u8>
    decreases bs.len(),
{
    if bs.len() == 0 {
        seq![]
    } else if bs.len() == 1 {
        let x = bs[0] as int;
        seq![std_b64_byte(x / 4), std_b64_byte((x % 4) * 16), 61u8, 61u8]
    } else if bs.len() == 2 {
        let x = bs[0] as int;
        let y = bs[1] as int;
        seq![std_b64_byte(x / 4), std_b64_byte((x % 4) * 16 + y / 16), std_b64_byte((y % 16) * 4), 61u8]
    } else {
        let x = bs[0] as int;
        let y = bs[1] as int;
        let z = bs[2] as int;
        seq![
            std_b64_byte(x / 4),
            std_b64_byte((x % 4) * 16 + y / 16),
            std_b64_byte((y % 16) * 4 + z / 64),
            std_b64_byte(z % 64),
        ] + std_b64_encode(bs.skip(3))
    }
}

proof fn lemma_sextets_append(a: Seq<u8>, b: Seq<u8>)
    requires
        b64_sextets(a) is Some,
        b64_sextets(b) is Some,
    ensures
        b64_sextets(a + b) == Some(b64_sextets(a)->0 + b64_sextets(b)->0),
    decreases b.len(),
{
    if b.len() == 0 {
        assert(a + b =~= a);
        assert(b64_sextets(b)->0 =~= Seq::<u8>::empty());
        assert(b64_sextets(a)->0 + Seq::<u8>::empty() =~= b64_sextets(a)->0);
    } else {
        lemma_sextets_append(a, b.drop_last());
        assert((a + b).drop_last() =~= a + b.drop_last());
        assert((a + b).last() == b.last());
        if !b64_ignored(b.last()) {
            assert(b64_sextets(a)->0 + b64_sextets(b.drop_last())->0.push(b64_value(b.last())->0) =~= (
            b64_sextets(a)->0 + b64_sextets(b.drop_last())->0).push(b64_value(b.last())->0));
        }
    }
}

proof fn lemma_pack_split(s: Seq<u8>)
    requires
        s.len() >= 4,
    ensures
        b64_pack(s) == b64_pack(s.take(4)) + b64_pack(s.skip(4)),
{
    let t = s.take(4);
    assert(t.skip(4) =~= Seq::<u8>::empty());
    assert(b64_pack(t.skip(4)) =~= Seq::<u8>::empty());
    assert(t[0] == s[0] && t[1] == s[1] && t[2] == s[2] && t[3] == s[3]);
}

proof fn lemma_std_sextet(n: int)
    requires
        0 <= n < 64,
    ensures
        b64_value(std_b64_byte(n)) == Some(n as u8),
        !b64_ignored(std_b64_byte(n)),
{
    law_base64_alphabet();
    assert(b64_value((rfc4648_alphabet()[n]) as u8) == Some(n as u8));
}

proof fn lemma_sextets_of(c: Seq<u8>, v: Seq<u8>)
    requires
        c.len() == v.len(),
        forall|k: int| 0 <= k < c.len() ==> !b64_ignored(#[trigger] c[k]) && b64_value(c[k]) == Some(v[k]),
    ensures
        b64_sextets(c) == Some(v),
    decreases c.len(),
{
    if c.len() > 0 {
        assert forall|k: int| 0 <= k < c.len() - 1 implies !b64_ignored(#[trigger] c.drop_last()[k]) && b64_value(
            c.drop_last()[k],
        ) == Some(v.drop_last()[k]) by {
            assert(c.drop_last()[k] == c[k]);
        }
        lemma_sextets_of(c.drop_last(), v.drop_last());
        assert(v.drop_last().push(v.last()) =~= v);
        assert(c[c.len() - 1] == c.last());
    } else {
        assert(v =~= Seq::<u8>::empty());
    }
}

/// Decoding the standard base64 encoding of any bytes gives those bytes back: the
/// encoding reads as sextets, and the sextets pack into the bytes.
pub proof fn law_base64_round_trip(bs: Seq<u8>)
    ensures
        b64_sextets(std_b64_encode(bs)) is Some,
        b64_pack(b64_sextets(std_b64_encode(bs))->0) == bs,
    decreases bs.len(),
{
    if bs.len() == 0 {
        assert(bs =~= Seq::<u8>::empty());
    } else if bs.len() == 1 {
        let x = bs[0];
        let a = (x / 4) as int;
        let b = ((x % 4) * 16) as int;
        lemma_std_sextet(a);
        lemma_std_sextet(b);
        let c = std_b64_encode(bs);
        let head = c.take(2);
        lemma_sextets_of(head, seq![a as u8, b as u8]);
        assert(c.take(3).drop_last() =~= head);
        assert(c.drop_last() =~= c.take(3));
        assert(c.last() == 61u8 && b64_ignored(61u8));
        assert(c.take(3).last() == 61u8);
        assert(b64_sextets(c.take(3)) == b64_sextets(head));
        assert(b64_sextets(c) == Some(seq![a as u8, b as u8]));
        assert(((a * 4 + b / 16) as u8) == x) by (nonlinear_arith)
            requires
                a == x / 4,
                b == (x % 4) * 16,
        ;
        assert(bs =~= seq![x]);
    } else if bs.len() == 2 {
        let x = bs[0];
        let y = bs[1];
        let a = (x / 4) as int;
        let b = ((x % 4) * 16 + y / 16) as int;
        let d = ((y % 16) * 4) as int;
        lemma_std_sextet(a);
        lemma_std_sextet(b);
        lemma_std_sextet(d);
        let c = std_b64_encode(bs);
        let head = c.take(3);
        lemma_sextets_of(head, seq![a as u8, b as u8, d as u8]);
        assert(c.drop_last() =~= head);
        assert(c.last() == 61u8 && b64_ignored(61u8));
        assert(b64_sextets(c) == Some(seq![a as u8, b as u8, d as u8]));
        assert(((a * 4 + b / 16) as u8) == x && (((b % 16) * 16 + d / 4) as u8) == y) by (nonlinear_arith)
            requires
                a == x / 4,
                b == (x % 4) * 16 + y / 16,
                d == (y % 16) * 4,
        ;
        assert(bs =~= seq![x, y]);
    } else {
        let x = bs[0];
        let y = bs[1];
        let z = bs[2];
        let a = (x / 4) as int;
        let b = ((x % 4) * 16 + y / 16) as int;
        let d = ((y % 16) * 4 + z / 64) as int;
        let e = (z % 64) as int;
        lemma_std_sextet(a);
        lemma_std_sextet(b);
        lemma_std_sextet(d);
        lemma_std_sextet(e);
        let g = seq![std_b64_byte(a), std_b64_byte(b), std_b64_byte(d), std_b64_byte(e)];
        let sg = seq![a as u8, b as u8, d as u8, e as u8];
        lemma_sextets_of(g, sg);
        law_base64_round_trip(bs.skip(3));
        let rest = std_b64_encode(bs.skip(3));
        let sr = b64_sextets(rest)->0;
        assert(std_b64_encode(bs) == g + rest);
        lemma_sextets_append(g, rest);
        let all = sg + sr;
        lemma_pack_split(all);
        assert(all.take(4) =~= sg);
        assert(all.skip(4) =~= sr);
        assert(((a * 4 + b / 16) as u8) == x && (((b % 16) * 16 + d / 4) as u8) == y && (((d % 4) * 64 + e) as u8)
            == z) by (nonlinear_arith)
            requires
                a == x / 4,
                b == (x % 4) * 16 + y / 16,
                d == (y % 16) * 4 + z / 64,
                e == z % 64,
        ;
        assert(sg.skip(4) =~= Seq::<u8>::empty());
        assert(b64_pack(sg.skip(4)) =~= Seq::<u8>::empty());
        assert(sg[0] as int == a && sg[1] as int == b && sg[2] as int == d && sg[3] as int == e);
        assert(b64_pack(sg) =~= seq![x, y, z]);
        assert(bs =~= seq![x, y, z] + bs.skip(3));
    }
}

fn b64_value_exec(b: u8) -> (r: Option<u8>)
    ensures
        r == b64_value(b),
{
    if 65 <= b && b <= 90 {
        Some(b - 65)
    } else if 97 <= b && b <= 122 {
        Some(b - 97 + 26)
    } else if 48 <= b && b <= 57 {
        Some(b - 48 + 52)
    } else if b == 43 {
        Some(62)
    } else if b == 47 {
        Some(63)
    } else {
        None
    }
}

proof fn lemma_sextets_small(bs: Seq<u8>)
    ensures
        b64_sextets(bs) is Some ==> forall|k: int| 0 <= k < b64_sextets(bs).unwrap().len() ==> b64_sextets(bs).unwrap()[k] < 64,
    decreases bs.len(),
{
    if bs.len() > 0 {
        lemma_sextets_small(bs.drop_last());
    }
}

/// Decode standard base64, ignoring padding and line breaks.
pub fn base64_decode(text: &str) -> (r: Result<Vec<u8>, String>)
    ensures
        match r {
            Ok(v) => b64_sextets(text.spec_bytes()) is Some && v@ == b64_pack(b64_sextets(text.spec_bytes()).unwrap()),
            Err(m) => b64_sextets(text.spec_bytes()) is None && m@ == "rpc_chunk data is not base64"@,
        },
{
    let bytes = text.as_bytes();
    let n = bytes.len();
    let mut sx: Vec<u8> = Vec::new();
    let mut i: usize = 0;
    while i < n
        invariant
            n == bytes@.len(),
            bytes@ == text.spec_bytes(),
            i <= n,
            b64_sextets(bytes@.take(i as int)) == Some(sx@),
        decreases n - i,
    {
        let b = bytes[i];
        assert(bytes@.take(i + 1).drop_last() =~= bytes@.take(i as int));
        if !(b == 61 || b == 13 || b == 10) {
            match b64_value_exec(b) {
                Some(v) => sx.push(v),
                None => {
                    proof {
                        lemma_sextets_none_extends(bytes@, i as int + 1);
                    }
                    return Err(String::from_str("rpc_chunk data is not base64"));
                },
            }
        }
        i = i + 1;
    }
    assert(bytes@.take(n as int) =~= bytes@);
    proof {
        lemma_sextets_small(bytes@);
        assert(b64_sextets(bytes@) == Some(sx@));
        assert forall|k: int| 0 <= k < sx@.len() implies sx@[k] < 64 by {
            assert(b64_sextets(bytes@).unwrap()[k] == sx@[k]);
        }
    }
    let packed = b64_pack_exec(&sx);
    Ok(packed)
}

proof fn lemma_sextets_none_extends(bs: Seq<u8>, i: int)
    requires
        0 <= i <= bs.len(),
        b64_sextets(bs.take(i)) is None,
    ensures
        b64_sextets(bs) is None,
    decreases bs.len() - i,
{
    if i < bs.len() {
        assert(bs.take(i + 1).drop_last() =~= bs.take(i));
        lemma_sextets_none_extends(bs, i + 1);
    } else {
        assert(bs.take(i) =~= bs);
    }
}

fn pack_group(a: u8, b: u8, c: u8, d: u8, len: usize, g: Ghost<Seq<u8>>) -> (r: Vec<u8>)
    requires
        2 <= len <= 4,
        g@.len() == len,
        a < 64 && b < 64 && c < 64 && d < 64,
        g@[0] == a,
        g@[1] == b,
        len > 2 ==> g@[2] == c,
        len > 3 ==> g@[3] == d,
        len <= 2 ==> c == 0,
        len <= 3 ==> d == 0,
    ensures
        r@ == b64_pack(g@),
{
    let mut r: Vec<u8> = Vec::new();
    r.push(a * 4 + b / 16);
    if len > 2 {
        r.push((b % 16) * 16 + c / 4);
    }
    if len > 3 {
        r.push((c % 4) * 64 + d);
    }
    if len == 4 {
        assert(g@.skip(4) =~= Seq::<u8>::empty());
        assert(b64_pack(g@.skip(4)) =~= Seq::<u8>::empty());
    }
    assert(r@ =~= b64_pack(g@));
    r
}

proof fn lemma_pack_step(rest: Seq<u8>, len: int)
    requires
        2 <= len <= 4,
        len <= rest.len(),
        len == 4 || len == rest.len(),
    ensures
        b64_pack(rest) == b64_pack(rest.take(len)) + b64_pack(rest.skip(len)),
{
    if rest.len() > 4 {
        let t = rest.take(4);
        assert(t.skip(4) =~= Seq::<u8>::empty());
        assert(b64_pack(t.skip(4)) =~= Seq::<u8>::empty());
        assert(b64_pack(t) =~= seq![(t[0] * 4 + t[1] / 16) as u8, ((t[1] % 16) * 16 + t[2] / 4) as u8, ((t[2] % 4) * 64 + t[3]) as u8]);
        assert(b64_pack(rest) =~= b64_pack(t) + b64_pack(rest.skip(4)));
    } else {
        assert(rest.take(len) =~= rest);
        assert(rest.skip(len) =~= Seq::<u8>::empty());
        assert(b64_pack(rest.skip(len)) =~= Seq::<u8>::empty());
        assert(b64_pack(rest) + Seq::<u8>::empty() =~= b64_pack(rest));
    }
}

#[verifier::spinoff_prover]
#[verifier::rlimit(30)]
fn b64_pack_exec(s: &Vec<u8>) -> (r: Vec<u8>)
    requires
        forall|k: int| 0 <= k < s@.len() ==> s@[k] < 64,
    ensures
        r@ == b64_pack(s@),
{
    let n = s.len();
    let mut out: Vec<u8> = Vec::new();
    let mut i: usize = 0;
    assert(s@.skip(0) =~= s@);
    while i < n && n - i >= 2
        invariant
            n == s@.len(),
            i <= n,
            forall|k: int| 0 <= k < s@.len() ==> s@[k] < 64,
            b64_pack(s@) == out@ + b64_pack(s@.skip(i as int)),
        decreases n - i,
    {
        let ghost rest = s@.skip(i as int);
        let len: usize = if n - i >= 4 { 4 } else { n - i };
        let a = s[i];
        let b = s[i + 1];
        let c: u8 = if len > 2 { s[i + 2] } else { 0 };
        let d: u8 = if len > 3 { s[i + 3] } else { 0 };
        let ghost g = rest.take(len as int);
        let grp = pack_group(a, b, c, d, len, Ghost(g));
        proof {
            lemma_pack_step(rest, len as int);
            assert(rest.skip(len as int) =~= s@.skip(i + len));
        }
        let ghost old_out = out@;
        let mut grp2 = grp;
        out.append(&mut grp2);
        assert(out@ =~= old_out + b64_pack(g));
        assert(old_out + b64_pack(rest) =~= out@ + b64_pack(s@.skip(i + len)));
        i = i + len;
    }
    proof {
        assert(s@.skip(i as int).len() < 2);
        assert(b64_pack(s@.skip(i as int)) =~= Seq::<u8>::empty());
        assert(out@ + Seq::<u8>::empty() =~= out@);
    }
    out
}

// ---- percent-encoding round trip -------------------------------------------

spec fn ascii_of(cs: Seq<char>) -> Seq<u8> {
    Seq::new(cs.len(), |i: int| cs[i] as u8)
}

proof fn lemma_pct_byte_ascii(b: u8)
    ensures
        is_ascii_chars(pct_byte(b)),
        ascii_of(pct_byte(b)) == (if unreserved(b) {
            seq![b]
        } else {
            seq![37u8, hex_upper((b / 16) as int) as u8, hex_upper((b % 16) as int) as u8]
        }),
{
    assert(ascii_of(pct_byte(b)) =~= (if unreserved(b) {
        seq![b]
    } else {
        seq![37u8, hex_upper((b / 16) as int) as u8, hex_upper((b % 16) as int) as u8]
    }));
}

proof fn lemma_pct_encode_ascii(bs: Seq<u8>)
    ensures
        is_ascii_chars(pct_encode_bytes(bs)),
    decreases bs.len(),
{
    if bs.len() > 0 {
        lemma_pct_encode_ascii(bs.drop_last());
        lemma_pct_byte_ascii(bs.last());
        let a = pct_encode_bytes(bs.drop_last());
        let b = pct_byte(bs.last());
        assert forall|i: int| 0 <= i < (a + b).len() implies '\0' <= #[trigger] (a + b)[i] <= '\u{7f}' by {
            if i < a.len() {
                assert((a + b)[i] == a[i]);
            } else {
                assert((a + b)[i] == b[i - a.len()]);
            }
        }
    }
}

proof fn lemma_decode_shift(z: Seq<u8>, i: int)
    requires
        0 <= i <= z.len(),
    ensures
        pct_decode_from(z, i) == pct_decode_from(z.skip(i), 0),
    decreases z.len() - i,
{
    let t = z.skip(i);
    if i < z.len() {
        lemma_decode_shift(z, i + 1);
        lemma_decode_shift(t, 1);
        assert(t.skip(1) =~= z.skip(i + 1));
        if i + 3 <= z.len() {
            lemma_decode_shift(z, i + 3);
            lemma_decode_shift(t, 3);
            assert(t.skip(3) =~= z.skip(i + 3));
        }
        assert(t[0] == z[i]);
        if t.len() > 2 {
            assert(t[1] == z[i + 1]);
            assert(t[2] == z[i + 2]);
        }
    } else {
        assert(t.len() == 0);
    }
}

proof fn lemma_hex_upper_roundtrip(n: int)
    requires
        0 <= n < 16,
    ensures
        is_hex_byte(hex_upper(n) as u8),
        hex_val(hex_upper(n) as u8) == n,
        hex_upper(n) as u8 != 43,
{
}

proof fn lemma_ascii_pair_utf8(x: u8, y: u8)
    requires
        x < 128,
        y < 128,
    ensures
        valid_utf8(seq![x, y]),
{
    let cs = seq![x as char, y as char];
    assert(is_ascii_chars(cs));
    is_ascii_chars_encode_utf8(cs);
    encode_utf8_valid_utf8(cs);
    assert(encode_utf8(cs) =~= seq![x, y]);
}

proof fn lemma_decode_one(b: u8, y: Seq<u8>)
    ensures
        pct_decode_from(ascii_of(pct_byte(b)) + y, 0) == prepend(seq![b], pct_decode_from(y, 0)),
{
    lemma_pct_byte_ascii(b);
    let e = ascii_of(pct_byte(b));
    let z = e + y;
    if unreserved(b) {
        lemma_decode_shift(z, 1);
        assert(z.skip(1) =~= y);
        assert(z[0] == b);
    } else {
        let h1 = hex_upper((b / 16) as int) as u8;
        let h2 = hex_upper((b % 16) as int) as u8;
        lemma_hex_upper_roundtrip((b / 16) as int);
        lemma_hex_upper_roundtrip((b % 16) as int);
        assert(z[0] == 37u8);
        assert(z[1] == h1);
        assert(z[2] == h2);
        lemma_ascii_pair_utf8(h1, h2);
        assert(hex_pair(h1, h2) == Some(b));
        lemma_decode_shift(z, 3);
        assert(z.skip(3) =~= y);
    }
}

proof fn lemma_decode_encoded(bs: Seq<u8>, y: Seq<u8>)
    ensures
        pct_decode_from(ascii_of(pct_encode_bytes(bs)) + y, 0) == prepend(bs, pct_decode_from(y, 0)),
    decreases bs.len(),
{
    if bs.len() == 0 {
        assert(ascii_of(pct_encode_bytes(bs)) + y =~= y);
        match pct_decode_from(y, 0) {
            Ok(t) => assert(bs + t =~= t),
            Err(_) => {},
        }
    } else {
        let p = bs.drop_last();
        let last = bs.last();
        let e1 = ascii_of(pct_encode_bytes(p));
        let e2 = ascii_of(pct_byte(last));
        assert(ascii_of(pct_encode_bytes(bs)) + y =~= e1 + (e2 + y));
        lemma_decode_encoded(p, e2 + y);
        lemma_decode_one(last, y);
        lemma_prepend_assoc(p, seq![last], pct_decode_from(y, 0));
        assert(p + seq![last] =~= bs);
    }
}

/// Decoding what `percent_encode` produced gives back the original text.
pub proof fn law_percent_roundtrip(s: Seq<char>)
    ensures
        pct_decode(encode_utf8(pct_encode_bytes(encode_utf8(s)))) == Ok::<Seq<char>, Seq<char>>(s),
{
    let bs = encode_utf8(s);
    let e = pct_encode_bytes(bs);
    lemma_pct_encode_ascii(bs);
    is_ascii_chars_encode_utf8(e);
    assert(encode_utf8(e) =~= ascii_of(e));
    lemma_decode_encoded(bs, seq![]);
    assert(ascii_of(e) + Seq::<u8>::empty() =~= ascii_of(e));
    assert(pct_decode_from(Seq::<u8>::empty(), 0) == Ok::<Seq<u8>, PctError>(seq![]));
    assert(bs + Seq::<u8>::empty() =~= bs);
    encode_utf8_valid_utf8(s);
    encode_utf8_decode_utf8(s);
}

} // verus!
