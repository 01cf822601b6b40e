//! The Orbitron manager agent's side of the OMP stdio protocol: reassembly of chunked
//! frames, the child's environment, the board tools it is offered, and log sanitising.
use vstd::prelude::*;
use vstd::utf8::*;
use crate::codec::{b64_pack, b64_sextets, base64_decode};
use crate::json::{bool_field, str_field, u64_field, Json};
use crate::text::{chars_of, owned, replace_all, replace_all_exec, str_eq, string_of};

verus! {

broadcast use vstd::seq_lib::group_seq_properties;

/// The largest object a chunk sequence may reassemble.
pub open spec fn max_reassembled() -> nat {
    67108864
}

/// A frame the decoder hands on: one that arrived whole, or the text of a reassembled
/// object, which the caller reads as JSON.
pub enum RpcPayload {
    Frame(Json),
    Text(String),
}

/// Reassembles `rpc_chunk` sequences; any other frame passes straight through.
pub struct RpcFrameDecoder {
    pub chunk_id: Option<String>,
    pub next_index: usize,
    pub count: usize,
    pub byte_length: usize,
    pub buf: Vec<u8>,
}

/// No sequence in progress.
pub open spec fn is_idle(d: RpcFrameDecoder) -> bool {
    d.chunk_id is None && d.next_index == 0 && d.count == 0 && d.byte_length == 0 && d.buf@.len() == 0
}

/// Between frames: idle, or in a sequence with chunks still to come (or one whose
/// first chunk was refused).
pub open spec fn decoder_wf(d: RpcFrameDecoder) -> bool {
    is_idle(d) || (d.chunk_id is Some && (d.next_index < d.count || d.next_index == 0))
}

/// The same sequence state.
pub open spec fn same_state(a: RpcFrameDecoder, b: RpcFrameDecoder) -> bool {
    a.chunk_id == b.chunk_id && a.next_index == b.next_index && a.count == b.count && a.byte_length == b.byte_length
        && a.buf@ == b.buf@
}

/// A chunk member as a `usize`.
pub open spec fn usize_field(frame: Json, name: Seq<char>) -> Option<usize> {
    match u64_field(frame, name) {
        Some(n) => Some(n as usize),
        None => None,
    }
}

/// Whether all five members of a chunk are present, and if not, which is missing first.
pub open spec fn missing_member(frame: Json) -> Option<Seq<char>> {
    if str_field(frame, "chunkId"@) is None {
        Some("rpc_chunk without chunkId"@)
    } else if usize_field(frame, "index"@) is None {
        Some("rpc_chunk without index"@)
    } else if usize_field(frame, "count"@) is None {
        Some("rpc_chunk without count"@)
    } else if usize_field(frame, "byteLength"@) is None {
        Some("rpc_chunk without byteLength"@)
    } else if str_field(frame, "data"@) is None {
        Some("rpc_chunk without data"@)
    } else {
        None
    }
}

/// The sequence state once a well-formed chunk is taken in: index 0 starts a new
/// sequence.
pub open spec fn started(old: RpcFrameDecoder, frame: Json, d: RpcFrameDecoder) -> bool {
    if usize_field(frame, "index"@)->0 == 0 {
        opt_view(d.chunk_id) == str_field(frame, "chunkId"@) && d.next_index == 0 && d.count == usize_field(
            frame,
            "count"@,
        )->0 && d.byte_length == usize_field(frame, "byteLength"@)->0 && d.buf@.len() == 0
    } else {
        same_state(d, old)
    }
}

pub open spec fn opt_view(s: Option<String>) -> Option<Seq<char>> {
    match s {
        Some(t) => Some(t@),
        None => None,
    }
}

/// The chunk continues the sequence `s`.
pub open spec fn continues(s: RpcFrameDecoder, frame: Json) -> bool {
    opt_view(s.chunk_id) == str_field(frame, "chunkId"@) && usize_field(frame, "index"@) == Some(s.next_index)
        && usize_field(frame, "count"@) == Some(s.count) && usize_field(frame, "byteLength"@) == Some(s.byte_length)
}

/// The bytes a chunk's `data` carries, when it is base64.
pub open spec fn chunk_bytes(frame: Json) -> Option<Seq<u8>> {
    match b64_sextets(encode_utf8(str_field(frame, "data"@)->0)) {
        Some(s) => Some(b64_pack(s)),
        None => None,
    }
}

fn usize_field_exec(frame: &Json, name: &str) -> (r: Option<usize>)
    ensures
        r == usize_field(*frame, name@),
{
    match crate::json::u64_field_exec(frame, name) {
        Some(n) => Some(n as usize),
        None => None,
    }
}

impl RpcFrameDecoder {
    pub fn new() -> (r: Self)
        ensures
            is_idle(r),
    {
        RpcFrameDecoder { chunk_id: None, next_index: 0, count: 0, byte_length: 0, buf: Vec::new() }
    }

    fn reset(&mut self)
        ensures
            is_idle(*final(self)),
    {
        self.chunk_id = None;
        self.next_index = 0;
        self.count = 0;
        self.byte_length = 0;
        self.buf = Vec::new();
    }

    /// Take one frame. `Ok(None)`: a chunk was absorbed and the object is incomplete.
    /// A frame out of order, a sequence over the limit, or a completed sequence whose
    /// length or encoding is wrong ends the sequence with an error; a chunk that lacks a
    /// member, or whose data is not base64, is refused and leaves the sequence as it was.
    pub fn feed(&mut self, frame: Json) -> (r: Result<Option<RpcPayload>, String>)
        requires
            decoder_wf(*old(self)),
        ensures
            decoder_wf(*final(self)),
            str_field(frame, "type"@) != Some("rpc_chunk"@) ==> if old(self).chunk_id is Some {
                is_idle(*final(self)) && (r matches Err(e) && e@ == "interleaved frame inside an rpc_chunk sequence"@)
            } else {
                same_state(*final(self), *old(self)) && (r matches Ok(Some(RpcPayload::Frame(f))) && f == frame)
            },
            str_field(frame, "type"@) == Some("rpc_chunk"@) && missing_member(frame) is Some ==> same_state(
                *final(self),
                *old(self),
            ) && (r matches Err(e) && Some(e@) == missing_member(frame)),
            str_field(frame, "type"@) == Some("rpc_chunk"@) && missing_member(frame) is None ==> {
                let index = usize_field(frame, "index"@)->0;
                let bl = usize_field(frame, "byteLength"@)->0;
                let count = usize_field(frame, "count"@)->0;
                let continuing = index != 0 ==> continues(*old(self), frame);
                if !continuing {
                    is_idle(*final(self)) && (r matches Err(e) && e@ == "interrupted rpc_chunk sequence"@)
                } else if bl > max_reassembled() {
                    is_idle(*final(self)) && (r matches Err(e) && e@
                        == "rpc_chunk sequence over the reassembly limit"@)
                } else if chunk_bytes(frame) is None {
                    started(*old(self), frame, *final(self)) && (r matches Err(e) && e@
                        == "rpc_chunk data is not base64"@)
                } else {
                    let prior = if index == 0 {
                        Seq::<u8>::empty()
                    } else {
                        old(self).buf@
                    };
                    let bytes = prior + chunk_bytes(frame)->0;
                    if index + 1 < count {
                        opt_view(final(self).chunk_id) == str_field(frame, "chunkId"@) && final(self).next_index
                            == index + 1 && final(self).count == count && final(self).byte_length == bl
                            && final(self).buf@ == bytes && r matches Ok(None)
                    } else if bytes.len() != bl {
                        is_idle(*final(self)) && (r matches Err(e) && e@ == "rpc_chunk byteLength mismatch"@)
                    } else if !valid_utf8(bytes) {
                        is_idle(*final(self)) && (r matches Err(e) && e@ == "rpc_chunk payload is not UTF-8"@)
                    } else {
                        is_idle(*final(self)) && (r matches Ok(Some(RpcPayload::Text(t))) && t@ == decode_utf8(
                            bytes,
                        ))
                    }
                }
            },
    {
        let is_chunk = match crate::json::str_field_exec(&frame, "type") {
            Some(t) => str_eq(t.as_str(), "rpc_chunk"),
            None => false,
        };
        if !is_chunk {
            if self.chunk_id.is_some() {
                self.reset();
                return Err(owned("interleaved frame inside an rpc_chunk sequence"));
            }
            return Ok(Some(RpcPayload::Frame(frame)));
        }
        let id = match crate::json::str_field_exec(&frame, "chunkId") {
            Some(id) => id,
            None => {
                return Err(owned("rpc_chunk without chunkId"));
            },
        };
        let index = match usize_field_exec(&frame, "index") {
            Some(n) => n,
            None => {
                return Err(owned("rpc_chunk without index"));
            },
        };
        let count = match usize_field_exec(&frame, "count") {
            Some(n) => n,
            None => {
                return Err(owned("rpc_chunk without count"));
            },
        };
        let byte_length = match usize_field_exec(&frame, "byteLength") {
            Some(n) => n,
            None => {
                return Err(owned("rpc_chunk without byteLength"));
            },
        };
        let data = match crate::json::str_field_exec(&frame, "data") {
            Some(d) => d,
            None => {
                return Err(owned("rpc_chunk without data"));
            },
        };
        if index == 0 {
            self.reset();
            self.chunk_id = Some(owned(id.as_str()));
            self.count = count;
            self.byte_length = byte_length;
        }
        let same_id = match &self.chunk_id {
            Some(current) => str_eq(current.as_str(), id.as_str()),
            None => false,
        };
        if !same_id || index != self.next_index || count != self.count || byte_length != self.byte_length {
            self.reset();
            return Err(owned("interrupted rpc_chunk sequence"));
        }
        if byte_length > 67108864 {
            self.reset();
            return Err(owned("rpc_chunk sequence over the reassembly limit"));
        }
        let decoded = match base64_decode(data.as_str()) {
            Ok(b) => b,
            Err(e) => {
                return Err(e);
            },
        };
        let mut k: usize = 0;
        let ghost before = self.buf@;
        while k < decoded.len()
            invariant
                k <= decoded@.len(),
                self.buf@ == before + decoded@.take(k as int),
                self.next_index == index,
                self.count == count,
                self.byte_length == byte_length,
                opt_view(self.chunk_id) == Some(id@),
                index == 0 || index < count,
                before == (if index == 0 {
                    Seq::<u8>::empty()
                } else {
                    old(self).buf@
                }),
            decreases decoded@.len() - k,
        {
            self.buf.push(decoded[k]);
            assert(decoded@.take(k + 1) =~= decoded@.take(k as int).push(decoded@[k as int]));
            k = k + 1;
        }
        assert(decoded@.take(k as int) =~= decoded@);
        self.next_index = self.next_index + 1;
        if self.next_index < count {
            return Ok(None);
        }
        let mut bytes: Vec<u8> = Vec::new();
        std::mem::swap(&mut bytes, &mut self.buf);
        self.reset();
        if bytes.len() != byte_length {
            return Err(owned("rpc_chunk byteLength mismatch"));
        }
        match crate::codec::string_from_utf8(bytes) {
            Ok(text) => Ok(Some(RpcPayload::Text(text))),
            Err(_) => Err(owned("rpc_chunk payload is not UTF-8")),
        }
    }
}

/// A log line with the key's name and the key itself masked.
pub open spec fn sanitized(text: Seq<char>, key: Option<Seq<char>>) -> Seq<char> {
    let out = replace_all(text, "XAI_API_KEY="@, "***"@);
    match key {
        Some(k) => if k.len() > 0 {
            replace_all(out, k, "***"@)
        } else {
            out
        },
        None => out,
    }
}

pub fn sanitize_text(text: &str, key: Option<&str>) -> (r: String)
    ensures
        r@ == sanitized(
            text@,
            match key {
                Some(k) => Some(k@),
                None => None,
            },
        ),
{
    let v = chars_of(text);
    let pat = chars_of("XAI_API_KEY=");
    let stars = chars_of("***");
    proof {
        reveal_strlit("XAI_API_KEY=");
    }
    let mut out = replace_all_exec(&v, pat.as_slice(), stars.as_slice());
    match key {
        Some(k) => {
            if k.unicode_len() > 0 {
                let kv = chars_of(k);
                out = replace_all_exec(&out, kv.as_slice(), stars.as_slice());
            }
        },
        None => {},
    }
    string_of(out.as_slice())
}

/// The child's environment: the parent's without any xAI credential or `PATH`, then the
/// login shell's `PATH` and the key.
pub open spec fn spawn_env_spec(parent: Seq<(String, String)>, key: Seq<char>, path: Seq<char>) -> Seq<(Seq<char>, Seq<char>)> {
    kept_env(parent) + seq![("PATH"@, path), ("XAI_API_KEY"@, key)]
}

/// The parent's variables other than the xAI credentials and `PATH`, in order.
pub open spec fn kept_env(parent: Seq<(String, String)>) -> Seq<(Seq<char>, Seq<char>)>
    decreases parent.len(),
{
    if parent.len() == 0 {
        seq![]
    } else {
        let rest = kept_env(parent.drop_last());
        let (k, v) = parent.last();
        if k@ != "XAI_OAUTH_TOKEN"@ && k@ != "XAI_API_KEY"@ && k@ != "PATH"@ {
            rest.push((k@, v@))
        } else {
            rest
        }
    }
}

pub open spec fn env_views(v: Seq<(String, String)>) -> Seq<(Seq<char>, Seq<char>)> {
    v.map_values(|p: (String, String)| (p.0@, p.1@))
}

/// The environment for the agent child; `login_path` is the login shell's `PATH`.
pub fn orbitron_spawn_env(parent: &Vec<(String, String)>, key: &str, login_path: String) -> (r: Vec<(String, String)>)
    ensures
        env_views(r@) == spawn_env_spec(parent@, key@, login_path@),
{
    let mut out: Vec<(String, String)> = Vec::new();
    let mut i: usize = 0;
    assert(parent@.take(0) =~= Seq::<(String, String)>::empty());
    assert(env_views(out@) =~= Seq::<(Seq<char>, Seq<char>)>::empty());
    while i < parent.len()
        invariant
            i <= parent@.len(),
            env_views(out@) == kept_env(parent@.take(i as int)),
        decreases parent@.len() - i,
    {
        assert(parent@.take(i + 1).drop_last() =~= parent@.take(i as int));
        assert(parent@.take(i + 1).last() == parent@[i as int]);
        let k = parent[i].0.as_str();
        if !str_eq(k, "XAI_OAUTH_TOKEN") && !str_eq(k, "XAI_API_KEY") && !str_eq(k, "PATH") {
            let ghost before = env_views(out@);
            out.push((owned(k), owned(parent[i].1.as_str())));
            assert(env_views(out@) =~= before.push((parent@[i as int].0@, parent@[i as int].1@)));
        }
        i = i + 1;
    }
    assert(parent@.take(i as int) =~= parent@);
    let ghost kept = env_views(out@);
    out.push((owned("PATH"), login_path));
    out.push((owned("XAI_API_KEY"), owned(key)));
    assert(env_views(out@) =~= kept + seq![("PATH"@, login_path@), ("XAI_API_KEY"@, key@)]);
    out
}

/// The config overlay written for the agent's OMP profile.
pub fn orbitron_config_overlay() -> (r: String)
    ensures
        r@ == "mcp:\n  enableProjectConfig: false\ncompaction:\n  enabled: true\n"@,
{
    owned("mcp:\n  enableProjectConfig: false\ncompaction:\n  enabled: true\n")
}

/// How the agent may change the board.
#[derive(Clone, Copy, PartialEq, Eq, Structural)]
pub enum CanvasEditMode {
    AutoEdit,
    ReadOnly,
    RequestApproval,
}

/// Every host tool, in the order they are offered.
pub open spec fn all_host_tools() -> Seq<Seq<char>> {
    seq![
        "board_get"@,
        "concept_create"@,
        "concept_rename"@,
        "concept_delete"@,
        "task_place"@,
        "task_unplace"@,
        "task_tag"@,
        "task_untag"@,
        "relation_upsert"@,
        "relation_delete"@,
        "board_arrange"@,
    ]
}

/// The tools offered in a mode: read-only gets only `board_get`.
pub open spec fn host_tools_for(mode: CanvasEditMode) -> Seq<Seq<char>> {
    match mode {
        CanvasEditMode::ReadOnly => seq!["board_get"@],
        _ => all_host_tools(),
    }
}

pub fn host_tool_names(mode: CanvasEditMode) -> (r: Vec<&'static str>)
    ensures
        r@.map_values(|s: &str| s@) == host_tools_for(mode),
{
    let mut v: Vec<&'static str> = Vec::new();
    v.push("board_get");
    match mode {
        CanvasEditMode::ReadOnly => {},
        _ => {
            v.push("concept_create");
            v.push("concept_rename");
            v.push("concept_delete");
            v.push("task_place");
            v.push("task_unplace");
            v.push("task_tag");
            v.push("task_untag");
            v.push("relation_upsert");
            v.push("relation_delete");
            v.push("board_arrange");
        },
    }
    assert(v@.map_values(|s: &str| s@) =~= host_tools_for(mode));
    v
}

/// A board-change result arriving for a call nobody holds, from a view that is gone, is
/// refused.
pub fn detached_write_error(attached: bool, pending: bool) -> (r: Option<&'static str>)
    ensures
        match r {
            Some(m) => !pending && !attached && m@
                == "The board isn't open. Return to Orbitron View to apply board changes."@,
            None => pending || attached,
        },
{
    if !pending && !attached {
        Some("The board isn't open. Return to Orbitron View to apply board changes.")
    } else {
        None
    }
}

} // verus!
