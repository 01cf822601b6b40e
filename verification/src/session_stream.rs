//! A session's byte stream on its way to the pane: reads are coalesced into batches, and
//! each batch is framed with its length and padded to the size the webview takes as a
//! binary body.
use vstd::prelude::*;

verus! {

/// A batch is sent once this many bytes are waiting.
pub const SESSION_CHANNEL_BATCH_BYTES: usize = 16384;

/// The length prefix of a frame.
pub const SESSION_CHANNEL_HEADER_BYTES: usize = 4;

/// The smallest body the webview takes on its binary path.
pub const TAURI_RAW_FETCH_MIN_BYTES: usize = 1024;

// ---- framing ----------------------------------------------------------------------

/// `u32::to_le_bytes`.
pub open spec fn le32(x: u32) -> Seq<u8> {
    seq![(x & 0xff) as u8, ((x >> 8u32) & 0xff) as u8, ((x >> 16u32) & 0xff) as u8, ((x >> 24u32) & 0xff) as u8]
}

/// `u32::from_le_bytes` of the first four bytes.
pub open spec fn le32_value(h: Seq<u8>) -> u32 {
    (h[0] as u32) | ((h[1] as u32) << 8u32) | ((h[2] as u32) << 16u32) | ((h[3] as u32) << 24u32)
}

/// `n` zero bytes.
pub open spec fn zeros(n: nat) -> Seq<u8> {
    Seq::new(n, |i: int| 0u8)
}

/// A batch as sent: its length, little-endian, then the bytes, zero-padded to at least
/// the binary minimum.
pub open spec fn framed(b: Seq<u8>) -> Seq<u8> {
    let body = le32(b.len() as u32) + b;
    if body.len() >= TAURI_RAW_FETCH_MIN_BYTES {
        body
    } else {
        body + zeros((TAURI_RAW_FETCH_MIN_BYTES - body.len()) as nat)
    }
}

/// What the pane takes out of a frame: as many bytes as the prefix says.
pub open spec fn unframed(f: Seq<u8>) -> Seq<u8> {
    f.subrange(4, 4 + le32_value(f.take(4)))
}

/// Frame one batch; see [`framed`]. A batch is never longer than a `u32` counts.
pub fn frame_session_channel_bytes(bytes: Vec<u8>) -> (r: Vec<u8>)
    requires
        bytes@.len() <= u32::MAX,
    ensures
        r@ == framed(bytes@),
{
    let ghost b = bytes@;
    let n = bytes.len() as u32;
    let mut out: Vec<u8> = Vec::new();
    out.push((n & 0xff) as u8);
    out.push(((n >> 8u32) & 0xff) as u8);
    out.push(((n >> 16u32) & 0xff) as u8);
    out.push(((n >> 24u32) & 0xff) as u8);
    assert(out@ =~= le32(b.len() as u32));
    let mut rest = bytes;
    out.append(&mut rest);
    let ghost body = le32(b.len() as u32) + b;
    assert(out@ =~= body);
    let body_len = out.len();
    while out.len() < TAURI_RAW_FETCH_MIN_BYTES
        invariant
            body.len() == body_len,
            body_len <= out@.len(),
            out@ =~= body + zeros((out@.len() - body_len) as nat),
            body_len < TAURI_RAW_FETCH_MIN_BYTES ==> out@.len() <= TAURI_RAW_FETCH_MIN_BYTES,
            body_len >= TAURI_RAW_FETCH_MIN_BYTES ==> out@.len() == body_len,
        decreases TAURI_RAW_FETCH_MIN_BYTES - out@.len(),
    {
        out.push(0u8);
        assert(out@ =~= body + zeros((out@.len() - body_len) as nat));
    }
    proof {
        if body_len >= TAURI_RAW_FETCH_MIN_BYTES {
            assert(zeros(0) =~= Seq::<u8>::empty());
            assert(out@ =~= body);
        }
    }
    out
}

proof fn lemma_le32_roundtrip(x: u32)
    ensures
        le32_value(le32(x)) == x,
{
    let s = le32(x);
    assert(s[0] == (x & 0xff) as u8);
    assert(s[1] == ((x >> 8u32) & 0xff) as u8);
    assert(s[2] == ((x >> 16u32) & 0xff) as u8);
    assert(s[3] == ((x >> 24u32) & 0xff) as u8);
    assert((((x & 0xff) as u8) as u32) | (((((x >> 8u32) & 0xff) as u8) as u32) << 8u32) | (((((x >> 16u32) & 0xff)
        as u8) as u32) << 16u32) | (((((x >> 24u32) & 0xff) as u8) as u32) << 24u32) == x) by (bit_vector);
}

/// The pane gets back exactly the batch that was framed, and a frame is never shorter
/// than the binary minimum.
pub proof fn law_frame_roundtrip(b: Seq<u8>)
    requires
        b.len() <= u32::MAX,
    ensures
        unframed(framed(b)) == b,
        framed(b).len() == if 4 + b.len() >= TAURI_RAW_FETCH_MIN_BYTES {
            4 + b.len() as int
        } else {
            TAURI_RAW_FETCH_MIN_BYTES as int
        },
{
    let f = framed(b);
    let h = le32(b.len() as u32);
    assert(f.take(4) =~= h);
    lemma_le32_roundtrip(b.len() as u32);
    assert(f.subrange(4, 4 + b.len() as int) =~= b);
}

// ---- batching -----------------------------------------------------------------------

/// What the stream did: bytes arrived, a read timed out with nothing new, or the stream
/// ended (closed or failed).
pub enum StreamEvent {
    Read(Vec<u8>),
    Idle,
    Closed,
}

/// What to do next: send this batch (if any), and whether to stop reading.
pub struct PumpStep {
    pub send: Option<Vec<u8>>,
    pub stop: bool,
}

pub open spec fn event_bytes(e: StreamEvent) -> Seq<u8> {
    match e {
        StreamEvent::Read(b) => b@,
        _ => seq![],
    }
}

/// The waiting bytes after an event, the batch it sends, and whether reading stops. A
/// read is held until a batch's worth waits; a quiet read interval or the end of the
/// stream sends whatever waits.
pub open spec fn step_spec(pending: Seq<u8>, e: StreamEvent) -> (Seq<u8>, Option<Seq<u8>>, bool) {
    match e {
        StreamEvent::Read(b) => {
            let p = pending + b@;
            if p.len() >= SESSION_CHANNEL_BATCH_BYTES {
                (seq![], Some(p), false)
            } else {
                (p, None, false)
            }
        },
        StreamEvent::Idle => if pending.len() > 0 {
            (seq![], Some(pending), false)
        } else {
            (pending, None, false)
        },
        StreamEvent::Closed => (
            seq![],
            if pending.len() > 0 {
                Some(pending)
            } else {
                None
            },
            true,
        ),
    }
}

pub open spec fn sent_view(s: Option<Vec<u8>>) -> Option<Seq<u8>> {
    match s {
        Some(b) => Some(b@),
        None => None,
    }
}

/// One event of the stream; see [`step_spec`].
pub fn pump_step(pending: &mut Vec<u8>, event: StreamEvent) -> (r: PumpStep)
    ensures
        (final(pending)@, sent_view(r.send), r.stop) == step_spec(old(pending)@, event),
{
    match event {
        StreamEvent::Read(b) => {
            let mut b = b;
            pending.append(&mut b);
            if pending.len() >= SESSION_CHANNEL_BATCH_BYTES {
                let mut batch: Vec<u8> = Vec::new();
                std::mem::swap(&mut batch, pending);
                PumpStep { send: Some(batch), stop: false }
            } else {
                PumpStep { send: None, stop: false }
            }
        },
        StreamEvent::Idle => if pending.len() > 0 {
            let mut batch: Vec<u8> = Vec::new();
            std::mem::swap(&mut batch, pending);
            PumpStep { send: Some(batch), stop: false }
        } else {
            PumpStep { send: None, stop: false }
        },
        StreamEvent::Closed => {
            let mut batch: Vec<u8> = Vec::new();
            std::mem::swap(&mut batch, pending);
            if batch.len() > 0 {
                PumpStep { send: Some(batch), stop: true }
            } else {
                PumpStep { send: None, stop: true }
            }
        },
    }
}

pub open spec fn sent_bytes(s: Option<Seq<u8>>) -> Seq<u8> {
    match s {
        Some(b) => b,
        None => seq![],
    }
}

/// A stream's events taken in turn: everything sent so far, and what still waits.
pub open spec fn run(events: Seq<StreamEvent>) -> (Seq<u8>, Seq<u8>)
    decreases events.len(),
{
    if events.len() == 0 {
        (seq![], seq![])
    } else {
        let prev = run(events.drop_last());
        let step = step_spec(prev.1, events.last());
        (prev.0 + sent_bytes(step.1), step.0)
    }
}

/// Every byte the stream gave, in order.
pub open spec fn read_bytes(events: Seq<StreamEvent>) -> Seq<u8>
    decreases events.len(),
{
    if events.len() == 0 {
        seq![]
    } else {
        read_bytes(events.drop_last()) + event_bytes(events.last())
    }
}

/// Batching loses, duplicates and reorders nothing: what was sent, followed by what
/// waits, is what was read.
pub proof fn law_pump_keeps_every_byte(events: Seq<StreamEvent>)
    ensures
        run(events).0 + run(events).1 == read_bytes(events),
    decreases events.len(),
{
    if events.len() > 0 {
        law_pump_keeps_every_byte(events.drop_last());
        let prev = run(events.drop_last());
        let e = events.last();
        match e {
            StreamEvent::Read(b) => {
                assert(prev.0 + (prev.1 + b@) =~= prev.0 + prev.1 + b@);
                assert(prev.0 + (prev.1 + b@) + Seq::<u8>::empty() =~= prev.0 + (prev.1 + b@));
            },
            StreamEvent::Idle => {
                assert(prev.0 + prev.1 + Seq::<u8>::empty() =~= prev.0 + prev.1);
                assert(prev.0 + Seq::<u8>::empty() =~= prev.0);
            },
            StreamEvent::Closed => {
                assert(prev.0 + prev.1 + Seq::<u8>::empty() =~= prev.0 + prev.1);
                assert(prev.0 + Seq::<u8>::empty() =~= prev.0);
            },
        }
    }
}

/// When the stream ends, nothing is left waiting: everything read has been sent.
pub proof fn law_close_flushes(events: Seq<StreamEvent>)
    requires
        events.len() > 0,
        events.last() is Closed,
    ensures
        run(events).1.len() == 0,
        run(events).0 == read_bytes(events),
{
    law_pump_keeps_every_byte(events);
    assert(run(events).0 + run(events).1 =~= run(events).0);
}

} // verus!
