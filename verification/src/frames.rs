//! Length-prefixed framing of the log file: four little-endian bytes, then that many bytes.

use vstd::bytes::{u32_from_le_bytes, u32_to_le_bytes};
use vstd::prelude::*;
use vstd::slice::slice_subrange;

verus! {

/// The most bytes that one frame can carry.
pub const MAX_FRAME: u64 = 0xffff_ffff;

/// One frame: the length of `raw` in four little-endian bytes, then `raw`.
pub open spec fn frame(raw: Seq<u8>) -> Seq<u8> {
    vstd::bytes::spec_u32_to_le_bytes(raw.len() as u32) + raw
}

/// The frames of `raws`, one after the other.
pub open spec fn frames(raws: Seq<Seq<u8>>) -> Seq<u8>
    decreases raws.len(),
{
    if raws.len() == 0 {
        Seq::empty()
    } else {
        frames(raws.drop_last()) + frame(raws.last())
    }
}

/// Every one of `raws` fits a frame.
pub open spec fn all_fit(raws: Seq<Seq<u8>>) -> bool {
    forall|i: int| 0 <= i < raws.len() ==> (#[trigger] raws[i]).len() <= MAX_FRAME
}

/// How the bytes after the last whole frame look.
#[derive(Clone, Copy, Debug, PartialEq, Eq, Structural)]
pub enum FrameTail {
    /// Nothing is left.
    Clean,
    /// A length prefix promises more bytes than there are; `at` is where they start.
    Truncated { at: usize },
    /// Fewer bytes are left than a length prefix has.
    Trailing { count: usize },
}

/// A file's bytes taken apart: the whole frames in order, and what follows them.
#[derive(Debug)]
pub struct FrameScan {
    pub frames: Vec<Vec<u8>>,
    pub tail: FrameTail,
}

/// The length that the prefix at `off` gives.
pub open spec fn prefix_at(bytes: Seq<u8>, off: int) -> nat {
    vstd::bytes::spec_u32_from_le_bytes(bytes.subrange(off, off + 4)) as nat
}

/// A whole frame starts at `off`.
pub open spec fn whole_frame_at(bytes: Seq<u8>, off: int) -> bool {
    off + 4 <= bytes.len() && off + 4 + prefix_at(bytes, off) <= bytes.len()
}

/// What the frame at `off` carries.
pub open spec fn payload_at(bytes: Seq<u8>, off: int) -> Seq<u8> {
    bytes.subrange(off + 4, off + 4 + prefix_at(bytes, off))
}

/// The payloads of the whole frames from `off` on.
pub open spec fn payloads_from(bytes: Seq<u8>, off: int) -> Seq<Seq<u8>>
    decreases bytes.len() - off,
{
    if 0 <= off && whole_frame_at(bytes, off) {
        seq![payload_at(bytes, off)] + payloads_from(bytes, off + 4 + prefix_at(bytes, off))
    } else {
        Seq::empty()
    }
}

/// What follows the whole frames from `off` on.
pub open spec fn tail_from(bytes: Seq<u8>, off: int) -> FrameTail
    decreases bytes.len() - off,
{
    if 0 <= off && whole_frame_at(bytes, off) {
        tail_from(bytes, off + 4 + prefix_at(bytes, off))
    } else if off + 4 <= bytes.len() {
        FrameTail::Truncated { at: (off + 4) as usize }
    } else if off == bytes.len() {
        FrameTail::Clean
    } else {
        FrameTail::Trailing { count: (bytes.len() - off) as usize }
    }
}

/// The views of the frames that a scan found.
pub open spec fn views(v: Seq<Vec<u8>>) -> Seq<Seq<u8>> {
    v.map_values(|x: Vec<u8>| x@)
}

/// Appends the frame of `raw` to `buf`; `false`, with `buf` unchanged, where `raw` is too long.
pub fn push_frame(buf: &mut Vec<u8>, raw: &Vec<u8>) -> (ok: bool)
    ensures
        ok == (raw@.len() <= MAX_FRAME),
        ok ==> final(buf)@ == old(buf)@ + frame(raw@),
        !ok ==> final(buf)@ == old(buf)@,
{
    let len: u64 = raw.len() as u64;
    if len > MAX_FRAME {
        return false;
    }
    let mut prefix = u32_to_le_bytes(len as u32);
    buf.append(&mut prefix);
    buf.extend_from_slice(raw.as_slice());
    assert(buf@ =~= old(buf)@ + frame(raw@));
    true
}

/// Takes `bytes` apart into frames.
pub fn split_frames(bytes: &[u8]) -> (r: FrameScan)
    ensures
        views(r.frames@) == payloads_from(bytes@, 0),
        r.tail == tail_from(bytes@, 0),
{
    let mut out: Vec<Vec<u8>> = Vec::new();
    let mut off: usize = 0;
    let total: usize = bytes.len();
    proof {
        assert(views(out@) =~= Seq::<Seq<u8>>::empty());
        assert(views(out@) + payloads_from(bytes@, 0) =~= payloads_from(bytes@, 0));
    }
    while total - off >= 4
        invariant
            total == bytes@.len(),
            off <= total,
            views(out@) + payloads_from(bytes@, off as int) == payloads_from(bytes@, 0),
            tail_from(bytes@, off as int) == tail_from(bytes@, 0),
        decreases total - off,
    {
        let len: u64 = u32_from_le_bytes(slice_subrange(bytes, off, off + 4)) as u64;
        let start: usize = off + 4;
        if len > (total - start) as u64 {
            assert(views(out@) =~= views(out@) + payloads_from(bytes@, off as int));
            return FrameScan { frames: out, tail: FrameTail::Truncated { at: start } };
        }
        let end: usize = start + len as usize;
        let mut one: Vec<u8> = Vec::new();
        one.extend_from_slice(slice_subrange(bytes, start, end));
        assert(one@ =~= payload_at(bytes@, off as int));
        let ghost before = out@;
        out.push(one);
        assert(views(out@) =~= views(before).push(one@));
        assert(views(before) + payloads_from(bytes@, off as int) =~= views(out@) + payloads_from(
            bytes@,
            end as int,
        ));
        off = end;
    }
    assert(views(out@) =~= views(out@) + payloads_from(bytes@, off as int));
    if off == total {
        FrameScan { frames: out, tail: FrameTail::Clean }
    } else {
        FrameScan { frames: out, tail: FrameTail::Trailing { count: total - off } }
    }
}

/// Scanning from `off` sees only the bytes from `off` on.
proof fn lemma_shift(a: Seq<u8>, b: Seq<u8>, off: int)
    requires
        0 <= off,
    ensures
        payloads_from(a + b, a.len() + off) == payloads_from(b, off),
    decreases b.len() - off,
{
    let t = a + b;
    if off + 4 <= b.len() {
        assert(t.subrange(a.len() + off, a.len() + off + 4) =~= b.subrange(off, off + 4));
        if whole_frame_at(b, off) {
            let next = off + 4 + prefix_at(b, off);
            assert(payload_at(t, a.len() + off) =~= payload_at(b, off));
            lemma_shift(a, b, next);
        }
    }
}

/// The tail of a scan from `off` sees only the bytes from `off` on, but for its position.
proof fn lemma_shift_clean(a: Seq<u8>, b: Seq<u8>, off: int)
    requires
        0 <= off <= b.len(),
    ensures
        tail_from(a + b, a.len() + off) is Clean <==> tail_from(b, off) is Clean,
        tail_from(a + b, a.len() + off) is Truncated <==> tail_from(b, off) is Truncated,
    decreases b.len() - off,
{
    let t = a + b;
    if off + 4 <= b.len() {
        assert(t.subrange(a.len() + off, a.len() + off + 4) =~= b.subrange(off, off + 4));
        if whole_frame_at(b, off) {
            lemma_shift_clean(a, b, off + 4 + prefix_at(b, off));
        }
    }
}

/// Bytes that scan clean scan the same with more bytes behind them, whose frames follow.
proof fn lemma_append_from(a: Seq<u8>, b: Seq<u8>, off: int)
    requires
        0 <= off <= a.len(),
        tail_from(a, off) is Clean,
    ensures
        payloads_from(a + b, off) == payloads_from(a, off) + payloads_from(b, 0),
        tail_from(a + b, off) is Clean <==> tail_from(b, 0) is Clean,
        tail_from(a + b, off) is Truncated <==> tail_from(b, 0) is Truncated,
    decreases a.len() - off,
{
    let t = a + b;
    if whole_frame_at(a, off) {
        assert(t.subrange(off, off + 4) =~= a.subrange(off, off + 4));
        assert(payload_at(t, off) =~= payload_at(a, off));
        lemma_append_from(a, b, off + 4 + prefix_at(a, off));
        assert(payloads_from(t, off) =~= payloads_from(a, off) + payloads_from(b, 0));
    } else {
        assert(off == a.len());
        lemma_shift(a, b, 0);
        lemma_shift_clean(a, b, 0);
        assert(payloads_from(a, off) + payloads_from(b, 0) =~= payloads_from(b, 0));
    }
}

/// The tail of bytes behind a clean file is that of a scan from its end.
pub proof fn lemma_tail_behind(a: Seq<u8>, b: Seq<u8>, off: int)
    requires
        0 <= off <= a.len(),
        tail_from(a, off) is Clean,
    ensures
        tail_from(a + b, off) == tail_from(a + b, a.len() as int),
    decreases a.len() - off,
{
    if whole_frame_at(a, off) {
        let next = off + 4 + prefix_at(a, off);
        assert((a + b).subrange(off, off + 4) =~= a.subrange(off, off + 4));
        assert(prefix_at(a + b, off) == prefix_at(a, off));
        assert(tail_from(a, off) == tail_from(a, next));
        lemma_tail_behind(a, b, next);
    }
}

/// What is appended to a clean file is read after what the file held, and changes none of it.
pub proof fn law_append_reads_after(a: Seq<u8>, b: Seq<u8>)
    requires
        tail_from(a, 0) is Clean,
    ensures
        payloads_from(a + b, 0) == payloads_from(a, 0) + payloads_from(b, 0),
        tail_from(a + b, 0) is Clean <==> tail_from(b, 0) is Clean,
        tail_from(a + b, 0) is Truncated <==> tail_from(b, 0) is Truncated,
{
    lemma_append_from(a, b, 0);
}

/// One frame reads back as its payload and leaves nothing over.
pub proof fn law_frame_round_trip(raw: Seq<u8>)
    requires
        raw.len() <= MAX_FRAME,
    ensures
        payloads_from(frame(raw), 0) == seq![raw],
        tail_from(frame(raw), 0) is Clean,
{
    vstd::bytes::lemma_auto_spec_u32_to_from_le_bytes();
    let f = frame(raw);
    assert(f.subrange(0, 4) =~= vstd::bytes::spec_u32_to_le_bytes(raw.len() as u32));
    assert(prefix_at(f, 0) == raw.len());
    assert(payload_at(f, 0) =~= raw);
    reveal_with_fuel(payloads_from, 2);
    reveal_with_fuel(tail_from, 2);
    assert(payloads_from(f, 0) =~= seq![raw]);
}

/// A file of frames reads back as the payloads it was written from, in order, with nothing over.
pub proof fn law_frames_round_trip(raws: Seq<Seq<u8>>)
    requires
        all_fit(raws),
    ensures
        payloads_from(frames(raws), 0) == raws,
        tail_from(frames(raws), 0) is Clean,
    decreases raws.len(),
{
    if raws.len() == 0 {
        assert(payloads_from(frames(raws), 0) =~= raws);
    } else {
        let init = raws.drop_last();
        assert forall|i: int| 0 <= i < init.len() implies (#[trigger] init[i]).len() <= MAX_FRAME by {
            assert(init[i] == raws[i]);
        }
        law_frames_round_trip(init);
        assert(raws[raws.len() - 1].len() <= MAX_FRAME);
        law_frame_round_trip(raws.last());
        law_append_reads_after(frames(init), frame(raws.last()));
        assert(init + seq![raws.last()] =~= raws);
    }
}

/// A frame that lost bytes at its end is not taken for a whole one: a file cut inside its last
/// frame gives the frames before it, and says that it is cut.
pub proof fn law_torn_write_is_seen(raws: Seq<Seq<u8>>, raw: Seq<u8>, cut: int)
    requires
        all_fit(raws),
        raw.len() <= MAX_FRAME,
        0 < cut < frame(raw).len(),
    ensures
        payloads_from(frames(raws) + frame(raw).take(cut), 0) == raws,
        !(tail_from(frames(raws) + frame(raw).take(cut), 0) is Clean),
        tail_from(frames(raws) + frame(raw).take(cut), 0) is Truncated <==> cut >= 4,
{
    vstd::bytes::lemma_auto_spec_u32_to_from_le_bytes();
    law_frames_round_trip(raws);
    let torn = frame(raw).take(cut);
    law_append_reads_after(frames(raws), torn);
    if cut >= 4 {
        assert(torn.subrange(0, 4) =~= vstd::bytes::spec_u32_to_le_bytes(raw.len() as u32));
        assert(prefix_at(torn, 0) == raw.len());
    }
    assert(payloads_from(torn, 0) =~= Seq::<Seq<u8>>::empty());
    assert(raws + payloads_from(torn, 0) =~= raws);
}

} // verus!
