use vstd::prelude::*;

verus! {

/// One frame to encode, with the reference slots and flags its encode gets.
#[derive(Clone, Copy, Debug, PartialEq, Eq)]
pub struct FrameJob {
    /// Display index of the frame.
    pub index: u64,
    /// The frame is coded as a keyframe.
    pub keyframe: bool,
    /// `refresh_frame_flags` of the frame header.
    pub refresh: u8,
    /// The slot of the past reference.
    pub ref_slot: u8,
    /// The slot of the future reference.
    pub bwd_slot: u8,
    /// The frame is shown when decoded.
    pub show: bool,
    /// A quantizer index that replaces the rate-controlled one.
    pub q_override: Option<u8>,
    /// The frame predicts from the reconstruction of the gop's future reference.
    pub future_ref: bool,
    /// The packet starts with the temporal-unit headers.
    pub tu_headers: bool,
}

/// One packet handed out, in the order the packets leave the encoder.
#[derive(Clone, Copy, Debug, PartialEq, Eq)]
pub enum PacketStep {
    /// The packet of job `k`, with the job's frame number.
    Frame(usize),
    /// The data of job `a` followed by that of job `b`, under job `b`'s frame number.
    Joined(usize, usize),
    /// The temporal-unit headers followed by the data of job `k`.
    WithTuHeaders(usize),
    /// A temporal unit that shows the frame in slot `slot`, at frame number `number`.
    ShowExisting(u8, u64),
}

/// What one mini-gop becomes: the encodes in order, the packets in order,
/// and the reference state afterwards.
pub struct GopPlan {
    pub jobs: Vec<FrameJob>,
    pub packets: Vec<PacketStep>,
    pub base_slot: u8,
    pub has_reference: bool,
}

/// A frame whose index starts a keyframe interval.
pub open spec fn key_by_index(index: u64, keyint: u64) -> bool {
    index == 0 || (keyint > 0 && index % keyint == 0)
}

/// Frame `k` of the queue is coded as a keyframe when it is the first one
/// without a reference to predict from.
pub open spec fn key_at(idx: Seq<u64>, k: int, keyint: u64, has_ref: bool) -> bool {
    key_by_index(idx[k], keyint) || (k == 0 && !has_ref)
}

/// The end of the run of keyframes that starts at `k`.
pub open spec fn lead_from(idx: Seq<u64>, k: int, keyint: u64, has_ref: bool) -> int
    decreases idx.len() - k,
{
    if k < 0 || k >= idx.len() || !key_at(idx, k, keyint, has_ref) {
        k
    } else {
        lead_from(idx, k + 1, keyint, has_ref)
    }
}

/// `refresh_frame_flags` for writing slot `slot`.
pub open spec fn slot_bit(slot: u8) -> u8 {
    if slot == 0 { 1 } else { 2 }
}

/// The quantizer index of the bidirectional frames: sixteen coarser, saturating.
pub open spec fn b_q_idx(q: u8) -> u8 {
    if q > 239 { 255 } else { (q + 16) as u8 }
}

/// A shown frame coded on its own with the temporal-unit headers.
pub open spec fn single_job(index: u64, keyframe: bool, refresh: u8) -> FrameJob {
    FrameJob {
        index,
        keyframe,
        refresh,
        ref_slot: 0,
        bwd_slot: 0,
        show: true,
        q_override: None,
        future_ref: false,
        tu_headers: true,
    }
}

/// The hidden future reference of a mini-gop.
pub open spec fn forward_job(index: u64, keyint: u64, base: u8, alt: u8) -> FrameJob {
    FrameJob {
        index,
        keyframe: key_by_index(index, keyint),
        refresh: slot_bit(alt),
        ref_slot: base,
        bwd_slot: alt,
        show: false,
        q_override: None,
        future_ref: false,
        tu_headers: true,
    }
}

/// A bidirectional frame of a mini-gop.
pub open spec fn b_job(index: u64, keyint: u64, base: u8, alt: u8, q: u8) -> FrameJob {
    FrameJob {
        index,
        keyframe: key_by_index(index, keyint),
        refresh: 0,
        ref_slot: base,
        bwd_slot: alt,
        show: true,
        q_override: Some(b_q_idx(q)),
        future_ref: true,
        tu_headers: false,
    }
}

/// The plan of a mini-gop whose queued frames have the display indices `idx`:
/// the jobs in encoding order, the packets in output order, the base slot
/// afterwards and whether a reference exists afterwards.
///
/// Without bidirectional frames each frame is coded on its own and refreshes
/// every slot. With them, a single frame is coded on its own into slot 0;
/// otherwise the leading keyframes are coded into slot 0, the last frame is
/// coded hidden into the other slot, the frames between are coded as
/// bidirectional frames that refresh nothing, and a final packet shows the
/// hidden frame; the other slot becomes the base of the next mini-gop.
pub open spec fn gop_plan(
    idx: Seq<u64>,
    b_frames: bool,
    keyint: u64,
    has_ref: bool,
    base_slot: u8,
    q: u8,
) -> (Seq<FrameJob>, Seq<PacketStep>, u8, bool) {
    let n = idx.len() as int;
    if n == 0 {
        (Seq::empty(), Seq::empty(), base_slot, has_ref)
    } else if !b_frames {
        (
            Seq::new(n as nat, |k: int| single_job(idx[k], key_at(idx, k, keyint, has_ref), 0xFF)),
            Seq::new(n as nat, |k: int| PacketStep::Frame(k as usize)),
            base_slot,
            true,
        )
    } else if n == 1 {
        (seq![single_job(idx[0], key_at(idx, 0, keyint, has_ref), 1)], seq![PacketStep::Frame(0)], 0, true)
    } else {
        let m = lead_from(idx, 0, keyint, has_ref);
        let keys = Seq::new(m as nat, |k: int| single_job(idx[k], true, 1));
        let key_packets = Seq::new(m as nat, |k: int| PacketStep::Frame(k as usize));
        if m == n {
            (keys, key_packets, 0, true)
        } else {
            let base: u8 = if m > 0 { 0 } else { base_slot };
            let alt = (1 - base) as u8;
            let bs = Seq::new((n - 1 - m) as nat, |j: int| b_job(idx[m + j], keyint, base, alt, q));
            let jobs = keys.push(forward_job(idx[n - 1], keyint, base, alt)) + bs;
            let middle = if n - 1 > m {
                seq![PacketStep::Joined(m as usize, (m + 1) as usize)] + Seq::new(
                    (n - 2 - m) as nat,
                    |j: int| PacketStep::WithTuHeaders((m + 2 + j) as usize),
                )
            } else {
                seq![PacketStep::Frame(m as usize)]
            };
            (jobs, key_packets + middle.push(PacketStep::ShowExisting(alt, idx[n - 1])), alt, true)
        }
    }
}

/// Whether frame `k` of the queue is coded as a keyframe.
fn is_key_at(idx: &[u64], k: usize, keyint: u64, has_ref: bool) -> (r: bool)
    requires
        k < idx@.len(),
    ensures
        r == key_at(idx@, k as int, keyint, has_ref),
{
    idx[k] == 0 || (keyint > 0 && idx[k] % keyint == 0) || (k == 0 && !has_ref)
}

/// Plans one mini-gop: which frames are coded how, and in which packets they
/// leave the encoder. `base_slot` is the slot that holds the current
/// reference (0 or 1) and `has_ref` whether there is one.
pub fn plan_gop(idx: &[u64], b_frames: bool, keyint: u64, has_ref: bool, base_slot: u8, base_q_idx: u8) -> (r: GopPlan)
    requires
        base_slot <= 1,
        idx@.len() < usize::MAX,
    ensures
        (r.jobs@, r.packets@, r.base_slot, r.has_reference) == gop_plan(idx@, b_frames, keyint, has_ref, base_slot, base_q_idx),
        r.base_slot <= 1,
{
    let n = idx.len();
    let mut jobs: Vec<FrameJob> = Vec::new();
    let mut packets: Vec<PacketStep> = Vec::new();
    if n == 0 {
        return GopPlan { jobs, packets, base_slot, has_reference: has_ref };
    }
    if !b_frames {
        let mut k: usize = 0;
        while k < n
            invariant
                k <= n,
                n == idx@.len(),
                jobs@ == Seq::new(k as nat, |j: int| single_job(idx@[j], key_at(idx@, j, keyint, has_ref), 0xFF)),
                packets@ == Seq::new(k as nat, |j: int| PacketStep::Frame(j as usize)),
            decreases n - k,
        {
            let key = is_key_at(idx, k, keyint, has_ref);
            jobs.push(FrameJob {
                index: idx[k],
                keyframe: key,
                refresh: 0xFF,
                ref_slot: 0,
                bwd_slot: 0,
                show: true,
                q_override: None,
                future_ref: false,
                tu_headers: true,
            });
            packets.push(PacketStep::Frame(k));
            k += 1;
            assert(jobs@ =~= Seq::new(k as nat, |j: int| single_job(idx@[j], key_at(idx@, j, keyint, has_ref), 0xFF)));
            assert(packets@ =~= Seq::new(k as nat, |j: int| PacketStep::Frame(j as usize)));
        }
        return GopPlan { jobs, packets, base_slot, has_reference: true };
    }
    if n == 1 {
        let key = is_key_at(idx, 0, keyint, has_ref);
        jobs.push(FrameJob {
            index: idx[0],
            keyframe: key,
            refresh: 1,
            ref_slot: 0,
            bwd_slot: 0,
            show: true,
            q_override: None,
            future_ref: false,
            tu_headers: true,
        });
        packets.push(PacketStep::Frame(0));
        assert(jobs@ =~= seq![single_job(idx@[0], key_at(idx@, 0, keyint, has_ref), 1)]);
        assert(packets@ =~= seq![PacketStep::Frame(0)]);
        return GopPlan { jobs, packets, base_slot: 0, has_reference: true };
    }
    let ghost mm = lead_from(idx@, 0, keyint, has_ref);
    let mut m: usize = 0;
    while m < n && is_key_at(idx, m, keyint, has_ref)
        invariant
            m <= n,
            n == idx@.len(),
            lead_from(idx@, m as int, keyint, has_ref) == mm,
            forall|j: int| 0 <= j < m ==> key_at(idx@, j, keyint, has_ref),
            jobs@ == Seq::new(m as nat, |j: int| single_job(idx@[j], true, 1)),
            packets@ == Seq::new(m as nat, |j: int| PacketStep::Frame(j as usize)),
        decreases n - m,
    {
        jobs.push(FrameJob {
            index: idx[m],
            keyframe: true,
            refresh: 1,
            ref_slot: 0,
            bwd_slot: 0,
            show: true,
            q_override: None,
            future_ref: false,
            tu_headers: true,
        });
        packets.push(PacketStep::Frame(m));
        m += 1;
        assert(jobs@ =~= Seq::new(m as nat, |j: int| single_job(idx@[j], true, 1)));
        assert(packets@ =~= Seq::new(m as nat, |j: int| PacketStep::Frame(j as usize)));
    }
    assert(m as int == mm);
    if m == n {
        return GopPlan { jobs, packets, base_slot: 0, has_reference: true };
    }
    let base: u8 = if m > 0 { 0 } else { base_slot };
    let alt: u8 = 1 - base;
    let last = n - 1;
    let ghost keys = jobs@;
    let ghost key_packets = packets@;
    jobs.push(FrameJob {
        index: idx[last],
        keyframe: idx[last] == 0 || (keyint > 0 && idx[last] % keyint == 0),
        refresh: if alt == 0 { 1 } else { 2 },
        ref_slot: base,
        bwd_slot: alt,
        show: false,
        q_override: None,
        future_ref: false,
        tu_headers: true,
    });
    let bq: u8 = if base_q_idx > 239 { 255 } else { base_q_idx + 16 };
    let ghost head = jobs@;
    let mut k: usize = m;
    while k < last
        invariant
            m <= k <= last,
            last + 1 == n,
            n == idx@.len(),
            base <= 1,
            alt == 1 - base,
            bq == b_q_idx(base_q_idx),
            jobs@ == head + Seq::new((k - m) as nat, |j: int| b_job(idx@[m + j], keyint, base, alt, base_q_idx)),
        decreases last - k,
    {
        jobs.push(FrameJob {
            index: idx[k],
            keyframe: idx[k] == 0 || (keyint > 0 && idx[k] % keyint == 0),
            refresh: 0,
            ref_slot: base,
            bwd_slot: alt,
            show: true,
            q_override: Some(bq),
            future_ref: true,
            tu_headers: false,
        });
        k += 1;
        assert(jobs@ =~= head + Seq::new((k - m) as nat, |j: int| b_job(idx@[m + j], keyint, base, alt, base_q_idx)));
    }
    if last > m {
        packets.push(PacketStep::Joined(m, m + 1));
        let ghost joined = packets@;
        let mut j: usize = m + 2;
        while j < n
            invariant
                m + 2 <= j <= n,
                packets@ == joined + Seq::new((j - m - 2) as nat, |i: int| PacketStep::WithTuHeaders((m + 2 + i) as usize)),
            decreases n - j,
        {
            packets.push(PacketStep::WithTuHeaders(j));
            j += 1;
            assert(packets@ =~= joined + Seq::new((j - m - 2) as nat, |i: int| PacketStep::WithTuHeaders((m + 2 + i) as usize)));
        }
        assert(packets@ =~= key_packets + (seq![PacketStep::Joined(m as usize, (m + 1) as usize)] + Seq::new(
            (n - 2 - m) as nat,
            |i: int| PacketStep::WithTuHeaders((m + 2 + i) as usize),
        )));
    } else {
        packets.push(PacketStep::Frame(m));
        assert(packets@ =~= key_packets + seq![PacketStep::Frame(m as usize)]);
    }
    packets.push(PacketStep::ShowExisting(alt, idx[last]));
    proof {
        let nn = n as int;
        let bs = Seq::new((nn - 1 - mm) as nat, |j: int| b_job(idx@[mm + j], keyint, base, alt, base_q_idx));
        assert(head == keys.push(forward_job(idx@[nn - 1], keyint, base, alt)));
        assert(jobs@ =~= keys.push(forward_job(idx@[nn - 1], keyint, base, alt)) + bs);
    }
    GopPlan { jobs, packets, base_slot: alt, has_reference: true }
}

} // verus!
