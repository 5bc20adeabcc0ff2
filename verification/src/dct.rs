use vstd::prelude::*;

verus! {

broadcast use crate::shifts::group_shifts;

/// Saturation to the signed 16-bit range.
pub open spec fn clip_spec(v: int) -> int {
    if v < -32768 {
        -32768
    } else if v > 32767 {
        32767
    } else {
        v
    }
}

/// Saturates `v` to the signed 16-bit range.
pub fn clip(v: i32) -> (r: i32)
    ensures
        r as int == clip_spec(v as int),
{
    if v < -32768 {
        -32768
    } else if v > 32767 {
        32767
    } else {
        v
    }
}

/// The transform pairs that this encoder chooses between.
#[derive(Debug, Clone, Copy, PartialEq, Eq, Structural)]
pub enum TxType {
    DctDct,
    AdstDct,
    DctAdst,
    AdstAdst,
    Idtx,
}

/// The one-dimensional kernels that make up the transform pairs.
#[derive(Debug, Clone, Copy, PartialEq, Eq, Structural)]
pub enum Kernel {
    Dct,
    Adst,
    Identity,
}

/// Every entry of `v` lies in `-b..=b`.
pub open spec fn bounded(v: Seq<int>, b: int) -> bool {
    forall|k: int| 0 <= k < v.len() ==> -b <= #[trigger] v[k] <= b
}

/// Every entry of `v` lies in `-b..=b`.
pub open spec fn bounded32(v: Seq<i32>, b: int) -> bool {
    forall|k: int| 0 <= k < v.len() ==> -b <= #[trigger] v[k] <= b
}

/// The four entries `s[off], s[off + st], s[off + 2 st], s[off + 3 st]`.
pub open spec fn lane4(s: Seq<i32>, off: int, st: int) -> Seq<int> {
    seq![s[off] as int, s[off + st] as int, s[off + 2 * st] as int, s[off + 3 * st] as int]
}

/// The eight entries `s[off + k st]` for `k` in `0..8`.
pub open spec fn lane8(s: Seq<i32>, off: int, st: int) -> Seq<int> {
    seq![
        s[off] as int,
        s[off + st] as int,
        s[off + 2 * st] as int,
        s[off + 3 * st] as int,
        s[off + 4 * st] as int,
        s[off + 5 * st] as int,
        s[off + 6 * st] as int,
        s[off + 7 * st] as int,
    ]
}

/// `s` with the lane of four entries at `off`, step `st`, replaced by `v`.
pub open spec fn put4(s: Seq<i32>, off: int, st: int, v: Seq<int>) -> Seq<i32> {
    s.update(off, v[0] as i32).update(off + st, v[1] as i32).update(off + 2 * st, v[2] as i32).update(
        off + 3 * st,
        v[3] as i32,
    )
}

/// `s` with the lane of eight entries at `off`, step `st`, replaced by `v`.
pub open spec fn put8(s: Seq<i32>, off: int, st: int, v: Seq<int>) -> Seq<i32> {
    put4(s, off, st, v.subrange(0, 4)).update(off + 4 * st, v[4] as i32).update(off + 5 * st, v[5] as i32).update(
        off + 6 * st,
        v[6] as i32,
    ).update(off + 7 * st, v[7] as i32)
}

/// The entries of `s` as integers.
pub open spec fn ints(s: Seq<i32>) -> Seq<int> {
    s.map_values(|v: i32| v as int)
}

/// A lane of four lies inside a sequence of length `len`.
pub open spec fn lane4_fits(len: int, off: int, st: int) -> bool {
    1 <= st && 0 <= off && off + 3 * st < len
}

/// A lane of eight lies inside a sequence of length `len`.
pub open spec fn lane8_fits(len: int, off: int, st: int) -> bool {
    1 <= st && 0 <= off && off + 7 * st < len
}

/// Inverse four-point DCT.
#[verifier::opaque]
pub open spec fn inv_dct4_spec(x: Seq<int>) -> Seq<int> {
    let t0 = ((x[0] + x[2]) * 181 + 128) / 256;
    let t1 = ((x[0] - x[2]) * 181 + 128) / 256;
    let t2 = (x[1] * 1567 + x[3] * 312 + 2048) / 4096 - x[3];
    let t3 = (-(x[1] * 312) + x[3] * 1567 + 2048) / 4096 + x[1];
    seq![clip_spec(t0 + t3), clip_spec(t1 + t2), clip_spec(t1 - t2), clip_spec(t0 - t3)]
}

/// The odd half of the inverse eight-point DCT: from inputs 1, 3, 5, 7 the
/// terms `t4, t5, t6, t7` that are added to and taken from the even half.
#[verifier::opaque]
pub open spec fn inv_dct8_odd_spec(x1: int, x3: int, x5: int, x7: int) -> Seq<int> {
    let t4a = (x1 * 799 + x7 * 79 + 2048) / 4096 - x7;
    let t5a = (x5 * 1703 - x3 * 1138 + 1024) / 2048;
    let t6a = (x5 * 1138 + x3 * 1703 + 1024) / 2048;
    let t7a = (-(x1 * 79) + x7 * 799 + 2048) / 4096 + x1;
    let t4 = clip_spec(t4a + t5a);
    let t5b = clip_spec(t4a - t5a);
    let t7 = clip_spec(t7a + t6a);
    let t6b = clip_spec(t7a - t6a);
    seq![t4, ((t6b - t5b) * 181 + 128) / 256, ((t6b + t5b) * 181 + 128) / 256, t7]
}

/// Inverse eight-point DCT: the four-point one on the even inputs, a butterfly on the odd ones.
pub open spec fn inv_dct8_spec(x: Seq<int>) -> Seq<int> {
    let e = inv_dct4_spec(seq![x[0], x[2], x[4], x[6]]);
    let t = inv_dct8_odd_spec(x[1], x[3], x[5], x[7]);
    seq![
        clip_spec(e[0] + t[3]),
        clip_spec(e[1] + t[2]),
        clip_spec(e[2] + t[1]),
        clip_spec(e[3] + t[0]),
        clip_spec(e[3] - t[0]),
        clip_spec(e[2] - t[1]),
        clip_spec(e[1] - t[2]),
        clip_spec(e[0] - t[3]),
    ]
}

/// Forward four-point DCT.
#[verifier::opaque]
pub open spec fn fwd_dct4_spec(x: Seq<int>) -> Seq<int> {
    let s0 = x[0] + x[3];
    let s1 = x[1] + x[2];
    let s2 = x[1] - x[2];
    let s3 = x[0] - x[3];
    seq![
        ((s0 + s1) * 181 + 128) / 256,
        (-(s3 * 312) + s2 * 1567 + 2048) / 4096 + s3,
        ((s0 - s1) * 181 + 128) / 256,
        (s3 * 1567 + s2 * 312 + 2048) / 4096 - s2,
    ]
}

/// The odd half of the forward eight-point DCT: from the differences
/// `s4..s7` the outputs 1, 3, 5 and 7.
#[verifier::opaque]
pub open spec fn fwd_dct8_odd_spec(s4: int, s5: int, s6: int, s7: int) -> Seq<int> {
    let t5 = ((s6 - s5) * 181 + 128) / 256;
    let t6 = ((s6 + s5) * 181 + 128) / 256;
    let t4a = clip_spec(s4 + t5);
    let t5a = clip_spec(s4 - t5);
    let t7a = clip_spec(s7 + t6);
    let t6a = clip_spec(s7 - t6);
    seq![
        (-(t7a * 79) + t4a * 799 + 2048) / 4096 + t7a,
        (t6a * 1703 - t5a * 1138 + 1024) / 2048,
        (t5a * 1703 + t6a * 1138 + 1024) / 2048,
        (t7a * 799 + t4a * 79 + 2048) / 4096 - t4a,
    ]
}

/// Forward eight-point DCT: the four-point one on the sums of mirrored
/// inputs, a butterfly on their differences.
pub open spec fn fwd_dct8_spec(x: Seq<int>) -> Seq<int> {
    let e = fwd_dct4_spec(seq![x[0] + x[7], x[1] + x[6], x[2] + x[5], x[3] + x[4]]);
    let o = fwd_dct8_odd_spec(x[3] - x[4], x[2] - x[5], x[1] - x[6], x[0] - x[7]);
    seq![e[0], o[0], e[1], o[1], e[2], o[2], e[3], o[3]]
}

/// Forward four-point ADST.
#[verifier::opaque]
pub open spec fn fwd_adst4_spec(x: Seq<int>) -> Seq<int> {
    let s0 = 1321 * x[0] + 2482 * x[1] + 3344 * x[2] + 3803 * x[3];
    let s1 = 3344 * (x[0] + x[1] - x[3]);
    let s2 = 3803 * x[0] - 1321 * x[1] - 3344 * x[2] + 2482 * x[3];
    let s3 = 2482 * x[0] - 3803 * x[1] + 3344 * x[2] - 1321 * x[3];
    seq![(s0 + 2048) / 4096, (s1 + 2048) / 4096, (s2 + 2048) / 4096, (s3 + 2048) / 4096]
}

/// Inverse four-point ADST.
#[verifier::opaque]
pub open spec fn inv_adst4_spec(x: Seq<int>) -> Seq<int> {
    let o0 = (1321 * x[0] - 293 * x[2] - 1614 * x[3] - 752 * x[1] + 2048)
        / 4096 + x[2] + x[3] + x[1];
    let o1 = (-(1614 * x[0]) - 1321 * x[2] + 293 * x[3] - 752 * x[1] + 2048)
        / 4096 + x[0] - x[3] + x[1];
    let o2 = (209 * (x[0] - x[2] + x[3]) + 128) / 256;
    let o3 = (-(293 * x[0]) - 1614 * x[2] - 1321 * x[3] + 752 * x[1] + 2048)
        / 4096 + x[0] + x[2] - x[1];
    seq![clip_spec(o0), clip_spec(o1), clip_spec(o2), clip_spec(o3)]
}

/// The saturating butterfly that closes the first ADST stage.
pub open spec fn adst8_stage1_from(t: Seq<int>) -> Seq<int> {
    seq![
        clip_spec(t[0] + t[4]),
        clip_spec(t[1] + t[5]),
        clip_spec(t[2] + t[6]),
        clip_spec(t[3] + t[7]),
        clip_spec(t[0] - t[4]),
        clip_spec(t[1] - t[5]),
        clip_spec(t[2] - t[6]),
        clip_spec(t[3] - t[7]),
    ]
}

/// First stage of the eight-point ADST, on inputs already permuted into
/// butterfly order: four rotations and a saturating butterfly.
pub open spec fn adst8_stage1(i: Seq<int>) -> Seq<int> {
    adst8_stage1_from(adst8_rotations(i))
}

/// Second stage of the eight-point ADST: a rotation of the upper half,
/// saturating butterflies and the final scaling and signs.
#[verifier::opaque]
pub open spec fn adst8_stage2(t: Seq<int>) -> Seq<int> {
    let u = adst8_upper(t[4], t[5], t[6], t[7]);
    let o0 = clip_spec(t[0] + t[2]);
    let o7 = clip_spec(t[1] + t[3]);
    let t2f = clip_spec(t[0] - t[2]);
    let t3f = clip_spec(t[1] - t[3]);
    let o1 = clip_spec(u[0] + u[2]);
    let o6 = clip_spec(u[1] + u[3]);
    let t6f = clip_spec(u[0] - u[2]);
    let t7f = clip_spec(u[1] - u[3]);
    seq![
        o0,
        -o1,
        half_sqrt2(t6f + t7f),
        -half_sqrt2(t2f + t3f),
        half_sqrt2(t2f - t3f),
        -half_sqrt2(t6f - t7f),
        o6,
        -o7,
    ]
}

/// The eight-point ADST on inputs in butterfly order.
pub open spec fn adst8_core(i: Seq<int>) -> Seq<int> {
    adst8_stage2(adst8_stage1(i))
}

/// Forward eight-point ADST.
pub open spec fn fwd_adst8_spec(x: Seq<int>) -> Seq<int> {
    adst8_core(seq![x[7], x[0], x[5], x[2], x[3], x[4], x[1], x[6]])
}

/// Inverse eight-point ADST.
pub open spec fn inv_adst8_spec(x: Seq<int>) -> Seq<int> {
    adst8_core(seq![x[7], x[0], x[5], x[2], x[3], x[4], x[1], x[6]])
}

/// Four-point identity transform: scales each entry by about the square root of two.
pub open spec fn identity4_spec(x: Seq<int>) -> Seq<int> {
    Seq::new(4, |k: int| x[k] + (x[k] * 1697 + 2048) / 4096)
}

/// Eight-point identity transform: doubles each entry.
pub open spec fn identity8_spec(x: Seq<int>) -> Seq<int> {
    Seq::new(8, |k: int| 2 * x[k])
}

/// Shared precondition of the kernels: the lane fits in `data` and its entries lie in `-b..=b`.
pub open spec fn lane4_ok(data: Seq<i32>, off: usize, st: usize, b: int) -> bool {
    lane4_fits(data.len() as int, off as int, st as int) && bounded(lane4(data, off as int, st as int), b)
}

/// Shared precondition of the eight-point kernels.
pub open spec fn lane8_ok(data: Seq<i32>, off: usize, st: usize, b: int) -> bool {
    lane8_fits(data.len() as int, off as int, st as int) && bounded(lane8(data, off as int, st as int), b)
}

/// The values of the inverse four-point DCT of `in0..in3`.
pub fn inv_dct4_values(in0: i32, in1: i32, in2: i32, in3: i32) -> (r: (i32, i32, i32, i32))
    requires
        -0x40000 <= in0 <= 0x40000,
        -0x40000 <= in1 <= 0x40000,
        -0x40000 <= in2 <= 0x40000,
        -0x40000 <= in3 <= 0x40000,
    ensures
        seq![r.0 as int, r.1 as int, r.2 as int, r.3 as int] == inv_dct4_spec(
            seq![in0 as int, in1 as int, in2 as int, in3 as int],
        ),
        bounded(seq![r.0 as int, r.1 as int, r.2 as int, r.3 as int], 32768),
{
    let ghost x = seq![in0 as int, in1 as int, in2 as int, in3 as int];
    assert(x[0] == in0 && x[1] == in1 && x[2] == in2 && x[3] == in3);
    reveal(inv_dct4_spec);
    let t0 = ((in0 + in2) * 181 + 128) >> 8u32;
    let t1 = ((in0 - in2) * 181 + 128) >> 8u32;
    let t2 = ((in1 * 1567 + in3 * 312 + 2048) >> 12u32) - in3;
    let t3 = ((-(in1 * 312) + in3 * 1567 + 2048) >> 12u32) + in1;
    (clip(t0 + t3), clip(t1 + t2), clip(t1 - t2), clip(t0 - t3))
}

/// Inverse four-point DCT, in place on the lane at `offset` with step `stride`.
pub fn inv_dct4_1d(data: &mut [i32], offset: usize, stride: usize)
    requires
        lane4_ok(old(data)@, offset, stride, 0x20000),
    ensures
        final(data)@ == put4(old(data)@, offset as int, stride as int, inv_dct4_spec(lane4(old(data)@, offset as int, stride as int))),
        bounded(inv_dct4_spec(lane4(old(data)@, offset as int, stride as int)), 32768),
{
    let ghost x = lane4(data@, offset as int, stride as int);
    let in0 = data[offset];
    let in1 = data[offset + stride];
    let in2 = data[offset + 2 * stride];
    let in3 = data[offset + 3 * stride];
    assert(x =~= seq![in0 as int, in1 as int, in2 as int, in3 as int]);
    assert(-0x20000 <= x[0] <= 0x20000 && -0x20000 <= x[1] <= 0x20000);
    assert(-0x20000 <= x[2] <= 0x20000 && -0x20000 <= x[3] <= 0x20000);
    let (o0, o1, o2, o3) = inv_dct4_values(in0, in1, in2, in3);
    data[offset] = o0;
    data[offset + stride] = o1;
    data[offset + 2 * stride] = o2;
    data[offset + 3 * stride] = o3;
}

/// The values of the forward four-point DCT of `in0..in3`.
pub fn fwd_dct4_1d_values(in0: i32, in1: i32, in2: i32, in3: i32) -> (r: (i32, i32, i32, i32))
    requires
        -0x40000 <= in0 <= 0x40000,
        -0x40000 <= in1 <= 0x40000,
        -0x40000 <= in2 <= 0x40000,
        -0x40000 <= in3 <= 0x40000,
    ensures
        seq![r.0 as int, r.1 as int, r.2 as int, r.3 as int] == fwd_dct4_spec(
            seq![in0 as int, in1 as int, in2 as int, in3 as int],
        ),
{
    let ghost x = seq![in0 as int, in1 as int, in2 as int, in3 as int];
    assert(x[0] == in0 && x[1] == in1 && x[2] == in2 && x[3] == in3);
    reveal(fwd_dct4_spec);
    let s0 = in0 + in3;
    let s1 = in1 + in2;
    let s2 = in1 - in2;
    let s3 = in0 - in3;

    let out0 = ((s0 + s1) * 181 + 128) >> 8u32;
    let out1 = ((-(s3 * 312) + s2 * 1567 + 2048) >> 12u32) + s3;
    let out2 = ((s0 - s1) * 181 + 128) >> 8u32;
    let out3 = ((s3 * 1567 + s2 * 312 + 2048) >> 12u32) - s2;

    (out0, out1, out2, out3)
}

/// Forward four-point DCT, in place on the lane at `offset` with step `stride`.
pub fn fwd_dct4_1d(data: &mut [i32], offset: usize, stride: usize)
    requires
        lane4_ok(old(data)@, offset, stride, 0x40000),
    ensures
        final(data)@ == put4(old(data)@, offset as int, stride as int, fwd_dct4_spec(lane4(old(data)@, offset as int, stride as int))),
{
    let ghost x = lane4(data@, offset as int, stride as int);
    let in0 = data[offset];
    let in1 = data[offset + stride];
    let in2 = data[offset + 2 * stride];
    let in3 = data[offset + 3 * stride];
    assert(x =~= seq![in0 as int, in1 as int, in2 as int, in3 as int]);
    assert(-0x40000 <= x[0] <= 0x40000 && -0x40000 <= x[1] <= 0x40000);
    assert(-0x40000 <= x[2] <= 0x40000 && -0x40000 <= x[3] <= 0x40000);
    let (out0, out1, out2, out3) = fwd_dct4_1d_values(in0, in1, in2, in3);
    data[offset] = out0;
    data[offset + stride] = out1;
    data[offset + 2 * stride] = out2;
    data[offset + 3 * stride] = out3;
}

/// Reads the lane of eight entries at `offset`, step `stride`.
fn read_lane8(data: &[i32], offset: usize, stride: usize) -> (r: [i32; 8])
    requires
        lane8_fits(data@.len() as int, offset as int, stride as int),
    ensures
        ints(r@) == lane8(data@, offset as int, stride as int),
{
    let r = [
        data[offset],
        data[offset + stride],
        data[offset + 2 * stride],
        data[offset + 3 * stride],
        data[offset + 4 * stride],
        data[offset + 5 * stride],
        data[offset + 6 * stride],
        data[offset + 7 * stride],
    ];
    assert(ints(r@) =~= lane8(data@, offset as int, stride as int));
    r
}

/// Writes `v` to the lane of eight entries at `offset`, step `stride`.
fn write_lane8(data: &mut [i32], offset: usize, stride: usize, v: [i32; 8])
    requires
        lane8_fits(old(data)@.len() as int, offset as int, stride as int),
    ensures
        final(data)@ == put8(old(data)@, offset as int, stride as int, ints(v@)),
{
    data[offset] = v[0];
    data[offset + stride] = v[1];
    data[offset + 2 * stride] = v[2];
    data[offset + 3 * stride] = v[3];
    data[offset + 4 * stride] = v[4];
    data[offset + 5 * stride] = v[5];
    data[offset + 6 * stride] = v[6];
    data[offset + 7 * stride] = v[7];
    proof {
        let w = ints(v@);
        assert(w.subrange(0, 4)[0] == v[0] as int);
        assert(w.subrange(0, 4)[1] == v[1] as int);
        assert(w.subrange(0, 4)[2] == v[2] as int);
        assert(w.subrange(0, 4)[3] == v[3] as int);
    }
}

/// The odd-half terms of the inverse eight-point DCT.
#[verifier::spinoff_prover]
fn inv_dct8_odd(in1: i32, in3: i32, in5: i32, in7: i32) -> (r: (i32, i32, i32, i32))
    requires
        -0x40000 <= in1 <= 0x40000,
        -0x40000 <= in3 <= 0x40000,
        -0x40000 <= in5 <= 0x40000,
        -0x40000 <= in7 <= 0x40000,
    ensures
        seq![r.0 as int, r.1 as int, r.2 as int, r.3 as int] == inv_dct8_odd_spec(
            in1 as int,
            in3 as int,
            in5 as int,
            in7 as int,
        ),
        -32768 <= r.0 <= 32768,
        -46341 <= r.1 <= 46341,
        -46341 <= r.2 <= 46341,
        -32768 <= r.3 <= 32768,
{
    reveal(inv_dct8_odd_spec);
    let t4a = ((in1 * 799 + in7 * 79 + 2048) >> 12u32) - in7;
    let t5a = (in5 * 1703 - in3 * 1138 + 1024) >> 11u32;
    let t6a = (in5 * 1138 + in3 * 1703 + 1024) >> 11u32;
    let t7a = ((-(in1 * 79) + in7 * 799 + 2048) >> 12u32) + in1;
    let t4 = clip(t4a + t5a);
    let t5b = clip(t4a - t5a);
    let t7 = clip(t7a + t6a);
    let t6b = clip(t7a - t6a);
    let t5 = ((t6b - t5b) * 181 + 128) >> 8u32;
    let t6 = ((t6b + t5b) * 181 + 128) >> 8u32;
    (t4, t5, t6, t7)
}

/// The values of the inverse eight-point DCT of `x`.
#[verifier::spinoff_prover]
pub fn inv_dct8_values(x: [i32; 8]) -> (r: [i32; 8])
    requires
        bounded(ints(x@), 0x40000),
    ensures
        ints(r@) == inv_dct8_spec(ints(x@)),
        bounded(ints(r@), 32768),
{
    let ghost xs = ints(x@);
    assert(xs[0] == x[0] && xs[1] == x[1] && xs[2] == x[2] && xs[3] == x[3]);
    assert(xs[4] == x[4] && xs[5] == x[5] && xs[6] == x[6] && xs[7] == x[7]);
    let (e0, e1, e2, e3) = inv_dct4_values(x[0], x[2], x[4], x[6]);
    let (t4, t5, t6, t7) = inv_dct8_odd(x[1], x[3], x[5], x[7]);
    let r = [
        clip(e0 + t7),
        clip(e1 + t6),
        clip(e2 + t5),
        clip(e3 + t4),
        clip(e3 - t4),
        clip(e2 - t5),
        clip(e1 - t6),
        clip(e0 - t7),
    ];
    assert(ints(r@) =~= inv_dct8_spec(xs));
    r
}

/// Inverse eight-point DCT, in place on the lane at `offset` with step `stride`.
#[verifier::spinoff_prover]
pub fn inv_dct8_1d(data: &mut [i32], offset: usize, stride: usize)
    requires
        lane8_ok(old(data)@, offset, stride, 0x40000),
    ensures
        final(data)@ == put8(old(data)@, offset as int, stride as int, inv_dct8_spec(lane8(old(data)@, offset as int, stride as int))),
        bounded(inv_dct8_spec(lane8(old(data)@, offset as int, stride as int)), 32768),
{
    let x = read_lane8(data, offset, stride);
    let r = inv_dct8_values(x);
    write_lane8(data, offset, stride, r);
}

/// The odd outputs of the forward eight-point DCT.
#[verifier::spinoff_prover]
fn fwd_dct8_odd(s4: i32, s5: i32, s6: i32, s7: i32) -> (r: (i32, i32, i32, i32))
    requires
        -0x40000 <= s4 <= 0x40000,
        -0x40000 <= s5 <= 0x40000,
        -0x40000 <= s6 <= 0x40000,
        -0x40000 <= s7 <= 0x40000,
    ensures
        seq![r.0 as int, r.1 as int, r.2 as int, r.3 as int] == fwd_dct8_odd_spec(
            s4 as int,
            s5 as int,
            s6 as int,
            s7 as int,
        ),
{
    reveal(fwd_dct8_odd_spec);
    let t5 = ((s6 - s5) * 181 + 128) >> 8u32;
    let t6 = ((s6 + s5) * 181 + 128) >> 8u32;
    let t4a = clip(s4 + t5);
    let t5a = clip(s4 - t5);
    let t7a = clip(s7 + t6);
    let t6a = clip(s7 - t6);
    let o1 = ((-(t7a * 79) + t4a * 799 + 2048) >> 12u32) + t7a;
    let o3 = (t6a * 1703 - t5a * 1138 + 1024) >> 11u32;
    let o5 = (t5a * 1703 + t6a * 1138 + 1024) >> 11u32;
    let o7 = ((t7a * 799 + t4a * 79 + 2048) >> 12u32) - t4a;
    (o1, o3, o5, o7)
}

/// The values of the forward eight-point DCT of `x`.
#[verifier::spinoff_prover]
pub fn fwd_dct8_values(x: [i32; 8]) -> (r: [i32; 8])
    requires
        bounded(ints(x@), 0x20000),
    ensures
        ints(r@) == fwd_dct8_spec(ints(x@)),
{
    let ghost xs = ints(x@);
    assert(xs[0] == x[0] && xs[1] == x[1] && xs[2] == x[2] && xs[3] == x[3]);
    assert(xs[4] == x[4] && xs[5] == x[5] && xs[6] == x[6] && xs[7] == x[7]);
    let (e0, e1, e2, e3) = fwd_dct4_1d_values(x[0] + x[7], x[1] + x[6], x[2] + x[5], x[3] + x[4]);
    let (o1, o3, o5, o7) = fwd_dct8_odd(x[3] - x[4], x[2] - x[5], x[1] - x[6], x[0] - x[7]);
    let r = [e0, o1, e1, o3, e2, o5, e3, o7];
    assert(ints(r@) =~= fwd_dct8_spec(xs));
    r
}

/// Forward eight-point DCT, in place on the lane at `offset` with step `stride`.
#[verifier::spinoff_prover]
pub fn fwd_dct8_1d(data: &mut [i32], offset: usize, stride: usize)
    requires
        lane8_ok(old(data)@, offset, stride, 0x20000),
    ensures
        final(data)@ == put8(old(data)@, offset as int, stride as int, fwd_dct8_spec(lane8(old(data)@, offset as int, stride as int))),
{
    let x = read_lane8(data, offset, stride);
    let r = fwd_dct8_values(x);
    write_lane8(data, offset, stride, r);
}

/// The values of the forward four-point ADST of `in0..in3`.
fn fwd_adst4_values(in0: i32, in1: i32, in2: i32, in3: i32) -> (r: (i32, i32, i32, i32))
    requires
        -0x20000 <= in0 <= 0x20000,
        -0x20000 <= in1 <= 0x20000,
        -0x20000 <= in2 <= 0x20000,
        -0x20000 <= in3 <= 0x20000,
    ensures
        seq![r.0 as int, r.1 as int, r.2 as int, r.3 as int] == fwd_adst4_spec(
            seq![in0 as int, in1 as int, in2 as int, in3 as int],
        ),
{
    reveal(fwd_adst4_spec);
    let s0 = 1321 * in0 + 2482 * in1 + 3344 * in2 + 3803 * in3;
    let s1 = 3344 * (in0 + in1 - in3);
    let s2 = 3803 * in0 - 1321 * in1 - 3344 * in2 + 2482 * in3;
    let s3 = 2482 * in0 - 3803 * in1 + 3344 * in2 - 1321 * in3;
    ((s0 + 2048) >> 12u32, (s1 + 2048) >> 12u32, (s2 + 2048) >> 12u32, (s3 + 2048) >> 12u32)
}

/// Forward four-point ADST, in place on the lane at `offset` with step `stride`.
pub fn fwd_adst4_1d(data: &mut [i32], offset: usize, stride: usize)
    requires
        lane4_ok(old(data)@, offset, stride, 0x20000),
    ensures
        final(data)@ == put4(old(data)@, offset as int, stride as int, fwd_adst4_spec(lane4(old(data)@, offset as int, stride as int))),
{
    let ghost x = lane4(data@, offset as int, stride as int);
    let in0 = data[offset];
    let in1 = data[offset + stride];
    let in2 = data[offset + 2 * stride];
    let in3 = data[offset + 3 * stride];
    assert(x =~= seq![in0 as int, in1 as int, in2 as int, in3 as int]);
    assert(-0x20000 <= x[0] <= 0x20000 && -0x20000 <= x[1] <= 0x20000);
    assert(-0x20000 <= x[2] <= 0x20000 && -0x20000 <= x[3] <= 0x20000);
    let (o0, o1, o2, o3) = fwd_adst4_values(in0, in1, in2, in3);
    data[offset] = o0;
    data[offset + stride] = o1;
    data[offset + 2 * stride] = o2;
    data[offset + 3 * stride] = o3;
}

#[verifier::rlimit(60)]
/// The values of the inverse four-point ADST of `in0..in3`.
fn inv_adst4_values(in0: i32, in1: i32, in2: i32, in3: i32) -> (r: (i32, i32, i32, i32))
    requires
        -0x20000 <= in0 <= 0x20000,
        -0x20000 <= in1 <= 0x20000,
        -0x20000 <= in2 <= 0x20000,
        -0x20000 <= in3 <= 0x20000,
    ensures
        seq![r.0 as int, r.1 as int, r.2 as int, r.3 as int] == inv_adst4_spec(
            seq![in0 as int, in1 as int, in2 as int, in3 as int],
        ),
        bounded(seq![r.0 as int, r.1 as int, r.2 as int, r.3 as int], 32768),
{
    reveal(inv_adst4_spec);
    let o0 = ((1321 * in0 - 293 * in2 - 1614 * in3 - 752 * in1 + 2048) >> 12u32) + in2 + in3 + in1;
    let o1 = ((-(1614 * in0) - 1321 * in2 + 293 * in3 - 752 * in1 + 2048) >> 12u32) + in0 - in3 + in1;
    let o2 = (209 * (in0 - in2 + in3) + 128) >> 8u32;
    let o3 = ((-(293 * in0) - 1614 * in2 - 1321 * in3 + 752 * in1 + 2048) >> 12u32) + in0 + in2 - in1;
    (clip(o0), clip(o1), clip(o2), clip(o3))
}

/// Inverse four-point ADST, in place on the lane at `offset` with step `stride`.
pub fn inv_adst4_1d(data: &mut [i32], offset: usize, stride: usize)
    requires
        lane4_ok(old(data)@, offset, stride, 0x20000),
    ensures
        final(data)@ == put4(old(data)@, offset as int, stride as int, inv_adst4_spec(lane4(old(data)@, offset as int, stride as int))),
        bounded(inv_adst4_spec(lane4(old(data)@, offset as int, stride as int)), 32768),
{
    let ghost x = lane4(data@, offset as int, stride as int);
    let in0 = data[offset];
    let in1 = data[offset + stride];
    let in2 = data[offset + 2 * stride];
    let in3 = data[offset + 3 * stride];
    assert(x =~= seq![in0 as int, in1 as int, in2 as int, in3 as int]);
    assert(-0x20000 <= x[0] <= 0x20000 && -0x20000 <= x[1] <= 0x20000);
    assert(-0x20000 <= x[2] <= 0x20000 && -0x20000 <= x[3] <= 0x20000);
    let (o0, o1, o2, o3) = inv_adst4_values(in0, in1, in2, in3);
    data[offset] = o0;
    data[offset + stride] = o1;
    data[offset + 2 * stride] = o2;
    data[offset + 3 * stride] = o3;
}

/// The four rotations that open the eight-point ADST.
#[verifier::opaque]
pub open spec fn adst8_rotations(i: Seq<int>) -> Seq<int> {
    seq![
        (-(20 * i[0]) + 401 * i[1] + 2048) / 4096 + i[0],
        (401 * i[0] + 20 * i[1] + 2048) / 4096 - i[1],
        (-(484 * i[2]) + 1931 * i[3] + 2048) / 4096 + i[2],
        (1931 * i[2] + 484 * i[3] + 2048) / 4096 - i[3],
        (1299 * i[4] + 1583 * i[5] + 1024) / 2048,
        (1583 * i[4] - 1299 * i[5] + 1024) / 2048,
        (1189 * i[6] - 176 * i[7] + 2048) / 4096 + i[7],
        (-(176 * i[6]) - 1189 * i[7] + 2048) / 4096 + i[6],
    ]
}

#[verifier::rlimit(60)]
/// The four rotations that open the eight-point ADST.
#[verifier::spinoff_prover]
fn adst8_rotate(i: [i32; 8]) -> (r: [i32; 8])
    requires
        bounded(ints(i@), 0x40000),
    ensures
        ints(r@) == adst8_rotations(ints(i@)),
        bounded(ints(r@), 0x80000),
{
    reveal(adst8_rotations);
    let ghost xs = ints(i@);
    assert(xs[0] == i[0] && xs[1] == i[1] && xs[2] == i[2] && xs[3] == i[3]);
    assert(xs[4] == i[4] && xs[5] == i[5] && xs[6] == i[6] && xs[7] == i[7]);
    let r = [
        ((-(20 * i[0]) + 401 * i[1] + 2048) >> 12u32) + i[0],
        ((401 * i[0] + 20 * i[1] + 2048) >> 12u32) - i[1],
        ((-(484 * i[2]) + 1931 * i[3] + 2048) >> 12u32) + i[2],
        ((1931 * i[2] + 484 * i[3] + 2048) >> 12u32) - i[3],
        (1299 * i[4] + 1583 * i[5] + 1024) >> 11u32,
        (1583 * i[4] - 1299 * i[5] + 1024) >> 11u32,
        ((1189 * i[6] - 176 * i[7] + 2048) >> 12u32) + i[7],
        ((-(176 * i[6]) - 1189 * i[7] + 2048) >> 12u32) + i[6],
    ];
    assert(ints(r@) =~= adst8_rotations(xs));
    r
}

/// The saturating butterfly of the first ADST stage.
#[verifier::spinoff_prover]
fn adst8_butterfly(t: [i32; 8]) -> (r: [i32; 8])
    requires
        bounded(ints(t@), 0x80000),
    ensures
        ints(r@) == adst8_stage1_from(ints(t@)),
        bounded(ints(r@), 32768),
{
    let ghost xs = ints(t@);
    assert(xs[0] == t[0] && xs[1] == t[1] && xs[2] == t[2] && xs[3] == t[3]);
    assert(xs[4] == t[4] && xs[5] == t[5] && xs[6] == t[6] && xs[7] == t[7]);
    let r = [
        clip(t[0] + t[4]),
        clip(t[1] + t[5]),
        clip(t[2] + t[6]),
        clip(t[3] + t[7]),
        clip(t[0] - t[4]),
        clip(t[1] - t[5]),
        clip(t[2] - t[6]),
        clip(t[3] - t[7]),
    ];
    assert(ints(r@) =~= adst8_stage1_from(xs));
    r
}

/// The upper-half rotation of the second ADST stage.
#[verifier::opaque]
pub open spec fn adst8_upper(t4: int, t5: int, t6: int, t7: int) -> Seq<int> {
    seq![
        (-(312 * t4) + 1567 * t5 + 2048) / 4096 + t4,
        (1567 * t4 + 312 * t5 + 2048) / 4096 - t5,
        (-(312 * t7) - 1567 * t6 + 2048) / 4096 + t7,
        (1567 * t7 - 312 * t6 + 2048) / 4096 + t6,
    ]
}

/// The upper-half rotation of the second ADST stage.
#[verifier::spinoff_prover]
fn adst8_rotate_upper(t4: i32, t5: i32, t6: i32, t7: i32) -> (r: (i32, i32, i32, i32))
    requires
        -32768 <= t4 <= 32768,
        -32768 <= t5 <= 32768,
        -32768 <= t6 <= 32768,
        -32768 <= t7 <= 32768,
    ensures
        seq![r.0 as int, r.1 as int, r.2 as int, r.3 as int] == adst8_upper(
            t4 as int,
            t5 as int,
            t6 as int,
            t7 as int,
        ),
        -0x10000 <= r.0 <= 0x10000,
        -0x10000 <= r.1 <= 0x10000,
        -0x10000 <= r.2 <= 0x10000,
        -0x10000 <= r.3 <= 0x10000,
{
    reveal(adst8_upper);
    let t4b = ((-(312 * t4) + 1567 * t5 + 2048) >> 12u32) + t4;
    let t5b = ((1567 * t4 + 312 * t5 + 2048) >> 12u32) - t5;
    let t6b = ((-(312 * t7) - 1567 * t6 + 2048) >> 12u32) + t7;
    let t7b = ((1567 * t7 - 312 * t6 + 2048) >> 12u32) + t6;
    (t4b, t5b, t6b, t7b)
}

/// Scales a butterfly sum by the reciprocal square root of two, with rounding.
pub open spec fn half_sqrt2(v: int) -> int {
    (v * 181 + 128) / 256
}

/// Second stage of the eight-point ADST.
#[verifier::rlimit(100)]
#[verifier::spinoff_prover]
fn adst8_second(t: [i32; 8]) -> (r: [i32; 8])
    requires
        bounded(ints(t@), 32768),
    ensures
        ints(r@) == adst8_stage2(ints(t@)),
        bounded(ints(r@), 46341),
{
    reveal(adst8_stage2);
    let ghost xs = ints(t@);
    assert(xs[0] == t[0] && xs[1] == t[1] && xs[2] == t[2] && xs[3] == t[3]);
    assert(xs[4] == t[4] && xs[5] == t[5] && xs[6] == t[6] && xs[7] == t[7]);
    let (t4b, t5b, t6b, t7b) = adst8_rotate_upper(t[4], t[5], t[6], t[7]);
    let ghost u = adst8_upper(xs[4], xs[5], xs[6], xs[7]);
    assert(u[0] == t4b && u[1] == t5b && u[2] == t6b && u[3] == t7b);
    let o0 = clip(t[0] + t[2]);
    let o7 = clip(t[1] + t[3]);
    let t2f = clip(t[0] - t[2]);
    let t3f = clip(t[1] - t[3]);
    let o1 = clip(t4b + t6b);
    let o6 = clip(t5b + t7b);
    let t6f = clip(t4b - t6b);
    let t7f = clip(t5b - t7b);
    let r = [
        o0,
        -o1,
        ((t6f + t7f) * 181 + 128) >> 8u32,
        -(((t2f + t3f) * 181 + 128) >> 8u32),
        ((t2f - t3f) * 181 + 128) >> 8u32,
        -(((t6f - t7f) * 181 + 128) >> 8u32),
        o6,
        -o7,
    ];
    assert(ints(r@) =~= adst8_stage2(xs));
    r
}

/// The eight-point ADST of a lane, which the forward and the inverse share.
#[verifier::spinoff_prover]
fn adst8_values(x: [i32; 8]) -> (r: [i32; 8])
    requires
        bounded(ints(x@), 0x40000),
    ensures
        ints(r@) == adst8_core(seq![x[7] as int, x[0] as int, x[5] as int, x[2] as int, x[3] as int, x[4] as int, x[1] as int, x[6] as int]),
        bounded(ints(r@), 46341),
{
    let ghost xs = ints(x@);
    assert(xs[0] == x[0] && xs[1] == x[1] && xs[2] == x[2] && xs[3] == x[3]);
    assert(xs[4] == x[4] && xs[5] == x[5] && xs[6] == x[6] && xs[7] == x[7]);
    let p = [x[7], x[0], x[5], x[2], x[3], x[4], x[1], x[6]];
    assert(ints(p@) =~= seq![x[7] as int, x[0] as int, x[5] as int, x[2] as int, x[3] as int, x[4] as int, x[1] as int, x[6] as int]);
    let t = adst8_rotate(p);
    let u = adst8_butterfly(t);
    adst8_second(u)
}

/// Forward eight-point ADST, in place on the lane at `offset` with step `stride`.
#[verifier::spinoff_prover]
pub fn fwd_adst8_1d(data: &mut [i32], offset: usize, stride: usize)
    requires
        lane8_ok(old(data)@, offset, stride, 0x40000),
    ensures
        final(data)@ == put8(old(data)@, offset as int, stride as int, fwd_adst8_spec(lane8(old(data)@, offset as int, stride as int))),
        bounded(fwd_adst8_spec(lane8(old(data)@, offset as int, stride as int)), 46341),
{
    let x = read_lane8(data, offset, stride);
    let r = adst8_values(x);
    write_lane8(data, offset, stride, r);
}

/// Inverse eight-point ADST, in place on the lane at `offset` with step `stride`.
#[verifier::spinoff_prover]
pub fn inv_adst8_1d(data: &mut [i32], offset: usize, stride: usize)
    requires
        lane8_ok(old(data)@, offset, stride, 0x40000),
    ensures
        final(data)@ == put8(old(data)@, offset as int, stride as int, inv_adst8_spec(lane8(old(data)@, offset as int, stride as int))),
        bounded(inv_adst8_spec(lane8(old(data)@, offset as int, stride as int)), 46341),
{
    let x = read_lane8(data, offset, stride);
    let r = adst8_values(x);
    write_lane8(data, offset, stride, r);
}

/// The values of the four-point identity transform of `in0..in3`.
fn identity4_values(in0: i32, in1: i32, in2: i32, in3: i32) -> (r: (i32, i32, i32, i32))
    requires
        -0x40000 <= in0 <= 0x40000,
        -0x40000 <= in1 <= 0x40000,
        -0x40000 <= in2 <= 0x40000,
        -0x40000 <= in3 <= 0x40000,
    ensures
        seq![r.0 as int, r.1 as int, r.2 as int, r.3 as int] == identity4_spec(
            seq![in0 as int, in1 as int, in2 as int, in3 as int],
        ),
{
    let r = (
        in0 + ((in0 * 1697 + 2048) >> 12u32),
        in1 + ((in1 * 1697 + 2048) >> 12u32),
        in2 + ((in2 * 1697 + 2048) >> 12u32),
        in3 + ((in3 * 1697 + 2048) >> 12u32),
    );
    assert(seq![r.0 as int, r.1 as int, r.2 as int, r.3 as int] =~= identity4_spec(
        seq![in0 as int, in1 as int, in2 as int, in3 as int],
    ));
    r
}

/// Four-point identity transform, in place on the lane at `offset` with step `stride`.
fn identity4_1d(data: &mut [i32], offset: usize, stride: usize)
    requires
        lane4_ok(old(data)@, offset, stride, 0x40000),
    ensures
        final(data)@ == put4(old(data)@, offset as int, stride as int, identity4_spec(lane4(old(data)@, offset as int, stride as int))),
{
    let ghost x = lane4(data@, offset as int, stride as int);
    let in0 = data[offset];
    let in1 = data[offset + stride];
    let in2 = data[offset + 2 * stride];
    let in3 = data[offset + 3 * stride];
    assert(x =~= seq![in0 as int, in1 as int, in2 as int, in3 as int]);
    assert(-0x40000 <= x[0] <= 0x40000 && -0x40000 <= x[1] <= 0x40000);
    assert(-0x40000 <= x[2] <= 0x40000 && -0x40000 <= x[3] <= 0x40000);
    let (o0, o1, o2, o3) = identity4_values(in0, in1, in2, in3);
    data[offset] = o0;
    data[offset + stride] = o1;
    data[offset + 2 * stride] = o2;
    data[offset + 3 * stride] = o3;
}

/// Forward four-point identity transform.
pub fn fwd_identity4_1d(data: &mut [i32], offset: usize, stride: usize)
    requires
        lane4_ok(old(data)@, offset, stride, 0x40000),
    ensures
        final(data)@ == put4(old(data)@, offset as int, stride as int, identity4_spec(lane4(old(data)@, offset as int, stride as int))),
{
    identity4_1d(data, offset, stride);
}

/// Inverse four-point identity transform; it scales exactly as the forward one does.
pub fn inv_identity4_1d(data: &mut [i32], offset: usize, stride: usize)
    requires
        lane4_ok(old(data)@, offset, stride, 0x40000),
    ensures
        final(data)@ == put4(old(data)@, offset as int, stride as int, identity4_spec(lane4(old(data)@, offset as int, stride as int))),
{
    identity4_1d(data, offset, stride);
}

/// Eight-point identity transform, in place on the lane at `offset` with step `stride`.
fn identity8_1d(data: &mut [i32], offset: usize, stride: usize)
    requires
        lane8_ok(old(data)@, offset, stride, 0x40000),
    ensures
        final(data)@ == put8(old(data)@, offset as int, stride as int, identity8_spec(lane8(old(data)@, offset as int, stride as int))),
{
    let x = read_lane8(data, offset, stride);
    let ghost xs = ints(x@);
    assert(xs[0] == x[0] && xs[1] == x[1] && xs[2] == x[2] && xs[3] == x[3]);
    assert(xs[4] == x[4] && xs[5] == x[5] && xs[6] == x[6] && xs[7] == x[7]);
    let r = [2 * x[0], 2 * x[1], 2 * x[2], 2 * x[3], 2 * x[4], 2 * x[5], 2 * x[6], 2 * x[7]];
    assert(ints(r@) =~= identity8_spec(xs));
    write_lane8(data, offset, stride, r);
}

/// Forward eight-point identity transform: doubles each entry of the lane.
pub fn fwd_identity8_1d(data: &mut [i32], offset: usize, stride: usize)
    requires
        lane8_ok(old(data)@, offset, stride, 0x40000),
    ensures
        final(data)@ == put8(old(data)@, offset as int, stride as int, identity8_spec(lane8(old(data)@, offset as int, stride as int))),
{
    identity8_1d(data, offset, stride);
}

/// Inverse eight-point identity transform: doubles each entry of the lane.
pub fn inv_identity8_1d(data: &mut [i32], offset: usize, stride: usize)
    requires
        lane8_ok(old(data)@, offset, stride, 0x40000),
    ensures
        final(data)@ == put8(old(data)@, offset as int, stride as int, identity8_spec(lane8(old(data)@, offset as int, stride as int))),
{
    identity8_1d(data, offset, stride);
}

/// The transpose of a square block of side `n`, stored row by row.
pub open spec fn transpose_spec<T>(b: Seq<T>, n: int) -> Seq<T> {
    Seq::new((n * n) as nat, |i: int| b[(i % n) * n + i / n])
}

/// Transposes a 4x4 block in place.
pub fn transpose_4x4(buf: &mut [i32; 16])
    ensures
        final(buf)@ == transpose_spec(old(buf)@, 4),
{
    let src = *buf;
    let mut i: usize = 0;
    while i < 16
        invariant
            0 <= i <= 16,
            buf@.len() == 16,
            forall|j: int| 0 <= j < i ==> #[trigger] buf@[j] == src@[(j % 4) * 4 + j / 4],
        decreases 16 - i,
    {
        buf[i] = src[(i % 4) * 4 + i / 4];
        i += 1;
    }
    assert(buf@ =~= transpose_spec(src@, 4));
}

/// Transposes an 8x8 block in place.
pub fn transpose_8x8(buf: &mut [i32; 64])
    ensures
        final(buf)@ == transpose_spec(old(buf)@, 8),
{
    let src = *buf;
    let mut i: usize = 0;
    while i < 64
        invariant
            0 <= i <= 64,
            buf@.len() == 64,
            forall|j: int| 0 <= j < i ==> #[trigger] buf@[j] == src@[(j % 8) * 8 + j / 8],
        decreases 64 - i,
    {
        buf[i] = src[(i % 8) * 8 + i / 8];
        i += 1;
    }
    assert(buf@ =~= transpose_spec(src@, 8));
}

/// The row and column kernels of a transform pair, in that order.
pub open spec fn tx_kernels_spec(tx: TxType) -> (Kernel, Kernel) {
    match tx {
        TxType::DctDct => (Kernel::Dct, Kernel::Dct),
        TxType::AdstDct => (Kernel::Dct, Kernel::Adst),
        TxType::DctAdst => (Kernel::Adst, Kernel::Dct),
        TxType::AdstAdst => (Kernel::Adst, Kernel::Adst),
        TxType::Idtx => (Kernel::Identity, Kernel::Identity),
    }
}

/// The row and column kernels of a transform pair; the forward and the
/// inverse transforms, at both sizes, pair them the same way.
pub fn tx_kernels(tx: TxType) -> (r: (Kernel, Kernel))
    ensures
        r == tx_kernels_spec(tx),
{
    match tx {
        TxType::DctDct => (Kernel::Dct, Kernel::Dct),
        TxType::AdstDct => (Kernel::Dct, Kernel::Adst),
        TxType::DctAdst => (Kernel::Adst, Kernel::Dct),
        TxType::AdstAdst => (Kernel::Adst, Kernel::Adst),
        TxType::Idtx => (Kernel::Identity, Kernel::Identity),
    }
}

/// A four-point kernel, forward or inverse.
pub open spec fn kernel4_spec(k: Kernel, inverse: bool, x: Seq<int>) -> Seq<int> {
    match k {
        Kernel::Dct => if inverse { inv_dct4_spec(x) } else { fwd_dct4_spec(x) },
        Kernel::Adst => if inverse { inv_adst4_spec(x) } else { fwd_adst4_spec(x) },
        Kernel::Identity => identity4_spec(x),
    }
}

/// An eight-point kernel, forward or inverse.
pub open spec fn kernel8_spec(k: Kernel, inverse: bool, x: Seq<int>) -> Seq<int> {
    match k {
        Kernel::Dct => if inverse { inv_dct8_spec(x) } else { fwd_dct8_spec(x) },
        Kernel::Adst => if inverse { inv_adst8_spec(x) } else { fwd_adst8_spec(x) },
        Kernel::Identity => identity8_spec(x),
    }
}

/// How far a four-point kernel can widen inputs bounded by `b`.
pub open spec fn growth4(k: Kernel, inverse: bool, b: int) -> int {
    if k == Kernel::Identity {
        2 * b
    } else if inverse {
        32768
    } else {
        3 * b + 2
    }
}

/// The largest input bound an eight-point kernel is taken over: half as
/// much for the forward DCT, which adds mirrored inputs first.
pub open spec fn kernel8_limit(k: Kernel, inverse: bool) -> int {
    if k == Kernel::Dct && !inverse {
        0x20000
    } else {
        0x40000
    }
}

/// How far an eight-point kernel can widen inputs bounded by `b`.
pub open spec fn growth8(k: Kernel, inverse: bool, b: int) -> int {
    if k == Kernel::Identity {
        2 * b
    } else if inverse || k == Kernel::Adst {
        46341
    } else {
        6 * b + 46341
    }
}

proof fn lemma_fwd_dct4_growth(x: Seq<int>, b: int)
    requires
        x.len() == 4,
        bounded(x, b),
        0 <= b,
    ensures
        fwd_dct4_spec(x).len() == 4,
        bounded(fwd_dct4_spec(x), 3 * b + 2),
{
    reveal(fwd_dct4_spec);
    assert(-b <= x[0] <= b && -b <= x[1] <= b && -b <= x[2] <= b && -b <= x[3] <= b);
}

proof fn lemma_fwd_adst4_growth(x: Seq<int>, b: int)
    requires
        x.len() == 4,
        bounded(x, b),
        0 <= b,
    ensures
        fwd_adst4_spec(x).len() == 4,
        bounded(fwd_adst4_spec(x), 3 * b + 2),
{
    reveal(fwd_adst4_spec);
    assert(-b <= x[0] <= b && -b <= x[1] <= b && -b <= x[2] <= b && -b <= x[3] <= b);
}

proof fn lemma_identity4_growth(x: Seq<int>, b: int)
    requires
        x.len() == 4,
        bounded(x, b),
        0 <= b,
    ensures
        bounded(identity4_spec(x), 2 * b),
{
    assert forall|k: int| 0 <= k < 4 implies -2 * b <= #[trigger] identity4_spec(x)[k] <= 2 * b by {
        assert(-b <= x[k] <= b);
    }
}

#[verifier::spinoff_prover]
proof fn lemma_fwd_dct8_growth(x: Seq<int>, b: int)
    requires
        x.len() == 8,
        bounded(x, b),
        0 <= b <= 0x20000,
    ensures
        bounded(fwd_dct8_spec(x), 6 * b + 46341),
{
    assert(-b <= x[0] <= b && -b <= x[1] <= b && -b <= x[2] <= b && -b <= x[3] <= b);
    assert(-b <= x[4] <= b && -b <= x[5] <= b && -b <= x[6] <= b && -b <= x[7] <= b);
    let s = seq![x[0] + x[7], x[1] + x[6], x[2] + x[5], x[3] + x[4]];
    lemma_fwd_dct4_growth(s, 2 * b);
    reveal(fwd_dct8_odd_spec);
    let e = fwd_dct4_spec(s);
    assert(-6 * b - 2 <= e[0] <= 6 * b + 2 && -6 * b - 2 <= e[1] <= 6 * b + 2);
    assert(-6 * b - 2 <= e[2] <= 6 * b + 2 && -6 * b - 2 <= e[3] <= 6 * b + 2);
}

proof fn lemma_kernel4_growth(k: Kernel, inverse: bool, x: Seq<int>, b: int)
    requires
        x.len() == 4,
        bounded(x, b),
        0 <= b <= 0x20000,
    ensures
        kernel4_spec(k, inverse, x).len() == 4,
        bounded(kernel4_spec(k, inverse, x), growth4(k, inverse, b)),
{
    match k {
        Kernel::Dct => {
            if inverse {
                assert(-b <= x[0] <= b && -b <= x[1] <= b && -b <= x[2] <= b && -b <= x[3] <= b);
                let (a0, a1, a2, a3) = (x[0], x[1], x[2], x[3]);
                reveal(inv_dct4_spec);
            } else {
                lemma_fwd_dct4_growth(x, b);
            }
        },
        Kernel::Adst => {
            if inverse {
                reveal(inv_adst4_spec);
            } else {
                lemma_fwd_adst4_growth(x, b);
            }
        },
        Kernel::Identity => lemma_identity4_growth(x, b),
    }
}

proof fn lemma_kernel8_growth(k: Kernel, inverse: bool, x: Seq<int>, b: int)
    requires
        x.len() == 8,
        bounded(x, b),
        0 <= b <= kernel8_limit(k, inverse),
    ensures
        kernel8_spec(k, inverse, x).len() == 8,
        bounded(kernel8_spec(k, inverse, x), growth8(k, inverse, b)),
{
    match k {
        Kernel::Dct => {
            if inverse {
                let e = inv_dct4_spec(seq![x[0], x[2], x[4], x[6]]);
                reveal(inv_dct4_spec);
                assert(bounded(inv_dct8_spec(x), 32768));
            } else {
                lemma_fwd_dct8_growth(x, b);
            }
        },
        Kernel::Adst => {
            reveal(adst8_stage2);
            let t = adst8_stage1(seq![x[7], x[0], x[5], x[2], x[3], x[4], x[1], x[6]]);
            assert(bounded(adst8_stage2(t), 46341));
        },
        Kernel::Identity => {
            assert forall|j: int| 0 <= j < 8 implies -2 * b <= #[trigger] identity8_spec(x)[j] <= 2 * b by {
                assert(-b <= x[j] <= b);
            }
        },
    }
}

/// Applies a four-point kernel in place on the lane at `offset` with step `stride`.
fn apply_kernel4(data: &mut [i32], k: Kernel, inverse: bool, offset: usize, stride: usize)
    requires
        lane4_ok(old(data)@, offset, stride, 0x20000),
    ensures
        final(data)@ == put4(old(data)@, offset as int, stride as int, kernel4_spec(k, inverse, lane4(old(data)@, offset as int, stride as int))),
{
    match k {
        Kernel::Dct => if inverse { inv_dct4_1d(data, offset, stride) } else { fwd_dct4_1d(data, offset, stride) },
        Kernel::Adst => if inverse { inv_adst4_1d(data, offset, stride) } else { fwd_adst4_1d(data, offset, stride) },
        Kernel::Identity => if inverse { inv_identity4_1d(data, offset, stride) } else { fwd_identity4_1d(data, offset, stride) },
    }
}

/// Applies an eight-point kernel in place on the lane at `offset` with step `stride`.
fn apply_kernel8(data: &mut [i32], k: Kernel, inverse: bool, offset: usize, stride: usize)
    requires
        lane8_ok(old(data)@, offset, stride, kernel8_limit(k, inverse)),
    ensures
        final(data)@ == put8(old(data)@, offset as int, stride as int, kernel8_spec(k, inverse, lane8(old(data)@, offset as int, stride as int))),
{
    match k {
        Kernel::Dct => if inverse { inv_dct8_1d(data, offset, stride) } else { fwd_dct8_1d(data, offset, stride) },
        Kernel::Adst => if inverse { inv_adst8_1d(data, offset, stride) } else { fwd_adst8_1d(data, offset, stride) },
        Kernel::Identity => if inverse { inv_identity8_1d(data, offset, stride) } else { fwd_identity8_1d(data, offset, stride) },
    }
}

/// The four entries of `b` at `off`, `off + st`, `off + 2 st`, `off + 3 st`.
pub open spec fn lane4_of(b: Seq<int>, off: int, st: int) -> Seq<int> {
    seq![b[off], b[off + st], b[off + 2 * st], b[off + 3 * st]]
}

/// The eight entries of `b` at `off + k st`.
pub open spec fn lane8_of(b: Seq<int>, off: int, st: int) -> Seq<int> {
    seq![b[off], b[off + st], b[off + 2 * st], b[off + 3 * st], b[off + 4 * st], b[off + 5 * st], b[off + 6 * st], b[off + 7 * st]]
}

/// A four-point kernel applied to each row of a 4x4 block stored row by row.
pub open spec fn rows4_spec(k: Kernel, inverse: bool, b: Seq<int>) -> Seq<int> {
    Seq::new(16, |i: int| kernel4_spec(k, inverse, lane4_of(b, (i / 4) * 4, 1))[i % 4])
}

/// A four-point kernel applied to each column of a 4x4 block stored row by row.
pub open spec fn cols4_spec(k: Kernel, inverse: bool, b: Seq<int>) -> Seq<int> {
    Seq::new(16, |i: int| kernel4_spec(k, inverse, lane4_of(b, i % 4, 4))[i / 4])
}

/// An eight-point kernel applied to each row of an 8x8 block stored row by row.
pub open spec fn rows8_spec(k: Kernel, inverse: bool, b: Seq<int>) -> Seq<int> {
    Seq::new(64, |i: int| kernel8_spec(k, inverse, lane8_of(b, (i / 8) * 8, 1))[i % 8])
}

/// An eight-point kernel applied to each column of an 8x8 block stored row by row.
pub open spec fn cols8_spec(k: Kernel, inverse: bool, b: Seq<int>) -> Seq<int> {
    Seq::new(64, |i: int| kernel8_spec(k, inverse, lane8_of(b, i % 8, 8))[i / 8])
}

/// Applies a four-point kernel to every row of a 4x4 block.
#[verifier::spinoff_prover]
#[verifier::rlimit(60)]
fn rows_pass4(buf: &mut [i32; 16], k: Kernel, inverse: bool, Ghost(b): Ghost<int>)
    requires
        bounded(ints(old(buf)@), b),
        0 <= b <= 0x20000,
    ensures
        ints(final(buf)@) == rows4_spec(k, inverse, ints(old(buf)@)),
        bounded(ints(final(buf)@), growth4(k, inverse, b)),
{
    let ghost orig = ints(buf@);
    let ghost want = rows4_spec(k, inverse, orig);
    let mut row: usize = 0;
    while row < 4
        invariant
            0 <= row <= 4,
            0 <= b <= 0x20000,
            orig.len() == 16,
            bounded(orig, b),
            want == rows4_spec(k, inverse, orig),
            buf@.len() == 16,
            forall|i: int| 0 <= i < 16 && i / 4 < row ==> #[trigger] buf@[i] as int == want[i] && -growth4(k, inverse, b) <= want[i] <= growth4(k, inverse, b),
            forall|i: int| 0 <= i < 16 && i / 4 >= row ==> #[trigger] buf@[i] as int == orig[i],
        decreases 4 - row,
    {
        let ghost before = buf@;
        let ghost x = lane4_of(orig, (row * 4) as int, 1);
        assert(lane4(before, (row * 4) as int, 1) == x) by {
            assert(before[row * 4] as int == orig[row * 4]);
            assert(before[row * 4 + 1] as int == orig[row * 4 + 1]);
            assert(before[row * 4 + 2] as int == orig[row * 4 + 2]);
            assert(before[row * 4 + 3] as int == orig[row * 4 + 3]);
        }
        assert(bounded(x, b)) by {
            assert(-b <= orig[row * 4] <= b && -b <= orig[row * 4 + 1] <= b);
            assert(-b <= orig[row * 4 + 2] <= b && -b <= orig[row * 4 + 3] <= b);
        }
        proof {
            lemma_kernel4_growth(k, inverse, x, b);
        }
        apply_kernel4(buf, k, inverse, row * 4, 1);
        assert forall|i: int| 0 <= i < 16 && i / 4 < row + 1 implies #[trigger] buf@[i] as int == want[i] && -growth4(k, inverse, b) <= want[i] <= growth4(k, inverse, b) by {
            if i / 4 == row {
                assert((i / 4) * 4 == row * 4);
                let y = kernel4_spec(k, inverse, x);
                assert(want[i] == y[i % 4]);
                assert(-growth4(k, inverse, b) <= y[i % 4] <= growth4(k, inverse, b));
            }
        }
        row += 1;
    }
    assert(ints(buf@) =~= want);
}

/// Applies a four-point kernel to every column of a 4x4 block.
#[verifier::spinoff_prover]
#[verifier::rlimit(100)]
fn cols_pass4(buf: &mut [i32; 16], k: Kernel, inverse: bool, Ghost(b): Ghost<int>)
    requires
        bounded(ints(old(buf)@), b),
        0 <= b <= 0x20000,
    ensures
        ints(final(buf)@) == cols4_spec(k, inverse, ints(old(buf)@)),
        bounded(ints(final(buf)@), growth4(k, inverse, b)),
{
    let ghost orig = ints(buf@);
    let ghost want = cols4_spec(k, inverse, orig);
    let mut col: usize = 0;
    while col < 4
        invariant
            0 <= col <= 4,
            0 <= b <= 0x20000,
            orig.len() == 16,
            bounded(orig, b),
            want == cols4_spec(k, inverse, orig),
            buf@.len() == 16,
            forall|i: int| 0 <= i < 16 && i % 4 < col ==> #[trigger] buf@[i] as int == want[i] && -growth4(k, inverse, b) <= want[i] <= growth4(k, inverse, b),
            forall|i: int| 0 <= i < 16 && i % 4 >= col ==> #[trigger] buf@[i] as int == orig[i],
        decreases 4 - col,
    {
        let ghost before = buf@;
        let ghost x = lane4_of(orig, col as int, 4);
        assert(lane4(before, col as int, 4) == x) by {
            assert(before[col as int] as int == orig[col as int]);
            assert(before[col + 4] as int == orig[col + 4]);
            assert(before[col + 8] as int == orig[col + 8]);
            assert(before[col + 12] as int == orig[col + 12]);
        }
        assert(bounded(x, b)) by {
            assert(-b <= orig[col as int] <= b && -b <= orig[col + 4] <= b);
            assert(-b <= orig[col + 8] <= b && -b <= orig[col + 12] <= b);
        }
        proof {
            lemma_kernel4_growth(k, inverse, x, b);
        }
        apply_kernel4(buf, k, inverse, col, 4);
        let ghost y = kernel4_spec(k, inverse, x);
        assert(-0x80000 <= y[0] <= 0x80000 && -0x80000 <= y[1] <= 0x80000);
        assert(-0x80000 <= y[2] <= 0x80000 && -0x80000 <= y[3] <= 0x80000);
        assert(buf@[col as int] as int == y[0] && buf@[col + 4] as int == y[1]);
        assert(buf@[col + 8] as int == y[2] && buf@[col + 12] as int == y[3]);
        assert forall|j: int| 0 <= j < 4 implies #[trigger] buf@[col + 4 * j] as int == y[j] by {
            if j == 0 {
            } else if j == 1 {
            } else if j == 2 {
            } else {
            }
        }
        assert forall|i: int| 0 <= i < 16 && i % 4 != col implies #[trigger] buf@[i] == before[i] by {
            assert(i != col && i != col + 4 && i != col + 8 && i != col + 12);
        }
        let ghost c = col as int;
        col += 1;
        assert forall|i: int| 0 <= i < 16 && i % 4 < col implies #[trigger] buf@[i] as int == want[i] && -growth4(k, inverse, b) <= want[i] <= growth4(k, inverse, b) by {
            if i % 4 == c {
                let q = i / 4;
                assert(0 <= q < 4);
                assert(i == c + 4 * q);
                assert(buf@[i] == buf@[c + 4 * q]);
                assert(buf@[c + 4 * q] as int == y[q]);
                assert(want[i] == y[q]);
                assert(-growth4(k, inverse, b) <= y[q] <= growth4(k, inverse, b));
            } else {
                assert(buf@[i] == before[i]);
                assert(before[i] as int == want[i]);
            }
        }
        assert forall|i: int| 0 <= i < 16 && i % 4 > c implies #[trigger] buf@[i] as int == orig[i] by {
            assert(buf@[i] == before[i]);
            assert(before[i] as int == orig[i]);
        }
    }
    assert(ints(buf@) =~= want);
}

/// Applies an eight-point kernel to every row of an 8x8 block.
#[verifier::spinoff_prover]
#[verifier::rlimit(100)]
fn rows_pass8(buf: &mut [i32; 64], k: Kernel, inverse: bool, Ghost(b): Ghost<int>)
    requires
        bounded(ints(old(buf)@), b),
        0 <= b <= kernel8_limit(k, inverse),
    ensures
        ints(final(buf)@) == rows8_spec(k, inverse, ints(old(buf)@)),
        bounded(ints(final(buf)@), growth8(k, inverse, b)),
{
    let ghost orig = ints(buf@);
    let ghost want = rows8_spec(k, inverse, orig);
    let ghost g = growth8(k, inverse, b);
    assert(g <= 0x100000);
    let mut row: usize = 0;
    while row < 8
        invariant
            0 <= row <= 8,
            0 <= b <= kernel8_limit(k, inverse),
            orig.len() == 64,
            bounded(orig, b),
            want == rows8_spec(k, inverse, orig),
            g == growth8(k, inverse, b),
            g <= 0x100000,
            buf@.len() == 64,
            forall|i: int| 0 <= i < 64 && i / 8 < row ==> #[trigger] buf@[i] as int == want[i] && -g <= want[i] <= g,
            forall|i: int| 0 <= i < 64 && i / 8 >= row ==> #[trigger] buf@[i] as int == orig[i],
        decreases 8 - row,
    {
        let ghost before = buf@;
        let ghost o = (row * 8) as int;
        let ghost x = lane8_of(orig, o, 1);
        assert(lane8(before, o, 1) == x) by {
            assert forall|j: int| 0 <= j < 8 implies before[o + j] as int == #[trigger] orig[o + j] by {
                assert((o + j) / 8 == row);
            }
            assert(before[o] as int == orig[o]);
        }
        assert(bounded(x, b)) by {
            assert forall|j: int| 0 <= j < 8 implies -b <= #[trigger] x[j] <= b by {
                assert(x[j] == orig[o + j]);
            }
        }
        proof {
            lemma_kernel8_growth(k, inverse, x, b);
        }
        apply_kernel8(buf, k, inverse, row * 8, 1);
        let ghost y = kernel8_spec(k, inverse, x);
        assert forall|j: int| 0 <= j < 8 implies #[trigger] buf@[o + j] as int == y[j] by {
            assert(-0x100000 <= y[j] <= 0x100000);
            assert(y.subrange(0, 4)[0] == y[0] && y.subrange(0, 4)[1] == y[1]);
            assert(y.subrange(0, 4)[2] == y[2] && y.subrange(0, 4)[3] == y[3]);
        }
        assert forall|i: int| 0 <= i < 64 && i / 8 != row implies #[trigger] buf@[i] == before[i] by {
            assert(i < o || i >= o + 8);
        }
        assert forall|i: int| 0 <= i < 64 && i / 8 < row + 1 implies #[trigger] buf@[i] as int == want[i] && -g <= want[i] <= g by {
            if i / 8 == row {
                let j = i % 8;
                assert(i == o + j);
                assert(buf@[o + j] as int == y[j]);
                assert(want[i] == y[j]);
                assert(-g <= y[j] <= g);
            } else {
                assert(buf@[i] == before[i]);
                assert(before[i] as int == want[i]);
            }
        }
        row += 1;
    }
    assert(ints(buf@) =~= want);
}

/// Applies an eight-point kernel to every column of an 8x8 block.
#[verifier::spinoff_prover]
#[verifier::rlimit(60)]
fn cols_pass8(buf: &mut [i32; 64], k: Kernel, inverse: bool, Ghost(b): Ghost<int>)
    requires
        bounded(ints(old(buf)@), b),
        0 <= b <= kernel8_limit(k, inverse),
    ensures
        ints(final(buf)@) == cols8_spec(k, inverse, ints(old(buf)@)),
        bounded(ints(final(buf)@), growth8(k, inverse, b)),
{
    let ghost orig = ints(buf@);
    let ghost want = cols8_spec(k, inverse, orig);
    let mut col: usize = 0;
    while col < 8
        invariant
            0 <= col <= 8,
            0 <= b <= kernel8_limit(k, inverse),
            orig.len() == 64,
            bounded(orig, b),
            want == cols8_spec(k, inverse, orig),
            buf@.len() == 64,
            forall|i: int| 0 <= i < 64 && i % 8 < col ==> #[trigger] buf@[i] as int == want[i] && -growth8(k, inverse, b) <= want[i] <= growth8(k, inverse, b),
            forall|i: int| 0 <= i < 64 && i % 8 >= col ==> #[trigger] buf@[i] as int == orig[i],
        decreases 8 - col,
    {
        let ghost before = buf@;
        let ghost c = col as int;
        let ghost x = lane8_of(orig, c, 8);
        assert(lane8(before, c, 8) == x) by {
            assert forall|j: int| 0 <= j < 8 implies before[c + 8 * j] as int == #[trigger] orig[c + 8 * j] by {
                assert((c + 8 * j) % 8 == c);
            }
            assert(before[c] as int == orig[c]);
        }
        assert(bounded(x, b)) by {
            assert forall|j: int| 0 <= j < 8 implies -b <= #[trigger] x[j] <= b by {
                assert(x[j] == orig[c + 8 * j]);
            }
        }
        proof {
            lemma_kernel8_growth(k, inverse, x, b);
        }
        apply_kernel8(buf, k, inverse, col, 8);
        let ghost y = kernel8_spec(k, inverse, x);
        assert(growth8(k, inverse, b) <= 0x100000);
        assert forall|j: int| 0 <= j < 8 implies #[trigger] buf@[c + 8 * j] as int == y[j] by {
            assert(-0x100000 <= y[j] <= 0x100000);
            assert(y.subrange(0, 4)[0] == y[0] && y.subrange(0, 4)[1] == y[1]);
            assert(y.subrange(0, 4)[2] == y[2] && y.subrange(0, 4)[3] == y[3]);
        }
        assert forall|i: int| 0 <= i < 64 && i % 8 != col implies #[trigger] buf@[i] == before[i] by {
            assert(i != c && i != c + 8 && i != c + 16 && i != c + 24);
            assert(i != c + 32 && i != c + 40 && i != c + 48 && i != c + 56);
        }
        assert forall|i: int| 0 <= i < 64 && i % 8 > col implies #[trigger] buf@[i] as int == orig[i] by {
            assert(buf@[i] == before[i]);
            assert(before[i] as int == orig[i]);
        }
        col += 1;
        assert forall|i: int| 0 <= i < 64 && i % 8 < col implies #[trigger] buf@[i] as int == want[i] && -growth8(k, inverse, b) <= want[i] <= growth8(k, inverse, b) by {
            if i % 8 == c {
                let q = i / 8;
                assert(i == c + 8 * q);
                assert(buf@[c + 8 * q] as int == y[q]);
                assert(want[i] == y[q]);
                assert(-growth8(k, inverse, b) <= y[q] <= growth8(k, inverse, b));
            } else {
                assert(buf@[i] == before[i]);
                assert(before[i] as int == want[i]);
            }
        }
    }
    assert(ints(buf@) =~= want);
}

/// Every entry multiplied by `k`.
pub open spec fn scaled(b: Seq<int>, k: int) -> Seq<int> {
    Seq::new(b.len(), |i: int| k * b[i])
}

/// Every entry halved, rounding halves up.
pub open spec fn halved(b: Seq<int>) -> Seq<int> {
    Seq::new(b.len(), |i: int| (b[i] + 1) / 2)
}

/// Every entry divided by sixteen, rounding halves up.
pub open spec fn rounded16(b: Seq<int>) -> Seq<int> {
    Seq::new(b.len(), |i: int| (b[i] + 8) / 16)
}

/// The forward 4x4 transform: the residual scaled by four, the row kernel on
/// each row, the column kernel on each column, and the result transposed.
pub open spec fn forward_transform_4x4_spec(r: Seq<int>, tx: TxType) -> Seq<int> {
    let (rk, ck) = tx_kernels_spec(tx);
    transpose_spec(cols4_spec(ck, false, rows4_spec(rk, false, scaled(r, 4))), 4)
}

/// The forward 8x8 transform: as the 4x4 one, with the rows halved between the passes.
pub open spec fn forward_transform_8x8_spec(r: Seq<int>, tx: TxType) -> Seq<int> {
    let (rk, ck) = tx_kernels_spec(tx);
    transpose_spec(cols8_spec(ck, false, halved(rows8_spec(rk, false, scaled(r, 4)))), 8)
}

/// The inverse 4x4 transform: the coefficients transposed, the row kernel on
/// each row, the column kernel on each column, and the result divided by sixteen.
pub open spec fn inverse_transform_4x4_spec(c: Seq<int>, tx: TxType) -> Seq<int> {
    let (rk, ck) = tx_kernels_spec(tx);
    rounded16(cols4_spec(ck, true, rows4_spec(rk, true, transpose_spec(c, 4))))
}

/// The inverse 8x8 transform: as the 4x4 one, with the rows halved between the passes.
pub open spec fn inverse_transform_8x8_spec(c: Seq<int>, tx: TxType) -> Seq<int> {
    let (rk, ck) = tx_kernels_spec(tx);
    rounded16(cols8_spec(ck, true, halved(rows8_spec(rk, true, transpose_spec(c, 8)))))
}

/// Multiplies each entry by four.
fn scale_by_four<const N: usize>(buf: &mut [i32; N])
    requires
        bounded(ints(old(buf)@), 8192),
    ensures
        ints(final(buf)@) == scaled(ints(old(buf)@), 4),
        bounded(ints(final(buf)@), 32768),
{
    let ghost orig = ints(buf@);
    let mut i: usize = 0;
    while i < N
        invariant
            0 <= i <= N,
            buf@.len() == N,
            orig.len() == N,
            bounded(orig, 8192),
            forall|j: int| 0 <= j < i ==> #[trigger] buf@[j] as int == 4 * orig[j],
            forall|j: int| i <= j < N ==> #[trigger] buf@[j] as int == orig[j],
        decreases N - i,
    {
        assert(-8192 <= orig[i as int] <= 8192);
        buf[i] = buf[i] << 2u32;
        i += 1;
    }
    assert(ints(buf@) =~= scaled(orig, 4));
}

/// Halves each entry, rounding halves up.
fn halve<const N: usize>(buf: &mut [i32; N], Ghost(b): Ghost<int>)
    requires
        bounded(ints(old(buf)@), b),
        0 <= b <= 0x80000,
    ensures
        ints(final(buf)@) == halved(ints(old(buf)@)),
        bounded(ints(final(buf)@), (b + 1) / 2),
{
    let ghost orig = ints(buf@);
    let mut i: usize = 0;
    while i < N
        invariant
            0 <= i <= N,
            buf@.len() == N,
            orig.len() == N,
            bounded(orig, b),
            0 <= b <= 0x80000,
            forall|j: int| 0 <= j < i ==> #[trigger] buf@[j] as int == (orig[j] + 1) / 2,
            forall|j: int| i <= j < N ==> #[trigger] buf@[j] as int == orig[j],
        decreases N - i,
    {
        assert(-b <= orig[i as int] <= b);
        buf[i] = (buf[i] + 1) >> 1u32;
        i += 1;
    }
    assert(ints(buf@) =~= halved(orig));
    assert forall|j: int| 0 <= j < N implies -((b + 1) / 2) <= #[trigger] ints(buf@)[j] <= (b + 1) / 2 by {
        assert(-b <= orig[j] <= b);
    }
}

/// Divides each entry by sixteen, rounding halves up.
fn round_by_sixteen<const N: usize>(buf: &mut [i32; N], Ghost(b): Ghost<int>)
    requires
        bounded(ints(old(buf)@), b),
        0 <= b <= 0x100000,
    ensures
        ints(final(buf)@) == rounded16(ints(old(buf)@)),
{
    let ghost orig = ints(buf@);
    let mut i: usize = 0;
    while i < N
        invariant
            0 <= i <= N,
            buf@.len() == N,
            orig.len() == N,
            bounded(orig, b),
            0 <= b <= 0x100000,
            forall|j: int| 0 <= j < i ==> #[trigger] buf@[j] as int == (orig[j] + 8) / 16,
            forall|j: int| i <= j < N ==> #[trigger] buf@[j] as int == orig[j],
        decreases N - i,
    {
        assert(-b <= orig[i as int] <= b);
        buf[i] = (buf[i] + 8) >> 4u32;
        i += 1;
    }
    assert(ints(buf@) =~= rounded16(orig));
}

/// Forward 4x4 transform of a residual block, with the chosen transform pair.
/// Residuals are differences of samples, within -1023..=1023 at ten bits; the
/// bound on them keeps every sum and every product with the 12-bit cosine
/// constants of both passes within `i32`.
pub fn forward_transform_4x4(residual: &[i32; 16], tx_type: TxType) -> (out: [i32; 16])
    requires
        bounded(ints(residual@), 8192),
    ensures
        ints(out@) == forward_transform_4x4_spec(ints(residual@), tx_type),
        bounded(ints(residual@), 255) ==> bounded(ints(out@), 9188),
{
    let (row_k, col_k) = tx_kernels(tx_type);
    let ghost small = bounded(ints(residual@), 255);
    let ghost b0: int = if small { 1020 } else { 32768 };
    let mut buf = *residual;
    scale_by_four(&mut buf);
    proof {
        if small {
            assert forall|i: int| 0 <= i < 16 implies -1020 <= #[trigger] ints(buf@)[i] <= 1020 by {
                assert(-255 <= ints(residual@)[i] <= 255);
            }
        }
    }
    rows_pass4(&mut buf, row_k, false, Ghost(b0));
    cols_pass4(&mut buf, col_k, false, Ghost(growth4(row_k, false, b0)));
    let ghost before = buf@;
    transpose_4x4(&mut buf);
    assert(ints(buf@) =~= transpose_spec(ints(before), 4));
    proof {
        if small {
            let g = growth4(col_k, false, growth4(row_k, false, 1020));
            assert(g <= 9188);
            assert forall|i: int| 0 <= i < 16 implies -9188 <= #[trigger] ints(buf@)[i] <= 9188 by {
                assert(0 <= (i % 4) * 4 + i / 4 < 16);
                assert(-g <= ints(before)[(i % 4) * 4 + i / 4] <= g);
            }
        }
    }
    buf
}

/// Forward 8x8 transform of a residual block, with the chosen transform pair.
/// Residuals are differences of samples, within -1023..=1023 at ten bits; the
/// bound on them keeps every sum and every product with the 12-bit cosine
/// constants of both passes within `i32`.
pub fn forward_transform_8x8(residual: &[i32; 64], tx_type: TxType) -> (out: [i32; 64])
    requires
        bounded(ints(residual@), 8192),
    ensures
        ints(out@) == forward_transform_8x8_spec(ints(residual@), tx_type),
{
    let (row_k, col_k) = tx_kernels(tx_type);
    let mut buf = *residual;
    scale_by_four(&mut buf);
    rows_pass8(&mut buf, row_k, false, Ghost(32768));
    halve(&mut buf, Ghost(growth8(row_k, false, 32768)));
    cols_pass8(&mut buf, col_k, false, Ghost((growth8(row_k, false, 32768) + 1) / 2));
    let ghost before = buf@;
    transpose_8x8(&mut buf);
    assert(ints(buf@) =~= transpose_spec(ints(before), 8));
    buf
}

/// Inverse 4x4 transform of a coefficient block, with the chosen transform pair.
/// Dequantized coefficients of 8- and 10-bit video stay far inside the
/// bound, which keeps the products with the 12-bit cosine constants of
/// both passes within `i32`.
pub fn inverse_transform_4x4(coeffs: &[i32; 16], tx_type: TxType) -> (out: [i32; 16])
    requires
        bounded(ints(coeffs@), 65536),
    ensures
        ints(out@) == inverse_transform_4x4_spec(ints(coeffs@), tx_type),
{
    let (row_k, col_k) = tx_kernels(tx_type);
    let mut buf = *coeffs;
    transpose_4x4(&mut buf);
    assert(ints(buf@) =~= transpose_spec(ints(coeffs@), 4));
    rows_pass4(&mut buf, row_k, true, Ghost(65536));
    cols_pass4(&mut buf, col_k, true, Ghost(growth4(row_k, true, 65536)));
    round_by_sixteen(&mut buf, Ghost(growth4(col_k, true, growth4(row_k, true, 65536))));
    buf
}

proof fn lemma_rows8_bound(k: Kernel, inverse: bool, x: Seq<int>, b: int)
    requires
        x.len() == 64,
        bounded(x, b),
        0 <= b <= kernel8_limit(k, inverse),
    ensures
        bounded(rows8_spec(k, inverse, x), growth8(k, inverse, b)),
{
    assert forall|i: int| 0 <= i < 64 implies -growth8(k, inverse, b) <= #[trigger] rows8_spec(k, inverse, x)[i]
        <= growth8(k, inverse, b) by {
        let o = (i / 8) * 8;
        let l = lane8_of(x, o, 1);
        assert(0 <= o && o + 7 < 64);
        assert forall|j: int| 0 <= j < 8 implies -b <= #[trigger] l[j] <= b by {
            assert(l[j] == x[o + j]);
        }
        lemma_kernel8_growth(k, inverse, l, b);
    }
}

proof fn lemma_cols8_bound(k: Kernel, inverse: bool, x: Seq<int>, b: int)
    requires
        x.len() == 64,
        bounded(x, b),
        0 <= b <= kernel8_limit(k, inverse),
    ensures
        bounded(cols8_spec(k, inverse, x), growth8(k, inverse, b)),
{
    assert forall|i: int| 0 <= i < 64 implies -growth8(k, inverse, b) <= #[trigger] cols8_spec(k, inverse, x)[i]
        <= growth8(k, inverse, b) by {
        let o = i % 8;
        let l = lane8_of(x, o, 8);
        assert(0 <= o && o + 56 < 64);
        assert forall|j: int| 0 <= j < 8 implies -b <= #[trigger] l[j] <= b by {
            assert(l[j] == x[o + 8 * j]);
        }
        lemma_kernel8_growth(k, inverse, l, b);
    }
}

/// The forward 8x8 transform of a residual of pixel differences (each
/// within 255) stays within 203727, whatever the transform pair.
pub proof fn lemma_forward_8x8_bound(r: Seq<int>, tx: TxType)
    requires
        r.len() == 64,
        bounded(r, 255),
    ensures
        forward_transform_8x8_spec(r, tx).len() == 64,
        bounded(forward_transform_8x8_spec(r, tx), 203727),
{
    let (rk, ck) = tx_kernels_spec(tx);
    let a = scaled(r, 4);
    assert(bounded(a, 1020));
    lemma_rows8_bound(rk, false, a, 1020);
    let b1 = rows8_spec(rk, false, a);
    let g1 = growth8(rk, false, 1020);
    assert(g1 <= 52461);
    let h = halved(b1);
    assert(bounded(h, 26231)) by {
        assert forall|i: int| 0 <= i < h.len() implies -26231 <= #[trigger] h[i] <= 26231 by {
            assert(-g1 <= b1[i] <= g1);
        }
    }
    lemma_cols8_bound(ck, false, h, 26231);
    let c = cols8_spec(ck, false, h);
    assert(growth8(ck, false, 26231) <= 203727);
    let t = transpose_spec(c, 8);
    assert forall|i: int| 0 <= i < 64 implies -203727 <= #[trigger] t[i] <= 203727 by {
        assert(0 <= (i % 8) * 8 + i / 8 < 64);
    }
}

/// The inverse 8x8 transform of coefficients within 0x40000 stays within
/// 32768.
pub proof fn lemma_inverse_8x8_bound(c: Seq<int>, tx: TxType)
    requires
        c.len() == 64,
        bounded(c, 0x40000),
    ensures
        inverse_transform_8x8_spec(c, tx).len() == 64,
        bounded(inverse_transform_8x8_spec(c, tx), 32768),
{
    let (rk, ck) = tx_kernels_spec(tx);
    let t = transpose_spec(c, 8);
    assert forall|i: int| 0 <= i < 64 implies -0x40000 <= #[trigger] t[i] <= 0x40000 by {
        assert(0 <= (i % 8) * 8 + i / 8 < 64);
    }
    lemma_rows8_bound(rk, true, t, 0x40000);
    let b1 = rows8_spec(rk, true, t);
    let g1 = growth8(rk, true, 0x40000);
    assert(g1 <= 0x80000);
    let h = halved(b1);
    assert(bounded(h, 0x40000)) by {
        assert forall|i: int| 0 <= i < h.len() implies -0x40000 <= #[trigger] h[i] <= 0x40000 by {
            assert(-g1 <= b1[i] <= g1);
        }
    }
    lemma_cols8_bound(ck, true, h, 0x40000);
    let d = cols8_spec(ck, true, h);
    let g2 = growth8(ck, true, 0x40000);
    assert(g2 <= 0x80000);
    let o = rounded16(d);
    assert forall|i: int| 0 <= i < 64 implies -32768 <= #[trigger] o[i] <= 32768 by {
        assert(-g2 <= d[i] <= g2);
    }
}

/// Inverse 8x8 transform of a coefficient block, with the chosen transform pair.
/// The bound is where the products of a butterfly with the 12-bit cosine
/// constants still fit in `i32`.
pub fn inverse_transform_8x8(coeffs: &[i32; 64], tx_type: TxType) -> (out: [i32; 64])
    requires
        bounded(ints(coeffs@), 0x40000),
    ensures
        ints(out@) == inverse_transform_8x8_spec(ints(coeffs@), tx_type),
{
    let (row_k, col_k) = tx_kernels(tx_type);
    let mut buf = *coeffs;
    transpose_8x8(&mut buf);
    assert(ints(buf@) =~= transpose_spec(ints(coeffs@), 8));
    rows_pass8(&mut buf, row_k, true, Ghost(0x40000));
    halve(&mut buf, Ghost(growth8(row_k, true, 0x40000)));
    let ghost b = (growth8(row_k, true, 0x40000) + 1) / 2;
    cols_pass8(&mut buf, col_k, true, Ghost(b));
    round_by_sixteen(&mut buf, Ghost(growth8(col_k, true, b)));
    buf
}

/// Forward 4x4 DCT of a residual block.
pub fn forward_dct_4x4(residual: &[i32; 16]) -> (out: [i32; 16])
    requires
        bounded(ints(residual@), 8192),
    ensures
        ints(out@) == forward_transform_4x4_spec(ints(residual@), TxType::DctDct),
        bounded(ints(residual@), 255) ==> bounded(ints(out@), 9188),
{
    forward_transform_4x4(residual, TxType::DctDct)
}

/// Forward 8x8 DCT of a residual block.
pub fn forward_dct_8x8(residual: &[i32; 64]) -> (out: [i32; 64])
    requires
        bounded(ints(residual@), 8192),
    ensures
        ints(out@) == forward_transform_8x8_spec(ints(residual@), TxType::DctDct),
{
    forward_transform_8x8(residual, TxType::DctDct)
}

/// Inverse 4x4 DCT of a coefficient block.
pub fn inverse_dct_4x4(coeffs: &[i32; 16]) -> (out: [i32; 16])
    requires
        bounded(ints(coeffs@), 65536),
    ensures
        ints(out@) == inverse_transform_4x4_spec(ints(coeffs@), TxType::DctDct),
{
    inverse_transform_4x4(coeffs, TxType::DctDct)
}

/// Inverse 8x8 DCT of a coefficient block.
pub fn inverse_dct_8x8(coeffs: &[i32; 64]) -> (out: [i32; 64])
    requires
        bounded(ints(coeffs@), 0x40000),
    ensures
        ints(out@) == inverse_transform_8x8_spec(ints(coeffs@), TxType::DctDct),
{
    inverse_transform_8x8(coeffs, TxType::DctDct)
}

} // verus!
