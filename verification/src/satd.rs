use vstd::prelude::*;

verus! {

/// The 4x4 Hadamard transform of a row-major block: the butterflies along
/// each row, then along each column.
pub open spec fn hadamard_spec(r: Seq<int>) -> Seq<int> {
    let row = |i: int, k: int| {
        let t0 = r[4 * i] + r[4 * i + 1];
        let t1 = r[4 * i] - r[4 * i + 1];
        let t2 = r[4 * i + 2] + r[4 * i + 3];
        let t3 = r[4 * i + 2] - r[4 * i + 3];
        if k == 0 { t0 + t2 } else if k == 1 { t1 + t3 } else if k == 2 { t0 - t2 } else { t1 - t3 }
    };
    Seq::new(16, |n: int| {
        let j = n % 4;
        let i = n / 4;
        let t0 = row(0, j) + row(1, j);
        let t1 = row(0, j) - row(1, j);
        let t2 = row(2, j) + row(3, j);
        let t3 = row(2, j) - row(3, j);
        if i == 0 { t0 + t2 } else if i == 1 { t1 + t3 } else if i == 2 { t0 - t2 } else { t1 - t3 }
    })
}

/// The residual entries `residual[i * stride + k]`, as a row-major 4x4 block.
pub open spec fn block4(residual: Seq<i32>, stride: int) -> Seq<int> {
    Seq::new(16, |n: int| residual[(n / 4) * stride + n % 4] as int)
}

/// Computes a 4x4 Hadamard transform of the residual rows at `stride`.
pub fn hadamard_4x4(residual: &[i32], stride: usize) -> (out: [i32; 16])
    requires
        3 * stride + 3 < residual@.len(),
        forall|k: int| 0 <= k < residual@.len() ==> -0x10000 <= #[trigger] residual@[k] <= 0x10000,
    ensures
        out@.map_values(|v: i32| v as int) == hadamard_spec(block4(residual@, stride as int)),
{
    let ghost b = block4(residual@, stride as int);
    let len = residual.len();
    let mut temp = [0i32; 16];
    let mut out = [0i32; 16];
    let mut i: usize = 0;
    while i < 4
        invariant
            0 <= i <= 4,
            len == residual@.len(),
            3 * stride + 3 < residual@.len(),
            forall|k: int| 0 <= k < residual@.len() ==> -0x10000 <= #[trigger] residual@[k] <= 0x10000,
            b == block4(residual@, stride as int),
            forall|n: int| 0 <= n < 4 * i ==> {
                let r = n / 4;
                let k = n % 4;
                let t0 = b[4 * r] + b[4 * r + 1];
                let t1 = b[4 * r] - b[4 * r + 1];
                let t2 = b[4 * r + 2] + b[4 * r + 3];
                let t3 = b[4 * r + 2] - b[4 * r + 3];
                #[trigger] temp@[n] as int == (if k == 0 { t0 + t2 } else if k == 1 { t1 + t3 } else if k == 2 { t0 - t2 } else { t1 - t3 })
            },
            forall|n: int| 0 <= n < 16 ==> -0x40000 <= #[trigger] temp@[n] <= 0x40000,
        decreases 4 - i,
    {
        assert(i * stride <= 3 * stride) by (nonlinear_arith)
            requires
                i < 4,
        ;
        let src_idx = i * stride;
        assert(b[4 * i as int] == residual@[src_idx as int]);
        assert(b[4 * i + 1] == residual@[src_idx + 1]);
        assert(b[4 * i + 2] == residual@[src_idx + 2]);
        assert(b[4 * i + 3] == residual@[src_idx + 3]);
        let t0 = residual[src_idx] + residual[src_idx + 1];
        let t1 = residual[src_idx] - residual[src_idx + 1];
        let t2 = residual[src_idx + 2] + residual[src_idx + 3];
        let t3 = residual[src_idx + 2] - residual[src_idx + 3];
        temp[i * 4] = t0 + t2;
        temp[i * 4 + 1] = t1 + t3;
        temp[i * 4 + 2] = t0 - t2;
        temp[i * 4 + 3] = t1 - t3;
        i += 1;
    }
    let mut j: usize = 0;
    while j < 4
        invariant
            0 <= j <= 4,
            forall|n: int| 0 <= n < 16 ==> -0x40000 <= #[trigger] temp@[n] <= 0x40000,
            forall|n: int| 0 <= n < 16 && n % 4 < j ==> {
                let c = n % 4;
                let i = n / 4;
                let t0 = temp@[c] + temp@[4 + c];
                let t1 = temp@[c] - temp@[4 + c];
                let t2 = temp@[8 + c] + temp@[12 + c];
                let t3 = temp@[8 + c] - temp@[12 + c];
                #[trigger] out@[n] as int == (if i == 0 { t0 + t2 } else if i == 1 { t1 + t3 } else if i == 2 { t0 - t2 } else { t1 - t3 })
            },
        decreases 4 - j,
    {
        let t0 = temp[j] + temp[4 + j];
        let t1 = temp[j] - temp[4 + j];
        let t2 = temp[8 + j] + temp[12 + j];
        let t3 = temp[8 + j] - temp[12 + j];
        out[j] = t0 + t2;
        out[4 + j] = t1 + t3;
        out[8 + j] = t0 - t2;
        out[12 + j] = t1 - t3;
        j += 1;
    }
    assert(out@.map_values(|v: i32| v as int) =~= hadamard_spec(b));
    out
}

/// `|a - b|` of two samples.
pub open spec fn abs_diff(a: u8, b: u8) -> int {
    if a >= b { a - b } else { b - a }
}

/// The sum of absolute differences over the first `n` pixels of a block
/// `w` wide, in raster order, each plane with its own stride.
pub open spec fn sad_region(src: Seq<u8>, pred: Seq<u8>, w: int, ss: int, ps: int, n: int) -> int
    decreases n,
{
    if n <= 0 {
        0
    } else {
        let i = n - 1;
        sad_region(src, pred, w, ss, ps, n - 1) + abs_diff(src[(i / w) * ss + i % w], pred[(i / w) * ps + i % w])
    }
}

/// The residual of the 4x4 chunk whose top-left pixel is at `(bx, by)`.
pub open spec fn chunk_residual(src: Seq<u8>, pred: Seq<u8>, ss: int, ps: int, by: int, bx: int) -> Seq<int> {
    Seq::new(16, |n: int| src[(by + n / 4) * ss + bx + n % 4] as int - pred[(by + n / 4) * ps + bx + n % 4] as int)
}

/// The sum of the absolute values of the first `n` entries.
pub open spec fn sum_abs(v: Seq<int>, n: int) -> int
    decreases n,
{
    if n <= 0 { 0 } else { sum_abs(v, n - 1) + (if v[n - 1] < 0 { -v[n - 1] } else { v[n - 1] }) }
}

/// The SATD of the first `n` 4x4 chunks of a block `w` wide, in raster
/// order: each chunk's Hadamard energy, halved.
pub open spec fn satd_chunks(src: Seq<u8>, pred: Seq<u8>, w: int, ss: int, ps: int, n: int) -> int
    decreases n,
{
    if n <= 0 {
        0
    } else {
        let j = n - 1;
        let cols = w / 4;
        let r = chunk_residual(src, pred, ss, ps, 4 * (j / cols), 4 * (j % cols));
        satd_chunks(src, pred, w, ss, ps, n - 1) + sum_abs(hadamard_spec(r), 16) / 2
    }
}

/// The SATD of a block: plain SAD when a side is not a multiple of 4,
/// otherwise the halved Hadamard energies of its 4x4 chunks.
pub open spec fn satd_spec(src: Seq<u8>, pred: Seq<u8>, w: int, h: int, ss: int, ps: int) -> int {
    if w % 4 != 0 || h % 4 != 0 {
        sad_region(src, pred, w, ss, ps, w * h)
    } else {
        satd_chunks(src, pred, w, ss, ps, (w / 4) * (h / 4))
    }
}

proof fn lemma_pixel_index(y: int, x: int, w: int, h: int, stride: int)
    requires
        0 <= y < h,
        0 <= x < w,
        0 <= stride,
    ensures
        0 <= y * stride + x <= (h - 1) * stride + (w - 1),
{
    assert(y * stride <= (h - 1) * stride) by (nonlinear_arith)
        requires
            y <= h - 1,
            0 <= stride,
    ;
    assert(0 <= y * stride) by (nonlinear_arith)
        requires
            0 <= y,
            0 <= stride,
    ;
}

/// The SATD between a source block and its prediction, `width * height`
/// pixels with the given strides.
pub fn compute_satd(source: &[u8], prediction: &[u8], width: usize, height: usize, src_stride: usize, pred_stride: usize) -> (r: u32)
    requires
        1 <= width,
        1 <= height,
        width * height <= 0x1_0000,
        (height - 1) * src_stride + width - 1 < source@.len(),
        (height - 1) * pred_stride + width - 1 < prediction@.len(),
    ensures
        r as int == satd_spec(source@, prediction@, width as int, height as int, src_stride as int, pred_stride as int),
{
    let slen = source.len();
    let plen = prediction.len();
    let mut satd: u32 = 0;
    if width % 4 != 0 || height % 4 != 0 {
        let n = width * height;
        let mut i: usize = 0;
        while i < n
            invariant
                1 <= width,
                1 <= height,
                n == width * height,
                n <= 0x1_0000,
                slen == source@.len(),
                plen == prediction@.len(),
                (height - 1) * src_stride + width - 1 < source@.len(),
                (height - 1) * pred_stride + width - 1 < prediction@.len(),
                i <= n,
                satd as int == sad_region(source@, prediction@, width as int, src_stride as int, pred_stride as int, i as int),
                satd <= 255 * i,
            decreases n - i,
        {
            let y = i / width;
            let x = i % width;
            assert(y < height) by (nonlinear_arith)
                requires
                    i < n,
                    n == width * height,
                    y == i / width,
                    1 <= width,
            ;
            proof {
                lemma_pixel_index(y as int, x as int, width as int, height as int, src_stride as int);
                lemma_pixel_index(y as int, x as int, width as int, height as int, pred_stride as int);
            }
            let a = source[y * src_stride + x];
            let b = prediction[y * pred_stride + x];
            let d: u32 = if a >= b { (a - b) as u32 } else { (b - a) as u32 };
            satd = satd + d;
            i += 1;
        }
        return satd;
    }
    let cols = width / 4;
    let rows = height / 4;
    assert(cols * rows <= 0x1000) by (nonlinear_arith)
        requires
            cols == width / 4,
            rows == height / 4,
            width * height <= 0x1_0000,
            1 <= width,
            1 <= height,
    ;
    let chunks = cols * rows;
    let mut j: usize = 0;
    while j < chunks
        invariant
            width % 4 == 0,
            height % 4 == 0,
            1 <= width,
            1 <= height,
            cols == width / 4,
            rows == height / 4,
            chunks == cols * rows,
            chunks <= 0x1000,
            slen == source@.len(),
            plen == prediction@.len(),
            (height - 1) * src_stride + width - 1 < source@.len(),
            (height - 1) * pred_stride + width - 1 < prediction@.len(),
            j <= chunks,
            satd as int == satd_chunks(source@, prediction@, width as int, src_stride as int, pred_stride as int, j as int),
            satd <= 0x8000 * j,
        decreases chunks - j,
    {
        let by = 4 * (j / cols);
        let bx = 4 * (j % cols);
        assert(j / cols < rows) by (nonlinear_arith)
            requires
                j < chunks,
                chunks == cols * rows,
                cols >= 1,
        ;
        let ghost res = chunk_residual(source@, prediction@, src_stride as int, pred_stride as int, by as int, bx as int);
        let mut residual = [0i32; 16];
        let mut k: usize = 0;
        while k < 16
            invariant
                0 <= k <= 16,
                by + 3 < height,
                bx + 3 < width,
                slen == source@.len(),
                plen == prediction@.len(),
                (height - 1) * src_stride + width - 1 < source@.len(),
                (height - 1) * pred_stride + width - 1 < prediction@.len(),
                res == chunk_residual(source@, prediction@, src_stride as int, pred_stride as int, by as int, bx as int),
                forall|n: int| 0 <= n < k ==> #[trigger] residual@[n] as int == res[n],
                forall|n: int| 0 <= n < 16 ==> -255 <= #[trigger] residual@[n] <= 255,
            decreases 16 - k,
        {
            let y = by + k / 4;
            let x = bx + k % 4;
            proof {
                lemma_pixel_index(y as int, x as int, width as int, height as int, src_stride as int);
                lemma_pixel_index(y as int, x as int, width as int, height as int, pred_stride as int);
            }
            residual[k] = source[y * src_stride + x] as i32 - prediction[y * pred_stride + x] as i32;
            k += 1;
        }
        assert(block4(residual@, 4) =~= res);
        let transformed = hadamard_4x4(&residual, 4);
        let ghost tv = transformed@.map_values(|v: i32| v as int);
        let mut chunk_satd: u32 = 0;
        let mut m: usize = 0;
        proof {
            assert forall|q: int| 0 <= q < 16 implies -0x1000 <= #[trigger] tv[q] <= 0x1000 by {
                assert(forall|n: int| 0 <= n < 16 ==> -255 <= #[trigger] res[n] <= 255);
            }
        }
        while m < 16
            invariant
                0 <= m <= 16,
                tv == transformed@.map_values(|v: i32| v as int),
                forall|q: int| 0 <= q < 16 ==> -0x1000 <= #[trigger] tv[q] <= 0x1000,
                chunk_satd as int == sum_abs(tv, m as int),
                chunk_satd <= 0x1000 * m,
            decreases 16 - m,
        {
            let c = transformed[m];
            assert(tv[m as int] == c);
            let a: u32 = if c < 0 { (-c) as u32 } else { c as u32 };
            chunk_satd = chunk_satd + a;
            m += 1;
        }
        satd = satd + chunk_satd / 2;
        j += 1;
    }
    satd
}

/// The sign of row `i`, column `a` of the four-point Hadamard butterfly.
pub open spec fn hsign(i: int, a: int) -> int {
    if i == 0 {
        1
    } else if i == 1 {
        if a % 2 == 0 { 1 } else { -1 }
    } else if i == 2 {
        if a < 2 { 1 } else { -1 }
    } else {
        if a == 0 || a == 3 { 1 } else { -1 }
    }
}

/// The first `k` terms of the inverse transform at position `p`: the
/// outputs weighted by the signs of their row and column.
pub open spec fn inv_sum(h: Seq<int>, p: int, k: int) -> int
    decreases k,
{
    if k <= 0 {
        0
    } else {
        let m = k - 1;
        inv_sum(h, p, k - 1) + (if (hsign(m / 4, p / 4) == 1) == (hsign(m % 4, p % 4) == 1) { h[m] } else { -h[m] })
    }
}

proof fn lemma_inv_sum_bound(h: Seq<int>, p: int, k: int)
    requires
        0 <= p < 16,
        0 <= k <= h.len(),
    ensures
        -sum_abs(h, k) <= inv_sum(h, p, k) <= sum_abs(h, k),
    decreases k,
{
    if k > 0 {
        lemma_inv_sum_bound(h, p, k - 1);
    }
}

/// Applying the butterfly signs again to the transform gives back sixteen
/// times the residual.
#[verifier::rlimit(100)]
#[verifier::spinoff_prover]
proof fn lemma_hadamard_inverse(r: Seq<int>, p: int)
    requires
        r.len() == 16,
        0 <= p < 16,
    ensures
        inv_sum(hadamard_spec(r), p, 16) == 16 * r[p],
{
    let h = hadamard_spec(r);
    reveal_with_fuel(inv_sum, 17);
    assert(h[0] == r[0] + r[1] + r[2] + r[3] + r[4] + r[5] + r[6] + r[7] + r[8] + r[9] + r[10] + r[11] + r[12] + r[13] + r[14] + r[15]);
    assert(h[1] == r[0] - r[1] + r[2] - r[3] + r[4] - r[5] + r[6] - r[7] + r[8] - r[9] + r[10] - r[11] + r[12] - r[13] + r[14] - r[15]);
    assert(h[2] == r[0] + r[1] - r[2] - r[3] + r[4] + r[5] - r[6] - r[7] + r[8] + r[9] - r[10] - r[11] + r[12] + r[13] - r[14] - r[15]);
    assert(h[3] == r[0] - r[1] - r[2] + r[3] + r[4] - r[5] - r[6] + r[7] + r[8] - r[9] - r[10] + r[11] + r[12] - r[13] - r[14] + r[15]);
    assert(h[4] == r[0] + r[1] + r[2] + r[3] - r[4] - r[5] - r[6] - r[7] + r[8] + r[9] + r[10] + r[11] - r[12] - r[13] - r[14] - r[15]);
    assert(h[5] == r[0] - r[1] + r[2] - r[3] - r[4] + r[5] - r[6] + r[7] + r[8] - r[9] + r[10] - r[11] - r[12] + r[13] - r[14] + r[15]);
    assert(h[6] == r[0] + r[1] - r[2] - r[3] - r[4] - r[5] + r[6] + r[7] + r[8] + r[9] - r[10] - r[11] - r[12] - r[13] + r[14] + r[15]);
    assert(h[7] == r[0] - r[1] - r[2] + r[3] - r[4] + r[5] + r[6] - r[7] + r[8] - r[9] - r[10] + r[11] - r[12] + r[13] + r[14] - r[15]);
    assert(h[8] == r[0] + r[1] + r[2] + r[3] + r[4] + r[5] + r[6] + r[7] - r[8] - r[9] - r[10] - r[11] - r[12] - r[13] - r[14] - r[15]);
    assert(h[9] == r[0] - r[1] + r[2] - r[3] + r[4] - r[5] + r[6] - r[7] - r[8] + r[9] - r[10] + r[11] - r[12] + r[13] - r[14] + r[15]);
    assert(h[10] == r[0] + r[1] - r[2] - r[3] + r[4] + r[5] - r[6] - r[7] - r[8] - r[9] + r[10] + r[11] - r[12] - r[13] + r[14] + r[15]);
    assert(h[11] == r[0] - r[1] - r[2] + r[3] + r[4] - r[5] - r[6] + r[7] - r[8] + r[9] + r[10] - r[11] - r[12] + r[13] + r[14] - r[15]);
    assert(h[12] == r[0] + r[1] + r[2] + r[3] - r[4] - r[5] - r[6] - r[7] - r[8] - r[9] - r[10] - r[11] + r[12] + r[13] + r[14] + r[15]);
    assert(h[13] == r[0] - r[1] + r[2] - r[3] - r[4] + r[5] - r[6] + r[7] - r[8] + r[9] - r[10] + r[11] + r[12] - r[13] + r[14] - r[15]);
    assert(h[14] == r[0] + r[1] - r[2] - r[3] - r[4] - r[5] + r[6] + r[7] - r[8] - r[9] + r[10] + r[11] + r[12] + r[13] - r[14] - r[15]);
    assert(h[15] == r[0] - r[1] - r[2] + r[3] - r[4] + r[5] + r[6] - r[7] - r[8] + r[9] + r[10] - r[11] + r[12] - r[13] - r[14] + r[15]);
    if p == 0 {
    } else if p == 1 {
    } else if p == 2 {
    } else if p == 3 {
    } else if p == 4 {
    } else if p == 5 {
    } else if p == 6 {
    } else if p == 7 {
    } else if p == 8 {
    } else if p == 9 {
    } else if p == 10 {
    } else if p == 11 {
    } else if p == 12 {
    } else if p == 13 {
    } else if p == 14 {
    } else {
    }
}

proof fn lemma_sum_abs_nonneg(v: Seq<int>, n: int)
    ensures
        sum_abs(v, n) >= 0,
    decreases n,
{
    if n > 0 {
        lemma_sum_abs_nonneg(v, n - 1);
    }
}

/// The Hadamard energy of a 4x4 residual is at least sixteen times any of
/// its entries in magnitude.
proof fn lemma_energy_dominates(r: Seq<int>, p: int)
    requires
        r.len() == 16,
        0 <= p < 16,
    ensures
        16 * (if r[p] < 0 { -r[p] } else { r[p] }) <= sum_abs(hadamard_spec(r), 16),
{
    lemma_hadamard_inverse(r, p);
    lemma_inv_sum_bound(hadamard_spec(r), p, 16);
}

/// The energy term of chunk `j` in raster order.
spec fn chunk_term(src: Seq<u8>, pred: Seq<u8>, w: int, ss: int, ps: int, j: int) -> int {
    let cols = w / 4;
    sum_abs(hadamard_spec(chunk_residual(src, pred, ss, ps, 4 * (j / cols), 4 * (j % cols))), 16) / 2
}

proof fn lemma_chunks_cover(src: Seq<u8>, pred: Seq<u8>, w: int, ss: int, ps: int, n: int, j: int)
    requires
        0 <= j < n,
    ensures
        satd_chunks(src, pred, w, ss, ps, n) >= chunk_term(src, pred, w, ss, ps, j),
    decreases n,
{
    let cols = w / 4;
    let m = n - 1;
    lemma_sum_abs_nonneg(hadamard_spec(chunk_residual(src, pred, ss, ps, 4 * (m / cols), 4 * (m % cols))), 16);
    if j < m {
        lemma_chunks_cover(src, pred, w, ss, ps, m, j);
    } else {
        lemma_chunks_nonneg(src, pred, w, ss, ps, m);
    }
}

proof fn lemma_chunks_nonneg(src: Seq<u8>, pred: Seq<u8>, w: int, ss: int, ps: int, n: int)
    ensures
        satd_chunks(src, pred, w, ss, ps, n) >= 0,
    decreases n,
{
    if n > 0 {
        let cols = w / 4;
        let m = n - 1;
        lemma_chunks_nonneg(src, pred, w, ss, ps, m);
        lemma_sum_abs_nonneg(hadamard_spec(chunk_residual(src, pred, ss, ps, 4 * (m / cols), 4 * (m % cols))), 16);
    }
}

proof fn lemma_sad_covers(src: Seq<u8>, pred: Seq<u8>, w: int, ss: int, ps: int, n: int, i: int)
    requires
        0 <= i < n,
    ensures
        sad_region(src, pred, w, ss, ps, n) >= abs_diff(src[(i / w) * ss + i % w], pred[(i / w) * ps + i % w]),
    decreases n,
{
    if i < n - 1 {
        lemma_sad_covers(src, pred, w, ss, ps, n - 1, i);
    } else {
        lemma_sad_nonneg(src, pred, w, ss, ps, n - 1);
    }
}

proof fn lemma_sad_nonneg(src: Seq<u8>, pred: Seq<u8>, w: int, ss: int, ps: int, n: int)
    ensures
        sad_region(src, pred, w, ss, ps, n) >= 0,
    decreases n,
{
    if n > 0 {
        lemma_sad_nonneg(src, pred, w, ss, ps, n - 1);
    }
}

/// SATD sees every pixel of the block: it is at least the absolute
/// difference of source and prediction at any pixel, and at least eight
/// times it when both sides are multiples of four (where the block is
/// measured 4x4 chunk by chunk); in particular a block with any differing
/// pixel has a non-zero SATD.
pub proof fn lemma_satd_sees_every_pixel(src: Seq<u8>, pred: Seq<u8>, w: int, h: int, ss: int, ps: int, y: int, x: int)
    requires
        1 <= w,
        1 <= h,
        0 <= y < h,
        0 <= x < w,
    ensures
        satd_spec(src, pred, w, h, ss, ps) >= abs_diff(src[y * ss + x], pred[y * ps + x]),
        w % 4 == 0 && h % 4 == 0 ==> satd_spec(src, pred, w, h, ss, ps) >= 8 * abs_diff(src[y * ss + x], pred[y * ps + x]),
{
    if w % 4 != 0 || h % 4 != 0 {
        let i = y * w + x;
        assert(i / w == y && i % w == x && 0 <= i < w * h) by (nonlinear_arith)
            requires
                1 <= w,
                0 <= y < h,
                0 <= x < w,
                i == y * w + x,
        ;
        lemma_sad_covers(src, pred, w, ss, ps, w * h, i);
    } else {
        let cols = w / 4;
        let rows = h / 4;
        let cy = y / 4;
        let cx = x / 4;
        let j = cy * cols + cx;
        assert(j / cols == cy && j % cols == cx && 0 <= j < cols * rows) by (nonlinear_arith)
            requires
                cols >= 1,
                0 <= cx < cols,
                0 <= cy < rows,
                j == cy * cols + cx,
        ;
        lemma_chunks_cover(src, pred, w, ss, ps, cols * rows, j);
        let r = chunk_residual(src, pred, ss, ps, 4 * cy, 4 * cx);
        let p = 4 * (y % 4) + x % 4;
        assert(r[p] == src[y * ss + x] as int - pred[y * ps + x] as int);
        lemma_energy_dominates(r, p);
    }
}

} // verus!