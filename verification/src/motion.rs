use vstd::prelude::*;
use crate::cdef::{log2_floor, top_bit, top_bit_index};
use crate::directional::clamp255;
use crate::tile::{sad_spec, compute_block_sad};

verus! {

/// The motion of one 4x4 block: its vector in eighth pixels and the
/// reference it points into (negative for an intra block).
#[derive(Clone, Copy, Debug, PartialEq, Eq, Structural)]
pub struct BlockMv {
    pub mv_x: i32,
    pub mv_y: i32,
    pub ref_frame: i8,
}

impl Default for BlockMv {
    fn default() -> (r: Self)
        ensures
            r == (BlockMv { mv_x: 0, mv_y: 0, ref_frame: -1i8 }),
    {
        BlockMv { mv_x: 0, mv_y: 0, ref_frame: -1 }
    }
}

/// A candidate predictor of a motion vector, with the weight of the
/// neighbours that used it.
#[derive(Clone, Copy, Debug, PartialEq, Eq, Structural)]
pub struct MvCandidate {
    pub mv_x: i32,
    pub mv_y: i32,
    pub weight: u32,
}

/// A motion-vector difference of magnitude `diff` as AV1 codes it: the
/// class (the position of the highest bit of the integer part, 0 below
/// two), the integer part `(diff - 1) / 8` and the quarter-pel fraction
/// `((diff - 1) / 2) % 4`.
pub open spec fn mv_diff_parts(diff: u32) -> (u32, u32, u32) {
    let raw = diff - 1;
    let up = raw / 8;
    let fp = (raw / 2) % 4;
    (if up < 2 { 0 } else { log2_floor(up) as u32 }, up as u32, fp as u32)
}

/// Splits a non-zero motion-vector difference magnitude into its class,
/// integer part and fraction.
pub fn decompose_mv_diff(diff: u32) -> (r: (u32, u32, u32))
    requires
        diff >= 1,
    ensures
        r == mv_diff_parts(diff),
{
    let raw = diff - 1;
    let fp = (raw / 2) % 4;
    let up = raw / 8;
    if up < 2 {
        (0, up, fp)
    } else {
        let class = top_bit_index(up as i32);
        assert(top_bit(up as i32) == log2_floor(up as int));
        (class as u32, up, fp)
    }
}

/// The first position at or after `from` of a candidate with the vector
/// `(mv_x, mv_y)`, or -1.
pub open spec fn first_match(s: Seq<MvCandidate>, mv_x: i32, mv_y: i32, from: int) -> int
    decreases s.len() - from,
{
    if from < 0 || from >= s.len() {
        -1
    } else if s[from].mv_x == mv_x && s[from].mv_y == mv_y {
        from
    } else {
        first_match(s, mv_x, mv_y, from + 1)
    }
}

/// The candidates once the vector `(mv_x, mv_y)` has been seen with
/// `weight`: added to the weight of its candidate, or appended.
pub open spec fn with_candidate(s: Seq<MvCandidate>, mv_x: i32, mv_y: i32, weight: u32) -> Seq<MvCandidate> {
    let k = first_match(s, mv_x, mv_y, 0);
    if k >= 0 {
        s.update(k, MvCandidate { weight: (s[k].weight + weight) as u32, ..s[k] })
    } else {
        s.push(MvCandidate { mv_x, mv_y, weight })
    }
}

pub(crate) proof fn lemma_first_match_range(s: Seq<MvCandidate>, mv_x: i32, mv_y: i32, from: int)
    requires
        0 <= from,
    ensures
        first_match(s, mv_x, mv_y, from) == -1 || (from <= first_match(s, mv_x, mv_y, from) < s.len()
            && s[first_match(s, mv_x, mv_y, from)].mv_x == mv_x && s[first_match(s, mv_x, mv_y, from)].mv_y
            == mv_y),
    decreases s.len() - from,
{
    if from < s.len() && !(s[from].mv_x == mv_x && s[from].mv_y == mv_y) {
        lemma_first_match_range(s, mv_x, mv_y, from + 1);
    }
}

/// Adds `weight` to the candidate with the vector `(mv_x, mv_y)`, or
/// appends a new candidate.
pub fn add_candidate(candidates: &mut Vec<MvCandidate>, mv_x: i32, mv_y: i32, weight: u32)
    requires
        first_match(old(candidates)@, mv_x, mv_y, 0) >= 0 ==> old(candidates)@[first_match(
            old(candidates)@,
            mv_x,
            mv_y,
            0,
        )].weight + weight <= u32::MAX,
    ensures
        final(candidates)@ == with_candidate(old(candidates)@, mv_x, mv_y, weight),
{
    let ghost s = candidates@;
    proof {
        lemma_first_match_range(s, mv_x, mv_y, 0);
    }
    let mut i: usize = 0;
    while i < candidates.len()
        invariant
            candidates@ == s,
            s == old(candidates)@,
            i <= s.len(),
            first_match(s, mv_x, mv_y, 0) == first_match(s, mv_x, mv_y, i as int),
            first_match(s, mv_x, mv_y, 0) >= 0 ==> s[first_match(s, mv_x, mv_y, 0)].weight + weight
                <= u32::MAX,
        decreases s.len() - i,
    {
        if candidates[i].mv_x == mv_x && candidates[i].mv_y == mv_y {
            assert(first_match(s, mv_x, mv_y, i as int) == i);
            let mut c = candidates[i];
            c.weight = c.weight + weight;
            candidates.set(i, c);
            assert(c == MvCandidate { weight: (s[i as int].weight + weight) as u32, ..s[i as int] });
            assert(candidates@ =~= s.update(i as int, c));
            assert(first_match(s, mv_x, mv_y, 0) == i);
            assert(with_candidate(s, mv_x, mv_y, weight) == s.update(i as int, c));
            return;
        }
        assert(first_match(s, mv_x, mv_y, i as int) == first_match(s, mv_x, mv_y, i + 1));
        i += 1;
    }
    assert(first_match(s, mv_x, mv_y, i as int) == -1);
    candidates.push(MvCandidate { mv_x, mv_y, weight });
}

/// The block positions, in 4x4 units of a grid `mi_cols` wide, whose
/// motion predicts that of the block at `(bx4, by4)`: the two above it,
/// the two to its left and the one above and two to the right, those that
/// lie in the grid.
pub open spec fn mv_neighbours(mi_cols: u32, mi_rows: u32, bx4: u32, by4: u32) -> Seq<int> {
    let above_end = if bx4 + 2 < mi_cols { bx4 + 2 } else { mi_cols as int };
    let left_end = if by4 + 2 < mi_rows { by4 + 2 } else { mi_rows as int };
    let above = if by4 > 0 && bx4 < above_end {
        Seq::new((above_end - bx4) as nat, |k: int| (by4 - 1) * mi_cols + bx4 + k)
    } else {
        seq![]
    };
    let left = if bx4 > 0 && by4 < left_end {
        Seq::new((left_end - by4) as nat, |k: int| (by4 + k) * mi_cols + bx4 - 1)
    } else {
        seq![]
    };
    let right = if by4 > 0 && bx4 + 2 < mi_cols {
        seq![(by4 - 1) * mi_cols + bx4 + 2]
    } else {
        seq![]
    };
    above + left + right
}

/// The candidates that the blocks at `idxs` give, in order: each block that
/// exists and uses the first reference adds weight 2 to its vector.
pub open spec fn gather_candidates(bm: Seq<BlockMv>, idxs: Seq<int>) -> Seq<MvCandidate>
    decreases idxs.len(),
{
    if idxs.len() == 0 {
        seq![]
    } else {
        let acc = gather_candidates(bm, idxs.drop_last());
        let i = idxs.last();
        if 0 <= i < bm.len() && bm[i].ref_frame == 0 {
            with_candidate(acc, bm[i].mv_x, bm[i].mv_y, 2)
        } else {
            acc
        }
    }
}

/// Every weight in `s` is at most `w`.
pub open spec fn weights_at_most(s: Seq<MvCandidate>, w: int) -> bool {
    forall|i: int| 0 <= i < s.len() ==> #[trigger] s[i].weight <= w
}

proof fn lemma_gather_weights(bm: Seq<BlockMv>, idxs: Seq<int>)
    ensures
        weights_at_most(gather_candidates(bm, idxs), 2 * idxs.len() as int),
        gather_candidates(bm, idxs).len() <= idxs.len(),
    decreases idxs.len(),
{
    if idxs.len() > 0 {
        let acc = gather_candidates(bm, idxs.drop_last());
        lemma_gather_weights(bm, idxs.drop_last());
        let i = idxs.last();
        if 0 <= i < bm.len() && bm[i].ref_frame == 0 {
            lemma_first_match_range(acc, bm[i].mv_x, bm[i].mv_y, 0);
        }
    }
}

/// The candidates with 640 added to each weight.
pub open spec fn boosted(s: Seq<MvCandidate>) -> Seq<MvCandidate> {
    s.map_values(|c: MvCandidate| MvCandidate { weight: (c.weight + 640) as u32, ..c })
}

/// Where `c` goes in `s`, sorted by falling weight: after every candidate
/// at least as heavy, from `from` on.
pub open spec fn insert_pos(s: Seq<MvCandidate>, w: u32, from: int) -> int
    decreases s.len() - from,
{
    if from < 0 || from >= s.len() {
        s.len() as int
    } else if s[from].weight < w {
        from
    } else {
        insert_pos(s, w, from + 1)
    }
}

/// `s` sorted by falling weight, candidates of equal weight kept in their
/// order.
pub open spec fn sorted_by_weight(s: Seq<MvCandidate>) -> Seq<MvCandidate>
    decreases s.len(),
{
    if s.len() == 0 {
        s
    } else {
        let t = sorted_by_weight(s.drop_last());
        t.insert(insert_pos(t, s.last().weight, 0), s.last())
    }
}

/// Weights fall, or stay, along `s`.
pub open spec fn falling_weights(s: Seq<MvCandidate>) -> bool {
    forall|i: int, j: int| 0 <= i <= j < s.len() ==> s[i].weight >= s[j].weight
}

proof fn lemma_insert_pos(s: Seq<MvCandidate>, w: u32, from: int)
    requires
        0 <= from <= s.len(),
        falling_weights(s),
        forall|i: int| 0 <= i < from ==> s[i].weight >= w,
    ensures
        from <= insert_pos(s, w, from) <= s.len(),
        forall|i: int| 0 <= i < insert_pos(s, w, from) ==> s[i].weight >= w,
        forall|i: int| insert_pos(s, w, from) <= i < s.len() ==> s[i].weight < w,
    decreases s.len() - from,
{
    if from < s.len() && s[from].weight >= w {
        lemma_insert_pos(s, w, from + 1);
    }
}

/// Sorting by weight gives falling weights and keeps every candidate.
pub proof fn lemma_sorted_by_weight(s: Seq<MvCandidate>)
    ensures
        falling_weights(sorted_by_weight(s)),
        sorted_by_weight(s).len() == s.len(),
        sorted_by_weight(s).to_multiset() == s.to_multiset(),
    decreases s.len(),
{
    if s.len() > 0 {
        let t = sorted_by_weight(s.drop_last());
        lemma_sorted_by_weight(s.drop_last());
        let w = s.last().weight;
        lemma_insert_pos(t, w, 0);
        let p = insert_pos(t, w, 0);
        let u = t.insert(p, s.last());
        assert forall|i: int, j: int| 0 <= i <= j < u.len() implies u[i].weight >= u[j].weight by {
            if j < p {
            } else if j == p {
            } else if i < p {
            } else if i == p {
                assert(u[j] == t[j - 1]);
            } else {
                assert(u[i] == t[i - 1] && u[j] == t[j - 1]);
            }
        }
        broadcast use vstd::seq_lib::group_seq_properties, vstd::multiset::group_multiset_properties;
        assert(s =~= s.drop_last().push(s.last()));
        assert(u.to_multiset() =~= t.to_multiset().insert(s.last())) by {
            assert(u =~= t.subrange(0, p).push(s.last()) + t.subrange(p, t.len() as int));
            assert(t =~= t.subrange(0, p) + t.subrange(p, t.len() as int));
            vstd::seq_lib::lemma_multiset_commutative(t.subrange(0, p).push(s.last()), t.subrange(p, t.len() as int));
            vstd::seq_lib::lemma_multiset_commutative(t.subrange(0, p), t.subrange(p, t.len() as int));
        }
    }
}

/// Sorts candidates by falling weight, keeping the order of equal weights.
fn sort_by_weight(c: &Vec<MvCandidate>) -> (r: Vec<MvCandidate>)
    ensures
        r@ == sorted_by_weight(c@),
{
    let mut out: Vec<MvCandidate> = Vec::new();
    let mut i: usize = 0;
    while i < c.len()
        invariant
            i <= c@.len(),
            out@ == sorted_by_weight(c@.take(i as int)),
        decreases c@.len() - i,
    {
        let x = c[i];
        proof {
            lemma_sorted_by_weight(c@.take(i as int));
        }
        let mut j: usize = 0;
        while j < out.len() && out[j].weight >= x.weight
            invariant
                j <= out@.len(),
                insert_pos(out@, x.weight, 0) == insert_pos(out@, x.weight, j as int),
            decreases out@.len() - j,
        {
            j += 1;
        }
        out.insert(j, x);
        assert(c@.take(i + 1).drop_last() =~= c@.take(i as int));
        i += 1;
    }
    assert(c@.take(c@.len() as int) =~= c@);
    out
}

/// The predicted vector of the block at `(bx4, by4)` and the candidates it
/// was chosen from: the neighbours' vectors into the first reference,
/// weighted by how many neighbours use each, each weight raised by 640, in
/// falling order of weight; the prediction is the heaviest, or zero when
/// there is none.
pub open spec fn predict_mv_spec(bm: Seq<BlockMv>, mi_cols: u32, mi_rows: u32, bx4: u32, by4: u32) -> (
    i32,
    i32,
    Seq<MvCandidate>,
) {
    let g = gather_candidates(bm, mv_neighbours(mi_cols, mi_rows, bx4, by4));
    if g.len() == 0 {
        (0, 0, g)
    } else {
        let s = sorted_by_weight(boosted(g));
        (s[0].mv_x, s[0].mv_y, s)
    }
}

/// Gathers the candidates of the neighbours at `base + step * k` for `k`
/// below `count`.
fn gather_run(
    block_mvs: &[BlockMv],
    cands: &mut Vec<MvCandidate>,
    base: u32,
    step: u32,
    count: u32,
    Ghost(done): Ghost<Seq<int>>,
)
    requires
        old(cands)@ == gather_candidates(block_mvs@, done),
        base as int + step as int * count as int <= u32::MAX + step as int,
        done.len() + count <= 5,
    ensures
        final(cands)@ == gather_candidates(
            block_mvs@,
            done + Seq::new(count as nat, |k: int| base + step * k),
        ),
{
    let ghost run = Seq::new(count as nat, |k: int| base + step * k);
    let mut k: u32 = 0;
    while k < count
        invariant
            k <= count,
            run == Seq::new(count as nat, |k: int| base + step * k),
            base as int + step as int * count as int <= u32::MAX + step as int,
            done.len() + count <= 5,
            cands@ == gather_candidates(block_mvs@, done + run.take(k as int)),
        decreases count - k,
    {
        assert(step as int * k as int <= step as int * count as int - step as int) by (nonlinear_arith)
            requires
                k < count,
        ;
        let idx = base + step * k;
        let ghost now = done + run.take(k as int);
        assert(run[k as int] == idx as int);
        assert(run.take(k + 1) =~= run.take(k as int).push(idx as int));
        assert(done + run.take(k + 1) =~= now.push(idx as int));
        assert(now.push(idx as int).drop_last() =~= now);
        proof {
            lemma_gather_weights(block_mvs@, now);
        }
        if (idx as usize) < block_mvs.len() {
            let b = block_mvs[idx as usize];
            if b.ref_frame == 0 {
                proof {
                    lemma_first_match_range(cands@, b.mv_x, b.mv_y, 0);
                }
                add_candidate(cands, b.mv_x, b.mv_y, 2);
            }
        }
        k += 1;
    }
    assert(run.take(count as int) =~= run);
}

/// Predicts a block's motion vector from its neighbours in `block_mvs`, a
/// grid of 4x4 blocks `mi_cols` wide and `mi_rows` high.
pub fn predict_mv(block_mvs: &[BlockMv], mi_cols: u32, mi_rows: u32, bx4: u32, by4: u32) -> (r: (
    i32,
    i32,
    Vec<MvCandidate>,
))
    requires
        (by4 as int + 2) * mi_cols as int + bx4 as int <= u32::MAX,
        by4 > 0 ==> bx4 as int + 2 <= u32::MAX,
    ensures
        (r.0, r.1, r.2@) == predict_mv_spec(block_mvs@, mi_cols, mi_rows, bx4, by4),
{
    let ghost nb = mv_neighbours(mi_cols, mi_rows, bx4, by4);
    let mut cands: Vec<MvCandidate> = Vec::new();
    let above_end: u32 = if bx4.saturating_add(2) < mi_cols {
        bx4.saturating_add(2)
    } else {
        mi_cols
    };
    let left_end: u32 = if by4.saturating_add(2) < mi_rows {
        by4.saturating_add(2)
    } else {
        mi_rows
    };
    let ghost above: Seq<int> = if by4 > 0 && bx4 < above_end {
        Seq::new((above_end - bx4) as nat, |k: int| (by4 - 1) * mi_cols + bx4 + k)
    } else {
        seq![]
    };
    let ghost left: Seq<int> = if bx4 > 0 && by4 < left_end {
        Seq::new((left_end - by4) as nat, |k: int| (by4 + k) * mi_cols + bx4 - 1)
    } else {
        seq![]
    };
    assert(cands@ == gather_candidates(block_mvs@, seq![]));
    if by4 > 0 && bx4 < above_end {
        assert((by4 as int - 1) * mi_cols as int + 3 * mi_cols as int == (by4 as int + 2) * mi_cols as int)
            by (nonlinear_arith);
        gather_run(block_mvs, &mut cands, (by4 - 1) * mi_cols + bx4, 1, above_end - bx4, Ghost(Seq::<int>::empty()));
        assert(seq![] + Seq::new((above_end - bx4) as nat, |k: int| ((by4 - 1) * mi_cols + bx4) + 1 * k)
            =~= above);
    }
    assert(cands@ == gather_candidates(block_mvs@, above));
    if bx4 > 0 && by4 < left_end {
        assert(left_end as int * mi_cols as int <= (by4 as int + 2) * mi_cols as int) by (nonlinear_arith)
            requires
                left_end <= by4 + 2,
        ;
        assert(by4 as int * mi_cols as int <= (by4 as int + 2) * mi_cols as int) by (nonlinear_arith);
        assert(by4 as int * mi_cols as int + mi_cols as int * (left_end - by4) as int == left_end as int
            * mi_cols as int) by (nonlinear_arith);
        gather_run(block_mvs, &mut cands, by4 * mi_cols + bx4 - 1, mi_cols, left_end - by4, Ghost(above));
        let ghost run = Seq::new((left_end - by4) as nat, |k: int| (by4 * mi_cols + bx4 - 1) + mi_cols * k);
        assert forall|k: int| 0 <= k < run.len() implies #[trigger] run[k] == left[k] by {
            assert((by4 + k) * mi_cols == by4 * mi_cols + mi_cols * k) by (nonlinear_arith);
        }
        assert(run =~= left);
    }
    assert(cands@ == gather_candidates(block_mvs@, above + left));
    if by4 > 0 && bx4 + 2 < mi_cols {
        assert((by4 as int - 1) * mi_cols as int + 3 * mi_cols as int == (by4 as int + 2) * mi_cols as int)
            by (nonlinear_arith);
        gather_run(block_mvs, &mut cands, (by4 - 1) * mi_cols + bx4 + 2, 1, 1, Ghost(above + left));
        assert(above + left + Seq::new(1, |k: int| ((by4 - 1) * mi_cols + bx4 + 2) + 1 * k) =~= nb);
    } else {
        assert(above + left =~= nb);
    }
    assert(cands@ == gather_candidates(block_mvs@, nb));
    if cands.len() == 0 {
        return (0, 0, cands);
    }
    proof {
        lemma_gather_weights(block_mvs@, nb);
    }
    let ghost g = cands@;
    let mut i: usize = 0;
    while i < cands.len()
        invariant
            g.len() == cands@.len(),
            i <= g.len(),
            weights_at_most(g, 10),
            forall|j: int| 0 <= j < i ==> #[trigger] cands@[j] == boosted(g)[j],
            forall|j: int| i <= j < g.len() ==> #[trigger] cands@[j] == g[j],
        decreases g.len() - i,
    {
        let mut c = cands[i];
        c.weight = c.weight + 640;
        cands.set(i, c);
        i += 1;
    }
    assert(cands@ =~= boosted(g));
    let sorted = sort_by_weight(&cands);
    proof {
        lemma_sorted_by_weight(boosted(g));
    }
    (sorted[0].mv_x, sorted[0].mv_y, sorted)
}

/// The context for coding the choice of candidate `ref_idx`: 2 when there
/// is no next candidate, else from whether this one and the next carry the
/// full boost of 640.
pub open spec fn drl_context(s: Seq<MvCandidate>, ref_idx: int) -> usize {
    if s.len() <= ref_idx + 1 {
        2
    } else if s[ref_idx].weight >= 640 {
        if s[ref_idx + 1].weight < 640 {
            1
        } else {
            0
        }
    } else if s[ref_idx + 1].weight < 640 {
        2
    } else {
        0
    }
}

/// The context for coding which of the candidates is used.
pub fn get_drl_context(candidates: &[MvCandidate], ref_idx: usize) -> (r: usize)
    requires
        ref_idx < usize::MAX,
    ensures
        r == drl_context(candidates@, ref_idx as int),
{
    if candidates.len() <= ref_idx + 1 {
        return 2;
    }
    let cur_weight = candidates[ref_idx].weight;
    let next_weight = candidates[ref_idx + 1].weight;
    if cur_weight >= 640 {
        if next_weight < 640 {
            1
        } else {
            0
        }
    } else if next_weight < 640 {
        2
    } else {
        0
    }
}


/// The pixel at column `x`, row `y` of a plane with rows `stride` apart,
/// with `x` and `y` held below the frame's width and height.
pub open spec fn edge_pixel(plane: Seq<u8>, stride: int, x: int, y: int, fw: int, fh: int) -> u8 {
    let cy = if y < fh - 1 { y } else { fh - 1 };
    let cx = if x < fw - 1 { x } else { fw - 1 };
    plane[cy * stride + cx]
}

proof fn lemma_flat_row_col(i: int, n: int)
    requires
        0 < n,
        0 <= i < n * n,
    ensures
        0 <= i / n < n,
        0 <= i % n < n,
{
    assert(i / n < n) by (nonlinear_arith)
        requires
            0 < n,
            0 <= i < n * n,
    ;
}

/// The `block_size` by `block_size` block of a plane at `(px_x, px_y)`,
/// row by row, repeating the last column and row of the frame where the
/// block runs past them.
pub fn extract_block(
    plane: &[u8],
    plane_stride: u32,
    px_x: u32,
    px_y: u32,
    block_size: usize,
    frame_w: u32,
    frame_h: u32,
) -> (r: Vec<u8>)
    requires
        frame_w >= 1,
        frame_h >= 1,
        px_x as int + block_size as int <= u32::MAX as int + 1,
        px_y as int + block_size as int <= u32::MAX as int + 1,
        block_size as int * block_size as int <= usize::MAX,
        (frame_h as int - 1) * plane_stride as int + frame_w as int - 1 < plane@.len(),
        (frame_h as int - 1) * plane_stride as int + frame_w as int - 1 <= u32::MAX,
    ensures
        r@ == Seq::new(
            (block_size * block_size) as nat,
            |i: int|
                edge_pixel(
                    plane@,
                    plane_stride as int,
                    px_x + i % block_size as int,
                    px_y + i / block_size as int,
                    frame_w as int,
                    frame_h as int,
                ),
        ),
{
    let n = block_size * block_size;
    let mut out: Vec<u8> = Vec::new();
    let mut i: usize = 0;
    while i < n
        invariant
            i <= n,
            n == block_size * block_size,
            frame_w >= 1,
            frame_h >= 1,
            px_x as int + block_size as int <= u32::MAX as int + 1,
            px_y as int + block_size as int <= u32::MAX as int + 1,
            (frame_h as int - 1) * plane_stride as int + frame_w as int - 1 < plane@.len(),
            (frame_h as int - 1) * plane_stride as int + frame_w as int - 1 <= u32::MAX,
            out@.len() == i,
            forall|j: int|
                0 <= j < i ==> #[trigger] out@[j] == edge_pixel(
                    plane@,
                    plane_stride as int,
                    px_x + j % block_size as int,
                    px_y + j / block_size as int,
                    frame_w as int,
                    frame_h as int,
                ),
        decreases n - i,
    {
        proof {
            lemma_flat_row_col(i as int, block_size as int);
        }
        let r = i / block_size;
        let c = i % block_size;
        let sy = if px_y + (r as u32) < frame_h - 1 {
            px_y + r as u32
        } else {
            frame_h - 1
        };
        let sx = if px_x + (c as u32) < frame_w - 1 {
            px_x + c as u32
        } else {
            frame_w - 1
        };
        assert(sy as int * plane_stride as int + sx as int <= (frame_h as int - 1) * plane_stride as int
            + frame_w as int - 1) by (nonlinear_arith)
            requires
                sy <= frame_h - 1,
                sx <= frame_w - 1,
        ;
        out.push(plane[(sy * plane_stride + sx) as usize]);
        i += 1;
    }
    assert(out@ =~= Seq::new(
        (block_size * block_size) as nat,
        |i: int|
            edge_pixel(
                plane@,
                plane_stride as int,
                px_x + i % block_size as int,
                px_y + i / block_size as int,
                frame_w as int,
                frame_h as int,
            ),
    ));
    out
}

/// `|a - b|`.
pub open spec fn abs_diff(a: u8, b: u8) -> int {
    if a >= b {
        a - b
    } else {
        b - a
    }
}

/// The sum of `|src[so + k] - rf[ro + k]|` for `k` below `n`.
pub open spec fn run_sad(src: Seq<u8>, rf: Seq<u8>, so: int, ro: int, n: int) -> int
    decreases n,
{
    if n <= 0 {
        0
    } else {
        run_sad(src, rf, so, ro, n - 1) + abs_diff(src[so + n - 1], rf[ro + n - 1])
    }
}

/// The sum of absolute differences between the first `rows` rows of the
/// `bs`-wide block of `src` at `(sx, sy)` and those of the block of `rf` at
/// `(rx, ry)`, rows being `width` apart in both.
pub open spec fn block_sad(
    src: Seq<u8>,
    rf: Seq<u8>,
    width: int,
    sx: int,
    sy: int,
    rx: int,
    ry: int,
    bs: int,
    rows: int,
) -> int
    decreases rows,
{
    if rows <= 0 {
        0
    } else {
        block_sad(src, rf, width, sx, sy, rx, ry, bs, rows - 1) + run_sad(
            src,
            rf,
            (sy + rows - 1) * width + sx,
            (ry + rows - 1) * width + rx,
            bs,
        )
    }
}

proof fn lemma_run_sad_bound(src: Seq<u8>, rf: Seq<u8>, so: int, ro: int, n: int)
    requires
        0 <= n,
    ensures
        0 <= run_sad(src, rf, so, ro, n) <= 255 * n,
    decreases n,
{
    if n > 0 {
        lemma_run_sad_bound(src, rf, so, ro, n - 1);
    }
}

proof fn lemma_block_sad_bound(
    src: Seq<u8>,
    rf: Seq<u8>,
    width: int,
    sx: int,
    sy: int,
    rx: int,
    ry: int,
    bs: int,
    rows: int,
)
    requires
        0 <= rows,
        0 <= bs,
    ensures
        0 <= block_sad(src, rf, width, sx, sy, rx, ry, bs, rows) <= 255 * bs * rows,
    decreases rows,
{
    if rows > 0 {
        lemma_block_sad_bound(src, rf, width, sx, sy, rx, ry, bs, rows - 1);
        lemma_run_sad_bound(src, rf, (sy + rows - 1) * width + sx, (ry + rows - 1) * width + rx, bs);
        assert(255 * bs * (rows - 1) + 255 * bs == 255 * bs * rows) by (nonlinear_arith);
    }
}

/// The SAD of two `bs` by `bs` blocks that lie inside a `width` by
/// `height` frame.
fn block_sad_at(
    source: &[u8],
    reference: &[u8],
    width: u32,
    height: u32,
    sx: u32,
    sy: u32,
    rx: u32,
    ry: u32,
    bs: u32,
) -> (r: u32)
    requires
        sx as int + bs as int <= width,
        sy as int + bs as int <= height,
        rx as int + bs as int <= width,
        ry as int + bs as int <= height,
        width as int * height as int <= u32::MAX,
        source@.len() >= width as int * height as int,
        reference@.len() >= width as int * height as int,
        bs <= 4096,
    ensures
        r as int == block_sad(
            source@,
            reference@,
            width as int,
            sx as int,
            sy as int,
            rx as int,
            ry as int,
            bs as int,
            bs as int,
        ),
{
    let ghost sad_rows = |k: int|
        block_sad(source@, reference@, width as int, sx as int, sy as int, rx as int, ry as int, bs as int, k);
    let mut sad: u32 = 0;
    let mut row: u32 = 0;
    while row < bs
        invariant
            row <= bs <= 4096,
            sx as int + bs as int <= width,
            sy as int + bs as int <= height,
            rx as int + bs as int <= width,
            ry as int + bs as int <= height,
            width as int * height as int <= u32::MAX,
            source@.len() >= width as int * height as int,
            reference@.len() >= width as int * height as int,
            sad as int == block_sad(
                source@,
                reference@,
                width as int,
                sx as int,
                sy as int,
                rx as int,
                ry as int,
                bs as int,
                row as int,
            ),
        decreases bs - row,
    {
        let yy = sy + row;
        let ry2 = ry + row;
        assert(yy as int * width as int + width as int <= width as int * height as int) by (nonlinear_arith)
            requires
                yy < height,
        ;
        assert(ry2 as int * width as int + width as int <= width as int * height as int) by (nonlinear_arith)
            requires
                ry2 < height,
        ;
        let src_off = (yy * width + sx) as usize;
        let ref_off = (ry2 * width + rx) as usize;
        proof {
            lemma_block_sad_bound(source@, reference@, width as int, sx as int, sy as int, rx as int, ry as int, bs as int, row as int);
            assert(255 * bs * row <= 255 * 4096 * 4095) by (nonlinear_arith)
                requires
                    row < bs <= 4096,
            ;
        }
        let ghost base = sad as int;
        assert(src_off + bs <= source@.len());
        assert(ref_off + bs <= reference@.len());
        let mut col: usize = 0;
        while col < bs as usize
            invariant
                col <= bs <= 4096,
                src_off + bs <= source.len(),
                ref_off + bs <= reference.len(),
                base <= 255 * 4096 * 4095,
                sad as int == base + run_sad(source@, reference@, src_off as int, ref_off as int, col as int),
            decreases bs - col,
        {
            proof {
                lemma_run_sad_bound(source@, reference@, src_off as int, ref_off as int, col as int);
            }
            let s = source[src_off + col];
            let r = reference[ref_off + col];
            let d: u32 = if s >= r {
                (s - r) as u32
            } else {
                (r - s) as u32
            };
            sad = sad + d;
            col += 1;
        }
        row += 1;
    }
    sad
}

/// The horizontal offset of candidate `k` of the motion search.
pub open spec fn search_dx(k: int) -> int {
    k % 33 - 16
}

/// The vertical offset of candidate `k` of the motion search.
pub open spec fn search_dy(k: int) -> int {
    k / 33 - 16
}

/// Candidate `k` points at a block that lies inside the frame.
pub open spec fn search_valid(width: int, height: int, px_x: int, px_y: int, bs: int, k: int) -> bool {
    &&& px_x + search_dx(k) >= 0
    &&& px_y + search_dy(k) >= 0
    &&& px_x + search_dx(k) + bs <= width
    &&& px_y + search_dy(k) + bs <= height
}

/// The SAD of candidate `k`.
pub open spec fn search_sad(src: Seq<u8>, rf: Seq<u8>, width: int, px_x: int, px_y: int, bs: int, k: int) -> int {
    block_sad(src, rf, width, px_x, px_y, px_x + search_dx(k), px_y + search_dy(k), bs, bs)
}

/// The length of candidate `k`'s vector, `|dx| + |dy|`.
pub open spec fn search_cost(k: int) -> int {
    (if search_dx(k) < 0 { -search_dx(k) } else { search_dx(k) }) + (if search_dy(k) < 0 {
        -search_dy(k)
    } else {
        search_dy(k)
    })
}

/// Candidate `a` is preferred to candidate `b`: a smaller SAD, then a
/// shorter vector, then earlier in the search.
pub open spec fn search_prefers(
    src: Seq<u8>,
    rf: Seq<u8>,
    width: int,
    px_x: int,
    px_y: int,
    bs: int,
    a: int,
    b: int,
) -> bool {
    let sa = search_sad(src, rf, width, px_x, px_y, bs, a);
    let sb = search_sad(src, rf, width, px_x, px_y, bs, b);
    sa < sb || (sa == sb && (search_cost(a) < search_cost(b) || (search_cost(a) == search_cost(b) && a < b)))
}

/// Full-pel motion search of the `block_size` block at `(px_x, px_y)` over
/// offsets -16..=16 in each direction, keeping to blocks inside the frame:
/// the offset with the smallest SAD, then the shortest, then the first with
/// rows scanned from the top and offsets from the left. A block that does
/// not lie inside the frame gets `(0, 0)`.
pub fn motion_search_block(
    source: &[u8],
    reference: &[u8],
    width: u32,
    height: u32,
    px_x: u32,
    px_y: u32,
    block_size: u32,
) -> (r: (i32, i32))
    requires
        width <= 0x7fff_ffef,
        height <= 0x7fff_ffef,
        width as int * height as int <= u32::MAX,
        source@.len() >= width as int * height as int,
        reference@.len() >= width as int * height as int,
        block_size <= 4096,
        px_x as int + block_size as int <= u32::MAX,
        px_y as int + block_size as int <= u32::MAX,
    ensures
        !(px_x + block_size <= width && px_y + block_size <= height) ==> r == (0i32, 0i32),
        px_x + block_size <= width && px_y + block_size <= height ==> {
            let k = (r.1 + 16) * 33 + (r.0 + 16);
            &&& -16 <= r.0 <= 16
            &&& -16 <= r.1 <= 16
            &&& search_valid(width as int, height as int, px_x as int, px_y as int, block_size as int, k)
            &&& forall|j: int|
                0 <= j < 1089 && j != k && search_valid(
                    width as int,
                    height as int,
                    px_x as int,
                    px_y as int,
                    block_size as int,
                    j,
                ) ==> #[trigger] search_prefers(
                    source@,
                    reference@,
                    width as int,
                    px_x as int,
                    px_y as int,
                    block_size as int,
                    k,
                    j,
                )
        },
{
    if px_x + block_size > width || px_y + block_size > height {
        return (0, 0);
    }
    let ghost w = width as int;
    let ghost h = height as int;
    let ghost bsz = block_size as int;
    let mut best_dx: i32 = 0;
    let mut best_dy: i32 = 0;
    let mut best_sad: u32 = u32::MAX;
    let mut best_cost: i32 = 0;
    let mut found = false;
    let mut k: u32 = 0;
    while k < 1089
        invariant
            k <= 1089,
            width <= 0x7fff_ffef,
            height <= 0x7fff_ffef,
            width as int * height as int <= u32::MAX,
            source@.len() >= width as int * height as int,
            reference@.len() >= width as int * height as int,
            block_size <= 4096,
            px_x + block_size <= width,
            px_y + block_size <= height,
            found == exists|j: int| 0 <= j < k && search_valid(w, h, px_x as int, px_y as int, bsz, j),
            !found ==> best_sad == u32::MAX,
            found ==> {
                let kb = (best_dy + 16) * 33 + (best_dx + 16);
                &&& -16 <= best_dx <= 16
                &&& -16 <= best_dy <= 16
                &&& 0 <= kb < k
                &&& search_valid(w, h, px_x as int, px_y as int, bsz, kb)
                &&& best_sad as int == search_sad(source@, reference@, w, px_x as int, px_y as int, bsz, kb)
                &&& best_cost as int == search_cost(kb)
                &&& forall|j: int|
                    0 <= j < k && j != kb && search_valid(w, h, px_x as int, px_y as int, bsz, j)
                        ==> #[trigger] search_prefers(source@, reference@, w, px_x as int, px_y as int, bsz, kb, j)
            },
            w == width as int,
            h == height as int,
            bsz == block_size as int,
        decreases 1089 - k,
    {
        let dy: i32 = (k / 33) as i32 - 16;
        let dx: i32 = (k % 33) as i32 - 16;
        assert(dx as int == search_dx(k as int) && dy as int == search_dy(k as int));
        let ref_x = px_x as i32 + dx;
        let ref_y = px_y as i32 + dy;
        if ref_x < 0 || ref_y < 0 || ref_x + block_size as i32 > width as i32 || ref_y + block_size as i32
            > height as i32 {
            assert(!search_valid(w, h, px_x as int, px_y as int, bsz, k as int));
            assert(found == exists|j: int| 0 <= j < k + 1 && search_valid(w, h, px_x as int, px_y as int, bsz, j));
            k += 1;
            continue;
        }
        assert(search_valid(w, h, px_x as int, px_y as int, bsz, k as int));
        let sad = block_sad_at(
            source,
            reference,
            width,
            height,
            px_x,
            px_y,
            ref_x as u32,
            ref_y as u32,
            block_size,
        );
        proof {
            lemma_block_sad_bound(source@, reference@, w, px_x as int, px_y as int, ref_x as int, ref_y as int, bsz, bsz);
            assert(255 * bsz * bsz <= 255 * 4096 * 4096) by (nonlinear_arith)
                requires
                    0 <= bsz <= 4096,
            ;
        }
        assert(sad as int == search_sad(source@, reference@, w, px_x as int, px_y as int, bsz, k as int));
        let cost = (if dx < 0 { -dx } else { dx }) + (if dy < 0 { -dy } else { dy });
        assert(cost as int == search_cost(k as int));
        let ghost old_found = found;
        let ghost kb = (best_dy + 16) * 33 + (best_dx + 16);
        if sad < best_sad || (sad == best_sad && cost < best_cost) {
            best_sad = sad;
            best_dx = dx;
            best_dy = dy;
            best_cost = cost;
            found = true;
            assert((best_dy + 16) * 33 + (best_dx + 16) == k as int);
            assert forall|j: int|
                0 <= j < k + 1 && j != k && search_valid(w, h, px_x as int, px_y as int, bsz, j) implies #[trigger] search_prefers(
                source@,
                reference@,
                w,
                px_x as int,
                px_y as int,
                bsz,
                k as int,
                j,
            ) by {
                assert(old_found);
                if j != kb {
                    assert(search_prefers(source@, reference@, w, px_x as int, px_y as int, bsz, kb, j));
                }
            }
        } else {
            assert(old_found);
            assert forall|j: int|
                0 <= j < k + 1 && j != kb && search_valid(w, h, px_x as int, px_y as int, bsz, j) implies #[trigger] search_prefers(
                source@,
                reference@,
                w,
                px_x as int,
                px_y as int,
                bsz,
                kb,
                j,
            ) by {
                if j == k {
                    assert(kb < k);
                }
            }
        }
        assert(found == exists|j: int| 0 <= j < k + 1 && search_valid(w, h, px_x as int, px_y as int, bsz, j));
        k += 1;
    }
    assert(search_valid(w, h, px_x as int, px_y as int, bsz, 544int));
    (best_dx, best_dy)
}


broadcast use crate::shifts::lemma_shr2, crate::shifts::lemma_shr3, crate::shifts::lemma_shr6,
    crate::shifts::lemma_shr10, crate::shifts::lemma_mask_7;

/// The eight-tap sub-pixel filters, one per odd sixteenth position.
pub const SUBPEL_FILTER_8TAP: [[i8; 8]; 15] = [
    [0, 1, -3, 63, 4, -1, 0, 0],
    [0, 1, -5, 61, 9, -2, 0, 0],
    [0, 1, -6, 58, 14, -4, 1, 0],
    [0, 1, -7, 55, 19, -5, 1, 0],
    [0, 1, -7, 51, 24, -6, 1, 0],
    [0, 1, -8, 47, 29, -6, 1, 0],
    [0, 1, -7, 42, 33, -6, 1, 0],
    [0, 1, -7, 38, 38, -7, 1, 0],
    [0, 1, -6, 33, 42, -7, 1, 0],
    [0, 1, -6, 29, 47, -8, 1, 0],
    [0, 1, -6, 24, 51, -7, 1, 0],
    [0, 1, -5, 19, 55, -7, 1, 0],
    [0, 1, -4, 14, 58, -6, 1, 0],
    [0, 0, -2, 9, 61, -5, 1, 0],
    [0, 0, -1, 4, 63, -3, 1, 0],
];

/// The four-tap sub-pixel filters used for blocks of four pixels or fewer.
pub const SUBPEL_FILTER_4TAP: [[i8; 8]; 15] = [
    [0, 0, -2, 63, 4, -1, 0, 0],
    [0, 0, -4, 61, 9, -2, 0, 0],
    [0, 0, -5, 58, 14, -3, 0, 0],
    [0, 0, -6, 55, 19, -4, 0, 0],
    [0, 0, -6, 51, 24, -5, 0, 0],
    [0, 0, -7, 47, 29, -5, 0, 0],
    [0, 0, -6, 42, 33, -5, 0, 0],
    [0, 0, -6, 38, 38, -6, 0, 0],
    [0, 0, -5, 33, 42, -6, 0, 0],
    [0, 0, -5, 29, 47, -7, 0, 0],
    [0, 0, -5, 24, 51, -6, 0, 0],
    [0, 0, -4, 19, 55, -6, 0, 0],
    [0, 0, -3, 14, 58, -5, 0, 0],
    [0, 0, -2, 9, 61, -4, 0, 0],
    [0, 0, -1, 4, 63, -2, 0, 0],
];

/// `v` held between `lo` and `hi`.
pub open spec fn clamp_to(v: int, lo: int, hi: int) -> int {
    if v < lo {
        lo
    } else if v > hi {
        hi
    } else {
        v
    }
}

/// The reference pixel at `(sx, sy)`, the position held inside the frame.
pub open spec fn ref_px(rf: Seq<u8>, width: int, height: int, sx: int, sy: int) -> int {
    rf[clamp_to(sy, 0, height - 1) * width + clamp_to(sx, 0, width - 1)] as int
}

/// Tap `t` of sub-pixel filter `m` (1 to 15), eight-tap or four-tap.
pub open spec fn subpel_tap(eight: bool, m: int, t: int) -> int {
    if eight {
        SUBPEL_FILTER_8TAP[m - 1][t] as int
    } else {
        SUBPEL_FILTER_4TAP[m - 1][t] as int
    }
}

/// The first `n` taps of filter `m` across the row through `(x, y)`, the
/// first tap three pixels to the left.
pub open spec fn hfilter(rf: Seq<u8>, width: int, height: int, eight: bool, m: int, x: int, y: int, n: int) -> int
    decreases n,
{
    if n <= 0 {
        0
    } else {
        hfilter(rf, width, height, eight, m, x, y, n - 1) + subpel_tap(eight, m, n - 1) * ref_px(
            rf,
            width,
            height,
            x + n - 4,
            y,
        )
    }
}

/// The first `n` taps of filter `m` down the column through `(x, y)`, the
/// first tap three pixels above.
pub open spec fn vfilter(rf: Seq<u8>, width: int, height: int, eight: bool, m: int, x: int, y: int, n: int) -> int
    decreases n,
{
    if n <= 0 {
        0
    } else {
        vfilter(rf, width, height, eight, m, x, y, n - 1) + subpel_tap(eight, m, n - 1) * ref_px(
            rf,
            width,
            height,
            x,
            y + n - 4,
        )
    }
}

/// Row `r`, column `c` of the horizontally filtered rows, starting three
/// rows above the block, rounded to a quarter and kept in 16 bits.
pub open spec fn mid_value(rf: Seq<u8>, width: int, height: int, eight: bool, mx: int, int_x: int, int_y: int, r: int, c: int) -> i16 {
    ((hfilter(rf, width, height, eight, mx, int_x + c, int_y + r - 3, 8) + 2) / 4) as i16
}

/// The first `n` taps of filter `my` down column `c` of the horizontally
/// filtered rows, from row `r`.
pub open spec fn mid_filter(
    rf: Seq<u8>,
    width: int,
    height: int,
    eight: bool,
    mx: int,
    my: int,
    int_x: int,
    int_y: int,
    r: int,
    c: int,
    n: int,
) -> int
    decreases n,
{
    if n <= 0 {
        0
    } else {
        mid_filter(rf, width, height, eight, mx, my, int_x, int_y, r, c, n - 1) + subpel_tap(eight, my, n - 1)
            * mid_value(rf, width, height, eight, mx, int_x, int_y, r + n - 1, c) as int
    }
}

/// Pixel `(r, c)` of the block interpolated at `(int_x, int_y)` plus the
/// sixteenth offsets `mx` and `my`: a copy where both are zero, one
/// rounded pass of eight taps where one is, else a horizontal pass kept to
/// a quarter and a vertical pass over it.
pub open spec fn interp_pixel(
    rf: Seq<u8>,
    width: int,
    height: int,
    int_x: int,
    int_y: int,
    mx: int,
    my: int,
    eight: bool,
    r: int,
    c: int,
) -> u8 {
    if mx == 0 && my == 0 {
        ref_px(rf, width, height, int_x + c, int_y + r) as u8
    } else if my == 0 {
        clamp255((hfilter(rf, width, height, eight, mx, int_x + c, int_y + r, 8) + 34) / 64) as u8
    } else if mx == 0 {
        clamp255((vfilter(rf, width, height, eight, my, int_x + c, int_y + r, 8) + 32) / 64) as u8
    } else {
        clamp255((mid_filter(rf, width, height, eight, mx, my, int_x, int_y, r, c, 8) + 512) / 1024) as u8
    }
}

/// Reads the reference pixel at `(sx, sy)`, held inside the frame.
fn fetch(reference: &[u8], width: u32, height: u32, sx: i32, sy: i32) -> (r: i32)
    requires
        1 <= width <= 0x7fff_ffff,
        1 <= height <= 0x7fff_ffff,
        width as int * height as int <= u32::MAX,
        reference@.len() >= width as int * height as int,
    ensures
        r as int == ref_px(reference@, width as int, height as int, sx as int, sy as int),
        0 <= r <= 255,
{
    let w = width as i32;
    let h = height as i32;
    let cx = (if sx < 0 {
        0
    } else if sx > w - 1 {
        w - 1
    } else {
        sx
    }) as u32;
    let cy = (if sy < 0 {
        0
    } else if sy > h - 1 {
        h - 1
    } else {
        sy
    }) as u32;
    assert((cy as int) * (width as int) + (cx as int) < (width as int) * (height as int)) by (nonlinear_arith)
        requires
            cy < height,
            cx < width,
    ;
    reference[(cy * width + cx) as usize] as i32
}

/// Tap `t` of filter `m` of the eight-tap or four-tap set.
fn filter_tap(eight: bool, m: usize, t: usize) -> (r: i32)
    requires
        1 <= m <= 15,
        t < 8,
    ensures
        r as int == subpel_tap(eight, m as int, t as int),
        -128 <= r <= 127,
{
    if eight {
        SUBPEL_FILTER_8TAP[m - 1][t] as i32
    } else {
        SUBPEL_FILTER_4TAP[m - 1][t] as i32
    }
}

/// The eight taps of filter `m` along a row (`vertical` false) or a column
/// through `(x, y)`.
fn filter8(reference: &[u8], width: u32, height: u32, eight: bool, m: usize, x: i32, y: i32, vertical: bool) -> (r: i32)
    requires
        1 <= width <= 0x7fff_ffff,
        1 <= height <= 0x7fff_ffff,
        width as int * height as int <= u32::MAX,
        reference@.len() >= width as int * height as int,
        1 <= m <= 15,
        -0x4000_0000 <= x <= 0x4000_0000,
        -0x4000_0000 <= y <= 0x4000_0000,
    ensures
        !vertical ==> r as int == hfilter(reference@, width as int, height as int, eight, m as int, x as int, y as int, 8),
        vertical ==> r as int == vfilter(reference@, width as int, height as int, eight, m as int, x as int, y as int, 8),
        -8 * 128 * 255 <= r <= 8 * 128 * 255,
{
    let mut sum: i32 = 0;
    let mut t: i32 = 0;
    while t < 8
        invariant
            0 <= t <= 8,
            1 <= width <= 0x7fff_ffff,
            1 <= height <= 0x7fff_ffff,
            width as int * height as int <= u32::MAX,
            reference@.len() >= width as int * height as int,
            1 <= m <= 15,
            -0x4000_0000 <= x <= 0x4000_0000,
            -0x4000_0000 <= y <= 0x4000_0000,
            !vertical ==> sum as int == hfilter(reference@, width as int, height as int, eight, m as int, x as int, y as int, t as int),
            vertical ==> sum as int == vfilter(reference@, width as int, height as int, eight, m as int, x as int, y as int, t as int),
            -t * 128 * 255 <= sum <= t * 128 * 255,
        decreases 8 - t,
    {
        let tap = filter_tap(eight, m, t as usize);
        let p = if vertical {
            fetch(reference, width, height, x, y + t - 3)
        } else {
            fetch(reference, width, height, x + t - 3, y)
        };
        assert(-128 * 255 <= tap * p <= 128 * 255) by (nonlinear_arith)
            requires
                -128 <= tap <= 127,
                0 <= p <= 255,
        ;
        sum = sum + tap * p;
        t += 1;
    }
    sum
}

/// `(sum + add) >> shift`, held to a byte.
fn round_shift_to_byte(sum: i32, add: i32, shift: u32) -> (r: u8)
    requires
        -0x1000_0000 <= sum <= 0x1000_0000,
        0 <= add <= 512,
        shift == 6 || shift == 10,
    ensures
        r as int == clamp255((sum + add) / (if shift == 6 { 64int } else { 1024int })),
{
    let v = if shift == 6 {
        (sum + add) >> 6u32
    } else {
        (sum + add) >> 10u32
    };
    if v < 0 {
        0
    } else if v > 255 {
        255
    } else {
        v as u8
    }
}

proof fn lemma_row_col_of(q: int, c: int, bs: int)
    requires
        0 <= c < bs,
    ensures
        (q * bs + c) / bs == q,
        (q * bs + c) % bs == c,
{
    vstd::arithmetic::div_mod::lemma_fundamental_div_mod_converse(q * bs + c, bs, q, c);
}

/// The eight taps of filter `my` down column `c` of the horizontally
/// filtered rows, from row `r`.
fn mid_column(
    mid: &Vec<i16>,
    bs: usize,
    r: usize,
    c: usize,
    eight: bool,
    my: usize,
    Ghost(rf): Ghost<Seq<u8>>,
    Ghost(width): Ghost<int>,
    Ghost(height): Ghost<int>,
    Ghost(mx): Ghost<int>,
    Ghost(int_x): Ghost<int>,
    Ghost(int_y): Ghost<int>,
) -> (s: i32)
    requires
        1 <= bs <= 4096,
        r < bs,
        c < bs,
        1 <= my <= 15,
        mid@.len() == (bs + 7) * bs,
        forall|j: int|
            0 <= j < (bs + 7) * bs ==> #[trigger] mid@[j] == mid_value(rf, width, height, eight, mx, int_x, int_y, j / bs as int, j % bs as int),
    ensures
        s as int == mid_filter(rf, width, height, eight, mx, my as int, int_x, int_y, r as int, c as int, 8),
        -8 * 128 * 32768 <= s <= 8 * 128 * 32768,
{
    let mut sum: i32 = 0;
    let mut t: usize = 0;
    while t < 8
        invariant
            t <= 8,
            1 <= bs <= 4096,
            r < bs,
            c < bs,
            1 <= my <= 15,
            mid@.len() == (bs + 7) * bs,
            forall|j: int|
                0 <= j < (bs + 7) * bs ==> #[trigger] mid@[j] == mid_value(rf, width, height, eight, mx, int_x, int_y, j / bs as int, j % bs as int),
            sum as int == mid_filter(rf, width, height, eight, mx, my as int, int_x, int_y, r as int, c as int, t as int),
            -(t as int) * 128 * 32768 <= sum <= t as int * 128 * 32768,
        decreases 8 - t,
    {
        assert((r + t) * bs + c < (bs + 7) * bs <= 4103 * 4096) by (nonlinear_arith)
            requires
                r < bs <= 4096,
                t < 8,
                c < bs,
        ;
        let idx = (r + t) * bs + c;
        proof {
            lemma_row_col_of((r + t) as int, c as int, bs as int);
        }
        let tap = filter_tap(eight, my, t);
        let m = mid[idx] as i32;
        assert(-128 * 32768 <= tap * m <= 128 * 32768) by (nonlinear_arith)
            requires
                -128 <= tap <= 127,
                -32768 <= m <= 32767,
        ;
        sum = sum + tap * m;
        t += 1;
    }
    sum
}

/// The block of `block_size` by `block_size` pixels of `reference` (a
/// `width` by `height` plane) at the integer position `(int_x, int_y)` plus
/// `(phase_x, phase_y)` eighths of a pixel, row by row, with the edges of
/// the frame repeated outwards.
pub fn interpolate_block(
    reference: &[u8],
    width: u32,
    height: u32,
    int_x: i32,
    int_y: i32,
    phase_x: u32,
    phase_y: u32,
    block_size: u32,
) -> (r: Vec<u8>)
    requires
        1 <= width <= 0x7fff_ffff,
        1 <= height <= 0x7fff_ffff,
        width as int * height as int <= u32::MAX,
        reference@.len() >= width as int * height as int,
        -0x2000_0000 <= int_x <= 0x2000_0000,
        -0x2000_0000 <= int_y <= 0x2000_0000,
        phase_x <= 7,
        phase_y <= 7,
        block_size <= 4096,
    ensures
        r@ == Seq::new(
            (block_size * block_size) as nat,
            |i: int|
                interp_pixel(
                    reference@,
                    width as int,
                    height as int,
                    int_x as int,
                    int_y as int,
                    2 * phase_x,
                    2 * phase_y,
                    block_size > 4,
                    i / block_size as int,
                    i % block_size as int,
                ),
        ),
{
    let bs = block_size as usize;
    let mx = phase_x * 2;
    let my = phase_y * 2;
    let eight = block_size > 4;
    assert(bs * bs <= 0x100_0000) by (nonlinear_arith)
        requires
            bs <= 4096,
    ;
    let n = bs * bs;
    let ghost want = |i: int|
        interp_pixel(
            reference@,
            width as int,
            height as int,
            int_x as int,
            int_y as int,
            mx as int,
            my as int,
            eight,
            i / bs as int,
            i % bs as int,
        );
    let mut mid: Vec<i16> = Vec::new();
    if mx != 0 && my != 0 {
        let mid_rows = bs + 7;
        assert(mid_rows * bs <= 4103 * 4096) by (nonlinear_arith)
            requires
                mid_rows == bs + 7,
                bs <= 4096,
        ;
        let m = mid_rows * bs;
        let mut k: usize = 0;
        while k < m
            invariant
                k <= m,
                m == (bs + 7) * bs,
                bs <= 4096,
                1 <= width <= 0x7fff_ffff,
                1 <= height <= 0x7fff_ffff,
                width as int * height as int <= u32::MAX,
                reference@.len() >= width as int * height as int,
                -0x2000_0000 <= int_x <= 0x2000_0000,
                -0x2000_0000 <= int_y <= 0x2000_0000,
                1 <= mx <= 14,
                mid@.len() == k,
                forall|j: int|
                    0 <= j < k ==> #[trigger] mid@[j] == mid_value(
                        reference@,
                        width as int,
                        height as int,
                        eight,
                        mx as int,
                        int_x as int,
                        int_y as int,
                        j / bs as int,
                        j % bs as int,
                    ),
            decreases m - k,
        {
            let r = k / bs;
            let c = k % bs;
            assert(r < bs + 7) by (nonlinear_arith)
                requires
                    k < (bs + 7) * bs,
                    r == k / bs,
                    bs >= 1,
            ;
            let sum = filter8(reference, width, height, eight, mx as usize, int_x + c as i32, int_y + r as i32 - 3, false);
            mid.push(#[verifier::truncate] (((sum + 2) >> 2u32) as i16));
            k += 1;
        }
    }
    let mut out: Vec<u8> = Vec::new();
    let mut i: usize = 0;
    while i < n
        invariant
            i <= n,
            n == bs * bs,
            bs == block_size,
            bs <= 4096,
            1 <= width <= 0x7fff_ffff,
            1 <= height <= 0x7fff_ffff,
            width as int * height as int <= u32::MAX,
            reference@.len() >= width as int * height as int,
            -0x2000_0000 <= int_x <= 0x2000_0000,
            -0x2000_0000 <= int_y <= 0x2000_0000,
            mx == 2 * phase_x,
            my == 2 * phase_y,
            mx <= 14,
            my <= 14,
            eight == (block_size > 4),
            mx != 0 && my != 0 ==> mid@.len() == (bs + 7) * bs,
            mx != 0 && my != 0 ==> forall|j: int|
                0 <= j < (bs + 7) * bs ==> #[trigger] mid@[j] == mid_value(
                    reference@,
                    width as int,
                    height as int,
                    eight,
                    mx as int,
                    int_x as int,
                    int_y as int,
                    j / bs as int,
                    j % bs as int,
                ),
            out@.len() == i,
            forall|j: int|
                0 <= j < i ==> #[trigger] out@[j] == interp_pixel(
                    reference@,
                    width as int,
                    height as int,
                    int_x as int,
                    int_y as int,
                    mx as int,
                    my as int,
                    eight,
                    j / bs as int,
                    j % bs as int,
                ),
        decreases n - i,
    {
        let r = i / bs;
        let c = i % bs;
        proof {
            lemma_flat_row_col(i as int, bs as int);
        }
        let x = int_x + c as i32;
        let y = int_y + r as i32;
        let p: u8 = if mx == 0 && my == 0 {
            fetch(reference, width, height, x, y) as u8
        } else if my == 0 {
            let sum = filter8(reference, width, height, eight, mx as usize, x, y, false);
            round_shift_to_byte(sum, 34, 6)
        } else if mx == 0 {
            let sum = filter8(reference, width, height, eight, my as usize, x, y, true);
            round_shift_to_byte(sum, 32, 6)
        } else {
            let sum = mid_column(&mid, bs, r, c, eight, my as usize, Ghost(reference@), Ghost(width as int), Ghost(height as int), Ghost(mx as int), Ghost(int_x as int), Ghost(int_y as int));
            round_shift_to_byte(sum, 512, 10)
        };
        out.push(p);
        i += 1;
    }
    assert(out@ =~= Seq::new(
        (block_size * block_size) as nat,
        |i: int|
            interp_pixel(
                reference@,
                width as int,
                height as int,
                int_x as int,
                int_y as int,
                2 * phase_x,
                2 * phase_y,
                block_size > 4,
                i / block_size as int,
                i % block_size as int,
            ),
    ));
    out
}


/// The SAD between `src_block` and the `bs` by `bs` reference block at
/// `(mv_x, mv_y)` eighths of a pixel from `(px_x, px_y)`.
pub open spec fn subpel_sad(
    src_block: Seq<u8>,
    rf: Seq<u8>,
    width: int,
    height: int,
    px_x: int,
    px_y: int,
    bs: int,
    mv_x: int,
    mv_y: int,
) -> int {
    let pred = Seq::new(
        (bs * bs) as nat,
        |i: int|
            interp_pixel(rf, width, height, px_x + mv_x / 8, px_y + mv_y / 8, 2 * (mv_x % 8), 2 * (mv_y % 8), bs > 4, i / bs, i % bs),
    );
    sad_spec(src_block, pred, bs * bs)
}

/// The offset tried at step `k` of the refinement: the eight neighbours at
/// half a pixel (left, right, up, down, then the diagonals), then the same
/// at a quarter.
pub open spec fn refine_offset(k: int) -> (int, int) {
    let step = if k < 8 { 4int } else { 2int };
    let j = k % 8;
    if j == 0 {
        (-step, 0)
    } else if j == 1 {
        (step, 0)
    } else if j == 2 {
        (0, -step)
    } else if j == 3 {
        (0, step)
    } else if j == 4 {
        (-step, -step)
    } else if j == 5 {
        (-step, step)
    } else if j == 6 {
        (step, -step)
    } else {
        (step, step)
    }
}

/// `|x| + |y|`.
pub open spec fn mv_length(x: int, y: int) -> int {
    (if x < 0 { -x } else { x }) + (if y < 0 { -y } else { y })
}

/// The vector and its SAD after the first `k` refinement steps from
/// `(mv_x, mv_y)`: each step moves to the tried neighbour of the current
/// vector when that has a smaller SAD, or the same SAD and a shorter vector.
pub open spec fn refine_after(eval: spec_fn(int, int) -> int, mv_x: int, mv_y: int, k: int) -> (int, int, int)
    decreases k,
{
    if k <= 0 {
        (mv_x, mv_y, eval(mv_x, mv_y))
    } else {
        let prev = refine_after(eval, mv_x, mv_y, k - 1);
        let off = refine_offset(k - 1);
        let cx = prev.0 + off.0;
        let cy = prev.1 + off.1;
        let sad = eval(cx, cy);
        if sad < prev.2 || (sad == prev.2 && mv_length(cx, cy) < mv_length(prev.0, prev.1)) {
            (cx, cy, sad)
        } else {
            prev
        }
    }
}

/// The offset of refinement step `k`.
fn refine_offset_at(k: usize) -> (r: (i32, i32))
    requires
        k < 16,
    ensures
        (r.0 as int, r.1 as int) == refine_offset(k as int),
{
    let step: i32 = if k < 8 {
        4
    } else {
        2
    };
    match k % 8 {
        0 => (-step, 0),
        1 => (step, 0),
        2 => (0, -step),
        3 => (0, step),
        4 => (-step, -step),
        5 => (-step, step),
        6 => (step, -step),
        _ => (step, step),
    }
}

/// The SAD of the source block against the reference at `(mv_x, mv_y)`.
fn subpel_eval(
    src_block: &Vec<u8>,
    reference: &[u8],
    width: u32,
    height: u32,
    px_x: u32,
    px_y: u32,
    block_size: u32,
    mv_x: i32,
    mv_y: i32,
) -> (r: u32)
    requires
        1 <= width <= 0x7fff_ffff,
        1 <= height <= 0x7fff_ffff,
        width as int * height as int <= u32::MAX,
        reference@.len() >= width as int * height as int,
        px_x <= 0x1000_0000,
        px_y <= 0x1000_0000,
        -0x200_0000 <= mv_x <= 0x200_0000,
        -0x200_0000 <= mv_y <= 0x200_0000,
        block_size <= 4096,
        src_block@.len() == block_size as int * block_size as int,
    ensures
        r as int == subpel_sad(
            src_block@,
            reference@,
            width as int,
            height as int,
            px_x as int,
            px_y as int,
            block_size as int,
            mv_x as int,
            mv_y as int,
        ),
{
    let int_x = px_x as i32 + (mv_x >> 3u32);
    let int_y = px_y as i32 + (mv_y >> 3u32);
    let phase_x = (mv_x & 7i32) as u32;
    let phase_y = (mv_y & 7i32) as u32;
    let pred = interpolate_block(reference, width, height, int_x, int_y, phase_x, phase_y, block_size);
    assert(block_size as int * block_size as int <= 0x100_0000) by (nonlinear_arith)
        requires
            block_size <= 4096,
    ;
    compute_block_sad(src_block.as_slice(), pred.as_slice())
}

/// Refines a full-pel vector to quarter pels: two rounds over the eight
/// neighbours, at half a pixel then at a quarter, each move kept when it
/// lowers the SAD (or keeps it and shortens the vector).
pub fn subpel_refine(
    source: &[u8],
    reference: &[u8],
    width: u32,
    height: u32,
    px_x: u32,
    px_y: u32,
    block_size: u32,
    best_mv_x: i32,
    best_mv_y: i32,
) -> (r: (i32, i32))
    requires
        1 <= width <= 0x7fff_ffff,
        1 <= height <= 0x7fff_ffff,
        width as int * height as int <= u32::MAX,
        source@.len() >= width as int * height as int,
        reference@.len() >= width as int * height as int,
        px_x <= 0x1000_0000,
        px_y <= 0x1000_0000,
        -0x100_0000 <= best_mv_x <= 0x100_0000,
        -0x100_0000 <= best_mv_y <= 0x100_0000,
        block_size <= 4096,
    ensures
        ({
            let bs = block_size as int;
            let src_block = Seq::new(
                (bs * bs) as nat,
                |i: int| edge_pixel(source@, width as int, px_x + i % bs, px_y + i / bs, width as int, height as int),
            );
            let eval = |x: int, y: int|
                subpel_sad(src_block, reference@, width as int, height as int, px_x as int, px_y as int, bs, x, y);
            let fin = refine_after(eval, best_mv_x as int, best_mv_y as int, 16);
            r.0 as int == fin.0 && r.1 as int == fin.1
        }),
{
    let bs = block_size as usize;
    assert(bs * bs <= 0x100_0000) by (nonlinear_arith)
        requires
            bs <= 4096,
    ;
    assert((height as int - 1) * width as int + width as int - 1 < width as int * height as int) by (nonlinear_arith)
        requires
            1 <= width,
            1 <= height,
    ;
    let src_block = extract_block(source, width, px_x, px_y, bs, width, height);
    let ghost sb = src_block@;
    let ghost eval = |x: int, y: int|
        subpel_sad(sb, reference@, width as int, height as int, px_x as int, px_y as int, block_size as int, x, y);
    let mut bx = best_mv_x;
    let mut by = best_mv_y;
    let mut best_sad = subpel_eval(&src_block, reference, width, height, px_x, px_y, block_size, bx, by);
    let mut k: usize = 0;
    while k < 16
        invariant
            k <= 16,
            1 <= width <= 0x7fff_ffff,
            1 <= height <= 0x7fff_ffff,
            width as int * height as int <= u32::MAX,
            reference@.len() >= width as int * height as int,
            px_x <= 0x1000_0000,
            px_y <= 0x1000_0000,
            block_size <= 4096,
            src_block@ == sb,
            sb.len() == block_size as int * block_size as int,
            eval == (|x: int, y: int|
                subpel_sad(sb, reference@, width as int, height as int, px_x as int, px_y as int, block_size as int, x, y)),
            -0x100_0000 - 4 * k <= bx <= 0x100_0000 + 4 * k,
            -0x100_0000 - 4 * k <= by <= 0x100_0000 + 4 * k,
            refine_after(eval, best_mv_x as int, best_mv_y as int, k as int) == (bx as int, by as int, best_sad as int),
        decreases 16 - k,
    {
        let (dx, dy) = refine_offset_at(k);
        let cx = bx + dx;
        let cy = by + dy;
        let sad = subpel_eval(&src_block, reference, width, height, px_x, px_y, block_size, cx, cy);
        let new_cost = (if cx < 0 { -cx } else { cx }) + (if cy < 0 { -cy } else { cy });
        let old_cost = (if bx < 0 { -bx } else { bx }) + (if by < 0 { -by } else { by });
        if sad < best_sad || (sad == best_sad && new_cost < old_cost) {
            best_sad = sad;
            bx = cx;
            by = cy;
        }
        k += 1;
    }
    assert(sb =~= Seq::new(
        (bs * bs) as nat,
        |i: int| edge_pixel(source@, width as int, px_x + i % (bs as int), px_y + i / (bs as int), width as int, height as int),
    ));
    (bx, by)
}

} // verus!
