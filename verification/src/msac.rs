use vstd::prelude::*;

verus! {

/// The state of the multi-symbol arithmetic encoder: the low end of the
/// coding interval, its width, the bit counter, and the 16-bit words emitted
/// so far (each may carry into the word before it).
pub type MsacModel = (u32, u16, i16, Seq<u16>);

/// The coder's structural invariant: the width is normalised to sixteen
/// bits, the counter lies in `-9..=-1`, and the interval ends below
/// `2^(cnt + 25)`.
pub open spec fn msac_wf(low: u32, rng: u16, cnt: i16) -> bool {
    &&& 0x8000 <= rng
    &&& -9 <= cnt <= -1
    &&& (low as int) + (rng as int) <= (1u32 << ((cnt + 25) as u32)) as int
}

/// Shrinks the interval by the symbol with cumulative bounds `fl`, `fh`:
/// returns the offset added to `low` and the new width.
pub open spec fn bounds_spec(rng: u16, fl: u16, fh: u16, nms: u16) -> (int, int) {
    let r = rng as int;
    let u = if fl >= 32768 {
        r
    } else {
        ((rng as int / 256) * (fl as int / 64)) / 2 + 4 * (nms as int)
    };
    let v = ((rng as int / 256) * (fh as int / 64)) / 2 + 4 * (nms as int - 1);
    (r - u, u - v)
}

/// `fl`, `fh`, `nms` describe a symbol whose interval lies inside the current one
/// and is not empty.
pub open spec fn bounds_ok(rng: u16, fl: u16, fh: u16, nms: u16) -> bool {
    let (l, r) = bounds_spec(rng, fl, fh, nms);
    nms >= 1 && 0 <= l && 1 <= r
}

/// Renormalisation: scales the interval back to sixteen bits and moves the
/// settled high bits of `low` out as words.
pub open spec fn norm_spec(low: u32, r: u16, cnt: i16, pre: Seq<u16>) -> MsacModel {
    let d = r.leading_zeros() as i16;
    let s = cnt + d;
    if s >= 0 {
        let c = (cnt + 16) as i16;
        let m = ((1u32 << (c as u32)) - 1) as u32;
        if s >= 8 {
            let pre1 = pre.push((low >> (c as u32)) as u16);
            let low1 = low & m;
            let c2 = (c - 8) as i16;
            let m2 = m >> 8u32;
            let pre2 = pre1.push((low1 >> (c2 as u32)) as u16);
            ((low1 & m2) << (d as u32), r << (d as u16), (c2 + d - 24) as i16, pre2)
        } else {
            let pre1 = pre.push((low >> (c as u32)) as u16);
            ((low & m) << (d as u32), r << (d as u16), (c + d - 24) as i16, pre1)
        }
    } else {
        (low << (d as u32), r << (d as u16), s as i16, pre)
    }
}

/// Encoding one symbol with bounds `fl`, `fh` and `nms`.
pub open spec fn store_spec(st: MsacModel, fl: u16, fh: u16, nms: u16) -> MsacModel {
    let (l, r) = bounds_spec(st.1, fl, fh, nms);
    norm_spec((st.0 as int + l) as u32, r as u16, st.2, st.3)
}

/// Coding a bit with probability `prob` moves the coder exactly as coding
/// the same bit against a CDF whose first entry is `prob` does (and a coder
/// that does not adapt leaves that CDF as it was).
pub proof fn lemma_bool_prob_is_bool_cdf(st: MsacModel, val: bool, prob: u16, cdf: Seq<u16>)
    requires
        2 <= cdf.len(),
        cdf[0] == prob,
    ensures
        store_spec(st, if val { prob } else { 32768u16 }, if val { 0u16 } else { prob }, if val { 1u16 } else { 2u16 })
            == store_spec(st, if val { cdf[0] } else { 32768u16 }, if val { 0u16 } else { cdf[0] }, if val { 1u16 } else { 2u16 }),
{
}


/// Encoding one equiprobable bit.
pub open spec fn equi_spec(st: MsacModel, val: bool) -> MsacModel {
    let r = st.1 as int;
    let v = (((st.1 as u32 >> 8u32) << 7u32) + 4) as int;
    if val {
        norm_spec((st.0 as int + r - v) as u32, v as u16, st.2, st.3)
    } else {
        norm_spec(st.0, (r - v) as u16, st.2, st.3)
    }
}

/// Encoding a sequence of equiprobable bits in order.
pub open spec fn equi_seq_spec(st: MsacModel, bits: Seq<bool>) -> MsacModel
    decreases bits.len(),
{
    if bits.len() == 0 {
        st
    } else {
        equi_seq_spec(equi_spec(st, bits[0]), bits.drop_first())
    }
}

/// Number of bits in `x` below its leading one.
pub open spec fn golomb_len(x: u32) -> nat {
    (31 - x.leading_zeros()) as nat
}

/// The bits of the Exp-Golomb code of `val`: as many zeros as `val + 1` has
/// bits below its leading one, a one, then those bits most significant first.
pub open spec fn golomb_bits(val: u32) -> Seq<bool> {
    let x = (val + 1) as u32;
    let n = golomb_len(x);
    Seq::new(n, |i: int| false).push(true) + Seq::new(n, |i: int| (x >> ((n - 1 - i) as u32)) & 1 == 1)
}

/// The adaptation rate of a CDF with count `count` over `n` probabilities.
pub open spec fn cdf_rate(count: u16, n_symbols: u32) -> int {
    4 + (count >> 4u16) as int + if n_symbols > 2 { 1int } else { 0int }
}

/// The CDF after observing `symbol`: every entry below `symbol` moves toward
/// 32768, every other probability entry toward 0, by a shift of `cdf_rate`,
/// and the count at index `n_symbols` rises by one up to 32.
pub open spec fn update_cdf_spec(cdf: Seq<u16>, symbol: u32, n_symbols: u32) -> Seq<u16> {
    let count = cdf[n_symbols as int];
    let rate = cdf_rate(count, n_symbols);
    Seq::new(
        cdf.len(),
        |i: int|
            if i < n_symbols {
                if i < symbol {
                    (cdf[i] + ((32768 - cdf[i]) as u16 >> (rate as u16))) as u16
                } else {
                    (cdf[i] - (cdf[i] >> (rate as u16))) as u16
                }
            } else if i == n_symbols {
                if count < 32 {
                    (count + 1) as u16
                } else {
                    count
                }
            } else {
                cdf[i]
            },
    )
}

/// The two-entry CDF of an adaptive boolean after observing `val`.
pub open spec fn update_bool_cdf_spec(cdf: Seq<u16>, val: bool) -> Seq<u16> {
    let count = cdf[1];
    let rate = (4 + (count >> 4u16)) as u16;
    cdf.update(
        0,
        if val {
            (cdf[0] + ((32768 - cdf[0]) as u16 >> rate)) as u16
        } else {
            (cdf[0] - (cdf[0] >> rate)) as u16
        },
    ).update(
        1,
        if count < 32 {
            (count + 1) as u16
        } else {
            count
        },
    )
}

/// The inputs on which updating a CDF is defined: the probability entries do
/// not exceed 32768 and the shift stays below sixteen.
pub open spec fn cdf_update_ok(cdf: Seq<u16>, n_symbols: u32) -> bool {
    &&& (n_symbols as int) < cdf.len()
    &&& forall|i: int| 0 <= i < n_symbols ==> #[trigger] cdf[i] <= 32768
    &&& cdf_rate(cdf[n_symbols as int], n_symbols) < 16
}

/// A well-formed adaptive CDF over `n_symbols + 1` symbols: probability
/// entries below 32768 and non-increasing, and a count of at most 32.
pub open spec fn cdf_valid(cdf: Seq<u16>, n_symbols: u32) -> bool {
    &&& (n_symbols as int) < cdf.len()
    &&& forall|i: int| 0 <= i < n_symbols ==> #[trigger] cdf[i] < 32768
    &&& forall|i: int, j: int| 0 <= i <= j < n_symbols ==> #[trigger] cdf[i] >= #[trigger] cdf[j]
    &&& cdf[n_symbols as int] <= 32
}

/// The words `finalize` appends: the bits of `low` still buffered, rounded so
/// that any continuation decodes inside the final interval.
pub open spec fn flush_words(low: u32, cnt: i16) -> Seq<u16> {
    let m = 0x3FFFu32;
    let e = ((low + m) as u32 & !m) | (m + 1) as u32;
    let c = cnt;
    let s = 10 + c;
    let n = ((1u32 << ((c + 16) as u32)) - 1) as u32;
    let w1 = (e >> ((c + 16) as u32)) as u16;
    if s - 8 <= 0 {
        seq![w1]
    } else {
        let e2 = e & n;
        let c2 = (c - 8) as i16;
        seq![w1, (e2 >> ((c2 + 16) as u32)) as u16]
    }
}

/// The carry that flows into word `i` from the words after it.
pub open spec fn carry_into(pre: Seq<u16>, i: int) -> int
    decreases pre.len() - i,
{
    if i + 1 >= pre.len() || i < -1 {
        0
    } else {
        (carry_into(pre, i + 1) + pre[i + 1]) / 256
    }
}

/// The bytes of the emitted words once all carries are resolved.
pub open spec fn resolve_carries(pre: Seq<u16>) -> Seq<u8> {
    Seq::new(pre.len(), |i: int| ((carry_into(pre, i) + pre[i]) % 256) as u8)
}

/// Carries never exceed 256.
pub proof fn lemma_carry_bound(pre: Seq<u16>, i: int)
    ensures
        0 <= carry_into(pre, i) <= 256,
    decreases pre.len() - i,
{
    if i + 1 >= pre.len() || i < -1 {
    } else {
        lemma_carry_bound(pre, i + 1);
    }
}

/// Multi-symbol arithmetic (range) encoder.
pub struct MsacEncoder {
    low: u32,
    rng: u16,
    cnt: i16,
    precarry: Vec<u16>,
    pub allow_update_cdf: bool,
}

impl MsacEncoder {
    /// The coder state.
    pub closed spec fn model(&self) -> MsacModel {
        (self.low, self.rng, self.cnt, self.precarry@)
    }

    /// Whether coding a symbol also adapts its CDF.
    pub closed spec fn updates_cdf(&self) -> bool {
        self.allow_update_cdf
    }

    /// Turns CDF adaptation on or off; the coder state is left as it is.
    pub fn set_cdf_updates(&mut self, on: bool)
        ensures
            final(self).model() == old(self).model(),
            final(self).updates_cdf() == on,
    {
        self.allow_update_cdf = on;
    }

    /// The encoder state is well formed.
    pub open spec fn wf(&self) -> bool {
        msac_wf(self.model().0, self.model().1, self.model().2)
    }

    /// A fresh encoder: empty interval history, width 0x8000, counter -9,
    /// CDF adaptation on.
    pub fn new() -> (e: MsacEncoder)
        ensures
            e.model() == (0u32, 0x8000u16, -9i16, Seq::<u16>::empty()),
            e.updates_cdf(),
            e.wf(),
    {
        proof {
            assert((1u32 << 16u32) == 0x10000) by (bit_vector);
        }
        MsacEncoder { low: 0, rng: 0x8000, cnt: -9, precarry: Vec::new(), allow_update_cdf: true }
    }

    fn compute_bounds(&self, fl: u16, fh: u16, nms: u16) -> (res: (u32, u16))
        requires
            bounds_ok(self.rng, fl, fh, nms),
        ensures
            res.0 as int == bounds_spec(self.rng, fl, fh, nms).0,
            res.1 as int == bounds_spec(self.rng, fl, fh, nms).1,
    {
        let r = self.rng as u32;
        proof {
            assert((r / 256) * ((fl as u32) / 64) <= 255 * 1023) by (nonlinear_arith)
                requires
                    r <= 0xffff,
            ;
            assert((r / 256) * ((fh as u32) / 64) <= 255 * 1023) by (nonlinear_arith)
                requires
                    r <= 0xffff,
            ;
        }
        let mut u = ((r / 256) * ((fl as u32) / 64)) / 2 + 4 * nms as u32;
        if fl >= 32768 {
            u = r;
        }
        let v = ((r / 256) * ((fh as u32) / 64)) / 2 + 4 * (nms as u32 - 1);
        ((r - u) as u32, (u - v) as u16)
    }

    fn normalize(&mut self, low: u32, r: u16)
        requires
            r >= 1,
            -9 <= old(self).cnt <= -1,
            (low as int) + (r as int) <= (1u32 << ((old(self).cnt + 25) as u32)) as int,
        ensures
            final(self).model() == norm_spec(low, r, old(self).cnt, old(self).precarry@),
            final(self).allow_update_cdf == old(self).allow_update_cdf,
            final(self).wf(),
    {
        proof {
            lemma_norm_ok(low, r, self.cnt);
        }
        let mut low = low;
        let mut c: i16 = self.cnt;
        let d: i16 = r.leading_zeros() as i16;
        let mut s: i16 = c + d;
        if s >= 0 {
            c = c + 16;
            let cu = c as u32;
            proof {
                lemma_shift_positive(cu);
            }
            let mut m: u32 = (1u32 << cu) - 1;
            if s >= 8 {
                self.precarry.push((low >> cu) as u16);
                low = low & m;
                c = c - 8;
                m = m >> 8u32;
            }
            self.precarry.push((low >> (c as u32)) as u16);
            s = c + d - 24;
            low = low & m;
        }
        self.low = low << (d as u32);
        self.rng = r << (d as u16);
        self.cnt = s;
    }

    fn store(&mut self, fl: u16, fh: u16, nms: u16)
        requires
            old(self).wf(),
            bounds_ok(old(self).rng, fl, fh, nms),
        ensures
            final(self).model() == store_spec(old(self).model(), fl, fh, nms),
            final(self).allow_update_cdf == old(self).allow_update_cdf,
            final(self).wf(),
    {
        let (l, r) = self.compute_bounds(fl, fh, nms);
        proof {
            let cn = self.cnt;
            lemma_window_bound(cn);
        }
        let low = l + self.low;
        self.normalize(low, r);
    }

    /// Encodes `symbol` of an alphabet of `n_symbols + 1` with CDF `cdf`, then
    /// adapts the CDF if adaptation is on.
    pub fn encode_symbol(&mut self, symbol: u32, cdf: &mut [u16], n_symbols: u32)
        requires
            old(self).wf(),
            symbol <= n_symbols,
            (n_symbols as int) < old(cdf)@.len(),
            n_symbols <= 0xffff,
            bounds_ok(
                old(self).model().1,
                if symbol > 0 { old(cdf)@[symbol - 1] } else { 32768u16 },
                if symbol < n_symbols { old(cdf)@[symbol as int] } else { 0u16 },
                (n_symbols + 1 - symbol) as u16,
            ),
            old(self).updates_cdf() ==> cdf_update_ok(old(cdf)@, n_symbols),
        ensures
            final(self).model() == store_spec(
                old(self).model(),
                if symbol > 0 { old(cdf)@[symbol - 1] } else { 32768u16 },
                if symbol < n_symbols { old(cdf)@[symbol as int] } else { 0u16 },
                (n_symbols + 1 - symbol) as u16,
            ),
            final(self).updates_cdf() == old(self).updates_cdf(),
            final(self).wf(),
            final(cdf)@ == if old(self).updates_cdf() {
                update_cdf_spec(old(cdf)@, symbol, n_symbols)
            } else {
                old(cdf)@
            },
    {
        let ns = n_symbols as usize;
        let s = symbol as usize;
        let nms = (ns + 1 - s) as u16;
        let fl: u16 = if s > 0 { cdf[s - 1] } else { 32768 };
        let fh: u16 = if s < ns { cdf[s] } else { 0 };
        self.store(fl, fh, nms);
        if self.allow_update_cdf {
            Self::update_cdf(cdf, symbol, n_symbols);
        }
    }

    /// Encodes `val` with the adaptive boolean CDF `cdf` (probability, count),
    /// then adapts it if adaptation is on.
    pub fn encode_bool(&mut self, val: bool, cdf: &mut [u16])
        requires
            old(self).wf(),
            2 <= old(cdf)@.len(),
            bounds_ok(
                old(self).model().1,
                if val { old(cdf)@[0] } else { 32768u16 },
                if val { 0u16 } else { old(cdf)@[0] },
                if val { 1u16 } else { 2u16 },
            ),
            old(self).updates_cdf() ==> old(cdf)@[0] <= 32768 && 4 + (old(cdf)@[1] >> 4u16) < 16,
        ensures
            final(self).model() == store_spec(
                old(self).model(),
                if val { old(cdf)@[0] } else { 32768u16 },
                if val { 0u16 } else { old(cdf)@[0] },
                if val { 1u16 } else { 2u16 },
            ),
            final(self).updates_cdf() == old(self).updates_cdf(),
            final(self).wf(),
            final(cdf)@ == if old(self).updates_cdf() {
                update_bool_cdf_spec(old(cdf)@, val)
            } else {
                old(cdf)@
            },
    {
        let f = cdf[0];
        let nms: u16 = if val { 1 } else { 2 };
        let fl: u16 = if val { f } else { 32768 };
        let fh: u16 = if val { 0 } else { f };
        self.store(fl, fh, nms);
        if self.allow_update_cdf {
            let count = cdf[1];
            let rate: u16 = 4 + (count >> 4u16);
            let c0 = cdf[0];
            proof {
                lemma_adapt_step(c0, rate);
            }
            if val {
                cdf[0] = cdf[0] + ((32768 - cdf[0]) >> rate);
            } else {
                cdf[0] = cdf[0] - (cdf[0] >> rate);
            }
            cdf[1] = count + if count < 32 { 1 } else { 0 };
            proof {
                assert(cdf@ =~= update_bool_cdf_spec(old(cdf)@, val));
            }
        }
    }

    /// Encodes `val` with the fixed probability `prob` (no adaptation).
    pub fn encode_bool_prob(&mut self, val: bool, prob: u16)
        requires
            old(self).wf(),
            bounds_ok(
                old(self).model().1,
                if val { prob } else { 32768u16 },
                if val { 0u16 } else { prob },
                if val { 1u16 } else { 2u16 },
            ),
        ensures
            final(self).model() == store_spec(
                old(self).model(),
                if val { prob } else { 32768u16 },
                if val { 0u16 } else { prob },
                if val { 1u16 } else { 2u16 },
            ),
            final(self).updates_cdf() == old(self).updates_cdf(),
            final(self).wf(),
    {
        let nms: u16 = if val { 1 } else { 2 };
        let fl: u16 = if val { prob } else { 32768 };
        let fh: u16 = if val { 0 } else { prob };
        self.store(fl, fh, nms);
    }

    /// Encodes one bit with probability one half.
    pub fn encode_bool_equi(&mut self, val: bool)
        requires
            old(self).wf(),
        ensures
            final(self).model() == equi_spec(old(self).model(), val),
            final(self).updates_cdf() == old(self).updates_cdf(),
            final(self).wf(),
    {
        let r = self.rng as u32;
        proof {
            assert(0x8000 <= r <= 0xffff ==> 0x4000 <= ((r >> 8u32) << 7u32) + 4 && ((r >> 8u32)
                << 7u32) + 4 + 0x80 <= r) by (bit_vector);
            let cn = self.cnt;
            lemma_window_bound(cn);
        }
        let v: u16 = (((r >> 8) << 7) + 4) as u16;
        let (l, new_rng): (u32, u16) = if val {
            ((r - v as u32) as u32, v)
        } else {
            (0, (r as u16) - v)
        };
        let low = l + self.low;
        self.normalize(low, new_rng);
    }

    /// Encodes `val` as an Exp-Golomb code of equiprobable bits.
    pub fn encode_golomb(&mut self, val: u32)
        requires
            old(self).wf(),
            val < u32::MAX,
        ensures
            final(self).model() == equi_seq_spec(old(self).model(), golomb_bits(val)),
            final(self).updates_cdf() == old(self).updates_cdf(),
            final(self).wf(),
    {
        let x: u32 = val + 1;
        let num_bits: u32 = 31 - x.leading_zeros();
        let ghost bits = golomb_bits(val);
        let ghost start = self.model();
        proof {
            assert(x >= 1);
            assert(num_bits as nat == golomb_len(x));
            lemma_equi_seq_split(start, bits, 0);
        }
        let mut k: u32 = 0;
        while k < num_bits
            invariant
                k <= num_bits,
                num_bits as nat == golomb_len(x),
                x == val + 1,
                bits == golomb_bits(val),
                self.wf(),
                self.updates_cdf() == old(self).updates_cdf(),
                self.model() == equi_seq_spec(start, bits.take(k as int)),
            decreases num_bits - k,
        {
            proof {
                lemma_equi_seq_push(start, bits, k as int);
                assert(bits[k as int] == false);
            }
            self.encode_bool_equi(false);
            k = k + 1;
        }
        proof {
            lemma_equi_seq_push(start, bits, num_bits as int);
            assert(bits[num_bits as int] == true);
        }
        self.encode_bool_equi(true);
        let mut i: u32 = num_bits;
        while i > 0
            invariant
                i <= num_bits,
                num_bits as nat == golomb_len(x),
                num_bits <= 31,
                x == val + 1,
                bits == golomb_bits(val),
                self.wf(),
                self.updates_cdf() == old(self).updates_cdf(),
                self.model() == equi_seq_spec(start, bits.take(2 * num_bits - i + 1)),
            decreases i,
        {
            i = i - 1;
            let b = (x >> i) & 1 == 1;
            proof {
                lemma_equi_seq_push(start, bits, 2 * num_bits - i);
                assert(bits[2 * num_bits - i] == b);
            }
            self.encode_bool_equi(b);
        }
        proof {
            assert(bits.take(2 * num_bits + 1) =~= bits);
        }
    }

    /// Adapts `cdf` after observing `symbol`.
    pub fn update_cdf(cdf: &mut [u16], symbol: u32, n_symbols: u32)
        requires
            cdf_update_ok(old(cdf)@, n_symbols),
        ensures
            final(cdf)@ == update_cdf_spec(old(cdf)@, symbol, n_symbols),
    {
        let ns = n_symbols as usize;
        let count = cdf[ns];
        let rate: u16 = 4 + (count >> 4u16) + if n_symbols > 2 { 1 } else { 0 };
        let mut i: u32 = 0;
        while i < n_symbols
            invariant
                i <= n_symbols,
                ns == n_symbols,
                cdf@.len() == old(cdf)@.len(),
                cdf_update_ok(old(cdf)@, n_symbols),
                count == old(cdf)@[ns as int],
                rate as int == cdf_rate(count, n_symbols),
                forall|j: int|
                    0 <= j < cdf@.len() ==> #[trigger] cdf@[j] == if j < i {
                        update_cdf_spec(old(cdf)@, symbol, n_symbols)[j]
                    } else {
                        old(cdf)@[j]
                    },
            decreases n_symbols - i,
        {
            let iu = i as usize;
            let c = cdf[iu];
            proof {
                assert(c == old(cdf)@[i as int]);
                assert(c <= 32768);
                lemma_adapt_step(c, rate);
            }
            if i < symbol {
                cdf[iu] = c + ((32768 - c) >> rate);
            } else {
                cdf[iu] = c - (c >> rate);
            }
            i = i + 1;
        }
        cdf[ns] = count + if count < 32 { 1 } else { 0 };
        proof {
            assert(cdf@ =~= update_cdf_spec(old(cdf)@, symbol, n_symbols));
        }
    }

    /// Flushes the coder and returns the encoded bytes.
    pub fn finalize(self) -> (out: Vec<u8>)
        requires
            self.wf(),
        ensures
            out@ == resolve_carries(self.model().3 + flush_words(self.model().0, self.model().2)),
    {
        let mut me = self;
        let l = me.low;
        let mut c: i16 = me.cnt;
        let mut s: i16 = 10;
        let m: u32 = 0x3FFF;
        proof {
            lemma_window_bound(c);
        }
        let mut e: u32 = ((l + m) & !m) | (m + 1);
        s = s + c;
        let ghost pre0 = me.precarry@;
        if s > 0 {
            let cu = (c + 16) as u32;
            proof {
                lemma_shift_positive(cu);
            }
            let mut n: u32 = (1u32 << cu) - 1;
            me.precarry.push((e >> ((c + 16) as u32)) as u16);
            e = e & n;
            s = s - 8;
            c = c - 8;
            n = n >> 8u32;
            if s > 0 {
                me.precarry.push((e >> ((c + 16) as u32)) as u16);
            }
            proof {
                assert(me.precarry@ =~= pre0 + flush_words(self.model().0, self.model().2));
            }
        }
        let pre = me.precarry;
        let len = pre.len();
        let mut out: Vec<u8> = Vec::new();
        let mut k: usize = 0;
        while k < len
            invariant
                k <= len,
                len == pre@.len(),
                out@.len() == k,
                forall|j: int| 0 <= j < k ==> #[trigger] out@[j] == 0u8,
            decreases len - k,
        {
            out.push(0u8);
            k = k + 1;
        }
        let ghost ps = pre@;
        let mut carry: u32 = 0;
        let mut offs: usize = len;
        while offs > 0
            invariant
                offs <= len,
                len == ps.len(),
                ps == pre@,
                out@.len() == len,
                carry as int == if offs < len { carry_into(ps, offs as int - 1) } else { 0 },
                forall|j: int| offs <= j < len ==> #[trigger] out@[j] == resolve_carries(ps)[j],
            decreases offs,
        {
            offs = offs - 1;
            proof {
                lemma_carry_bound(ps, offs as int);
                assert(carry as int == carry_into(ps, offs as int));
            }
            carry = carry + pre[offs] as u32;
            proof {
                assert(carry <= 256 + 65535);
                assert(carry <= 256 + 65535 ==> (carry as u8) as int == carry % 256 && (carry >> 8u32)
                    == carry / 256) by (bit_vector);
            }
            out.set(offs, carry as u8);
            carry = carry >> 8u32;
        }
        proof {
            assert(out@ =~= resolve_carries(ps));
        }
        out
    }
}

proof fn lemma_equi_seq_split(st: MsacModel, bits: Seq<bool>, k: int)
    requires
        k == 0,
    ensures
        equi_seq_spec(st, bits.take(k)) == st,
{
    assert(bits.take(k).len() == 0);
}

proof fn lemma_equi_seq_push(st: MsacModel, bits: Seq<bool>, k: int)
    requires
        0 <= k < bits.len(),
    ensures
        equi_seq_spec(st, bits.take(k + 1)) == equi_spec(equi_seq_spec(st, bits.take(k)), bits[k]),
    decreases k,
{
    if k == 0 {
        assert(bits.take(1).drop_first() =~= Seq::<bool>::empty());
        assert(bits.take(0) =~= Seq::<bool>::empty());
        assert(equi_seq_spec(equi_spec(st, bits[0]), Seq::<bool>::empty()) == equi_spec(st, bits[0]));
        assert(equi_seq_spec(st, bits.take(0)) == st);
        assert(bits.take(1)[0] == bits[0]);
    } else {
        let st1 = equi_spec(st, bits[0]);
        lemma_equi_seq_push(st1, bits.drop_first(), k - 1);
        assert(bits.take(k + 1).drop_first() =~= bits.drop_first().take(k));
        assert(bits.take(k).drop_first() =~= bits.drop_first().take(k - 1));
        assert(bits.take(k + 1)[0] == bits[0]);
        assert(bits.take(k)[0] == bits[0]);
        assert(bits.drop_first()[k - 1] == bits[k]);
    }
}

/// Renormalisation keeps the coder well formed and never overflows.
proof fn lemma_norm_ok(low: u32, r: u16, cnt: i16)
    requires
        r >= 1,
        -9 <= cnt <= -1,
        (low as int) + (r as int) <= (1u32 << ((cnt + 25) as u32)) as int,
    ensures
        r.leading_zeros() <= 15,
        cnt + r.leading_zeros() >= 8 ==> cnt >= -7,
        ({
            let st = norm_spec(low, r, cnt, Seq::empty());
            msac_wf(st.0, st.1, st.2)
        }),
{
    broadcast use vstd::std_specs::bits::axiom_u16_leading_zeros;

    let d = r.leading_zeros();
    assert(d < 16);
    let d16 = d as u16;
    assert((r >> ((15 - d16) as u16)) & 1u16 != 0u16);
    assert(r >> ((16 - d16) as u16) == 0);
    assert(d16 < 16 && (r >> ((15 - d16) as u16)) & 1u16 != 0u16 && r >> ((16 - d16) as u16) == 0 ==> (r
        << d16) >= 0x8000u16 && ((r << d16) as u32) == ((r as u32) << (d16 as u32)))
        by (bit_vector);
    let rr = r as u32;
    let dd = d as u32;
    assert(d16 < 16 && r >> ((16 - d16) as u16) == 0 ==> (r as u32) >> ((16 - d16) as u32) == 0)
        by (bit_vector);
    assert(rr >> ((16 - dd) as u32) == 0);
    let k = (cnt + 25) as u32;
    assert(16 <= k <= 24);
    assert(rr <= 0xffff);
    assert((low as int) + (rr as int) <= (1u32 << k) as int);
    let st = norm_spec(low, r, cnt, Seq::empty());
    let s = cnt + d as i16;
    if s < 0 {
        assert(k + dd <= 24);
        assert(k <= 24 && dd <= 15 && k + dd <= 24 && rr <= 0xffff && (low as u64) + (rr as u64)
            <= ((1u32 << k) as u64) ==> ((low << dd) as u64) + ((rr << dd) as u64) <= ((1u32 << (
        k + dd)) as u64)) by (bit_vector);
        assert(st.2 == s);
        assert((st.2 + 25) as u32 == k + dd);
    } else {
        let c = (cnt + 16) as u32;
        assert(7 <= c <= 15);
        assert(c + dd >= 16);
        let m = ((1u32 << c) - 1) as u32;
        lemma_shift_positive(c);
        if s >= 8 {
            assert(c + dd >= 24);
            assert(c >= 9);
            let low1 = low & m;
            let m2 = m >> 8u32;
            assert(9 <= c <= 15 && dd <= 15 && c + dd >= 24 && m == ((1u32 << c) - 1) as u32 && rr
                >> ((16 - dd) as u32) == 0 ==> ((((low & m) & (m >> 8u32)) << dd) as u64) + ((rr
                << dd) as u64) <= ((1u32 << ((c + dd - 7) as u32)) as u64)) by (bit_vector);
            assert((st.2 + 25) as u32 == c + dd - 7);
        } else {
            assert(7 <= c <= 15 && dd <= 15 && c + dd >= 16 && c + dd < 24 && m == ((1u32 << c) - 1)
                as u32 && rr >> ((16 - dd) as u32) == 0 ==> (((low & m) << dd) as u64) + ((rr
                << dd) as u64) <= ((1u32 << ((c + dd + 1) as u32)) as u64)) by (bit_vector);
            assert((st.2 + 25) as u32 == c + dd + 1);
        }
    }
}

/// A valid CDF over at most sixteen symbols can code any of its symbols in
/// any well-formed coder state, and can be adapted afterwards.
pub proof fn lemma_valid_cdf_codes_every_symbol(
    low: u32,
    rng: u16,
    cnt: i16,
    cdf: Seq<u16>,
    symbol: u32,
    n_symbols: u32,
)
    requires
        msac_wf(low, rng, cnt),
        cdf_valid(cdf, n_symbols),
        n_symbols <= 15,
        symbol <= n_symbols,
    ensures
        bounds_ok(
            rng,
            if symbol > 0 { cdf[symbol - 1] } else { 32768u16 },
            if symbol < n_symbols { cdf[symbol as int] } else { 0u16 },
            (n_symbols + 1 - symbol) as u16,
        ),
        cdf_update_ok(cdf, n_symbols),
{
    let fl: u16 = if symbol > 0 { cdf[symbol - 1] } else { 32768u16 };
    let fh: u16 = if symbol < n_symbols { cdf[symbol as int] } else { 0u16 };
    let nms = (n_symbols + 1 - symbol) as u16;
    let count = cdf[n_symbols as int];
    lemma_count_rate(count);
    let a = rng as int / 256;
    let r = rng as int;
    assert(128 <= a <= 255);
    assert(256 * a <= r);
    let q = fh as int / 64;
    assert(q <= 511);
    let y = (a * q) / 2;
    assert(2 * y <= a * 511) by (nonlinear_arith)
        requires
            y == (a * q) / 2,
            q <= 511,
            a >= 0,
            q >= 0,
    ;
    if symbol == 0 {
        assert(r - y - 4 * (nms - 1) >= 4) by (nonlinear_arith)
            requires
                2 * y <= a * 511,
                256 * a <= r,
                a >= 128,
                nms <= 16,
        ;
    } else {
        assert(fl >= fh);
        let p = fl as int / 64;
        assert(p <= 511);
        assert(p >= q);
        let x = (a * p) / 2;
        assert(2 * x <= a * 511 && x >= y) by (nonlinear_arith)
            requires
                x == (a * p) / 2,
                y == (a * q) / 2,
                p <= 511,
                p >= q,
                a >= 0,
                q >= 0,
        ;
        assert(r - x - 4 * nms >= 4) by (nonlinear_arith)
            requires
                2 * x <= a * 511,
                256 * a <= r,
                a >= 128,
                nms <= 15,
        ;
    }
}

proof fn lemma_adapt_steps(x: u16, y: u16, rate: u16)
    requires
        y <= x < 32768,
        4 <= rate < 16,
    ensures
        x <= x + (((32768 - x) as u16) >> rate) < 32768,
        (x >> rate) <= x,
        (y >> rate) <= y,
        x - (x >> rate) <= x,
        y - (y >> rate) <= x - (x >> rate),
        y + (((32768 - y) as u16) >> rate) <= x + (((32768 - x) as u16) >> rate),
        y - (y >> rate) <= x + (((32768 - x) as u16) >> rate),
{
    assert((x < 32768 && 4 <= rate < 16 ==> x + (((32768 - x) as u16) >> rate) < 32768) && (x >> rate)
        <= x && (y >> rate) <= y && (y <= x && rate < 16 ==> y - (y >> rate) <= x - (x >> rate)) && (y
        <= x && x < 32768 && rate < 16 ==> y + (((32768 - y) as u16) >> rate) <= x + (((32768 - x)
        as u16) >> rate))) by (bit_vector);
}

/// Adapting a valid CDF keeps it valid; entries below the observed symbol
/// never decrease, the others never increase, and the count saturates at 32.
pub proof fn lemma_update_cdf_keeps_valid(cdf: Seq<u16>, symbol: u32, n_symbols: u32)
    requires
        cdf_valid(cdf, n_symbols),
        symbol <= n_symbols,
    ensures
        cdf_update_ok(cdf, n_symbols),
        cdf_valid(update_cdf_spec(cdf, symbol, n_symbols), n_symbols),
        forall|i: int|
            0 <= i < symbol ==> #[trigger] update_cdf_spec(cdf, symbol, n_symbols)[i] >= cdf[i],
        forall|i: int|
            symbol <= i < n_symbols ==> #[trigger] update_cdf_spec(cdf, symbol, n_symbols)[i]
                <= cdf[i],
        update_cdf_spec(cdf, symbol, n_symbols)[n_symbols as int] == if cdf[n_symbols as int] < 32 {
            cdf[n_symbols as int] + 1
        } else {
            32
        },
{
    let count = cdf[n_symbols as int];
    lemma_count_rate(count);
    let rate = cdf_rate(count, n_symbols) as u16;
    let nc = update_cdf_spec(cdf, symbol, n_symbols);
    assert forall|i: int| 0 <= i < n_symbols implies #[trigger] nc[i] < 32768 && (i < symbol ==> nc[i]
        >= cdf[i]) && (i >= symbol ==> nc[i] <= cdf[i]) by {
        lemma_adapt_steps(cdf[i], cdf[i], rate);
        assert(i < cdf.len());
    }
    assert forall|i: int, j: int| 0 <= i <= j < n_symbols implies #[trigger] nc[i] >= #[trigger] nc[j] by {
        lemma_adapt_steps(cdf[i], cdf[j], rate);
        lemma_adapt_steps(cdf[i], cdf[i], rate);
        lemma_adapt_steps(cdf[j], cdf[j], rate);
    }
}

/// The boolean CDF update keeps its probability below 32768 and its count
/// at most 32, and a valid boolean CDF codes either value.
pub proof fn lemma_bool_cdf_keeps_valid(low: u32, rng: u16, cnt: i16, cdf: Seq<u16>, val: bool)
    requires
        msac_wf(low, rng, cnt),
        cdf.len() >= 2,
        cdf[0] < 32768,
        cdf[1] <= 32,
    ensures
        bounds_ok(
            rng,
            if val { cdf[0] } else { 32768u16 },
            if val { 0u16 } else { cdf[0] },
            if val { 1u16 } else { 2u16 },
        ),
        4 + (cdf[1] >> 4u16) < 16,
        update_bool_cdf_spec(cdf, val)[0] < 32768,
        update_bool_cdf_spec(cdf, val)[1] <= 32,
        val ==> update_bool_cdf_spec(cdf, val)[0] >= cdf[0],
        !val ==> update_bool_cdf_spec(cdf, val)[0] <= cdf[0],
{
    let two = seq![cdf[0], 0u16];
    let n: u32 = 1;
    assert(cdf_valid(two, n));
    lemma_valid_cdf_codes_every_symbol(low, rng, cnt, two, if val { 1u32 } else { 0u32 }, n);
    let count = cdf[1];
    lemma_count_rate(count);
    lemma_adapt_steps(cdf[0], cdf[0], (4 + (count >> 4u16)) as u16);
}

proof fn lemma_window_bound(cn: i16)
    requires
        -9 <= cn <= -1,
    ensures
        (1u32 << ((cn + 25) as u32)) <= 0x0100_0000,
{
    assert((1u32 << ((cn + 25) as u32)) <= 0x0100_0000) by (bit_vector)
        requires
            -9 <= cn <= -1,
    ;
}

proof fn lemma_count_rate(count: u16)
    requires
        count <= 32,
    ensures
        (count >> 4u16) <= 2,
{
    assert((count >> 4u16) <= 2) by (bit_vector)
        requires
            count <= 32,
    ;
}

proof fn lemma_shift_positive(c: u32)
    requires
        c <= 31,
    ensures
        (1u32 << c) >= 1,
{
    assert(c <= 31 ==> (1u32 << c) >= 1) by (bit_vector);
}

proof fn lemma_adapt_step(c: u16, rate: u16)
    requires
        c <= 32768,
        rate < 16,
    ensures
        c + (((32768 - c) as u16) >> rate) <= 32768,
        (c >> rate) <= c,
{
    assert(c <= 32768 && rate < 16 ==> c + (((32768 - c) as u16) >> rate) <= 32768 && (c >> rate) <= c)
        by (bit_vector);
}

} // verus!
