use vstd::prelude::*;

verus! {

/// The eight bits of a byte, most significant first.
pub open spec fn byte_bits(b: u8) -> Seq<bool> {
    Seq::new(8, |i: int| (b >> ((7 - i) as u8)) & 1 == 1)
}

/// The bits of a byte string, each byte most significant bit first.
pub open spec fn bytes_to_bits(s: Seq<u8>) -> Seq<bool>
    decreases s.len(),
{
    if s.len() == 0 {
        Seq::empty()
    } else {
        bytes_to_bits(s.drop_last()) + byte_bits(s.last())
    }
}

/// The low `n` bits of `v`, most significant first.
pub open spec fn value_bits(v: u64, n: nat) -> Seq<bool> {
    Seq::new(n, |i: int| (v >> ((n - 1 - i) as u64)) & 1 == 1)
}

/// A run of `n` zero bits.
pub open spec fn zero_bits(n: nat) -> Seq<bool> {
    Seq::new(n, |i: int| false)
}

/// Number of zero bits that bring a bit count up to a whole number of bytes.
pub open spec fn pad_len(n: nat) -> nat {
    if n % 8 == 0 { 0 } else { (8 - n % 8) as nat }
}

/// A bit string followed by the zero bits that complete its last byte.
pub open spec fn padded(bits: Seq<bool>) -> Seq<bool> {
    bits + zero_bits(pad_len(bits.len()))
}

/// Number of bytes needed to hold `n` bits.
pub open spec fn byte_len(n: nat) -> nat {
    (n + 7) / 8
}

/// Writes bits most significant first into a byte buffer.
pub struct BitWriter {
    buf: Vec<u8>,
    current_byte: u8,
    bits_in_current: u8,
}

impl BitWriter {
    /// The writer holds fewer than eight pending bits, and no stray high bits.
    pub closed spec fn wf(&self) -> bool {
        &&& self.bits_in_current < 8
        &&& (self.current_byte as int) < pow2_u8(self.bits_in_current)
    }

    /// Number of written bits not yet stored in a whole byte.
    pub closed spec fn pending(&self) -> nat {
        self.bits_in_current as nat
    }

    /// Every bit written so far, in order.
    pub closed spec fn bits(&self) -> Seq<bool> {
        bytes_to_bits(self.buf@) + value_bits(self.current_byte as u64, self.bits_in_current as nat)
    }

    /// An empty writer.
    pub fn new() -> (w: BitWriter)
        ensures
            w.wf(),
            w.bits() == Seq::<bool>::empty(),
    {
        let w = BitWriter { buf: Vec::new(), current_byte: 0, bits_in_current: 0 };
        proof {
            assert(value_bits(0, 0) =~= Seq::<bool>::empty());
            assert(bytes_to_bits(w.buf@) =~= Seq::<bool>::empty());
        }
        w
    }

    /// Appends one bit.
    pub fn write_bit(&mut self, bit: bool)
        requires
            old(self).wf(),
        ensures
            final(self).wf(),
            final(self).bits() == old(self).bits().push(bit),
    {
        let ghost old_buf = self.buf@;
        let c = self.current_byte;
        let n = self.bits_in_current;
        let b: u8 = if bit { 1 } else { 0 };
        proof {
            lemma_pow2_u8(n);
        }
        let nc: u8 = (c << 1u8) | b;
        proof {
            lemma_shift_in_bit(c, n, b);
            assert(value_bits(nc as u64, (n + 1) as nat) =~= value_bits(c as u64, n as nat).push(bit));
        }
        if n + 1 == 8 {
            self.buf.push(nc);
            self.current_byte = 0;
            self.bits_in_current = 0;
            proof {
                lemma_value_bits_byte(nc);
                assert(self.buf@.drop_last() =~= old_buf);
                assert(value_bits(0, 0) =~= Seq::<bool>::empty());
                assert(bytes_to_bits(self.buf@) == bytes_to_bits(old_buf) + byte_bits(nc));
                assert(self.bits() =~= bytes_to_bits(old_buf) + value_bits(c as u64, n as nat).push(bit));
            }
        } else {
            self.current_byte = nc;
            self.bits_in_current = n + 1;
            proof {
                lemma_pow2_u8((n + 1) as u8);
                assert(self.bits() =~= bytes_to_bits(old_buf) + value_bits(c as u64, n as nat).push(bit));
            }
        }
    }

    /// Appends the low `n` bits of `value`, most significant first.
    pub fn write_bits(&mut self, value: u64, n: u8)
        requires
            old(self).wf(),
            n <= 64,
        ensures
            final(self).wf(),
            final(self).bits() == old(self).bits() + value_bits(value, n as nat),
    {
        let ghost start = self.bits();
        let mut i: u8 = n;
        while i > 0
            invariant
                self.wf(),
                i <= n,
                n <= 64,
                self.bits() =~= start + value_bits(value, n as nat).take((n - i) as int),
            decreases i,
        {
            i = i - 1;
            let bit = (value >> i) & 1 == 1;
            let ghost before = self.bits();
            self.write_bit(bit);
            proof {
                assert(value_bits(value, n as nat)[(n - 1 - i) as int] == bit);
                assert(value_bits(value, n as nat).take((n - i) as int) =~= value_bits(
                    value,
                    n as nat,
                ).take((n - 1 - i) as int).push(bit));
            }
        }
        proof {
            assert(value_bits(value, n as nat).take(n as int) =~= value_bits(value, n as nat));
        }
    }

    /// Pads the pending bits with zeros up to a byte boundary.
    pub fn byte_align(&mut self)
        requires
            old(self).wf(),
        ensures
            final(self).wf(),
            final(self).bits() == padded(old(self).bits()),
            final(self).pending() == 0,
    {
        proof {
            lemma_bytes_to_bits_len(self.buf@);
        }
        if self.bits_in_current > 0 {
            let ghost old_buf = self.buf@;
            let c = self.current_byte;
            let n = self.bits_in_current;
            let pad: u8 = 8 - n;
            proof {
                lemma_pow2_u8(n);
            }
            let nb: u8 = c << pad;
            proof {
                lemma_shift_pad(c, n);
                lemma_value_bits_byte(nb);
            }
            self.buf.push(nb);
            self.current_byte = 0;
            self.bits_in_current = 0;
            proof {
                assert(self.buf@.drop_last() =~= old_buf);
                assert(value_bits(0, 0) =~= Seq::<bool>::empty());
                assert((8 * old_buf.len() + n) % 8 == n as int) by (nonlinear_arith)
                    requires
                        n < 8,
                ;
                assert(self.bits() =~= padded(bytes_to_bits(old_buf) + value_bits(c as u64, n as nat)));
            }
        } else {
            proof {
                assert(value_bits(self.current_byte as u64, 0) =~= Seq::<bool>::empty());
                assert((8 * self.buf@.len()) % 8 == 0) by (nonlinear_arith);
                assert(zero_bits(0) =~= Seq::<bool>::empty());
                assert(padded(self.bits()) =~= self.bits());
            }
        }
    }

    /// Pads to a byte boundary and returns the bytes written.
    pub fn finalize(self) -> (out: Vec<u8>)
        requires
            self.wf(),
        ensures
            bytes_to_bits(out@) == padded(self.bits()),
            out@.len() == byte_len(self.bits().len()),
    {
        let mut s = self;
        s.byte_align();
        proof {
            lemma_bytes_to_bits_len(s.buf@);
            lemma_bytes_to_bits_len(self.buf@);
            assert(value_bits(s.current_byte as u64, 0) =~= Seq::<bool>::empty());
            assert(s.bits() =~= bytes_to_bits(s.buf@));
            lemma_padded_byte_len(self.bits().len());
        }
        s.buf
    }

    /// Writes a single one bit, pads to a byte boundary and returns the bytes.
    pub fn trailing_bits(self) -> (out: Vec<u8>)
        requires
            self.wf(),
        ensures
            bytes_to_bits(out@) == padded(self.bits().push(true)),
            out@.len() == byte_len(self.bits().len() + 1),
    {
        let mut s = self;
        s.write_bit(true);
        s.finalize()
    }
}

/// `2^n` for a bit count below eight.
pub open spec fn pow2_u8(n: u8) -> int {
    if n == 0 { 1 } else if n == 1 { 2 } else if n == 2 { 4 } else if n == 3 { 8 } else if n
        == 4 { 16 } else if n == 5 { 32 } else if n == 6 { 64 } else if n == 7 { 128 } else {
        256
    }
}

proof fn lemma_pow2_u8(n: u8)
    requires
        n <= 8,
    ensures
        pow2_u8(n) == (1u64 << n),
{
    assert(n <= 8 ==> (n == 0 ==> (1u64 << n) == 1) && (n == 1 ==> (1u64 << n) == 2) && (n == 2
        ==> (1u64 << n) == 4) && (n == 3 ==> (1u64 << n) == 8) && (n == 4 ==> (1u64 << n) == 16)
        && (n == 5 ==> (1u64 << n) == 32) && (n == 6 ==> (1u64 << n) == 64) && (n == 7 ==> (1u64
        << n) == 128) && (n == 8 ==> (1u64 << n) == 256)) by (bit_vector);
}

proof fn lemma_shift_in_bit(c: u8, n: u8, b: u8)
    requires
        n < 8,
        (c as int) < pow2_u8(n),
        b <= 1,
    ensures
        (((c << 1u8) | b) as int) < pow2_u8((n + 1) as u8),
        value_bits(((c << 1u8) | b) as u64, (n + 1) as nat) == value_bits(c as u64, n as nat).push(
            b == 1,
        ),
{
    lemma_pow2_u8(n);
    lemma_pow2_u8((n + 1) as u8);
    assert(n < 8 && (c as u64) < (1u64 << n) && b <= 1 ==> (((c << 1u8) | b) as u64) < (1u64 << (
    n + 1) as u64)) by (bit_vector);
    let nc = ((c << 1u8) | b) as u64;
    let lhs = value_bits(nc, (n + 1) as nat);
    let rhs = value_bits(c as u64, n as nat).push(b == 1);
    assert forall|j: int| 0 <= j < n + 1 implies #[trigger] lhs[j] == rhs[j] by {
        let k: u64 = (n - j) as u64;
        assert(lhs[j] == ((nc >> k) & 1 == 1));
        if j < n {
            assert(rhs[j] == (((c as u64) >> (k - 1) as u64) & 1 == 1));
            assert(1 <= k <= 7 && b <= 1 ==> ((((c << 1u8) | b) as u64 >> k) & 1) == (((
            c as u64) >> (k - 1) as u64) & 1)) by (bit_vector);
        } else {
            assert(k == 0);
            assert(b <= 1 ==> ((((c << 1u8) | b) as u64 >> 0u64) & 1 == 1) == (b == 1))
                by (bit_vector);
        }
    }
    assert(lhs =~= rhs);
}

proof fn lemma_shift_pad(c: u8, n: u8)
    requires
        0 < n < 8,
        (c as int) < pow2_u8(n),
    ensures
        value_bits((c << ((8 - n) as u8)) as u64, 8) == value_bits(c as u64, n as nat) + zero_bits(
            (8 - n) as nat,
        ),
{
    lemma_pow2_u8(n);
    let nb = (c << ((8 - n) as u8)) as u64;
    let lhs = value_bits(nb, 8);
    let rhs = value_bits(c as u64, n as nat) + zero_bits((8 - n) as nat);
    assert forall|j: int| 0 <= j < 8 implies #[trigger] lhs[j] == rhs[j] by {
        let k: u64 = (7 - j) as u64;
        assert(lhs[j] == ((nb >> k) & 1 == 1));
        if j < n {
            let m: u64 = (n - 1 - j) as u64;
            assert(rhs[j] == (((c as u64) >> m) & 1 == 1));
            assert(k == m + 8 - n);
            assert(0 < n < 8 && m < n && (c as u64) < (1u64 << n) ==> (((c << ((8 - n) as u8))
                as u64 >> (m + 8 - n) as u64) & 1) == (((c as u64) >> m) & 1)) by (bit_vector);
        } else {
            assert(rhs[j] == false);
            assert(k < 8 - n);
            assert(0 < n < 8 && k < 8 - n ==> (((c << ((8 - n) as u8)) as u64 >> k) & 1) == 0)
                by (bit_vector);
        }
    }
    assert(lhs =~= rhs);
}

proof fn lemma_value_bits_byte(b: u8)
    ensures
        value_bits(b as u64, 8) == byte_bits(b),
{
    assert forall|i: int| 0 <= i < 8 implies #[trigger] value_bits(b as u64, 8)[i] == byte_bits(
        b,
    )[i] by {
        let k = (7 - i) as u8;
        assert(k < 8 ==> ((b as u64 >> (k as u64)) & 1 == 1) == ((b >> k) & 1 == 1))
            by (bit_vector);
    }
    assert(value_bits(b as u64, 8) =~= byte_bits(b));
}

/// The bit string of `n` bytes has `8 n` bits.
pub proof fn lemma_bytes_to_bits_len(s: Seq<u8>)
    ensures
        bytes_to_bits(s).len() == 8 * s.len(),
    decreases s.len(),
{
    if s.len() > 0 {
        lemma_bytes_to_bits_len(s.drop_last());
    }
}

proof fn lemma_padded_byte_len(n: nat)
    ensures
        (n + pad_len(n)) % 8 == 0,
        (n + pad_len(n)) / 8 == byte_len(n),
{
}

/// Bit `j` of a byte string is bit `j % 8` (most significant first) of byte `j / 8`.
pub proof fn lemma_bytes_to_bits_index(s: Seq<u8>, j: int)
    requires
        0 <= j < 8 * s.len(),
    ensures
        bytes_to_bits(s)[j] == ((s[j / 8] >> ((7 - j % 8) as u8)) & 1 == 1),
    decreases s.len(),
{
    let pre = s.drop_last();
    lemma_bytes_to_bits_len(pre);
    if j < 8 * pre.len() {
        lemma_bytes_to_bits_index(pre, j);
        assert(s[j / 8] == pre[j / 8]);
    } else {
        assert(j / 8 == pre.len());
        assert(j % 8 == j - 8 * pre.len());
        assert(bytes_to_bits(s)[j] == byte_bits(s.last())[j - 8 * pre.len()]);
    }
}

/// A byte is fixed by its eight bits.
proof fn lemma_byte_bits_injective(a: u8, b: u8)
    requires
        byte_bits(a) == byte_bits(b),
    ensures
        a == b,
{
    assert(byte_bits(a)[0] == byte_bits(b)[0] && byte_bits(a)[1] == byte_bits(b)[1]);
    assert(byte_bits(a)[0] == ((a >> 7u8) & 1 == 1) && byte_bits(b)[0] == ((b >> 7u8) & 1 == 1));
    assert(byte_bits(a)[1] == ((a >> 6u8) & 1 == 1) && byte_bits(b)[1] == ((b >> 6u8) & 1 == 1));
    assert(byte_bits(a)[2] == ((a >> 5u8) & 1 == 1) && byte_bits(b)[2] == ((b >> 5u8) & 1 == 1));
    assert(byte_bits(a)[3] == ((a >> 4u8) & 1 == 1) && byte_bits(b)[3] == ((b >> 4u8) & 1 == 1));
    assert(byte_bits(a)[4] == ((a >> 3u8) & 1 == 1) && byte_bits(b)[4] == ((b >> 3u8) & 1 == 1));
    assert(byte_bits(a)[5] == ((a >> 2u8) & 1 == 1) && byte_bits(b)[5] == ((b >> 2u8) & 1 == 1));
    assert(byte_bits(a)[6] == ((a >> 1u8) & 1 == 1) && byte_bits(b)[6] == ((b >> 1u8) & 1 == 1));
    assert(byte_bits(a)[7] == ((a >> 0u8) & 1 == 1) && byte_bits(b)[7] == ((b >> 0u8) & 1 == 1));
    assert(byte_bits(a)[2] == byte_bits(b)[2] && byte_bits(a)[3] == byte_bits(b)[3]);
    assert(byte_bits(a)[4] == byte_bits(b)[4] && byte_bits(a)[5] == byte_bits(b)[5]);
    assert(byte_bits(a)[6] == byte_bits(b)[6] && byte_bits(a)[7] == byte_bits(b)[7]);
    assert(a == b) by (bit_vector)
        requires
            ((a >> 7u8) & 1 == 1) == ((b >> 7u8) & 1 == 1),
            ((a >> 6u8) & 1 == 1) == ((b >> 6u8) & 1 == 1),
            ((a >> 5u8) & 1 == 1) == ((b >> 5u8) & 1 == 1),
            ((a >> 4u8) & 1 == 1) == ((b >> 4u8) & 1 == 1),
            ((a >> 3u8) & 1 == 1) == ((b >> 3u8) & 1 == 1),
            ((a >> 2u8) & 1 == 1) == ((b >> 2u8) & 1 == 1),
            ((a >> 1u8) & 1 == 1) == ((b >> 1u8) & 1 == 1),
            ((a >> 0u8) & 1 == 1) == ((b >> 0u8) & 1 == 1),
    ;
}

/// Two byte strings with the same bits are the same bytes; so whatever
/// produces a given padded bit string, such as `finalize` and
/// `trailing_bits`, produces the same bytes.
pub proof fn lemma_same_bits_same_bytes(a: Seq<u8>, b: Seq<u8>)
    requires
        bytes_to_bits(a) == bytes_to_bits(b),
    ensures
        a == b,
{
    lemma_bytes_to_bits_len(a);
    lemma_bytes_to_bits_len(b);
    assert forall|k: int| 0 <= k < a.len() implies a[k] == b[k] by {
        assert forall|i: int| 0 <= i < 8 implies byte_bits(a[k])[i] == byte_bits(b[k])[i] by {
            lemma_bytes_to_bits_index(a, 8 * k + i);
            lemma_bytes_to_bits_index(b, 8 * k + i);
            assert((8 * k + i) / 8 == k);
            assert((8 * k + i) % 8 == i);
        }
        assert(byte_bits(a[k]) =~= byte_bits(b[k]));
        lemma_byte_bits_injective(a[k], b[k]);
    }
    assert(a =~= b);
}

/// Reading back bytes that hold `bits` padded with zeros: bit `j` (most
/// significant first within each byte) is the `j`-th written bit, and every
/// bit after the written ones is zero.
pub proof fn lemma_padded_bytes_read_back(out: Seq<u8>, bits: Seq<bool>, j: int)
    requires
        bytes_to_bits(out) == padded(bits),
        0 <= j < 8 * out.len(),
    ensures
        ((out[j / 8] >> ((7 - j % 8) as u8)) & 1 == 1) == (j < bits.len() && bits[j]),
{
    lemma_bytes_to_bits_index(out, j);
    lemma_bytes_to_bits_len(out);
    if j >= bits.len() {
        assert(padded(bits)[j] == zero_bits(pad_len(bits.len()))[j - bits.len()]);
    }
}

/// The eight bits of byte `k` are bits `8 k .. 8 k + 8` of the bit string.
pub proof fn lemma_byte_in_bits(out: Seq<u8>, k: int)
    requires
        0 <= k < out.len(),
    ensures
        forall|i: int| 0 <= i < 8 ==> #[trigger] byte_bits(out[k])[i] == bytes_to_bits(out)[8 * k + i],
{
    assert forall|i: int| 0 <= i < 8 implies #[trigger] byte_bits(out[k])[i] == bytes_to_bits(out)[8 * k + i] by {
        lemma_bytes_to_bits_index(out, 8 * k + i);
        assert((8 * k + i) / 8 == k);
        assert((8 * k + i) % 8 == i);
    }
}

/// A byte whose eight bits are all clear is zero.
pub proof fn lemma_clear_byte(b: u8)
    requires
        forall|i: int| 0 <= i < 8 ==> !#[trigger] byte_bits(b)[i],
    ensures
        b == 0,
{
    assert(!byte_bits(b)[0] && !byte_bits(b)[1] && !byte_bits(b)[2] && !byte_bits(b)[3]);
    assert(!byte_bits(b)[4] && !byte_bits(b)[5] && !byte_bits(b)[6] && !byte_bits(b)[7]);
    assert(byte_bits(0u8) =~= byte_bits(b)) by {
        assert forall|i: int| 0 <= i < 8 implies !#[trigger] byte_bits(0u8)[i] by {
            let k = (7 - i) as u8;
            assert(((0u8 >> k) & 1) == 0) by (bit_vector);
        }
    }
    lemma_byte_bits_injective(0u8, b);
}

} // verus!
