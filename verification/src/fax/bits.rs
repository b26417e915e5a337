//! A reader over a byte string, most significant bit first.

use vstd::prelude::*;

verus! {

/// Bit `k` of a byte, counted from the most significant end.
pub open spec fn byte_bit(b: u8, k: int) -> bool {
    (b >> ((7 - k) as u8)) & 1u8 == 1u8
}

/// Bit `i` of a word, counted from the most significant end.
pub open spec fn word_bit(w: u32, i: int) -> bool {
    (w >> ((31 - i) as u32)) & 1u32 == 1u32
}

/// The bits of a byte string, most significant bit of each byte first.
pub open spec fn bits_of(data: Seq<u8>) -> Seq<bool> {
    Seq::new((8 * data.len()) as nat, |i: int| byte_bit(data[i / 8], i % 8))
}

/// The number whose binary digits are `s`, most significant digit first.
pub open spec fn bits_value(s: Seq<bool>) -> nat
    decreases s.len(),
{
    if s.len() == 0 {
        0
    } else {
        2 * bits_value(s.drop_last()) + (if s.last() { 1nat } else { 0nat })
    }
}

/// The number made of the first `n` bits of `s`.
pub open spec fn head_value(s: Seq<bool>, n: int) -> nat {
    bits_value(s.subrange(0, n))
}

/// `s` without its first `n` bits.
pub open spec fn drop_bits(s: Seq<bool>, n: int) -> Seq<bool> {
    s.subrange(n, s.len() as int)
}

/// An end-of-line code (eleven zeros and a one) starts at bit `k`.
pub open spec fn eol_at(s: Seq<bool>, k: int) -> bool {
    0 <= k && k + 12 <= s.len() && bits_value(s.subrange(k, k + 12)) == 1
}

/// Reversing the bit order of a byte maps bit `k` to bit `7 - k`.
pub open spec fn is_bit_reversal(b: u8, r: u8) -> bool {
    forall|k: int| 0 <= k < 8 ==> #[trigger] byte_bit(r, k) == byte_bit(b, 7 - k)
}

/// The byte with the bits of `b` in the opposite order.
pub open spec fn reversed_byte(b: u8) -> u8 {
    ((b & 0x80) >> 7) | ((b & 0x40) >> 5) | ((b & 0x20) >> 3) | ((b & 0x10) >> 1)
        | ((b & 0x08) << 1) | ((b & 0x04) << 3) | ((b & 0x02) << 5) | ((b & 0x01) << 7)
}

/// Reverses the bits of a byte.
pub fn reverse_bits(b: u8) -> (r: u8)
    ensures
        r == reversed_byte(b),
        is_bit_reversal(b, r),
{
    proof {
        lemma_reversed_byte(b);
    }
    ((b & 0x80) >> 7) | ((b & 0x40) >> 5) | ((b & 0x20) >> 3) | ((b & 0x10) >> 1) | ((b & 0x08)
        << 1) | ((b & 0x04) << 3) | ((b & 0x02) << 5) | ((b & 0x01) << 7)
}

/// The reversal of a byte is one.
pub proof fn lemma_reversed_byte(b: u8)
    ensures
        is_bit_reversal(b, reversed_byte(b)),
{
    let r = reversed_byte(b);
    assert forall|k: int| 0 <= k < 8 implies #[trigger] byte_bit(r, k) == byte_bit(b, 7 - k) by {
        let j = (7 - k) as u8;
        let h = k as u8;
        assert((((((b & 0x80) >> 7) | ((b & 0x40) >> 5) | ((b & 0x20) >> 3) | ((b & 0x10) >> 1) | ((
        b & 0x08) << 1) | ((b & 0x04) << 3) | ((b & 0x02) << 5) | ((b & 0x01) << 7)) >> j) & 1u8
            == 1u8) == ((b >> h) & 1u8 == 1u8)) by (bit_vector)
            requires
                h <= 7,
                j == 7 - h,
        ;
    }
}

/// Reversing a byte twice gives the byte back.
pub proof fn law_bit_reversal_is_an_involution(b: u8)
    ensures
        reversed_byte(reversed_byte(b)) == b,
{
    let r = reversed_byte(b);
    assert(((r & 0x80) >> 7) | ((r & 0x40) >> 5) | ((r & 0x20) >> 3) | ((r & 0x10) >> 1) | ((r
        & 0x08) << 1) | ((r & 0x04) << 3) | ((r & 0x02) << 5) | ((r & 0x01) << 7) == b)
        by (bit_vector)
        requires
            r == ((b & 0x80) >> 7) | ((b & 0x40) >> 5) | ((b & 0x20) >> 3) | ((b & 0x10) >> 1) | ((b
                & 0x08) << 1) | ((b & 0x04) << 3) | ((b & 0x02) << 5) | ((b & 0x01) << 7),
    ;
}

/// A byte has only one reversal.
pub proof fn law_bit_reversal_is_unique(b: u8, r: u8)
    requires
        is_bit_reversal(b, r),
    ensures
        r == reversed_byte(b),
{
    lemma_reversed_byte(b);
    let q = reversed_byte(b);
    assert(byte_bit(r, 0) == byte_bit(q, 0));
    assert(byte_bit(r, 1) == byte_bit(q, 1));
    assert(byte_bit(r, 2) == byte_bit(q, 2));
    assert(byte_bit(r, 3) == byte_bit(q, 3));
    assert(byte_bit(r, 4) == byte_bit(q, 4));
    assert(byte_bit(r, 5) == byte_bit(q, 5));
    assert(byte_bit(r, 6) == byte_bit(q, 6));
    assert(byte_bit(r, 7) == byte_bit(q, 7));
    assert(r == q) by (bit_vector)
        requires
            ((r >> 7u8) & 1u8 == 1u8) == ((q >> 7u8) & 1u8 == 1u8),
            ((r >> 6u8) & 1u8 == 1u8) == ((q >> 6u8) & 1u8 == 1u8),
            ((r >> 5u8) & 1u8 == 1u8) == ((q >> 5u8) & 1u8 == 1u8),
            ((r >> 4u8) & 1u8 == 1u8) == ((q >> 4u8) & 1u8 == 1u8),
            ((r >> 3u8) & 1u8 == 1u8) == ((q >> 3u8) & 1u8 == 1u8),
            ((r >> 2u8) & 1u8 == 1u8) == ((q >> 2u8) & 1u8 == 1u8),
            ((r >> 1u8) & 1u8 == 1u8) == ((q >> 1u8) & 1u8 == 1u8),
            ((r >> 0u8) & 1u8 == 1u8) == ((q >> 0u8) & 1u8 == 1u8),
    ;
}

/// A number of `n` binary digits is below `2^n`.
pub proof fn lemma_bits_value_bound(s: Seq<bool>)
    ensures
        bits_value(s) < vstd::arithmetic::power2::pow2(s.len()),
    decreases s.len(),
{
    if s.len() == 0 {
        vstd::arithmetic::power2::lemma2_to64();
    } else {
        lemma_bits_value_bound(s.drop_last());
        vstd::arithmetic::power2::lemma_pow2_unfold(s.len());
    }
}

/// The top `n` bits of a word, shifted down, are the number they spell.
proof fn lemma_word_value(w: u32, n: u32, s: Seq<bool>)
    requires
        1 <= n <= 32,
        s.len() == n,
        forall|i: int| 0 <= i < n ==> s[i] == #[trigger] word_bit(w, i),
    ensures
        (w >> ((32 - n) as u32)) as nat == bits_value(s),
    decreases n,
{
    let k = (32 - n) as u32;
    let top = w >> k;
    assert(s.last() == word_bit(w, n - 1));
    assert((31 - (n - 1)) as u32 == k);
    assert((w >> k) & 1u32 == 0u32 || (w >> k) & 1u32 == 1u32) by (bit_vector);
    if n == 1 {
        assert((w >> 31u32) == ((w >> 31u32) & 1u32)) by (bit_vector);
        assert(bits_value(s.drop_last()) == 0);
    } else {
        let prev = s.drop_last();
        let j = (33 - n) as u32;
        lemma_word_value(w, (n - 1) as u32, prev);
        assert((w >> k) == 2 * (w >> j) + ((w >> k) & 1u32))
            by (bit_vector)
            requires
                1 <= j <= 31,
                k == j - 1,
        ;
    }
}

/// A bit reader: a position in a byte string, with up to 32 buffered bits.
pub struct BitReader<'a> {
    data: &'a [u8],
    pos: usize,
    partial: u32,
    valid: u8,
}

impl<'a> BitReader<'a> {
    /// The byte string that is read.
    pub closed spec fn source(&self) -> Seq<u8> {
        self.data@
    }

    /// The number of bits that are buffered.
    pub closed spec fn buffered(&self) -> nat {
        self.valid as nat
    }

    /// The bits that have not been consumed.
    pub closed spec fn remaining(&self) -> Seq<bool> {
        bits_of(self.data@).subrange(8 * self.pos - self.valid, (8 * self.data@.len()) as int)
    }

    /// The buffer holds the next bits of the source, left-aligned and padded with zeros.
    closed spec fn aligned(&self) -> bool {
        &&& self.pos <= self.data@.len()
        &&& self.valid <= 32
        &&& self.valid <= 8 * self.pos
        &&& forall|i: int|
            0 <= i < 32 ==> #[trigger] word_bit(self.partial, i) == (i < self.valid && bits_of(
                self.data@,
            )[8 * self.pos - self.valid + i])
    }

    /// The reader is consistent, and its buffer is as full as the source allows.
    pub closed spec fn wf(&self) -> bool {
        &&& self.aligned()
        &&& self.valid > 24 || self.pos == self.data@.len()
    }

    /// What is buffered is part of what remains; at least 25 bits are, if that many remain.
    pub proof fn lemma_buffered(&self)
        requires
            self.wf(),
        ensures
            self.buffered() <= self.remaining().len(),
            self.buffered() <= 32,
            self.buffered() >= 25 || self.buffered() == self.remaining().len(),
    {
    }

    /// A reader at the first bit of `data`.
    pub fn new(data: &'a [u8]) -> (r: Self)
        ensures
            r.wf(),
            r.source() == data@,
            r.remaining() == bits_of(data@),
    {
        let mut r = BitReader { data, pos: 0, partial: 0, valid: 0 };
        proof {
            assert forall|i: int| 0 <= i < 32 implies #[trigger] word_bit(0u32, i) == false by {
                let k = (31 - i) as u32;
                assert((0u32 >> k) & 1u32 == 0u32) by (bit_vector);
            }
        }
        r.fill();
        proof {
            assert(r.remaining() =~= bits_of(data@));
        }
        r
    }

    /// Tops up the buffer from the source.
    fn fill(&mut self)
        requires
            old(self).aligned(),
        ensures
            final(self).wf(),
            final(self).source() == old(self).source(),
            final(self).remaining() == old(self).remaining(),
    {
        while self.valid <= 24 && self.pos < self.data.len()
            invariant
                self.aligned(),
                self.data@ == old(self).data@,
                8 * self.pos - self.valid == 8 * old(self).pos - old(self).valid,
            decreases self.data@.len() - self.pos,
        {
            let ghost before = *self;
            let b: u8 = self.data[self.pos];
            self.partial |= (b as u32) << (24 - self.valid);
            self.valid += 8;
            self.pos += 1;
            proof {
                let w = before.partial;
                let v = before.valid;
                let bits = bits_of(self.data@);
                assert forall|i: int| 0 <= i < 32 implies #[trigger] word_bit(self.partial, i) == (i
                    < self.valid && bits[8 * self.pos - self.valid + i]) by {
                    lemma_append_byte(w, b, v, i as u32);
                    assert(word_bit(w, i) == (i < v && bits[8 * before.pos - v + i]));
                    if v <= i < v + 8 {
                        let at = 8 * before.pos - v + i;
                        assert(at == 8 * before.pos + (i - v));
                        assert(at / 8 == before.pos && at % 8 == i - v);
                        assert(bits[at] == byte_bit(b, i - v));
                    }
                }
            }
        }
    }

    /// The next `n` bits as a number, if the buffer holds that many.
    ///
    /// The buffer holds at least 25 bits whenever that many remain, so for `n <= 25` a result
    /// is owed exactly when `n` bits remain. The result keeps the low sixteen bits.
    pub fn peek(&self, n: u8) -> (r: Option<u16>)
        requires
            self.wf(),
            n >= 1,
        ensures
            r is Some <==> self.buffered() >= n,
            n <= 25 ==> (r is Some <==> self.remaining().len() >= n),
            r is Some ==> r->0 == head_value(self.remaining(), n as int) % 0x10000,
            r is Some && n <= 16 ==> r->0 == head_value(self.remaining(), n as int),
    {
        if self.valid >= n {
            proof {
                let s = self.remaining().subrange(0, n as int);
                lemma_word_value(self.partial, n as u32, s);
                let k = (32 - n) as u32;
                let w = self.partial;
                assert(n <= 16 ==> (w >> k) <= 0xffff) by (bit_vector)
                    requires
                        1 <= n <= 32,
                        k == 32 - n,
                ;
            }
            let shifted: u32 = self.partial >> (32 - n);
            assert(shifted as u16 == shifted % 0x10000) by (bit_vector);
            Some(shifted as u16)
        } else {
            None
        }
    }

    /// Drops the next `n` bits.
    pub fn consume(&mut self, n: u8)
        requires
            old(self).wf(),
            n < 32,
            n <= old(self).buffered(),
        ensures
            final(self).wf(),
            final(self).source() == old(self).source(),
            final(self).remaining() == drop_bits(old(self).remaining(), n as int),
    {
        let ghost w = self.partial;
        self.partial = self.partial << n;
        self.valid -= n;
        proof {
            let bits = bits_of(self.data@);
            assert forall|i: int| 0 <= i < 32 implies #[trigger] word_bit(self.partial, i) == (i
                < self.valid && bits[8 * self.pos - self.valid + i]) by {
                lemma_shift_out(w, n as u32, i as u32);
                if i + n < 32 {
                    assert(word_bit(w, i + n) == (i + n < old(self).valid && bits[8 * old(self).pos
                        - old(self).valid + (i + n)]));
                }
            }
            assert(self.remaining() =~= drop_bits(old(self).remaining(), n as int));
        }
        self.fill();
    }

    /// Moves past the first end-of-line code. Without one, everything is consumed.
    pub fn scan_for_eol(&mut self) -> (found: bool)
        requires
            old(self).wf(),
        ensures
            final(self).wf(),
            final(self).source() == old(self).source(),
            found <==> exists|k: int| eol_at(old(self).remaining(), k),
            found ==> exists|k: int|
                #![trigger eol_at(old(self).remaining(), k)]
                eol_at(old(self).remaining(), k) && (forall|j: int|
                    0 <= j < k ==> !eol_at(old(self).remaining(), j)) && final(self).remaining()
                    == drop_bits(old(self).remaining(), k + 12),
            !found ==> final(self).remaining().len() == 0,
    {
        let ghost s = self.remaining();
        let ghost mut k: int = 0;
        proof {
            assert(drop_bits(s, 0) =~= s);
        }
        loop
            invariant
                self.wf(),
                self.source() == old(self).source(),
                s == old(self).remaining(),
                0 <= k <= s.len(),
                self.remaining() == drop_bits(s, k),
                forall|j: int| 0 <= j < k ==> !eol_at(s, j),
            decreases self.remaining().len(),
        {
            proof {
                self.lemma_buffered();
                if k + 12 <= s.len() {
                    assert(self.remaining().subrange(0, 12) =~= s.subrange(k, k + 12));
                }
            }
            match self.peek(12) {
                Some(v) => {
                    if v == 1 {
                        proof {
                            assert(eol_at(s, k));
                        }
                        self.consume(12);
                        proof {
                            assert(self.remaining() =~= drop_bits(s, k + 12));
                        }
                        return true;
                    }
                    self.consume(1);
                    proof {
                        k = k + 1;
                        assert(self.remaining() =~= drop_bits(s, k));
                    }
                },
                None => {
                    if self.valid > 0 {
                        self.consume(1);
                        proof {
                            k = k + 1;
                            assert(self.remaining() =~= drop_bits(s, k));
                        }
                    } else {
                        return false;
                    }
                },
            }
        }
    }
}

proof fn lemma_append_byte(w: u32, b: u8, v: u8, i: u32)
    requires
        v <= 24,
        i < 32,
    ensures
        word_bit(w | ((b as u32) << ((24 - v) as u8)), i as int) == (word_bit(w, i as int) || (v
            <= i < v + 8 && byte_bit(b, i - v))),
{
    let sh = (24 - v) as u8;
    let k = (31 - i) as u32;
    let kb = if v <= i < v + 8 {
        (7 - (i - v)) as u8
    } else {
        0u8
    };
    assert((((w | ((b as u32) << sh)) >> k) & 1u32 == 1u32) == ((w >> k) & 1u32 == 1u32 || (v <= i
        && i < v + 8 && (b >> kb) & 1u8 == 1u8))) by (bit_vector)
        requires
            v <= 24,
            i < 32,
            sh == 24 - v,
            k == 31 - i,
            v <= i && i < v + 8 ==> kb == 7 + v - i,
    ;
}

proof fn lemma_shift_out(w: u32, n: u32, i: u32)
    requires
        n < 32,
        i < 32,
    ensures
        word_bit(w << n, i as int) == (i + n < 32 && word_bit(w, i + n)),
{
    let k = (31 - i) as u32;
    let kk = if i + n < 32 {
        (31 - i - n) as u32
    } else {
        0u32
    };
    assert((((w << n) >> k) & 1u32 == 1u32) == (i + n < 32 && (w >> kk) & 1u32 == 1u32))
        by (bit_vector)
        requires
            n < 32,
            i < 32,
            k == 31 - i,
            i + n < 32 ==> kk == 31 - i - n,
    ;
}

/// The bits of bytes are those of each byte in turn, the most significant first: eight bits spell
/// the byte.
pub proof fn law_eight_bits_spell_a_byte(data: Seq<u8>, i: int)
    requires
        0 <= i < data.len(),
    ensures
        bits_of(data).len() == 8 * data.len(),
        bits_value(bits_of(data).subrange(8 * i, 8 * i + 8)) == data[i],
{
    let b = data[i];
    let s = bits_of(data).subrange(8 * i, 8 * i + 8);
    assert forall|k: int| 0 <= k < 8 implies #[trigger] s[k] == byte_bit(b, k) by {
        assert((8 * i + k) / 8 == i && (8 * i + k) % 8 == k);
    }
    lemma_bits_of_byte(b, s, 8);
    assert(b >> 0u8 == b) by (bit_vector);
    assert(s.take(8) =~= s);
}

proof fn lemma_bits_of_byte(b: u8, s: Seq<bool>, n: nat)
    requires
        s.len() == 8,
        n <= 8,
        forall|k: int| 0 <= k < 8 ==> #[trigger] s[k] == byte_bit(b, k),
    ensures
        bits_value(s.take(n as int)) == (if n == 0 {
            0
        } else {
            (b >> ((8 - n) as u8)) as nat
        }),
    decreases n,
{
    if n > 0 {
        lemma_bits_of_byte(b, s, (n - 1) as nat);
        let t = s.take(n as int);
        assert(t.drop_last() =~= s.take(n - 1));
        assert(t.last() == byte_bit(b, n - 1));
        let k = (8 - n) as u8;
        assert((7 - (n - 1)) as u8 == k);
        assert((b >> k) & 1u8 == 0u8 || (b >> k) & 1u8 == 1u8) by (bit_vector);
        if n == 1 {
            assert(b >> 7u8 == (b >> 7u8) & 1u8) by (bit_vector);
        } else {
            let j = (9 - n) as u8;
            assert(b >> k == 2 * (b >> j) + ((b >> k) & 1u8)) by (bit_vector)
                requires
                    1 <= j <= 7,
                    k == j - 1,
            ;
        }
    } else {
        assert(s.take(0).len() == 0);
    }
}

} // verus!
