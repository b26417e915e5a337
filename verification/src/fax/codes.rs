//! The run-length and mode codes of T.4, and the tables that decode them.

use vstd::arithmetic::power2::{
    lemma2_to64, lemma_pow2_adds, lemma_pow2_pos, lemma_pow2_strictly_increases, pow2,
};
use vstd::prelude::*;

verus! {

/// A code: its bit pattern, the length of the pattern, and the run length that it stands for.
pub type RunCode = (u16, u8, u16);

/// An entry of a decoding table: a decoded value and the number of bits that its code takes.
pub type LutEntry = (u16, u8);

/// The value of a table entry that no code reaches.
pub const INVALID_VALUE: u16 = 0xFFFF;

/// White terminating and makeup codes.
pub const WHITE_CODES: [(u16, u8, u16); 104] = [
    (0b00110101, 8, 0),
    (0b000111, 6, 1),
    (0b0111, 4, 2),
    (0b1000, 4, 3),
    (0b1011, 4, 4),
    (0b1100, 4, 5),
    (0b1110, 4, 6),
    (0b1111, 4, 7),
    (0b10011, 5, 8),
    (0b10100, 5, 9),
    (0b00111, 5, 10),
    (0b01000, 5, 11),
    (0b001000, 6, 12),
    (0b000011, 6, 13),
    (0b110100, 6, 14),
    (0b110101, 6, 15),
    (0b101010, 6, 16),
    (0b101011, 6, 17),
    (0b0100111, 7, 18),
    (0b0001100, 7, 19),
    (0b0001000, 7, 20),
    (0b0010111, 7, 21),
    (0b0000011, 7, 22),
    (0b0000100, 7, 23),
    (0b0101000, 7, 24),
    (0b0101011, 7, 25),
    (0b0010011, 7, 26),
    (0b0100100, 7, 27),
    (0b0011000, 7, 28),
    (0b00000010, 8, 29),
    (0b00000011, 8, 30),
    (0b00011010, 8, 31),
    (0b00011011, 8, 32),
    (0b00010010, 8, 33),
    (0b00010011, 8, 34),
    (0b00010100, 8, 35),
    (0b00010101, 8, 36),
    (0b00010110, 8, 37),
    (0b00010111, 8, 38),
    (0b00101000, 8, 39),
    (0b00101001, 8, 40),
    (0b00101010, 8, 41),
    (0b00101011, 8, 42),
    (0b00101100, 8, 43),
    (0b00101101, 8, 44),
    (0b00000100, 8, 45),
    (0b00000101, 8, 46),
    (0b00001010, 8, 47),
    (0b00001011, 8, 48),
    (0b01010010, 8, 49),
    (0b01010011, 8, 50),
    (0b01010100, 8, 51),
    (0b01010101, 8, 52),
    (0b00100100, 8, 53),
    (0b00100101, 8, 54),
    (0b01011000, 8, 55),
    (0b01011001, 8, 56),
    (0b01011010, 8, 57),
    (0b01011011, 8, 58),
    (0b01001010, 8, 59),
    (0b01001011, 8, 60),
    (0b00110010, 8, 61),
    (0b00110011, 8, 62),
    (0b00110100, 8, 63),
    // Makeup codes
    (0b11011, 5, 64),
    (0b10010, 5, 128),
    (0b010111, 6, 192),
    (0b0110111, 7, 256),
    (0b00110110, 8, 320),
    (0b00110111, 8, 384),
    (0b01100100, 8, 448),
    (0b01100101, 8, 512),
    (0b01101000, 8, 576),
    (0b01100111, 8, 640),
    (0b011001100, 9, 704),
    (0b011001101, 9, 768),
    (0b011010010, 9, 832),
    (0b011010011, 9, 896),
    (0b011010100, 9, 960),
    (0b011010101, 9, 1024),
    (0b011010110, 9, 1088),
    (0b011010111, 9, 1152),
    (0b011011000, 9, 1216),
    (0b011011001, 9, 1280),
    (0b011011010, 9, 1344),
    (0b011011011, 9, 1408),
    (0b010011000, 9, 1472),
    (0b010011001, 9, 1536),
    (0b010011010, 9, 1600),
    (0b011000, 6, 1664),
    (0b010011011, 9, 1728),
    // Extended makeup (shared with black)
    (0b00000001000, 11, 1792),
    (0b00000001100, 11, 1856),
    (0b00000001101, 11, 1920),
    (0b000000010010, 12, 1984),
    (0b000000010011, 12, 2048),
    (0b000000010100, 12, 2112),
    (0b000000010101, 12, 2176),
    (0b000000010110, 12, 2240),
    (0b000000010111, 12, 2304),
    (0b000000011100, 12, 2368),
    (0b000000011101, 12, 2432),
    (0b000000011110, 12, 2496),
    (0b000000011111, 12, 2560),
];

/// Black terminating and makeup codes.
pub const BLACK_CODES: [(u16, u8, u16); 104] = [
    (0b0000110111, 10, 0),
    (0b010, 3, 1),
    (0b11, 2, 2),
    (0b10, 2, 3),
    (0b011, 3, 4),
    (0b0011, 4, 5),
    (0b0010, 4, 6),
    (0b00011, 5, 7),
    (0b000101, 6, 8),
    (0b000100, 6, 9),
    (0b0000100, 7, 10),
    (0b0000101, 7, 11),
    (0b0000111, 7, 12),
    (0b00000100, 8, 13),
    (0b00000111, 8, 14),
    (0b000011000, 9, 15),
    (0b0000010111, 10, 16),
    (0b0000011000, 10, 17),
    (0b0000001000, 10, 18),
    (0b00001100111, 11, 19),
    (0b00001101000, 11, 20),
    (0b00001101100, 11, 21),
    (0b00000110111, 11, 22),
    (0b00000101000, 11, 23),
    (0b00000010111, 11, 24),
    (0b00000011000, 11, 25),
    (0b000011001010, 12, 26),
    (0b000011001011, 12, 27),
    (0b000011001100, 12, 28),
    (0b000011001101, 12, 29),
    (0b000001101000, 12, 30),
    (0b000001101001, 12, 31),
    (0b000001101010, 12, 32),
    (0b000001101011, 12, 33),
    (0b000011010010, 12, 34),
    (0b000011010011, 12, 35),
    (0b000011010100, 12, 36),
    (0b000011010101, 12, 37),
    (0b000011010110, 12, 38),
    (0b000011010111, 12, 39),
    (0b000001101100, 12, 40),
    (0b000001101101, 12, 41),
    (0b000011011010, 12, 42),
    (0b000011011011, 12, 43),
    (0b000001010100, 12, 44),
    (0b000001010101, 12, 45),
    (0b000001010110, 12, 46),
    (0b000001010111, 12, 47),
    (0b000001100100, 12, 48),
    (0b000001100101, 12, 49),
    (0b000001010010, 12, 50),
    (0b000001010011, 12, 51),
    (0b000000100100, 12, 52),
    (0b000000110111, 12, 53),
    (0b000000111000, 12, 54),
    (0b000000100111, 12, 55),
    (0b000000101000, 12, 56),
    (0b000001011000, 12, 57),
    (0b000001011001, 12, 58),
    (0b000000101011, 12, 59),
    (0b000000101100, 12, 60),
    (0b000001011010, 12, 61),
    (0b000001100110, 12, 62),
    (0b000001100111, 12, 63),
    // Makeup codes
    (0b0000001111, 10, 64),
    (0b000011001000, 12, 128),
    (0b000011001001, 12, 192),
    (0b000001011011, 12, 256),
    (0b000000110011, 12, 320),
    (0b000000110100, 12, 384),
    (0b000000110101, 12, 448),
    (0b0000001101100, 13, 512),
    (0b0000001101101, 13, 576),
    (0b0000001001010, 13, 640),
    (0b0000001001011, 13, 704),
    (0b0000001001100, 13, 768),
    (0b0000001001101, 13, 832),
    (0b0000001110010, 13, 896),
    (0b0000001110011, 13, 960),
    (0b0000001110100, 13, 1024),
    (0b0000001110101, 13, 1088),
    (0b0000001110110, 13, 1152),
    (0b0000001110111, 13, 1216),
    (0b0000001010010, 13, 1280),
    (0b0000001010011, 13, 1344),
    (0b0000001010100, 13, 1408),
    (0b0000001010101, 13, 1472),
    (0b0000001011010, 13, 1536),
    (0b0000001011011, 13, 1600),
    (0b0000001100100, 13, 1664),
    (0b0000001100101, 13, 1728),
    // Extended makeup (shared with white)
    (0b00000001000, 11, 1792),
    (0b00000001100, 11, 1856),
    (0b00000001101, 11, 1920),
    (0b000000010010, 12, 1984),
    (0b000000010011, 12, 2048),
    (0b000000010100, 12, 2112),
    (0b000000010101, 12, 2176),
    (0b000000010110, 12, 2240),
    (0b000000010111, 12, 2304),
    (0b000000011100, 12, 2368),
    (0b000000011101, 12, 2432),
    (0b000000011110, 12, 2496),
    (0b000000011111, 12, 2560),
];

/// A coding mode of a two-dimensional line.
#[derive(Copy, Clone, Debug, PartialEq, Eq, Structural)]
pub enum Mode {
    Pass,
    Horizontal,
    Vertical(i8),
}

/// A mode code: bit pattern, length of the pattern, mode.
pub type ModeCode = (u16, u8, Mode);

/// The mode codes.
pub open spec fn mode_codes() -> Seq<ModeCode> {
    seq![
        (0b0001, 4, Mode::Pass),
        (0b001, 3, Mode::Horizontal),
        (0b1, 1, Mode::Vertical(0)),
        (0b011, 3, Mode::Vertical(1)),
        (0b000011, 6, Mode::Vertical(2)),
        (0b0000011, 7, Mode::Vertical(3)),
        (0b010, 3, Mode::Vertical((-1) as i8)),
        (0b000010, 6, Mode::Vertical((-2) as i8)),
        (0b0000010, 7, Mode::Vertical((-3) as i8)),
    ]
}

/// The list of the mode codes.
fn mode_code_list() -> (r: Vec<ModeCode>)
    ensures
        r@ == mode_codes(),
{
    let r: Vec<ModeCode> = vec![
        (0b0001, 4, Mode::Pass),
        (0b001, 3, Mode::Horizontal),
        (0b1, 1, Mode::Vertical(0)),
        (0b011, 3, Mode::Vertical(1)),
        (0b000011, 6, Mode::Vertical(2)),
        (0b0000011, 7, Mode::Vertical(3)),
        (0b010, 3, Mode::Vertical(-1)),
        (0b000010, 6, Mode::Vertical(-2)),
        (0b0000010, 7, Mode::Vertical(-3)),
    ];
    proof {
        assert(r@ =~= mode_codes());
    }
    r
}

/// The number of bits that the white table looks at.
pub const WHITE_LUT_BITS: u8 = 12;

/// The number of bits that the black table looks at.
pub const BLACK_LUT_BITS: u8 = 13;

/// The number of bits that the mode table looks at.
pub const MODE_LUT_BITS: u8 = 7;

/// The pattern fits in its length.
pub open spec fn pattern_fits(pattern: u16, len: u8) -> bool {
    pattern < pow2(len as nat)
}

/// A `bits`-bit word starts with the given pattern.
pub open spec fn word_starts_with(word: int, bits: u8, pattern: u16, len: u8) -> bool {
    len <= bits && word / (pow2((bits - len) as nat) as int) == pattern
}

/// What a `bits`-bit word decodes to: the last code of the list that it starts with.
pub open spec fn lut_entry(codes: Seq<RunCode>, bits: u8, word: int) -> LutEntry
    decreases codes.len(),
{
    if codes.len() == 0 {
        (INVALID_VALUE, 0)
    } else {
        let c = codes.last();
        if word_starts_with(word, bits, c.0, c.1) {
            (c.2, c.1)
        } else {
            lut_entry(codes.drop_last(), bits, word)
        }
    }
}

/// The mode that a `bits`-bit word starts with, and the length of its code.
pub open spec fn mode_entry(codes: Seq<ModeCode>, bits: u8, word: int) -> Option<(u8, Mode)>
    decreases codes.len(),
{
    if codes.len() == 0 {
        None
    } else {
        let c = codes.last();
        if word_starts_with(word, bits, c.0, c.1) {
            Some((c.1, c.2))
        } else {
            mode_entry(codes.drop_last(), bits, word)
        }
    }
}

proof fn lemma_prefix_range(word: int, bits: u8, pattern: u16, len: u8)
    requires
        len <= bits,
        0 <= word,
    ensures
        word_starts_with(word, bits, pattern, len) <==> pattern * pow2((bits - len) as nat) <= word
            < (pattern + 1) * pow2((bits - len) as nat),
{
    let d = pow2((bits - len) as nat) as int;
    let q = word / d;
    let p = pattern as int;
    lemma_pow2_pos((bits - len) as nat);
    vstd::arithmetic::div_mod::lemma_fundamental_div_mod(word, d);
    vstd::arithmetic::div_mod::lemma_mod_bound(word, d);
    assert(q == p <==> p * d <= word < (p + 1) * d) by (nonlinear_arith)
        requires
            word == d * q + word % d,
            0 <= word % d < d,
    ;
}

proof fn lemma_code_in_table(bits: u8, pattern: u16, len: u8)
    requires
        len <= bits,
        pattern_fits(pattern, len),
    ensures
        0 <= pattern * pow2((bits - len) as nat),
        (pattern + 1) * pow2((bits - len) as nat) <= pow2(bits as nat),
{
    lemma_pow2_adds(len as nat, (bits - len) as nat);
    let d = pow2((bits - len) as nat) as int;
    let e = pow2(len as nat) as int;
    let p = pattern as int;
    assert(0 <= p * d && (p + 1) * d <= e * d) by (nonlinear_arith)
        requires
            0 <= p < e,
            d >= 0,
    ;
}

proof fn lemma_small_power(n: u8)
    requires
        n < 32,
    ensures
        (1usize << n) == pow2(n as nat),
        0 < pow2(n as nat) <= 0x8000_0000,
{
    lemma2_to64();
    lemma_pow2_pos(n as nat);
    if n < 31 {
        lemma_pow2_strictly_increases(n as nat, 31);
    }
    vstd::bits::lemma_usize_shl_is_mul(1usize, n as usize);
}

/// Builds the decoding table of a list of codes.
pub fn build_lut(codes: &[RunCode], lut_bits: u8) -> (lut: Vec<LutEntry>)
    requires
        lut_bits < 32,
        forall|i: int|
            0 <= i < codes@.len() && (#[trigger] codes@[i]).1 <= lut_bits ==> pattern_fits(
                codes@[i].0,
                codes@[i].1,
            ),
    ensures
        lut@.len() == pow2(lut_bits as nat),
        forall|w: int| 0 <= w < lut@.len() ==> #[trigger] lut@[w] == lut_entry(codes@, lut_bits, w),
{
    proof {
        lemma_small_power(lut_bits);
    }
    let size: usize = 1usize << lut_bits;
    let mut lut: Vec<LutEntry> = Vec::with_capacity(size);
    while lut.len() < size
        invariant
            lut@.len() <= size,
            forall|w: int| 0 <= w < lut@.len() ==> #[trigger] lut@[w] == (INVALID_VALUE, 0u8),
        decreases size - lut@.len(),
    {
        lut.push((INVALID_VALUE, 0));
    }
    let mut i: usize = 0;
    proof {
        assert(codes@.take(0).len() == 0);
    }
    while i < codes.len()
        invariant
            lut_bits < 32,
            i <= codes@.len(),
            lut@.len() == pow2(lut_bits as nat),
            forall|j: int|
                0 <= j < codes@.len() && (#[trigger] codes@[j]).1 <= lut_bits ==> pattern_fits(
                    codes@[j].0,
                    codes@[j].1,
                ),
            forall|w: int|
                0 <= w < lut@.len() ==> #[trigger] lut@[w] == lut_entry(
                    codes@.take(i as int),
                    lut_bits,
                    w,
                ),
        decreases codes@.len() - i,
    {
        let (pattern, len, value) = codes[i];
        let ghost before = lut@;
        let ghost seen = codes@.take(i as int);
        let ghost now = codes@.take(i + 1);
        proof {
            assert(now.last() == codes@[i as int]);
            assert(now.drop_last() =~= seen);
        }
        if len <= lut_bits {
            let shift: u8 = lut_bits - len;
            proof {
                lemma_small_power(shift);
                lemma_small_power(lut_bits);
                lemma_code_in_table(lut_bits, pattern, len);
                lemma_pow2_pos(shift as nat);
                let d = pow2(shift as nat) as int;
                assert(pattern * d + d == (pattern + 1) * d) by (nonlinear_arith);
                assert(pattern as usize * pow2(shift as usize as nat) == pattern * d);
                vstd::bits::lemma_usize_shl_is_mul(pattern as usize, shift as usize);
            }
            let span: usize = 1usize << shift;
            let base: usize = (pattern as usize) << shift;
            let mut suffix: usize = 0;
            while suffix < span
                invariant
                    suffix <= span,
                    base + span <= lut@.len() <= 0x8000_0000,
                    lut@.len() == before.len(),
                    forall|w: int|
                        0 <= w < lut@.len() ==> #[trigger] lut@[w] == (if base <= w < base + suffix {
                            (value, len)
                        } else {
                            before[w]
                        }),
                decreases span - suffix,
            {
                lut.set(base + suffix, (value, len));
                suffix = suffix + 1;
            }
            proof {
                assert forall|w: int| 0 <= w < lut@.len() implies #[trigger] lut@[w] == lut_entry(
                    now,
                    lut_bits,
                    w,
                ) by {
                    lemma_prefix_range(w, lut_bits, pattern, len);
                    assert(before[w] == lut_entry(seen, lut_bits, w));
                }
            }
        } else {
            proof {
                assert forall|w: int| 0 <= w < lut@.len() implies #[trigger] lut@[w] == lut_entry(
                    now,
                    lut_bits,
                    w,
                ) by {
                    assert(before[w] == lut_entry(seen, lut_bits, w));
                }
            }
        }
        i = i + 1;
    }
    proof {
        assert(codes@.take(codes@.len() as int) =~= codes@);
    }
    lut
}

/// A code that a table can hold: its pattern fits in its length, and its value is a run length.
pub open spec fn usable_code(c: RunCode) -> bool {
    1 <= c.1 <= 13 && pattern_fits(c.0, c.1) && c.2 <= 2560
}

/// Every code of the list is usable.
pub open spec fn usable_codes(codes: Seq<RunCode>) -> bool {
    forall|i: int| 0 <= i < codes.len() ==> usable_code(#[trigger] codes[i])
}

proof fn lemma_white_codes()
    ensures
        usable_codes(WHITE_CODES@),
{
    lemma2_to64();
}

proof fn lemma_black_codes()
    ensures
        usable_codes(BLACK_CODES@),
{
    lemma2_to64();
}

proof fn lemma_mode_codes()
    ensures
        mode_codes().len() == 9,
        forall|i: int|
            0 <= i < 9 ==> 1 <= (#[trigger] mode_codes()[i]).1 <= 7 && pattern_fits(
                mode_codes()[i].0,
                mode_codes()[i].1,
            ),
{
    lemma2_to64();
}

/// An entry that a usable code reaches takes between one bit and the width of the table.
pub proof fn lemma_entry_length(codes: Seq<RunCode>, bits: u8, word: int)
    requires
        usable_codes(codes),
    ensures
        lut_entry(codes, bits, word).0 != INVALID_VALUE ==> 1 <= lut_entry(codes, bits, word).1
            <= bits && lut_entry(codes, bits, word).0 <= 2560,
    decreases codes.len(),
{
    if codes.len() > 0 {
        assert(usable_code(codes.last()));
        assert(usable_codes(codes.drop_last())) by {
            assert forall|i: int| 0 <= i < codes.drop_last().len() implies usable_code(
                #[trigger] codes.drop_last()[i],
            ) by {
                assert(codes.drop_last()[i] == codes[i]);
            }
        }
        lemma_entry_length(codes.drop_last(), bits, word);
    }
}

proof fn lemma_mode_entry_length(codes: Seq<ModeCode>, bits: u8, word: int)
    requires
        forall|i: int| 0 <= i < codes.len() ==> 1 <= (#[trigger] codes[i]).1,
    ensures
        mode_entry(codes, bits, word) is Some ==> 1 <= (mode_entry(codes, bits, word)->0).0 <= bits,
    decreases codes.len(),
{
    if codes.len() > 0 {
        assert(1 <= codes.last().1);
        assert forall|i: int| 0 <= i < codes.drop_last().len() implies 1 <= (
        #[trigger] codes.drop_last()[i]).1 by {
            assert(codes.drop_last()[i] == codes[i]);
        }
        lemma_mode_entry_length(codes.drop_last(), bits, word);
    }
}

/// The mode code at the start of a seven-bit word takes between one and seven bits.
pub proof fn lemma_mode_length(word: int)
    ensures
        mode_entry(mode_codes(), MODE_LUT_BITS, word) is Some ==> 1 <= (mode_entry(
            mode_codes(),
            MODE_LUT_BITS,
            word,
        )->0).0 <= 7,
{
    lemma_mode_codes();
    lemma_mode_entry_length(mode_codes(), MODE_LUT_BITS, word);
}

/// The code lists are usable.
pub proof fn lemma_code_lists()
    ensures
        usable_codes(WHITE_CODES@),
        usable_codes(BLACK_CODES@),
{
    lemma_white_codes();
    lemma_black_codes();
}

/// Builds the decoding table of the mode codes; an entry of length zero is not a code.
fn build_mode_lut() -> (lut: Vec<(u8, Mode)>)
    ensures
        lut@.len() == 128,
        forall|w: int|
            0 <= w < 128 ==> mode_entry(mode_codes(), MODE_LUT_BITS, w) == (if (
            #[trigger] lut@[w]).0 == 0 {
                None
            } else {
                Some(lut@[w])
            }),
{
    let codes: Vec<ModeCode> = mode_code_list();
    let mut lut: Vec<(u8, Mode)> = Vec::with_capacity(128);
    while lut.len() < 128
        invariant
            lut@.len() <= 128,
            forall|w: int| 0 <= w < lut@.len() ==> #[trigger] lut@[w] == (0u8, Mode::Pass),
        decreases 128 - lut@.len(),
    {
        lut.push((0, Mode::Pass));
    }
    let mut i: usize = 0;
    proof {
        lemma_mode_codes();
        assert(codes@.take(0).len() == 0);
    }
    while i < codes.len()
        invariant
            codes@ == mode_codes(),
            i <= codes@.len(),
            lut@.len() == 128,
            forall|j: int|
                0 <= j < codes@.len() ==> 1 <= (#[trigger] codes@[j]).1 <= 7 && pattern_fits(
                    codes@[j].0,
                    codes@[j].1,
                ),
            forall|w: int|
                0 <= w < 128 ==> mode_entry(codes@.take(i as int), MODE_LUT_BITS, w) == (if (
                #[trigger] lut@[w]).0 == 0 {
                    None
                } else {
                    Some(lut@[w])
                }),
        decreases codes@.len() - i,
    {
        let (pattern, len, mode) = codes[i];
        let shift: u8 = MODE_LUT_BITS - len;
        let ghost before = lut@;
        let ghost seen = codes@.take(i as int);
        let ghost now = codes@.take(i + 1);
        proof {
            assert(now.last() == codes@[i as int]);
            assert(now.drop_last() =~= seen);
            lemma2_to64();
            lemma_small_power(shift);
            lemma_code_in_table(MODE_LUT_BITS, pattern, len);
            let d = pow2(shift as nat) as int;
            assert(pattern * d + d == (pattern + 1) * d) by (nonlinear_arith);
            assert(pattern as usize * pow2(shift as usize as nat) == pattern * d);
            vstd::bits::lemma_usize_shl_is_mul(pattern as usize, shift as usize);
        }
        let span: usize = 1usize << shift;
        let base: usize = (pattern as usize) << shift;
        let mut suffix: usize = 0;
        while suffix < span
            invariant
                suffix <= span,
                base + span <= 128,
                lut@.len() == 128,
                before.len() == 128,
                forall|w: int|
                    0 <= w < 128 ==> #[trigger] lut@[w] == (if base <= w < base + suffix {
                        (len, mode)
                    } else {
                        before[w]
                    }),
            decreases span - suffix,
        {
            lut.set(base + suffix, (len, mode));
            suffix = suffix + 1;
        }
        proof {
            assert forall|w: int| 0 <= w < 128 implies mode_entry(now, MODE_LUT_BITS, w) == (if (
            #[trigger] lut@[w]).0 == 0 {
                None
            } else {
                Some(lut@[w])
            }) by {
                lemma_prefix_range(w, MODE_LUT_BITS, pattern, len);
                assert(before[w] == before[w]);
            }
        }
        i = i + 1;
    }
    proof {
        assert(codes@.take(codes@.len() as int) =~= codes@);
    }
    lut
}

/// The decoding tables of the white, black and mode codes.
pub struct CodeTables {
    white: Vec<LutEntry>,
    black: Vec<LutEntry>,
    modes: Vec<(u8, Mode)>,
}

impl CodeTables {
    /// Each table gives, for each word, the code that the word starts with.
    pub closed spec fn wf(&self) -> bool {
        &&& self.white@.len() == 4096
        &&& self.black@.len() == 8192
        &&& self.modes@.len() == 128
        &&& forall|w: int|
            0 <= w < 4096 ==> #[trigger] self.white@[w] == lut_entry(
                WHITE_CODES@,
                WHITE_LUT_BITS,
                w,
            )
        &&& forall|w: int|
            0 <= w < 8192 ==> #[trigger] self.black@[w] == lut_entry(
                BLACK_CODES@,
                BLACK_LUT_BITS,
                w,
            )
        &&& forall|w: int|
            0 <= w < 128 ==> mode_entry(mode_codes(), MODE_LUT_BITS, w) == (if (
            #[trigger] self.modes@[w]).0 == 0 {
                None
            } else {
                Some(self.modes@[w])
            })
    }

    /// Builds the three tables.
    pub fn new() -> (t: Self)
        ensures
            t.wf(),
    {
        proof {
            lemma2_to64();
            lemma_code_lists();
        }
        let white_codes: [RunCode; 104] = WHITE_CODES;
        let black_codes: [RunCode; 104] = BLACK_CODES;
        let white: Vec<LutEntry> = build_lut(white_codes.as_slice(), WHITE_LUT_BITS);
        let black: Vec<LutEntry> = build_lut(black_codes.as_slice(), BLACK_LUT_BITS);
        let modes: Vec<(u8, Mode)> = build_mode_lut();
        CodeTables { white, black, modes }
    }

    /// The white code that a twelve-bit word starts with.
    pub fn white_entry(&self, word: u16) -> (e: LutEntry)
        requires
            self.wf(),
            word < 4096,
        ensures
            e == lut_entry(WHITE_CODES@, WHITE_LUT_BITS, word as int),
    {
        self.white[word as usize]
    }

    /// The black code that a thirteen-bit word starts with.
    pub fn black_entry(&self, word: u16) -> (e: LutEntry)
        requires
            self.wf(),
            word < 8192,
        ensures
            e == lut_entry(BLACK_CODES@, BLACK_LUT_BITS, word as int),
    {
        self.black[word as usize]
    }

    /// The mode code that a seven-bit word starts with.
    pub fn mode_at(&self, word: u16) -> (e: Option<(u8, Mode)>)
        requires
            self.wf(),
            word < 128,
        ensures
            e == mode_entry(mode_codes(), MODE_LUT_BITS, word as int),
    {
        let (len, mode) = self.modes[word as usize];
        if len == 0 {
            None
        } else {
            Some((len, mode))
        }
    }
}

/// The white codes, ordered by the words that start with them.
const WHITE_ORDER: [u8; 104] = [
    91, 94, 95, 96, 97, 98, 99, 92, 93, 100, 101, 102, 103, 29, 30, 45, 46, 22, 23, 47, 48,
    13, 20, 33, 34, 35, 36, 37, 38, 19, 31, 32, 1, 12, 53, 54, 26, 39, 40, 41, 42, 43, 44,
    21, 28, 61, 62, 63, 0, 68, 69, 10, 11, 27, 59, 60, 86, 87, 88, 90, 18, 24, 49, 50, 51,
    52, 25, 55, 56, 57, 58, 66, 89, 70, 71, 74, 75, 73, 72, 76, 77, 78, 79, 80, 81, 82, 83,
    84, 85, 67, 2, 3, 65, 8, 9, 16, 17, 4, 5, 14, 15, 64, 6, 7,
];

/// Where each white code stands in that order.
const WHITE_RANK: [u8; 104] = [
    48, 32, 90, 91, 97, 98, 102, 103, 93, 94, 51, 52, 33, 21, 99, 100, 95, 96, 60, 29, 22,
    43, 17, 18, 61, 66, 36, 53, 44, 13, 14, 30, 31, 23, 24, 25, 26, 27, 28, 37, 38, 39, 40,
    41, 42, 15, 16, 19, 20, 62, 63, 64, 65, 34, 35, 67, 68, 69, 70, 54, 55, 45, 46, 47, 101,
    92, 71, 89, 49, 50, 73, 74, 78, 77, 75, 76, 79, 80, 81, 82, 83, 84, 85, 86, 87, 88, 56,
    57, 58, 72, 59, 0, 7, 8, 1, 2, 3, 4, 5, 6, 9, 10, 11, 12,
];

/// The first word that starts with each white code, in that order.
const WHITE_FIRST: [u16; 104] = [
    32, 36, 38, 40, 42, 44, 46, 48, 52, 56, 58, 60, 62, 64, 96, 128, 160, 192, 256, 320,
    352, 384, 512, 576, 608, 640, 672, 704, 736, 768, 832, 864, 896, 1024, 1152, 1184, 1216,
    1280, 1312, 1344, 1376, 1408, 1440, 1472, 1536, 1600, 1632, 1664, 1696, 1728, 1760,
    1792, 2048, 2304, 2368, 2400, 2432, 2448, 2464, 2480, 2496, 2560, 2624, 2656, 2688,
    2720, 2752, 2816, 2848, 2880, 2912, 2944, 3072, 3200, 3232, 3264, 3280, 3296, 3328,
    3360, 3376, 3392, 3408, 3424, 3440, 3456, 3472, 3488, 3504, 3520, 3584, 4096, 4608,
    4864, 5120, 5376, 5504, 5632, 6144, 6656, 6784, 6912, 7168, 7680,
];

/// The first word behind those that start with each white code, in that order.
const WHITE_NEXT: [u16; 104] = [
    36, 38, 40, 42, 44, 46, 48, 52, 56, 58, 60, 62, 64, 96, 128, 160, 192, 256, 320, 352,
    384, 512, 576, 608, 640, 672, 704, 736, 768, 832, 864, 896, 1024, 1152, 1184, 1216,
    1280, 1312, 1344, 1376, 1408, 1440, 1472, 1536, 1600, 1632, 1664, 1696, 1728, 1760,
    1792, 2048, 2304, 2368, 2400, 2432, 2448, 2464, 2480, 2496, 2560, 2624, 2656, 2688,
    2720, 2752, 2816, 2848, 2880, 2912, 2944, 3072, 3200, 3232, 3264, 3280, 3296, 3328,
    3360, 3376, 3392, 3408, 3424, 3440, 3456, 3472, 3488, 3504, 3520, 3584, 4096, 4608,
    4864, 5120, 5376, 5504, 5632, 6144, 6656, 6784, 6912, 7168, 7680, 8192,
];

/// The black codes, ordered by the words that start with them.
const BLACK_ORDER: [u8; 104] = [
    91, 94, 95, 96, 97, 98, 99, 92, 93, 100, 101, 102, 103, 18, 52, 73, 74, 75, 76, 55, 56,
    83, 84, 85, 86, 59, 60, 87, 88, 24, 25, 89, 90, 68, 69, 70, 71, 72, 53, 54, 77, 78, 79,
    80, 81, 82, 64, 13, 23, 50, 51, 44, 45, 46, 47, 57, 58, 61, 67, 16, 17, 48, 49, 62, 63,
    30, 31, 32, 33, 40, 41, 22, 14, 10, 11, 15, 65, 66, 26, 27, 28, 29, 19, 20, 34, 35, 36,
    37, 38, 39, 21, 42, 43, 0, 12, 9, 8, 7, 6, 5, 1, 4, 3, 2,
];

/// Where each black code stands in that order.
const BLACK_RANK: [u8; 104] = [
    93, 100, 103, 102, 101, 99, 98, 97, 96, 95, 73, 74, 94, 47, 72, 75, 59, 60, 13, 82, 83,
    90, 71, 48, 29, 30, 78, 79, 80, 81, 65, 66, 67, 68, 84, 85, 86, 87, 88, 89, 69, 70, 91,
    92, 51, 52, 53, 54, 61, 62, 49, 50, 14, 38, 39, 19, 20, 55, 56, 25, 26, 57, 63, 64, 46,
    76, 77, 58, 33, 34, 35, 36, 37, 15, 16, 17, 18, 40, 41, 42, 43, 44, 45, 21, 22, 23, 24,
    27, 28, 31, 32, 0, 7, 8, 1, 2, 3, 4, 5, 6, 9, 10, 11, 12,
];

/// The first word that starts with each black code, in that order.
const BLACK_FIRST: [u16; 104] = [
    32, 36, 38, 40, 42, 44, 46, 48, 52, 56, 58, 60, 62, 64, 72, 74, 75, 76, 77, 78, 80, 82,
    83, 84, 85, 86, 88, 90, 91, 92, 96, 100, 101, 102, 104, 106, 108, 109, 110, 112, 114,
    115, 116, 117, 118, 119, 120, 128, 160, 164, 166, 168, 170, 172, 174, 176, 178, 180,
    182, 184, 192, 200, 202, 204, 206, 208, 210, 212, 214, 216, 218, 220, 224, 256, 320,
    384, 400, 402, 404, 406, 408, 410, 412, 416, 420, 422, 424, 426, 428, 430, 432, 436,
    438, 440, 448, 512, 640, 768, 1024, 1536, 2048, 3072, 4096, 6144,
];

/// The first word behind those that start with each black code, in that order.
const BLACK_NEXT: [u16; 104] = [
    36, 38, 40, 42, 44, 46, 48, 52, 56, 58, 60, 62, 64, 72, 74, 75, 76, 77, 78, 80, 82, 83,
    84, 85, 86, 88, 90, 91, 92, 96, 100, 101, 102, 104, 106, 108, 109, 110, 112, 114, 115,
    116, 117, 118, 119, 120, 128, 160, 164, 166, 168, 170, 172, 174, 176, 178, 180, 182,
    184, 192, 200, 202, 204, 206, 208, 210, 212, 214, 216, 218, 220, 224, 256, 320, 384,
    400, 402, 404, 406, 408, 410, 412, 416, 420, 422, 424, 426, 428, 430, 432, 436, 438,
    440, 448, 512, 640, 768, 1024, 1536, 2048, 3072, 4096, 6144, 8192,
];

/// The number of thirteen-bit words that start with a code of a length.
spec fn words_of_length(len: u8) -> int {
    if len == 13 {
        1
    } else if len == 12 {
        2
    } else if len == 11 {
        4
    } else if len == 10 {
        8
    } else if len == 9 {
        16
    } else if len == 8 {
        32
    } else if len == 7 {
        64
    } else if len == 6 {
        128
    } else if len == 5 {
        256
    } else if len == 4 {
        512
    } else if len == 3 {
        1024
    } else if len == 2 {
        2048
    } else {
        4096
    }
}

proof fn lemma_words_of_length(len: u8)
    requires
        1 <= len <= 13,
    ensures
        words_of_length(len) == pow2((13 - len) as nat),
{
    lemma2_to64();
}

/// In the order, the words of each code end before those of the next begin, and each code has
/// its place.
#[verifier::opaque]
spec fn ordered_by(
    codes: Seq<RunCode>,
    order: Seq<u8>,
    rank: Seq<u8>,
    first: Seq<u16>,
    next: Seq<u16>,
) -> bool {
    &&& codes.len() == 104
    &&& forall|i: int|
        0 <= i < 104 ==> (#[trigger] rank[i]) < 104 && order[rank[i] as int] == i
            && first[rank[i] as int] == codes[i].0 * words_of_length(codes[i].1)
            && next[rank[i] as int] == (codes[i].0 + 1) * words_of_length(codes[i].1)
    &&& forall|k: int| 0 <= k < 104 ==> (#[trigger] first[k]) <= next[k]
    &&& forall|k: int| 0 <= k < 103 ==> (#[trigger] next[k]) <= first[k + 1]
}

proof fn lemma_words_apart(first: Seq<u16>, next: Seq<u16>, a: int, b: int)
    requires
        forall|k: int| 0 <= k < 104 ==> (#[trigger] first[k]) <= next[k],
        forall|k: int| 0 <= k < 103 ==> (#[trigger] next[k]) <= first[k + 1],
        0 <= a < b < 104,
    ensures
        next[a] <= first[b],
    decreases b - a,
{
    assert(next[a] <= first[a + 1]);
    if a + 1 < b {
        assert(first[a + 1] <= next[a + 1]);
        lemma_words_apart(first, next, a + 1, b);
    }
}

proof fn lemma_prefix_free(
    codes: Seq<RunCode>,
    order: Seq<u8>,
    rank: Seq<u8>,
    first: Seq<u16>,
    next: Seq<u16>,
    i: int,
    j: int,
    word: int,
)
    requires
        usable_codes(codes),
        ordered_by(codes, order, rank, first, next),
        0 <= i < 104,
        0 <= j < 104,
        0 <= word,
        word_starts_with(word, 13, codes[i].0, codes[i].1),
        word_starts_with(word, 13, codes[j].0, codes[j].1),
    ensures
        i == j,
{
    reveal(ordered_by);
    assert(usable_code(codes[i]) && usable_code(codes[j]));
    lemma_words_of_length(codes[i].1);
    lemma_words_of_length(codes[j].1);
    lemma_prefix_range(word, 13, codes[i].0, codes[i].1);
    lemma_prefix_range(word, 13, codes[j].0, codes[j].1);
    let a = rank[i] as int;
    let b = rank[j] as int;
    assert(order[a] == i && order[b] == j);
    if a < b {
        lemma_words_apart(first, next, a, b);
    } else if b < a {
        lemma_words_apart(first, next, b, a);
    }
}

proof fn lemma_white_order()
    ensures
        ordered_by(WHITE_CODES@, WHITE_ORDER@, WHITE_RANK@, WHITE_FIRST@, WHITE_NEXT@),
{
    reveal(ordered_by);
}

proof fn lemma_black_order()
    ensures
        ordered_by(BLACK_CODES@, BLACK_ORDER@, BLACK_RANK@, BLACK_FIRST@, BLACK_NEXT@),
{
    reveal(ordered_by);
}

/// No code of a colour is the start of another: a word starts with one code at most, so that
/// decoding does not depend on the order of the lists.
pub proof fn law_codes_are_prefix_free(i: int, j: int, word: int)
    requires
        0 <= i < 104,
        0 <= j < 104,
        0 <= word,
    ensures
        word_starts_with(word, 13, WHITE_CODES@[i].0, WHITE_CODES@[i].1) && word_starts_with(
            word,
            13,
            WHITE_CODES@[j].0,
            WHITE_CODES@[j].1,
        ) ==> i == j,
        word_starts_with(word, 13, BLACK_CODES@[i].0, BLACK_CODES@[i].1) && word_starts_with(
            word,
            13,
            BLACK_CODES@[j].0,
            BLACK_CODES@[j].1,
        ) ==> i == j,
{
    lemma_code_lists();
    lemma_white_order();
    lemma_black_order();
    if word_starts_with(word, 13, WHITE_CODES@[i].0, WHITE_CODES@[i].1) && word_starts_with(
        word,
        13,
        WHITE_CODES@[j].0,
        WHITE_CODES@[j].1,
    ) {
        lemma_prefix_free(
            WHITE_CODES@,
            WHITE_ORDER@,
            WHITE_RANK@,
            WHITE_FIRST@,
            WHITE_NEXT@,
            i,
            j,
            word,
        );
    }
    if word_starts_with(word, 13, BLACK_CODES@[i].0, BLACK_CODES@[i].1) && word_starts_with(
        word,
        13,
        BLACK_CODES@[j].0,
        BLACK_CODES@[j].1,
    ) {
        lemma_prefix_free(
            BLACK_CODES@,
            BLACK_ORDER@,
            BLACK_RANK@,
            BLACK_FIRST@,
            BLACK_NEXT@,
            i,
            j,
            word,
        );
    }
}

} // verus!
