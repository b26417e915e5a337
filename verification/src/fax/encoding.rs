//! How pages are coded, after T.4 and T.6, and that decoding undoes it.

use crate::fax::bits::{bits_of, bits_value, drop_bits, head_value, lemma_bits_value_bound};
use crate::fax::codes::{
    law_codes_are_prefix_free, lemma_code_lists, lut_entry, mode_codes, mode_entry, pattern_fits,
    usable_code, word_starts_with, Mode, ModeCode, RunCode, BLACK_CODES, MODE_LUT_BITS,
    WHITE_CODES,
};
use crate::fax::group::{after_line, group3_line, group3_lines, group4_lines, skip_eols, spells};
use crate::fax::lines::{
    b1_from, b1_of, b2_from, b2_of, code_at, color_bits, color_codes, lies_ahead, line_1d, line_2d,
    line_with_head, opposite, read_full_run, read_mode, read_run, step_2d, vertical_target, wrap16,
    Color, Step,
};
use crate::fax::page::{
    image_height, image_pixels, image_width, law_pixels_follow_the_changes, page_bytes, page_lines,
    shows, FaxImage,
};
use crate::fax::tiff::PageFields;
use vstd::arithmetic::power2::{lemma2_to64, lemma_pow2_pos, lemma_pow2_unfold, pow2};
use vstd::prelude::*;

verus! {

/// The code words of white runs: of each length below 64, then of each multiple of 64. A one stands
/// in front of each, so that no zero is lost.
pub const WHITE_WORDS: [u16; 104] = [
    0b1_00110101, 0b1_000111, 0b1_0111, 0b1_1000, 0b1_1011, 0b1_1100, 0b1_1110, 0b1_1111,
    0b1_10011, 0b1_10100, 0b1_00111, 0b1_01000, 0b1_001000, 0b1_000011, 0b1_110100, 0b1_110101,
    0b1_101010, 0b1_101011, 0b1_0100111, 0b1_0001100, 0b1_0001000, 0b1_0010111, 0b1_0000011,
    0b1_0000100, 0b1_0101000, 0b1_0101011, 0b1_0010011, 0b1_0100100, 0b1_0011000, 0b1_00000010,
    0b1_00000011, 0b1_00011010, 0b1_00011011, 0b1_00010010, 0b1_00010011, 0b1_00010100,
    0b1_00010101, 0b1_00010110, 0b1_00010111, 0b1_00101000, 0b1_00101001, 0b1_00101010,
    0b1_00101011, 0b1_00101100, 0b1_00101101, 0b1_00000100, 0b1_00000101, 0b1_00001010,
    0b1_00001011, 0b1_01010010, 0b1_01010011, 0b1_01010100, 0b1_01010101, 0b1_00100100,
    0b1_00100101, 0b1_01011000, 0b1_01011001, 0b1_01011010, 0b1_01011011, 0b1_01001010,
    0b1_01001011, 0b1_00110010, 0b1_00110011, 0b1_00110100, 0b1_11011, 0b1_10010, 0b1_010111,
    0b1_0110111, 0b1_00110110, 0b1_00110111, 0b1_01100100, 0b1_01100101, 0b1_01101000,
    0b1_01100111, 0b1_011001100, 0b1_011001101, 0b1_011010010, 0b1_011010011, 0b1_011010100,
    0b1_011010101, 0b1_011010110, 0b1_011010111, 0b1_011011000, 0b1_011011001, 0b1_011011010,
    0b1_011011011, 0b1_010011000, 0b1_010011001, 0b1_010011010, 0b1_011000, 0b1_010011011,
    0b1_00000001000, 0b1_00000001100, 0b1_00000001101, 0b1_000000010010, 0b1_000000010011,
    0b1_000000010100, 0b1_000000010101, 0b1_000000010110, 0b1_000000010111, 0b1_000000011100,
    0b1_000000011101, 0b1_000000011110, 0b1_000000011111,
];

/// The code words of black runs, laid out as those of white ones.
pub const BLACK_WORDS: [u16; 104] = [
    0b1_0000110111, 0b1_010, 0b1_11, 0b1_10, 0b1_011, 0b1_0011, 0b1_0010, 0b1_00011, 0b1_000101,
    0b1_000100, 0b1_0000100, 0b1_0000101, 0b1_0000111, 0b1_00000100, 0b1_00000111, 0b1_000011000,
    0b1_0000010111, 0b1_0000011000, 0b1_0000001000, 0b1_00001100111, 0b1_00001101000,
    0b1_00001101100, 0b1_00000110111, 0b1_00000101000, 0b1_00000010111, 0b1_00000011000,
    0b1_000011001010, 0b1_000011001011, 0b1_000011001100, 0b1_000011001101, 0b1_000001101000,
    0b1_000001101001, 0b1_000001101010, 0b1_000001101011, 0b1_000011010010, 0b1_000011010011,
    0b1_000011010100, 0b1_000011010101, 0b1_000011010110, 0b1_000011010111, 0b1_000001101100,
    0b1_000001101101, 0b1_000011011010, 0b1_000011011011, 0b1_000001010100, 0b1_000001010101,
    0b1_000001010110, 0b1_000001010111, 0b1_000001100100, 0b1_000001100101, 0b1_000001010010,
    0b1_000001010011, 0b1_000000100100, 0b1_000000110111, 0b1_000000111000, 0b1_000000100111,
    0b1_000000101000, 0b1_000001011000, 0b1_000001011001, 0b1_000000101011, 0b1_000000101100,
    0b1_000001011010, 0b1_000001100110, 0b1_000001100111, 0b1_0000001111, 0b1_000011001000,
    0b1_000011001001, 0b1_000001011011, 0b1_000000110011, 0b1_000000110100, 0b1_000000110101,
    0b1_0000001101100, 0b1_0000001101101, 0b1_0000001001010, 0b1_0000001001011, 0b1_0000001001100,
    0b1_0000001001101, 0b1_0000001110010, 0b1_0000001110011, 0b1_0000001110100, 0b1_0000001110101,
    0b1_0000001110110, 0b1_0000001110111, 0b1_0000001010010, 0b1_0000001010011, 0b1_0000001010100,
    0b1_0000001010101, 0b1_0000001011010, 0b1_0000001011011, 0b1_0000001100100, 0b1_0000001100101,
    0b1_00000001000, 0b1_00000001100, 0b1_00000001101, 0b1_000000010010, 0b1_000000010011,
    0b1_000000010100, 0b1_000000010101, 0b1_000000010110, 0b1_000000010111, 0b1_000000011100,
    0b1_000000011101, 0b1_000000011110, 0b1_000000011111,
];

/// The bits of a code word, without the one in front.
pub open spec fn word_bits(w: nat) -> Seq<bool>
    decreases w,
{
    if w <= 1 {
        Seq::empty()
    } else {
        word_bits(w / 2).push(w % 2 == 1)
    }
}

/// The code word at an index of the words of a colour.
pub open spec fn run_word(c: Color, i: int) -> Seq<bool> {
    match c {
        Color::White => word_bits(WHITE_WORDS@[i] as nat),
        Color::Black => word_bits(BLACK_WORDS@[i] as nat),
    }
}

/// The code words of a run: of the largest run as often as it fits, of the largest multiple of 64
/// that is left, if one is, and of the rest.
pub open spec fn run_bits(c: Color, n: int) -> Seq<bool>
    decreases n,
{
    if n >= 2560 {
        run_word(c, 103) + run_bits(c, n - 2560)
    } else if n >= 64 {
        run_word(c, 63 + n / 64) + run_word(c, n % 64)
    } else {
        run_word(c, n)
    }
}

/// The code word that says that the run below is passed over.
pub open spec fn pass_word() -> Seq<bool> {
    word_bits(0b1_0001)
}

/// The code word that says that two runs follow.
pub open spec fn horizontal_word() -> Seq<bool> {
    word_bits(0b1_001)
}

/// The code word that says how far right of the changing element above a line changes.
pub open spec fn vertical_word(d: int) -> Seq<bool> {
    word_bits(
        if d == 0 {
            0b1_1
        } else if d == 1 {
            0b1_011
        } else if d == 2 {
            0b1_000011
        } else if d == 3 {
            0b1_0000011
        } else if d == -1 {
            0b1_010
        } else if d == -2 {
            0b1_000010
        } else {
            0b1_0000010
        },
    )
}

/// The code word that ends a line.
pub open spec fn eol_word() -> Seq<bool> {
    word_bits(0b1_000000000001)
}

/// The places where a line changes colour, from left to right and below a bound.
pub open spec fn rising(t: Seq<u16>, bound: int) -> bool {
    &&& forall|i: int| 0 <= i < t.len() ==> #[trigger] t[i] < bound
    &&& forall|i: int, j: int| 0 <= i < j < t.len() ==> #[trigger] t[i] < #[trigger] t[j]
}

/// Where a line changes for the `n`th time, or its end.
pub open spec fn edge(t: Seq<u16>, n: int, width: u16) -> int {
    if 0 <= n < t.len() {
        t[n] as int
    } else {
        width as int
    }
}

/// The colour of a line that has changed `n` times.
pub open spec fn color_after(n: int) -> Color {
    if n % 2 == 0 {
        Color::White
    } else {
        Color::Black
    }
}

/// The change at an index ends a run of the colour: lines begin white.
pub open spec fn ends_run_of(i: int, c: Color) -> bool {
    color_after(i) == c
}

/// `b` is the first place of the line above, right of `a0`, where a run of the colour ends, or the
/// end of the line where there is none. Left of the line, `a0` is -1.
pub open spec fn is_b1(above: Seq<u16>, a0: int, c: Color, width: u16, b: u16) -> bool {
    ||| exists|i: int|
        0 <= i < above.len() && #[trigger] above[i] == b && ends_run_of(i, c) && b > a0
            && forall|j: int|
            0 <= j < i && ends_run_of(j, c) ==> #[trigger] above[j] <= a0
    ||| b == width && forall|j: int|
        0 <= j < above.len() && ends_run_of(j, c) ==> #[trigger] above[j] <= a0
}

/// `b` is the first place of the line above, right of `b1`, where it changes, or the end of the line
/// where there is none.
pub open spec fn is_b2(above: Seq<u16>, b1: u16, width: u16, b: u16) -> bool {
    ||| exists|i: int|
        0 <= i < above.len() && #[trigger] above[i] == b && b > b1 && forall|j: int|
            0 <= j < i ==> #[trigger] above[j] <= b1
    ||| b == width && forall|j: int| 0 <= j < above.len() ==> #[trigger] above[j] <= b1
}

/// The first place of the line above, right of `a0`, where a run of the colour ends.
pub open spec fn first_above(above: Seq<u16>, a0: int, c: Color, width: u16) -> u16 {
    choose|b: u16| is_b1(above, a0, c, width, b)
}

/// The next place of the line above where it changes.
pub open spec fn second_above(above: Seq<u16>, b1: u16, width: u16) -> u16 {
    choose|b: u16| is_b2(above, b1, width, b)
}

/// The code words of a line from `a0` on, once `n` changes are coded, against the line above; and
/// whether the last of them are the two runs up to the end of the line.
///
/// A run above that ends before the line changes is passed over. A change at most three places
/// from the one above is coded by its distance. Any other is coded by two runs.
pub open spec fn t6_from(t: Seq<u16>, n: int, above: Seq<u16>, a0: int, width: u16) -> (
    Seq<bool>,
    bool,
)
    decreases t.len() - n, 0x10000 - a0,
{
    let color = color_after(n);
    let a1 = edge(t, n, width);
    let a2 = edge(t, n + 1, width);
    let b1 = first_above(above, a0, color, width);
    let b2 = second_above(above, b1, width);
    if a0 < b2 && b2 < a1 {
        let more = t6_from(t, n, above, b2 as int, width);
        (pass_word() + more.0, more.1)
    } else if -3 <= a1 - b1 <= 3 {
        if 0 <= n < t.len() {
            let more = t6_from(t, n + 1, above, a1, width);
            (vertical_word(a1 - b1) + more.0, more.1)
        } else {
            (vertical_word(a1 - b1), false)
        }
    } else {
        let from = if a0 < 0 {
            0
        } else {
            a0
        };
        let runs = horizontal_word() + run_bits(color, a1 - from) + run_bits(
            opposite(color),
            a2 - a1,
        );
        if 0 <= n && n + 1 < t.len() {
            let more = t6_from(t, n + 2, above, a2, width);
            (runs + more.0, more.1)
        } else {
            (runs, n >= t.len())
        }
    }
}

/// The code words of a line, against the line above.
pub open spec fn t6_line(t: Seq<u16>, above: Seq<u16>, width: u16) -> Seq<bool> {
    t6_from(t, 0, above, -1, width).0
}

/// A line as it is read: its changes, and its end behind them where the last code words are the two
/// runs up to it, of which the second is empty.
pub open spec fn t6_read(t: Seq<u16>, above: Seq<u16>, width: u16) -> Seq<u16> {
    if t6_from(t, 0, above, -1, width).1 {
        t.push(width)
    } else {
        t
    }
}

/// The code words of a line from `a0` on, once `n` changes are coded, without regard to other
/// lines: runs of alternating colour.
pub open spec fn t4_from(t: Seq<u16>, n: int, a0: int, width: u16) -> Seq<bool>
    decreases t.len() - n,
{
    let run = run_bits(color_after(n), edge(t, n, width) - a0);
    if 0 <= n < t.len() {
        run + t4_from(t, n + 1, edge(t, n, width), width)
    } else {
        run
    }
}

proof fn lemma_word_bits(p: nat, len: nat)
    requires
        p < pow2(len),
    ensures
        word_bits(pow2(len) + p).len() == len,
        bits_value(word_bits(pow2(len) + p)) == p,
    decreases len,
{
    lemma_pow2_pos(len);
    if len == 0 {
        lemma2_to64();
    } else {
        lemma_pow2_unfold(len);
        lemma_pow2_pos((len - 1) as nat);
        let w = pow2(len) + p;
        assert(w / 2 == pow2((len - 1) as nat) + p / 2);
        assert(w % 2 == p % 2);
        lemma_word_bits(p / 2, (len - 1) as nat);
        assert(word_bits(w).drop_last() =~= word_bits(w / 2));
    }
}

proof fn lemma_bits_concat(a: Seq<bool>, b: Seq<bool>)
    ensures
        bits_value(a + b) == bits_value(a) * pow2(b.len()) + bits_value(b),
    decreases b.len(),
{
    if b.len() == 0 {
        lemma2_to64();
        assert(a + b =~= a);
    } else {
        let v = bits_value(a) as int;
        let d = pow2((b.len() - 1) as nat) as int;
        lemma_bits_concat(a, b.drop_last());
        lemma_pow2_unfold(b.len());
        assert((a + b).drop_last() =~= a + b.drop_last());
        assert((a + b).last() == b.last());
        assert(2 * (v * d) == v * (2 * d)) by (nonlinear_arith);
    }
}

/// What a code word at the start of bits spells in a wider window.
proof fn lemma_word_in_window(word: Seq<bool>, rest: Seq<bool>, bits: nat)
    requires
        word.len() <= bits <= word.len() + rest.len(),
    ensures
        head_value(word + rest, bits as int) as int / (pow2((bits - word.len()) as nat) as int)
            == bits_value(word),
{
    let n = (bits - word.len()) as nat;
    let tail = rest.subrange(0, n as int);
    let d = pow2(n) as int;
    let v = bits_value(word) as int;
    let low = bits_value(tail) as int;
    assert((word + rest).subrange(0, bits as int) =~= word + tail);
    lemma_bits_concat(word, tail);
    lemma_bits_value_bound(tail);
    lemma_pow2_pos(n);
    assert(v * d + low == d * v + low) by (nonlinear_arith);
    vstd::arithmetic::div_mod::lemma_fundamental_div_mod_converse(v * d + low, d, v, low);
}

/// The run that the code at an index stands for.
spec fn run_at(i: int) -> int {
    if i < 64 {
        i
    } else {
        64 * (i - 63)
    }
}

proof fn lemma_white_words(i: int)
    requires
        0 <= i < 104,
    ensures
        WHITE_WORDS@[i] == WHITE_CODES@[i].0 + pow2(WHITE_CODES@[i].1 as nat),
        1 <= WHITE_CODES@[i].1 <= 12,
        WHITE_CODES@[i].2 == run_at(i),
{
    lemma2_to64();
}

proof fn lemma_black_words(i: int)
    requires
        0 <= i < 104,
    ensures
        BLACK_WORDS@[i] == BLACK_CODES@[i].0 + pow2(BLACK_CODES@[i].1 as nat),
        1 <= BLACK_CODES@[i].1 <= 13,
        BLACK_CODES@[i].2 == run_at(i),
{
    lemma2_to64();
}

proof fn lemma_only_entry(codes: Seq<RunCode>, bits: u8, word: int, i: int)
    requires
        0 <= i < codes.len(),
        word_starts_with(word, bits, codes[i].0, codes[i].1),
        forall|j: int|
            0 <= j < codes.len() && word_starts_with(
                word,
                bits,
                (#[trigger] codes[j]).0,
                codes[j].1,
            ) ==> j == i,
    ensures
        lut_entry(codes, bits, word) == (codes[i].2, codes[i].1),
    decreases codes.len(),
{
    let last = codes.len() - 1;
    assert(codes[last] == codes.last());
    if i < last {
        let fewer = codes.drop_last();
        assert forall|j: int|
            0 <= j < fewer.len() && word_starts_with(
                word,
                bits,
                (#[trigger] fewer[j]).0,
                fewer[j].1,
            ) implies j == i by {
            assert(codes[j] == fewer[j]);
        }
        lemma_only_entry(fewer, bits, word, i);
    }
}

/// A window of twelve bits starts as one of thirteen does.
proof fn lemma_wider_window(word: int, pattern: u16, len: u8)
    requires
        1 <= len <= 12,
        0 <= word,
        word_starts_with(word, 12, pattern, len),
    ensures
        word_starts_with(2 * word, 13, pattern, len),
{
    let d = pow2((12 - len) as nat) as int;
    lemma_pow2_unfold((13 - len) as nat);
    lemma_pow2_pos((12 - len) as nat);
    vstd::arithmetic::div_mod::lemma_div_denominator(2 * word, 2, d);
    assert((2 * word) / 2 == word);
}

/// No window of so many bits starts with two codes of a list.
spec fn apart(codes: Seq<RunCode>, bits: u8) -> bool {
    forall|h: int, i: int, j: int|
        #![trigger word_starts_with(h, bits, codes[i].0, codes[i].1), codes[j]]
        0 <= h && 0 <= i < codes.len() && 0 <= j < codes.len() && word_starts_with(
            h,
            bits,
            codes[i].0,
            codes[i].1,
        ) && word_starts_with(h, bits, codes[j].0, codes[j].1) ==> i == j
}

proof fn lemma_white_apart()
    ensures
        apart(WHITE_CODES@, 12),
{
    let codes = WHITE_CODES@;
    assert forall|h: int, i: int, j: int|
        #![trigger word_starts_with(h, 12, codes[i].0, codes[i].1), codes[j]]
        0 <= h && 0 <= i < codes.len() && 0 <= j < codes.len() && word_starts_with(
            h,
            12,
            codes[i].0,
            codes[i].1,
        ) && word_starts_with(h, 12, codes[j].0, codes[j].1) implies i == j by {
        lemma_white_words(i);
        lemma_white_words(j);
        lemma_wider_window(h, codes[i].0, codes[i].1);
        lemma_wider_window(h, codes[j].0, codes[j].1);
        law_codes_are_prefix_free(i, j, 2 * h);
    }
}

proof fn lemma_black_apart()
    ensures
        apart(BLACK_CODES@, 13),
{
    let codes = BLACK_CODES@;
    assert forall|h: int, i: int, j: int|
        #![trigger word_starts_with(h, 13, codes[i].0, codes[i].1), codes[j]]
        0 <= h && 0 <= i < codes.len() && 0 <= j < codes.len() && word_starts_with(
            h,
            13,
            codes[i].0,
            codes[i].1,
        ) && word_starts_with(h, 13, codes[j].0, codes[j].1) implies i == j by {
        law_codes_are_prefix_free(i, j, h);
    }
}

proof fn lemma_entry_of_word(codes: Seq<RunCode>, bits: u8, i: int, word: Seq<bool>, rest: Seq<bool>)
    requires
        apart(codes, bits),
        0 <= i < codes.len(),
        word == word_bits(pow2(codes[i].1 as nat) + codes[i].0 as nat),
        pattern_fits(codes[i].0, codes[i].1),
        codes[i].1 <= bits,
        bits <= rest.len(),
    ensures
        word.len() == codes[i].1,
        lut_entry(codes, bits, head_value(word + rest, bits as int) as int) == (
            codes[i].2,
            codes[i].1,
        ),
{
    lemma_word_bits(codes[i].0 as nat, codes[i].1 as nat);
    let h = head_value(word + rest, bits as int) as int;
    lemma_word_in_window(word, rest, bits as nat);
    assert(word_starts_with(h, bits, codes[i].0, codes[i].1));
    lemma_only_entry(codes, bits, h, i);
}

proof fn lemma_usable(c: Color, i: int)
    requires
        0 <= i < 104,
    ensures
        ({
            let codes = color_codes(c);
            &&& codes.len() == 104
            &&& apart(codes, color_bits(c))
            &&& pattern_fits(codes[i].0, codes[i].1)
            &&& 1 <= codes[i].1 <= color_bits(c) <= 13
            &&& codes[i].2 == run_at(i)
            &&& run_word(c, i) == word_bits(pow2(codes[i].1 as nat) + codes[i].0 as nat)
        }),
{
    lemma_code_lists();
    match c {
        Color::White => {
            lemma_white_words(i);
            lemma_white_apart();
            assert(usable_code(WHITE_CODES@[i]));
        },
        Color::Black => {
            lemma_black_words(i);
            lemma_black_apart();
            assert(usable_code(BLACK_CODES@[i]));
        },
    }
}

/// A code word is read as the run that it stands for, and no bit behind it is touched.
proof fn lemma_read_word(c: Color, i: int, rest: Seq<bool>)
    requires
        0 <= i < 104,
        rest.len() >= 13,
    ensures
        read_run(run_word(c, i) + rest, c) == Some((run_at(i) as u16, rest)),
{
    reveal(read_run);
    lemma_usable(c, i);
    let word = run_word(c, i);
    lemma_entry_of_word(color_codes(c), color_bits(c), i, word, rest);
    assert(drop_bits(word + rest, word.len() as int) =~= rest);
}

/// A run is read back from its code words, on top of what was read before.
proof fn lemma_read_run_bits(c: Color, n: int, acc: u16, rest: Seq<bool>)
    requires
        0 <= n,
        acc + n <= 0xffff,
        rest.len() >= 13,
    ensures
        read_full_run(run_bits(c, n) + rest, c, acc) == Some(((acc + n) as u16, rest)),
    decreases n,
{
    if n >= 2560 {
        let tail = run_bits(c, n - 2560) + rest;
        lemma_read_word(c, 103, tail);
        lemma_read_run_bits(c, n - 2560, (acc + 2560) as u16, rest);
        assert(run_bits(c, n) + rest =~= run_word(c, 103) + tail);
    } else if n >= 64 {
        let tail = run_word(c, n % 64) + rest;
        lemma_read_word(c, n % 64, rest);
        lemma_read_word(c, 63 + n / 64, tail);
        assert(run_bits(c, n) + rest =~= run_word(c, 63 + n / 64) + tail);
        let m = (acc + 64 * (n / 64)) as u16;
        assert(read_full_run(tail, c, m) == Some(((acc + n) as u16, rest)));
    } else {
        lemma_read_word(c, n, rest);
    }
}

/// A run of any length is read back from its code words, whatever follows them.
pub proof fn law_decoding_undoes_coding_of_runs(c: Color, n: int, rest: Seq<bool>)
    requires
        0 <= n <= 0xffff,
        rest.len() >= 13,
    ensures
        read_full_run(run_bits(c, n) + rest, c, 0) == Some((n as u16, rest)),
{
    lemma_read_run_bits(c, n, 0, rest);
}

/// The modes, as their code words have them.
spec fn mode_word(m: Mode) -> Seq<bool> {
    match m {
        Mode::Pass => pass_word(),
        Mode::Horizontal => horizontal_word(),
        Mode::Vertical(d) => vertical_word(d as int),
    }
}

proof fn lemma_only_mode(codes: Seq<ModeCode>, bits: u8, word: int, i: int)
    requires
        0 <= i < codes.len(),
        word_starts_with(word, bits, codes[i].0, codes[i].1),
        forall|j: int|
            0 <= j < codes.len() && word_starts_with(
                word,
                bits,
                (#[trigger] codes[j]).0,
                codes[j].1,
            ) ==> j == i,
    ensures
        mode_entry(codes, bits, word) == Some((codes[i].1, codes[i].2)),
    decreases codes.len(),
{
    let last = codes.len() - 1;
    assert(codes[last] == codes.last());
    if i < last {
        let fewer = codes.drop_last();
        assert forall|j: int|
            0 <= j < fewer.len() && word_starts_with(
                word,
                bits,
                (#[trigger] fewer[j]).0,
                fewer[j].1,
            ) implies j == i by {
            assert(codes[j] == fewer[j]);
        }
        lemma_only_mode(fewer, bits, word, i);
    }
}

proof fn lemma_mode_words(i: int)
    requires
        0 <= i < 9,
    ensures
        ({
            let c = mode_codes()[i];
            &&& mode_word(c.2) == word_bits(pow2(c.1 as nat) + c.0 as nat)
            &&& c.0 < pow2(c.1 as nat)
            &&& 1 <= c.1 <= 7
        }),
{
    lemma2_to64();
}

/// The first of the seven-bit windows that start with a mode, and the first behind them.
spec fn mode_windows(i: int) -> (int, int) {
    if i == 0 {
        (8, 16)
    } else if i == 1 {
        (16, 32)
    } else if i == 2 {
        (64, 128)
    } else if i == 3 {
        (48, 64)
    } else if i == 4 {
        (6, 8)
    } else if i == 5 {
        (3, 4)
    } else if i == 6 {
        (32, 48)
    } else if i == 7 {
        (4, 6)
    } else {
        (2, 3)
    }
}

proof fn lemma_mode_window(h: int, i: int)
    requires
        0 <= h < 128,
        0 <= i < 9,
        word_starts_with(h, MODE_LUT_BITS, mode_codes()[i].0, mode_codes()[i].1),
    ensures
        mode_windows(i).0 <= h < mode_windows(i).1,
{
    lemma2_to64();
    let c = mode_codes()[i];
    if i == 0 {
        assert(c.0 == 1 && c.1 == 4 && h / 8 == 1);
    } else if i == 1 {
        assert(c.0 == 1 && c.1 == 3 && h / 16 == 1);
    } else if i == 2 {
        assert(c.0 == 1 && c.1 == 1 && h / 64 == 1);
    } else if i == 3 {
        assert(c.0 == 3 && c.1 == 3 && h / 16 == 3);
    } else if i == 4 {
        assert(c.0 == 3 && c.1 == 6 && h / 2 == 3);
    } else if i == 5 {
        assert(c.0 == 3 && c.1 == 7 && h / 1 == 3);
    } else if i == 6 {
        assert(c.0 == 2 && c.1 == 3 && h / 16 == 2);
    } else if i == 7 {
        assert(c.0 == 2 && c.1 == 6 && h / 2 == 2);
    } else {
        assert(c.0 == 2 && c.1 == 7 && h / 1 == 2);
    }
}

proof fn lemma_modes_apart(h: int, i: int, j: int)
    requires
        0 <= h < 128,
        0 <= i < 9,
        0 <= j < 9,
        word_starts_with(h, MODE_LUT_BITS, mode_codes()[i].0, mode_codes()[i].1),
        word_starts_with(h, MODE_LUT_BITS, mode_codes()[j].0, mode_codes()[j].1),
    ensures
        i == j,
{
    lemma_mode_window(h, i);
    lemma_mode_window(h, j);
}

/// A mode is read back from its code word, and no bit behind it is touched.
proof fn lemma_read_mode_word(i: int, rest: Seq<bool>)
    requires
        0 <= i < 9,
        rest.len() >= 7,
    ensures
        read_mode(mode_word(mode_codes()[i].2) + rest) == Some((mode_codes()[i].2, rest)),
{
    reveal(read_mode);
    let codes = mode_codes();
    lemma_mode_words(i);
    lemma_word_bits(codes[i].0 as nat, codes[i].1 as nat);
    let word = mode_word(codes[i].2);
    let s = word + rest;
    let h = head_value(s, 7) as int;
    lemma2_to64();
    lemma_bits_value_bound(s.subrange(0, 7));
    lemma_word_in_window(word, rest, 7);
    assert(word_starts_with(h, MODE_LUT_BITS, codes[i].0, codes[i].1));
    assert forall|j: int|
        0 <= j < codes.len() && word_starts_with(
            h,
            MODE_LUT_BITS,
            (#[trigger] codes[j]).0,
            codes[j].1,
        ) implies j == i by {
        lemma_modes_apart(h, i, j);
    }
    lemma_only_mode(codes, MODE_LUT_BITS, h, i);
    assert(drop_bits(s, word.len() as int) =~= rest);
}

/// The modes are read back from their code words, whatever follows them.
pub proof fn law_decoding_undoes_coding_of_modes(d: int, rest: Seq<bool>)
    requires
        -3 <= d <= 3,
        rest.len() >= 7,
    ensures
        read_mode(pass_word() + rest) == Some((Mode::Pass, rest)),
        read_mode(horizontal_word() + rest) == Some((Mode::Horizontal, rest)),
        read_mode(vertical_word(d) + rest) == Some((Mode::Vertical(d as i8), rest)),
{
    lemma_read_mode_word(0, rest);
    lemma_read_mode_word(1, rest);
    let i: int = if d >= 0 {
        2 + d
    } else {
        5 - d
    };
    assert(mode_codes()[i].2 == Mode::Vertical(d as i8));
    lemma_read_mode_word(i, rest);
}

proof fn lemma_b1_found(above: Seq<u16>, pos: u16, a0: int, c: Color, width: u16, i: int)
    requires
        0 <= i <= above.len(),
        forall|j: int|
            0 <= j < above.len() && ends_run_of(j, c) ==> (lies_ahead(#[trigger] above[j], pos)
                <==> above[j] > a0),
        forall|j: int| 0 <= j < i && ends_run_of(j, c) ==> #[trigger] above[j] <= a0,
    ensures
        is_b1(above, a0, c, width, b1_from(above, pos, c == Color::White, width, i)),
    decreases above.len() - i,
{
    if i < above.len() {
        assert((i % 2 == 0) == (c == Color::White) <==> ends_run_of(i, c));
        if !(lies_ahead(above[i], pos) && ends_run_of(i, c)) {
            lemma_b1_found(above, pos, a0, c, width, i + 1);
        } else {
            assert(above[i] == above[i] && ends_run_of(i, c) && above[i] > a0);
        }
    }
}

proof fn lemma_b2_found(above: Seq<u16>, b1: u16, width: u16, i: int)
    requires
        0 <= i <= above.len(),
        forall|j: int| 0 <= j < i ==> #[trigger] above[j] <= b1,
    ensures
        is_b2(above, b1, width, b2_from(above, b1, width, i)),
    decreases above.len() - i,
{
    if i < above.len() && above[i] <= b1 {
        lemma_b2_found(above, b1, width, i + 1);
    }
}

proof fn lemma_b1_unique(above: Seq<u16>, a0: int, c: Color, width: u16, x: u16, y: u16)
    requires
        is_b1(above, a0, c, width, x),
        is_b1(above, a0, c, width, y),
    ensures
        x == y,
{
}

proof fn lemma_b2_unique(above: Seq<u16>, b1: u16, width: u16, x: u16, y: u16)
    requires
        is_b2(above, b1, width, x),
        is_b2(above, b1, width, y),
    ensures
        x == y,
{
}

/// The two places of the line above that a line is coded against are found: the first one ahead
/// where a run of the colour ends, which at the start of a line may be its first place, and the
/// next one right of that where the line above changes again.
pub proof fn law_the_changes_above_are_found(above: Seq<u16>, a0: u16, c: Color, b1: u16, width: u16)
    ensures
        a0 > 0 ==> is_b1(above, a0 as int, c, width, b1_of(above, a0, c, width)),
        a0 == 0 ==> is_b1(above, -1, c, width, b1_of(above, a0, c, width)),
        is_b2(above, b1, width, b2_of(above, b1, width)),
{
    let from: int = if a0 == 0 {
        -1
    } else {
        a0 as int
    };
    lemma_b1_found(above, a0, from, c, width, 0);
    lemma_b2_found(above, b1, width, 0);
}

/// What is above a line, as its decoder sees it.
proof fn lemma_above(above: Seq<u16>, n: int, a0: int, width: u16)
    requires
        rising(above, width + 1),
        -1 <= a0 < width,
        0 <= n,
        a0 == -1 ==> n == 0,
        a0 == 0 ==> n == 1,
    ensures
        ({
            let c = color_after(n);
            let pos = (if a0 < 0 {
                0
            } else {
                a0
            }) as u16;
            let b1 = first_above(above, a0, c, width);
            let b2 = second_above(above, b1, width);
            &&& b1 == b1_of(above, pos, c, width)
            &&& b2 == b2_of(above, b1, width)
            &&& b2 > b1 || b2 == width
        }),
{
    let c = color_after(n);
    let pos = (if a0 < 0 {
        0
    } else {
        a0
    }) as u16;
    assert forall|j: int| 0 <= j < above.len() && ends_run_of(j, c) implies (lies_ahead(
        #[trigger] above[j],
        pos,
    ) <==> above[j] > a0) by {
        if a0 == 0 {
            assert(j % 2 == 1);
            assert(above[0] < above[j]);
        }
    }
    lemma_b1_found(above, pos, a0, c, width, 0);
    let b1 = first_above(above, a0, c, width);
    lemma_b1_unique(above, a0, c, width, b1, b1_of(above, pos, c, width));
    lemma_b2_found(above, b1, width, 0);
    let b2 = second_above(above, b1, width);
    lemma_b2_unique(above, b1, width, b2, b2_of(above, b1, width));
}

proof fn lemma_pass_step(above: Seq<u16>, pos: u16, color: Color, width: u16, tail: Seq<bool>)
    requires
        tail.len() >= 7,
    ensures
        step_2d(pass_word() + tail, above, pos, color, width) == (
            Step::Next(b2_of(above, b1_of(above, pos, color, width), width), color),
            Seq::<u16>::empty(),
            tail,
        ),
{
    law_decoding_undoes_coding_of_modes(0, tail);
}

proof fn lemma_vertical_step(
    above: Seq<u16>,
    pos: u16,
    color: Color,
    width: u16,
    a1: int,
    tail: Seq<bool>,
)
    requires
        tail.len() >= 7,
        0 <= a1 <= width,
        -3 <= a1 - b1_of(above, pos, color, width) <= 3,
    ensures
        step_2d(
            vertical_word(a1 - b1_of(above, pos, color, width)) + tail,
            above,
            pos,
            color,
            width,
        ) == (if a1 == width {
            (Step::Last, Seq::<u16>::empty(), tail)
        } else {
            (Step::Next(a1 as u16, opposite(color)), seq![a1 as u16], tail)
        }),
{
    let d = a1 - b1_of(above, pos, color, width);
    law_decoding_undoes_coding_of_modes(d, tail);
    assert(vertical_target(b1_of(above, pos, color, width), d as i8) == a1);
}

proof fn lemma_horizontal_step(
    above: Seq<u16>,
    pos: u16,
    color: Color,
    width: u16,
    a1: int,
    a2: int,
    tail: Seq<bool>,
)
    requires
        tail.len() >= 13,
        pos <= a1 <= a2 <= width,
    ensures
        step_2d(
            horizontal_word() + run_bits(color, a1 - pos) + run_bits(opposite(color), a2 - a1)
                + tail,
            above,
            pos,
            color,
            width,
        ) == (if a2 == width {
            (Step::Last, seq![a1 as u16], tail)
        } else {
            (Step::Next(a2 as u16, color), seq![a1 as u16, a2 as u16], tail)
        }),
{
    let r1 = run_bits(color, a1 - pos);
    let r2 = run_bits(opposite(color), a2 - a1);
    assert(horizontal_word() + r1 + r2 + tail =~= horizontal_word() + (r1 + (r2 + tail)));
    law_decoding_undoes_coding_of_modes(0, r1 + (r2 + tail));
    lemma_read_run_bits(color, a1 - pos, 0, r2 + tail);
    lemma_read_run_bits(opposite(color), a2 - a1, 0, tail);
    assert(wrap16(pos + (a1 - pos)) == a1);
    assert(wrap16(a1 + (a2 - a1)) == a2);
}

/// The changes of a line from the `n`th on, and its end where it is read as one.
spec fn left_to_read(t: Seq<u16>, n: int, wide: bool, width: u16) -> Seq<u16> {
    if wide {
        t.subrange(n, t.len() as int).push(width)
    } else {
        t.subrange(n, t.len() as int)
    }
}

/// The rest of a line is read as so many changes, with some bits behind them.
#[verifier::opaque]
spec fn reads(
    s: Seq<bool>,
    above: Seq<u16>,
    pos: u16,
    color: Color,
    width: u16,
    got: Seq<u16>,
    rest: Seq<bool>,
) -> bool {
    line_2d(s, above, pos, color, width) == Some((got, rest))
}

proof fn lemma_next(
    s: Seq<bool>,
    above: Seq<u16>,
    pos: u16,
    color: Color,
    width: u16,
    a: u16,
    c: Color,
    added: Seq<u16>,
    tail: Seq<bool>,
)
    requires
        pos < width,
        step_2d(s, above, pos, color, width) == (Step::Next(a, c), added, tail),
    ensures
        line_2d(s, above, pos, color, width) == line_with_head(
            added,
            line_2d(tail, above, a, c, width),
        ),
{
}

proof fn lemma_last(
    s: Seq<bool>,
    above: Seq<u16>,
    pos: u16,
    color: Color,
    width: u16,
    added: Seq<u16>,
    tail: Seq<bool>,
)
    requires
        pos < width,
        step_2d(s, above, pos, color, width) == (Step::Last, added, tail),
    ensures
        line_2d(s, above, pos, color, width) == Some((added, tail)),
{
}

proof fn lemma_t6_pass(
    above: Seq<u16>,
    pos: u16,
    color: Color,
    width: u16,
    b2: u16,
    more: Seq<bool>,
    rest: Seq<bool>,
    got: Seq<u16>,
)
    requires
        pos < width,
        b2 == b2_of(above, b1_of(above, pos, color, width), width),
        rest.len() >= 13,
        reads(more + rest, above, b2, color, width, got, rest),
    ensures
        reads(pass_word() + more + rest, above, pos, color, width, got, rest),
{
    reveal(reads);
    let tail = more + rest;
    assert(pass_word() + more + rest =~= pass_word() + tail);
    lemma_pass_step(above, pos, color, width, tail);
    lemma_next(
        pass_word() + tail,
        above,
        pos,
        color,
        width,
        b2,
        color,
        Seq::empty(),
        tail,
    );
    assert(Seq::<u16>::empty() + got =~= got);
}

proof fn lemma_t6_vertical(
    above: Seq<u16>,
    pos: u16,
    color: Color,
    width: u16,
    b1: u16,
    a1: u16,
    more: Seq<bool>,
    rest: Seq<bool>,
    got: Seq<u16>,
)
    requires
        pos < width,
        a1 < width,
        b1 == b1_of(above, pos, color, width),
        -3 <= a1 - b1 <= 3,
        rest.len() >= 13,
        reads(more + rest, above, a1, opposite(color), width, got, rest),
    ensures
        reads(
            vertical_word(a1 - b1) + more + rest,
            above,
            pos,
            color,
            width,
            seq![a1] + got,
            rest,
        ),
{
    reveal(reads);
    let tail = more + rest;
    let word = vertical_word(a1 - b1);
    assert(word + more + rest =~= word + tail);
    lemma_vertical_step(above, pos, color, width, a1 as int, tail);
    lemma_next(word + tail, above, pos, color, width, a1, opposite(color), seq![a1], tail);
}

proof fn lemma_t6_horizontal(
    above: Seq<u16>,
    pos: u16,
    color: Color,
    width: u16,
    a1: u16,
    a2: u16,
    more: Seq<bool>,
    rest: Seq<bool>,
    got: Seq<u16>,
)
    requires
        pos <= a1 <= a2 < width,
        rest.len() >= 13,
        reads(more + rest, above, a2, color, width, got, rest),
    ensures
        reads(
            horizontal_word() + run_bits(color, a1 - pos) + run_bits(opposite(color), a2 - a1)
                + more + rest,
            above,
            pos,
            color,
            width,
            seq![a1, a2] + got,
            rest,
        ),
{
    reveal(reads);
    let tail = more + rest;
    let runs = horizontal_word() + run_bits(color, a1 - pos) + run_bits(opposite(color), a2 - a1);
    assert(runs + more + rest =~= runs + tail);
    lemma_horizontal_step(above, pos, color, width, a1 as int, a2 as int, tail);
    lemma_next(runs + tail, above, pos, color, width, a2, color, seq![a1, a2], tail);
}

proof fn lemma_t6_vertical_end(
    above: Seq<u16>,
    pos: u16,
    color: Color,
    width: u16,
    b1: u16,
    rest: Seq<bool>,
)
    requires
        pos < width,
        b1 == b1_of(above, pos, color, width),
        -3 <= width - b1 <= 3,
        rest.len() >= 13,
    ensures
        reads(vertical_word(width - b1) + rest, above, pos, color, width, Seq::empty(), rest),
{
    reveal(reads);
    lemma_vertical_step(above, pos, color, width, width as int, rest);
    lemma_last(vertical_word(width - b1) + rest, above, pos, color, width, Seq::empty(), rest);
}

proof fn lemma_t6_horizontal_end(
    above: Seq<u16>,
    pos: u16,
    color: Color,
    width: u16,
    a1: u16,
    rest: Seq<bool>,
)
    requires
        pos < width,
        pos <= a1 <= width,
        rest.len() >= 13,
    ensures
        reads(
            horizontal_word() + run_bits(color, a1 - pos) + run_bits(opposite(color), width - a1)
                + rest,
            above,
            pos,
            color,
            width,
            seq![a1],
            rest,
        ),
{
    reveal(reads);
    let runs = horizontal_word() + run_bits(color, a1 - pos) + run_bits(opposite(color), width - a1);
    lemma_horizontal_step(above, pos, color, width, a1 as int, width as int, rest);
    lemma_last(runs + rest, above, pos, color, width, seq![a1], rest);
}

/// Decoding undoes coding, from any place of a line on.
proof fn lemma_t6(t: Seq<u16>, n: int, above: Seq<u16>, a0: int, width: u16, rest: Seq<bool>)
    requires
        width > 0,
        rising(t, width as int),
        rising(above, width + 1),
        0 <= n <= t.len(),
        -1 <= a0 < edge(t, n, width),
        a0 == -1 ==> n == 0,
        a0 == 0 ==> n == 1,
        rest.len() >= 13,
    ensures
        ({
            let pos = (if a0 < 0 {
                0
            } else {
                a0
            }) as u16;
            let (code, wide) = t6_from(t, n, above, a0, width);
            reads(
                code + rest,
                above,
                pos,
                color_after(n),
                width,
                left_to_read(t, n, wide, width),
                rest,
            )
        }),
    decreases t.len() - n, 0x10000 - a0,
{
    let pos = (if a0 < 0 {
        0
    } else {
        a0
    }) as u16;
    let color = color_after(n);
    let a1 = edge(t, n, width);
    let a2 = edge(t, n + 1, width);
    let b1 = first_above(above, a0, color, width);
    let b2 = second_above(above, b1, width);
    let (code, wide) = t6_from(t, n, above, a0, width);
    let got = left_to_read(t, n, wide, width);
    lemma_above(above, n, a0, width);
    assert(color_after(n + 1) == opposite(color));
    assert(color_after(n + 2) == color);
    assert(a1 <= a2 <= width && pos <= a1 && pos < width) by {
        if n + 1 < t.len() {
            assert(t[n] < t[n + 1]);
        }
    }
    if a0 < b2 && b2 < a1 {
        let more = t6_from(t, n, above, b2 as int, width);
        lemma_t6(t, n, above, b2 as int, width, rest);
        lemma_t6_pass(above, pos, color, width, b2, more.0, rest, got);
    } else if -3 <= a1 - b1 <= 3 {
        if n < t.len() {
            let more = t6_from(t, n + 1, above, a1, width);
            let fewer = left_to_read(t, n + 1, wide, width);
            assert(a1 < a2);
            assert(a1 == 0 ==> n == 0) by {
                if n > 0 {
                    assert(t[0] < t[n]);
                }
            }
            lemma_t6(t, n + 1, above, a1, width, rest);
            lemma_t6_vertical(above, pos, color, width, b1, a1 as u16, more.0, rest, fewer);
            assert(got =~= seq![a1 as u16] + fewer);
        } else {
            lemma_t6_vertical_end(above, pos, color, width, b1, rest);
            assert(got =~= Seq::<u16>::empty());
        }
    } else {
        if n + 1 < t.len() {
            let more = t6_from(t, n + 2, above, a2, width);
            let fewer = left_to_read(t, n + 2, wide, width);
            assert(a1 < a2 && a2 < edge(t, n + 2, width)) by {
                assert(t[n] < t[n + 1]);
                if n + 2 < t.len() {
                    assert(t[n + 1] < t[n + 2]);
                }
            }
            lemma_t6(t, n + 2, above, a2, width, rest);
            lemma_t6_horizontal(above, pos, color, width, a1 as u16, a2 as u16, more.0, rest, fewer);
            assert(got =~= seq![a1 as u16, a2 as u16] + fewer);
        } else {
            lemma_t6_horizontal_end(above, pos, color, width, a1 as u16, rest);
            assert(got =~= seq![a1 as u16]);
        }
    }
}

/// Decoding undoes coding: the code words of a line against the line above, followed by enough bits,
/// are read as the changes of that line and nothing else, and no bit behind them is touched.
///
/// Where the last code words are the two runs up to the end of the line, the end is read as one
/// change more; it lies outside the line and colours no pixel.
pub proof fn law_decoding_undoes_coding_of_lines(
    t: Seq<u16>,
    above: Seq<u16>,
    width: u16,
    rest: Seq<bool>,
)
    requires
        width > 0,
        rising(t, width as int),
        rising(above, width + 1),
        rest.len() >= 13,
    ensures
        line_2d(t6_line(t, above, width) + rest, above, 0, Color::White, width) == Some(
            (t6_read(t, above, width), rest),
        ),
        t6_read(t, above, width) == t || t6_read(t, above, width) == t.push(width),
{
    reveal(reads);
    lemma_t6(t, 0, above, -1, width, rest);
    assert(t.subrange(0, t.len() as int) =~= t);
}

/// What pass mode does: the line goes on at the second change above, in the same colour and without
/// a change of its own.
pub proof fn law_pass_mode_changes_nothing(
    above: Seq<u16>,
    a0: u16,
    color: Color,
    width: u16,
    b1: u16,
    b2: u16,
    rest: Seq<bool>,
)
    requires
        0 < a0 < width,
        is_b1(above, a0 as int, color, width, b1),
        is_b2(above, b1, width, b2),
        rest.len() >= 7,
    ensures
        line_2d(pass_word() + rest, above, a0, color, width) == line_2d(
            rest,
            above,
            b2,
            color,
            width,
        ),
{
    law_the_changes_above_are_found(above, a0, color, b1, width);
    lemma_b1_unique(above, a0 as int, color, width, b1, b1_of(above, a0, color, width));
    lemma_b2_unique(above, b1, width, b2, b2_of(above, b1, width));
    lemma_pass_step(above, a0, color, width, rest);
    if let Some((ts, end)) = line_2d(rest, above, b2, color, width) {
        assert(Seq::<u16>::empty() + ts =~= ts);
    }
}

proof fn lemma_t4(t: Seq<u16>, n: int, a0: int, width: u16, rest: Seq<bool>)
    requires
        rising(t, width as int),
        0 <= n <= t.len(),
        0 <= a0 <= edge(t, n, width),
        a0 < width,
        rest.len() >= 13,
    ensures
        line_1d(t4_from(t, n, a0, width) + rest, a0 as u16, color_after(n), width) == Some(
            (t.subrange(n, t.len() as int), rest),
        ),
    decreases t.len() - n,
{
    let a1 = edge(t, n, width);
    let color = color_after(n);
    let run = run_bits(color, a1 - a0);
    let s = t4_from(t, n, a0, width) + rest;
    let left = t.subrange(n, t.len() as int);
    assert(color_after(n + 1) == opposite(color));
    if n < t.len() {
        let tail = t4_from(t, n + 1, a1, width) + rest;
        assert(s =~= run + tail);
        lemma_read_run_bits(color, a1 - a0, 0, tail);
        if n + 1 < t.len() {
            assert(t[n] < t[n + 1]);
        }
        lemma_t4(t, n + 1, a1, width, rest);
        assert(left =~= seq![t[n]] + t.subrange(n + 1, t.len() as int));
    } else {
        assert(s =~= run + rest);
        lemma_read_run_bits(color, a1 - a0, 0, rest);
        assert(left =~= Seq::<u16>::empty());
        assert(line_1d(rest, width, opposite(color), width) == Some((Seq::<u16>::empty(), rest)));
    }
}

/// Decoding undoes coding of a line by itself: the code words of its runs, followed by enough bits,
/// are read as exactly the changes of that line, and no bit behind them is touched.
pub proof fn law_decoding_undoes_coding_of_runs_of_a_line(t: Seq<u16>, width: u16, rest: Seq<bool>)
    requires
        width > 0,
        rising(t, width as int),
        rest.len() >= 13,
    ensures
        line_1d(t4_from(t, 0, 0, width) + rest, 0, Color::White, width) == Some((t, rest)),
{
    lemma_t4(t, 0, 0, width, rest);
    assert(t.subrange(0, t.len() as int) =~= t);
}

/// The end of a line, read as a change of it, makes no difference to the line below.
proof fn lemma_end_above(above: Seq<u16>, a0: int, c: Color, width: u16)
    requires
        rising(above, width as int),
        -1 <= a0 < width,
    ensures
        forall|b: u16|
            is_b1(above, a0, c, width, b) ==> #[trigger] is_b1(
                above.push(width),
                a0,
                c,
                width,
                b,
            ),
        forall|b1: u16, b: u16|
            is_b2(above, b1, width, b) ==> #[trigger] is_b2(above.push(width), b1, width, b),
{
    let wide = above.push(width);
    let last = above.len() as int;
    assert forall|j: int| 0 <= j < last implies #[trigger] wide[j] == above[j] by {}
    assert(wide[last] == width);
    assert forall|b: u16| is_b1(above, a0, c, width, b) implies #[trigger] is_b1(
        wide,
        a0,
        c,
        width,
        b,
    ) by {
        if exists|i: int|
            0 <= i < above.len() && #[trigger] above[i] == b && ends_run_of(i, c) && b > a0
                && forall|j: int|
                0 <= j < i && ends_run_of(j, c) ==> #[trigger] above[j] <= a0 {
            let i = choose|i: int|
                0 <= i < above.len() && #[trigger] above[i] == b && ends_run_of(i, c) && b > a0
                    && forall|j: int|
                    0 <= j < i && ends_run_of(j, c) ==> #[trigger] above[j] <= a0;
            assert(wide[i] == b);
        } else if ends_run_of(last, c) {
            assert(wide[last] == b && b > a0);
        }
    }
    assert forall|b1: u16, b: u16| is_b2(above, b1, width, b) implies #[trigger] is_b2(
        wide,
        b1,
        width,
        b,
    ) by {
        if exists|i: int|
            0 <= i < above.len() && #[trigger] above[i] == b && b > b1 && forall|j: int|
                0 <= j < i ==> #[trigger] above[j] <= b1 {
            let i = choose|i: int|
                0 <= i < above.len() && #[trigger] above[i] == b && b > b1 && forall|j: int|
                    0 <= j < i ==> #[trigger] above[j] <= b1;
            assert(wide[i] == b);
        } else if width > b1 {
            assert(wide[last] == b && b > b1);
        }
    }
}

proof fn lemma_same_code(t: Seq<u16>, n: int, above: Seq<u16>, a0: int, width: u16)
    requires
        width > 0,
        rising(t, width as int),
        rising(above, width as int),
        0 <= n <= t.len(),
        -1 <= a0 < edge(t, n, width),
        a0 == -1 ==> n == 0,
        a0 == 0 ==> n == 1,
    ensures
        t6_from(t, n, above.push(width), a0, width) == t6_from(t, n, above, a0, width),
    decreases t.len() - n, 0x10000 - a0,
{
    let wide = above.push(width);
    let color = color_after(n);
    let a1 = edge(t, n, width);
    let a2 = edge(t, n + 1, width);
    let b1 = first_above(above, a0, color, width);
    let b2 = second_above(above, b1, width);
    assert(rising(wide, width + 1));
    lemma_above(above, n, a0, width);
    lemma_end_above(above, a0, color, width);
    lemma_found(above, n, a0, width);
    lemma_found(wide, n, a0, width);
    lemma_b1_unique(wide, a0, color, width, b1, first_above(wide, a0, color, width));
    lemma_b2_unique(wide, b1, width, b2, second_above(wide, b1, width));
    if a0 < b2 && b2 < a1 {
        lemma_same_code(t, n, above, b2 as int, width);
    } else if -3 <= a1 - b1 <= 3 {
        if n < t.len() {
            assert(a1 < a2) by {
                if n + 1 < t.len() {
                    assert(t[n] < t[n + 1]);
                }
            }
            assert(a1 == 0 ==> n == 0) by {
                if n > 0 {
                    assert(t[0] < t[n]);
                }
            }
            lemma_same_code(t, n + 1, above, a1, width);
        }
    } else if n + 1 < t.len() {
        assert(a1 < a2 && a2 < edge(t, n + 2, width)) by {
            assert(t[n] < t[n + 1]);
            if n + 2 < t.len() {
                assert(t[n + 1] < t[n + 2]);
            }
        }
        lemma_same_code(t, n + 2, above, a2, width);
    }
}

/// The places above that a line is coded against are what they are said to be.
proof fn lemma_found(above: Seq<u16>, n: int, a0: int, width: u16)
    requires
        rising(above, width + 1),
        -1 <= a0 < width,
        0 <= n,
        a0 == -1 ==> n == 0,
        a0 == 0 ==> n == 1,
    ensures
        ({
            let c = color_after(n);
            let b1 = first_above(above, a0, c, width);
            &&& is_b1(above, a0, c, width, b1)
            &&& is_b2(above, b1, width, second_above(above, b1, width))
        }),
{
    let c = color_after(n);
    let pos = (if a0 < 0 {
        0
    } else {
        a0
    }) as u16;
    assert forall|j: int| 0 <= j < above.len() && ends_run_of(j, c) implies (lies_ahead(
        #[trigger] above[j],
        pos,
    ) <==> above[j] > a0) by {
        if a0 == 0 {
            assert(j % 2 == 1);
            assert(above[0] < above[j]);
        }
    }
    lemma_b1_found(above, pos, a0, c, width, 0);
    lemma_b2_found(above, first_above(above, a0, c, width), width, 0);
}

/// The code words of the lines of a page, each against the one above it.
pub open spec fn t6_page(lines: Seq<Seq<u16>>, above: Seq<u16>, width: u16) -> Seq<bool>
    decreases lines.len(),
{
    if lines.len() == 0 {
        Seq::empty()
    } else {
        t6_line(lines[0], above, width) + t6_page(
            lines.subrange(1, lines.len() as int),
            lines[0],
            width,
        )
    }
}

/// The lines of a page as they are read.
pub open spec fn t6_lines(lines: Seq<Seq<u16>>, above: Seq<u16>, width: u16) -> Seq<Seq<u16>>
    decreases lines.len(),
{
    if lines.len() == 0 {
        Seq::empty()
    } else {
        seq![t6_read(lines[0], above, width)] + t6_lines(
            lines.subrange(1, lines.len() as int),
            lines[0],
            width,
        )
    }
}

/// A window of twelve bits starts with one of seven.
proof fn lemma_narrower_window(s: Seq<bool>)
    requires
        s.len() >= 12,
        head_value(s, 12) == 1,
    ensures
        head_value(s, 7) == 0,
{
    let a = s.subrange(0, 7);
    let b = s.subrange(7, 12);
    assert(s.subrange(0, 12) =~= a + b);
    lemma_bits_concat(a, b);
    lemma2_to64();
    let v = bits_value(a) as int;
    assert(v >= 0 && v * 32 <= 1);
}

proof fn lemma_no_mode(codes: Seq<ModeCode>, bits: u8)
    requires
        bits == MODE_LUT_BITS,
        forall|j: int| 0 <= j < codes.len() ==> (#[trigger] codes[j]).0 > 0,
    ensures
        mode_entry(codes, bits, 0) is None,
    decreases codes.len(),
{
    if codes.len() > 0 {
        let c = codes.last();
        assert(codes[codes.len() - 1] == c);
        let d = pow2((bits - c.1) as nat) as int;
        lemma_pow2_pos((bits - c.1) as nat);
        if c.1 <= bits {
            vstd::arithmetic::div_mod::lemma_div_basics(d);
            assert(0int / d == 0);
        }
        let fewer = codes.drop_last();
        assert forall|j: int| 0 <= j < fewer.len() implies (#[trigger] fewer[j]).0 > 0 by {
            assert(codes[j] == fewer[j]);
        }
        lemma_no_mode(fewer, bits);
    }
}

/// The code word that ends a line is not the start of a line.
proof fn lemma_no_line_starts_so(s: Seq<bool>, above: Seq<u16>, width: u16)
    requires
        width > 0,
        line_2d(s, above, 0, Color::White, width) is Some,
    ensures
        !spells(s, 12, 1),
{
    reveal(read_mode);
    if spells(s, 12, 1) {
        lemma_narrower_window(s);
        assert forall|j: int| 0 <= j < 9 implies (#[trigger] mode_codes()[j]).0 > 0 by {}
        lemma_no_mode(mode_codes(), MODE_LUT_BITS);
        assert(step_2d(s, above, 0, Color::White, width).0 is Broken);
    }
}

proof fn lemma_t6_page(
    lines: Seq<Seq<u16>>,
    above: Seq<u16>,
    seen: Seq<u16>,
    width: u16,
    rest: Seq<bool>,
    rows: nat,
)
    requires
        width > 0,
        rising(above, width as int),
        seen == above || seen == above.push(width),
        forall|k: int| 0 <= k < lines.len() ==> rising(#[trigger] lines[k], width as int),
        rest.len() >= 13,
        lines.len() <= rows,
    ensures
        group4_lines(t6_page(lines, above, width) + rest, seen, width, rows) == t6_lines(
            lines,
            above,
            width,
        ) + group4_lines(
            rest,
            if lines.len() == 0 {
                seen
            } else {
                t6_lines(lines, above, width).last()
            },
            width,
            (rows - lines.len()) as nat,
        ),
        t6_lines(lines, above, width).len() == lines.len(),
    decreases lines.len(),
{
    let code = t6_page(lines, above, width);
    if lines.len() == 0 {
        assert(code + rest =~= rest);
        let g = group4_lines(rest, seen, width, rows);
        assert(Seq::<Seq<u16>>::empty() + g =~= g);
    } else {
        let t = lines[0];
        let fewer = lines.subrange(1, lines.len() as int);
        let line = t6_line(t, above, width);
        let more = t6_page(fewer, t, width);
        let read = t6_read(t, above, width);
        let tail = more + rest;
        assert(code + rest =~= line + tail);
        assert(rising(above.push(width), width + 1));
        lemma_same_code(t, 0, above, -1, width);
        law_decoding_undoes_coding_of_lines(t, seen, width, tail);
        lemma_no_line_starts_so(line + tail, seen, width);
        assert forall|k: int| 0 <= k < fewer.len() implies rising(
            #[trigger] fewer[k],
            width as int,
        ) by {
            assert(fewer[k] == lines[k + 1]);
        }
        lemma_t6_page(fewer, t, read, width, rest, (rows - 1) as nat);
        let behind = group4_lines(
            rest,
            if fewer.len() == 0 {
                read
            } else {
                t6_lines(fewer, t, width).last()
            },
            width,
            (rows - lines.len()) as nat,
        );
        assert(t6_lines(lines, above, width).last() == (if fewer.len() == 0 {
            read
        } else {
            t6_lines(fewer, t, width).last()
        }));
        assert(seq![read] + (t6_lines(fewer, t, width) + behind) =~= t6_lines(lines, above, width)
            + behind);
    }
}

/// Decoding undoes coding of a Group 4 page: the code words of its lines, with the words that end
/// the page and whatever is behind them, are read as those lines, each with its changes and in its
/// place. Only the end of a line may stand behind its changes.
pub proof fn law_decoding_undoes_coding_of_group4_pages(
    lines: Seq<Seq<u16>>,
    width: u16,
    pad: Seq<bool>,
    rows: nat,
)
    requires
        width > 0,
        forall|k: int| 0 <= k < lines.len() ==> rising(#[trigger] lines[k], width as int),
        lines.len() <= rows,
    ensures
        ({
            let coded = t6_page(lines, Seq::empty(), width) + (eol_word() + eol_word() + pad);
            let read = group4_lines(coded, Seq::empty(), width, rows);
            &&& read.len() == lines.len()
            &&& forall|k: int|
                0 <= k < lines.len() ==> #[trigger] read[k] == lines[k] || read[k]
                    == lines[k].push(width)
        }),
{
    let rest = eol_word() + eol_word() + pad;
    let none = Seq::<u16>::empty();
    lemma2_to64();
    lemma_word_bits(1, 12);
    assert(rest.subrange(0, 12) =~= eol_word());
    assert(spells(rest, 12, 1));
    lemma_t6_page(lines, none, none, width, rest, rows);
    let read = t6_lines(lines, none, width);
    assert(read + Seq::<Seq<u16>>::empty() =~= read);
    lemma_t6_lines(lines, none, width);
}

proof fn lemma_t6_lines(lines: Seq<Seq<u16>>, above: Seq<u16>, width: u16)
    ensures
        t6_lines(lines, above, width).len() == lines.len(),
        forall|k: int|
            0 <= k < lines.len() ==> #[trigger] t6_lines(lines, above, width)[k] == lines[k]
                || t6_lines(lines, above, width)[k] == lines[k].push(width),
    decreases lines.len(),
{
    if lines.len() > 0 {
        let fewer = lines.subrange(1, lines.len() as int);
        let read = t6_lines(lines, above, width);
        lemma_t6_lines(fewer, lines[0], width);
        assert forall|k: int| 0 <= k < lines.len() implies #[trigger] read[k] == lines[k] || read[k]
            == lines[k].push(width) by {
            if k > 0 {
                assert(read[k] == t6_lines(fewer, lines[0], width)[k - 1]);
                assert(fewer[k - 1] == lines[k]);
            }
        }
    }
}

/// The code words of a line of a Group 3 page. In a two-dimensional page a tag is in front: a one
/// where the line is coded by itself, and a zero where it is coded against the line above.
pub open spec fn t4_line(t: Seq<u16>, above: Seq<u16>, two: bool, tag: bool, width: u16) -> Seq<
    bool,
> {
    if !two {
        t4_from(t, 0, 0, width)
    } else if tag {
        seq![true] + t4_from(t, 0, 0, width)
    } else {
        seq![false] + t6_line(t, above, width)
    }
}

/// What ends a Group 3 page, behind the word that ends its last line: five more such words, in a
/// two-dimensional page with a tag behind each of the six.
pub open spec fn t4_end(two: bool) -> Seq<bool> {
    let w = if two {
        eol_word() + seq![true]
    } else {
        eol_word()
    };
    let tag = if two {
        seq![true]
    } else {
        Seq::<bool>::empty()
    };
    tag + w + w + w + w + w
}

/// The code words of the lines of a Group 3 page behind its first word, each line with so many fill
/// bits and the word that ends it, and of the end of the page.
pub open spec fn t4_page(
    lines: Seq<Seq<u16>>,
    above: Seq<u16>,
    two: bool,
    tags: Seq<bool>,
    zeros: Seq<nat>,
    width: u16,
) -> Seq<bool>
    decreases lines.len(),
{
    if lines.len() == 0 {
        t4_end(two)
    } else {
        t4_line(lines[0], above, two, tags[0], width) + fill_bits(zeros[0]) + eol_word() + t4_page(
            lines.subrange(1, lines.len() as int),
            lines[0],
            two,
            tags.subrange(1, tags.len() as int),
            zeros.subrange(1, zeros.len() as int),
            width,
        )
    }
}

/// So many zeros, which fill a line up in front of the word that ends it.
pub open spec fn fill_bits(zeros: nat) -> Seq<bool> {
    Seq::new(zeros, |i: int| false)
}

proof fn lemma_white_patterns(i: int)
    requires
        0 <= i < 104,
    ensures
        WHITE_CODES@[i].0 >= 2,
{
}

proof fn lemma_no_entry(codes: Seq<RunCode>)
    requires
        forall|j: int| 0 <= j < codes.len() ==> (#[trigger] codes[j]).0 >= 2,
    ensures
        lut_entry(codes, 12, 1).0 == 0xFFFF,
    decreases codes.len(),
{
    if codes.len() > 0 {
        let c = codes.last();
        assert(codes[codes.len() - 1] == c);
        let d = pow2((12 - c.1) as nat) as int;
        lemma_pow2_pos((12 - c.1) as nat);
        if c.1 <= 12 {
            vstd::arithmetic::div_mod::lemma_div_is_ordered_by_denominator(1, 1, d);
            assert(1int / d <= 1);
        }
        let fewer = codes.drop_last();
        assert forall|j: int| 0 <= j < fewer.len() implies (#[trigger] fewer[j]).0 >= 2 by {
            assert(codes[j] == fewer[j]);
        }
        lemma_no_entry(fewer);
    }
}

/// The word that ends a line is no run.
proof fn lemma_no_run_starts_so(s: Seq<bool>, width: u16)
    requires
        width > 0,
        spells(s, 12, 1),
    ensures
        line_1d(s, 0, Color::White, width) is None,
{
    reveal(read_run);
    assert forall|j: int| 0 <= j < 104 implies (#[trigger] WHITE_CODES@[j]).0 >= 2 by {
        lemma_white_patterns(j);
    }
    lemma_no_entry(WHITE_CODES@);
    assert(read_full_run(s, Color::White, 0) is None);
}

proof fn lemma_spells_eol(rest: Seq<bool>)
    ensures
        eol_word().len() == 12,
        spells(eol_word() + rest, 12, 1),
        drop_bits(eol_word() + rest, 12) == rest,
{
    lemma2_to64();
    lemma_word_bits(1, 12);
    assert((eol_word() + rest).subrange(0, 12) =~= eol_word());
    assert(drop_bits(eol_word() + rest, 12) =~= rest);
}

proof fn lemma_one_bit(b: bool)
    ensures
        bits_value(seq![b]) == (if b {
            1nat
        } else {
            0nat
        }),
{
    assert(seq![b].drop_last() =~= Seq::<bool>::empty());
    reveal_with_fuel(bits_value, 2);
}

/// Bits behind a one, or bits that do not start with the word that ends a line.
proof fn lemma_tagged(tag: bool, s: Seq<bool>)
    requires
        s.len() >= 12,
        !tag ==> head_value(s, 7) > 0,
    ensures
        head_value(seq![tag] + s, 13) / 2 != 1,
{
    let x = seq![tag] + s;
    lemma2_to64();
    if tag {
        let b = s.subrange(0, 12);
        assert(x.subrange(0, 13) =~= seq![true] + b);
        lemma_bits_concat(seq![true], b);
        lemma_one_bit(true);
        assert(bits_value(seq![true] + b) == 4096 + bits_value(b));
    } else {
        let a = s.subrange(0, 7);
        let b = s.subrange(7, 12);
        assert(x.subrange(0, 13) =~= seq![false] + (a + b));
        lemma_bits_concat(seq![false], a + b);
        lemma_bits_concat(a, b);
        lemma_one_bit(false);
        assert(bits_value(seq![false] + (a + b)) == bits_value(a + b));
        let v = bits_value(a) as int;
        assert(v > 0 && v * 32 >= 32);
    }
}

/// What can be read as a line starts with a mode.
proof fn lemma_starts_with_mode(s: Seq<bool>, above: Seq<u16>, width: u16)
    requires
        width > 0,
        line_2d(s, above, 0, Color::White, width) is Some,
    ensures
        s.len() >= 7,
        head_value(s, 7) > 0,
{
    reveal(read_mode);
    assert forall|j: int| 0 <= j < 9 implies (#[trigger] mode_codes()[j]).0 > 0 by {}
    lemma_no_mode(mode_codes(), MODE_LUT_BITS);
    if s.len() < 7 || head_value(s, 7) == 0 {
        assert(step_2d(s, above, 0, Color::White, width).0 is Broken);
    }
}

/// A line of a Group 3 page is read back, and what follows is not taken for the end of the page.
proof fn lemma_t4_line(
    t: Seq<u16>,
    above: Seq<u16>,
    seen: Seq<u16>,
    two: bool,
    tag: bool,
    width: u16,
    rest: Seq<bool>,
)
    requires
        width > 0,
        rising(t, width as int),
        rising(above, width as int),
        seen == above || seen == above.push(width),
        rest.len() >= 13,
    ensures
        ({
            let s = t4_line(t, above, two, tag, width) + rest;
            let line = group3_line(s, seen, two, width);
            &&& line is Some
            &&& (line->0).1 == rest
            &&& (line->0).0 == t || (line->0).0 == t.push(width)
            &&& skip_eols(s, two, 1) == Some(s)
        }),
{
    let s = t4_line(t, above, two, tag, width) + rest;
    if !two {
        law_decoding_undoes_coding_of_runs_of_a_line(t, width, rest);
        if spells(s, 12, 1) {
            lemma_no_run_starts_so(s, width);
        }
    } else if tag {
        let x = t4_from(t, 0, 0, width) + rest;
        assert(s =~= seq![true] + x);
        assert(drop_bits(s, 1) =~= x);
        law_decoding_undoes_coding_of_runs_of_a_line(t, width, rest);
        lemma_tagged(true, x);
    } else {
        let x = t6_line(t, above, width) + rest;
        assert(s =~= seq![false] + x);
        assert(drop_bits(s, 1) =~= x);
        assert(rising(above.push(width), width + 1));
        lemma_same_code(t, 0, above, -1, width);
        law_decoding_undoes_coding_of_lines(t, seen, width, rest);
        lemma_starts_with_mode(x, seen, width);
        lemma_tagged(false, x);
    }
}

/// The end of a Group 3 page ends it.
proof fn lemma_t4_end(
    two: bool,
    fill: bool,
    pad: Seq<bool>,
    seen: Seq<u16>,
    width: u16,
    rows: nat,
)
    requires
        width > 0,
    ensures
        ({
            let s = t4_end(two) + pad;
            match skip_eols(s, two, 1) {
                None => true,
                Some(next) => group3_lines(next, seen, two, fill, width, rows) == Seq::<
                    Seq<u16>,
                >::empty(),
            }
        }),
{
    let e = eol_word();
    let s = t4_end(two) + pad;
    if two {
        let w = e + seq![true];
        let x = w + w + w + w + w + pad;
        let behind = seq![true] + w + w + w + w + pad;
        assert(s =~= seq![true] + x);
        assert(x =~= e + behind);
        lemma_spells_eol(behind);
        lemma_tagged(true, x);
        assert(drop_bits(s, 1) =~= x);
        lemma_no_run_starts_so(x, width);
        assert(group3_line(s, seen, true, width) is None);
    } else {
        let s5 = pad;
        let s4 = e + s5;
        let s3 = e + s4;
        let s2 = e + s3;
        let s1 = e + s2;
        let s0 = e + s1;
        assert(s =~= s0);
        lemma_spells_eol(s1);
        lemma_spells_eol(s2);
        lemma_spells_eol(s3);
        lemma_spells_eol(s4);
        lemma_spells_eol(s5);
        assert(skip_eols(s4, false, 5) is None);
        assert(skip_eols(s3, false, 4) is None);
        assert(skip_eols(s2, false, 3) is None);
        assert(skip_eols(s1, false, 2) is None);
        assert(skip_eols(s0, false, 1) is None);
    }
}

proof fn lemma_end_is_long(two: bool)
    ensures
        t4_end(two).len() >= 60,
{
    lemma2_to64();
    lemma_word_bits(1, 12);
}

proof fn lemma_t4_page_is_long(
    lines: Seq<Seq<u16>>,
    above: Seq<u16>,
    two: bool,
    tags: Seq<bool>,
    zeros: Seq<nat>,
    width: u16,
)
    ensures
        t4_page(lines, above, two, tags, zeros, width).len() >= 60,
    decreases lines.len(),
{
    lemma_end_is_long(two);
    if lines.len() > 0 {
        lemma_t4_page_is_long(
            lines.subrange(1, lines.len() as int),
            lines[0],
            two,
            tags.subrange(1, tags.len() as int),
            zeros.subrange(1, zeros.len() as int),
            width,
        );
    }
}

proof fn lemma_after_filled_line(zeros: nat, tail: Seq<bool>, two: bool, fill: bool)
    requires
        fill || zeros == 0,
    ensures
        after_line(fill_bits(zeros) + (eol_word() + tail), two, fill) == skip_eols(tail, two, 1),
{
    let end = eol_word() + tail;
    lemma_spells_eol(tail);
    if fill {
        law_fill_bits_are_skipped(zeros, tail);
    } else {
        assert(fill_bits(zeros) + end =~= end);
    }
}

#[verifier::rlimit(60)]
proof fn lemma_t4_page(
    lines: Seq<Seq<u16>>,
    above: Seq<u16>,
    seen: Seq<u16>,
    two: bool,
    tags: Seq<bool>,
    fill: bool,
    zeros: Seq<nat>,
    width: u16,
    pad: Seq<bool>,
    rows: nat,
)
    requires
        width > 0,
        lines.len() > 0,
        rising(above, width as int),
        seen == above || seen == above.push(width),
        forall|k: int| 0 <= k < lines.len() ==> rising(#[trigger] lines[k], width as int),
        lines.len() <= rows,
        zeros.len() == lines.len(),
        fill || forall|k: int| 0 <= k < zeros.len() ==> #[trigger] zeros[k] == 0,
    ensures
        ({
            let s = t4_page(lines, above, two, tags, zeros, width) + pad;
            let read = group3_lines(s, seen, two, fill, width, rows);
            &&& skip_eols(s, two, 1) == Some(s)
            &&& read.len() == lines.len()
            &&& forall|k: int|
                0 <= k < lines.len() ==> #[trigger] read[k] == lines[k] || read[k]
                    == lines[k].push(width)
        }),
    decreases lines.len(),
{
    let t = lines[0];
    let fewer = lines.subrange(1, lines.len() as int);
    let tags2 = tags.subrange(1, tags.len() as int);
    let zeros2 = zeros.subrange(1, zeros.len() as int);
    let line = t4_line(t, above, two, tags[0], width);
    let more = t4_page(fewer, t, two, tags2, zeros2, width);
    let s = t4_page(lines, above, two, tags, zeros, width) + pad;
    let tail = more + pad;
    let end = eol_word() + tail;
    let rest = fill_bits(zeros[0]) + end;
    assert(s =~= line + rest);
    lemma_t4_page_is_long(fewer, t, two, tags2, zeros2, width);
    lemma_t4_line(t, above, seen, two, tags[0], width, rest);
    let got = (group3_line(s, seen, two, width)->0).0;
    assert(after_line(rest, two, fill) == skip_eols(tail, two, 1)) by {
        lemma_after_filled_line(zeros[0], tail, two, fill);
    }
    let read = group3_lines(s, seen, two, fill, width, rows);
    if fewer.len() == 0 {
        lemma_t4_end(two, fill, pad, got, width, (rows - 1) as nat);
        assert(read =~= seq![got]);
    } else {
        assert forall|k: int| 0 <= k < fewer.len() implies rising(
            #[trigger] fewer[k],
            width as int,
        ) by {
            assert(fewer[k] == lines[k + 1]);
        }
        assert forall|k: int| 0 <= k < zeros2.len() && !fill implies #[trigger] zeros2[k] == 0 by {
            assert(zeros2[k] == zeros[k + 1]);
        }
        lemma_t4_page(fewer, t, got, two, tags2, fill, zeros2, width, pad, (rows - 1) as nat);
        let behind = group3_lines(tail, got, two, fill, width, (rows - 1) as nat);
        assert(read == seq![got] + behind);
        assert forall|k: int| 0 <= k < lines.len() implies #[trigger] read[k] == lines[k] || read[k]
            == lines[k].push(width) by {
            if k > 0 {
                assert(read[k] == behind[k - 1]);
                assert(fewer[k - 1] == lines[k]);
            }
        }
    }
}

/// Decoding undoes coding of a Group 3 page: the code words of its lines, each by itself or against
/// the line above as its tag says, with fill bits where the page has some, the words that end lines
/// and the page, and whatever is behind them, are read as those lines, each with its changes and in
/// its place. Only the end of a line may stand behind its changes.
pub proof fn law_decoding_undoes_coding_of_group3_pages(
    lines: Seq<Seq<u16>>,
    two: bool,
    tags: Seq<bool>,
    fill: bool,
    zeros: Seq<nat>,
    width: u16,
    pad: Seq<bool>,
    rows: nat,
)
    requires
        width > 0,
        lines.len() > 0,
        forall|k: int| 0 <= k < lines.len() ==> rising(#[trigger] lines[k], width as int),
        lines.len() <= rows,
        zeros.len() == lines.len(),
        fill || forall|k: int| 0 <= k < zeros.len() ==> #[trigger] zeros[k] == 0,
    ensures
        ({
            let coded = t4_page(lines, Seq::empty(), two, tags, zeros, width) + pad;
            let read = group3_lines(coded, Seq::empty(), two, fill, width, rows);
            &&& read.len() == lines.len()
            &&& forall|k: int|
                0 <= k < lines.len() ==> #[trigger] read[k] == lines[k] || read[k]
                    == lines[k].push(width)
        }),
{
    lemma_t4_page(lines, Seq::empty(), Seq::empty(), two, tags, fill, zeros, width, pad, rows);
}

/// Fill bits, which are zeros between a line and the word that ends it, are skipped: however many
/// there are, what is left is what would be there without them.
pub proof fn law_fill_bits_are_skipped(zeros: nat, rest: Seq<bool>)
    ensures
        crate::fax::group::skip_fill(fill_bits(zeros) + (eol_word() + rest)) == eol_word() + rest,
    decreases zeros,
{
    let end = eol_word() + rest;
    let s = fill_bits(zeros) + end;
    lemma_spells_eol(rest);
    if zeros == 0 {
        assert(s =~= end);
    } else {
        let fewer = fill_bits((zeros - 1) as nat) + end;
        assert(drop_bits(s, 1) =~= fewer);
        law_fill_bits_are_skipped((zeros - 1) as nat, rest);
        lemma_eol_zeros();
        assert forall|i: int| 0 <= i < 12 implies !#[trigger] s.subrange(0, 12)[i] by {
            if i >= zeros {
                assert(s[i] == eol_word()[i - zeros]);
            }
        }
        lemma_zeros(s.subrange(0, 12));
    }
}

proof fn lemma_zeros(s: Seq<bool>)
    requires
        forall|i: int| 0 <= i < s.len() ==> !#[trigger] s[i],
    ensures
        bits_value(s) == 0,
    decreases s.len(),
{
    if s.len() > 0 {
        let fewer = s.drop_last();
        assert forall|i: int| 0 <= i < fewer.len() implies !#[trigger] fewer[i] by {
            assert(s[i] == fewer[i]);
        }
        lemma_zeros(fewer);
        assert(!s[s.len() - 1]);
    }
}

/// The word that ends a line is eleven zeros and a one.
proof fn lemma_eol_zeros()
    ensures
        eol_word().len() == 12,
        forall|i: int| 0 <= i < 11 ==> !#[trigger] eol_word()[i],
{
    lemma2_to64();
    lemma_word_bits(1, 12);
    let a = eol_word().drop_last();
    assert(bits_value(a) == 0);
    lemma_zero_bits(a);
    assert forall|i: int| 0 <= i < 11 implies !#[trigger] eol_word()[i] by {
        assert(eol_word()[i] == a[i]);
    }
}

proof fn lemma_zero_bits(s: Seq<bool>)
    requires
        bits_value(s) == 0,
    ensures
        forall|i: int| 0 <= i < s.len() ==> !#[trigger] s[i],
    decreases s.len(),
{
    if s.len() > 0 {
        let fewer = s.drop_last();
        lemma_zero_bits(fewer);
        assert forall|i: int| 0 <= i < s.len() implies !#[trigger] s[i] by {
            if i < fewer.len() {
                assert(s[i] == fewer[i]);
            }
        }
    }
}

/// A Group 3 page starts behind the first word that ends a line, and that word starts a coded page.
pub proof fn law_a_group3_page_starts_behind_its_first_word(rest: Seq<bool>)
    ensures
        crate::fax::group::first_eol(eol_word() + rest, 0),
        drop_bits(eol_word() + rest, 12) == rest,
{
    lemma_spells_eol(rest);
}

/// A Group 4 page that was coded is seen as it was: every pixel of its image is paper behind an
/// even number of colour changes of its line, and ink behind an odd one.
pub proof fn law_a_coded_page_is_seen(
    data: Seq<u8>,
    page: PageFields,
    image: FaxImage,
    lines: Seq<Seq<u16>>,
    pad: Seq<bool>,
    x: int,
    y: int,
    k: int,
)
    requires
        page.compression == 4,
        0 < page.width < 0x10000,
        lines.len() <= page.height,
        forall|i: int| 0 <= i < lines.len() ==> rising(#[trigger] lines[i], page.width as int),
        bits_of(page_bytes(data, page)) == t6_page(lines, Seq::empty(), page.width as u16) + (
        eol_word() + eol_word() + pad),
        shows(image, page_lines(data, page), page.width, page.height, page.photometric),
        0 <= x < page.width,
        0 <= y < lines.len(),
        0 <= k <= lines[y].len(),
        forall|i: int| 0 <= i < k ==> (#[trigger] lines[y][i]) <= x,
        k < lines[y].len() ==> lines[y][k] > x,
    ensures
        image_width(image) == page.width,
        image_height(image) == lines.len(),
        image_pixels(image)[y * page.width + x] == (if (k % 2 == 0) == (page.photometric != 1) {
            255u8
        } else {
            0u8
        }),
{
    let w = page.width as u16;
    let read = page_lines(data, page);
    law_decoding_undoes_coding_of_group4_pages(lines, w, pad, page.height as nat);
    assert(read[y] == lines[y] || read[y] == lines[y].push(w));
    law_pixels_follow_the_changes(
        image,
        read,
        page.width,
        page.height,
        page.photometric,
        x,
        y,
        k,
    );
}

/// A Group 3 page that was coded is seen as it was. The lowest bit of its options says whether lines
/// are coded against the line above, and the third whether they are filled up; it starts with a word
/// that ends a line.
pub proof fn law_a_coded_group3_page_is_seen(
    data: Seq<u8>,
    page: PageFields,
    image: FaxImage,
    lines: Seq<Seq<u16>>,
    tags: Seq<bool>,
    zeros: Seq<nat>,
    pad: Seq<bool>,
    x: int,
    y: int,
    k: int,
)
    requires
        page.compression == 3,
        0 < page.width < 0x10000,
        lines.len() <= page.height,
        forall|i: int| 0 <= i < lines.len() ==> rising(#[trigger] lines[i], page.width as int),
        zeros.len() == lines.len(),
        (page.t4_options / 4) % 2 == 1 || forall|i: int|
            0 <= i < zeros.len() ==> #[trigger] zeros[i] == 0,
        bits_of(page_bytes(data, page)) == eol_word() + (t4_page(
            lines,
            Seq::empty(),
            page.t4_options % 2 == 1,
            tags,
            zeros,
            page.width as u16,
        ) + pad),
        shows(image, page_lines(data, page), page.width, page.height, page.photometric),
        0 <= x < page.width,
        0 <= y < lines.len(),
        0 <= k <= lines[y].len(),
        forall|i: int| 0 <= i < k ==> (#[trigger] lines[y][i]) <= x,
        k < lines[y].len() ==> lines[y][k] > x,
    ensures
        image_width(image) == page.width,
        image_height(image) == lines.len(),
        image_pixels(image)[y * page.width + x] == (if (k % 2 == 0) == (page.photometric != 1) {
            255u8
        } else {
            0u8
        }),
{
    let w = page.width as u16;
    let o = page.t4_options;
    let two = o % 2 == 1;
    let fill = (o / 4) % 2 == 1;
    assert((o & 1 != 0) == (o % 2 == 1)) by (bit_vector);
    assert((o & 4 != 0) == ((o / 4) % 2 == 1)) by (bit_vector);
    let coded = t4_page(lines, Seq::empty(), two, tags, zeros, w) + pad;
    let s = bits_of(page_bytes(data, page));
    let read = page_lines(data, page);
    law_a_group3_page_starts_behind_its_first_word(coded);
    assert(crate::fax::group::first_eol(s, 0));
    assert forall|j: int| crate::fax::group::first_eol(s, j) implies j == 0 by {
        if j > 0 {
            assert(!crate::fax::bits::eol_at(s, 0));
        }
    }
    law_decoding_undoes_coding_of_group3_pages(
        lines,
        two,
        tags,
        fill,
        zeros,
        w,
        pad,
        page.height as nat,
    );
    assert(read == group3_lines(coded, Seq::empty(), two, fill, w, page.height as nat));
    assert(read[y] == lines[y] || read[y] == lines[y].push(w));
    law_pixels_follow_the_changes(
        image,
        read,
        page.width,
        page.height,
        page.photometric,
        x,
        y,
        k,
    );
}

} // verus!
