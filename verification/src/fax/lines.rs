//! Decoding of one scan line: runs, modes, and the one- and two-dimensional line codings.

use crate::fax::bits::{drop_bits, head_value, lemma_bits_value_bound, BitReader};
use crate::fax::codes::{
    lemma_code_lists, lemma_entry_length, lemma_mode_length, lut_entry, mode_codes, mode_entry,
    CodeTables, LutEntry, Mode, RunCode, BLACK_CODES, BLACK_LUT_BITS, INVALID_VALUE, MODE_LUT_BITS,
    WHITE_CODES, WHITE_LUT_BITS,
};
use vstd::arithmetic::power2::lemma2_to64;
use vstd::prelude::*;

verus! {

/// The colour of a run of pixels.
#[derive(Copy, Clone, Debug, PartialEq, Eq, Structural)]
pub enum Color {
    White,
    Black,
}

/// The other colour.
pub open spec fn opposite(c: Color) -> Color {
    match c {
        Color::White => Color::Black,
        Color::Black => Color::White,
    }
}

impl Color {
    /// The other colour.
    pub fn flip(self) -> (r: Color)
        ensures
            r == opposite(self),
    {
        match self {
            Color::White => Color::Black,
            Color::Black => Color::White,
        }
    }
}

/// The codes of a colour.
pub open spec fn color_codes(c: Color) -> Seq<RunCode> {
    match c {
        Color::White => WHITE_CODES@,
        Color::Black => BLACK_CODES@,
    }
}

/// The number of bits that must be present to read a code of a colour.
pub open spec fn color_bits(c: Color) -> u8 {
    match c {
        Color::White => WHITE_LUT_BITS,
        Color::Black => BLACK_LUT_BITS,
    }
}

/// The table entry of the code at the start of `s`.
pub open spec fn code_at(s: Seq<bool>, c: Color) -> LutEntry {
    lut_entry(color_codes(c), color_bits(c), head_value(s, color_bits(c) as int) as int)
}

/// The code at the start of `s` and the bits behind it. A full table width must be present.
#[verifier::opaque]
pub open spec fn read_run(s: Seq<bool>, c: Color) -> Option<(u16, Seq<bool>)> {
    if s.len() < color_bits(c) || code_at(s, c).0 == INVALID_VALUE {
        None
    } else {
        Some((code_at(s, c).0, drop_bits(s, code_at(s, c).1 as int)))
    }
}

/// Reading a code shortens the bits.
pub proof fn lemma_read_run(s: Seq<bool>, c: Color)
    ensures
        read_run(s, c) is Some ==> (read_run(s, c)->0).1.len() < s.len() && (read_run(s, c)->0).0
            <= 2560,
{
    reveal(read_run);
    lemma_code_lists();
    lemma_entry_length(
        color_codes(c),
        color_bits(c),
        head_value(s, color_bits(c) as int) as int,
    );
}

/// A sum of two sixteen-bit values, which wraps around.
pub open spec fn wrap16(x: int) -> u16 {
    if x >= 0x10000 {
        (x - 0x10000) as u16
    } else {
        x as u16
    }
}

/// A complete run on top of `acc`: makeup codes up to and with the first code below 64.
///
/// The result is the wrapped sum and the bits behind the run.
pub open spec fn read_full_run(s: Seq<bool>, c: Color, acc: u16) -> Option<(u16, Seq<bool>)>
    decreases s.len(),
    via read_full_run_decreases
{
    match read_run(s, c) {
        None => None,
        Some((n, rest)) => if n < 64 {
            Some((wrap16(acc + n), rest))
        } else {
            read_full_run(rest, c, wrap16(acc + n))
        },
    }
}

#[via_fn]
proof fn read_full_run_decreases(s: Seq<bool>, c: Color, acc: u16) {
    lemma_read_run(s, c);
}

/// Reading a complete run shortens the bits.
pub proof fn lemma_read_full_run(s: Seq<bool>, c: Color, acc: u16)
    ensures
        read_full_run(s, c, acc) is Some ==> (read_full_run(s, c, acc)->0).1.len() < s.len(),
    decreases s.len(),
{
    lemma_read_run(s, c);
    if let Some((n, rest)) = read_run(s, c) {
        if n >= 64 {
            lemma_read_full_run(rest, c, wrap16(acc + n));
        }
    }
}

/// The mode at the start of `s` and the bits behind it. Seven bits must be present.
#[verifier::opaque]
pub open spec fn read_mode(s: Seq<bool>) -> Option<(Mode, Seq<bool>)> {
    if s.len() < MODE_LUT_BITS {
        None
    } else {
        match mode_entry(mode_codes(), MODE_LUT_BITS, head_value(s, MODE_LUT_BITS as int) as int) {
            None => None,
            Some((len, mode)) => Some((mode, drop_bits(s, len as int))),
        }
    }
}

/// Reading a mode shortens the bits.
pub proof fn lemma_read_mode(s: Seq<bool>)
    ensures
        read_mode(s) is Some ==> (read_mode(s)->0).1.len() < s.len(),
{
    reveal(read_mode);
    lemma_mode_length(head_value(s, MODE_LUT_BITS as int) as int);
}

/// A transition lies ahead of the position `a0`: right of it, or at the start of the line where the
/// line was not begun. A line may begin black, with a transition at its start.
pub open spec fn lies_ahead(t: u16, a0: u16) -> bool {
    t > a0 || (a0 == 0 && t == 0)
}

/// The first transition at or behind index `i` that lies ahead of `a0` and has the given parity.
pub open spec fn b1_from(reference: Seq<u16>, a0: u16, even: bool, width: u16, i: int) -> u16
    decreases reference.len() - i,
{
    if i < 0 || i >= reference.len() {
        width
    } else if lies_ahead(reference[i], a0) && (i % 2 == 0) == even {
        reference[i]
    } else {
        b1_from(reference, a0, even, width, i + 1)
    }
}

/// The first transition at or behind index `i` that lies right of `b1`.
pub open spec fn b2_from(reference: Seq<u16>, b1: u16, width: u16, i: int) -> u16
    decreases reference.len() - i,
{
    if i < 0 || i >= reference.len() {
        width
    } else if reference[i] > b1 {
        reference[i]
    } else {
        b2_from(reference, b1, width, i + 1)
    }
}

/// The changing element of the reference line ahead of `a0` that ends a run of `color`.
///
/// Transitions at even indices turn white to black, those at odd indices black to white.
pub open spec fn b1_of(reference: Seq<u16>, a0: u16, color: Color, width: u16) -> u16 {
    b1_from(reference, a0, color == Color::White, width, 0)
}

/// The next changing element of the reference line right of `b1`.
pub open spec fn b2_of(reference: Seq<u16>, b1: u16, width: u16) -> u16 {
    b2_from(reference, b1, width, 0)
}

/// The rest of a one-dimensional line, from `a0` on: its transitions, and the bits behind it.
///
/// Runs of alternating colour follow each other until the position reaches `width`; a
/// position below `width` is a transition.
pub open spec fn line_1d(s: Seq<bool>, a0: u16, color: Color, width: u16) -> Option<
    (Seq<u16>, Seq<bool>),
>
    decreases s.len(),
    via line_1d_decreases
{
    if a0 >= width {
        Some((Seq::empty(), s))
    } else {
        match read_full_run(s, color, 0) {
            None => None,
            Some((run, rest)) => {
                let a1 = wrap16(a0 + run);
                match line_1d(rest, a1, opposite(color), width) {
                    None => None,
                    Some((ts, end)) => Some(
                        (
                            if a1 < width {
                                seq![a1] + ts
                            } else {
                                ts
                            },
                            end,
                        ),
                    ),
                }
            },
        }
    }
}

#[via_fn]
proof fn line_1d_decreases(s: Seq<bool>, a0: u16, color: Color, width: u16) {
    lemma_read_full_run(s, color, 0);
}

/// The position that a vertical mode names: `b1` moved by `delta`, not left of zero.
pub open spec fn vertical_target(b1: u16, delta: i8) -> u16 {
    let at = b1 + delta;
    if at < 0 {
        0
    } else {
        wrap16(at)
    }
}

/// One coding mode of a two-dimensional line, applied.
pub enum Step {
    /// The bits hold no mode, or not its runs.
    Broken,
    /// The line ends here.
    Last,
    /// The line goes on at the position, in the colour.
    Next(u16, Color),
}

/// What the mode at the start of `s` does: the step, the transitions that it adds, and the
/// bits behind it.
pub open spec fn step_2d(
    s: Seq<bool>,
    reference: Seq<u16>,
    a0: u16,
    color: Color,
    width: u16,
) -> (Step, Seq<u16>, Seq<bool>) {
    match read_mode(s) {
        None => (Step::Broken, Seq::empty(), s),
        Some((Mode::Pass, rest)) => {
            let b2 = b2_of(reference, b1_of(reference, a0, color, width), width);
            (Step::Next(b2, color), Seq::empty(), rest)
        },
        Some((Mode::Vertical(delta), rest)) => {
            let a1 = vertical_target(b1_of(reference, a0, color, width), delta);
            if a1 >= width {
                (Step::Last, Seq::empty(), rest)
            } else {
                (Step::Next(a1, opposite(color)), seq![a1], rest)
            }
        },
        Some((Mode::Horizontal, rest)) => match read_full_run(rest, color, 0) {
            None => (Step::Broken, Seq::empty(), rest),
            Some((run1, rest1)) => match read_full_run(rest1, opposite(color), 0) {
                None => (Step::Broken, Seq::empty(), rest1),
                Some((run2, rest2)) => {
                    let a1 = wrap16(a0 + run1);
                    let a2 = wrap16(a1 + run2);
                    if a2 >= width {
                        (Step::Last, seq![a1], rest2)
                    } else {
                        (Step::Next(a2, color), seq![a1, a2], rest2)
                    }
                },
            },
        },
    }
}

/// A mode that does not break the line shortens the bits.
pub proof fn lemma_step_2d(
    s: Seq<bool>,
    reference: Seq<u16>,
    a0: u16,
    color: Color,
    width: u16,
)
    ensures
        !(step_2d(s, reference, a0, color, width).0 is Broken) ==> step_2d(
            s,
            reference,
            a0,
            color,
            width,
        ).2.len() < s.len(),
{
    lemma_read_mode(s);
    if let Some((mode, rest)) = read_mode(s) {
        lemma_read_full_run(rest, color, 0);
        if let Some((run1, rest1)) = read_full_run(rest, color, 0) {
            lemma_read_full_run(rest1, opposite(color), 0);
        }
    }
}

/// The rest of a two-dimensional line, from `a0` on: its transitions, and the bits behind it.
pub open spec fn line_2d(
    s: Seq<bool>,
    reference: Seq<u16>,
    a0: u16,
    color: Color,
    width: u16,
) -> Option<(Seq<u16>, Seq<bool>)>
    decreases s.len(),
    via line_2d_decreases
{
    if a0 >= width {
        Some((Seq::empty(), s))
    } else {
        let (step, added, rest) = step_2d(s, reference, a0, color, width);
        match step {
            Step::Broken => None,
            Step::Last => Some((added, rest)),
            Step::Next(a, c) => line_with_head(added, line_2d(rest, reference, a, c, width)),
        }
    }
}

#[via_fn]
proof fn line_2d_decreases(
    s: Seq<bool>,
    reference: Seq<u16>,
    a0: u16,
    color: Color,
    width: u16,
) {
    lemma_step_2d(s, reference, a0, color, width);
}

/// What is read from `reader`: the result of `model`, with the bits behind it left to read.
pub open spec fn read_as<T>(
    model: Option<(T, Seq<bool>)>,
    result: Option<T>,
    after: Seq<bool>,
) -> bool {
    match model {
        None => result is None,
        Some((v, rest)) => result == Some(v) && after == rest,
    }
}

/// Reads one run-length code, terminating or makeup.
pub fn decode_run(reader: &mut BitReader, tables: &CodeTables, color: Color) -> (r: Option<u16>)
    requires
        old(reader).wf(),
        tables.wf(),
    ensures
        final(reader).wf(),
        final(reader).source() == old(reader).source(),
        read_as(read_run(old(reader).remaining(), color), r, final(reader).remaining()),
{
    proof {
        reveal(read_run);
        reader.lemma_buffered();
        lemma_code_lists();
        lemma_entry_length(
            color_codes(color),
            color_bits(color),
            head_value(reader.remaining(), color_bits(color) as int) as int,
        );
        lemma2_to64();
        if reader.remaining().len() >= color_bits(color) {
            lemma_bits_value_bound(reader.remaining().subrange(0, color_bits(color) as int));
        }
    }
    match color {
        Color::White => {
            let bits: u16 = match reader.peek(WHITE_LUT_BITS) {
                Some(b) => b,
                None => return None,
            };
            let (val, len) = tables.white_entry(bits);
            if val == INVALID_VALUE {
                return None;
            }
            reader.consume(len);
            Some(val)
        },
        Color::Black => {
            let bits: u16 = match reader.peek(BLACK_LUT_BITS) {
                Some(b) => b,
                None => return None,
            };
            let (val, len) = tables.black_entry(bits);
            if val == INVALID_VALUE {
                return None;
            }
            reader.consume(len);
            Some(val)
        },
    }
}

/// Reads a complete run: makeup codes up to and with a terminating code.
///
/// The run is a sixteen-bit sum, which wraps around.
pub fn decode_full_run(reader: &mut BitReader, tables: &CodeTables, color: Color) -> (r: Option<
    u16,
>)
    requires
        old(reader).wf(),
        tables.wf(),
    ensures
        final(reader).wf(),
        final(reader).source() == old(reader).source(),
        read_as(read_full_run(old(reader).remaining(), color, 0), r, final(reader).remaining()),
{
    let mut total: u16 = 0;
    loop
        invariant
            reader.wf(),
            tables.wf(),
            reader.source() == old(reader).source(),
            read_full_run(old(reader).remaining(), color, 0) == read_full_run(
                reader.remaining(),
                color,
                total,
            ),
        decreases reader.remaining().len(),
    {
        proof {
            lemma_read_run(reader.remaining(), color);
        }
        let n: u16 = match decode_run(reader, tables, color) {
            Some(n) => n,
            None => return None,
        };
        total = total.wrapping_add(n);
        if n < 64 {
            return Some(total);
        }
    }
}

/// Reads a mode code.
pub fn decode_mode(reader: &mut BitReader, tables: &CodeTables) -> (r: Option<Mode>)
    requires
        old(reader).wf(),
        tables.wf(),
    ensures
        final(reader).wf(),
        final(reader).source() == old(reader).source(),
        read_as(read_mode(old(reader).remaining()), r, final(reader).remaining()),
{
    proof {
        reveal(read_mode);
        reader.lemma_buffered();
        lemma_mode_length(head_value(reader.remaining(), MODE_LUT_BITS as int) as int);
        lemma2_to64();
        if reader.remaining().len() >= MODE_LUT_BITS {
            lemma_bits_value_bound(reader.remaining().subrange(0, MODE_LUT_BITS as int));
        }
    }
    let bits: u16 = match reader.peek(MODE_LUT_BITS) {
        Some(b) => b,
        None => return None,
    };
    match tables.mode_at(bits) {
        None => None,
        Some((len, mode)) => {
            reader.consume(len);
            Some(mode)
        },
    }
}

/// Finds b1: the first transition of the reference line ahead of `a0` whose colour change
/// ends a run of `current_color`, or `width` where there is none.
///
/// At the start of a line, where `a0` is zero, a transition at `a0` counts. Behind the start only
/// those strictly right of `a0` do: the transition at `a0` itself is one that the line has passed.
pub fn find_b1(reference: &[u16], a0: u16, current_color: Color, width: u16) -> (b1: u16)
    ensures
        b1 == b1_of(reference@, a0, current_color, width),
        b1 == width || b1 >= a0,
        a0 > 0 ==> b1 == width || b1 > a0,
{
    let want_black_transition: bool = current_color == Color::White;
    let mut i: usize = 0;
    while i < reference.len()
        invariant
            i <= reference@.len(),
            want_black_transition == (current_color == Color::White),
            b1_of(reference@, a0, current_color, width) == b1_from(
                reference@,
                a0,
                want_black_transition,
                width,
                i as int,
            ),
        decreases reference@.len() - i,
    {
        let t: u16 = reference[i];
        if (t > a0 || (a0 == 0 && t == 0)) && (i % 2 == 0) == want_black_transition {
            return t;
        }
        i = i + 1;
    }
    width
}

/// Finds b2: the first transition of the reference line right of `b1`, or `width`.
pub fn find_b2(reference: &[u16], b1: u16, width: u16) -> (b2: u16)
    ensures
        b2 == b2_of(reference@, b1, width),
        b2 == width || b2 > b1,
{
    let mut i: usize = 0;
    while i < reference.len()
        invariant
            i <= reference@.len(),
            b2_of(reference@, b1, width) == b2_from(reference@, b1, width, i as int),
        decreases reference@.len() - i,
    {
        let t: u16 = reference[i];
        if t > b1 {
            return t;
        }
        i = i + 1;
    }
    width
}

/// The line that `head` starts and `model` finishes.
pub open spec fn line_with_head(
    head: Seq<u16>,
    model: Option<(Seq<u16>, Seq<bool>)>,
) -> Option<(Seq<u16>, Seq<bool>)> {
    match model {
        None => None,
        Some((ts, end)) => Some((head + ts, end)),
    }
}

/// What is read of a line: its transitions, with the bits behind it left to read.
pub open spec fn line_read_as(
    model: Option<(Seq<u16>, Seq<bool>)>,
    result: Option<Vec<u16>>,
    after: Seq<bool>,
) -> bool {
    match model {
        None => result is None,
        Some((ts, rest)) => result is Some && (result->0)@ == ts && after == rest,
    }
}

/// Decodes a one-dimensional line (Modified Huffman).
pub fn decode_line_1d(reader: &mut BitReader, tables: &CodeTables, width: u16) -> (r: Option<
    Vec<u16>,
>)
    requires
        old(reader).wf(),
        tables.wf(),
    ensures
        final(reader).wf(),
        final(reader).source() == old(reader).source(),
        line_read_as(
            line_1d(old(reader).remaining(), 0, Color::White, width),
            r,
            final(reader).remaining(),
        ),
{
    let mut transitions: Vec<u16> = Vec::new();
    let mut a0: u16 = 0;
    let mut color: Color = Color::White;
    let ghost model = line_1d(reader.remaining(), 0, Color::White, width);
    proof {
        if let Some((ts, end)) = model {
            assert(Seq::<u16>::empty() + ts =~= ts);
        }
    }
    while a0 < width
        invariant
            reader.wf(),
            tables.wf(),
            reader.source() == old(reader).source(),
            model == line_1d(old(reader).remaining(), 0, Color::White, width),
            model == line_with_head(transitions@, line_1d(reader.remaining(), a0, color, width)),
        decreases reader.remaining().len(),
    {
        let ghost s = reader.remaining();
        let ghost head = transitions@;
        let ghost from = a0;
        proof {
            lemma_read_full_run(s, color, 0);
        }
        let run: u16 = match decode_full_run(reader, tables, color) {
            Some(n) => n,
            None => return None,
        };
        a0 = a0.wrapping_add(run);
        if a0 < width {
            transitions.push(a0);
        }
        proof {
            if let Some((ts, end)) = line_1d(reader.remaining(), a0, opposite(color), width) {
                if a0 < width {
                    assert(head + (seq![a0] + ts) =~= transitions@ + ts);
                }
            }
        }
        color = color.flip();
    }
    proof {
        assert(transitions@ + Seq::<u16>::empty() =~= transitions@);
    }
    Some(transitions)
}

/// Applies one coding mode; the transitions that it adds are appended.
fn decode_step_2d(
    reader: &mut BitReader,
    tables: &CodeTables,
    reference: &[u16],
    a0: u16,
    color: Color,
    width: u16,
    transitions: &mut Vec<u16>,
) -> (step: Step)
    requires
        old(reader).wf(),
        tables.wf(),
    ensures
        final(reader).wf(),
        final(reader).source() == old(reader).source(),
        step == step_2d(old(reader).remaining(), reference@, a0, color, width).0,
        !(step is Broken) ==> final(transitions)@ == old(transitions)@ + step_2d(
            old(reader).remaining(),
            reference@,
            a0,
            color,
            width,
        ).1,
        !(step is Broken) ==> final(reader).remaining() == step_2d(
            old(reader).remaining(),
            reference@,
            a0,
            color,
            width,
        ).2,
{
    let ghost head = transitions@;
    proof {
        assert(head + Seq::<u16>::empty() =~= head);
    }
    let mode: Mode = match decode_mode(reader, tables) {
        Some(m) => m,
        None => return Step::Broken,
    };
    match mode {
        Mode::Pass => {
            let b1: u16 = find_b1(reference, a0, color, width);
            let b2: u16 = find_b2(reference, b1, width);
            Step::Next(b2, color)
        },
        Mode::Vertical(delta) => {
            let b1: u16 = find_b1(reference, a0, color, width);
            let moved: i32 = b1 as i32 + delta as i32;
            let a1: u16 = if moved < 0 {
                0
            } else if moved >= 0x10000 {
                (moved - 0x10000) as u16
            } else {
                moved as u16
            };
            if a1 >= width {
                Step::Last
            } else {
                transitions.push(a1);
                proof {
                    assert(transitions@ =~= head + seq![a1]);
                }
                Step::Next(a1, color.flip())
            }
        },
        Mode::Horizontal => {
            let run1: u16 = match decode_full_run(reader, tables, color) {
                Some(n) => n,
                None => return Step::Broken,
            };
            let run2: u16 = match decode_full_run(reader, tables, color.flip()) {
                Some(n) => n,
                None => return Step::Broken,
            };
            let a1: u16 = a0.wrapping_add(run1);
            let a2: u16 = a1.wrapping_add(run2);
            transitions.push(a1);
            proof {
                assert(transitions@ =~= head + seq![a1]);
            }
            if a2 >= width {
                Step::Last
            } else {
                transitions.push(a2);
                proof {
                    assert(transitions@ =~= head + seq![a1, a2]);
                }
                Step::Next(a2, color)
            }
        },
    }
}

/// Decodes a two-dimensional line (Modified READ) against a reference line.
pub fn decode_line_2d(
    reader: &mut BitReader,
    tables: &CodeTables,
    reference: &[u16],
    width: u16,
) -> (r: Option<Vec<u16>>)
    requires
        old(reader).wf(),
        tables.wf(),
    ensures
        final(reader).wf(),
        final(reader).source() == old(reader).source(),
        line_read_as(
            line_2d(old(reader).remaining(), reference@, 0, Color::White, width),
            r,
            final(reader).remaining(),
        ),
{
    let mut transitions: Vec<u16> = Vec::new();
    let mut a0: u16 = 0;
    let mut color: Color = Color::White;
    let ghost model = line_2d(reader.remaining(), reference@, 0, Color::White, width);
    proof {
        if let Some((ts, end)) = model {
            assert(Seq::<u16>::empty() + ts =~= ts);
        }
    }
    while a0 < width
        invariant
            reader.wf(),
            tables.wf(),
            reader.source() == old(reader).source(),
            model == line_2d(old(reader).remaining(), reference@, 0, Color::White, width),
            model == line_with_head(
                transitions@,
                line_2d(reader.remaining(), reference@, a0, color, width),
            ),
        decreases reader.remaining().len(),
    {
        let ghost head = transitions@;
        let ghost model_step = step_2d(reader.remaining(), reference@, a0, color, width);
        proof {
            lemma_step_2d(reader.remaining(), reference@, a0, color, width);
        }
        match decode_step_2d(reader, tables, reference, a0, color, width, &mut transitions) {
            Step::Broken => {
                return None;
            },
            Step::Last => {
                return Some(transitions);
            },
            Step::Next(a, c) => {
                proof {
                    if let Some((ts, end)) = line_2d(reader.remaining(), reference@, a, c, width) {
                        assert(head + (model_step.1 + ts) =~= transitions@ + ts);
                    }
                }
                a0 = a;
                color = c;
            },
        }
    }
    proof {
        assert(transitions@ + Seq::<u16>::empty() =~= transitions@);
    }
    Some(transitions)
}

/// The transitions of a one-dimensional line lie within the line.
pub proof fn law_transitions_1d_lie_in_the_line(s: Seq<bool>, a0: u16, color: Color, width: u16)
    ensures
        line_1d(s, a0, color, width) is Some ==> forall|i: int|
            0 <= i < (line_1d(s, a0, color, width)->0).0.len() ==> #[trigger] (line_1d(
                s,
                a0,
                color,
                width,
            )->0).0[i] < width,
    decreases s.len(),
{
    if a0 < width {
        lemma_read_full_run(s, color, 0);
        if let Some((run, rest)) = read_full_run(s, color, 0) {
            law_transitions_1d_lie_in_the_line(rest, wrap16(a0 + run), opposite(color), width);
        }
    }
}

/// A line that can be read takes bits, unless it has no width.
pub proof fn law_lines_take_bits(s: Seq<bool>, reference: Seq<u16>, a0: u16, color: Color, width: u16)
    requires
        a0 < width,
    ensures
        line_1d(s, a0, color, width) is Some ==> (line_1d(s, a0, color, width)->0).1.len()
            < s.len(),
        line_2d(s, reference, a0, color, width) is Some ==> (line_2d(
            s,
            reference,
            a0,
            color,
            width,
        )->0).1.len() < s.len(),
    decreases s.len(),
{
    lemma_read_full_run(s, color, 0);
    if let Some((run, rest)) = read_full_run(s, color, 0) {
        let a1 = wrap16(a0 + run);
        if a1 < width {
            law_lines_take_bits(rest, reference, a1, opposite(color), width);
        } else {
            assert(line_1d(rest, a1, opposite(color), width) == Some((Seq::<u16>::empty(), rest)));
        }
    }
    lemma_step_2d(s, reference, a0, color, width);
    let (step, added, rest) = step_2d(s, reference, a0, color, width);
    if let Step::Next(a, c) = step {
        if a < width {
            law_lines_take_bits(rest, reference, a, c, width);
        } else {
            assert(line_2d(rest, reference, a, c, width) == Some((Seq::<u16>::empty(), rest)));
        }
    }
}

/// What is read is what the bits stand for, and no bit is lost behind it; nothing is read where they
/// stand for nothing.
pub proof fn law_nothing_is_lost_in_reading(
    value: u16,
    rest: Seq<bool>,
    one: Option<u16>,
    line: Seq<u16>,
    all: Option<Vec<u16>>,
    after: Seq<bool>,
)
    ensures
        read_as(Some((value, rest)), one, after) <==> one == Some(value) && after == rest,
        read_as(None, one, after) <==> one is None,
        line_read_as(Some((line, rest)), all, after) <==> all is Some && (all->0)@ == line && after
            == rest,
        line_read_as(None, all, after) <==> all is None,
{
}

} // verus!
