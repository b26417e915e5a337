//! Decoding of a whole page of Group 3 or Group 4 data.

use crate::fax::bits::{bits_of, drop_bits, eol_at, head_value, BitReader};
use crate::fax::codes::CodeTables;
use crate::fax::error::{is_tiff_error, tiff_error, FaxError};
use crate::fax::lines::{decode_line_1d, decode_line_2d, line_1d, line_2d, Color};
use vstd::prelude::*;

verus! {

/// The next `n` bits are all there and spell `v`.
pub open spec fn spells(s: Seq<bool>, n: int, v: nat) -> bool {
    s.len() >= n && head_value(s, n) == v
}

/// The bits behind the zeros that pad a line up to the next end-of-line code.
///
/// A zero is skipped as long as twelve bits are present and they are not the code itself.
pub open spec fn skip_fill(s: Seq<bool>) -> Seq<bool>
    decreases s.len(),
{
    if s.len() >= 12 && head_value(s, 12) != 1 && !s[0] {
        skip_fill(drop_bits(s, 1))
    } else {
        s
    }
}

/// The bits behind repeated end-of-line codes, given how many were read, or `None` where the
/// sixth ends the page. In a two-dimensional page each code has a tag bit behind it.
pub open spec fn skip_eols(s: Seq<bool>, is_2d: bool, seen: nat) -> Option<Seq<bool>>
    decreases s.len(),
{
    let n: int = if is_2d {
        13
    } else {
        12
    };
    let is_eol = s.len() >= n && (if is_2d {
        head_value(s, 13) / 2 == 1
    } else {
        head_value(s, 12) == 1
    });
    if !is_eol {
        Some(s)
    } else if seen + 1 >= 6 {
        None
    } else {
        skip_eols(drop_bits(s, n), is_2d, seen + 1)
    }
}

/// What follows a decoded line: fill bits, if they are in use, and end-of-line codes.
pub open spec fn after_line(s: Seq<bool>, is_2d: bool, fill: bool) -> Option<Seq<bool>> {
    let t = if fill {
        skip_fill(s)
    } else {
        s
    };
    if spells(t, 12, 1) {
        skip_eols(drop_bits(t, 12), is_2d, 1)
    } else {
        Some(t)
    }
}

/// The next line of a Group 3 page and the bits behind it. In a two-dimensional page a tag
/// bit says how the line is coded: one for one-dimensional, zero for two-dimensional.
pub open spec fn group3_line(s: Seq<bool>, reference: Seq<u16>, is_2d: bool, width: u16) -> Option<
    (Seq<u16>, Seq<bool>),
> {
    if is_2d {
        if s.len() < 1 {
            None
        } else if s[0] {
            line_1d(drop_bits(s, 1), 0, Color::White, width)
        } else {
            line_2d(drop_bits(s, 1), reference, 0, Color::White, width)
        }
    } else {
        line_1d(s, 0, Color::White, width)
    }
}

/// The lines of a Group 3 page behind its first end-of-line code, at most `rows` of them.
///
/// The page ends early at a line that cannot be read, and at six end-of-line codes.
pub open spec fn group3_lines(
    s: Seq<bool>,
    reference: Seq<u16>,
    is_2d: bool,
    fill: bool,
    width: u16,
    rows: nat,
) -> Seq<Seq<u16>>
    decreases rows,
{
    if rows == 0 {
        Seq::empty()
    } else {
        match group3_line(s, reference, is_2d, width) {
            None => Seq::empty(),
            Some((line, rest)) => match after_line(rest, is_2d, fill) {
                None => seq![line],
                Some(next) => seq![line] + group3_lines(
                    next,
                    line,
                    is_2d,
                    fill,
                    width,
                    (rows - 1) as nat,
                ),
            },
        }
    }
}

/// The lines of a Group 4 page, at most `rows` of them.
///
/// The page ends early at an end-of-line code and at a line that cannot be read.
pub open spec fn group4_lines(s: Seq<bool>, reference: Seq<u16>, width: u16, rows: nat) -> Seq<
    Seq<u16>,
>
    decreases rows,
{
    if rows == 0 || spells(s, 12, 1) {
        Seq::empty()
    } else {
        match line_2d(s, reference, 0, Color::White, width) {
            None => Seq::empty(),
            Some((line, rest)) => seq![line] + group4_lines(rest, line, width, (rows - 1) as nat),
        }
    }
}

/// The width as the decoder sees it: sixteen bits.
pub open spec fn width16(width: u32) -> u16 {
    (width % 0x10000) as u16
}

/// `k` is the place of the first end-of-line code.
pub open spec fn first_eol(s: Seq<bool>, k: int) -> bool {
    eol_at(s, k) && forall|j: int| 0 <= j < k ==> !eol_at(s, j)
}

/// The lines of a Group 3 page, once its first end-of-line code is found.
pub open spec fn group3_page(
    s: Seq<bool>,
    k: int,
    width: u32,
    height: u32,
    t4_options: u32,
) -> Seq<Seq<u16>> {
    group3_lines(
        drop_bits(s, k + 12),
        Seq::empty(),
        t4_options & 1 != 0,
        t4_options & 4 != 0,
        width16(width),
        height as nat,
    )
}

/// The transitions of lines, as plain sequences.
pub open spec fn lines_view(lines: Seq<Vec<u16>>) -> Seq<Seq<u16>> {
    lines.map_values(|l: Vec<u16>| l@)
}

/// A number of `n` bits starts with the first of them.
proof fn lemma_top_bit(s: Seq<bool>, n: nat)
    requires
        1 <= n <= s.len(),
    ensures
        s[0] <==> head_value(s, n as int) >= vstd::arithmetic::power2::pow2((n - 1) as nat),
    decreases n,
{
    let h = s.subrange(0, n as int);
    reveal_with_fuel(crate::fax::bits::bits_value, 2);
    assert(h.drop_last() =~= s.subrange(0, n - 1));
    vstd::arithmetic::power2::lemma2_to64();
    if n == 1 {
        assert(h.drop_last().len() == 0);
    } else {
        lemma_top_bit(s, (n - 1) as nat);
        vstd::arithmetic::power2::lemma_pow2_unfold((n - 1) as nat);
    }
}

fn skip_fill_bits(reader: &mut BitReader)
    requires
        old(reader).wf(),
    ensures
        final(reader).wf(),
        final(reader).remaining() == skip_fill(old(reader).remaining()),
{
    loop
        invariant
            reader.wf(),
            skip_fill(old(reader).remaining()) == skip_fill(reader.remaining()),
        ensures
            reader.wf(),
            skip_fill(old(reader).remaining()) == reader.remaining(),
        decreases reader.remaining().len(),
    {
        proof {
            reader.lemma_buffered();
            vstd::arithmetic::power2::lemma2_to64();
            if reader.remaining().len() >= 12 {
                lemma_top_bit(reader.remaining(), 12);
            }
        }
        match reader.peek(12) {
            Some(v) => {
                assert((v >> 11) == 0 <==> v < 2048) by (bit_vector);
                if v == 1 {
                    break;
                }
                if (v >> 11) == 0 {
                    reader.consume(1);
                } else {
                    break;
                }
            },
            None => {
                break;
            },
        }
    }
}

/// Reads the end-of-line codes behind a line. Returns false where the sixth ends the page.
fn skip_eol_codes(reader: &mut BitReader, is_2d: bool) -> (goes_on: bool)
    requires
        old(reader).wf(),
    ensures
        final(reader).wf(),
        goes_on <==> skip_eols(old(reader).remaining(), is_2d, 1) is Some,
        goes_on ==> skip_eols(old(reader).remaining(), is_2d, 1) == Some(final(reader).remaining()),
{
    let mut consecutive_eols: u32 = 1;
    loop
        invariant
            reader.wf(),
            1 <= consecutive_eols < 6,
            skip_eols(old(reader).remaining(), is_2d, 1) == skip_eols(
                reader.remaining(),
                is_2d,
                consecutive_eols as nat,
            ),
        decreases reader.remaining().len(),
    {
        proof {
            reader.lemma_buffered();
        }
        if is_2d {
            match reader.peek(13) {
                Some(v) => {
                    assert((v >> 1) == v / 2) by (bit_vector);
                    if (v >> 1) == 1 {
                        reader.consume(13);
                        consecutive_eols = consecutive_eols + 1;
                        if consecutive_eols >= 6 {
                            return false;
                        }
                    } else {
                        return true;
                    }
                },
                None => {
                    return true;
                },
            }
        } else {
            match reader.peek(12) {
                Some(v) => {
                    if v == 1 {
                        reader.consume(12);
                        consecutive_eols = consecutive_eols + 1;
                        if consecutive_eols >= 6 {
                            return false;
                        }
                    } else {
                        return true;
                    }
                },
                None => {
                    return true;
                },
            }
        }
    }
}

/// Reads what follows a line. Returns false where the page ends.
fn finish_line(reader: &mut BitReader, is_2d: bool, has_fill_bits: bool) -> (goes_on: bool)
    requires
        old(reader).wf(),
    ensures
        final(reader).wf(),
        goes_on <==> after_line(old(reader).remaining(), is_2d, has_fill_bits) is Some,
        goes_on ==> after_line(old(reader).remaining(), is_2d, has_fill_bits) == Some(
            final(reader).remaining(),
        ),
{
    if has_fill_bits {
        skip_fill_bits(reader);
    }
    proof {
        reader.lemma_buffered();
    }
    match reader.peek(12) {
        Some(v) => {
            if v == 1 {
                reader.consume(12);
                skip_eol_codes(reader, is_2d)
            } else {
                true
            }
        },
        None => true,
    }
}

/// Reads the next line of a Group 3 page.
fn decode_group3_line(
    reader: &mut BitReader,
    tables: &CodeTables,
    reference: &Vec<u16>,
    is_2d: bool,
    width: u16,
) -> (r: Option<Vec<u16>>)
    requires
        old(reader).wf(),
        tables.wf(),
    ensures
        final(reader).wf(),
        crate::fax::lines::line_read_as(
            group3_line(old(reader).remaining(), reference@, is_2d, width),
            r,
            final(reader).remaining(),
        ),
{
    let use_2d: bool = if is_2d {
        proof {
            reader.lemma_buffered();
            vstd::arithmetic::power2::lemma2_to64();
            if reader.remaining().len() >= 1 {
                lemma_top_bit(reader.remaining(), 1);
            }
        }
        match reader.peek(1) {
            Some(tag) => {
                reader.consume(1);
                tag == 0
            },
            None => {
                return None;
            },
        }
    } else {
        false
    };
    if use_2d {
        decode_line_2d(reader, tables, reference.as_slice(), width)
    } else {
        decode_line_1d(reader, tables, width)
    }
}

/// Decodes a Group 3 page into the transitions of its lines.
pub fn decode_group3(
    data: &[u8],
    tables: &CodeTables,
    width: u32,
    height: u32,
    t4_options: u32,
) -> (r: Result<Vec<Vec<u16>>, FaxError>)
    requires
        tables.wf(),
    ensures
        (forall|k: int| !eol_at(bits_of(data@), k)) ==> is_tiff_error(
            r,
            "No EOL found at start of Group 3 data"@,
        ),
        forall|k: int|
            #[trigger] first_eol(bits_of(data@), k) ==> {
                let page = group3_page(bits_of(data@), k, width, height, t4_options);
                if page.len() == 0 {
                    is_tiff_error(r, "Group 3 decoder produced no lines"@)
                } else {
                    r is Ok && lines_view((r->Ok_0)@) == page
                }
            },
{
    let w: u16 = (width % 0x10000) as u16;
    let is_2d: bool = (t4_options & 1) != 0;
    let has_fill_bits: bool = (t4_options & 4) != 0;
    let mut reader: BitReader = BitReader::new(data);
    let mut lines: Vec<Vec<u16>> = Vec::new();
    let mut reference: Vec<u16> = Vec::new();
    let ghost s = bits_of(data@);
    if !reader.scan_for_eol() {
        return Err(tiff_error("No EOL found at start of Group 3 data"));
    }
    let ghost at = choose|k: int|
        #![trigger eol_at(s, k)]
        eol_at(s, k) && (forall|j: int| 0 <= j < k ==> !eol_at(s, j)) && reader.remaining()
            == drop_bits(s, k + 12);
    let ghost page = group3_page(s, at, width, height, t4_options);
    proof {
        assert(first_eol(s, at));
        assert forall|k: int| #[trigger] first_eol(s, k) implies k == at by {
            if k < at {
                assert(eol_at(s, k));
            } else if at < k {
                assert(eol_at(s, at));
            }
        }
        assert(reference@ =~= Seq::empty());
        assert(lines_view(lines@) + page =~= page);
    }
    let mut row: u32 = 0;
    while row < height
        invariant_except_break
            page == lines_view(lines@) + group3_lines(
                reader.remaining(),
                reference@,
                is_2d,
                has_fill_bits,
                w,
                (height - row) as nat,
            ),
        invariant
            reader.wf(),
            tables.wf(),
            row <= height,
            lines@.len() == row,
            s == bits_of(data@),
            first_eol(s, at),
            forall|k: int| #[trigger] first_eol(s, k) ==> k == at,
            page == group3_page(s, at, width, height, t4_options),
        ensures
            page == lines_view(lines@),
        decreases height - row,
    {
        let ghost seen = lines_view(lines@);
        let line: Vec<u16> = match decode_group3_line(
            &mut reader,
            tables,
            &reference,
            is_2d,
            w,
        ) {
            Some(l) => l,
            None => {
                proof {
                    assert(seen + Seq::empty() =~= seen);
                }
                break;
            },
        };
        let ghost text = line@;
        reference = line.clone();
        lines.push(line);
        proof {
            assert(reference@ =~= text);
            assert(lines_view(lines@) =~= seen.push(text));
        }
        if !finish_line(&mut reader, is_2d, has_fill_bits) {
            proof {
                assert(page =~= lines_view(lines@));
            }
            return Ok(lines);
        }
        row = row + 1;
        proof {
            assert(page =~= lines_view(lines@) + group3_lines(
                reader.remaining(),
                reference@,
                is_2d,
                has_fill_bits,
                w,
                (height - row) as nat,
            ));
        }
    }
    if lines.is_empty() {
        return Err(tiff_error("Group 3 decoder produced no lines"));
    }
    Ok(lines)
}

/// Decodes a Group 4 page into the transitions of its lines.
pub fn decode_group4(data: &[u8], tables: &CodeTables, width: u32, height: u32) -> (r: Result<
    Vec<Vec<u16>>,
    FaxError,
>)
    requires
        tables.wf(),
    ensures
        ({
            let page = group4_lines(
                bits_of(data@),
                Seq::empty(),
                width16(width),
                height as nat,
            );
            if page.len() == 0 {
                is_tiff_error(r, "Group 4 decoder produced no lines"@)
            } else {
                r is Ok && lines_view((r->Ok_0)@) == page
            }
        }),
{
    let w: u16 = (width % 0x10000) as u16;
    let mut reader: BitReader = BitReader::new(data);
    let mut lines: Vec<Vec<u16>> = Vec::new();
    let mut reference: Vec<u16> = Vec::new();
    let ghost page = group4_lines(bits_of(data@), Seq::empty(), w, height as nat);
    proof {
        assert(reference@ =~= Seq::empty());
        assert(lines_view(lines@) + page =~= page);
    }
    let mut row: u32 = 0;
    while row < height
        invariant_except_break
            page == lines_view(lines@) + group4_lines(
                reader.remaining(),
                reference@,
                w,
                (height - row) as nat,
            ),
        invariant
            reader.wf(),
            tables.wf(),
            row <= height,
            w == width16(width),
            page == group4_lines(bits_of(data@), Seq::empty(), w, height as nat),
        ensures
            page == lines_view(lines@),
        decreases height - row,
    {
        let ghost seen = lines_view(lines@);
        proof {
            reader.lemma_buffered();
            assert(seen + Seq::empty() =~= seen);
        }
        let at_eol: bool = match reader.peek(12) {
            Some(v) => v == 1,
            None => false,
        };
        if at_eol {
            break;
        }
        let line: Vec<u16> = match decode_line_2d(
            &mut reader,
            tables,
            reference.as_slice(),
            w,
        ) {
            Some(l) => l,
            None => {
                break;
            },
        };
        let ghost text = line@;
        reference = line.clone();
        lines.push(line);
        row = row + 1;
        proof {
            assert(reference@ =~= text);
            assert(lines_view(lines@) =~= seen.push(text));
            assert(page =~= lines_view(lines@) + group4_lines(
                reader.remaining(),
                reference@,
                w,
                (height - row) as nat,
            ));
        }
    }
    if lines.is_empty() {
        return Err(tiff_error("Group 4 decoder produced no lines"));
    }
    proof {
        assert(lines_view(lines@).len() == lines@.len());
    }
    Ok(lines)
}

/// A page has at most as many lines as its height says.
pub proof fn law_page_has_at_most_height_lines(
    s: Seq<bool>,
    reference: Seq<u16>,
    is_2d: bool,
    fill: bool,
    width: u16,
    rows: nat,
)
    ensures
        group3_lines(s, reference, is_2d, fill, width, rows).len() <= rows,
        group4_lines(s, reference, width, rows).len() <= rows,
    decreases rows,
{
    if rows > 0 {
        if let Some((line, rest)) = group3_line(s, reference, is_2d, width) {
            if let Some(next) = after_line(rest, is_2d, fill) {
                law_page_has_at_most_height_lines(
                    next,
                    line,
                    is_2d,
                    fill,
                    width,
                    (rows - 1) as nat,
                );
            }
        }
        if let Some((line, rest)) = line_2d(s, reference, 0, Color::White, width) {
            law_page_has_at_most_height_lines(rest, line, is_2d, fill, width, (rows - 1) as nat);
        }
    }
}

/// Lines of one page are the first lines of another.
pub open spec fn starts(a: Seq<Seq<u16>>, b: Seq<Seq<u16>>) -> bool {
    a.len() <= b.len() && a == b.take(a.len() as int)
}

/// One line in front of both keeps the first lines first.
proof fn lemma_starts(line: Seq<u16>, a: Seq<Seq<u16>>, b: Seq<Seq<u16>>)
    requires
        starts(a, b),
    ensures
        starts(seq![line] + a, seq![line] + b),
{
    let x = seq![line] + a;
    let y = seq![line] + b;
    assert forall|i: int| 0 <= i < x.len() implies x[i] == y[i] by {
        if i > 0 {
            assert(a[i - 1] == b.take(a.len() as int)[i - 1]);
        }
    }
    assert(x =~= y.take(x.len() as int));
}

/// A page that may have more rows starts with the lines of one that may have fewer, in Group 3.
pub proof fn law_more_rows_keep_the_lines_of_group3(
    s: Seq<bool>,
    reference: Seq<u16>,
    is_2d: bool,
    fill: bool,
    width: u16,
    rows: nat,
    more: nat,
)
    requires
        rows <= more,
    ensures
        starts(
            group3_lines(s, reference, is_2d, fill, width, rows),
            group3_lines(s, reference, is_2d, fill, width, more),
        ),
    decreases rows,
{
    let a = group3_lines(s, reference, is_2d, fill, width, rows);
    let b = group3_lines(s, reference, is_2d, fill, width, more);
    if rows == 0 {
        assert(a =~= b.take(0));
    } else {
        match group3_line(s, reference, is_2d, width) {
            None => {
                assert(a =~= b.take(0));
            },
            Some((line, rest)) => match after_line(rest, is_2d, fill) {
                None => {
                    assert(a =~= b.take(1));
                },
                Some(next) => {
                    law_more_rows_keep_the_lines_of_group3(
                        next,
                        line,
                        is_2d,
                        fill,
                        width,
                        (rows - 1) as nat,
                        (more - 1) as nat,
                    );
                    lemma_starts(
                        line,
                        group3_lines(next, line, is_2d, fill, width, (rows - 1) as nat),
                        group3_lines(next, line, is_2d, fill, width, (more - 1) as nat),
                    );
                },
            },
        }
    }
}

/// A page that may have more rows starts with the lines of one that may have fewer, in Group 4.
pub proof fn law_more_rows_keep_the_lines_of_group4(
    s: Seq<bool>,
    reference: Seq<u16>,
    width: u16,
    rows: nat,
    more: nat,
)
    requires
        rows <= more,
    ensures
        starts(
            group4_lines(s, reference, width, rows),
            group4_lines(s, reference, width, more),
        ),
    decreases rows,
{
    let a = group4_lines(s, reference, width, rows);
    let b = group4_lines(s, reference, width, more);
    if rows == 0 || spells(s, 12, 1) {
        assert(a =~= b.take(0));
    } else {
        match line_2d(s, reference, 0, Color::White, width) {
            None => {
                assert(a =~= b.take(0));
            },
            Some((line, rest)) => {
                law_more_rows_keep_the_lines_of_group4(
                    rest,
                    line,
                    width,
                    (rows - 1) as nat,
                    (more - 1) as nat,
                );
                lemma_starts(
                    line,
                    group4_lines(rest, line, width, (rows - 1) as nat),
                    group4_lines(rest, line, width, (more - 1) as nat),
                );
            },
        }
    }
}

} // verus!
