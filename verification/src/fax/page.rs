//! Assembly of decoded lines into a grayscale page.

use crate::fax::bits::{
    bits_of, drop_bits, eol_at, law_bit_reversal_is_an_involution, reverse_bits, reversed_byte,
};
use crate::fax::codes::CodeTables;
use crate::fax::error::{is_tiff_error, tiff_error, FaxError};
use crate::fax::group::{
    decode_group3, decode_group4, first_eol, group3_page, group4_lines,
    law_more_rows_keep_the_lines_of_group3, law_more_rows_keep_the_lines_of_group4, lines_view,
    starts, width16,
};
use crate::fax::tiff::{
    byte_order, has_header, ifds_end, pages_view, parse_tiff_ifds, tiff_pages, u16_at, PageFields,
    TiffPage,
};
use crate::text::{decimal, decimal_text, join2};
use vstd::prelude::*;

verus! {

/// A grayscale page, held in an `image::GrayImage`.
#[verifier::external_body]
#[derive(Debug)]
pub struct FaxImage {
    img: image::GrayImage,
}

/// The width of a page in pixels.
pub uninterp spec fn image_width(page: FaxImage) -> u32;

/// The height of a page in pixels.
pub uninterp spec fn image_height(page: FaxImage) -> u32;

/// The pixels of a page, row by row.
pub uninterp spec fn image_pixels(page: FaxImage) -> Seq<u8>;

/// `image::ImageBuffer::from_pixel`: a page of the given size with every pixel the same.
///
/// The buffer is a vector, so the number of pixels is within what a vector can hold.
#[verifier::external_body]
fn uniform_image(width: u32, height: u32, value: u8) -> (page: FaxImage)
    requires
        width * height <= isize::MAX,
    ensures
        image_width(page) == width,
        image_height(page) == height,
        image_pixels(page).len() == width * height,
        forall|i: int| 0 <= i < width * height ==> #[trigger] image_pixels(page)[i] == value,
{
    FaxImage { img: image::GrayImage::from_pixel(width, height, image::Luma([value])) }
}

/// `<image::ImageBuffer as DerefMut>::deref_mut`: the pixels of a page, row by row, to be changed
/// in place.
#[verifier::external_body]
fn pixels_mut(page: &mut FaxImage) -> (r: &mut [u8])
    ensures
        r@ == image_pixels(*old(page)),
        image_pixels(*final(page)) == final(r)@,
        image_width(*final(page)) == image_width(*old(page)),
        image_height(*final(page)) == image_height(*old(page)),
{
    &mut page.img
}

/// `image::ImageBuffer::dimensions`: the width and height of a page.
#[verifier::external_body]
fn dimensions(page: &FaxImage) -> (r: (u32, u32))
    ensures
        r.0 == image_width(*page),
        r.1 == image_height(*page),
{
    page.img.dimensions()
}

/// `image::ImageBuffer::into_raw`: the pixels of a page, row by row.
#[verifier::external_body]
fn take_pixels(page: FaxImage) -> (r: Vec<u8>)
    ensures
        r@ == image_pixels(page),
{
    page.img.into_raw()
}

/// `image::ImageBuffer::as_raw`: the pixels of a page, row by row.
#[verifier::external_body]
fn pixels_ref(page: &FaxImage) -> (r: &[u8])
    ensures
        r@ == image_pixels(*page),
{
    page.img.as_raw().as_slice()
}

impl FaxImage {
    /// The page has as many pixels as its size says.
    pub open spec fn wf(&self) -> bool {
        image_pixels(*self).len() == image_width(*self) * image_height(*self)
    }

    /// The width in pixels.
    pub fn width(&self) -> (r: u32)
        ensures
            r == image_width(*self),
    {
        dimensions(self).0
    }

    /// The height in pixels.
    pub fn height(&self) -> (r: u32)
        ensures
            r == image_height(*self),
    {
        dimensions(self).1
    }

    /// The gray value of a pixel.
    pub fn pixel(&self, x: u32, y: u32) -> (r: u8)
        requires
            self.wf(),
            x < image_width(*self),
            y < image_height(*self),
        ensures
            r == image_pixels(*self)[y * image_width(*self) + x],
    {
        let (w, h) = dimensions(self);
        let px = pixels_ref(self);
        proof {
            lemma_in_image(x as int, y as int, w as int, h as int);
        }
        let at: u64 = y as u64 * w as u64 + x as u64;
        assert(at < px.len());
        px[at as usize]
    }

    /// The pixels, row by row.
    pub fn into_pixels(self) -> (r: Vec<u8>)
        ensures
            r@ == image_pixels(self),
    {
        take_pixels(self)
    }
}

proof fn lemma_in_image(x: int, y: int, w: int, h: int)
    requires
        0 <= x < w <= 0xffff_ffff,
        0 <= y < h <= 0xffff_ffff,
    ensures
        0 <= y * w,
        y * w + w <= w * h,
        y * w + x < w * h,
        y * w + x <= 0xffff_ffff_ffff_ffff,
{
    assert(y * w + w <= w * h && 0 <= y * w) by (nonlinear_arith)
        requires
            0 <= y < h,
            0 < w,
    ;
    assert(w * h <= 0xffff_ffff * 0xffff_ffff) by (nonlinear_arith)
        requires
            0 < w <= 0xffff_ffff,
            0 < h <= 0xffff_ffff,
    ;
}

/// The first index from `i` on of a transition right of the pixel `x`, or the number of
/// transitions: how many colour changes the pixel lies behind.
pub open spec fn changes_before(ts: Seq<u16>, x: int, i: int) -> int
    decreases ts.len() - i,
{
    if i < 0 || i >= ts.len() {
        ts.len() as int
    } else if ts[i] > x {
        i
    } else {
        changes_before(ts, x, i + 1)
    }
}

/// The gray value of white paper: 0 where black is zero (photometric 1), else 255.
pub open spec fn paper(photometric: u32) -> u8 {
    if photometric == 1 {
        0
    } else {
        255
    }
}

/// The gray value of the pixel `x` of a line: paper behind an even number of changes.
pub open spec fn line_pixel(ts: Seq<u16>, x: int, white: u8) -> u8 {
    if changes_before(ts, x, 0) % 2 == 0 {
        white
    } else {
        (255 - white) as u8
    }
}

/// The height of the assembled page: the decoded lines, up to the declared height.
pub open spec fn page_height(lines: nat, height: u32) -> nat {
    if lines < height {
        lines
    } else {
        height as nat
    }
}

/// The page shows the lines.
pub open spec fn shows(page: FaxImage, lines: Seq<Seq<u16>>, width: u32, height: u32, photometric:
    u32) -> bool {
    &&& page.wf()
    &&& image_width(page) == width
    &&& image_height(page) == page_height(lines.len(), height)
    &&& forall|x: int, y: int|
        0 <= x < width && 0 <= y < page_height(lines.len(), height)
            ==> #[trigger] image_pixels(page)[y * width + x] == line_pixel(
            lines[y],
            x,
            paper(photometric),
        )
}

/// Sets the pixels from index `from` up to `to`.
fn fill_run(page: &mut FaxImage, from: usize, to: usize, value: u8)
    requires
        from <= to <= image_pixels(*old(page)).len(),
    ensures
        image_width(*final(page)) == image_width(*old(page)),
        image_height(*final(page)) == image_height(*old(page)),
        image_pixels(*final(page)).len() == image_pixels(*old(page)).len(),
        forall|i: int|
            0 <= i < image_pixels(*old(page)).len() ==> #[trigger] image_pixels(*final(page))[i] == (if from
                <= i < to {
                value
            } else {
                image_pixels(*old(page))[i]
            }),
{
    let px = pixels_mut(page);
    let ghost before = px@;
    let mut i: usize = from;
    while i < to
        invariant
            from <= i <= to <= px@.len(),
            px@.len() == before.len(),
            forall|j: int|
                0 <= j < px@.len() ==> #[trigger] px@[j] == (if from <= j < i {
                    value
                } else {
                    before[j]
                }),
        decreases to - i,
    {
        px[i] = value;
        i = i + 1;
    }
}

proof fn lemma_changes_skip(ts: Seq<u16>, x: int, i: int)
    requires
        0 <= i <= ts.len(),
        forall|k: int| 0 <= k < i ==> ts[k] <= x,
    ensures
        changes_before(ts, x, 0) == changes_before(ts, x, i),
    decreases i,
{
    if i > 0 {
        lemma_changes_skip(ts, x, i - 1);
        assert(ts[i - 1] <= x);
    }
}

proof fn lemma_rows_apart(w: int, y: int, y2: int, x2: int)
    requires
        0 <= x2 < w,
        y != y2,
    ensures
        y2 * w + x2 < y * w || y * w + w <= y2 * w + x2,
{
    if y2 < y {
        assert(y2 * w + w <= y * w) by (nonlinear_arith)
            requires
                y2 < y,
                0 < w,
        ;
    } else {
        assert(y * w + w <= y2 * w) by (nonlinear_arith)
            requires
                y < y2,
                0 < w,
        ;
    }
}

/// Draws one line into row `y`; the other rows stay as they are.
fn draw_line(page: &mut FaxImage, y: u32, transitions: &Vec<u16>, white: u8)
    requires
        old(page).wf(),
        y < image_height(*old(page)),
        white == 0 || white == 255,
    ensures
        final(page).wf(),
        image_width(*final(page)) == image_width(*old(page)),
        image_height(*final(page)) == image_height(*old(page)),
        forall|x: int|
            0 <= x < image_width(*old(page)) ==> #[trigger] image_pixels(*final(page))[y
                * image_width(*old(page)) + x] == line_pixel(transitions@, x, white),
        forall|i: int|
            0 <= i < image_pixels(*old(page)).len() && !(y * image_width(*old(page)) <= i < y
                * image_width(*old(page)) + image_width(*old(page)))
                ==> #[trigger] image_pixels(*final(page))[i] == image_pixels(*old(page))[i],
{
    let w: u32 = page.width();
    let ghost h = image_height(*page);
    if w == 0 {
        return;
    }
    proof {
        lemma_in_image(0, y as int, w as int, h as int);
    }
    let row_wide: u64 = y as u64 * w as u64;
    let ghost n = image_pixels(*page).len();
    let total: usize = pixels_ref(page).len();
    assert(row_wide + w <= total);
    let row: usize = row_wide as usize;
    let wide: usize = w as usize;
    let mut color: u8 = white;
    let mut x: usize = 0;
    let mut i: usize = 0;
    let ghost before = image_pixels(*page);
    let ghost ts = transitions@;
    while i < transitions.len()
        invariant
            i <= ts.len(),
            x <= wide,
            wide == w,
            row == y * w,
            row + wide <= total,
            total == before.len(),
            white == 0 || white == 255,
            ts == transitions@,
            image_width(*page) == w,
            image_height(*page) == h,
            image_pixels(*page).len() == before.len(),
            color == (if i % 2 == 0 {
                white
            } else {
                (255 - white) as u8
            }),
            forall|k: int| 0 <= k < i ==> ts[k] <= x || x == wide,
            forall|p: int|
                0 <= p < x ==> #[trigger] image_pixels(*page)[row + p] == line_pixel(
                    ts,
                    p,
                    white,
                ),
            forall|j: int|
                0 <= j < before.len() && !(row <= j < row + wide)
                    ==> #[trigger] image_pixels(*page)[j] == before[j],
        decreases ts.len() - i,
    {
        let raw: usize = transitions[i] as usize;
        let t: usize = if raw < wide {
            raw
        } else {
            wide
        };
        if t > x {
            let ghost drawn = image_pixels(*page);
            fill_run(page, row + x, row + t, color);
            proof {
                assert forall|p: int| 0 <= p < t implies #[trigger] image_pixels(*page)[row + p]
                    == line_pixel(ts, p, white) by {
                    if p >= x {
                        lemma_changes_skip(ts, p, i as int);
                    } else {
                        assert(drawn[row + p] == line_pixel(ts, p, white));
                    }
                }
            }
            x = t;
        }
        color = if color == 255 {
            0
        } else {
            255
        };
        i = i + 1;
    }
    if x < wide {
        let ghost drawn = image_pixels(*page);
        fill_run(page, row + x, row + wide, color);
        proof {
            assert forall|p: int| 0 <= p < wide implies #[trigger] image_pixels(*page)[row + p]
                == line_pixel(ts, p, white) by {
                if p >= x {
                    lemma_changes_skip(ts, p, ts.len() as int);
                } else {
                    assert(drawn[row + p] == line_pixel(ts, p, white));
                }
            }
        }
    }
}

/// Assembles decoded lines into a page.
///
/// The page is as high as there are lines, up to the declared height.
pub fn assemble_image(lines: &Vec<Vec<u16>>, width: u32, height: u32, photometric: u32) -> (page:
    FaxImage)
    requires
        width * page_height(lines@.len(), height) <= isize::MAX,
    ensures
        shows(page, lines_view(lines@), width, height, photometric),
{
    let actual_height: u32 = if lines.len() < height as usize {
        lines.len() as u32
    } else {
        height
    };
    let white: u8 = if photometric == 1 {
        0
    } else {
        255
    };
    let mut page: FaxImage = uniform_image(width, actual_height, white);
    let mut y: u32 = 0;
    let ghost view = lines_view(lines@);
    while y < actual_height
        invariant
            y <= actual_height <= lines@.len(),
            view == lines_view(lines@),
            white == paper(photometric),
            page.wf(),
            image_width(page) == width,
            image_height(page) == actual_height,
            forall|x: int, v: int|
                0 <= x < width && 0 <= v < y ==> #[trigger] image_pixels(page)[v * width + x]
                    == line_pixel(view[v], x, white),
        decreases actual_height - y,
    {
        let ghost before = image_pixels(page);
        draw_line(&mut page, y, &lines[y as usize], white);
        proof {
            assert(view[y as int] == lines@[y as int]@);
            assert forall|x: int, v: int| 0 <= x < width && 0 <= v < y + 1 implies #[trigger] image_pixels(
                page,
            )[v * width + x] == line_pixel(view[v], x, white) by {
                if v < y {
                    lemma_rows_apart(width as int, y as int, v, x);
                    lemma_in_image(x, v, width as int, actual_height as int);
                    assert(before[v * width + x] == line_pixel(view[v], x, white));
                }
            }
        }
        y = y + 1;
    }
    page
}

/// The strips of a page, as far as both of its lists go.
pub open spec fn strip_count(page: PageFields) -> int {
    if page.strip_offsets.len() < page.strip_byte_counts.len() {
        page.strip_offsets.len() as int
    } else {
        page.strip_byte_counts.len() as int
    }
}

/// The first `n` strips of a page lie in the file.
pub open spec fn strips_fit(data: Seq<u8>, page: PageFields, n: int) -> bool {
    forall|i: int|
        0 <= i < n ==> #[trigger] page.strip_offsets[i] + page.strip_byte_counts[i] <= data.len()
}

/// The bytes of the first `n` strips of a page.
pub open spec fn strip_bytes(data: Seq<u8>, page: PageFields, n: int) -> Seq<u8>
    decreases n,
{
    if n <= 0 {
        Seq::empty()
    } else {
        strip_bytes(data, page, n - 1) + data.subrange(
            page.strip_offsets[n - 1] as int,
            page.strip_offsets[n - 1] + page.strip_byte_counts[n - 1],
        )
    }
}

/// The coded bytes of a page, most significant bit first.
pub open spec fn page_bytes(data: Seq<u8>, page: PageFields) -> Seq<u8> {
    let raw = strip_bytes(data, page, strip_count(page));
    if page.fill_order == 2 {
        raw.map_values(|b: u8| reversed_byte(b))
    } else {
        raw
    }
}

/// The message about a strip that does not lie in the file.
pub open spec fn strip_message(off: u32, count: u32, file_len: nat) -> Seq<char> {
    "TIFF strip extends past file: offset="@ + decimal(off as nat) + ", count="@ + decimal(
        count as nat,
    ) + ", file_len="@ + decimal(file_len)
}

/// Collects the coded bytes of a page.
pub fn collect_strips(data: &[u8], page: &TiffPage) -> (r: Result<Vec<u8>, FaxError>)
    ensures
        r is Ok <==> strips_fit(data@, page@, strip_count(page@)),
        r is Ok ==> (r->Ok_0)@ == page_bytes(data@, page@),
        forall|i: int|
            0 <= i < strip_count(page@) && strips_fit(data@, page@, i)
                && #[trigger] page@.strip_offsets[i] + page@.strip_byte_counts[i] > data@.len()
                ==> is_tiff_error(
                r,
                strip_message(
                    page@.strip_offsets[i],
                    page@.strip_byte_counts[i],
                    data@.len(),
                ),
            ),
{
    let n: usize = if page.strip_offsets.len() < page.strip_byte_counts.len() {
        page.strip_offsets.len()
    } else {
        page.strip_byte_counts.len()
    };
    let mut strip_data: Vec<u8> = Vec::new();
    let mut i: usize = 0;
    while i < n
        invariant
            i <= n,
            n == strip_count(page@),
            strips_fit(data@, page@, i as int),
            strip_data@ == strip_bytes(data@, page@, i as int),
        decreases n - i,
    {
        let off: u32 = page.strip_offsets[i];
        let len: u32 = page.strip_byte_counts[i];
        let end: u64 = off as u64 + len as u64;
        if end > data.len() as u64 {
            let mut m: String = join2(
                "TIFF strip extends past file: offset=",
                decimal_text(off as u64).as_str(),
            );
            m = join2(m.as_str(), ", count=");
            m = join2(m.as_str(), decimal_text(len as u64).as_str());
            m = join2(m.as_str(), ", file_len=");
            m = join2(m.as_str(), decimal_text(data.len() as u64).as_str());
            proof {
                assert(page@.strip_offsets[i as int] == off);
                assert forall|j: int|
                    0 <= j < strip_count(page@) && strips_fit(data@, page@, j)
                        && #[trigger] page@.strip_offsets[j] + page@.strip_byte_counts[j]
                        > data@.len() implies j == i by {
                    if i < j {
                        assert(page@.strip_offsets[i as int] + page@.strip_byte_counts[i as int]
                            <= data@.len());
                    } else if j < i {
                        assert(page@.strip_offsets[j] + page@.strip_byte_counts[j] <= data@.len());
                    }
                }
            }
            return Err(tiff_error(m.as_str()));
        }
        let strip = vstd::slice::slice_subrange(data, off as usize, end as usize);
        let ghost before = strip_data@;
        strip_data.extend_from_slice(strip);
        proof {
            assert(strip_data@ =~= before + strip@);
        }
        i = i + 1;
    }
    if page.fill_order == 2 {
        let ghost raw = strip_data@;
        let mut k: usize = 0;
        while k < strip_data.len()
            invariant
                k <= strip_data@.len(),
                strip_data@.len() == raw.len(),
                forall|j: int| 0 <= j < k ==> strip_data@[j] == reversed_byte(raw[j]),
                forall|j: int| k <= j < raw.len() ==> strip_data@[j] == raw[j],
            decreases raw.len() - k,
        {
            let b: u8 = strip_data[k];
            strip_data.set(k, reverse_bits(b));
            k = k + 1;
        }
        proof {
            assert(strip_data@ =~= raw.map_values(|b: u8| reversed_byte(b)));
        }
    }
    Ok(strip_data)
}

/// The lines of a page whose coded bits are `s`. Where `s` has no end-of-line code a
/// Group 3 page has none.
pub open spec fn decoded_lines(s: Seq<bool>, page: PageFields) -> Seq<Seq<u16>> {
    if page.compression == 3 {
        if exists|k: int| first_eol(s, k) {
            group3_page(
                s,
                choose|k: int| first_eol(s, k),
                page.width,
                page.height,
                page.t4_options,
            )
        } else {
            Seq::empty()
        }
    } else if page.compression == 4 {
        group4_lines(s, Seq::empty(), width16(page.width), page.height as nat)
    } else {
        Seq::empty()
    }
}

/// The lines of a page of a file.
pub open spec fn page_lines(data: Seq<u8>, page: PageFields) -> Seq<Seq<u16>> {
    decoded_lines(bits_of(page_bytes(data, page)), page)
}

/// A page of a file can be decoded: its strips lie in the file, and it has lines.
pub open spec fn page_decodes(data: Seq<u8>, page: PageFields) -> bool {
    strips_fit(data, page, strip_count(page)) && page_lines(data, page).len() > 0
}

/// A page of a file, once decoded, is no larger than a vector can hold.
pub open spec fn page_is_holdable(data: Seq<u8>, page: PageFields) -> bool {
    page_decodes(data, page) ==> page.width * page_height(page_lines(data, page).len(), page.height)
        <= isize::MAX
}

/// Decoding of lines failed for the reason that the data shows.
pub open spec fn lines_error<T>(r: Result<T, FaxError>, s: Seq<bool>, page: PageFields) -> bool {
    if page.compression == 3 {
        if exists|k: int| eol_at(s, k) {
            is_tiff_error(r, "Group 3 decoder produced no lines"@)
        } else {
            is_tiff_error(r, "No EOL found at start of Group 3 data"@)
        }
    } else if page.compression == 4 {
        is_tiff_error(r, "Group 4 decoder produced no lines"@)
    } else {
        is_tiff_error(r, "Unsupported TIFF compression: "@ + decimal(page.compression as nat))
    }
}

/// A first end-of-line code exists where there is any.
proof fn lemma_first_eol(s: Seq<bool>, k: int)
    requires
        eol_at(s, k),
    ensures
        exists|j: int| first_eol(s, j),
    decreases k,
{
    if exists|j: int| 0 <= j < k && eol_at(s, j) {
        let j = choose|j: int| 0 <= j < k && eol_at(s, j);
        lemma_first_eol(s, j);
    } else {
        assert(first_eol(s, k));
    }
}

/// Decodes the coded bytes of a page into lines, by its compression.
pub fn decode_lines(strip_data: &Vec<u8>, tables: &CodeTables, page: &TiffPage) -> (r: Result<
    Vec<Vec<u16>>,
    FaxError,
>)
    requires
        tables.wf(),
    ensures
        r is Ok <==> decoded_lines(bits_of(strip_data@), page@).len() > 0,
        r is Ok ==> lines_view((r->Ok_0)@) == decoded_lines(bits_of(strip_data@), page@),
        r is Err ==> lines_error(r, bits_of(strip_data@), page@),
{
    let ghost s = bits_of(strip_data@);
    match page.compression {
        3 => {
            let r = decode_group3(
                strip_data.as_slice(),
                tables,
                page.width,
                page.height,
                page.t4_options,
            );
            proof {
                if exists|k: int| eol_at(s, k) {
                    let k = choose|k: int| eol_at(s, k);
                    lemma_first_eol(s, k);
                    let j = choose|j: int| first_eol(s, j);
                    assert(first_eol(s, j));
                } else {
                    assert forall|k: int| !first_eol(s, k) by {
                        assert(!eol_at(s, k));
                    }
                }
            }
            r
        },
        4 => decode_group4(strip_data.as_slice(), tables, page.width, page.height),
        other => Err(
            tiff_error(
                join2(
                    "Unsupported TIFF compression: ",
                    decimal_text(other as u64).as_str(),
                ).as_str(),
            ),
        ),
    }
}

/// Strip `i` of a page is the first that does not lie in the file.
pub open spec fn first_bad_strip(data: Seq<u8>, page: PageFields, i: int) -> bool {
    0 <= i < strip_count(page) && strips_fit(data, page, i) && page.strip_offsets[i]
        + page.strip_byte_counts[i] > data.len()
}

/// Decoding of a page failed for the reason that the data shows.
pub open spec fn page_error<T>(r: Result<T, FaxError>, data: Seq<u8>, page: PageFields) -> bool {
    if strips_fit(data, page, strip_count(page)) {
        lines_error(r, bits_of(page_bytes(data, page)), page)
    } else {
        exists|i: int| #[trigger]
            first_bad_strip(data, page, i) && is_tiff_error(
                r,
                strip_message(page.strip_offsets[i], page.strip_byte_counts[i], data.len()),
            )
    }
}

proof fn lemma_first_bad_strip(data: Seq<u8>, page: PageFields, n: int)
    requires
        0 <= n <= strip_count(page),
        !strips_fit(data, page, n),
    ensures
        exists|i: int| first_bad_strip(data, page, i),
    decreases n,
{
    if n > 0 {
        if strips_fit(data, page, n - 1) {
            assert(first_bad_strip(data, page, n - 1));
        } else {
            lemma_first_bad_strip(data, page, n - 1);
        }
    }
}

/// Decodes a page of a TIFF file.
pub fn decode_page(data: &[u8], tables: &CodeTables, page: &TiffPage) -> (r: Result<
    FaxImage,
    FaxError,
>)
    requires
        tables.wf(),
        page_is_holdable(data@, page@),
    ensures
        r is Ok <==> page_decodes(data@, page@),
        r is Ok ==> shows(
            r->Ok_0,
            page_lines(data@, page@),
            page.width,
            page.height,
            page.photometric,
        ),
        r is Err ==> page_error(r, data@, page@),
{
    let strip_data: Vec<u8> = match collect_strips(data, page) {
        Ok(d) => d,
        Err(e) => {
            proof {
                lemma_first_bad_strip(data@, page@, strip_count(page@));
            }
            return Err(e);
        },
    };
    let lines: Vec<Vec<u16>> = match decode_lines(&strip_data, tables, page) {
        Ok(l) => l,
        Err(e) => {
            return Err(e);
        },
    };
    proof {
        assert(lines_view(lines@).len() == lines@.len());
    }
    Ok(assemble_image(&lines, page.width, page.height, page.photometric))
}

/// The largest TIFF file that is read, in bytes.
pub const MAX_TIFF_SIZE: u64 = 50 * 1024 * 1024;

/// Refuses a TIFF file that is too large to be a fax.
pub fn check_tiff_size(file_size: u64) -> (r: Result<(), FaxError>)
    ensures
        r is Ok <==> file_size <= 50 * 1024 * 1024,
        r is Err ==> is_tiff_error(
            r,
            "TIFF file too large: "@ + decimal(file_size as nat) + " bytes (max "@ + decimal(
                52428800,
            ) + " bytes)"@,
        ),
{
    if file_size > MAX_TIFF_SIZE {
        let mut m: String = join2("TIFF file too large: ", decimal_text(file_size).as_str());
        m = join2(m.as_str(), " bytes (max ");
        m = join2(m.as_str(), decimal_text(MAX_TIFF_SIZE).as_str());
        m = join2(m.as_str(), " bytes)");
        return Err(tiff_error(m.as_str()));
    }
    Ok(())
}

/// A decoded page, with the resolution that its directory states.
#[derive(Debug)]
pub struct DecodedPage {
    pub image: FaxImage,
    pub x_resolution: Option<(u32, u32)>,
    pub y_resolution: Option<(u32, u32)>,
}

/// The decoded page is that of the directory.
pub open spec fn is_page(d: DecodedPage, data: Seq<u8>, page: PageFields) -> bool {
    &&& d.x_resolution == page.x_resolution
    &&& d.y_resolution == page.y_resolution
    &&& shows(d.image, page_lines(data, page), page.width, page.height, page.photometric)
}

/// Every page of the file, once decoded, is no larger than a vector can hold.
pub open spec fn tiff_is_holdable(data: Seq<u8>) -> bool {
    has_header(data) ==> forall|i: int|
        0 <= i < tiff_pages(data).len() ==> page_is_holdable(data, #[trigger] tiff_pages(data)[i])
}

/// The first `n` pages of the file can be decoded.
pub open spec fn pages_decode(data: Seq<u8>, n: int) -> bool {
    forall|i: int| 0 <= i < n ==> page_decodes(data, #[trigger] tiff_pages(data)[i])
}

/// Decodes all pages of a fax TIFF file; the first page that cannot be decoded is the error.
pub fn decode_fax_tiff_data(data: &[u8]) -> (r: Result<Vec<DecodedPage>, FaxError>)
    requires
        ifds_end(data@),
        tiff_is_holdable(data@),
    ensures
        r is Ok <==> has_header(data@) && tiff_pages(data@).len() > 0 && pages_decode(
            data@,
            tiff_pages(data@).len() as int,
        ),
        r is Ok ==> (r->Ok_0)@.len() == tiff_pages(data@).len() && forall|i: int|
            0 <= i < tiff_pages(data@).len() ==> is_page(
                #[trigger] (r->Ok_0)@[i],
                data@,
                tiff_pages(data@)[i],
            ),
        data@.len() < 8 ==> is_tiff_error(r, "TIFF file too short"@),
        data@.len() >= 8 && byte_order(data@) is None ==> is_tiff_error(r, "Not a TIFF file"@),
        data@.len() >= 8 && byte_order(data@) is Some && !has_header(data@) ==> is_tiff_error(
            r,
            "Bad TIFF magic: "@ + decimal(u16_at(data@, 2, byte_order(data@)->0) as nat),
        ),
        has_header(data@) && tiff_pages(data@).len() == 0 ==> is_tiff_error(
            r,
            "No IFDs found in TIFF"@,
        ),
        forall|i: int|
            has_header(data@) && 0 <= i < tiff_pages(data@).len() && pages_decode(data@, i)
                && !page_decodes(data@, #[trigger] tiff_pages(data@)[i]) ==> page_error(
                r,
                data@,
                tiff_pages(data@)[i],
            ),
{
    let pages: Vec<TiffPage> = match parse_tiff_ifds(data) {
        Ok(p) => p,
        Err(e) => {
            return Err(e);
        },
    };
    let tables: CodeTables = CodeTables::new();
    let mut images: Vec<DecodedPage> = Vec::new();
    let mut i: usize = 0;
    proof {
        assert(pages_view(pages@).len() == pages@.len());
    }
    while i < pages.len()
        invariant
            tables.wf(),
            has_header(data@),
            tiff_is_holdable(data@),
            pages_view(pages@) == tiff_pages(data@),
            pages@.len() == tiff_pages(data@).len(),
            i <= pages@.len(),
            images@.len() == i,
            pages_decode(data@, i as int),
            forall|j: int|
                0 <= j < i ==> is_page(#[trigger] images@[j], data@, tiff_pages(data@)[j]),
        decreases pages@.len() - i,
    {
        let page: &TiffPage = &pages[i];
        proof {
            assert(pages_view(pages@)[i as int] == pages@[i as int]@);
        }
        match decode_page(data, &tables, page) {
            Ok(image) => {
                images.push(
                    DecodedPage {
                        image,
                        x_resolution: page.x_resolution,
                        y_resolution: page.y_resolution,
                    },
                );
            },
            Err(e) => {
                proof {
                    assert forall|j: int|
                        0 <= j < tiff_pages(data@).len() && pages_decode(data@, j)
                            && !page_decodes(data@, #[trigger] tiff_pages(data@)[j]) implies j
                        == i by {
                        if i < j {
                            assert(page_decodes(data@, tiff_pages(data@)[i as int]));
                        }
                    }
                }
                return Err(e);
            },
        }
        i = i + 1;
    }
    Ok(images)
}

/// Every byte of a strip of a page is reversed in the second file.
pub open spec fn strip_is_reversed(d1: Seq<u8>, d2: Seq<u8>, page: PageFields, i: int) -> bool {
    forall|b: int|
        page.strip_offsets[i] <= b < page.strip_offsets[i] + page.strip_byte_counts[i] && b
            < d1.len() ==> #[trigger] d2[b] == reversed_byte(d1[b])
}

/// The pages say the same, but for the order of bits: the first has the most significant bit
/// first, the second has the least significant bit first and every byte of its strips reversed.
pub open spec fn bits_reversed(
    d1: Seq<u8>,
    d2: Seq<u8>,
    p1: PageFields,
    p2: PageFields,
) -> bool {
    &&& p1.fill_order == 1
    &&& p2 == PageFields { fill_order: 2, ..p1 }
    &&& forall|i: int| 0 <= i < strip_count(p1) ==> #[trigger] strip_is_reversed(d1, d2, p1, i)
}

/// The strips of the second file are those of the first, reversed.
proof fn lemma_reversed_strips(
    d1: Seq<u8>,
    d2: Seq<u8>,
    p1: PageFields,
    p2: PageFields,
    n: int,
)
    requires
        d1.len() == d2.len(),
        bits_reversed(d1, d2, p1, p2),
        0 <= n <= strip_count(p1),
        strips_fit(d1, p1, n),
    ensures
        strip_bytes(d2, p2, n) == strip_bytes(d1, p1, n).map_values(|b: u8| reversed_byte(b)),
    decreases n,
{
    let rev = |b: u8| reversed_byte(b);
    if n > 0 {
        lemma_reversed_strips(d1, d2, p1, p2, n - 1);
        let from = p1.strip_offsets[n - 1] as int;
        let to = p1.strip_offsets[n - 1] + p1.strip_byte_counts[n - 1];
        assert(strip_is_reversed(d1, d2, p1, n - 1));
        assert(d2.subrange(from, to) =~= d1.subrange(from, to).map_values(rev)) by {
            assert forall|k: int| 0 <= k < to - from implies d2.subrange(from, to)[k]
                == reversed_byte(d1.subrange(from, to)[k]) by {
                assert(d2[from + k] == reversed_byte(d1[from + k]));
            }
        }
        assert(strip_bytes(d2, p2, n) =~= strip_bytes(d1, p1, n).map_values(rev));
    } else {
        assert(strip_bytes(d2, p2, n) =~= strip_bytes(d1, p1, n).map_values(rev));
    }
}

/// The order of bits makes no difference to a page: with its strips reversed and its fill order
/// changed it has the same lines, or can be decoded no more than before.
pub proof fn law_the_fill_order_of_a_page(
    d1: Seq<u8>,
    d2: Seq<u8>,
    p1: PageFields,
    p2: PageFields,
)
    requires
        d1.len() == d2.len(),
        bits_reversed(d1, d2, p1, p2),
    ensures
        page_decodes(d1, p1) == page_decodes(d2, p2),
        strips_fit(d1, p1, strip_count(p1)) ==> page_bytes(d1, p1) == page_bytes(d2, p2)
            && page_lines(d1, p1) == page_lines(d2, p2),
{
    let n = strip_count(p1);
    assert(strips_fit(d1, p1, n) == strips_fit(d2, p2, n)) by {
        if strips_fit(d1, p1, n) {
            assert forall|i: int| 0 <= i < n implies #[trigger] p2.strip_offsets[i]
                + p2.strip_byte_counts[i] <= d2.len() by {
                assert(p1.strip_offsets[i] + p1.strip_byte_counts[i] <= d1.len());
            }
        }
        if strips_fit(d2, p2, n) {
            assert forall|i: int| 0 <= i < n implies #[trigger] p1.strip_offsets[i]
                + p1.strip_byte_counts[i] <= d1.len() by {
                assert(p2.strip_offsets[i] + p2.strip_byte_counts[i] <= d2.len());
            }
        }
    }
    if strips_fit(d1, p1, n) {
        lemma_reversed_strips(d1, d2, p1, p2, n);
        let raw = strip_bytes(d1, p1, n);
        assert(page_bytes(d2, p2) =~= raw) by {
            assert forall|k: int| 0 <= k < raw.len() implies page_bytes(d2, p2)[k] == raw[k] by {
                law_bit_reversal_is_an_involution(raw[k]);
            }
        }
        let s = bits_of(raw);
        assert(decoded_lines(s, p1) == decoded_lines(s, p2));
    }
}

/// The images are the same, pixel for pixel.
pub open spec fn same_image(a: FaxImage, b: FaxImage) -> bool {
    &&& image_width(a) == image_width(b)
    &&& image_height(a) == image_height(b)
    &&& image_pixels(a) == image_pixels(b)
}

/// What a page shows fixes every pixel of it.
pub proof fn law_lines_fix_the_image(
    a: FaxImage,
    b: FaxImage,
    lines: Seq<Seq<u16>>,
    width: u32,
    height: u32,
    photometric: u32,
)
    requires
        shows(a, lines, width, height, photometric),
        shows(b, lines, width, height, photometric),
    ensures
        same_image(a, b),
{
    let w = width as int;
    let h = page_height(lines.len(), height) as int;
    assert forall|k: int| 0 <= k < image_pixels(a).len() implies image_pixels(a)[k]
        == image_pixels(b)[k] by {
        assert(k < w * h);
        assert(w > 0) by (nonlinear_arith)
            requires
                0 <= k < w * h,
                w >= 0,
        ;
        let y = k / w;
        let x = k % w;
        vstd::arithmetic::div_mod::lemma_fundamental_div_mod(k, w);
        assert(y * w + x == k) by (nonlinear_arith)
            requires
                k == w * y + x,
        ;
        assert(0 <= y < h) by (nonlinear_arith)
            requires
                0 <= k < w * h,
                k == y * w + x,
                0 <= x < w,
        ;
        assert(image_pixels(a)[y * w + x] == line_pixel(lines[y], x, paper(photometric)));
        assert(image_pixels(b)[y * w + x] == line_pixel(lines[y], x, paper(photometric)));
    }
    assert(image_pixels(a) =~= image_pixels(b));
}

/// The order of bits makes no difference to a file: where the directories of two files say the
/// same, but for the fill order, and every strip of the second is the reversal of that of the
/// first, both can be decoded or neither can, and each page of the one is that of the other, with
/// the same pixels and resolutions.
pub proof fn law_the_fill_order_of_a_file(d1: Seq<u8>, d2: Seq<u8>)
    requires
        d1.len() == d2.len(),
        has_header(d1),
        has_header(d2),
        tiff_pages(d1).len() == tiff_pages(d2).len(),
        forall|i: int|
            0 <= i < tiff_pages(d1).len() ==> bits_reversed(
                d1,
                d2,
                #[trigger] tiff_pages(d1)[i],
                tiff_pages(d2)[i],
            ),
    ensures
        pages_decode(d1, tiff_pages(d1).len() as int) == pages_decode(
            d2,
            tiff_pages(d2).len() as int,
        ),
        forall|i: int, a: DecodedPage, b: DecodedPage|
            #![trigger is_page(a, d1, tiff_pages(d1)[i]), is_page(b, d2, tiff_pages(d2)[i])]
            0 <= i < tiff_pages(d1).len() && page_decodes(d1, tiff_pages(d1)[i]) && is_page(
                a,
                d1,
                tiff_pages(d1)[i],
            ) && is_page(b, d2, tiff_pages(d2)[i]) ==> same_image(a.image, b.image)
                && a.x_resolution == b.x_resolution && a.y_resolution == b.y_resolution,
{
    let n = tiff_pages(d1).len() as int;
    assert forall|i: int| 0 <= i < n implies page_decodes(d1, #[trigger] tiff_pages(d1)[i])
        == page_decodes(d2, tiff_pages(d2)[i]) by {
        law_the_fill_order_of_a_page(d1, d2, tiff_pages(d1)[i], tiff_pages(d2)[i]);
    }
    if pages_decode(d1, n) {
        assert forall|i: int| 0 <= i < n implies page_decodes(d2, #[trigger] tiff_pages(d2)[i]) by {
            assert(page_decodes(d1, tiff_pages(d1)[i]));
        }
    }
    if pages_decode(d2, n) {
        assert forall|i: int| 0 <= i < n implies page_decodes(d1, #[trigger] tiff_pages(d1)[i]) by {
            assert(page_decodes(d2, tiff_pages(d2)[i]));
        }
    }
    assert forall|i: int, a: DecodedPage, b: DecodedPage|
        #![trigger is_page(a, d1, tiff_pages(d1)[i]), is_page(b, d2, tiff_pages(d2)[i])]
        0 <= i < n && page_decodes(d1, tiff_pages(d1)[i]) && is_page(a, d1, tiff_pages(d1)[i])
            && is_page(b, d2, tiff_pages(d2)[i]) implies same_image(a.image, b.image)
        && a.x_resolution == b.x_resolution && a.y_resolution == b.y_resolution by {
        let p1 = tiff_pages(d1)[i];
        let p2 = tiff_pages(d2)[i];
        law_the_fill_order_of_a_page(d1, d2, p1, p2);
        law_lines_fix_the_image(
            a.image,
            b.image,
            page_lines(d1, p1),
            p1.width,
            p1.height,
            p1.photometric,
        );
    }
}

/// A page that declares more rows has the rows of one that declares fewer: its lines start with
/// the same lines, its image is no lower, and no pixel of an earlier row is another.
pub proof fn law_a_higher_page_keeps_its_rows(
    data: Seq<u8>,
    lower: PageFields,
    higher: PageFields,
    a: FaxImage,
    b: FaxImage,
)
    requires
        lower.height <= higher.height,
        higher == (PageFields { height: higher.height, ..lower }),
        shows(a, page_lines(data, lower), lower.width, lower.height, lower.photometric),
        shows(b, page_lines(data, higher), higher.width, higher.height, higher.photometric),
    ensures
        starts(page_lines(data, lower), page_lines(data, higher)),
        image_width(a) == image_width(b),
        image_height(a) <= image_height(b),
        forall|x: int, y: int|
            0 <= x < image_width(a) && 0 <= y < image_height(a)
                ==> #[trigger] image_pixels(a)[y * image_width(a) + x] == image_pixels(b)[y
                * image_width(b) + x],
{
    let s = bits_of(page_bytes(data, lower));
    let l1 = page_lines(data, lower);
    let l2 = page_lines(data, higher);
    assert(page_bytes(data, lower) == page_bytes(data, higher)) by {
        lemma_same_strips(data, lower, higher, strip_count(lower));
    }
    if lower.compression == 3 {
        if exists|k: int| first_eol(s, k) {
            let k = choose|k: int| first_eol(s, k);
            law_more_rows_keep_the_lines_of_group3(
                drop_bits(s, k + 12),
                Seq::empty(),
                lower.t4_options & 1 != 0,
                lower.t4_options & 4 != 0,
                width16(lower.width),
                lower.height as nat,
                higher.height as nat,
            );
        } else {
            assert(l1 =~= l2.take(0));
        }
    } else if lower.compression == 4 {
        law_more_rows_keep_the_lines_of_group4(
            s,
            Seq::empty(),
            width16(lower.width),
            lower.height as nat,
            higher.height as nat,
        );
    } else {
        assert(l1 =~= l2.take(0));
    }
    let w = lower.width as int;
    assert forall|x: int, y: int|
        0 <= x < w && 0 <= y < image_height(a) implies #[trigger] image_pixels(a)[y * w + x]
        == image_pixels(b)[y * w + x] by {
        assert(l1[y] == l2.take(l1.len() as int)[y]);
        assert(image_pixels(b)[y * w + x] == line_pixel(l2[y], x, paper(higher.photometric)));
    }
}

/// The strips of a page are those of the same page with another height.
proof fn lemma_same_strips(data: Seq<u8>, p1: PageFields, p2: PageFields, n: int)
    requires
        p1.strip_offsets == p2.strip_offsets,
        p1.strip_byte_counts == p2.strip_byte_counts,
    ensures
        strip_bytes(data, p1, n) == strip_bytes(data, p2, n),
    decreases n,
{
    if n > 0 {
        lemma_same_strips(data, p1, p2, n - 1);
    }
}

/// A pixel of a page is paper behind an even number of colour changes of its line, and ink behind
/// an odd one. Paper is white and ink black, unless the page says that zero is black.
pub proof fn law_pixels_follow_the_changes(
    page: FaxImage,
    lines: Seq<Seq<u16>>,
    width: u32,
    height: u32,
    photometric: u32,
    x: int,
    y: int,
    k: int,
)
    requires
        shows(page, lines, width, height, photometric),
        0 <= x < width,
        0 <= y < lines.len(),
        y < height,
        0 <= k <= lines[y].len(),
        forall|i: int| 0 <= i < k ==> (#[trigger] lines[y][i]) <= x,
        k < lines[y].len() ==> lines[y][k] > x,
    ensures
        image_width(page) == width,
        y < image_height(page),
        image_height(page) == lines.len() || image_height(page) == height,
        image_pixels(page)[y * width + x] == (if (k % 2 == 0) == (photometric != 1) {
            255u8
        } else {
            0u8
        }),
{
    lemma_changes_skip(lines[y], x, k);
    assert(image_pixels(page)[y * width + x] == line_pixel(lines[y], x, paper(photometric)));
}

/// A page with one strip more has the bytes of that strip behind those of the others, as they
/// stand in the file or, where its fill order says so, each with its bits reversed. A page without
/// strips has none.
pub proof fn law_strips_are_joined(
    data: Seq<u8>,
    page: PageFields,
    more: PageFields,
    off: u32,
    count: u32,
    i: int,
)
    requires
        page.strip_offsets.len() == page.strip_byte_counts.len(),
        more == (PageFields {
            strip_offsets: page.strip_offsets.push(off),
            strip_byte_counts: page.strip_byte_counts.push(count),
            ..page
        }),
        off + count <= data.len(),
        0 <= i < count,
    ensures
        page.strip_offsets.len() == 0 ==> page_bytes(data, page).len() == 0,
        page_bytes(data, more).len() == page_bytes(data, page).len() + count,
        page_bytes(data, more).take(page_bytes(data, page).len() as int) == page_bytes(data, page),
        page.fill_order != 2 ==> page_bytes(data, more)[page_bytes(data, page).len() + i]
            == data[off + i],
        page.fill_order == 2 ==> crate::fax::bits::is_bit_reversal(
            data[off + i],
            page_bytes(data, more)[page_bytes(data, page).len() + i],
        ),
{
    let n = strip_count(page);
    lemma_same_lists(data, page, more, n);
    assert(more.strip_offsets[n] == off && more.strip_byte_counts[n] == count);
    let raw = strip_bytes(data, page, n);
    assert(strip_bytes(data, more, n + 1) == raw + data.subrange(off as int, off + count));
    crate::fax::bits::lemma_reversed_byte(data[off + i]);
    assert(page_bytes(data, more).take(raw.len() as int) =~= page_bytes(data, page));
}

proof fn lemma_same_lists(data: Seq<u8>, a: PageFields, b: PageFields, n: int)
    requires
        0 <= n <= a.strip_offsets.len(),
        n <= a.strip_byte_counts.len(),
        n <= b.strip_offsets.len(),
        n <= b.strip_byte_counts.len(),
        forall|i: int| 0 <= i < n ==> a.strip_offsets[i] == #[trigger] b.strip_offsets[i],
        forall|i: int| 0 <= i < n ==> a.strip_byte_counts[i] == #[trigger] b.strip_byte_counts[i],
    ensures
        strip_bytes(data, a, n) == strip_bytes(data, b, n),
    decreases n,
{
    if n > 0 {
        lemma_same_lists(data, a, b, n - 1);
        assert(a.strip_offsets[n - 1] == b.strip_offsets[n - 1]);
        assert(a.strip_byte_counts[n - 1] == b.strip_byte_counts[n - 1]);
    }
}

/// Why a page cannot be read. Where a strip reaches past the end of the file, the first such is named;
/// else a compression that is neither Group 3 nor Group 4 is, by its number.
pub proof fn law_why_a_page_cannot_be_read<T>(
    r: Result<T, FaxError>,
    data: Seq<u8>,
    page: PageFields,
    k: int,
)
    requires
        page_error(r, data, page),
    ensures
        r is Err && r->Err_0 is Tiff,
        0 <= k && k < page.strip_offsets.len() && k < page.strip_byte_counts.len() && (forall|
            j: int,
        |
            0 <= j < k ==> (#[trigger] page.strip_offsets[j]) + page.strip_byte_counts[j]
                <= data.len()) && page.strip_offsets[k] + page.strip_byte_counts[k] > data.len()
            ==> r->Err_0->Tiff_0@ == "TIFF strip extends past file: offset="@ + decimal(
            page.strip_offsets[k] as nat,
        ) + ", count="@ + decimal(page.strip_byte_counts[k] as nat) + ", file_len="@ + decimal(
            data.len(),
        ),
        page.compression != 3 && page.compression != 4 && strips_fit(data, page, strip_count(page))
            ==> r->Err_0->Tiff_0@ == "Unsupported TIFF compression: "@ + decimal(
            page.compression as nat,
        ),
{
    if 0 <= k && k < page.strip_offsets.len() && k < page.strip_byte_counts.len() && (forall|j: int|
        0 <= j < k ==> (#[trigger] page.strip_offsets[j]) + page.strip_byte_counts[j]
            <= data.len()) && page.strip_offsets[k] + page.strip_byte_counts[k] > data.len() {
        assert(!strips_fit(data, page, strip_count(page)));
        let i = choose|i: int| #[trigger]
            first_bad_strip(data, page, i) && is_tiff_error(
                r,
                strip_message(page.strip_offsets[i], page.strip_byte_counts[i], data.len()),
            );
        assert(i == k) by {
            if i < k {
                assert(page.strip_offsets[i] + page.strip_byte_counts[i] <= data.len());
            } else if k < i {
                assert(page.strip_offsets[k] + page.strip_byte_counts[k] <= data.len());
            }
        }
    }
}

} // verus!
