//! Parsing of the image file directories of a TIFF file.

use crate::fax::error::{is_tiff_error, tiff_error, FaxError};
use crate::text::{decimal, decimal_text, join2};
use vstd::prelude::*;

verus! {

/// The sixteen-bit number at `off`, little-endian or big-endian.
pub open spec fn u16_at(data: Seq<u8>, off: int, le: bool) -> u16 {
    if le {
        (data[off] + 256 * data[off + 1]) as u16
    } else {
        (256 * data[off] + data[off + 1]) as u16
    }
}

/// The thirty-two-bit number at `off`, little-endian or big-endian.
pub open spec fn u32_at(data: Seq<u8>, off: int, le: bool) -> u32 {
    if le {
        (data[off] + 0x100 * data[off + 1] + 0x1_0000 * data[off + 2] + 0x100_0000 * data[off
            + 3]) as u32
    } else {
        (0x100_0000 * data[off] + 0x1_0000 * data[off + 1] + 0x100 * data[off + 2] + data[off
            + 3]) as u32
    }
}

/// The size in bytes of one value of a field type.
pub open spec fn item_size(typ: u16) -> int {
    if typ == 1 || typ == 6 {
        1
    } else if typ == 3 || typ == 8 {
        2
    } else {
        4
    }
}

/// The value of a field type at `off`.
pub open spec fn value_at(data: Seq<u8>, off: int, typ: u16, le: bool) -> u32 {
    if item_size(typ) == 1 {
        data[off] as u32
    } else if item_size(typ) == 2 {
        u16_at(data, off, le) as u32
    } else {
        u32_at(data, off, le)
    }
}

/// Where the values of a field start: in the field itself, or where it points.
pub open spec fn array_base(data: Seq<u8>, val_off: int, typ: u16, count: u32, le: bool) -> int {
    if count * item_size(typ) <= 4 {
        val_off
    } else {
        u32_at(data, val_off, le) as int
    }
}

/// The values of a field; one that lies outside the file is zero.
pub open spec fn array_at(data: Seq<u8>, val_off: int, typ: u16, count: u32, le: bool) -> Seq<u32> {
    let base = array_base(data, val_off, typ, count, le);
    Seq::new(
        count as nat,
        |i: int|
            {
                let off = base + i * item_size(typ);
                if off + item_size(typ) <= data.len() {
                    value_at(data, off, typ, le)
                } else {
                    0
                }
            },
    )
}

/// The fraction that a field points to, if it lies in the file and has a denominator.
pub open spec fn rational_at(data: Seq<u8>, val_off: int, le: bool) -> Option<(u32, u32)> {
    let off = u32_at(data, val_off, le);
    if off + 8 > data.len() || u32_at(data, off + 4, le) == 0 {
        None
    } else {
        Some((u32_at(data, off as int, le), u32_at(data, off + 4, le)))
    }
}

/// What a directory says of a page.
pub struct PageFields {
    pub width: u32,
    pub height: u32,
    pub compression: u32,
    pub fill_order: u32,
    pub t4_options: u32,
    pub photometric: u32,
    pub strip_offsets: Seq<u32>,
    pub strip_byte_counts: Seq<u32>,
    pub x_resolution: Option<(u32, u32)>,
    pub y_resolution: Option<(u32, u32)>,
}

/// A page of a TIFF file.
#[derive(Debug)]
pub struct TiffPage {
    pub width: u32,
    pub height: u32,
    pub compression: u32,
    pub fill_order: u32,
    pub t4_options: u32,
    pub photometric: u32,
    pub strip_offsets: Vec<u32>,
    pub strip_byte_counts: Vec<u32>,
    pub x_resolution: Option<(u32, u32)>,
    pub y_resolution: Option<(u32, u32)>,
}

impl View for TiffPage {
    type V = PageFields;

    open spec fn view(&self) -> PageFields {
        PageFields {
            width: self.width,
            height: self.height,
            compression: self.compression,
            fill_order: self.fill_order,
            t4_options: self.t4_options,
            photometric: self.photometric,
            strip_offsets: self.strip_offsets@,
            strip_byte_counts: self.strip_byte_counts@,
            x_resolution: self.x_resolution,
            y_resolution: self.y_resolution,
        }
    }
}

/// A page of which nothing is said.
pub open spec fn blank_page() -> PageFields {
    PageFields {
        width: 0,
        height: 0,
        compression: 1,
        fill_order: 1,
        t4_options: 0,
        photometric: 0,
        strip_offsets: Seq::empty(),
        strip_byte_counts: Seq::empty(),
        x_resolution: None,
        y_resolution: None,
    }
}

/// The page with the directory entry at `off` taken in.
pub open spec fn with_entry(page: PageFields, data: Seq<u8>, off: int, le: bool) -> PageFields {
    let tag = u16_at(data, off, le);
    let typ = u16_at(data, off + 2, le);
    let count = u32_at(data, off + 4, le);
    let at = off + 8;
    if tag == 256 {
        PageFields { width: value_at(data, at, typ, le), ..page }
    } else if tag == 257 {
        PageFields { height: value_at(data, at, typ, le), ..page }
    } else if tag == 259 {
        PageFields { compression: value_at(data, at, typ, le), ..page }
    } else if tag == 262 {
        PageFields { photometric: value_at(data, at, typ, le), ..page }
    } else if tag == 266 {
        PageFields { fill_order: value_at(data, at, typ, le), ..page }
    } else if tag == 273 {
        PageFields { strip_offsets: array_at(data, at, typ, count, le), ..page }
    } else if tag == 279 {
        PageFields { strip_byte_counts: array_at(data, at, typ, count, le), ..page }
    } else if tag == 282 {
        PageFields { x_resolution: rational_at(data, at, le), ..page }
    } else if tag == 283 {
        PageFields { y_resolution: rational_at(data, at, le), ..page }
    } else if tag == 292 {
        PageFields { t4_options: value_at(data, at, typ, le), ..page }
    } else {
        page
    }
}

/// The page that the first `n` entries of the directory at `ifd` describe.
///
/// An entry that does not lie in the file is passed over.
pub open spec fn page_at(data: Seq<u8>, ifd: int, le: bool, n: nat) -> PageFields
    decreases n,
{
    if n == 0 {
        blank_page()
    } else {
        let before = page_at(data, ifd, le, (n - 1) as nat);
        let off = ifd + 2 + (n - 1) * 12;
        if off + 12 > data.len() {
            before
        } else {
            with_entry(before, data, off, le)
        }
    }
}

/// There is a directory at `ifd`.
pub open spec fn has_ifd(data: Seq<u8>, ifd: int) -> bool {
    0 < ifd && ifd + 2 <= data.len()
}

/// Where the directory behind the one at `ifd` stands; zero where there is none.
pub open spec fn next_ifd(data: Seq<u8>, ifd: int, le: bool) -> int {
    let at = ifd + 2 + u16_at(data, ifd, le) * 12;
    if at + 4 > data.len() {
        0
    } else {
        u32_at(data, at, le) as int
    }
}

/// The chain of directories that starts at `ifd` has at most `n` links.
pub open spec fn chain_ends(data: Seq<u8>, ifd: int, le: bool, n: nat) -> bool
    decreases n,
{
    !has_ifd(data, ifd) || (n > 0 && chain_ends(data, next_ifd(data, ifd, le), le, (n - 1) as nat))
}

/// The pages of the first `n` directories of the chain that starts at `ifd`.
pub open spec fn chain_pages(data: Seq<u8>, ifd: int, le: bool, n: nat) -> Seq<PageFields>
    decreases n,
{
    if n == 0 || !has_ifd(data, ifd) {
        Seq::empty()
    } else {
        seq![page_at(data, ifd, le, u16_at(data, ifd, le) as nat)] + chain_pages(
            data,
            next_ifd(data, ifd, le),
            le,
            (n - 1) as nat,
        )
    }
}

/// The byte order that the header announces.
pub open spec fn byte_order(data: Seq<u8>) -> Option<bool> {
    if data[0] == 0x49 && data[1] == 0x49 {
        Some(true)
    } else if data[0] == 0x4D && data[1] == 0x4D {
        Some(false)
    } else {
        None
    }
}

/// The file starts with a TIFF header.
pub open spec fn has_header(data: Seq<u8>) -> bool {
    data.len() >= 8 && byte_order(data) is Some && u16_at(data, 2, byte_order(data)->0) == 42
}

/// Where the first directory stands.
pub open spec fn first_ifd(data: Seq<u8>) -> int {
    u32_at(data, 4, byte_order(data)->0) as int
}

/// The directories of the file, if it is a TIFF file, do not run in a circle.
///
/// A chain that ends has no more links than the file has bytes.
pub open spec fn ifds_end(data: Seq<u8>) -> bool {
    has_header(data) ==> chain_ends(data, first_ifd(data), byte_order(data)->0, data.len())
}

/// The pages of a TIFF file whose chain of directories ends.
pub open spec fn tiff_pages(data: Seq<u8>) -> Seq<PageFields> {
    chain_pages(data, first_ifd(data), byte_order(data)->0, data.len())
}

/// The fields of pages.
pub open spec fn pages_view(pages: Seq<TiffPage>) -> Seq<PageFields> {
    pages.map_values(|p: TiffPage| p@)
}

/// Reads a sixteen-bit number.
pub fn read_u16(data: &[u8], off: usize, le: bool) -> (r: u16)
    requires
        off + 2 <= data@.len(),
    ensures
        r == u16_at(data@, off as int, le),
{
    let a: u16 = data[off] as u16;
    let b: u16 = data[off + 1] as u16;
    if le {
        a + 256 * b
    } else {
        256 * a + b
    }
}

/// Reads a thirty-two-bit number.
pub fn read_u32(data: &[u8], off: usize, le: bool) -> (r: u32)
    requires
        off + 4 <= data@.len(),
    ensures
        r == u32_at(data@, off as int, le),
{
    let a: u32 = data[off] as u32;
    let b: u32 = data[off + 1] as u32;
    let c: u32 = data[off + 2] as u32;
    let d: u32 = data[off + 3] as u32;
    if le {
        a + 0x100 * b + 0x1_0000 * c + 0x100_0000 * d
    } else {
        0x100_0000 * a + 0x1_0000 * b + 0x100 * c + d
    }
}

/// Reads a single value of a field type.
pub fn read_ifd_value(data: &[u8], val_off: usize, typ: u16, le: bool) -> (r: u32)
    requires
        val_off + 4 <= data@.len(),
    ensures
        r == value_at(data@, val_off as int, typ, le),
{
    match typ {
        1 | 6 => data[val_off] as u32,
        3 | 8 => read_u16(data, val_off, le) as u32,
        _ => read_u32(data, val_off, le),
    }
}

/// Reads the values of a field.
pub fn read_ifd_array(data: &[u8], val_off: usize, typ: u16, count: u32, le: bool) -> (r: Vec<u32>)
    requires
        val_off + 4 <= data@.len(),
    ensures
        r@ == array_at(data@, val_off as int, typ, count, le),
{
    let size: u64 = match typ {
        1 | 6 => 1,
        3 | 8 => 2,
        _ => 4,
    };
    let total_bytes: u64 = count as u64 * size;
    let base: u64 = if total_bytes <= 4 {
        val_off as u64
    } else {
        read_u32(data, val_off, le) as u64
    };
    let len: u64 = data.len() as u64;
    let mut r: Vec<u32> = Vec::new();
    let mut i: u32 = 0;
    while i < count
        invariant
            i <= count,
            size == item_size(typ),
            1 <= size <= 4,
            base == array_base(data@, val_off as int, typ, count, le),
            base <= len || base <= u32::MAX,
            len == data@.len(),
            len == data.len(),
            r@ =~= array_at(data@, val_off as int, typ, count, le).take(i as int),
        decreases count - i,
    {
        assert(i * size <= 0x4_0000_0000) by (nonlinear_arith)
            requires
                i <= 0xffff_ffff,
                size <= 4,
        ;
        let step: u64 = i as u64 * size;
        let v: u32 = if len < size || step > len - size || base > len - size - step {
            0
        } else {
            let off: usize = (base + step) as usize;
            match typ {
                1 | 6 => data[off] as u32,
                3 | 8 => read_u16(data, off, le) as u32,
                _ => read_u32(data, off, le),
            }
        };
        r.push(v);
        i = i + 1;
    }
    r
}

/// Reads the fraction that a field points to.
pub fn read_ifd_rational(data: &[u8], val_off: usize, le: bool) -> (r: Option<(u32, u32)>)
    requires
        val_off + 4 <= data@.len(),
    ensures
        r == rational_at(data@, val_off as int, le),
{
    let offset: u32 = read_u32(data, val_off, le);
    if offset as u64 + 8 > data.len() as u64 {
        return None;
    }
    let numerator: u32 = read_u32(data, offset as usize, le);
    let denominator: u32 = read_u32(data, offset as usize + 4, le);
    if denominator == 0 {
        return None;
    }
    Some((numerator, denominator))
}

/// Takes the directory entry at `entry_off` into a page.
fn take_entry(page: &mut TiffPage, data: &[u8], entry_off: usize, le: bool)
    requires
        entry_off + 12 <= data@.len(),
    ensures
        final(page)@ == with_entry(old(page)@, data@, entry_off as int, le),
{
    assert(entry_off + 12 <= data.len());
    let tag: u16 = read_u16(data, entry_off, le);
    let typ: u16 = read_u16(data, entry_off + 2, le);
    let count: u32 = read_u32(data, entry_off + 4, le);
    let val_off: usize = entry_off + 8;
    match tag {
        256 => {
            page.width = read_ifd_value(data, val_off, typ, le);
        },
        257 => {
            page.height = read_ifd_value(data, val_off, typ, le);
        },
        259 => {
            page.compression = read_ifd_value(data, val_off, typ, le);
        },
        262 => {
            page.photometric = read_ifd_value(data, val_off, typ, le);
        },
        266 => {
            page.fill_order = read_ifd_value(data, val_off, typ, le);
        },
        273 => {
            page.strip_offsets = read_ifd_array(data, val_off, typ, count, le);
        },
        279 => {
            page.strip_byte_counts = read_ifd_array(data, val_off, typ, count, le);
        },
        282 => {
            page.x_resolution = read_ifd_rational(data, val_off, le);
        },
        283 => {
            page.y_resolution = read_ifd_rational(data, val_off, le);
        },
        292 => {
            page.t4_options = read_ifd_value(data, val_off, typ, le);
        },
        _ => {},
    }
}

/// Behind an entry that does not lie in the file no other one does.
proof fn lemma_entries_end(data: Seq<u8>, ifd: int, le: bool, n: nat, m: nat)
    requires
        n <= m,
        ifd + 2 + n * 12 + 12 > data.len(),
    ensures
        page_at(data, ifd, le, m) == page_at(data, ifd, le, n),
    decreases m,
{
    if m > n {
        lemma_entries_end(data, ifd, le, n, (m - 1) as nat);
    }
}

/// Reads the directory at `ifd`.
fn read_page(data: &[u8], ifd: usize, le: bool) -> (page: TiffPage)
    requires
        has_ifd(data@, ifd as int),
    ensures
        page@ == page_at(data@, ifd as int, le, u16_at(data@, ifd as int, le) as nat),
{
    assert(ifd + 2 <= data.len());
    let num_entries: u16 = read_u16(data, ifd, le);
    let mut page: TiffPage = TiffPage {
        width: 0,
        height: 0,
        compression: 1,
        fill_order: 1,
        t4_options: 0,
        photometric: 0,
        strip_offsets: Vec::new(),
        strip_byte_counts: Vec::new(),
        x_resolution: None,
        y_resolution: None,
    };
    let mut i: u16 = 0;
    let mut entry_off: usize = ifd + 2;
    proof {
        assert(page.strip_offsets@ =~= Seq::<u32>::empty());
        assert(page.strip_byte_counts@ =~= Seq::<u32>::empty());
        assert(page@ == blank_page());
    }
    while i < num_entries
        invariant
            i <= num_entries,
            num_entries == u16_at(data@, ifd as int, le),
            entry_off == ifd + 2 + i * 12,
            entry_off <= data.len(),
            page@ == page_at(data@, ifd as int, le, i as nat),
        decreases num_entries - i,
    {
        if data.len() - entry_off < 12 {
            proof {
                lemma_entries_end(data@, ifd as int, le, i as nat, num_entries as nat);
            }
            return page;
        }
        take_entry(&mut page, data, entry_off, le);
        entry_off = entry_off + 12;
        i = i + 1;
    }
    page
}

/// Reads where the directory behind the one at `ifd` stands.
fn read_next_ifd(data: &[u8], ifd: usize, le: bool) -> (r: u32)
    requires
        has_ifd(data@, ifd as int),
    ensures
        r == next_ifd(data@, ifd as int, le),
{
    let num_entries: u16 = read_u16(data, ifd, le);
    let skip: usize = 2 + num_entries as usize * 12 + 4;
    if data.len() - ifd < skip {
        return 0;
    }
    read_u32(data, ifd + skip - 4, le)
}

/// Whether there is a directory at an offset.
fn ifd_present(data: &[u8], ifd: u32) -> (r: bool)
    ensures
        r == has_ifd(data@, ifd as int),
{
    ifd != 0 && ifd as u64 + 2 <= data.len() as u64
}

/// Reads the header: the byte order, and where the first directory stands.
fn read_header(data: &[u8]) -> (r: Result<(bool, u32), FaxError>)
    ensures
        r is Ok <==> has_header(data@),
        r is Ok ==> (r->Ok_0).0 == byte_order(data@)->0 && (r->Ok_0).1 == first_ifd(data@),
        data@.len() < 8 ==> is_tiff_error(r, "TIFF file too short"@),
        data@.len() >= 8 && byte_order(data@) is None ==> is_tiff_error(r, "Not a TIFF file"@),
        data@.len() >= 8 && byte_order(data@) is Some && !has_header(data@) ==> is_tiff_error(
            r,
            "Bad TIFF magic: "@ + decimal(u16_at(data@, 2, byte_order(data@)->0) as nat),
        ),
{
    if data.len() < 8 {
        return Err(tiff_error("TIFF file too short"));
    }
    let le: bool = if data[0] == 0x49 && data[1] == 0x49 {
        true
    } else if data[0] == 0x4D && data[1] == 0x4D {
        false
    } else {
        return Err(tiff_error("Not a TIFF file"));
    };
    let magic: u16 = read_u16(data, 2, le);
    if magic != 42 {
        return Err(
            tiff_error(join2("Bad TIFF magic: ", decimal_text(magic as u64).as_str()).as_str()),
        );
    }
    Ok((le, read_u32(data, 4, le)))
}

/// Whether the chain of directories ends, so that the pages can be listed.
pub fn ifd_chain_ends(data: &[u8]) -> (r: bool)
    ensures
        r == ifds_end(data@),
{
    match read_header(data) {
        Err(_) => true,
        Ok((le, first)) => {
            let mut ifd: u32 = first;
            let mut left: usize = data.len();
            while ifd_present(data, ifd)
                invariant
                    has_header(data@),
                    le == byte_order(data@)->0,
                    ifds_end(data@) == chain_ends(data@, ifd as int, le, left as nat),
                decreases left,
            {
                if left == 0 {
                    return false;
                }
                left = left - 1;
                ifd = read_next_ifd(data, ifd as usize, le);
            }
            true
        },
    }
}

/// Reads the pages of a TIFF file.
pub fn parse_tiff_ifds(data: &[u8]) -> (r: Result<Vec<TiffPage>, FaxError>)
    requires
        ifds_end(data@),
    ensures
        r is Ok <==> has_header(data@) && tiff_pages(data@).len() > 0,
        r is Ok ==> pages_view((r->Ok_0)@) == tiff_pages(data@),
        data@.len() < 8 ==> is_tiff_error(r, "TIFF file too short"@),
        data@.len() >= 8 && byte_order(data@) is None ==> is_tiff_error(r, "Not a TIFF file"@),
        data@.len() >= 8 && byte_order(data@) is Some && !has_header(data@) ==> is_tiff_error(
            r,
            "Bad TIFF magic: "@ + decimal(u16_at(data@, 2, byte_order(data@)->0) as nat),
        ),
        has_header(data@) && tiff_pages(data@).len() == 0 ==> is_tiff_error(
            r,
            "No IFDs found in TIFF"@,
        ),
{
    let (le, first) = match read_header(data) {
        Ok(h) => h,
        Err(e) => {
            return Err(e);
        },
    };
    let mut ifd: u32 = first;
    let mut pages: Vec<TiffPage> = Vec::new();
    let ghost mut left: nat = data@.len();
    proof {
        assert(pages_view(pages@) + tiff_pages(data@) =~= tiff_pages(data@));
    }
    while ifd_present(data, ifd)
        invariant
            has_header(data@),
            le == byte_order(data@)->0,
            chain_ends(data@, ifd as int, le, left),
            tiff_pages(data@) == pages_view(pages@) + chain_pages(data@, ifd as int, le, left),
        decreases left,
    {
        let ghost seen = pages_view(pages@);
        let page: TiffPage = read_page(data, ifd as usize, le);
        let ghost fields = page@;
        pages.push(page);
        ifd = read_next_ifd(data, ifd as usize, le);
        proof {
            left = (left - 1) as nat;
            assert(pages_view(pages@) =~= seen.push(fields));
            assert(tiff_pages(data@) =~= pages_view(pages@) + chain_pages(
                data@,
                ifd as int,
                le,
                left,
            ));
        }
    }
    proof {
        assert(tiff_pages(data@) =~= pages_view(pages@));
        assert(pages_view(pages@).len() == pages@.len());
    }
    if pages.is_empty() {
        return Err(tiff_error("No IFDs found in TIFF"));
    }
    Ok(pages)
}

/// The number of directories of a chain with at most `m` links.
spec fn chain_length(data: Seq<u8>, ifd: int, le: bool, m: nat) -> nat
    decreases m,
{
    if m == 0 || !has_ifd(data, ifd) {
        0
    } else {
        1 + chain_length(data, next_ifd(data, ifd, le), le, (m - 1) as nat)
    }
}

/// The chain that starts at `ifd` comes to a directory at `x`.
spec fn on_chain(data: Seq<u8>, ifd: int, le: bool, x: int, m: nat) -> bool
    decreases m,
{
    has_ifd(data, ifd) && (ifd == x || (m > 0 && on_chain(
        data,
        next_ifd(data, ifd, le),
        le,
        x,
        (m - 1) as nat,
    )))
}

proof fn lemma_longer_chain(data: Seq<u8>, ifd: int, le: bool, m: nat, n: nat)
    requires
        m <= n,
        chain_ends(data, ifd, le, m),
    ensures
        chain_ends(data, ifd, le, n),
        chain_length(data, ifd, le, n) == chain_length(data, ifd, le, m),
    decreases m,
{
    if has_ifd(data, ifd) {
        lemma_longer_chain(data, next_ifd(data, ifd, le), le, (m - 1) as nat, (n - 1) as nat);
    }
}

proof fn lemma_later_is_shorter(data: Seq<u8>, ifd: int, le: bool, x: int, m: nat)
    requires
        chain_ends(data, ifd, le, m),
        on_chain(data, ifd, le, x, m),
    ensures
        chain_ends(data, x, le, m),
        chain_length(data, x, le, m) <= chain_length(data, ifd, le, m),
    decreases m,
{
    if ifd != x {
        let next = next_ifd(data, ifd, le);
        lemma_later_is_shorter(data, next, le, x, (m - 1) as nat);
        lemma_longer_chain(data, x, le, (m - 1) as nat, m);
    }
}

proof fn lemma_chain_bound(data: Seq<u8>, ifd: int, le: bool, m: nat, visited: Set<int>)
    requires
        chain_ends(data, ifd, le, m),
        visited.finite(),
        forall|x: int| visited.contains(x) ==> 0 <= x < data.len(),
        forall|x: int| visited.contains(x) ==> !on_chain(data, ifd, le, x, m),
    ensures
        visited.len() <= data.len(),
        chain_ends(data, ifd, le, (data.len() - visited.len()) as nat),
    decreases m,
{
    let all = vstd::set_lib::set_int_range(0, data.len() as int);
    vstd::set_lib::lemma_int_range(0, data.len() as int);
    assert(visited.subset_of(all));
    vstd::set_lib::lemma_len_subset(visited, all);
    if has_ifd(data, ifd) {
        let next = next_ifd(data, ifd, le);
        let more = visited.insert(ifd);
        assert(!visited.contains(ifd)) by {
            if visited.contains(ifd) {
                assert(on_chain(data, ifd, le, ifd, m));
            }
        }
        assert forall|x: int| more.contains(x) implies !on_chain(
            data,
            next,
            le,
            x,
            (m - 1) as nat,
        ) by {
            if on_chain(data, next, le, x, (m - 1) as nat) {
                if x == ifd {
                    lemma_later_is_shorter(data, next, le, ifd, (m - 1) as nat);
                    lemma_longer_chain(data, ifd, le, (m - 1) as nat, m);
                } else {
                    assert(on_chain(data, ifd, le, x, m));
                }
            }
        }
        lemma_chain_bound(data, next, le, (m - 1) as nat, more);
    }
}

/// A chain of directories that ends at all ends within as many links as the file has bytes.
pub proof fn law_chain_is_no_longer_than_the_file(data: Seq<u8>, ifd: int, le: bool, m: nat)
    requires
        chain_ends(data, ifd, le, m),
    ensures
        chain_ends(data, ifd, le, data.len()),
{
    lemma_chain_bound(data, ifd, le, m, Set::empty());
}

proof fn lemma_bytes_of(a: int, b: int, c: int, d: int)
    requires
        0 <= a < 256,
        0 <= b < 256,
        0 <= c < 256,
        0 <= d < 256,
    ensures
        ({
            let v = a + 0x100 * b + 0x1_0000 * c + 0x100_0000 * d;
            &&& 0 <= v <= 0xffff_ffff
            &&& v % 256 == a
            &&& (v / 256) % 256 == b
            &&& (v / 65536) % 256 == c
            &&& v / 16777216 == d
        }),
{
    let v = a + 0x100 * b + 0x1_0000 * c + 0x100_0000 * d;
    assert(v / 256 == b + 0x100 * c + 0x1_0000 * d);
    assert(v / 65536 == c + 0x100 * d);
    assert(v / 16777216 == d);
}

/// The bytes of a number stand in the file from its least significant byte on where it is
/// little-endian, and up to it where it is big-endian.
pub proof fn law_numbers_have_their_bytes(data: Seq<u8>, off: int)
    requires
        0 <= off,
        off + 4 <= data.len(),
    ensures
        ({
            let le = u32_at(data, off, true) as int;
            let be = u32_at(data, off, false) as int;
            &&& data[off] == le % 256 && data[off] == be / 16777216
            &&& data[off + 1] == (le / 256) % 256 && data[off + 1] == (be / 65536) % 256
            &&& data[off + 2] == (le / 65536) % 256 && data[off + 2] == (be / 256) % 256
            &&& data[off + 3] == le / 16777216 && data[off + 3] == be % 256
        }),
        ({
            let le = u16_at(data, off, true) as int;
            let be = u16_at(data, off, false) as int;
            &&& data[off] == le % 256 && data[off] == be / 256
            &&& data[off + 1] == le / 256 && data[off + 1] == be % 256
        }),
{
    let a = data[off] as int;
    let b = data[off + 1] as int;
    let c = data[off + 2] as int;
    let d = data[off + 3] as int;
    lemma_bytes_of(a, b, c, d);
    lemma_bytes_of(d, c, b, a);
}

/// Entry `k` of the directory at `ifd` lies in the file and has the tag.
pub open spec fn entry_has_tag(data: Seq<u8>, ifd: int, le: bool, k: int, tag: int) -> bool {
    ifd + 2 + k * 12 + 12 <= data.len() && u16_at(data, ifd + 2 + k * 12, le) == tag
}

/// Entry `k` is the last of the first `n` that has the tag.
pub open spec fn last_of_tag(data: Seq<u8>, ifd: int, le: bool, n: nat, k: int, tag: int) -> bool {
    &&& 0 <= k < n
    &&& entry_has_tag(data, ifd, le, k, tag)
    &&& forall|j: int| k < j < n ==> !#[trigger] entry_has_tag(data, ifd, le, j, tag)
}

/// None of the first `n` entries has the tag.
pub open spec fn tag_is_missing(data: Seq<u8>, ifd: int, le: bool, n: nat, tag: int) -> bool {
    forall|j: int| 0 <= j < n ==> !#[trigger] entry_has_tag(data, ifd, le, j, tag)
}

/// The value of entry `k`, one byte, two or four long as its type says.
pub open spec fn entry_value(data: Seq<u8>, ifd: int, le: bool, k: int) -> u32 {
    let typ = u16_at(data, ifd + 2 + k * 12 + 2, le);
    let at = ifd + 2 + k * 12 + 8;
    if typ == 1 || typ == 6 {
        data[at] as u32
    } else if typ == 3 || typ == 8 {
        u16_at(data, at, le) as u32
    } else {
        u32_at(data, at, le)
    }
}

/// The last entry of a tag decides the field that it stands for, wherever it stands among the
/// others; without one the field has its default.
pub proof fn law_the_last_entry_of_a_tag_decides(data: Seq<u8>, ifd: int, le: bool, n: nat, k: int)
    ensures
        ({
            let p = page_at(data, ifd, le, n);
            let v = entry_value(data, ifd, le, k);
            let at = ifd + 2 + k * 12 + 8;
            let typ = u16_at(data, ifd + 2 + k * 12 + 2, le);
            let count = u32_at(data, ifd + 2 + k * 12 + 4, le);
            &&& last_of_tag(data, ifd, le, n, k, 256) ==> p.width == v
            &&& last_of_tag(data, ifd, le, n, k, 257) ==> p.height == v
            &&& last_of_tag(data, ifd, le, n, k, 259) ==> p.compression == v
            &&& last_of_tag(data, ifd, le, n, k, 262) ==> p.photometric == v
            &&& last_of_tag(data, ifd, le, n, k, 266) ==> p.fill_order == v
            &&& last_of_tag(data, ifd, le, n, k, 292) ==> p.t4_options == v
            &&& last_of_tag(data, ifd, le, n, k, 273) ==> p.strip_offsets == array_at(
                data,
                at,
                typ,
                count,
                le,
            )
            &&& last_of_tag(data, ifd, le, n, k, 279) ==> p.strip_byte_counts == array_at(
                data,
                at,
                typ,
                count,
                le,
            )
            &&& last_of_tag(data, ifd, le, n, k, 282) ==> p.x_resolution == rational_at(
                data,
                at,
                le,
            )
            &&& last_of_tag(data, ifd, le, n, k, 283) ==> p.y_resolution == rational_at(
                data,
                at,
                le,
            )
            &&& tag_is_missing(data, ifd, le, n, 256) ==> p.width == 0
            &&& tag_is_missing(data, ifd, le, n, 257) ==> p.height == 0
            &&& tag_is_missing(data, ifd, le, n, 259) ==> p.compression == 1
            &&& tag_is_missing(data, ifd, le, n, 262) ==> p.photometric == 0
            &&& tag_is_missing(data, ifd, le, n, 266) ==> p.fill_order == 1
            &&& tag_is_missing(data, ifd, le, n, 292) ==> p.t4_options == 0
            &&& tag_is_missing(data, ifd, le, n, 273) ==> p.strip_offsets.len() == 0
            &&& tag_is_missing(data, ifd, le, n, 279) ==> p.strip_byte_counts.len() == 0
            &&& tag_is_missing(data, ifd, le, n, 282) ==> p.x_resolution is None
            &&& tag_is_missing(data, ifd, le, n, 283) ==> p.y_resolution is None
        }),
    decreases n,
{
    if n > 0 {
        let m = (n - 1) as nat;
        law_the_last_entry_of_a_tag_decides(data, ifd, le, m, k);
        lemma_one_entry_more(data, ifd, le, n, k, 256);
        lemma_one_entry_more(data, ifd, le, n, k, 257);
        lemma_one_entry_more(data, ifd, le, n, k, 259);
        lemma_one_entry_more(data, ifd, le, n, k, 262);
        lemma_one_entry_more(data, ifd, le, n, k, 266);
        lemma_one_entry_more(data, ifd, le, n, k, 273);
        lemma_one_entry_more(data, ifd, le, n, k, 279);
        lemma_one_entry_more(data, ifd, le, n, k, 282);
        lemma_one_entry_more(data, ifd, le, n, k, 283);
        lemma_one_entry_more(data, ifd, le, n, k, 292);
    }
}

proof fn lemma_one_entry_more(data: Seq<u8>, ifd: int, le: bool, n: nat, k: int, tag: int)
    requires
        n > 0,
    ensures
        last_of_tag(data, ifd, le, n, k, tag) ==> k == n - 1 && entry_has_tag(
            data,
            ifd,
            le,
            n - 1,
            tag,
        ) || last_of_tag(data, ifd, le, (n - 1) as nat, k, tag) && !entry_has_tag(
            data,
            ifd,
            le,
            n - 1,
            tag,
        ),
        tag_is_missing(data, ifd, le, n, tag) ==> tag_is_missing(
            data,
            ifd,
            le,
            (n - 1) as nat,
            tag,
        ) && !entry_has_tag(data, ifd, le, n - 1, tag),
{
}

/// Values that fit in the four bytes of an entry stand there, and others where the entry points,
/// one behind the other.
pub proof fn law_values_stand_one_behind_the_other(
    data: Seq<u8>,
    at: int,
    typ: u16,
    count: u32,
    le: bool,
    i: int,
)
    requires
        0 <= i < count,
    ensures
        array_at(data, at, typ, count, le).len() == count,
        ({
            let size: int = if typ == 1 || typ == 6 {
                1
            } else if typ == 3 || typ == 8 {
                2
            } else {
                4
            };
            let off = (if count * size <= 4 {
                at
            } else {
                u32_at(data, at, le) as int
            }) + i * size;
            let v = array_at(data, at, typ, count, le)[i];
            &&& off + size > data.len() ==> v == 0
            &&& off + size <= data.len() && size == 1 ==> v == data[off]
            &&& off + size <= data.len() && size == 2 ==> v == u16_at(data, off, le)
            &&& off + size <= data.len() && size == 4 ==> v == u32_at(data, off, le)
        }),
{
}

/// A file has one page for each directory of its chain: that of the first, and behind it those
/// that the file would have if its chain began at the second.
pub proof fn law_each_directory_is_a_page(data: Seq<u8>, ifd: int, le: bool, n: nat)
    requires
        0 < ifd,
        ifd + 2 <= data.len(),
        n > 0,
    ensures
        ({
            let entries = u16_at(data, ifd, le);
            let link = ifd + 2 + entries * 12;
            let next: int = if link + 4 <= data.len() {
                u32_at(data, link, le) as int
            } else {
                0
            };
            let pages = chain_pages(data, ifd, le, n);
            &&& pages.len() == 1 + chain_pages(data, next, le, (n - 1) as nat).len()
            &&& pages[0] == page_at(data, ifd, le, entries as nat)
            &&& pages.subrange(1, pages.len() as int) == chain_pages(
                data,
                next,
                le,
                (n - 1) as nat,
            )
        }),
        chain_pages(data, 0, le, n).len() == 0,
{
    let pages = chain_pages(data, ifd, le, n);
    let next = next_ifd(data, ifd, le);
    assert(pages.subrange(1, pages.len() as int) =~= chain_pages(data, next, le, (n - 1) as nat));
}

} // verus!
