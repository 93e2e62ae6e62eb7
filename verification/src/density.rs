//! Pixel density recorded in an image file: the `pHYs` chunk of a PNG and
//! the JFIF `APP0` segment of a JPEG. Both scans stop at the first pixel
//! data, so only the header of the file matters.
use vstd::prelude::*;

verus! {

/// Pixel density as the file records it.
#[derive(Clone, Copy, PartialEq, Eq, Debug, Structural)]
pub enum Density {
    /// PNG `pHYs` with unit 1: pixels per metre along x, then y.
    PerMeter(u32, u32),
    /// JFIF unit 1: dots per inch along x, then y.
    PerInch(u16, u16),
    /// JFIF unit 2: dots per centimetre along x, then y.
    PerCentimeter(u16, u16),
}

/// Big-endian value of four bytes.
pub open spec fn be32(b0: u8, b1: u8, b2: u8, b3: u8) -> nat {
    (b0 as nat * 16777216 + b1 as nat * 65536 + b2 as nat * 256 + b3 as nat) as nat
}

/// Big-endian value of two bytes.
pub open spec fn be16(b0: u8, b1: u8) -> nat {
    (b0 as nat * 256 + b1 as nat) as nat
}

fn read_be32(b0: u8, b1: u8, b2: u8, b3: u8) -> (v: u32)
    ensures
        v == be32(b0, b1, b2, b3),
{
    (b0 as u32) * 16777216 + (b1 as u32) * 65536 + (b2 as u32) * 256 + (b3 as u32)
}

fn read_be16(b0: u8, b1: u8) -> (v: u16)
    ensures
        v == be16(b0, b1),
{
    (b0 as u16) * 256 + (b1 as u16)
}

/// Four bytes of `d` at `pos` spell the chunk type `t0 t1 t2 t3`.
pub open spec fn tag_at(d: Seq<u8>, pos: int, t0: u8, t1: u8, t2: u8, t3: u8) -> bool {
    d[pos] == t0 && d[pos + 1] == t1 && d[pos + 2] == t2 && d[pos + 3] == t3
}

/// Walk of the PNG chunks from offset `pos`: each chunk is a 4-byte length,
/// a 4-byte type and the body, followed by a 4-byte checksum. A `pHYs` chunk
/// of at least 9 bytes gives the density when its unit byte is 1 (metre) and
/// nothing otherwise; `IDAT`, `IEND`, a truncated chunk or the end of the
/// data give nothing.
pub open spec fn png_scan(d: Seq<u8>, pos: int) -> Option<Density>
    decreases d.len() - pos,
{
    if pos < 0 || pos + 8 > d.len() {
        None
    } else {
        let len = be32(d[pos], d[pos + 1], d[pos + 2], d[pos + 3]) as int;
        let body = pos + 8;
        if body + len > d.len() {
            None
        } else if tag_at(d, pos + 4, 0x70, 0x48, 0x59, 0x73) && len >= 9 {
            if d[body + 8] == 1 {
                Some(
                    Density::PerMeter(
                        be32(d[body], d[body + 1], d[body + 2], d[body + 3]) as u32,
                        be32(d[body + 4], d[body + 5], d[body + 6], d[body + 7]) as u32,
                    ),
                )
            } else {
                None
            }
        } else if tag_at(d, pos + 4, 0x49, 0x44, 0x41, 0x54) || tag_at(
            d,
            pos + 4,
            0x49,
            0x45,
            0x4E,
            0x44,
        ) {
            None
        } else if body + len + 4 > d.len() {
            None
        } else {
            png_scan(d, body + len + 4)
        }
    }
}

/// The density a PNG file records: the chunk walk after the 8-byte signature.
pub open spec fn png_density(d: Seq<u8>) -> Option<Density> {
    png_scan(d, 8)
}

/// A marker that stands alone, without a length: SOI, RST0 to RST7 and TEM.
pub open spec fn standalone_marker(m: u8) -> bool {
    m == 0xD8 || (0xD0 <= m && m <= 0xD7) || m == 0x01
}

/// Walk of the JPEG segments from offset `pos`: each starts with `0xFF` and a
/// marker byte; markers that stand alone are skipped, start of scan or end of
/// image stop the walk, and any other marker has a 2-byte length that counts
/// itself. A JFIF `APP0` segment of at least 12 bytes gives the density in
/// its unit (1 inch, 2 centimetre; anything else gives nothing).
pub open spec fn jpeg_scan(d: Seq<u8>, pos: int) -> Option<Density>
    decreases d.len() - pos,
{
    if pos < 0 || pos + 4 > d.len() {
        None
    } else if d[pos] != 0xFF {
        None
    } else if standalone_marker(d[pos + 1]) {
        jpeg_scan(d, pos + 2)
    } else if d[pos + 1] == 0xDA || d[pos + 1] == 0xD9 {
        None
    } else {
        let len = be16(d[pos + 2], d[pos + 3]) as int;
        let s = pos + 4;
        if len < 2 || pos + 2 + len > d.len() {
            None
        } else if d[pos + 1] == 0xE0 && len - 2 >= 12 && tag_at(d, s, 0x4A, 0x46, 0x49, 0x46)
            && d[s + 4] == 0 {
            let x = be16(d[s + 8], d[s + 9]) as u16;
            let y = be16(d[s + 10], d[s + 11]) as u16;
            if d[s + 7] == 1 {
                Some(Density::PerInch(x, y))
            } else if d[s + 7] == 2 {
                Some(Density::PerCentimeter(x, y))
            } else {
                None
            }
        } else {
            jpeg_scan(d, pos + 2 + len)
        }
    }
}

/// The density a JPEG file records: the segment walk after the SOI marker.
pub open spec fn jpeg_density(d: Seq<u8>) -> Option<Density> {
    jpeg_scan(d, 2)
}

/// The data opens with the PNG signature prefix `0x89 P N G`.
pub open spec fn is_png(d: Seq<u8>) -> bool {
    d.len() >= 4 && d[0] == 0x89 && d[1] == 0x50 && d[2] == 0x4E && d[3] == 0x47
}

/// The data opens with the JPEG start-of-image marker.
pub open spec fn is_jpeg(d: Seq<u8>) -> bool {
    d.len() >= 2 && d[0] == 0xFF && d[1] == 0xD8
}

/// The density a file records, by its signature.
pub open spec fn file_density(d: Seq<u8>) -> Option<Density> {
    if is_png(d) {
        png_density(d)
    } else if is_jpeg(d) {
        jpeg_density(d)
    } else {
        None
    }
}

/// Density from the `pHYs` chunk of a PNG file.
pub fn png_dpi(data: &[u8]) -> (r: Option<Density>)
    ensures
        r == png_density(data@),
{
    let ghost d = data@;
    let n = data.len();
    let mut pos: usize = 8;
    while pos <= n && n - pos >= 8
        invariant
            n == d.len(),
            d == data@,
            8 <= pos,
            png_scan(d, pos as int) == png_density(d),
        decreases n - pos,
    {
        let len = read_be32(data[pos], data[pos + 1], data[pos + 2], data[pos + 3]) as usize;
        if len > n - pos - 8 {
            return None;
        }
        let body = pos + 8;
        if data[pos + 4] == 0x70 && data[pos + 5] == 0x48 && data[pos + 6] == 0x59 && data[pos
            + 7] == 0x73 && len >= 9 {
            if data[body + 8] == 1 {
                let x = read_be32(data[body], data[body + 1], data[body + 2], data[body + 3]);
                let y = read_be32(data[body + 4], data[body + 5], data[body + 6], data[body + 7]);
                return Some(Density::PerMeter(x, y));
            }
            return None;
        }
        if data[pos + 4] == 0x49 && ((data[pos + 5] == 0x44 && data[pos + 6] == 0x41 && data[pos
            + 7] == 0x54) || (data[pos + 5] == 0x45 && data[pos + 6] == 0x4E && data[pos + 7]
            == 0x44)) {
            return None;
        }
        let next = body + len;
        if n - next < 4 {
            return None;
        }
        pos = next + 4;
    }
    None
}

/// Density from the JFIF `APP0` segment of a JPEG file.
pub fn jpeg_dpi(data: &[u8]) -> (r: Option<Density>)
    ensures
        r == jpeg_density(data@),
{
    let ghost d = data@;
    let n = data.len();
    let mut pos: usize = 2;
    while pos <= n && n - pos >= 4
        invariant
            n == d.len(),
            d == data@,
            2 <= pos,
            jpeg_scan(d, pos as int) == jpeg_density(d),
        decreases n - pos,
    {
        if data[pos] != 0xFF {
            return None;
        }
        let marker = data[pos + 1];
        if marker == 0xD8 || (0xD0 <= marker && marker <= 0xD7) || marker == 0x01 {
            pos = pos + 2;
            continue;
        }
        if marker == 0xDA || marker == 0xD9 {
            return None;
        }
        let len = read_be16(data[pos + 2], data[pos + 3]) as usize;
        if len < 2 || len > n - pos - 2 {
            return None;
        }
        let s = pos + 4;
        if marker == 0xE0 && len - 2 >= 12 && data[s] == 0x4A && data[s + 1] == 0x46 && data[s
            + 2] == 0x49 && data[s + 3] == 0x46 && data[s + 4] == 0 {
            let x = read_be16(data[s + 8], data[s + 9]);
            let y = read_be16(data[s + 10], data[s + 11]);
            let units = data[s + 7];
            if units == 1 {
                return Some(Density::PerInch(x, y));
            } else if units == 2 {
                return Some(Density::PerCentimeter(x, y));
            } else {
                return None;
            }
        }
        pos = pos + 2 + len;
    }
    None
}

/// Density recorded in an image file: PNG by its signature, JPEG by its
/// start-of-image marker; any other data records none.
pub fn read_dpi(data: &[u8]) -> (r: Option<Density>)
    ensures
        r == file_density(data@),
{
    if data.len() >= 4 && data[0] == 0x89 && data[1] == 0x50 && data[2] == 0x4E && data[3]
        == 0x47 {
        png_dpi(data)
    } else if data.len() >= 2 && data[0] == 0xFF && data[1] == 0xD8 {
        jpeg_dpi(data)
    } else {
        None
    }
}

/// `v / scale` lies within half a unit of 72 or of 96: the screen densities
/// that cameras and phones record, which say nothing about print size.
pub open spec fn near_screen_dpi(v: int, scale: int) -> bool {
    let d72 = v - 72 * scale;
    let d96 = v - 96 * scale;
    (-scale < 2 * d72 && 2 * d72 < scale) || (-scale < 2 * d96 && 2 * d96 < scale)
}

/// A density that tells the print size of a photo: positive along both
/// axes and, in dots per inch (a metre is 10000/254 inches, a centimetre
/// 100/254), not a screen density.
pub open spec fn tells_print_size(d: Density) -> bool {
    match d {
        Density::PerMeter(x, y) => x > 0 && y > 0 && !near_screen_dpi(x * 254, 10000)
            && !near_screen_dpi(y * 254, 10000),
        Density::PerInch(x, y) => x > 0 && y > 0 && !near_screen_dpi(x as int, 1)
            && !near_screen_dpi(y as int, 1),
        Density::PerCentimeter(x, y) => x > 0 && y > 0 && !near_screen_dpi(x * 254, 100)
            && !near_screen_dpi(y * 254, 100),
    }
}

fn near_screen(v: u64, scale: u64) -> (b: bool)
    requires
        v <= 0xffff_ffff * 254,
        1 <= scale <= 10000,
    ensures
        b == near_screen_dpi(v as int, scale as int),
{
    let a = 72 * scale;
    let c = 96 * scale;
    let near72 = if v >= a {
        2 * (v - a) < scale
    } else {
        2 * (a - v) < scale
    };
    let near96 = if v >= c {
        2 * (v - c) < scale
    } else {
        2 * (c - v) < scale
    };
    near72 || near96
}

/// The density by which to size a photo: the one the file records when it
/// tells the print size (`tells_print_size`), else none (and the photo is
/// then sized at a default density).
pub fn print_density(d: Option<Density>) -> (r: Option<Density>)
    ensures
        r == (if d matches Some(v) && tells_print_size(v) {
            d
        } else {
            None
        }),
{
    let ok = match d {
        Some(Density::PerMeter(x, y)) => x > 0 && y > 0 && !near_screen(x as u64 * 254, 10000)
            && !near_screen(y as u64 * 254, 10000),
        Some(Density::PerInch(x, y)) => x > 0 && y > 0 && !near_screen(x as u64, 1) && !near_screen(
            y as u64,
            1,
        ),
        Some(Density::PerCentimeter(x, y)) => x > 0 && y > 0 && !near_screen(x as u64 * 254, 100)
            && !near_screen(y as u64 * 254, 100),
        None => false,
    };
    if ok {
        d
    } else {
        None
    }
}

proof fn lemma_png_scan_extend(d: Seq<u8>, e: Seq<u8>, pos: int)
    requires
        png_scan(d, pos) is Some,
    ensures
        png_scan(d + e, pos) == png_scan(d, pos),
    decreases d.len() - pos,
{
    let de = d + e;
    assert(forall|i: int| 0 <= i < d.len() ==> de[i] == d[i]);
    let len = be32(d[pos], d[pos + 1], d[pos + 2], d[pos + 3]) as int;
    let body = pos + 8;
    if !(tag_at(d, pos + 4, 0x70, 0x48, 0x59, 0x73) && len >= 9) {
        lemma_png_scan_extend(d, e, body + len + 4);
    }
}

proof fn lemma_jpeg_scan_extend(d: Seq<u8>, e: Seq<u8>, pos: int)
    requires
        jpeg_scan(d, pos) is Some,
    ensures
        jpeg_scan(d + e, pos) == jpeg_scan(d, pos),
    decreases d.len() - pos,
{
    let de = d + e;
    assert(forall|i: int| 0 <= i < d.len() ==> de[i] == d[i]);
    if standalone_marker(d[pos + 1]) {
        lemma_jpeg_scan_extend(d, e, pos + 2);
    } else {
        let len = be16(d[pos + 2], d[pos + 3]) as int;
        let s = pos + 4;
        if !(d[pos + 1] == 0xE0 && len - 2 >= 12 && tag_at(d, s, 0x4A, 0x46, 0x49, 0x46) && d[s
            + 4] == 0) {
            lemma_jpeg_scan_extend(d, e, pos + 2 + len);
        }
    }
}

/// A density found in the header of a file stays the same whatever bytes
/// follow it: the scan never looks past the segment that records it.
pub proof fn lemma_density_ignores_tail(d: Seq<u8>, e: Seq<u8>)
    requires
        file_density(d) is Some,
    ensures
        file_density(d + e) == file_density(d),
{
    let de = d + e;
    assert(forall|i: int| 0 <= i < d.len() ==> de[i] == d[i]);
    if is_png(d) {
        lemma_png_scan_extend(d, e, 8);
    } else {
        lemma_jpeg_scan_extend(d, e, 2);
    }
}

/// Length of the PNG chunk whose header starts at `pos`: its first four
/// bytes, big-endian.
pub open spec fn chunk_len(d: Seq<u8>, pos: int) -> int {
    d[pos] as int * 16777216 + d[pos + 1] as int * 65536 + d[pos + 2] as int * 256 + d[pos + 3] as int
}

/// The PNG chunk walk skips every chunk but the density, the image data
/// and the end: when the chunk at `pos` is complete (its 4-byte length,
/// 4-byte type, body and 4-byte checksum all lie in the data) and its type
/// is none of `pHYs` (with the 9 bytes of a density), `IDAT` and `IEND`,
/// the density found from it is the one found from the next chunk.
pub proof fn lemma_png_skips_other_chunks(d: Seq<u8>, pos: int)
    requires
        0 <= pos,
        pos + 8 <= d.len(),
        pos + 12 + chunk_len(d, pos) <= d.len(),
        !(d[pos + 4] == 0x70 && d[pos + 5] == 0x48 && d[pos + 6] == 0x59 && d[pos + 7] == 0x73
            && chunk_len(d, pos) >= 9),
        !(d[pos + 4] == 0x49 && d[pos + 5] == 0x44 && d[pos + 6] == 0x41 && d[pos + 7] == 0x54),
        !(d[pos + 4] == 0x49 && d[pos + 5] == 0x45 && d[pos + 6] == 0x4E && d[pos + 7] == 0x44),
    ensures
        png_scan(d, pos) == png_scan(d, pos + 12 + chunk_len(d, pos)),
{
    assert(be32(d[pos], d[pos + 1], d[pos + 2], d[pos + 3]) == chunk_len(d, pos));
}

/// The walk ends at the image data or at the end chunk: an `IDAT` or
/// `IEND` chunk at `pos` means no density.
pub proof fn lemma_png_stops_at_image_data(d: Seq<u8>, pos: int)
    requires
        0 <= pos,
        pos + 8 <= d.len(),
        (d[pos + 4] == 0x49 && d[pos + 5] == 0x44 && d[pos + 6] == 0x41 && d[pos + 7] == 0x54)
            || (d[pos + 4] == 0x49 && d[pos + 5] == 0x45 && d[pos + 6] == 0x4E && d[pos + 7]
            == 0x44),
    ensures
        png_scan(d, pos) is None,
{
}

/// A whole `pHYs` chunk at `pos` with its 9 bytes gives the density: pixels
/// per metre along x then y (two big-endian words) when its unit byte is 1,
/// and nothing for any other unit.
pub proof fn lemma_png_reads_phys(d: Seq<u8>, pos: int)
    requires
        0 <= pos,
        pos + 8 <= d.len(),
        pos + 8 + chunk_len(d, pos) <= d.len(),
        chunk_len(d, pos) >= 9,
        d[pos + 4] == 0x70 && d[pos + 5] == 0x48 && d[pos + 6] == 0x59 && d[pos + 7] == 0x73,
    ensures
        png_scan(d, pos) == if d[pos + 16] == 1 {
            Some(
                Density::PerMeter(
                    (d[pos + 8] as int * 16777216 + d[pos + 9] as int * 65536 + d[pos + 10] as int
                        * 256 + d[pos + 11] as int) as u32,
                    (d[pos + 12] as int * 16777216 + d[pos + 13] as int * 65536 + d[pos + 14] as int
                        * 256 + d[pos + 15] as int) as u32,
                ),
            )
        } else {
            None
        },
{
    assert(be32(d[pos], d[pos + 1], d[pos + 2], d[pos + 3]) == chunk_len(d, pos));
}

/// The JPEG segment walk skips markers that stand alone (SOI, RST0 to
/// RST7, TEM): the density found from one is the one found two bytes on.
pub proof fn lemma_jpeg_skips_standalone(d: Seq<u8>, pos: int)
    requires
        0 <= pos,
        pos + 4 <= d.len(),
        d[pos] == 0xFF,
        d[pos + 1] == 0xD8 || (0xD0 <= d[pos + 1] && d[pos + 1] <= 0xD7) || d[pos + 1] == 0x01,
    ensures
        jpeg_scan(d, pos) == jpeg_scan(d, pos + 2),
{
}

/// The JPEG segment walk skips every whole segment but a JFIF `APP0`: when
/// the segment at `pos` has a length `len` (two big-endian bytes that count
/// themselves, at least 2) that keeps it within the data, and it is neither
/// start of scan nor end of image nor an `APP0` holding `JFIF\0` and
/// 12 bytes, the density found from it is the one found `2 + len` on.
pub proof fn lemma_jpeg_skips_other_segments(d: Seq<u8>, pos: int)
    requires
        0 <= pos,
        pos + 4 <= d.len(),
        d[pos] == 0xFF,
        !(d[pos + 1] == 0xD8 || (0xD0 <= d[pos + 1] && d[pos + 1] <= 0xD7) || d[pos + 1] == 0x01),
        d[pos + 1] != 0xDA && d[pos + 1] != 0xD9,
        d[pos + 2] as int * 256 + d[pos + 3] as int >= 2,
        pos + 2 + d[pos + 2] as int * 256 + d[pos + 3] as int <= d.len(),
        !(d[pos + 1] == 0xE0 && d[pos + 2] as int * 256 + d[pos + 3] as int >= 14 && d[pos + 4]
            == 0x4A && d[pos + 5] == 0x46 && d[pos + 6] == 0x49 && d[pos + 7] == 0x46 && d[pos
            + 8] == 0),
    ensures
        jpeg_scan(d, pos) == jpeg_scan(d, pos + 2 + d[pos + 2] as int * 256 + d[pos + 3] as int),
{
}

/// The JPEG walk ends at the start of the scan or at the end of the image:
/// no density is found there.
pub proof fn lemma_jpeg_stops_at_scan(d: Seq<u8>, pos: int)
    requires
        0 <= pos,
        d[pos] == 0xFF,
        d[pos + 1] == 0xDA || d[pos + 1] == 0xD9,
    ensures
        jpeg_scan(d, pos) is None,
{
}

} // verus!
