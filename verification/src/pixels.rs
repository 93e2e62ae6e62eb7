//! Pixel buffers: packing the rows of a decoded plane, and preparing a
//! photo's pixels for the printer (crop, then reorder RGBA as BGRX).
use vstd::prelude::*;

verus! {

/// Pixels ready for the printer: `width` by `height`, four bytes per pixel
/// in blue, green, red, padding order, rows top to bottom.
pub struct Bitmap {
    pub width: u32,
    pub height: u32,
    pub bgrx: Vec<u8>,
}

/// Copies `height` rows of `row_bytes` bytes out of a plane whose rows start
/// `stride` bytes apart, leaving out the padding at the end of each row.
pub fn pack_rows(data: &[u8], row_bytes: usize, height: usize, stride: usize) -> (out: Vec<u8>)
    requires
        height == 0 || (height - 1) * stride + row_bytes <= data@.len(),
        row_bytes * height <= usize::MAX,
    ensures
        out@.len() == row_bytes * height,
        forall|r: int, c: int|
            0 <= r < height && 0 <= c < row_bytes ==> #[trigger] out@[r * row_bytes + c]
                == data@[r * stride + c],
{
    let mut out: Vec<u8> = Vec::new();
    let dlen = data.len();
    let mut r: usize = 0;
    while r < height
        invariant
            r <= height,
            dlen == data@.len(),
            height == 0 || (height - 1) * stride + row_bytes <= data@.len(),
            row_bytes * height <= usize::MAX,
            out@.len() == r * row_bytes,
            forall|rr: int, c: int|
                0 <= rr < r && 0 <= c < row_bytes ==> #[trigger] out@[rr * row_bytes + c]
                    == data@[rr * stride + c],
        decreases height - r,
    {
        assert(r * stride + row_bytes <= data@.len()) by (nonlinear_arith)
            requires
                r < height,
                (height - 1) * stride + row_bytes <= data@.len(),
        ;
        assert((r + 1) * row_bytes <= usize::MAX) by (nonlinear_arith)
            requires
                r < height,
                row_bytes * height <= usize::MAX,
        ;
        let start = r * stride;
        let mut c: usize = 0;
        while c < row_bytes
            invariant
                c <= row_bytes,
                r < height,
                dlen == data@.len(),
                start == r * stride,
                start + row_bytes <= data@.len(),
                (r + 1) * row_bytes <= usize::MAX,
                out@.len() == r * row_bytes + c,
                forall|rr: int, cc: int|
                    0 <= rr < r && 0 <= cc < row_bytes ==> #[trigger] out@[rr * row_bytes + cc]
                        == data@[rr * stride + cc],
                forall|cc: int| 0 <= cc < c ==> #[trigger] out@[r * row_bytes + cc] == data@[r * stride
                    + cc],
            decreases row_bytes - c,
        {
            assert(r * row_bytes + c < (r + 1) * row_bytes) by (nonlinear_arith)
                requires
                    c < row_bytes,
            ;
            out.push(data[start + c]);
            proof {
                assert forall|rr: int, cc: int|
                    0 <= rr < r && 0 <= cc < row_bytes implies #[trigger] out@[rr * row_bytes + cc]
                    == data@[rr * stride + cc] by {
                    assert(rr * row_bytes + cc < r * row_bytes) by (nonlinear_arith)
                        requires
                            rr < r,
                            cc < row_bytes,
                    ;
                }
            }
            c = c + 1;
        }
        proof {
            assert forall|rr: int, cc: int|
                0 <= rr < r + 1 && 0 <= cc < row_bytes implies #[trigger] out@[rr * row_bytes + cc]
                == data@[rr * stride + cc] by {}
            assert(out@.len() == (r + 1) * row_bytes) by (nonlinear_arith)
                requires
                    out@.len() == r * row_bytes + row_bytes,
            ;
        }
        r = r + 1;
    }
    assert(out@.len() == row_bytes * height) by (nonlinear_arith)
        requires
            out@.len() == r * row_bytes,
            r == height,
    ;
    out
}

/// RGBA pixels reordered as blue, green, red and an opaque padding byte.
pub open spec fn to_bgrx(px: Seq<u8>) -> Seq<u8> {
    Seq::new(
        px.len(),
        |k: int|
            if k % 4 == 3 {
                255u8
            } else if k % 4 == 1 {
                px[k]
            } else if k % 4 == 0 {
                px[k + 2]
            } else {
                px[k - 2]
            },
    )
}

/// Reorders RGBA pixels as BGRX, with the fourth byte of each pixel set to
/// 255.
pub fn rgba_to_bgrx(px: &[u8]) -> (out: Vec<u8>)
    requires
        px@.len() % 4 == 0,
    ensures
        out@ == to_bgrx(px@),
{
    let n = px.len();
    let mut out: Vec<u8> = Vec::new();
    let mut k: usize = 0;
    while k < n
        invariant
            k <= n,
            n == px@.len(),
            n % 4 == 0,
            k % 4 == 0,
            out@ =~= to_bgrx(px@).take(k as int),
        decreases n - k,
    {
        out.push(px[k + 2]);
        out.push(px[k + 1]);
        out.push(px[k]);
        out.push(255u8);
        k = k + 4;
        assert(out@ =~= to_bgrx(px@).take(k as int));
    }
    assert(to_bgrx(px@).take(n as int) =~= to_bgrx(px@));
    out
}

/// The part of an image that a crop keeps, as `(x, y, width, height)`: the
/// corner is brought within the image and the size within what lies to the
/// right of and below it.
pub open spec fn crop_region(iw: u32, ih: u32, x: u32, y: u32, w: u32, h: u32) -> (
    u32,
    u32,
    u32,
    u32,
) {
    let cx = if x < iw {
        x
    } else {
        iw
    };
    let cy = if y < ih {
        y
    } else {
        ih
    };
    (
        cx,
        cy,
        if w < iw - cx {
            w
        } else {
            (iw - cx) as u32
        },
        if h < ih - cy {
            h
        } else {
            (ih - cy) as u32
        },
    )
}

/// RGBA pixels of the `cw` by `ch` region at `(cx, cy)` of an image `iw`
/// pixels wide, rows top to bottom.
pub open spec fn region_pixels(rgba: Seq<u8>, iw: nat, cx: nat, cy: nat, cw: nat, ch: nat) -> Seq<
    u8,
> {
    Seq::new(
        cw * ch * 4,
        |k: int|
            rgba[((cy + (k / 4) / (cw as int)) * iw + cx + (k / 4) % (cw as int)) * 4 + k % 4],
    )
}

/// RGBA pixels of an image `iw` by `ih` cropped to the `w` by `h` region at
/// `(x, y)`, brought within the image.
pub open spec fn cropped(rgba: Seq<u8>, iw: u32, ih: u32, x: u32, y: u32, w: u32, h: u32) -> Seq<
    u8,
> {
    let (cx, cy, cw, ch) = crop_region(iw, ih, x, y, w, h);
    region_pixels(rgba, iw as nat, cx as nat, cy as nat, cw as nat, ch as nat)
}

/// Crops an RGBA image with `image::imageops::crop_imm`, which brings the
/// region within the image (`crop_region`), and copies the region out row
/// by row (`SubImage::to_image`); the result is those pixels.
#[verifier::external_body]
fn crop_rgba(rgba: &[u8], iw: u32, ih: u32, x: u32, y: u32, w: u32, h: u32) -> (out: Vec<u8>)
    requires
        rgba@.len() == iw * ih * 4,
    ensures
        out@ == cropped(rgba@, iw, ih, x, y, w, h),
{
    let img = image::RgbaImage::from_raw(iw, ih, rgba.to_vec()).unwrap();
    image::imageops::crop_imm(&img, x, y, w, h).to_image().into_raw()
}

/// Size of the printed part along one side: the requested size, at least 1,
/// and at most what lies past `start` in a side of `size` pixels (but 1 at
/// least).
pub open spec fn print_span(requested: u32, size: u32, start: u32) -> u32 {
    let want: u32 = if requested < 1 {
        1
    } else {
        requested
    };
    let room: u32 = if size > start {
        (size - start) as u32
    } else {
        0
    };
    let limit: u32 = if room < 1 {
        1
    } else {
        room
    };
    if want < limit {
        want
    } else {
        limit
    }
}

fn print_span_exec(requested: u32, size: u32, start: u32) -> (s: u32)
    ensures
        s == print_span(requested, size, start),
{
    let want = if requested < 1 {
        1
    } else {
        requested
    };
    let room = size.saturating_sub(start);
    let limit = if room < 1 {
        1
    } else {
        room
    };
    if want < limit {
        want
    } else {
        limit
    }
}

/// The printed span along a side is never empty and never more than was
/// asked for (at least one pixel is always asked for): it is the requested
/// size when that fits in what lies past `start`, else all that lies past
/// `start`, and one pixel when nothing does.
pub proof fn lemma_print_span_bounds(requested: u32, size: u32, start: u32)
    ensures
        1 <= print_span(requested, size, start),
        print_span(requested, size, start) <= requested || print_span(requested, size, start)
            == 1,
        start < size ==> start + print_span(requested, size, start) <= size,
        start >= size ==> print_span(requested, size, start) == 1,
        requested >= 1 && start + requested <= size ==> print_span(requested, size, start)
            == requested,
        start < size && start + requested > size ==> print_span(requested, size, start) == size
            - start,
{
}

/// Whether the requested crop of a `iw` by `ih` photo keeps the whole photo.
pub open spec fn keeps_whole(iw: u32, ih: u32, sx: u32, sy: u32, rw: u32, rh: u32) -> bool {
    sx == 0 && sy == 0 && print_span(rw, iw, sx) == iw && print_span(rh, ih, sy) == ih
}

/// Prepares a photo of `iw` by `ih` RGBA pixels for the printer, cropped
/// from `(sx, sy)` to a requested size of `rw` by `rh` pixels: the size is
/// brought within the photo (`print_span`), the crop taken (`cropped`,
/// unless it keeps the whole photo) and the pixels reordered as BGRX.
pub fn print_bitmap(rgba: &[u8], iw: u32, ih: u32, sx: u32, sy: u32, rw: u32, rh: u32) -> (b:
    Bitmap)
    requires
        rgba@.len() == iw * ih * 4,
    ensures
        b.width <= iw,
        b.height <= ih,
        b.width <= rw || b.width <= 1,
        b.height <= rh || b.height <= 1,
        rw >= 1 && sx + rw <= iw ==> b.width == rw,
        rh >= 1 && sy + rh <= ih ==> b.height == rh,
        b.bgrx@.len() == b.width * b.height * 4,
        keeps_whole(iw, ih, sx, sy, rw, rh) ==> b.width == iw && b.height == ih && b.bgrx@
            == to_bgrx(rgba@),
        !keeps_whole(iw, ih, sx, sy, rw, rh) ==> ({
            let (cx, cy, cw, ch) = crop_region(
                iw,
                ih,
                sx,
                sy,
                print_span(rw, iw, sx),
                print_span(rh, ih, sy),
            );
            &&& b.width == cw
            &&& b.height == ch
            &&& b.bgrx@ == to_bgrx(
                cropped(rgba@, iw, ih, sx, sy, print_span(rw, iw, sx), print_span(rh, ih, sy)),
            )
        }),
{
    let sw = print_span_exec(rw, iw, sx);
    let sh = print_span_exec(rh, ih, sy);
    proof {
        lemma_print_span_bounds(rw, iw, sx);
        lemma_print_span_bounds(rh, ih, sy);
    }
    if sx == 0 && sy == 0 && sw == iw && sh == ih {
        assert(rgba@.len() % 4 == 0) by (nonlinear_arith)
            requires
                rgba@.len() == iw * ih * 4,
        ;
        let bgrx = rgba_to_bgrx(rgba);
        assert(bgrx@.len() == iw * ih * 4);
        return Bitmap { width: iw, height: ih, bgrx };
    }
    let cx = if sx < iw {
        sx
    } else {
        iw
    };
    let cy = if sy < ih {
        sy
    } else {
        ih
    };
    let cw = if sw < iw - cx {
        sw
    } else {
        iw - cx
    };
    let ch = if sh < ih - cy {
        sh
    } else {
        ih - cy
    };
    let px = crop_rgba(rgba, iw, ih, sx, sy, sw, sh);
    assert(px@.len() % 4 == 0) by (nonlinear_arith)
        requires
            px@.len() == cw * ch * 4,
    ;
    let bgrx = rgba_to_bgrx(&px);
    Bitmap { width: cw, height: ch, bgrx }
}

/// What `image::load_from_memory` followed by `to_rgba8` makes of `bytes`:
/// the width, the height and the RGBA pixels (four bytes each, row by row)
/// of the image they hold, or none when the crate cannot decode them.
pub uninterp spec fn decoded_rgba(bytes: Seq<u8>) -> Option<(u32, u32, Seq<u8>)>;

/// Decodes an image held in memory with `image::load_from_memory`, which
/// guesses the format from the bytes, converts it with `to_rgba8` and takes
/// the pixels out (`into_raw`). Claimed: an error exactly when
/// `decoded_rgba` names no image, else the named image; its buffer holds
/// four bytes per pixel, since the decoders fill a buffer of exactly the
/// image's size and the conversion keeps one pixel per pixel. The text of
/// the error (the crate's `ImageError` made into text) is not stated.
#[verifier::external_body]
fn load_rgba(bytes: &[u8]) -> (r: Result<(u32, u32, Vec<u8>), String>)
    ensures
        r is Err <==> decoded_rgba(bytes@) is None,
        match r {
            Ok((w, h, px)) => decoded_rgba(bytes@) == Some((w, h, px@)) && px@.len() == w * h * 4,
            Err(_) => true,
        },
{
    match image::load_from_memory(bytes) {
        Ok(img) => {
            let rgba = img.to_rgba8();
            Ok((rgba.width(), rgba.height(), rgba.into_raw()))
        },
        Err(e) => Err(e.to_string()),
    }
}

/// Decodes the image a PDF page was rendered to: its width, its height and
/// its RGBA pixels, four bytes per pixel; or, when the bytes hold no image
/// that can be decoded, the decoder's account of why.
pub fn decode_rendered_page(bytes: &[u8]) -> (r: Result<(u32, u32, Vec<u8>), String>)
    ensures
        r is Err <==> decoded_rgba(bytes@) is None,
        match r {
            Ok((w, h, px)) => decoded_rgba(bytes@) == Some((w, h, px@)) && px@.len() == w * h * 4,
            Err(_) => true,
        },
{
    load_rgba(bytes)
}

} // verus!
