//! Frames: from what a rasteriser paints to what an image file holds.
use vstd::prelude::*;

use crate::decode::bytes_result;
use crate::text::{decimal, decimal_text};

verus! {

pub open spec fn saturating(a: u8, b: u8) -> u8 {
    if a + b > 255 {
        255
    } else {
        (a + b) as u8
    }
}

/// A premultiplied channel over white.
pub open spec fn over_white(rgba: Seq<u8>, pixel: int, channel: int) -> u8 {
    saturating(rgba[4 * pixel + channel], (255 - rgba[4 * pixel + 3]) as u8)
}

/// A frame of premultiplied pixels on an opaque white canvas.
pub open spec fn flattened(rgba: Seq<u8>, pixels: int) -> Seq<u8> {
    Seq::new((3 * pixels) as nat, |k: int| over_white(rgba, k / 3, k % 3))
}

pub open spec fn short_frame(len: nat, width: u32, height: u32) -> Seq<char> {
    "renderer produced "@ + decimal(len) + " bytes for a "@ + decimal(width as nat) + "x"@
        + decimal(height as nat) + " frame, expected "@ + decimal((width * height * 4) as nat)
}

fn sat(a: u8, b: u8) -> (r: u8)
    ensures
        r == saturating(a, b),
{
    if a > 255 - b {
        255
    } else {
        a + b
    }
}

/// Flatten the renderer's premultiplied RGBA onto an opaque white canvas.
pub fn flatten_onto_white(rgba: &[u8], width: u32, height: u32) -> (r: Result<Vec<u8>, String>)
    requires
        width * height * 4 <= usize::MAX,
    ensures
        bytes_result(r) == (if rgba@.len() < width * height * 4 {
            Err(short_frame(rgba@.len(), width, height))
        } else {
            Ok(flattened(rgba@, width * height))
        }),
{
    proof {
        assert(0 <= width * height) by (nonlinear_arith)
            requires
                0 <= width,
                0 <= height,
        ;
    }
    let pixels: usize = (width as usize) * (height as usize);
    let expected: usize = pixels * 4;
    if rgba.len() < expected {
        let mut why = "renderer produced ".to_owned();
        why.append(&decimal_text(rgba.len() as u64));
        why.append(" bytes for a ");
        why.append(&decimal_text(width as u64));
        why.append("x");
        why.append(&decimal_text(height as u64));
        why.append(" frame, expected ");
        why.append(&decimal_text(expected as u64));
        return Err(why);
    }
    let ghost whole = flattened(rgba@, pixels as int);
    let mut rgb: Vec<u8> = Vec::new();
    let mut i: usize = 0;
    while i < pixels
        invariant
            i <= pixels,
            pixels * 4 <= rgba@.len(),
            rgba@.len() <= usize::MAX,
            whole == flattened(rgba@, pixels as int),
            rgb@ == whole.take(3 * i),
        decreases pixels - i,
    {
        let at: usize = i * 4;
        let backdrop: u8 = 255 - rgba[at + 3];
        let ghost before = rgb@;
        rgb.push(sat(rgba[at], backdrop));
        rgb.push(sat(rgba[at + 1], backdrop));
        rgb.push(sat(rgba[at + 2], backdrop));
        i += 1;
        proof {
            assert((3 * i - 3) / 3 == i - 1 && (3 * i - 2) / 3 == i - 1 && (3 * i - 1) / 3 == i
                - 1);
            assert((3 * i - 3) % 3 == 0 && (3 * i - 2) % 3 == 1 && (3 * i - 1) % 3 == 2);
            assert(whole[3 * i - 3] == rgb@[3 * i - 3]);
            assert(whole[3 * i - 2] == rgb@[3 * i - 2]);
            assert(whole[3 * i - 1] == rgb@[3 * i - 1]);
            assert(rgb@ =~= whole.take(3 * i));
        }
    }
    assert(whole.take(3 * i) =~= whole);
    Ok(rgb)
}

/// The file that `image`'s PNG encoder makes of a frame, or its complaint.
pub uninterp spec fn png_file(rgb: Seq<u8>, width: u32, height: u32) -> Result<Seq<u8>, Seq<char>>;

/// The file that `image`'s JPEG encoder makes of a frame, or its complaint.
pub uninterp spec fn jpeg_file(
    rgb: Seq<u8>,
    width: u32,
    height: u32,
    quality: u8,
) -> Result<Seq<u8>, Seq<char>>;

/// Writes a frame of RGB bytes with `image::codecs::png::PngEncoder`. The file,
/// or the encoder's error as text, is what [`png_file`] names. The encoder
/// panics where the bytes are not as many as the frame has.
#[verifier::external_body]
fn write_png(rgb: &[u8], width: u32, height: u32) -> (r: Result<Vec<u8>, String>)
    requires
        rgb@.len() == width * height * 3,
    ensures
        bytes_result(r) == png_file(rgb@, width, height),
{
    let mut png = Vec::new();
    let encoder = image::codecs::png::PngEncoder::new(&mut png);
    let kind = image::ExtendedColorType::Rgb8;
    match image::ImageEncoder::write_image(encoder, rgb, width, height, kind) {
        Ok(()) => Ok(png),
        Err(e) => Err(e.to_string()),
    }
}

/// Writes a frame of RGB bytes with `image::codecs::jpeg::JpegEncoder`. The
/// file, or the encoder's error as text, is what [`jpeg_file`] names. The
/// encoder panics where the bytes are not as many as the frame has; its
/// qualities are 1 to 100.
#[verifier::external_body]
fn write_jpeg(rgb: &[u8], width: u32, height: u32, quality: u8) -> (r: Result<Vec<u8>, String>)
    requires
        rgb@.len() == width * height * 3,
        1 <= quality <= 100,
    ensures
        bytes_result(r) == jpeg_file(rgb@, width, height, quality),
{
    let mut jpeg = Vec::new();
    let mut encoder = image::codecs::jpeg::JpegEncoder::new_with_quality(&mut jpeg, quality);
    match encoder.encode(rgb, width, height, image::ExtendedColorType::Rgb8) {
        Ok(()) => Ok(jpeg),
        Err(e) => Err(e.to_string()),
    }
}

/// What an encoder's answer comes to.
pub open spec fn encoded_as(
    file: Result<Seq<u8>, Seq<char>>,
    complaint: Seq<char>,
) -> Result<Seq<u8>, Seq<char>> {
    match file {
        Ok(bytes) => Ok(bytes),
        Err(e) => Err(complaint + e),
    }
}

/// What an encoder's answer comes to.
pub fn accept_file(file: Result<Vec<u8>, String>, complaint: &str) -> (r: Result<Vec<u8>, String>)
    ensures
        bytes_result(r) == encoded_as(bytes_result(file), complaint@),
{
    match file {
        Ok(bytes) => Ok(bytes),
        Err(e) => {
            let mut why = complaint.to_owned();
            why.append(&e);
            Err(why)
        },
    }
}

pub open spec fn clamped(quality: u8) -> u8 {
    if quality < 1 {
        1
    } else if quality > 100 {
        100
    } else {
        quality
    }
}

/// Encode the screenshot, opaque: a page that declared no background is a
/// canvas nobody painted, not a transparency the caller asked for.
pub fn encode_png(rgba: &[u8], width: u32, height: u32) -> (r: Result<Vec<u8>, String>)
    requires
        width * height * 4 <= usize::MAX,
    ensures
        bytes_result(r) == (if rgba@.len() < width * height * 4 {
            Err(short_frame(rgba@.len(), width, height))
        } else {
            encoded_as(
                png_file(flattened(rgba@, width * height), width, height),
                "failed to encode the screenshot: "@,
            )
        }),
{
    match flatten_onto_white(rgba, width, height) {
        Err(e) => Err(e),
        Ok(rgb) => {
            proof {
                assert(0 <= width * height) by (nonlinear_arith)
                    requires
                        0 <= width,
                        0 <= height,
                ;
            }
            let file = write_png(rgb.as_slice(), width, height);
            accept_file(file, "failed to encode the screenshot: ")
        },
    }
}

/// Encode a frame of the live view.
pub fn encode_jpeg(rgba: &[u8], width: u32, height: u32, quality: u8) -> (r: Result<
    Vec<u8>,
    String,
>)
    requires
        width * height * 4 <= usize::MAX,
    ensures
        bytes_result(r) == (if rgba@.len() < width * height * 4 {
            Err(short_frame(rgba@.len(), width, height))
        } else {
            encoded_as(
                jpeg_file(flattened(rgba@, width * height), width, height, clamped(quality)),
                "failed to encode the frame: "@,
            )
        }),
{
    match flatten_onto_white(rgba, width, height) {
        Err(e) => Err(e),
        Ok(rgb) => {
            let q: u8 = if quality < 1 {
                1
            } else if quality > 100 {
                100
            } else {
                quality
            };
            proof {
                assert(0 <= width * height) by (nonlinear_arith)
                    requires
                        0 <= width,
                        0 <= height,
                ;
            }
            let file = write_jpeg(rgb.as_slice(), width, height, q);
            accept_file(file, "failed to encode the frame: ")
        },
    }
}

/// A premultiplied channel, rounded to what it was before.
pub open spec fn unmultiplied(channel: u8, alpha: u8) -> u8 {
    let n = (channel * 255 + alpha as int / 2) / (alpha as int);
    if n > 255 {
        255
    } else {
        n as u8
    }
}

/// One byte of a straight-alpha surface.
pub open spec fn straight_byte(pixels: Seq<u8>, k: int) -> u8 {
    let alpha = pixels[4 * (k / 4) + 3];
    if alpha == 0 {
        0
    } else if k % 4 == 3 {
        alpha
    } else {
        unmultiplied(pixels[k], alpha)
    }
}

/// A premultiplied surface with straight alpha. Bytes after the last whole
/// pixel are none.
pub open spec fn straightened(pixels: Seq<u8>) -> Seq<u8> {
    Seq::new((4 * (pixels.len() as int / 4)) as nat, |k: int| straight_byte(pixels, k))
}

fn un(channel: u8, alpha: u8) -> (r: u8)
    requires
        alpha > 0,
    ensures
        r == unmultiplied(channel, alpha),
{
    let n: u32 = (channel as u32 * 255 + alpha as u32 / 2) / alpha as u32;
    if n > 255 {
        255
    } else {
        n as u8
    }
}

/// Hands a canvas surface over with straight alpha, which is what the paint
/// path expects. Getting this backwards darkens every semi-transparent pixel.
pub fn straighten(pixels: &[u8]) -> (r: Vec<u8>)
    ensures
        r@ == straightened(pixels@),
{
    let count: usize = pixels.len() / 4;
    let ghost whole = straightened(pixels@);
    let mut out: Vec<u8> = Vec::new();
    let mut i: usize = 0;
    while i < count
        invariant
            i <= count,
            count == pixels@.len() / 4,
            pixels@.len() <= usize::MAX,
            whole == straightened(pixels@),
            out@ == whole.take(4 * i),
        decreases count - i,
    {
        let at: usize = i * 4;
        let alpha = pixels[at + 3];
        if alpha == 0 {
            out.push(0);
            out.push(0);
            out.push(0);
            out.push(0);
        } else {
            out.push(un(pixels[at], alpha));
            out.push(un(pixels[at + 1], alpha));
            out.push(un(pixels[at + 2], alpha));
            out.push(alpha);
        }
        i += 1;
        proof {
            let k = 4 * i - 4;
            assert(k / 4 == i - 1 && (k + 1) / 4 == i - 1 && (k + 2) / 4 == i - 1 && (k + 3) / 4
                == i - 1);
            assert(k % 4 == 0 && (k + 1) % 4 == 1 && (k + 2) % 4 == 2 && (k + 3) % 4 == 3);
            assert(out@[k] == whole[k]);
            assert(out@[k + 1] == whole[k + 1]);
            assert(out@[k + 2] == whole[k + 2]);
            assert(out@[k + 3] == whole[k + 3]);
            assert(out@ =~= whole.take(4 * i));
        }
    }
    assert(whole.take(4 * i) =~= whole);
    out
}

/// A canvas nobody painted is white, and what is opaque keeps its colour.
pub proof fn law_an_unpainted_canvas_is_white(rgba: Seq<u8>, pixel: int, channel: int)
    requires
        0 <= channel < 3,
    ensures
        rgba[4 * pixel + 3] == 0 && rgba[4 * pixel + channel] == 0 ==> over_white(
            rgba,
            pixel,
            channel,
        ) == 255,
        rgba[4 * pixel + 3] == 255 ==> over_white(rgba, pixel, channel) == rgba[4 * pixel
            + channel],
{
}

/// Putting a frame on white never darkens it.
pub proof fn law_flattening_never_darkens(rgba: Seq<u8>, pixel: int, channel: int)
    requires
        0 <= channel < 3,
    ensures
        over_white(rgba, pixel, channel) >= rgba[4 * pixel + channel],
{
}

/// A pixel that lets nothing through is handed over as it is.
pub proof fn law_an_opaque_pixel_is_unchanged(channel: u8)
    ensures
        unmultiplied(channel, 255) == channel,
{
    assert((channel * 255 + 127) / 255 == channel as int) by (nonlinear_arith)
        requires
            0 <= channel <= 255,
    ;
}

/// A frame loses its transparency channel by channel: what is left of a pixel
/// is its own light and as much white as it lets through, up to full white.
pub proof fn law_how_a_frame_is_flattened(
    rgba: &[u8],
    width: u32,
    height: u32,
    r: Result<Vec<u8>, String>,
    pixel: int,
    channel: int,
)
    requires
        width * height * 4 <= usize::MAX,
        call_ensures(flatten_onto_white, (rgba, width, height), r),
        0 <= pixel < width * height,
        0 <= channel < 3,
    ensures
        r is Ok <==> rgba@.len() >= width * height * 4,
        r is Ok ==> r->Ok_0@.len() == 3 * (width * height),
        r is Ok ==> ({
            let light = rgba@[4 * pixel + channel] + 255 - rgba@[4 * pixel + 3];
            r->Ok_0@[3 * pixel + channel] == if light > 255 {
                255
            } else {
                light
            }
        }),
{
    let k = 3 * pixel + channel;
    assert(k / 3 == pixel && k % 3 == channel);
    if r is Ok {
        assert(r->Ok_0@ == flattened(rgba@, width * height));
        assert(0 <= width * height) by (nonlinear_arith)
            requires
                width >= 0,
                height >= 0,
        ;
    }
}

/// A canvas is straightened pixel by pixel: a pixel that shows nothing is
/// nothing, the transparency stays, and a channel, times the transparency, is
/// within half of that of what it was, times 255, unless that is past white.
pub proof fn law_how_a_canvas_is_straightened(pixels: &[u8], r: Vec<u8>, pixel: int, channel: int)
    requires
        call_ensures(straighten, (pixels,), r),
        0 <= pixel < pixels@.len() / 4,
        0 <= channel < 3,
    ensures
        r@.len() == 4 * (pixels@.len() as int / 4),
        ({
            let was = pixels@[4 * pixel + channel] as int;
            let alpha = pixels@[4 * pixel + 3] as int;
            let now = r@[4 * pixel + channel] as int;
            &&& r@[4 * pixel + 3] == alpha
            &&& alpha == 0 ==> now == 0
            &&& alpha > 0 && was <= alpha ==> 2 * (now * alpha - was * 255) <= alpha && 2 * (was * 255
                - now * alpha) <= alpha
            &&& alpha > 0 && was > alpha ==> now == 255
        }),
{
    let k = 4 * pixel + channel;
    assert(k / 4 == pixel && k % 4 == channel);
    let j = 4 * pixel + 3;
    assert(j / 4 == pixel && j % 4 == 3);
    let was = pixels@[k] as int;
    let alpha = pixels@[j] as int;
    if alpha > 0 {
        let top = was * 255 + alpha / 2;
        let n = top / alpha;
        vstd::arithmetic::div_mod::lemma_fundamental_div_mod(top, alpha);
        vstd::arithmetic::div_mod::lemma_mod_bound(top, alpha);
        assert(alpha * n + top % alpha == top);
        if was <= alpha {
            assert(n <= 255) by (nonlinear_arith)
                requires
                    alpha * n <= top,
                    top == was * 255 + alpha / 2,
                    was <= alpha,
                    alpha > 0,
            ;
            assert(n >= 0) by (nonlinear_arith)
                requires
                    alpha * n + top % alpha == top,
                    top % alpha < alpha,
                    top >= 0,
                    alpha > 0,
            ;
            assert(n * alpha == alpha * n) by (nonlinear_arith);
        } else {
            assert(n >= 255) by (nonlinear_arith)
                requires
                    alpha * n + top % alpha == top,
                    top % alpha < alpha,
                    top >= was * 255,
                    was > alpha,
                    alpha > 0,
            ;
        }
    }
}

/// A frame's quality is kept between 1 and 100.
pub proof fn law_quality_is_between_one_and_a_hundred(quality: u8)
    ensures
        1 <= clamped(quality) <= 100,
        1 <= quality <= 100 ==> clamped(quality) == quality,
        quality < 1 ==> clamped(quality) == 1,
        quality > 100 ==> clamped(quality) == 100,
{
}

} // verus!
