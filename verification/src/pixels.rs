//! Pixel formats: the display's 16 bits per pixel, and the tray's order of channels.

use vstd::prelude::*;

verus! {

/// A pixel in 5, 6 and 5 bits, the red ones highest.
pub open spec fn packed565(r: u8, g: u8, b: u8) -> int {
    (r as int / 8) * 2048 + (g as int / 4) * 32 + b as int / 8
}

/// A pixel in 16 bits.
pub fn pack565(r: u8, g: u8, b: u8) -> (v: u16)
    ensures
        v == packed565(r, g, b),
{
    let r16: u16 = r as u16;
    let g16: u16 = g as u16;
    let b16: u16 = b as u16;
    assert(((r16 & 0xF8) << 8) | ((g16 & 0xFC) << 3) | (b16 >> 3) == (r16 / 8) * 2048 + (g16 / 4)
        * 32 + b16 / 8) by (bit_vector)
        requires
            r16 < 256,
            g16 < 256,
            b16 < 256,
    ;
    ((r16 & 0xF8) << 8) | ((g16 & 0xFC) << 3) | (b16 >> 3)
}

/// The pixels of an image in the display's format, the low byte of each first.
pub open spec fn display_bytes(pixels: Seq<(u8, u8, u8)>) -> Seq<u8>
    decreases pixels.len(),
{
    if pixels.len() == 0 {
        Seq::empty()
    } else {
        let (r, g, b) = pixels.last();
        let v = packed565(r, g, b);
        display_bytes(pixels.drop_last()) + seq![(v % 256) as u8, (v / 256) as u8]
    }
}

/// The pixels of an image in the display's format.
pub fn rgb565_le(pixels: &[(u8, u8, u8)]) -> (out: Vec<u8>)
    ensures
        out@ == display_bytes(pixels@),
{
    let mut out: Vec<u8> = Vec::new();
    let mut i: usize = 0;
    while i < pixels.len()
        invariant
            i <= pixels@.len(),
            out@ == display_bytes(pixels@.take(i as int)),
        decreases pixels@.len() - i,
    {
        let (r, g, b) = pixels[i];
        let v: u16 = pack565(r, g, b);
        let ghost before = out@;
        out.push((v % 256) as u8);
        out.push((v / 256) as u8);
        i = i + 1;
        assert(pixels@.take(i as int).drop_last() =~= pixels@.take(i - 1));
        assert(out@ =~= before + seq![(v % 256) as u8, (v / 256) as u8]);
    }
    assert(pixels@.take(i as int) =~= pixels@);
    out
}

/// Two bytes for every pixel.
pub proof fn two_bytes_per_pixel(pixels: Seq<(u8, u8, u8)>)
    ensures
        display_bytes(pixels).len() == 2 * pixels.len(),
    decreases pixels.len(),
{
    if pixels.len() > 0 {
        two_bytes_per_pixel(pixels.drop_last());
    }
}

/// The error of a failed read of the outside image library.
#[verifier::external_type_specification]
#[verifier::external_body]
pub struct ExImageError(image::ImageError);

/// Width, height and pixels of the image that bytes stand for, row by row from the top, each
/// pixel as red, green, blue and opacity; nothing where they stand for none.
pub uninterp spec fn image_in(data: Seq<u8>) -> Option<(u32, u32, Seq<(u8, u8, u8, u8)>)>;

/// `image::load_from_memory` with `DynamicImage::to_rgba8` gives the image that the bytes stand
/// for, with one pixel for every place, and fails where they stand for none. Which bytes stand
/// for which image is not said here.
#[verifier::external_body]
fn load_image(data: &[u8]) -> (r: Result<(u32, u32, Vec<(u8, u8, u8, u8)>), image::ImageError>)
    ensures
        match r {
            Ok((width, height, pixels)) => {
                &&& image_in(data@) == Some((width, height, pixels@))
                &&& pixels@.len() == width * height
            },
            Err(_) => image_in(data@) is None,
        },
{
    let img = image::load_from_memory(data)?.to_rgba8();
    let pixels = img.pixels().map(|p| (p[0], p[1], p[2], p[3])).collect();
    Ok((img.width(), img.height(), pixels))
}

/// The bytes of pixels, the opacity of each behind its colours.
pub open spec fn opacity_last(pixels: Seq<(u8, u8, u8, u8)>) -> Seq<u8>
    decreases pixels.len(),
{
    if pixels.len() == 0 {
        Seq::empty()
    } else {
        let (r, g, b, a) = pixels.last();
        opacity_last(pixels.drop_last()) + seq![r, g, b, a]
    }
}

/// The bytes of pixels, the opacity of each before its colours.
pub open spec fn opacity_first(pixels: Seq<(u8, u8, u8, u8)>) -> Seq<u8>
    decreases pixels.len(),
{
    if pixels.len() == 0 {
        Seq::empty()
    } else {
        let (r, g, b, a) = pixels.last();
        opacity_first(pixels.drop_last()) + seq![a, r, g, b]
    }
}

/// The bytes of pixels for a texture.
pub fn rgba_bytes(pixels: &[(u8, u8, u8, u8)]) -> (out: Vec<u8>)
    ensures
        out@ == opacity_last(pixels@),
{
    let mut out: Vec<u8> = Vec::new();
    let mut i: usize = 0;
    while i < pixels.len()
        invariant
            i <= pixels@.len(),
            out@ == opacity_last(pixels@.take(i as int)),
        decreases pixels@.len() - i,
    {
        let (r, g, b, a) = pixels[i];
        let ghost before = out@;
        out.push(r);
        out.push(g);
        out.push(b);
        out.push(a);
        i = i + 1;
        assert(pixels@.take(i as int).drop_last() =~= pixels@.take(i - 1));
        assert(out@ =~= before + seq![r, g, b, a]);
    }
    assert(pixels@.take(i as int) =~= pixels@);
    out
}

/// The bytes of pixels for the tray.
pub fn argb_bytes(pixels: &[(u8, u8, u8, u8)]) -> (out: Vec<u8>)
    ensures
        out@ == opacity_first(pixels@),
{
    let mut out: Vec<u8> = Vec::new();
    let mut i: usize = 0;
    while i < pixels.len()
        invariant
            i <= pixels@.len(),
            out@ == opacity_first(pixels@.take(i as int)),
        decreases pixels@.len() - i,
    {
        let (r, g, b, a) = pixels[i];
        let ghost before = out@;
        out.push(a);
        out.push(r);
        out.push(g);
        out.push(b);
        i = i + 1;
        assert(pixels@.take(i as int).drop_last() =~= pixels@.take(i - 1));
        assert(out@ =~= before + seq![a, r, g, b]);
    }
    assert(pixels@.take(i as int) =~= pixels@);
    out
}

/// An image as bytes.
#[derive(Clone, Debug, PartialEq, Eq)]
pub struct Bitmap {
    pub width: u32,
    pub height: u32,
    pub data: Vec<u8>,
}

/// The application's icon for a texture, if the bytes are an image.
pub fn texture_bitmap(data: &[u8]) -> (r: Option<Bitmap>)
    ensures
        match r {
            Some(m) => image_in(data@) matches Some((width, height, pixels)) && m.width == width
                && m.height == height && m.data@ == opacity_last(pixels) && m.data@.len() == 4 * (
            m.width * m.height),
            None => image_in(data@) is None,
        },
{
    match load_image(data) {
        Ok((width, height, pixels)) => {
            proof {
                orders_hold_the_same_bytes(pixels@);
            }
            Some(Bitmap { width, height, data: rgba_bytes(pixels.as_slice()) })
        },
        Err(_) => None,
    }
}

/// The icon for the tray; the words for it where the bytes are no image.
pub fn tray_bitmap(data: &[u8]) -> (r: Result<Bitmap, &'static str>)
    ensures
        match r {
            Ok(m) => image_in(data@) matches Some((width, height, pixels)) && m.width == width
                && m.height == height && m.data@ == opacity_first(pixels) && m.data@.len() == 4 * (
            m.width * m.height),
            Err(text) => image_in(data@) is None && text@ == "failed to decode tray satellite icon"@,
        },
{
    match load_image(data) {
        Ok((width, height, pixels)) => {
            proof {
                orders_hold_the_same_bytes(pixels@);
            }
            Ok(Bitmap { width, height, data: argb_bytes(pixels.as_slice()) })
        },
        Err(_) => Err("failed to decode tray satellite icon"),
    }
}

/// Both orders hold four bytes for every pixel, and hold the same ones: the opacity moves from
/// the end of a pixel to its front.
pub proof fn orders_hold_the_same_bytes(pixels: Seq<(u8, u8, u8, u8)>)
    ensures
        opacity_first(pixels).len() == 4 * pixels.len(),
        opacity_last(pixels).len() == 4 * pixels.len(),
        forall|k: int|
            0 <= k < 4 * pixels.len() ==> #[trigger] opacity_first(pixels)[k] == if k % 4 == 0 {
                opacity_last(pixels)[k + 3]
            } else {
                opacity_last(pixels)[k - 1]
            },
    decreases pixels.len(),
{
    if pixels.len() > 0 {
        let front = pixels.drop_last();
        orders_hold_the_same_bytes(front);
        let f = opacity_first(pixels);
        let l = opacity_last(pixels);
        let n = 4 * front.len();
        assert forall|k: int| 0 <= k < 4 * pixels.len() implies #[trigger] f[k] == if k % 4 == 0 {
            l[k + 3]
        } else {
            l[k - 1]
        } by {
            if k < n {
                assert(f[k] == opacity_first(front)[k]);
                if k % 4 == 0 {
                    assert(k + 3 < n);
                    assert(l[k + 3] == opacity_last(front)[k + 3]);
                } else {
                    assert(l[k - 1] == opacity_last(front)[k - 1]);
                }
            }
        }
    }
}

/// The 16 bits of a pixel keep the high bits of each colour: what they say is never more than the
/// colour, and less only by what has no room.
pub proof fn high_bits_are_kept(r: u8, g: u8, b: u8)
    ensures
        ({
            let v = packed565(r, g, b);
            &&& 0 <= v < 0x1_0000
            &&& 0 <= r - 8 * (v / 2048) < 8
            &&& 0 <= g - 4 * (v / 32 % 64) < 4
            &&& 0 <= b - 8 * (v % 32) < 8
        }),
{
}

/// Every pixel stands at its own place, the low byte of it first.
pub proof fn pixels_keep_their_places(pixels: Seq<(u8, u8, u8)>, i: int)
    requires
        0 <= i < pixels.len(),
    ensures
        display_bytes(pixels).len() == 2 * pixels.len(),
        ({
            let (r, g, b) = pixels[i];
            let low = display_bytes(pixels)[2 * i] as int;
            let high = display_bytes(pixels)[2 * i + 1] as int;
            &&& high / 8 == r / 8
            &&& (high % 8) * 8 + low / 32 == g / 4
            &&& low % 32 == b / 8
        }),
    decreases pixels.len(),
{
    let front = pixels.drop_last();
    two_bytes_per_pixel(pixels);
    two_bytes_per_pixel(front);
    if i < front.len() {
        pixels_keep_their_places(front, i);
        assert(front[i] == pixels[i]);
    }
}

/// Every pixel stands at its own place with all four of its parts, in either order.
pub proof fn parts_keep_their_places(pixels: Seq<(u8, u8, u8, u8)>, i: int)
    requires
        0 <= i < pixels.len(),
    ensures
        ({
            let (r, g, b, a) = pixels[i];
            let last = opacity_last(pixels);
            let first = opacity_first(pixels);
            &&& last.len() == 4 * pixels.len() && first.len() == 4 * pixels.len()
            &&& last[4 * i] == r && last[4 * i + 1] == g && last[4 * i + 2] == b && last[4 * i + 3]
                == a
            &&& first[4 * i] == a && first[4 * i + 1] == r && first[4 * i + 2] == g && first[4 * i
                + 3] == b
        }),
    decreases pixels.len(),
{
    let front = pixels.drop_last();
    orders_hold_the_same_bytes(pixels);
    orders_hold_the_same_bytes(front);
    if i < front.len() {
        parts_keep_their_places(front, i);
        assert(front[i] == pixels[i]);
    }
}

} // verus!
