//! Decoding of the packed one-bit-per-pixel screen payload.
use vstd::prelude::*;
use crate::frame::PAYLOAD_LEN;

verus! {

/// Width and height of the device screen, in pixels.
pub const SCREEN_SIDE: usize = 200;

/// Number of pixels on the screen.
pub const SCREEN_PIXELS: usize = 40000;

/// Bytes of an RGB raster of the screen, three per pixel.
pub const RASTER_LEN: usize = 120000;

/// Colour of pixel `p` (pixel `(x, y)` is `p = y * 200 + x`): bit `7 - p % 8`
/// of byte `p / 8`, where 0 is black and 1 is white. A pixel whose byte is
/// missing from the payload is red.
pub open spec fn pixel_color(payload: Seq<u8>, p: int) -> (u8, u8, u8) {
    if p / 8 < payload.len() {
        if (payload[p / 8] >> ((7 - p % 8) as u8)) & 1u8 == 0 {
            (0u8, 0u8, 0u8)
        } else {
            (255u8, 255u8, 255u8)
        }
    } else {
        (255u8, 0u8, 0u8)
    }
}

/// Byte `i` of the row-major RGB raster decoded from `payload`.
pub open spec fn raster_byte(payload: Seq<u8>, i: int) -> u8 {
    let c = pixel_color(payload, i / 3);
    if i % 3 == 0 {
        c.0
    } else if i % 3 == 1 {
        c.1
    } else {
        c.2
    }
}

/// The row-major RGB raster of the whole screen decoded from `payload`.
pub open spec fn raster_of(payload: Seq<u8>) -> Seq<u8> {
    Seq::new(RASTER_LEN as nat, |i: int| raster_byte(payload, i))
}

/// The PNG file that the image crate writes for an RGB raster of the given size.
pub uninterp spec fn png_of_rgb(width: u32, height: u32, raster: Seq<u8>) -> Seq<u8>;

/// Relies on image's `RgbImage::from_raw` and `ImageBuffer::write_to` with
/// `ImageFormat::Png`: encodes the RGB raster as a PNG file.
#[verifier::external_body]
fn encode_png(width: u32, height: u32, raster: Vec<u8>) -> (r: Option<Vec<u8>>)
    requires
        raster@.len() == width * height * 3,
    ensures
        r matches Some(png) ==> png@ == png_of_rgb(width, height, raster@),
        width > 0 && height > 0 ==> r is Some,
{
    let img = image::RgbImage::from_raw(width, height, raster)?;
    let mut out = std::io::Cursor::new(Vec::new());
    img.write_to(&mut out, image::ImageFormat::Png).ok()?;
    Some(out.into_inner())
}

/// Decodes a packed screen payload into a 200x200 RGB raster. A payload that
/// is too short never fails: its missing pixels come out red.
pub fn decode_raster(payload: &[u8]) -> (r: Vec<u8>)
    ensures
        r@ == raster_of(payload@),
{
    let n = payload.len();
    let mut r: Vec<u8> = Vec::with_capacity(RASTER_LEN);
    let mut p: usize = 0;
    while p < SCREEN_PIXELS
        invariant
            n == payload@.len(),
            p <= SCREEN_PIXELS,
            r@.len() == 3 * p,
            forall|i: int| 0 <= i < r@.len() ==> r@[i] == raster_byte(payload@, i),
        decreases SCREEN_PIXELS - p,
    {
        let index = p / 8;
        let bit_offset = (7 - p % 8) as u8;
        let (red, green, blue) = if index < n {
            if (payload[index] >> bit_offset) & 1u8 == 0 {
                (0u8, 0u8, 0u8)
            } else {
                (255u8, 255u8, 255u8)
            }
        } else {
            (255u8, 0u8, 0u8)
        };
        assert((red, green, blue) == pixel_color(payload@, p as int));
        r.push(red);
        r.push(green);
        r.push(blue);
        assert((3 * p) / 3 == p && (3 * p) % 3 == 0);
        assert((3 * p + 1) / 3 == p && (3 * p + 1) % 3 == 1);
        assert((3 * p + 2) / 3 == p && (3 * p + 2) % 3 == 2);
        p = p + 1;
    }
    assert(r@ =~= raster_of(payload@));
    r
}

/// Decodes a screen payload and encodes the raster as a PNG file.
pub fn screen_png(payload: &[u8]) -> (r: Vec<u8>)
    ensures
        r@ == png_of_rgb(200, 200, raster_of(payload@)),
{
    let raster = decode_raster(payload);
    match encode_png(SCREEN_SIDE as u32, SCREEN_SIDE as u32, raster) {
        Some(png) => png,
        None => {
            proof {
                assert(false);
            }
            Vec::new()
        },
    }
}

proof fn lemma_bits_of_uniform_byte(k: u8)
    requires
        k < 8,
    ensures
        (0u8 >> k) & 1u8 == 0u8,
        (255u8 >> k) & 1u8 == 1u8,
{
    assert((0u8 >> k) & 1u8 == 0u8) by (bit_vector);
    assert(k < 8 ==> (255u8 >> k) & 1u8 == 1u8) by (bit_vector);
}

/// A full payload of zero bytes decodes to an all-black screen.
pub proof fn lemma_zero_payload_is_black(payload: Seq<u8>)
    requires
        payload.len() == PAYLOAD_LEN,
        forall|j: int| 0 <= j < payload.len() ==> payload[j] == 0,
    ensures
        forall|i: int| 0 <= i < RASTER_LEN ==> #[trigger] raster_of(payload)[i] == 0,
{
    assert forall|i: int| 0 <= i < RASTER_LEN implies #[trigger] raster_of(payload)[i] == 0 by {
        let p = i / 3;
        lemma_bits_of_uniform_byte((7 - p % 8) as u8);
    }
}

/// A full payload of `0xFF` bytes decodes to an all-white screen.
pub proof fn lemma_full_payload_is_white(payload: Seq<u8>)
    requires
        payload.len() == PAYLOAD_LEN,
        forall|j: int| 0 <= j < payload.len() ==> payload[j] == 0xFF,
    ensures
        forall|i: int| 0 <= i < RASTER_LEN ==> #[trigger] raster_of(payload)[i] == 255,
{
    assert forall|i: int| 0 <= i < RASTER_LEN implies #[trigger] raster_of(payload)[i] == 255 by {
        let p = i / 3;
        lemma_bits_of_uniform_byte((7 - p % 8) as u8);
    }
}

/// A payload one byte short decodes without failing: the last eight pixels,
/// `(192..200, 199)`, whose byte is missing, are red.
pub proof fn lemma_short_payload_ends_red(payload: Seq<u8>)
    requires
        payload.len() == PAYLOAD_LEN - 1,
    ensures
        raster_of(payload).len() == RASTER_LEN,
        forall|p: int| 39992 <= p < 40000 ==> #[trigger] pixel_color(payload, p) == (255u8, 0u8, 0u8),
        forall|i: int| 3 * 39992 <= i < RASTER_LEN ==> #[trigger] raster_of(payload)[i] == if i % 3
            == 0 {
            255u8
        } else {
            0u8
        },
{
}

} // verus!
