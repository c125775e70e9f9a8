//! Pictures: naming new photo files, thumbnails, and the `data:` URLs that
//! carry images to the user interface.
use vstd::prelude::*;
use crate::paths::{kept_extension, photo_extension};
use image::DynamicImage;
use base64::Engine;

verus! {

/// A decoded image of the `image` crate, carried through unopened.
#[verifier::external_type_specification]
#[verifier::external_body]
pub struct ExDynamicImage(image::DynamicImage);

/// The character of the standard base64 alphabet for a 6-bit value:
/// `A`-`Z`, `a`-`z`, `0`-`9`, `+`, `/`.
pub open spec fn base64_char(v: int) -> char {
    if v < 26 {
        (65 + v) as char
    } else if v < 52 {
        (97 + v - 26) as char
    } else if v < 62 {
        (48 + v - 52) as char
    } else if v == 62 {
        '+'
    } else {
        '/'
    }
}

/// The standard, padded base64 encoding of `bytes` (RFC 4648, section 4):
/// each group of three bytes becomes four characters of six bits each; a
/// last group of two bytes becomes three characters and `=`, one of one
/// byte two characters and `==`.
pub open spec fn base64_standard(bytes: Seq<u8>) -> Seq<char>
    decreases bytes.len(),
{
    if bytes.len() == 0 {
        Seq::empty()
    } else if bytes.len() == 1 {
        let a = bytes[0] as int;
        seq![base64_char(a / 4), base64_char((a % 4) * 16), '=', '=']
    } else if bytes.len() == 2 {
        let a = bytes[0] as int;
        let b = bytes[1] as int;
        seq![base64_char(a / 4), base64_char((a % 4) * 16 + b / 16), base64_char((b % 16) * 4), '=']
    } else {
        let a = bytes[0] as int;
        let b = bytes[1] as int;
        let c = bytes[2] as int;
        seq![
            base64_char(a / 4),
            base64_char((a % 4) * 16 + b / 16),
            base64_char((b % 16) * 4 + c / 64),
            base64_char(c % 64),
        ] + base64_standard(bytes.skip(3))
    }
}

/// `base64::engine::general_purpose::STANDARD.encode`: the standard alphabet
/// with `=` padding (see `base64_standard`). The encoder panics only when
/// the output length overflows `usize`, which the bound on the input rules
/// out.
#[verifier::external_body]
fn base64_encode(bytes: &[u8]) -> (r: String)
    requires
        bytes@.len() <= usize::MAX / 2,
    ensures
        r@ == base64_standard(bytes@),
{
    base64::engine::general_purpose::STANDARD.encode(bytes)
}

/// A lowercase hexadecimal digit.
pub open spec fn is_lower_hex(c: char) -> bool {
    ('0' <= c && c <= '9') || ('a' <= c && c <= 'f')
}

/// The hyphenated lowercase text of a version-4, RFC 4122 variant UUID.
pub open spec fn is_v4_uuid_text(s: Seq<char>) -> bool {
    &&& s.len() == 36
    &&& forall|i: int|
        0 <= i < 36 ==> if i == 8 || i == 13 || i == 18 || i == 23 {
            #[trigger] s[i] == '-'
        } else {
            is_lower_hex(s[i])
        }
    &&& s[14] == '4'
    &&& (s[19] == '8' || s[19] == '9' || s[19] == 'a' || s[19] == 'b')
}

/// `uuid::Uuid::new_v4` written with `Display`: a random version-4 UUID in
/// its hyphenated lowercase form. Which UUID comes back is left open; the
/// generator panics if the operating system refuses random bytes.
#[verifier::external_body]
fn new_uuid_text() -> (r: String)
    ensures
        is_v4_uuid_text(r@),
{
    uuid::Uuid::new_v4().to_string()
}

/// A new random identifier for a record: a version-4 UUID in hyphenated
/// lowercase form.
pub fn new_id() -> (r: String)
    ensures
        is_v4_uuid_text(r@),
{
    new_uuid_text()
}

/// A fresh name for a photo copied from `src`: a new random UUID, a dot, and
/// the source's extension (`jpg` when it has none).
pub fn fresh_photo_name(src: &str) -> (r: String)
    ensures
        exists|u: Seq<char>| is_v4_uuid_text(u) && r@ == u + seq!['.'] + kept_extension(src@),
{
    let ext = photo_extension(src);
    let mut name = new_uuid_text();
    let ghost u = name@;
    name.push('.');
    name.append(ext.as_str());
    assert(name@ == u + seq!['.'] + kept_extension(src@));
    name
}

/// The resampling filter used when resizing.
pub enum ResizeFilter {
    /// Lanczos with window 3, used for thumbnails.
    Lanczos3,
    /// Linear filter, used for full-size views.
    Triangle,
}

/// A decoded picture and its pixel dimensions.
pub struct Picture {
    image: DynamicImage,
    width: u32,
    height: u32,
}

impl Picture {
    /// Width in pixels.
    pub closed spec fn pixel_width(&self) -> u32 {
        self.width
    }

    /// Height in pixels.
    pub closed spec fn pixel_height(&self) -> u32 {
        self.height
    }

    /// The decoded image itself.
    pub closed spec fn image(&self) -> DynamicImage {
        self.image
    }

    /// Width in pixels.
    pub fn width(&self) -> (r: u32)
        ensures
            r == self.pixel_width(),
    {
        self.width
    }

    /// Height in pixels.
    pub fn height(&self) -> (r: u32)
        ensures
            r == self.pixel_height(),
    {
        self.height
    }

    /// Wraps a decoded image, reading its dimensions.
    pub fn new(image: DynamicImage) -> (r: Picture)
        ensures
            r.image() == image,
    {
        let width = image_width(&image);
        let height = image_height(&image);
        Picture { image, width, height }
    }

    /// The decoded image, for writing it out.
    pub fn into_image(self) -> (r: DynamicImage)
        ensures
            r == self.image(),
    {
        self.image
    }
}

/// `DynamicImage::width`.
#[verifier::external_body]
fn image_width(image: &DynamicImage) -> u32 {
    image.width()
}

/// `DynamicImage::height`.
#[verifier::external_body]
fn image_height(image: &DynamicImage) -> u32 {
    image.height()
}

/// The size `rw` by `rh` that a `w` by `h` picture is scaled to so as to
/// fit within `bw` by `bh` with its aspect ratio kept: the side whose bound
/// limits the scale reaches that bound, and the other side is the scaled
/// length rounded, within one pixel; neither side exceeds its bound or is 0.
pub open spec fn fits_within(w: int, h: int, bw: int, bh: int, rw: int, rh: int) -> bool {
    &&& 1 <= rw <= bw
    &&& 1 <= rh <= bh
    &&& if bw * h <= bh * w {
        rw == bw && rh * w < h * bw + w && h * bw < rh * w + w
    } else {
        rh == bh && rw * h < w * bh + h && w * bh < rw * h + h
    }
}

/// `DynamicImage::resize`, then the dimensions of the result: a picture
/// that already has exactly the requested dimensions comes back as it is;
/// otherwise the scale is `min(nwidth / width, nheight / height)` and each
/// side is the old side times the scale, rounded, at least 1 (see
/// `fits_within`; the rounding is done in `f64`, whose error stays far below
/// half a pixel at `u32` sizes). What the pixels hold is not stated.
#[verifier::external_body]
fn resize_picture(p: &Picture, nwidth: u32, nheight: u32, filter: ResizeFilter) -> (r: Picture)
    ensures
        (nwidth, nheight) == (p.pixel_width(), p.pixel_height()) ==> r.pixel_width()
            == p.pixel_width() && r.pixel_height() == p.pixel_height(),
        p.pixel_width() >= 1 && p.pixel_height() >= 1 && nwidth >= 1 && nheight >= 1
            ==> fits_within(
            p.pixel_width() as int,
            p.pixel_height() as int,
            nwidth as int,
            nheight as int,
            r.pixel_width() as int,
            r.pixel_height() as int,
        ),
{
    let f = match filter {
        ResizeFilter::Lanczos3 => image::imageops::FilterType::Lanczos3,
        ResizeFilter::Triangle => image::imageops::FilterType::Triangle,
    };
    let image = p.image.resize(nwidth, nheight, f);
    Picture { width: image.width(), height: image.height(), image }
}

/// What `image::load_from_memory` makes of `bytes`: `None` when it cannot
/// decode them (the format is guessed from the first bytes, and the decoder
/// of that format must accept the rest within the default limits), else the
/// width and height of the decoded image. This depends on the bytes alone.
pub uninterp spec fn decoded_size(bytes: Seq<u8>) -> Option<(u32, u32)>;

/// `image::load_from_memory`, then `DynamicImage::width` and `height` of
/// the result: decodes an image, guessing its format from its first bytes,
/// with its dimensions. Which pixels come back is not stated.
#[verifier::external_body]
fn decode_image(bytes: &[u8]) -> (r: Option<(DynamicImage, u32, u32)>)
    ensures
        match r {
            Some((_, w, h)) => decoded_size(bytes@) == Some((w, h)),
            None => decoded_size(bytes@) is None,
        },
{
    match image::load_from_memory(bytes) {
        Ok(image) => {
            let (w, h) = (image.width(), image.height());
            Some((image, w, h))
        },
        Err(_) => None,
    }
}

/// The sizes the JPEG encoder accepts: both sides from 1 to 65535 pixels.
pub open spec fn jpeg_encodable(w: u32, h: u32) -> bool {
    1 <= w <= 65535 && 1 <= h <= 65535
}

/// A complete JPEG stream as the encoder writes it: it opens with the
/// start-of-image marker `FF D8` and closes with the end-of-image marker
/// `FF D9`, with the headers and the scan in between.
pub open spec fn is_jpeg_stream(b: Seq<u8>) -> bool {
    &&& b.len() >= 4
    &&& b[0] == 0xFFu8 && b[1] == 0xD8u8
    &&& b[b.len() - 2] == 0xFFu8 && b[b.len() - 1] == 0xD9u8
}

/// A complete JPEG stream, as the encoder writes it, of a `w` by `h`
/// picture: after the start-of-image marker (2 bytes) and the JFIF header
/// segment (18 bytes) comes the baseline frame header, marker `FF C0`, whose
/// height and width fields (bytes 25 to 28) hold `h` and `w`, big-endian.
pub open spec fn is_jpeg_of_size(b: Seq<u8>, w: u32, h: u32) -> bool {
    &&& is_jpeg_stream(b)
    &&& b.len() >= 29
    &&& b[20] == 0xFFu8 && b[21] == 0xC0u8
    &&& b[25] as int == h as int / 256 && b[26] as int == h as int % 256
    &&& b[27] as int == w as int / 256 && b[28] as int == w as int % 256
}

/// `DynamicImage::to_rgb8` followed by `ImageBuffer::write_to` in the JPEG
/// format, into a fresh buffer. The encoder refuses a picture with a side of
/// 0 or above 65535 pixels and, writing into memory, fails in no other way;
/// the dimensions a `Picture` records are those read from its image, and
/// `to_rgb8` keeps them. With the encoder's defaults (no EXIF, no ICC
/// profile) it writes the start-of-image marker, the JFIF header, then the
/// frame header holding the picture's height and width, and ends with the
/// end-of-image marker (see `is_jpeg_of_size`); the tables and compressed
/// pixels are not stated. Being a `Vec`, the bytes hold at most
/// `isize::MAX` elements.
#[verifier::external_body]
fn encode_jpeg(p: &Picture) -> (r: Option<Vec<u8>>)
    ensures
        r is Some <==> jpeg_encodable(p.pixel_width(), p.pixel_height()),
        r matches Some(b) ==> b@.len() <= usize::MAX / 2 && is_jpeg_of_size(
            b@,
            p.pixel_width(),
            p.pixel_height(),
        ),
{
    let mut buf = Vec::new();
    p.image.to_rgb8().write_to(&mut std::io::Cursor::new(&mut buf), image::ImageFormat::Jpeg).ok()?;
    Some(buf)
}

/// Decodes an image held in memory; it succeeds exactly when the image
/// crate decodes the bytes, and the picture has the decoded dimensions.
pub fn decode_picture(bytes: &[u8]) -> (r: Option<Picture>)
    ensures
        match r {
            Some(p) => decoded_size(bytes@) == Some((p.pixel_width(), p.pixel_height())),
            None => decoded_size(bytes@) is None,
        },
{
    match decode_image(bytes) {
        Some((image, width, height)) => Some(Picture { image, width, height }),
        None => None,
    }
}

/// The side, in pixels, that thumbnails fit in.
pub const THUMB_PX: u32 = 250;

/// A thumbnail of `p`: the picture scaled, aspect ratio kept, to fit a
/// `THUMB_PX` square (a picture of exactly that size is kept as it is).
pub fn make_thumbnail(p: &Picture) -> (r: Picture)
    ensures
        (p.pixel_width(), p.pixel_height()) == (THUMB_PX, THUMB_PX) ==> r.pixel_width()
            == THUMB_PX && r.pixel_height() == THUMB_PX,
        p.pixel_width() >= 1 && p.pixel_height() >= 1 ==> fits_within(
            p.pixel_width() as int,
            p.pixel_height() as int,
            THUMB_PX as int,
            THUMB_PX as int,
            r.pixel_width() as int,
            r.pixel_height() as int,
        ),
{
    resize_picture(p, THUMB_PX, THUMB_PX, ResizeFilter::Lanczos3)
}

/// The text of a `data:` URL carrying JPEG bytes.
pub open spec fn jpeg_url(jpeg: Seq<u8>) -> Seq<char> {
    "data:image/jpeg;base64,"@ + base64_standard(jpeg)
}

/// The `data:` URL that carries the JPEG bytes `jpeg`.
pub fn jpeg_data_url_text(jpeg: &[u8]) -> (r: String)
    requires
        jpeg@.len() <= usize::MAX / 2,
    ensures
        r@ == jpeg_url(jpeg@),
{
    let mut r = "data:image/jpeg;base64,".to_owned();
    let enc = base64_encode(jpeg);
    r.append(enc.as_str());
    r
}

/// The picture as a JPEG `data:` URL, when it can be encoded: exactly when
/// the encoder accepts its size.
pub fn jpeg_data_url(p: &Picture) -> (r: Option<String>)
    ensures
        r is Some <==> jpeg_encodable(p.pixel_width(), p.pixel_height()),
        r matches Some(u) ==> exists|b: Seq<u8>|
            is_jpeg_of_size(b, p.pixel_width(), p.pixel_height()) && #[trigger] jpeg_url(b) == u@,
{
    match encode_jpeg(p) {
        Some(bytes) => {
            let u = jpeg_data_url_text(bytes.as_slice());
            Some(u)
        },
        None => None,
    }
}

/// Whether a picture of `width` by `height` pixels must be scaled down to be
/// shown at most `max_px` pixels on its longest side.
pub open spec fn needs_downscale(width: u32, height: u32, max_px: u32) -> bool {
    width > max_px || height > max_px
}

/// The size `w` by `h` a full-size view delivers of a `width` by `height`
/// picture, at most `max_px` on its longest side: the picture's own size when
/// it fits, else (for a picture of positive size and a positive bound) the
/// size it is scaled to so as to fit a `max_px` square (see `fits_within`).
pub open spec fn delivered_size(width: u32, height: u32, max_px: u32, w: u32, h: u32) -> bool {
    &&& !needs_downscale(width, height, max_px) ==> w == width && h == height
    &&& needs_downscale(width, height, max_px) && width >= 1 && height >= 1 && max_px >= 1
        ==> fits_within(width as int, height as int, max_px as int, max_px as int, w as int, h as int)
}

/// When a full-size view of a `width` by `height` picture, at most `max_px`
/// on its longest side, succeeds (`ok`): a picture shown as it is succeeds
/// exactly when the encoder accepts its size; a scaled one (of positive
/// size, to a positive bound) reaches `max_px` on one side, so it succeeds
/// exactly when `max_px` is at most 65535.
pub open spec fn delivers(width: u32, height: u32, max_px: u32, ok: bool) -> bool {
    &&& !needs_downscale(width, height, max_px) ==> (ok <==> jpeg_encodable(width, height))
    &&& needs_downscale(width, height, max_px) && width >= 1 && height >= 1 && max_px >= 1 ==> (ok
        <==> max_px <= 65535)
}

/// What a full-size view delivers of a picture: the picture itself when its
/// longest side is at most `max_px`, else the picture scaled to fit a
/// `max_px` square; encoded as JPEG, with the delivered width and height.
/// It fails only when the encoder refuses the delivered size.
pub fn photo_bytes(p: &Picture, max_px: u32) -> (r: Option<(Vec<u8>, u32, u32)>)
    ensures
        delivers(p.pixel_width(), p.pixel_height(), max_px, r is Some),
        r matches Some((b, w, h)) ==> {
            &&& b@.len() <= usize::MAX / 2
            &&& is_jpeg_of_size(b@, w, h)
            &&& delivered_size(p.pixel_width(), p.pixel_height(), max_px, w, h)
        },
{
    let longest = if p.width() > p.height() {
        p.width()
    } else {
        p.height()
    };
    if longest > max_px {
        let small = resize_picture(p, max_px, max_px, ResizeFilter::Triangle);
        match encode_jpeg(&small) {
            Some(b) => Some((b, small.width(), small.height())),
            None => None,
        }
    } else {
        match encode_jpeg(p) {
            Some(b) => Some((b, p.width(), p.height())),
            None => None,
        }
    }
}

/// The picture as a JPEG `data:` URL no larger than `max_px` on its longest
/// side, together with the delivered width and height, as `photo_bytes`
/// delivers them.
pub fn photo_data_url(p: &Picture, max_px: u32) -> (r: Option<(String, u32, u32)>)
    ensures
        delivers(p.pixel_width(), p.pixel_height(), max_px, r is Some),
        r matches Some((u, w, h)) ==> {
            &&& exists|b: Seq<u8>| is_jpeg_of_size(b, w, h) && #[trigger] jpeg_url(b) == u@
            &&& delivered_size(p.pixel_width(), p.pixel_height(), max_px, w, h)
        },
{
    match photo_bytes(p, max_px) {
        Some((b, w, h)) => {
            let u = jpeg_data_url_text(b.as_slice());
            Some((u, w, h))
        },
        None => None,
    }
}

} // verus!
