//! 24-bit RGB images: the byte form of a rendered picture (PPM and PNG) and
//! decoded textures.

use vstd::prelude::*;
use crate::target::RenderTarget;

verus! {

/// A pixel with 8 bits per channel.
#[derive(Clone, Copy, Debug, PartialEq, Eq, Structural)]
pub struct Rgb8 {
    pub r: u8,
    pub g: u8,
    pub b: u8,
}

/// Why an image could not be encoded or decoded.
#[derive(Clone, Copy, Debug, PartialEq, Eq, Structural)]
pub enum ImageError {
    /// The PNG codec refused the data.
    Codec,
    /// The image has no pixels, or fewer than its size calls for.
    BadSize,
}

/// lodepng's error type, only carried from the codec calls to be mapped to
/// `ImageError`.
#[verifier::external_type_specification]
#[verifier::external_body]
pub struct ExPngError(lodepng::Error);

/// The PNG file that encodes a `width` x `height` image given as RGB bytes,
/// row by row.
pub uninterp spec fn png24_encoding(rgb: Seq<u8>, width: nat, height: nat) -> Seq<u8>;

/// The pixels (as RGB bytes, row by row), width and height that a PNG file
/// decodes to.
pub uninterp spec fn png24_decoding(png: Seq<u8>) -> (Seq<u8>, nat, nat);

/// Relies on lodepng::encode24: encodes RGB bytes of the given size as PNG.
/// The slice holds exactly three bytes per pixel, else lodepng asserts.
#[verifier::external_body]
fn encode_png24(rgb: &Vec<u8>, width: usize, height: usize) -> (r: Result<Vec<u8>, lodepng::Error>)
    requires
        width > 0,
        height > 0,
        rgb@.len() == 3 * width * height,
    ensures
        r matches Ok(png) ==> png@ == png24_encoding(rgb@, width as nat, height as nat),
{
    lodepng::encode24(rgb.as_slice(), width, height)
}

/// Relies on lodepng::decode24: decodes a PNG file to 8-bit RGB pixels; on
/// success the bitmap holds at least `width * height` pixels.
#[verifier::external_body]
fn decode_png24(png: &Vec<u8>) -> (r: Result<(Vec<u8>, usize, usize), lodepng::Error>)
    ensures
        r matches Ok(d) ==> (d.0@, d.1 as nat, d.2 as nat) == png24_decoding(png@),
        r matches Ok(d) ==> d.0@.len() >= 3 * d.1 * d.2,
{
    lodepng::decode24(png.as_slice()).map(
        |bmp| (bmp.buffer.iter().flat_map(|p| [p.r, p.g, p.b]).collect(), bmp.width, bmp.height),
    )
}

/// Channel `c` (0 red, 1 green, 2 blue) of a pixel.
pub open spec fn channel(p: Rgb8, c: int) -> u8 {
    if c == 0 {
        p.r
    } else if c == 1 {
        p.g
    } else {
        p.b
    }
}

/// The pixels as bytes: red, green and blue of each pixel in turn.
pub open spec fn rgb_bytes(pixels: Seq<Rgb8>) -> Seq<u8> {
    Seq::new((3 * pixels.len()) as nat, |i: int| channel(pixels[i / 3], i % 3))
}

/// The ASCII decimal digits of `n`, without leading zeros.
pub open spec fn decimal(n: nat) -> Seq<u8>
    decreases n,
{
    if n < 10 {
        seq![(48 + n) as u8]
    } else {
        decimal(n / 10).push((48 + n % 10) as u8)
    }
}

/// The header of a binary PPM file: `P6 <width> <height> 255` and a newline.
pub open spec fn ppm_header(width: nat, height: nat) -> Seq<u8> {
    seq![80u8, 54u8, 32u8] + decimal(width) + seq![32u8] + decimal(height) + seq![
        32u8,
        50u8,
        53u8,
        53u8,
        10u8,
    ]
}

/// Appends the decimal digits of `n`.
fn push_decimal(out: &mut Vec<u8>, n: usize)
    ensures
        final(out)@ == old(out)@ + decimal(n as nat),
    decreases n,
{
    if n >= 10 {
        push_decimal(out, n / 10);
    }
    let ghost mid = out@;
    out.push(48 + (n % 10) as u8);
    proof {
        if n >= 10 {
            assert(mid + seq![(48 + n % 10) as u8] =~= (old(out)@ + decimal((n / 10) as nat)).push(
                (48 + n % 10) as u8,
            ));
            assert(old(out)@ + decimal(n as nat) =~= (old(out)@ + decimal((n / 10) as nat)).push(
                (48 + n % 10) as u8,
            ));
        }
        assert(out@ =~= old(out)@ + decimal(n as nat));
    }
}

/// Appends the bytes of `pixels`.
fn push_rgb_bytes(out: &mut Vec<u8>, pixels: &Vec<Rgb8>)
    ensures
        final(out)@ == old(out)@ + rgb_bytes(pixels@),
{
    let ghost start = out@;
    let mut i: usize = 0;
    while i < pixels.len()
        invariant
            0 <= i <= pixels@.len(),
            out@ =~= start + rgb_bytes(pixels@.subrange(0, i as int)),
        decreases pixels@.len() - i,
    {
        let p = pixels[i];
        out.push(p.r);
        out.push(p.g);
        out.push(p.b);
        proof {
            let done = pixels@.subrange(0, i + 1);
            assert(rgb_bytes(done) =~= rgb_bytes(pixels@.subrange(0, i as int)) + seq![
                p.r,
                p.g,
                p.b,
            ]);
        }
        i += 1;
    }
    assert(pixels@.subrange(0, pixels@.len() as int) =~= pixels@);
}

impl RenderTarget<Rgb8> {
    /// A `width` x `height` image cleared to black.
    pub fn new(width: usize, height: usize) -> (r: RenderTarget<Rgb8>)
        requires
            width > 0,
            height > 0,
            width * height <= usize::MAX,
        ensures
            r.wf(),
            r.width == width,
            r.height == height,
            r.pixels() == Seq::new((width * height) as nat, |i: int| Rgb8 { r: 0, g: 0, b: 0 }),
    {
        RenderTarget::with_clear_color(width, height, &Rgb8 { r: 0, g: 0, b: 0 })
    }

    /// The pixels as RGB bytes, row by row.
    pub fn to_rgb_bytes(&self) -> (r: Vec<u8>)
        ensures
            r@ == rgb_bytes(self.pixels()),
    {
        let mut out: Vec<u8> = Vec::new();
        push_rgb_bytes(&mut out, &self.data);
        assert(out@ =~= rgb_bytes(self.pixels()));
        out
    }

    /// The image as a binary PPM file.
    pub fn to_ppm(&self) -> (r: Vec<u8>)
        ensures
            r@ == ppm_header(self.width as nat, self.height as nat) + rgb_bytes(self.pixels()),
    {
        let mut out: Vec<u8> = Vec::new();
        out.push(80);
        out.push(54);
        out.push(32);
        push_decimal(&mut out, self.width);
        out.push(32);
        push_decimal(&mut out, self.height);
        out.push(32);
        out.push(50);
        out.push(53);
        out.push(53);
        out.push(10);
        assert(out@ =~= ppm_header(self.width as nat, self.height as nat));
        push_rgb_bytes(&mut out, &self.data);
        out
    }

    /// The image as a PNG file.
    pub fn to_png(&self) -> (r: Result<Vec<u8>, ImageError>)
        requires
            self.wf(),
        ensures
            r matches Ok(png) ==> png@ == png24_encoding(
                rgb_bytes(self.pixels()),
                self.width as nat,
                self.height as nat,
            ),
            r matches Err(e) ==> e == ImageError::Codec,
    {
        let rgb = self.to_rgb_bytes();
        assert(rgb@.len() == 3 * self.width * self.height) by (nonlinear_arith)
            requires
                rgb@.len() == 3 * self.pixels().len(),
                self.pixels().len() == self.width * self.height,
        ;
        match encode_png24(&rgb, self.width, self.height) {
            Ok(png) => Ok(png),
            Err(_) => Err(ImageError::Codec),
        }
    }
}

/// A decoded texture: `width` x `height` pixels stored as RGB bytes, row by
/// row, top row first.
pub struct Texture {
    pub width: usize,
    pub height: usize,
    pub rgb: Vec<u8>,
}

/// `v` limited to `last`.
pub open spec fn at_most(v: int, last: int) -> int {
    if v > last {
        last
    } else {
        v
    }
}

impl Texture {
    /// The texture is non-empty and holds bytes for every pixel.
    pub open spec fn wf(&self) -> bool {
        &&& self.width > 0
        &&& self.height > 0
        &&& self.rgb@.len() >= 3 * self.width * self.height
    }

    /// The pixel index that the coordinates `(x, y)` read, coordinates past
    /// the last column or row reading that column or row.
    pub open spec fn texel_index(&self, x: int, y: int) -> int {
        at_most(x, self.width - 1) + at_most(y, self.height - 1) * self.width
    }

    /// A texture from decoded RGB bytes; `BadSize` when it has no pixels or
    /// the bytes do not cover `width * height` pixels.
    pub fn from_decoded(rgb: Vec<u8>, width: usize, height: usize) -> (r: Result<
        Texture,
        ImageError,
    >)
        ensures
            r is Ok <==> width > 0 && height > 0 && rgb@.len() >= 3 * width * height,
            r matches Ok(t) ==> t.wf() && t.width == width && t.height == height && t.rgb@
                == rgb@,
            r matches Err(e) ==> e == ImageError::BadSize,
    {
        if width == 0 || height == 0 {
            return Err(ImageError::BadSize);
        }
        proof {
            let w = width as int;
            let h = height as int;
            assert(w * h <= 0xffff_ffff_ffff_ffff * 0xffff_ffff_ffff_ffff) by (nonlinear_arith)
                requires
                    0 <= w <= 0xffff_ffff_ffff_ffff,
                    0 <= h <= 0xffff_ffff_ffff_ffff,
            ;
            let n = rgb@.len() as int;
            assert(3 * w * h <= n <==> w * h <= n / 3) by (nonlinear_arith)
                requires
                    n >= 0,
            ;
        }
        let area: u128 = width as u128 * height as u128;
        let available: u128 = (rgb.len() / 3) as u128;
        if area > available {
            return Err(ImageError::BadSize);
        }
        Ok(Texture { width, height, rgb })
    }

    /// Decodes a PNG file into a texture.
    pub fn from_png_24(png: &Vec<u8>) -> (r: Result<Texture, ImageError>)
        ensures
            r matches Ok(t) ==> t.wf() && (t.rgb@, t.width as nat, t.height as nat)
                == png24_decoding(png@),
    {
        match decode_png24(png) {
            Ok((rgb, width, height)) => Texture::from_decoded(rgb, width, height),
            Err(_) => Err(ImageError::Codec),
        }
    }

    /// The pixel at `(x, y)`; coordinates past the last column or row read
    /// that column or row.
    pub fn texel(&self, x: usize, y: usize) -> (r: Rgb8)
        requires
            self.wf(),
        ensures
            ({
                let i = self.texel_index(x as int, y as int);
                r == Rgb8 { r: self.rgb@[3 * i], g: self.rgb@[3 * i + 1], b: self.rgb@[3 * i + 2] }
            }),
    {
        let _len = self.rgb.len();
        let cx: usize = if x > self.width - 1 {
            self.width - 1
        } else {
            x
        };
        let cy: usize = if y > self.height - 1 {
            self.height - 1
        } else {
            y
        };
        proof {
            crate::image::lemma_texel_in_range(
                cx as int,
                cy as int,
                self.width as int,
                self.height as int,
                self.rgb@.len() as int,
            );
        }
        let i: usize = cx + cy * self.width;
        Rgb8 { r: self.rgb[3 * i], g: self.rgb[3 * i + 1], b: self.rgb[3 * i + 2] }
    }
}

/// The bytes of a pixel inside the texture lie inside its byte buffer.
proof fn lemma_texel_in_range(x: int, y: int, width: int, height: int, len: int)
    requires
        0 <= x < width,
        0 <= y < height,
        len >= 3 * width * height,
    ensures
        0 <= x + y * width,
        3 * (x + y * width) + 2 < len,
{
    assert(0 <= y * width) by (nonlinear_arith)
        requires
            0 <= y,
            0 <= width,
    ;
    assert(x + y * width < width * height) by (nonlinear_arith)
        requires
            0 <= x < width,
            0 <= y < height,
    ;
    assert(3 * (x + y * width) + 2 < 3 * width * height) by (nonlinear_arith)
        requires
            x + y * width < width * height,
    ;
}

} // verus!
