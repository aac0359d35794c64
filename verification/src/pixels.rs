//! Captured pictures: pixel formats, half-precision numbers and bitmap files.
use vstd::prelude::*;
use vstd::arithmetic::power2::pow2;
use crate::bytes::{append_bytes, copy_bytes, le16, le32, push_le16, push_le32, read_le16};

verus! {

/// The formats of pictures from desktop duplication.
#[derive(Clone, Copy, Debug, PartialEq, Eq, Structural)]
pub enum DxgiDuplicationFormat {
    Rgba16F,
    Rgb10A2,
    Rgb10XrA2,
    Rgba8,
    Rgba8Srgb,
    Bgra8,
    Bgra8Srgb,
}

/// The formats of pictures from the graphics capture interface.
#[derive(Clone, Copy, Debug, PartialEq, Eq, Structural)]
pub enum ColorFormat {
    Rgba16F,
    Rgba8,
    Bgra8,
}

/// Why a picture cannot be converted or written.
#[derive(Clone, Copy, Debug, PartialEq, Eq, Structural)]
pub enum PixelError {
    /// The format has ten bits per channel.
    UnsupportedFormat(DxgiDuplicationFormat),
    /// There are fewer bytes than the picture needs.
    BufferTooSmall { got: usize, expected: usize },
    /// The bitmap file would be too large.
    FileTooLarge,
}

// ---------------------------------------------------------------------------
// Eight bits per channel
// ---------------------------------------------------------------------------
/// The pixels with red and blue exchanged; what follows the last whole pixel
/// stays as it is.
pub open spec fn red_blue_swapped(pixels: Seq<u8>) -> Seq<u8> {
    Seq::new(
        pixels.len(),
        |i: int|
            if i / 4 * 4 + 4 > pixels.len() {
                pixels[i]
            } else if i % 4 == 0 {
                pixels[i + 2]
            } else if i % 4 == 2 {
                pixels[i - 2]
            } else {
                pixels[i]
            },
    )
}

/// Exchanges red and blue of every pixel.
pub fn rgba_to_bgra(pixels: &[u8]) -> (out: Vec<u8>)
    ensures
        out@ == red_blue_swapped(pixels@),
{
    let total: usize = pixels.len();
    let mut out: Vec<u8> = Vec::new();
    let mut i: usize = 0;
    while total - i >= 4
        invariant
            total == pixels@.len(),
            i <= total,
            i % 4 == 0,
            out@ =~= red_blue_swapped(pixels@).take(i as int),
        decreases total - i,
    {
        out.push(pixels[i + 2]);
        out.push(pixels[i + 1]);
        out.push(pixels[i]);
        out.push(pixels[i + 3]);
        i += 4;
    }
    let ghost whole = i as int;
    while i < total
        invariant
            total == pixels@.len(),
            whole <= i <= total,
            whole % 4 == 0,
            total - whole < 4,
            out@ =~= red_blue_swapped(pixels@).take(i as int),
        decreases total - i,
    {
        out.push(pixels[i]);
        i += 1;
    }
    out
}

/// Exchanging red and blue twice gives the pixels back.
pub proof fn swapping_twice_changes_nothing(pixels: Seq<u8>)
    ensures
        red_blue_swapped(red_blue_swapped(pixels)) == pixels,
{
    assert(red_blue_swapped(red_blue_swapped(pixels)) =~= pixels);
}

// ---------------------------------------------------------------------------
// Half-precision numbers
// ---------------------------------------------------------------------------
/// The sign bit of a half-precision number.
pub open spec fn half_sign(bits: u16) -> nat {
    (bits / 0x8000) as nat
}

/// The exponent field of a half-precision number.
pub open spec fn half_exponent(bits: u16) -> nat {
    (bits / 0x400 % 32) as nat
}

/// The fraction field of a half-precision number.
pub open spec fn half_fraction(bits: u16) -> nat {
    (bits % 0x400) as nat
}

/// The magnitude of a finite half-precision number, in units of `2^-24`.
pub open spec fn half_magnitude(bits: u16) -> nat {
    if half_exponent(bits) == 0 {
        half_fraction(bits)
    } else {
        (1024 + half_fraction(bits)) * pow2((half_exponent(bits) - 1) as nat)
    }
}

/// The sign bit of a single-precision number.
pub open spec fn single_sign(bits: u32) -> nat {
    (bits / 0x8000_0000) as nat
}

/// The exponent field of a single-precision number.
pub open spec fn single_exponent(bits: u32) -> nat {
    (bits / 0x80_0000 % 256) as nat
}

/// The fraction field of a single-precision number.
pub open spec fn single_fraction(bits: u32) -> nat {
    (bits % 0x80_0000) as nat
}

/// The magnitude of a finite single-precision number, in units of `2^-149`.
pub open spec fn single_magnitude(bits: u32) -> nat {
    if single_exponent(bits) == 0 {
        single_fraction(bits)
    } else {
        (0x80_0000 + single_fraction(bits)) * pow2((single_exponent(bits) - 1) as nat)
    }
}

/// How often `fraction`, at least one, is doubled until it has eleven bits.
pub open spec fn normal_shift(fraction: nat) -> nat
    decreases 2048 - fraction,
{
    if fraction == 0 || fraction >= 1024 {
        0
    } else {
        1 + normal_shift(2 * fraction)
    }
}

/// The bits of the single-precision number equal to a half-precision number.
pub open spec fn single_of_half(bits: u16) -> u32 {
    let sign = half_sign(bits) * 0x8000_0000;
    let exponent = half_exponent(bits);
    let fraction = half_fraction(bits);
    if exponent == 31 {
        (sign + 0x7f80_0000 + fraction * 0x2000) as u32
    } else if exponent > 0 {
        (sign + (exponent + 112) * 0x80_0000 + fraction * 0x2000) as u32
    } else if fraction == 0 {
        sign as u32
    } else {
        let shift = normal_shift(fraction);
        (sign + (113 - shift) * 0x80_0000 + (fraction * pow2(shift) - 1024) * 0x2000) as u32
    }
}

proof fn lemma_normal_shift(fraction: nat)
    requires
        0 < fraction < 2048,
    ensures
        normal_shift(fraction) <= 10,
        1024 <= fraction * pow2(normal_shift(fraction)) < 2048,
        fraction >= 512 ==> normal_shift(fraction) <= 1,
        fraction >= 256 ==> normal_shift(fraction) <= 2,
        fraction >= 128 ==> normal_shift(fraction) <= 3,
        fraction >= 64 ==> normal_shift(fraction) <= 4,
        fraction >= 32 ==> normal_shift(fraction) <= 5,
        fraction >= 16 ==> normal_shift(fraction) <= 6,
        fraction >= 8 ==> normal_shift(fraction) <= 7,
        fraction >= 4 ==> normal_shift(fraction) <= 8,
        fraction >= 2 ==> normal_shift(fraction) <= 9,
    decreases 2048 - fraction,
{
    vstd::arithmetic::power2::lemma2_to64();
    if fraction >= 1024 {
        assert(fraction * pow2(0) == fraction) by (nonlinear_arith)
            requires
                pow2(0) == 1,
        ;
    }
    if fraction < 1024 {
        lemma_normal_shift(2 * fraction);
        let n = normal_shift(2 * fraction);
        vstd::arithmetic::power2::lemma_pow2_unfold(n + 1);
        assert(fraction * (2 * pow2(n)) == (2 * fraction) * pow2(n)) by (nonlinear_arith);
    }
}

/// The bits of the single-precision number equal to a half-precision number.
pub fn f16_to_f32_bits(bits: u16) -> (single: u32)
    ensures
        single == single_of_half(bits),
{
    let sign: u32 = (bits / 0x8000) as u32 * 0x8000_0000;
    let exponent: u32 = (bits / 0x400 % 32) as u32;
    let fraction: u32 = (bits % 0x400) as u32;
    if exponent == 31 {
        sign + 0x7f80_0000 + fraction * 0x2000
    } else if exponent > 0 {
        sign + (exponent + 112) * 0x80_0000 + fraction * 0x2000
    } else if fraction == 0 {
        sign
    } else {
        let mut scaled: u32 = fraction;
        let mut shift: u32 = 0;
        proof {
            vstd::arithmetic::power2::lemma2_to64();
            lemma_normal_shift(fraction as nat);
            assert(fraction * pow2(0) == fraction);
        }
        while scaled < 1024
            invariant
                0 < fraction < 1024,
                0 < scaled < 2048,
                shift <= 10,
                scaled == fraction * pow2(shift as nat),
                normal_shift(fraction as nat) == shift + normal_shift(scaled as nat),
                normal_shift(fraction as nat) <= 10,
            decreases 2048 - scaled,
        {
            proof {
                vstd::arithmetic::power2::lemma_pow2_unfold((shift + 1) as nat);
                assert(fraction * (2 * pow2(shift as nat)) == 2 * (fraction * pow2(shift as nat)))
                    by (nonlinear_arith);
            }
            scaled = scaled * 2;
            shift += 1;
        }
        sign + (113 - shift) * 0x80_0000 + (scaled - 1024) * 0x2000
    }
}

proof fn lemma_single_fields(sign: int, exponent: int, fraction: int, bits: u32)
    requires
        0 <= sign < 2,
        0 <= exponent < 256,
        0 <= fraction < 0x80_0000,
        bits == sign * 0x8000_0000 + exponent * 0x80_0000 + fraction,
    ensures
        single_sign(bits) == sign,
        single_exponent(bits) == exponent,
        single_fraction(bits) == fraction,
{
    assert(bits / 0x80_0000 == sign * 256 + exponent);
}

proof fn lemma_half_fields(bits: u16)
    ensures
        half_sign(bits) < 2,
        half_exponent(bits) < 32,
        half_fraction(bits) < 1024,
{
}

/// Converting a half-precision number to single precision keeps its sign and its
/// exact value; infinities stay infinities and what is no number stays none.
pub proof fn conversion_is_exact(bits: u16)
    ensures
        single_sign(single_of_half(bits)) == half_sign(bits),
        half_exponent(bits) < 31 ==> {
            &&& single_exponent(single_of_half(bits)) < 255
            &&& single_magnitude(single_of_half(bits)) == half_magnitude(bits) * pow2(125)
        },
        half_exponent(bits) == 31 ==> {
            &&& single_exponent(single_of_half(bits)) == 255
            &&& single_fraction(single_of_half(bits)) == half_fraction(bits) * 0x2000
        },
{
    let sign = half_sign(bits) as int;
    let exponent = half_exponent(bits) as int;
    let fraction = half_fraction(bits) as int;
    let single = single_of_half(bits);
    lemma_half_fields(bits);
    vstd::arithmetic::power2::lemma2_to64();
    if exponent == 31 {
        lemma_single_fields(sign, 255, fraction * 0x2000, single);
    } else if exponent > 0 {
        lemma_single_fields(sign, exponent + 112, fraction * 0x2000, single);
        vstd::arithmetic::power2::lemma_pow2_adds((exponent - 1) as nat, 112);
        vstd::arithmetic::power2::lemma_pow2_adds(13, 112);
        let p = pow2((exponent - 1) as nat) as int;
        let q = pow2(112) as int;
        assert(pow2((exponent + 111) as nat) == p * q);
        assert(pow2(125) == 0x2000 * q);
        assert((0x80_0000 + fraction * 0x2000) * (p * q) == ((1024 + fraction) * p) * (0x2000 * q))
            by (nonlinear_arith);
        assert(half_magnitude(bits) == (1024 + fraction) * p);
        assert(single_magnitude(single) == (0x80_0000 + fraction * 0x2000) * (p * q));
    } else if fraction == 0 {
        lemma_single_fields(sign, 0, 0, single);
        assert(0 * pow2(125) == 0) by (nonlinear_arith);
        assert(single_magnitude(single) == half_magnitude(bits) * pow2(125));
    } else {
        lemma_normal_shift(fraction as nat);
        let shift = normal_shift(fraction as nat) as int;
        let scaled = fraction * pow2(shift as nat);
        lemma_single_fields(sign, 113 - shift, (scaled - 1024) * 0x2000, single);
        vstd::arithmetic::power2::lemma_pow2_adds(shift as nat, (112 - shift) as nat);
        vstd::arithmetic::power2::lemma_pow2_adds(13, 112);
        let p = pow2(shift as nat) as int;
        let q = pow2((112 - shift) as nat) as int;
        assert(pow2(112) == p * q);
        assert(pow2(125) == 0x2000 * (p * q));
        assert((0x80_0000 + (fraction * p - 1024) * 0x2000) * q == fraction * (0x2000 * (p * q)))
            by (nonlinear_arith);
    }
}

// ---------------------------------------------------------------------------
// Conversion to eight bits per channel
// ---------------------------------------------------------------------------
/// The single-precision bits of channel `channel` of pixel `k`, of pixels with
/// four half-precision channels each.
pub open spec fn channel_bits(pixels: Seq<u8>, k: int, channel: int) -> u32 {
    let at = 8 * k + 2 * channel;
    single_of_half((pixels[at + 1] * 256 + pixels[at]) as u16)
}

/// The single-precision bits of the half-precision number at `at`.
fn read_channel(pixels: &[u8], at: usize) -> (bits: u32)
    requires
        at + 2 <= pixels@.len(),
    ensures
        bits == single_of_half((pixels@[at + 1] * 256 + pixels@[at as int]) as u16),
{
    let half: u16 = read_le16(pixels, at);
    proof {
        let low = le16(half)[0];
        let high = le16(half)[1];
        assert(pixels@.subrange(at as int, at + 2)[0] == pixels@[at as int]);
        assert(pixels@.subrange(at as int, at + 2)[1] == pixels@[at + 1]);
        assert(half == high * 256 + low);
    }
    f16_to_f32_bits(half)
}

/// Pixel `k` of `out` is what pixel `k` of `pixels` was made.
spec fn pixel_made<C: Fn(u32) -> u8, A: Fn(u32) -> u8>(
    pixels: Seq<u8>,
    k: int,
    out: Seq<u8>,
    color: &C,
    alpha: &A,
) -> bool {
    &&& color.ensures((channel_bits(pixels, k, 2),), out[4 * k])
    &&& color.ensures((channel_bits(pixels, k, 1),), out[4 * k + 1])
    &&& color.ensures((channel_bits(pixels, k, 0),), out[4 * k + 2])
    &&& alpha.ensures((channel_bits(pixels, k, 3),), out[4 * k + 3])
}

/// Converts the first `count` pixels.
fn convert_pixels<C: Fn(u32) -> u8, A: Fn(u32) -> u8>(
    pixels: &[u8],
    count: usize,
    color: &C,
    alpha: &A,
) -> (out: Vec<u8>)
    requires
        8 * count <= pixels@.len(),
        forall|bits: u32| color.requires((bits,)),
        forall|bits: u32| alpha.requires((bits,)),
    ensures
        out@.len() == 4 * count,
        forall|k: int|
            0 <= k < count ==> #[trigger] pixel_made(pixels@, k, out@, color, alpha),
{
    let total: usize = pixels.len();
    let mut out: Vec<u8> = Vec::new();
    let mut n: usize = 0;
    while n < count
        invariant
            n <= count,
            8 * count <= total == pixels@.len(),
            out@.len() == 4 * n,
            forall|bits: u32| color.requires((bits,)),
            forall|bits: u32| alpha.requires((bits,)),
            forall|k: int| 0 <= k < n ==> #[trigger] pixel_made(pixels@, k, out@, color, alpha),
        decreases count - n,
    {
        let at: usize = 8 * n;
        let r: u32 = read_channel(pixels, at);
        let g: u32 = read_channel(pixels, at + 2);
        let b: u32 = read_channel(pixels, at + 4);
        let a: u32 = read_channel(pixels, at + 6);
        let ghost before = out@;
        let blue: u8 = color(b);
        let green: u8 = color(g);
        let red: u8 = color(r);
        let opacity: u8 = alpha(a);
        out.push(blue);
        out.push(green);
        out.push(red);
        out.push(opacity);
        proof {
            assert(b == channel_bits(pixels@, n as int, 2));
            assert(g == channel_bits(pixels@, n as int, 1));
            assert(r == channel_bits(pixels@, n as int, 0));
            assert(a == channel_bits(pixels@, n as int, 3));
            assert(out@[4 * n] == blue && out@[4 * n + 1] == green);
            assert(out@[4 * n + 2] == red && out@[4 * n + 3] == opacity);
            assert(pixel_made(pixels@, n as int, out@, color, alpha));
            assert forall|k: int| 0 <= k < n + 1 implies #[trigger] pixel_made(
                pixels@,
                k,
                out@,
                color,
                alpha,
            ) by {
                if k < n {
                    assert(pixel_made(pixels@, k, before, color, alpha));
                    assert(out@[4 * k] == before[4 * k] && out@[4 * k + 1] == before[4 * k + 1]);
                    assert(out@[4 * k + 2] == before[4 * k + 2] && out@[4 * k + 3] == before[4 * k
                        + 3]);
                }
            }
        }
        n += 1;
    }
    out
}

/// Converts pixels with half-precision channels in the order red, green, blue,
/// alpha to bytes in the order blue, green, red, alpha. `color` and `alpha` turn
/// the bits of a single-precision number into a byte. What follows the last whole
/// pixel is left out.
pub fn rgba16f_to_bgra8<C: Fn(u32) -> u8, A: Fn(u32) -> u8>(
    pixels: &[u8],
    color: &C,
    alpha: &A,
) -> (out: Vec<u8>)
    requires
        forall|bits: u32| color.requires((bits,)),
        forall|bits: u32| alpha.requires((bits,)),
    ensures
        out@.len() == pixels@.len() / 8 * 4,
        forall|k: int|
            0 <= k < pixels@.len() / 8 ==> {
                &&& color.ensures((#[trigger] channel_bits(pixels@, k, 2),), out@[4 * k])
                &&& color.ensures((channel_bits(pixels@, k, 1),), out@[4 * k + 1])
                &&& color.ensures((channel_bits(pixels@, k, 0),), out@[4 * k + 2])
                &&& alpha.ensures((channel_bits(pixels@, k, 3),), out@[4 * k + 3])
            },
{
    let count: usize = pixels.len() / 8;
    let out = convert_pixels(pixels, count, color, alpha);
    assert forall|k: int| 0 <= k < pixels@.len() / 8 implies {
        &&& color.ensures((#[trigger] channel_bits(pixels@, k, 2),), out@[4 * k])
        &&& color.ensures((channel_bits(pixels@, k, 1),), out@[4 * k + 1])
        &&& color.ensures((channel_bits(pixels@, k, 0),), out@[4 * k + 2])
        &&& alpha.ensures((channel_bits(pixels@, k, 3),), out@[4 * k + 3])
    } by {
        assert(pixel_made(pixels@, k, out@, color, alpha));
    }
    out
}

/// The bytes of one pixel; none for formats with ten bits per channel.
pub open spec fn bytes_per_pixel(format: DxgiDuplicationFormat) -> Option<nat> {
    match format {
        DxgiDuplicationFormat::Rgba16F => Some(8),
        DxgiDuplicationFormat::Rgb10A2 => None,
        DxgiDuplicationFormat::Rgb10XrA2 => None,
        _ => Some(4),
    }
}

/// The picture `out` is what the first `len` bytes of `pixels` show, with eight
/// bits per channel in the order blue, green, red, alpha.
pub open spec fn is_converted<C: Fn(u32) -> u8, A: Fn(u32) -> u8>(
    format: DxgiDuplicationFormat,
    pixels: Seq<u8>,
    len: int,
    out: Seq<u8>,
    color: &C,
    alpha: &A,
) -> bool {
    let used = pixels.take(len);
    match format {
        DxgiDuplicationFormat::Bgra8 | DxgiDuplicationFormat::Bgra8Srgb => out == used,
        DxgiDuplicationFormat::Rgba8 | DxgiDuplicationFormat::Rgba8Srgb => out == red_blue_swapped(
            used,
        ),
        _ => {
            &&& out.len() == len / 8 * 4
            &&& forall|k: int|
                0 <= k < len / 8 ==> {
                    &&& color.ensures((#[trigger] channel_bits(used, k, 2),), out[4 * k])
                    &&& color.ensures((channel_bits(used, k, 1),), out[4 * k + 1])
                    &&& color.ensures((channel_bits(used, k, 0),), out[4 * k + 2])
                    &&& alpha.ensures((channel_bits(used, k, 3),), out[4 * k + 3])
                }
        },
    }
}

/// The number of bytes that a picture takes.
fn picture_len(width: u32, height: u32, pixel: usize) -> (len: usize)
    requires
        pixel > 0,
        width * height * pixel <= usize::MAX,
    ensures
        len == width * height * pixel,
{
    proof {
        assert(0 <= width * height <= width * height * pixel) by (nonlinear_arith)
            requires
                width >= 0,
                height >= 0,
                pixel > 0,
        ;
    }
    let area: usize = (width as usize) * (height as usize);
    area * pixel
}

/// Converts a picture from desktop duplication. The size in bytes has to fit a
/// `usize`.
pub fn capture_pixels_to_bgra8<C: Fn(u32) -> u8, A: Fn(u32) -> u8>(
    width: u32,
    height: u32,
    format: DxgiDuplicationFormat,
    pixels: &[u8],
    color: &C,
    alpha: &A,
) -> (out: Result<Vec<u8>, PixelError>)
    requires
        bytes_per_pixel(format) matches Some(n) ==> width * height * n <= usize::MAX,
        forall|bits: u32| color.requires((bits,)),
        forall|bits: u32| alpha.requires((bits,)),
    ensures
        match bytes_per_pixel(format) {
            None => out matches Err(e) && e == PixelError::UnsupportedFormat(format),
            Some(n) => if pixels@.len() < width * height * n {
                out matches Err(PixelError::BufferTooSmall { got, expected }) && got
                    == pixels@.len() && expected == width * height * n
            } else {
                out matches Ok(bytes) && is_converted(
                    format,
                    pixels@,
                    (width * height * n) as int,
                    bytes@,
                    color,
                    alpha,
                )
            },
        },
{
    let pixel: usize = match format {
        DxgiDuplicationFormat::Rgba16F => 8,
        DxgiDuplicationFormat::Rgb10A2 | DxgiDuplicationFormat::Rgb10XrA2 => {
            return Err(PixelError::UnsupportedFormat(format));
        },
        _ => 4,
    };
    let len: usize = picture_len(width, height, pixel);
    if pixels.len() < len {
        return Err(PixelError::BufferTooSmall { got: pixels.len(), expected: len });
    }
    let used = &pixels[0..len];
    assert(used@ =~= pixels@.take(len as int));
    match format {
        DxgiDuplicationFormat::Bgra8 | DxgiDuplicationFormat::Bgra8Srgb => Ok(copy_bytes(used)),
        DxgiDuplicationFormat::Rgba8 | DxgiDuplicationFormat::Rgba8Srgb => Ok(rgba_to_bgra(used)),
        _ => Ok(rgba16f_to_bgra8(used, color, alpha)),
    }
}

/// The format of desktop duplication with the same layout.
pub open spec fn duplication_format(format: ColorFormat) -> DxgiDuplicationFormat {
    match format {
        ColorFormat::Rgba16F => DxgiDuplicationFormat::Rgba16F,
        ColorFormat::Rgba8 => DxgiDuplicationFormat::Rgba8,
        ColorFormat::Bgra8 => DxgiDuplicationFormat::Bgra8,
    }
}

/// Converts a picture from the graphics capture interface. The size in bytes has
/// to fit a `usize`.
pub fn wgc_pixels_to_bgra8<C: Fn(u32) -> u8, A: Fn(u32) -> u8>(
    width: u32,
    height: u32,
    format: ColorFormat,
    pixels: &[u8],
    color: &C,
    alpha: &A,
) -> (out: Result<Vec<u8>, PixelError>)
    requires
        bytes_per_pixel(duplication_format(format)) matches Some(n) ==> width * height * n
            <= usize::MAX,
        forall|bits: u32| color.requires((bits,)),
        forall|bits: u32| alpha.requires((bits,)),
    ensures
        bytes_per_pixel(duplication_format(format)) matches Some(n) && if pixels@.len() < width
            * height * n {
            out matches Err(PixelError::BufferTooSmall { got, expected }) && got == pixels@.len()
                && expected == width * height * n
        } else {
            out matches Ok(bytes) && is_converted(
                duplication_format(format),
                pixels@,
                (width * height * n) as int,
                bytes@,
                color,
                alpha,
            )
        },
{
    let same = match format {
        ColorFormat::Rgba16F => DxgiDuplicationFormat::Rgba16F,
        ColorFormat::Rgba8 => DxgiDuplicationFormat::Rgba8,
        ColorFormat::Bgra8 => DxgiDuplicationFormat::Bgra8,
    };
    capture_pixels_to_bgra8(width, height, same, pixels, color, alpha)
}

// ---------------------------------------------------------------------------
// Bitmap files
// ---------------------------------------------------------------------------
/// The bytes of both headers of a bitmap file.
pub const BMP_HEADER_LEN: u32 = 54;

/// The headers of a bitmap file with 32 bits per pixel. The height is negative,
/// for rows that come from top to bottom.
pub open spec fn bmp_header(width: u32, height: u32, image_size: u32) -> Seq<u8> {
    seq![66u8, 77u8] + le32((BMP_HEADER_LEN + image_size) as u32) + le16(0) + le16(0) + le32(
        BMP_HEADER_LEN,
    ) + le32(40) + le32(width) + le32(((0x1_0000_0000 - height) % 0x1_0000_0000) as u32) + le16(1)
        + le16(32) + le32(0) + le32(image_size) + le32(0) + le32(0) + le32(0) + le32(0)
}

/// Lays out the headers of a bitmap file.
fn build_bmp_header(width: u32, height: u32, image_size: u32) -> (bmp: Vec<u8>)
    requires
        BMP_HEADER_LEN + image_size <= u32::MAX,
    ensures
        bmp@ == bmp_header(width, height, image_size),
{
    let negative_height: u32 = if height == 0 {
        0
    } else {
        0xffff_ffff - height + 1
    };
    let mut bmp: Vec<u8> = Vec::new();
    bmp.push(66);
    bmp.push(77);
    assert(bmp@ =~= seq![66u8, 77u8]);
    push_le32(&mut bmp, BMP_HEADER_LEN + image_size);
    push_le16(&mut bmp, 0);
    push_le16(&mut bmp, 0);
    push_le32(&mut bmp, BMP_HEADER_LEN);
    push_le32(&mut bmp, 40);
    push_le32(&mut bmp, width);
    push_le32(&mut bmp, negative_height);
    push_le16(&mut bmp, 1);
    push_le16(&mut bmp, 32);
    push_le32(&mut bmp, 0);
    push_le32(&mut bmp, image_size);
    push_le32(&mut bmp, 0);
    push_le32(&mut bmp, 0);
    push_le32(&mut bmp, 0);
    push_le32(&mut bmp, 0);
    bmp
}

/// Lays out a bitmap file for a picture with the bytes blue, green, red, alpha of
/// each pixel. The size in bytes has to fit a `usize`, and the height has to have
/// a negative in 32 bits.
pub fn bgra_bmp(width: u32, height: u32, pixels: &[u8]) -> (bmp: Result<Vec<u8>, PixelError>)
    requires
        width * height * 4 <= usize::MAX,
        height != 0x8000_0000,
    ensures
        ({
            let len = (width * height * 4) as int;
            let image_size = (len % 0x1_0000_0000) as u32;
            if pixels@.len() < len {
                bmp matches Err(PixelError::BufferTooSmall { got, expected }) && got
                    == pixels@.len() && expected == len
            } else if BMP_HEADER_LEN + image_size > u32::MAX {
                bmp matches Err(PixelError::FileTooLarge)
            } else {
                bmp matches Ok(bytes) && bytes@ == bmp_header(width, height, image_size)
                    + pixels@.take(len)
            }
        }),
{
    let len: usize = picture_len(width, height, 4);
    if pixels.len() < len {
        return Err(PixelError::BufferTooSmall { got: pixels.len(), expected: len });
    }
    let image_size: u32 = (len as u64 % 0x1_0000_0000) as u32;
    if image_size > 0xffff_ffff - BMP_HEADER_LEN {
        return Err(PixelError::FileTooLarge);
    }
    let mut bmp = build_bmp_header(width, height, image_size);
    let used = &pixels[0..len];
    assert(used@ =~= pixels@.take(len as int));
    append_bytes(&mut bmp, used);
    Ok(bmp)
}

/// The headers take the bytes that they say, so the picture follows right after.
pub proof fn bmp_headers_have_their_length(width: u32, height: u32, image_size: u32)
    ensures
        bmp_header(width, height, image_size).len() == BMP_HEADER_LEN,
{
}

} // verus!
