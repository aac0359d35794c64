//! What the bytes of converted pictures and of bitmap files say.
use vstd::prelude::*;
use crate::bytes::{le16, le32, lemma_integer_bytes};
use crate::pixels::{
    bgra_bmp, bmp_header, bmp_headers_have_their_length, bytes_per_pixel, capture_pixels_to_bgra8,
    channel_bits, conversion_is_exact, duplication_format, f16_to_f32_bits, is_converted,
    red_blue_swapped, rgba_to_bgra, single_of_half, wgc_pixels_to_bgra8, ColorFormat,
    DxgiDuplicationFormat, PixelError, BMP_HEADER_LEN,
};

verus! {

/// Of every pixel the first and the third byte change places, and the second and the
/// fourth stay; bytes after the last whole pixel stay too.
pub proof fn red_and_blue_change_places(pixels: Seq<u8>, k: int)
    ensures
        red_blue_swapped(pixels).len() == pixels.len(),
        0 <= k && 4 * k + 4 <= pixels.len() ==> {
            let out = red_blue_swapped(pixels);
            &&& out[4 * k] == pixels[4 * k + 2]
            &&& out[4 * k + 1] == pixels[4 * k + 1]
            &&& out[4 * k + 2] == pixels[4 * k]
            &&& out[4 * k + 3] == pixels[4 * k + 3]
        },
        0 <= k < pixels.len() && k / 4 * 4 + 4 > pixels.len() ==> red_blue_swapped(pixels)[k]
            == pixels[k],
{
}

/// A picture comes out with the bytes blue, green, red, alpha of each pixel: pictures in
/// that order are kept, those that begin with red are turned round, and half-precision
/// channels, which come red, green, blue, alpha with the low byte first, are made bytes.
/// Bytes beyond the picture are left out.
pub proof fn pictures_come_out_blue_first<C: Fn(u32) -> u8, A: Fn(u32) -> u8>(
    area: int,
    format: DxgiDuplicationFormat,
    p: Seq<u8>,
    color: &C,
    alpha: &A,
    o: Seq<u8>,
    k: int,
)
    requires
        0 <= k < area,
        bytes_per_pixel(format) matches Some(n) && area * n <= p.len() && is_converted(
            format,
            p,
            area * n,
            o,
            color,
            alpha,
        ),
    ensures
        o.len() == area * 4,
        format is Bgra8 || format is Bgra8Srgb ==> {
            &&& o[4 * k] == p[4 * k] && o[4 * k + 1] == p[4 * k + 1]
            &&& o[4 * k + 2] == p[4 * k + 2] && o[4 * k + 3] == p[4 * k + 3]
        },
        format is Rgba8 || format is Rgba8Srgb ==> {
            &&& o[4 * k] == p[4 * k + 2] && o[4 * k + 1] == p[4 * k + 1]
            &&& o[4 * k + 2] == p[4 * k] && o[4 * k + 3] == p[4 * k + 3]
        },
        format is Rgba16F ==> {
            &&& color.ensures(
                (single_of_half((p[8 * k + 5] * 256 + p[8 * k + 4]) as u16),),
                o[4 * k],
            )
            &&& color.ensures(
                (single_of_half((p[8 * k + 3] * 256 + p[8 * k + 2]) as u16),),
                o[4 * k + 1],
            )
            &&& color.ensures(
                (single_of_half((p[8 * k + 1] * 256 + p[8 * k]) as u16),),
                o[4 * k + 2],
            )
            &&& alpha.ensures(
                (single_of_half((p[8 * k + 7] * 256 + p[8 * k + 6]) as u16),),
                o[4 * k + 3],
            )
        },
        !(format is Rgb10A2) && !(format is Rgb10XrA2),
        format is Rgba16F <==> bytes_per_pixel(format) == Some(8nat),
        !(format is Rgba16F) <==> bytes_per_pixel(format) == Some(4nat),
{
    if format is Rgba16F {
        let used = p.take(area * 8);
        assert((area * 8) / 8 == area);
        assert(used[8 * k] == p[8 * k] && used[8 * k + 1] == p[8 * k + 1]);
        assert(used[8 * k + 2] == p[8 * k + 2] && used[8 * k + 3] == p[8 * k + 3]);
        assert(used[8 * k + 4] == p[8 * k + 4] && used[8 * k + 5] == p[8 * k + 5]);
        assert(used[8 * k + 6] == p[8 * k + 6] && used[8 * k + 7] == p[8 * k + 7]);
        assert(color.ensures((channel_bits(used, k, 2),), o[4 * k]));
    } else {
        let used = p.take(area * 4);
        assert(used[4 * k] == p[4 * k] && used[4 * k + 1] == p[4 * k + 1]);
        assert(used[4 * k + 2] == p[4 * k + 2] && used[4 * k + 3] == p[4 * k + 3]);
        assert((4 * k) / 4 == k && (4 * k + 1) / 4 == k && (4 * k + 2) / 4 == k && (4 * k + 3) / 4
            == k);
    }
}

/// The graphics capture interface gives pictures in the same orders as desktop
/// duplication.
pub proof fn captured_pictures_have_the_same_orders(format: ColorFormat)
    ensures
        format is Rgba16F <==> duplication_format(format) is Rgba16F,
        format is Rgba8 <==> duplication_format(format) is Rgba8,
        format is Bgra8 <==> duplication_format(format) is Bgra8,
{
}

/// A half-precision number and the single-precision number that it becomes have the same
/// sign. The exponent of a normal number grows by 112, the difference of the biases, and
/// its fraction moves thirteen places up; the highest exponent stays the highest, and
/// zero stays zero.
pub proof fn half_numbers_keep_their_fields(bits: u16)
    ensures
        ({
            let single = single_of_half(bits);
            let sign = bits / 0x8000;
            let exponent = bits / 0x400 % 32;
            let fraction = bits % 0x400;
            &&& single / 0x8000_0000 == sign
            &&& 0 < exponent < 31 ==> single % 0x8000_0000 == (exponent + 112) * 0x80_0000 + fraction
                * 0x2000
            &&& exponent == 31 ==> single % 0x8000_0000 == 255 * 0x80_0000 + fraction * 0x2000
            &&& exponent == 0 && fraction == 0 ==> single % 0x8000_0000 == 0
        }),
{
    conversion_is_exact(bits);
}

/// A program that opens a bitmap file reads its kind, its size, where the picture begins,
/// its width, the height of a picture that is stored from top to bottom, and 32 bits per
/// pixel; the picture follows at byte 54.
pub proof fn bitmap_files_tell_their_picture(width: u32, height: u32, size: u32, picture: Seq<u8>)
    requires
        0 < height < 0x8000_0000,
        size + 54 <= u32::MAX,
        picture.len() == size,
    ensures
        ({
            let b = bmp_header(width, height, size) + picture;
            &&& b.len() == 54 + size
            &&& b[0] == 0x42 && b[1] == 0x4d
            &&& b[5] * 0x100_0000 + b[4] * 0x1_0000 + b[3] * 256 + b[2] == b.len()
            &&& b[6] == 0 && b[7] == 0 && b[8] == 0 && b[9] == 0
            &&& b[13] * 0x100_0000 + b[12] * 0x1_0000 + b[11] * 256 + b[10] == 54
            &&& b[17] * 0x100_0000 + b[16] * 0x1_0000 + b[15] * 256 + b[14] == 40
            &&& b[21] * 0x100_0000 + b[20] * 0x1_0000 + b[19] * 256 + b[18] == width
            &&& b[25] * 0x100_0000 + b[24] * 0x1_0000 + b[23] * 256 + b[22] == 0x1_0000_0000
                - height
            &&& b[27] * 256 + b[26] == 1
            &&& b[29] * 256 + b[28] == 32
            &&& b[33] * 0x100_0000 + b[32] * 0x1_0000 + b[31] * 256 + b[30] == 0
            &&& b[37] * 0x100_0000 + b[36] * 0x1_0000 + b[35] * 256 + b[34] == size
            &&& b.skip(54) == picture
        }),
{
    let header = bmp_header(width, height, size);
    lemma_bmp_fields(width, height, size, picture);
    bmp_headers_have_their_length(width, height, size);
    assert((header + picture).skip(54) =~= picture);
    reveal(tells_picture);
}

/// The first bytes of `b` are the headers of a bitmap file for a picture of the given
/// size.
#[verifier::opaque]
spec fn tells_picture(b: Seq<u8>, width: u32, height: u32, size: int) -> bool {
    &&& b[0] == 0x42 && b[1] == 0x4d
    &&& b[5] * 0x100_0000 + b[4] * 0x1_0000 + b[3] * 256 + b[2] == 54 + size
    &&& b[6] == 0 && b[7] == 0 && b[8] == 0 && b[9] == 0
    &&& b[13] * 0x100_0000 + b[12] * 0x1_0000 + b[11] * 256 + b[10] == 54
    &&& b[17] * 0x100_0000 + b[16] * 0x1_0000 + b[15] * 256 + b[14] == 40
    &&& b[21] * 0x100_0000 + b[20] * 0x1_0000 + b[19] * 256 + b[18] == width
    &&& b[25] * 0x100_0000 + b[24] * 0x1_0000 + b[23] * 256 + b[22] == 0x1_0000_0000
        - height
    &&& b[27] * 256 + b[26] == 1
    &&& b[29] * 256 + b[28] == 32
    &&& b[33] * 0x100_0000 + b[32] * 0x1_0000 + b[31] * 256 + b[30] == 0
    &&& b[37] * 0x100_0000 + b[36] * 0x1_0000 + b[35] * 256 + b[34] == size
}

proof fn lemma_bmp_fields(width: u32, height: u32, image_size: u32, picture: Seq<u8>)
    requires
        0 < height < 0x8000_0000,
        image_size + 54 <= u32::MAX,
    ensures
        tells_picture(
            bmp_header(width, height, image_size) + picture,
            width,
            height,
            image_size as int,
        ),
{
    let down = ((0x1_0000_0000 - height) % 0x1_0000_0000) as u32;
    let one = seq![66u8, 77u8] + le32((BMP_HEADER_LEN + image_size) as u32) + le16(0) + le16(0);
    let two = le32(BMP_HEADER_LEN) + le32(40) + le32(width) + le32(down);
    let three = le16(1) + le16(32) + le32(0) + le32(image_size);
    let four = le32(0) + le32(0) + le32(0) + le32(0);
    lemma_bmp_parts(width, height, image_size);
    lemma_first_part((BMP_HEADER_LEN + image_size) as u32);
    lemma_second_part(width, down);
    lemma_third_part(image_size);
    lemma_assembled(
        one,
        two,
        three,
        four + picture,
        (BMP_HEADER_LEN + image_size) as u32,
        width,
        down,
        image_size,
    );
    lemma_appended(one, two, three, four, picture);
    assert((0x1_0000_0000 - down) as u32 == height);
}

proof fn lemma_appended(
    one: Seq<u8>,
    two: Seq<u8>,
    three: Seq<u8>,
    four: Seq<u8>,
    picture: Seq<u8>,
)
    ensures
        one + (two + (three + four)) + picture == one + (two + (three + (four + picture))),
{
    assert(one + (two + (three + four)) + picture =~= one + (two + (three + (four + picture))));
}

/// The fields of the three parts stand at their places in the whole.
proof fn lemma_assembled(
    one: Seq<u8>,
    two: Seq<u8>,
    three: Seq<u8>,
    rest: Seq<u8>,
    file_size: u32,
    width: u32,
    down: u32,
    size: u32,
)
    requires
        one.len() == 10 && two.len() == 16 && three.len() == 12,
        one[0] == 0x42 && one[1] == 0x4d,
        one[5] * 0x100_0000 + one[4] * 0x1_0000 + one[3] * 256 + one[2] == file_size,
        one[6] == 0 && one[7] == 0 && one[8] == 0 && one[9] == 0,
        two[3] * 0x100_0000 + two[2] * 0x1_0000 + two[1] * 256 + two[0] == 54,
        two[7] * 0x100_0000 + two[6] * 0x1_0000 + two[5] * 256 + two[4] == 40,
        two[11] * 0x100_0000 + two[10] * 0x1_0000 + two[9] * 256 + two[8] == width,
        two[15] * 0x100_0000 + two[14] * 0x1_0000 + two[13] * 256 + two[12] == down,
        three[1] * 256 + three[0] == 1,
        three[3] * 256 + three[2] == 32,
        three[7] * 0x100_0000 + three[6] * 0x1_0000 + three[5] * 256 + three[4] == 0,
        three[11] * 0x100_0000 + three[10] * 0x1_0000 + three[9] * 256 + three[8] == size,
        file_size == 54 + size,
        0 < down,
    ensures
        tells_picture(
            one + (two + (three + rest)),
            width,
            (0x1_0000_0000 - down) as u32,
            size as int,
        ),
{
    let b = one + (two + (three + rest));
    assert(b[0] == one[0] && b[1] == one[1] && b[2] == one[2] && b[3] == one[3] && b[4] == one[4]);
    assert(b[5] == one[5] && b[6] == one[6] && b[7] == one[7] && b[8] == one[8] && b[9] == one[9]);
    assert(b[10] == two[0] && b[11] == two[1] && b[12] == two[2] && b[13] == two[3]);
    assert(b[14] == two[4] && b[15] == two[5] && b[16] == two[6] && b[17] == two[7]);
    assert(b[18] == two[8] && b[19] == two[9] && b[20] == two[10] && b[21] == two[11]);
    assert(b[22] == two[12] && b[23] == two[13] && b[24] == two[14] && b[25] == two[15]);
    assert(b[26] == three[0] && b[27] == three[1] && b[28] == three[2] && b[29] == three[3]);
    assert(b[30] == three[4] && b[31] == three[5] && b[32] == three[6] && b[33] == three[7]);
    assert(b[34] == three[8] && b[35] == three[9] && b[36] == three[10] && b[37] == three[11]);
    reveal(tells_picture);
}

proof fn lemma_bmp_parts(width: u32, height: u32, image_size: u32)
    ensures
        bmp_header(width, height, image_size) == (seq![66u8, 77u8] + le32(
            (BMP_HEADER_LEN + image_size) as u32,
        ) + le16(0) + le16(0)) + ((le32(BMP_HEADER_LEN) + le32(40) + le32(width) + le32(
            ((0x1_0000_0000 - height) % 0x1_0000_0000) as u32,
        )) + ((le16(1) + le16(32) + le32(0) + le32(image_size)) + (le32(0) + le32(0) + le32(0)
            + le32(0)))),
{
    lemma_group(
        seq![66u8, 77u8] + le32((BMP_HEADER_LEN + image_size) as u32) + le16(0) + le16(0),
        le32(BMP_HEADER_LEN),
        le32(40),
        le32(width),
        le32(((0x1_0000_0000 - height) % 0x1_0000_0000) as u32),
    );
    let front = seq![66u8, 77u8] + le32((BMP_HEADER_LEN + image_size) as u32) + le16(0) + le16(0);
    let two = le32(BMP_HEADER_LEN) + le32(40) + le32(width) + le32(
        ((0x1_0000_0000 - height) % 0x1_0000_0000) as u32,
    );
    lemma_group(front + two, le16(1), le16(32), le32(0), le32(image_size));
    let three = le16(1) + le16(32) + le32(0) + le32(image_size);
    lemma_group(front + two + three, le32(0), le32(0), le32(0), le32(0));
    let four = le32(0) + le32(0) + le32(0) + le32(0);
    lemma_nest(front, two, three, four);
}

proof fn lemma_group(front: Seq<u8>, a: Seq<u8>, b: Seq<u8>, c: Seq<u8>, d: Seq<u8>)
    ensures
        front + a + b + c + d == front + (a + b + c + d),
{
    assert(front + a + b + c + d =~= front + (a + b + c + d));
}

proof fn lemma_nest(a: Seq<u8>, b: Seq<u8>, c: Seq<u8>, d: Seq<u8>)
    ensures
        a + b + c + d == a + (b + (c + d)),
{
    assert(a + b + c + d =~= a + (b + (c + d)));
}

proof fn lemma_first_part(size: u32)
    ensures
        ({
            let b = seq![66u8, 77u8] + le32(size) + le16(0) + le16(0);
            &&& b.len() == 10
            &&& b[0] == 0x42 && b[1] == 0x4d
            &&& b[5] * 0x100_0000 + b[4] * 0x1_0000 + b[3] * 256 + b[2] == size
            &&& b[6] == 0 && b[7] == 0 && b[8] == 0 && b[9] == 0
        }),
{
    lemma_integer_bytes(0, size);
}

proof fn lemma_second_part(width: u32, down: u32)
    ensures
        ({
            let b = le32(BMP_HEADER_LEN) + le32(40) + le32(width) + le32(down);
            &&& b.len() == 16
            &&& b[3] * 0x100_0000 + b[2] * 0x1_0000 + b[1] * 256 + b[0] == 54
            &&& b[7] * 0x100_0000 + b[6] * 0x1_0000 + b[5] * 256 + b[4] == 40
            &&& b[11] * 0x100_0000 + b[10] * 0x1_0000 + b[9] * 256 + b[8] == width
            &&& b[15] * 0x100_0000 + b[14] * 0x1_0000 + b[13] * 256 + b[12] == down
        }),
{
    lemma_integer_bytes(0, BMP_HEADER_LEN);
    lemma_integer_bytes(0, 40);
    lemma_integer_bytes(0, width);
    lemma_integer_bytes(0, down);
}

proof fn lemma_third_part(image_size: u32)
    ensures
        ({
            let b = le16(1) + le16(32) + le32(0) + le32(image_size);
            &&& b.len() == 12
            &&& b[1] * 256 + b[0] == 1
            &&& b[3] * 256 + b[2] == 32
            &&& b[7] * 0x100_0000 + b[6] * 0x1_0000 + b[5] * 256 + b[4] == 0
            &&& b[11] * 0x100_0000 + b[10] * 0x1_0000 + b[9] * 256 + b[8] == image_size
        }),
{
    lemma_integer_bytes(1, 0);
    lemma_integer_bytes(32, image_size);
}

/// A captured picture is converted exactly when all its bytes are there; pictures with
/// ten bits per channel are refused, and so are those with too few bytes, which are told
/// with the number that there are and the number that there should be.
pub proof fn whole_pictures_are_converted<C: Fn(u32) -> u8, A: Fn(u32) -> u8>(
    width: u32,
    height: u32,
    format: DxgiDuplicationFormat,
    pixels: &[u8],
    color: &C,
    alpha: &A,
    out: Result<Vec<u8>, PixelError>,
    k: int,
)
    requires
        call_ensures(
            capture_pixels_to_bgra8::<C, A>,
            (width, height, format, pixels, color, alpha),
            out,
        ),
    ensures
        format is Rgb10A2 || format is Rgb10XrA2 ==> out == Err::<Vec<u8>, _>(
            PixelError::UnsupportedFormat(format),
        ),
        format is Rgba16F ==> (out is Ok <==> pixels@.len() >= width * height * 8),
        format is Rgba8 || format is Rgba8Srgb || format is Bgra8 || format is Bgra8Srgb ==> (out
            is Ok <==> pixels@.len() >= width * height * 4),
        out matches Err(PixelError::BufferTooSmall { got, expected }) ==> got == pixels@.len()
            && got < expected,
        out is Ok && 0 <= k < width * height && (format is Bgra8 || format is Bgra8Srgb) ==> {
            &&& out->Ok_0@[4 * k] == pixels@[4 * k]
            &&& out->Ok_0@[4 * k + 2] == pixels@[4 * k + 2]
        },
        out is Ok && 0 <= k < width * height && (format is Rgba8 || format is Rgba8Srgb) ==> {
            &&& out->Ok_0@[4 * k] == pixels@[4 * k + 2]
            &&& out->Ok_0@[4 * k + 2] == pixels@[4 * k]
        },
{
    let area = (width * height) as int;
    assert(width * height * 8 == area * 8 && width * height * 4 == area * 4);
    if out is Ok && 0 <= k < area {
        pictures_come_out_blue_first(area, format, pixels@, color, alpha, out->Ok_0@, k);
    }
}

/// Turning pixels round exchanges the first and the third byte of each.
pub proof fn turning_round_exchanges_red_and_blue(pixels: &[u8], out: Vec<u8>, k: int)
    requires
        call_ensures(rgba_to_bgra, (pixels,), out),
        0 <= k,
        4 * k + 4 <= pixels@.len(),
    ensures
        out@.len() == pixels@.len(),
        out@[4 * k] == pixels@[4 * k + 2] && out@[4 * k + 1] == pixels@[4 * k + 1],
        out@[4 * k + 2] == pixels@[4 * k] && out@[4 * k + 3] == pixels@[4 * k + 3],
{
    red_and_blue_change_places(pixels@, k);
}

/// Half-precision numbers are converted field by field.
pub proof fn halves_are_converted(bits: u16, single: u32)
    requires
        call_ensures(f16_to_f32_bits, (bits,), single),
    ensures
        single / 0x8000_0000 == bits / 0x8000,
        0 < bits / 0x400 % 32 < 31 ==> single % 0x8000_0000 == (bits / 0x400 % 32 + 112) * 0x80_0000
            + bits % 0x400 * 0x2000,
{
    half_numbers_keep_their_fields(bits);
}

/// A bitmap file is written for every picture that is there in full, and holds its
/// headers and its bytes.
pub proof fn whole_pictures_become_bitmaps(
    width: u32,
    height: u32,
    pixels: &[u8],
    bmp: Result<Vec<u8>, PixelError>,
    size: int,
)
    requires
        call_ensures(bgra_bmp, (width, height, pixels), bmp),
        size == width * height * 4,
        0 <= size,
        size + 54 <= u32::MAX,
    ensures
        bmp is Ok <==> pixels@.len() >= size,
        bmp is Ok ==> bmp->Ok_0@ == bmp_header(width, height, size as u32) + pixels@.take(size),
{
    assert((size % 0x1_0000_0000) as u32 == size);
}

/// A picture from the graphics capture interface is converted exactly when all its bytes
/// are there, and comes out blue first too.
pub proof fn captured_pictures_are_converted<C: Fn(u32) -> u8, A: Fn(u32) -> u8>(
    width: u32,
    height: u32,
    format: ColorFormat,
    pixels: &[u8],
    color: &C,
    alpha: &A,
    out: Result<Vec<u8>, PixelError>,
    k: int,
)
    requires
        call_ensures(
            wgc_pixels_to_bgra8::<C, A>,
            (width, height, format, pixels, color, alpha),
            out,
        ),
    ensures
        format is Rgba16F ==> (out is Ok <==> pixels@.len() >= width * height * 8),
        !(format is Rgba16F) ==> (out is Ok <==> pixels@.len() >= width * height * 4),
        out is Ok && 0 <= k < width * height && format is Bgra8 ==> out->Ok_0@[4 * k] == pixels@[4
            * k],
        out is Ok && 0 <= k < width * height && format is Rgba8 ==> out->Ok_0@[4 * k] == pixels@[4
            * k + 2],
{
    let area = (width * height) as int;
    assert(width * height * 8 == area * 8 && width * height * 4 == area * 4);
    if out is Ok && 0 <= k < area {
        pictures_come_out_blue_first(
            area,
            duplication_format(format),
            pixels@,
            color,
            alpha,
            out->Ok_0@,
            k,
        );
    }
}

} // verus!
