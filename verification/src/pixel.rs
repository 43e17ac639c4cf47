//! Colors and the pixel formats that store them.

use vstd::prelude::*;

verus! {

#[derive(Clone, Copy, Debug, PartialEq, Eq, Structural)]
pub struct Color {
    pub a: u8,
    pub r: u8,
    pub g: u8,
    pub b: u8,
}

/// The color as one word, alpha highest and blue lowest.
pub open spec fn argb(color: Color) -> u32 {
    (color.a * 0x1000000 + color.r * 0x10000 + color.g * 0x100 + color.b) as u32
}

/// The color as one word, alpha highest and blue lowest.
pub fn pack_argb(color: Color) -> (r: u32)
    ensures
        r == argb(color),
{
    color.a as u32 * 0x1000000 + color.r as u32 * 0x10000 + color.g as u32 * 0x100
        + color.b as u32
}

/// Byte `k` of a word, the lowest being byte 0.
pub open spec fn word_byte(value: int, k: int) -> u8 {
    if k == 0 {
        (value % 256) as u8
    } else if k == 1 {
        (value / 0x100 % 256) as u8
    } else if k == 2 {
        (value / 0x10000 % 256) as u8
    } else {
        (value / 0x1000000 % 256) as u8
    }
}

/// `words`, `size` bytes each, as bytes: lowest byte first, or highest first.
pub open spec fn word_bytes(words: Seq<int>, size: int, lowest_first: bool) -> Seq<u8> {
    Seq::new(
        (words.len() * size) as nat,
        |i: int|
            word_byte(
                words[i / size],
                if lowest_first {
                    i % size
                } else {
                    size - 1 - i % size
                },
            ),
    )
}

/// `bytes` is what a machine holds for `words` of `size` bytes each.
pub open spec fn is_memory_of(bytes: Seq<u8>, words: Seq<int>, size: int) -> bool {
    bytes == word_bytes(words, size, true) || bytes == word_bytes(words, size, false)
}

/// The raw value of one pixel.
pub trait PixelData: Copy {
    /// Its size in bytes.
    spec fn size() -> int;

    /// Its value as a number.
    spec fn value(self) -> int;

    fn zero() -> (r: Self)
        ensures
            r.value() == 0,
    ;

    fn byte_size() -> (r: u32)
        ensures
            r == Self::size(),
    ;

    /// The bytes of `data` as they lie in memory.
    fn to_bytes(data: &[Self]) -> (r: Vec<u8>)
        ensures
            is_memory_of(r@, data@.map_values(|v: Self| v.value()), Self::size()),
    ;

    /// The pixels whose bytes lie in memory as `bytes`.
    fn from_bytes(bytes: &[u8]) -> (r: Vec<Self>)
        requires
            bytes@.len() % (Self::size() as nat) == 0,
        ensures
            r@.len() == bytes@.len() / (Self::size() as nat),
            is_memory_of(bytes@, r@.map_values(|v: Self| v.value()), Self::size()),
    ;
}

/// The bytes of 16-bit words in memory: calls `bytemuck::cast_slice` from `u16`
/// to `u8`, which reinterprets the words in place. Whether the low byte of a word
/// comes first depends on the machine.
#[verifier::external_body]
fn cast_u16(data: &[u16]) -> (r: Vec<u8>)
    ensures
        is_memory_of(r@, data@.map_values(|v: u16| v as int), 2),
{
    let bytes: &[u8] = bytemuck::cast_slice::<u16, u8>(data);
    bytes.to_vec()
}

/// The bytes of 32-bit words in memory: calls `bytemuck::cast_slice` from `u32`
/// to `u8`, which reinterprets the words in place. Whether the low byte of a word
/// comes first depends on the machine.
#[verifier::external_body]
fn cast_u32(data: &[u32]) -> (r: Vec<u8>)
    ensures
        is_memory_of(r@, data@.map_values(|v: u32| v as int), 4),
{
    let bytes: &[u8] = bytemuck::cast_slice::<u32, u8>(data);
    bytes.to_vec()
}

/// Gives 16-bit words the memory `bytes`: copies them through
/// `bytemuck::cast_slice_mut` from `u16` to `u8`, which reinterprets the words in
/// place. Whether the low byte of a word comes first depends on the machine.
#[verifier::external_body]
fn fill_u16(words: &mut [u16], bytes: &[u8])
    requires
        bytes@.len() == 2 * old(words)@.len(),
    ensures
        final(words)@.len() == old(words)@.len(),
        is_memory_of(bytes@, final(words)@.map_values(|v: u16| v as int), 2),
{
    bytemuck::cast_slice_mut::<u16, u8>(words).copy_from_slice(bytes)
}

/// Gives 32-bit words the memory `bytes`: copies them through
/// `bytemuck::cast_slice_mut` from `u32` to `u8`, which reinterprets the words in
/// place. Whether the low byte of a word comes first depends on the machine.
#[verifier::external_body]
fn fill_u32(words: &mut [u32], bytes: &[u8])
    requires
        bytes@.len() == 4 * old(words)@.len(),
    ensures
        final(words)@.len() == old(words)@.len(),
        is_memory_of(bytes@, final(words)@.map_values(|v: u32| v as int), 4),
{
    bytemuck::cast_slice_mut::<u32, u8>(words).copy_from_slice(bytes)
}

/// A copy of `bytes`.
fn copy_bytes(bytes: &[u8]) -> (r: Vec<u8>)
    ensures
        r@ == bytes@,
{
    let mut copy: Vec<u8> = Vec::new();
    let mut index: usize = 0;
    while index < bytes.len()
        invariant
            index <= bytes@.len(),
            copy@ == bytes@.take(index as int),
        decreases bytes@.len() - index,
    {
        copy.push(bytes[index]);
        index += 1;
        assert(copy@ =~= bytes@.take(index as int));
    }
    assert(copy@ =~= bytes@);
    copy
}

impl PixelData for u8 {
    open spec fn size() -> int {
        1
    }

    open spec fn value(self) -> int {
        self as int
    }

    fn zero() -> (r: u8) {
        0
    }

    fn byte_size() -> (r: u32) {
        1
    }

    fn to_bytes(data: &[u8]) -> (r: Vec<u8>) {
        let bytes = copy_bytes(data);
        assert(word_bytes(data@.map_values(|v: u8| v.value()), 1, true) =~= data@);
        bytes
    }

    fn from_bytes(bytes: &[u8]) -> (r: Vec<u8>) {
        let data = copy_bytes(bytes);
        assert(word_bytes(data@.map_values(|v: u8| v.value()), 1, true) =~= data@);
        data
    }
}

impl PixelData for u16 {
    open spec fn size() -> int {
        2
    }

    open spec fn value(self) -> int {
        self as int
    }

    fn zero() -> (r: u16) {
        0
    }

    fn byte_size() -> (r: u32) {
        2
    }

    fn to_bytes(data: &[u16]) -> (r: Vec<u8>) {
        let bytes = cast_u16(data);
        assert(data@.map_values(|v: u16| v as int) =~= data@.map_values(|v: u16| v.value()));
        bytes
    }

    fn from_bytes(bytes: &[u8]) -> (r: Vec<u16>) {
        let mut data: Vec<u16> = vec![0; bytes.len() / 2];
        fill_u16(data.as_mut_slice(), bytes);
        assert(data@.map_values(|v: u16| v as int) =~= data@.map_values(|v: u16| v.value()));
        data
    }
}

impl PixelData for u32 {
    open spec fn size() -> int {
        4
    }

    open spec fn value(self) -> int {
        self as int
    }

    fn zero() -> (r: u32) {
        0
    }

    fn byte_size() -> (r: u32) {
        4
    }

    fn to_bytes(data: &[u32]) -> (r: Vec<u8>) {
        let bytes = cast_u32(data);
        assert(data@.map_values(|v: u32| v as int) =~= data@.map_values(|v: u32| v.value()));
        bytes
    }

    fn from_bytes(bytes: &[u8]) -> (r: Vec<u32>) {
        let mut data: Vec<u32> = vec![0; bytes.len() / 4];
        fill_u32(data.as_mut_slice(), bytes);
        assert(data@.map_values(|v: u32| v as int) =~= data@.map_values(|v: u32| v.value()));
        data
    }
}

/// A pixel format.
pub trait PixelType {
    type DataType: PixelData;

    /// The colors that the format can be asked to store.
    spec fn accepts(color: Color) -> bool;

    /// The raw value of a color.
    spec fn encoded(color: Color) -> Self::DataType;

    /// The color of a raw value.
    spec fn decoded(raw: Self::DataType) -> Color;

    fn from_color(color: Color) -> (r: Self::DataType)
        requires
            Self::accepts(color),
        ensures
            r == Self::encoded(color),
    ;

    fn to_color(raw: Self::DataType) -> (r: Color)
        ensures
            r == Self::decoded(raw),
    ;
}

/// Three bits of red and green, two of blue. Its scaling is computed in eight
/// bits, which only dark colors fit.
pub struct Rgb332Pixel;

impl PixelType for Rgb332Pixel {
    type DataType = u8;

    open spec fn accepts(color: Color) -> bool {
        color.r * 7 + 127 < 256 && color.g * 7 + 127 < 256 && color.b * 3 + 127 < 256
    }

    open spec fn encoded(color: Color) -> u8 {
        ((color.r * 7 + 127) / 255 * 32 + (color.g * 7 + 127) / 255 * 4 + (color.b * 3 + 127) / 255) as u8
    }

    open spec fn decoded(raw: u8) -> Color {
        Color {
            a: 0xff,
            r: (raw / 32 * 36) as u8,
            g: (raw / 4 % 8 * 36) as u8,
            b: (raw % 4 * 85) as u8,
        }
    }

    fn from_color(color: Color) -> (r: u8) {
        (color.r * 7 + 127) / 255 * 32 + (color.g * 7 + 127) / 255 * 4 + (color.b * 3 + 127) / 255
    }

    fn to_color(raw: u8) -> (r: Color) {
        Color { a: 0xff, r: raw / 32 * 36, g: raw / 4 % 8 * 36, b: raw % 4 * 85 }
    }
}

/// Five bits of red, six of green, five of blue.
pub struct Rgb565Pixel;

impl PixelType for Rgb565Pixel {
    type DataType = u16;

    open spec fn accepts(color: Color) -> bool {
        true
    }

    open spec fn encoded(color: Color) -> u16 {
        (color.r / 8 * 2048 + color.g / 4 * 32 + color.b / 8) as u16
    }

    open spec fn decoded(raw: u16) -> Color {
        Color {
            a: 0xff,
            r: ((raw as int / 2048 * 255 + 15) / 31) as u8,
            g: ((raw as int / 32 % 64 * 255 + 31) / 63) as u8,
            b: ((raw as int % 32 * 255 + 15) / 31) as u8,
        }
    }

    fn from_color(color: Color) -> (r: u16) {
        color.r as u16 / 8 * 2048 + color.g as u16 / 4 * 32 + color.b as u16 / 8
    }

    fn to_color(raw: u16) -> (r: Color) {
        let r: u32 = raw as u32 / 2048;
        let g: u32 = raw as u32 / 32 % 64;
        let b: u32 = raw as u32 % 32;
        Color {
            a: 0xff,
            r: ((r * 255 + 15) / 31) as u8,
            g: ((g * 255 + 31) / 63) as u8,
            b: ((b * 255 + 15) / 31) as u8,
        }
    }
}

/// Eight bits of red, green and blue; the highest byte of the word is unused.
pub struct Rgb8Pixel;

impl PixelType for Rgb8Pixel {
    type DataType = u32;

    open spec fn accepts(color: Color) -> bool {
        true
    }

    open spec fn encoded(color: Color) -> u32 {
        (color.r * 0x10000 + color.g * 0x100 + color.b) as u32
    }

    open spec fn decoded(raw: u32) -> Color {
        Color {
            a: 0xff,
            r: word_byte(raw as int, 2),
            g: word_byte(raw as int, 1),
            b: word_byte(raw as int, 0),
        }
    }

    fn from_color(color: Color) -> (r: u32) {
        color.r as u32 * 0x10000 + color.g as u32 * 0x100 + color.b as u32
    }

    fn to_color(raw: u32) -> (r: Color) {
        Color {
            a: 0xff,
            r: (raw / 0x10000 % 256) as u8,
            g: (raw / 0x100 % 256) as u8,
            b: (raw % 256) as u8,
        }
    }
}

/// Alpha in the highest byte, then red, green and blue.
pub struct ArgbPixel;

impl PixelType for ArgbPixel {
    type DataType = u32;

    open spec fn accepts(color: Color) -> bool {
        true
    }

    open spec fn encoded(color: Color) -> u32 {
        argb(color)
    }

    open spec fn decoded(raw: u32) -> Color {
        Color {
            a: word_byte(raw as int, 3),
            r: word_byte(raw as int, 2),
            g: word_byte(raw as int, 1),
            b: word_byte(raw as int, 0),
        }
    }

    fn from_color(color: Color) -> (r: u32) {
        pack_argb(color)
    }

    fn to_color(raw: u32) -> (r: Color) {
        Color {
            a: (raw / 0x1000000 % 256) as u8,
            r: (raw / 0x10000 % 256) as u8,
            g: (raw / 0x100 % 256) as u8,
            b: (raw % 256) as u8,
        }
    }
}

/// Alpha in the highest byte, then blue, green and red.
pub struct AbgrPixel;

impl PixelType for AbgrPixel {
    type DataType = u32;

    open spec fn accepts(color: Color) -> bool {
        true
    }

    open spec fn encoded(color: Color) -> u32 {
        (color.a * 0x1000000 + color.b * 0x10000 + color.g * 0x100 + color.r) as u32
    }

    open spec fn decoded(raw: u32) -> Color {
        Color {
            a: word_byte(raw as int, 3),
            b: word_byte(raw as int, 2),
            g: word_byte(raw as int, 1),
            r: word_byte(raw as int, 0),
        }
    }

    fn from_color(color: Color) -> (r: u32) {
        color.a as u32 * 0x1000000 + color.b as u32 * 0x10000 + color.g as u32 * 0x100
            + color.r as u32
    }

    fn to_color(raw: u32) -> (r: Color) {
        Color {
            a: (raw / 0x1000000 % 256) as u8,
            r: (raw % 256) as u8,
            g: (raw / 0x100 % 256) as u8,
            b: (raw / 0x10000 % 256) as u8,
        }
    }
}

proof fn lemma_word_parts(a: u8, b: u8, c: u8, d: u8)
    ensures
        ({
            let v = d * 0x1000000 + c * 0x10000 + b * 0x100 + a;
            &&& word_byte(v, 0) == a
            &&& word_byte(v, 1) == b
            &&& word_byte(v, 2) == c
            &&& word_byte(v, 3) == d
        }),
{
    let v = d * 0x1000000 + c * 0x10000 + b * 0x100 + a;
    assert(v / 0x100 == d * 0x10000 + c * 0x100 + b);
    assert(v / 0x10000 == d * 0x100 + c);
    assert(v / 0x1000000 == d);
}

proof fn lemma_word_whole(v: u32)
    ensures
        word_byte(v as int, 3) * 0x1000000 + word_byte(v as int, 2) * 0x10000 + word_byte(
            v as int,
            1,
        ) * 0x100 + word_byte(v as int, 0) == v,
{
}

/// A 32-bit format with alpha keeps every color, and every raw value is a color.
pub proof fn lemma_argb_is_exact(color: Color, raw: u32)
    ensures
        ArgbPixel::decoded(ArgbPixel::encoded(color)) == color,
        ArgbPixel::encoded(ArgbPixel::decoded(raw)) == raw,
        AbgrPixel::decoded(AbgrPixel::encoded(color)) == color,
        AbgrPixel::encoded(AbgrPixel::decoded(raw)) == raw,
{
    lemma_word_parts(color.b, color.g, color.r, color.a);
    lemma_word_parts(color.r, color.g, color.b, color.a);
    lemma_word_whole(raw);
}

/// The 24-bit format keeps every opaque color.
pub proof fn lemma_rgb8_keeps_opaque_colors(color: Color)
    requires
        color.a == 0xff,
    ensures
        Rgb8Pixel::decoded(Rgb8Pixel::encoded(color)) == color,
{
    lemma_word_parts(color.b, color.g, color.r, 0);
}

proof fn lemma_five_bits(v: int)
    requires
        0 <= v < 32,
    ensures
        (v * 255 + 15) / 31 / 8 == v,
        0 <= (v * 255 + 15) / 31 < 256,
{
}

proof fn lemma_six_bits(v: int)
    requires
        0 <= v < 64,
    ensures
        (v * 255 + 31) / 63 / 4 == v,
        0 <= (v * 255 + 31) / 63 < 256,
{
}

/// A 16-bit pixel survives the way to a color and back: what was read can be
/// written again unchanged.
pub proof fn lemma_rgb565_is_stable(raw: u16)
    ensures
        Rgb565Pixel::encoded(Rgb565Pixel::decoded(raw)) == raw,
{
    lemma_five_bits(raw as int / 2048);
    lemma_six_bits(raw as int / 32 % 64);
    lemma_five_bits(raw as int % 32);
}

// ---------------------------------------------------------------------------
// Where the channels stand

proof fn lemma_bytes_of_word(v: u32)
    ensures
        word_byte(v as int, 0) == v & 255,
        word_byte(v as int, 1) == (v >> 8) & 255,
        word_byte(v as int, 2) == (v >> 16) & 255,
        word_byte(v as int, 3) == v >> 24,
{
    assert(v % 256 == v & 255) by (bit_vector);
    assert(v / 0x100 % 256 == (v >> 8) & 255) by (bit_vector);
    assert(v / 0x10000 % 256 == (v >> 16) & 255) by (bit_vector);
    assert(v / 0x1000000 % 256 == v >> 24) by (bit_vector);
}

/// In a word of a color, and in the 32-bit formats, every channel has a byte of its
/// own: alpha the highest, then red, green, blue; or alpha, blue, green, red.
pub proof fn lemma_channels_have_their_bytes(color: Color)
    ensures
        argb(color) >> 24 == color.a,
        (argb(color) >> 16) & 255 == color.r,
        (argb(color) >> 8) & 255 == color.g,
        argb(color) & 255 == color.b,
        ArgbPixel::encoded(color) >> 24 == color.a,
        (ArgbPixel::encoded(color) >> 16) & 255 == color.r,
        (ArgbPixel::encoded(color) >> 8) & 255 == color.g,
        ArgbPixel::encoded(color) & 255 == color.b,
        AbgrPixel::encoded(color) >> 24 == color.a,
        (AbgrPixel::encoded(color) >> 16) & 255 == color.b,
        (AbgrPixel::encoded(color) >> 8) & 255 == color.g,
        AbgrPixel::encoded(color) & 255 == color.r,
        Rgb8Pixel::encoded(color) >> 24 == 0,
        (Rgb8Pixel::encoded(color) >> 16) & 255 == color.r,
        (Rgb8Pixel::encoded(color) >> 8) & 255 == color.g,
        Rgb8Pixel::encoded(color) & 255 == color.b,
{
    lemma_word_parts(color.b, color.g, color.r, color.a);
    lemma_word_parts(color.r, color.g, color.b, color.a);
    lemma_word_parts(color.b, color.g, color.r, 0);
    lemma_bytes_of_word(argb(color));
    lemma_bytes_of_word(AbgrPixel::encoded(color));
    lemma_bytes_of_word(Rgb8Pixel::encoded(color));
}

/// A raw word is read by the same bytes; without alpha in the format the color is
/// opaque.
pub proof fn lemma_words_are_read_by_bytes(raw: u32)
    ensures
        ArgbPixel::decoded(raw).a == raw >> 24,
        ArgbPixel::decoded(raw).r == (raw >> 16) & 255,
        ArgbPixel::decoded(raw).g == (raw >> 8) & 255,
        ArgbPixel::decoded(raw).b == raw & 255,
        AbgrPixel::decoded(raw).a == raw >> 24,
        AbgrPixel::decoded(raw).b == (raw >> 16) & 255,
        AbgrPixel::decoded(raw).g == (raw >> 8) & 255,
        AbgrPixel::decoded(raw).r == raw & 255,
        Rgb8Pixel::decoded(raw).a == 255,
        Rgb8Pixel::decoded(raw).r == (raw >> 16) & 255,
        Rgb8Pixel::decoded(raw).g == (raw >> 8) & 255,
        Rgb8Pixel::decoded(raw).b == raw & 255,
{
    lemma_bytes_of_word(raw);
}

/// A 16-bit pixel holds the top five bits of red, the top six of green and the top
/// five of blue.
pub proof fn lemma_565_holds_the_top_bits(color: Color)
    ensures
        ({
            let q = Rgb565Pixel::encoded(color);
            &&& q >> 11 == color.r >> 3
            &&& (q >> 5) & 63 == color.g >> 2
            &&& q & 31 == color.b >> 3
        }),
{
    let (cr, cg, cb) = (color.r, color.g, color.b);
    let q = Rgb565Pixel::encoded(color);
    let r = (cr / 8) as u16;
    let g = (cg / 4) as u16;
    let b = (cb / 8) as u16;
    assert(cr / 8 == cr >> 3) by (bit_vector);
    assert(cg / 4 == cg >> 2) by (bit_vector);
    assert(cb / 8 == cb >> 3) by (bit_vector);
    assert(q == r * 2048 + g * 32 + b);
    assert((q >> 11) == r && ((q >> 5) & 63) == g && (q & 31) == b) by (bit_vector)
        requires
            q == r * 2048 + g * 32 + b,
            r < 32,
            g < 64,
            b < 32,
    ;
}

/// A 16-bit pixel is read as an opaque color: each channel is spread over all of 0 to
/// 255, to the nearest value.
pub proof fn lemma_565_is_spread(raw: u16)
    ensures
        ({
            let color = Rgb565Pixel::decoded(raw);
            &&& color.a == 255
            &&& -15 <= 255 * (raw >> 11) - 31 * color.r <= 15
            &&& -31 <= 255 * ((raw >> 5) & 63) - 63 * color.g <= 31
            &&& -15 <= 255 * (raw & 31) - 31 * color.b <= 15
        }),
{
    assert(raw / 2048 == raw >> 11) by (bit_vector);
    assert(raw / 32 % 64 == (raw >> 5) & 63) by (bit_vector);
    assert(raw % 32 == raw & 31) by (bit_vector);
    lemma_five_bits(raw as int / 2048);
    lemma_six_bits(raw as int / 32 % 64);
    lemma_five_bits(raw as int % 32);
}

/// An 8-bit pixel holds red and green in three bits each and blue in two, in this
/// order from the top, each the nearest of its steps; it is read back as an opaque
/// color of those steps.
pub proof fn lemma_332_takes_the_nearest_step(color: Color, raw: u8)
    requires
        Rgb332Pixel::accepts(color),
    ensures
        ({
            let q = Rgb332Pixel::encoded(color);
            &&& -127 <= 7 * color.r - 255 * (q >> 5) <= 127
            &&& -127 <= 7 * color.g - 255 * ((q >> 2) & 7) <= 127
            &&& -127 <= 3 * color.b - 255 * (q & 3) <= 127
        }),
        Rgb332Pixel::decoded(raw).a == 255,
        Rgb332Pixel::decoded(raw).r == 36 * (raw >> 5),
        Rgb332Pixel::decoded(raw).g == 36 * ((raw >> 2) & 7),
        Rgb332Pixel::decoded(raw).b == 85 * (raw & 3),
{
    let q = Rgb332Pixel::encoded(color);
    let r = ((color.r * 7 + 127) / 255) as u8;
    let g = ((color.g * 7 + 127) / 255) as u8;
    let b = ((color.b * 3 + 127) / 255) as u8;
    assert(q == r * 32 + g * 4 + b);
    assert((q >> 5) == r && ((q >> 2) & 7) == g && (q & 3) == b) by (bit_vector)
        requires
            q == r * 32 + g * 4 + b,
            r < 2,
            g < 2,
            b < 2,
    ;
    assert(raw / 32 == raw >> 5) by (bit_vector);
    assert(raw / 4 % 8 == (raw >> 2) & 7) by (bit_vector);
    assert(raw % 4 == raw & 3) by (bit_vector);
}

/// Words lie in memory one behind the other, with their bytes in one of two orders.
pub proof fn lemma_words_lie_in_order(words: Seq<int>, size: int, k: int, j: int)
    requires
        0 < size <= 4,
        0 <= k < words.len(),
        0 <= j < size,
    ensures
        word_bytes(words, size, true).len() == size * words.len(),
        word_bytes(words, size, true)[size * k + j] == word_byte(words[k], j),
        word_bytes(words, size, false)[size * k + j] == word_byte(words[k], size - 1 - j),
{
    let n = words.len() as int;
    let i = size * k + j;
    assert(n * size == size * n) by (nonlinear_arith);
    assert(0 <= i < size * n) by (nonlinear_arith)
        requires
            0 <= k < n,
            0 <= j < size,
            i == size * k + j,
    ;
    assert(i == k * size + j) by (nonlinear_arith)
        requires
            i == size * k + j,
    ;
    vstd::arithmetic::div_mod::lemma_fundamental_div_mod_converse(i, size, k, j);
}

} // verus!
