//! Decoding image files into buffers that can be drawn.

use vstd::prelude::*;

use crate::canvas::VecImageBuffer;
use crate::pixel::ArgbPixel;

verus! {

use crate::canvas::Image;
use crate::pixel::{
    is_memory_of,
    lemma_words_are_read_by_bytes,
    word_byte,
    word_bytes,
    Color,
    PixelType,
};

/// The first bytes of an LBMP file.
pub const LBMP_MAGIC: [u8; 4] = [0x4c, 0x42, 0x4d, 0x50];

/// Why an image could not be decoded.
#[derive(Debug, PartialEq, Eq)]
pub enum DecodeError {
    FatalError(String),
}

/// What an image file holds.
pub enum DecodedImage {
    /// An LBMP file, for which there is a decoder of its own.
    Lbmp,
    Argb(VecImageBuffer<ArgbPixel>),
}

/// What the `image` crate made of a file: width, height and the pixels in rows, four
/// bytes each, red first and alpha last; or the text of its error.
pub type Decoding = Result<(u32, u32, Vec<u8>), String>;

/// What a `Decoding` holds.
pub type DecodingModel = Result<(u32, u32, Seq<u8>), Seq<char>>;

/// What a decoding holds.
pub open spec fn decoding_model(decoding: Decoding) -> DecodingModel {
    match decoding {
        Ok((width, height, rgba)) => Ok((width, height, rgba@)),
        Err(text) => Err(text@),
    }
}

/// `decoding` is something that `image::ImageReader` makes of a file. For one file
/// there can be several: with other decoders in the process, another one.
pub uninterp spec fn is_decoding_of(
    decoding: Result<(u32, u32, Seq<u8>), Seq<char>>,
    data: Seq<u8>,
) -> bool;

/// There are as many pixels as the picture has places.
pub open spec fn is_whole(decoding: Decoding) -> bool {
    decoding matches Ok((width, height, rgba)) ==> rgba@.len() == 4 * (width * height)
}

/// Decodes a file with `image::ImageReader`, which guesses the format from the
/// contents, and turns the image into 8-bit RGBA. The pixels that `pixels()` gives
/// are as many as the image has places. The outcome is a decoding of these bytes, but
/// no function of them: which files are decoded, and to what, depends on the decoders
/// that are registered in the process as well. What it is, is therefore not said.
#[verifier::external_body]
fn decode_rgba(data: &[u8]) -> (r: Decoding)
    ensures
        is_whole(r),
        is_decoding_of(decoding_model(r), data@),
{
    let reader = image::ImageReader::new(std::io::Cursor::new(data));
    let guessed = reader.with_guessed_format().map_err(|error| error.to_string())?;
    let rgba = guessed.decode().map_err(|error| error.to_string())?.into_rgba8();
    let bytes = rgba.pixels().flat_map(|pixel| pixel.0).collect();
    Ok((rgba.width(), rgba.height(), bytes))
}

/// Gathers bytes into 32-bit words with `bytemuck::pod_collect_to_vec`, which
/// copies the bytes into the memory of the words. Which byte of a word is the
/// lowest depends on the machine.
#[verifier::external_body]
fn collect_words(bytes: &[u8]) -> (r: Vec<u32>)
    requires
        bytes@.len() % 4 == 0,
    ensures
        r@.len() == bytes@.len() / 4,
        is_memory_of(bytes@, r@.map_values(|word: u32| word as int), 4),
{
    bytemuck::pod_collect_to_vec::<u8, u32>(bytes)
}

/// The RGBA pixels with red and blue exchanged.
pub open spec fn bgra(rgba: Seq<u8>) -> Seq<u8> {
    Seq::new(
        rgba.len(),
        |i: int|
            if i % 4 == 0 {
                rgba[i + 2]
            } else if i % 4 == 2 {
                rgba[i - 2]
            } else {
                rgba[i]
            },
    )
}

/// The color of pixel `i` of `rgba`.
pub open spec fn rgba_color(rgba: Seq<u8>, i: int) -> Color {
    Color { r: rgba[4 * i], g: rgba[4 * i + 1], b: rgba[4 * i + 2], a: rgba[4 * i + 3] }
}

/// The image of `words`, which hold the pixels of `rgba` as this machine lays
/// them out. Where the lowest byte of a word comes first, they are its colors;
/// elsewhere each word is that of the color read backwards.
pub open spec fn holds_rgba(words: Seq<u32>, rgba: Seq<u8>) -> bool {
    &&& words.len() == rgba.len() / 4
    &&& {
        ||| forall|i: int|
            0 <= i < words.len() ==> ArgbPixel::decoded(#[trigger] words[i]) == rgba_color(rgba, i)
        ||| forall|i: int|
            0 <= i < words.len() ==> ArgbPixel::decoded(#[trigger] words[i]) == (Color {
                a: rgba[4 * i + 2],
                r: rgba[4 * i + 1],
                g: rgba[4 * i],
                b: rgba[4 * i + 3],
            })
    }
}

proof fn lemma_words_are_pixels(words: Seq<u32>, rgba: Seq<u8>)
    requires
        rgba.len() % 4 == 0,
        words.len() == rgba.len() / 4,
        is_memory_of(bgra(rgba), words.map_values(|word: u32| word as int), 4),
    ensures
        holds_rgba(words, rgba),
{
    let values = words.map_values(|word: u32| word as int);
    let bytes = bgra(rgba);
    if bytes == word_bytes(values, 4, true) {
        assert forall|i: int| 0 <= i < words.len() implies ArgbPixel::decoded(#[trigger] words[i])
            == rgba_color(rgba, i) by {
            assert(bytes[4 * i] == word_byte(values[i], 0));
            assert(bytes[4 * i + 1] == word_byte(values[i], 1));
            assert(bytes[4 * i + 2] == word_byte(values[i], 2));
            assert(bytes[4 * i + 3] == word_byte(values[i], 3));
        }
    } else {
        assert forall|i: int| 0 <= i < words.len() implies ArgbPixel::decoded(#[trigger] words[i])
            == (Color {
            a: rgba[4 * i + 2],
            r: rgba[4 * i + 1],
            g: rgba[4 * i],
            b: rgba[4 * i + 3],
        }) by {
            assert(bytes[4 * i] == word_byte(values[i], 3));
            assert(bytes[4 * i + 1] == word_byte(values[i], 2));
            assert(bytes[4 * i + 2] == word_byte(values[i], 1));
            assert(bytes[4 * i + 3] == word_byte(values[i], 0));
        }
    }
}

/// The image of RGBA pixels.
pub fn image_from_rgba(width: u32, height: u32, rgba: &[u8]) -> (r: VecImageBuffer<ArgbPixel>)
    requires
        rgba@.len() % 4 == 0,
    ensures
        r.spec_width() == width,
        r.spec_height() == height,
        holds_rgba(r.data(), rgba@),
{
    let count = rgba.len();
    let mut swapped: Vec<u8> = Vec::new();
    let mut index: usize = 0;
    while index < count
        invariant
            count == rgba@.len(),
            count % 4 == 0,
            index % 4 == 0,
            index <= count,
            swapped@ == bgra(rgba@).take(index as int),
        decreases count - index,
    {
        swapped.push(rgba[index + 2]);
        swapped.push(rgba[index + 1]);
        swapped.push(rgba[index]);
        swapped.push(rgba[index + 3]);
        index += 4;
        assert(swapped@ =~= bgra(rgba@).take(index as int));
    }
    assert(swapped@ =~= bgra(rgba@));
    let words = collect_words(swapped.as_slice());
    proof {
        lemma_words_are_pixels(words@, rgba@);
    }
    VecImageBuffer::from_raw(width, height, words)
}

/// `data` starts as an LBMP file does.
pub open spec fn is_lbmp(data: Seq<u8>) -> bool {
    data.len() >= 4 && data.take(4) == LBMP_MAGIC@
}

/// The picture, or the error, that a decoding gives.
pub open spec fn is_decoded(decoding: Decoding, r: Result<DecodedImage, DecodeError>) -> bool {
    match decoding {
        Ok((width, height, rgba)) => {
            &&& r matches Ok(DecodedImage::Argb(image))
            &&& image.spec_width() == width
            &&& image.spec_height() == height
            &&& holds_rgba(image.data(), rgba@)
        },
        Err(text) => {
            &&& r matches Err(DecodeError::FatalError(message))
            &&& message@ == text@
        },
    }
}

/// The picture, or the error, that a decoding gives.
pub fn image_from_decoding(decoding: Decoding) -> (r: Result<DecodedImage, DecodeError>)
    requires
        is_whole(decoding),
    ensures
        is_decoded(decoding, r),
{
    match decoding {
        Ok((width, height, rgba)) => {
            Ok(DecodedImage::Argb(image_from_rgba(width, height, rgba.as_slice())))
        },
        Err(text) => Err(DecodeError::FatalError(text)),
    }
}

/// Decodes an image file: an LBMP file is only recognized, all others are what the
/// `image` crate makes of them. The file must not end inside the first four bytes of
/// an LBMP file.
pub fn decode_image(data: &[u8]) -> (r: Result<DecodedImage, DecodeError>)
    requires
        data@.len() >= 4 || data@ != LBMP_MAGIC@.take(data@.len() as int),
    ensures
        is_lbmp(data@) ==> r == Ok::<DecodedImage, DecodeError>(DecodedImage::Lbmp),
        !is_lbmp(data@) ==> exists|decoding: Decoding|
            {
                &&& is_whole(decoding)
                &&& is_decoding_of(decoding_model(decoding), data@)
                &&& #[trigger] is_decoded(decoding, r)
            },
{
    if data.len() >= 4 && data[0] == LBMP_MAGIC[0] && data[1] == LBMP_MAGIC[1] && data[2]
        == LBMP_MAGIC[2] && data[3] == LBMP_MAGIC[3] {
        assert(data@.take(4) =~= LBMP_MAGIC@);
        return Ok(DecodedImage::Lbmp);
    }
    proof {
        if is_lbmp(data@) {
            assert(data@.take(4)[0] == LBMP_MAGIC@[0]);
            assert(data@.take(4)[1] == LBMP_MAGIC@[1]);
            assert(data@.take(4)[2] == LBMP_MAGIC@[2]);
            assert(data@.take(4)[3] == LBMP_MAGIC@[3]);
        }
    }
    image_from_decoding(decode_rgba(data))
}

/// Pixel `i` of the words has the channels of pixel `i` of the RGBA bytes: alpha in the top
/// byte, red, green, and blue in the lowest; or the other way round.
pub open spec fn has_channels(words: Seq<u32>, rgba: Seq<u8>, i: int, lowest_first: bool) -> bool {
    if lowest_first {
        &&& words[i] >> 24 == rgba[4 * i + 3]
        &&& (words[i] >> 16) & 255 == rgba[4 * i]
        &&& (words[i] >> 8) & 255 == rgba[4 * i + 1]
        &&& words[i] & 255 == rgba[4 * i + 2]
    } else {
        &&& words[i] & 255 == rgba[4 * i + 3]
        &&& (words[i] >> 8) & 255 == rgba[4 * i]
        &&& (words[i] >> 16) & 255 == rgba[4 * i + 1]
        &&& words[i] >> 24 == rgba[4 * i + 2]
    }
}

/// A decoded picture has all its pixels in their places, each with its four channels, in
/// one order of bytes throughout.
pub proof fn lemma_pixels_keep_their_channels(words: Seq<u32>, rgba: Seq<u8>)
    requires
        rgba.len() % 4 == 0,
        holds_rgba(words, rgba),
    ensures
        4 * words.len() == rgba.len(),
        (forall|i: int| 0 <= i < words.len() ==> #[trigger] has_channels(words, rgba, i, true)) || (
        forall|i: int| 0 <= i < words.len() ==> #[trigger] has_channels(words, rgba, i, false)),
{
    if forall|i: int|
        0 <= i < words.len() ==> ArgbPixel::decoded(#[trigger] words[i]) == rgba_color(rgba, i) {
        assert forall|i: int| 0 <= i < words.len() implies #[trigger] has_channels(
            words,
            rgba,
            i,
            true,
        ) by {
            lemma_words_are_read_by_bytes(words[i]);
        }
    } else {
        assert forall|i: int| 0 <= i < words.len() implies #[trigger] has_channels(
            words,
            rgba,
            i,
            false,
        ) by {
            lemma_words_are_read_by_bytes(words[i]);
        }
    }
}

/// A file is an LBMP file if and only if it starts with these four letters.
pub proof fn lemma_lbmp_starts_with_its_letters(data: Seq<u8>)
    ensures
        is_lbmp(data) <==> data.len() >= 4 && data[0] == 'L' as u8 && data[1] == 'B' as u8
            && data[2] == 'M' as u8 && data[3] == 'P' as u8,
{
    if data.len() >= 4 {
        assert(data.take(4)[0] == data[0] && data.take(4)[1] == data[1]);
        assert(data.take(4)[2] == data[2] && data.take(4)[3] == data[3]);
        if data[0] == 'L' as u8 && data[1] == 'B' as u8 && data[2] == 'M' as u8 && data[3]
            == 'P' as u8 {
            assert(data.take(4) =~= LBMP_MAGIC@);
        }
    }
}

/// A picture keeps its size, and an error its text.
pub proof fn lemma_decoding_is_kept(decoding: Decoding, r: Result<DecodedImage, DecodeError>)
    requires
        is_decoded(decoding, r),
        is_whole(decoding),
    ensures
        decoding is Ok <==> r is Ok,
        decoding matches Ok((width, height, rgba)) ==> {
            &&& r matches Ok(DecodedImage::Argb(image))
            &&& image.spec_width() == width
            &&& image.spec_height() == height
            &&& image.data().len() == width * height
        },
        decoding matches Err(text) ==> {
            &&& r matches Err(DecodeError::FatalError(message))
            &&& message@ == text@
        },
{
}

} // verus!
