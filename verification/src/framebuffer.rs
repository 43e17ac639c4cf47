//! Frame buffers in the guest's memory.

use vstd::prelude::*;

use crate::canvas::{Image, ImageBufferCanvas, VecImageBuffer};
use crate::guest::{GuestError, WIPICContext};
use crate::pixel::{ArgbPixel, Color, PixelData, PixelType, Rgb565Pixel, Rgb8Pixel};

verus! {

use crate::canvas::Canvas;
use crate::guest::{attempted, content, readable, stored, Request};
use crate::pixel::{is_memory_of, lemma_rgb565_is_stable, lemma_words_are_read_by_bytes};

/// A frame buffer's record: its size in pixels, the bytes per line, the bits per
/// pixel and the indirect pointer to its pixels.
#[derive(Clone, Copy, Debug, PartialEq, Eq, Structural)]
pub struct WIPICFramebuffer {
    pub width: u32,
    pub height: u32,
    pub bpl: u32,
    pub bpp: u32,
    pub buf: u32,
}

#[derive(Clone, Copy, Debug, PartialEq, Eq, Structural)]
pub struct FrameBuffer(pub WIPICFramebuffer);

/// How many bytes the pixels of a frame buffer take, `bytes` each.
pub open spec fn room_of(width: int, height: int, bytes: int) -> int {
    width * height * bytes
}

/// The record of a frame buffer whose pixels have `bytes` bytes each.
pub open spec fn laid_out(width: int, height: int, bytes: int, buf: u32) -> WIPICFramebuffer {
    WIPICFramebuffer {
        width: width as u32,
        height: height as u32,
        bpl: (width * bytes) as u32,
        bpp: (bytes * 8) as u32,
        buf,
    }
}

/// The color of a raw pixel of a frame buffer.
pub open spec fn color_in(frame: FrameBuffer, pixel: u32) -> Color {
    if frame.0.bpp == 16 {
        Rgb565Pixel::decoded((pixel % 0x10000) as u16)
    } else {
        Rgb8Pixel::decoded(pixel)
    }
}

/// The pixels of a frame buffer, in one of the two formats that can be drawn.
pub enum FrameImage {
    Rgb565(VecImageBuffer<Rgb565Pixel>),
    Argb(VecImageBuffer<ArgbPixel>),
}

/// A canvas on a copy of the pixels of a frame buffer.
pub enum FrameCanvas {
    Rgb565(ImageBufferCanvas<VecImageBuffer<Rgb565Pixel>>),
    Argb(ImageBufferCanvas<VecImageBuffer<ArgbPixel>>),
}

impl FrameBuffer {
    /// How many bytes the pixels have, where each has `size`.
    pub open spec fn byte_count(self, size: int) -> int {
        self.0.width * self.0.height * size
    }

    /// The pixels can be found and read.
    pub open spec fn is_readable<C: WIPICContext>(self, context: C, size: int) -> bool {
        &&& context.block(self.0.buf) matches Some(address)
        &&& readable(context.memory(), address, self.byte_count(size))
    }

    /// The pixels as they lie in memory.
    pub open spec fn bytes<C: WIPICContext>(self, context: C, size: int) -> Seq<u8> {
        content(context.memory(), context.block(self.0.buf)->0, self.byte_count(size))
    }

    /// `image` has the size of the frame buffer and the pixels that lie in memory as
    /// `bytes`.
    pub open spec fn is_image<T: PixelType>(
        self,
        image: VecImageBuffer<T>,
        bytes: Seq<u8>,
    ) -> bool {
        &&& image.spec_width() == self.0.width
        &&& image.spec_height() == self.0.height
        &&& image.data().len() == self.0.width * self.0.height
        &&& is_memory_of(
            bytes,
            image.data().map_values(|v: T::DataType| v.value()),
            <T::DataType as PixelData>::size(),
        )
    }

    /// A frame buffer without pixels.
    pub fn empty() -> (r: Self)
        ensures
            r.0 == (WIPICFramebuffer { width: 0, height: 0, bpl: 0, bpp: 0, buf: 0 }),
    {
        FrameBuffer(WIPICFramebuffer { width: 0, height: 0, bpl: 0, bpp: 0, buf: 0 })
    }

    /// Allocates a frame buffer. Bits that make up no whole byte are dropped.
    pub fn new<C: WIPICContext>(context: &mut C, width: u32, height: u32, bpp: u32) -> (r: Result<
        Self,
        GuestError,
    >)
        requires
            width * height <= u32::MAX,
            width * height * (bpp / 8) <= u32::MAX,
            width * (bpp / 8) <= u32::MAX,
        ensures
            final(context).memory() == old(context).memory(),
            final(context).requests() == old(context).requests().push(
                Request::AllocBlock {
                    size: room_of(width as int, height as int, bpp as int / 8) as u32,
                    result: match r {
                        Ok(frame) => Some(frame.0.buf),
                        Err(_) => None,
                    },
                },
            ),
            r matches Ok(frame) ==> frame.0 == laid_out(
                width as int,
                height as int,
                bpp as int / 8,
                frame.0.buf,
            ),
    {
        let bytes_per_pixel: u32 = bpp / 8;
        let buf = match context.alloc_block(width * height * bytes_per_pixel) {
            Ok(buf) => buf,
            Err(error) => return Err(error),
        };
        Ok(
            FrameBuffer(
                WIPICFramebuffer {
                    width,
                    height,
                    bpl: width * bytes_per_pixel,
                    bpp: bytes_per_pixel * 8,
                    buf,
                },
            ),
        )
    }

    /// Allocates a frame buffer and copies an image into it.
    pub fn from_image<C: WIPICContext, I: Image>(context: &mut C, image: &I) -> (r: Result<
        Self,
        GuestError,
    >)
        requires
            image.spec_width() * image.spec_height() <= u32::MAX,
            image.spec_width() * image.spec_height() * image.spec_bytes_per_pixel() <= u32::MAX,
            image.spec_width() * image.spec_bytes_per_pixel() <= u32::MAX,
            image.spec_bytes_per_pixel() * 8 <= u32::MAX,
        ensures
            final(context).requests().len() == old(context).requests().len() + 1,
            final(context).requests().drop_last() == old(context).requests(),
            final(context).requests().last() matches Request::AllocBlock { size, result } && {
                &&& size == room_of(
                    image.spec_width() as int,
                    image.spec_height() as int,
                    image.spec_bytes_per_pixel() as int,
                )
                &&& r is Ok ==> result == Some((r->Ok_0).0.buf)
                &&& match result {
                    None => r is Err && final(context).memory() == old(context).memory(),
                    Some(buf) => match final(context).block(buf) {
                        None => r is Err && final(context).memory() == old(context).memory(),
                        Some(address) => exists|raw: Seq<u8>|
                            {
                                &&& #[trigger] image.is_raw(raw)
                                &&& r is Ok <==> final(context).writable(
                                    address,
                                    raw.len() as int,
                                )
                                &&& final(context).memory() == if r is Ok {
                                    stored(old(context).memory(), address, raw)
                                } else {
                                    attempted(
                                        *final(context),
                                        old(context).memory(),
                                        address,
                                        raw,
                                    )
                                }
                            },
                    },
                }
            },
            r matches Ok(frame) ==> frame.0 == laid_out(
                image.spec_width() as int,
                image.spec_height() as int,
                image.spec_bytes_per_pixel() as int,
                frame.0.buf,
            ),
    {
        let ghost before = context.requests();
        let width = image.width();
        let height = image.height();
        let bytes_per_pixel = image.bytes_per_pixel();
        let allocated = context.alloc_block(width * height * bytes_per_pixel);
        assert(context.requests().drop_last() =~= before);
        let buf = match allocated {
            Ok(buf) => buf,
            Err(error) => return Err(error),
        };
        let address = match context.data_ptr(buf) {
            Ok(address) => address,
            Err(error) => return Err(error),
        };
        let raw = image.raw();
        if let Err(error) = context.write_bytes(address, raw.as_slice()) {
            return Err(error);
        }
        Ok(
            FrameBuffer(
                WIPICFramebuffer {
                    width,
                    height,
                    bpl: width * bytes_per_pixel,
                    bpp: bytes_per_pixel * 8,
                    buf,
                },
            ),
        )
    }

    /// Copies the pixels out of the guest's memory.
    fn image_buffer<C: WIPICContext, T: PixelType>(&self, context: &C) -> (r: Result<
        VecImageBuffer<T>,
        GuestError,
    >)
        requires
            0 < <T::DataType as PixelData>::size() <= 4,
            self.0.width * self.0.height <= u32::MAX,
            self.byte_count(<T::DataType as PixelData>::size()) <= usize::MAX,
        ensures
            r is Ok <==> self.is_readable(*context, <T::DataType as PixelData>::size()),
            r matches Ok(image) ==> self.is_image(
                image,
                self.bytes(*context, <T::DataType as PixelData>::size()),
            ),
    {
        let size = <T::DataType as PixelData>::byte_size();
        let address = match context.data_ptr(self.0.buf) {
            Ok(address) => address,
            Err(error) => return Err(error),
        };
        let count: u32 = self.0.width * self.0.height;
        let ghost n = count as int;
        let ghost k = size as int;
        assert(n * k == self.byte_count(k));
        let bytes = match context.read_bytes(address, count as usize * size as usize) {
            Ok(bytes) => bytes,
            Err(error) => return Err(error),
        };
        proof {
            vstd::arithmetic::div_mod::lemma_mod_multiples_basic(n, k);
            vstd::arithmetic::div_mod::lemma_div_multiples_vanish(n, k);
            assert(k * n == n * k) by (nonlinear_arith);
        }
        let pixels = <T::DataType as PixelData>::from_bytes(bytes.as_slice());
        Ok(VecImageBuffer::from_raw(self.0.width, self.0.height, pixels))
    }

    /// A copy of the pixels. They have 16 or 32 bits each.
    pub fn image<C: WIPICContext>(&self, context: &C) -> (r: Result<FrameImage, GuestError>)
        requires
            self.0.bpp == 16 || self.0.bpp == 32,
            self.0.width * self.0.height <= u32::MAX,
            self.byte_count(self.0.bpp as int / 8) <= usize::MAX,
        ensures
            r is Ok <==> self.is_readable(*context, self.0.bpp as int / 8),
            r matches Ok(image) ==> match image {
                FrameImage::Rgb565(image) => self.0.bpp == 16 && self.is_image(
                    image,
                    self.bytes(*context, 2),
                ),
                FrameImage::Argb(image) => self.0.bpp == 32 && self.is_image(
                    image,
                    self.bytes(*context, 4),
                ),
            },
    {
        if self.0.bpp == 16 {
            match self.image_buffer::<C, Rgb565Pixel>(context) {
                Ok(image) => Ok(FrameImage::Rgb565(image)),
                Err(error) => Err(error),
            }
        } else {
            match self.image_buffer::<C, ArgbPixel>(context) {
                Ok(image) => Ok(FrameImage::Argb(image)),
                Err(error) => Err(error),
            }
        }
    }

    /// A canvas on a copy of the pixels; `FramebufferCanvas::finish` copies them back.
    pub fn canvas<C: WIPICContext>(&self, context: &C) -> (r: Result<
        FramebufferCanvas,
        GuestError,
    >)
        requires
            self.0.bpp == 16 || self.0.bpp == 32,
            self.0.width * self.0.height <= u32::MAX,
            self.byte_count(self.0.bpp as int / 8) <= usize::MAX,
        ensures
            r is Ok <==> self.is_readable(*context, self.0.bpp as int / 8),
            r matches Ok(opened) ==> {
                &&& opened.framebuffer == *self
                &&& match opened.canvas {
                    FrameCanvas::Rgb565(canvas) => self.0.bpp == 16 && self.is_image(
                        canvas.buffer(),
                        self.bytes(*context, 2),
                    ),
                    FrameCanvas::Argb(canvas) => self.0.bpp == 32 && self.is_image(
                        canvas.buffer(),
                        self.bytes(*context, 4),
                    ),
                }
            },
    {
        let canvas = match self.image(context) {
            Ok(FrameImage::Rgb565(image)) => FrameCanvas::Rgb565(ImageBufferCanvas::new(image)),
            Ok(FrameImage::Argb(image)) => FrameCanvas::Argb(ImageBufferCanvas::new(image)),
            Err(error) => return Err(error),
        };
        Ok(FramebufferCanvas { framebuffer: *self, canvas })
    }

    /// Replaces the pixels in the guest's memory.
    pub fn write<C: WIPICContext>(&self, context: &mut C, data: &[u8]) -> (r: Result<
        (),
        GuestError,
    >)
        ensures
            final(context).requests() == old(context).requests(),
            match old(context).block(self.0.buf) {
                None => r is Err && final(context).memory() == old(context).memory(),
                Some(address) => {
                    &&& r is Ok <==> old(context).writable(address, data@.len() as int)
                    &&& final(context).memory() == if r is Ok {
                        stored(old(context).memory(), address, data@)
                    } else {
                        attempted(*old(context), old(context).memory(), address, data@)
                    }
                },
            },
    {
        match context.data_ptr(self.0.buf) {
            Ok(address) => context.write_bytes(address, data),
            Err(error) => Err(error),
        }
    }

    /// The color of a raw pixel. All but 16-bit pixels are words of red, green and
    /// blue.
    pub fn pixel_to_color(&self, pixel: u32) -> (r: Color)
        ensures
            r == color_in(*self, pixel),
    {
        if self.0.bpp == 16 {
            Rgb565Pixel::to_color((pixel % 0x10000) as u16)
        } else {
            Rgb8Pixel::to_color(pixel)
        }
    }
}

/// A canvas whose drawing goes to a frame buffer in the end.
pub struct FramebufferCanvas {
    pub framebuffer: FrameBuffer,
    pub canvas: FrameCanvas,
}

impl FramebufferCanvas {
    /// `bytes` is how the drawn pixels lie in memory.
    pub open spec fn is_raw(&self, bytes: Seq<u8>) -> bool {
        match self.canvas {
            FrameCanvas::Rgb565(canvas) => canvas.buffer().is_raw(bytes),
            FrameCanvas::Argb(canvas) => canvas.buffer().is_raw(bytes),
        }
    }

    /// Copies the drawing into the guest's memory.
    pub fn finish<C: WIPICContext>(self, context: &mut C) -> (r: Result<(), GuestError>)
        ensures
            final(context).requests() == old(context).requests(),
            match old(context).block(self.framebuffer.0.buf) {
                None => r is Err && final(context).memory() == old(context).memory(),
                Some(address) => exists|raw: Seq<u8>|
                    {
                        &&& #[trigger] self.is_raw(raw)
                        &&& r is Ok <==> old(context).writable(address, raw.len() as int)
                        &&& final(context).memory() == if r is Ok {
                            stored(old(context).memory(), address, raw)
                        } else {
                            attempted(*old(context), old(context).memory(), address, raw)
                        }
                    },
            },
    {
        let raw = match &self.canvas {
            FrameCanvas::Rgb565(canvas) => canvas.image().raw(),
            FrameCanvas::Argb(canvas) => canvas.image().raw(),
        };
        assert(self.is_raw(raw@));
        self.framebuffer.write(context, raw.as_slice())
    }
}

/// The lines of a frame buffer lie one behind the other without a gap and take the room
/// that was asked for; its pixels have whole bytes.
pub proof fn lemma_lines_fill_the_buffer(width: int, height: int, bytes: int, buf: u32)
    requires
        0 <= width <= u32::MAX,
        0 <= height <= u32::MAX,
        0 <= bytes,
        width * height * bytes <= u32::MAX,
        width * bytes <= u32::MAX,
        bytes * 8 <= u32::MAX,
    ensures
        ({
            let frame = laid_out(width, height, bytes, buf);
            &&& frame.width == width
            &&& frame.height == height
            &&& frame.bpl == frame.width * bytes
            &&& frame.bpp == 8 * bytes
            &&& frame.buf == buf
            &&& room_of(width, height, bytes) == frame.bpl * frame.height
            &&& FrameBuffer(frame).byte_count(bytes) == room_of(width, height, bytes)
        }),
{
    assert(0 <= width * bytes) by (nonlinear_arith)
        requires
            0 <= width,
            0 <= bytes,
    ;
    assert(0 <= width * height * bytes) by (nonlinear_arith)
        requires
            0 <= width,
            0 <= height,
            0 <= bytes,
    ;
    assert((width * bytes) * height == width * height * bytes) by (nonlinear_arith);
}

/// The pixels of a frame buffer are the bytes of its block from its start on.
pub proof fn lemma_pixels_are_in_the_block<C: WIPICContext>(
    frame: FrameBuffer,
    context: C,
    size: int,
    address: u32,
    i: int,
)
    requires
        context.block(frame.0.buf) == Some(address),
        0 <= i < frame.byte_count(size),
        frame.is_readable(context, size),
    ensures
        frame.bytes(context, size).len() == frame.0.width * frame.0.height * size,
        frame.bytes(context, size)[i] == context.memory()[(address + i) as u32],
{
}

/// A raw pixel of 16 bits is read from its lower half, whatever stands above it; any
/// other has red, green and blue in its lower three bytes, blue lowest. All are opaque.
pub proof fn lemma_raw_pixels_are_opaque(frame: FrameBuffer, pixel: u32)
    ensures
        color_in(frame, pixel).a == 255,
        frame.0.bpp == 16 ==> color_in(frame, pixel) == color_in(frame, pixel & 0xffff),
        frame.0.bpp == 16 ==> Rgb565Pixel::encoded(color_in(frame, pixel)) == pixel & 0xffff,
        frame.0.bpp != 16 ==> {
            let color = color_in(frame, pixel);
            &&& color.r == (pixel >> 16) & 255
            &&& color.g == (pixel >> 8) & 255
            &&& color.b == pixel & 255
        },
{
    if frame.0.bpp == 16 {
        let low = pixel & 0xffff;
        assert(pixel % 0x10000 == low && low % 0x10000 == low && low < 0x10000) by (bit_vector)
            requires
                low == pixel & 0xffff,
        ;
        lemma_rgb565_is_stable(low as u16);
    } else {
        lemma_words_are_read_by_bytes(pixel);
    }
}

} // verus!
