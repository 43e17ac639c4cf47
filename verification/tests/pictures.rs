use wie::canvas::{Canvas, Image, VecImageBuffer};
use wie::framebuffer::{FrameBuffer, FrameCanvas, FrameImage};
use wie::guest_machine::GuestMachine;
use wie::image_decode::{decode_image, image_from_decoding, image_from_rgba, DecodeError, DecodedImage};
use wie::pixel::{ArgbPixel, Color};

const BITMAP: [u8; 62] = [
    0x42, 0x4d, 62, 0, 0, 0, 0, 0, 0, 0, 54, 0, 0, 0, 40, 0, 0, 0, 2, 0, 0, 0, 1, 0, 0, 0, 1, 0, 24, 0, 0,
    0, 0, 0, 8, 0, 0, 0, 0x13, 0x0b, 0, 0, 0x13, 0x0b, 0, 0, 0, 0, 0, 0, 0, 0, 0, 0, 0x30, 0x20, 0x10, 0xff,
    0x80, 0x00, 0, 0,
];

fn machine() -> GuestMachine {
    let mut context = GuestMachine::new(0x1000);
    context.map(0, 0x100000);
    context
}

#[test]
fn bitmaps_are_decoded() {
    let Ok(DecodedImage::Argb(image)) = decode_image(&BITMAP) else {
        panic!("not decoded");
    };
    assert_eq!((image.width(), image.height()), (2, 1));
    assert_eq!(image.argb8888(), vec![0xff102030, 0xff0080ff]);
}

#[test]
fn unknown_files_are_refused() {
    assert!(decode_image(b"not a picture").is_err());
    assert!(matches!(decode_image(b"LBMP rest"), Ok(DecodedImage::Lbmp)));
}

#[test]
fn a_decoding_becomes_a_picture_or_an_error() {
    let Ok(DecodedImage::Argb(image)) = image_from_decoding(Ok((1, 1, vec![1, 2, 3, 4]))) else {
        panic!("not a picture");
    };
    assert_eq!((image.width(), image.height()), (1, 1));
    assert_eq!(image.argb8888(), vec![0x04010203]);
    let refused = image_from_decoding(Err("no format".to_owned()));
    assert!(matches!(refused, Err(DecodeError::FatalError(text)) if text == "no format"));
}

#[test]
fn rows_of_bytes_become_pixels() {
    let image = image_from_rgba(1, 2, &[1, 2, 3, 4, 5, 6, 7, 8]);
    assert_eq!(image.argb8888(), vec![0x04010203, 0x08050607]);
}

#[test]
fn frame_buffers_live_in_guest_memory() {
    let mut context = machine();
    let buffer = FrameBuffer::new(&mut context, 2, 1, 32).unwrap();
    let mut canvas = buffer.canvas(&context).unwrap();
    let ink = Color { a: 0xff, r: 1, g: 2, b: 3 };
    match &mut canvas.canvas {
        FrameCanvas::Argb(inner) => inner.put_pixel(1, 0, ink),
        _ => panic!("not a 32-bit canvas"),
    }
    canvas.finish(&mut context).unwrap();
    match buffer.image(&context).unwrap() {
        FrameImage::Argb(image) => assert_eq!(image.get_pixel(1, 0), ink),
        _ => panic!("not a 32-bit image"),
    }
}

#[test]
fn images_are_copied_into_guest_memory() {
    let mut context = machine();
    let image = VecImageBuffer::<ArgbPixel>::from_raw(2, 1, vec![0xff010203, 0xff040506]);
    let buffer = FrameBuffer::from_image(&mut context, &image).unwrap();
    match buffer.image(&context).unwrap() {
        FrameImage::Argb(copy) => assert_eq!(copy.argb8888(), image.argb8888()),
        _ => panic!("not a 32-bit image"),
    }
}

#[test]
fn raw_pixels_go_by_their_width() {
    let mut context = machine();
    let words = FrameBuffer::new(&mut context, 1, 1, 32).unwrap();
    assert_eq!(words.pixel_to_color(0x80010203), Color { a: 0xff, r: 1, g: 2, b: 3 });
    let halves = FrameBuffer::new(&mut context, 1, 1, 16).unwrap();
    assert_eq!(halves.pixel_to_color(0x1f800), Color { a: 0xff, r: 0xff, g: 0, b: 0 });
}
