use wie::canvas::{Canvas, Clip, Image, ImageBuffer, ImageBufferCanvas, VecImageBuffer};
use wie::pixel::{
    pack_argb, AbgrPixel, ArgbPixel, Color, PixelData, PixelType, Rgb332Pixel, Rgb565Pixel, Rgb8Pixel,
};

const EVERYWHERE: Clip = Clip { x: 0, y: 0, width: 10, height: 10 };

fn color(a: u8, r: u8, g: u8, b: u8) -> Color {
    Color { a, r, g, b }
}

#[test]
fn test_canvas() {
    let image_buffer = VecImageBuffer::<ArgbPixel>::new(10, 10);
    let mut canvas = ImageBufferCanvas::new(image_buffer);

    let clip = Clip { x: 0, y: 0, width: 10, height: 10 };
    canvas.fill_rect(0, 0, 10, 10, Color { r: 0, g: 0, b: 0, a: 255 }, clip);

    let image_buffer = canvas.into_inner();
    let raw = image_buffer.raw();

    assert_eq!(raw.len(), 10 * 10 * 4);
    for i in 0..10 * 10 {
        assert_eq!(raw[i * 4], 0);
        assert_eq!(raw[i * 4 + 1], 0);
        assert_eq!(raw[i * 4 + 2], 0);
        assert_eq!(raw[i * 4 + 3], 255);
    }
}

#[test]
fn draw_clips_and_blends_without_touching_uncovered_pixels() {
    let mut canvas =
        ImageBufferCanvas::new(VecImageBuffer::<ArgbPixel>::from_raw(3, 1, vec![0xff0000ff; 3]));
    let source =
        VecImageBuffer::<ArgbPixel>::from_raw(3, 1, vec![0x00ff0000, 0x80ff0000, 0xffff0000]);

    canvas.draw(0, 0, 3, 1, &source, 0, 0, Clip { x: 0, y: 0, width: 3, height: 1 });

    assert_eq!(
        canvas.image().colors(),
        vec![
            Color { a: 0xff, r: 0, g: 0, b: 0xff },
            Color { a: 0xff, r: 128, g: 0, b: 127 },
            Color { a: 0xff, r: 0xff, g: 0, b: 0 },
        ]
    );
}

#[test]
fn clip_intersection_is_empty_when_rectangles_do_not_overlap() {
    let result = Clip { x: 0, y: 0, width: 10, height: 10 }.intersect(&Clip {
        x: 20,
        y: 20,
        width: 5,
        height: 5,
    });

    assert_eq!(result.width, 0);
    assert_eq!(result.height, 0);
}

#[test]
fn draw_line_includes_both_endpoints() {
    let mut canvas = ImageBufferCanvas::new(VecImageBuffer::<ArgbPixel>::new(3, 1));
    canvas.draw_line(0, 0, 2, 0, Color { a: 0xff, r: 1, g: 2, b: 3 });

    assert_eq!(canvas.image().colors(), vec![Color { a: 0xff, r: 1, g: 2, b: 3 }; 3]);
}

#[test]
fn clips_that_overlap_share_a_rectangle() {
    let shared = Clip { x: -2, y: 1, width: 6, height: 6 }.intersect(&Clip {
        x: 1,
        y: 3,
        width: 10,
        height: 2,
    });
    assert_eq!((shared.x, shared.y, shared.width, shared.height), (1, 3, 3, 2));
}

#[test]
fn steep_lines_run_both_ways() {
    let ink = color(0xff, 9, 9, 9);
    let mut down = ImageBufferCanvas::new(VecImageBuffer::<ArgbPixel>::new(3, 4));
    down.draw_line(0, 0, 1, 3, ink);
    let mut up = ImageBufferCanvas::new(VecImageBuffer::<ArgbPixel>::new(3, 4));
    up.draw_line(1, 3, 0, 0, ink);
    for canvas in [&down, &up] {
        assert_eq!(canvas.image().get_pixel(0, 0), ink);
        assert_eq!(canvas.image().get_pixel(1, 3), ink);
        let drawn = canvas.image().colors().iter().filter(|c| **c == ink).count();
        assert_eq!(drawn, 4);
    }
}

#[test]
fn lines_outside_the_picture_draw_nothing() {
    let mut canvas = ImageBufferCanvas::new(VecImageBuffer::<ArgbPixel>::new(2, 2));
    canvas.draw_line(-5, -5, -1, -1, color(0xff, 1, 1, 1));
    assert!(canvas.image().colors().iter().all(|c| *c == color(0, 0, 0, 0)));
}

#[test]
fn rectangles_are_clipped() {
    let ink = color(0xff, 4, 5, 6);
    let mut canvas = ImageBufferCanvas::new(VecImageBuffer::<ArgbPixel>::new(4, 4));
    canvas.fill_rect(1, 1, 9, 9, ink, Clip { x: 0, y: 0, width: 3, height: 2 });
    for y in 0..4 {
        for x in 0..4 {
            let inside = (1..3).contains(&x) && y == 1;
            assert_eq!(canvas.image().get_pixel(x, y) == ink, inside);
        }
    }
}

#[test]
fn outlined_rectangles_are_hollow() {
    let ink = color(0xff, 4, 5, 6);
    let mut canvas = ImageBufferCanvas::new(VecImageBuffer::<ArgbPixel>::new(10, 10));
    canvas.draw_rect(2, 2, 4, 4, ink, EVERYWHERE);
    assert_eq!(canvas.image().get_pixel(2, 2), ink);
    assert_ne!(canvas.image().get_pixel(4, 4), ink);
}

#[test]
fn half_transparent_pixels_blend() {
    let mut canvas =
        ImageBufferCanvas::new(VecImageBuffer::<ArgbPixel>::from_raw(1, 1, vec![0xff0000ff]));
    canvas.blend_pixel(0, 0, color(0x80, 0xff, 0, 0));
    assert_eq!(canvas.image().get_pixel(0, 0), color(0xff, 128, 0, 127));
    canvas.blend_pixel(0, 0, color(0, 0xff, 0xff, 0xff));
    assert_eq!(canvas.image().get_pixel(0, 0), color(0xff, 128, 0, 127));
    canvas.put_pixel(0, 0, color(1, 2, 3, 4));
    assert_eq!(canvas.image().get_pixel(0, 0), color(1, 2, 3, 4));
}

#[test]
fn image_buffers_give_rows_and_words() {
    let mut image = VecImageBuffer::<ArgbPixel>::new(2, 2);
    image.put_pixels(0, 1, 2, &[color(1, 2, 3, 4), color(5, 6, 7, 8)]);
    let mut row = [color(0, 0, 0, 0); 2];
    image.get_pixels(0, 1, &mut row);
    assert_eq!(row, [color(1, 2, 3, 4), color(5, 6, 7, 8)]);
    assert_eq!(image.argb8888(), vec![0, 0, 0x01020304, 0x05060708]);
    assert_eq!(image.bytes_per_pixel(), 4);
    assert_eq!((image.width(), image.height()), (2, 2));
}

#[test]
fn pixels_have_exact_forms() {
    assert_eq!(pack_argb(color(0x12, 0x34, 0x56, 0x78)), 0x12345678);
    assert_eq!(ArgbPixel::from_color(color(1, 2, 3, 4)), 0x01020304);
    assert_eq!(ArgbPixel::to_color(0x01020304), color(1, 2, 3, 4));
    assert_eq!(AbgrPixel::from_color(color(1, 2, 3, 4)), 0x01040302);
    assert_eq!(AbgrPixel::to_color(0x01040302), color(1, 2, 3, 4));
    assert_eq!(Rgb8Pixel::to_color(0x00102030), color(0xff, 0x10, 0x20, 0x30));
    assert_eq!(Rgb565Pixel::from_color(color(0xff, 0xff, 0, 0)), 0xf800);
    assert_eq!(Rgb565Pixel::from_color(color(0xff, 0, 0xff, 0)), 0x07e0);
    let round = Rgb565Pixel::to_color(0x1234);
    assert_eq!(Rgb565Pixel::from_color(round), 0x1234);
}

#[test]
fn pixels_turn_into_bytes_and_back() {
    assert_eq!(<u16 as PixelData>::to_bytes(&[0x1234, 0xabcd]), vec![0x34, 0x12, 0xcd, 0xab]);
    assert_eq!(<u16 as PixelData>::from_bytes(&[0x34, 0x12]), vec![0x1234]);
    assert_eq!(<u32 as PixelData>::to_bytes(&[0x01020304]), vec![4, 3, 2, 1]);
    assert_eq!(<u32 as PixelData>::from_bytes(&[4, 3, 2, 1, 0, 0, 0, 9]), vec![0x01020304, 0x09000000]);
    let image = VecImageBuffer::<Rgb332Pixel>::new(2, 2);
    assert_eq!(image.raw(), vec![0; 4]);
    let image = VecImageBuffer::<Rgb565Pixel>::from_raw(2, 1, vec![0x1234, 0xabcd]);
    assert_eq!(image.raw(), vec![0x34, 0x12, 0xcd, 0xab]);
}

#[test]
fn rows_leave_what_single_pixels_leave() {
    let ink = |value: u8| Color { a: 0xff, r: value, g: value, b: value };
    let colors: Vec<Color> = (0..7).map(|k| ink(30 * k + 8)).collect();
    let items = vec![0x1111u16; 11];
    for (x, y, width) in [(0, 0, 3), (-1, 1, 3), (2, -1, 2), (1, 2, 5), (0, 0, 0)] {
        let mut rows = VecImageBuffer::<Rgb565Pixel>::from_raw(3, 3, items.clone());
        rows.put_pixels(x, y, width, &colors);
        let mut single = VecImageBuffer::<Rgb565Pixel>::from_raw(3, 3, items.clone());
        for (k, color) in colors.iter().enumerate().filter(|_| width != 0) {
            let k = k as i32;
            single.put_pixel(x + k % width as i32, y + k / width as i32, *color);
        }
        assert_eq!(rows.raw(), single.raw());
        assert_eq!((rows.width(), rows.height()), (3, 3));
        assert_eq!(rows.raw()[18..], [0x11, 0x11, 0x11, 0x11]);
    }
}

#[test]
fn only_the_drawn_items_change() {
    let clip = Clip { x: 0, y: 0, width: 9, height: 9 };
    let ink = Color { a: 0xff, r: 0xff, g: 0, b: 0 };
    let mut canvas =
        ImageBufferCanvas::new(VecImageBuffer::<Rgb565Pixel>::from_raw(3, 3, vec![0x0821; 10]));
    canvas.fill_rect(1, 1, 1, 1, ink, clip);
    let mut expected = vec![0x21, 0x08].repeat(10);
    expected[8..10].copy_from_slice(&[0x00, 0xf8]);
    assert_eq!(canvas.image().raw(), expected);
    canvas.draw_rect(0, 0, 0, 3, ink, clip);
    canvas.draw_rect(0, 0, 3, 0, ink, clip);
    assert_eq!(canvas.image().raw(), expected);
    canvas.draw_rect(0, 0, 3, 3, ink, clip);
    let mut outlined = [0x00, 0xf8].repeat(9);
    outlined.extend([0x21, 0x08]);
    assert_eq!(canvas.image().raw(), outlined);
    canvas.blend_pixel(0, 0, Color { a: 0, r: 9, g: 9, b: 9 });
    assert_eq!(canvas.image().raw(), outlined);
}
