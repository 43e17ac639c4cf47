//! Images in memory, and drawing on them.

use vstd::prelude::*;

use crate::pixel::{pack_argb, Color, PixelData, PixelType};

verus! {

use crate::pixel::{argb, is_memory_of, lemma_argb_is_exact, ArgbPixel};

#[derive(Clone, Copy, Debug, PartialEq, Eq, Structural)]
pub enum TextAlignment {
    Left,
    Center,
    Right,
}

/// A rectangle to which drawing is limited.
#[derive(Clone, Copy, Debug, PartialEq, Eq, Structural)]
pub struct Clip {
    pub x: i32,
    pub y: i32,
    pub width: u32,
    pub height: u32,
}

/// `(px, py)` lies in the rectangle of `w` by `h` at `(x, y)`.
pub open spec fn in_rect(px: int, py: int, x: int, y: int, w: int, h: int) -> bool {
    x <= px < x + w && y <= py < y + h
}

impl Clip {
    pub open spec fn contains(self, px: int, py: int) -> bool {
        in_rect(px, py, self.x as int, self.y as int, self.width as int, self.height as int)
    }

    /// The rectangle that both cover; of no width or height where they do not
    /// overlap.
    pub fn intersect(&self, other: &Clip) -> (r: Clip)
        ensures
            r.x == if self.x >= other.x {
                self.x
            } else {
                other.x
            },
            r.y == if self.y >= other.y {
                self.y
            } else {
                other.y
            },
            forall|px: int, py: int|
                r.contains(px, py) <==> (#[trigger] self.contains(px, py) && other.contains(px, py)),
            r.width == ({
                let right = if self.x + self.width <= other.x + other.width {
                    self.x + self.width
                } else {
                    other.x + other.width
                };
                if right - r.x > 0 {
                    right - r.x
                } else {
                    0
                }
            }),
            r.height == ({
                let bottom = if self.y + self.height <= other.y + other.height {
                    self.y + self.height
                } else {
                    other.y + other.height
                };
                if bottom - r.y > 0 {
                    bottom - r.y
                } else {
                    0
                }
            }),
    {
        let x: i32 = if self.x >= other.x {
            self.x
        } else {
            other.x
        };
        let y: i32 = if self.y >= other.y {
            self.y
        } else {
            other.y
        };
        let right = least(self.x as i64 + self.width as i64, other.x as i64 + other.width as i64);
        let bottom = least(
            self.y as i64 + self.height as i64,
            other.y as i64 + other.height as i64,
        );
        let width: u32 = if right > x as i64 {
            (right - x as i64) as u32
        } else {
            0
        };
        let height: u32 = if bottom > y as i64 {
            (bottom - y as i64) as u32
        } else {
            0
        };
        Clip { x, y, width, height }
    }
}

fn least(a: i64, b: i64) -> (r: i64)
    ensures
        r == if a <= b {
            a
        } else {
            b
        },
{
    if a <= b {
        a
    } else {
        b
    }
}

fn greatest(a: i64, b: i64) -> (r: i64)
    ensures
        r == if a >= b {
            a
        } else {
            b
        },
{
    if a >= b {
        a
    } else {
        b
    }
}

/// An image. `(0, 0)` is its upper left pixel.
pub trait Image {
    spec fn spec_width(&self) -> int;

    spec fn spec_height(&self) -> int;

    spec fn spec_bytes_per_pixel(&self) -> int;

    /// The place can be read. Every place inside a well-formed image can.
    spec fn readable(&self, x: int, y: int) -> bool;

    /// The color at a place that can be read.
    spec fn pixel(&self, x: int, y: int) -> Color;

    /// Its colors in storage order.
    spec fn stored_colors(&self) -> Seq<Color>;

    /// `bytes` is how the pixels lie in memory.
    spec fn is_raw(&self, bytes: Seq<u8>) -> bool;

    /// There is a pixel for every place, and a coordinate can name it.
    spec fn wf(&self) -> bool;

    proof fn lemma_wf(&self)
        requires
            self.wf(),
        ensures
            0 <= self.spec_width() <= i32::MAX,
            0 <= self.spec_height() <= i32::MAX,
            forall|x: int, y: int|
                0 <= x < self.spec_width() && 0 <= y < self.spec_height()
                    ==> #[trigger] self.readable(x, y),
    ;

    fn width(&self) -> (r: u32)
        ensures
            r == self.spec_width(),
    ;

    fn height(&self) -> (r: u32)
        ensures
            r == self.spec_height(),
    ;

    fn bytes_per_pixel(&self) -> (r: u32)
        ensures
            r == self.spec_bytes_per_pixel(),
    ;

    fn get_pixel(&self, x: i32, y: i32) -> (r: Color)
        requires
            self.readable(x as int, y as int),
        ensures
            r == self.pixel(x as int, y as int),
    ;

    /// Reads as many pixels of a row as `colors` holds.
    fn get_pixels(&self, x: i32, y: i32, colors: &mut [Color])
        requires
            x + old(colors)@.len() <= i32::MAX,
            forall|k: int|
                0 <= k < old(colors)@.len() ==> #[trigger] self.readable(x + k, y as int),
        ensures
            final(colors)@ == Seq::new(
                old(colors)@.len(),
                |k: int| self.pixel(x + k, y as int),
            ),
    {
        let count = colors.len();
        let mut offset: usize = 0;
        while offset < count
            invariant
                offset <= count == colors@.len() == old(colors)@.len(),
                x + count <= i32::MAX,
                forall|k: int| 0 <= k < count ==> #[trigger] self.readable(x + k, y as int),
                forall|k: int| 0 <= k < offset ==> colors@[k] == self.pixel(x + k, y as int),
            decreases count - offset,
        {
            assert(self.readable(x + offset, y as int));
            let color = self.get_pixel((x as i64 + offset as i64) as i32, y);
            colors[offset] = color;
            offset += 1;
        }
    }

    /// The pixels as they lie in memory.
    fn raw(&self) -> (r: Vec<u8>)
        ensures
            self.is_raw(r@),
    ;

    fn colors(&self) -> (r: Vec<Color>)
        ensures
            r@ == self.stored_colors(),
    ;

    /// The colors as words, alpha highest and blue lowest.
    fn argb8888(&self) -> (r: Vec<u32>)
        ensures
            r@ == self.stored_colors().map_values(|color: Color| argb(color)),
    {
        let colors = self.colors();
        let mut words: Vec<u32> = Vec::new();
        let mut index: usize = 0;
        while index < colors.len()
            invariant
                index <= colors@.len(),
                words@ == colors@.take(index as int).map_values(|color: Color| argb(color)),
            decreases colors@.len() - index,
        {
            words.push(pack_argb(colors[index]));
            index += 1;
            assert(words@ =~= colors@.take(index as int).map_values(|color: Color| argb(color)));
        }
        assert(colors@.take(colors@.len() as int) =~= colors@);
        words
    }
}

/// Place `(px, py)` of the colors that stand at `(x, y)` in rows of `width`.
pub open spec fn row_index(px: int, py: int, x: int, y: int, width: int) -> int {
    (py - y) * width + (px - x)
}

/// `(px, py)` is one of `len` colors that stand at `(x, y)` in rows of `width`.
pub open spec fn in_rows(px: int, py: int, x: int, y: int, width: int, len: int) -> bool {
    x <= px < x + width && y <= py && row_index(px, py, x, y, width) < len
}

/// An image that can be written.
pub trait ImageBuffer: Image + Sized {
    /// What is stored for a pixel.
    type Item;

    /// What is stored at a place.
    spec fn item(&self, x: int, y: int) -> Self::Item;

    /// What is stored for a color.
    spec fn item_of(&self, color: Color) -> Self::Item;

    /// The color that is read of what is stored.
    spec fn color_of(&self, item: Self::Item) -> Color;

    /// The colors that can be written.
    spec fn accepts(&self, color: Color) -> bool;

    /// `self` is `before` in all but what is stored at its places.
    spec fn same_format(&self, before: &Self) -> bool;

    proof fn lemma_same_format(&self, before: &Self)
        requires
            self.same_format(before),
        ensures
            before.wf() ==> self.wf(),
            self.spec_width() == before.spec_width(),
            self.spec_height() == before.spec_height(),
            forall|color: Color| self.accepts(color) == #[trigger] before.accepts(color),
            forall|color: Color| self.item_of(color) == #[trigger] before.item_of(color),
            forall|item: Self::Item| self.color_of(item) == #[trigger] before.color_of(item),
    ;

    proof fn lemma_same_format_trans(&self, middle: &Self, before: &Self)
        requires
            self.same_format(middle),
            middle.same_format(before),
        ensures
            self.same_format(before),
    ;

    proof fn lemma_same_format_refl(&self)
        ensures
            self.same_format(self),
    ;

    /// What is read at a place is the color of what is stored there.
    proof fn lemma_items(&self)
        ensures
            forall|x: int, y: int| #[trigger]
                self.pixel(x, y) == self.color_of(self.item(x, y)),
    ;

    /// Writes one pixel; a place outside is ignored.
    fn put_pixel(&mut self, x: i32, y: i32, color: Color)
        requires
            old(self).wf(),
            in_rect(x as int, y as int, 0, 0, old(self).spec_width(), old(self).spec_height())
                ==> old(self).accepts(color),
        ensures
            final(self).same_format(old(self)),
            forall|px: int, py: int|
                in_rect(px, py, 0, 0, old(self).spec_width(), old(self).spec_height())
                    ==> #[trigger] final(self).item(px, py) == if px == x && py == y {
                    old(self).item_of(color)
                } else {
                    old(self).item(px, py)
                },
            forall|px: int, py: int|
                in_rect(px, py, 0, 0, old(self).spec_width(), old(self).spec_height())
                    ==> #[trigger] final(self).pixel(px, py) == if px == x && py == y {
                    old(self).color_of(old(self).item_of(color))
                } else {
                    old(self).pixel(px, py)
                },
    ;

    /// Writes colors in rows of `width`; places outside are ignored.
    fn put_pixels(&mut self, x: i32, y: i32, width: u32, colors: &[Color])
        requires
            old(self).wf(),
            forall|i: int| 0 <= i < colors@.len() ==> old(self).accepts(#[trigger] colors@[i]),
        ensures
            final(self).same_format(old(self)),
            forall|px: int, py: int|
                in_rect(px, py, 0, 0, old(self).spec_width(), old(self).spec_height())
                    ==> #[trigger] final(self).item(px, py) == if in_rows(
                    px,
                    py,
                    x as int,
                    y as int,
                    width as int,
                    colors@.len() as int,
                ) {
                    old(self).item_of(
                        colors@[row_index(px, py, x as int, y as int, width as int)],
                    )
                } else {
                    old(self).item(px, py)
                },
            forall|px: int, py: int|
                in_rect(px, py, 0, 0, old(self).spec_width(), old(self).spec_height())
                    ==> #[trigger] final(self).pixel(px, py) == if in_rows(
                    px,
                    py,
                    x as int,
                    y as int,
                    width as int,
                    colors@.len() as int,
                ) {
                    old(self).color_of(
                        old(self).item_of(
                            colors@[row_index(px, py, x as int, y as int, width as int)],
                        ),
                    )
                } else {
                    old(self).pixel(px, py)
                },
    ;
}

/// An image that owns its pixels, row by row.
pub struct VecImageBuffer<T: PixelType> {
    width: u32,
    height: u32,
    data: Vec<T::DataType>,
}

impl<T: PixelType> VecImageBuffer<T> {
    pub closed spec fn data(&self) -> Seq<T::DataType> {
        self.data@
    }

    /// Where the pixel at `(x, y)` stands in the data.
    pub open spec fn index(&self, x: int, y: int) -> int {
        y * self.spec_width() + x
    }

    /// A blank image.
    pub fn new(width: u32, height: u32) -> (r: Self)
        requires
            width * height <= u32::MAX,
        ensures
            r.spec_width() == width,
            r.spec_height() == height,
            r.data().len() == width * height,
            forall|i: int| 0 <= i < width * height ==> (#[trigger] r.data()[i]).value() == 0,
            width <= i32::MAX && height <= i32::MAX ==> r.wf(),
    {
        let count: u32 = width * height;
        let mut data: Vec<T::DataType> = Vec::new();
        let mut index: u32 = 0;
        while index < count
            invariant
                index <= count,
                data@.len() == index,
                forall|i: int| 0 <= i < index ==> (#[trigger] data@[i]).value() == 0,
            decreases count - index,
        {
            data.push(<T::DataType as PixelData>::zero());
            index += 1;
        }
        VecImageBuffer { width, height, data }
    }

    /// An image of the given pixels. They must be as many as it has places before it
    /// can be drawn on.
    pub fn from_raw(width: u32, height: u32, raw: Vec<T::DataType>) -> (r: Self)
        ensures
            r.spec_width() == width,
            r.spec_height() == height,
            r.data() == raw@,
            r.wf() <==> width <= i32::MAX && height <= i32::MAX && width * height <= raw@.len()
                && width * height <= u32::MAX,
    {
        VecImageBuffer { width, height, data: raw }
    }

    proof fn lemma_index(&self, x: int, y: int)
        requires
            self.wf(),
            0 <= x < self.spec_width(),
            0 <= y < self.spec_height(),
        ensures
            0 <= self.index(x, y) < self.spec_width() * self.spec_height(),
            self.index(x, y) < self.data().len(),
            0 <= y * self.spec_width() <= self.index(x, y),
    {
        let w = self.spec_width();
        let h = self.spec_height();
        assert(0 <= y * w && y * w + x < w * h) by (nonlinear_arith)
            requires
                0 <= x < w,
                0 <= y < h,
        ;
    }

    /// Every item up to the number of places is stored at a place, so what is stored at
    /// the places, and behind them, is all of the data.
    pub proof fn lemma_data(&self, i: int)
        requires
            self.wf(),
            0 <= i < self.spec_width() * self.spec_height(),
        ensures
            in_rect(
                i % self.spec_width(),
                i / self.spec_width(),
                0,
                0,
                self.spec_width(),
                self.spec_height(),
            ),
            self.index(i % self.spec_width(), i / self.spec_width()) == i,
    {
        let w = self.spec_width();
        let h = self.spec_height();
        assert(w > 0) by (nonlinear_arith)
            requires
                0 <= w,
                0 <= i < w * h,
        ;
        vstd::arithmetic::div_mod::lemma_fundamental_div_mod(i, w);
        let q = i / w;
        assert(q * w == w * q) by (nonlinear_arith);
        assert(0 <= q < h) by (nonlinear_arith)
            requires
                0 < w,
                0 <= i < w * h,
                i == w * q + i % w,
                0 <= i % w < w,
        ;
    }

    proof fn lemma_index_distinct(&self, x: int, y: int, x2: int, y2: int)
        requires
            0 <= x < self.spec_width(),
            0 <= x2 < self.spec_width(),
            self.index(x, y) == self.index(x2, y2),
        ensures
            x == x2 && y == y2,
    {
        let w = self.spec_width();
        assert(y == y2) by (nonlinear_arith)
            requires
                0 <= x < w,
                0 <= x2 < w,
                y * w + x == y2 * w + x2,
        ;
    }
}

impl<T: PixelType> Image for VecImageBuffer<T> {
    closed spec fn spec_width(&self) -> int {
        self.width as int
    }

    closed spec fn spec_height(&self) -> int {
        self.height as int
    }

    open spec fn spec_bytes_per_pixel(&self) -> int {
        <T::DataType as PixelData>::size()
    }

    open spec fn readable(&self, x: int, y: int) -> bool {
        0 <= x && 0 <= y && 0 <= y * self.spec_width() && self.index(x, y) < self.data().len()
            && self.index(x, y) <= u32::MAX
    }

    open spec fn pixel(&self, x: int, y: int) -> Color {
        T::decoded(self.data()[self.index(x, y)])
    }

    open spec fn stored_colors(&self) -> Seq<Color> {
        self.data().map_values(|raw: T::DataType| T::decoded(raw))
    }

    open spec fn is_raw(&self, bytes: Seq<u8>) -> bool {
        is_memory_of(
            bytes,
            self.data().map_values(|v: T::DataType| v.value()),
            <T::DataType as PixelData>::size(),
        )
    }

    open spec fn wf(&self) -> bool {
        &&& 0 <= self.spec_width() <= i32::MAX
        &&& 0 <= self.spec_height() <= i32::MAX
        &&& self.spec_width() * self.spec_height() <= self.data().len()
        &&& self.spec_width() * self.spec_height() <= u32::MAX
    }

    proof fn lemma_wf(&self) {
        assert forall|x: int, y: int|
            0 <= x < self.spec_width() && 0 <= y < self.spec_height() implies #[trigger] self.readable(
            x,
            y,
        ) by {
            self.lemma_index(x, y);
        }
    }

    fn width(&self) -> (r: u32) {
        self.width
    }

    fn height(&self) -> (r: u32) {
        self.height
    }

    fn bytes_per_pixel(&self) -> (r: u32) {
        <T::DataType as PixelData>::byte_size()
    }

    fn get_pixel(&self, x: i32, y: i32) -> (r: Color) {
        let raw = self.data[(y as u32 * self.width + x as u32) as usize];
        T::to_color(raw)
    }

    fn raw(&self) -> (r: Vec<u8>) {
        <T::DataType as PixelData>::to_bytes(self.data.as_slice())
    }

    fn colors(&self) -> (r: Vec<Color>) {
        let mut colors: Vec<Color> = Vec::new();
        let mut index: usize = 0;
        while index < self.data.len()
            invariant
                index <= self.data@.len(),
                colors@ == self.data@.take(index as int).map_values(
                    |raw: T::DataType| T::decoded(raw),
                ),
            decreases self.data@.len() - index,
        {
            colors.push(T::to_color(self.data[index]));
            index += 1;
            assert(colors@ =~= self.data@.take(index as int).map_values(
                |raw: T::DataType| T::decoded(raw),
            ));
        }
        assert(self.data@.take(self.data@.len() as int) =~= self.data@);
        colors
    }
}

impl<T: PixelType> ImageBuffer for VecImageBuffer<T> {
    type Item = T::DataType;

    open spec fn item(&self, x: int, y: int) -> T::DataType {
        self.data()[self.index(x, y)]
    }

    open spec fn item_of(&self, color: Color) -> T::DataType {
        T::encoded(color)
    }

    open spec fn color_of(&self, item: T::DataType) -> Color {
        T::decoded(item)
    }

    open spec fn accepts(&self, color: Color) -> bool {
        T::accepts(color)
    }

    open spec fn same_format(&self, before: &Self) -> bool {
        &&& self.spec_width() == before.spec_width()
        &&& self.spec_height() == before.spec_height()
        &&& self.data().len() == before.data().len()
        &&& forall|i: int|
            self.spec_width() * self.spec_height() <= i < self.data().len()
                ==> #[trigger] self.data()[i] == before.data()[i]
    }

    proof fn lemma_same_format(&self, before: &Self) {
    }

    proof fn lemma_same_format_trans(&self, middle: &Self, before: &Self) {
        assert forall|i: int|
            self.spec_width() * self.spec_height() <= i < self.data().len() implies
            #[trigger] self.data()[i] == before.data()[i] by {
            assert(self.data()[i] == middle.data()[i]);
        }
    }

    proof fn lemma_same_format_refl(&self) {
    }

    proof fn lemma_items(&self) {
    }

    fn put_pixel(&mut self, x: i32, y: i32, color: Color)
        ensures
            final(self).data() == if in_rect(
                x as int,
                y as int,
                0,
                0,
                old(self).spec_width(),
                old(self).spec_height(),
            ) {
                old(self).data().update(old(self).index(x as int, y as int), T::encoded(color))
            } else {
                old(self).data()
            },
    {
        if x < 0 || y < 0 || x as u32 >= self.width || y as u32 >= self.height {
            return;
        }
        let raw = T::from_color(color);
        proof {
            self.lemma_index(x as int, y as int);
            assert forall|px: int, py: int|
                in_rect(px, py, 0, 0, self.spec_width(), self.spec_height()) && self.index(px, py)
                    == self.index(x as int, y as int) implies px == x && py == y by {
                self.lemma_index_distinct(px, py, x as int, y as int);
            }
        }
        let ghost before = *self;
        self.data[(y as u32 * self.width + x as u32) as usize] = raw;
        proof {
            assert forall|px: int, py: int|
                in_rect(px, py, 0, 0, before.spec_width(), before.spec_height()) implies
                #[trigger] self.item(px, py) == if px == x && py == y {
                before.item_of(color)
            } else {
                before.item(px, py)
            } by {
                before.lemma_index(px, py);
                assert(self.index(px, py) == before.index(px, py));
            }
            self.lemma_items();
            before.lemma_items();
        }
    }

    fn put_pixels(&mut self, x: i32, y: i32, width: u32, colors: &[Color])
        ensures
            forall|i: int|
                0 <= i < old(self).data().len() ==> #[trigger] final(self).data()[i] == {
                    let (px, py) = (i % old(self).spec_width(), i / old(self).spec_width());
                    if i < old(self).spec_width() * old(self).spec_height() && in_rows(
                        px,
                        py,
                        x as int,
                        y as int,
                        width as int,
                        colors@.len() as int,
                    ) {
                        T::encoded(colors@[row_index(px, py, x as int, y as int, width as int)])
                    } else {
                        old(self).data()[i]
                    }
                },
    {
        if width == 0 {
            return;
        }
        let count = colors.len();
        let ghost first = *self;
        let ghost w = width as int;
        let mut index: usize = 0;
        let mut column: u32 = 0;
        let mut py: i64 = y as i64;
        while index < count && py < self.height as i64
            invariant
                0 < w == width,
                count == colors@.len(),
                index <= count,
                column < width,
                y <= py,
                y == py || py <= self.height,
                index == (py - y) * w + column,
                self.same_format(&first),
                first.wf(),
                forall|i: int| 0 <= i < count ==> T::accepts(#[trigger] colors@[i]),
                forall|qx: int, qy: int|
                    in_rect(qx, qy, 0, 0, first.spec_width(), first.spec_height())
                        ==> #[trigger] self.item(qx, qy) == if in_rows(
                        qx,
                        qy,
                        x as int,
                        y as int,
                        w,
                        index as int,
                    ) {
                        first.item_of(colors@[row_index(qx, qy, x as int, y as int, w)])
                    } else {
                        first.item(qx, qy)
                    },
            decreases count - index,
        {
            let px: i64 = x as i64 + column as i64;
            let ghost before = *self;
            if 0 <= px && px < self.width as i64 && 0 <= py {
                self.put_pixel(px as i32, py as i32, colors[index]);
            }
            proof {
                self.lemma_same_format_trans(&before, &first);
                assert forall|qx: int, qy: int|
                    in_rect(qx, qy, 0, 0, first.spec_width(), first.spec_height()) implies
                    #[trigger] self.item(qx, qy) == if in_rows(
                    qx,
                    qy,
                    x as int,
                    y as int,
                    w,
                    index + 1,
                ) {
                    first.item_of(colors@[row_index(qx, qy, x as int, y as int, w)])
                } else {
                    first.item(qx, qy)
                } by {
                    if x <= qx < x + w && y <= qy && row_index(qx, qy, x as int, y as int, w)
                        == index {
                        lemma_same_row(qy - y, qx - x, py - y, column as int, w);
                    }
                    assert(before.item(qx, qy) == if in_rows(
                        qx,
                        qy,
                        x as int,
                        y as int,
                        w,
                        index as int,
                    ) {
                        first.item_of(colors@[row_index(qx, qy, x as int, y as int, w)])
                    } else {
                        first.item(qx, qy)
                    });
                }
                assert((py + 1 - y) * w == (py - y) * w + w) by (nonlinear_arith);
            }
            index += 1;
            column += 1;
            if column == width {
                column = 0;
                py += 1;
            }
        }
        proof {
            if index < count {
                assert forall|qx: int, qy: int|
                    in_rect(qx, qy, 0, 0, first.spec_width(), first.spec_height()) && x <= qx < x
                        + w && y <= qy implies #[trigger] row_index(qx, qy, x as int, y as int, w)
                    < index by {
                    lemma_earlier_row(qy - y, qx - x, py - y, column as int, w);
                }
            }
            self.lemma_items();
            first.lemma_items();
            assert forall|i: int|
                0 <= i < first.spec_width() * first.spec_height() implies #[trigger] self.data()[i]
                == self.item(i % first.spec_width(), i / first.spec_width()) && first.data()[i]
                == first.item(i % first.spec_width(), i / first.spec_width()) && in_rect(
                i % first.spec_width(),
                i / first.spec_width(),
                0,
                0,
                first.spec_width(),
                first.spec_height(),
            ) by {
                first.lemma_data(i);
                self.lemma_data(i);
            }
        }
    }
}

/// What is read of two images of one format is the colors of what they store.
proof fn lemma_colors<B: ImageBuffer>(after: B, before: B)
    requires
        after.same_format(&before),
    ensures
        forall|x: int, y: int| #[trigger]
            after.pixel(x, y) == before.color_of(after.item(x, y)),
        forall|x: int, y: int| #[trigger]
            before.pixel(x, y) == before.color_of(before.item(x, y)),
{
    after.lemma_same_format(&before);
    after.lemma_items();
    before.lemma_items();
    assert forall|x: int, y: int| #[trigger] after.pixel(x, y) == before.color_of(
        after.item(x, y),
    ) by {
        assert(before.color_of(after.item(x, y)) == after.color_of(after.item(x, y)));
    }
}

/// Two places of a row layout are one where their indices are.
proof fn lemma_same_row(r1: int, c1: int, r2: int, c2: int, w: int)
    requires
        0 <= c1 < w,
        0 <= c2 < w,
        r1 * w + c1 == r2 * w + c2,
    ensures
        r1 == r2,
        c1 == c2,
{
    assert(r1 == r2) by (nonlinear_arith)
        requires
            0 <= c1 < w,
            0 <= c2 < w,
            r1 * w + c1 == r2 * w + c2,
    ;
}

/// A place in an earlier row has a smaller index.
proof fn lemma_earlier_row(r1: int, c1: int, r2: int, c2: int, w: int)
    requires
        0 <= c1 < w,
        0 <= c2,
        r1 < r2,
    ensures
        r1 * w + c1 < r2 * w + c2,
{
    assert(r1 * w + c1 < r2 * w + c2) by (nonlinear_arith)
        requires
            0 <= c1 < w,
            0 <= c2,
            r1 < r2,
    ;
}

// ---------------------------------------------------------------------------
// Drawing

/// `color` over `background`, by its alpha.
pub open spec fn blended(background: Color, color: Color) -> Color {
    if color.a == 0xff {
        color
    } else {
        Color {
            a: 0xff,
            r: ((color.r * color.a + background.r * (255 - color.a)) / 255) as u8,
            g: ((color.g * color.a + background.g * (255 - color.a)) / 255) as u8,
            b: ((color.b * color.a + background.b * (255 - color.a)) / 255) as u8,
        }
    }
}

/// What is stored at a place over which `color` was painted.
pub open spec fn painted<B: ImageBuffer>(buffer: B, background: B::Item, color: Color) -> B::Item {
    if color.a == 0 {
        background
    } else {
        buffer.item_of(blended(buffer.color_of(background), color))
    }
}

/// `color` can be painted over any background.
pub open spec fn paintable<B: ImageBuffer>(buffer: B, color: Color) -> bool {
    color.a != 0 ==> forall|background: Color|
        buffer.accepts(#[trigger] blended(background, color))
}

/// `after` is `before` with the places for which `area` holds set to what
/// `content` gives for them: what is stored at them, and so what is read. Nothing
/// else changes.
pub open spec fn repainted<B: ImageBuffer>(
    after: B,
    before: B,
    area: spec_fn(int, int) -> bool,
    content: spec_fn(int, int) -> B::Item,
) -> bool {
    &&& after.same_format(&before)
    &&& forall|px: int, py: int|
        in_rect(px, py, 0, 0, before.spec_width(), before.spec_height()) ==> (
        #[trigger] after.item(px, py)) == if area(px, py) {
            content(px, py)
        } else {
            before.item(px, py)
        }
    &&& forall|px: int, py: int|
        in_rect(px, py, 0, 0, before.spec_width(), before.spec_height()) ==> (
        #[trigger] after.pixel(px, py)) == if area(px, py) {
            before.color_of(content(px, py))
        } else {
            before.pixel(px, py)
        }
}

/// The source place whose pixel `draw` paints over `(px, py)` lies in the copied
/// part, in the source, and `(px, py)` in the clip.
pub open spec fn drawn(
    px: int,
    py: int,
    dx: int,
    dy: int,
    w: int,
    h: int,
    sx: int,
    sy: int,
    source_width: int,
    source_height: int,
    clip: Clip,
) -> bool {
    &&& in_rect(px, py, dx, dy, w, h)
    &&& in_rect(px - dx + sx, py - dy + sy, 0, 0, source_width, source_height)
    &&& clip.contains(px, py)
}

/// How far a line has come across after `k` steps along: `k * minor / major`,
/// rounded to the nearest, and down from the middle.
pub open spec fn line_minor(k: int, major: int, minor: int) -> int {
    (2 * k * minor + major - 1) / (2 * major)
}

pub open spec fn distance(a: int, b: int) -> int {
    if a <= b {
        b - a
    } else {
        a - b
    }
}

/// `count` steps from `start` towards `end`.
pub open spec fn stepped(start: int, end: int, count: int) -> int {
    if start < end {
        start + count
    } else {
        start - count
    }
}

/// Point `k` of the line from `(x1, y1)` to `(x2, y2)`.
pub open spec fn line_point(x1: int, y1: int, x2: int, y2: int, k: int) -> (int, int) {
    let dx = distance(x1, x2);
    let dy = distance(y1, y2);
    if dx == 0 && dy == 0 {
        (x1, y1)
    } else if dx >= dy {
        (stepped(x1, x2, k), stepped(y1, y2, line_minor(k, dx, dy)))
    } else {
        (stepped(x1, x2, line_minor(k, dy, dx)), stepped(y1, y2, k))
    }
}

/// How many points the line has after its first one.
pub open spec fn line_length(x1: int, y1: int, x2: int, y2: int) -> int {
    let dx = distance(x1, x2);
    let dy = distance(y1, y2);
    if dx >= dy {
        dx
    } else {
        dy
    }
}

/// `(px, py)` is one of the first `n` points of the line.
pub open spec fn on_line(
    px: int,
    py: int,
    x1: int,
    y1: int,
    x2: int,
    y2: int,
    n: int,
) -> bool {
    exists|k: int| 0 <= k < n && #[trigger] line_point(x1, y1, x2, y2, k) == (px, py)
}

/// `(px, py)` lies on the outline of the rectangle. An edge that would lie behind
/// the last coordinate is drawn at it.
pub open spec fn on_outline(px: int, py: int, x: int, y: int, w: int, h: int) -> bool {
    &&& w > 0
    &&& h > 0
    &&& {
        ||| in_rect(px, py, x, y, w, 1)
        ||| h > 1 && in_rect(px, py, x, capped(y + h - 1), w, 1)
        ||| h > 2 && in_rect(px, py, x, capped(y + 1), 1, h - 2)
        ||| h > 2 && w > 1 && in_rect(px, py, capped(x + w - 1), capped(y + 1), 1, h - 2)
    }
}

/// The coordinate, at most the last one.
pub open spec fn capped(v: int) -> int {
    if v > i32::MAX {
        i32::MAX as int
    } else {
        v
    }
}

/// Adds to a coordinate, up to the last one.
fn add_capped(v: i32, n: u32) -> (r: i32)
    ensures
        r == capped(v + n),
{
    let sum: i64 = v as i64 + n as i64;
    if sum > i32::MAX as i64 {
        i32::MAX
    } else {
        sum as i32
    }
}

/// `after` is `before` with `w` by `h` pixels of `src` from place `from` on painted over
/// place `to`, as far as both images and the clip reach.
pub open spec fn is_drawn<B: ImageBuffer, S: Image>(
    after: B,
    before: B,
    to: (int, int),
    w: int,
    h: int,
    src: &S,
    from: (int, int),
    clip: Clip,
) -> bool {
    repainted(
        after,
        before,
        |px: int, py: int|
            drawn(
                px,
                py,
                to.0,
                to.1,
                w,
                h,
                from.0,
                from.1,
                src.spec_width(),
                src.spec_height(),
                clip,
            ),
        |px: int, py: int|
            painted(
                before,
                before.item(px, py),
                src.pixel(px - to.0 + from.0, py - to.1 + from.1),
            ),
    )
}

/// `after` is `before` with a line painted on it.
pub open spec fn is_line_drawn<B: ImageBuffer>(
    after: B,
    before: B,
    p1: (int, int),
    p2: (int, int),
    color: Color,
) -> bool {
    repainted(
        after,
        before,
        |px: int, py: int|
            on_line(px, py, p1.0, p1.1, p2.0, p2.1, line_length(p1.0, p1.1, p2.0, p2.1) + 1),
        |px: int, py: int| painted(before, before.item(px, py), color),
    )
}

/// `after` is `before` with the outline of a rectangle set.
pub open spec fn is_outlined<B: ImageBuffer>(
    after: B,
    before: B,
    at: (int, int),
    w: int,
    h: int,
    color: Color,
    clip: Clip,
) -> bool {
    repainted(
        after,
        before,
        |px: int, py: int| on_outline(px, py, at.0, at.1, w, h) && clip.contains(px, py),
        |px: int, py: int| before.item_of(color),
    )
}

/// `after` is `before` with all of a rectangle set.
pub open spec fn is_filled<B: ImageBuffer>(
    after: B,
    before: B,
    at: (int, int),
    w: int,
    h: int,
    color: Color,
    clip: Clip,
) -> bool {
    repainted(
        after,
        before,
        |px: int, py: int| in_rect(px, py, at.0, at.1, w, h) && clip.contains(px, py),
        |px: int, py: int| before.item_of(color),
    )
}

/// `after` is `before` with one pixel painted by its alpha.
pub open spec fn pixel_blended<B: ImageBuffer>(
    after: B,
    before: B,
    x: int,
    y: int,
    color: Color,
) -> bool {
    repainted(
        after,
        before,
        |px: int, py: int| px == x && py == y,
        |px: int, py: int| painted(before, before.item(px, py), color),
    )
}

/// A surface to draw on.
pub trait Canvas: Sized {
    type Buffer: ImageBuffer;

    /// What has been drawn so far.
    spec fn buffer(&self) -> Self::Buffer;

    fn image(&self) -> (r: &Self::Buffer)
        ensures
            *r == self.buffer(),
    ;

    /// Paints `w` by `h` pixels of `src` from `(sx, sy)` over `(dx, dy)`.
    fn draw<S: Image>(
        &mut self,
        dx: i32,
        dy: i32,
        w: u32,
        h: u32,
        src: &S,
        sx: i32,
        sy: i32,
        clip: Clip,
    )
        requires
            old(self).buffer().wf(),
            src.wf(),
            forall|x: int, y: int|
                in_rect(x, y, 0, 0, src.spec_width(), src.spec_height()) ==> paintable(
                    old(self).buffer(),
                    #[trigger] src.pixel(x, y),
                ),
        ensures
            is_drawn(
                final(self).buffer(),
                old(self).buffer(),
                (dx as int, dy as int),
                w as int,
                h as int,
                src,
                (sx as int, sy as int),
                clip,
            ),
    ;

    /// Paints a line, both end points included.
    fn draw_line(&mut self, x1: i32, y1: i32, x2: i32, y2: i32, color: Color)
        requires
            old(self).buffer().wf(),
            paintable(old(self).buffer(), color),
        ensures
            is_line_drawn(
                final(self).buffer(),
                old(self).buffer(),
                (x1 as int, y1 as int),
                (x2 as int, y2 as int),
                color,
            ),
    ;

    /// Sets the outline of a rectangle.
    fn draw_rect(&mut self, x: i32, y: i32, w: u32, h: u32, color: Color, clip: Clip)
        requires
            old(self).buffer().wf(),
            old(self).buffer().accepts(color),
        ensures
            is_outlined(
                final(self).buffer(),
                old(self).buffer(),
                (x as int, y as int),
                w as int,
                h as int,
                color,
                clip,
            ),
    ;

    /// Sets the outline of the arc's rectangle.
    fn draw_arc(
        &mut self,
        x: i32,
        y: i32,
        w: u32,
        h: u32,
        start_angle: u32,
        arc_angle: u32,
        color: Color,
        clip: Clip,
    )
        requires
            old(self).buffer().wf(),
            old(self).buffer().accepts(color),
        ensures
            is_outlined(
                final(self).buffer(),
                old(self).buffer(),
                (x as int, y as int),
                w as int,
                h as int,
                color,
                clip,
            ),
    ;

    /// Sets the outline of the rectangle, its corners not rounded.
    fn draw_round_rect(
        &mut self,
        x: i32,
        y: i32,
        w: u32,
        h: u32,
        arc_width: u32,
        arc_height: u32,
        color: Color,
        clip: Clip,
    )
        requires
            old(self).buffer().wf(),
            old(self).buffer().accepts(color),
        ensures
            is_outlined(
                final(self).buffer(),
                old(self).buffer(),
                (x as int, y as int),
                w as int,
                h as int,
                color,
                clip,
            ),
    ;

    /// Sets all of a rectangle.
    fn fill_rect(&mut self, x: i32, y: i32, w: u32, h: u32, color: Color, clip: Clip)
        requires
            old(self).buffer().wf(),
            old(self).buffer().accepts(color),
        ensures
            is_filled(
                final(self).buffer(),
                old(self).buffer(),
                (x as int, y as int),
                w as int,
                h as int,
                color,
                clip,
            ),
    ;

    /// Sets all of the arc's rectangle.
    fn fill_arc(
        &mut self,
        x: i32,
        y: i32,
        w: u32,
        h: u32,
        start_angle: u32,
        arc_angle: u32,
        color: Color,
        clip: Clip,
    )
        requires
            old(self).buffer().wf(),
            old(self).buffer().accepts(color),
        ensures
            is_filled(
                final(self).buffer(),
                old(self).buffer(),
                (x as int, y as int),
                w as int,
                h as int,
                color,
                clip,
            ),
    ;

    /// Sets all of the rectangle, its corners not rounded.
    fn fill_round_rect(
        &mut self,
        x: i32,
        y: i32,
        w: u32,
        h: u32,
        arc_width: u32,
        arc_height: u32,
        color: Color,
        clip: Clip,
    )
        requires
            old(self).buffer().wf(),
            old(self).buffer().accepts(color),
        ensures
            is_filled(
                final(self).buffer(),
                old(self).buffer(),
                (x as int, y as int),
                w as int,
                h as int,
                color,
                clip,
            ),
    ;

    /// Sets one pixel; a place outside is ignored.
    fn put_pixel(&mut self, x: i32, y: i32, color: Color)
        requires
            old(self).buffer().wf(),
            in_rect(
                x as int,
                y as int,
                0,
                0,
                old(self).buffer().spec_width(),
                old(self).buffer().spec_height(),
            ) ==> old(self).buffer().accepts(color),
        ensures
            pixel_written(final(self).buffer(), old(self).buffer(), x as int, y as int, color),
    ;
}

/// A canvas on an image buffer.
pub struct ImageBufferCanvas<T: ImageBuffer> {
    image_buffer: T,
}

impl<T: ImageBuffer> ImageBufferCanvas<T> {
    pub fn new(image_buffer: T) -> (r: Self)
        ensures
            r.buffer() == image_buffer,
    {
        ImageBufferCanvas { image_buffer }
    }

    pub fn into_inner(self) -> (r: T)
        ensures
            r == self.buffer(),
    {
        self.image_buffer
    }

    /// Paints one pixel by its alpha; a place outside is ignored.
    pub fn blend_pixel(&mut self, x: i32, y: i32, color: Color)
        requires
            old(self).buffer().wf(),
            paintable(old(self).buffer(), color),
        ensures
            pixel_blended(final(self).buffer(), old(self).buffer(), x as int, y as int, color),
    {
        proof {
            self.image_buffer.lemma_wf();
            self.image_buffer.lemma_same_format_refl();
            self.image_buffer.lemma_items();
        }
        if x < 0 || y < 0 || x as u32 >= self.image_buffer.width() || y as u32
            >= self.image_buffer.height() {
            return;
        }
        if color.a == 0 {
            return;
        }
        if color.a == 0xff {
            assert(self.image_buffer.accepts(blended(color, color)));
            self.image_buffer.put_pixel(x, y, color);
            return;
        }
        assert(self.image_buffer.readable(x as int, y as int));
        let bg = self.image_buffer.get_pixel(x, y);
        let alpha: u32 = color.a as u32;
        let inverse_alpha: u32 = 255 - alpha;
        let r = mix(color.r, bg.r, alpha, inverse_alpha);
        let g = mix(color.g, bg.g, alpha, inverse_alpha);
        let b = mix(color.b, bg.b, alpha, inverse_alpha);
        let computed_color = Color { a: 0xff, r, g, b };
        assert(computed_color == blended(bg, color));
        self.image_buffer.put_pixel(x, y, computed_color);
    }
}

fn mix(over: u8, under: u8, alpha: u32, inverse_alpha: u32) -> (r: u8)
    requires
        alpha <= 255,
        inverse_alpha == 255 - alpha,
    ensures
        r == (over * alpha + under * (255 - alpha)) / 255,
{
    assert(0 <= over * alpha + under * inverse_alpha <= 255 * 255) by (nonlinear_arith)
        requires
            0 <= over <= 255,
            0 <= under <= 255,
            0 <= alpha <= 255,
            inverse_alpha == 255 - alpha,
    ;
    assert(0 <= over * alpha && 0 <= under * inverse_alpha) by (nonlinear_arith)
        requires
            0 <= over,
            0 <= under,
            0 <= alpha,
            0 <= inverse_alpha,
    ;
    ((over as u32 * alpha + under as u32 * inverse_alpha) / 255) as u8
}

/// Where a line stands after `k` steps along and `m` across, as long as its error
/// is less than half a step.
proof fn lemma_line_minor(k: int, m: int, major: int, minor: int, error: int)
    requires
        0 < major,
        0 <= minor <= major,
        0 <= k <= major,
        error == m * major - k * minor,
        -major <= 2 * error < major,
    ensures
        m == line_minor(k, major, minor),
        0 <= m <= minor,
        k == major ==> m == minor,
{
    assert(2 * k * minor == 2 * (k * minor)) by (nonlinear_arith);
    assert((2 * major) * m == 2 * (m * major)) by (nonlinear_arith);
    let a = 2 * k * minor + major - 1;
    let d = 2 * major;
    assert(d * m <= a < d * m + d);
    vstd::arithmetic::div_mod::lemma_fundamental_div_mod_converse(a, d, m, a - d * m);
    assert(0 <= k * minor <= major * minor) by (nonlinear_arith)
        requires
            0 <= k <= major,
            0 <= minor,
    ;
    assert(m <= minor) by (nonlinear_arith)
        requires
            2 * (m * major) < 2 * (k * minor) + major,
            k * minor <= major * minor,
            0 < major,
    ;
    assert(0 <= m) by (nonlinear_arith)
        requires
            2 * (m * major) >= 2 * (k * minor) - major,
            0 <= k * minor,
            0 < major,
    ;
    if k == major {
        assert(m >= minor) by (nonlinear_arith)
            requires
                2 * (m * major) >= 2 * (k * minor) - major,
                k == major,
                0 < major,
        ;
    }
}

/// A line starts and ends at its end points.
pub proof fn lemma_line_ends(x1: int, y1: int, x2: int, y2: int)
    ensures
        line_point(x1, y1, x2, y2, 0) == (x1, y1),
        line_point(x1, y1, x2, y2, line_length(x1, y1, x2, y2)) == (x2, y2),
{
    let dx = distance(x1, x2);
    let dy = distance(y1, y2);
    if dx == 0 && dy == 0 {
    } else if dx >= dy {
        lemma_line_minor(0, 0, dx, dy, 0);
        assert(dy * dx - dx * dy == 0) by (nonlinear_arith);
        lemma_line_minor(dx, dy, dx, dy, 0);
    } else {
        lemma_line_minor(0, 0, dy, dx, 0);
        assert(dx * dy - dy * dx == 0) by (nonlinear_arith);
        lemma_line_minor(dy, dx, dy, dx, 0);
    }
}

impl<T: ImageBuffer> Canvas for ImageBufferCanvas<T> {
    type Buffer = T;

    closed spec fn buffer(&self) -> T {
        self.image_buffer
    }

    fn image(&self) -> (r: &T) {
        &self.image_buffer
    }

    fn draw<S: Image>(
        &mut self,
        dx: i32,
        dy: i32,
        w: u32,
        h: u32,
        src: &S,
        sx: i32,
        sy: i32,
        clip: Clip,
    ) {
        let ghost first = self.image_buffer;
        let ghost area = |px: int, py: int|
            drawn(
                px,
                py,
                dx as int,
                dy as int,
                w as int,
                h as int,
                sx as int,
                sy as int,
                src.spec_width(),
                src.spec_height(),
                clip,
            );
        proof {
            src.lemma_wf();
            self.image_buffer.lemma_wf();
            self.image_buffer.lemma_same_format_refl();
            self.image_buffer.lemma_items();
        }
        let clip_right: i64 = clip.x as i64 + clip.width as i64;
        let clip_bottom: i64 = clip.y as i64 + clip.height as i64;
        let x_start = greatest(
            greatest(greatest(0, -(sx as i64)), -(dx as i64)),
            clip.x as i64 - dx as i64,
        );
        let y_start = greatest(
            greatest(greatest(0, -(sy as i64)), -(dy as i64)),
            clip.y as i64 - dy as i64,
        );
        let x_end = least(
            least(
                least(w as i64, src.width() as i64 - sx as i64),
                self.image_buffer.width() as i64 - dx as i64,
            ),
            clip_right - dx as i64,
        );
        let y_end = least(
            least(
                least(h as i64, src.height() as i64 - sy as i64),
                self.image_buffer.height() as i64 - dy as i64,
            ),
            clip_bottom - dy as i64,
        );
        proof {
            assert forall|px: int, py: int|
                in_rect(px, py, 0, 0, first.spec_width(), first.spec_height()) implies (
            #[trigger] area(px, py) <==> x_start <= px - dx < x_end && y_start <= py - dy
                < y_end) by {}
        }
        if x_start >= x_end || y_start >= y_end {
            return;
        }
        let row_width: usize = (x_end - x_start) as usize;
        let mut row: i64 = y_start;
        while row < y_end
            invariant
                y_start <= row <= y_end,
                0 <= x_start < x_end,
                0 <= y_start,
                row_width == x_end - x_start,
                0 <= sx + x_start,
                0 <= dx + x_start,
                sx + x_end <= src.spec_width() <= i32::MAX,
                dx + x_end <= first.spec_width() <= i32::MAX,
                0 <= sy + y_start,
                0 <= dy + y_start,
                sy + y_end <= src.spec_height() <= i32::MAX,
                dy + y_end <= first.spec_height() <= i32::MAX,
                src.wf(),
                first.wf(),
                forall|x: int, y: int|
                    in_rect(x, y, 0, 0, src.spec_width(), src.spec_height()) ==> paintable(
                        first,
                        #[trigger] src.pixel(x, y),
                    ),
                self.image_buffer.same_format(&first),
                forall|px: int, py: int|
                    in_rect(px, py, 0, 0, first.spec_width(), first.spec_height()) ==> (
                    #[trigger] self.image_buffer.item(px, py)) == if x_start <= px - dx < x_end
                        && y_start <= py - dy < row {
                        painted(
                            first,
                            first.item(px, py),
                            src.pixel(px - dx + sx, py - dy + sy),
                        )
                    } else {
                        first.item(px, py)
                    },
            decreases y_end - row,
        {
            let source_x: i32 = (sx as i64 + x_start) as i32;
            let source_y: i32 = (sy as i64 + row) as i32;
            let destination_x: i32 = (dx as i64 + x_start) as i32;
            let destination_y: i32 = (dy as i64 + row) as i32;
            proof {
                src.lemma_wf();
                self.image_buffer.lemma_same_format(&first);
            }
            let mut source_row = uniform_row(Color { a: 0, r: 0, g: 0, b: 0 }, row_width);
            src.get_pixels(source_x, source_y, source_row.as_mut_slice());
            let ghost before = self.image_buffer;
            proof {
                assert forall|k: int| 0 <= k < source_row@.len() implies paintable(
                    before,
                    #[trigger] source_row@[k],
                ) by {
                    assert(source_row@[k] == src.pixel(source_x + k, source_y as int));
                    assert(paintable(first, src.pixel(source_x + k, source_y as int)));
                    assert forall|background: Color|
                        source_row@[k].a != 0 implies before.accepts(
                        #[trigger] blended(background, source_row@[k]),
                    ) by {
                        assert(first.accepts(blended(background, source_row@[k])));
                    }
                }
            }
            self.paint_row(destination_x, destination_y, &source_row);
            proof {
                self.image_buffer.lemma_same_format_trans(&before, &first);
                assert forall|px: int, py: int|
                    in_rect(px, py, 0, 0, first.spec_width(), first.spec_height()) implies (
                #[trigger] self.image_buffer.item(px, py)) == if x_start <= px - dx < x_end
                    && y_start <= py - dy < row + 1 {
                    painted(first, first.item(px, py), src.pixel(px - dx + sx, py - dy + sy))
                } else {
                    first.item(px, py)
                } by {
                    assert(before.item(px, py) == if x_start <= px - dx < x_end && y_start <= py
                        - dy < row {
                        painted(first, first.item(px, py), src.pixel(px - dx + sx, py - dy + sy))
                    } else {
                        first.item(px, py)
                    });
                    if py == destination_y && destination_x <= px < destination_x + row_width {
                        let c = source_row@[px - destination_x];
                        assert(c == src.pixel(px - dx + sx, py - dy + sy));
                        assert(before.item_of(blended(first.color_of(first.item(px, py)), c)) == first.item_of(
                            blended(first.color_of(first.item(px, py)), c),
                        ));
                    }
                }
            }
            row += 1;
        }
        proof {
            lemma_colors(self.image_buffer, first);
        }
    }

    fn draw_line(&mut self, x1: i32, y1: i32, x2: i32, y2: i32, color: Color) {
        let ghost first = self.image_buffer;
        proof {
            self.image_buffer.lemma_same_format_refl();
            self.image_buffer.lemma_items();
            lemma_line_ends(x1 as int, y1 as int, x2 as int, y2 as int);
        }
        if x1 == x2 && y1 == y2 {
            self.blend_pixel(x1, y1, color);
            proof {
                assert forall|px: int, py: int|
                    on_line(px, py, x1 as int, y1 as int, x2 as int, y2 as int, 1) <==> (px == x1
                        && py == y1) by {
                    if px == x1 && py == y1 {
                        assert(line_point(x1 as int, y1 as int, x2 as int, y2 as int, 0) == (
                            px,
                            py,
                        ));
                    }
                }
            }
            return;
        }
        let dx: i64 = span(x1, x2);
        let dy: i64 = span(y1, y2);
        let sx: i64 = if x1 < x2 {
            1
        } else {
            -1
        };
        let sy: i64 = if y1 < y2 {
            1
        } else {
            -1
        };
        let mut err: i64 = dx - dy;
        let mut x: i64 = x1 as i64;
        let mut y: i64 = y1 as i64;
        let ghost flat = dx >= dy;
        let ghost major: int = if flat {
            dx as int
        } else {
            dy as int
        };
        let ghost minor: int = if flat {
            dy as int
        } else {
            dx as int
        };
        let ghost mut k: int = 0;
        let ghost mut m: int = 0;
        let ghost mut error: int = 0;
        loop
            invariant_except_break
                0 <= k <= major,
                -major <= 2 * error < major,
                error == m * major - k * minor,
                major == minor ==> error == 0,
                err == dx - dy + if flat {
                    error
                } else {
                    -error
                },
                x == stepped(
                    x1 as int,
                    x2 as int,
                    if flat {
                        k
                    } else {
                        m
                    },
                ),
                y == stepped(
                    y1 as int,
                    y2 as int,
                    if flat {
                        m
                    } else {
                        k
                    },
                ),
                self.image_buffer.same_format(&first),
                forall|px: int, py: int|
                    in_rect(px, py, 0, 0, first.spec_width(), first.spec_height()) ==> (
                    #[trigger] self.image_buffer.item(px, py)) == if on_line(
                        px,
                        py,
                        x1 as int,
                        y1 as int,
                        x2 as int,
                        y2 as int,
                        k,
                    ) {
                        painted(first, first.item(px, py), color)
                    } else {
                        first.item(px, py)
                    },
            invariant
                first.wf(),
                paintable(first, color),
                flat == (dx >= dy),
                major == if flat {
                    dx as int
                } else {
                    dy as int
                },
                minor == if flat {
                    dy as int
                } else {
                    dx as int
                },
                0 < major,
                0 <= minor <= major,
                dx == distance(x1 as int, x2 as int),
                dy == distance(y1 as int, y2 as int),
                sx == if x1 < x2 {
                    1int
                } else {
                    -1int
                },
                sy == if y1 < y2 {
                    1int
                } else {
                    -1int
                },
            ensures
                repainted(
                    self.image_buffer,
                    first,
                    |px: int, py: int|
                        on_line(
                            px,
                            py,
                            x1 as int,
                            y1 as int,
                            x2 as int,
                            y2 as int,
                            major + 1,
                        ),
                    |px: int, py: int| painted(first, first.item(px, py), color),
                ),
            decreases major - k,
        {
            proof {
                lemma_line_minor(k, m, major, minor, error);
                assert(line_point(x1 as int, y1 as int, x2 as int, y2 as int, k) == (
                    x as int,
                    y as int,
                ));
                self.image_buffer.lemma_same_format(&first);
                assert forall|background: Color|
                    color.a != 0 implies self.image_buffer.accepts(
                    #[trigger] blended(background, color),
                ) by {
                    assert(first.accepts(blended(background, color)));
                }
            }
            let ghost before = self.image_buffer;
            self.blend_pixel(x as i32, y as i32, color);
            proof {
                self.image_buffer.lemma_same_format_trans(&before, &first);
                lemma_line_step(
                    self.image_buffer,
                    before,
                    first,
                    (x1 as int, y1 as int),
                    (x2 as int, y2 as int),
                    k,
                    color,
                );
            }
            if x == x2 as i64 && y == y2 as i64 {
                assert(k == major);
                proof {
                    lemma_colors(self.image_buffer, first);
                }
                break;
            }
            proof {
                assert(k < major);
                assert((k + 1) * minor == k * minor + minor) by (nonlinear_arith);
                assert((m + 1) * major == m * major + major) by (nonlinear_arith);
            }
            let e2: i64 = 2 * err;
            if e2 > -dy {
                err -= dy;
                x += sx;
            }
            if e2 < dx {
                err += dx;
                y += sy;
            }
            proof {
                k = k + 1;
                if 2 * (error - minor) < -major {
                    m = m + 1;
                    error = error - minor + major;
                } else {
                    error = error - minor;
                }
            }
        }
    }

    fn draw_rect(&mut self, x: i32, y: i32, w: u32, h: u32, color: Color, clip: Clip) {
        let ghost first = self.image_buffer;
        proof {
            self.image_buffer.lemma_same_format_refl();
            self.image_buffer.lemma_items();
        }
        if w == 0 || h == 0 {
            return;
        }
        self.fill_rect(x, y, w, 1, color, clip);
        let ghost one = self.image_buffer;
        proof {
            one.lemma_same_format(&first);
        }
        if h > 1 {
            self.fill_rect(x, add_capped(y, h - 1), w, 1, color, clip);
            proof {
                self.image_buffer.lemma_same_format_trans(&one, &first);
            }
        }
        let ghost two = self.image_buffer;
        proof {
            two.lemma_same_format(&first);
        }
        if h > 2 {
            self.fill_rect(x, add_capped(y, 1), 1, h - 2, color, clip);
            proof {
                self.image_buffer.lemma_same_format_trans(&two, &first);
            }
            let ghost three = self.image_buffer;
            proof {
                three.lemma_same_format(&first);
            }
            if w > 1 {
                self.fill_rect(
                    add_capped(x, w - 1),
                    add_capped(y, 1),
                    1,
                    h - 2,
                    color,
                    clip,
                );
                proof {
                    self.image_buffer.lemma_same_format_trans(&three, &first);
                }
            }
        }
        proof {
            lemma_colors(self.image_buffer, first);
        }
    }

    fn draw_arc(
        &mut self,
        x: i32,
        y: i32,
        w: u32,
        h: u32,
        start_angle: u32,
        arc_angle: u32,
        color: Color,
        clip: Clip,
    ) {
        self.draw_rect(x, y, w, h, color, clip);
    }

    fn draw_round_rect(
        &mut self,
        x: i32,
        y: i32,
        w: u32,
        h: u32,
        arc_width: u32,
        arc_height: u32,
        color: Color,
        clip: Clip,
    ) {
        self.draw_rect(x, y, w, h, color, clip);
    }

    fn fill_rect(&mut self, x: i32, y: i32, w: u32, h: u32, color: Color, clip: Clip) {
        let ghost first = self.image_buffer;
        proof {
            self.image_buffer.lemma_wf();
            self.image_buffer.lemma_same_format_refl();
            self.image_buffer.lemma_items();
        }
        let x_start = greatest(greatest(x as i64, 0), clip.x as i64);
        let y_start = greatest(greatest(y as i64, 0), clip.y as i64);
        let x_end = least(
            least(x as i64 + w as i64, self.image_buffer.width() as i64),
            clip.x as i64 + clip.width as i64,
        );
        let y_end = least(
            least(y as i64 + h as i64, self.image_buffer.height() as i64),
            clip.y as i64 + clip.height as i64,
        );
        if x_start >= x_end || y_start >= y_end {
            return;
        }
        let row = uniform_row(color, (x_end - x_start) as usize);
        let width: u32 = (x_end - x_start) as u32;
        let mut line: i64 = y_start;
        while line < y_end
            invariant
                0 <= x_start < x_end <= first.spec_width() <= i32::MAX,
                0 <= y_start <= line <= y_end <= first.spec_height() <= i32::MAX,
                width == x_end - x_start == row@.len(),
                forall|i: int| 0 <= i < row@.len() ==> (#[trigger] row@[i]) == color,
                first.wf(),
                first.accepts(color),
                self.image_buffer.same_format(&first),
                forall|px: int, py: int|
                    in_rect(px, py, 0, 0, first.spec_width(), first.spec_height()) ==> (
                    #[trigger] self.image_buffer.item(px, py)) == if x_start <= px < x_end
                        && y_start <= py < line {
                        first.item_of(color)
                    } else {
                        first.item(px, py)
                    },
            decreases y_end - line,
        {
            let ghost before = self.image_buffer;
            proof {
                before.lemma_same_format(&first);
            }
            self.image_buffer.put_pixels(x_start as i32, line as i32, width, row.as_slice());
            proof {
                self.image_buffer.lemma_same_format_trans(&before, &first);
                assert forall|px: int, py: int|
                    in_rect(px, py, 0, 0, first.spec_width(), first.spec_height()) implies (
                #[trigger] self.image_buffer.item(px, py)) == if x_start <= px < x_end && y_start
                    <= py < line + 1 {
                    first.item_of(color)
                } else {
                    first.item(px, py)
                } by {
                    lemma_single_row(px, py, x_start as int, line as int, width as int);
                    assert(before.item_of(color) == first.item_of(color));
                    assert(before.item(px, py) == if x_start <= px < x_end && y_start <= py
                        < line {
                        first.item_of(color)
                    } else {
                        first.item(px, py)
                    });
                }
            }
            line += 1;
        }
        proof {
            lemma_colors(self.image_buffer, first);
        }
    }

    fn fill_arc(
        &mut self,
        x: i32,
        y: i32,
        w: u32,
        h: u32,
        start_angle: u32,
        arc_angle: u32,
        color: Color,
        clip: Clip,
    ) {
        self.fill_rect(x, y, w, h, color, clip);
    }

    fn fill_round_rect(
        &mut self,
        x: i32,
        y: i32,
        w: u32,
        h: u32,
        arc_width: u32,
        arc_height: u32,
        color: Color,
        clip: Clip,
    ) {
        self.fill_rect(x, y, w, h, color, clip);
    }

    fn put_pixel(&mut self, x: i32, y: i32, color: Color) {
        self.image_buffer.put_pixel(x, y, color);
    }
}

/// Of colors that fill one row exactly, the place `(px, py)` is among them just
/// where it stands in that row.
proof fn lemma_single_row(px: int, py: int, x: int, y: int, width: int)
    requires
        0 < width,
    ensures
        in_rows(px, py, x, y, width, width) <==> x <= px < x + width && py == y,
        py == y ==> row_index(px, py, x, y, width) == px - x,
{
    if py == y {
        assert((py - y) * width == 0) by (nonlinear_arith)
            requires
                py == y,
        ;
    } else if py > y {
        assert((py - y) * width >= width) by (nonlinear_arith)
            requires
                py - y >= 1,
                0 < width,
        ;
    }
}

/// Painting point `k` of a line turns the first `k` points painted into the first
/// `k + 1`.
proof fn lemma_line_step<T: ImageBuffer>(
    after: T,
    before: T,
    first: T,
    p1: (int, int),
    p2: (int, int),
    k: int,
    color: Color,
)
    requires
        0 <= k,
        p1 != p2,
        0 < line_length(p1.0, p1.1, p2.0, p2.1),
        before.same_format(&first),
        forall|px: int, py: int|
            in_rect(px, py, 0, 0, first.spec_width(), first.spec_height()) ==> (
            #[trigger] before.item(px, py)) == if on_line(px, py, p1.0, p1.1, p2.0, p2.1, k) {
                painted(first, first.item(px, py), color)
            } else {
                first.item(px, py)
            },
        repainted(
            after,
            before,
            |px: int, py: int| (px, py) == line_point(p1.0, p1.1, p2.0, p2.1, k),
            |px: int, py: int| painted(before, before.item(px, py), color),
        ),
    ensures
        forall|px: int, py: int|
            in_rect(px, py, 0, 0, first.spec_width(), first.spec_height()) ==> (
            #[trigger] after.item(px, py)) == if on_line(
                px,
                py,
                p1.0,
                p1.1,
                p2.0,
                p2.1,
                k + 1,
            ) {
                painted(first, first.item(px, py), color)
            } else {
                first.item(px, py)
            },
{
    before.lemma_same_format(&first);
    assert forall|px: int, py: int|
        in_rect(px, py, 0, 0, first.spec_width(), first.spec_height()) implies (
    #[trigger] after.item(px, py)) == if on_line(px, py, p1.0, p1.1, p2.0, p2.1, k + 1) {
        painted(first, first.item(px, py), color)
    } else {
        first.item(px, py)
    } by {
        assert(before.item(px, py) == if on_line(px, py, p1.0, p1.1, p2.0, p2.1, k) {
            painted(first, first.item(px, py), color)
        } else {
            first.item(px, py)
        });
        let here = (px, py) == line_point(p1.0, p1.1, p2.0, p2.1, k);
        if here {
            assert(on_line(px, py, p1.0, p1.1, p2.0, p2.1, k + 1));
            if on_line(px, py, p1.0, p1.1, p2.0, p2.1, k) {
                let j = choose|j: int|
                    0 <= j < k && #[trigger] line_point(p1.0, p1.1, p2.0, p2.1, j) == (px, py);
                assert(false);
            }
            assert(before.item_of(blended(first.color_of(first.item(px, py)), color)) == first.item_of(
                blended(first.color_of(first.item(px, py)), color),
            ));
        } else {
            if on_line(px, py, p1.0, p1.1, p2.0, p2.1, k) {
                let j = choose|j: int|
                    0 <= j < k && #[trigger] line_point(p1.0, p1.1, p2.0, p2.1, j) == (px, py);
                assert(0 <= j < k + 1);
            }
            if on_line(px, py, p1.0, p1.1, p2.0, p2.1, k + 1) {
                let j = choose|j: int|
                    0 <= j < k + 1 && #[trigger] line_point(p1.0, p1.1, p2.0, p2.1, j) == (px, py);
                assert(j != k);
                assert(on_line(px, py, p1.0, p1.1, p2.0, p2.1, k));
            }
        }
    }
}

/// `after` is `before` with `color` written at one place.
pub open spec fn pixel_written<B: ImageBuffer>(
    after: B,
    before: B,
    x: int,
    y: int,
    color: Color,
) -> bool {
    repainted(
        after,
        before,
        |px: int, py: int| px == x && py == y,
        |px: int, py: int| before.item_of(color),
    )
}

/// `after` is `before` with `colors` written at `(x, y)` in rows of `width`.
pub open spec fn pixels_written<B: ImageBuffer>(
    after: B,
    before: B,
    x: int,
    y: int,
    width: int,
    colors: Seq<Color>,
) -> bool {
    repainted(
        after,
        before,
        |px: int, py: int| in_rows(px, py, x, y, width, colors.len() as int),
        |px: int, py: int| before.item_of(colors[row_index(px, py, x, y, width)]),
    )
}

/// `steps` are images of which each is the one before with one more color written:
/// color `k` at column `k % width` and row `k / width` behind `(x, y)`.
pub open spec fn written_in_turn<B: ImageBuffer>(
    steps: Seq<B>,
    x: int,
    y: int,
    width: int,
    colors: Seq<Color>,
) -> bool {
    &&& steps.len() == colors.len() + 1
    &&& forall|k: int|
        0 <= k < colors.len() ==> pixel_written(
            steps[k + 1],
            steps[k],
            x + k % width,
            y + k / width,
            #[trigger] colors[k],
        )
}

proof fn lemma_written_up_to<B: ImageBuffer>(
    steps: Seq<B>,
    x: int,
    y: int,
    width: int,
    colors: Seq<Color>,
    n: int,
)
    requires
        0 < width,
        0 <= n <= colors.len(),
        written_in_turn(steps, x, y, width, colors),
    ensures
        pixels_written(steps[n], steps[0], x, y, width, colors.take(n)),
    decreases n,
{
    let first = steps[0];
    if n == 0 {
        first.lemma_same_format_refl();
        assert forall|px: int, py: int| !#[trigger] in_rows(px, py, x, y, width, 0) by {
            if y <= py {
                assert(0 <= (py - y) * width) by (nonlinear_arith)
                    requires
                        0 <= py - y,
                        0 < width,
                ;
            }
        }
    } else {
        let k = n - 1;
        lemma_written_up_to(steps, x, y, width, colors, k);
        let before = steps[k];
        let after = steps[n];
        let c = colors[k];
        assert(pixel_written(steps[k + 1], steps[k], x + k % width, y + k / width, c));
        before.lemma_same_format(&first);
        after.lemma_same_format_trans(&before, &first);
        vstd::arithmetic::div_mod::lemma_fundamental_div_mod(k, width);
        assert(k / width * width == width * (k / width)) by (nonlinear_arith);
        assert(0 <= k / width) by {
            vstd::arithmetic::div_mod::lemma_div_pos_is_pos(k, width);
        }
        assert forall|px: int, py: int|
            in_rect(px, py, 0, 0, first.spec_width(), first.spec_height()) implies (
        #[trigger] after.item(px, py)) == if in_rows(px, py, x, y, width, n) {
            first.item_of(colors.take(n)[row_index(px, py, x, y, width)])
        } else {
            first.item(px, py)
        } by {
            let here = px == x + k % width && py == y + k / width;
            let index = row_index(px, py, x, y, width);
            assert(before.item(px, py) == if in_rows(px, py, x, y, width, k) {
                first.item_of(colors.take(k)[index])
            } else {
                first.item(px, py)
            });
            assert(before.item_of(c) == first.item_of(c));
            if here {
                assert(index == k);
            } else if in_rows(px, py, x, y, width, n) {
                if index == k {
                    lemma_same_row(py - y, px - x, k / width, k % width, width);
                }
                assert(0 <= (py - y) * width) by (nonlinear_arith)
                    requires
                        0 <= py - y,
                        0 < width,
                ;
                assert(colors.take(n)[index] == colors.take(k)[index]);
            }
        }
        lemma_colors(after, first);
    }
}

/// Colors that are written in rows leave what they leave one by one: color `k` is
/// written at column `k % width` and row `k / width`, a place outside is ignored, and
/// the last row need not be full. In rows of no width nothing is written.
pub proof fn lemma_rows_are_single_pixels<B: ImageBuffer>(
    steps: Seq<B>,
    after: B,
    x: int,
    y: int,
    width: int,
    colors: Seq<Color>,
)
    requires
        0 <= width,
        width > 0 ==> written_in_turn(steps, x, y, width, colors),
        pixels_written(after, steps[0], x, y, width, colors),
    ensures
        ({
            let first = steps[0];
            let last = if width > 0 {
                steps.last()
            } else {
                first
            };
            &&& last.same_format(&first)
            &&& forall|px: int, py: int|
                in_rect(px, py, 0, 0, first.spec_width(), first.spec_height())
                    ==> #[trigger] after.item(px, py) == last.item(px, py)
            &&& forall|px: int, py: int|
                in_rect(px, py, 0, 0, first.spec_width(), first.spec_height())
                    ==> #[trigger] after.pixel(px, py) == last.pixel(px, py)
        }),
{
    let first = steps[0];
    if width > 0 {
        let last = steps.last();
        lemma_written_up_to(steps, x, y, width, colors, colors.len() as int);
        assert(colors.take(colors.len() as int) =~= colors);
        assert forall|px: int, py: int|
            in_rect(px, py, 0, 0, first.spec_width(), first.spec_height()) implies
            #[trigger] after.item(px, py) == last.item(px, py) by {}
        assert forall|px: int, py: int|
            in_rect(px, py, 0, 0, first.spec_width(), first.spec_height()) implies
            #[trigger] after.pixel(px, py) == last.pixel(px, py) by {}
    } else {
        first.lemma_same_format_refl();
    }
}

/// So the data of an image is the same, item by item, whether colors are written in
/// rows or one by one.
pub proof fn lemma_rows_are_single_items<T: PixelType>(
    steps: Seq<VecImageBuffer<T>>,
    after: VecImageBuffer<T>,
    x: int,
    y: int,
    width: int,
    colors: Seq<Color>,
)
    requires
        steps[0].wf(),
        0 < width,
        written_in_turn(steps, x, y, width, colors),
        pixels_written(after, steps[0], x, y, width, colors),
    ensures
        after.data() == steps.last().data(),
{
    let first = steps[0];
    let last = steps.last();
    lemma_rows_are_single_pixels(steps, after, x, y, width, colors);
    assert forall|i: int| 0 <= i < after.data().len() implies after.data()[i] == last.data()[i] by {
        if i < first.spec_width() * first.spec_height() {
            let (px, py) = (i % first.spec_width(), i / first.spec_width());
            first.lemma_data(i);
            assert(after.index(px, py) == i && last.index(px, py) == i);
            assert(after.item(px, py) == last.item(px, py));
        } else {
            assert(after.data()[i] == first.data()[i]);
            assert(last.data()[i] == first.data()[i]);
        }
    }
    assert(after.data() =~= last.data());
}

fn span(a: i32, b: i32) -> (r: i64)
    ensures
        r == distance(a as int, b as int),
{
    if a <= b {
        b as i64 - a as i64
    } else {
        a as i64 - b as i64
    }
}

fn uniform_row(color: Color, count: usize) -> (r: Vec<Color>)
    ensures
        r@.len() == count,
        forall|i: int| 0 <= i < r@.len() ==> (#[trigger] r@[i]) == color,
{
    let mut row: Vec<Color> = Vec::new();
    while row.len() < count
        invariant
            row@.len() <= count,
            forall|i: int| 0 <= i < row@.len() ==> (#[trigger] row@[i]) == color,
        decreases count - row@.len(),
    {
        row.push(color);
    }
    row
}

impl<T: ImageBuffer> ImageBufferCanvas<T> {
    /// Paints one row, which lies inside, at `(x, y)`.
    fn paint_row(&mut self, x: i32, y: i32, colors: &Vec<Color>)
        requires
            old(self).buffer().wf(),
            0 <= x,
            x + colors@.len() <= old(self).buffer().spec_width(),
            0 <= y < old(self).buffer().spec_height(),
            0 < colors@.len(),
            forall|k: int|
                0 <= k < colors@.len() ==> paintable(old(self).buffer(), #[trigger] colors@[k]),
        ensures
            repainted(
                final(self).buffer(),
                old(self).buffer(),
                |px: int, py: int| py == y && x <= px < x + colors@.len(),
                |px: int, py: int|
                    painted(
                        old(self).buffer(),
                        old(self).buffer().item(px, py),
                        colors@[px - x],
                    ),
            ),
    {
        let ghost first = self.image_buffer;
        let count = colors.len();
        proof {
            first.lemma_wf();
            first.lemma_same_format_refl();
            first.lemma_items();
        }
        let mut opaque = true;
        let mut index: usize = 0;
        while index < count
            invariant
                index <= count == colors@.len(),
                opaque == forall|k: int| 0 <= k < index ==> (#[trigger] colors@[k]).a == 0xff,
            decreases count - index,
        {
            if colors[index].a != 0xff {
                opaque = false;
            }
            index += 1;
        }
        if opaque {
            proof {
                assert forall|k: int| 0 <= k < colors@.len() implies first.accepts(
                    #[trigger] colors@[k],
                ) by {
                    assert(paintable(first, colors@[k]));
                    assert(first.accepts(blended(colors@[k], colors@[k])));
                }
            }
            self.image_buffer.put_pixels(x, y, count as u32, colors.as_slice());
            proof {
                assert forall|px: int, py: int|
                    in_rect(px, py, 0, 0, first.spec_width(), first.spec_height()) implies (
                #[trigger] self.image_buffer.item(px, py)) == if py == y && x <= px < x
                    + colors@.len() {
                    painted(first, first.item(px, py), colors@[px - x])
                } else {
                    first.item(px, py)
                } by {
                    lemma_single_row(px, py, x as int, y as int, count as int);
                }
                lemma_colors(self.image_buffer, first);
            }
            return;
        }
        let mut column: usize = 0;
        while column < count
            invariant
                column <= count == colors@.len(),
                0 <= x,
                x + count <= first.spec_width() <= i32::MAX,
                0 <= y < first.spec_height(),
                first.wf(),
                forall|k: int|
                    0 <= k < colors@.len() ==> paintable(first, #[trigger] colors@[k]),
                self.image_buffer.same_format(&first),
                forall|px: int, py: int|
                    in_rect(px, py, 0, 0, first.spec_width(), first.spec_height()) ==> (
                    #[trigger] self.image_buffer.item(px, py)) == if py == y && x <= px < x
                        + column {
                        painted(first, first.item(px, py), colors@[px - x])
                    } else {
                        first.item(px, py)
                    },
            decreases count - column,
        {
            let ghost before = self.image_buffer;
            proof {
                before.lemma_same_format(&first);
                assert(paintable(first, colors@[column as int]));
                assert forall|background: Color|
                    colors@[column as int].a != 0 implies before.accepts(
                    #[trigger] blended(background, colors@[column as int]),
                ) by {
                    assert(first.accepts(blended(background, colors@[column as int])));
                }
            }
            self.blend_pixel(x + column as i32, y, colors[column]);
            proof {
                self.image_buffer.lemma_same_format_trans(&before, &first);
                assert forall|px: int, py: int|
                    in_rect(px, py, 0, 0, first.spec_width(), first.spec_height()) implies (
                #[trigger] self.image_buffer.item(px, py)) == if py == y && x <= px < x + column
                    + 1 {
                    painted(first, first.item(px, py), colors@[px - x])
                } else {
                    first.item(px, py)
                } by {
                    assert(before.item(px, py) == if py == y && x <= px < x + column {
                        painted(first, first.item(px, py), colors@[px - x])
                    } else {
                        first.item(px, py)
                    });
                    if py == y && px == x + column {
                        let c = colors@[column as int];
                        assert(before.item_of(blended(first.color_of(first.item(px, py)), c)) == first.item_of(
                            blended(first.color_of(first.item(px, py)), c),
                        ));
                    }
                }
            }
            column += 1;
        }
        proof {
            lemma_colors(self.image_buffer, first);
        }
    }
}

// ---------------------------------------------------------------------------
// What painting does

/// The color with red and green exchanged.
pub open spec fn red_green_exchanged(color: Color) -> Color {
    Color { r: color.g, g: color.r, ..color }
}

/// The color with green and blue exchanged.
pub open spec fn green_blue_exchanged(color: Color) -> Color {
    Color { g: color.b, b: color.g, ..color }
}

/// `mixed` is the mean of `over` and `under`, weighted by `alpha` out of 255 and rounded
/// down. So it lies between them, and is at less than 1 from the exact mean.
pub open spec fn is_mean(mixed: u8, over: u8, under: u8, alpha: u8) -> bool {
    &&& 255 * mixed <= over * alpha + under * (255 - alpha) < 255 * mixed + 255
    &&& over <= mixed <= under || under <= mixed <= over
}

proof fn lemma_mean(over: u8, under: u8, alpha: u8)
    ensures
        ({
            let sum = over * alpha + under * (255 - alpha);
            &&& 0 <= sum <= 255 * 255
            &&& is_mean((sum / 255) as u8, over, under, alpha)
            &&& alpha == 255 ==> sum == 255 * over
            &&& alpha == 0 ==> sum == 255 * under
        }),
{
    let sum = over * alpha + under * (255 - alpha);
    assert(alpha == 255 ==> sum == 255 * over) by (nonlinear_arith)
        requires
            sum == over * alpha + under * (255 - alpha),
    ;
    assert(alpha == 0 ==> sum == 255 * under) by (nonlinear_arith)
        requires
            sum == over * alpha + under * (255 - alpha),
    ;
    if over <= under {
        assert(255 * over <= sum <= 255 * under) by (nonlinear_arith)
            requires
                0 <= over <= under <= 255,
                0 <= alpha <= 255,
                sum == over * alpha + under * (255 - alpha),
        ;
    } else {
        assert(255 * under <= sum <= 255 * over) by (nonlinear_arith)
            requires
                0 <= under <= over <= 255,
                0 <= alpha <= 255,
                sum == over * alpha + under * (255 - alpha),
        ;
    }
}

/// Blending is fair to all three channels: of red, green and blue each it takes the
/// mean by the color's alpha. An opaque color covers the background, a translucent one
/// leaves it opaque.
pub proof fn lemma_blending_takes_the_mean(background: Color, color: Color)
    ensures
        ({
            let mixed = blended(background, color);
            &&& mixed.a == 255
            &&& is_mean(mixed.r, color.r, background.r, color.a)
            &&& is_mean(mixed.g, color.g, background.g, color.a)
            &&& is_mean(mixed.b, color.b, background.b, color.a)
            &&& color.a == 255 ==> mixed == color
            &&& color.a == 0 ==> mixed == (Color { a: 255, ..background })
        }),
{
    lemma_mean(color.r, background.r, color.a);
    lemma_mean(color.g, background.g, color.a);
    lemma_mean(color.b, background.b, color.a);
}

/// Exchanging two channels in both colors exchanges them in the result, so a grey over
/// a grey is a grey.
pub proof fn lemma_blending_treats_channels_alike(background: Color, color: Color)
    ensures
        blended(red_green_exchanged(background), red_green_exchanged(color))
            == red_green_exchanged(blended(background, color)),
        blended(green_blue_exchanged(background), green_blue_exchanged(color))
            == green_blue_exchanged(blended(background, color)),
        background.r == background.g == background.b && color.r == color.g == color.b ==> {
            let mixed = blended(background, color);
            mixed.r == mixed.g == mixed.b
        },
{
}

/// The stronger a channel of the color, the stronger that of the result; the same goes
/// for the background.
pub proof fn lemma_blending_is_monotonic(
    background: Color,
    color: Color,
    background2: Color,
    color2: Color,
)
    requires
        color.a == color2.a,
        background.r <= background2.r,
        background.g <= background2.g,
        background.b <= background2.b,
        color.r <= color2.r,
        color.g <= color2.g,
        color.b <= color2.b,
    ensures
        blended(background, color).r <= blended(background2, color2).r,
        blended(background, color).g <= blended(background2, color2).g,
        blended(background, color).b <= blended(background2, color2).b,
{
    lemma_mean_grows(color.r, background.r, color2.r, background2.r, color.a);
    lemma_mean_grows(color.g, background.g, color2.g, background2.g, color.a);
    lemma_mean_grows(color.b, background.b, color2.b, background2.b, color.a);
}

proof fn lemma_mean_grows(over: u8, under: u8, over2: u8, under2: u8, alpha: u8)
    requires
        over <= over2,
        under <= under2,
    ensures
        0 <= over * alpha + under * (255 - alpha) <= over2 * alpha + under2 * (255 - alpha) <= 255
            * 255,
{
    assert(0 <= over * alpha + under * (255 - alpha) <= over2 * alpha + under2 * (255 - alpha)
        <= 255 * 255) by (nonlinear_arith)
        requires
            0 <= over <= over2 <= 255,
            0 <= under <= under2 <= 255,
            0 <= alpha <= 255,
    ;
}

/// On an image with alpha, a pixel that was painted is the mean of what was there and
/// the color, channel by channel; an opaque color is there exactly, an invisible one
/// leaves the pixel. No other pixel changes.
pub proof fn lemma_blended_pixel(
    after: VecImageBuffer<ArgbPixel>,
    before: VecImageBuffer<ArgbPixel>,
    x: int,
    y: int,
    color: Color,
    px: int,
    py: int,
)
    requires
        pixel_blended(after, before, x, y, color),
        in_rect(px, py, 0, 0, before.spec_width(), before.spec_height()),
    ensures
        ({
            let (old_pixel, new_pixel) = (before.pixel(px, py), after.pixel(px, py));
            if px == x && py == y && color.a != 0 {
                &&& new_pixel.a == 255
                &&& is_mean(new_pixel.r, color.r, old_pixel.r, color.a)
                &&& is_mean(new_pixel.g, color.g, old_pixel.g, color.a)
                &&& is_mean(new_pixel.b, color.b, old_pixel.b, color.a)
                &&& color.a == 255 ==> new_pixel == color
            } else {
                new_pixel == old_pixel
            }
        }),
{
    let under = before.pixel(px, py);
    lemma_blending_takes_the_mean(under, color);
    lemma_argb_is_exact(blended(under, color), 0);
}

/// Drawing an image puts its pixels, in their arrangement, to their place: pixel
/// `(i, j)` behind the corner of the copied part is painted over pixel `(i, j)` behind
/// the place, where it lies in the part, in both images and in the clip.
pub proof fn lemma_drawn_pixels<S: Image>(
    after: VecImageBuffer<ArgbPixel>,
    before: VecImageBuffer<ArgbPixel>,
    to: (int, int),
    w: int,
    h: int,
    src: &S,
    from: (int, int),
    clip: Clip,
    i: int,
    j: int,
)
    requires
        is_drawn(after, before, to, w, h, src, from, clip),
        0 <= to.0 + i < before.spec_width(),
        0 <= to.1 + j < before.spec_height(),
    ensures
        ({
            let old_pixel = before.pixel(to.0 + i, to.1 + j);
            let new_pixel = after.pixel(to.0 + i, to.1 + j);
            let color = src.pixel(from.0 + i, from.1 + j);
            if 0 <= i < w && 0 <= j < h && 0 <= from.0 + i < src.spec_width() && 0 <= from.1 + j
                < src.spec_height() && clip.x <= to.0 + i < clip.x + clip.width && clip.y <= to.1
                + j < clip.y + clip.height && color.a != 0 {
                &&& new_pixel.a == 255
                &&& is_mean(new_pixel.r, color.r, old_pixel.r, color.a)
                &&& is_mean(new_pixel.g, color.g, old_pixel.g, color.a)
                &&& is_mean(new_pixel.b, color.b, old_pixel.b, color.a)
                &&& color.a == 255 ==> new_pixel == color
            } else {
                new_pixel == old_pixel
            }
        }),
{
    let (px, py) = (to.0 + i, to.1 + j);
    let under = before.pixel(px, py);
    assert(in_rect(px, py, 0, 0, before.spec_width(), before.spec_height()));
    let color = src.pixel(px - to.0 + from.0, py - to.1 + from.1);
    assert(px - to.0 + from.0 == from.0 + i && py - to.1 + from.1 == from.1 + j);
    lemma_blending_takes_the_mean(under, color);
    lemma_argb_is_exact(blended(under, color), 0);
}

/// Filling a rectangle gives the color to every pixel that lies in it and in the clip,
/// and to no other; what was there before shows nowhere through.
pub proof fn lemma_filled_pixels(
    after: VecImageBuffer<ArgbPixel>,
    before: VecImageBuffer<ArgbPixel>,
    at: (int, int),
    w: int,
    h: int,
    color: Color,
    clip: Clip,
    px: int,
    py: int,
)
    requires
        is_filled(after, before, at, w, h, color, clip),
        0 <= px < before.spec_width(),
        0 <= py < before.spec_height(),
    ensures
        after.pixel(px, py) == if at.0 <= px < at.0 + w && at.1 <= py < at.1 + h && clip.x <= px
            < clip.x + clip.width && clip.y <= py < clip.y + clip.height {
            color
        } else {
            before.pixel(px, py)
        },
{
    assert(in_rect(px, py, 0, 0, before.spec_width(), before.spec_height()));
    lemma_argb_is_exact(color, 0);
}

/// Drawing a rectangle gives the color to its first and last row and column, within
/// the clip, and leaves all else, its inside too. A rectangle without width or height
/// draws nothing.
pub proof fn lemma_outlined_pixels(
    after: VecImageBuffer<ArgbPixel>,
    before: VecImageBuffer<ArgbPixel>,
    at: (int, int),
    w: int,
    h: int,
    color: Color,
    clip: Clip,
    px: int,
    py: int,
)
    requires
        is_outlined(after, before, at, w, h, color, clip),
        0 <= w,
        0 <= h,
        at.0 + w <= i32::MAX,
        at.1 + h <= i32::MAX,
        0 <= px < before.spec_width(),
        0 <= py < before.spec_height(),
    ensures
        ({
            let inside = at.0 <= px < at.0 + w && at.1 <= py < at.1 + h;
            let border = px == at.0 || px == at.0 + w - 1 || py == at.1 || py == at.1 + h - 1;
            let clipped = clip.x <= px < clip.x + clip.width && clip.y <= py < clip.y
                + clip.height;
            after.pixel(px, py) == if inside && border && clipped {
                color
            } else {
                before.pixel(px, py)
            }
        }),
{
    assert(in_rect(px, py, 0, 0, before.spec_width(), before.spec_height()));
    lemma_argb_is_exact(color, 0);
}

/// A line goes straight: point `k` is `k` steps from its start along the longer side,
/// and across it stands at the whole place nearest to the exact line.
pub proof fn lemma_line_is_straight(x1: int, y1: int, x2: int, y2: int, k: int)
    requires
        0 <= k <= line_length(x1, y1, x2, y2),
    ensures
        ({
            let (px, py) = line_point(x1, y1, x2, y2, k);
            let (dx, dy) = (distance(x1, x2), distance(y1, y2));
            let (ax, ay) = (distance(x1, px), distance(y1, py));
            &&& dx >= dy ==> ax == k && -dx <= 2 * (ay * dx - k * dy) <= dx
            &&& dx < dy ==> ay == k && -dy <= 2 * (ax * dy - k * dx) <= dy
            &&& x1 <= px <= x2 || x2 <= px <= x1
            &&& y1 <= py <= y2 || y2 <= py <= y1
        }),
{
    let (dx, dy) = (distance(x1, x2), distance(y1, y2));
    if dx == 0 && dy == 0 {
    } else if dx >= dy {
        lemma_line_offset(k, dx, dy);
    } else {
        lemma_line_offset(k, dy, dx);
    }
}

proof fn lemma_line_offset(k: int, major: int, minor: int)
    requires
        0 < major,
        0 <= minor <= major,
        0 <= k <= major,
    ensures
        ({
            let m = line_minor(k, major, minor);
            -major <= 2 * (m * major - k * minor) < major && 0 <= m <= minor
        }),
{
    let m = line_minor(k, major, minor);
    let a = 2 * k * minor + major - 1;
    assert(2 * k * minor == 2 * (k * minor)) by (nonlinear_arith);
    vstd::arithmetic::div_mod::lemma_fundamental_div_mod(a, 2 * major);
    assert((2 * major) * m == 2 * (m * major)) by (nonlinear_arith);
    lemma_line_minor(k, m, major, minor, m * major - k * minor);
}

/// A drawn line paints each of its points that lies in the image, both ends among
/// them, and nothing else.
pub proof fn lemma_line_pixels(
    after: VecImageBuffer<ArgbPixel>,
    before: VecImageBuffer<ArgbPixel>,
    p1: (int, int),
    p2: (int, int),
    color: Color,
    px: int,
    py: int,
)
    requires
        is_line_drawn(after, before, p1, p2, color),
        0 <= px < before.spec_width(),
        0 <= py < before.spec_height(),
        color.a == 255,
    ensures
        (px, py) == p1 || (px, py) == p2 ==> after.pixel(px, py) == color,
        (exists|k: int|
            0 <= k <= line_length(p1.0, p1.1, p2.0, p2.1) && #[trigger] line_point(
                p1.0,
                p1.1,
                p2.0,
                p2.1,
                k,
            ) == (px, py)) ==> after.pixel(px, py) == color,
        after.pixel(px, py) == color || after.pixel(px, py) == before.pixel(px, py),
        !(p1.0 <= px <= p2.0 || p2.0 <= px <= p1.0) ==> after.pixel(px, py) == before.pixel(px, py),
        !(p1.1 <= py <= p2.1 || p2.1 <= py <= p1.1) ==> after.pixel(px, py) == before.pixel(px, py),
{
    let n = line_length(p1.0, p1.1, p2.0, p2.1);
    assert(in_rect(px, py, 0, 0, before.spec_width(), before.spec_height()));
    lemma_argb_is_exact(color, 0);
    lemma_line_ends(p1.0, p1.1, p2.0, p2.1);
    if (px, py) == p1 {
        assert(line_point(p1.0, p1.1, p2.0, p2.1, 0) == (px, py));
    }
    if (px, py) == p2 {
        assert(line_point(p1.0, p1.1, p2.0, p2.1, n) == (px, py));
    }
    if on_line(px, py, p1.0, p1.1, p2.0, p2.1, n + 1) {
        let k = choose|k: int|
            0 <= k < n + 1 && #[trigger] line_point(p1.0, p1.1, p2.0, p2.1, k) == (px, py);
        lemma_line_is_straight(p1.0, p1.1, p2.0, p2.1, k);
    }
}

} // verus!
