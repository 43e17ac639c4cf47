//! Enlarging a picture by a whole number.

use vstd::prelude::*;

use crate::text::{copy_text, decimal_text};

verus! {

use crate::text::decimal;
use vstd::arithmetic::div_mod::{lemma_fundamental_div_mod_converse, lemma_multiply_divide_lt};
use vstd::arithmetic::mul::lemma_mul_is_commutative;

/// A size in pixels.
#[derive(Clone, Copy, Debug, PartialEq, Eq, Structural)]
pub struct Size {
    pub width: u32,
    pub height: u32,
}

/// The pixel of a picture of width `width` that stands at place `at` once every
/// pixel is a block of `scale` by `scale`.
pub open spec fn nearest(src: Seq<u32>, width: int, scale: int, at: int) -> u32 {
    let row = at / (width * scale);
    let column = at % (width * scale);
    src[(row / scale) * width + column / scale]
}

proof fn lemma_in_picture(width: int, height: int, scale: int, row: int, column: int)
    requires
        0 < scale,
        0 <= row < height * scale,
        0 <= column < width * scale,
    ensures
        0 <= row / scale < height,
        0 <= column / scale < width,
        0 <= (row / scale) * width + column / scale < width * height,
{
    lemma_mul_is_commutative(height, scale);
    lemma_mul_is_commutative(width, scale);
    lemma_multiply_divide_lt(row, scale, height);
    lemma_multiply_divide_lt(column, scale, width);
    assert(0 <= row / scale) by (nonlinear_arith)
        requires
            0 <= row,
            0 < scale,
    ;
    assert(0 <= column / scale) by (nonlinear_arith)
        requires
            0 <= column,
            0 < scale,
    ;
    let y = row / scale;
    let x = column / scale;
    assert(0 <= y * width + x < width * height) by (nonlinear_arith)
        requires
            0 <= y < height,
            0 <= x < width,
    ;
}

/// Enlarges a picture: every pixel becomes a block of `scale` by `scale`.
pub fn scale_nearest_integer(dst: &mut [u32], src: &[u32], src_w: u32, src_h: u32, scale: u32)
    requires
        src@.len() >= src_w * src_h,
        old(dst)@.len() >= (src_w * scale) * (src_h * scale),
        src_w * scale <= usize::MAX,
        src_h * scale <= usize::MAX,
    ensures
        final(dst)@.len() == old(dst)@.len(),
        forall|i: int|
            0 <= i < (src_w * scale) * (src_h * scale) ==> #[trigger] final(dst)@[i] == nearest(
                src@,
                src_w as int,
                scale as int,
                i,
            ),
        forall|i: int|
            (src_w * scale) * (src_h * scale) <= i < old(dst)@.len() ==> #[trigger] final(dst)@[i]
                == old(dst)@[i],
{
    let ghost w = src_w as int;
    let ghost h = src_h as int;
    let ghost s = scale as int;
    let ghost first = dst@;
    let src_w = src_w as usize;
    let src_h = src_h as usize;
    let scale = scale as usize;
    let total = dst.len();
    let dst_w = src_w * scale;
    let dst_h = src_h * scale;
    let mut at: usize = 0;
    assert(0 * dst_w == 0) by (nonlinear_arith);
    for row in 0..dst_h
        invariant
            w == src_w,
            h == src_h,
            s == scale,
            dst_w == w * s,
            dst_h == h * s,
            total == dst@.len(),
            dst@.len() == first.len(),
            total >= dst_w * dst_h,
            src@.len() >= w * h,
            at == row * dst_w,
            forall|i: int| 0 <= i < at ==> #[trigger] dst@[i] == nearest(src@, w, s, i),
            forall|i: int| at <= i < first.len() ==> #[trigger] dst@[i] == first[i],
    {
        proof {
            assert(s > 0) by (nonlinear_arith)
                requires
                    0 <= row < h * s,
                    s >= 0,
            ;
            assert((row + 1) * dst_w <= dst_h * dst_w) by (nonlinear_arith)
                requires
                    row + 1 <= dst_h,
                    0 <= dst_w,
            ;
            lemma_mul_is_commutative(dst_h as int, dst_w as int);
            assert((row + 1) * dst_w == row * dst_w + dst_w) by (nonlinear_arith);
        }
        let ghost start = at as int;
        for column in 0..dst_w
            invariant
                w == src_w,
                h == src_h,
                s == scale,
                s > 0,
                dst_w == w * s,
                dst_h == h * s,
                0 <= row < dst_h,
                start == row * dst_w,
                start + dst_w <= total,
                total == dst@.len(),
                dst@.len() == first.len(),
                src@.len() >= w * h,
                at == start + column,
                forall|i: int| 0 <= i < at ==> #[trigger] dst@[i] == nearest(src@, w, s, i),
                forall|i: int| at <= i < first.len() ==> #[trigger] dst@[i] == first[i],
        {
            proof {
                lemma_in_picture(w, h, s, row as int, column as int);
                lemma_fundamental_div_mod_converse(
                    at as int,
                    dst_w as int,
                    row as int,
                    column as int,
                );
                let y = row as int / s;
                assert(0 <= y * w) by (nonlinear_arith)
                    requires
                        0 <= y,
                        0 <= w,
                ;
            }
            let count = src.len();
            assert(count == src@.len());
            dst[at] = src[(row / scale) * src_w + column / scale];
            at += 1;
        }
    }
    proof {
        lemma_mul_is_commutative(dst_h as int, dst_w as int);
    }
}

/// Every pixel of the picture fills its block.
pub proof fn lemma_nearest_fills_blocks(
    src: Seq<u32>,
    width: int,
    scale: int,
    x: int,
    y: int,
    dx: int,
    dy: int,
)
    requires
        0 <= x < width,
        0 <= y,
        0 <= dx < scale,
        0 <= dy < scale,
    ensures
        nearest(src, width, scale, (y * scale + dy) * (width * scale) + (x * scale + dx)) == src[y
            * width + x],
{
    let row = y * scale + dy;
    let column = x * scale + dx;
    let at = row * (width * scale) + column;
    assert(0 <= column < width * scale) by (nonlinear_arith)
        requires
            0 <= x < width,
            0 <= dx < scale,
            column == x * scale + dx,
    ;
    assert(at == row * (width * scale) + column);
    lemma_fundamental_div_mod_converse(at, width * scale, row, column);
    lemma_fundamental_div_mod_converse(row, scale, y, dy);
    lemma_fundamental_div_mod_converse(column, scale, x, dx);
}

// ---------------------------------------------------------------------------
// Smooth enlarging

/// What `hqx::hq2x` makes of a picture.
pub uninterp spec fn hq2x_of(src: Seq<u32>, width: int, height: int) -> Seq<u32>;

/// What `hqx::hq3x` makes of a picture.
pub uninterp spec fn hq3x_of(src: Seq<u32>, width: int, height: int) -> Seq<u32>;

/// What `hqx::hq4x` makes of a picture.
pub uninterp spec fn hq4x_of(src: Seq<u32>, width: int, height: int) -> Seq<u32>;

/// `hqx::hq2x` fills `dest`, which has four places for each pixel of `src`. What it
/// writes depends on the pixels and the size alone.
#[verifier::external_body]
fn hq2x(src: &[u32], dest: &mut [u32], width: u32, height: u32)
    requires
        src@.len() == width * height,
        old(dest)@.len() == 4 * (width * height),
        width * 2 <= usize::MAX,
    ensures
        final(dest)@.len() == old(dest)@.len(),
        final(dest)@ == hq2x_of(src@, width as int, height as int),
{
    hqx::hq2x(src, dest, width, height)
}

/// `hqx::hq3x` fills `dest`, which has nine places for each pixel of `src`. What it
/// writes depends on the pixels and the size alone.
#[verifier::external_body]
fn hq3x(src: &[u32], dest: &mut [u32], width: u32, height: u32)
    requires
        src@.len() == width * height,
        old(dest)@.len() == 9 * (width * height),
        width * 3 <= usize::MAX,
    ensures
        final(dest)@.len() == old(dest)@.len(),
        final(dest)@ == hq3x_of(src@, width as int, height as int),
{
    hqx::hq3x(src, dest, width, height)
}

/// `hqx::hq4x` fills `dest`, which has sixteen places for each pixel of `src`. What
/// it writes depends on the pixels and the size alone.
#[verifier::external_body]
fn hq4x(src: &[u32], dest: &mut [u32], width: u32, height: u32)
    requires
        src@.len() == width * height,
        old(dest)@.len() == 16 * (width * height),
        width * 4 <= usize::MAX,
    ensures
        final(dest)@.len() == old(dest)@.len(),
        final(dest)@ == hq4x_of(src@, width as int, height as int),
{
    hqx::hq4x(src, dest, width, height)
}

// ---------------------------------------------------------------------------
// Scalers

/// How a picture is enlarged: not at all, by blocks, or smoothly.
#[derive(Clone, Copy, Debug, PartialEq, Eq, Structural)]
pub enum Scaler {
    Native,
    Nearest { scale: u32 },
    Hqx { times: u8 },
}

impl Scaler {
    /// By how much a picture is enlarged.
    pub open spec fn factor(self) -> int {
        match self {
            Scaler::Native => 1,
            Scaler::Nearest { scale } => scale as int,
            Scaler::Hqx { times } => times as int,
        }
    }

    /// Smooth enlarging is by two, three or four.
    pub open spec fn wf(self) -> bool {
        self matches Scaler::Hqx { times } ==> 2 <= times <= 4
    }

    /// By blocks, or not at all where the scale is at most one.
    pub fn new(scale: u32) -> (r: Scaler)
        ensures
            r == if scale <= 1 {
                Scaler::Native
            } else {
                Scaler::Nearest { scale }
            },
            r.wf(),
    {
        if scale <= 1 {
            Scaler::Native
        } else {
            Scaler::Nearest { scale }
        }
    }

    /// By how much a picture is enlarged.
    pub fn scale(&self) -> (r: u32)
        ensures
            r == self.factor(),
    {
        match self {
            Scaler::Native => 1,
            Scaler::Nearest { scale } => *scale,
            Scaler::Hqx { times } => *times as u32,
        }
    }

    /// The scaler's name.
    pub open spec fn name(self) -> Seq<char> {
        match self {
            Scaler::Native => "Native"@,
            Scaler::Nearest { scale } => "Nearest("@ + decimal(scale as nat) + "x)"@,
            Scaler::Hqx { times } => "Hq"@ + decimal(times as nat) + "x"@,
        }
    }

    /// The scaler's name.
    pub fn text(&self) -> (r: String)
        ensures
            r@ == self.name(),
    {
        match self {
            Scaler::Native => copy_text("Native"),
            Scaler::Nearest { scale } => {
                let mut text = copy_text("Nearest(");
                text.append(decimal_text(*scale).as_str());
                text.append("x)");
                text
            },
            Scaler::Hqx { times } => {
                let mut text = copy_text("Hq");
                text.append(decimal_text(*times as u32).as_str());
                text.append("x");
                text
            },
        }
    }

    /// The size of an enlarged picture.
    pub fn to_physical(&self, size: Size) -> (r: Size)
        requires
            size.width * self.factor() <= u32::MAX,
            size.height * self.factor() <= u32::MAX,
        ensures
            r.width == size.width * self.factor(),
            r.height == size.height * self.factor(),
    {
        match self {
            Scaler::Native => {
                assert(size.width * 1 == size.width) by (nonlinear_arith);
                assert(size.height * 1 == size.height) by (nonlinear_arith);
                size
            },
            Scaler::Nearest { scale } => Size {
                width: size.width * *scale,
                height: size.height * *scale,
            },
            Scaler::Hqx { times } => Size {
                width: size.width * *times as u32,
                height: size.height * *times as u32,
            },
        }
    }

    /// There is room for the enlarged picture, and the picture is whole.
    pub open spec fn fits(self, dst_len: int, src_len: int, size: Size) -> bool {
        match self {
            Scaler::Native => dst_len == src_len,
            Scaler::Nearest { scale } => {
                &&& src_len >= size.width * size.height
                &&& dst_len >= (size.width * scale) * (size.height * scale)
                &&& size.width * scale <= usize::MAX
                &&& size.height * scale <= usize::MAX
            },
            Scaler::Hqx { times } => {
                &&& 2 <= times <= 4
                &&& src_len == size.width * size.height
                &&& dst_len == (times * times) * (size.width * size.height)
                &&& size.width * times <= usize::MAX
            },
        }
    }

    /// What the enlarged picture is, where `before` is what stood in its place.
    pub open spec fn scaled(self, before: Seq<u32>, src: Seq<u32>, size: Size) -> Seq<u32> {
        match self {
            Scaler::Native => src,
            Scaler::Nearest { scale } => Seq::new(
                before.len(),
                |i: int|
                    if i < (size.width * scale) * (size.height * scale) {
                        nearest(src, size.width as int, scale as int, i)
                    } else {
                        before[i]
                    },
            ),
            Scaler::Hqx { times } => if times == 2 {
                hq2x_of(src, size.width as int, size.height as int)
            } else if times == 3 {
                hq3x_of(src, size.width as int, size.height as int)
            } else {
                hq4x_of(src, size.width as int, size.height as int)
            },
        }
    }

    /// Enlarges a picture.
    pub fn scale_image(&self, dst: &mut Vec<u32>, src: &Vec<u32>, src_size: Size)
        requires
            self.fits(old(dst)@.len() as int, src@.len() as int, src_size),
        ensures
            final(dst)@.len() == old(dst)@.len(),
            final(dst)@ == self.scaled(old(dst)@, src@, src_size),
    {
        match self {
            Scaler::Native => {
                for index in 0..src.len()
                    invariant
                        dst@.len() == src@.len(),
                        forall|i: int| 0 <= i < index ==> dst@[i] == src@[i],
                {
                    dst.set(index, src[index]);
                }
                assert(dst@ =~= src@);
            },
            Scaler::Nearest { scale } => {
                let ghost before = dst@;
                scale_nearest_integer(
                    dst.as_mut_slice(),
                    src.as_slice(),
                    src_size.width,
                    src_size.height,
                    *scale,
                );
                assert(dst@ =~= self.scaled(before, src@, src_size));
            },
            Scaler::Hqx { times } => {
                if *times == 2 {
                    hq2x(src.as_slice(), dst.as_mut_slice(), src_size.width, src_size.height);
                } else if *times == 3 {
                    hq3x(src.as_slice(), dst.as_mut_slice(), src_size.width, src_size.height);
                } else {
                    assert(*times * *times == 16) by (nonlinear_arith)
                        requires
                            *times == 4,
                    ;
                    hq4x(src.as_slice(), dst.as_mut_slice(), src_size.width, src_size.height);
                }
            },
        }
    }
}

/// A picture that is enlarged by blocks shows every pixel in each place of its block and
/// touches nothing behind them; one that is not enlarged is the picture.
pub proof fn lemma_scaled_picture(
    before: Seq<u32>,
    src: Seq<u32>,
    size: Size,
    scale: u32,
    x: int,
    y: int,
    dx: int,
    dy: int,
    behind: int,
)
    requires
        (Scaler::Nearest { scale }).fits(before.len() as int, src.len() as int, size),
        0 <= x < size.width,
        0 <= y < size.height,
        0 <= dx < scale,
        0 <= dy < scale,
        (size.width * scale) * (size.height * scale) <= behind < before.len(),
    ensures
        ({
            let after = (Scaler::Nearest { scale }).scaled(before, src, size);
            &&& after.len() == before.len()
            &&& after[(y * scale + dy) * (size.width * scale) + (x * scale + dx)] == src[y
                * size.width + x]
            &&& after[behind] == before[behind]
        }),
        Scaler::Native.scaled(before, src, size) == src,
{
    let (width, height, by) = (size.width as int, size.height as int, scale as int);
    lemma_nearest_fills_blocks(src, width, by, x, y, dx, dy);
    let row = y * by + dy;
    let column = x * by + dx;
    assert(0 <= row < height * by) by (nonlinear_arith)
        requires
            0 <= y < height,
            0 <= dy < by,
            row == y * by + dy,
    ;
    assert(0 <= column < width * by) by (nonlinear_arith)
        requires
            0 <= x < width,
            0 <= dx < by,
            column == x * by + dx,
    ;
    assert(0 <= row * (width * by) + column < (width * by) * (height * by)) by (nonlinear_arith)
        requires
            0 <= row < height * by,
            0 <= column < width * by,
    ;
}

/// A smooth scaler enlarges by the number of its filter.
pub proof fn lemma_smooth_scalers(before: Seq<u32>, src: Seq<u32>, size: Size)
    ensures
        (Scaler::Hqx { times: 2 }).scaled(before, src, size) == hq2x_of(
            src,
            size.width as int,
            size.height as int,
        ),
        (Scaler::Hqx { times: 3 }).scaled(before, src, size) == hq3x_of(
            src,
            size.width as int,
            size.height as int,
        ),
        (Scaler::Hqx { times: 4 }).scaled(before, src, size) == hq4x_of(
            src,
            size.width as int,
            size.height as int,
        ),
        (Scaler::Hqx { times: 2 }).factor() == 2,
        (Scaler::Hqx { times: 3 }).factor() == 3,
        (Scaler::Hqx { times: 4 }).factor() == 4,
        Scaler::Native.factor() == 1,
{
}

} // verus!
