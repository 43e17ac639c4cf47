//! The picture that the core shows.

use vstd::prelude::*;

verus! {

/// The 16-bit form of a 32-bit pixel: five bits of red, six of green, five of blue.
pub open spec fn packed565(pixel: u32) -> u16 {
    ((pixel / 65536 % 256 / 8) * 2048 + (pixel / 256 % 256 / 4) * 32 + pixel % 256 / 8) as u16
}

/// The 16-bit form of a picture.
pub open spec fn picture565(pixels: Seq<u32>) -> Seq<u16> {
    pixels.map_values(|pixel: u32| packed565(pixel))
}

/// A picture, and its 16-bit form once that was asked for.
pub struct Frame {
    pub width: u32,
    pub height: u32,
    pub argb8888: Vec<u32>,
    pub rgb565: Vec<u16>,
}

impl Frame {
    /// What is kept of the 16-bit form, if it is as long as the picture, is its
    /// 16-bit form.
    pub open spec fn wf(&self) -> bool {
        self.rgb565@.len() == self.argb8888@.len() ==> self.rgb565@ == picture565(
            self.argb8888@,
        )
    }

    /// A black picture.
    pub fn new(width: u32, height: u32) -> (r: Self)
        requires
            width * height <= u32::MAX,
        ensures
            r.wf(),
            r.width == width,
            r.height == height,
            r.argb8888@ == Seq::new((width * height) as nat, |i: int| 0xff000000u32),
            r.rgb565@ == Seq::<u16>::empty(),
    {
        let count = (width * height) as usize;
        let mut argb8888: Vec<u32> = Vec::new();
        for index in 0..count
            invariant
                argb8888@.len() == index,
                forall|i: int| 0 <= i < index ==> argb8888@[i] == 0xff000000u32,
        {
            argb8888.push(0xff000000);
        }
        assert(argb8888@ =~= Seq::new((width * height) as nat, |i: int| 0xff000000u32));
        let frame = Frame { width, height, argb8888, rgb565: Vec::new() };
        proof {
            if frame.argb8888@.len() == 0 {
                assert(frame.rgb565@ =~= picture565(frame.argb8888@));
            }
        }
        frame
    }

    /// Shows another picture.
    pub fn replace_argb8888(&mut self, width: u32, height: u32, argb8888: Vec<u32>)
        ensures
            final(self).wf(),
            final(self).width == width,
            final(self).height == height,
            final(self).argb8888@ == argb8888@,
            final(self).rgb565@ == Seq::<u16>::empty(),
    {
        self.width = width;
        self.height = height;
        self.argb8888 = argb8888;
        self.rgb565.clear();
        proof {
            if self.argb8888@.len() == 0 {
                assert(self.rgb565@ =~= picture565(self.argb8888@));
            }
        }
    }

    /// Shows the picture of another frame.
    pub fn copy_from(&mut self, other: &Frame)
        requires
            other.wf(),
        ensures
            final(self).wf(),
            final(self).width == other.width,
            final(self).height == other.height,
            final(self).argb8888@ == other.argb8888@,
            final(self).rgb565@ == other.rgb565@,
    {
        self.width = other.width;
        self.height = other.height;
        self.argb8888 = other.argb8888.clone();
        self.rgb565 = other.rgb565.clone();
        assert(self.argb8888@ =~= other.argb8888@);
        assert(self.rgb565@ =~= other.rgb565@);
    }

    /// The 16-bit form of the picture. It is worked out once.
    pub fn rgb565(&mut self) -> (r: &[u16])
        requires
            old(self).wf(),
        ensures
            r@ == picture565(old(self).argb8888@),
            final(self).wf(),
            final(self).width == old(self).width,
            final(self).height == old(self).height,
            final(self).argb8888@ == old(self).argb8888@,
            final(self).rgb565@ == r@,
    {
        if self.rgb565.len() != self.argb8888.len() {
            let mut packed: Vec<u16> = Vec::new();
            for index in 0..self.argb8888.len()
                invariant
                    packed@.len() == index,
                    forall|i: int| 0 <= i < index ==> packed@[i] == packed565(self.argb8888@[i]),
            {
                let pixel = self.argb8888[index];
                let r = (pixel / 65536 % 256 / 8) as u16;
                let g = (pixel / 256 % 256 / 4) as u16;
                let b = (pixel % 256 / 8) as u16;
                packed.push(r * 2048 + g * 32 + b);
            }
            assert(packed@ =~= picture565(self.argb8888@));
            self.rgb565 = packed;
        }
        self.rgb565.as_slice()
    }
}

/// A 16-bit pixel holds the top five bits of red, the top six of green and the top
/// five of blue, in this order from the top; alpha plays no part. So it shows each
/// channel in as many steps as it has bits for.
pub proof fn lemma_565_keeps_the_top_bits(pixel: u32)
    ensures
        ({
            let q = packed565(pixel);
            &&& (q >> 11) as u32 == (pixel >> 19) & 31
            &&& ((q >> 5) & 63) as u32 == (pixel >> 10) & 63
            &&& (q & 31) as u32 == (pixel >> 3) & 31
        }),
{
    let r = (pixel / 65536 % 256 / 8) as u16;
    let g = (pixel / 256 % 256 / 4) as u16;
    let b = (pixel % 256 / 8) as u16;
    let q = packed565(pixel);
    assert(pixel / 65536 % 256 / 8 == (pixel >> 19) & 31) by (bit_vector);
    assert(pixel / 256 % 256 / 4 == (pixel >> 10) & 63) by (bit_vector);
    assert(pixel % 256 / 8 == (pixel >> 3) & 31) by (bit_vector);
    assert(q == r * 2048 + g * 32 + b);
    assert((q >> 11) == r && ((q >> 5) & 63) == g && (q & 31) == b) by (bit_vector)
        requires
            q == r * 2048 + g * 32 + b,
            r < 32,
            g < 64,
            b < 32,
    ;
}

/// Two pixels have the same 16-bit form just where they agree in the top five bits of
/// red, the top six of green and the top five of blue.
pub proof fn lemma_565_tells_colors_apart(one: u32, other: u32)
    ensures
        packed565(one) == packed565(other) <==> {
            &&& (one >> 19) & 31 == (other >> 19) & 31
            &&& (one >> 10) & 63 == (other >> 10) & 63
            &&& (one >> 3) & 31 == (other >> 3) & 31
        },
{
    lemma_565_keeps_the_top_bits(one);
    lemma_565_keeps_the_top_bits(other);
    let p = packed565(one);
    let q = packed565(other);
    assert((p >> 11) == (q >> 11) && ((p >> 5) & 63) == ((q >> 5) & 63) && (p & 31) == (q & 31)
        ==> p == q) by (bit_vector);
}

/// The 16-bit form of a picture has a pixel for every pixel, at the same place, made
/// of that one alone.
pub proof fn lemma_565_goes_pixel_by_pixel(pixels: Seq<u32>, i: int)
    requires
        0 <= i < pixels.len(),
    ensures
        picture565(pixels).len() == pixels.len(),
        ({
            let q = picture565(pixels)[i];
            &&& (q >> 11) as u32 == (pixels[i] >> 19) & 31
            &&& ((q >> 5) & 63) as u32 == (pixels[i] >> 10) & 63
            &&& (q & 31) as u32 == (pixels[i] >> 3) & 31
        }),
{
    lemma_565_keeps_the_top_bits(pixels[i]);
}

} // verus!
