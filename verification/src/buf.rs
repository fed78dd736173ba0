//! The output pixel buffer and colour quantisation.

use vstd::prelude::*;

verus! {

use crate::fixed::{
    floor_div, sqrt_floor, lemma_sqrt_floor, lemma_mul_bound, div_floor_i128, isqrt_u128, SCALE,
};
use crate::utility::{IMAGE_HEIGHT, IMAGE_WIDTH};
use crate::vec3::Vec3;
use vstd::arithmetic::div_mod::{lemma_div_is_ordered, lemma_div_pos_is_pos};

/// A row-major RGB byte buffer.
pub struct Buf {
    pub data: Vec<u8>,
    pub width: u32,
    pub height: u32,
}

/// The buffer's storage matches its dimensions, which are small enough for
/// all index arithmetic to stay exact.
pub open spec fn wf_buf(b: Buf) -> bool {
    &&& b.data@.len() == 3 * b.width * b.height
    &&& 0 < b.width <= 4096
    &&& 0 < b.height <= 4096
}

/// The byte index of pixel `(x, y)`'s first channel.
pub open spec fn pix_index(b: Buf, x: u32, y: u32) -> int {
    3 * (x + y * b.width)
}

/// One channel quantised to a byte: the accumulated value is averaged over
/// the samples, gamma-corrected by a square root, clamped to `[0, 0.999]` and
/// scaled to eight bits.
pub open spec fn quantize_spec(c: int, samples: int) -> u8 {
    let avg = floor_div(c, samples);
    let g = sqrt_floor(avg * SCALE);
    let cl = if g > 65470 {
        65470
    } else {
        g
    };
    floor_div(cl * 256, SCALE as int) as u8
}

/// Quantise one accumulated channel.
pub(crate) fn quantize(c: i64, samples: u32) -> (r: u8)
    requires
        0 < samples <= 1048576,
        0 <= c <= samples * SCALE,
    ensures
        r == quantize_spec(c as int, samples as int),
{
    proof {
        lemma_div_pos_is_pos(c as int, samples as int);
        lemma_div_is_ordered(c as int, (samples as int) * SCALE, samples as int);
        vstd::arithmetic::div_mod::lemma_div_multiples_vanish(SCALE as int, samples as int);
        assert((samples as int) * SCALE == SCALE * (samples as int)) by (nonlinear_arith);
    }
    let avg = div_floor_i128(c as i128, samples as i128) as i64;
    proof {
        lemma_mul_bound(avg as int, SCALE as int, SCALE as int, SCALE as int);
        assert(avg * SCALE >= 0) by (nonlinear_arith)
            requires avg >= 0;
    }
    let gs = isqrt_u128((avg as i128 * SCALE as i128) as u128);
    proof {
        lemma_sqrt_floor(avg * SCALE);
        if sqrt_floor(avg * SCALE) > SCALE {
            assert(sqrt_floor(avg * SCALE) * sqrt_floor(avg * SCALE) > 65536int * 65536)
                by (nonlinear_arith)
                requires sqrt_floor(avg * SCALE) > 65536;
        }
    }
    let g = gs as i64;
    let cl: i64 = if g > 65470 {
        65470
    } else {
        g
    };
    proof {
        lemma_mul_bound(cl as int, 256, 65470, 256);
        assert(cl * 256 >= 0) by (nonlinear_arith)
            requires cl >= 0;
        lemma_div_pos_is_pos(cl * 256, SCALE as int);
        lemma_div_is_ordered(cl * 256, 65470int * 256, SCALE as int);
    }
    div_floor_i128((cl as i128) * 256, SCALE as i128) as u8
}

impl Buf {
    /// A black buffer of the default dimensions.
    pub fn default() -> (r: Buf)
        ensures
            r.width == IMAGE_WIDTH,
            r.height == IMAGE_HEIGHT,
            wf_buf(r),
            forall|i: int| 0 <= i < r.data@.len() ==> r.data@[i] == 0u8,
    {
        let data = vec![0u8; (IMAGE_WIDTH * IMAGE_HEIGHT * 3) as usize];
        Buf { data, width: IMAGE_WIDTH, height: IMAGE_HEIGHT }
    }

    /// A black buffer of the given dimensions.
    pub fn with_size(width: u32, height: u32) -> (r: Buf)
        requires
            0 < width <= 4096,
            0 < height <= 4096,
        ensures
            r.width == width,
            r.height == height,
            wf_buf(r),
            forall|i: int| 0 <= i < r.data@.len() ==> r.data@[i] == 0u8,
    {
        proof {
            assert(3 * (width as int) * (height as int) <= 50331648) by (nonlinear_arith)
                requires 0 < width <= 4096 && 0 < height <= 4096;
        }
        let data = vec![0u8; 3 * (width as usize) * (height as usize)];
        Buf { data, width, height }
    }

    /// Quantise an accumulated colour and store it at pixel `(x, y)`: the
    /// three bytes of that pixel change to the quantised channels and every
    /// other byte keeps its value.
    pub fn write_color(&mut self, x: u32, y: u32, color: Vec3, samples: u32)
        requires
            wf_buf(*old(self)),
            x < old(self).width,
            y < old(self).height,
            0 < samples <= 1048576,
            0 <= color.x <= samples * SCALE,
            0 <= color.y <= samples * SCALE,
            0 <= color.z <= samples * SCALE,
        ensures
            wf_buf(*final(self)),
            final(self).width == old(self).width,
            final(self).height == old(self).height,
            final(self).data@ == old(self).data@.update(pix_index(*old(self), x, y),
                quantize_spec(color.x as int, samples as int)).update(
                pix_index(*old(self), x, y) + 1,
                quantize_spec(color.y as int, samples as int),
            ).update(pix_index(*old(self), x, y) + 2, quantize_spec(color.z as int,
                samples as int)),
    {
        let r = quantize(color.x, samples);
        let g = quantize(color.y, samples);
        let b = quantize(color.z, samples);
        proof {
            lemma_pix_index_ok(x as int, y as int, self.width as int, self.height as int);
        }
        let index = ((x + y * self.width) * 3) as usize;
        self.data[index] = r;
        self.data[index + 1] = g;
        self.data[index + 2] = b;
    }
}

/// A pixel's three bytes lie inside the buffer.
proof fn lemma_pix_index_ok(x: int, y: int, w: int, h: int)
    requires
        0 <= x < w,
        0 <= y < h,
        0 < w <= 4096,
        0 < h <= 4096,
    ensures
        0 <= 3 * (x + y * w),
        3 * (x + y * w) + 2 < 3 * w * h,
        x + y * w < 16777216,
{
    assert(0 <= y * w && x + y * w <= w * h - 1 && 3 * (x + y * w) + 2 < 3 * w * h && x + y * w
        < 16777216) by (nonlinear_arith)
        requires 0 <= x < w && 0 <= y < h && 0 < w <= 4096 && 0 < h <= 4096;
}

} // verus!
