//! Images of three interleaved channels.

use vstd::prelude::*;
use vstd::string::*;

use crate::index::{lemma_row_major_bound, lemma_row_major_injective};
use crate::text::{decimal, push_decimal};

verus! {

/// An image, row by row, each pixel three numbers next to each other.
#[derive(Clone)]
pub struct ImageBuf<T> {
    pub width: u32,
    pub height: u32,
    pub data: Vec<T>,
}

/// Position of channel `c` of the pixel in column `x` of row `y`.
pub open spec fn pixel_index(width: int, x: int, y: int, c: int) -> int {
    (y * width + x) * 3 + c
}

/// Pixels of an image.
pub open spec fn pixels_of(width: u32, height: u32) -> int {
    width * height
}

/// The numbers of one channel of interleaved data.
pub open spec fn channel_of<T>(data: Seq<T>, c: int) -> Seq<T> {
    Seq::new((data.len() / 3) as nat, |k: int| data[3 * k + c])
}

impl<T> ImageBuf<T> {
    /// The data holds three numbers for every pixel.
    pub open spec fn valid(&self) -> bool {
        self.data@.len() == pixels_of(self.width, self.height) * 3
    }

    /// Channel `c` of a pixel.
    pub open spec fn at(&self, x: int, y: int, c: int) -> T {
        self.data@[pixel_index(self.width as int, x, y, c)]
    }
}

/// A pixel of the image has its three numbers inside the data.
pub proof fn lemma_pixel_in_bounds(width: u32, height: u32, x: int, y: int)
    requires
        0 <= x < width,
        0 <= y < height,
    ensures
        0 <= pixel_index(width as int, x, y, 0),
        pixel_index(width as int, x, y, 2) < pixels_of(width, height) * 3,
{
    lemma_row_major_bound(y, height as int, x, width as int);
    assert(width * height == height * width) by (nonlinear_arith);
}

/// Different pixels or channels are kept at different positions.
pub proof fn lemma_pixel_injective(
    width: u32,
    x: int,
    y: int,
    c: int,
    x2: int,
    y2: int,
    c2: int,
)
    requires
        0 <= x < width,
        0 <= x2 < width,
        0 <= c < 3,
        0 <= c2 < 3,
        pixel_index(width as int, x, y, c) == pixel_index(width as int, x2, y2, c2),
    ensures
        x == x2,
        y == y2,
        c == c2,
{
    lemma_row_major_injective(y * width + x, c, y2 * width + x2, c2, 3);
    lemma_row_major_injective(y, x, y2, x2, width as int);
}

impl<T: Copy> ImageBuf<T> {
    /// An image of one repeated number.
    pub fn filled(width: u32, height: u32, value: T) -> (r: ImageBuf<T>)
        requires
            pixels_of(width, height) * 3 <= usize::MAX,
        ensures
            r.width == width,
            r.height == height,
            r.valid(),
            forall|i: int| 0 <= i < r.data@.len() ==> #[trigger] r.data@[i] == value,
    {
        assert(0 <= width * height) by (nonlinear_arith);
        let n: usize = (width as usize) * (height as usize) * 3;
        let mut data: Vec<T> = Vec::new();
        let mut i: usize = 0;
        while i < n
            invariant
                i <= n,
                data@.len() == i,
                forall|k: int| 0 <= k < i ==> #[trigger] data@[k] == value,
            decreases n - i,
        {
            data.push(value);
            i += 1;
        }
        ImageBuf { width, height, data }
    }

    /// An image of the type's default number.
    pub fn new(width: u32, height: u32) -> (r: ImageBuf<T>) where T: Default
        requires
            pixels_of(width, height) * 3 <= usize::MAX,
            call_requires(T::default, ()),
        ensures
            r.width == width,
            r.height == height,
            r.valid(),
            exists|zero: T|
                call_ensures(T::default, (), zero) && forall|i: int|
                    0 <= i < r.data@.len() ==> #[trigger] r.data@[i] == zero,
    {
        let zero = T::default();
        ImageBuf::filled(width, height, zero)
    }

    /// An image of the given numbers.
    pub fn from_data(width: u32, height: u32, data: Vec<T>) -> (r: ImageBuf<T>)
        requires
            data@.len() == pixels_of(width, height) * 3,
        ensures
            r.width == width,
            r.height == height,
            r.data == data,
            r.valid(),
    {
        ImageBuf { width, height, data }
    }

    pub fn pixel_count(&self) -> (r: usize)
        requires
            pixels_of(self.width, self.height) <= usize::MAX,
        ensures
            r == pixels_of(self.width, self.height),
    {
        assert(0 <= self.width * self.height) by (nonlinear_arith);
        (self.width as usize) * (self.height as usize)
    }

    /// Position of channel `c` of a pixel.
    pub fn idx(&self, x: u32, y: u32, c: usize) -> (r: usize)
        requires
            pixel_index(self.width as int, x as int, y as int, c as int) <= usize::MAX,
        ensures
            r == pixel_index(self.width as int, x as int, y as int, c as int),
    {
        assert(0 <= y * self.width) by (nonlinear_arith);
        ((y as usize) * (self.width as usize) + (x as usize)) * 3 + c
    }

    /// The three numbers of a pixel.
    pub fn get(&self, x: u32, y: u32) -> (r: [T; 3])
        requires
            pixel_index(self.width as int, x as int, y as int, 2) < self.data@.len(),
        ensures
            forall|c: int|
                0 <= c < 3 ==> #[trigger] r@[c] == self.at(x as int, y as int, c),
    {
        assert(0 <= y * self.width) by (nonlinear_arith);
        let total: usize = self.data.len();
        assert(total == self.data@.len());
        let i: usize = self.idx(x, y, 0);
        [self.data[i], self.data[i + 1], self.data[i + 2]]
    }

    /// Replaces the three numbers of a pixel.
    pub fn set(&mut self, x: u32, y: u32, rgb: [T; 3])
        requires
            pixel_index(old(self).width as int, x as int, y as int, 2) < old(self).data@.len(),
        ensures
            final(self).width == old(self).width,
            final(self).height == old(self).height,
            final(self).data@.len() == old(self).data@.len(),
            forall|c: int|
                0 <= c < 3 ==> final(self).at(x as int, y as int, c) == #[trigger] rgb@[c],
            forall|i: int|
                0 <= i < final(self).data@.len() && !(pixel_index(
                    old(self).width as int,
                    x as int,
                    y as int,
                    0,
                ) <= i <= pixel_index(old(self).width as int, x as int, y as int, 2))
                    ==> #[trigger] final(self).data@[i] == old(self).data@[i],
    {
        assert(0 <= y * self.width) by (nonlinear_arith);
        let total: usize = self.data.len();
        assert(total == self.data@.len());
        let i: usize = self.idx(x, y, 0);
        self.data.set(i, rgb[0]);
        self.data.set(i + 1, rgb[1]);
        self.data.set(i + 2, rgb[2]);
    }

    /// The pixels, row by row.
    pub fn pixels(&self) -> (r: Vec<[T; 3]>)
        ensures
            r@.len() == self.data@.len() / 3,
            forall|k: int, c: int|
                0 <= k < r@.len() && 0 <= c < 3 ==> #[trigger] r@[k]@[c] == self.data@[3 * k + c],
    {
        let total: usize = self.data.len();
        let n: usize = total / 3;
        let mut r: Vec<[T; 3]> = Vec::new();
        let mut k: usize = 0;
        while k < n
            invariant
                k <= n,
                total == self.data@.len(),
                n == total / 3,
                r@.len() == k,
                forall|j: int, c: int|
                    0 <= j < k && 0 <= c < 3 ==> #[trigger] r@[j]@[c] == self.data@[3 * j + c],
            decreases n - k,
        {
            r.push([self.data[3 * k], self.data[3 * k + 1], self.data[3 * k + 2]]);
            k += 1;
        }
        r
    }

    /// The rows, from the top, each three numbers per pixel.
    pub fn rows(&self) -> (r: Vec<Vec<T>>)
        requires
            self.valid(),
            self.width > 0,
        ensures
            r@.len() == self.height,
            forall|y: int|
                0 <= y < self.height ==> #[trigger] r@[y]@ == self.data@.subrange(
                    y * (self.width * 3),
                    (y + 1) * (self.width * 3),
                ),
    {
        let mut r: Vec<Vec<T>> = Vec::new();
        if self.height == 0 {
            return r;
        }
        let total: usize = self.data.len();
        let mut y: u32 = 0;
        proof {
            self.lemma_rows_fit(0);
        }
        let len: usize = (self.width as usize) * 3;
        let mut start: usize = 0;
        while y < self.height
            invariant
                y <= self.height,
                self.valid(),
                total == self.data@.len(),
                len == self.width * 3,
                start == y * len,
                start <= total,
                r@.len() == y,
                forall|k: int|
                    0 <= k < y ==> #[trigger] r@[k]@ == self.data@.subrange(
                        k * (self.width * 3),
                        (k + 1) * (self.width * 3),
                    ),
            decreases self.height - y,
        {
            proof {
                self.lemma_rows_fit(y as int);
                assert((y + 1) * len == y * len + len) by (nonlinear_arith);
            }
            let mut row: Vec<T> = Vec::new();
            let mut i: usize = 0;
            while i < len
                invariant
                    i <= len,
                    total == self.data@.len(),
                    start + len <= total,
                    row@ == self.data@.subrange(start as int, start + i),
                decreases len - i,
            {
                row.push(self.data[start + i]);
                i += 1;
                assert(row@ =~= self.data@.subrange(start as int, start + i));
            }
            assert(row@ == self.data@.subrange(y * (self.width * 3), (y + 1) * (self.width * 3)));
            r.push(row);
            start = start + len;
            y += 1;
        }
        r
    }

    proof fn lemma_rows_fit(&self, y: int)
        requires
            self.valid(),
            0 <= y < self.height,
        ensures
            self.width * 3 <= self.data@.len(),
            (y + 1) * (self.width * 3) <= self.data@.len(),
    {
        let w = self.width as int;
        let h = self.height as int;
        assert((y + 1) * (w * 3) <= w * h * 3) by (nonlinear_arith)
            requires
                0 <= y < h,
                0 <= w,
        ;
        assert(w * 3 <= (y + 1) * (w * 3)) by (nonlinear_arith)
            requires
                0 <= y,
                0 <= w,
        ;
    }

    /// The numbers of one channel, pixel by pixel.
    pub fn extract_channel(&self, c: usize) -> (r: Vec<T>)
        requires
            self.valid(),
            c < 3,
        ensures
            r@.len() == pixels_of(self.width, self.height),
            forall|k: int| 0 <= k < r@.len() ==> #[trigger] r@[k] == self.data@[3 * k + c],
    {
        let total: usize = self.data.len();
        let n: usize = total / 3;
        let mut r: Vec<T> = Vec::new();
        let mut k: usize = 0;
        while k < n
            invariant
                k <= n,
                c < 3,
                total == self.data@.len(),
                3 * n == total,
                r@.len() == k,
                forall|j: int| 0 <= j < k ==> #[trigger] r@[j] == self.data@[3 * j + c],
            decreases n - k,
        {
            r.push(self.data[3 * k + c]);
            k += 1;
        }
        r
    }

    /// Replaces the numbers of one channel.
    pub fn write_channel(&mut self, c: usize, chan: &[T])
        requires
            old(self).valid(),
            c < 3,
            chan@.len() == pixels_of(old(self).width, old(self).height),
        ensures
            final(self).width == old(self).width,
            final(self).height == old(self).height,
            final(self).valid(),
            forall|k: int, d: int|
                0 <= k < chan@.len() && 0 <= d < 3 ==> #[trigger] final(self).data@[3 * k + d]
                    == if d == c {
                    chan@[k]
                } else {
                    old(self).data@[3 * k + d]
                },
    {
        let total: usize = self.data.len();
        let mut i: usize = 0;
        while i < chan.len()
            invariant
                i <= chan@.len(),
                c < 3,
                total == self.data@.len(),
                self.width == old(self).width,
                self.height == old(self).height,
                self.data@.len() == 3 * chan@.len(),
                old(self).data@.len() == self.data@.len(),
                forall|k: int, d: int|
                    0 <= k < chan@.len() && 0 <= d < 3 ==> #[trigger] self.data@[3 * k + d]
                        == if d == c && k < i {
                        chan@[k]
                    } else {
                        old(self).data@[3 * k + d]
                    },
            decreases chan.len() - i,
        {
            self.data.set(i * 3 + c, chan[i]);
            i += 1;
        }
    }

    /// An image of three channels.
    pub fn from_channels(width: u32, height: u32, c0: &[T], c1: &[T], c2: &[T]) -> (r: ImageBuf<T>)
        requires
            c0@.len() == pixels_of(width, height),
            c1@.len() == c0@.len(),
            c2@.len() == c0@.len(),
        ensures
            r.width == width,
            r.height == height,
            r.valid(),
            channel_of(r.data@, 0) == c0@,
            channel_of(r.data@, 1) == c1@,
            channel_of(r.data@, 2) == c2@,
    {
        let mut data: Vec<T> = Vec::new();
        let mut k: usize = 0;
        while k < c0.len()
            invariant
                k <= c0@.len(),
                c1@.len() == c0@.len(),
                c2@.len() == c0@.len(),
                data@.len() == 3 * k,
                forall|j: int|
                    0 <= j < k ==> data@[3 * j] == #[trigger] c0@[j] && data@[3 * j + 1] == c1@[j]
                        && data@[3 * j + 2] == c2@[j],
            decreases c0.len() - k,
        {
            let ghost before = data@;
            data.push(c0[k]);
            data.push(c1[k]);
            data.push(c2[k]);
            proof {
                assert forall|j: int| 0 <= j < k + 1 implies data@[3 * j] == #[trigger] c0@[j]
                    && data@[3 * j + 1] == c1@[j] && data@[3 * j + 2] == c2@[j] by {
                    if j < k {
                        assert(before[3 * j] == c0@[j]);
                    }
                }
            }
            k += 1;
        }
        proof {
            assert forall|j: int| 0 <= j < c0@.len() implies channel_of(data@, 0)[j] == c0@[j]
                && channel_of(data@, 1)[j] == c1@[j] && channel_of(data@, 2)[j] == c2@[j] by {
                assert(data@[3 * j] == c0@[j]);
            }
            assert(channel_of(data@, 0) =~= c0@);
            assert(channel_of(data@, 1) =~= c1@);
            assert(channel_of(data@, 2) =~= c2@);
        }
        ImageBuf { width, height, data }
    }

    /// An image of the given pixels.
    pub fn from_pixels(width: u32, height: u32, pixels: &[[T; 3]]) -> (r: ImageBuf<T>)
        requires
            pixels@.len() == pixels_of(width, height),
        ensures
            r.width == width,
            r.height == height,
            r.valid(),
            forall|k: int|
                0 <= k < pixels@.len() ==> r.data@[3 * k] == (#[trigger] pixels@[k])@[0]
                    && r.data@[3 * k + 1] == pixels@[k]@[1] && r.data@[3 * k + 2]
                    == pixels@[k]@[2],
    {
        let mut data: Vec<T> = Vec::new();
        let mut k: usize = 0;
        while k < pixels.len()
            invariant
                k <= pixels@.len(),
                data@.len() == 3 * k,
                forall|j: int|
                    0 <= j < k ==> data@[3 * j] == (#[trigger] pixels@[j])@[0] && data@[3 * j + 1]
                        == pixels@[j]@[1] && data@[3 * j + 2] == pixels@[j]@[2],
            decreases pixels.len() - k,
        {
            let px = pixels[k];
            data.push(px[0]);
            data.push(px[1]);
            data.push(px[2]);
            k += 1;
        }
        ImageBuf { width, height, data }
    }

    /// A one-line description.
    pub fn describe(&self) -> (r: String)
        requires
            pixels_of(self.width, self.height) <= u64::MAX,
        ensures
            r@ == "ImageBuf("@ + decimal(self.width as nat) + "x"@ + decimal(self.height as nat)
                + ", "@ + decimal(pixels_of(self.width, self.height) as nat) + " pixels)"@,
    {
        assert(0 <= self.width * self.height) by (nonlinear_arith);
        let n: u64 = (self.width as u64) * (self.height as u64);
        let mut r = String::new();
        r.append("ImageBuf(");
        assert(r@ =~= "ImageBuf("@);
        push_decimal(&mut r, self.width as u64);
        r.append("x");
        push_decimal(&mut r, self.height as u64);
        r.append(", ");
        push_decimal(&mut r, n);
        r.append(" pixels)");
        r
    }
}

/// What a channel write stored, a channel read gives back, and the other
/// channels read as before.
pub proof fn lemma_channel_round_trip<T>(
    before: Seq<T>,
    written: Seq<T>,
    c: int,
    chan: Seq<T>,
    d: int,
    k: int,
)
    requires
        0 <= c < 3,
        0 <= d < 3,
        before.len() == 3 * chan.len(),
        written.len() == before.len(),
        forall|j: int, e: int|
            0 <= j < chan.len() && 0 <= e < 3 ==> #[trigger] written[3 * j + e] == if e == c {
                chan[j]
            } else {
                before[3 * j + e]
            },
        0 <= k < chan.len(),
    ensures
        written[3 * k + c] == chan[k],
        d != c ==> written[3 * k + d] == before[3 * k + d],
{
}

} // verus!
