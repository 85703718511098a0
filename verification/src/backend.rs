//! What the stages leave to a compute backend.

use vstd::prelude::*;

use crate::arith::Sample;
use crate::bits::{Double, Single};
use crate::image::ImageBuf;
use crate::resident::ChainInputs;
use crate::spectral::ColorSpace;
use crate::spectral_service::TcLut;

verus! {

/// The sides of an image can be counted through in either direction.
pub open spec fn addressable<T>(img: ImageBuf<T>) -> bool {
    img.width <= isize::MAX && img.height <= isize::MAX
}

/// The table can be read: it has three channels, and cells.
pub open spec fn usable(lut: TcLut) -> bool {
    lut.valid() && lut.channels == 3 && 2 <= lut.size <= isize::MAX / 2
}

/// The table can be read.
pub fn is_usable(lut: &TcLut) -> (r: bool)
    ensures
        r == usable(*lut),
{
    if lut.channels != 3 || lut.size < 2 || lut.size > isize::MAX as usize / 2 {
        return false;
    }
    let rows: Option<usize> = lut.size.checked_mul(lut.size);
    match rows {
        None => {
            assert(lut.size * lut.size * 3 > usize::MAX);
            assert(lut.data@.len() <= usize::MAX) by {
                let len: usize = lut.data.len();
                assert(len == lut.data@.len());
            }
            false
        },
        Some(n) => n <= usize::MAX / 3 && lut.data.len() == n * 3,
    }
}

/// Operations on whole images. Each gives an image of the size of the one it
/// is handed.
pub trait ComputeBackend<T: Sample> {
    /// Blurs by a width in pixels.
    fn gaussian_blur(&self, img: &ImageBuf<T>, sigma: Single) -> (r: ImageBuf<T>)
        requires
            img.valid(),
            addressable(*img),
        ensures
            r.width == img.width,
            r.height == img.height,
            r.valid(),
    ;

    /// RGB to film exposure.
    fn hanatos2025_rgb_to_raw(
        &self,
        img: &ImageBuf<T>,
        tc_lut: &TcLut,
        space: ColorSpace,
        illuminant: &[Single],
    ) -> (r: ImageBuf<T>)
        requires
            img.valid(),
            usable(*tc_lut),
        ensures
            r.width == img.width,
            r.height == img.height,
            r.valid(),
    ;

    /// Log exposure to density.
    fn density_curve_interp(
        &self,
        log_raw: &ImageBuf<T>,
        log_exposure: &[Double],
        density_curves: &[[Double; 3]],
        gamma: Double,
    ) -> (r: ImageBuf<T>)
        requires
            log_raw.valid(),
            log_exposure@.len() == density_curves@.len(),
            log_exposure@.len() > 0,
        ensures
            r.width == log_raw.width,
            r.height == log_raw.height,
            r.valid(),
    ;

    /// Film density to the log exposure of the print.
    fn print_spectral(
        &self,
        density: &ImageBuf<T>,
        channel_density: &[[Double; 3]],
        base_density: &[Double],
        illuminant: &[Double],
        sensitivity: &[[Double; 3]],
        factor: Double,
    ) -> (r: ImageBuf<T>)
        requires
            density.valid(),
        ensures
            r.width == density.width,
            r.height == density.height,
            r.valid(),
    ;

    /// Density to RGB: XYZ under the illuminant, adapted by `cat`.
    fn scan_spectral(
        &self,
        density: &ImageBuf<T>,
        channel_density: &[[Double; 3]],
        base_density: &[Double],
        illuminant: &[Double],
        normalization: Double,
        cat: &[[Double; 3]; 3],
        xyz_to_rgb: &[[Double; 3]; 3],
    ) -> (r: ImageBuf<T>)
        requires
            density.valid(),
        ensures
            r.width == density.width,
            r.height == density.height,
            r.valid(),
    ;

    /// A whole render that stays on the GPU, where the backend has one.
    fn try_run_film_chain(
        &self,
        image: &ImageBuf<T>,
        tc_lut: &TcLut,
        inputs: &ChainInputs,
    ) -> (r: Option<ImageBuf<T>>)
        requires
            image.valid(),
        ensures
            r matches Some(v) ==> v.width == image.width && v.height == image.height && v.valid(),
    ;
}

/// Blurs an image by each of several widths.
pub fn gaussian_blur_multi<T: Sample, B: ComputeBackend<T>>(
    backend: &B,
    img: &ImageBuf<T>,
    sigmas: &[Single],
) -> (r: Vec<ImageBuf<T>>)
    requires
        img.valid(),
        addressable(*img),
    ensures
        r@.len() == sigmas@.len(),
        forall|i: int|
            0 <= i < sigmas@.len() ==> call_ensures(
                B::gaussian_blur,
                (backend, img, sigmas@[i]),
                #[trigger] r@[i],
            ),
{
    let mut r: Vec<ImageBuf<T>> = Vec::new();
    let mut k: usize = 0;
    while k < sigmas.len()
        invariant
            k <= sigmas@.len(),
            img.valid(),
            addressable(*img),
            r@.len() == k,
            forall|i: int|
                0 <= i < k ==> call_ensures(
                    B::gaussian_blur,
                    (backend, img, sigmas@[i]),
                    #[trigger] r@[i],
                ),
        decreases sigmas.len() - k,
    {
        let blurred = backend.gaussian_blur(img, sigmas[k]);
        r.push(blurred);
        k += 1;
    }
    r
}

} // verus!
