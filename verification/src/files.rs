//! Image files: the format that a file name stands for, and the numbers that
//! go in and out.

use vstd::prelude::*;

use crate::arith::{evaluates, is_double, is_single, narrow, over, rounds_to, single, times};
use crate::arith::{Arithmetic, Formula, Rounding, Sample, Traced};
use crate::bits::{Double, Single};
use crate::colorspace::{srgb_decode, srgb_decoded};
use crate::image::{pixels_of, ImageBuf};
use crate::interp::{num, SINGLE_ONE};
use crate::params::IoParams;
use crate::scanning::{unit, unit_of};
use crate::text::{join3, lowercase, lowercase_of, same};
use vstd::bytes::{spec_u64_to_le_bytes, u64_to_le_bytes};

verus! {

// ── Formats ──────────────────────────────────────────────────────────────

/// How an image file is read.
#[derive(Clone, Copy, Debug, PartialEq, Eq, Structural)]
pub enum InputFormat {
    Tiff,
    Exr,
    Png,
    Raw,
}

/// How an image file is written.
#[derive(Clone, Copy, Debug, PartialEq, Eq, Structural)]
pub enum OutputFormat {
    Tiff,
    Png,
    Jpeg,
}

/// An extension of a camera's raw files, in lower case.
pub open spec fn raw_extension(ext: Seq<char>) -> bool {
    ||| ext == "dng"@
    ||| ext == "cr2"@
    ||| ext == "cr3"@
    ||| ext == "nef"@
    ||| ext == "nrw"@
    ||| ext == "arw"@
    ||| ext == "srf"@
    ||| ext == "sr2"@
    ||| ext == "raf"@
    ||| ext == "orf"@
    ||| ext == "rw2"@
    ||| ext == "pef"@
    ||| ext == "ptx"@
    ||| ext == "srw"@
    ||| ext == "x3f"@
    ||| ext == "iiq"@
    ||| ext == "3fr"@
    ||| ext == "ari"@
    ||| ext == "bay"@
    ||| ext == "crw"@
    ||| ext == "dcr"@
    ||| ext == "drf"@
    ||| ext == "erf"@
    ||| ext == "fff"@
    ||| ext == "k25"@
    ||| ext == "kdc"@
    ||| ext == "mef"@
    ||| ext == "mos"@
    ||| ext == "mrw"@
    ||| ext == "rwl"@
}

/// An extension, in lower case, is one of a camera's raw files.
pub fn is_raw_extension(ext: &str) -> (r: bool)
    ensures
        r == raw_extension(ext@),
{
    same(ext, "dng") || same(ext, "cr2") || same(ext, "cr3") || same(ext, "nef") || same(ext, "nrw") || same(ext, "arw") || same(ext, "srf") || same(ext, "sr2") || same(ext, "raf") ||
        same(ext, "orf") || same(ext, "rw2") || same(ext, "pef") || same(ext, "ptx") || same(ext, "srw") || same(ext, "x3f") || same(ext, "iiq") || same(ext, "3fr") || same(ext, "ari") ||
        same(ext, "bay") || same(ext, "crw") || same(ext, "dcr") || same(ext, "drf") || same(ext, "erf") || same(ext, "fff") || same(ext, "k25") || same(ext, "kdc") || same(ext, "mef") ||
        same(ext, "mos") || same(ext, "mrw") || same(ext, "rwl")
}

/// The format that an extension in lower case is read as.
pub open spec fn format_read(ext: Seq<char>) -> Option<InputFormat> {
    if ext == "tif"@ || ext == "tiff"@ {
        Some(InputFormat::Tiff)
    } else if ext == "exr"@ {
        Some(InputFormat::Exr)
    } else if ext == "png"@ {
        Some(InputFormat::Png)
    } else if raw_extension(ext) {
        Some(InputFormat::Raw)
    } else {
        None
    }
}

/// The format that an extension in lower case is read as.
pub fn input_format_of(ext: &str) -> (r: Option<InputFormat>)
    ensures
        r == format_read(ext@),
{
    if same(ext, "tif") || same(ext, "tiff") {
        Some(InputFormat::Tiff)
    } else if same(ext, "exr") {
        Some(InputFormat::Exr)
    } else if same(ext, "png") {
        Some(InputFormat::Png)
    } else if is_raw_extension(ext) {
        Some(InputFormat::Raw)
    } else {
        None
    }
}

/// The format that a file with this extension is read as, or a message where
/// there is none.
pub fn input_format(ext: &str) -> (r: Result<InputFormat, String>)
    ensures
        match format_read(lowercase(ext@)) {
            Some(f) => r matches Ok(g) && f == g,
            None => r matches Err(m) && m@ == "unsupported image format: ."@ + lowercase(ext@)
                + " (supported: tiff, png, raw)"@,
        },
{
    let lower = lowercase_of(ext);
    match input_format_of(lower.as_str()) {
        Some(f) => Ok(f),
        None => Err(
            join3(
                "unsupported image format: .",
                lower.as_str(),
                " (supported: tiff, png, raw)",
            ),
        ),
    }
}

/// The format that an extension in lower case is written as.
pub open spec fn format_written(ext: Seq<char>) -> Option<OutputFormat> {
    if ext == "tif"@ || ext == "tiff"@ {
        Some(OutputFormat::Tiff)
    } else if ext == "png"@ {
        Some(OutputFormat::Png)
    } else if ext == "jpg"@ || ext == "jpeg"@ {
        Some(OutputFormat::Jpeg)
    } else {
        None
    }
}

/// The format that an extension in lower case is written as.
pub fn output_format_of(ext: &str) -> (r: Option<OutputFormat>)
    ensures
        r == format_written(ext@),
{
    if same(ext, "tif") || same(ext, "tiff") {
        Some(OutputFormat::Tiff)
    } else if same(ext, "png") {
        Some(OutputFormat::Png)
    } else if same(ext, "jpg") || same(ext, "jpeg") {
        Some(OutputFormat::Jpeg)
    } else {
        None
    }
}

/// The format that a file with this extension is written as, or a message
/// where there is none.
pub fn output_format(ext: &str) -> (r: Result<OutputFormat, String>)
    ensures
        match format_written(lowercase(ext@)) {
            Some(f) => r matches Ok(g) && f == g,
            None => r matches Err(m) && m@ == "unsupported output format: ."@ + lowercase(ext@)
                + " (supported: tiff, png, jpg)"@,
        },
{
    let lower = lowercase_of(ext);
    match output_format_of(lower.as_str()) {
        Some(f) => Ok(f),
        None => Err(
            join3(
                "unsupported output format: .",
                lower.as_str(),
                " (supported: tiff, png, jpg)",
            ),
        ),
    }
}

/// The format in which a preview with an extension in lower case is saved.
pub open spec fn preview_written(ext: Seq<char>) -> OutputFormat {
    if ext == "tif"@ || ext == "tiff"@ {
        OutputFormat::Tiff
    } else {
        OutputFormat::Png
    }
}

/// The format in which a preview with an extension in lower case is saved.
pub fn preview_format_of(ext: &str) -> (r: OutputFormat)
    ensures
        r == preview_written(ext@),
{
    if same(ext, "tif") || same(ext, "tiff") {
        OutputFormat::Tiff
    } else {
        OutputFormat::Png
    }
}

/// The format in which a preview with this extension is saved.
pub fn preview_format(ext: &str) -> (r: OutputFormat)
    ensures
        r == preview_written(lowercase(ext@)),
{
    let lower = lowercase_of(ext);
    preview_format_of(lower.as_str())
}

/// Files of these extensions, in lower case, give linear sRGB when they are
/// read.
pub open spec fn gives_linear_srgb(ext: Seq<char>) -> bool {
    ext == "png"@ || raw_extension(ext)
}

/// The input parameters after a file with an extension in lower case.
pub open spec fn set_for_input(before: IoParams, ext: Seq<char>, after: IoParams) -> bool {
    &&& after.output_color_space == before.output_color_space
    &&& after.output_cctf_encoding == before.output_cctf_encoding
    &&& after.crop == before.crop
    &&& after.crop_center == before.crop_center
    &&& after.crop_size == before.crop_size
    &&& after.upscale_factor == before.upscale_factor
    &&& after.scan_film == before.scan_film
    &&& if gives_linear_srgb(ext) {
        after.input_color_space@ == "sRGB"@ && !after.input_cctf_decoding
    } else {
        after.input_color_space == before.input_color_space && after.input_cctf_decoding
            == before.input_cctf_decoding
    }
}

/// Sets the input parameters for a file with an extension in lower case, so
/// that linear light is not decoded once more.
pub fn set_input_of(io: &mut IoParams, ext: &str)
    ensures
        set_for_input(*old(io), ext@, *final(io)),
{
    if same(ext, "png") || is_raw_extension(ext) {
        io.input_color_space = "sRGB".to_owned();
        io.input_cctf_decoding = false;
    }
}

/// Sets the input parameters for a file with this extension.
pub fn set_input(io: &mut IoParams, ext: &str)
    ensures
        set_for_input(*old(io), lowercase(ext@), *final(io)),
{
    let lower = lowercase_of(ext);
    set_input_of(io, lower.as_str());
}

// ── Levels of a file ─────────────────────────────────────────────────────

/// A whole number kept between 0 and `max`.
pub open spec fn kept_level(n: i64, max: int) -> int {
    if n < 0 {
        0
    } else if n > max {
        max
    } else {
        n as int
    }
}

/// `r` is a number between 0 and 1, on a scale up to `max`, as a level.
pub open spec fn is_level<T: Sample, A: Arithmetic>(
    ar: &A,
    how: Rounding,
    scale: T,
    max: int,
    v: T,
    r: int,
) -> bool {
    exists|x: T, n: i64|
        {
            &&& #[trigger] evaluates(ar, times(num(unit(v)), num(scale)), x.number())
            &&& #[trigger] rounds_to(ar, how, x.fetched(), n)
            &&& r == kept_level(n, max)
        }
}

fn level<T: Sample, A: Arithmetic>(ar: &A, how: Rounding, scale: T, max: u16, v: T) -> (r: u16)
    ensures
        is_level(ar, how, scale, max as int, v, r as int),
        r <= max,
{
    let inside: Traced<T> = Traced::new(ar, unit_of(v));
    let x = inside.times(ar, Traced::new(ar, scale)).value;
    assert(evaluates(ar, times(num(unit(v)), num(scale)), x.number()));
    let n: i64 = x.fetch(ar).rounded(ar, how);
    assert(rounds_to(ar, how, x.fetched(), n));
    if n < 0 {
        0
    } else if n > max as i64 {
        max
    } else {
        n as u16
    }
}

/// 255 in the precision of an image.
pub open spec fn scale_8<T: Sample>() -> T {
    T::literal_value(0x437f_0000, 0x406f_e000_0000_0000)
}

/// 65535 in the precision of an image.
pub open spec fn scale_16<T: Sample>() -> T {
    T::literal_value(0x477f_ff00, 0x40ef_ffe0_0000_0000)
}

/// The levels of a 16-bit file; halves go to the even level.
pub fn levels_16<T: Sample, A: Arithmetic>(ar: &A, data: &[T]) -> (r: Vec<u16>)
    ensures
        r@.len() == data@.len(),
        forall|i: int|
            0 <= i < r@.len() ==> is_level(
                ar,
                Rounding::NearestEven,
                scale_16::<T>(),
                65535,
                data@[i],
                (#[trigger] r@[i]) as int,
            ),
{
    let scale: T = T::literal(0x477f_ff00, 0x40ef_ffe0_0000_0000);
    let mut r: Vec<u16> = Vec::new();
    let mut i: usize = 0;
    while i < data.len()
        invariant
            i <= data@.len(),
            scale == scale_16::<T>(),
            r@.len() == i,
            forall|k: int|
                0 <= k < i ==> is_level(
                    ar,
                    Rounding::NearestEven,
                    scale_16::<T>(),
                    65535,
                    data@[k],
                    (#[trigger] r@[k]) as int,
                ),
        decreases data.len() - i,
    {
        r.push(level(ar, Rounding::NearestEven, scale, 65535, data[i]));
        i += 1;
    }
    r
}

/// The levels of an 8-bit file; halves go to the even level.
pub fn levels_8<T: Sample, A: Arithmetic>(ar: &A, data: &[T]) -> (r: Vec<u8>)
    ensures
        r@.len() == data@.len(),
        forall|i: int|
            0 <= i < r@.len() ==> is_level(
                ar,
                Rounding::NearestEven,
                scale_8::<T>(),
                255,
                data@[i],
                (#[trigger] r@[i]) as int,
            ),
{
    let scale: T = T::literal(0x437f_0000, 0x406f_e000_0000_0000);
    let mut r: Vec<u8> = Vec::new();
    let mut i: usize = 0;
    while i < data.len()
        invariant
            i <= data@.len(),
            scale == scale_8::<T>(),
            r@.len() == i,
            forall|k: int|
                0 <= k < i ==> is_level(
                    ar,
                    Rounding::NearestEven,
                    scale_8::<T>(),
                    255,
                    data@[k],
                    (#[trigger] r@[k]) as int,
                ),
        decreases data.len() - i,
    {
        let v: u16 = level(ar, Rounding::NearestEven, scale, 255, data[i]);
        r.push(v as u8);
        i += 1;
    }
    r
}

/// `r` is the level of a number in a preview: of it as a single, and with
/// halves upwards.
pub open spec fn is_preview_level<T: Sample, A: Arithmetic>(
    ar: &A,
    scale: Single,
    max: int,
    v: T,
    r: int,
) -> bool {
    exists|s: Single| #[trigger]
        is_single(ar, v.shortened(), s) && is_level(ar, Rounding::Nearest, scale, max, s, r)
}

fn preview_level<T: Sample, A: Arithmetic>(ar: &A, scale: Single, max: u16, v: T) -> (r: u16)
    ensures
        is_preview_level(ar, scale, max as int, v, r as int),
        r <= max,
{
    let s = v.shorten(ar).value;
    assert(is_single(ar, v.shortened(), s));
    level(ar, Rounding::Nearest, scale, max, s)
}

/// The levels of a preview saved with 16 bits.
pub fn preview_levels_16<T: Sample, A: Arithmetic>(ar: &A, data: &[T]) -> (r: Vec<u16>)
    ensures
        r@.len() == data@.len(),
        forall|i: int|
            0 <= i < r@.len() ==> is_preview_level(
                ar,
                scale_16::<Single>(),
                65535,
                data@[i],
                (#[trigger] r@[i]) as int,
            ),
{
    let scale: Single = Single::literal(0x477f_ff00, 0x40ef_ffe0_0000_0000);
    let mut r: Vec<u16> = Vec::new();
    let mut i: usize = 0;
    while i < data.len()
        invariant
            i <= data@.len(),
            scale == scale_16::<Single>(),
            r@.len() == i,
            forall|k: int|
                0 <= k < i ==> is_preview_level(
                    ar,
                    scale_16::<Single>(),
                    65535,
                    data@[k],
                    (#[trigger] r@[k]) as int,
                ),
        decreases data.len() - i,
    {
        r.push(preview_level(ar, scale, 65535, data[i]));
        i += 1;
    }
    r
}

/// The levels of a preview saved with 8 bits.
pub fn preview_levels_8<T: Sample, A: Arithmetic>(ar: &A, data: &[T]) -> (r: Vec<u8>)
    ensures
        r@.len() == data@.len(),
        forall|i: int|
            0 <= i < r@.len() ==> is_preview_level(
                ar,
                scale_8::<Single>(),
                255,
                data@[i],
                (#[trigger] r@[i]) as int,
            ),
{
    let scale: Single = Single::literal(0x437f_0000, 0x406f_e000_0000_0000);
    let mut r: Vec<u8> = Vec::new();
    let mut i: usize = 0;
    while i < data.len()
        invariant
            i <= data@.len(),
            scale == scale_8::<Single>(),
            r@.len() == i,
            forall|k: int|
                0 <= k < i ==> is_preview_level(
                    ar,
                    scale_8::<Single>(),
                    255,
                    data@[k],
                    (#[trigger] r@[k]) as int,
                ),
        decreases data.len() - i,
    {
        let v: u16 = preview_level(ar, scale, 255, data[i]);
        r.push(v as u8);
        i += 1;
    }
    r
}

/// The numbers of a texture: the three levels of every pixel, and full
/// opacity behind them.
pub open spec fn is_texture(levels: Seq<u8>, r: Seq<u8>) -> bool {
    &&& r.len() == levels.len() / 3 * 4
    &&& forall|k: int, c: int|
        0 <= k < levels.len() / 3 && 0 <= c < 4 ==> #[trigger] r[4 * k + c] == if c == 3 {
            255
        } else {
            levels[3 * k + c]
        }
}

/// The texture of levels.
pub fn texture_of(levels: &[u8]) -> (r: Vec<u8>)
    requires
        levels@.len() / 3 * 4 <= usize::MAX,
    ensures
        is_texture(levels@, r@),
{
    let total: usize = levels.len();
    let n: usize = total / 3;
    let mut r: Vec<u8> = Vec::new();
    let mut k: usize = 0;
    while k < n
        invariant
            k <= n,
            total == levels@.len(),
            n == total / 3,
            r@.len() == 4 * k,
            forall|j: int, c: int|
                0 <= j < k && 0 <= c < 4 ==> #[trigger] r@[4 * j + c] == if c == 3 {
                    255
                } else {
                    levels@[3 * j + c]
                },
        decreases n - k,
    {
        let ghost before = r@;
        r.push(levels[3 * k]);
        r.push(levels[3 * k + 1]);
        r.push(levels[3 * k + 2]);
        r.push(255);
        proof {
            assert forall|j: int, c: int| 0 <= j < k + 1 && 0 <= c < 4 implies #[trigger] r@[4 * j
                + c] == if c == 3 {
                255
            } else {
                levels@[3 * j + c]
            } by {
                if j < k {
                    assert(r@[4 * j + c] == before[4 * j + c]);
                }
            }
        }
        k += 1;
    }
    r
}

/// The texture of a preview.
pub fn make_texture<T: Sample, A: Arithmetic>(ar: &A, image: &ImageBuf<T>) -> (r: Vec<u8>)
    requires
        image.data@.len() / 3 * 4 <= usize::MAX,
    ensures
        exists|levels: Seq<u8>|
            {
                &&& levels.len() == image.data@.len()
                &&& forall|i: int|
                    0 <= i < levels.len() ==> is_preview_level(
                        ar,
                        scale_8::<Single>(),
                        255,
                        image.data@[i],
                        (#[trigger] levels[i]) as int,
                    )
                &&& #[trigger] is_texture(levels, r@)
            },
{
    let levels = preview_levels_8(ar, image.data.as_slice());
    let r = texture_of(levels.as_slice());
    assert(is_texture(levels@, r@));
    r
}

// ── Numbers of a file ────────────────────────────────────────────────────

/// `r` is the numbers of a linear file in an image's precision.
pub open spec fn are_linear<T: Sample, A: Arithmetic>(ar: &A, data: Seq<Single>, r: Seq<T>) -> bool {
    r.len() == data.len() && forall|i: int|
        0 <= i < r.len() ==> evaluates(ar, T::extended(single(data[i])), (#[trigger] r[i]).number())
}

/// An image from the numbers of a linear file.
pub fn linear_image<T: Sample, A: Arithmetic>(
    ar: &A,
    width: u32,
    height: u32,
    data: &[Single],
) -> (r: ImageBuf<T>)
    requires
        data@.len() == pixels_of(width, height) * 3,
    ensures
        r.width == width,
        r.height == height,
        r.valid(),
        are_linear(ar, data@, r.data@),
{
    let mut out: Vec<T> = Vec::new();
    let mut i: usize = 0;
    while i < data.len()
        invariant
            i <= data@.len(),
            out@.len() == i,
            forall|k: int|
                0 <= k < i ==> evaluates(
                    ar,
                    T::extended(single(data@[k])),
                    (#[trigger] out@[k]).number(),
                ),
        decreases data.len() - i,
    {
        let x: Traced<Single> = Traced::new(ar, data[i]);
        out.push(T::extend(ar, x).value);
        i += 1;
    }
    ImageBuf::from_data(width, height, out)
}

/// `r` is a number of an sRGB file in linear light.
pub open spec fn is_decoded<T: Sample, A: Arithmetic>(ar: &A, v: Single, r: T) -> bool {
    exists|x: T| #[trigger]
        evaluates(ar, T::extended(single(v)), x.number()) && evaluates(
            ar,
            srgb_decoded(x),
            r.number(),
        )
}

/// An image in linear light from the numbers of an sRGB file.
pub fn decoded_image<T: Sample, A: Arithmetic>(
    ar: &A,
    width: u32,
    height: u32,
    data: &[Single],
) -> (r: ImageBuf<T>)
    requires
        data@.len() == pixels_of(width, height) * 3,
    ensures
        r.width == width,
        r.height == height,
        r.valid(),
        forall|i: int|
            0 <= i < data@.len() ==> is_decoded(ar, data@[i], #[trigger] r.data@[i]),
{
    let mut out: Vec<T> = Vec::new();
    let mut i: usize = 0;
    while i < data.len()
        invariant
            i <= data@.len(),
            out@.len() == i,
            forall|k: int| 0 <= k < i ==> is_decoded(ar, data@[k], #[trigger] out@[k]),
        decreases data.len() - i,
    {
        let v: Traced<Single> = Traced::new(ar, data[i]);
        let x: T = T::extend(ar, v).value;
        assert(evaluates(ar, T::extended(single(data@[i as int])), x.number()));
        let y: T = srgb_decode(ar, x);
        assert(is_decoded(ar, data@[i as int], y));
        out.push(y);
        i += 1;
    }
    ImageBuf::from_data(width, height, out)
}

/// A level of a raw file, with 1 at the top.
pub open spec fn raw_share(level: u16) -> Formula {
    times(
        narrow(Formula::Whole(level as u64)),
        over(single(Single { bits: SINGLE_ONE }), single(Single { bits: 0x477f_ff00 })),
    )
}

/// An image from the levels of a raw file.
pub fn raw_image<T: Sample, A: Arithmetic>(ar: &A, width: u32, height: u32, levels: &[u16]) -> (r:
    ImageBuf<T>)
    requires
        levels@.len() == pixels_of(width, height) * 3,
    ensures
        r.width == width,
        r.height == height,
        r.valid(),
        forall|i: int|
            0 <= i < levels@.len() ==> evaluates(
                ar,
                T::extended(raw_share(levels@[i])),
                (#[trigger] r.data@[i]).number(),
            ),
{
    let one: Traced<Single> = Traced::new(ar, Single { bits: SINGLE_ONE });
    let top: Traced<Single> = Traced::new(ar, Single { bits: 0x477f_ff00 });
    let step = one.over(ar, top);
    let mut out: Vec<T> = Vec::new();
    let mut i: usize = 0;
    while i < levels.len()
        invariant
            i <= levels@.len(),
            step.holds(ar),
            step.formula@ == over(
                single(Single { bits: SINGLE_ONE }),
                single(Single { bits: 0x477f_ff00 }),
            ),
            out@.len() == i,
            forall|k: int|
                0 <= k < i ==> evaluates(
                    ar,
                    T::extended(raw_share(levels@[k])),
                    (#[trigger] out@[k]).number(),
                ),
        decreases levels.len() - i,
    {
        let v: Traced<Double> = Traced::whole(ar, levels[i] as u64);
        let x = v.narrow(ar).times(ar, step);
        out.push(T::extend(ar, x).value);
        i += 1;
    }
    ImageBuf::from_data(width, height, out)
}

// ── Raw output ───────────────────────────────────────────────────────────

/// `r` holds numbers as doubles of eight bytes each, the lowest first.
pub open spec fn are_raw_bytes<T: Sample, A: Arithmetic>(ar: &A, data: Seq<T>, r: Seq<u8>) -> bool {
    &&& r.len() == 8 * data.len()
    &&& forall|i: int| 0 <= i < data.len() ==> #[trigger] is_raw_double(ar, data[i], r, i)
}

/// Eight bytes of `r` hold a number as a double.
pub open spec fn is_raw_double<T: Sample, A: Arithmetic>(ar: &A, v: T, r: Seq<u8>, i: int) -> bool {
    exists|d: Double| #[trigger]
        is_double(ar, v.fetched(), d) && r.subrange(8 * i, 8 * i + 8)
            == spec_u64_to_le_bytes(d.bits)
}

/// The numbers of an image as the bytes of doubles.
pub fn raw_bytes<T: Sample, A: Arithmetic>(ar: &A, data: &[T]) -> (r: Vec<u8>)
    ensures
        are_raw_bytes(ar, data@, r@),
{
    let mut r: Vec<u8> = Vec::new();
    let mut i: usize = 0;
    while i < data.len()
        invariant
            i <= data@.len(),
            are_raw_bytes(ar, data@.subrange(0, i as int), r@),
        decreases data.len() - i,
    {
        let d = data[i].fetch(ar).value;
        let mut bytes = u64_to_le_bytes(d.bits);
        let ghost before = r@;
        let ghost last = bytes@;
        r.append(&mut bytes);
        proof {
            let done = data@.subrange(0, i + 1);
            let was = data@.subrange(0, i as int);
            assert forall|k: int| 0 <= k < done.len() implies #[trigger] is_raw_double(
                ar,
                done[k],
                r@,
                k,
            ) by {
                if k < i {
                    assert(is_raw_double(ar, was[k], before, k));
                    let e = choose|e: Double| #[trigger]
                        is_double(ar, was[k].fetched(), e) && before.subrange(
                            8 * k,
                            8 * k + 8,
                        ) == spec_u64_to_le_bytes(e.bits);
                    assert(r@.subrange(8 * k, 8 * k + 8) =~= before.subrange(8 * k, 8 * k + 8));
                    assert(is_double(ar, done[k].fetched(), e));
                } else {
                    assert(r@.subrange(8 * k, 8 * k + 8) =~= last);
                    assert(is_double(ar, done[k].fetched(), d));
                }
            }
        }
        i += 1;
    }
    assert(data@.subrange(0, data@.len() as int) =~= data@);
    r
}

} // verus!
