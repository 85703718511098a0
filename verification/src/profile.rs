//! Film and paper profiles.

use vstd::prelude::*;
use vstd::string::*;

use crate::arith::{double, is_single, narrow, Arithmetic, Traced};
use crate::bits::{Double, Single};
use crate::text::{join, join3, same};

verus! {

/// Encoding of the quiet NaN that stands for a missing measurement.
pub const MISSING: u64 = 0x7ff8_0000_0000_0000;

/// Encoding of 0.2 in double precision.
pub const LOG_SENS_DEFAULT: u64 = 0x3fc9_9999_9999_999a;

/// Where a profile comes from.
#[derive(Clone)]
pub struct ProfileMetadata {
    pub version: String,
    pub copyright: String,
    pub created: String,
    pub license: String,
    pub citation: String,
    pub datasource: String,
}

/// What a profile describes.
#[derive(Clone)]
pub struct ProfileInfo {
    pub stock: Option<String>,
    pub name: Option<String>,
    pub film_type: String,
    pub support: String,
    pub stage: String,
    pub usage: String,
    pub antihalation: String,
    pub target_print: Option<String>,
    pub channel_model: String,
    pub densitometer: String,
    pub log_sensitivity_density_over_min: Double,
    pub reference_illuminant: String,
    pub viewing_illuminant: String,
}

/// The measurements of a profile.
#[derive(Clone)]
pub struct ProfileData {
    pub wavelengths: Vec<Double>,
    pub log_sensitivity: Vec<Vec<Double>>,
    pub hanatos2025_adaptation_window_params: Vec<Double>,
    pub hanatos2025_adaptation_surface_params: Vec<Vec<Double>>,
    /// Missing measurements are NaNs.
    pub channel_density: Vec<Vec<Double>>,
    /// Missing measurements are NaNs.
    pub base_density: Vec<Double>,
    /// Missing measurements are NaNs.
    pub midscale_neutral_density: Vec<Double>,
    pub log_exposure: Vec<Double>,
    pub density_curves: Vec<Vec<Double>>,
    pub density_curves_layers: Vec<Vec<Vec<Double>>>,
}

/// A film or paper.
#[derive(Clone)]
pub struct Profile {
    pub metadata: ProfileMetadata,
    pub info: ProfileInfo,
    pub data: ProfileData,
}

// ── Defaults of the fields ───────────────────────────────────────────────

pub fn default_negative() -> (r: String)
    ensures
        r@ == "negative"@,
{
    "negative".to_owned()
}

pub fn default_film() -> (r: String)
    ensures
        r@ == "film"@,
{
    "film".to_owned()
}

pub fn default_filming() -> (r: String)
    ensures
        r@ == "filming"@,
{
    "filming".to_owned()
}

pub fn default_still() -> (r: String)
    ensures
        r@ == "still"@,
{
    "still".to_owned()
}

pub fn default_weak() -> (r: String)
    ensures
        r@ == "weak"@,
{
    "weak".to_owned()
}

pub fn default_color() -> (r: String)
    ensures
        r@ == "color"@,
{
    "color".to_owned()
}

pub fn default_status_m() -> (r: String)
    ensures
        r@ == "status_M"@,
{
    "status_M".to_owned()
}

/// 0.2.
pub fn default_log_sens() -> (r: Double)
    ensures
        r.bits == LOG_SENS_DEFAULT,
{
    Double { bits: LOG_SENS_DEFAULT }
}

pub fn default_d55() -> (r: String)
    ensures
        r@ == "D55"@,
{
    "D55".to_owned()
}

pub fn default_d50() -> (r: String)
    ensures
        r@ == "D50"@,
{
    "D50".to_owned()
}

// ── Measurements with gaps ───────────────────────────────────────────────

/// A row of measurements, with `gap` in place of each one that is missing.
pub fn fill_gaps(row: &[Option<Double>], gap: Double) -> (r: Vec<Double>)
    ensures
        r@.len() == row@.len(),
        forall|i: int|
            0 <= i < r@.len() ==> #[trigger] r@[i] == match row@[i] {
                Some(v) => v,
                None => gap,
            },
{
    let mut r: Vec<Double> = Vec::new();
    let mut i: usize = 0;
    while i < row.len()
        invariant
            i <= row@.len(),
            r@.len() == i,
            forall|k: int|
                0 <= k < i ==> #[trigger] r@[k] == match row@[k] {
                    Some(v) => v,
                    None => gap,
                },
        decreases row.len() - i,
    {
        match row[i] {
            Some(v) => {
                r.push(v);
            },
            None => {
                r.push(gap);
            },
        }
        i += 1;
    }
    r
}

/// A row that must be finite: zero for what is missing.
pub fn zero_gaps(row: &[Option<Double>]) -> (r: Vec<Double>)
    ensures
        r@.len() == row@.len(),
        forall|i: int|
            0 <= i < r@.len() ==> #[trigger] r@[i] == match row@[i] {
                Some(v) => v,
                None => Double { bits: 0 },
            },
{
    fill_gaps(row, Double { bits: 0 })
}

/// A row in which what is missing stays recognisable: a NaN for it.
pub fn nan_gaps(row: &[Option<Double>]) -> (r: Vec<Double>)
    ensures
        r@.len() == row@.len(),
        forall|i: int|
            0 <= i < r@.len() ==> #[trigger] r@[i] == match row@[i] {
                Some(v) => v,
                None => Double { bits: MISSING },
            },
{
    fill_gaps(row, Double { bits: MISSING })
}

/// Entry `c` of a row, zero where the row is shorter.
pub open spec fn entry_or_zero(row: Seq<Double>, c: int) -> Double {
    if c < row.len() {
        row[c]
    } else {
        Double { bits: 0 }
    }
}

fn entry(row: &Vec<Double>, c: usize) -> (r: Double)
    ensures
        r == entry_or_zero(row@, c as int),
{
    if c < row.len() {
        row[c]
    } else {
        Double { bits: 0 }
    }
}

/// Rows cut or padded to three entries.
pub fn triples(rows: &Vec<Vec<Double>>) -> (r: Vec<[Double; 3]>)
    ensures
        r@.len() == rows@.len(),
        forall|i: int, c: int|
            0 <= i < r@.len() && 0 <= c < 3 ==> #[trigger] r@[i]@[c] == entry_or_zero(
                rows@[i]@,
                c,
            ),
{
    let mut r: Vec<[Double; 3]> = Vec::new();
    let mut i: usize = 0;
    while i < rows.len()
        invariant
            i <= rows@.len(),
            r@.len() == i,
            forall|k: int, c: int|
                0 <= k < i && 0 <= c < 3 ==> #[trigger] r@[k]@[c] == entry_or_zero(rows@[k]@, c),
        decreases rows.len() - i,
    {
        let row = &rows[i];
        r.push([entry(row, 0), entry(row, 1), entry(row, 2)]);
        i += 1;
    }
    r
}

// ── Profiles ─────────────────────────────────────────────────────────────

/// `r` is rows cut or padded to three entries, in single precision.
pub open spec fn are_short_triples<A: Arithmetic>(
    ar: &A,
    rows: Seq<Vec<Double>>,
    r: Seq<[Single; 3]>,
) -> bool {
    &&& r.len() == rows.len()
    &&& forall|i: int, c: int|
        0 <= i < r.len() && 0 <= c < 3 ==> is_single(
            ar,
            narrow(double(entry_or_zero(rows[i]@, c))),
            #[trigger] r[i]@[c],
        )
}

fn short_entry<A: Arithmetic>(ar: &A, row: &Vec<Double>, c: usize) -> (r: Single)
    ensures
        is_single(ar, narrow(double(entry_or_zero(row@, c as int))), r),
{
    let x: Traced<Double> = Traced::new(ar, entry(row, c));
    x.narrow(ar).value
}

fn short_triples<A: Arithmetic>(ar: &A, rows: &Vec<Vec<Double>>) -> (r: Vec<[Single; 3]>)
    ensures
        are_short_triples(ar, rows@, r@),
{
    let mut r: Vec<[Single; 3]> = Vec::new();
    let mut i: usize = 0;
    while i < rows.len()
        invariant
            i <= rows@.len(),
            r@.len() == i,
            forall|k: int, c: int|
                0 <= k < i && 0 <= c < 3 ==> is_single(
                    ar,
                    narrow(double(entry_or_zero(rows@[k]@, c))),
                    #[trigger] r@[k]@[c],
                ),
        decreases rows.len() - i,
    {
        let row = &rows[i];
        r.push([short_entry(ar, row, 0), short_entry(ar, row, 1), short_entry(ar, row, 2)]);
        i += 1;
    }
    r
}

impl Profile {
    pub fn is_negative(&self) -> (r: bool)
        ensures
            r == (self.info.film_type@ == "negative"@),
    {
        same(self.info.film_type.as_str(), "negative")
    }

    pub fn is_positive(&self) -> (r: bool)
        ensures
            r == (self.info.film_type@ == "positive"@),
    {
        same(self.info.film_type.as_str(), "positive")
    }

    pub fn is_film(&self) -> (r: bool)
        ensures
            r == (self.info.support@ == "film"@),
    {
        same(self.info.support.as_str(), "film")
    }

    pub fn is_paper(&self) -> (r: bool)
        ensures
            r == (self.info.support@ == "paper"@),
    {
        same(self.info.support.as_str(), "paper")
    }

    pub fn is_color(&self) -> (r: bool)
        ensures
            r == (self.info.channel_model@ == "color"@),
    {
        same(self.info.channel_model.as_str(), "color")
    }

    pub fn is_bw(&self) -> (r: bool)
        ensures
            r == (self.info.channel_model@ == "bw"@),
    {
        same(self.info.channel_model.as_str(), "bw")
    }

    pub fn is_filming(&self) -> (r: bool)
        ensures
            r == (self.info.stage@ == "filming"@),
    {
        same(self.info.stage.as_str(), "filming")
    }

    pub fn is_printing(&self) -> (r: bool)
        ensures
            r == (self.info.stage@ == "printing"@),
    {
        same(self.info.stage.as_str(), "printing")
    }

    /// The density curves, three to a row.
    pub fn density_curves_f64(&self) -> (r: Vec<[Double; 3]>)
        ensures
            r@.len() == self.data.density_curves@.len(),
            forall|i: int, c: int|
                0 <= i < r@.len() && 0 <= c < 3 ==> #[trigger] r@[i]@[c] == entry_or_zero(
                    self.data.density_curves@[i]@,
                    c,
                ),
    {
        triples(&self.data.density_curves)
    }

    /// The log exposures of the curves.
    pub fn log_exposure_f64(&self) -> (r: Vec<Double>)
        ensures
            r@ == self.data.log_exposure@,
    {
        vstd::slice::slice_to_vec(self.data.log_exposure.as_slice())
    }

    /// The log sensitivities, three to a row.
    pub fn log_sensitivity_f64(&self) -> (r: Vec<[Double; 3]>)
        ensures
            r@.len() == self.data.log_sensitivity@.len(),
            forall|i: int, c: int|
                0 <= i < r@.len() && 0 <= c < 3 ==> #[trigger] r@[i]@[c] == entry_or_zero(
                    self.data.log_sensitivity@[i]@,
                    c,
                ),
    {
        triples(&self.data.log_sensitivity)
    }

    /// The channel densities, three to a row.
    pub fn channel_density_f64(&self) -> (r: Vec<[Double; 3]>)
        ensures
            r@.len() == self.data.channel_density@.len(),
            forall|i: int, c: int|
                0 <= i < r@.len() && 0 <= c < 3 ==> #[trigger] r@[i]@[c] == entry_or_zero(
                    self.data.channel_density@[i]@,
                    c,
                ),
    {
        triples(&self.data.channel_density)
    }

    /// The density curves in single precision, three to a row.
    pub fn density_curves_f32<A: Arithmetic>(&self, ar: &A) -> (r: Vec<[Single; 3]>)
        ensures
            are_short_triples(ar, self.data.density_curves@, r@),
    {
        short_triples(ar, &self.data.density_curves)
    }

    /// The log exposures of the curves in single precision.
    pub fn log_exposure_f32<A: Arithmetic>(&self, ar: &A) -> (r: Vec<Single>)
        ensures
            r@.len() == self.data.log_exposure@.len(),
            forall|i: int|
                0 <= i < r@.len() ==> is_single(
                    ar,
                    narrow(double(self.data.log_exposure@[i])),
                    #[trigger] r@[i],
                ),
    {
        let xs = &self.data.log_exposure;
        let mut r: Vec<Single> = Vec::new();
        let mut i: usize = 0;
        while i < xs.len()
            invariant
                i <= xs@.len(),
                r@.len() == i,
                forall|k: int|
                    0 <= k < i ==> is_single(ar, narrow(double(xs@[k])), #[trigger] r@[k]),
            decreases xs.len() - i,
        {
            let x: Traced<Double> = Traced::new(ar, xs[i]);
            r.push(x.narrow(ar).value);
            i += 1;
        }
        r
    }

    /// The log sensitivities in single precision, three to a row.
    pub fn log_sensitivity_f32<A: Arithmetic>(&self, ar: &A) -> (r: Vec<[Single; 3]>)
        ensures
            are_short_triples(ar, self.data.log_sensitivity@, r@),
    {
        short_triples(ar, &self.data.log_sensitivity)
    }

    /// The stock's name, empty where it has none.
    pub fn stock_or_empty(&self) -> (r: String)
        ensures
            r@ == match self.info.stock {
                Some(s) => s@,
                None => Seq::<char>::empty(),
            },
    {
        match &self.info.stock {
            Some(s) => s.clone(),
            None => String::new(),
        }
    }
}

/// No profile is both negative and positive, film and paper, colour and
/// black-and-white, or filming and printing.
pub proof fn lemma_kinds_exclusive(p: &Profile)
    ensures
        !(p.info.film_type@ == "negative"@ && p.info.film_type@ == "positive"@),
        !(p.info.support@ == "film"@ && p.info.support@ == "paper"@),
        !(p.info.channel_model@ == "color"@ && p.info.channel_model@ == "bw"@),
        !(p.info.stage@ == "filming"@ && p.info.stage@ == "printing"@),
{
    reveal_strlit("negative");
    reveal_strlit("positive");
    reveal_strlit("film");
    reveal_strlit("paper");
    reveal_strlit("color");
    reveal_strlit("bw");
    reveal_strlit("filming");
    reveal_strlit("printing");
    assert("negative"@[0] == 'n' && "positive"@[0] == 'p');
    assert("film"@[0] == 'f' && "paper"@[0] == 'p');
    assert("color"@[0] == 'c' && "bw"@[0] == 'b');
    assert("filming"@[0] == 'f' && "printing"@[0] == 'p');
}

/// Why a profile cannot be used. The texts are the file and what went wrong.
#[derive(Debug)]
pub enum ProfileError {
    Io(String, String),
    Parse(String, String),
    Validation(String),
}

impl ProfileError {
    pub open spec fn text(&self) -> Seq<char> {
        match self {
            ProfileError::Io(f, e) => "loading profile "@ + f@ + ": "@ + e@,
            ProfileError::Parse(f, e) => "parsing profile "@ + f@ + ": "@ + e@,
            ProfileError::Validation(s) => "invalid profile: "@ + s@,
        }
    }

    pub fn message(&self) -> (r: String)
        ensures
            r@ == self.text(),
    {
        match self {
            ProfileError::Io(f, e) => {
                let head = join3("loading profile ", f.as_str(), ": ");
                join(head.as_str(), e.as_str())
            },
            ProfileError::Parse(f, e) => {
                let head = join3("parsing profile ", f.as_str(), ": ");
                join(head.as_str(), e.as_str())
            },
            ProfileError::Validation(s) => join("invalid profile: ", s.as_str()),
        }
    }
}

/// A profile needs log exposures, and one row of density curves for each.
pub fn validate_profile(profile: &Profile) -> (r: Result<(), ProfileError>)
    ensures
        if profile.data.log_exposure@.len() == 0 {
            r matches Err(ProfileError::Validation(s)) && s@ == "log_exposure is empty"@
        } else if profile.data.density_curves@.len() != profile.data.log_exposure@.len() {
            r matches Err(ProfileError::Validation(s)) && s@
                == "density_curves length must match log_exposure length"@
        } else {
            r is Ok
        },
{
    if profile.data.log_exposure.len() == 0 {
        return Err(ProfileError::Validation("log_exposure is empty".to_owned()));
    }
    if profile.data.density_curves.len() != profile.data.log_exposure.len() {
        return Err(
            ProfileError::Validation(
                "density_curves length must match log_exposure length".to_owned(),
            ),
        );
    }
    Ok(())
}

/// File name of a stock's profile.
pub fn profile_file(stock: &str) -> (r: String)
    ensures
        r@ == stock@ + ".json"@,
{
    join(stock, ".json")
}

} // verus!
