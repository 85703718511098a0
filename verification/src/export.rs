//! Exports through the program of double precision.

use vstd::prelude::*;

use crate::text::{chars_of, decimal, decimal_string, find, join, join3, occurs_at, signed_decimal};
use crate::text::{signed_decimal_string, string_of, trim, trim_of};

verus! {

// ── The program ──────────────────────────────────────────────────────────

/// A path, and whether there is a file.
pub struct Candidate {
    pub path: String,
    pub is_file: bool,
}

/// The path, where there is a file.
pub open spec fn file_at(c: Option<Candidate>) -> Option<Seq<char>> {
    match c {
        Some(f) => if f.is_file {
            Some(f.path@)
        } else {
            None
        },
        None => None,
    }
}

/// The first file among the first `n` candidates.
pub open spec fn first_file_among(found: Seq<Candidate>, n: int) -> Option<Seq<char>>
    decreases found.len() - n,
{
    if n < 0 || n >= found.len() {
        None
    } else if found[n].is_file {
        Some(found[n].path@)
    } else {
        first_file_among(found, n + 1)
    }
}

/// The first candidate that is a file.
pub fn first_file(found: &Vec<Candidate>) -> (r: Option<String>)
    ensures
        match first_file_among(found@, 0) {
            Some(p) => r matches Some(s) && s@ == p,
            None => r is None,
        },
{
    let mut i: usize = 0;
    while i < found.len()
        invariant
            i <= found@.len(),
            first_file_among(found@, 0) == first_file_among(found@, i as int),
        decreases found.len() - i,
    {
        if found[i].is_file {
            return Some(found[i].path.clone());
        }
        i += 1;
    }
    None
}

/// What is said where the program is not found.
pub open spec fn missing_text() -> Seq<char> {
    "no f64 CLI found. Build it with `cargo build --release --features precision-f64 -p spektrafilm-cli`, rename `target/release/spektrafilm` to `spektrafilm-f64`, and either put it on PATH or set $SPEKTRAFILM_F64_CLI."@
}

/// The program: the one that is set, or else one beside this program, on the
/// path, or among the sources. One that is set must be there.
pub open spec fn located(
    set: Option<Candidate>,
    beside: Option<Candidate>,
    on_path: Seq<Candidate>,
    built: Option<Candidate>,
) -> Result<Seq<char>, Seq<char>> {
    match set {
        Some(c) => if c.is_file {
            Ok(c.path@)
        } else {
            Err("SPEKTRAFILM_F64_CLI points at "@ + c.path@ + " but no such file"@)
        },
        None => match file_at(beside) {
            Some(p) => Ok(p),
            None => match first_file_among(on_path, 0) {
                Some(p) => Ok(p),
                None => match file_at(built) {
                    Some(p) => Ok(p),
                    None => Err(missing_text()),
                },
            },
        },
    }
}

/// Finds the program of double precision.
pub fn locate_f64_cli(
    set: &Option<Candidate>,
    beside: &Option<Candidate>,
    on_path: &Vec<Candidate>,
    built: &Option<Candidate>,
) -> (r: Result<String, String>)
    ensures
        match located(*set, *beside, on_path@, *built) {
            Ok(p) => r matches Ok(s) && s@ == p,
            Err(m) => r matches Err(s) && s@ == m,
        },
{
    if let Some(c) = set {
        if c.is_file {
            return Ok(c.path.clone());
        }
        return Err(
            join3("SPEKTRAFILM_F64_CLI points at ", c.path.as_str(), " but no such file"),
        );
    }
    if let Some(c) = beside {
        if c.is_file {
            return Ok(c.path.clone());
        }
    }
    if let Some(p) = first_file(on_path) {
        return Ok(p);
    }
    if let Some(c) = built {
        if c.is_file {
            return Ok(c.path.clone());
        }
    }
    Err(
        "no f64 CLI found. Build it with `cargo build --release --features precision-f64 -p spektrafilm-cli`, rename `target/release/spektrafilm` to `spektrafilm-f64`, and either put it on PATH or set $SPEKTRAFILM_F64_CLI.".to_owned(),
    )
}

// ── A run of it ──────────────────────────────────────────────────────────

/// Name of the file that hands the parameters over.
pub fn params_file(process: u32, nanos: u64) -> (r: String)
    ensures
        r@ == "spektrafilm-export-"@ + decimal(process as nat) + "-"@ + decimal(nanos as nat)
            + ".json"@,
{
    let mut r = join3("spektrafilm-export-", decimal_string(process as u64).as_str(), "-");
    r.append(decimal_string(nanos).as_str());
    r.append(".json");
    r
}

/// The arguments of an export.
pub open spec fn export_words(
    input: Seq<char>,
    output: Seq<char>,
    film: Seq<char>,
    paper: Seq<char>,
    params: Seq<char>,
    data: Seq<char>,
    scan_film: bool,
) -> Seq<Seq<char>> {
    let words = seq![
        "process"@,
        input,
        "-o"@,
        output,
        "--film"@,
        film,
        "--paper"@,
        paper,
        "--params"@,
        params,
        "--data-dir"@,
        data,
    ];
    if scan_film {
        words.push("--scan-film"@)
    } else {
        words
    }
}

/// The characters of every argument.
pub open spec fn words_of(args: Seq<String>) -> Seq<Seq<char>> {
    args.map_values(|a: String| a@)
}

/// The arguments of an export.
pub fn export_args(
    input: &str,
    output: &str,
    film: &str,
    paper: &str,
    params: &str,
    data: &str,
    scan_film: bool,
) -> (r: Vec<String>)
    ensures
        words_of(r@) == export_words(input@, output@, film@, paper@, params@, data@, scan_film),
{
    let mut r: Vec<String> = Vec::new();
    r.push("process".to_owned());
    r.push(input.to_owned());
    r.push("-o".to_owned());
    r.push(output.to_owned());
    r.push("--film".to_owned());
    r.push(film.to_owned());
    r.push("--paper".to_owned());
    r.push(paper.to_owned());
    r.push("--params".to_owned());
    r.push(params.to_owned());
    r.push("--data-dir".to_owned());
    r.push(data.to_owned());
    if scan_film {
        r.push("--scan-film".to_owned());
    }
    proof {
        assert(words_of(r@) =~= export_words(
            input@,
            output@,
            film@,
            paper@,
            params@,
            data@,
            scan_film,
        ));
    }
    r
}

/// What to do about a running export.
#[derive(Clone, Copy, Debug, PartialEq, Eq, Structural)]
pub enum ExportStep {
    /// It has ended.
    Finish,
    /// It is to be stopped.
    Kill,
    /// It goes on.
    Wait,
}

/// What to do about a running export; one that has ended is not stopped.
pub fn export_step(ended: bool, cancelled: bool) -> (r: ExportStep)
    ensures
        r == if ended {
            ExportStep::Finish
        } else if cancelled {
            ExportStep::Kill
        } else {
            ExportStep::Wait
        },
{
    if ended {
        ExportStep::Finish
    } else if cancelled {
        ExportStep::Kill
    } else {
        ExportStep::Wait
    }
}

/// The code of an ended program in words.
pub open spec fn code_text(code: Option<i32>) -> Seq<char> {
    match code {
        Some(c) => signed_decimal(c as int),
        None => "(signal)"@,
    }
}

/// What an ended program left behind, in words.
pub open spec fn complaint_text(stderr: Seq<char>) -> Seq<char> {
    if trim_of(stderr).len() == 0 {
        "(no stderr)"@
    } else {
        trim_of(stderr)
    }
}

/// The result of an ended export: its complaint where it failed.
pub fn export_result(success: bool, code: Option<i32>, stderr: &str) -> (r: Result<(), String>)
    ensures
        if success {
            r is Ok
        } else {
            r matches Err(m) && m@ == "f64 CLI exited "@ + code_text(code) + " — "@
                + complaint_text(stderr@)
        },
{
    if success {
        return Ok(());
    }
    let shown = match code {
        Some(c) => signed_decimal_string(c),
        None => "(signal)".to_owned(),
    };
    let chars = chars_of(stderr);
    let trimmed = trim(chars.as_slice());
    let complaint = if trimmed.len() == 0 {
        "(no stderr)".to_owned()
    } else {
        string_of(trimmed.as_slice())
    };
    let head = join3("f64 CLI exited ", shown.as_str(), " — ");
    Err(join(head.as_str(), complaint.as_str()))
}

/// A complaint tells of a cancelled export.
pub open spec fn tells_cancelled(m: Seq<char>) -> bool {
    exists|i: int| #[trigger] occurs_at(m, "cancelled"@, i)
}

/// A complaint tells of a cancelled export.
pub fn is_cancelled(m: &str) -> (r: bool)
    ensures
        r == tells_cancelled(m@),
{
    let s = chars_of(m);
    let p = chars_of("cancelled");
    match find(s.as_slice(), p.as_slice()) {
        Some(i) => {
            assert(occurs_at(m@, "cancelled"@, i as int));
            true
        },
        None => false,
    }
}

} // verus!
