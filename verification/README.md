# spektrafilm

A simulation of film photography: an image is exposed onto a film stock,
developed, enlarged onto paper, developed again and scanned.

- `src/` is the library. Every function in it is verified with Verus, but for
  the wrappers around outside calls.
- `tests/` runs it on concrete values.
- `app/` is the program around it: the command line, files, the GPU and the
  window.

## Numbers

The library holds real numbers as the bit patterns of their encodings
(`bits::Single`, `bits::Double`). Comparisons are integer work on the patterns.
Operations that round are asked of an `arith::Arithmetic`; the program hands in
the machine's. A contract says by which formula a number came about
(`arith::Formula`), down to the order of the operations. What holds of formulas
apart from rounding is stated over their exact values (`exact::exact`). What
holds of the rounded numbers is stated of an arithmetic that rounds as IEEE 754
asks for (`rounding::sound`, `rounding::sound_single`, `gamma::rough`).

Random draws of the glare and the matrix product of the calibration are handed
in as closures, and the enlarger's light as a `pipeline::Enlarger`.

## Building the program

The program reads profiles, filters and tables from a data directory, and the
shaders from the directory that `SPEKTRAFILM_SHADERS` names (`wgsl` otherwise).

The light model of the enlarger (`enlarger::Lights`) is this crate's own:
filters dim the light of a lamp by their density, and a grey card sets the
exposure of the print. `filters/enlarger.json` holds the lamps (`lamps`, by
name) and the filters (`cyan`, `magenta`, `yellow`), each a list over 81
wavelengths from 380 to 780 nm.

Two parts are compiled on request: `--cfg rawler` decodes the files of cameras
with the `rawler` crate, and `--cfg rfd` opens file dialogs with the `rfd`
crate. Run under the name `spektrafilm-f64`, the program computes in double
precision.
