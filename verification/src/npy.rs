//! Arrays in the `.npy` format of NumPy: half, single and double precision,
//! little-endian, in C order.

use vstd::prelude::*;
use vstd::string::*;

use crate::arith::{double, is_single, narrow, Arithmetic, Traced};
use crate::bits::{Double, Single};
use crate::text::{chars_of, comma_parts, copy_range, find, find_either, first_occurrence};
use crate::text::{join, next_either, number_of, occurs_at, parse_number, string_of, strip};
use crate::text::{strip_start, trim, trim_class, trim_of, trim_start_class, CharClass};
use crate::text::NumberError;

verus! {

/// Why a file is no array that can be read.
#[derive(Debug)]
pub enum NpyError {
    /// The file ends too early.
    Io,
    BadMagic,
    Parse(String),
}

impl NpyError {
    pub open spec fn text(&self) -> Seq<char> {
        match self {
            NpyError::Io => "IO error: failed to fill whole buffer"@,
            NpyError::BadMagic => "not a .npy file"@,
            NpyError::Parse(s) => "parse error: "@ + s@,
        }
    }

    pub fn message(&self) -> (r: String)
        ensures
            r@ == self.text(),
    {
        match self {
            NpyError::Io => "IO error: failed to fill whole buffer".to_owned(),
            NpyError::BadMagic => "not a .npy file".to_owned(),
            NpyError::Parse(s) => join("parse error: ", s.as_str()),
        }
    }
}

/// The numbers of an array, in the precision of the file; half precision by
/// its encodings.
pub enum NpyData {
    Half(Vec<u16>),
    Single(Vec<Single>),
    Double(Vec<Double>),
}

/// An array with its shape.
pub struct NpyArray {
    pub shape: Vec<usize>,
    pub data: NpyData,
}

impl NpyData {
    pub open spec fn count(&self) -> nat {
        match self {
            NpyData::Half(v) => v@.len(),
            NpyData::Single(v) => v@.len(),
            NpyData::Double(v) => v@.len(),
        }
    }
}

impl NpyArray {
    /// There are as many numbers as the shape calls for.
    pub open spec fn complete(&self) -> bool {
        self.data.count() == product(self.shape@)
    }
}

/// `r` is the numbers in single precision.
pub open spec fn are_singles<A: Arithmetic>(ar: &A, data: NpyData, r: Seq<Single>) -> bool {
    &&& r.len() == data.count()
    &&& match data {
        NpyData::Half(v) => forall|i: int|
            0 <= i < r.len() ==> call_ensures(A::widen_half, (ar, v@[i]), #[trigger] r[i]),
        NpyData::Single(v) => r == v@,
        NpyData::Double(v) => forall|i: int|
            0 <= i < r.len() ==> is_single(ar, narrow(double(v@[i])), #[trigger] r[i]),
    }
}

impl NpyData {
    /// The numbers in single precision.
    pub fn into_singles<A: Arithmetic>(self, ar: &A) -> (r: Vec<Single>)
        ensures
            are_singles(ar, self, r@),
    {
        match self {
            NpyData::Single(v) => v,
            NpyData::Half(v) => {
                let mut r: Vec<Single> = Vec::new();
                let mut i: usize = 0;
                while i < v.len()
                    invariant
                        i <= v@.len(),
                        r@.len() == i,
                        forall|k: int|
                            0 <= k < i ==> call_ensures(
                                A::widen_half,
                                (ar, v@[k]),
                                #[trigger] r@[k],
                            ),
                    decreases v.len() - i,
                {
                    r.push(ar.widen_half(v[i]));
                    i += 1;
                }
                r
            },
            NpyData::Double(v) => {
                let mut r: Vec<Single> = Vec::new();
                let mut i: usize = 0;
                while i < v.len()
                    invariant
                        i <= v@.len(),
                        r@.len() == i,
                        forall|k: int|
                            0 <= k < i ==> is_single(
                                ar,
                                narrow(double(v@[k])),
                                #[trigger] r@[k],
                            ),
                    decreases v.len() - i,
                {
                    let x: Traced<Double> = Traced::new(ar, v[i]);
                    r.push(x.narrow(ar).value);
                    i += 1;
                }
                r
            },
        }
    }
}

// ── Header fields ────────────────────────────────────────────────────────

/// A key as it stands in the header: quoted, with its colon.
pub open spec fn key_pattern(key: Seq<char>) -> Seq<char> {
    seq!['\''] + key + seq!['\'', ':']
}

/// The value at the start of `rest`: a quoted text with its quotes, a
/// parenthesised tuple with its parentheses, or a bare word up to the next
/// comma or brace. A quote or a parenthesis that is not closed gives none.
pub open spec fn value_of(rest: Seq<char>) -> Option<Seq<char>> {
    if rest.len() > 0 && rest[0] == '\'' {
        let end = next_either(rest, 1, '\'', '\'');
        if end < rest.len() {
            Some(rest.subrange(0, end as int + 1))
        } else {
            None
        }
    } else if rest.len() > 0 && rest[0] == '(' {
        let end = next_either(rest, 0, ')', ')');
        if end < rest.len() {
            Some(rest.subrange(0, end as int + 1))
        } else {
            None
        }
    } else {
        Some(trim_of(rest.subrange(0, next_either(rest, 0, ',', '}') as int)))
    }
}

/// `r` is the value of a field: the text after the key's first occurrence.
pub open spec fn is_field(header: Seq<char>, key: Seq<char>, r: Option<Seq<char>>) -> bool {
    let p = key_pattern(key);
    if exists|i: int| first_occurrence(header, p, i) {
        exists|i: int|
            #![trigger first_occurrence(header, p, i)]
            first_occurrence(header, p, i) && r == value_of(
                strip_start(
                    header.subrange(i + p.len(), header.len() as int),
                    CharClass::Whitespace,
                ),
            )
    } else {
        r is None
    }
}

/// The view of an optional text.
pub open spec fn option_view(r: Option<Vec<char>>) -> Option<Seq<char>> {
    match r {
        Some(v) => Some(v@),
        None => None,
    }
}

fn take_value(rest: &[char]) -> (r: Option<Vec<char>>)
    ensures
        option_view(r) == value_of(rest@),
{
    if rest.len() > 0 && rest[0] == '\'' {
        let end: usize = find_either(rest, 1, '\'', '\'');
        if end < rest.len() {
            Some(copy_range(rest, 0, end + 1))
        } else {
            None
        }
    } else if rest.len() > 0 && rest[0] == '(' {
        let end: usize = find_either(rest, 0, ')', ')');
        if end < rest.len() {
            Some(copy_range(rest, 0, end + 1))
        } else {
            None
        }
    } else {
        let end: usize = find_either(rest, 0, ',', '}');
        let word = copy_range(rest, 0, end);
        Some(trim(word.as_slice()))
    }
}

fn field_chars(header: &[char], key: &str) -> (r: Option<Vec<char>>)
    ensures
        is_field(header@, key@, option_view(r)),
{
    let mut p: Vec<char> = Vec::new();
    p.push('\'');
    let mut name = chars_of(key);
    p.append(&mut name);
    p.push('\'');
    p.push(':');
    assert(p@ =~= key_pattern(key@));
    match find(header, p.as_slice()) {
        None => None,
        Some(start) => {
            let n: usize = header.len();
            assert(start + p@.len() <= n);
            let after = copy_range(header, start + p.len(), n);
            let rest = trim_start_class(after.as_slice(), CharClass::Whitespace);
            assert(first_occurrence(header@, key_pattern(key@), start as int));
            take_value(rest.as_slice())
        },
    }
}

/// The value of a field of the header, as text.
pub fn extract_field(header: &str, key: &str) -> (r: Option<String>)
    ensures
        is_field(
            header@,
            key@,
            match r {
                Some(s) => Some(s@),
                None => None,
            },
        ),
{
    let h = chars_of(header);
    match field_chars(h.as_slice(), key) {
        Some(v) => Some(string_of(v.as_slice())),
        None => None,
    }
}

/// The value of a field is determined by the header.
pub proof fn lemma_field_unique(
    header: Seq<char>,
    key: Seq<char>,
    a: Option<Seq<char>>,
    b: Option<Seq<char>>,
)
    requires
        is_field(header, key, a),
        is_field(header, key, b),
    ensures
        a == b,
{
    let p = key_pattern(key);
    if exists|i: int| first_occurrence(header, p, i) {
        let i = choose|i: int|
            #![trigger first_occurrence(header, p, i)]
            first_occurrence(header, p, i) && a == value_of(
                strip_start(
                    header.subrange(i + p.len(), header.len() as int),
                    CharClass::Whitespace,
                ),
            );
        let j = choose|j: int|
            #![trigger first_occurrence(header, p, j)]
            first_occurrence(header, p, j) && b == value_of(
                strip_start(
                    header.subrange(j + p.len(), header.len() as int),
                    CharClass::Whitespace,
                ),
            );
        if i < j {
            assert(occurs_at(header, p, i));
        } else if j < i {
            assert(occurs_at(header, p, j));
        }
    }
}

/// `part` stands somewhere in the value of an optional field.
pub open spec fn field_contains(field: Option<Seq<char>>, part: Seq<char>) -> bool {
    field is Some && exists|i: int| #[trigger] occurs_at(field->0, part, i)
}

proof fn lemma_field_contains(field: Option<Seq<char>>, v: Seq<char>, part: Seq<char>, i: int)
    requires
        field == Some(v),
        occurs_at(v, part, i),
    ensures
        field_contains(field, part),
{
    assert(occurs_at(field->0, part, i));
}

// ── Shape ────────────────────────────────────────────────────────────────

/// The numbers that the parts spell; blank parts are skipped, and the first
/// part that is no number is the fault.
pub open spec fn sizes_of(parts: Seq<Seq<char>>) -> Result<Seq<usize>, NumberError>
    decreases parts.len(),
{
    if parts.len() == 0 {
        Ok(Seq::empty())
    } else {
        match sizes_of(parts.drop_last()) {
            Err(e) => Err(e),
            Ok(head) => {
                let word = trim_of(parts.last());
                if word.len() == 0 {
                    Ok(head)
                } else {
                    match number_of(word) {
                        Ok(n) => Ok(head.push(n)),
                        Err(e) => Err(e),
                    }
                }
            },
        }
    }
}

/// The shape that a tuple spells.
pub open spec fn shape_of(field: Seq<char>) -> Result<Seq<usize>, NumberError> {
    sizes_of(comma_parts(strip(field, CharClass::TupleEdge)))
}

/// The view of a shape or its fault.
pub open spec fn sizes_view(r: Result<Vec<usize>, NumberError>) -> Result<Seq<usize>, NumberError> {
    match r {
        Ok(v) => Ok(v@),
        Err(e) => Err(e),
    }
}

proof fn lemma_sizes_fault(parts: Seq<Seq<char>>, k: int)
    requires
        0 <= k <= parts.len(),
        sizes_of(parts.subrange(0, k)) is Err,
    ensures
        sizes_of(parts) == sizes_of(parts.subrange(0, k)),
    decreases parts.len() - k,
{
    if k < parts.len() {
        assert(parts.subrange(0, k + 1).drop_last() =~= parts.subrange(0, k));
        lemma_sizes_fault(parts, k + 1);
    } else {
        assert(parts.subrange(0, k) =~= parts);
    }
}

fn parse_parts(s: &[char]) -> (r: Result<Vec<usize>, NumberError>)
    ensures
        sizes_view(r) == sizes_of(comma_parts(s@)),
{
    let ghost parts = comma_parts(s@);
    let mut sizes: Vec<usize> = Vec::new();
    let mut start: usize = 0;
    let mut more: bool = true;
    let ghost mut k: int = 0;
    assert(s@.subrange(0, s@.len() as int) =~= s@);
    assert(parts.subrange(0, 0) =~= Seq::<Seq<char>>::empty());
    assert(parts.subrange(0, 0) + comma_parts(s@) =~= parts);
    while more
        invariant
            parts == comma_parts(s@),
            start <= s@.len(),
            0 <= k <= parts.len(),
            sizes_of(parts.subrange(0, k)) == Ok::<Seq<usize>, NumberError>(sizes@),
            more ==> parts == parts.subrange(0, k) + comma_parts(
                s@.subrange(start as int, s@.len() as int),
            ),
            !more ==> k == parts.len(),
        decreases s@.len() - start + if more {
            1int
        } else {
            0int
        },
    {
        let ghost rest = s@.subrange(start as int, s@.len() as int);
        let end: usize = find_either(s, start, ',', ',');
        proof {
            lemma_next_shift(s@, start as nat, 0, ',', ',');
            assert(comma_parts(rest)[0] =~= s@.subrange(start as int, end as int));
            assert(parts[k] == comma_parts(rest)[0]);
            assert(parts.subrange(0, k + 1).drop_last() =~= parts.subrange(0, k));
            assert(parts.subrange(0, k + 1).last() == parts[k]);
        }
        let part = copy_range(s, start, end);
        let word = trim(part.as_slice());
        if word.len() > 0 {
            match parse_number(word.as_slice()) {
                Ok(n) => {
                    sizes.push(n);
                },
                Err(e) => {
                    proof {
                        lemma_sizes_fault(parts, k + 1);
                    }
                    return Err(e);
                },
            }
        }
        proof {
            k = k + 1;
        }
        if end >= s.len() {
            more = false;
            assert(comma_parts(rest).len() == 1);
        } else {
            proof {
                assert(rest.subrange(end - start + 1, rest.len() as int) =~= s@.subrange(
                    end + 1,
                    s@.len() as int,
                ));
                assert(parts =~= parts.subrange(0, k) + comma_parts(
                    s@.subrange(end + 1, s@.len() as int),
                ));
            }
            start = end + 1;
        }
    }
    assert(parts.subrange(0, k) =~= parts);
    Ok(sizes)
}

proof fn lemma_next_shift(s: Seq<char>, start: nat, from: nat, a: char, b: char)
    requires
        start <= s.len(),
        start + from <= s.len(),
    ensures
        next_either(s, start + from, a, b) == start + next_either(
            s.subrange(start as int, s.len() as int),
            from,
            a,
            b,
        ),
    decreases s.len() - start - from,
{
    if start + from < s.len() {
        lemma_next_shift(s, start, from + 1, a, b);
    }
}

/// How many entries a shape calls for.
pub open spec fn product(shape: Seq<usize>) -> nat
    decreases shape.len(),
{
    if shape.len() == 0 {
        1
    } else {
        product(shape.drop_last()) * shape.last() as nat
    }
}

proof fn lemma_product_zero(shape: Seq<usize>, k: int)
    requires
        0 <= k < shape.len(),
        shape[k] == 0,
    ensures
        product(shape) == 0,
    decreases shape.len(),
{
    if k < shape.len() - 1 {
        lemma_product_zero(shape.drop_last(), k);
        assert(product(shape.drop_last()) * shape.last() as nat == 0) by (nonlinear_arith)
            requires
                product(shape.drop_last()) == 0,
        ;
    } else {
        assert(product(shape.drop_last()) * shape.last() as nat == 0) by (nonlinear_arith)
            requires
                shape.last() == 0,
        ;
    }
}

proof fn lemma_product_grows(shape: Seq<usize>, k: int)
    requires
        0 <= k <= shape.len(),
        forall|i: int| 0 <= i < shape.len() ==> #[trigger] shape[i] > 0,
    ensures
        product(shape.subrange(0, k)) <= product(shape),
    decreases shape.len() - k,
{
    if k < shape.len() {
        let longer = shape.subrange(0, k + 1);
        assert(longer.drop_last() =~= shape.subrange(0, k));
        assert(longer.last() == shape[k]);
        lemma_product_grows(shape, k + 1);
        assert(product(shape.subrange(0, k)) <= product(shape.subrange(0, k)) * shape[k] as nat)
            by (nonlinear_arith)
            requires
                shape[k] > 0,
        ;
    } else {
        assert(shape.subrange(0, k) =~= shape);
    }
}

/// The number of entries, where it is at most `limit`.
fn entries_within(shape: &Vec<usize>, limit: usize) -> (r: Option<usize>)
    ensures
        match r {
            Some(n) => n == product(shape@) && n <= limit,
            None => product(shape@) > limit,
        },
{
    let mut i: usize = 0;
    while i < shape.len()
        invariant
            i <= shape@.len(),
            forall|k: int| 0 <= k < i ==> #[trigger] shape@[k] > 0,
        decreases shape.len() - i,
    {
        if shape[i] == 0 {
            proof {
                lemma_product_zero(shape@, i as int);
            }
            return Some(0);
        }
        i += 1;
    }
    if limit == 0 {
        proof {
            lemma_product_grows(shape@, 0);
            assert(shape@.subrange(0, 0).len() == 0);
        }
        return None;
    }
    let mut n: usize = 1;
    let mut i: usize = 0;
    assert(shape@.subrange(0, 0).len() == 0);
    while i < shape.len()
        invariant
            i <= shape@.len(),
            forall|k: int| 0 <= k < shape@.len() ==> #[trigger] shape@[k] > 0,
            n == product(shape@.subrange(0, i as int)),
            n <= limit,
        decreases shape.len() - i,
    {
        proof {
            assert(shape@.subrange(0, i + 1).drop_last() =~= shape@.subrange(0, i as int));
            lemma_product_grows(shape@, i + 1);
        }
        match n.checked_mul(shape[i]) {
            Some(m) => {
                if m > limit {
                    return None;
                }
                n = m;
            },
            None => {
                return None;
            },
        }
        i += 1;
    }
    assert(shape@.subrange(0, i as int) =~= shape@);
    Some(n)
}

// ── Numbers ──────────────────────────────────────────────────────────────

/// The number that two bytes spell, lowest first.
pub open spec fn le16(b: Seq<u8>, i: int) -> int {
    b[i] + 256 * b[i + 1]
}

/// The number that four bytes spell, lowest first.
pub open spec fn le32(b: Seq<u8>, i: int) -> int {
    le16(b, i) + 65536 * le16(b, i + 2)
}

/// The number that eight bytes spell, lowest first.
pub open spec fn le64(b: Seq<u8>, i: int) -> int {
    le32(b, i) + 4294967296 * le32(b, i + 4)
}

fn read16(b: &[u8], i: usize) -> (r: u16)
    requires
        i + 2 <= b@.len(),
    ensures
        r == le16(b@, i as int),
{
    let n: usize = b.len();
    b[i] as u16 + 256 * b[i + 1] as u16
}

fn read32(b: &[u8], i: usize) -> (r: u32)
    requires
        i + 4 <= b@.len(),
    ensures
        r == le32(b@, i as int),
{
    let n: usize = b.len();
    read16(b, i) as u32 + 65536 * read16(b, i + 2) as u32
}

fn read64(b: &[u8], i: usize) -> (r: u64)
    requires
        i + 8 <= b@.len(),
    ensures
        r == le64(b@, i as int),
{
    let n: usize = b.len();
    read32(b, i) as u64 + 4294967296 * read32(b, i + 4) as u64
}

/// An encoding of the numbers in the file.
#[derive(Clone, Copy, Debug, PartialEq, Eq, Structural)]
pub enum Precision {
    Half,
    Single,
    Double,
}

impl Precision {
    /// Bytes of one number.
    pub open spec fn width(self) -> nat {
        match self {
            Precision::Half => 2,
            Precision::Single => 4,
            Precision::Double => 8,
        }
    }

    fn bytes(self) -> (r: usize)
        ensures
            r == self.width(),
    {
        match self {
            Precision::Half => 2,
            Precision::Single => 4,
            Precision::Double => 8,
        }
    }
}

/// The encoding that a type name stands for.
pub open spec fn precision_of(name: Seq<char>) -> Option<Precision> {
    if name == seq!['<', 'f', '2'] {
        Some(Precision::Half)
    } else if name == seq!['<', 'f', '4'] {
        Some(Precision::Single)
    } else if name == seq!['<', 'f', '8'] {
        Some(Precision::Double)
    } else {
        None
    }
}

fn find_precision(name: &[char]) -> (r: Option<Precision>)
    ensures
        r == precision_of(name@),
{
    if name.len() == 3 && name[0] == '<' && name[1] == 'f' {
        if name[2] == '2' {
            assert(name@ =~= seq!['<', 'f', '2']);
            return Some(Precision::Half);
        }
        if name[2] == '4' {
            assert(name@ =~= seq!['<', 'f', '4']);
            return Some(Precision::Single);
        }
        if name[2] == '8' {
            assert(name@ =~= seq!['<', 'f', '8']);
            return Some(Precision::Double);
        }
    }
    None
}

/// `data` is the `n` numbers that the bytes spell from `start` on.
pub open spec fn decodes(b: Seq<u8>, start: int, n: nat, p: Precision, data: NpyData) -> bool {
    match (p, data) {
        (Precision::Half, NpyData::Half(v)) => v@.len() == n && forall|i: int|
            0 <= i < n ==> #[trigger] v@[i] == le16(b, start + 2 * i),
        (Precision::Single, NpyData::Single(v)) => v@.len() == n && forall|i: int|
            0 <= i < n ==> (#[trigger] v@[i]).bits == le32(b, start + 4 * i),
        (Precision::Double, NpyData::Double(v)) => v@.len() == n && forall|i: int|
            0 <= i < n ==> (#[trigger] v@[i]).bits == le64(b, start + 8 * i),
        _ => false,
    }
}

fn decode(b: &[u8], start: usize, n: usize, p: Precision) -> (r: NpyData)
    requires
        start + n * p.width() <= b@.len(),
    ensures
        decodes(b@, start as int, n as nat, p, r),
{
    let total: usize = b.len();
    match p {
        Precision::Half => {
            let mut v: Vec<u16> = Vec::new();
            let mut i: usize = 0;
            while i < n
                invariant
                    i <= n,
                    total == b@.len(),
                    start + n * 2 <= total,
                    v@.len() == i,
                    forall|k: int| 0 <= k < i ==> #[trigger] v@[k] == le16(b@, start + 2 * k),
                decreases n - i,
            {
                v.push(read16(b, start + 2 * i));
                i += 1;
            }
            NpyData::Half(v)
        },
        Precision::Single => {
            let mut v: Vec<Single> = Vec::new();
            let mut i: usize = 0;
            while i < n
                invariant
                    i <= n,
                    total == b@.len(),
                    start + n * 4 <= total,
                    v@.len() == i,
                    forall|k: int|
                        0 <= k < i ==> (#[trigger] v@[k]).bits == le32(b@, start + 4 * k),
                decreases n - i,
            {
                v.push(Single { bits: read32(b, start + 4 * i) });
                i += 1;
            }
            NpyData::Single(v)
        },
        Precision::Double => {
            let mut v: Vec<Double> = Vec::new();
            let mut i: usize = 0;
            while i < n
                invariant
                    i <= n,
                    total == b@.len(),
                    start + n * 8 <= total,
                    v@.len() == i,
                    forall|k: int|
                        0 <= k < i ==> (#[trigger] v@[k]).bits == le64(b@, start + 8 * k),
                decreases n - i,
            {
                v.push(Double { bits: read64(b, start + 8 * i) });
                i += 1;
            }
            NpyData::Double(v)
        },
    }
}

// ── Files ────────────────────────────────────────────────────────────────

/// What a header says of its array.
pub struct NpyHeader {
    pub shape: Vec<usize>,
    pub precision: Precision,
}

/// What reading a header gives: fields are looked for in the order descr,
/// shape, fortran_order; then the order, the shape and the type are judged.
pub open spec fn header_read(
    descr: Option<Seq<char>>,
    shape: Option<Seq<char>>,
    fortran: Option<Seq<char>>,
    r: Result<NpyHeader, NpyError>,
) -> bool {
    if descr is None {
        r matches Err(NpyError::Parse(s)) && s@ == "missing descr"@
    } else if shape is None {
        r matches Err(NpyError::Parse(s)) && s@ == "missing shape"@
    } else if field_contains(fortran, "True"@) {
        r matches Err(NpyError::Parse(s)) && s@ == "Fortran order not supported"@
    } else {
        let name = strip(descr->0, CharClass::Quote);
        match (shape_of(shape->0), precision_of(name)) {
            (Err(e), _) => r matches Err(NpyError::Parse(s)) && s@ == "bad shape: "@ + e.text(),
            (Ok(_), None) => r matches Err(NpyError::Parse(s)) && s@ == "unsupported dtype: "@
                + name,
            (Ok(sizes), Some(p)) => r matches Ok(h) && h.shape@ == sizes && h.precision == p,
        }
    }
}

/// Reads the text of a header.
pub fn read_header(header: &str) -> (r: Result<NpyHeader, NpyError>)
    ensures
        exists|descr: Option<Seq<char>>, shape: Option<Seq<char>>, fortran: Option<Seq<char>>|
            {
                &&& is_field(header@, "descr"@, descr)
                &&& is_field(header@, "shape"@, shape)
                &&& is_field(header@, "fortran_order"@, fortran)
                &&& #[trigger] header_read(descr, shape, fortran, r)
            },
{
    let h = chars_of(header);
    let descr = field_chars(h.as_slice(), "descr");
    let shape = field_chars(h.as_slice(), "shape");
    let fortran = field_chars(h.as_slice(), "fortran_order");
    let r = judge_header(&descr, &shape, &fortran);
    assert(header_read(option_view(descr), option_view(shape), option_view(fortran), r));
    r
}

fn judge_header(
    descr: &Option<Vec<char>>,
    shape: &Option<Vec<char>>,
    fortran: &Option<Vec<char>>,
) -> (r: Result<NpyHeader, NpyError>)
    ensures
        header_read(option_view(*descr), option_view(*shape), option_view(*fortran), r),
{
    match (descr, shape) {
        (None, _) => Err(NpyError::Parse("missing descr".to_owned())),
        (Some(_), None) => Err(NpyError::Parse("missing shape".to_owned())),
        (Some(d), Some(s)) => {
            let truth = chars_of("True");
            let in_fortran_order: bool = match fortran {
                Some(f) => match find(f.as_slice(), truth.as_slice()) {
                    Some(i) => {
                        proof {
                            lemma_field_contains(
                                option_view(*fortran),
                                f@,
                                "True"@,
                                i as int,
                            );
                        }
                        true
                    },
                    None => false,
                },
                None => false,
            };
            if in_fortran_order {
                return Err(NpyError::Parse("Fortran order not supported".to_owned()));
            }
            let inner = trim_class(s.as_slice(), CharClass::TupleEdge);
            match parse_parts(inner.as_slice()) {
                Err(e) => Err(NpyError::Parse(join("bad shape: ", e.message()))),
                Ok(sizes) => {
                    let name = trim_class(d.as_slice(), CharClass::Quote);
                    match find_precision(name.as_slice()) {
                        None => {
                            let n = string_of(name.as_slice());
                            Err(NpyError::Parse(join("unsupported dtype: ", n.as_str())))
                        },
                        Some(p) => Ok(NpyHeader { shape: sizes, precision: p }),
                    }
                },
            }
        },
    }
}

/// What reading the numbers gives: the file must hold as many as the shape
/// calls for, from `start` on; what follows them is ignored.
pub open spec fn body_read(
    b: Seq<u8>,
    start: int,
    header: NpyHeader,
    r: Result<NpyArray, NpyError>,
) -> bool {
    let n = product(header.shape@);
    if start + n * header.precision.width() <= b.len() {
        r matches Ok(a) && a.shape@ == header.shape@ && decodes(
            b,
            start,
            n,
            header.precision,
            a.data,
        )
    } else {
        r matches Err(NpyError::Io)
    }
}

/// Reads the numbers of an array from `start` on.
pub fn read_body(b: &[u8], start: usize, header: NpyHeader) -> (r: Result<NpyArray, NpyError>)
    requires
        start <= b@.len(),
    ensures
        body_read(b@, start as int, header, r),
{
    let total: usize = b.len();
    let width: usize = header.precision.bytes();
    let room: usize = (total - start) / width;
    match entries_within(&header.shape, room) {
        None => {
            proof {
                let n = product(header.shape@);
                assert(start + n * header.precision.width() > b@.len()) by (nonlinear_arith)
                    requires
                        n > room,
                        room == (b@.len() - start) / (header.precision.width() as int),
                        header.precision.width() > 0,
                        start <= b@.len(),
                ;
            }
            Err(NpyError::Io)
        },
        Some(n) => {
            proof {
                assert(start + n * header.precision.width() <= b@.len()) by (nonlinear_arith)
                    requires
                        n <= room,
                        room == (b@.len() - start) / (header.precision.width() as int),
                        header.precision.width() > 0,
                        start <= b@.len(),
                ;
            }
            let data = decode(b, start, n, header.precision);
            Ok(NpyArray { shape: header.shape, data })
        },
    }
}

/// The text of bytes in UTF-8, as `String::from_utf8_lossy` reads them.
pub uninterp spec fn lossy_text(bytes: Seq<u8>) -> Seq<char>;

/// `String::from_utf8_lossy` of std: the text of the bytes. ASCII bytes are
/// their characters; how other bytes read is given a name.
#[verifier::external_body]
pub(crate) fn decode_lossy(bytes: &[u8]) -> (r: String)
    ensures
        r@ == lossy_text(bytes@),
        (forall|i: int| 0 <= i < bytes@.len() ==> #[trigger] bytes@[i] < 128) ==> r@ == Seq::new(
            bytes@.len(),
            |i: int| bytes@[i] as char,
        ),
{
    String::from_utf8_lossy(bytes).into_owned()
}

/// The file begins with the format's magic.
pub open spec fn has_magic(b: Seq<u8>) -> bool {
    b.len() >= 6 && b.subrange(0, 6) == seq![0x93u8, 0x4e, 0x55, 0x4d, 0x50, 0x59]
}

/// Where the header's text begins: version 1 gives its length in two bytes,
/// later versions in four.
pub open spec fn header_start(b: Seq<u8>) -> int {
    if b[6] == 1 {
        10
    } else {
        12
    }
}

/// Length of the header's text.
pub open spec fn header_len(b: Seq<u8>) -> int {
    if b[6] == 1 {
        le16(b, 8)
    } else {
        le32(b, 8)
    }
}

/// The file ends before its header does.
pub open spec fn header_cut(b: Seq<u8>) -> bool {
    b.len() < 8 || b.len() < header_start(b) || b.len() < header_start(b) + header_len(b)
}

fn check_magic(b: &[u8]) -> (r: bool)
    requires
        b@.len() >= 6,
    ensures
        r == has_magic(b@),
{
    let ok: bool = b[0] == 0x93 && b[1] == 0x4e && b[2] == 0x55 && b[3] == 0x4d && b[4] == 0x50
        && b[5] == 0x59;
    proof {
        let m = seq![0x93u8, 0x4e, 0x55, 0x4d, 0x50, 0x59];
        if ok {
            assert(b@.subrange(0, 6) =~= m);
        } else if has_magic(b@) {
            let s = b@.subrange(0, 6);
            assert(s[0] == m[0] && s[1] == m[1] && s[2] == m[2] && s[3] == m[3] && s[4] == m[4]
                && s[5] == m[5]);
        }
    }
    ok
}

/// `r` is the array in the contents of a file.
pub open spec fn is_array_of(b: Seq<u8>, r: Result<NpyArray, NpyError>) -> bool {
    if b.len() < 6 {
        r matches Err(NpyError::Io)
    } else if !has_magic(b) {
        r matches Err(NpyError::BadMagic)
    } else if header_cut(b) {
        r matches Err(NpyError::Io)
    } else {
        exists|header: Result<NpyHeader, NpyError>, descr: Option<Seq<char>>, shape: Option<
            Seq<char>,
        >, fortran: Option<Seq<char>>|
            {
                let start = header_start(b);
                let end = start + header_len(b);
                let text = lossy_text(b.subrange(start, end));
                &&& is_field(text, "descr"@, descr)
                &&& is_field(text, "shape"@, shape)
                &&& is_field(text, "fortran_order"@, fortran)
                &&& #[trigger] header_read(descr, shape, fortran, header)
                &&& match header {
                    Err(e) => r == Err::<NpyArray, NpyError>(e),
                    Ok(h) => body_read(b, end, h, r),
                }
            }
    }
}

/// Reads an array from the contents of a file.
pub fn load_npy_f32(b: &[u8]) -> (r: Result<NpyArray, NpyError>)
    ensures
        is_array_of(b@, r),
        r matches Ok(a) ==> a.complete(),
{
    let total: usize = b.len();
    if total < 6 {
        return Err(NpyError::Io);
    }
    if !check_magic(b) {
        return Err(NpyError::BadMagic);
    }
    if total < 8 {
        return Err(NpyError::Io);
    }
    let start: usize = if b[6] == 1 {
        10
    } else {
        12
    };
    if total < start {
        return Err(NpyError::Io);
    }
    let len: u32 = if b[6] == 1 {
        read16(b, 8) as u32
    } else {
        read32(b, 8)
    };
    if ((total - start) as u64) < len as u64 {
        return Err(NpyError::Io);
    }
    let end: usize = start + len as usize;
    let text = decode_lossy(vstd::slice::slice_subrange(b, start, end));
    match read_header(text.as_str()) {
        Err(e) => Err(e),
        Ok(h) => read_body(b, end, h),
    }
}

} // verus!
