//! Characters, decimal numbers and trimming.

use vstd::prelude::*;
use vstd::string::*;

verus! {

/// `String::push` of std appends one character.
pub assume_specification[ String::push ](s: &mut String, c: char)
    ensures
        final(s)@ == old(s)@.push(c),
;

// ── Characters ───────────────────────────────────────────────────────────

/// The characters with the Unicode property White_Space.
pub open spec fn whitespace(c: char) -> bool {
    let u = c as u32;
    ||| 0x09 <= u <= 0x0d
    ||| u == 0x20
    ||| u == 0x85
    ||| u == 0xa0
    ||| u == 0x1680
    ||| 0x2000 <= u <= 0x200a
    ||| u == 0x2028
    ||| u == 0x2029
    ||| u == 0x202f
    ||| u == 0x205f
    ||| u == 0x3000
}

pub fn is_whitespace(c: char) -> (r: bool)
    ensures
        r == whitespace(c),
{
    let u: u32 = c as u32;
    (0x09 <= u && u <= 0x0d) || u == 0x20 || u == 0x85 || u == 0xa0 || u == 0x1680 || (0x2000 <= u
        && u <= 0x200a) || u == 0x2028 || u == 0x2029 || u == 0x202f || u == 0x205f || u == 0x3000
}

/// The decimal digit that a character stands for.
pub open spec fn digit_value(c: char) -> Option<nat> {
    if '0' <= c && c <= '9' {
        Some((c as u32 - '0' as u32) as nat)
    } else {
        None
    }
}

/// The character of a decimal digit.
pub open spec fn digit_char(d: nat) -> char {
    ('0' as u32 + d) as char
}

fn digit_of(c: char) -> (r: Option<u8>)
    ensures
        match r {
            Some(d) => digit_value(c) == Some(d as nat) && d < 10,
            None => digit_value(c) is None,
        },
{
    if '0' <= c && c <= '9' {
        Some((c as u32 - '0' as u32) as u8)
    } else {
        None
    }
}

fn char_of(d: u8) -> (r: char)
    requires
        d < 10,
    ensures
        r == digit_char(d as nat),
{
    match d {
        0 => '0',
        1 => '1',
        2 => '2',
        3 => '3',
        4 => '4',
        5 => '5',
        6 => '6',
        7 => '7',
        8 => '8',
        _ => '9',
    }
}

/// Lower case of an ASCII letter; other characters stay.
pub open spec fn ascii_lower(c: char) -> char {
    if 'A' <= c && c <= 'Z' {
        (c as u32 + 32) as char
    } else {
        c
    }
}

/// The lower case of a text.
pub uninterp spec fn lowercase(s: Seq<char>) -> Seq<char>;

/// A text of ASCII characters.
pub open spec fn ascii_text(s: Seq<char>) -> bool {
    forall|i: int| 0 <= i < s.len() ==> (#[trigger] s[i]) as u32 <= 0x7f
}

/// `str::to_lowercase` of std: the lower case of a text by the mappings of
/// Unicode, and of ASCII text character by character.
#[verifier::external_body]
pub(crate) fn lowercase_of(s: &str) -> (r: String)
    ensures
        r@ == lowercase(s@),
        ascii_text(s@) ==> r@ == s@.map_values(|c: char| ascii_lower(c)),
{
    s.to_lowercase()
}

// ── Strings and their characters ─────────────────────────────────────────

/// The characters of a string.
pub fn chars_of(s: &str) -> (r: Vec<char>)
    ensures
        r@ == s@,
{
    let mut r: Vec<char> = Vec::new();
    for c in it: s.chars()
        invariant
            it.seq() == s@,
            r@ == s@.subrange(0, it.index() as int),
    {
        r.push(c);
        assert(r@ =~= s@.subrange(0, it.index() + 1));
    }
    assert(r@ =~= s@);
    r
}

/// The string of the given characters.
pub fn string_of(chars: &[char]) -> (r: String)
    ensures
        r@ == chars@,
{
    let mut r = String::new();
    let mut i: usize = 0;
    while i < chars.len()
        invariant
            i <= chars@.len(),
            r@ == chars@.subrange(0, i as int),
        decreases chars.len() - i,
    {
        r.push(chars[i]);
        i += 1;
        assert(r@ =~= chars@.subrange(0, i as int));
    }
    assert(r@ =~= chars@);
    r
}

/// Two strings joined.
pub fn join(a: &str, b: &str) -> (r: String)
    ensures
        r@ == a@ + b@,
{
    let mut r = String::new();
    r.append(a);
    r.append(b);
    assert(r@ =~= a@ + b@);
    r
}

/// Three strings joined.
pub fn join3(a: &str, b: &str, c: &str) -> (r: String)
    ensures
        r@ == a@ + b@ + c@,
{
    let mut r = join(a, b);
    r.append(c);
    r
}

/// The strings hold the same characters.
pub fn same(a: &str, b: &str) -> (r: bool)
    ensures
        r == (a@ == b@),
{
    let x = chars_of(a);
    let y = chars_of(b);
    same_chars(x.as_slice(), y.as_slice())
}

/// The slices hold the same characters.
pub fn same_chars(x: &[char], y: &[char]) -> (r: bool)
    ensures
        r == (x@ == y@),
{
    if x.len() != y.len() {
        return false;
    }
    let mut i: usize = 0;
    while i < x.len()
        invariant
            i <= x@.len(),
            x@.len() == y@.len(),
            forall|j: int| 0 <= j < i ==> x@[j] == y@[j],
        decreases x.len() - i,
    {
        if x[i] != y[i] {
            assert(x@[i as int] != y@[i as int]);
            return false;
        }
        i += 1;
    }
    assert(x@ =~= y@);
    true
}

// ── Order of texts ───────────────────────────────────────────────────────

/// `a` comes before `b`: by the first characters that differ, and a text
/// before those that go on from it.
pub open spec fn text_below(a: Seq<char>, b: Seq<char>) -> bool
    decreases a.len(),
{
    if b.len() == 0 {
        false
    } else if a.len() == 0 {
        true
    } else if a[0] != b[0] {
        a[0] < b[0]
    } else {
        text_below(a.subrange(1, a.len() as int), b.subrange(1, b.len() as int))
    }
}

pub fn is_text_below(a: &str, b: &str) -> (r: bool)
    ensures
        r == text_below(a@, b@),
{
    let x = chars_of(a);
    let y = chars_of(b);
    let mut i: usize = 0;
    assert(x@.subrange(0, x@.len() as int) =~= x@);
    assert(y@.subrange(0, y@.len() as int) =~= y@);
    while i < x.len() && i < y.len()
        invariant
            i <= x@.len(),
            i <= y@.len(),
            x@ == a@,
            y@ == b@,
            text_below(a@, b@) == text_below(
                x@.subrange(i as int, x@.len() as int),
                y@.subrange(i as int, y@.len() as int),
            ),
        decreases x.len() - i,
    {
        let ghost s = x@.subrange(i as int, x@.len() as int);
        let ghost t = y@.subrange(i as int, y@.len() as int);
        if x[i] != y[i] {
            assert(s[0] == x@[i as int] && t[0] == y@[i as int]);
            return x[i] < y[i];
        }
        proof {
            assert(s.subrange(1, s.len() as int) =~= x@.subrange(i + 1, x@.len() as int));
            assert(t.subrange(1, t.len() as int) =~= y@.subrange(i + 1, y@.len() as int));
        }
        i += 1;
    }
    x.len() < y.len()
}

/// Of two different texts one comes before the other, and no text before
/// itself.
pub proof fn lemma_text_order(a: Seq<char>, b: Seq<char>)
    ensures
        a == b ==> !text_below(a, b),
        a != b ==> text_below(a, b) != text_below(b, a),
    decreases a.len(),
{
    if a.len() > 0 && b.len() > 0 {
        let s = a.subrange(1, a.len() as int);
        let t = b.subrange(1, b.len() as int);
        lemma_text_order(s, t);
        if a[0] == b[0] && s == t {
            assert(a =~= seq![a[0]] + s);
            assert(b =~= seq![b[0]] + t);
        }
    } else if a.len() == 0 && b.len() == 0 {
        assert(a =~= b);
    }
}

/// The order of texts goes on: what comes before the former comes before the
/// latter.
pub proof fn lemma_text_order_transitive(a: Seq<char>, b: Seq<char>, c: Seq<char>)
    requires
        text_below(a, b),
        text_below(b, c),
    ensures
        text_below(a, c),
    decreases a.len(),
{
    if a.len() > 0 && a[0] == b[0] && b[0] == c[0] {
        lemma_text_order_transitive(
            a.subrange(1, a.len() as int),
            b.subrange(1, b.len() as int),
            c.subrange(1, c.len() as int),
        );
    }
}

// ── Trimming ─────────────────────────────────────────────────────────────

/// A set of characters to trim.
#[derive(Clone, Copy, Debug, PartialEq, Eq, Structural)]
pub enum CharClass {
    Whitespace,
    /// Parentheses and whitespace.
    TupleEdge,
    /// The single quote.
    Quote,
}

pub open spec fn in_class(c: char, class: CharClass) -> bool {
    match class {
        CharClass::Whitespace => whitespace(c),
        CharClass::TupleEdge => c == '(' || c == ')' || whitespace(c),
        CharClass::Quote => c == '\'',
    }
}

fn is_in_class(c: char, class: CharClass) -> (r: bool)
    ensures
        r == in_class(c, class),
{
    match class {
        CharClass::Whitespace => is_whitespace(c),
        CharClass::TupleEdge => c == '(' || c == ')' || is_whitespace(c),
        CharClass::Quote => c == '\'',
    }
}

/// `s` without the characters of the class that it begins with.
pub open spec fn strip_start(s: Seq<char>, class: CharClass) -> Seq<char>
    decreases s.len(),
{
    if s.len() > 0 && in_class(s[0], class) {
        strip_start(s.subrange(1, s.len() as int), class)
    } else {
        s
    }
}

/// `s` without the characters of the class that it ends with.
pub open spec fn strip_end(s: Seq<char>, class: CharClass) -> Seq<char>
    decreases s.len(),
{
    if s.len() > 0 && in_class(s.last(), class) {
        strip_end(s.drop_last(), class)
    } else {
        s
    }
}

/// `s` without the characters of the class at either end.
pub open spec fn strip(s: Seq<char>, class: CharClass) -> Seq<char> {
    strip_end(strip_start(s, class), class)
}

/// `s` without the whitespace at either end.
pub open spec fn trim_of(s: Seq<char>) -> Seq<char> {
    strip(s, CharClass::Whitespace)
}

pub fn trim_start_class(s: &[char], class: CharClass) -> (r: Vec<char>)
    ensures
        r@ == strip_start(s@, class),
{
    let mut i: usize = 0;
    assert(s@.subrange(0, s@.len() as int) =~= s@);
    while i < s.len() && is_in_class(s[i], class)
        invariant
            i <= s@.len(),
            strip_start(s@.subrange(i as int, s@.len() as int), class) == strip_start(s@, class),
        decreases s.len() - i,
    {
        assert(s@.subrange(i as int, s@.len() as int).subrange(1, s@.len() - i) =~= s@.subrange(
            i + 1,
            s@.len() as int,
        ));
        i += 1;
    }
    copy_range(s, i, s.len())
}

pub fn trim_end_class(s: &[char], class: CharClass) -> (r: Vec<char>)
    ensures
        r@ == strip_end(s@, class),
{
    let mut n: usize = s.len();
    assert(s@.subrange(0, s@.len() as int) =~= s@);
    while n > 0 && is_in_class(s[n - 1], class)
        invariant
            n <= s@.len(),
            strip_end(s@.subrange(0, n as int), class) == strip_end(s@, class),
        decreases n,
    {
        assert(s@.subrange(0, n as int).drop_last() =~= s@.subrange(0, n - 1));
        n -= 1;
    }
    copy_range(s, 0, n)
}

pub fn trim_class(s: &[char], class: CharClass) -> (r: Vec<char>)
    ensures
        r@ == strip(s@, class),
{
    let t = trim_start_class(s, class);
    trim_end_class(t.as_slice(), class)
}

pub fn trim(s: &[char]) -> (r: Vec<char>)
    ensures
        r@ == trim_of(s@),
{
    trim_class(s, CharClass::Whitespace)
}

// ── Searching ────────────────────────────────────────────────────────────

/// `p` stands in `s` at position `i`.
pub open spec fn occurs_at(s: Seq<char>, p: Seq<char>, i: int) -> bool {
    0 <= i && i + p.len() <= s.len() && s.subrange(i, i + p.len()) == p
}

/// `i` is the first place at which `p` stands in `s`.
pub open spec fn first_occurrence(s: Seq<char>, p: Seq<char>, i: int) -> bool {
    occurs_at(s, p, i) && forall|k: int| 0 <= k < i ==> !#[trigger] occurs_at(s, p, k)
}

/// Finds the first place at which `p` stands in `s`.
pub fn find(s: &[char], p: &[char]) -> (r: Option<usize>)
    ensures
        match r {
            Some(i) => first_occurrence(s@, p@, i as int),
            None => forall|k: int| !#[trigger] occurs_at(s@, p@, k),
        },
{
    let n: usize = s.len();
    let m: usize = p.len();
    let mut i: usize = 0;
    while i <= n && m <= n - i
        invariant
            n == s@.len(),
            m == p@.len(),
            i <= n + 1,
            n < usize::MAX || i <= n,
            forall|k: int| 0 <= k < i ==> !#[trigger] occurs_at(s@, p@, k),
        decreases n + 1 - i,
    {
        let part = copy_range(s, i, i + m);
        if same_chars(part.as_slice(), p) {
            return Some(i);
        }
        if i == n {
            return None;
        }
        i += 1;
    }
    None
}

/// First position from `from` on whose character is `a` or `b`; the length
/// where there is none.
pub open spec fn next_either(s: Seq<char>, from: nat, a: char, b: char) -> nat
    decreases s.len() - from,
{
    if from >= s.len() {
        s.len()
    } else if s[from as int] == a || s[from as int] == b {
        from
    } else {
        next_either(s, from + 1, a, b)
    }
}

pub fn find_either(s: &[char], from: usize, a: char, b: char) -> (r: usize)
    requires
        from <= s@.len(),
    ensures
        r == next_either(s@, from as nat, a, b),
        r <= s@.len(),
        r >= from,
{
    let mut i: usize = from;
    while i < s.len()
        invariant
            from <= i <= s@.len(),
            next_either(s@, i as nat, a, b) == next_either(s@, from as nat, a, b),
        decreases s.len() - i,
    {
        if s[i] == a || s[i] == b {
            return i;
        }
        i += 1;
    }
    i
}

/// The parts of `s` between commas.
pub open spec fn comma_parts(s: Seq<char>) -> Seq<Seq<char>>
    decreases s.len(),
{
    let i = next_either(s, 0, ',', ',');
    if i >= s.len() {
        seq![s]
    } else {
        seq![s.subrange(0, i as int)] + comma_parts(s.subrange(i as int + 1, s.len() as int))
    }
}

/// The characters from `from` up to `to`.
pub fn copy_range(s: &[char], from: usize, to: usize) -> (r: Vec<char>)
    requires
        from <= to <= s@.len(),
    ensures
        r@ == s@.subrange(from as int, to as int),
{
    let mut r: Vec<char> = Vec::new();
    let mut i: usize = from;
    while i < to
        invariant
            from <= i <= to <= s@.len(),
            r@ == s@.subrange(from as int, i as int),
        decreases to - i,
    {
        r.push(s[i]);
        i += 1;
        assert(r@ =~= s@.subrange(from as int, i as int));
    }
    r
}

// ── Numbers ──────────────────────────────────────────────────────────────

/// Decimal notation of a number.
pub open spec fn decimal(n: nat) -> Seq<char>
    decreases n,
{
    if n < 10 {
        seq![digit_char(n)]
    } else {
        decimal(n / 10).push(digit_char(n % 10))
    }
}

pub fn push_decimal(s: &mut String, n: u64)
    ensures
        final(s)@ == old(s)@ + decimal(n as nat),
    decreases n,
{
    if n >= 10 {
        push_decimal(s, n / 10);
    }
    s.push(char_of((n % 10) as u8));
    assert(s@ =~= old(s)@ + decimal(n as nat));
}

/// Decimal notation as a string.
pub fn decimal_string(n: u64) -> (r: String)
    ensures
        r@ == decimal(n as nat),
{
    let mut r = String::new();
    push_decimal(&mut r, n);
    assert(r@ =~= decimal(n as nat));
    r
}

/// Decimal notation of a number with a sign.
pub open spec fn signed_decimal(n: int) -> Seq<char> {
    if n < 0 {
        seq!['-'] + decimal((-n) as nat)
    } else {
        decimal(n as nat)
    }
}

pub fn signed_decimal_string(n: i32) -> (r: String)
    ensures
        r@ == signed_decimal(n as int),
{
    let wide: i64 = n as i64;
    if wide < 0 {
        let mut r = String::new();
        r.push('-');
        push_decimal(&mut r, (-wide) as u64);
        assert(r@ =~= seq!['-'] + decimal((-wide) as nat));
        r
    } else {
        decimal_string(wide as u64)
    }
}

/// `s` with spaces behind it up to `width` characters.
pub open spec fn padded(s: Seq<char>, width: nat) -> Seq<char> {
    if s.len() < width {
        s + Seq::new((width - s.len()) as nat, |i: int| ' ')
    } else {
        s
    }
}

pub fn pad(s: &str, width: usize) -> (r: String)
    ensures
        r@ == padded(s@, width as nat),
{
    let chars = chars_of(s);
    let mut r = string_of(chars.as_slice());
    let mut i: usize = chars.len();
    assert(r@ =~= s@ + Seq::new(0, |i: int| ' '));
    while i < width
        invariant
            chars@ == s@,
            chars@.len() <= i,
            i <= width || i == chars@.len(),
            r@ == s@ + Seq::new((i - s@.len()) as nat, |i: int| ' '),
        decreases width - i,
    {
        r.push(' ');
        i += 1;
        assert(r@ =~= s@ + Seq::new((i - s@.len()) as nat, |i: int| ' '));
    }
    assert(r@ =~= padded(s@, width as nat));
    r
}

/// The number that a row of decimal digits spells.
pub open spec fn digits_value(s: Seq<char>) -> nat
    decreases s.len(),
{
    if s.len() == 0 {
        0
    } else {
        digits_value(s.drop_last()) * 10 + digit_value(s.last()).unwrap_or(0)
    }
}

/// How many digits `s` begins with, counted from `i`.
pub open spec fn digit_run(s: Seq<char>, i: nat) -> nat
    decreases s.len() - i,
{
    if i < s.len() && digit_value(s[i as int]) is Some {
        1 + digit_run(s, i + 1)
    } else {
        0
    }
}

/// Why a text is no unsigned number.
#[derive(Clone, Copy, Debug, PartialEq, Eq, Structural)]
pub enum NumberError {
    Empty,
    InvalidDigit,
    Overflow,
}

impl NumberError {
    pub open spec fn text(self) -> Seq<char> {
        match self {
            NumberError::Empty => "cannot parse integer from empty string"@,
            NumberError::InvalidDigit => "invalid digit found in string"@,
            NumberError::Overflow => "number too large to fit in target type"@,
        }
    }

    pub fn message(self) -> (r: &'static str)
        ensures
            r@ == self.text(),
    {
        match self {
            NumberError::Empty => "cannot parse integer from empty string",
            NumberError::InvalidDigit => "invalid digit found in string",
            NumberError::Overflow => "number too large to fit in target type",
        }
    }
}

/// Digits of `s` behind an optional plus sign.
pub open spec fn unsigned_part(s: Seq<char>) -> Seq<char> {
    if s.len() > 1 && s[0] == '+' {
        s.subrange(1, s.len() as int)
    } else {
        s
    }
}

/// The unsigned number that `s` spells, which must fit `usize`: decimal
/// digits with an optional plus sign before them. The first fault from the
/// left is reported.
pub open spec fn number_of(s: Seq<char>) -> Result<usize, NumberError> {
    let d = unsigned_part(s);
    let run = digit_run(d, 0);
    let value = digits_value(d.subrange(0, run as int));
    if s.len() == 0 {
        Err(NumberError::Empty)
    } else if value > usize::MAX {
        Err(NumberError::Overflow)
    } else if run < d.len() {
        Err(NumberError::InvalidDigit)
    } else {
        Ok(value as usize)
    }
}

proof fn lemma_digit_run(s: Seq<char>, i: nat, j: nat)
    requires
        i <= j <= s.len(),
        forall|k: int| i <= k < j ==> digit_value(#[trigger] s[k]) is Some,
    ensures
        digit_run(s, i) == j - i + digit_run(s, j),
    decreases j - i,
{
    if i < j {
        lemma_digit_run(s, i + 1, j);
    }
}

proof fn lemma_digit_run_bound(s: Seq<char>, i: nat)
    requires
        i <= s.len(),
    ensures
        i + digit_run(s, i) <= s.len(),
    decreases s.len() - i,
{
    if i < s.len() && digit_value(s[i as int]) is Some {
        lemma_digit_run_bound(s, i + 1);
    }
}

proof fn lemma_digits_value_grows(s: Seq<char>, i: int, j: int)
    requires
        0 <= i <= j <= s.len(),
    ensures
        digits_value(s.subrange(0, i)) <= digits_value(s.subrange(0, j)),
    decreases j - i,
{
    if i < j {
        lemma_digits_value_grows(s, i, j - 1);
        assert(s.subrange(0, j).drop_last() =~= s.subrange(0, j - 1));
    }
}

pub fn parse_number(s: &[char]) -> (r: Result<usize, NumberError>)
    ensures
        r == number_of(s@),
{
    let n: usize = s.len();
    if n == 0 {
        return Err(NumberError::Empty);
    }
    let start: usize = if n > 1 && s[0] == '+' {
        1
    } else {
        0
    };
    let ghost d = unsigned_part(s@);
    assert(d =~= s@.subrange(start as int, n as int));
    let mut i: usize = start;
    let mut acc: usize = 0;
    assert(d.subrange(0, 0) =~= Seq::<char>::empty());
    while i < n
        invariant
            n == s@.len(),
            n > 0,
            start <= i <= n,
            d == unsigned_part(s@),
            d == s@.subrange(start as int, n as int),
            forall|k: int| 0 <= k < i - start ==> digit_value(#[trigger] d[k]) is Some,
            acc == digits_value(d.subrange(0, i - start)),
        decreases n - i,
    {
        let ghost k = (i - start) as nat;
        assert(d[k as int] == s@[i as int]);
        match digit_of(s[i]) {
            None => {
                proof {
                    lemma_digit_run(d, 0, k);
                }
                return Err(NumberError::InvalidDigit);
            },
            Some(x) => {
                proof {
                    lemma_digit_run(d, 0, k);
                    lemma_digit_run_bound(d, k + 1);
                    assert(d.subrange(0, (k + 1) as int).drop_last() =~= d.subrange(0, k as int));
                    lemma_digits_value_grows(d, (k + 1) as int, digit_run(d, 0) as int);
                }
                match acc.checked_mul(10) {
                    None => {
                        return Err(NumberError::Overflow);
                    },
                    Some(m) => match m.checked_add(x as usize) {
                        None => {
                            return Err(NumberError::Overflow);
                        },
                        Some(v) => {
                            acc = v;
                        },
                    },
                }
            },
        }
        i += 1;
    }
    proof {
        lemma_digit_run(d, 0, d.len());
        assert(d.subrange(0, d.len() as int) =~= d);
    }
    Ok(acc)
}

/// Decimal notation spells its number.
pub proof fn lemma_decimal_round_trip(n: nat)
    ensures
        digits_value(decimal(n)) == n,
        forall|i: int|
            0 <= i < decimal(n).len() ==> digit_value(#[trigger] decimal(n)[i]) is Some,
        decimal(n).len() > 0,
    decreases n,
{
    if n < 10 {
        assert(decimal(n).drop_last() =~= Seq::<char>::empty());
        assert(digits_value(decimal(n).drop_last()) == 0);
        assert(digit_value(digit_char(n)) == Some(n));
    } else {
        lemma_decimal_round_trip(n / 10);
        assert(decimal(n).drop_last() =~= decimal(n / 10));
        assert(digit_value(digit_char(n % 10)) == Some(n % 10));
        assert forall|i: int| 0 <= i < decimal(n).len() implies digit_value(
            #[trigger] decimal(n)[i],
        ) is Some by {
            if i < decimal(n).len() - 1 {
                assert(decimal(n)[i] == decimal(n / 10)[i]);
            }
        }
    }
}

/// Reading back the notation of a number that fits gives the number.
pub proof fn lemma_number_of_decimal(n: usize)
    ensures
        number_of(decimal(n as nat)) == Ok::<usize, NumberError>(n),
{
    lemma_decimal_round_trip(n as nat);
    let s = decimal(n as nat);
    assert(digit_value(s[0]) is Some);
    assert(unsigned_part(s) == s);
    lemma_digit_run(s, 0, s.len());
    assert(s.subrange(0, s.len() as int) =~= s);
}

} // verus!
