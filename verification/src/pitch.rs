//! Scientific pitch notation: the twelve semitones, parsing and rendering
//! of pitches such as `F♯4` or `C-2`, and the integer semitone arithmetic
//! underlying frequency conversion.

use vstd::prelude::*;

verus! {

/// Why a pitch string was rejected.
#[derive(Copy, Clone, Debug, PartialEq, Eq, Structural)]
pub enum PitchError {
    /// The string is empty where a note was expected.
    EmptyNote,
    /// The first character is not a note letter `A`..=`G`.
    BadNote,
    /// The letter and accidental name no semitone (such as `E♯` or `C♭`).
    BadSign,
    /// Text remains after a complete pitch or semitone.
    TrailingGarbage,
    /// The octave suffix is missing, malformed or out of range.
    BadOctave,
}

/// The twelve pitch classes of an octave, in ascending order from C.
#[derive(Copy, Clone, Debug, PartialEq, Eq, Structural)]
pub enum Semitone {
    C,
    Cs,
    D,
    Ds,
    E,
    F,
    Fs,
    G,
    Gs,
    A,
    As,
    B,
}

/// The position of a semitone within its octave, 0 at C through 11 at B.
pub open spec fn semitone_value(s: Semitone) -> int {
    match s {
        Semitone::C => 0,
        Semitone::Cs => 1,
        Semitone::D => 2,
        Semitone::Ds => 3,
        Semitone::E => 4,
        Semitone::F => 5,
        Semitone::Fs => 6,
        Semitone::G => 7,
        Semitone::Gs => 8,
        Semitone::A => 9,
        Semitone::As => 10,
        Semitone::B => 11,
    }
}

impl Semitone {
    /// The position within the octave, 0 at C through 11 at B.
    pub fn index(&self) -> (r: u8)
        ensures
            r as int == semitone_value(*self),
    {
        match self {
            Semitone::C => 0,
            Semitone::Cs => 1,
            Semitone::D => 2,
            Semitone::Ds => 3,
            Semitone::E => 4,
            Semitone::F => 5,
            Semitone::Fs => 6,
            Semitone::G => 7,
            Semitone::Gs => 8,
            Semitone::A => 9,
            Semitone::As => 10,
            Semitone::B => 11,
        }
    }

    /// The semitone at a given position within the octave, if any.
    pub fn from_u8(v: u8) -> (r: Option<Semitone>)
        ensures
            match r {
                Some(s) => v < 12 && semitone_value(s) == v as int,
                None => v >= 12,
            },
    {
        match v {
            0 => Some(Semitone::C),
            1 => Some(Semitone::Cs),
            2 => Some(Semitone::D),
            3 => Some(Semitone::Ds),
            4 => Some(Semitone::E),
            5 => Some(Semitone::F),
            6 => Some(Semitone::Fs),
            7 => Some(Semitone::G),
            8 => Some(Semitone::Gs),
            9 => Some(Semitone::A),
            10 => Some(Semitone::As),
            11 => Some(Semitone::B),
            _ => None,
        }
    }
}

/// Whether `c` spells a sharp accidental.
pub open spec fn is_sharp_char(c: char) -> bool {
    c == '\u{266f}' || c == '#' || c == 's'
}

/// Whether `c` spells a flat accidental.
pub open spec fn is_flat_char(c: char) -> bool {
    c == '\u{266d}' || c == 'b'
}

/// Whether `c` is a note letter `A` through `G`.
pub open spec fn is_note_letter(c: char) -> bool {
    c == 'A' || c == 'B' || c == 'C' || c == 'D' || c == 'E' || c == 'F' || c == 'G'
}

/// The semitone a note letter names under an accidental, if the combination
/// has a mapping: each sharp and flat spelling lands on one of the five
/// canonical sharps, and `E`/`B` sharp and `C`/`F` flat name nothing.
pub open spec fn spec_semitone_of(letter: char, sharp: bool, flat: bool) -> Option<Semitone> {
    if sharp {
        match letter {
            'C' => Some(Semitone::Cs),
            'D' => Some(Semitone::Ds),
            'F' => Some(Semitone::Fs),
            'G' => Some(Semitone::Gs),
            'A' => Some(Semitone::As),
            _ => None,
        }
    } else if flat {
        match letter {
            'D' => Some(Semitone::Cs),
            'E' => Some(Semitone::Ds),
            'G' => Some(Semitone::Fs),
            'A' => Some(Semitone::Gs),
            'B' => Some(Semitone::As),
            _ => None,
        }
    } else {
        match letter {
            'C' => Some(Semitone::C),
            'D' => Some(Semitone::D),
            'E' => Some(Semitone::E),
            'F' => Some(Semitone::F),
            'G' => Some(Semitone::G),
            'A' => Some(Semitone::A),
            'B' => Some(Semitone::B),
            _ => None,
        }
    }
}

/// Parse a semitone from the front of `s`: a note letter, then an optional
/// accidental. On success the result carries how many characters were
/// consumed (1 or 2).
pub open spec fn spec_semitone_prefix(s: Seq<char>) -> Result<(Semitone, int), PitchError> {
    if s.len() == 0 {
        Err(PitchError::EmptyNote)
    } else {
        let letter = s[0];
        let sharp = s.len() >= 2 && is_sharp_char(s[1]);
        let flat = s.len() >= 2 && is_flat_char(s[1]);
        let consumed: int = if sharp || flat {
            2
        } else {
            1
        };
        if !is_note_letter(letter) {
            Err(PitchError::BadNote)
        } else {
            match spec_semitone_of(letter, sharp, flat) {
                Some(st) => Ok((st, consumed)),
                None => Err(PitchError::BadSign),
            }
        }
    }
}

/// Parse a semitone that must consume the whole string.
pub open spec fn spec_parse_semitone(s: Seq<char>) -> Result<Semitone, PitchError> {
    match spec_semitone_prefix(s) {
        Ok((st, n)) => if n == s.len() {
            Ok(st)
        } else {
            Err(PitchError::TrailingGarbage)
        },
        Err(e) => Err(e),
    }
}

/// The canonical rendering of a semitone, spelling accidentals sharp.
pub open spec fn spec_semitone_chars(s: Semitone) -> Seq<char> {
    match s {
        Semitone::C => seq!['C'],
        Semitone::Cs => seq!['C', '\u{266f}'],
        Semitone::D => seq!['D'],
        Semitone::Ds => seq!['D', '\u{266f}'],
        Semitone::E => seq!['E'],
        Semitone::F => seq!['F'],
        Semitone::Fs => seq!['F', '\u{266f}'],
        Semitone::G => seq!['G'],
        Semitone::Gs => seq!['G', '\u{266f}'],
        Semitone::A => seq!['A'],
        Semitone::As => seq!['A', '\u{266f}'],
        Semitone::B => seq!['B'],
    }
}

impl Semitone {
    /// The exec form of `spec_semitone_of`.
    fn semitone_of(letter: char, sharp: bool, flat: bool) -> (r: Option<Semitone>)
        ensures
            r == spec_semitone_of(letter, sharp, flat),
    {
        if sharp {
            match letter {
                'C' => Some(Semitone::Cs),
                'D' => Some(Semitone::Ds),
                'F' => Some(Semitone::Fs),
                'G' => Some(Semitone::Gs),
                'A' => Some(Semitone::As),
                _ => None,
            }
        } else if flat {
            match letter {
                'D' => Some(Semitone::Cs),
                'E' => Some(Semitone::Ds),
                'G' => Some(Semitone::Fs),
                'A' => Some(Semitone::Gs),
                'B' => Some(Semitone::As),
                _ => None,
            }
        } else {
            match letter {
                'C' => Some(Semitone::C),
                'D' => Some(Semitone::D),
                'E' => Some(Semitone::E),
                'F' => Some(Semitone::F),
                'G' => Some(Semitone::G),
                'A' => Some(Semitone::A),
                'B' => Some(Semitone::B),
                _ => None,
            }
        }
    }

    /// Parse a semitone from the front of `val`, returning it with the rest
    /// of the string: a note letter `A`-`G`, then optionally `♯`, `#` or `s`
    /// for sharp, or `♭` or `b` for flat. Combinations that name no
    /// semitone (such as `E♯` or `C♭`) are rejected.
    pub fn try_from_prefix<'a>(val: &'a str) -> (r: Result<(Semitone, &'a str), PitchError>)
        ensures
            (match (r, spec_semitone_prefix(val@)) {
                (Ok((st, rem)), Ok((st2, n))) => st == st2 && rem@ == val@.skip(n),
                (Err(e), Err(e2)) => e == e2,
                _ => false,
            }),
    {
        let n = val.unicode_len();
        if n == 0 {
            return Err(PitchError::EmptyNote);
        }
        let letter = val.get_char(0);
        let mut sharp = false;
        let mut flat = false;
        if n >= 2 {
            let c1 = val.get_char(1);
            sharp = c1 == '\u{266f}' || c1 == '#' || c1 == 's';
            flat = c1 == '\u{266d}' || c1 == 'b';
        }
        let consumed: usize = if sharp || flat {
            2
        } else {
            1
        };
        if !(letter == 'A' || letter == 'B' || letter == 'C' || letter == 'D' || letter == 'E'
            || letter == 'F' || letter == 'G') {
            return Err(PitchError::BadNote);
        }
        match Semitone::semitone_of(letter, sharp, flat) {
            Some(st) => {
                let rem = val.substring_char(consumed, n);
                proof {
                    assert(rem@ =~= val@.skip(consumed as int));
                }
                Ok((st, rem))
            },
            None => Err(PitchError::BadSign),
        }
    }

    /// Parse a semitone that must consume the whole string.
    pub fn try_from(val: &str) -> (r: Result<Semitone, PitchError>)
        ensures
            r == spec_parse_semitone(val@),
    {
        match Semitone::try_from_prefix(val) {
            Ok((st, rem)) => {
                if rem.unicode_len() == 0 {
                    Ok(st)
                } else {
                    Err(PitchError::TrailingGarbage)
                }
            },
            Err(e) => Err(e),
        }
    }

    /// The canonical rendering, spelling accidentals sharp.
    pub fn to_string(&self) -> (r: String)
        ensures
            r@ == spec_semitone_chars(*self),
    {
        let s: &str = match self {
            Semitone::C => "C",
            Semitone::Cs => "C\u{266f}",
            Semitone::D => "D",
            Semitone::Ds => "D\u{266f}",
            Semitone::E => "E",
            Semitone::F => "F",
            Semitone::Fs => "F\u{266f}",
            Semitone::G => "G",
            Semitone::Gs => "G\u{266f}",
            Semitone::A => "A",
            Semitone::As => "A\u{266f}",
            Semitone::B => "B",
        };
        proof {
            reveal_strlit("C");
            reveal_strlit("C\u{266f}");
            reveal_strlit("D");
            reveal_strlit("D\u{266f}");
            reveal_strlit("E");
            reveal_strlit("F");
            reveal_strlit("F\u{266f}");
            reveal_strlit("G");
            reveal_strlit("G\u{266f}");
            reveal_strlit("A");
            reveal_strlit("A\u{266f}");
            reveal_strlit("B");
            assert(s@ =~= spec_semitone_chars(*self));
        }
        s.to_owned()
    }
}

/// Parsing the canonical rendering of a semitone gives back that semitone,
/// for every one of the twelve semitones.
pub proof fn lemma_semitone_roundtrip(s: Semitone)
    ensures
        spec_parse_semitone(spec_semitone_chars(s)) == Ok::<Semitone, PitchError>(s),
{
}

/// The value of a decimal digit character, or -1 for any other character.
pub open spec fn spec_digit_val(c: char) -> int {
    match c {
        '0' => 0,
        '1' => 1,
        '2' => 2,
        '3' => 3,
        '4' => 4,
        '5' => 5,
        '6' => 6,
        '7' => 7,
        '8' => 8,
        '9' => 9,
        _ => -1,
    }
}

pub open spec fn is_digit_char(c: char) -> bool {
    spec_digit_val(c) >= 0
}

/// The value of an all-digit sequence, most significant digit first.
pub open spec fn spec_digits_val(s: Seq<char>) -> int
    decreases s.len(),
{
    if s.len() == 0 {
        0
    } else {
        spec_digits_val(s.drop_last()) * 10 + spec_digit_val(s.last())
    }
}

/// How many leading characters of `s` are digits.
pub open spec fn spec_digit_prefix_len(s: Seq<char>) -> int
    decreases s.len(),
{
    if s.len() == 0 {
        0
    } else if is_digit_char(s[0]) {
        1 + spec_digit_prefix_len(s.skip(1))
    } else {
        0
    }
}

/// Parse a signed decimal integer that must consume the whole string: an
/// optional `-` or `+`, then at least one digit and nothing after. A value
/// outside `i16` is rejected as a bad octave; text after the digits is
/// trailing garbage.
pub open spec fn spec_parse_octave(s: Seq<char>) -> Result<int, PitchError> {
    let signed = s.len() >= 1 && (s[0] == '-' || s[0] == '+');
    let neg = s.len() >= 1 && s[0] == '-';
    let rest = if signed {
        s.skip(1)
    } else {
        s
    };
    let nd = spec_digit_prefix_len(rest);
    if nd == 0 {
        Err(PitchError::BadOctave)
    } else if nd < rest.len() {
        Err(PitchError::TrailingGarbage)
    } else {
        let v = if neg {
            -spec_digits_val(rest)
        } else {
            spec_digits_val(rest)
        };
        if -32768 <= v <= 32767 {
            Ok(v)
        } else {
            Err(PitchError::BadOctave)
        }
    }
}

/// A pitch: a semitone within an octave, the octave number, and a fine
/// tuning offset in cents (hundredths of a semitone).
#[derive(Copy, Clone, Debug, PartialEq, Eq, Structural)]
pub struct Pitch {
    /// e.g. the 4 in C4.
    pub octave: i16,
    /// Which semitone in the octave (C is 0).
    pub semitone: Semitone,
    /// How far out of tune, in hundredths of a semitone.
    pub cents: i16,
}

/// Parse a full pitch: a semitone prefix followed by a signed integer
/// octave, consuming the whole string.
pub open spec fn spec_parse_pitch(s: Seq<char>) -> Result<Pitch, PitchError> {
    match spec_semitone_prefix(s) {
        Ok((st, n)) => match spec_parse_octave(s.skip(n)) {
            Ok(o) => Ok(Pitch { octave: o as i16, semitone: st, cents: 0 }),
            Err(e) => Err(e),
        },
        Err(e) => Err(e),
    }
}

proof fn lemma_digits_val_nonneg(s: Seq<char>)
    requires
        forall|j: int| 0 <= j < s.len() ==> is_digit_char(#[trigger] s[j]),
    ensures
        spec_digits_val(s) >= 0,
    decreases s.len(),
{
    if s.len() > 0 {
        lemma_digits_val_nonneg(s.drop_last());
    }
}

proof fn lemma_digit_prefix_len_of(s: Seq<char>, k: int)
    requires
        0 <= k <= s.len(),
        forall|j: int| 0 <= j < k ==> is_digit_char(#[trigger] s[j]),
        k == s.len() || !is_digit_char(s[k]),
    ensures
        spec_digit_prefix_len(s) == k,
    decreases s.len(),
{
    if s.len() > 0 && k > 0 {
        lemma_digit_prefix_len_of(s.skip(1), k - 1);
    }
}

/// The exec form of `spec_digit_val`.
fn digit_of(c: char) -> (r: Option<u8>)
    ensures
        match r {
            Some(d) => spec_digit_val(c) == d as int && d < 10,
            None => spec_digit_val(c) < 0,
        },
{
    match c {
        '0' => Some(0),
        '1' => Some(1),
        '2' => Some(2),
        '3' => Some(3),
        '4' => Some(4),
        '5' => Some(5),
        '6' => Some(6),
        '7' => Some(7),
        '8' => Some(8),
        '9' => Some(9),
        _ => None,
    }
}

/// Parse the octave suffix: the exec form of `spec_parse_octave`. While
/// accumulating, the value is capped well above the `i16` range so that
/// overlong inputs are still scanned for trailing garbage first and then
/// rejected on range.
fn parse_octave(s: &str) -> (r: Result<i16, PitchError>)
    ensures
        (match (r, spec_parse_octave(s@)) {
            (Ok(v), Ok(sv)) => v as int == sv,
            (Err(e), Err(e2)) => e == e2,
            _ => false,
        }),
{
    let n = s.unicode_len();
    let mut i: usize = 0;
    let mut neg = false;
    if n >= 1 {
        let c0 = s.get_char(0);
        if c0 == '-' {
            neg = true;
            i = 1;
        } else if c0 == '+' {
            i = 1;
        }
    }
    let start = i;
    let ghost rest: Seq<char> = s@.skip(start as int);
    proof {
        assert(s@.skip(0) =~= s@);
    }

    // Find where the digit prefix ends.
    let mut end = start;
    while end < n
        invariant
            start <= end <= n,
            n as int == s@.len(),
            forall|j: int| start as int <= j < end as int ==> is_digit_char(#[trigger] s@[j]),
        ensures
            start <= end <= n,
            n as int == s@.len(),
            forall|j: int| start as int <= j < end as int ==> is_digit_char(#[trigger] s@[j]),
            end == n || !is_digit_char(s@[end as int]),
        decreases n - end,
    {
        match digit_of(s.get_char(end)) {
            Some(_) => {
                end = end + 1;
            },
            None => {
                break;
            },
        }
    }
    proof {
        lemma_digit_prefix_len_of(rest, end as int - start as int);
    }

    if end == start {
        return Err(PitchError::BadOctave);
    }
    if end < n {
        return Err(PitchError::TrailingGarbage);
    }

    // All of `rest` is digits; accumulate its value, capped at 100000.
    let mut acc: u32 = 0;
    let mut k = start;
    while k < end
        invariant
            start <= k <= end <= n,
            n as int == s@.len(),
            end == n,
            rest == s@.skip(start as int),
            forall|j: int| start as int <= j < end as int ==> is_digit_char(#[trigger] s@[j]),
            acc <= 100000,
            acc as int == (if spec_digits_val(s@.subrange(start as int, k as int)) <= 100000 {
                spec_digits_val(s@.subrange(start as int, k as int))
            } else {
                100000int
            }),
        decreases end - k,
    {
        let ghost seen: Seq<char> = s@.subrange(start as int, k as int);
        let ghost next: Seq<char> = s@.subrange(start as int, k as int + 1);
        let d = match digit_of(s.get_char(k)) {
            Some(d) => d,
            None => {
                proof {
                    assert(false);
                }
                0
            },
        };
        proof {
            assert(next.drop_last() =~= seen);
            assert(next.last() == s@[k as int]);
            assert(spec_digits_val(next) == spec_digits_val(seen) * 10 + d as int);
            lemma_digits_val_nonneg(seen);
        }
        let a = acc * 10 + d as u32;
        acc = if a > 100000 {
            100000
        } else {
            a
        };
        k = k + 1;
    }
    proof {
        assert(s@.subrange(start as int, end as int) =~= rest);
    }

    if neg {
        if acc > 32768 {
            Err(PitchError::BadOctave)
        } else {
            let v = -(acc as i32);
            proof {
                assert(v as int == -(acc as int));
                assert(-32768 <= v as int <= 32767);
                assert((v as i16) as int == v as int);
            }
            Ok(v as i16)
        }
    } else {
        if acc > 32767 {
            Err(PitchError::BadOctave)
        } else {
            proof {
                assert((acc as u16 as i16) as int == acc as int);
            }
            Ok(acc as u16 as i16)
        }
    }
}

impl Pitch {
    pub fn new(semitone: Semitone, octave: i16) -> (r: Pitch)
        ensures
            r.semitone == semitone,
            r.octave == octave,
            r.cents == 0,
    {
        Pitch { semitone, octave, cents: 0 }
    }

    pub fn new_with_cents(semitone: Semitone, octave: i16, cents: i16) -> (r: Pitch)
        ensures
            r.semitone == semitone,
            r.octave == octave,
            r.cents == cents,
    {
        Pitch { semitone, octave, cents }
    }

    /// Parse a pitch such as `F♯4` or `C-2`: a semitone followed by a
    /// signed integer octave, consuming the whole string. Cents are not
    /// part of the text form accepted here.
    pub fn try_from(val: &str) -> (r: Result<Pitch, PitchError>)
        ensures
            r == spec_parse_pitch(val@),
    {
        match Semitone::try_from_prefix(val) {
            Ok((semitone, remain)) => match parse_octave(remain) {
                Ok(octave) => Ok(Pitch { octave, semitone, cents: 0 }),
                Err(e) => Err(e),
            },
            Err(e) => Err(e),
        }
    }
}

/// The decimal digit character for a value 0 through 9.
pub open spec fn spec_digit_char(d: int) -> char {
    if d == 0 {
        '0'
    } else if d == 1 {
        '1'
    } else if d == 2 {
        '2'
    } else if d == 3 {
        '3'
    } else if d == 4 {
        '4'
    } else if d == 5 {
        '5'
    } else if d == 6 {
        '6'
    } else if d == 7 {
        '7'
    } else if d == 8 {
        '8'
    } else {
        '9'
    }
}

/// The decimal rendering of a non-negative integer, no sign, no leading
/// zeros (except for 0 itself).
pub open spec fn spec_nat_chars(n: int) -> Seq<char>
    decreases n,
{
    if n < 10 {
        seq![spec_digit_char(n)]
    } else {
        spec_nat_chars(n / 10).push(spec_digit_char(n % 10))
    }
}

/// The decimal rendering of a signed integer.
pub open spec fn spec_int_chars(n: int) -> Seq<char> {
    if n < 0 {
        seq!['-'] + spec_nat_chars(-n)
    } else {
        spec_nat_chars(n)
    }
}

/// The rendering of a cents offset: nothing when zero, otherwise the value
/// with an explicit sign.
pub open spec fn spec_cents_chars(c: int) -> Seq<char> {
    if c == 0 {
        Seq::<char>::empty()
    } else if c > 0 {
        seq!['+'] + spec_nat_chars(c)
    } else {
        seq!['-'] + spec_nat_chars(-c)
    }
}

/// The canonical rendering of a pitch: semitone (sharp spelling), octave,
/// then the cents offset with an explicit sign when non-zero.
pub open spec fn spec_pitch_chars(p: Pitch) -> Seq<char> {
    spec_semitone_chars(p.semitone) + spec_int_chars(p.octave as int) + spec_cents_chars(
        p.cents as int,
    )
}

/// The exec form of `spec_digit_char`.
fn digit_char_of(d: u32) -> (r: char)
    requires
        d < 10,
    ensures
        r == spec_digit_char(d as int),
{
    match d {
        0 => '0',
        1 => '1',
        2 => '2',
        3 => '3',
        4 => '4',
        5 => '5',
        6 => '6',
        7 => '7',
        8 => '8',
        _ => '9',
    }
}

/// Append the decimal rendering of `n` to `out`.
fn push_nat_chars(out: &mut Vec<char>, n: u32)
    ensures
        final(out)@ == old(out)@ + spec_nat_chars(n as int),
    decreases n,
{
    if n < 10 {
        out.push(digit_char_of(n));
        proof {
            assert(old(out)@.push(spec_digit_char(n as int)) =~= old(out)@ + spec_nat_chars(
                n as int,
            ));
        }
    } else {
        push_nat_chars(out, n / 10);
        out.push(digit_char_of(n % 10));
        proof {
            assert((old(out)@ + spec_nat_chars(n as int / 10)).push(
                spec_digit_char(n as int % 10),
            ) =~= old(out)@ + spec_nat_chars(n as int));
        }
    }
}

/// Relies on `String::from_iter` over a vector of characters: the returned
/// string holds exactly those characters in order.
#[verifier::external_body]
fn chars_to_string(v: &Vec<char>) -> (r: String)
    ensures
        r@ == v@,
{
    String::from_iter(v.iter().copied())
}

impl Pitch {
    /// The canonical rendering: semitone with sharp spelling, octave, and
    /// the cents offset with an explicit sign when non-zero.
    pub fn to_string(&self) -> (r: String)
        ensures
            r@ == spec_pitch_chars(*self),
    {
        let mut tail: Vec<char> = Vec::new();
        if self.octave < 0 {
            tail.push('-');
            push_nat_chars(&mut tail, (-(self.octave as i32)) as u32);
            proof {
                assert(seq!['-'] + spec_nat_chars(-(self.octave as int)) =~= tail@);
            }
        } else {
            push_nat_chars(&mut tail, self.octave as u32);
        }
        let ghost octave_chars: Seq<char> = tail@;
        proof {
            assert(octave_chars == spec_int_chars(self.octave as int));
        }
        if self.cents != 0 {
            if self.cents > 0 {
                tail.push('+');
                push_nat_chars(&mut tail, self.cents as u32);
                proof {
                    assert(tail@ =~= octave_chars + (seq!['+'] + spec_nat_chars(
                        self.cents as int,
                    )));
                }
            } else {
                tail.push('-');
                push_nat_chars(&mut tail, (-(self.cents as i32)) as u32);
                proof {
                    assert(tail@ =~= octave_chars + (seq!['-'] + spec_nat_chars(
                        -(self.cents as int),
                    )));
                }
            }
        }
        proof {
            assert(tail@ == octave_chars + spec_cents_chars(self.cents as int));
        }
        let tail_str = chars_to_string(&tail);
        let head = self.semitone.to_string();
        let r = head.concat(tail_str.as_str());
        proof {
            assert(r@ =~= spec_pitch_chars(*self));
        }
        r
    }

    /// The octave and semitone reached by moving `count` rounded semitones
    /// up from the C of the reference octave, using floored division so
    /// negative counts land in the correct lower octaves; `cents` is
    /// attached unchanged. Nothing is returned only when the resulting
    /// octave does not fit in `i16`.
    pub fn from_semitone_count(count: i32, ref_octave: i16, cents: i16) -> (r: Option<Pitch>)
        ensures
            (match r {
                Some(p) => {
                    &&& -32768 <= ref_octave as int + count as int / 12 <= 32767
                    &&& p.octave as int == ref_octave as int + count as int / 12
                    &&& semitone_value(p.semitone) == count as int % 12
                    &&& p.cents == cents
                },
                None => ref_octave as int + count as int / 12 < -32768 || ref_octave as int
                    + count as int / 12 > 32767,
            }),
    {
        let (q, rem): (i64, u8) = if count >= 0 {
            let m = count as u64;
            ((m / 12) as i64, (m % 12) as u8)
        } else {
            let m = (-(count as i64)) as u64;
            let qm = m / 12;
            let rm = m % 12;
            if rm == 0 {
                (-(qm as i64), 0)
            } else {
                (-(qm as i64) - 1, (12 - rm) as u8)
            }
        };
        proof {
            vstd::arithmetic::div_mod::lemma_fundamental_div_mod(count as int, 12);
            if count >= 0 {
                vstd::arithmetic::div_mod::lemma_fundamental_div_mod_converse(
                    count as int,
                    12,
                    q as int,
                    rem as int,
                );
            } else {
                let m = -(count as int);
                vstd::arithmetic::div_mod::lemma_fundamental_div_mod(m, 12);
                assert(count as int == 12 * (q as int) + rem as int) by (nonlinear_arith)
                    requires
                        m == 12 * (m / 12) + m % 12,
                        m == -(count as int),
                        (rem as int == 0 && q as int == -(m / 12) && m % 12 == 0) || (rem as int
                            == 12 - m % 12 && q as int == -(m / 12) - 1 && m % 12 != 0),
                ;
                vstd::arithmetic::div_mod::lemma_fundamental_div_mod_converse(
                    count as int,
                    12,
                    q as int,
                    rem as int,
                );
            }
        }
        let st = match Semitone::from_u8(rem) {
            Some(st) => st,
            None => {
                proof {
                    assert(false);
                }
                Semitone::C
            },
        };
        let o = ref_octave as i64 + q;
        if o < -32768 || o > 32767 {
            None
        } else {
            Some(Pitch { octave: o as i16, semitone: st, cents })
        }
    }

    /// The signed number of whole semitones from `reference` to this pitch,
    /// ignoring cents.
    pub fn semitone_distance(&self, reference: &Pitch) -> (r: i32)
        ensures
            r as int == semitone_value(self.semitone) + 12 * (self.octave as int
                - reference.octave as int) - semitone_value(reference.semitone),
    {
        let st = self.semitone.index() as i32;
        let rst = reference.semitone.index() as i32;
        let od = self.octave as i32 - reference.octave as i32;
        st + 12 * od - rst
    }
}

proof fn lemma_nat_chars_props(m: int)
    requires
        m >= 0,
    ensures
        spec_nat_chars(m).len() >= 1,
        forall|j: int|
            0 <= j < spec_nat_chars(m).len() ==> is_digit_char(#[trigger] spec_nat_chars(m)[j]),
        spec_digits_val(spec_nat_chars(m)) == m,
    decreases m,
{
    if m < 10 {
        let c = spec_digit_char(m);
        assert(seq![c].drop_last() =~= Seq::<char>::empty());
        assert(spec_digits_val(Seq::<char>::empty()) == 0);
        assert(seq![c].last() == c);
        assert(spec_digits_val(seq![c]) == spec_digit_val(c));
    } else {
        lemma_nat_chars_props(m / 10);
        vstd::arithmetic::div_mod::lemma_fundamental_div_mod(m, 10);
        let prefix = spec_nat_chars(m / 10);
        let whole = prefix.push(spec_digit_char(m % 10));
        assert(whole.drop_last() =~= prefix);
        assert(whole.last() == spec_digit_char(m % 10));
        assert(spec_digits_val(whole) == spec_digits_val(prefix) * 10 + spec_digit_val(
            spec_digit_char(m % 10),
        ));
    }
}

proof fn lemma_digit_is_plain(c: char)
    requires
        is_digit_char(c),
    ensures
        !is_sharp_char(c),
        !is_flat_char(c),
        c != '-',
        c != '+',
{
}

/// Parsing the canonical rendering of any pitch with no cents offset gives
/// back that pitch: rendering and parsing are mutually inverse on the
/// semitone-and-octave text form.
pub proof fn lemma_pitch_roundtrip(p: Pitch)
    requires
        p.cents == 0,
    ensures
        spec_parse_pitch(spec_pitch_chars(p)) == Ok::<Pitch, PitchError>(p),
{
    let sc = spec_semitone_chars(p.semitone);
    let oc = spec_int_chars(p.octave as int);
    let s = spec_pitch_chars(p);
    let o = p.octave as int;
    assert(s =~= sc + oc);
    if o >= 0 {
        lemma_nat_chars_props(o);
    } else {
        lemma_nat_chars_props(-o);
    }
    assert(oc.len() >= 1);
    assert(is_digit_char(oc[0]) || oc[0] == '-');
    lemma_digit_is_plain_all(oc);

    // The semitone prefix consumes exactly the semitone's own characters:
    // whatever follows is a sign or a digit, never an accidental.
    assert(s[0] == sc[0]);
    assert(spec_semitone_prefix(s) == Ok::<(Semitone, int), PitchError>((p.semitone, sc.len() as int)));

    // The rest of the string is exactly the octave text.
    let rest = s.skip(sc.len() as int);
    assert(rest =~= oc);
    if o >= 0 {
        lemma_digit_prefix_len_of(oc, oc.len() as int);
        assert(spec_parse_octave(oc) == Ok::<int, PitchError>(o));
    } else {
        let digits = spec_nat_chars(-o);
        assert(oc.skip(1) =~= digits);
        lemma_digit_prefix_len_of(digits, digits.len() as int);
        assert(spec_parse_octave(oc) == Ok::<int, PitchError>(o));
    }
}

proof fn lemma_digit_is_plain_all(s: Seq<char>)
    ensures
        forall|j: int|
            0 <= j < s.len() && is_digit_char(#[trigger] s[j]) ==> !is_sharp_char(s[j])
                && !is_flat_char(s[j]) && s[j] != '-' && s[j] != '+',
{
    assert forall|j: int|
        0 <= j < s.len() && is_digit_char(#[trigger] s[j]) implies !is_sharp_char(s[j])
        && !is_flat_char(s[j]) && s[j] != '-' && s[j] != '+' by {
        lemma_digit_is_plain(s[j]);
    }
}

/// Round trip of the integer pitch arithmetic: take a pitch's semitone
/// distance from a reference (as frequency conversion computes it), add
/// back the reference's semitone to get a count from the C of the reference
/// octave, and split that count by floored division. The split restores the
/// original octave and semitone exactly.
pub proof fn lemma_semitone_count_roundtrip(p: Pitch, reference: Pitch)
    ensures
        ({
            let distance = semitone_value(p.semitone) + 12 * (p.octave as int
                - reference.octave as int) - semitone_value(reference.semitone);
            let count = distance + semitone_value(reference.semitone);
            &&& reference.octave as int + count / 12 == p.octave as int
            &&& count % 12 == semitone_value(p.semitone)
        }),
{
    let diff = p.octave as int - reference.octave as int;
    let count = semitone_value(p.semitone) + 12 * diff;
    vstd::arithmetic::div_mod::lemma_fundamental_div_mod_converse(
        count,
        12,
        diff,
        semitone_value(p.semitone),
    );
}

} // verus!
