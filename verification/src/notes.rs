//! The note-name parser that builds the tone track at startup.
//!
//! A note name is `<letter A-G>[# or b]<octave digits>`: the letter picks a
//! semitone offset in the C major scale, a sharp adds one semitone and a flat
//! subtracts one — both wrapping within the same octave, without octave carry
//! — and the octave digits place it: pitch code `(octave + 1) * 12` plus the
//! offset, so that `C4` is 60 and `A4` is 69. Malformed names fail with a
//! parse error, since the track is fixed data validated once at load time.

use vstd::prelude::*;
use vstd::string::StrSliceExecFns;
use vstd::utf8::is_ascii_chars;

verus! {

/// Why a note name failed to parse.
#[derive(Clone, Copy, PartialEq, Eq, Structural, Debug)]
pub enum NoteError {
    /// The name contains a character outside ASCII.
    NotAscii,
    /// The name is empty or does not start with a letter A to G.
    UnknownLetter,
    /// The octave digits are missing, or a non-digit stands among them.
    BadOctave,
    /// The pitch code does not fit the result type.
    OutOfRange,
}

/// The semitone offset of a note letter in the C major scale, or -1 for any
/// other character.
pub open spec fn letter_base(c: char) -> int {
    if c == 'C' {
        0
    } else if c == 'D' {
        2
    } else if c == 'E' {
        4
    } else if c == 'F' {
        5
    } else if c == 'G' {
        7
    } else if c == 'A' {
        9
    } else if c == 'B' {
        11
    } else {
        -1
    }
}

pub open spec fn is_note_letter(c: char) -> bool {
    letter_base(c) >= 0
}

/// A sharp raises the offset one semitone, wrapping 11 back to 0 within the
/// same octave; a flat lowers it one, wrapping 0 up to 11. There is no
/// octave carry. Any other character leaves the offset alone.
pub open spec fn accidental_shift(base: int, acc: char) -> int {
    if acc == '#' {
        if base <= 10 {
            base + 1
        } else {
            base - 11
        }
    } else if acc == 'b' {
        if base == 0 {
            base + 11
        } else {
            base - 1
        }
    } else {
        base
    }
}

/// Whether the name carries an accidental in its second position.
pub open spec fn has_accidental(s: Seq<char>) -> bool {
    s.len() >= 2 && (s[1] == '#' || s[1] == 'b')
}

/// The characters that must spell the octave: everything after the letter
/// and the accidental, if one is there.
pub open spec fn octave_digits(s: Seq<char>) -> Seq<char> {
    s.skip(
        if has_accidental(s) {
            2
        } else {
            1
        },
    )
}

pub open spec fn is_digit(c: char) -> bool {
    '0' <= c <= '9'
}

pub open spec fn digit_val(c: char) -> int {
    c as int - '0' as int
}

pub open spec fn all_digits(s: Seq<char>) -> bool {
    forall|i: int| 0 <= i < s.len() ==> is_digit(#[trigger] s[i])
}

/// The value of a digit string, most significant digit first.
pub open spec fn digits_val(s: Seq<char>) -> int
    decreases s.len(),
{
    if s.len() == 0 {
        0
    } else {
        digits_val(s.drop_last()) * 10 + digit_val(s.last())
    }
}

/// A well-formed note name: a letter A to G, an optional accidental, and at
/// least one octave digit.
pub open spec fn valid_note(s: Seq<char>) -> bool {
    &&& s.len() >= 1
    &&& is_note_letter(s[0])
    &&& octave_digits(s).len() >= 1
    &&& all_digits(octave_digits(s))
}

/// The pitch code a well-formed note name denotes: the letter's offset,
/// shifted by the accidental, plus twelve semitones per octave above
/// octave -1.
pub open spec fn note_pitch(s: Seq<char>) -> int
    recommends
        valid_note(s),
{
    let base = letter_base(s[0]);
    let adj = if s.len() >= 2 {
        accidental_shift(base, s[1])
    } else {
        base
    };
    adj + (digits_val(octave_digits(s)) + 1) * 12
}

/// What parsing a note name yields: the pitch code for every well-formed
/// name whose pitch fits, and for each error exactly the names that draw it.
pub open spec fn note_result(s: Seq<char>) -> Result<u32, NoteError> {
    if !is_ascii_chars(s) {
        Result::Err(NoteError::NotAscii)
    } else if s.len() == 0 || !is_note_letter(s[0]) {
        Result::Err(NoteError::UnknownLetter)
    } else if octave_digits(s).len() == 0 || !all_digits(octave_digits(s)) {
        Result::Err(NoteError::BadOctave)
    } else if note_pitch(s) > u32::MAX {
        Result::Err(NoteError::OutOfRange)
    } else {
        Result::Ok(note_pitch(s) as u32)
    }
}

/// Parses a note name to its pitch code: exactly [`note_result`] of it.
#[verifier::loop_isolation(false)]
pub fn note2midi(name: &str) -> (r: Result<u32, NoteError>)
    ensures
        r == note_result(name@),
{
    if !name.is_ascii() {
        return Err(NoteError::NotAscii);
    }
    let n = name.unicode_len();
    if n == 0 {
        return Err(NoteError::UnknownLetter);
    }
    let c0 = name.get_char(0);
    let base: u64 = if c0 == 'C' {
        0
    } else if c0 == 'D' {
        2
    } else if c0 == 'E' {
        4
    } else if c0 == 'F' {
        5
    } else if c0 == 'G' {
        7
    } else if c0 == 'A' {
        9
    } else if c0 == 'B' {
        11
    } else {
        return Err(NoteError::UnknownLetter);
    };
    let mut adj: u64 = base;
    let mut idx: usize = 1;
    if n >= 2 {
        let c1 = name.get_char(1);
        if c1 == '#' {
            adj = if base <= 10 {
                base + 1
            } else {
                base - 11
            };
            idx = 2;
        } else if c1 == 'b' {
            adj = if base == 0 {
                base + 11
            } else {
                base - 1
            };
            idx = 2;
        }
    }
    proof {
        assert(base == letter_base(name@[0]));
        assert(idx == 2 <==> has_accidental(name@));
        if name@.len() >= 2 {
            assert(adj == accidental_shift(letter_base(name@[0]), name@[1]));
        }
        assert(octave_digits(name@) =~= name@.skip(idx as int));
    }
    if idx >= n {
        return Err(NoteError::BadOctave);
    }
    // Fold the octave digits, capping at one past the largest pitch so the
    // running value never overflows: a capped prefix already forces the
    // whole value, and so the pitch, past the cap.
    let cap: u64 = 0xffff_ffff;
    let mut octave: u64 = 0;
    let mut i: usize = idx;
    while i < n
        invariant
            idx <= i <= n,
            all_digits(name@.subrange(idx as int, i as int)),
            octave <= cap + 1,
            octave <= cap ==> octave == digits_val(name@.subrange(idx as int, i as int)),
            octave == cap + 1 ==> digits_val(name@.subrange(idx as int, i as int)) > cap,
        decreases n - i,
    {
        let c = name.get_char(i);
        let d = c as u32;
        if d < 48 || d > 57 {
            proof {
                assert(!is_digit(name@[i as int]));
                assert(name@.skip(idx as int)[i - idx] == name@[i as int]);
                assert(!all_digits(name@.skip(idx as int)));
            }
            return Err(NoteError::BadOctave);
        }
        let ghost pre = name@.subrange(idx as int, i as int);
        proof {
            assert(is_digit(name@[i as int]));
            assert(name@.subrange(idx as int, i as int + 1).drop_last() =~= pre);
            assert(name@.subrange(idx as int, i as int + 1).last() == name@[i as int]);
            assert(digits_val(name@.subrange(idx as int, i as int + 1)) == digits_val(pre) * 10
                + digit_val(name@[i as int]));
        }
        let dv: u64 = (d - 48) as u64;
        if octave > cap / 10 || octave * 10 > cap - dv {
            proof {
                if octave <= cap {
                    assert(digits_val(pre) == octave);
                    assert(digits_val(pre) * 10 + digit_val(name@[i as int]) > cap);
                } else {
                    assert(digits_val(pre) > cap);
                    assert(digits_val(pre) * 10 + digit_val(name@[i as int]) > cap);
                }
            }
            octave = cap + 1;
        } else {
            octave = octave * 10 + dv;
        }
        i = i + 1;
    }
    proof {
        assert(name@.subrange(idx as int, n as int) =~= name@.skip(idx as int));
        assert(octave_digits(name@).len() >= 1);
        assert(all_digits(octave_digits(name@)));
    }
    if octave > cap {
        proof {
            assert(digits_val(octave_digits(name@)) > 0xffff_ffff);
            assert(note_pitch(name@) > u32::MAX);
        }
        return Err(NoteError::OutOfRange);
    }
    let pitch: u64 = adj + (octave + 1) * 12;
    proof {
        assert(pitch == note_pitch(name@));
    }
    if pitch > 0xffff_ffff {
        Err(NoteError::OutOfRange)
    } else {
        Ok(pitch as u32)
    }
}

} // verus!
