use dispenser::notes::{note2midi, NoteError};

#[test]
fn parses_middle_c() {
    assert_eq!(note2midi("C4"), Ok(60));
}

#[test]
fn parses_concert_a() {
    assert_eq!(note2midi("A4"), Ok(69));
}

#[test]
fn parses_sharp() {
    assert_eq!(note2midi("F#6"), Ok(90));
}

#[test]
fn rejects_unknown_letter() {
    assert_eq!(note2midi("H4"), Err(NoteError::UnknownLetter));
}

#[test]
fn parses_flat() {
    // B flat 3: 11 - 1 + (3 + 1) * 12
    assert_eq!(note2midi("Bb3"), Ok(58));
}

#[test]
fn parses_track_notes() {
    assert_eq!(note2midi("Eb5"), Ok(75));
    assert_eq!(note2midi("Gb5"), Ok(78));
    assert_eq!(note2midi("Db6"), Ok(85));
}

#[test]
fn sharp_wraps_within_octave() {
    // B sharp wraps 11 to 0 in the same octave: B#4 lands on C4's code
    assert_eq!(note2midi("B#4"), Ok(60));
}

#[test]
fn flat_wraps_within_octave() {
    // C flat wraps 0 to 11 in the same octave: Cb4 lands on B4's code
    assert_eq!(note2midi("Cb4"), Ok(71));
}

#[test]
fn parses_octave_zero() {
    assert_eq!(note2midi("C0"), Ok(12));
}

#[test]
fn parses_multi_digit_octave() {
    // (10 + 1) * 12 + 9
    assert_eq!(note2midi("A10"), Ok(141));
}

#[test]
fn rejects_empty_name() {
    assert_eq!(note2midi(""), Err(NoteError::UnknownLetter));
}

#[test]
fn rejects_lowercase_letter() {
    assert_eq!(note2midi("c4"), Err(NoteError::UnknownLetter));
}

#[test]
fn rejects_missing_octave() {
    assert_eq!(note2midi("C"), Err(NoteError::BadOctave));
}

#[test]
fn rejects_accidental_without_octave() {
    assert_eq!(note2midi("C#"), Err(NoteError::BadOctave));
}

#[test]
fn rejects_non_digit_octave() {
    assert_eq!(note2midi("C-4"), Err(NoteError::BadOctave));
    assert_eq!(note2midi("C4x"), Err(NoteError::BadOctave));
}

#[test]
fn rejects_non_ascii() {
    assert_eq!(note2midi("C♭4"), Err(NoteError::NotAscii));
}

#[test]
fn rejects_huge_octave() {
    assert_eq!(note2midi("C99999999999"), Err(NoteError::OutOfRange));
    assert_eq!(note2midi("C999999999999999999999999999999"), Err(NoteError::OutOfRange));
}

#[test]
fn leading_zeroes_are_digits() {
    assert_eq!(note2midi("C04"), Ok(60));
}
