use dispenser::notes::NoteError;
use dispenser::track::{beat_nanos, build_track, plan_track, segment_nanos, Segment, TrackNote};

fn note(pitch: u32, eighths: u32) -> TrackNote {
    TrackNote { pitch, eighths }
}

fn seg(pitch: u32, eighths: u32) -> Segment {
    Segment { pitch, eighths }
}

#[test]
fn articulates_repeated_pitch_track() {
    // (69, 1.0), (69, 1.0), (71, 0.5), (0, 1.0) in beats, as eighths
    let notes = vec![note(69, 8), note(69, 8), note(71, 4), note(0, 8)];
    let segs = plan_track(&notes);
    assert_eq!(segs, vec![seg(69, 7), seg(0, 1), seg(69, 8), seg(71, 4), seg(0, 8)]);
}

#[test]
fn segment_boundaries_at_120_bpm() {
    let beat = beat_nanos(120);
    assert_eq!(beat, 500_000_000);
    // the articulated note: tone 437.5 ms, gap 62.5 ms
    assert_eq!(segment_nanos(beat, 7), 437_500_000);
    assert_eq!(segment_nanos(beat, 1), 62_500_000);
    // full beat 500 ms, half beat 250 ms
    assert_eq!(segment_nanos(beat, 8), 500_000_000);
    assert_eq!(segment_nanos(beat, 4), 250_000_000);
}

#[test]
fn plan_preserves_total_duration() {
    let notes = vec![note(69, 8), note(69, 8), note(71, 4), note(0, 8)];
    let segs = plan_track(&notes);
    let total_notes: u64 = notes.iter().map(|n| n.eighths as u64).sum();
    let total_segs: u64 = segs.iter().map(|s| s.eighths as u64).sum();
    assert_eq!(total_notes, total_segs);
    assert_eq!(total_segs, 28);
}

#[test]
fn no_articulation_between_different_pitches() {
    let notes = vec![note(60, 4), note(62, 4), note(64, 4)];
    let segs = plan_track(&notes);
    assert_eq!(segs, vec![seg(60, 4), seg(62, 4), seg(64, 4)]);
}

#[test]
fn articulates_repeated_silence() {
    let notes = vec![note(0, 8), note(0, 8)];
    let segs = plan_track(&notes);
    assert_eq!(segs, vec![seg(0, 7), seg(0, 1), seg(0, 8)]);
}

#[test]
fn articulates_three_in_a_row() {
    let notes = vec![note(69, 6), note(69, 6), note(69, 6)];
    let segs = plan_track(&notes);
    assert_eq!(
        segs,
        vec![seg(69, 5), seg(0, 1), seg(69, 5), seg(0, 1), seg(69, 6)]
    );
}

#[test]
fn plans_single_note_whole() {
    let notes = vec![note(69, 8)];
    assert_eq!(plan_track(&notes), vec![seg(69, 8)]);
}

#[test]
fn plans_empty_track() {
    let notes: Vec<TrackNote> = Vec::new();
    assert_eq!(plan_track(&notes), Vec::new());
}

#[test]
fn beat_length_at_other_tempos() {
    assert_eq!(beat_nanos(138), 434_782_608);
    assert_eq!(beat_nanos(113), 530_973_451);
    assert_eq!(beat_nanos(60), 1_000_000_000);
}

#[test]
fn builds_track_from_names() {
    let entries = vec![("C4", 8u32), ("A4", 4), ("", 8), ("F#6", 2)];
    let notes = build_track(&entries).unwrap();
    assert_eq!(
        notes,
        vec![note(60, 8), note(69, 4), note(0, 8), note(90, 2)]
    );
}

#[test]
fn build_track_fails_on_malformed_name() {
    let entries = vec![("C4", 8u32), ("H4", 4)];
    assert_eq!(build_track(&entries), Err(NoteError::UnknownLetter));
}
