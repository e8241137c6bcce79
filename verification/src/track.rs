//! The tone track and its playback plan.
//!
//! A track is an ordered list of notes — a pitch code (0 = silence) and a
//! length in eighths of a beat — with a tempo in beats per minute. Playback
//! turns the track into segments: when two consecutive entries share a pitch
//! the first is articulated — the tone stops one eighth of a beat early and
//! a silent gap re-attacks the note — and otherwise an entry plays whole.
//! The gap of one eighth is short enough not to read as a rest yet long
//! enough to separate the repeated notes.
//!
//! Lengths are eighths of a beat so that every duration, the articulation
//! gap included, is exact in integer nanoseconds.

use vstd::prelude::*;
use crate::notes::NoteError;
use crate::notes::note_result;
use crate::notes::note2midi;

verus! {

/// The articulation gap between two consecutive identical-pitch notes, in
/// eighths of a beat.
pub const ARTICULATION_EIGHTHS: u32 = 1;

/// One entry of the tone track: a pitch code (0 = silence) and a length in
/// eighths of a beat.
#[derive(Clone, Copy, PartialEq, Eq, Structural, Debug)]
pub struct TrackNote {
    pub pitch: u32,
    pub eighths: u32,
}

/// One playback segment: hold `pitch` (0 = silence) for `eighths` eighths
/// of a beat.
#[derive(Clone, Copy, PartialEq, Eq, Structural, Debug)]
pub struct Segment {
    pub pitch: u32,
    pub eighths: u32,
}

/// Every note is at least as long as the articulation gap it may give up.
pub open spec fn playable(notes: Seq<TrackNote>) -> bool {
    forall|i: int| 0 <= i < notes.len() ==> (#[trigger] notes[i]).eighths >= 1
}

/// The segments of entry `i`: articulated into tone and gap when the next
/// entry repeats its pitch, whole otherwise.
pub open spec fn entry_segments(notes: Seq<TrackNote>, i: int) -> Seq<Segment>
    recommends
        0 <= i < notes.len(),
        playable(notes),
{
    let n = notes[i];
    if i + 1 < notes.len() && notes[i + 1].pitch == n.pitch {
        seq![
            Segment { pitch: n.pitch, eighths: (n.eighths - ARTICULATION_EIGHTHS) as u32 },
            Segment { pitch: 0, eighths: ARTICULATION_EIGHTHS },
        ]
    } else {
        seq![Segment { pitch: n.pitch, eighths: n.eighths }]
    }
}

/// The playback plan from entry `i` to the end of the track.
pub open spec fn plan_from(notes: Seq<TrackNote>, i: int) -> Seq<Segment>
    decreases notes.len() - i,
{
    if 0 <= i < notes.len() {
        entry_segments(notes, i) + plan_from(notes, i + 1)
    } else {
        Seq::empty()
    }
}

/// The playback plan of a whole track.
pub open spec fn plan_spec(notes: Seq<TrackNote>) -> Seq<Segment> {
    plan_from(notes, 0)
}

/// Turns a track into its playback plan: exactly [`plan_spec`] of it.
#[verifier::loop_isolation(false)]
pub fn plan_track(notes: &Vec<TrackNote>) -> (segs: Vec<Segment>)
    requires
        playable(notes@),
    ensures
        segs@ == plan_spec(notes@),
{
    let mut segs: Vec<Segment> = Vec::new();
    let mut i: usize = 0;
    proof {
        assert(segs@ + plan_from(notes@, 0) =~= plan_spec(notes@));
    }
    while i < notes.len()
        invariant
            i <= notes@.len(),
            segs@ + plan_from(notes@, i as int) == plan_spec(notes@),
        decreases notes@.len() - i,
    {
        let ghost segs_before = segs@;
        let n = notes[i];
        if i + 1 < notes.len() && notes[i + 1].pitch == n.pitch {
            segs.push(Segment { pitch: n.pitch, eighths: n.eighths - ARTICULATION_EIGHTHS });
            segs.push(Segment { pitch: 0, eighths: ARTICULATION_EIGHTHS });
        } else {
            segs.push(Segment { pitch: n.pitch, eighths: n.eighths });
        }
        proof {
            assert(segs@ =~= segs_before + entry_segments(notes@, i as int));
            assert((segs_before + entry_segments(notes@, i as int)) + plan_from(
                notes@,
                i as int + 1,
            ) =~= segs_before + (entry_segments(notes@, i as int) + plan_from(
                notes@,
                i as int + 1,
            )));
        }
        i = i + 1;
    }
    proof {
        assert(segs@ + plan_from(notes@, i as int) =~= segs@);
    }
    segs
}

/// The total length of a track, in eighths of a beat.
pub open spec fn notes_eighths(notes: Seq<TrackNote>) -> int
    decreases notes.len(),
{
    if notes.len() == 0 {
        0
    } else {
        notes[0].eighths + notes_eighths(notes.drop_first())
    }
}

/// The total length of a playback plan, in eighths of a beat.
pub open spec fn segs_eighths(segs: Seq<Segment>) -> int
    decreases segs.len(),
{
    if segs.len() == 0 {
        0
    } else {
        segs[0].eighths + segs_eighths(segs.drop_first())
    }
}

proof fn lemma_segs_eighths_concat(a: Seq<Segment>, b: Seq<Segment>)
    ensures
        segs_eighths(a + b) == segs_eighths(a) + segs_eighths(b),
    decreases a.len(),
{
    if a.len() == 0 {
        assert(a + b =~= b);
    } else {
        assert((a + b).drop_first() =~= a.drop_first() + b);
        lemma_segs_eighths_concat(a.drop_first(), b);
    }
}

/// Articulation moves an eighth of a beat from tone to gap but never
/// changes the total length: a plan plays exactly as long as its track.
pub proof fn lemma_plan_preserves_length(notes: Seq<TrackNote>)
    requires
        playable(notes),
    ensures
        segs_eighths(plan_spec(notes)) == notes_eighths(notes),
{
    lemma_plan_from_length(notes, 0);
    lemma_notes_eighths_from(notes, 0);
    assert(notes.skip(0) =~= notes);
}

/// The length of the plan from entry `i` equals the length of the notes
/// from entry `i`.
proof fn lemma_plan_from_length(notes: Seq<TrackNote>, i: int)
    requires
        playable(notes),
        0 <= i,
    ensures
        segs_eighths(plan_from(notes, i)) == sum_eighths_from(notes, i),
    decreases notes.len() - i,
{
    if i < notes.len() {
        lemma_plan_from_length(notes, i + 1);
        lemma_segs_eighths_concat(entry_segments(notes, i), plan_from(notes, i + 1));
        let e = entry_segments(notes, i);
        if e.len() == 2 {
            assert(e.drop_first() =~= seq![e[1]]);
            assert(seq![e[1]].drop_first() =~= Seq::<Segment>::empty());
            assert(segs_eighths(Seq::<Segment>::empty()) == 0);
            assert(segs_eighths(seq![e[1]]) == e[1].eighths);
        } else {
            assert(e.drop_first() =~= Seq::<Segment>::empty());
            assert(segs_eighths(Seq::<Segment>::empty()) == 0);
        }
        assert(segs_eighths(e) == notes[i].eighths);
    }
}

/// The total length of the notes from entry `i` on.
pub open spec fn sum_eighths_from(notes: Seq<TrackNote>, i: int) -> int
    decreases notes.len() - i,
{
    if 0 <= i < notes.len() {
        notes[i].eighths + sum_eighths_from(notes, i + 1)
    } else {
        0
    }
}

proof fn lemma_notes_eighths_from(notes: Seq<TrackNote>, i: int)
    requires
        0 <= i <= notes.len(),
    ensures
        sum_eighths_from(notes, i) == notes_eighths(notes.skip(i)),
    decreases notes.len() - i,
{
    if i < notes.len() {
        lemma_notes_eighths_from(notes, i + 1);
        assert(notes.skip(i).drop_first() =~= notes.skip(i + 1));
        assert(notes.skip(i)[0] == notes[i]);
    } else {
        assert(notes.skip(i) =~= Seq::<TrackNote>::empty());
    }
}

/// The length of one beat in nanoseconds at the given tempo: sixty seconds
/// split into `bpm` beats, rounded down to the nanosecond.
pub fn beat_nanos(bpm: u64) -> (ns: u64)
    requires
        bpm >= 1,
    ensures
        ns == 60_000_000_000u64 / bpm,
{
    60_000_000_000u64 / bpm
}

/// The playing time of a count of eighths of a beat, in nanoseconds,
/// rounded down to the nanosecond.
pub fn segment_nanos(beat_ns: u64, eighths: u32) -> (ns: u64)
    requires
        beat_ns * eighths <= u64::MAX,
    ensures
        ns == (beat_ns * eighths) / 8,
{
    (beat_ns * (eighths as u64)) / 8
}

/// Builds the track from human-readable note names at startup: each entry
/// is a note name with a length in eighths of a beat, the empty name
/// standing for silence. Fails on the first malformed name — the track is
/// fixed data, validated once.
pub fn build_track(entries: &Vec<(&str, u32)>) -> (r: Result<Vec<TrackNote>, NoteError>)
    ensures
        match r {
            Ok(notes) => {
                &&& notes@.len() == entries@.len()
                &&& forall|i: int|
                    0 <= i < entries@.len() ==> (#[trigger] notes@[i]).eighths == entries@[i].1
                &&& forall|i: int|
                    0 <= i < entries@.len() ==> (#[trigger] entries@[i]).0@.len() == 0 ==> notes@[
                        i
                    ].pitch == 0
                &&& forall|i: int|
                    0 <= i < entries@.len() ==> (#[trigger] entries@[i]).0@.len() > 0 ==> {
                        &&& note_result(entries@[i].0@) is Ok
                        &&& notes@[i].pitch == note_result(entries@[i].0@)->Ok_0
                    }
            },
            Err(e) => exists|i: int|
                {
                    &&& 0 <= i < entries@.len()
                    &&& (#[trigger] entries@[i]).0@.len() > 0
                    &&& note_result(entries@[i].0@) == Result::<u32, NoteError>::Err(e)
                    &&& forall|j: int|
                        0 <= j < i ==> ((#[trigger] entries@[j]).0@.len() == 0 || note_result(
                            entries@[j].0@,
                        ) is Ok)
                },
        },
{
    let mut notes: Vec<TrackNote> = Vec::new();
    let mut i: usize = 0;
    while i < entries.len()
        invariant
            i <= entries@.len(),
            notes@.len() == i,
            forall|j: int| 0 <= j < i ==> (#[trigger] notes@[j]).eighths == entries@[j].1,
            forall|j: int|
                0 <= j < i ==> (#[trigger] entries@[j]).0@.len() == 0 ==> notes@[j].pitch == 0,
            forall|j: int|
                0 <= j < i ==> (#[trigger] entries@[j]).0@.len() > 0 ==> {
                    &&& note_result(entries@[j].0@) is Ok
                    &&& notes@[j].pitch == note_result(entries@[j].0@)->Ok_0
                },
        decreases entries@.len() - i,
    {
        let (name, eighths) = entries[i];
        if name.is_empty() {
            notes.push(TrackNote { pitch: 0, eighths });
        } else {
            match note2midi(name) {
                Ok(pitch) => {
                    notes.push(TrackNote { pitch, eighths });
                },
                Err(e) => {
                    return Err(e);
                },
            }
        }
        i = i + 1;
    }
    Ok(notes)
}

} // verus!
