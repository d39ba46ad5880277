use three_osc::midi::MidiEvent;
use three_osc::notes::{MidiNote, Notes};
use three_osc::synth::{lfo_reaches, lfo_target_from_index, Polyphony, ThreeOsc, Voice, MAX_VOICES};

fn run_block(synth: &mut ThreeOsc<()>, samples: u32) {
    for voice in synth.voices.iter_mut() {
        for _ in 0..samples {
            voice.advance();
        }
    }
}

#[test]
fn midi_note_starts_with_age_zero() {
    let n = MidiNote::new(60, 100);
    assert_eq!(n.id, 60);
    assert_eq!(n.velocity, 100);
    assert_eq!(n.age(), 0);
}

#[test]
fn ledger_ages_older_notes() {
    let mut notes = Notes::new();
    notes.note_on(60, 100);
    notes.note_on(64, 90);
    notes.note_on(67, 80);
    let ages: Vec<u32> = notes.notes.iter().map(|n| n.age()).collect();
    assert_eq!(ages, vec![2, 1, 0]);
    let latest = notes.latest().unwrap();
    assert_eq!((latest.id, latest.velocity, latest.age()), (67, 80, 0));
}

#[test]
fn ledger_release_removes_every_copy() {
    let mut notes = Notes::new();
    notes.note_on(60, 100);
    notes.note_on(64, 90);
    notes.note_on(60, 70);
    notes.note_off(60);
    assert_eq!(notes.notes.len(), 1);
    assert_eq!(notes.notes[0].id, 64);
    assert_eq!(notes.latest().unwrap().id, 64);
    notes.note_off(64);
    assert!(notes.latest().is_none());
}

#[test]
fn ledger_latest_after_releasing_newest() {
    let mut notes = Notes::new();
    notes.note_on(60, 100);
    notes.note_on(64, 90);
    notes.note_off(64);
    assert_eq!(notes.latest().unwrap().id, 60);
    assert_eq!(notes.latest().unwrap().age(), 1);
}

#[test]
fn silent_when_idle() {
    let mut synth: ThreeOsc<()> = ThreeOsc::new();
    run_block(&mut synth, 512);
    synth.release_voices(4800);
    assert!(synth.voices.is_empty());
    assert!(synth.notes.notes.is_empty());
}

#[test]
fn polyphonic_voice_per_key() {
    let mut synth: ThreeOsc<()> = ThreeOsc::new();
    synth.note_on(60, 100, ());
    synth.note_on(64, 100, ());
    synth.note_on(67, 100, ());
    assert_eq!(synth.voices.len(), 3);
    synth.note_off(64, 0);
    assert_eq!(synth.voices[0].release_time, None);
    assert_eq!(synth.voices[1].release_time, Some(0));
    assert_eq!(synth.voices[2].release_time, None);
}

#[test]
fn release_reap() {
    let mut synth: ThreeOsc<()> = ThreeOsc::new();
    synth.note_on(60, 100, ());
    run_block(&mut synth, 512);
    synth.note_off(60, 0);
    assert_eq!(synth.voices[0].release_time, Some(512));
    let duration: u32 = 4800;
    run_block(&mut synth, 4799);
    synth.release_voices(duration);
    assert_eq!(synth.voices.len(), 1);
    run_block(&mut synth, 1);
    synth.release_voices(duration);
    assert!(synth.voices.is_empty());
}

#[test]
fn release_is_idempotent() {
    let mut voice = Voice::from_midi_note(60, 100, ());
    voice.advance();
    voice.release();
    voice.advance();
    voice.release();
    assert_eq!(voice.release_time, Some(1));
    assert_eq!(voice.runtime, 2);
}

#[test]
fn monophonic_retrigger() {
    let mut synth: ThreeOsc<()> = ThreeOsc::new();
    synth.polyphony = Polyphony::Monophonic;
    synth.note_on(60, 100, ());
    run_block(&mut synth, 100);
    synth.note_on(64, 100, ());
    assert_eq!(synth.voices.len(), 1);
    assert_eq!(synth.voices[0].id, 64);
    assert_eq!(synth.voices[0].runtime, 0);
    // the detune keeps note 60 sounding until the glide ends, plus one offset per trigger
    assert_eq!(synth.voices[0].settle_detune(), (-4, 2));
    assert_eq!(synth.voices[0].settle_detune(), (0, 0));
}

#[test]
fn legato_hold() {
    let mut synth: ThreeOsc<()> = ThreeOsc::new();
    synth.polyphony = Polyphony::Legato;
    synth.note_on(60, 100, ());
    run_block(&mut synth, 100);
    synth.note_on(64, 100, ());
    assert_eq!(synth.voices.len(), 1);
    assert_eq!(synth.voices[0].id, 64);
    assert_eq!(synth.voices[0].runtime, 100);
    assert_eq!(synth.voices[0].settle_detune(), (-4, 1));
}

#[test]
fn legato_retriggers_a_releasing_voice() {
    let mut synth: ThreeOsc<()> = ThreeOsc::new();
    synth.polyphony = Polyphony::Legato;
    synth.note_on(60, 100, ());
    run_block(&mut synth, 50);
    synth.note_off(60, 0);
    assert_eq!(synth.voices[0].release_time, Some(50));
    run_block(&mut synth, 10);
    synth.note_on(62, 90, ());
    assert_eq!(synth.voices.len(), 1);
    assert_eq!(synth.voices[0].runtime, 0);
    assert_eq!(synth.voices[0].release_time, None);
    assert_eq!(synth.voices[0].velocity, 90);
}

#[test]
fn monophonic_release_returns_to_held_key() {
    let mut synth: ThreeOsc<()> = ThreeOsc::new();
    synth.polyphony = Polyphony::Monophonic;
    synth.note_on(60, 100, ());
    synth.note_on(64, 100, ());
    let _ = synth.voices[0].settle_detune();
    run_block(&mut synth, 20);
    synth.note_off(64, 0);
    assert_eq!(synth.voices.len(), 1);
    assert_eq!(synth.voices[0].id, 60);
    assert_eq!(synth.voices[0].runtime, 0);
    assert_eq!(synth.voices[0].release_time, None);
    assert_eq!(synth.voices[0].settle_detune(), (4, 1));
    synth.note_off(60, 0);
    assert_eq!(synth.voices[0].release_time, Some(0));
}

#[test]
fn legato_release_glides_without_retrigger() {
    let mut synth: ThreeOsc<()> = ThreeOsc::new();
    synth.polyphony = Polyphony::Legato;
    synth.note_on(60, 100, ());
    synth.note_on(67, 100, ());
    run_block(&mut synth, 30);
    synth.note_off(67, 0);
    assert_eq!(synth.voices[0].id, 60);
    assert_eq!(synth.voices[0].runtime, 30);
    assert_eq!(synth.voices[0].settle_detune(), (0, 1));
}

#[test]
fn monophonic_keeps_one_voice() {
    let mut synth: ThreeOsc<()> = ThreeOsc::new();
    synth.polyphony = Polyphony::Monophonic;
    for note in [60u8, 62, 64, 65, 67] {
        synth.note_on(note, 100, ());
        run_block(&mut synth, 10);
        assert!(synth.voices.len() <= 1);
    }
    for note in [62u8, 67, 60, 64, 65] {
        synth.note_off(note, 0);
        run_block(&mut synth, 10);
        synth.release_voices(5);
        assert!(synth.voices.len() <= 1);
    }
    assert!(synth.voices.is_empty());
}

#[test]
fn portamento_offset_owed_on_spawn() {
    let mut synth: ThreeOsc<()> = ThreeOsc::new();
    synth.note_on(60, 100, ());
    assert_eq!(synth.voices[0].pending_offsets, 1);
    assert_eq!(synth.voices[0].detune_anchor, 60);
}

#[test]
fn events_dispatch() {
    let mut synth: ThreeOsc<()> = ThreeOsc::new();
    synth.handle_event(MidiEvent::NoteOn { note: 69, velocity: 127 }, ());
    assert_eq!(synth.voices.len(), 1);
    synth.handle_event(MidiEvent::PitchBend(16383), ());
    assert_eq!(synth.bend, 8191);
    synth.handle_event(MidiEvent::Other, ());
    assert_eq!(synth.voices.len(), 1);
    synth.handle_event(MidiEvent::NoteOff { note: 69, velocity: 0 }, ());
    assert_eq!(synth.voices[0].release_time, Some(0));
    assert!(synth.notes.notes.is_empty());
}

#[test]
fn pitch_bend_centre() {
    let mut synth: ThreeOsc<()> = ThreeOsc::new();
    synth.pitch_bend(8192);
    assert_eq!(synth.bend, 0);
    synth.pitch_bend(0);
    assert_eq!(synth.bend, -8192);
}

#[test]
fn polyphony_from_index() {
    assert_eq!(Polyphony::from_index(-3), Polyphony::Polyphonic);
    assert_eq!(Polyphony::from_index(0), Polyphony::Polyphonic);
    assert_eq!(Polyphony::from_index(1), Polyphony::Monophonic);
    assert_eq!(Polyphony::from_index(2), Polyphony::Legato);
    assert_eq!(Polyphony::from_index(9), Polyphony::Legato);
}

#[test]
fn lfo_targets() {
    assert_eq!(lfo_target_from_index(0), None);
    assert_eq!(lfo_target_from_index(1), Some(0));
    assert_eq!(lfo_target_from_index(3), Some(2));
    assert_eq!(lfo_target_from_index(4), Some(2));
    assert_eq!(lfo_target_from_index(40), Some(2));
    for slot in 0..3 {
        assert!(lfo_reaches(None, slot));
        assert!(lfo_reaches(Some(3), slot));
        assert_eq!(lfo_reaches(Some(1), slot), slot == 1);
    }
    assert!(lfo_reaches(Some(2), 2));
    assert!(!lfo_reaches(Some(2), 1));
}

#[test]
fn ledger_stays_ordered_by_age() {
    let mut notes = Notes::new();
    for (i, id) in [60u8, 62, 64, 60, 67, 69].iter().enumerate() {
        notes.note_on(*id, 100 - i as u8);
        if i == 3 {
            notes.note_off(62);
        }
    }
    notes.note_off(69);
    let ages: Vec<u32> = notes.notes.iter().map(|n| n.age()).collect();
    assert!(ages.windows(2).all(|w| w[0] > w[1]));
    let last = *notes.notes.last().unwrap();
    assert_eq!(notes.latest(), Some(last));
    assert_eq!(last.id, 67);
    assert_eq!(last.age(), 1);
}

#[test]
fn full_pool_replaces_oldest_released_voice() {
    let mut synth: ThreeOsc<()> = ThreeOsc::new();
    for i in 0..MAX_VOICES {
        synth.note_on(i as u8, 100, ());
    }
    assert_eq!(synth.voices.len(), 64);
    synth.note_off(10, 0);
    synth.note_off(3, 0);
    synth.note_on(100, 90, ());
    assert_eq!(synth.voices.len(), 64);
    assert!(synth.voices.iter().all(|v| v.id != 3));
    assert!(synth.voices.iter().any(|v| v.id == 10));
    let last = synth.voices.last().unwrap();
    assert_eq!((last.id, last.velocity, last.runtime, last.release_time), (100, 90, 0, None));
}

#[test]
fn full_pool_without_release_replaces_last_voice() {
    let mut synth: ThreeOsc<()> = ThreeOsc::new();
    for i in 0..MAX_VOICES {
        synth.note_on(i as u8, 100, ());
    }
    synth.note_on(100, 90, ());
    assert_eq!(synth.voices.len(), 64);
    assert_eq!(synth.voices[62].id, 62);
    assert_eq!(synth.voices[63].id, 100);
    assert!(synth.voices.iter().all(|v| v.id != 63));
}
