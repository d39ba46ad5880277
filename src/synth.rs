use vstd::prelude::*;

use crate::midi::MidiEvent;
use crate::notes::{latest_of, ledger_off, ledger_on, MidiNote, Notes};

verus! {

/// How key presses are mapped onto voices.
#[derive(Clone, Copy, Debug, PartialEq, Eq, Structural)]
pub enum Polyphony {
    /// Every key press gets a voice of its own.
    Polyphonic,
    /// One voice, retriggered on every key press.
    Monophonic,
    /// One voice, retriggered only when it was already releasing.
    Legato,
}

/// The voicing policy that control index `index` selects: below 1 polyphonic,
/// 1 monophonic, 2 or more legato.
pub open spec fn polyphony_of(index: i64) -> Polyphony {
    if index < 1 {
        Polyphony::Polyphonic
    } else if index < 2 {
        Polyphony::Monophonic
    } else {
        Polyphony::Legato
    }
}

impl Polyphony {
    pub fn from_index(index: i64) -> (r: Polyphony)
        ensures
            r == polyphony_of(index),
    {
        if index < 1 {
            Polyphony::Polyphonic
        } else if index < 2 {
            Polyphony::Monophonic
        } else {
            Polyphony::Legato
        }
    }
}

/// The oscillator slot that the LFO control index `index` targets: below 1 none (the LFO
/// reaches every slot), then slots 0, 1 and 2; indexes above 3 are clamped to slot 2.
pub open spec fn lfo_target_of(index: i64) -> Option<usize> {
    if index < 1 {
        None
    } else if index < 2 {
        Some(0)
    } else if index < 3 {
        Some(1)
    } else {
        Some(2)
    }
}

pub fn lfo_target_from_index(index: i64) -> (r: Option<usize>)
    ensures
        r == lfo_target_of(index),
{
    if index < 1 {
        None
    } else if index < 2 {
        Some(0)
    } else if index < 3 {
        Some(1)
    } else {
        Some(2)
    }
}

/// Whether the LFO modulates oscillator slot `slot` (its frequency, its level, and the
/// signal that slot `slot + 1` feeds into it): when it targets that slot, or when it
/// targets none of the three slots (no target, or a slot number above 2).
pub open spec fn lfo_reaches_spec(target: Option<usize>, slot: usize) -> bool {
    match target {
        Some(t) => t >= 3 || t == slot,
        None => true,
    }
}

pub fn lfo_reaches(target: Option<usize>, slot: usize) -> (r: bool)
    ensures
        r == lfo_reaches_spec(target, slot),
{
    match target {
        Some(t) => t >= 3 || t == slot,
        None => true,
    }
}

/// One sounding note. The integer state (pitch, velocity, time since the note started,
/// release point) lives here; `dsp` holds whatever the signal path keeps per voice.
///
/// The signal path keeps a portamento detune in semitones. Retargeting a voice changes
/// that detune by whole semitones and may add the portamento offset; both are recorded
/// here (`detune_anchor`, `pending_offsets`) and handed over by `settle_detune`.
pub struct Voice<D> {
    /// MIDI pitch currently played.
    pub id: u8,
    /// Samples since the note (re)started.
    pub runtime: u32,
    /// `runtime` at the moment of release, once released.
    pub release_time: Option<u32>,
    pub velocity: u8,
    /// The pitch that the detune of the signal path was last settled against.
    pub detune_anchor: u8,
    /// Portamento offsets added since the detune was last settled.
    pub pending_offsets: u32,
    pub dsp: D,
}

impl<D> Voice<D> {
    /// A voice never records a release point later than its own clock.
    pub open spec fn wf(self) -> bool {
        self.release_time matches Some(r) ==> r <= self.runtime
    }

    /// The voice once released; releasing twice keeps the first release point.
    pub open spec fn released(self) -> Voice<D> {
        if self.release_time is None {
            Voice { release_time: Some(self.runtime), ..self }
        } else {
            self
        }
    }

    /// The voice one sample later. The clock stops at `u32::MAX`.
    pub open spec fn advanced(self) -> Voice<D> {
        Voice {
            runtime: if self.runtime < u32::MAX {
                (self.runtime + 1) as u32
            } else {
                self.runtime
            },
            ..self
        }
    }

    /// The voice moved onto pitch `id`; when retriggered its envelope restarts and one
    /// portamento offset is owed to the detune.
    pub open spec fn retargeted(self, id: u8, retrigger: bool) -> Voice<D> {
        if retrigger {
            Voice {
                id,
                runtime: 0,
                release_time: None,
                pending_offsets: sat_inc(self.pending_offsets),
                ..self
            }
        } else {
            Voice { id, ..self }
        }
    }

    /// The release of the voice is complete once `duration` samples have passed since
    /// the release point.
    pub open spec fn finished(self, duration: u32) -> bool {
        self.release_time matches Some(r) && self.runtime - r >= duration
    }

    /// A fresh voice: playing from sample 0, detune settled, nothing owed.
    pub fn from_midi_note(index: u8, velocity: u8, dsp: D) -> (r: Voice<D>)
        ensures
            r == (Voice {
                id: index,
                runtime: 0,
                release_time: None,
                velocity,
                detune_anchor: index,
                pending_offsets: 0,
                dsp,
            }),
            r.wf(),
    {
        Voice {
            id: index,
            runtime: 0,
            release_time: None,
            velocity,
            detune_anchor: index,
            pending_offsets: 0,
            dsp,
        }
    }

    /// Enters the release phase at the current sample; does nothing if already releasing.
    pub fn release(&mut self)
        requires
            old(self).wf(),
        ensures
            *final(self) == old(self).released(),
            final(self).wf(),
    {
        if self.release_time.is_none() {
            self.release_time = Some(self.runtime);
        }
    }

    /// Moves the voice's clock on by one sample.
    pub fn advance(&mut self)
        requires
            old(self).wf(),
        ensures
            *final(self) == old(self).advanced(),
            final(self).wf(),
    {
        if self.runtime < u32::MAX {
            self.runtime = self.runtime + 1;
        }
    }

    /// Moves the voice onto another pitch, restarting its envelope if `retrigger`.
    pub fn retarget(&mut self, id: u8, retrigger: bool)
        requires
            old(self).wf(),
        ensures
            *final(self) == old(self).retargeted(id, retrigger),
            final(self).wf(),
    {
        self.id = id;
        if retrigger {
            self.runtime = 0;
            self.release_time = None;
            if self.pending_offsets < u32::MAX {
                self.pending_offsets = self.pending_offsets + 1;
            }
        }
    }

    /// Hands over what the detune of the signal path owes since it was last settled:
    /// the semitones to add (old pitch minus new pitch) and the number of portamento
    /// offsets to add. Afterwards nothing is owed.
    pub fn settle_detune(&mut self) -> (r: (i32, u32))
        ensures
            r.0 == old(self).detune_anchor - old(self).id,
            r.1 == old(self).pending_offsets,
            *final(self) == (Voice { detune_anchor: old(self).id, pending_offsets: 0, ..*old(self) }),
    {
        let r = (self.detune_anchor as i32 - self.id as i32, self.pending_offsets);
        self.detune_anchor = self.id;
        self.pending_offsets = 0;
        r
    }
}

/// `n + 1`, stopping at `u32::MAX`.
pub open spec fn sat_inc(n: u32) -> u32 {
    if n < u32::MAX {
        (n + 1) as u32
    } else {
        n
    }
}

/// The voice that a key press starts: fresh, owing one portamento offset.
pub open spec fn spawned<D>(id: u8, velocity: u8, dsp: D) -> Voice<D> {
    Voice {
        id,
        runtime: 0,
        release_time: None,
        velocity,
        detune_anchor: id,
        pending_offsets: 1,
        dsp,
    }
}

pub open spec fn voices_wf<D>(vs: Seq<Voice<D>>) -> bool {
    forall|i: int| 0 <= i < vs.len() ==> (#[trigger] vs[i]).wf()
}

/// Size of the voice pool.
pub const MAX_VOICES: usize = 64;

/// Position of the oldest released voice: the first one, in pool order, that is
/// releasing.
pub open spec fn oldest_released<D>(vs: Seq<Voice<D>>) -> Option<int>
    decreases vs.len(),
{
    if vs.len() == 0 {
        None
    } else {
        match oldest_released(vs.drop_last()) {
            Some(i) => Some(i),
            None => if vs.last().release_time is Some {
                Some(vs.len() - 1)
            } else {
                None
            },
        }
    }
}

/// The pool with one voice taken out to make room: the oldest released voice, or the
/// last voice when none is releasing.
pub open spec fn make_room<D>(vs: Seq<Voice<D>>) -> Seq<Voice<D>> {
    match oldest_released(vs) {
        Some(i) => vs.remove(i),
        None => vs.drop_last(),
    }
}

/// `oldest_released` is a position of a releasing voice, and no voice before it is
/// releasing.
pub proof fn lemma_oldest_released<D>(vs: Seq<Voice<D>>)
    ensures
        oldest_released(vs) is Some ==> {
            let i = oldest_released(vs).unwrap();
            &&& 0 <= i < vs.len()
            &&& vs[i].release_time is Some
            &&& forall|j: int| 0 <= j < i ==> (#[trigger] vs[j]).release_time is None
        },
        oldest_released(vs) is None ==> forall|j: int|
            0 <= j < vs.len() ==> (#[trigger] vs[j]).release_time is None,
    decreases vs.len(),
{
    if vs.len() > 0 {
        let p = vs.drop_last();
        lemma_oldest_released(p);
        assert forall|j: int| 0 <= j < p.len() implies #[trigger] p[j] == vs[j] by {}
        if oldest_released(p) is None {
            assert forall|j: int| 0 <= j < vs.len() - 1 implies (#[trigger] vs[j]).release_time
                is None by {
                assert(p[j] == vs[j]);
            }
        } else {
            let i = oldest_released(p).unwrap();
            assert(p[i] == vs[i]);
            assert forall|j: int| 0 <= j < i implies (#[trigger] vs[j]).release_time is None by {
                assert(p[j] == vs[j]);
            }
        }
    }
}

/// A releasing voice found after a prefix without one is the oldest released voice.
proof fn lemma_oldest_released_found<D>(vs: Seq<Voice<D>>, k: int)
    requires
        0 <= k < vs.len(),
        oldest_released(vs.take(k)) is None,
        vs[k].release_time is Some,
    ensures
        oldest_released(vs) == Some(k),
    decreases vs.len(),
{
    if vs.len() == k + 1 {
        assert(vs.drop_last() =~= vs.take(k));
    } else {
        assert(vs.drop_last().take(k) =~= vs.take(k));
        lemma_oldest_released_found(vs.drop_last(), k);
    }
}

/// The voices after a key press under policy `mode`. A new voice in a full pool takes the
/// place of the oldest released voice, or of the last voice when none is releasing.
pub open spec fn after_note_on<D>(
    vs: Seq<Voice<D>>,
    mode: Polyphony,
    note: u8,
    velocity: u8,
    dsp: D,
) -> Seq<Voice<D>> {
    if mode == Polyphony::Polyphonic || vs.len() == 0 {
        let room = if vs.len() >= MAX_VOICES {
            make_room(vs)
        } else {
            vs
        };
        room.push(spawned(note, velocity, dsp))
    } else {
        let last = vs.last();
        let retrigger = mode == Polyphony::Monophonic || last.release_time is Some;
        vs.update(vs.len() - 1, Voice { velocity, ..last.retargeted(note, retrigger) })
    }
}

/// What a key release does to one voice, given the newest note still held.
pub open spec fn voice_after_note_off<D>(
    v: Voice<D>,
    mode: Polyphony,
    note: u8,
    latest: Option<MidiNote>,
) -> Voice<D> {
    if v.id != note {
        v
    } else if mode == Polyphony::Polyphonic {
        v.released()
    } else {
        match latest {
            Some(m) => v.retargeted(m.id, mode == Polyphony::Monophonic),
            None => v.released(),
        }
    }
}

/// The voices after a key release, given the newest note still held.
pub open spec fn after_note_off<D>(
    vs: Seq<Voice<D>>,
    mode: Polyphony,
    note: u8,
    latest: Option<MidiNote>,
) -> Seq<Voice<D>> {
    vs.map_values(|v: Voice<D>| voice_after_note_off(v, mode, note, latest))
}

/// Holds of the voices whose release is not complete.
pub open spec fn unfinished<D>(duration: u32) -> spec_fn(Voice<D>) -> bool {
    |v: Voice<D>| !v.finished(duration)
}

/// The voices kept by reaping: those whose release is not complete, in order.
pub open spec fn after_reap<D>(vs: Seq<Voice<D>>, duration: u32) -> Seq<Voice<D>> {
    vs.filter(unfinished(duration))
}

/// The voice engine: the ledger of held keys, the voice pool and the voicing policy.
pub struct ThreeOsc<D> {
    pub voices: Vec<Voice<D>>,
    pub notes: Notes,
    pub polyphony: Polyphony,
    /// The pitch wheel, relative to its centre (a 14-bit wheel gives -8192..=8191).
    pub bend: i32,
}

impl<D> ThreeOsc<D> {
    pub open spec fn wf(&self) -> bool {
        voices_wf(self.voices@)
    }

    /// An engine with no voice, no key held, polyphonic, wheel centred.
    pub fn new() -> (r: ThreeOsc<D>)
        ensures
            r.wf(),
            r.voices@ == Seq::<Voice<D>>::empty(),
            r.notes.notes@ == Seq::<MidiNote>::empty(),
            r.polyphony == Polyphony::Polyphonic,
            r.bend == 0,
    {
        ThreeOsc {
            voices: Vec::with_capacity(MAX_VOICES),
            notes: Notes::new(),
            polyphony: Polyphony::Polyphonic,
            bend: 0,
        }
    }

    /// A key press. Polyphonic: a new voice. Monophonic and legato: the existing voice
    /// moves onto the new pitch (its detune keeps the old pitch sounding until the glide
    /// ends) and takes the new velocity; monophonic always retriggers it, legato only when
    /// it was releasing. With no voice yet, a new one. `dsp` is the signal state for a new
    /// voice and is dropped when none is made.
    pub fn note_on(&mut self, note: u8, velocity: u8, dsp: D)
        requires
            old(self).wf(),
        ensures
            final(self).wf(),
            final(self).notes.notes@ == ledger_on(old(self).notes.notes@, note, velocity),
            final(self).voices@ == after_note_on(
                old(self).voices@,
                old(self).polyphony,
                note,
                velocity,
                dsp,
            ),
            old(self).voices@.len() <= MAX_VOICES ==> final(self).voices@.len() <= MAX_VOICES,
            final(self).polyphony == old(self).polyphony,
            final(self).bend == old(self).bend,
    {
        self.notes.note_on(note, velocity);
        let n: usize = self.voices.len();
        if self.polyphony == Polyphony::Polyphonic || n == 0 {
            if n >= MAX_VOICES {
                self.make_room();
            }
            let mut voice = Voice::from_midi_note(note, velocity, dsp);
            voice.pending_offsets = 1;
            self.voices.push(voice);
        } else {
            let retrigger = self.polyphony == Polyphony::Monophonic || self.voices[n
                - 1].release_time.is_some();
            let voice = &mut self.voices[n - 1];
            voice.velocity = velocity;
            voice.retarget(note, retrigger);
        }
        proof {
            let vs = after_note_on(old(self).voices@, old(self).polyphony, note, velocity, dsp);
            assert(self.voices@ =~= vs);
            lemma_oldest_released(old(self).voices@);
        }
    }

    /// Takes one voice out of the pool: the oldest released voice, or the last voice when
    /// none is releasing.
    fn make_room(&mut self)
        requires
            old(self).wf(),
            old(self).voices@.len() > 0,
        ensures
            final(self).wf(),
            final(self).voices@ == make_room(old(self).voices@),
            final(self).notes == old(self).notes,
            final(self).polyphony == old(self).polyphony,
            final(self).bend == old(self).bend,
    {
        let ghost vs = old(self).voices@;
        let n: usize = self.voices.len();
        let mut j: usize = 0;
        while j < n && self.voices[j].release_time.is_none()
            invariant
                n == vs.len(),
                self.voices@ == vs,
                j <= n,
                oldest_released(vs.take(j as int)) is None,
            decreases n - j,
        {
            proof {
                assert(vs.take(j + 1).drop_last() =~= vs.take(j as int));
            }
            j += 1;
        }
        if j < n {
            proof {
                lemma_oldest_released_found(vs, j as int);
            }
            let _ = self.voices.remove(j);
        } else {
            proof {
                assert(vs.take(n as int) =~= vs);
            }
            let _ = self.voices.pop();
        }
        proof {
            assert(self.voices@ =~= make_room(vs));
            assert forall|i: int| 0 <= i < self.voices@.len() implies (#[trigger] self.voices@[i]).wf() by {
                if j < n && i >= j {
                    assert(self.voices@[i] == vs[i + 1]);
                } else {
                    assert(self.voices@[i] == vs[i]);
                }
            }
        }
    }

    /// A key release. Polyphonic: every voice on that pitch is released. Monophonic and
    /// legato: a voice on that pitch moves onto the newest key still held (monophonic
    /// retriggers it), or is released when no key is held.
    pub fn note_off(&mut self, note: u8, velocity: u8)
        requires
            old(self).wf(),
        ensures
            final(self).wf(),
            final(self).notes.notes@ == ledger_off(old(self).notes.notes@, note),
            final(self).voices@ == after_note_off(
                old(self).voices@,
                old(self).polyphony,
                note,
                latest_of(ledger_off(old(self).notes.notes@, note)),
            ),
            final(self).polyphony == old(self).polyphony,
            final(self).bend == old(self).bend,
    {
        self.notes.note_off(note);
        let latest = self.notes.latest();
        let mode = self.polyphony;
        let ghost vs0 = old(self).voices@;
        let n: usize = self.voices.len();
        let mut i: usize = 0;
        while i < n
            invariant
                n == vs0.len(),
                i <= n,
                self.notes.notes@ == ledger_off(old(self).notes.notes@, note),
                latest == latest_of(ledger_off(old(self).notes.notes@, note)),
                mode == old(self).polyphony,
                self.polyphony == old(self).polyphony,
                self.bend == old(self).bend,
                self.voices@.len() == n,
                voices_wf(vs0),
                forall|j: int|
                    0 <= j < i ==> self.voices@[j] == voice_after_note_off(
                        #[trigger] vs0[j],
                        mode,
                        note,
                        latest,
                    ),
                forall|j: int| i <= j < n ==> self.voices@[j] == vs0[j],
                forall|j: int| 0 <= j < n ==> (#[trigger] self.voices@[j]).wf(),
            decreases n - i,
        {
            if self.voices[i].id == note {
                let voice = &mut self.voices[i];
                match mode {
                    Polyphony::Polyphonic => voice.release(),
                    Polyphony::Monophonic | Polyphony::Legato => match latest {
                        Some(m) => voice.retarget(m.id, mode == Polyphony::Monophonic),
                        None => voice.release(),
                    },
                }
            }
            i += 1;
        }
        proof {
            assert(self.voices@ =~= after_note_off(vs0, mode, note, latest));
        }
    }

    /// Drops every voice whose release has lasted `duration` samples or more, keeping the
    /// others in order.
    pub fn release_voices(&mut self, duration: u32)
        requires
            old(self).wf(),
        ensures
            final(self).wf(),
            final(self).voices@ == after_reap(old(self).voices@, duration),
            final(self).notes == old(self).notes,
            final(self).polyphony == old(self).polyphony,
            final(self).bend == old(self).bend,
    {
        let ghost s = old(self).voices@;
        let n: usize = self.voices.len();
        let mut i: usize = 0;
        let mut k: usize = 0;
        while k < n
            invariant
                n == s.len(),
                voices_wf(s),
                i <= k <= n,
                self.voices@ == s.take(k as int).filter(unfinished(duration)) + s.skip(k as int),
                i == s.take(k as int).filter(unfinished(duration)).len(),
                self.notes == old(self).notes,
                self.polyphony == old(self).polyphony,
                self.bend == old(self).bend,
            decreases n - k,
        {
            let ghost before = s.take(k as int).filter(unfinished(duration));
            proof {
                assert(s.take(k + 1) =~= s.take(k as int).push(s[k as int]));
                crate::notes::lemma_filter_push(
                    s.take(k as int),
                    s[k as int],
                    unfinished(duration),
                );
                assert(self.voices@[i as int] == s[k as int]);
                assert(s.skip(k as int) =~= seq![s[k as int]] + s.skip(k + 1));
                assert(s[k as int].wf());
            }
            let finished = match self.voices[i].release_time {
                Some(r) => self.voices[i].runtime - r >= duration,
                None => false,
            };
            if finished {
                let _ = self.voices.remove(i);
                proof {
                    assert(self.voices@ =~= s.take(k + 1).filter(unfinished(duration)) + s.skip(
                        k + 1,
                    ));
                }
            } else {
                proof {
                    assert(self.voices@ =~= s.take(k + 1).filter(unfinished(duration)) + s.skip(
                        k + 1,
                    ));
                }
                i += 1;
            }
            k += 1;
        }
        proof {
            assert(s.take(n as int) =~= s);
            assert(s.skip(n as int) =~= Seq::<Voice<D>>::empty());
            assert(self.voices@ =~= after_reap(s, duration));
            lemma_reap_keeps_wf(s, duration);
        }
    }

    /// Acts on one MIDI event: note on, note off and pitch bend go to `note_on`,
    /// `note_off` and `pitch_bend`; any other event is skipped. `dsp` is the signal state
    /// for a voice that a note on may start.
    pub fn handle_event(&mut self, event: MidiEvent, dsp: D)
        requires
            old(self).wf(),
        ensures
            final(self).wf(),
            final(self).polyphony == old(self).polyphony,
            old(self).voices@.len() <= MAX_VOICES ==> final(self).voices@.len() <= MAX_VOICES,
            match event {
                MidiEvent::NoteOn { note, velocity } => {
                    &&& final(self).notes.notes@ == ledger_on(old(self).notes.notes@, note, velocity)
                    &&& final(self).voices@ == after_note_on(
                        old(self).voices@,
                        old(self).polyphony,
                        note,
                        velocity,
                        dsp,
                    )
                    &&& final(self).bend == old(self).bend
                },
                MidiEvent::NoteOff { note, velocity: _ } => {
                    &&& final(self).notes.notes@ == ledger_off(old(self).notes.notes@, note)
                    &&& final(self).voices@ == after_note_off(
                        old(self).voices@,
                        old(self).polyphony,
                        note,
                        latest_of(ledger_off(old(self).notes.notes@, note)),
                    )
                    &&& final(self).bend == old(self).bend
                },
                MidiEvent::PitchBend(b) => {
                    &&& final(self).bend == b - 8192
                    &&& final(self).voices == old(self).voices
                    &&& final(self).notes == old(self).notes
                },
                MidiEvent::Other => *final(self) == *old(self),
            },
    {
        match event {
            MidiEvent::NoteOn { note, velocity } => self.note_on(note, velocity, dsp),
            MidiEvent::NoteOff { note, velocity } => self.note_off(note, velocity),
            MidiEvent::PitchBend(b) => self.pitch_bend(b),
            MidiEvent::Other => {},
        }
    }

    /// Records the pitch wheel position `bend` (14-bit, centre 8192).
    pub fn pitch_bend(&mut self, bend: u16)
        ensures
            final(self).bend == bend - 8192,
            final(self).voices == old(self).voices,
            final(self).notes == old(self).notes,
            final(self).polyphony == old(self).polyphony,
    {
        self.bend = bend as i32 - 8192;
    }
}

/// Reaping keeps only voices that were there, so well-formed voices stay well-formed.
pub proof fn lemma_reap_keeps_wf<D>(vs: Seq<Voice<D>>, duration: u32)
    requires
        voices_wf(vs),
    ensures
        voices_wf(after_reap(vs, duration)),
{
    assert forall|i: int| 0 <= i < after_reap(vs, duration).len() implies (#[trigger] after_reap(
        vs,
        duration,
    )[i]).wf() by {
        let v = after_reap(vs, duration)[i];
        assert(after_reap(vs, duration).contains(v));
        vs.lemma_filter_contains_rev(unfinished(duration), v);
        let j = choose|j: int| 0 <= j < vs.len() && vs[j] == v;
        assert(vs[j].wf());
    }
}

/// A voice outlives its release by less than the release duration: every voice kept by
/// reaping that has been released at `r` has a clock below `r + duration`.
pub proof fn lemma_reap_bounds_lifetime<D>(vs: Seq<Voice<D>>, duration: u32)
    requires
        voices_wf(vs),
    ensures
        forall|i: int|
            0 <= i < after_reap(vs, duration).len() && (#[trigger] after_reap(vs, duration)[i]).release_time
                is Some ==> after_reap(vs, duration)[i].runtime < after_reap(
                vs,
                duration,
            )[i].release_time.unwrap() + duration,
{
    broadcast use vstd::seq_lib::group_filter_ensures;

    assert forall|i: int|
        0 <= i < after_reap(vs, duration).len() && (#[trigger] after_reap(
            vs,
            duration,
        )[i]).release_time is Some implies after_reap(vs, duration)[i].runtime < after_reap(
        vs,
        duration,
    )[i].release_time.unwrap() + duration by {
        lemma_reap_keeps_wf(vs, duration);
        assert(unfinished(duration)(after_reap(vs, duration)[i]));
    }
}

/// Once a voice is releasing, releasing it again and advancing its clock keep its release
/// point, and the clock does not go back; only a retrigger ends the release.
pub proof fn lemma_release_point_kept<D>(v: Voice<D>)
    requires
        v.wf(),
        v.release_time is Some,
    ensures
        v.released() == v,
        v.advanced().release_time == v.release_time,
        v.advanced().runtime >= v.runtime,
        v.advanced().wf(),
{
}

/// In monophonic mode there is never more than one voice: from a pool of at most one
/// voice, a key press, a key release and reaping all leave at most one.
pub proof fn lemma_monophonic_single_voice<D>(
    vs: Seq<Voice<D>>,
    note: u8,
    velocity: u8,
    dsp: D,
    latest: Option<MidiNote>,
    duration: u32,
)
    requires
        vs.len() <= 1,
    ensures
        after_note_on(vs, Polyphony::Monophonic, note, velocity, dsp).len() <= 1,
        after_note_off(vs, Polyphony::Monophonic, note, latest).len() <= 1,
        after_reap(vs, duration).len() <= 1,
{
    broadcast use vstd::seq_lib::group_filter_ensures;

}

/// In legato mode a key press while the voice is still held moves the voice onto the new
/// pitch without restarting its envelope.
pub proof fn lemma_legato_keeps_envelope<D>(vs: Seq<Voice<D>>, note: u8, velocity: u8, dsp: D)
    requires
        vs.len() >= 1,
        vs.last().release_time is None,
    ensures
        after_note_on(vs, Polyphony::Legato, note, velocity, dsp).len() == vs.len(),
        after_note_on(vs, Polyphony::Legato, note, velocity, dsp).last().id == note,
        after_note_on(vs, Polyphony::Legato, note, velocity, dsp).last().runtime == vs.last().runtime,
        after_note_on(vs, Polyphony::Legato, note, velocity, dsp).last().release_time is None,
{
}

} // verus!
