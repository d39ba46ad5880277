use vstd::prelude::*;

verus! {

/// Number of per-note wavetables: MIDI notes 0..=127 and on to 137, past the top of the
/// keyboard, so that pitch bends far upwards still find a table.
pub const NOTE_TABLES: usize = 138;

/// Quadrature sine oscillator after Vicanek's "QuadOsc" design; a placeholder with no
/// state yet.
pub struct QuadOsc;

/// The base waveforms of an oscillator. A pulse is drawn as two saws offset by the
/// oscillator's pulse width.
#[derive(Clone, Copy, Debug, PartialEq, Eq, Structural)]
pub enum OscWave {
    Sine,
    Tri,
    Saw,
    Exp,
    Square,
    Pulse,
}

/// The waveform that control index `index` selects, clamped to 0..=4: sine, triangle,
/// saw, exponential, and at 4 either square or, for the oscillator that has a pulse
/// width, pulse.
pub open spec fn wave_of(index: i64, pulse: bool) -> OscWave {
    if index < 1 {
        OscWave::Sine
    } else if index < 2 {
        OscWave::Tri
    } else if index < 3 {
        OscWave::Saw
    } else if index < 4 {
        OscWave::Exp
    } else if pulse {
        OscWave::Pulse
    } else {
        OscWave::Square
    }
}

impl OscWave {
    pub fn from_index(index: i64) -> (r: OscWave)
        ensures
            r == wave_of(index, false),
    {
        if index < 1 {
            OscWave::Sine
        } else if index < 2 {
            OscWave::Tri
        } else if index < 3 {
            OscWave::Saw
        } else if index < 4 {
            OscWave::Exp
        } else {
            OscWave::Square
        }
    }

    pub fn from_index_pulse(index: i64) -> (r: OscWave)
        ensures
            r == wave_of(index, true),
    {
        match OscWave::from_index(index) {
            OscWave::Square => OscWave::Pulse,
            w => w,
        }
    }

    /// Which of the five base wavetable sets (sine, triangle, saw, exponential, square)
    /// draws this waveform; a pulse is drawn from the saw tables.
    pub fn table_index(&self) -> (r: usize)
        ensures
            r < 5,
            r == match *self {
                OscWave::Sine => 0usize,
                OscWave::Tri => 1usize,
                OscWave::Saw => 2usize,
                OscWave::Exp => 3usize,
                OscWave::Square => 4usize,
                OscWave::Pulse => 2usize,
            },
    {
        match self {
            OscWave::Sine => 0,
            OscWave::Tri => 1,
            OscWave::Saw => 2,
            OscWave::Exp => 3,
            OscWave::Square => 4,
            OscWave::Pulse => 2,
        }
    }
}

/// The detune direction and weight of unison copy `voice`: copy 0 stays in tune, odd
/// copies are pulled down and even copies pushed up, further for later copies
/// (0, -1, 2, -3, 4, ...).
pub fn unison_spread(voice: u8) -> (r: i32)
    ensures
        r == if voice % 2 == 0 {
            voice as int
        } else {
            -(voice as int)
        },
{
    if voice % 2 == 0 {
        voice as i32
    } else {
        -(voice as i32)
    }
}

/// The number of harmonics that the table of note `note` may hold: those below the
/// output's Nyquist frequency (`nyquist_harmonics`, computed from the note's frequency),
/// but never more than half the table length, and none for the topmost table.
pub fn harmonic_limit(note: usize, nyquist_harmonics: usize, table_len: usize) -> (r: usize)
    ensures
        r == if note >= NOTE_TABLES - 1 {
            0
        } else if nyquist_harmonics <= table_len / 2 {
            nyquist_harmonics as int
        } else {
            table_len as int / 2
        },
        r <= table_len / 2,
        r <= nyquist_harmonics,
{
    if note >= NOTE_TABLES - 1 {
        0
    } else if nyquist_harmonics <= table_len / 2 {
        nyquist_harmonics
    } else {
        table_len / 2
    }
}

/// The wavetable to use for a note number computed from a frequency, clamped into the
/// tables that exist.
pub fn note_table_index(note: i64) -> (r: usize)
    ensures
        r < NOTE_TABLES,
        r == if note < 0 {
            0
        } else if note >= NOTE_TABLES {
            NOTE_TABLES as int - 1
        } else {
            note as int
        },
{
    if note < 0 {
        0
    } else if note >= NOTE_TABLES as i64 {
        NOTE_TABLES - 1
    } else {
        note as usize
    }
}

} // verus!
