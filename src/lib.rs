//! The verified core of a three-oscillator polyphonic synthesiser: the ledger of held
//! keys, the voice pool with its polyphonic, monophonic and legato policies, voice
//! reaping, MIDI decoding, and the integer choices of the signal path (waveform and
//! filter selectors, LFO routing, unison spread, wavetable harmonic limits). The
//! floating-point signal path runs on top of it, one `Voice::dsp` per voice.

pub mod filter;
pub mod midi;
pub mod notes;
pub mod oscillator;
pub mod synth;
