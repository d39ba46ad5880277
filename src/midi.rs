use vstd::prelude::*;

verus! {

/// The MIDI messages that the engine acts on; everything else is `Other`.
#[derive(Clone, Copy, Debug, PartialEq, Eq, Structural)]
pub enum MidiEvent {
    NoteOn { note: u8, velocity: u8 },
    NoteOff { note: u8, velocity: u8 },
    /// The 14-bit wheel position, centre 8192.
    PitchBend(u16),
    Other,
}

/// A channel message of three bytes whose two data bytes are valid (below 0x80).
pub open spec fn full_channel_message(b: Seq<u8>) -> bool {
    b.len() >= 3 && b[1] < 0x80 && b[2] < 0x80
}

/// Status bytes 0x80..=0x8F: note off on one of the 16 channels.
pub open spec fn is_note_off_status(s: u8) -> bool {
    0x80 <= s < 0x90
}

/// Status bytes 0x90..=0x9F: note on.
pub open spec fn is_note_on_status(s: u8) -> bool {
    0x90 <= s < 0xA0
}

/// Status bytes 0xE0..=0xEF: pitch bend.
pub open spec fn is_pitch_bend_status(s: u8) -> bool {
    0xE0 <= s < 0xF0
}

/// The event that one MIDI message stands for. A pitch bend carries its low seven bits
/// first. A truncated note or bend message, or one with a data byte of 0x80 or more,
/// is `Other`, as is every other kind of message.
pub open spec fn midi_event_of(b: Seq<u8>) -> MidiEvent {
    if b.len() == 0 || !full_channel_message(b) {
        MidiEvent::Other
    } else if is_note_off_status(b[0]) {
        MidiEvent::NoteOff { note: b[1], velocity: b[2] }
    } else if is_note_on_status(b[0]) {
        MidiEvent::NoteOn { note: b[1], velocity: b[2] }
    } else if is_pitch_bend_status(b[0]) {
        MidiEvent::PitchBend((b[1] + 128 * b[2]) as u16)
    } else {
        MidiEvent::Other
    }
}

/// Relies on `wmidi::MidiMessage::try_from(&[u8])` (wmidi 3.1): for a status byte of
/// 0x80 or more it decodes note off (0x8n), note on (0x9n, velocity 0 included) and pitch
/// bend (0xEn, low seven bits first) from the two data bytes that follow, and fails when
/// one is missing or is 0x80 or more; every other status gives another message or an
/// error. Its channel lookup never fails for `status & 0x0F`. On a first byte below 0x80
/// it panics, hence the `requires`.
#[verifier::external_body]
fn decode_with_wmidi(bytes: &[u8]) -> (r: Option<MidiEvent>)
    requires
        bytes@.len() > 0,
        bytes@[0] >= 0x80,
    ensures
        is_note_off_status(bytes@[0]) || is_note_on_status(bytes@[0]) || is_pitch_bend_status(
            bytes@[0],
        ) ==> r == if full_channel_message(bytes@) {
            Some(midi_event_of(bytes@))
        } else {
            None
        },
        !(is_note_off_status(bytes@[0]) || is_note_on_status(bytes@[0]) || is_pitch_bend_status(
            bytes@[0],
        )) ==> r is None || r == Some(MidiEvent::Other),
{
    match wmidi::MidiMessage::try_from(bytes) {
        Ok(wmidi::MidiMessage::NoteOff(_, n, v)) => Some(
            MidiEvent::NoteOff { note: u8::from(n), velocity: u8::from(v) },
        ),
        Ok(wmidi::MidiMessage::NoteOn(_, n, v)) => Some(
            MidiEvent::NoteOn { note: u8::from(n), velocity: u8::from(v) },
        ),
        Ok(wmidi::MidiMessage::PitchBendChange(_, b)) => Some(MidiEvent::PitchBend(u16::from(b))),
        Ok(_) => Some(MidiEvent::Other),
        Err(_) => None,
    }
}

impl MidiEvent {
    /// Decodes one MIDI message. Messages that cannot be decoded, or that the engine does
    /// not act on, are `Other`.
    pub fn parse(bytes: &[u8]) -> (r: MidiEvent)
        ensures
            r == midi_event_of(bytes@),
    {
        if bytes.len() == 0 || bytes[0] < 0x80 {
            return MidiEvent::Other;
        }
        match decode_with_wmidi(bytes) {
            Some(e) => e,
            None => MidiEvent::Other,
        }
    }
}

} // verus!
