//! The notes that are held down, and the events that change them.
//!
//! A note is a pitch from 0 to 127 with the velocity, from 1 to 127, at which
//! it was struck. Each pitch is held at most once: striking a held pitch
//! again replaces its velocity.

use vstd::prelude::*;

verus! {

/// The notes that are held: for each held pitch its velocity.
#[derive(Clone, Copy, Debug)]
pub struct ActiveNotes {
    /// The velocity of each pitch, zero where the pitch is not held.
    velocities: [u8; 128],
}

/// What the notes are after an event on `pitch`: a note-on with a velocity
/// above zero holds the pitch at that velocity; a note-off, or a note-on with
/// velocity zero, lets it go; an event with a pitch or a velocity above 127
/// changes nothing.
pub open spec fn after_event(notes: Map<u8, u8>, pitch: u8, velocity: u8, is_on: bool) -> Map<
    u8,
    u8,
> {
    if pitch > 127 || velocity > 127 {
        notes
    } else if is_on && velocity > 0 {
        notes.insert(pitch, velocity)
    } else {
        notes.remove(pitch)
    }
}

/// The velocity at which `pitch` is held, or zero if it is not held.
pub open spec fn held(notes: Map<u8, u8>, pitch: int) -> int {
    if 0 <= pitch <= 127 && notes.dom().contains(pitch as u8) {
        notes[pitch as u8] as int
    } else {
        0
    }
}

/// Whether the map holds only pitches up to 127, with velocities from 1 to 127.
pub open spec fn valid_notes(notes: Map<u8, u8>) -> bool {
    forall|pitch: u8| #[trigger]
        notes.dom().contains(pitch) ==> pitch <= 127 && 1 <= notes[pitch] <= 127
}

impl View for ActiveNotes {
    type V = Map<u8, u8>;

    closed spec fn view(&self) -> Map<u8, u8> {
        Map::new(
            |pitch: u8| pitch < 128 && self.velocities@[pitch as int] > 0,
            |pitch: u8| self.velocities@[pitch as int],
        )
    }
}

impl ActiveNotes {
    /// No stored velocity is above 127.
    pub closed spec fn wf(&self) -> bool {
        forall|i: int| 0 <= i < 128 ==> #[trigger] self.velocities@[i] <= 127
    }

    /// Well-formed notes hold only pitches up to 127, with velocities from 1
    /// to 127.
    pub proof fn lemma_valid(&self)
        requires
            self.wf(),
        ensures
            valid_notes(self@),
            forall|pitch: int| 0 <= #[trigger] held(self@, pitch) <= 127,
    {
    }

    /// No note held.
    pub fn new() -> (notes: ActiveNotes)
        ensures
            notes.wf(),
            notes@ == Map::<u8, u8>::empty(),
    {
        let notes = ActiveNotes { velocities: [0u8; 128] };
        assert(notes@ =~= Map::<u8, u8>::empty());
        notes
    }

    /// Applies one event: see `after_event`. Returns whether the event was in
    /// range, that is, whether it was applied.
    pub fn note_event(&mut self, pitch: u8, velocity: u8, is_on: bool) -> (applied: bool)
        requires
            old(self).wf(),
        ensures
            final(self).wf(),
            final(self)@ == after_event(old(self)@, pitch, velocity, is_on),
            applied == (pitch <= 127 && velocity <= 127),
    {
        if pitch > 127 || velocity > 127 {
            return false;
        }
        let stored: u8 = if is_on {
            velocity
        } else {
            0
        };
        self.velocities[pitch as usize] = stored;
        assert(self@ =~= after_event(old(self)@, pitch, velocity, is_on));
        true
    }

    /// Holds `pitch` at `velocity`; with velocity zero, lets it go.
    pub fn note_on(&mut self, pitch: u8, velocity: u8) -> (applied: bool)
        requires
            old(self).wf(),
        ensures
            final(self).wf(),
            final(self)@ == after_event(old(self)@, pitch, velocity, true),
            applied == (pitch <= 127 && velocity <= 127),
    {
        self.note_event(pitch, velocity, true)
    }

    /// Lets `pitch` go.
    pub fn note_off(&mut self, pitch: u8) -> (applied: bool)
        requires
            old(self).wf(),
        ensures
            final(self).wf(),
            final(self)@ == after_event(old(self)@, pitch, 0, false),
            applied == (pitch <= 127),
    {
        self.note_event(pitch, 0, false)
    }

    /// A copy of the notes as they are now, which later events do not change.
    pub fn snapshot(&self) -> (notes: ActiveNotes)
        ensures
            notes@ == self@,
            self.wf() ==> notes.wf(),
    {
        ActiveNotes { velocities: self.velocities }
    }

    /// Puts `notes` in the place of the notes that were held.
    pub fn replace(&mut self, notes: ActiveNotes)
        ensures
            final(self)@ == notes@,
            notes.wf() ==> final(self).wf(),
    {
        self.velocities = notes.velocities;
    }

    /// Lets every note go.
    pub fn clear(&mut self)
        ensures
            final(self).wf(),
            final(self)@ == Map::<u8, u8>::empty(),
    {
        self.velocities = [0u8; 128];
        assert(self@ =~= Map::<u8, u8>::empty());
    }

    /// The velocity at which `pitch` is held, if it is held.
    pub fn velocity(&self, pitch: u8) -> (velocity: Option<u8>)
        ensures
            self@.dom().contains(pitch) ==> velocity == Some(self@[pitch]),
            !self@.dom().contains(pitch) ==> velocity is None,
    {
        if pitch > 127 {
            return None;
        }
        let stored: u8 = self.velocities[pitch as usize];
        if stored > 0 {
            Some(stored)
        } else {
            None
        }
    }

    /// The velocity at which `pitch` is held, or zero if it is not held.
    pub fn held_velocity(&self, pitch: u8) -> (velocity: u8)
        requires
            self.wf(),
        ensures
            velocity == held(self@, pitch as int),
            velocity <= 127,
    {
        if pitch > 127 {
            return 0;
        }
        self.velocities[pitch as usize]
    }

    /// Whether no note is held.
    pub fn is_empty(&self) -> (empty: bool)
        ensures
            empty == (self@ == Map::<u8, u8>::empty()),
    {
        let mut pitch: usize = 0;
        while pitch < 128
            invariant
                pitch <= 128,
                forall|i: int| 0 <= i < pitch ==> self.velocities@[i] == 0,
            decreases 128 - pitch,
        {
            if self.velocities[pitch] > 0 {
                assert(self@.dom().contains(pitch as u8));
                return false;
            }
            pitch += 1;
        }
        assert(self@ =~= Map::<u8, u8>::empty());
        true
    }

    /// How many notes are held.
    pub fn len(&self) -> (count: usize)
        ensures
            count == self@.dom().len(),
            count <= 128,
    {
        let mut count: usize = 0;
        let mut pitch: usize = 0;
        assert(self.held_below(0) =~= Set::<u8>::empty());
        while pitch < 128
            invariant
                pitch <= 128,
                count <= pitch,
                count == self.held_below(pitch as int).len(),
                self.held_below(pitch as int).finite(),
            decreases 128 - pitch,
        {
            proof {
                let before = self.held_below(pitch as int);
                let after = self.held_below(pitch + 1);
                if self.velocities@[pitch as int] > 0 {
                    assert(after =~= before.insert(pitch as u8));
                } else {
                    assert(after =~= before);
                }
            }
            if self.velocities[pitch] > 0 {
                count += 1;
            }
            pitch += 1;
        }
        assert(self.held_below(128) =~= self@.dom());
        count
    }

    /// The notes that are held, as pairs of pitch and velocity from the
    /// lowest pitch to the highest.
    pub fn to_vec(&self) -> (pairs: Vec<(u8, u8)>)
        ensures
            forall|i: int|
                0 <= i < pairs@.len() ==> self@.dom().contains((#[trigger] pairs@[i]).0)
                    && self@[pairs@[i].0] == pairs@[i].1,
            forall|i: int, j: int|
                0 <= i < j < pairs@.len() ==> (#[trigger] pairs@[i]).0 < (#[trigger] pairs@[j]).0,
            forall|pitch: u8|
                self@.dom().contains(pitch) ==> exists|i: int|
                    0 <= i < pairs@.len() && (#[trigger] pairs@[i]).0 == pitch,
    {
        let mut pairs: Vec<(u8, u8)> = Vec::new();
        let mut pitch: usize = 0;
        while pitch < 128
            invariant
                pitch <= 128,
                forall|i: int|
                    0 <= i < pairs@.len() ==> self@.dom().contains((#[trigger] pairs@[i]).0)
                        && self@[pairs@[i].0] == pairs@[i].1 && pairs@[i].0 < pitch,
                forall|i: int, j: int|
                    0 <= i < j < pairs@.len() ==> (#[trigger] pairs@[i]).0 < (
                    #[trigger] pairs@[j]).0,
                forall|p: u8|
                    p < pitch && self@.dom().contains(p) ==> exists|i: int|
                        0 <= i < pairs@.len() && (#[trigger] pairs@[i]).0 == p,
            decreases 128 - pitch,
        {
            let velocity: u8 = self.velocities[pitch];
            if velocity > 0 {
                let ghost before = pairs@;
                pairs.push((pitch as u8, velocity));
                assert forall|p: u8| p < pitch + 1 && self@.dom().contains(p) implies exists|i: int|
                    0 <= i < pairs@.len() && (#[trigger] pairs@[i]).0 == p by {
                    if p < pitch {
                        let i = choose|i: int| 0 <= i < before.len() && (#[trigger] before[i]).0 == p;
                        assert(pairs@[i].0 == p);
                    } else {
                        assert(pairs@[before.len() as int].0 == p);
                    }
                }
            }
            pitch += 1;
        }
        pairs
    }

    /// The held pitches under `bound`.
    closed spec fn held_below(&self, bound: int) -> Set<u8> {
        Set::new(|pitch: u8| pitch < bound && pitch < 128 && self.velocities@[pitch as int] > 0)
    }
}

/// What a message of the MIDI wire protocol asks for.
#[derive(Clone, Copy, Debug, PartialEq, Eq, Structural)]
pub enum MidiEvent {
    /// Hold `note` at `velocity`, which is above zero.
    NoteOn { note: u8, velocity: u8 },
    /// Let `note` go.
    NoteOff { note: u8 },
    /// A message of three bytes or more that is no note-on or note-off with
    /// data bytes in range.
    Unhandled,
    /// A message of fewer than three bytes.
    Incomplete,
}

/// The high four bits of a status byte, which say what a message is; the
/// low four name its channel.
pub open spec fn status_high_bits(status: u8) -> int {
    status as int / 16
}

/// What `message` asks for.
///
/// A message is read by its first three bytes: status, note and velocity.
/// A status that starts with `0x9` is a note-on and one that starts with
/// `0x8` a note-off, on whatever channel; a note-on with velocity zero counts
/// as a note-off. A note or velocity above 127 is no data byte, and the
/// message is left unhandled.
pub open spec fn decode(message: Seq<u8>) -> MidiEvent {
    if message.len() < 3 {
        MidiEvent::Incomplete
    } else if message[1] > 127 || message[2] > 127 {
        MidiEvent::Unhandled
    } else if status_high_bits(message[0]) == 9 && message[2] > 0 {
        MidiEvent::NoteOn { note: message[1], velocity: message[2] }
    } else if status_high_bits(message[0]) == 8 || status_high_bits(message[0]) == 9 {
        MidiEvent::NoteOff { note: message[1] }
    } else {
        MidiEvent::Unhandled
    }
}

/// What the notes are after `event`.
pub open spec fn after_midi(notes: Map<u8, u8>, event: MidiEvent) -> Map<u8, u8> {
    match event {
        MidiEvent::NoteOn { note, velocity } => after_event(notes, note, velocity, true),
        MidiEvent::NoteOff { note } => after_event(notes, note, 0, false),
        MidiEvent::Unhandled => notes,
        MidiEvent::Incomplete => notes,
    }
}

/// Reads a message of the MIDI wire protocol.
pub fn decode_message(message: &[u8]) -> (event: MidiEvent)
    ensures
        event == decode(message@),
{
    if message.len() < 3 {
        return MidiEvent::Incomplete;
    }
    let high_bits: u8 = message[0] / 16;
    let note: u8 = message[1];
    let velocity: u8 = message[2];
    if note > 127 || velocity > 127 {
        MidiEvent::Unhandled
    } else if high_bits == 9 && velocity > 0 {
        MidiEvent::NoteOn { note, velocity }
    } else if high_bits == 8 || high_bits == 9 {
        MidiEvent::NoteOff { note }
    } else {
        MidiEvent::Unhandled
    }
}

/// Reads a message and applies it to the notes. Returns what the message
/// asked for.
pub fn handle_message(notes: &mut ActiveNotes, message: &[u8]) -> (event: MidiEvent)
    requires
        old(notes).wf(),
    ensures
        final(notes).wf(),
        event == decode(message@),
        final(notes)@ == after_midi(old(notes)@, event),
{
    let event = decode_message(message);
    match event {
        MidiEvent::NoteOn { note, velocity } => {
            notes.note_event(note, velocity, true);
        },
        MidiEvent::NoteOff { note } => {
            notes.note_event(note, 0, false);
        },
        MidiEvent::Unhandled => {},
        MidiEvent::Incomplete => {},
    }
    event
}

} // verus!
