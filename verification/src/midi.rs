//! MIDI key-event decoding.
//!
//! The synthesizer reacts to raw MIDI channel messages: note-on and
//! note-off presses drive the voice lifecycle, active sensing is ignored
//! silently, and everything else is reported as unrecognized.  Reading the
//! bytes off a physical port is the embedding application's job; decoding
//! them is verified here.

use vstd::prelude::*;

verus! {

/// A raw MIDI channel message, as far as the synthesizer cares.
#[derive(Clone, Copy, Debug, PartialEq, Eq, Structural)]
pub enum MidiEvent {
    /// A key went down (status `0x90 + c` for channel `c`, so `0x90`
    /// through `0x9F`).
    NoteOn { channel: u8, note: u8, velocity: u8 },
    /// A key came up (status `0x80 + c` for channel `c`, so `0x80` through
    /// `0x8F`).
    NoteOff { channel: u8, note: u8, velocity: u8 },
    /// A keep-alive message (status `0xFE`), ignored.
    ActiveSensing,
    /// Anything else, malformed messages included.
    Unrecognized,
}

/// What a key message asks of the control thread.
#[derive(Clone, Copy, Debug, PartialEq, Eq, Structural)]
pub enum KeyEvent {
    /// Start a voice for this note.
    Down { channel: u8, note: u8, velocity: u8 },
    /// Stop the voice for this note.
    Up { channel: u8, note: u8, velocity: u8 },
}

/// The MIDI channel-message grammar the synthesizer understands: a note-on
/// or note-off is exactly three bytes, a status byte in the right range
/// followed by two data bytes (high bit clear); active sensing is the
/// single byte `0xFE`.
pub open spec fn spec_decode(bytes: Seq<u8>) -> MidiEvent {
    if bytes.len() == 1 && bytes[0] == 0xFE {
        MidiEvent::ActiveSensing
    } else if bytes.len() == 3 && 0x90 <= bytes[0] <= 0x9F && bytes[1] < 0x80 && bytes[2] < 0x80 {
        MidiEvent::NoteOn {
            channel: (bytes[0] - 0x90) as u8,
            note: bytes[1],
            velocity: bytes[2],
        }
    } else if bytes.len() == 3 && 0x80 <= bytes[0] <= 0x8F && bytes[1] < 0x80 && bytes[2] < 0x80 {
        MidiEvent::NoteOff {
            channel: (bytes[0] - 0x80) as u8,
            note: bytes[1],
            velocity: bytes[2],
        }
    } else {
        MidiEvent::Unrecognized
    }
}

/// Decodes one raw MIDI message.
pub fn decode(bytes: &[u8]) -> (e: MidiEvent)
    ensures
        e == spec_decode(bytes@),
{
    if bytes.len() == 1 && bytes[0] == 0xFE {
        MidiEvent::ActiveSensing
    } else if bytes.len() == 3 && 0x90 <= bytes[0] && bytes[0] <= 0x9F && bytes[1] < 0x80
        && bytes[2] < 0x80 {
        MidiEvent::NoteOn { channel: bytes[0] - 0x90, note: bytes[1], velocity: bytes[2] }
    } else if bytes.len() == 3 && 0x80 <= bytes[0] && bytes[0] <= 0x8F && bytes[1] < 0x80
        && bytes[2] < 0x80 {
        MidiEvent::NoteOff { channel: bytes[0] - 0x80, note: bytes[1], velocity: bytes[2] }
    } else {
        MidiEvent::Unrecognized
    }
}

/// The key policy: a note-on with zero velocity counts as a note-off, any
/// other note-on starts a voice, a note-off stops one, and everything else
/// asks nothing.
pub open spec fn spec_key_event(e: MidiEvent) -> Option<KeyEvent> {
    match e {
        MidiEvent::NoteOn { channel, note, velocity } => if velocity == 0 {
            Some(KeyEvent::Up { channel, note, velocity })
        } else {
            Some(KeyEvent::Down { channel, note, velocity })
        },
        MidiEvent::NoteOff { channel, note, velocity } => Some(
            KeyEvent::Up { channel, note, velocity },
        ),
        MidiEvent::ActiveSensing => None,
        MidiEvent::Unrecognized => None,
    }
}

/// Applies the key policy to one decoded message.
pub fn key_event(e: MidiEvent) -> (r: Option<KeyEvent>)
    ensures
        r == spec_key_event(e),
{
    match e {
        MidiEvent::NoteOn { channel, note, velocity } => if velocity == 0 {
            Some(KeyEvent::Up { channel, note, velocity })
        } else {
            Some(KeyEvent::Down { channel, note, velocity })
        },
        MidiEvent::NoteOff { channel, note, velocity } => Some(
            KeyEvent::Up { channel, note, velocity },
        ),
        MidiEvent::ActiveSensing => None,
        MidiEvent::Unrecognized => None,
    }
}

/// Decodes one raw MIDI message and applies the key policy to it: what a
/// port callback does with each incoming message.
pub fn key_event_of_bytes(bytes: &[u8]) -> (r: Option<KeyEvent>)
    ensures
        r == spec_key_event(spec_decode(bytes@)),
{
    key_event(decode(bytes))
}

/// The position after the last space in `name`, or `-1` when `name` holds
/// no space.  Ports report their name with a trailing word (a client
/// number) after a space; what comes before the last space is the name a
/// user asks for.
pub open spec fn last_space(name: Seq<u8>) -> int
    decreases name.len(),
{
    if name.len() == 0 {
        -1
    } else if name.last() == 32 {
        name.len() - 1
    } else {
        last_space(name.drop_last())
    }
}

/// Whether a reported port name matches a wanted name: everything before
/// the report's last space equals the wanted name.  A report without a
/// space matches nothing.
pub open spec fn spec_port_matches(name: Seq<u8>, wanted: Seq<u8>) -> bool {
    last_space(name) >= 0 && name.take(last_space(name)) == wanted
}

/// Whether one reported port name, as bytes, matches the wanted name.
pub fn port_matches(name: &[u8], wanted: &[u8]) -> (r: bool)
    ensures
        r == spec_port_matches(name@, wanted@),
{
    let n = name.len();
    let mut k: usize = n;
    proof {
        assert(name@.take(n as int) =~= name@);
    }
    while k > 0
        invariant
            k <= n,
            n == name@.len(),
            last_space(name@) == last_space(name@.take(k as int)),
        decreases k,
    {
        proof {
            assert(name@.take(k as int).drop_last() =~= name@.take(k as int - 1));
            assert(name@.take(k as int).last() == name@[k as int - 1]);
        }
        if name[k - 1] == 32 {
            let cut = k - 1;
            proof {
                assert(last_space(name@) == k as int - 1);
            }
            if cut != wanted.len() {
                return false;
            }
            let mut i: usize = 0;
            while i < cut
                invariant
                    i <= cut,
                    cut < n,
                    n == name@.len(),
                    cut == wanted@.len(),
                    last_space(name@) == cut as int,
                    forall|j: int| 0 <= j < i ==> name@[j] == wanted@[j],
                decreases cut - i,
            {
                if name[i] != wanted[i] {
                    proof {
                        assert(name@.take(cut as int)[i as int] == name@[i as int]);
                    }
                    return false;
                }
                i += 1;
            }
            proof {
                assert(name@.take(cut as int) =~= wanted@);
            }
            return true;
        }
        k -= 1;
    }
    proof {
        assert(name@.take(0) =~= Seq::<u8>::empty());
        assert(last_space(name@) == -1);
    }
    false
}

/// Finds the first port whose reported name matches the wanted name; with
/// no match the port does not exist.
pub fn find_port(names: &Vec<Vec<u8>>, wanted: &[u8]) -> (r: Result<
    usize,
    crate::error::Error,
>)
    ensures
        match r {
            Ok(i) => {
                &&& 0 <= i < names@.len()
                &&& spec_port_matches(names@[i as int]@, wanted@)
                &&& forall|j: int|
                    0 <= j < i ==> !spec_port_matches((#[trigger] names@[j])@, wanted@)
            },
            Err(e) => {
                &&& e == crate::error::Error::PortNotFound
                &&& forall|j: int|
                    0 <= j < names@.len() ==> !spec_port_matches((#[trigger] names@[j])@, wanted@)
            },
        },
{
    let n = names.len();
    let mut i: usize = 0;
    while i < n
        invariant
            i <= n,
            n == names@.len(),
            forall|j: int| 0 <= j < i ==> !spec_port_matches((#[trigger] names@[j])@, wanted@),
        decreases n - i,
    {
        if port_matches(names[i].as_slice(), wanted) {
            return Ok(i);
        }
        i += 1;
    }
    Err(crate::error::Error::PortNotFound)
}

} // verus!
