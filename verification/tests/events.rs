use synthkit::error::Error;
use synthkit::midi::{decode, find_port, key_event, key_event_of_bytes, port_matches, KeyEvent, MidiEvent};
use synthkit::play::{pick_config, BufferChoice, ConfigRange};
use synthkit::sample::check_sample_format;

#[test]
fn decode_note_on() {
    assert_eq!(
        MidiEvent::NoteOn { channel: 2, note: 69, velocity: 100 },
        decode(&[0x92, 69, 100])
    );
}

#[test]
fn decode_note_off() {
    assert_eq!(
        MidiEvent::NoteOff { channel: 0, note: 60, velocity: 64 },
        decode(&[0x80, 60, 64])
    );
}

#[test]
fn decode_active_sensing() {
    assert_eq!(MidiEvent::ActiveSensing, decode(&[0xFE]));
}

#[test]
fn decode_rejects_malformed_messages() {
    // Wrong length, foreign status bytes, and data bytes with the high
    // bit set are all unrecognized.
    assert_eq!(MidiEvent::Unrecognized, decode(&[]));
    assert_eq!(MidiEvent::Unrecognized, decode(&[0x90, 69]));
    assert_eq!(MidiEvent::Unrecognized, decode(&[0xB0, 1, 2]));
    assert_eq!(MidiEvent::Unrecognized, decode(&[0x90, 0x80, 100]));
    assert_eq!(MidiEvent::Unrecognized, decode(&[0x90, 69, 0x80]));
}

#[test]
fn note_on_with_zero_velocity_is_a_release() {
    assert_eq!(
        Some(KeyEvent::Up { channel: 1, note: 69, velocity: 0 }),
        key_event(MidiEvent::NoteOn { channel: 1, note: 69, velocity: 0 })
    );
}

#[test]
fn key_events_from_raw_bytes() {
    assert_eq!(
        Some(KeyEvent::Down { channel: 0, note: 69, velocity: 100 }),
        key_event_of_bytes(&[0x90, 69, 100])
    );
    assert_eq!(
        Some(KeyEvent::Up { channel: 0, note: 69, velocity: 0 }),
        key_event_of_bytes(&[0x90, 69, 0])
    );
    assert_eq!(
        Some(KeyEvent::Up { channel: 3, note: 60, velocity: 40 }),
        key_event_of_bytes(&[0x83, 60, 40])
    );
    assert_eq!(None, key_event_of_bytes(&[0xFE]));
    assert_eq!(None, key_event_of_bytes(&[0xF8]));
}

#[test]
fn port_name_matches_up_to_its_last_space() {
    assert!(port_matches(b"Mobile Keys 49 28:0", b"Mobile Keys 49"));
    assert!(!port_matches(b"Mobile Keys 49 28:0", b"Mobile Keys"));
    // Without a trailing word after a space, nothing matches.
    assert!(!port_matches(b"MobileKeys", b"MobileKeys"));
    assert!(port_matches(b"Midi Through Port-0 14:0", b"Midi Through Port-0"));
}

#[test]
fn find_port_takes_the_first_match_or_reports_absence() {
    let names: Vec<Vec<u8>> = vec![
        b"Midi Through Port-0 14:0".to_vec(),
        b"Mobile Keys 49 28:0".to_vec(),
        b"Mobile Keys 49 28:1".to_vec(),
    ];
    assert_eq!(Ok(1), find_port(&names, b"Mobile Keys 49"));
    assert_eq!(Err(Error::PortNotFound), find_port(&names, b"Launchpad"));
}

fn mono16(min_rate: u32, max_rate: u32, buffer: Option<(u32, u32)>) -> ConfigRange {
    ConfigRange { channels: 1, signed16: true, min_rate, max_rate, buffer }
}

#[test]
fn pick_config_takes_the_first_match() {
    let configs = vec![
        ConfigRange { channels: 2, signed16: true, min_rate: 8000, max_rate: 96000, buffer: None },
        mono16(8000, 96000, Some((64, 4096))),
        mono16(8000, 96000, Some((64, 128))),
    ];
    assert_eq!(Ok(BufferChoice::Fixed(1024)), pick_config(&configs));
}

#[test]
fn pick_config_clamps_the_buffer_size() {
    // The preferred size is clamped into the reported range.
    assert_eq!(Ok(BufferChoice::Fixed(128)), pick_config(&vec![mono16(8000, 96000, Some((64, 128)))]));
    assert_eq!(
        Ok(BufferChoice::Fixed(2048)),
        pick_config(&vec![mono16(8000, 96000, Some((2048, 4096)))])
    );
    assert_eq!(
        Ok(BufferChoice::DeviceDefault),
        pick_config(&vec![mono16(8000, 96000, None)])
    );
}

#[test]
fn pick_config_rejects_unusable_devices() {
    let configs = vec![
        // Stereo only.
        ConfigRange { channels: 2, signed16: true, min_rate: 8000, max_rate: 96000, buffer: None },
        // Wrong sample format.
        ConfigRange { channels: 1, signed16: false, min_rate: 8000, max_rate: 96000, buffer: None },
        // Rate range that misses 48 kHz.
        mono16(8000, 44100, None),
        mono16(88200, 96000, None),
    ];
    assert_eq!(Err(Error::DeviceFormatUnsupported), pick_config(&configs));
}

#[test]
fn sample_format_accepts_only_the_capture_format() {
    assert!(check_sample_format(1, 16, 48000).is_ok());
    assert_eq!(Err(Error::InvalidInputFormat), check_sample_format(2, 16, 48000));
    assert_eq!(Err(Error::InvalidInputFormat), check_sample_format(1, 8, 48000));
    assert_eq!(Err(Error::InvalidInputFormat), check_sample_format(1, 16, 44100));
}

#[test]
fn errors_describe_themselves() {
    assert_eq!("voice key is already held", Error::DuplicateVoiceKey.describe());
    assert_eq!("no audio output device is available", Error::DeviceUnavailable.describe());
    assert_eq!("MIDI input port not found", Error::PortNotFound.describe());
}
