//! Translates pedal Control Change messages from a MIDI controller into
//! synthetic key press/release pairs, and selects the MIDI input port to
//! listen on. The surrounding process (console prompts, the MIDI connection
//! and the virtual keyboard device) lives outside this crate; everything
//! here is a pure decision on plain values.

pub mod errors;
pub mod events;
pub mod log;
pub mod ports;

pub use errors::MidiPedalError;
pub use log::message_log_line;
pub use events::KeyEvent;
pub use events::PedalKey;
pub use events::translate;
pub use ports::parse_port_index;
pub use ports::select_port;
