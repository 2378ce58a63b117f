use vstd::prelude::*;

verus! {

/// The fatal errors of the bridge. None is recovered from: each surfaces as
/// a single printed line and ends the program.
#[derive(Clone, Copy, Debug, PartialEq, Eq, Structural)]
pub enum MidiPedalError {
    /// Zero MIDI input ports are available.
    NoDeviceFound,
    /// The port selection read from the console is unparsable or out of range.
    InvalidSelection,
    /// The MIDI subsystem cannot resolve a port's display name.
    PortNameUnavailable,
    /// Creating the virtual input device or registering its keys failed.
    DeviceBuildFailure,
    /// Subscribing the callback to the chosen port failed.
    ConnectionFailure,
    /// Writing a key event to the virtual device failed.
    EmissionFailure,
}

impl MidiPedalError {
    /// The one-line description printed at top level.
    pub fn describe(&self) -> (r: &'static str)
        ensures
            r@ == self.spec_describe(),
    {
        match self {
            MidiPedalError::NoDeviceFound => "no input port found",
            MidiPedalError::InvalidSelection => "invalid input port selected",
            MidiPedalError::PortNameUnavailable => "unable to resolve input port name",
            MidiPedalError::DeviceBuildFailure => "unable to build virtual input device",
            MidiPedalError::ConnectionFailure => "unable to connect to input port",
            MidiPedalError::EmissionFailure => "unable to emit key event",
        }
    }

    pub open spec fn spec_describe(&self) -> Seq<char> {
        match self {
            MidiPedalError::NoDeviceFound => "no input port found"@,
            MidiPedalError::InvalidSelection => "invalid input port selected"@,
            MidiPedalError::PortNameUnavailable => "unable to resolve input port name"@,
            MidiPedalError::DeviceBuildFailure => "unable to build virtual input device"@,
            MidiPedalError::ConnectionFailure => "unable to connect to input port"@,
            MidiPedalError::EmissionFailure => "unable to emit key event"@,
        }
    }
}

} // verus!
