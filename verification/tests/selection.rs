use pedal_bridge::errors::MidiPedalError;
use pedal_bridge::ports::{parse_port_index, select_port};

#[test]
fn zero_ports_fails_with_no_device_found() {
    assert_eq!(select_port(0, None), Err(MidiPedalError::NoDeviceFound));
}

#[test]
fn single_port_is_chosen_without_a_line() {
    assert_eq!(select_port(1, None), Ok(0));
}

#[test]
fn two_ports_line_zero_selects_port_zero() {
    assert_eq!(select_port(2, Some(b"0\n")), Ok(0));
}

#[test]
fn index_two_selects_third_port_when_present() {
    assert_eq!(select_port(3, Some(b"2\n")), Ok(2));
}

#[test]
fn index_two_of_two_ports_is_out_of_range() {
    assert_eq!(
        select_port(2, Some(b"2\n")),
        Err(MidiPedalError::InvalidSelection)
    );
}

#[test]
fn non_numeric_line_fails_with_invalid_selection() {
    assert_eq!(
        select_port(2, Some(b"abc\n")),
        Err(MidiPedalError::InvalidSelection)
    );
}

#[test]
fn missing_line_with_several_ports_is_invalid() {
    assert_eq!(select_port(2, None), Err(MidiPedalError::InvalidSelection));
}

#[test]
fn surrounding_whitespace_is_trimmed() {
    assert_eq!(parse_port_index(b" 1 \r\n", 5), Ok(1));
    assert_eq!(parse_port_index(b"\t2\n", 5), Ok(2));
}

#[test]
fn leading_plus_sign_is_accepted() {
    assert_eq!(parse_port_index(b"+1\n", 5), Ok(1));
}

#[test]
fn empty_or_blank_line_is_invalid() {
    assert_eq!(parse_port_index(b"", 5), Err(MidiPedalError::InvalidSelection));
    assert_eq!(parse_port_index(b"  \n", 5), Err(MidiPedalError::InvalidSelection));
    assert_eq!(parse_port_index(b"+\n", 5), Err(MidiPedalError::InvalidSelection));
}

#[test]
fn negative_or_mixed_text_is_invalid() {
    assert_eq!(parse_port_index(b"-1\n", 5), Err(MidiPedalError::InvalidSelection));
    assert_eq!(parse_port_index(b"1a\n", 5), Err(MidiPedalError::InvalidSelection));
    assert_eq!(parse_port_index(b"++1\n", 5), Err(MidiPedalError::InvalidSelection));
}

#[test]
fn value_past_usize_is_invalid() {
    assert_eq!(
        parse_port_index(b"99999999999999999999999\n", 5),
        Err(MidiPedalError::InvalidSelection)
    );
}

#[test]
fn error_descriptions() {
    assert_eq!(
        MidiPedalError::NoDeviceFound.describe(),
        "no input port found"
    );
    assert_eq!(
        MidiPedalError::InvalidSelection.describe(),
        "invalid input port selected"
    );
    assert_eq!(
        MidiPedalError::PortNameUnavailable.describe(),
        "unable to resolve input port name"
    );
    assert_eq!(
        MidiPedalError::DeviceBuildFailure.describe(),
        "unable to build virtual input device"
    );
    assert_eq!(
        MidiPedalError::ConnectionFailure.describe(),
        "unable to connect to input port"
    );
    assert_eq!(
        MidiPedalError::EmissionFailure.describe(),
        "unable to emit key event"
    );
}
