use pedal_bridge::log::message_log_line;

#[test]
fn log_line_for_pedal_message() {
    let line = message_log_line(1234, &[176, 66, 127]);
    assert_eq!(line, b"1234: [176, 66, 127] (len = 3)".to_vec());
}

#[test]
fn log_line_for_empty_message() {
    let line = message_log_line(0, &[]);
    assert_eq!(line, b"0: [] (len = 0)".to_vec());
}

#[test]
fn log_line_for_single_byte() {
    let line = message_log_line(7, &[255]);
    assert_eq!(line, b"7: [255] (len = 1)".to_vec());
}

#[test]
fn log_line_for_large_stamp() {
    let line = message_log_line(u64::MAX, &[144, 60, 100]);
    assert_eq!(
        line,
        b"18446744073709551615: [144, 60, 100] (len = 3)".to_vec()
    );
}
