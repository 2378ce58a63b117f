use pedal_bridge::events::{translate, KeyEvent, PedalKey};

fn pulse(key: PedalKey) -> Vec<KeyEvent> {
    vec![KeyEvent { key, value: 1 }, KeyEvent { key, value: 0 }]
}

#[test]
fn down_pattern_emits_down_pulse() {
    let events = translate(&[176, 66, 127]);
    assert_eq!(events, pulse(PedalKey::Down));
}

#[test]
fn up_pattern_emits_up_pulse() {
    let events = translate(&[176, 67, 127]);
    assert_eq!(events, pulse(PedalKey::Up));
}

#[test]
fn note_on_is_ignored() {
    let events = translate(&[144, 60, 100]);
    assert!(events.is_empty());
}

#[test]
fn other_value_is_ignored() {
    assert!(translate(&[176, 66, 126]).is_empty());
    assert!(translate(&[176, 66, 0]).is_empty());
    assert!(translate(&[176, 67, 0]).is_empty());
    assert!(translate(&[176, 68, 127]).is_empty());
}

#[test]
fn other_length_is_ignored() {
    assert!(translate(&[]).is_empty());
    assert!(translate(&[176, 66]).is_empty());
    assert!(translate(&[176, 66, 127, 0]).is_empty());
}

#[test]
fn repeated_delivery_gives_same_pulse() {
    let first = translate(&[176, 66, 127]);
    let second = translate(&[176, 66, 127]);
    assert_eq!(first, second);
    assert_eq!(first, pulse(PedalKey::Down));
}

#[test]
fn press_comes_before_release() {
    for message in [[176, 66, 127], [176, 67, 127]] {
        let events = translate(&message);
        assert_eq!(events.len(), 2);
        assert_eq!(events[0].value, 1);
        assert_eq!(events[1].value, 0);
        assert_eq!(events[0].key, events[1].key);
    }
}
