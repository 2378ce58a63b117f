use vstd::prelude::*;

verus! {

/// The two semantic keys the virtual keyboard exposes. The process around
/// the library maps each to the operating system's key code.
#[derive(Clone, Copy, Debug, PartialEq, Eq, Structural)]
pub enum PedalKey {
    Down,
    Up,
}

/// One synthetic key event: `value` is 1 for a press and 0 for a release.
#[derive(Clone, Copy, Debug, PartialEq, Eq, Structural)]
pub struct KeyEvent {
    pub key: PedalKey,
    pub value: i32,
}

/// The Control Change message that maps to the Down key: status byte 176
/// (Control Change on channel 1), controller 66, value 127.
pub open spec fn down_pattern() -> Seq<u8> {
    seq![176u8, 66u8, 127u8]
}

/// The Control Change message that maps to the Up key: controller 67.
pub open spec fn up_pattern() -> Seq<u8> {
    seq![176u8, 67u8, 127u8]
}

pub open spec fn press(k: PedalKey) -> KeyEvent {
    KeyEvent { key: k, value: 1 }
}

pub open spec fn release(k: PedalKey) -> KeyEvent {
    KeyEvent { key: k, value: 0 }
}

/// A transient press of `k`: a press immediately followed by a release,
/// so the key never persists in a pressed state.
pub open spec fn pulse(k: PedalKey) -> Seq<KeyEvent> {
    seq![press(k), release(k)]
}

/// What a MIDI message translates to: an exact match against one of the two
/// fixed 3-byte patterns emits a press/release pulse of the matching key;
/// every other byte sequence emits nothing.
pub open spec fn spec_translate(m: Seq<u8>) -> Seq<KeyEvent> {
    if m == down_pattern() {
        pulse(PedalKey::Down)
    } else if m == up_pattern() {
        pulse(PedalKey::Up)
    } else {
        Seq::empty()
    }
}

/// Maps one incoming MIDI message to the key events to emit, by exact
/// byte-sequence equality with the two pedal patterns.
pub fn translate(message: &[u8]) -> (events: Vec<KeyEvent>)
    ensures
        events@ == spec_translate(message@),
{
    let mut events: Vec<KeyEvent> = Vec::new();
    if message.len() == 3 && message[0] == 176 && message[2] == 127 {
        if message[1] == 66 {
            proof {
                assert(message@ =~= down_pattern());
            }
            events.push(KeyEvent { key: PedalKey::Down, value: 1 });
            events.push(KeyEvent { key: PedalKey::Down, value: 0 });
            proof {
                assert(events@ =~= pulse(PedalKey::Down));
            }
        } else if message[1] == 67 {
            proof {
                assert(message@ =~= up_pattern());
            }
            events.push(KeyEvent { key: PedalKey::Up, value: 1 });
            events.push(KeyEvent { key: PedalKey::Up, value: 0 });
            proof {
                assert(events@ =~= pulse(PedalKey::Up));
            }
        } else {
            proof {
                lemma_pattern_mismatch(message@);
                assert(events@ =~= Seq::<KeyEvent>::empty());
            }
        }
    } else {
        proof {
            lemma_pattern_mismatch(message@);
            assert(events@ =~= Seq::<KeyEvent>::empty());
        }
    }
    events
}

/// A message that differs from a pattern in length or in any byte is not
/// that pattern.
proof fn lemma_pattern_mismatch(m: Seq<u8>)
    ensures
        m.len() != 3 || m[0] != 176 || m[1] != 66 || m[2] != 127 ==> m != down_pattern(),
        m.len() != 3 || m[0] != 176 || m[1] != 67 || m[2] != 127 ==> m != up_pattern(),
{
    assert(down_pattern().len() == 3);
    assert(down_pattern()[0] == 176 && down_pattern()[1] == 66 && down_pattern()[2] == 127);
    assert(up_pattern().len() == 3);
    assert(up_pattern()[0] == 176 && up_pattern()[1] == 67 && up_pattern()[2] == 127);
}

/// Exactly one press and one release are emitted for each matched pattern,
/// in that order and with no other events; any other message emits nothing.
pub proof fn lemma_translate_exact(m: Seq<u8>)
    ensures
        m == down_pattern() ==> spec_translate(m) == seq![
            press(PedalKey::Down),
            release(PedalKey::Down),
        ],
        m == up_pattern() ==> spec_translate(m) == seq![press(PedalKey::Up), release(PedalKey::Up)],
        m != down_pattern() && m != up_pattern() ==> spec_translate(m) == Seq::<KeyEvent>::empty(),
{
    lemma_pattern_mismatch(m);
    assert(down_pattern()[1] == 66 && up_pattern()[1] == 67);
    assert(down_pattern() != up_pattern());
}

/// Repeated delivery of the same message produces the same events each time:
/// the translation carries no state between invocations.
pub proof fn lemma_translate_stateless(m: Seq<u8>, first: Seq<KeyEvent>, second: Seq<KeyEvent>)
    requires
        first == spec_translate(m),
        second == spec_translate(m),
    ensures
        first == second,
{
}

/// No key is ever left held down: the emitted events come in press/release
/// pairs, each release immediately after its press, on the same key.
pub open spec fn leaves_keys_released(es: Seq<KeyEvent>) -> bool {
    &&& es.len() % 2 == 0
    &&& forall|i: int|
        0 <= i < es.len() && i % 2 == 0 ==> #[trigger] es[i].value == 1 && es[i + 1].value == 0
            && es[i].key == es[i + 1].key
}

/// Every translation leaves the virtual keyboard with all keys released.
pub proof fn lemma_translate_leaves_keys_released(m: Seq<u8>)
    ensures
        leaves_keys_released(spec_translate(m)),
{
    let es = spec_translate(m);
    assert forall|i: int| 0 <= i < es.len() && i % 2 == 0 implies #[trigger] es[i].value == 1 && es[
        i + 1].value == 0 && es[i].key == es[i + 1].key by {
        assert(i == 0);
    }
}

} // verus!
