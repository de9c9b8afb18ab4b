use tokio::sync::mpsc::{unbounded_channel, UnboundedReceiver};
use wooting_macro_backend::events::{chord_events, release_events, sequential_events};
use wooting_macro_backend::key::{needs_latch_flush, AbstractKey, KeyEvent};
use wooting_macro_backend::outbox::{lift_keys, send_hotkey, send_key, ChannelClosed};
use wooting_macro_backend::table::KeyTable;

use AbstractKey::{
    Alt, AltGr, ControlLeft, KeyA, KeyB, KeyD, MetaLeft, MetaRight, Return, ShiftLeft, Space, Tab, Unknown, F5,
};
use KeyEvent::{Press, Release};

const SC_LEFT_ALT: u32 = 0x38;
const SC_RIGHT_ALT: u32 = 0xe038;
const SC_A: u32 = 0x1e;
const SC_B: u32 = 0x30;
const SC_CTRL: u32 = 0x1d;

fn drain(rx: &mut UnboundedReceiver<KeyEvent>) -> Vec<KeyEvent> {
    let mut out = Vec::new();
    while let Ok(e) = rx.try_recv() {
        out.push(e);
    }
    out
}

fn table() -> KeyTable {
    let mut t = KeyTable::new();
    t.insert(SC_LEFT_ALT, Alt);
    t.insert(SC_RIGHT_ALT, AltGr);
    t.insert(SC_A, KeyA);
    t.insert(SC_B, KeyB);
    t.insert(SC_CTRL, ControlLeft);
    t
}

#[test]
fn typing_presses_and_releases_each_key_in_turn() {
    let (mut tx, mut rx) = unbounded_channel();
    assert_eq!(send_key(&mut tx, vec![KeyA, KeyB, KeyA]), Ok(()));
    assert_eq!(
        drain(&mut rx),
        vec![Press(KeyA), Release(KeyA), Press(KeyB), Release(KeyB), Press(KeyA), Release(KeyA)]
    );
}

#[test]
fn typing_nothing_sends_nothing() {
    let (mut tx, mut rx) = unbounded_channel();
    assert_eq!(send_key(&mut tx, vec![]), Ok(()));
    assert!(drain(&mut rx).is_empty());
}

#[test]
fn hotkey_releases_in_reverse_order() {
    let (mut tx, mut rx) = unbounded_channel();
    assert_eq!(send_hotkey(&mut tx, vec![ControlLeft, ShiftLeft, KeyA]), Ok(()));
    assert_eq!(
        drain(&mut rx),
        vec![
            Press(ControlLeft),
            Press(ShiftLeft),
            Press(KeyA),
            Release(KeyA),
            Release(ShiftLeft),
            Release(ControlLeft),
        ]
    );
}

#[test]
fn hotkey_of_one_key() {
    assert_eq!(chord_events(&vec![F5]), vec![Press(F5), Release(F5)]);
}

#[test]
fn consecutive_calls_keep_their_order() {
    let (mut tx, mut rx) = unbounded_channel();
    assert_eq!(send_hotkey(&mut tx, vec![MetaLeft, KeyD]), Ok(()));
    assert_eq!(send_key(&mut tx, vec![Return]), Ok(()));
    assert_eq!(
        drain(&mut rx),
        vec![Press(MetaLeft), Press(KeyD), Release(KeyD), Release(MetaLeft), Press(Return), Release(Return)]
    );
}

#[test]
fn releasing_left_alt_and_a() {
    let (mut tx, mut rx) = unbounded_channel();
    assert_eq!(lift_keys(&vec![SC_LEFT_ALT, SC_A], &table(), &mut tx), Ok(()));
    assert_eq!(
        drain(&mut rx),
        vec![Release(Alt), Press(Alt), Release(Alt), Release(KeyA)]
    );
}

#[test]
fn releasing_altgr_flushes_the_alt_latch() {
    assert_eq!(
        release_events(&table(), &vec![SC_A, SC_RIGHT_ALT]),
        vec![Release(KeyA), Release(Alt), Press(Alt), Release(AltGr)]
    );
}

#[test]
fn releasing_two_alt_keys_flushes_twice() {
    assert_eq!(
        release_events(&table(), &vec![SC_RIGHT_ALT, SC_LEFT_ALT]),
        vec![Release(Alt), Press(Alt), Release(AltGr), Release(Alt), Press(Alt), Release(Alt)]
    );
}

#[test]
fn releasing_plain_keys_is_one_release_each_in_held_order() {
    let (mut tx, mut rx) = unbounded_channel();
    assert_eq!(lift_keys(&vec![SC_B, SC_CTRL, SC_A], &table(), &mut tx), Ok(()));
    assert_eq!(drain(&mut rx), vec![Release(KeyB), Release(ControlLeft), Release(KeyA)]);
}

#[test]
fn releasing_nothing_sends_nothing() {
    assert!(release_events(&table(), &vec![]).is_empty());
}

#[test]
fn resolving_twice_gives_the_same_key() {
    let t = table();
    let first = t.resolve(SC_LEFT_ALT);
    let second = t.resolve(SC_LEFT_ALT);
    assert_eq!(first, Alt);
    assert_eq!(first, second);
    assert_eq!(t.resolve(SC_A), KeyA);
}

#[test]
fn table_lookup_of_unknown_scancode() {
    let t = table();
    assert_eq!(t.get(0x9999), None);
    assert_eq!(t.get(SC_B), Some(KeyB));
}

#[test]
fn table_insert_replaces() {
    let mut t = table();
    t.insert(SC_A, Unknown(7));
    assert_eq!(t.get(SC_A), Some(Unknown(7)));
}

#[test]
fn only_alt_and_altgr_need_a_flush() {
    assert!(needs_latch_flush(Alt));
    assert!(needs_latch_flush(AltGr));
    assert!(!needs_latch_flush(ControlLeft));
    assert!(!needs_latch_flush(MetaRight));
    assert!(!needs_latch_flush(KeyA));
}

#[test]
fn pure_sequences_match_the_sent_ones() {
    assert_eq!(sequential_events(&vec![Tab, Space]), vec![Press(Tab), Release(Tab), Press(Space), Release(Space)]);
    assert_eq!(chord_events(&vec![]), Vec::<KeyEvent>::new());
}

#[test]
fn closed_channel_is_reported() {
    let (mut tx, rx) = unbounded_channel::<KeyEvent>();
    drop(rx);
    assert_eq!(send_key(&mut tx, vec![KeyA]), Err(ChannelClosed));
    assert_eq!(send_hotkey(&mut tx, vec![KeyA, KeyB]), Err(ChannelClosed));
    assert_eq!(
        lift_keys(&vec![SC_LEFT_ALT], &table(), &mut tx),
        Err(ChannelClosed)
    );
}

#[test]
fn empty_batch_on_closed_channel_succeeds() {
    let (mut tx, rx) = unbounded_channel::<KeyEvent>();
    drop(rx);
    assert_eq!(send_key(&mut tx, vec![]), Ok(()));
}
