use vstd::prelude::*;

use tokio::sync::mpsc::UnboundedSender;

use crate::events::{
    chord_spec, lemma_release_prefix, lemma_release_segments, lemma_sequential_alternates,
    release_offset, release_spec, release_step, sequential_spec,
};
use crate::key::{is_sticky_modifier, needs_latch_flush, AbstractKey, KeyEvent};
use crate::table::KeyTable;

verus! {

#[verifier::external_type_specification]
#[verifier::external_body]
#[verifier::reject_recursive_types(T)]
pub struct ExUnboundedSender<T>(tokio::sync::mpsc::UnboundedSender<T>);

/// The events that the channel has accepted through this sender, in the order in
/// which it accepted them.
pub uninterp spec fn sent_log(sender: UnboundedSender<KeyEvent>) -> Seq<KeyEvent>;

/// Relies on tokio's `UnboundedSender::send`: the channel has no capacity limit, so
/// the message is appended to the queue unless the receiving half is gone; then
/// nothing is queued and the message comes back unchanged in `SendError`.
#[verifier::external_body]
fn enqueue(sender: &mut UnboundedSender<KeyEvent>, event: KeyEvent) -> (r: Result<(), KeyEvent>)
    ensures
        r is Ok ==> sent_log(*final(sender)) == sent_log(*old(sender)).push(event),
        r matches Err(back) ==> back == event && sent_log(*final(sender)) == sent_log(
            *old(sender),
        ),
{
    sender.send(event).map_err(|e| e.0)
}

/// The consumer side of the delivery channel no longer exists.
#[derive(Clone, Copy, Debug, PartialEq, Eq, Structural)]
pub struct ChannelClosed;

/// What sending a batch did to the channel's log: all of it was accepted, or the
/// channel closed after accepting a strict prefix of it.
pub open spec fn batch_outcome(
    before: Seq<KeyEvent>,
    after: Seq<KeyEvent>,
    batch: Seq<KeyEvent>,
    r: Result<(), ChannelClosed>,
) -> bool {
    match r {
        Ok(()) => after == before + batch,
        Err(_) => exists|j: int| 0 <= j < batch.len() && after == before + #[trigger] batch.take(j),
    }
}

/// Sends the event at position `idx` of `batch`, of which the part before `idx` has
/// already been accepted.
fn send_at(
    sender: &mut UnboundedSender<KeyEvent>,
    event: KeyEvent,
    Ghost(batch): Ghost<Seq<KeyEvent>>,
    Ghost(idx): Ghost<int>,
    Ghost(before): Ghost<Seq<KeyEvent>>,
) -> (r: Result<(), ChannelClosed>)
    requires
        0 <= idx < batch.len(),
        batch[idx] == event,
        sent_log(*old(sender)) == before + batch.take(idx),
    ensures
        r is Ok ==> sent_log(*final(sender)) == before + batch.take(idx + 1),
        r is Err ==> batch_outcome(before, sent_log(*final(sender)), batch, r),
{
    match enqueue(sender, event) {
        Ok(()) => {
            assert(batch.take(idx + 1) =~= batch.take(idx).push(event));
            Ok(())
        },
        Err(_) => Err(ChannelClosed),
    }
}

/// Types `key` one key after the other: the press and then the release of each, in
/// the given order.
pub fn send_key(send_channel: &mut UnboundedSender<KeyEvent>, key: Vec<AbstractKey>) -> (r: Result<
    (),
    ChannelClosed,
>)
    ensures
        batch_outcome(sent_log(*old(send_channel)), sent_log(*final(send_channel)), sequential_spec(key@), r),
{
    let ghost batch = sequential_spec(key@);
    let ghost before = sent_log(*send_channel);
    proof {
        lemma_sequential_alternates(key@);
    }
    let mut i: usize = 0;
    while i < key.len()
        invariant
            i <= key@.len(),
            batch == sequential_spec(key@),
            batch.len() == 2 * key@.len(),
            forall|j: int|
                0 <= j < key@.len() ==> {
                    &&& #[trigger] batch[2 * j] == KeyEvent::Press(key@[j])
                    &&& batch[2 * j + 1] == KeyEvent::Release(key@[j])
                },
            before == sent_log(*old(send_channel)),
            sent_log(*send_channel) == before + batch.take(2 * i),
        decreases key@.len() - i,
    {
        let k = key[i];
        assert(batch[2 * i] == KeyEvent::Press(k));
        match send_at(send_channel, KeyEvent::Press(k), Ghost(batch), Ghost(2 * i), Ghost(before)) {
            Ok(()) => {},
            Err(c) => {
                return Err(c);
            },
        }
        match send_at(send_channel, KeyEvent::Release(k), Ghost(batch), Ghost(2 * i + 1), Ghost(before)) {
            Ok(()) => {},
            Err(c) => {
                return Err(c);
            },
        }
        i = i + 1;
    }
    assert(batch.take(2 * i) =~= batch);
    Ok(())
}

/// Presses `key` as a hotkey: all keys down in the given order, then all up in the
/// reverse order.
pub fn send_hotkey(send_channel: &mut UnboundedSender<KeyEvent>, key: Vec<AbstractKey>) -> (r: Result<
    (),
    ChannelClosed,
>)
    ensures
        batch_outcome(sent_log(*old(send_channel)), sent_log(*final(send_channel)), chord_spec(key@), r),
{
    let ghost batch = chord_spec(key@);
    let ghost before = sent_log(*send_channel);
    let n = key.len();
    let mut i: usize = 0;
    while i < n
        invariant
            n == key@.len(),
            i <= n,
            batch == chord_spec(key@),
            before == sent_log(*old(send_channel)),
            sent_log(*send_channel) == before + batch.take(i as int),
        decreases n - i,
    {
        match send_at(send_channel, KeyEvent::Press(key[i]), Ghost(batch), Ghost(i as int), Ghost(before)) {
            Ok(()) => {},
            Err(c) => {
                return Err(c);
            },
        }
        i = i + 1;
    }
    let mut i: usize = n;
    while i > 0
        invariant
            n == key@.len(),
            i <= n,
            batch == chord_spec(key@),
            before == sent_log(*old(send_channel)),
            sent_log(*send_channel) == before + batch.take(2 * n - i),
        decreases i,
    {
        i = i - 1;
        match send_at(
            send_channel,
            KeyEvent::Release(key[i]),
            Ghost(batch),
            Ghost(2 * n - 1 - i),
            Ghost(before),
        ) {
            Ok(()) => {},
            Err(c) => {
                return Err(c);
            },
        }
    }
    assert(batch.take(2 * n as int) =~= batch);
    Ok(())
}

/// Releases every held scancode, in held order, flushing the latch of Alt and AltGr
/// before their own release.
pub fn lift_keys(
    pressed_events: &Vec<u32>,
    table: &KeyTable,
    channel_sender: &mut UnboundedSender<KeyEvent>,
) -> (r: Result<(), ChannelClosed>)
    requires
        table.covers(pressed_events@),
    ensures
        batch_outcome(
            sent_log(*old(channel_sender)),
            sent_log(*final(channel_sender)),
            release_spec(table.resolve_all(pressed_events@)),
            r,
        ),
{
    let ghost keys = table.resolve_all(pressed_events@);
    let ghost batch = release_spec(keys);
    let ghost before = sent_log(*channel_sender);
    let mut i: usize = 0;
    while i < pressed_events.len()
        invariant
            i <= pressed_events@.len(),
            table.covers(pressed_events@),
            keys == table.resolve_all(pressed_events@),
            batch == release_spec(keys),
            before == sent_log(*old(channel_sender)),
            sent_log(*channel_sender) == before + batch.take(release_offset(keys, i as int)),
        decreases pressed_events@.len() - i,
    {
        let k = table.resolve(pressed_events[i]);
        let ghost at = release_offset(keys, i as int);
        proof {
            lemma_release_segments(keys, i as int);
            lemma_release_prefix(keys, i as int + 1);
            assert(batch.subrange(at, release_offset(keys, i as int + 1)) == release_step(k));
        }
        let ghost own = if is_sticky_modifier(k) { at + 2 } else { at };
        if needs_latch_flush(k) {
            assert(batch[at] == release_step(k)[0]);
            match send_at(channel_sender, KeyEvent::Release(AbstractKey::Alt), Ghost(batch), Ghost(at), Ghost(before)) {
                Ok(()) => {},
                Err(c) => {
                    return Err(c);
                },
            }
            assert(batch[at + 1] == release_step(k)[1]);
            match send_at(channel_sender, KeyEvent::Press(AbstractKey::Alt), Ghost(batch), Ghost(at + 1), Ghost(before)) {
                Ok(()) => {},
                Err(c) => {
                    return Err(c);
                },
            }
        }
        assert(batch[own] == release_step(k)[own - at]);
        match send_at(channel_sender, KeyEvent::Release(k), Ghost(batch), Ghost(own), Ghost(before)) {
            Ok(()) => {},
            Err(c) => {
                return Err(c);
            },
        }
        i = i + 1;
    }
    proof {
        assert(keys.take(i as int) =~= keys);
        lemma_release_prefix(keys, i as int);
    }
    assert(batch.take(release_offset(keys, i as int)) =~= batch);
    Ok(())
}

} // verus!
