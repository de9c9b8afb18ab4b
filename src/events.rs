use vstd::prelude::*;

use crate::key::{is_sticky_modifier, latch_flush, needs_latch_flush, AbstractKey, KeyEvent};
use crate::table::KeyTable;

verus! {

/// Typing keys one after the other: each key is pressed and then released before
/// the next one goes down.
pub open spec fn sequential_spec(keys: Seq<AbstractKey>) -> Seq<KeyEvent> {
    Seq::new(
        2 * keys.len(),
        |j: int|
            if j % 2 == 0 {
                KeyEvent::Press(keys[j / 2])
            } else {
                KeyEvent::Release(keys[j / 2])
            },
    )
}

/// A hotkey: every key goes down in the given order, then they all come up in the
/// reverse order.
pub open spec fn chord_spec(keys: Seq<AbstractKey>) -> Seq<KeyEvent> {
    Seq::new(
        2 * keys.len(),
        |j: int|
            if j < keys.len() {
                KeyEvent::Press(keys[j])
            } else {
                KeyEvent::Release(keys[2 * keys.len() - 1 - j])
            },
    )
}

/// What releasing one held key emits: a latch flush first for a sticky modifier,
/// then the key's own release.
pub open spec fn release_step(k: AbstractKey) -> Seq<KeyEvent> {
    if is_sticky_modifier(k) {
        latch_flush().push(KeyEvent::Release(k))
    } else {
        seq![KeyEvent::Release(k)]
    }
}

/// Releasing held keys in the given order, one step per key.
pub open spec fn release_spec(keys: Seq<AbstractKey>) -> Seq<KeyEvent>
    decreases keys.len(),
{
    if keys.len() == 0 {
        Seq::empty()
    } else {
        release_spec(keys.drop_last()) + release_step(keys.last())
    }
}

/// The press and release of every key in turn.
pub fn sequential_events(keys: &Vec<AbstractKey>) -> (r: Vec<KeyEvent>)
    requires
        2 * keys@.len() <= usize::MAX,
    ensures
        r@ == sequential_spec(keys@),
{
    let mut r: Vec<KeyEvent> = Vec::new();
    let mut i: usize = 0;
    while i < keys.len()
        invariant
            i <= keys@.len(),
            r@ == sequential_spec(keys@.take(i as int)),
        decreases keys@.len() - i,
    {
        let k = keys[i];
        r.push(KeyEvent::Press(k));
        r.push(KeyEvent::Release(k));
        i = i + 1;
        assert(r@ =~= sequential_spec(keys@.take(i as int)));
    }
    assert(keys@.take(i as int) =~= keys@);
    r
}

/// The presses of all keys in order, then their releases in reverse order.
pub fn chord_events(keys: &Vec<AbstractKey>) -> (r: Vec<KeyEvent>)
    requires
        2 * keys@.len() <= usize::MAX,
    ensures
        r@ == chord_spec(keys@),
{
    let n = keys.len();
    let mut r: Vec<KeyEvent> = Vec::new();
    let mut i: usize = 0;
    while i < n
        invariant
            n == keys@.len(),
            i <= n,
            r@.len() == i,
            forall|j: int| 0 <= j < i ==> r@[j] == KeyEvent::Press(keys@[j]),
        decreases n - i,
    {
        r.push(KeyEvent::Press(keys[i]));
        i = i + 1;
    }
    let mut i: usize = n;
    while i > 0
        invariant
            n == keys@.len(),
            i <= n,
            r@.len() == 2 * n - i,
            forall|j: int| 0 <= j < n ==> r@[j] == KeyEvent::Press(keys@[j]),
            forall|j: int| n <= j < 2 * n - i ==> r@[j] == KeyEvent::Release(keys@[2 * n - 1 - j]),
        decreases i,
    {
        i = i - 1;
        r.push(KeyEvent::Release(keys[i]));
    }
    assert(r@ =~= chord_spec(keys@));
    r
}

/// Every release step emits at most three events.
proof fn lemma_release_len(keys: Seq<AbstractKey>)
    ensures
        release_spec(keys).len() <= 3 * keys.len(),
    decreases keys.len(),
{
    if keys.len() > 0 {
        lemma_release_len(keys.drop_last());
    }
}

/// The release events for the held scancodes, resolved through `table`, in the
/// order in which they are held.
pub fn release_events(table: &KeyTable, held: &Vec<u32>) -> (r: Vec<KeyEvent>)
    requires
        table.covers(held@),
        3 * held@.len() <= usize::MAX,
    ensures
        r@ == release_spec(table.resolve_all(held@)),
{
    let ghost keys = table.resolve_all(held@);
    let mut r: Vec<KeyEvent> = Vec::new();
    let mut i: usize = 0;
    while i < held.len()
        invariant
            i <= held@.len(),
            3 * held@.len() <= usize::MAX,
            table.covers(held@),
            keys == table.resolve_all(held@),
            r@ == release_spec(keys.take(i as int)),
        decreases held@.len() - i,
    {
        let k = table.resolve(held[i]);
        proof {
            lemma_release_len(keys.take(i as int));
            assert(keys.take(i as int + 1).drop_last() =~= keys.take(i as int));
        }
        if needs_latch_flush(k) {
            r.push(KeyEvent::Release(AbstractKey::Alt));
            r.push(KeyEvent::Press(AbstractKey::Alt));
        }
        r.push(KeyEvent::Release(k));
        i = i + 1;
        assert(r@ =~= release_spec(keys.take(i as int)));
    }
    assert(keys.take(i as int) =~= keys);
    r
}

/// Where the events of the `i`-th held key start in the release stream.
pub open spec fn release_offset(keys: Seq<AbstractKey>, i: int) -> int {
    release_spec(keys.take(i)).len() as int
}

/// The release stream is made of the steps of the held keys, one after the other:
/// the stream of a longer list extends that of each of its prefixes.
pub proof fn lemma_release_prefix(keys: Seq<AbstractKey>, i: int)
    requires
        0 <= i <= keys.len(),
    ensures
        release_spec(keys).take(release_offset(keys, i)) == release_spec(keys.take(i)),
        release_offset(keys, i) <= release_spec(keys).len(),
    decreases keys.len() - i,
{
    if i == keys.len() {
        assert(keys.take(i) =~= keys);
        assert(release_spec(keys).take(release_offset(keys, i)) =~= release_spec(keys));
    } else {
        lemma_release_prefix(keys, i + 1);
        assert(keys.take(i + 1).drop_last() =~= keys.take(i));
        let whole = release_spec(keys);
        let longer = release_spec(keys.take(i + 1));
        let shorter = release_spec(keys.take(i));
        assert(longer == shorter + release_step(keys[i]));
        assert(whole.take(shorter.len() as int) =~= longer.take(shorter.len() as int));
        assert(longer.take(shorter.len() as int) =~= shorter);
    }
}

/// Each held key contributes exactly its own step, at its own place in held order:
/// for Alt or AltGr a release and a press of Alt right before the key's own
/// release, for any other key its release alone.
pub proof fn lemma_release_segments(keys: Seq<AbstractKey>, i: int)
    requires
        0 <= i < keys.len(),
    ensures
        release_offset(keys, i + 1) == release_offset(keys, i) + release_step(keys[i]).len(),
        release_spec(keys).subrange(release_offset(keys, i), release_offset(keys, i + 1))
            == release_step(keys[i]),
{
    lemma_release_prefix(keys, i + 1);
    assert(keys.take(i + 1).drop_last() =~= keys.take(i));
    let whole = release_spec(keys);
    let longer = release_spec(keys.take(i + 1));
    let shorter = release_spec(keys.take(i));
    assert(longer == shorter + release_step(keys[i]));
    let a = shorter.len() as int;
    let b = longer.len() as int;
    assert(whole.take(b) == longer);
    assert forall|j: int| 0 <= j < b - a implies #[trigger] whole.subrange(a, b)[j] == longer.subrange(a, b)[j] by {
        assert(whole.take(b)[a + j] == whole[a + j]);
    }
    assert(whole.subrange(a, b) =~= longer.subrange(a, b));
    assert(longer.subrange(a, b) =~= release_step(keys[i]));
}

/// For Alt or AltGr the events of its step are a release and a press of Alt, then
/// the key's own release; no other key gets the flush.
pub proof fn lemma_release_flush_only_for_sticky(keys: Seq<AbstractKey>, i: int)
    requires
        0 <= i < keys.len(),
    ensures
        ({
            let seg = release_spec(keys).subrange(release_offset(keys, i), release_offset(keys, i + 1));
            if is_sticky_modifier(keys[i]) {
                seg =~= seq![
                    KeyEvent::Release(AbstractKey::Alt),
                    KeyEvent::Press(AbstractKey::Alt),
                    KeyEvent::Release(keys[i]),
                ]
            } else {
                seg =~= seq![KeyEvent::Release(keys[i])]
            }
        }),
{
    lemma_release_segments(keys, i);
}

/// With no Alt or AltGr among the held keys, the stream is one release per key, in
/// held order, and nothing else.
pub proof fn lemma_release_plain(keys: Seq<AbstractKey>)
    requires
        forall|i: int| 0 <= i < keys.len() ==> !is_sticky_modifier(#[trigger] keys[i]),
    ensures
        release_spec(keys).len() == keys.len(),
        release_spec(keys) == keys.map_values(|k: AbstractKey| KeyEvent::Release(k)),
    decreases keys.len(),
{
    if keys.len() > 0 {
        let front = keys.drop_last();
        assert forall|i: int| 0 <= i < front.len() implies !is_sticky_modifier(#[trigger] front[i]) by {
            assert(front[i] == keys[i]);
        }
        lemma_release_plain(front);
        assert(!is_sticky_modifier(keys[keys.len() - 1]));
        assert(release_spec(keys) =~= keys.map_values(|k: AbstractKey| KeyEvent::Release(k)));
    }
}

/// Typed keys never overlap: the stream is the press of a key immediately followed
/// by its release, key after key in input order.
pub proof fn lemma_sequential_alternates(keys: Seq<AbstractKey>)
    ensures
        sequential_spec(keys).len() == 2 * keys.len(),
        forall|i: int|
            0 <= i < keys.len() ==> {
                &&& #[trigger] sequential_spec(keys)[2 * i] == KeyEvent::Press(keys[i])
                &&& sequential_spec(keys)[2 * i + 1] == KeyEvent::Release(keys[i])
            },
{
    assert forall|i: int| 0 <= i < keys.len() implies {
        &&& #[trigger] sequential_spec(keys)[2 * i] == KeyEvent::Press(keys[i])
        &&& sequential_spec(keys)[2 * i + 1] == KeyEvent::Release(keys[i])
    } by {
        assert((2 * i) / 2 == i);
        assert((2 * i + 1) / 2 == i);
        assert((2 * i) % 2 == 0);
        assert((2 * i + 1) % 2 == 1);
    }
}

/// A hotkey's presses follow the input order and its releases are exactly the
/// input order reversed.
pub proof fn lemma_chord_mirrors(keys: Seq<AbstractKey>)
    ensures
        chord_spec(keys).take(keys.len() as int) == keys.map_values(|k: AbstractKey| KeyEvent::Press(k)),
        chord_spec(keys).skip(keys.len() as int) == keys.reverse().map_values(
            |k: AbstractKey| KeyEvent::Release(k),
        ),
{
    assert(chord_spec(keys).take(keys.len() as int) =~= keys.map_values(|k: AbstractKey| KeyEvent::Press(k)));
    if keys.len() == 0 {
        assert(chord_spec(keys).skip(0) =~= Seq::<KeyEvent>::empty());
    }
    assert(chord_spec(keys).skip(keys.len() as int) =~= keys.reverse().map_values(
        |k: AbstractKey| KeyEvent::Release(k),
    ));
}

/// How many presses a stream holds.
pub open spec fn press_count(s: Seq<KeyEvent>) -> nat
    decreases s.len(),
{
    if s.len() == 0 {
        0
    } else {
        press_count(s.drop_last()) + if s.last() is Press { 1nat } else { 0nat }
    }
}

/// How many of the keys are Alt or AltGr.
pub open spec fn sticky_count(keys: Seq<AbstractKey>) -> nat
    decreases keys.len(),
{
    if keys.len() == 0 {
        0
    } else {
        sticky_count(keys.drop_last()) + if is_sticky_modifier(keys.last()) { 1nat } else { 0nat }
    }
}

proof fn lemma_press_count_concat(a: Seq<KeyEvent>, b: Seq<KeyEvent>)
    ensures
        press_count(a + b) == press_count(a) + press_count(b),
    decreases b.len(),
{
    if b.len() == 0 {
        assert(a + b =~= a);
    } else {
        lemma_press_count_concat(a, b.drop_last());
        assert((a + b).drop_last() =~= a + b.drop_last());
    }
}

/// The release stream presses a key once for each Alt or AltGr that is held, and
/// at no other place.
pub proof fn lemma_release_flush_count(keys: Seq<AbstractKey>)
    ensures
        press_count(release_spec(keys)) == sticky_count(keys),
    decreases keys.len(),
{
    if keys.len() > 0 {
        let k = keys.last();
        lemma_release_flush_count(keys.drop_last());
        lemma_press_count_concat(release_spec(keys.drop_last()), release_step(k));
        let step = release_step(k);
        if is_sticky_modifier(k) {
            let s1 = step.drop_last();
            let s2 = s1.drop_last();
            assert(s2.drop_last() =~= Seq::<KeyEvent>::empty());
            assert(press_count(s2.drop_last()) == 0);
            assert(s2.last() == KeyEvent::Release(AbstractKey::Alt));
            assert(press_count(s2) == 0);
            assert(s1.last() is Press);
            assert(press_count(s1) == 1);
            assert(press_count(step) == 1);
        } else {
            assert(step.drop_last() =~= Seq::<KeyEvent>::empty());
            assert(press_count(step.drop_last()) == 0);
            assert(press_count(step) == 0);
        }
    }
}

/// The key that an event presses or releases.
pub open spec fn key_of(e: KeyEvent) -> AbstractKey {
    match e {
        KeyEvent::Press(k) => k,
        KeyEvent::Release(k) => k,
    }
}

/// Whether an event is a press.
pub open spec fn is_press(e: KeyEvent) -> bool {
    e is Press
}

proof fn lemma_sequential_push(keys: Seq<AbstractKey>)
    requires
        keys.len() > 0,
    ensures
        sequential_spec(keys) == sequential_spec(keys.drop_last()) + seq![
            KeyEvent::Press(keys.last()),
            KeyEvent::Release(keys.last()),
        ],
{
    let front = keys.drop_last();
    let rhs = sequential_spec(front) + seq![KeyEvent::Press(keys.last()), KeyEvent::Release(keys.last())];
    assert forall|j: int| 0 <= j < 2 * keys.len() implies #[trigger] sequential_spec(keys)[j] == rhs[j] by {
        if j < 2 * front.len() {
            assert(j / 2 < front.len()) by (nonlinear_arith)
                requires 0 <= j < 2 * front.len();
        } else {
            assert(j / 2 == front.len()) by (nonlinear_arith)
                requires 2 * front.len() <= j < 2 * front.len() + 2;
        }
    }
    assert(sequential_spec(keys) =~= rhs);
}

/// Read apart, the typed stream's presses name the keys in input order, and so do
/// its releases.
pub proof fn lemma_sequential_key_order(keys: Seq<AbstractKey>)
    ensures
        sequential_spec(keys).filter(|e: KeyEvent| is_press(e)).map_values(|e: KeyEvent| key_of(e)) == keys,
        sequential_spec(keys).filter(|e: KeyEvent| !is_press(e)).map_values(|e: KeyEvent| key_of(e)) == keys,
    decreases keys.len(),
{
    let p = |e: KeyEvent| is_press(e);
    let q = |e: KeyEvent| !is_press(e);
    if keys.len() == 0 {
        assert(sequential_spec(keys) =~= Seq::<KeyEvent>::empty());
        assert(sequential_spec(keys).filter(p) =~= Seq::<KeyEvent>::empty());
        assert(sequential_spec(keys).filter(q) =~= Seq::<KeyEvent>::empty());
        assert(sequential_spec(keys).filter(p).map_values(|e: KeyEvent| key_of(e)) =~= keys);
        assert(sequential_spec(keys).filter(q).map_values(|e: KeyEvent| key_of(e)) =~= keys);
    } else {
        let front = keys.drop_last();
        let k = keys.last();
        let pair = seq![KeyEvent::Press(k), KeyEvent::Release(k)];
        lemma_sequential_key_order(front);
        lemma_sequential_push(keys);
        Seq::filter_distributes_over_add(sequential_spec(front), pair, p);
        Seq::filter_distributes_over_add(sequential_spec(front), pair, q);
        reveal_with_fuel(Seq::filter, 3);
        assert(pair.drop_last() =~= seq![KeyEvent::Press(k)]);
        assert(pair.drop_last().drop_last() =~= Seq::<KeyEvent>::empty());
        assert(pair.filter(p) =~= seq![KeyEvent::Press(k)]);
        assert(pair.filter(q) =~= seq![KeyEvent::Release(k)]);
        let f = |e: KeyEvent| key_of(e);
        let fp = sequential_spec(front).filter(p);
        let fq = sequential_spec(front).filter(q);
        assert(sequential_spec(keys).filter(p) == fp + seq![KeyEvent::Press(k)]);
        assert(sequential_spec(keys).filter(q) == fq + seq![KeyEvent::Release(k)]);
        assert(fp.map_values(f) == front);
        assert(fq.map_values(f) == front);
        assert((fp + seq![KeyEvent::Press(k)]).map_values(f) =~= fp.map_values(f).push(k));
        assert((fq + seq![KeyEvent::Release(k)]).map_values(f) =~= fq.map_values(f).push(k));
        assert(front.push(k) =~= keys);
    }
}

} // verus!
