//! What holds of a prefetch whatever happens to it: the bound is kept, no token is
//! lost, and a reader gets what was fetched for its key.

use crate::error::{error_message, ErrorView};
use crate::prefetch::{
    acquired, all_differ, bounded, consumed, exact, fetch_started, find_id, find_listed,
    fresh_prefetch, given_up, left_alone, lemma_acquire_keeps_bound, lemma_acquire_keeps_tokens,
    lemma_bounded_bodies, lemma_complete_keeps_bound, lemma_complete_keeps_tokens,
    lemma_fetch_keeps_bound, lemma_fetch_keeps_tokens, lemma_find_id, lemma_find_listed,
    lemma_give_up_keeps_bound, lemma_give_up_keeps_tokens, lemma_new_bounded, lemma_new_exact,
    lemma_read_keeps_bound, lemma_read_keeps_tokens, new_slot, outstanding_count, read_result,
    released, replaced, settled, slot_for, unlisted, KeyView, PrefetchView, SlotStateView,
    SlotView,
};
use vstd::prelude::*;

verus! {

/// Something that happens to a prefetch.
pub enum PrefetchEvent {
    /// The coordinator asks for the next fetch.
    Fetch,
    /// The fetch of a slot ends.
    Complete { slot: u64, state: SlotStateView },
    /// A reader asks for a key.
    Acquire { key: KeyView },
    /// A reader asks for the body of a slot.
    Poll { slot: u64 },
    /// A reader stops waiting for a slot.
    GiveUp { slot: u64 },
}

/// The prefetch after an event.
pub open spec fn happened(prefetch: PrefetchView, event: PrefetchEvent) -> PrefetchView {
    match event {
        PrefetchEvent::Fetch => if prefetch.tokens == 0 || prefetch.targets.len() == 0 {
            prefetch
        } else {
            fetch_started(prefetch)
        },
        PrefetchEvent::Complete { slot, state } => settled(prefetch, slot, state),
        PrefetchEvent::Acquire { key } => acquired(prefetch, key),
        PrefetchEvent::Poll { slot } => match find_id(prefetch.slots, slot, 0) {
            Some(i) => if prefetch.slots[i].state is InFlight {
                prefetch
            } else {
                consumed(prefetch, i)
            },
            None => prefetch,
        },
        PrefetchEvent::GiveUp { slot } => given_up(prefetch, slot),
    }
}

/// The prefetch after some events, in order.
pub open spec fn history(start: PrefetchView, events: Seq<PrefetchEvent>) -> PrefetchView
    decreases events.len(),
{
    if events.len() == 0 {
        start
    } else {
        happened(history(start, events.drop_last()), events.last())
    }
}

/// Whether event `f` starts the fetch of a key into a slot.
pub open spec fn starts(
    start: PrefetchView,
    events: Seq<PrefetchEvent>,
    f: int,
    slot: u64,
    key: KeyView,
) -> bool {
    let before = history(start, events.take(f));
    &&& 0 <= f < events.len()
    &&& events[f] is Fetch
    &&& before.tokens > 0
    &&& before.targets.len() > 0
    &&& before.targets[0] == key
    &&& before.next_id == slot
}

/// Whether event `c` ends the fetch of a slot in a state.
pub open spec fn ends(
    events: Seq<PrefetchEvent>,
    c: int,
    slot: u64,
    state: SlotStateView,
) -> bool {
    0 <= c < events.len() && events[c] == (PrefetchEvent::Complete { slot, state })
}

/// Whether a slot has its key from the event that started its fetch, and its state
/// from an event after that one.
pub open spec fn traced(start: PrefetchView, events: Seq<PrefetchEvent>, slot: SlotView) -> bool {
    exists|f: int| #[trigger]
        starts(start, events, f, slot.id, slot.key) && (slot.state is InFlight || exists|c: int|
            f < c && #[trigger] ends(events, c, slot.id, slot.state))
}

/// Whether two slots are the same but for who refers to them.
spec fn same_body(left: SlotView, right: SlotView) -> bool {
    left.id == right.id && left.key == right.key && left.state == right.state
}

/// Whether a slot is one of a list, but for who refers to it.
spec fn among(slot: SlotView, origin: Seq<SlotView>) -> bool {
    exists|j: int| 0 <= j < origin.len() && same_body(#[trigger] origin[j], slot)
}

/// Whether every slot of a list is one of another list, but for who refers to it.
spec fn all_from(slots: Seq<SlotView>, origin: Seq<SlotView>) -> bool {
    forall|k: int| 0 <= k < slots.len() ==> among(#[trigger] slots[k], origin)
}

proof fn lemma_all_from_self(slots: Seq<SlotView>)
    ensures
        all_from(slots, slots),
{
    assert forall|k: int| 0 <= k < slots.len() implies among(#[trigger] slots[k], slots) by {
        assert(same_body(slots[k], slots[k]));
    }
}

proof fn lemma_replaced_from(slots: Seq<SlotView>, i: int, slot: SlotView)
    requires
        0 <= i < slots.len(),
        same_body(slots[i], slot),
    ensures
        all_from(replaced(slots, i, slot), slots),
{
    let after = replaced(slots, i, slot);
    assert forall|k: int| 0 <= k < after.len() implies among(#[trigger] after[k], slots) by {
        let j = if after.len() == slots.len() || k < i {
            k
        } else {
            k + 1
        };
        assert(same_body(slots[j], after[k]));
    }
}

proof fn lemma_unlisted_from(slots: Seq<SlotView>, key: KeyView)
    ensures
        all_from(unlisted(slots, key), slots),
{
    lemma_all_from_self(slots);
    lemma_find_listed(slots, key, 0);
    if let Some(i) = find_listed(slots, key, 0) {
        lemma_replaced_from(slots, i, SlotView { listed: false, ..slots[i] });
    }
}

proof fn lemma_released_from(slots: Seq<SlotView>, id: u64)
    ensures
        all_from(released(slots, id), slots),
        all_from(left_alone(slots, id), slots),
{
    lemma_all_from_self(slots);
    lemma_find_id(slots, id, 0);
    if let Some(i) = find_id(slots, id, 0) {
        let waiters = if slots[i].waiters > 0 {
            (slots[i].waiters - 1) as u64
        } else {
            0
        };
        lemma_replaced_from(slots, i, SlotView { charged: false, waiters, ..slots[i] });
        lemma_replaced_from(slots, i, SlotView { waiters, ..slots[i] });
    }
}

proof fn lemma_all_from_trans(a: Seq<SlotView>, b: Seq<SlotView>, c: Seq<SlotView>)
    requires
        all_from(a, b),
        all_from(b, c),
    ensures
        all_from(a, c),
{
    assert forall|k: int| 0 <= k < a.len() implies among(#[trigger] a[k], c) by {
        assert(among(a[k], b));
        let m = choose|m: int| 0 <= m < b.len() && same_body(#[trigger] b[m], a[k]);
        assert(among(b[m], c));
        let j = choose|j: int| 0 <= j < c.len() && same_body(#[trigger] c[j], b[m]);
        assert(same_body(c[j], a[k]));
    }
}

/// What was traced stays traced when more happens.
proof fn lemma_traced_longer(
    start: PrefetchView,
    events: Seq<PrefetchEvent>,
    event: PrefetchEvent,
    slot: SlotView,
)
    requires
        traced(start, events, slot),
    ensures
        traced(start, events.push(event), slot),
{
    let longer = events.push(event);
    let f = choose|f: int| #[trigger]
        starts(start, events, f, slot.id, slot.key) && (slot.state is InFlight || exists|c: int|
            f < c && #[trigger] ends(events, c, slot.id, slot.state));
    assert(longer.take(f) =~= events.take(f));
    assert(starts(start, longer, f, slot.id, slot.key));
    if !(slot.state is InFlight) {
        let c = choose|c: int| f < c && #[trigger] ends(events, c, slot.id, slot.state);
        assert(ends(longer, c, slot.id, slot.state));
    }
}

/// Whether every slot of a list is traced.
spec fn all_traced(
    start: PrefetchView,
    events: Seq<PrefetchEvent>,
    slots: Seq<SlotView>,
) -> bool {
    forall|i: int| 0 <= i < slots.len() ==> traced(start, events, #[trigger] slots[i])
}

proof fn lemma_fetch_traced(start: PrefetchView, before: Seq<PrefetchEvent>)
    requires
        all_traced(start, before.push(PrefetchEvent::Fetch), history(start, before).slots),
        history(start, before).tokens > 0,
        history(start, before).targets.len() > 0,
    ensures
        all_traced(
            start,
            before.push(PrefetchEvent::Fetch),
            fetch_started(history(start, before)).slots,
        ),
{
    let events = before.push(PrefetchEvent::Fetch);
    let p = history(start, before);
    let key = p.targets[0];
    let rest = unlisted(p.slots, key);
    let slot = new_slot(p.next_id, key);
    let after = fetch_started(p).slots;
    lemma_unlisted_from(p.slots, key);
    lemma_traced_all(start, events, rest, p.slots);
    assert(events.take(before.len() as int) =~= before);
    assert(starts(start, events, before.len() as int, slot.id, slot.key));
    assert(traced(start, events, slot));
    assert forall|i: int| 0 <= i < after.len() implies traced(start, events, #[trigger] after[i]) by {
        if i < rest.len() {
            assert(after[i] == rest[i]);
        } else {
            assert(after[i] == slot);
        }
    }
}

proof fn lemma_complete_traced(
    start: PrefetchView,
    before: Seq<PrefetchEvent>,
    id: u64,
    state: SlotStateView,
)
    requires
        all_traced(start, before, history(start, before).slots),
        all_traced(
            start,
            before.push(PrefetchEvent::Complete { slot: id, state }),
            history(start, before).slots,
        ),
    ensures
        all_traced(
            start,
            before.push(PrefetchEvent::Complete { slot: id, state }),
            settled(history(start, before), id, state).slots,
        ),
{
    let events = before.push(PrefetchEvent::Complete { slot: id, state });
    let p = history(start, before);
    let after = settled(p, id, state).slots;
    lemma_find_id(p.slots, id, 0);
    if let Some(i) = find_id(p.slots, id, 0) {
        if p.slots[i].state is InFlight {
            let done = SlotView { state, ..p.slots[i] };
            assert(traced(start, before, p.slots[i]));
            let f = choose|f: int| #[trigger] starts(start, before, f, done.id, done.key);
            assert(events.take(f) =~= before.take(f));
            assert(starts(start, events, f, done.id, done.key));
            assert(ends(events, before.len() as int, done.id, done.state));
            assert(traced(start, events, done));
            assert forall|k: int| 0 <= k < after.len() implies traced(
                start,
                events,
                #[trigger] after[k],
            ) by {
                let j = if after.len() == p.slots.len() || k < i {
                    k
                } else {
                    k + 1
                };
                if j != i {
                    assert(after[k] == p.slots[j]);
                } else {
                    assert(after[k] == done);
                }
            }
        }
    }
}

proof fn lemma_poll_from(p: PrefetchView, i: int)
    requires
        0 <= i < p.slots.len(),
    ensures
        all_from(consumed(p, i).slots, p.slots),
{
    let rest = unlisted(p.slots, p.slots[i].key);
    lemma_unlisted_from(p.slots, p.slots[i].key);
    lemma_released_from(rest, p.slots[i].id);
    lemma_all_from_trans(released(rest, p.slots[i].id), rest, p.slots);
}

proof fn lemma_acquire_from(p: PrefetchView, key: KeyView)
    ensures
        all_from(acquired(p, key).slots, p.slots),
{
    let after = acquired(p, key).slots;
    lemma_find_listed(p.slots, key, 0);
    assert forall|k: int| 0 <= k < after.len() implies among(#[trigger] after[k], p.slots) by {
        assert(same_body(p.slots[k], after[k]));
    }
}

/// Every slot is traced to the events that made it what it is.
proof fn lemma_slots_are_traced(start: PrefetchView, events: Seq<PrefetchEvent>)
    requires
        start.slots.len() == 0,
    ensures
        all_traced(start, events, history(start, events).slots),
    decreases events.len(),
{
    if events.len() > 0 {
        let before = events.drop_last();
        let event = events.last();
        let p = history(start, before);
        let after = history(start, events);
        lemma_slots_are_traced(start, before);
        assert(before.push(event) =~= events);
        assert forall|i: int| 0 <= i < p.slots.len() implies traced(
            start,
            events,
            #[trigger] p.slots[i],
        ) by {
            lemma_traced_longer(start, before, event, p.slots[i]);
        }
        assert(all_traced(start, events, p.slots));
        match event {
            PrefetchEvent::Fetch => {
                if p.tokens > 0 && p.targets.len() > 0 {
                    lemma_fetch_traced(start, before);
                }
            },
            PrefetchEvent::Complete { slot, state } => {
                lemma_complete_traced(start, before, slot, state);
            },
            PrefetchEvent::Acquire { key } => {
                lemma_acquire_from(p, key);
                lemma_traced_all(start, events, after.slots, p.slots);
            },
            PrefetchEvent::Poll { slot } => {
                lemma_find_id(p.slots, slot, 0);
                if let Some(i) = find_id(p.slots, slot, 0) {
                    lemma_poll_from(p, i);
                    if !(p.slots[i].state is InFlight) {
                        lemma_traced_all(start, events, after.slots, p.slots);
                    }
                }
            },
            PrefetchEvent::GiveUp { slot } => {
                lemma_released_from(p.slots, slot);
                lemma_traced_all(start, events, after.slots, p.slots);
            },
        }
    }
}

proof fn lemma_traced_all(
    start: PrefetchView,
    events: Seq<PrefetchEvent>,
    slots: Seq<SlotView>,
    origin: Seq<SlotView>,
)
    requires
        all_from(slots, origin),
        all_traced(start, events, origin),
    ensures
        all_traced(start, events, slots),
{
    assert forall|i: int| 0 <= i < slots.len() implies traced(start, events, #[trigger] slots[i]) by {
        assert(among(slots[i], origin));
        let j = choose|j: int| 0 <= j < origin.len() && same_body(#[trigger] origin[j], slots[i]);
        let o = origin[j];
        assert(traced(start, events, o));
        let f = choose|f: int| #[trigger]
            starts(start, events, f, o.id, o.key) && (o.state is InFlight || exists|c: int|
                f < c && #[trigger] ends(events, c, o.id, o.state));
        assert(starts(start, events, f, slots[i].id, slots[i].key));
    }
}

/// Every target gets one id.
proof fn lemma_ids(start: PrefetchView, events: Seq<PrefetchEvent>)
    requires
        start.next_id + start.targets.len() <= u64::MAX,
    ensures
        history(start, events).next_id + history(start, events).targets.len() == start.next_id
            + start.targets.len(),
    decreases events.len(),
{
    if events.len() > 0 {
        lemma_ids(start, events.drop_last());
    }
}

/// Ids only grow, and each fetch that is started has its own.
proof fn lemma_ids_grow(start: PrefetchView, events: Seq<PrefetchEvent>, f: int, n: int)
    requires
        start.next_id + start.targets.len() <= u64::MAX,
        0 <= f < n <= events.len(),
    ensures
        history(start, events.take(f)).next_id <= history(start, events.take(n)).next_id,
        ({
            let before = history(start, events.take(f));
            events[f] is Fetch && before.tokens > 0 && before.targets.len() > 0
                ==> before.next_id < history(start, events.take(n)).next_id
        }),
    decreases n - f,
{
    let last = n - 1;
    assert(events.take(n).drop_last() =~= events.take(last));
    assert(events.take(n).last() == events[last]);
    lemma_ids(start, events.take(last));
    if f < last {
        lemma_ids_grow(start, events, f, last);
    }
}

/// A slot id belongs to one fetch, and so to one key.
proof fn lemma_one_fetch(
    start: PrefetchView,
    events: Seq<PrefetchEvent>,
    f: int,
    g: int,
    slot: u64,
    first: KeyView,
    second: KeyView,
)
    requires
        start.next_id + start.targets.len() <= u64::MAX,
        starts(start, events, f, slot, first),
        starts(start, events, g, slot, second),
    ensures
        f == g,
        first == second,
{
    if f < g {
        lemma_ids_grow(start, events, f, g);
    } else if g < f {
        lemma_ids_grow(start, events, g, f);
    }
}

/// A reader gets what was fetched for its key, whatever happens in between: where
/// a reader that asked for a key at event `a` was told to wait for a slot, and that
/// slot has a body or a failure later, then a fetch of that very key was started for
/// the slot, and it ended that way.
pub proof fn lemma_reader_gets_its_fetch(
    concurrency: usize,
    targets: Seq<KeyView>,
    events: Seq<PrefetchEvent>,
    a: int,
    key: KeyView,
    slot: u64,
    i: int,
)
    requires
        targets.len() <= u64::MAX,
        0 <= a < events.len(),
        slot_for(history(fresh_prefetch(concurrency, targets), events.take(a)), key) == Some(slot),
        find_id(history(fresh_prefetch(concurrency, targets), events).slots, slot, 0) == Some(i),
        !(history(fresh_prefetch(concurrency, targets), events).slots[i].state is InFlight),
    ensures
        exists|f: int, c: int|
            f < c && #[trigger] starts(
                fresh_prefetch(concurrency, targets),
                events,
                f,
                slot,
                key,
            ) && #[trigger] ends(
                events,
                c,
                slot,
                history(fresh_prefetch(concurrency, targets), events).slots[i].state,
            ),
{
    let start = fresh_prefetch(concurrency, targets);
    let early = events.take(a);
    let then = history(start, early);
    let now = history(start, events);
    lemma_find_listed(then.slots, key, 0);
    let k = find_listed(then.slots, key, 0)->0;
    lemma_slots_are_traced(start, early);
    assert(traced(start, early, then.slots[k]));
    let f = choose|f: int| #[trigger] starts(start, early, f, slot, key);
    assert(events.take(f) =~= early.take(f));
    assert(starts(start, events, f, slot, key));
    lemma_find_id(now.slots, slot, 0);
    lemma_slots_are_traced(start, events);
    let end = now.slots[i];
    assert(traced(start, events, end));
    let g = choose|g: int| #[trigger]
        starts(start, events, g, end.id, end.key) && (end.state is InFlight || exists|c: int|
            g < c && #[trigger] ends(events, c, end.id, end.state));
    lemma_one_fetch(start, events, f, g, slot, key, end.key);
    let c = choose|c: int| g < c && #[trigger] ends(events, c, end.id, end.state);
    assert(starts(start, events, f, slot, key) && ends(events, c, slot, end.state));
}

/// Whether no event pretends that a fetch ended in flight.
pub open spec fn fetches_end(events: Seq<PrefetchEvent>) -> bool {
    forall|c: int|
        0 <= c < events.len() ==> !((#[trigger] events[c]) matches PrefetchEvent::Complete {
            state: SlotStateView::InFlight,
            ..
        })
}

/// Whatever happens, at no time are more bodies in flight or waiting for their first
/// reader than the concurrency allows.
pub proof fn lemma_always_bounded(
    concurrency: usize,
    targets: Seq<KeyView>,
    events: Seq<PrefetchEvent>,
)
    requires
        targets.len() <= u64::MAX,
        fetches_end(events),
    ensures
        bounded(history(fresh_prefetch(concurrency, targets), events)),
        outstanding_count(history(fresh_prefetch(concurrency, targets), events).slots)
            <= concurrency,
    decreases events.len(),
{
    let start = fresh_prefetch(concurrency, targets);
    lemma_new_bounded(concurrency, targets);
    if events.len() > 0 {
        let before = events.drop_last();
        let p = history(start, before);
        assert(forall|c: int| 0 <= c < before.len() ==> #[trigger] before[c] == events[c]);
        lemma_always_bounded(concurrency, targets, before);
        lemma_ids(start, before);
        match events.last() {
            PrefetchEvent::Fetch => {
                if p.tokens > 0 && p.targets.len() > 0 {
                    lemma_fetch_keeps_bound(p);
                }
            },
            PrefetchEvent::Complete { slot, state } => {
                assert(events[events.len() - 1] == events.last());
                lemma_complete_keeps_bound(p, slot, state);
            },
            PrefetchEvent::Acquire { key } => lemma_acquire_keeps_bound(p, key),
            PrefetchEvent::Poll { slot } => {
                if let Some(i) = find_id(p.slots, slot, 0) {
                    if !(p.slots[i].state is InFlight) {
                        lemma_read_keeps_bound(p, slot, i);
                    }
                }
            },
            PrefetchEvent::GiveUp { slot } => lemma_give_up_keeps_bound(p, slot),
        }
    }
    lemma_capacity_stays(start, events);
    lemma_bounded_bodies(history(start, events));
}

proof fn lemma_capacity_stays(start: PrefetchView, events: Seq<PrefetchEvent>)
    ensures
        history(start, events).capacity == start.capacity,
    decreases events.len(),
{
    if events.len() > 0 {
        lemma_capacity_stays(start, events.drop_last());
    }
}

/// Whatever happens, no token is ever lost, as long as the targets differ from each
/// other.
pub proof fn lemma_always_exact(
    concurrency: usize,
    targets: Seq<KeyView>,
    events: Seq<PrefetchEvent>,
)
    requires
        targets.len() <= u64::MAX,
        all_differ(targets),
        fetches_end(events),
    ensures
        exact(history(fresh_prefetch(concurrency, targets), events)),
    decreases events.len(),
{
    let start = fresh_prefetch(concurrency, targets);
    lemma_new_exact(concurrency, targets);
    if events.len() > 0 {
        let before = events.drop_last();
        let p = history(start, before);
        assert(forall|c: int| 0 <= c < before.len() ==> #[trigger] before[c] == events[c]);
        lemma_always_exact(concurrency, targets, before);
        lemma_ids(start, before);
        match events.last() {
            PrefetchEvent::Fetch => {
                if p.tokens > 0 && p.targets.len() > 0 {
                    lemma_fetch_keeps_tokens(p);
                }
            },
            PrefetchEvent::Complete { slot, state } => {
                assert(events[events.len() - 1] == events.last());
                lemma_complete_keeps_tokens(p, slot, state);
            },
            PrefetchEvent::Acquire { key } => lemma_acquire_keeps_tokens(p, key),
            PrefetchEvent::Poll { slot } => {
                if let Some(i) = find_id(p.slots, slot, 0) {
                    if !(p.slots[i].state is InFlight) {
                        lemma_read_keeps_tokens(p, slot, i);
                    }
                }
            },
            PrefetchEvent::GiveUp { slot } => lemma_give_up_keeps_tokens(p, slot),
        }
    }
}

/// How a fetch with this outcome ends.
pub open spec fn fetch_end(outcome: Result<Seq<u8>, ErrorView>) -> SlotStateView {
    match outcome {
        Ok(bytes) => SlotStateView::Ready(bytes),
        Err(error) => SlotStateView::Failed(error_message(error)),
    }
}

/// Whether every fetch ends with what a request for its key gives.
pub open spec fn answered(
    start: PrefetchView,
    events: Seq<PrefetchEvent>,
    answer: spec_fn(KeyView) -> Result<Seq<u8>, ErrorView>,
) -> bool {
    forall|f: int, c: int, slot: u64, key: KeyView, state: SlotStateView| #[trigger]
        starts(start, events, f, slot, key) && #[trigger] ends(events, c, slot, state) ==> state
            == fetch_end(answer(key))
}

/// Prefetching is transparent: with the same answers to requests, a reader that
/// waits for a slot gets the bytes that it would get by a request of its own, and
/// fails exactly where that fails.
pub proof fn lemma_prefetch_is_transparent(
    concurrency: usize,
    targets: Seq<KeyView>,
    events: Seq<PrefetchEvent>,
    answer: spec_fn(KeyView) -> Result<Seq<u8>, ErrorView>,
    a: int,
    key: KeyView,
    slot: u64,
    i: int,
)
    requires
        targets.len() <= u64::MAX,
        answered(fresh_prefetch(concurrency, targets), events, answer),
        0 <= a < events.len(),
        slot_for(history(fresh_prefetch(concurrency, targets), events.take(a)), key) == Some(slot),
        find_id(history(fresh_prefetch(concurrency, targets), events).slots, slot, 0) == Some(i),
        !(history(fresh_prefetch(concurrency, targets), events).slots[i].state is InFlight),
    ensures
        read_result(history(fresh_prefetch(concurrency, targets), events).slots[i].state) == Some(
            match answer(key) {
                Ok(bytes) => Ok::<Seq<u8>, ErrorView>(bytes),
                Err(error) => Err(ErrorView::Http(error_message(error))),
            },
        ),
{
    lemma_reader_gets_its_fetch(concurrency, targets, events, a, key, slot, i);
}

} // verus!
