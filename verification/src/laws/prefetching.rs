//! What is prefetched, in which order, and what becomes of each slot.

use crate::error::{error_message, Error, ErrorView};
use crate::location::LocationView;
use crate::outside::joined_url;
use crate::playlist::{HlsPlaylist, HlsSegment};
use crate::prefetch::{
    acquired, consumed, direct_start, fetch_started, find_id, find_listed, fresh_prefetch,
    given_up, key_views, left_alone, lemma_find_id, lemma_find_listed, orderly, read_keys,
    read_result, released, settled, slot_for, slot_views, targets_of, to_prefetch, unlisted,
    KeyView, Prefetch, PrefetchView, ReadStart, ReadStartView, Slot, SlotKey, SlotState,
    SlotStateView, SlotView,
};
use crate::prefetch_history::{fetch_end, happened, history, starts, PrefetchEvent};
use crate::range::ByteRange;
use crate::segment::requested;
use vstd::prelude::*;

verus! {

/// The value of a slot has all of it.
pub proof fn lemma_slot_value(slot: Slot, bytes: Vec<u8>, message: String)
    ensures
        slot@.id == slot.id,
        slot@.key.url == slot.key.url@,
        slot@.key.range == slot.key.range,
        slot@.listed == slot.listed,
        slot@.waiters == slot.waiters,
        slot@.charged == slot.charged,
        slot@.state == slot.state@,
        SlotState::InFlight@ == SlotStateView::InFlight,
        SlotState::Ready(bytes)@ == SlotStateView::Ready(bytes@),
        SlotState::Failed(message)@ == SlotStateView::Failed(message@),
{
}

/// The values of keys and slots stand where the keys and slots stand.
pub proof fn lemma_key_and_slot_values(keys: Seq<SlotKey>, slots: Seq<Slot>)
    ensures
        key_views(keys).len() == keys.len(),
        forall|k: int|
            0 <= k < keys.len() ==> (#[trigger] key_views(keys)[k]).url == keys[k].url@
                && key_views(keys)[k].range == keys[k].range,
        slot_views(slots).len() == slots.len(),
        forall|k: int| 0 <= k < slots.len() ==> #[trigger] slot_views(slots)[k] == slots[k]@,
{
}

/// The value of a prefetch has all of it, and that of a start says how bytes are read.
pub proof fn lemma_prefetch_value(
    prefetch: Prefetch,
    text: String,
    range: Option<ByteRange>,
    slot: u64,
)
    ensures
        prefetch@.capacity == prefetch.capacity,
        prefetch@.tokens == prefetch.tokens,
        prefetch@.targets == key_views(prefetch.targets@),
        prefetch@.slots == slot_views(prefetch.slots@),
        prefetch@.next_id == prefetch.next_id,
        (ReadStart::File { path: text, range })@ == (ReadStartView::File { path: text@, range }),
        (ReadStart::Fetch { url: text, range })@ == (ReadStartView::Fetch { url: text@, range }),
        ReadStart::Slot(slot)@ == ReadStartView::Slot(slot),
{
}

/// A prefetch begins with all of its tokens and all of its targets, and no slot.
pub proof fn lemma_prefetch_begins(concurrency: usize, targets: Seq<KeyView>)
    ensures
        ({
            let fresh = fresh_prefetch(concurrency, targets);
            &&& fresh.capacity == concurrency
            &&& fresh.tokens == concurrency
            &&& fresh.targets == targets
            &&& fresh.slots.len() == 0
            &&& fresh.next_id == 0
        }),
{
}

/// The targets of two runs of segments are those of the first, then those of the
/// second.
pub proof fn lemma_targets_follow(url: Seq<char>, first: Seq<HlsSegment>, second: Seq<HlsSegment>)
    ensures
        targets_of(url, first + second) == targets_of(url, first) + targets_of(url, second),
    decreases second.len(),
{
    if second.len() == 0 {
        assert(first + second =~= first);
        assert(targets_of(url, first) + targets_of(url, second) =~= targets_of(url, first));
    } else {
        assert((first + second).drop_last() =~= first + second.drop_last());
        assert((first + second).last() == second.last());
        lemma_targets_follow(url, first, second.drop_last());
        assert(targets_of(url, first + second) =~= targets_of(url, first) + targets_of(
            url,
            second,
        ));
    }
}

/// A segment is a target under its resolved URL and its own range, if it has such a URL.
pub proof fn lemma_one_target(url: Seq<char>, segment: HlsSegment)
    ensures
        match joined_url(url, segment.uri@) {
            Ok(target) => {
                let targets = targets_of(url, seq![segment]);
                &&& targets.len() == 1
                &&& targets[0].url == target
                &&& targets[0].range == segment.byte_range
            },
            Err(_) => targets_of(url, seq![segment]).len() == 0,
        },
{
    assert(seq![segment].drop_last() =~= Seq::empty());
    reveal_with_fuel(targets_of, 2);
}

/// The keys of two runs of segments are those of the first, then those of the second.
pub proof fn lemma_read_keys_follow(
    playlist: LocationView,
    first: Seq<HlsSegment>,
    second: Seq<HlsSegment>,
)
    ensures
        read_keys(playlist, first + second) == read_keys(playlist, first) + read_keys(
            playlist,
            second,
        ),
    decreases second.len(),
{
    if second.len() == 0 {
        assert(first + second =~= first);
        assert(read_keys(playlist, first) + read_keys(playlist, second) =~= read_keys(
            playlist,
            first,
        ));
    } else {
        assert((first + second).drop_last() =~= first + second.drop_last());
        assert((first + second).last() == second.last());
        lemma_read_keys_follow(playlist, first, second.drop_last());
        assert(read_keys(playlist, first + second) =~= read_keys(playlist, first) + read_keys(
            playlist,
            second,
        ));
    }
}

/// A segment is read under the URL and the range of the request for it.
pub proof fn lemma_one_read_key(playlist: LocationView, segment: HlsSegment)
    ensures
        ({
            let keys = read_keys(playlist, seq![segment]);
            match requested(playlist, segment.uri@, segment.byte_range) {
                Ok(request) => match request.location {
                    LocationView::Url(url) => {
                        &&& keys.len() == 1
                        &&& keys[0].url == url
                        &&& keys[0].range == request.range
                    },
                    LocationView::File(_) => keys.len() == 0,
                },
                Err(_) => keys.len() == 0,
            }
        }),
{
    assert(seq![segment].drop_last() =~= Seq::empty());
    reveal_with_fuel(read_keys, 2);
}

/// With a concurrency above one the segments of a media playlist at a URL are
/// prefetched, all of them whose URLs can be resolved, if there are any.
pub proof fn lemma_media_is_prefetched(
    concurrency: usize,
    location: LocationView,
    playlist: Result<HlsPlaylist, Error>,
    url: Seq<char>,
    s: int,
)
    requires
        concurrency > 1,
        location == LocationView::Url(url),
        playlist matches Ok(HlsPlaylist::Media(media)) && 0 <= s < media.segments@.len()
            && joined_url(url, media.segments@[s].uri@) is Ok,
    ensures
        playlist matches Ok(HlsPlaylist::Media(media)) && to_prefetch(
            concurrency,
            location,
            playlist,
        ) == Some(targets_of(url, media.segments@)),
{
    if let Ok(HlsPlaylist::Media(media)) = playlist {
        let segments = media.segments@;
        let first = segments.take(s);
        let rest = segments.skip(s + 1);
        let one = seq![segments[s]];
        assert(segments =~= first + (one + rest));
        lemma_targets_follow(url, one, rest);
        lemma_targets_follow(url, first, one + rest);
        lemma_one_target(url, segments[s]);
    }
}

/// A search by id finds the first slot with that id, and a search by key the first one
/// that is listed under it.
pub proof fn lemma_search_finds_first(slots: Seq<SlotView>, i: int, from: int)
    requires
        0 <= from <= i < slots.len(),
    ensures
        (forall|k: int| from <= k < i ==> (#[trigger] slots[k]).id != slots[i].id) ==> find_id(
            slots,
            slots[i].id,
            from,
        ) == Some(i),
        slots[i].listed && (forall|k: int|
            from <= k < i ==> !(#[trigger] slots[k]).listed || slots[k].key != slots[i].key)
            ==> find_listed(slots, slots[i].key, from) == Some(i),
    decreases i - from,
{
    if from < i {
        lemma_search_finds_first(slots, i, from + 1);
    }
}

/// In a prefetch that keeps its slots in order every slot is found by its id, and a
/// listed one by its key.
pub proof fn lemma_slots_are_found(slots: Seq<SlotView>, next_id: u64, i: int)
    requires
        orderly(slots, next_id),
        0 <= i < slots.len(),
    ensures
        find_id(slots, slots[i].id, 0) == Some(i),
        slots[i].listed ==> find_listed(slots, slots[i].key, 0) == Some(i),
{
    lemma_search_finds_first(slots, i, 0);
}

/// Leaving out slot `i` keeps the others.
proof fn lemma_others_stay(slots: Seq<SlotView>, i: int, slot: SlotView, k: int)
    requires
        0 <= i < slots.len(),
        0 <= k < slots.len(),
    ensures
        slots.update(i, slot).contains(slot),
        k != i ==> slots.update(i, slot).contains(slots[k]),
        k != i ==> slots.remove(i).contains(slots[k]),
{
    assert(slots.update(i, slot)[i] == slot);
    if k != i {
        assert(slots.update(i, slot)[k] == slots[k]);
        if k < i {
            assert(slots.remove(i)[k] == slots[k]);
        } else {
            assert(slots.remove(i)[k - 1] == slots[k]);
        }
    }
}

/// After a key was taken off the list no slot is listed under it. The slot that was
/// stays as long as its fetch runs or somebody waits for it; all others stay as they
/// are.
pub proof fn lemma_unlisting(slots: Seq<SlotView>, key: KeyView, next_id: u64, k: int)
    requires
        orderly(slots, next_id),
        0 <= k < slots.len(),
    ensures
        ({
            let after = unlisted(slots, key);
            let was_listed = slots[k].listed && slots[k].key == key;
            &&& !was_listed ==> after.contains(slots[k])
            &&& was_listed && (slots[k].waiters > 0 || slots[k].state is InFlight)
                ==> after.contains(SlotView { listed: false, ..slots[k] })
            &&& was_listed && slots[k].waiters == 0 && !(slots[k].state is InFlight) ==> after
                == slots.remove(k)
            &&& forall|m: int|
                0 <= m < after.len() ==> !((#[trigger] after[m]).listed && after[m].key == key)
        }),
{
    let after = unlisted(slots, key);
    lemma_find_listed(slots, key, 0);
    match find_listed(slots, key, 0) {
        Some(i) => {
            let slot = SlotView { listed: false, ..slots[i] };
            lemma_others_stay(slots, i, slot, k);
            assert(k < i ==> !(slots[k].listed && slots[k].key == slots[i].key));
            assert(i < k ==> !(slots[k].listed && slots[i].key == slots[k].key));
            assert forall|m: int| 0 <= m < after.len() implies !((#[trigger] after[m]).listed
                && after[m].key == key) by {
                let from = if after.len() == slots.len() || m < i {
                    m
                } else {
                    m + 1
                };
                assert(from != i ==> after[m] == slots[from]);
                assert(from < i ==> !(slots[from].listed && slots[from].key == slots[i].key));
                assert(i < from ==> !(slots[from].listed && slots[i].key == slots[from].key));
            }
        },
        None => {
            assert(slots.contains(slots[k]));
        },
    }
}

/// A fetch takes one token, the first target and the next id. Its slot is the last one:
/// in flight, with its token, listed under that target, and nobody waits for it yet.
/// Every other slot stays, but one that was listed under the same key and is read by
/// nobody.
pub proof fn lemma_fetch_takes_first_target(prefetch: PrefetchView, k: int)
    requires
        prefetch.tokens > 0,
        prefetch.targets.len() > 0,
        prefetch.next_id < u64::MAX,
    ensures
        ({
            let after = fetch_started(prefetch);
            let slot = after.slots.last();
            &&& after.capacity == prefetch.capacity
            &&& after.tokens == prefetch.tokens - 1
            &&& after.next_id == prefetch.next_id + 1
            &&& after.targets.len() == prefetch.targets.len() - 1
            &&& forall|t: int|
                0 <= t < after.targets.len() ==> #[trigger] after.targets[t]
                    == prefetch.targets[t + 1]
            &&& after.slots.len() > 0
            &&& slot.id == prefetch.next_id
            &&& slot.key == prefetch.targets[0]
            &&& slot.listed
            &&& slot.waiters == 0
            &&& slot.charged
            &&& slot.state is InFlight
            &&& orderly(prefetch.slots, prefetch.next_id) && 0 <= k < prefetch.slots.len() && !(
            prefetch.slots[k].listed && prefetch.slots[k].key == prefetch.targets[0])
                ==> after.slots.contains(prefetch.slots[k])
            &&& orderly(prefetch.slots, prefetch.next_id) && 0 <= k < prefetch.slots.len()
                && prefetch.slots[k].waiters > 0 && prefetch.slots[k].listed
                && prefetch.slots[k].key == prefetch.targets[0] ==> after.slots.contains(
                SlotView { listed: false, ..prefetch.slots[k] },
            )
        }),
{
    let slots = prefetch.slots;
    let key = prefetch.targets[0];
    let rest = unlisted(slots, key);
    let after = fetch_started(prefetch).slots;
    if orderly(slots, prefetch.next_id) && 0 <= k < slots.len() {
        lemma_unlisting(slots, key, prefetch.next_id, k);
        let kept = if slots[k].listed && slots[k].key == key {
            SlotView { listed: false, ..slots[k] }
        } else {
            slots[k]
        };
        if rest.contains(kept) {
            let m = choose|m: int| 0 <= m < rest.len() && rest[m] == kept;
            assert(after[m] == kept);
        }
    }
}

/// The end of a fetch goes to the slot with its id, which stays as long as it is listed
/// or somebody waits for it. All other slots stay as they are, and so do the tokens and
/// the targets. A fetch ends once.
pub proof fn lemma_end_goes_to_its_slot(
    prefetch: PrefetchView,
    i: int,
    k: int,
    state: SlotStateView,
)
    requires
        orderly(prefetch.slots, prefetch.next_id),
        0 <= i < prefetch.slots.len(),
        0 <= k < prefetch.slots.len(),
        !(state is InFlight),
    ensures
        ({
            let slot = prefetch.slots[i];
            let after = settled(prefetch, slot.id, state);
            &&& slot.state is InFlight && (slot.listed || slot.waiters > 0)
                ==> after.slots.contains(SlotView { state, ..slot })
            &&& slot.state is InFlight && !slot.listed && slot.waiters == 0 ==> after.slots
                == prefetch.slots.remove(i)
            &&& !(slot.state is InFlight) ==> after == prefetch
            &&& k != i ==> after.slots.contains(prefetch.slots[k])
            &&& after.capacity == prefetch.capacity
            &&& after.tokens == prefetch.tokens
            &&& after.targets == prefetch.targets
            &&& after.next_id == prefetch.next_id
        }),
{
    let slots = prefetch.slots;
    lemma_slots_are_found(slots, prefetch.next_id, i);
    lemma_others_stay(slots, i, SlotView { state, ..slots[i] }, k);
    assert(slots.contains(slots[k]));
}

/// An id that no slot has changes nothing.
pub proof fn lemma_unknown_slot(prefetch: PrefetchView, id: u64, state: SlotStateView)
    requires
        forall|k: int| 0 <= k < prefetch.slots.len() ==> (#[trigger] prefetch.slots[k]).id != id,
    ensures
        settled(prefetch, id, state) == prefetch,
        given_up(prefetch, id) == prefetch,
        find_id(prefetch.slots, id, 0) is None,
{
    lemma_find_id(prefetch.slots, id, 0);
}

/// A reader waits for the slot that is listed under its key, which counts it. Nothing
/// else changes.
pub proof fn lemma_reader_waits_for_its_key(prefetch: PrefetchView, i: int)
    requires
        orderly(prefetch.slots, prefetch.next_id),
        0 <= i < prefetch.slots.len(),
        prefetch.slots[i].listed,
        prefetch.slots[i].waiters < u64::MAX,
    ensures
        ({
            let slot = prefetch.slots[i];
            let after = acquired(prefetch, slot.key);
            &&& slot_for(prefetch, slot.key) == Some(slot.id)
            &&& after.slots.len() == prefetch.slots.len()
            &&& after.slots[i] == (SlotView { waiters: (slot.waiters + 1) as u64, ..slot })
            &&& forall|k: int|
                0 <= k < prefetch.slots.len() && k != i ==> #[trigger] after.slots[k]
                    == prefetch.slots[k]
            &&& after.capacity == prefetch.capacity
            &&& after.tokens == prefetch.tokens
            &&& after.targets == prefetch.targets
            &&& after.next_id == prefetch.next_id
        }),
{
    lemma_slots_are_found(prefetch.slots, prefetch.next_id, i);
}

/// Without a slot under its key a reader waits for none, and nothing changes.
pub proof fn lemma_reader_without_slot(prefetch: PrefetchView, key: KeyView)
    requires
        forall|k: int|
            0 <= k < prefetch.slots.len() && (#[trigger] prefetch.slots[k]).listed
                ==> prefetch.slots[k].key != key,
    ensures
        slot_for(prefetch, key) is None,
        acquired(prefetch, key) == prefetch,
{
    lemma_find_listed(prefetch.slots, key, 0);
}

/// A reader that gives up is no longer counted. The slot stays for everybody else:
/// while it is listed, in flight, or waited for.
pub proof fn lemma_giving_up(prefetch: PrefetchView, i: int, k: int)
    requires
        orderly(prefetch.slots, prefetch.next_id),
        0 <= i < prefetch.slots.len(),
        0 <= k < prefetch.slots.len(),
        prefetch.slots[i].waiters > 0,
    ensures
        ({
            let slot = prefetch.slots[i];
            let left = SlotView { waiters: (slot.waiters - 1) as u64, ..slot };
            let after = given_up(prefetch, slot.id);
            &&& slot.listed || slot.state is InFlight || slot.waiters > 1
                ==> after.slots.contains(left)
            &&& !slot.listed && !(slot.state is InFlight) && slot.waiters == 1 ==> after.slots
                == prefetch.slots.remove(i)
            &&& k != i ==> after.slots.contains(prefetch.slots[k])
            &&& after.slots == left_alone(prefetch.slots, slot.id)
            &&& after.capacity == prefetch.capacity
            &&& after.tokens == prefetch.tokens
            &&& after.targets == prefetch.targets
            &&& after.next_id == prefetch.next_id
        }),
{
    let slots = prefetch.slots;
    let left = SlotView { waiters: (slots[i].waiters - 1) as u64, ..slots[i] };
    lemma_slots_are_found(slots, prefetch.next_id, i);
    lemma_others_stay(slots, i, left, k);
}

/// Where slot `i` stands after its key was taken off the list.
proof fn lemma_unlisted_place(slots: Seq<SlotView>, i: int, next_id: u64) -> (place: int)
    requires
        orderly(slots, next_id),
        0 <= i < slots.len(),
        slots[i].waiters > 0 || !slots[i].listed,
    ensures
        ({
            let rest = unlisted(slots, slots[i].key);
            &&& 0 <= place < rest.len()
            &&& rest[place] == (SlotView { listed: false, ..slots[i] })
            &&& find_id(rest, slots[i].id, 0) == Some(place)
        }),
{
    let key = slots[i].key;
    let rest = unlisted(slots, key);
    lemma_find_listed(slots, key, 0);
    lemma_unlisting(slots, key, next_id, i);
    assert(slots[i].listed ==> find_listed(slots, key, 0) == Some(i)) by {
        lemma_slots_are_found(slots, next_id, i);
    }
    let place = match find_listed(slots, key, 0) {
        Some(j) => if rest.len() == slots.len() || i < j {
            i
        } else {
            i - 1
        },
        None => i,
    };
    assert(!slots[i].listed ==> (SlotView { listed: false, ..slots[i] }) == slots[i]);
    assert(rest[place] == (SlotView { listed: false, ..slots[i] }));
    assert forall|m: int| 0 <= m < place implies (#[trigger] rest[m]).id != rest[place].id by {
        let from = match find_listed(slots, key, 0) {
            Some(j) => if rest.len() == slots.len() || m < j {
                m
            } else {
                m + 1
            },
            None => m,
        };
        assert(rest[m].id == slots[from].id);
        assert(from < i);
        assert(slots[from].id != slots[i].id);
    }
    lemma_search_finds_first(rest, place, 0);
    place
}

/// A read gives the token of the slot back, at most once, and changes neither the
/// targets nor the ids.
pub proof fn lemma_read_returns_token(prefetch: PrefetchView, i: int)
    requires
        0 <= i < prefetch.slots.len(),
    ensures
        ({
            let after = consumed(prefetch, i);
            &&& prefetch.slots[i].charged && prefetch.tokens < prefetch.capacity ==> after.tokens
                == prefetch.tokens + 1
            &&& !prefetch.slots[i].charged || prefetch.tokens >= prefetch.capacity ==> after.tokens
                == prefetch.tokens
            &&& after.capacity == prefetch.capacity
            &&& after.targets == prefetch.targets
            &&& after.next_id == prefetch.next_id
        }),
{
}

/// A slot that other readers still wait for stays after a read, with its body, off the
/// list and without its token.
pub proof fn lemma_read_leaves_body(prefetch: PrefetchView, i: int)
    requires
        orderly(prefetch.slots, prefetch.next_id),
        0 <= i < prefetch.slots.len(),
        prefetch.slots[i].waiters > 1,
    ensures
        consumed(prefetch, i).slots.contains(
            SlotView {
                listed: false,
                charged: false,
                waiters: (prefetch.slots[i].waiters - 1) as u64,
                ..prefetch.slots[i]
            },
        ),
{
    let slots = prefetch.slots;
    let rest = unlisted(slots, slots[i].key);
    let place = lemma_unlisted_place(slots, i, prefetch.next_id);
    let left = SlotView {
        listed: false,
        charged: false,
        waiters: (slots[i].waiters - 1) as u64,
        ..slots[i]
    };
    lemma_others_stay(rest, place, left, place);
}

/// A slot that nobody else waits for is gone after a read.
pub proof fn lemma_last_read_drops_slot(prefetch: PrefetchView, i: int)
    requires
        orderly(prefetch.slots, prefetch.next_id),
        0 <= i < prefetch.slots.len(),
        prefetch.slots[i].waiters <= 1,
        !(prefetch.slots[i].state is InFlight),
    ensures
        forall|m: int|
            0 <= m < consumed(prefetch, i).slots.len() ==> (#[trigger] consumed(
                prefetch,
                i,
            ).slots[m]).id != prefetch.slots[i].id,
{
    let slots = prefetch.slots;
    let key = slots[i].key;
    let id = slots[i].id;
    let rest = unlisted(slots, key);
    let after = consumed(prefetch, i).slots;
    lemma_slots_are_found(slots, prefetch.next_id, i);
    lemma_find_listed(slots, key, 0);
    if slots[i].waiters == 0 && slots[i].listed {
        assert(rest == slots.remove(i));
        assert forall|m: int| 0 <= m < rest.len() implies (#[trigger] rest[m]).id != id by {
            assert(rest[m] == slots[if m < i {
                m
            } else {
                m + 1
            }]);
        }
        lemma_find_id(rest, id, 0);
        assert(after == rest);
    } else {
        let place = lemma_unlisted_place(slots, i, prefetch.next_id);
        assert(after == rest.remove(place));
        assert forall|m: int| 0 <= m < after.len() implies (#[trigger] after[m]).id != id by {
            let r = if m < place {
                m
            } else {
                m + 1
            };
            assert(after[m] == rest[r]);
            let (from, at) = match find_listed(slots, key, 0) {
                Some(j) => (
                    if rest.len() == slots.len() || r < j {
                        r
                    } else {
                        r + 1
                    },
                    if rest.len() == slots.len() || place < j {
                        place
                    } else {
                        place + 1
                    },
                ),
                None => (r, place),
            };
            assert(rest[r].id == slots[from].id);
            assert(rest[place].id == slots[at].id);
            assert(from < at ==> slots[from].id != slots[at].id);
            assert(at < from ==> slots[at].id != slots[from].id);
        }
    }
}

/// A slot with a key of its own is not touched when another one is read.
pub proof fn lemma_read_keeps_other_keys(prefetch: PrefetchView, i: int, k: int)
    requires
        orderly(prefetch.slots, prefetch.next_id),
        0 <= i < prefetch.slots.len(),
        0 <= k < prefetch.slots.len(),
        prefetch.slots[k].key != prefetch.slots[i].key,
    ensures
        consumed(prefetch, i).slots.contains(prefetch.slots[k]),
{
    let slots = prefetch.slots;
    let rest = unlisted(slots, slots[i].key);
    lemma_unlisting(slots, slots[i].key, prefetch.next_id, k);
    let m = choose|m: int| 0 <= m < rest.len() && rest[m] == slots[k];
    assert(slots[k].id != slots[i].id);
    lemma_find_id(rest, slots[i].id, 0);
    match find_id(rest, slots[i].id, 0) {
        Some(p) => {
            let left = SlotView {
                charged: false,
                waiters: if rest[p].waiters > 0 {
                    (rest[p].waiters - 1) as u64
                } else {
                    0
                },
                ..rest[p]
            };
            lemma_others_stay(rest, p, left, m);
        },
        None => {
            assert(released(rest, slots[i].id) == rest);
            assert(rest.contains(slots[k]));
        },
    }
}

/// A body is what its fetch gave, a failure is an HTTP error with its message, and there
/// is neither while the fetch runs.
pub proof fn lemma_read_gives_body(bytes: Seq<u8>, message: Seq<char>)
    ensures
        read_result(SlotStateView::Ready(bytes)) == Some(Ok::<Seq<u8>, ErrorView>(bytes)),
        read_result(SlotStateView::Failed(message)) == Some(
            Err::<Seq<u8>, ErrorView>(ErrorView::Http(message)),
        ),
        read_result(SlotStateView::InFlight) is None,
{
}

/// A fetch that works leaves its body, and one that fails leaves the message of its
/// error.
pub proof fn lemma_fetch_ends(bytes: Seq<u8>, error: ErrorView)
    ensures
        fetch_end(Ok(bytes)) == SlotStateView::Ready(bytes),
        fetch_end(Err(error)) == SlotStateView::Failed(error_message(error)),
{
}

/// Without a prefetch a file is read and a URL is requested, with the range as it is.
pub proof fn lemma_direct_reads(text: Seq<char>, range: Option<ByteRange>)
    ensures
        direct_start(LocationView::File(text), range) == (ReadStartView::File { path: text, range }),
        direct_start(LocationView::Url(text), range) == (ReadStartView::Fetch { url: text, range }),
{
}

/// Nothing is fetched without a token or a target, and a slot in flight cannot be read.
pub proof fn lemma_nothing_happens(prefetch: PrefetchView, i: int)
    ensures
        prefetch.tokens == 0 || prefetch.targets.len() == 0 ==> happened(
            prefetch,
            PrefetchEvent::Fetch,
        ) == prefetch,
        orderly(prefetch.slots, prefetch.next_id) && 0 <= i < prefetch.slots.len()
            && prefetch.slots[i].state is InFlight ==> happened(
            prefetch,
            PrefetchEvent::Poll { slot: prefetch.slots[i].id },
        ) == prefetch,
{
    if orderly(prefetch.slots, prefetch.next_id) && 0 <= i < prefetch.slots.len() {
        lemma_slots_are_found(prefetch.slots, prefetch.next_id, i);
    }
}

/// Whatever happens, what is left to fetch are the targets from the next id on.
pub proof fn lemma_targets_left(
    concurrency: usize,
    targets: Seq<KeyView>,
    events: Seq<PrefetchEvent>,
)
    requires
        targets.len() <= u64::MAX,
    ensures
        ({
            let now = history(fresh_prefetch(concurrency, targets), events);
            &&& now.next_id <= targets.len()
            &&& now.targets == targets.skip(now.next_id as int)
        }),
    decreases events.len(),
{
    let start = fresh_prefetch(concurrency, targets);
    if events.len() > 0 {
        lemma_targets_left(concurrency, targets, events.drop_last());
        let before = history(start, events.drop_last());
        let now = history(start, events);
        assert(before.targets.len() > 0 ==> before.targets.drop_first() =~= targets.skip(
            before.next_id + 1,
        ));
        assert(now.targets =~= targets.skip(now.next_id as int));
    } else {
        assert(targets.skip(0) =~= targets);
    }
}

/// Fetches are started in the order of the targets: slot `n` is for target `n`, whatever
/// else happens.
pub proof fn lemma_fetches_in_order(
    concurrency: usize,
    targets: Seq<KeyView>,
    events: Seq<PrefetchEvent>,
    f: int,
    slot: u64,
    key: KeyView,
)
    requires
        targets.len() <= u64::MAX,
        starts(fresh_prefetch(concurrency, targets), events, f, slot, key),
    ensures
        slot < targets.len(),
        key == targets[slot as int],
{
    lemma_targets_left(concurrency, targets, events.take(f));
}

} // verus!
