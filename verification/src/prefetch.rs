//! Prefetching segment bodies ahead of the reader, with a bound on how many there
//! are.
//!
//! A fetch costs a token, which comes back when its body is read. Fetches are
//! started in the order of the playlist. A body waits in a slot that is listed
//! under the URL and the range it was fetched for.

use crate::error::{Error, ErrorView};
use crate::location::{LocationView, SourceLocation};
use crate::outside::{join_url, joined_url, parsed_url};
use crate::playlist::{HlsPlaylist, HlsSegment};
use crate::range::{same_range, ByteRange};
use crate::segment::requested;
use crate::text::{outcome_view, same_text};
use std::collections::VecDeque;
use vstd::prelude::*;

verus! {

/// What a slot is listed under: a URL by its serialization, and a range of it.
#[derive(Debug, PartialEq, Eq)]
pub struct SlotKey {
    pub url: String,
    pub range: Option<ByteRange>,
}

/// The value of a [`SlotKey`] in contracts.
pub struct KeyView {
    pub url: Seq<char>,
    pub range: Option<ByteRange>,
}

impl View for SlotKey {
    type V = KeyView;

    open spec fn view(&self) -> KeyView {
        KeyView { url: self.url@, range: self.range }
    }
}

/// The values of a list of keys.
pub open spec fn key_views(keys: Seq<SlotKey>) -> Seq<KeyView> {
    Seq::new(keys.len(), |i: int| keys[i]@)
}

fn same_key(left: &SlotKey, url: &str, range: Option<ByteRange>) -> (same: bool)
    ensures
        same == (left@ == KeyView { url: url@, range }),
{
    same_text(left.url.as_str(), url) && same_range(left.range, range)
}

/// The prefetch targets among the first segments of a playlist at a URL: each
/// segment whose URI resolves, in order.
pub open spec fn targets_of(url: Seq<char>, segments: Seq<HlsSegment>) -> Seq<KeyView>
    decreases segments.len(),
{
    if segments.len() == 0 {
        Seq::empty()
    } else {
        let before = targets_of(url, segments.drop_last());
        match joined_url(url, segments.last().uri@) {
            Ok(target) => before.push(
                KeyView { url: target, range: segments.last().byte_range },
            ),
            Err(_) => before,
        }
    }
}

/// The keys that the segments of the playlist at `playlist` are read under, in
/// order, as far as they can be read from URLs.
pub open spec fn read_keys(playlist: LocationView, segments: Seq<HlsSegment>) -> Seq<KeyView>
    decreases segments.len(),
{
    if segments.len() == 0 {
        Seq::empty()
    } else {
        let before = read_keys(playlist, segments.drop_last());
        match requested(playlist, segments.last().uri@, segments.last().byte_range) {
            Ok(request) => match request.location {
                LocationView::Url(url) => before.push(KeyView { url, range: request.range }),
                LocationView::File(_) => before,
            },
            Err(_) => before,
        }
    }
}

/// What is to be prefetched once a playlist was read: `None` for nothing. Only
/// the segments of a media playlist at a URL are, and only with a concurrency
/// above one.
pub open spec fn to_prefetch(
    concurrency: usize,
    location: LocationView,
    playlist: Result<HlsPlaylist, Error>,
) -> Option<Seq<KeyView>> {
    match (location, playlist) {
        (LocationView::Url(url), Ok(HlsPlaylist::Media(media))) => if concurrency > 1 && targets_of(
            url,
            media.segments@,
        ).len() > 0 {
            Some(targets_of(url, media.segments@))
        } else {
            None
        },
        _ => None,
    }
}

/// Decides what to prefetch once the playlist at `location` was read and parsed.
/// The targets are exactly what the segments are read under later.
pub fn prefetch_targets(
    concurrency: usize,
    location: &SourceLocation,
    playlist: &Result<HlsPlaylist, Error>,
) -> (targets: Option<VecDeque<SlotKey>>)
    ensures
        targets is Some <==> to_prefetch(concurrency, location@, *playlist) is Some,
        targets matches Some(keys) ==> Some(key_views(keys@)) == to_prefetch(
            concurrency,
            location@,
            *playlist,
        ),
        match (targets, location@, *playlist) {
            (Some(keys), LocationView::Url(url), Ok(HlsPlaylist::Media(media))) => parsed_url(
                url,
            ) is Ok ==> key_views(keys@) == read_keys(location@, media.segments@),
            _ => true,
        },
{
    if concurrency <= 1 {
        return None;
    }
    let url: &String = match location {
        SourceLocation::Url(url) => url,
        SourceLocation::File(_) => {
            return None;
        },
    };
    let segments: &Vec<HlsSegment> = match playlist {
        Ok(HlsPlaylist::Media(media)) => &media.segments,
        _ => {
            return None;
        },
    };
    let mut keys: VecDeque<SlotKey> = VecDeque::new();
    let mut i: usize = 0;
    assert(key_views(keys@) =~= targets_of(url@, segments@.take(0)));
    assert(key_views(keys@) =~= read_keys(location@, segments@.take(0)));
    while i < segments.len()
        invariant
            i <= segments@.len(),
            key_views(keys@) == targets_of(url@, segments@.take(i as int)),
            location@ == LocationView::Url(url@),
            parsed_url(url@) is Ok ==> key_views(keys@) == read_keys(
                location@,
                segments@.take(i as int),
            ),
        decreases segments@.len() - i,
    {
        let segment: &HlsSegment = &segments[i];
        assert(segments@.take(i + 1).drop_last() =~= segments@.take(i as int));
        match join_url(url.as_str(), segment.uri.as_str()) {
            Ok(target) => {
                let key = SlotKey { url: target, range: segment.byte_range };
                assert(key_views(keys@.push(key)) =~= key_views(keys@).push(key@));
                keys.push_back(key);
            },
            Err(_) => {},
        }
        i = i + 1;
    }
    assert(segments@.take(segments@.len() as int) =~= segments@);
    if keys.len() == 0 {
        None
    } else {
        Some(keys)
    }
}

/// The concurrency that a request for one gives: at least one, which disables
/// prefetching.
pub fn effective_concurrency(concurrency: usize) -> (effective: usize)
    ensures
        effective == if concurrency >= 1 {
            concurrency
        } else {
            1
        },
{
    if concurrency >= 1 {
        concurrency
    } else {
        1
    }
}

/// How far the fetch of a slot is.
#[derive(Debug, PartialEq, Eq)]
pub enum SlotState {
    InFlight,
    Ready(Vec<u8>),
    Failed(String),
}

/// The value of a [`SlotState`] in contracts.
pub enum SlotStateView {
    InFlight,
    Ready(Seq<u8>),
    Failed(Seq<char>),
}

impl View for SlotState {
    type V = SlotStateView;

    open spec fn view(&self) -> SlotStateView {
        match self {
            SlotState::InFlight => SlotStateView::InFlight,
            SlotState::Ready(bytes) => SlotStateView::Ready(bytes@),
            SlotState::Failed(message) => SlotStateView::Failed(message@),
        }
    }
}

/// A place for one segment body.
#[derive(Debug, PartialEq, Eq)]
pub struct Slot {
    pub id: u64,
    pub key: SlotKey,
    /// Whether readers find the slot under its key.
    pub listed: bool,
    /// How many readers wait for the slot.
    pub waiters: u64,
    /// Whether the slot still has its token.
    pub charged: bool,
    pub state: SlotState,
}

/// The value of a [`Slot`] in contracts.
pub struct SlotView {
    pub id: u64,
    pub key: KeyView,
    pub listed: bool,
    pub waiters: u64,
    pub charged: bool,
    pub state: SlotStateView,
}

impl View for Slot {
    type V = SlotView;

    open spec fn view(&self) -> SlotView {
        SlotView {
            id: self.id,
            key: self.key@,
            listed: self.listed,
            waiters: self.waiters,
            charged: self.charged,
            state: self.state@,
        }
    }
}

/// The values of a list of slots.
pub open spec fn slot_views(slots: Seq<Slot>) -> Seq<SlotView> {
    Seq::new(slots.len(), |i: int| slots[i]@)
}

/// Fetches that are to be started, tokens for them, and the slots of those that
/// were.
#[derive(Debug)]
pub struct Prefetch {
    pub capacity: usize,
    pub tokens: usize,
    pub targets: VecDeque<SlotKey>,
    pub slots: Vec<Slot>,
    pub next_id: u64,
}

/// The value of a [`Prefetch`] in contracts.
pub struct PrefetchView {
    pub capacity: usize,
    pub tokens: usize,
    pub targets: Seq<KeyView>,
    pub slots: Seq<SlotView>,
    pub next_id: u64,
}

impl View for Prefetch {
    type V = PrefetchView;

    open spec fn view(&self) -> PrefetchView {
        PrefetchView {
            capacity: self.capacity,
            tokens: self.tokens,
            targets: key_views(self.targets@),
            slots: slot_views(self.slots@),
            next_id: self.next_id,
        }
    }
}

/// A prefetch that has not started a fetch: there are as many tokens as fetches may
/// be outstanding.
pub open spec fn fresh_prefetch(concurrency: usize, targets: Seq<KeyView>) -> PrefetchView {
    PrefetchView {
        capacity: concurrency,
        tokens: concurrency,
        targets,
        slots: Seq::empty(),
        next_id: 0,
    }
}

/// Whether anybody still refers to a slot: readers through the list, readers that
/// wait, or its fetch.
pub open spec fn referred(slot: SlotView) -> bool {
    slot.listed || slot.waiters > 0 || slot.state is InFlight
}

/// Index of the first slot from `from` on that is listed under a key.
pub open spec fn find_listed(slots: Seq<SlotView>, key: KeyView, from: int) -> Option<int>
    decreases slots.len() - from,
{
    if from < 0 || from >= slots.len() {
        None
    } else if slots[from].listed && slots[from].key == key {
        Some(from)
    } else {
        find_listed(slots, key, from + 1)
    }
}

/// Index of the first slot from `from` on with an id.
pub open spec fn find_id(slots: Seq<SlotView>, id: u64, from: int) -> Option<int>
    decreases slots.len() - from,
{
    if from < 0 || from >= slots.len() {
        None
    } else if slots[from].id == id {
        Some(from)
    } else {
        find_id(slots, id, from + 1)
    }
}

/// The slots with slot `i` changed, or without it where nobody refers to it any
/// more.
pub open spec fn replaced(slots: Seq<SlotView>, i: int, slot: SlotView) -> Seq<SlotView> {
    if referred(slot) {
        slots.update(i, slot)
    } else {
        slots.remove(i)
    }
}

/// The slots after a key was taken off the list.
pub open spec fn unlisted(slots: Seq<SlotView>, key: KeyView) -> Seq<SlotView> {
    match find_listed(slots, key, 0) {
        Some(i) => replaced(slots, i, SlotView { listed: false, ..slots[i] }),
        None => slots,
    }
}

/// The slots after a reader took its body out of a slot.
pub open spec fn released(slots: Seq<SlotView>, id: u64) -> Seq<SlotView> {
    match find_id(slots, id, 0) {
        Some(i) => replaced(
            slots,
            i,
            SlotView {
                charged: false,
                waiters: if slots[i].waiters > 0 {
                    (slots[i].waiters - 1) as u64
                } else {
                    0
                },
                ..slots[i]
            },
        ),
        None => slots,
    }
}

/// The slot of a fetch that was just started.
pub open spec fn new_slot(id: u64, key: KeyView) -> SlotView {
    SlotView {
        id,
        key,
        listed: true,
        waiters: 0,
        charged: true,
        state: SlotStateView::InFlight,
    }
}

/// The state after the next fetch was started: it takes a token and the first
/// target. A slot that was listed under the same key is listed no more.
pub open spec fn fetch_started(prefetch: PrefetchView) -> PrefetchView {
    PrefetchView {
        tokens: (prefetch.tokens - 1) as usize,
        targets: prefetch.targets.drop_first(),
        slots: unlisted(prefetch.slots, prefetch.targets[0]).push(
            new_slot(prefetch.next_id, prefetch.targets[0]),
        ),
        next_id: (prefetch.next_id + 1) as u64,
        ..prefetch
    }
}

/// The state after the fetch of a slot came to an end.
pub open spec fn settled(prefetch: PrefetchView, id: u64, state: SlotStateView) -> PrefetchView {
    match find_id(prefetch.slots, id, 0) {
        Some(i) => if prefetch.slots[i].state is InFlight {
            PrefetchView {
                slots: replaced(prefetch.slots, i, SlotView { state, ..prefetch.slots[i] }),
                ..prefetch
            }
        } else {
            prefetch
        },
        None => prefetch,
    }
}

/// The state after the body of slot `i` was read: its token is back, its key is
/// off the list, and its reader is gone.
pub open spec fn consumed(prefetch: PrefetchView, i: int) -> PrefetchView {
    let slot = prefetch.slots[i];
    PrefetchView {
        tokens: if slot.charged && prefetch.tokens < prefetch.capacity {
            (prefetch.tokens + 1) as usize
        } else {
            prefetch.tokens
        },
        slots: released(unlisted(prefetch.slots, slot.key), slot.id),
        ..prefetch
    }
}

/// The state after a reader has begun to wait for the slot that is listed under a
/// key.
pub open spec fn acquired(prefetch: PrefetchView, key: KeyView) -> PrefetchView {
    match find_listed(prefetch.slots, key, 0) {
        Some(i) => if prefetch.slots[i].waiters < u64::MAX {
            PrefetchView {
                slots: prefetch.slots.update(
                    i,
                    SlotView {
                        waiters: (prefetch.slots[i].waiters + 1) as u64,
                        ..prefetch.slots[i]
                    },
                ),
                ..prefetch
            }
        } else {
            prefetch
        },
        None => prefetch,
    }
}

/// The slot that a reader of a key waits for, if there is one.
pub open spec fn slot_for(prefetch: PrefetchView, key: KeyView) -> Option<u64> {
    match find_listed(prefetch.slots, key, 0) {
        Some(i) => if prefetch.slots[i].waiters < u64::MAX {
            Some(prefetch.slots[i].id)
        } else {
            None
        },
        None => None,
    }
}

/// The slots after a reader has stopped waiting for a slot.
pub open spec fn left_alone(slots: Seq<SlotView>, id: u64) -> Seq<SlotView> {
    match find_id(slots, id, 0) {
        Some(i) => replaced(
            slots,
            i,
            SlotView {
                waiters: if slots[i].waiters > 0 {
                    (slots[i].waiters - 1) as u64
                } else {
                    0
                },
                ..slots[i]
            },
        ),
        None => slots,
    }
}

/// The state after a reader has stopped waiting for a slot.
pub open spec fn given_up(prefetch: PrefetchView, id: u64) -> PrefetchView {
    PrefetchView { slots: left_alone(prefetch.slots, id), ..prefetch }
}

/// What the coordinator of the fetches has to do next.
#[derive(Debug, PartialEq, Eq)]
pub enum FetchStep {
    /// Wait until a token is back.
    Wait,
    /// Stop: everything was fetched.
    Finished,
    /// Fetch this for slot `slot`.
    Fetch { slot: u64, url: String, range: Option<ByteRange> },
}

/// What a reader gets.
#[derive(Debug, PartialEq, Eq)]
pub enum ReadStep {
    /// The fetch has not come to an end: wait.
    Wait,
    /// The body, or why it could not be fetched.
    Done(Result<Vec<u8>, Error>),
    /// There is no such slot: fetch directly.
    Gone,
}

/// How bytes are read.
#[derive(Debug, PartialEq, Eq)]
pub enum ReadStart {
    /// Read the local file and cut out the range.
    File { path: String, range: Option<ByteRange> },
    /// Send a request.
    Fetch { url: String, range: Option<ByteRange> },
    /// Wait for this slot.
    Slot(u64),
}

/// The value of a [`ReadStart`] in contracts.
pub enum ReadStartView {
    File { path: Seq<char>, range: Option<ByteRange> },
    Fetch { url: Seq<char>, range: Option<ByteRange> },
    Slot(u64),
}

impl View for ReadStart {
    type V = ReadStartView;

    open spec fn view(&self) -> ReadStartView {
        match self {
            ReadStart::File { path, range } => ReadStartView::File { path: path@, range: *range },
            ReadStart::Fetch { url, range } => ReadStartView::Fetch { url: url@, range: *range },
            ReadStart::Slot(slot) => ReadStartView::Slot(*slot),
        }
    }
}

/// How bytes are read without a prefetch.
pub open spec fn direct_start(location: LocationView, range: Option<ByteRange>) -> ReadStartView {
    match location {
        LocationView::File(path) => ReadStartView::File { path, range },
        LocationView::Url(url) => ReadStartView::Fetch { url, range },
    }
}

/// Begins a read without a prefetch.
pub fn direct_read(location: &SourceLocation, range: Option<ByteRange>) -> (start: ReadStart)
    ensures
        start@ == direct_start(location@, range),
{
    match location {
        SourceLocation::File(path) => ReadStart::File { path: path.clone(), range },
        SourceLocation::Url(url) => ReadStart::Fetch { url: url.clone(), range },
    }
}

/// What a reader of a slot gets.
pub open spec fn read_result(slot: SlotStateView) -> Option<Result<Seq<u8>, ErrorView>> {
    match slot {
        SlotStateView::InFlight => None,
        SlotStateView::Ready(bytes) => Some(Ok(bytes)),
        SlotStateView::Failed(message) => Some(Err(ErrorView::Http(message))),
    }
}

impl Prefetch {
    /// No fetch is started; there are as many tokens as fetches may be
    /// outstanding.
    pub fn new(concurrency: usize, targets: VecDeque<SlotKey>) -> (prefetch: Prefetch)
        ensures
            prefetch@ == fresh_prefetch(concurrency, key_views(targets@)),
    {
        let prefetch = Prefetch {
            capacity: concurrency,
            tokens: concurrency,
            targets,
            slots: Vec::new(),
            next_id: 0,
        };
        assert(prefetch@.slots =~= Seq::empty());
        prefetch
    }

    fn position_listed(&self, url: &str, range: Option<ByteRange>) -> (position: Option<usize>)
        ensures
            position is Some <==> find_listed(self@.slots, KeyView { url: url@, range }, 0) is Some,
            position matches Some(i) ==> {
                &&& i < self.slots@.len()
                &&& find_listed(self@.slots, KeyView { url: url@, range }, 0) == Some(i as int)
            },
    {
        let ghost key = KeyView { url: url@, range };
        let mut i: usize = 0;
        while i < self.slots.len()
            invariant
                i <= self.slots@.len(),
                key == (KeyView { url: url@, range }),
                find_listed(self@.slots, key, 0) == find_listed(self@.slots, key, i as int),
            decreases self.slots@.len() - i,
        {
            if self.slots[i].listed && same_key(&self.slots[i].key, url, range) {
                return Some(i);
            }
            i = i + 1;
        }
        None
    }

    fn position_id(&self, id: u64) -> (position: Option<usize>)
        ensures
            position is Some <==> find_id(self@.slots, id, 0) is Some,
            position matches Some(i) ==> {
                &&& i < self.slots@.len()
                &&& find_id(self@.slots, id, 0) == Some(i as int)
                &&& self.slots@[i as int].id == id
            },
    {
        let mut i: usize = 0;
        while i < self.slots.len()
            invariant
                i <= self.slots@.len(),
                find_id(self@.slots, id, 0) == find_id(self@.slots, id, i as int),
            decreases self.slots@.len() - i,
        {
            if self.slots[i].id == id {
                return Some(i);
            }
            i = i + 1;
        }
        None
    }

    /// Drops slot `i` if nobody refers to it.
    fn drop_unreferred(&mut self, i: usize)
        requires
            i < old(self).slots@.len(),
        ensures
            final(self)@ == (PrefetchView {
                slots: if referred(old(self)@.slots[i as int]) {
                    old(self)@.slots
                } else {
                    old(self)@.slots.remove(i as int)
                },
                ..old(self)@
            }),
    {
        let in_flight: bool = match &self.slots[i].state {
            SlotState::InFlight => true,
            _ => false,
        };
        if !self.slots[i].listed && self.slots[i].waiters == 0 && !in_flight {
            let _dropped: Slot = self.slots.remove(i);
            assert(self@.slots =~= old(self)@.slots.remove(i as int));
        }
    }

    fn unlist(&mut self, url: &str, range: Option<ByteRange>)
        ensures
            final(self)@ == (PrefetchView {
                slots: unlisted(old(self)@.slots, KeyView { url: url@, range }),
                ..old(self)@
            }),
    {
        if let Some(i) = self.position_listed(url, range) {
            let ghost before = self@.slots;
            self.slots[i].listed = false;
            assert(self@.slots =~= before.update(
                i as int,
                SlotView { listed: false, ..before[i as int] },
            ));
            self.drop_unreferred(i);
            assert(self@.slots =~= unlisted(before, KeyView { url: url@, range }));
        }
    }

    fn release(&mut self, id: u64)
        ensures
            final(self)@ == (PrefetchView {
                slots: released(old(self)@.slots, id),
                ..old(self)@
            }),
    {
        if let Some(i) = self.position_id(id) {
            let ghost before = self@.slots;
            let waiters: u64 = self.slots[i].waiters;
            self.slots[i].charged = false;
            self.slots[i].waiters = if waiters > 0 { waiters - 1 } else { 0 };
            assert(self@.slots =~= before.update(
                i as int,
                SlotView {
                    charged: false,
                    waiters: if waiters > 0 { (waiters - 1) as u64 } else { 0 },
                    ..before[i as int]
                },
            ));
            self.drop_unreferred(i);
            assert(self@.slots =~= released(before, id));
        }
    }

    /// Starts the next fetch, if there is a token and something to fetch.
    pub fn next_fetch(&mut self) -> (step: FetchStep)
        requires
            old(self)@.next_id < u64::MAX,
        ensures
            if old(self)@.tokens == 0 {
                step is Wait && final(self)@ == old(self)@
            } else if old(self)@.targets.len() == 0 {
                step is Finished && final(self)@ == old(self)@
            } else {
                &&& final(self)@ == fetch_started(old(self)@)
                &&& step matches FetchStep::Fetch { slot, url, range }
                &&& slot == old(self)@.next_id
                &&& url@ == old(self)@.targets[0].url
                &&& range == old(self)@.targets[0].range
            },
    {
        if self.tokens == 0 {
            return FetchStep::Wait;
        }
        let ghost before = self@;
        let key: SlotKey = match self.targets.pop_front() {
            Some(key) => key,
            None => {
                return FetchStep::Finished;
            },
        };
        assert(self@.targets =~= before.targets.drop_first());
        self.tokens = self.tokens - 1;
        self.unlist(key.url.as_str(), key.range);
        let id: u64 = self.next_id;
        self.next_id = id + 1;
        let url: String = key.url.clone();
        let range: Option<ByteRange> = key.range;
        let ghost slots = self@.slots;
        let slot = Slot {
            id,
            key,
            listed: true,
            waiters: 0,
            charged: true,
            state: SlotState::InFlight,
        };
        self.slots.push(slot);
        assert(self@.slots =~= slots.push(new_slot(id, before.targets[0])));
        FetchStep::Fetch { slot: id, url, range }
    }

    /// Takes note of how the fetch of a slot ended: with a body, or with the
    /// message of an error.
    pub fn complete(&mut self, slot: u64, outcome: Result<Vec<u8>, String>)
        ensures
            final(self)@ == settled(
                old(self)@,
                slot,
                match outcome {
                    Ok(bytes) => SlotStateView::Ready(bytes@),
                    Err(message) => SlotStateView::Failed(message@),
                },
            ),
    {
        let state: SlotState = match outcome {
            Ok(bytes) => SlotState::Ready(bytes),
            Err(message) => SlotState::Failed(message),
        };
        if let Some(i) = self.position_id(slot) {
            let in_flight: bool = match &self.slots[i].state {
                SlotState::InFlight => true,
                _ => false,
            };
            if in_flight {
                let ghost before = self@.slots;
                self.slots[i].state = state;
                assert(self@.slots =~= before.update(
                    i as int,
                    SlotView { state: state@, ..before[i as int] },
                ));
                self.drop_unreferred(i);
                assert(self@.slots =~= settled(old(self)@, slot, state@).slots);
            }
        }
    }

    /// Lets a reader wait for the slot that is listed under a key. Without one the
    /// reader fetches directly.
    pub fn acquire(&mut self, url: &str, range: Option<ByteRange>) -> (slot: Option<u64>)
        ensures
            slot == slot_for(old(self)@, KeyView { url: url@, range }),
            final(self)@ == acquired(old(self)@, KeyView { url: url@, range }),
    {
        if let Some(i) = self.position_listed(url, range) {
            let waiters: u64 = self.slots[i].waiters;
            if waiters < u64::MAX {
                let ghost before = self@.slots;
                self.slots[i].waiters = waiters + 1;
                assert(self@.slots =~= before.update(
                    i as int,
                    SlotView { waiters: (waiters + 1) as u64, ..before[i as int] },
                ));
                return Some(self.slots[i].id);
            }
        }
        None
    }

    /// Takes note that a reader no longer waits for a slot it has acquired. The slot
    /// stays for other readers.
    pub fn give_up(&mut self, slot: u64)
        ensures
            final(self)@ == given_up(old(self)@, slot),
    {
        if let Some(i) = self.position_id(slot) {
            let ghost before = self@.slots;
            let waiters: u64 = self.slots[i].waiters;
            self.slots[i].waiters = if waiters > 0 { waiters - 1 } else { 0 };
            assert(self@.slots =~= before.update(
                i as int,
                SlotView {
                    waiters: if waiters > 0 { (waiters - 1) as u64 } else { 0 },
                    ..before[i as int]
                },
            ));
            self.drop_unreferred(i);
            assert(self@.slots =~= left_alone(before, slot));
        }
    }

    /// Begins a read while there is a prefetch. A local file is read as without
    /// one.
    pub fn begin_read(&mut self, location: &SourceLocation, range: Option<ByteRange>) -> (start:
        ReadStart)
        ensures
            match location@ {
                LocationView::File(_) => {
                    &&& start@ == direct_start(location@, range)
                    &&& final(self)@ == old(self)@
                },
                LocationView::Url(url) => {
                    let key = KeyView { url, range };
                    &&& final(self)@ == acquired(old(self)@, key)
                    &&& start@ == match slot_for(old(self)@, key) {
                        Some(slot) => ReadStartView::Slot(slot),
                        None => direct_start(location@, range),
                    }
                },
            },
    {
        match location {
            SourceLocation::File(_) => direct_read(location, range),
            SourceLocation::Url(url) => match self.acquire(url.as_str(), range) {
                Some(slot) => ReadStart::Slot(slot),
                None => direct_read(location, range),
            },
        }
    }

    /// Gives a reader the body of a slot it has acquired, once the fetch has come
    /// to an end. The token comes back whether the fetch worked or not.
    pub fn poll(&mut self, slot: u64) -> (step: ReadStep)
        ensures
            match find_id(old(self)@.slots, slot, 0) {
                None => step is Gone && final(self)@ == old(self)@,
                Some(i) => match read_result(old(self)@.slots[i].state) {
                    None => step is Wait && final(self)@ == old(self)@,
                    Some(result) => {
                        &&& step matches ReadStep::Done(outcome)
                        &&& outcome_view(outcome) == result
                        &&& final(self)@ == consumed(old(self)@, i)
                    },
                },
            },
    {
        let i: usize = match self.position_id(slot) {
            Some(i) => i,
            None => {
                return ReadStep::Gone;
            },
        };
        let outcome: Result<Vec<u8>, Error> = match &self.slots[i].state {
            SlotState::InFlight => {
                return ReadStep::Wait;
            },
            SlotState::Ready(bytes) => {
                let copy: Vec<u8> = bytes.clone();
                assert(copy@ =~= bytes@);
                Ok(copy)
            },
            SlotState::Failed(message) => Err(Error::Http(message.clone())),
        };
        let charged: bool = self.slots[i].charged;
        if charged && self.tokens < self.capacity {
            self.tokens = self.tokens + 1;
        }
        let url: String = self.slots[i].key.url.clone();
        let range: Option<ByteRange> = self.slots[i].key.range;
        self.unlist(url.as_str(), range);
        self.release(slot);
        ReadStep::Done(outcome)
    }
}

/// How many slots have their token.
pub open spec fn charged_count(slots: Seq<SlotView>) -> nat
    decreases slots.len(),
{
    if slots.len() == 0 {
        0
    } else {
        charged_count(slots.drop_last()) + (if slots.last().charged {
            1nat
        } else {
            0
        })
    }
}

/// Whether readers can still find a slot, or its fetch has not come to an end.
pub open spec fn live(slot: SlotView) -> bool {
    slot.listed || slot.state is InFlight
}

/// Whether the body of a slot is being fetched, or waits for its first reader, who
/// takes the token.
pub open spec fn outstanding(slot: SlotView) -> bool {
    slot.charged || slot.state is InFlight
}

/// How many bodies are being fetched or wait for their first reader.
pub open spec fn outstanding_count(slots: Seq<SlotView>) -> nat
    decreases slots.len(),
{
    if slots.len() == 0 {
        0
    } else {
        outstanding_count(slots.drop_last()) + (if outstanding(slots.last()) {
            1nat
        } else {
            0
        })
    }
}

/// What holds of the slots: the live ones have their token, ids are not
/// used twice, and no two slots are listed under one key.
pub open spec fn orderly(slots: Seq<SlotView>, next_id: u64) -> bool {
    &&& forall|i: int| 0 <= i < slots.len() && live(#[trigger] slots[i]) ==> slots[i].charged
    &&& forall|i: int| 0 <= i < slots.len() ==> (#[trigger] slots[i]).id < next_id
    &&& forall|i: int, j: int|
        0 <= i < j < slots.len() ==> (#[trigger] slots[i]).id != (#[trigger] slots[j]).id
    &&& forall|i: int, j: int|
        0 <= i < j < slots.len() && (#[trigger] slots[i]).listed && (#[trigger] slots[j]).listed
            ==> slots[i].key != slots[j].key
}

/// What every prefetch keeps: its slots are orderly, and tokens at hand and tokens
/// in slots are together no more than it may have.
pub open spec fn bounded(prefetch: PrefetchView) -> bool {
    &&& orderly(prefetch.slots, prefetch.next_id)
    &&& prefetch.tokens + charged_count(prefetch.slots) <= prefetch.capacity
}

/// What a search by id finds has that id, and what it does not find is not there.
pub proof fn lemma_find_id(slots: Seq<SlotView>, id: u64, from: int)
    requires
        0 <= from,
    ensures
        find_id(slots, id, from) matches Some(i) ==> from <= i < slots.len() && slots[i].id == id,
        find_id(slots, id, from) is None ==> forall|k: int|
            from <= k < slots.len() ==> (#[trigger] slots[k]).id != id,
    decreases slots.len() - from,
{
    if from < slots.len() && slots[from].id != id {
        lemma_find_id(slots, id, from + 1);
    }
}

/// What a search by key finds is listed under that key, and what it does not find
/// is not there.
pub proof fn lemma_find_listed(slots: Seq<SlotView>, key: KeyView, from: int)
    requires
        0 <= from,
    ensures
        find_listed(slots, key, from) matches Some(i) ==> {
            &&& from <= i < slots.len()
            &&& slots[i].listed
            &&& slots[i].key == key
        },
        find_listed(slots, key, from) is None ==> forall|k: int|
            from <= k < slots.len() && (#[trigger] slots[k]).listed ==> slots[k].key != key,
    decreases slots.len() - from,
{
    if from < slots.len() && !(slots[from].listed && slots[from].key == key) {
        lemma_find_listed(slots, key, from + 1);
    }
}

proof fn lemma_charged_update(slots: Seq<SlotView>, i: int, slot: SlotView)
    requires
        0 <= i < slots.len(),
    ensures
        charged_count(slots.update(i, slot)) + (if slots[i].charged {
            1int
        } else {
            0
        }) == charged_count(slots) + (if slot.charged {
            1int
        } else {
            0
        }),
    decreases slots.len(),
{
    if i < slots.len() - 1 {
        assert(slots.update(i, slot).drop_last() =~= slots.drop_last().update(i, slot));
        lemma_charged_update(slots.drop_last(), i, slot);
    } else {
        assert(slots.update(i, slot).drop_last() =~= slots.drop_last());
    }
}

proof fn lemma_charged_remove(slots: Seq<SlotView>, i: int)
    requires
        0 <= i < slots.len(),
    ensures
        charged_count(slots.remove(i)) + (if slots[i].charged {
            1int
        } else {
            0
        }) == charged_count(slots),
    decreases slots.len(),
{
    if i < slots.len() - 1 {
        assert(slots.remove(i).drop_last() =~= slots.drop_last().remove(i));
        assert(slots.remove(i).last() == slots.last());
        lemma_charged_remove(slots.drop_last(), i);
    } else {
        assert(slots.remove(i) =~= slots.drop_last());
    }
}

/// Changing a slot without listing it anew keeps the slots orderly.
proof fn lemma_replaced(slots: Seq<SlotView>, i: int, slot: SlotView, next_id: u64)
    requires
        orderly(slots, next_id),
        0 <= i < slots.len(),
        slot.id == slots[i].id,
        slot.listed ==> slots[i].listed && slot.key == slots[i].key,
        live(slot) ==> slot.charged,
    ensures
        orderly(replaced(slots, i, slot), next_id),
        charged_count(replaced(slots, i, slot)) + (if slots[i].charged {
            1int
        } else {
            0
        }) <= charged_count(slots) + (if slot.charged {
            1int
        } else {
            0
        }),
{
    lemma_charged_update(slots, i, slot);
    lemma_charged_remove(slots, i);
    let after = replaced(slots, i, slot);
    if referred(slot) {
        assert forall|k: int| 0 <= k < after.len() implies (#[trigger] after[k]).id < next_id by {
            assert(slots[k].id < next_id);
        }
    } else {
        assert forall|k: int| 0 <= k < after.len() implies #[trigger] after[k] == slots[if k < i {
            k
        } else {
            k + 1
        }] by {}
    }
}

/// A new prefetch is bounded.
pub proof fn lemma_new_bounded(concurrency: usize, targets: Seq<KeyView>)
    ensures
        bounded(fresh_prefetch(concurrency, targets)),
{
}

proof fn lemma_unlisted(slots: Seq<SlotView>, key: KeyView, next_id: u64)
    requires
        orderly(slots, next_id),
    ensures
        orderly(unlisted(slots, key), next_id),
        charged_count(unlisted(slots, key)) <= charged_count(slots),
        forall|k: int|
            0 <= k < unlisted(slots, key).len() && (#[trigger] unlisted(slots, key)[k]).listed
                ==> unlisted(slots, key)[k].key != key,
{
    lemma_find_listed(slots, key, 0);
    if let Some(i) = find_listed(slots, key, 0) {
        let slot = SlotView { listed: false, ..slots[i] };
        lemma_replaced(slots, i, slot, next_id);
        let after = replaced(slots, i, slot);
        assert forall|k: int| 0 <= k < after.len() && (#[trigger] after[k]).listed implies after[k].key
            != key by {
            let from = if referred(slot) || k < i {
                k
            } else {
                k + 1
            };
            assert(from != i ==> after[k] == slots[from]);
            assert(from < i ==> slots[from].key != slots[i].key);
            assert(from > i ==> slots[i].key != slots[from].key);
        }
    }
}

/// Starting a fetch keeps the bound.
pub proof fn lemma_fetch_keeps_bound(prefetch: PrefetchView)
    requires
        bounded(prefetch),
        prefetch.tokens > 0,
        prefetch.targets.len() > 0,
        prefetch.next_id < u64::MAX,
    ensures
        bounded(fetch_started(prefetch)),
        find_listed(fetch_started(prefetch).slots, prefetch.targets[0], 0) is Some,
{
    let key = prefetch.targets[0];
    let rest = unlisted(prefetch.slots, key);
    let slot = new_slot(prefetch.next_id, key);
    lemma_unlisted(prefetch.slots, key, prefetch.next_id);
    let after = rest.push(slot);
    assert(after.drop_last() =~= rest);
    assert forall|i: int, j: int|
        0 <= i < j < after.len() && (#[trigger] after[i]).listed && (
        #[trigger] after[j]).listed implies after[i].key != after[j].key by {
        assert(after[i] == rest[i]);
    }
    assert forall|i: int, j: int| 0 <= i < j < after.len() implies (#[trigger] after[i]).id != (
    #[trigger] after[j]).id by {
        assert(after[i] == rest[i]);
    }
    assert forall|i: int| 0 <= i < after.len() implies (#[trigger] after[i]).id
        < prefetch.next_id + 1 by {
        if i < rest.len() {
            assert(after[i] == rest[i]);
        }
    }
    lemma_find_listed(after, key, 0);
    assert(after[rest.len() as int] == slot);
}

/// The end of a fetch keeps the bound.
pub proof fn lemma_complete_keeps_bound(prefetch: PrefetchView, id: u64, state: SlotStateView)
    requires
        bounded(prefetch),
        !(state is InFlight),
    ensures
        bounded(settled(prefetch, id, state)),
{
    lemma_find_id(prefetch.slots, id, 0);
    if let Some(i) = find_id(prefetch.slots, id, 0) {
        if prefetch.slots[i].state is InFlight {
            lemma_replaced(
                prefetch.slots,
                i,
                SlotView { state, ..prefetch.slots[i] },
                prefetch.next_id,
            );
        }
    }
}

/// A reader that begins to wait keeps the bound.
pub proof fn lemma_acquire_keeps_bound(prefetch: PrefetchView, key: KeyView)
    requires
        bounded(prefetch),
    ensures
        bounded(acquired(prefetch, key)),
{
    lemma_find_listed(prefetch.slots, key, 0);
    if let Some(i) = find_listed(prefetch.slots, key, 0) {
        if prefetch.slots[i].waiters < u64::MAX {
            lemma_replaced(
                prefetch.slots,
                i,
                SlotView {
                    waiters: (prefetch.slots[i].waiters + 1) as u64,
                    ..prefetch.slots[i]
                },
                prefetch.next_id,
            );
        }
    }
}

/// A reader that gives up keeps the bound.
pub proof fn lemma_give_up_keeps_bound(prefetch: PrefetchView, id: u64)
    requires
        bounded(prefetch),
    ensures
        bounded(given_up(prefetch, id)),
{
    lemma_find_id(prefetch.slots, id, 0);
    if let Some(i) = find_id(prefetch.slots, id, 0) {
        lemma_replaced(
            prefetch.slots,
            i,
            SlotView {
                waiters: if prefetch.slots[i].waiters > 0 {
                    (prefetch.slots[i].waiters - 1) as u64
                } else {
                    0
                },
                ..prefetch.slots[i]
            },
            prefetch.next_id,
        );
    }
}

/// A slot whose key was taken off the list is off the list itself; where it is
/// gone, its token is gone from the slots.
proof fn lemma_unlisted_slot(slots: Seq<SlotView>, i: int, next_id: u64)
    requires
        orderly(slots, next_id),
        0 <= i < slots.len(),
        !(slots[i].state is InFlight),
    ensures
        match find_id(unlisted(slots, slots[i].key), slots[i].id, 0) {
            Some(k) => {
                let left = unlisted(slots, slots[i].key)[k];
                &&& left.charged == slots[i].charged
                &&& left.state == slots[i].state
                &&& !left.listed
            },
            None => slots[i].charged ==> charged_count(unlisted(slots, slots[i].key)) + 1
                <= charged_count(slots),
        },
{
    let slot = slots[i];
    let rest = unlisted(slots, slot.key);
    lemma_find_listed(slots, slot.key, 0);
    lemma_find_id(rest, slot.id, 0);
    match find_listed(slots, slot.key, 0) {
        None => {
            assert(rest == slots);
            assert(rest[i].id == slot.id);
            let k = find_id(rest, slot.id, 0)->0;
            assert(k < i ==> slots[k].id != slots[i].id);
            assert(i < k ==> slots[i].id != slots[k].id);
        },
        Some(j) => {
            let gone = SlotView { listed: false, ..slots[j] };
            if slot.listed {
                assert(j < i ==> slots[j].key != slots[i].key);
                assert(i < j ==> slots[i].key != slots[j].key);
            }
            if j == i && !referred(gone) {
                lemma_charged_remove(slots, i);
                assert forall|k: int| 0 <= k < rest.len() implies (#[trigger] rest[k]).id
                    != slot.id by {
                    if k < i {
                        assert(rest[k] == slots[k]);
                    } else {
                        assert(rest[k] == slots[k + 1]);
                    }
                }
            } else {
                let m = if referred(gone) || i < j {
                    i
                } else {
                    i - 1
                };
                assert(rest[m].id == slot.id);
                let k = find_id(rest, slot.id, 0)->0;
                lemma_unlisted(slots, slot.key, next_id);
                assert(k < m ==> rest[k].id != rest[m].id);
                assert(m < k ==> rest[m].id != rest[k].id);
            }
        },
    }
}

/// Taking a body out of an unlisted slot takes its token from the slots.
proof fn lemma_released(slots: Seq<SlotView>, id: u64, key: KeyView, next_id: u64)
    requires
        orderly(slots, next_id),
        find_id(slots, id, 0) matches Some(k) ==> !live(slots[k]),
        forall|k: int| 0 <= k < slots.len() && (#[trigger] slots[k]).listed ==> slots[k].key != key,
    ensures
        orderly(released(slots, id), next_id),
        match find_id(slots, id, 0) {
            Some(k) => charged_count(released(slots, id)) + (if slots[k].charged {
                1int
            } else {
                0
            }) <= charged_count(slots),
            None => released(slots, id) == slots,
        },
        find_listed(released(slots, id), key, 0) is None,
{
    let after = released(slots, id);
    lemma_find_id(slots, id, 0);
    if let Some(k) = find_id(slots, id, 0) {
        let left = SlotView {
            charged: false,
            waiters: if slots[k].waiters > 0 {
                (slots[k].waiters - 1) as u64
            } else {
                0
            },
            ..slots[k]
        };
        lemma_replaced(slots, k, left, next_id);
        assert forall|n: int| 0 <= n < after.len() && (#[trigger] after[n]).listed implies after[n].key
            != key by {
            let from = if referred(left) || n < k {
                n
            } else {
                n + 1
            };
            if from != k {
                assert(after[n] == slots[from]);
            }
        }
    }
    lemma_find_listed(after, key, 0);
}

/// Reading a body keeps the bound, and gives the token of the slot back whether
/// the fetch worked or not. No slot is listed under its key afterwards.
pub proof fn lemma_read_keeps_bound(prefetch: PrefetchView, id: u64, i: int)
    requires
        bounded(prefetch),
        find_id(prefetch.slots, id, 0) == Some(i),
        !(prefetch.slots[i].state is InFlight),
    ensures
        bounded(consumed(prefetch, i)),
        prefetch.slots[i].charged ==> consumed(prefetch, i).tokens == prefetch.tokens + 1,
        find_listed(consumed(prefetch, i).slots, prefetch.slots[i].key, 0) is None,
{
    let slots = prefetch.slots;
    let key = slots[i].key;
    lemma_find_id(slots, id, 0);
    lemma_charged_remove(slots, i);
    lemma_unlisted(slots, key, prefetch.next_id);
    lemma_unlisted_slot(slots, i, prefetch.next_id);
    lemma_released(unlisted(slots, key), id, key, prefetch.next_id);
}

/// A bounded prefetch has no more bodies in flight or waiting for their first
/// reader than it may have. A body that was read once, and that other readers of
/// the same slot still wait for, is theirs and not counted.
pub proof fn lemma_bounded_bodies(prefetch: PrefetchView)
    requires
        bounded(prefetch),
    ensures
        outstanding_count(prefetch.slots) <= prefetch.capacity,
{
    lemma_outstanding_charged(prefetch.slots);
}

proof fn lemma_outstanding_charged(slots: Seq<SlotView>)
    requires
        forall|i: int| 0 <= i < slots.len() && live(#[trigger] slots[i]) ==> slots[i].charged,
    ensures
        outstanding_count(slots) == charged_count(slots),
    decreases slots.len(),
{
    if slots.len() > 0 {
        let before = slots.drop_last();
        assert forall|i: int| 0 <= i < before.len() && live(
            #[trigger] before[i],
        ) implies before[i].charged by {
            assert(before[i] == slots[i]);
        }
        lemma_outstanding_charged(before);
        assert(slots[slots.len() - 1] == slots.last());
    }
}

/// What a prefetch of targets that differ from each other keeps: every slot has a
/// key of its own that is not to be fetched again, the slots with a token are those
/// on the list, and every token is at hand or in a slot.
pub open spec fn exact(prefetch: PrefetchView) -> bool {
    &&& orderly(prefetch.slots, prefetch.next_id)
    &&& forall|i: int|
        0 <= i < prefetch.slots.len() ==> (#[trigger] prefetch.slots[i]).charged
            == prefetch.slots[i].listed
    &&& forall|i: int, j: int|
        0 <= i < j < prefetch.slots.len() ==> (#[trigger] prefetch.slots[i]).key != (
        #[trigger] prefetch.slots[j]).key
    &&& forall|i: int, t: int|
        0 <= i < prefetch.slots.len() && 0 <= t < prefetch.targets.len() ==> (
        #[trigger] prefetch.slots[i]).key != #[trigger] prefetch.targets[t]
    &&& all_differ(prefetch.targets)
    &&& prefetch.tokens + charged_count(prefetch.slots) == prefetch.capacity
}

/// Whether no key comes twice.
pub open spec fn all_differ(keys: Seq<KeyView>) -> bool {
    forall|t: int, u: int| 0 <= t < u < keys.len() ==> #[trigger] keys[t] != #[trigger] keys[u]
}

/// No token is lost: a new prefetch of targets that differ from each other is
/// exact.
pub proof fn lemma_new_exact(concurrency: usize, targets: Seq<KeyView>)
    requires
        all_differ(targets),
    ensures
        exact(fresh_prefetch(concurrency, targets)),
{
}

/// No token is lost when a fetch is started.
pub proof fn lemma_fetch_keeps_tokens(prefetch: PrefetchView)
    requires
        exact(prefetch),
        prefetch.tokens > 0,
        prefetch.targets.len() > 0,
        prefetch.next_id < u64::MAX,
    ensures
        exact(fetch_started(prefetch)),
{
    let key = prefetch.targets[0];
    let slots = prefetch.slots;
    let after = fetch_started(prefetch);
    lemma_find_listed(slots, key, 0);
    assert(unlisted(slots, key) == slots);
    lemma_fetch_keeps_bound(prefetch);
    assert(after.slots.drop_last() =~= slots);
    assert forall|i: int, j: int| 0 <= i < j < after.slots.len() implies (
    #[trigger] after.slots[i]).key != (#[trigger] after.slots[j]).key by {
        assert(after.slots[i] == slots[i]);
    }
    assert forall|i: int, t: int|
        0 <= i < after.slots.len() && 0 <= t < after.targets.len() implies (
    #[trigger] after.slots[i]).key != #[trigger] after.targets[t] by {
        assert(after.targets[t] == prefetch.targets[t + 1]);
        if i < slots.len() {
            assert(after.slots[i] == slots[i]);
        }
    }
    assert forall|t: int, u: int|
        0 <= t < u < after.targets.len() implies #[trigger] after.targets[t]
        != #[trigger] after.targets[u] by {
        assert(after.targets[t] == prefetch.targets[t + 1]);
        assert(after.targets[u] == prefetch.targets[u + 1]);
    }
}

/// Changing a slot other than in its id and key keeps what the keys keep.
proof fn lemma_exact_update(prefetch: PrefetchView, i: int, slot: SlotView)
    requires
        exact(prefetch),
        0 <= i < prefetch.slots.len(),
        slot.id == prefetch.slots[i].id,
        slot.key == prefetch.slots[i].key,
        slot.listed == prefetch.slots[i].listed,
        slot.charged == prefetch.slots[i].charged,
        live(slot) ==> slot.charged,
    ensures
        exact(PrefetchView { slots: prefetch.slots.update(i, slot), ..prefetch }),
{
    let after = prefetch.slots.update(i, slot);
    lemma_charged_update(prefetch.slots, i, slot);
    assert forall|k: int| 0 <= k < after.len() implies (#[trigger] after[k]).id
        == prefetch.slots[k].id && after[k].key == prefetch.slots[k].key && after[k].listed
        == prefetch.slots[k].listed && after[k].charged == prefetch.slots[k].charged by {}
}

/// No token is lost when a fetch ends, whether it worked or not.
pub proof fn lemma_complete_keeps_tokens(prefetch: PrefetchView, id: u64, state: SlotStateView)
    requires
        exact(prefetch),
        !(state is InFlight),
    ensures
        exact(settled(prefetch, id, state)),
{
    lemma_find_id(prefetch.slots, id, 0);
    if let Some(i) = find_id(prefetch.slots, id, 0) {
        if prefetch.slots[i].state is InFlight {
            assert(live(prefetch.slots[i]));
            lemma_exact_update(prefetch, i, SlotView { state, ..prefetch.slots[i] });
        }
    }
}

/// No token is lost when a reader begins to wait.
pub proof fn lemma_acquire_keeps_tokens(prefetch: PrefetchView, key: KeyView)
    requires
        exact(prefetch),
    ensures
        exact(acquired(prefetch, key)),
{
    lemma_find_listed(prefetch.slots, key, 0);
    if let Some(i) = find_listed(prefetch.slots, key, 0) {
        if prefetch.slots[i].waiters < u64::MAX {
            lemma_exact_update(
                prefetch,
                i,
                SlotView {
                    waiters: (prefetch.slots[i].waiters + 1) as u64,
                    ..prefetch.slots[i]
                },
            );
        }
    }
}

/// Leaving out a slot, or taking one off the list together with its token, keeps
/// what the keys keep.
proof fn lemma_exact_shrinks(prefetch: PrefetchView, i: int, slot: SlotView, tokens: usize)
    requires
        exact(prefetch),
        0 <= i < prefetch.slots.len(),
        slot.id == prefetch.slots[i].id,
        slot.key == prefetch.slots[i].key,
        !live(slot),
        !slot.charged,
        tokens == prefetch.tokens + (if prefetch.slots[i].charged {
            1int
        } else {
            0
        }),
    ensures
        exact(PrefetchView { slots: prefetch.slots.update(i, slot), tokens, ..prefetch }),
        exact(PrefetchView { slots: prefetch.slots.remove(i), tokens, ..prefetch }),
{
    let slots = prefetch.slots;
    lemma_charged_update(slots, i, slot);
    lemma_charged_remove(slots, i);
    let changed = slots.update(i, slot);
    assert forall|k: int| 0 <= k < changed.len() implies (#[trigger] changed[k]).id == slots[k].id
        && changed[k].key == slots[k].key && (changed[k].listed ==> slots[k].listed) by {}
    let shorter = slots.remove(i);
    assert forall|k: int| 0 <= k < shorter.len() implies #[trigger] shorter[k] == slots[if k < i {
        k
    } else {
        k + 1
    }] by {}
}

/// No token is lost when a body is read: it is at hand again, whether the fetch
/// worked or not.
pub proof fn lemma_read_keeps_tokens(prefetch: PrefetchView, id: u64, i: int)
    requires
        exact(prefetch),
        find_id(prefetch.slots, id, 0) == Some(i),
        !(prefetch.slots[i].state is InFlight),
    ensures
        exact(consumed(prefetch, i)),
{
    let slots = prefetch.slots;
    let slot = slots[i];
    lemma_find_id(slots, id, 0);
    lemma_find_listed(slots, slot.key, 0);
    lemma_charged_remove(slots, i);
    let tokens = consumed(prefetch, i).tokens;
    let unlisted_slot = SlotView { listed: false, ..slot };
    let rest = unlisted(slots, slot.key);
    if let Some(j) = find_listed(slots, slot.key, 0) {
        assert(j < i ==> slots[j].key != slots[i].key);
        assert(i < j ==> slots[i].key != slots[j].key);
        assert(rest == replaced(slots, i, unlisted_slot));
    } else {
        assert(!slot.listed);
        assert(unlisted_slot == slot);
        assert(rest == slots);
        assert(rest =~= slots.update(i, unlisted_slot));
    }
    let left = SlotView {
        charged: false,
        waiters: if slot.waiters > 0 {
            (slot.waiters - 1) as u64
        } else {
            0
        },
        ..unlisted_slot
    };
    lemma_exact_shrinks(prefetch, i, left, tokens);
    lemma_find_id(rest, id, 0);
    if slot.listed && !referred(unlisted_slot) {
        assert(rest == slots.remove(i));
        assert forall|k: int| 0 <= k < rest.len() implies (#[trigger] rest[k]).id != id by {
            if k < i {
                assert(rest[k] == slots[k]);
            } else {
                assert(rest[k] == slots[k + 1]);
            }
        }
        assert(released(rest, id) == rest);
    } else {
        assert(rest =~= slots.update(i, unlisted_slot));
        assert(rest[i].id == id);
        let k = find_id(rest, id, 0)->0;
        assert(k < i ==> slots[k].id != slots[i].id);
        assert(i < k ==> slots[i].id != slots[k].id);
        assert(rest.update(i, left) =~= slots.update(i, left));
        assert(rest.remove(i) =~= slots.remove(i));
    }
}

/// No token is lost when a reader gives up.
pub proof fn lemma_give_up_keeps_tokens(prefetch: PrefetchView, id: u64)
    requires
        exact(prefetch),
    ensures
        exact(given_up(prefetch, id)),
{
    lemma_find_id(prefetch.slots, id, 0);
    if let Some(i) = find_id(prefetch.slots, id, 0) {
        let slot = SlotView {
            waiters: if prefetch.slots[i].waiters > 0 {
                (prefetch.slots[i].waiters - 1) as u64
            } else {
                0
            },
            ..prefetch.slots[i]
        };
        if referred(slot) {
            lemma_exact_update(prefetch, i, slot);
        } else {
            lemma_exact_shrinks(prefetch, i, slot, prefetch.tokens);
        }
    }
}

proof fn lemma_none_charged(slots: Seq<SlotView>)
    requires
        forall|i: int| 0 <= i < slots.len() ==> !(#[trigger] slots[i]).charged,
    ensures
        charged_count(slots) == 0,
    decreases slots.len(),
{
    if slots.len() > 0 {
        let before = slots.drop_last();
        assert forall|i: int| 0 <= i < before.len() implies !(#[trigger] before[i]).charged by {
            assert(before[i] == slots[i]);
        }
        lemma_none_charged(before);
        assert(slots[slots.len() - 1] == slots.last());
    }
}

/// Prefetching does not stall: once everything that was fetched is read, all
/// tokens are at hand.
pub proof fn lemma_all_tokens_return(prefetch: PrefetchView)
    requires
        exact(prefetch),
        forall|i: int| 0 <= i < prefetch.slots.len() ==> !outstanding(#[trigger] prefetch.slots[i]),
    ensures
        prefetch.tokens == prefetch.capacity,
{
    lemma_none_charged(prefetch.slots);
}

/// A reader gets what was fetched for its key: where a slot is listed under the
/// key, and its fetch ends with these bytes or this message, then the slot is
/// still listed under the key, and reading it gives them.
pub proof fn lemma_reader_gets_what_was_fetched(
    prefetch: PrefetchView,
    key: KeyView,
    i: int,
    state: SlotStateView,
)
    requires
        bounded(prefetch),
        find_listed(prefetch.slots, key, 0) == Some(i),
        prefetch.slots[i].state is InFlight,
    ensures
        ({
            let id = prefetch.slots[i].id;
            let after = settled(prefetch, id, state).slots;
            &&& find_listed(after, key, 0) == Some(i)
            &&& find_id(after, id, 0) == Some(i)
            &&& read_result(after[i].state) == read_result(state)
        }),
{
    let slots = prefetch.slots;
    let id = slots[i].id;
    lemma_find_listed(slots, key, 0);
    lemma_find_id(slots, id, 0);
    let k = find_id(slots, id, 0);
    assert(k is Some);
    assert(k->0 < i ==> slots[k->0].id != slots[i].id);
    assert(i < k->0 ==> slots[i].id != slots[k->0].id);
    let after = settled(prefetch, id, state).slots;
    assert(after == slots.update(i, SlotView { state, ..slots[i] }));
    lemma_find_listed(after, key, 0);
    lemma_find_id(after, id, 0);
    let a = find_listed(after, key, 0);
    assert(after[i].listed && after[i].key == key);
    assert(a is Some);
    if a->0 != i {
        assert(slots[a->0].listed && slots[a->0].key == key);
        assert(a->0 < i ==> slots[a->0].key != slots[i].key);
        assert(i < a->0 ==> slots[i].key != slots[a->0].key);
    }
    let b = find_id(after, id, 0);
    assert(after[i].id == id);
    assert(b is Some);
    if b->0 != i {
        assert(slots[b->0].id == id);
        assert(b->0 < i ==> slots[b->0].id != slots[i].id);
        assert(i < b->0 ==> slots[i].id != slots[b->0].id);
    }
}

/// Only the segments of a media playlist at a URL are prefetched: local files and
/// master playlists never are, nor anything with a concurrency of one.
pub proof fn lemma_never_prefetched(
    concurrency: usize,
    location: LocationView,
    playlist: Result<HlsPlaylist, Error>,
)
    requires
        ({
            ||| concurrency <= 1
            ||| location is File
            ||| playlist matches Ok(HlsPlaylist::Master(_))
            ||| playlist is Err
        }),
    ensures
        to_prefetch(concurrency, location, playlist) is None,
{
}

} // verus!
