//! Writing a fragmented MP4 segment by segment: what is remembered from one
//! segment to the next.

use crate::boxes::{be32, read_be32};
use crate::error::{Error, ErrorView};
use crate::samples::{shifted, TrackLayout};
use crate::tracks::{first_tracks, layout_of, lemma_first_tracks_layout};
use crate::types::{
    packet_views, sample_views, track_views, DemuxView, EncodedPacket, FragmentedTrack, Mp4Sample,
    PacketView, ReportView, SampleView, TfraEntry, TrackInfo, TrackView, TransmuxReport,
};
use vstd::prelude::*;

verus! {

/// The state of a fragmented MP4 that is being written.
#[derive(Debug)]
pub struct FragmentSession {
    /// The DTS of the very first packet. The timeline starts there.
    pub base_dts_90k: Option<u64>,
    /// The tracks, once the first segment has determined them.
    pub tracks: Option<Vec<FragmentedTrack>>,
    /// Where the tracks stand.
    pub layout: TrackLayout,
    /// The random access index of each track.
    pub tfra: Vec<Vec<TfraEntry>>,
    /// The longest time reached, in milliseconds.
    pub max_duration_ms: u64,
    /// How many bytes the file has.
    pub bytes_written: u64,
}

/// The value of a [`FragmentSession`] in contracts.
pub struct SessionView {
    pub base_dts_90k: Option<u64>,
    pub tracks: Option<Seq<TrackView>>,
    pub layout: TrackLayout,
    pub tfra: Seq<Seq<TfraEntry>>,
    pub max_duration_ms: u64,
    pub bytes_written: u64,
}

/// The entries of the random access indices.
pub open spec fn index_views(tfra: Seq<Vec<TfraEntry>>) -> Seq<Seq<TfraEntry>> {
    Seq::new(tfra.len(), |t: int| tfra[t]@)
}

/// The samples of each track.
pub open spec fn samples_by_track(samples: Seq<Vec<Mp4Sample>>) -> Seq<Seq<SampleView>> {
    Seq::new(samples.len(), |t: int| sample_views(samples[t]@))
}

impl View for FragmentSession {
    type V = SessionView;

    open spec fn view(&self) -> SessionView {
        SessionView {
            base_dts_90k: self.base_dts_90k,
            tracks: match self.tracks {
                Some(tracks) => Some(track_views(tracks@)),
                None => None,
            },
            layout: self.layout,
            tfra: index_views(self.tfra@),
            max_duration_ms: self.max_duration_ms,
            bytes_written: self.bytes_written,
        }
    }
}

/// A session before its first segment.
pub open spec fn fresh_session() -> SessionView {
    SessionView {
        base_dts_90k: None,
        tracks: None,
        layout: TrackLayout { video_index: None, audio_index: None, audio_timescale: 0 },
        tfra: Seq::empty(),
        max_duration_ms: 0,
        bytes_written: 0,
    }
}

/// The session after the packets of a segment were seen: the very first packet
/// fixes where the timeline starts.
pub open spec fn observed(session: SessionView, packets: Seq<PacketView>) -> SessionView {
    SessionView {
        base_dts_90k: if session.base_dts_90k is None && packets.len() > 0 {
            Some(packets[0].dts_90k)
        } else {
            session.base_dts_90k
        },
        ..session
    }
}

/// Where the timeline of a session starts.
pub open spec fn base_of(session: SessionView) -> u64 {
    match session.base_dts_90k {
        Some(base) => base,
        None => 0,
    }
}

/// The session after its header was written: the tracks are fixed, and none has
/// an index entry.
pub open spec fn started(session: SessionView, tracks: Seq<TrackView>, header_size: nat) -> SessionView {
    SessionView {
        tracks: Some(tracks),
        layout: layout_of(tracks),
        tfra: Seq::new(tracks.len(), |t: int| Seq::empty()),
        bytes_written: (session.bytes_written + header_size) as u64,
        ..session
    }
}

/// The index entry of a fragment that starts at `offset`, for a track whose
/// first sample in it is `first`.
pub open spec fn index_entry(first: SampleView, offset: int, fragment: Seq<u8>) -> TfraEntry {
    TfraEntry {
        time: first.dts,
        moof_offset: (offset + be32(fragment, 0)) as u64,
        traf_number: 1,
        trun_number: 1,
        sample_number: 1,
    }
}

/// The index of a track after a fragment was written at `offset`: tracks with
/// samples in it get one entry.
pub open spec fn indexed(
    entries: Seq<TfraEntry>,
    samples: Seq<SampleView>,
    offset: int,
    fragment: Seq<u8>,
) -> Seq<TfraEntry> {
    if samples.len() == 0 {
        entries
    } else {
        entries.push(index_entry(samples[0], offset, fragment))
    }
}

/// The time that the last packet of a segment reaches, in milliseconds. The
/// product saturates at the largest `u64`.
pub open spec fn reached_ms(packets: Seq<PacketView>, base: u64) -> u64 {
    if packets.len() == 0 {
        0
    } else {
        let product = shifted(packets.last().dts_90k, base) * 1000;
        ((if product > u64::MAX { u64::MAX as int } else { product }) / 90_000) as u64
    }
}

/// The session after the fragment of a segment was written.
pub open spec fn with_fragment(
    session: SessionView,
    samples: Seq<Seq<SampleView>>,
    fragment: Seq<u8>,
    packets: Seq<PacketView>,
) -> SessionView {
    let reached = reached_ms(packets, base_of(session));
    SessionView {
        tfra: Seq::new(
            session.tfra.len(),
            |t: int|
                if t < samples.len() {
                    indexed(
                        session.tfra[t],
                        samples[t],
                        session.bytes_written as int,
                        fragment,
                    )
                } else {
                    session.tfra[t]
                },
        ),
        max_duration_ms: if reached > session.max_duration_ms {
            reached
        } else {
            session.max_duration_ms
        },
        bytes_written: (session.bytes_written + fragment.len()) as u64,
        ..session
    }
}

/// Why a session cannot be closed, if it cannot.
pub open spec fn close_error(session: SessionView) -> Option<ErrorView> {
    if session.tracks is None {
        Some(ErrorView::InvalidInput("no segments were processed"@))
    } else if session.tfra.len() == 0 {
        Some(ErrorView::InvalidInput("no fragments were generated"@))
    } else {
        None
    }
}

impl FragmentSession {
    /// A session before its first segment.
    pub fn new() -> (session: FragmentSession)
        ensures
            session@ == fresh_session(),
    {
        let session = FragmentSession {
            base_dts_90k: None,
            tracks: None,
            layout: TrackLayout { video_index: None, audio_index: None, audio_timescale: 0 },
            tfra: Vec::new(),
            max_duration_ms: 0,
            bytes_written: 0,
        };
        assert(session@.tfra =~= fresh_session().tfra);
        session
    }

    /// Takes note of the packets of a segment and returns where the timeline
    /// starts.
    pub fn observe(&mut self, packets: &Vec<EncodedPacket>) -> (base: u64)
        ensures
            final(self)@ == observed(old(self)@, packet_views(packets@)),
            base == base_of(final(self)@),
    {
        if self.base_dts_90k.is_none() && packets.len() > 0 {
            self.base_dts_90k = Some(packets[0].dts_90k);
        }
        match self.base_dts_90k {
            Some(base) => base,
            None => 0,
        }
    }

    /// Whether the header was written.
    pub fn is_started(&self) -> (yes: bool)
        ensures
            yes == self@.tracks is Some,
    {
        self.tracks.is_some()
    }

    /// Takes note that a header of `header_size` bytes for these tracks was
    /// written.
    pub fn start(&mut self, tracks: Vec<FragmentedTrack>, header_size: usize)
        requires
            old(self)@.bytes_written + header_size <= u64::MAX,
        ensures
            final(self)@ == started(old(self)@, track_views(tracks@), header_size as nat),
    {
        let layout: TrackLayout = TrackLayout::from_tracks(&tracks);
        let mut tfra: Vec<Vec<TfraEntry>> = Vec::new();
        while tfra.len() < tracks.len()
            invariant
                tfra@.len() <= tracks@.len(),
                forall|t: int| 0 <= t < tfra@.len() ==> (#[trigger] tfra@[t])@.len() == 0,
            decreases tracks@.len() - tfra@.len(),
        {
            tfra.push(Vec::new());
        }
        proof {
            let wanted = started(old(self)@, track_views(tracks@), header_size as nat).tfra;
            assert forall|t: int| 0 <= t < tfra@.len() implies #[trigger] index_views(tfra@)[t]
                =~= wanted[t] by {
                assert(tfra@[t]@.len() == 0);
            }
            assert(index_views(tfra@) =~= wanted);
        }
        self.layout = layout;
        self.tfra = tfra;
        self.tracks = Some(tracks);
        self.bytes_written = self.bytes_written + header_size as u64;
    }

    /// Takes note that the fragment of a segment was written behind what is there.
    /// A fragment begins with its `styp` box, and its `moof` box follows.
    pub fn add_fragment(
        &mut self,
        samples: &Vec<Vec<Mp4Sample>>,
        fragment: &Vec<u8>,
        packets: &Vec<EncodedPacket>,
    )
        requires
            fragment@.len() >= 4,
            samples@.len() <= old(self)@.tfra.len(),
            old(self)@.bytes_written + fragment@.len() <= u64::MAX,
            forall|t: int|
                0 <= t < samples@.len() && (#[trigger] samples@[t])@.len() > 0 ==> old(
                    self,
                )@.bytes_written + be32(fragment@, 0) <= u64::MAX,
        ensures
            final(self)@ == with_fragment(
                old(self)@,
                samples_by_track(samples@),
                fragment@,
                packet_views(packets@),
            ),
    {
        let ghost before = self@;
        let ghost wanted = with_fragment(
            before,
            samples_by_track(samples@),
            fragment@,
            packet_views(packets@),
        );
        let offset: u64 = self.bytes_written;
        let styp_size: u64 = read_be32(fragment.as_slice(), 0);
        let mut t: usize = 0;
        while t < samples.len()
            invariant
                t <= samples@.len(),
                samples@.len() <= before.tfra.len(),
                self@.tfra.len() == before.tfra.len(),
                offset == before.bytes_written,
                styp_size == be32(fragment@, 0),
                forall|k: int|
                    0 <= k < samples@.len() && (#[trigger] samples@[k])@.len() > 0 ==> offset
                        + styp_size <= u64::MAX,
                wanted == with_fragment(
                    before,
                    samples_by_track(samples@),
                    fragment@,
                    packet_views(packets@),
                ),
                forall|k: int| 0 <= k < t ==> #[trigger] self@.tfra[k] == wanted.tfra[k],
                forall|k: int|
                    t <= k < before.tfra.len() ==> #[trigger] self@.tfra[k] == before.tfra[k],
                self@.base_dts_90k == before.base_dts_90k,
                self@.tracks == before.tracks,
                self@.layout == before.layout,
                self@.max_duration_ms == before.max_duration_ms,
                self@.bytes_written == before.bytes_written,
            decreases samples@.len() - t,
        {
            let ghost now = self.tfra@;
            if samples[t].len() > 0 {
                assert(samples@[t as int]@.len() > 0);
                let entry = TfraEntry {
                    time: samples[t][0].dts,
                    moof_offset: offset + styp_size,
                    traf_number: 1,
                    trun_number: 1,
                    sample_number: 1,
                };
                self.tfra[t].push(entry);
                assert(self.tfra@[t as int]@ == now[t as int]@.push(entry));
                assert(sample_views(samples@[t as int]@)[0] == samples@[t as int]@[0]@);
            }
            proof {
                assert(samples_by_track(samples@)[t as int] == sample_views(samples@[t as int]@));
                assert forall|k: int|
                    0 <= k < before.tfra.len() && k != t implies #[trigger] self@.tfra[k]
                    == index_views(now)[k] by {
                    assert(self.tfra@[k] == now[k]);
                }
                assert(index_views(now)[t as int] == before.tfra[t as int]);
                assert(self@.tfra[t as int] == wanted.tfra[t as int]);
            }
            t = t + 1;
        }
        assert(self@.tfra =~= wanted.tfra);
        self.bytes_written = offset + fragment.len() as u64;
        if packets.len() > 0 {
            let base: u64 = match self.base_dts_90k {
                Some(base) => base,
                None => 0,
            };
            let last: u64 = packets[packets.len() - 1].dts_90k.saturating_sub(base);
            let ms: u64 = match last.checked_mul(1000) {
                Some(product) => product / 90_000,
                None => u64::MAX / 90_000,
            };
            if ms > self.max_duration_ms {
                self.max_duration_ms = ms;
            }
        }
    }

    /// Checks that there is something to close: the index of the tracks can be
    /// written.
    pub fn check_close(&self) -> (checked: Result<(), Error>)
        ensures
            checked is Ok <==> close_error(self@) is None,
            checked matches Err(error) ==> Some(error@) == close_error(self@),
    {
        if self.tracks.is_none() {
            return Err(Error::invalid("no segments were processed"));
        }
        if self.tfra.len() == 0 {
            return Err(Error::invalid("no fragments were generated"));
        }
        Ok(())
    }

    /// Reports on the file after the random access index of `index_size` bytes was
    /// written behind the fragments.
    pub fn report(&self, segment_count: usize, index_size: usize) -> (report: TransmuxReport)
        requires
            self@.bytes_written + index_size <= u64::MAX,
        ensures
            report@ == (ReportView {
                segment_count,
                tracks: Seq::empty(),
                duration: self@.max_duration_ms,
                duration_timescale: 1000,
                bytes_written: (self@.bytes_written + index_size) as u64,
            }),
    {
        let tracks: Vec<TrackInfo> = Vec::new();
        TransmuxReport {
            segment_count,
            tracks,
            duration: self.max_duration_ms,
            duration_timescale: 1000,
            bytes_written: self.bytes_written + index_size as u64,
        }
    }
}

/// The timeline starts at the very first packet, which therefore is at zero, and
/// later segments do not move it.
pub proof fn lemma_timeline_start_is_fixed(
    session: SessionView,
    first: Seq<PacketView>,
    later: Seq<PacketView>,
)
    requires
        session.base_dts_90k is None,
        first.len() > 0,
    ensures
        ({
            let base = base_of(observed(session, first));
            &&& base == first[0].dts_90k
            &&& shifted(first[0].dts_90k, base) == 0
            &&& base_of(observed(observed(session, first), later)) == base
        }),
{
}

/// The index of a track leads to fragments in the order in which they stand in
/// the file, and not past its end.
pub open spec fn in_file_order(entries: Seq<TfraEntry>, file_size: u64) -> bool {
    &&& forall|i: int| 0 <= i < entries.len() ==> (#[trigger] entries[i]).moof_offset < file_size
    &&& forall|i: int, j: int|
        0 <= i < j < entries.len() ==> (#[trigger] entries[i]).moof_offset < (
        #[trigger] entries[j]).moof_offset
}

/// What every session keeps: once the header is written there is one index for
/// each track, and each index is in file order.
pub open spec fn consistent(session: SessionView) -> bool {
    &&& session.tracks is None ==> session.tfra.len() == 0
    &&& session.tracks matches Some(tracks) ==> {
        &&& session.tfra.len() == tracks.len()
        &&& session.layout == layout_of(tracks)
    }
    &&& forall|t: int|
        0 <= t < session.tfra.len() ==> in_file_order(
            #[trigger] session.tfra[t],
            session.bytes_written,
        )
}

/// A session is consistent from the start, and stays so when packets are seen and
/// when the header is written.
pub proof fn lemma_session_consistent(
    session: SessionView,
    packets: Seq<PacketView>,
    tracks: Seq<TrackView>,
    header_size: nat,
)
    requires
        consistent(session),
        session.bytes_written + header_size <= u64::MAX,
    ensures
        consistent(fresh_session()),
        consistent(observed(session, packets)),
        consistent(started(session, tracks, header_size)),
{
    assert forall|t: int| 0 <= t < tracks.len() implies in_file_order(
        #[trigger] started(session, tracks, header_size).tfra[t],
        started(session, tracks, header_size).bytes_written,
    ) by {
        assert(started(session, tracks, header_size).tfra[t] =~= Seq::empty());
    }
}

/// A session stays consistent when a fragment is written whose `styp` box is
/// shorter than the fragment. The new entries lead into that fragment.
pub proof fn lemma_fragment_keeps_index(
    session: SessionView,
    samples: Seq<Seq<SampleView>>,
    fragment: Seq<u8>,
    packets: Seq<PacketView>,
)
    requires
        consistent(session),
        samples.len() <= session.tfra.len(),
        0 <= be32(fragment, 0) < fragment.len(),
        session.bytes_written + fragment.len() <= u64::MAX,
    ensures
        consistent(with_fragment(session, samples, fragment, packets)),
        forall|t: int|
            0 <= t < samples.len() && (#[trigger] samples[t]).len() > 0 ==> {
                let after = with_fragment(session, samples, fragment, packets);
                let entry = after.tfra[t].last();
                &&& after.tfra[t].len() == session.tfra[t].len() + 1
                &&& entry.time == samples[t][0].dts
                &&& session.bytes_written <= entry.moof_offset < after.bytes_written
            },
{
    let after = with_fragment(session, samples, fragment, packets);
    assert forall|t: int| 0 <= t < after.tfra.len() implies in_file_order(
        #[trigger] after.tfra[t],
        after.bytes_written,
    ) by {
        let entries = session.tfra[t];
        assert(in_file_order(entries, session.bytes_written));
        if t < samples.len() && samples[t].len() > 0 {
            let longer = after.tfra[t];
            assert forall|i: int, j: int| 0 <= i < j < longer.len() implies (
            #[trigger] longer[i]).moof_offset < (#[trigger] longer[j]).moof_offset by {
                assert(longer[i] == entries[i]);
                if j < entries.len() {
                    assert(longer[j] == entries[j]);
                }
            }
            assert forall|i: int| 0 <= i < longer.len() implies (#[trigger] longer[i]).moof_offset
                < after.bytes_written by {
                if i < entries.len() {
                    assert(longer[i] == entries[i]);
                }
            }
        } else {
            assert(after.tfra[t] == entries);
        }
    }
}

/// The duration of a session covers every segment and never shrinks.
pub proof fn lemma_duration_grows(
    session: SessionView,
    samples: Seq<Seq<SampleView>>,
    fragment: Seq<u8>,
    packets: Seq<PacketView>,
)
    ensures
        ({
            let after = with_fragment(session, samples, fragment, packets);
            &&& after.max_duration_ms >= session.max_duration_ms
            &&& after.max_duration_ms >= reached_ms(packets, base_of(session))
            &&& after.base_dts_90k == session.base_dts_90k
        }),
{
}

/// A session that was started with the tracks of its first segment has one index
/// for each list of samples that its layout groups packets into.
pub proof fn lemma_started_session_fits_samples(
    session: SessionView,
    first: DemuxView,
    accepted: Result<(), ErrorView>,
    header_size: nat,
)
    requires
        first_tracks(first, accepted) is Ok,
    ensures
        ({
            let after = started(session, first_tracks(first, accepted)->Ok_0, header_size);
            &&& after.layout.in_bounds()
            &&& after.layout.tracks() == after.tfra.len()
            &&& close_error(after) is None
        }),
{
    lemma_first_tracks_layout(first, accepted);
}

} // verus!
