//! The course of writing a fragmented MP4: which step comes after which.

use crate::boxes::be32;
use crate::error::{Error, ErrorView};
use crate::fidelity::{differs, fresh_fidelity, watched, Fidelity, FidelityView};
use crate::fragments::{
    base_of, close_error, fresh_session, observed, samples_by_track, started, with_fragment,
    FragmentSession, SessionView,
};
use crate::samples::{
    conversion_error, conversions, group_samples_per_track, set_durations, timed, track_samples,
    TrackLayout,
};
use crate::text::outcome_view;
use crate::tracks::{
    acceptance, build_fragmented_tracks, first_tracks, first_video_parameters, layout_of,
    lemma_first_tracks_layout, video_parameters,
};
use crate::types::{
    report_outcome, sample_views, track_views, DemuxOutput, DemuxView, FragmentedTrack, Mp4Sample,
    PacketView, ReportView, SampleView, TrackView, TransmuxReport, VideoParameters,
    VideoParametersView,
};
use vstd::prelude::*;

verus! {

/// What a run waits for.
#[derive(Debug, Clone, Copy, PartialEq, Eq, Structural)]
pub enum FragmentPhase {
    /// The packets of the current segment.
    Reading,
    /// The verdict on the parameter sets of the first segment.
    Checking,
    /// The header.
    Heading,
    /// The conversions of the packets.
    Converting,
    /// The durations of the video samples.
    Timing,
    /// The fragment of the current segment.
    Writing,
    /// The random access index.
    Indexing,
    /// Nothing: the run has ended.
    Done,
}

/// What has to be done next.
#[derive(Debug, PartialEq, Eq)]
pub enum FragmentStep {
    /// Read and demux the segment with this index.
    ReadSegment(usize),
    /// Let the codec layer check the parameter sets of the first segment.
    CheckParameters(VideoParameters),
    /// Write the header for the tracks of the run.
    WriteHeader,
    /// Convert the packets of the current segment that need it.
    ConvertPackets,
    /// Find the durations of the samples of the run in the track with this index.
    FindDurations(usize),
    /// Write the fragment with the samples of the run.
    WriteFragment,
    /// Write the random access index of the session.
    WriteIndex,
    /// Nothing: this is how the run ended.
    Finished(Result<TransmuxReport, Error>),
}

/// The value of a [`FragmentStep`] in contracts.
pub enum FragmentStepView {
    ReadSegment(usize),
    CheckParameters(VideoParametersView),
    WriteHeader,
    ConvertPackets,
    FindDurations(usize),
    WriteFragment,
    WriteIndex,
    Finished(Result<ReportView, ErrorView>),
}

impl View for FragmentStep {
    type V = FragmentStepView;

    open spec fn view(&self) -> FragmentStepView {
        match self {
            FragmentStep::ReadSegment(index) => FragmentStepView::ReadSegment(*index),
            FragmentStep::CheckParameters(parameters) => FragmentStepView::CheckParameters(
                parameters@,
            ),
            FragmentStep::WriteHeader => FragmentStepView::WriteHeader,
            FragmentStep::ConvertPackets => FragmentStepView::ConvertPackets,
            FragmentStep::FindDurations(index) => FragmentStepView::FindDurations(*index),
            FragmentStep::WriteFragment => FragmentStepView::WriteFragment,
            FragmentStep::WriteIndex => FragmentStepView::WriteIndex,
            FragmentStep::Finished(result) => FragmentStepView::Finished(report_outcome(*result)),
        }
    }
}

/// A run that writes the segments of a playlist as a fragmented MP4.
#[derive(Debug)]
pub struct FragmentRun {
    pub session: FragmentSession,
    pub segment_count: usize,
    /// Index of the current segment.
    pub current: usize,
    pub phase: FragmentPhase,
    /// The current segment, once it is demuxed.
    pub demuxed: Option<DemuxOutput>,
    /// The tracks that the header is written for.
    pub tracks: Option<Vec<FragmentedTrack>>,
    /// The samples that the fragment is written with.
    pub samples: Vec<Vec<Mp4Sample>>,
    /// What is known of how the fragments compare to a standard MP4.
    pub fidelity: Fidelity,
}

/// The value of a [`FragmentRun`] in contracts.
pub struct RunView {
    pub session: SessionView,
    pub segment_count: usize,
    pub current: usize,
    pub phase: FragmentPhase,
    pub demuxed: Option<DemuxView>,
    pub tracks: Option<Seq<TrackView>>,
    pub samples: Seq<Seq<SampleView>>,
    pub fidelity: FidelityView,
}

impl View for FragmentRun {
    type V = RunView;

    open spec fn view(&self) -> RunView {
        RunView {
            session: self.session@,
            segment_count: self.segment_count,
            current: self.current,
            phase: self.phase,
            demuxed: match self.demuxed {
                Some(demuxed) => Some(demuxed@),
                None => None,
            },
            tracks: match self.tracks {
                Some(tracks) => Some(track_views(tracks@)),
                None => None,
            },
            samples: samples_by_track(self.samples@),
            fidelity: self.fidelity@,
        }
    }
}

/// Whether the layout of a list of tracks counts exactly them and points at them.
pub open spec fn fits(layout: TrackLayout, tracks: nat) -> bool {
    layout.in_bounds() && layout.tracks() == tracks
}

/// What every run keeps.
pub open spec fn run_invariant(run: RunView) -> bool {
    &&& run.session.tracks is Some ==> fits(run.session.layout, run.session.tfra.len())
    &&& run.phase == FragmentPhase::Reading ==> run.current < run.segment_count
    &&& run.phase == FragmentPhase::Checking ==> {
        &&& run.current < run.segment_count
        &&& run.demuxed is Some
    }
    &&& run.phase == FragmentPhase::Heading ==> {
        &&& run.current < run.segment_count
        &&& run.demuxed is Some
        &&& run.tracks matches Some(tracks)
        &&& fits(layout_of(tracks), tracks.len())
    }
    &&& run.phase == FragmentPhase::Converting ==> {
        &&& run.current < run.segment_count
        &&& run.demuxed is Some
        &&& run.session.tracks is Some
    }
    &&& run.phase == FragmentPhase::Timing ==> {
        &&& run.current < run.segment_count
        &&& run.demuxed is Some
        &&& run.session.tracks is Some
        &&& run.samples.len() == run.session.tfra.len()
        &&& run.session.layout.video_index is Some
    }
    &&& run.phase == FragmentPhase::Writing ==> {
        &&& run.current < run.segment_count
        &&& run.demuxed is Some
        &&& run.session.tracks is Some
        &&& run.samples.len() == run.session.tfra.len()
    }
}

/// The run after its end.
pub open spec fn ended(run: RunView) -> RunView {
    RunView { phase: FragmentPhase::Done, ..run }
}

/// A run that ends with an error.
pub open spec fn failed(run: RunView, error: ErrorView) -> (RunView, FragmentStepView) {
    (ended(run), FragmentStepView::Finished(Err(error)))
}

/// A run that has no segment left: the index is written, if there is something to
/// index.
pub open spec fn closing(run: RunView) -> (RunView, FragmentStepView) {
    match close_error(run.session) {
        Some(error) => failed(run, error),
        None => (
            RunView { phase: FragmentPhase::Indexing, ..run },
            FragmentStepView::WriteIndex,
        ),
    }
}

/// A run that reads its current segment, or closes where there is none.
pub open spec fn proceeding(run: RunView) -> (RunView, FragmentStepView) {
    if run.current < run.segment_count {
        (
            RunView { phase: FragmentPhase::Reading, ..run },
            FragmentStepView::ReadSegment(run.current),
        )
    } else {
        closing(run)
    }
}

/// A run whose first segment determines the tracks.
pub open spec fn tracks_decided(
    run: RunView,
    first: DemuxView,
    accepted: Result<(), ErrorView>,
) -> (RunView, FragmentStepView) {
    match first_tracks(first, accepted) {
        Err(error) => failed(run, error),
        Ok(tracks) => (
            RunView { phase: FragmentPhase::Heading, tracks: Some(tracks), ..run },
            FragmentStepView::WriteHeader,
        ),
    }
}

/// A run whose current segment was demuxed. The first one determines the tracks.
pub open spec fn after_demux(run: RunView, demuxed: Result<DemuxView, ErrorView>) -> (
    RunView,
    FragmentStepView,
) {
    match demuxed {
        Err(error) => failed(run, error),
        Ok(demuxed) => {
            let seen = RunView {
                session: observed(run.session, demuxed.packets),
                demuxed: Some(demuxed),
                fidelity: watched(run.fidelity, demuxed),
                ..run
            };
            if seen.session.tracks is Some {
                (
                    RunView { phase: FragmentPhase::Converting, ..seen },
                    FragmentStepView::ConvertPackets,
                )
            } else {
                match first_video_parameters(demuxed) {
                    Err(error) => failed(seen, error),
                    Ok(Some(parameters)) => (
                        RunView { phase: FragmentPhase::Checking, ..seen },
                        FragmentStepView::CheckParameters(parameters),
                    ),
                    Ok(None) => tracks_decided(seen, demuxed, Ok(())),
                }
            }
        },
    }
}

/// A run whose header was written, with this size.
pub open spec fn after_header(run: RunView, written: Result<usize, ErrorView>) -> (
    RunView,
    FragmentStepView,
) {
    match written {
        Err(error) => failed(run, error),
        Ok(size) => (
            RunView {
                session: started(run.session, run.tracks->0, size as nat),
                phase: FragmentPhase::Converting,
                tracks: None,
                ..run
            },
            FragmentStepView::ConvertPackets,
        ),
    }
}

/// The samples of each track among the packets of one segment.
pub open spec fn grouped_samples(
    packets: Seq<PacketView>,
    converted: Seq<Result<Seq<u8>, ErrorView>>,
    layout: TrackLayout,
    base: u64,
) -> Seq<Seq<SampleView>> {
    Seq::new(
        layout.tracks() as nat,
        |t: int| track_samples(packets, converted, layout, base, t),
    )
}

/// A run whose samples are grouped. Video samples need durations first, if there
/// are any.
pub open spec fn samples_grouped(run: RunView) -> (RunView, FragmentStepView) {
    match run.session.layout.video_index {
        Some(index) => if run.samples[index as int].len() > 0 {
            (
                RunView { phase: FragmentPhase::Timing, ..run },
                FragmentStepView::FindDurations(index),
            )
        } else {
            (RunView { phase: FragmentPhase::Writing, ..run }, FragmentStepView::WriteFragment)
        },
        None => (
            RunView { phase: FragmentPhase::Writing, ..run },
            FragmentStepView::WriteFragment,
        ),
    }
}

/// A run whose packets were converted.
pub open spec fn after_conversion(
    run: RunView,
    converted: Seq<Result<Seq<u8>, ErrorView>>,
) -> (RunView, FragmentStepView) {
    let packets = run.demuxed->0.packets;
    match conversion_error(packets, converted) {
        Some(error) => failed(run, error),
        None => samples_grouped(
            RunView {
                samples: grouped_samples(
                    packets,
                    converted,
                    run.session.layout,
                    base_of(run.session),
                ),
                ..run
            },
        ),
    }
}

/// A run whose video samples have these durations.
pub open spec fn after_durations(run: RunView, found: Result<Seq<u32>, ErrorView>) -> (
    RunView,
    FragmentStepView,
) {
    let index = run.session.layout.video_index->0 as int;
    match found {
        Err(error) => failed(run, error),
        Ok(durations) => (
            RunView {
                samples: run.samples.update(index, timed(run.samples[index], durations)),
                phase: FragmentPhase::Writing,
                ..run
            },
            FragmentStepView::WriteFragment,
        ),
    }
}

/// A run whose fragment was written: these are its bytes.
pub open spec fn after_fragment(run: RunView, written: Result<Seq<u8>, ErrorView>) -> (
    RunView,
    FragmentStepView,
) {
    match written {
        Err(error) => failed(run, error),
        Ok(fragment) => proceeding(
            RunView {
                session: with_fragment(
                    run.session,
                    run.samples,
                    fragment,
                    run.demuxed->0.packets,
                ),
                current: (run.current + 1) as usize,
                ..run
            },
        ),
    }
}

/// A run whose index was written, with this size.
pub open spec fn after_index(run: RunView, written: Result<usize, ErrorView>) -> (
    RunView,
    FragmentStepView,
) {
    match written {
        Err(error) => failed(run, error),
        Ok(size) => (
            ended(run),
            FragmentStepView::Finished(
                Ok(
                    ReportView {
                        segment_count: run.segment_count,
                        tracks: Seq::empty(),
                        duration: run.session.max_duration_ms,
                        duration_timescale: 1000,
                        bytes_written: (run.session.bytes_written + size) as u64,
                    },
                ),
            ),
        ),
    }
}

/// The value of a fallible size in contracts.
pub open spec fn size_outcome(outcome: Result<usize, Error>) -> Result<usize, ErrorView> {
    match outcome {
        Ok(size) => Ok(size),
        Err(error) => Err(error@),
    }
}

/// The value of fallible durations in contracts.
pub open spec fn durations_outcome(outcome: Result<Vec<u32>, Error>) -> Result<
    Seq<u32>,
    ErrorView,
> {
    match outcome {
        Ok(durations) => Ok(durations@),
        Err(error) => Err(error@),
    }
}

/// The value of a fallible demuxing in contracts.
pub open spec fn demux_outcome(outcome: Result<DemuxOutput, Error>) -> Result<
    DemuxView,
    ErrorView,
> {
    match outcome {
        Ok(demuxed) => Ok(demuxed@),
        Err(error) => Err(error@),
    }
}

impl FragmentRun {
    /// A run over `segment_count` segments, and its first step.
    pub fn begin(segment_count: usize) -> (begun: (FragmentRun, FragmentStep))
        ensures
            run_invariant(begun.0@),
            (begun.0@, begun.1@) == proceeding(
                RunView {
                    session: fresh_session(),
                    segment_count,
                    current: 0,
                    phase: FragmentPhase::Reading,
                    demuxed: None,
                    tracks: None,
                    samples: Seq::empty(),
                    fidelity: fresh_fidelity(),
                },
            ),
    {
        let mut run = FragmentRun {
            session: FragmentSession::new(),
            segment_count,
            current: 0,
            phase: FragmentPhase::Reading,
            demuxed: None,
            tracks: None,
            samples: Vec::new(),
            fidelity: Fidelity::new(),
        };
        assert(run@.samples =~= Seq::empty());
        let step: FragmentStep = run.proceed();
        (run, step)
    }

    fn fail(&mut self, error: Error) -> (step: FragmentStep)
        ensures
            (final(self)@, step@) == failed(old(self)@, error@),
    {
        self.phase = FragmentPhase::Done;
        FragmentStep::Finished(Err(error))
    }

    fn proceed(&mut self) -> (step: FragmentStep)
        ensures
            (final(self)@, step@) == proceeding(old(self)@),
    {
        if self.current < self.segment_count {
            self.phase = FragmentPhase::Reading;
            return FragmentStep::ReadSegment(self.current);
        }
        match self.session.check_close() {
            Err(error) => self.fail(error),
            Ok(_) => {
                self.phase = FragmentPhase::Indexing;
                FragmentStep::WriteIndex
            },
        }
    }

    fn decide_tracks(&mut self, accepted: Result<(), Error>) -> (step: FragmentStep)
        requires
            old(self)@.demuxed is Some,
            old(self)@.session.tracks is Some ==> fits(
                old(self)@.session.layout,
                old(self)@.session.tfra.len(),
            ),
            old(self)@.current < old(self)@.segment_count,
        ensures
            run_invariant(final(self)@),
            (final(self)@, step@) == tracks_decided(
                old(self)@,
                old(self)@.demuxed->0,
                acceptance(accepted),
            ),
    {
        proof {
            let first = self@.demuxed->0;
            if first_tracks(first, acceptance(accepted)) is Ok {
                lemma_first_tracks_layout(first, acceptance(accepted));
            }
        }
        let built: Result<Vec<FragmentedTrack>, Error> = match &self.demuxed {
            Some(demuxed) => build_fragmented_tracks(demuxed, accepted),
            None => Err(Error::invalid("no segments were processed")),
        };
        match built {
            Err(error) => self.fail(error),
            Ok(tracks) => {
                self.phase = FragmentPhase::Heading;
                self.tracks = Some(tracks);
                FragmentStep::WriteHeader
            },
        }
    }

    /// Tests whether the segments so far can be laid out as a standard MP4 all at
    /// once, and the fragments do not hold its samples.
    pub fn differs_from_standard(&self) -> (yes: bool)
        ensures
            yes == differs(self@.fidelity),
    {
        self.fidelity.differs()
    }

    /// Goes on after the current segment was demuxed, or could not be.
    pub fn on_demuxed(&mut self, demuxed: Result<DemuxOutput, Error>) -> (step: FragmentStep)
        requires
            run_invariant(old(self)@),
            old(self)@.phase == FragmentPhase::Reading,
        ensures
            run_invariant(final(self)@),
            (final(self)@, step@) == after_demux(old(self)@, demux_outcome(demuxed)),
    {
        let demuxed: DemuxOutput = match demuxed {
            Ok(demuxed) => demuxed,
            Err(error) => {
                return self.fail(error);
            },
        };
        let _base: u64 = self.session.observe(&demuxed.packets);
        self.fidelity.watch(&demuxed);
        if self.session.is_started() {
            self.demuxed = Some(demuxed);
            self.phase = FragmentPhase::Converting;
            return FragmentStep::ConvertPackets;
        }
        let parameters: Result<Option<VideoParameters>, Error> = video_parameters(&demuxed);
        self.demuxed = Some(demuxed);
        match parameters {
            Err(error) => self.fail(error),
            Ok(Some(parameters)) => {
                self.phase = FragmentPhase::Checking;
                FragmentStep::CheckParameters(parameters)
            },
            Ok(None) => self.decide_tracks(Ok(())),
        }
    }

    /// Goes on after the parameter sets of the first segment were checked.
    pub fn on_checked(&mut self, accepted: Result<(), Error>) -> (step: FragmentStep)
        requires
            run_invariant(old(self)@),
            old(self)@.phase == FragmentPhase::Checking,
        ensures
            run_invariant(final(self)@),
            (final(self)@, step@) == tracks_decided(
                old(self)@,
                old(self)@.demuxed->0,
                acceptance(accepted),
            ),
    {
        self.decide_tracks(accepted)
    }

    /// Goes on after the header was written, with its size.
    pub fn on_header(&mut self, written: Result<usize, Error>) -> (step: FragmentStep)
        requires
            run_invariant(old(self)@),
            old(self)@.phase == FragmentPhase::Heading,
            written matches Ok(size) ==> old(self)@.session.bytes_written + size <= u64::MAX,
        ensures
            run_invariant(final(self)@),
            (final(self)@, step@) == after_header(old(self)@, size_outcome(written)),
    {
        let size: usize = match written {
            Ok(size) => size,
            Err(error) => {
                return self.fail(error);
            },
        };
        if let Some(tracks) = self.tracks.take() {
            self.session.start(tracks, size);
        }
        self.phase = FragmentPhase::Converting;
        FragmentStep::ConvertPackets
    }

    /// Goes on after the packets of the current segment were converted.
    /// `converted[i]` is what converting packet `i` gave, where it needed that.
    pub fn on_converted(&mut self, converted: &Vec<Result<Vec<u8>, Error>>) -> (step: FragmentStep)
        requires
            run_invariant(old(self)@),
            old(self)@.phase == FragmentPhase::Converting,
            converted@.len() == old(self)@.demuxed->0.packets.len(),
        ensures
            run_invariant(final(self)@),
            (final(self)@, step@) == after_conversion(old(self)@, conversions(converted@)),
    {
        let base: u64 = match self.session.base_dts_90k {
            Some(base) => base,
            None => 0,
        };
        let grouped: Result<Vec<Vec<Mp4Sample>>, Error> = match &self.demuxed {
            Some(demuxed) => group_samples_per_track(
                &demuxed.packets,
                converted,
                &self.session.layout,
                base,
            ),
            None => Err(Error::invalid("no segments were processed")),
        };
        match grouped {
            Err(error) => self.fail(error),
            Ok(samples) => {
                self.samples = samples;
                assert(self@.samples =~= grouped_samples(
                    old(self)@.demuxed->0.packets,
                    conversions(converted@),
                    self@.session.layout,
                    base,
                ));
                if let Some(index) = self.session.layout.video_index {
                    if self.samples[index].len() > 0 {
                        self.phase = FragmentPhase::Timing;
                        return FragmentStep::FindDurations(index);
                    }
                }
                self.phase = FragmentPhase::Writing;
                FragmentStep::WriteFragment
            },
        }
    }

    /// Goes on after the durations of the video samples were found, one for each.
    pub fn on_durations(&mut self, found: Result<Vec<u32>, Error>) -> (step: FragmentStep)
        requires
            run_invariant(old(self)@),
            old(self)@.phase == FragmentPhase::Timing,
            found matches Ok(durations) ==> durations@.len() == old(self)@.samples[old(
                self,
            )@.session.layout.video_index->0 as int].len(),
        ensures
            run_invariant(final(self)@),
            (final(self)@, step@) == after_durations(old(self)@, durations_outcome(found)),
    {
        let durations: Vec<u32> = match found {
            Ok(durations) => durations,
            Err(error) => {
                return self.fail(error);
            },
        };
        if let Some(index) = self.session.layout.video_index {
            let ghost before = self@.samples;
            assert(before[index as int] == sample_views(self.samples@[index as int]@));
            set_durations(&mut self.samples[index], &durations);
            assert(self@.samples =~= before.update(
                index as int,
                timed(before[index as int], durations@),
            ));
        }
        self.phase = FragmentPhase::Writing;
        FragmentStep::WriteFragment
    }

    /// Goes on after the fragment of the current segment was written, with its
    /// bytes.
    pub fn on_fragment(&mut self, written: Result<Vec<u8>, Error>) -> (step: FragmentStep)
        requires
            run_invariant(old(self)@),
            old(self)@.phase == FragmentPhase::Writing,
            written matches Ok(fragment) ==> {
                &&& fragment@.len() >= 4
                &&& old(self)@.session.bytes_written + fragment@.len() <= u64::MAX
                &&& forall|t: int|
                    0 <= t < old(self)@.samples.len() && (#[trigger] old(self)@.samples[t]).len() > 0
                        ==> old(self)@.session.bytes_written + be32(fragment@, 0) <= u64::MAX
            },
        ensures
            run_invariant(final(self)@),
            (final(self)@, step@) == after_fragment(
                old(self)@,
                outcome_view(written),
            ),
    {
        let fragment: Vec<u8> = match written {
            Ok(fragment) => fragment,
            Err(error) => {
                return self.fail(error);
            },
        };
        assert forall|t: int|
            0 <= t < self.samples@.len() && (#[trigger] self.samples@[t])@.len()
                > 0 implies self@.session.bytes_written + be32(fragment@, 0) <= u64::MAX by {
            assert(self@.samples[t].len() > 0);
        }
        if let Some(demuxed) = &self.demuxed {
            self.session.add_fragment(&self.samples, &fragment, &demuxed.packets);
        }
        self.current = self.current + 1;
        self.proceed()
    }

    /// Goes on after the random access index was written, with its size.
    pub fn on_index(&mut self, written: Result<usize, Error>) -> (step: FragmentStep)
        requires
            run_invariant(old(self)@),
            old(self)@.phase == FragmentPhase::Indexing,
            written matches Ok(size) ==> old(self)@.session.bytes_written + size <= u64::MAX,
        ensures
            run_invariant(final(self)@),
            (final(self)@, step@) == after_index(old(self)@, size_outcome(written)),
    {
        match written {
            Err(error) => self.fail(error),
            Ok(size) => {
                self.phase = FragmentPhase::Done;
                FragmentStep::Finished(Ok(self.session.report(self.segment_count, size)))
            },
        }
    }
}

/// A run over no segment at all ends with an error.
pub proof fn lemma_empty_run_fails(run: RunView)
    requires
        run.session == fresh_session(),
        run.segment_count == 0,
    ensures
        proceeding(run) == failed(
            run,
            ErrorView::InvalidInput("no segments were processed"@),
        ),
{
}

/// Whatever step fails, the run ends there with that error.
pub proof fn lemma_failure_ends_run(run: RunView, error: ErrorView)
    ensures
        after_demux(run, Err(error)) == failed(run, error),
        after_header(run, Err(error)) == failed(run, error),
        after_durations(run, Err(error)) == failed(run, error),
        after_fragment(run, Err(error)) == failed(run, error),
        after_index(run, Err(error)) == failed(run, error),
{
}

/// Durations leave everything else of the samples as it is.
pub proof fn lemma_durations_keep_samples(run: RunView, durations: Seq<u32>)
    requires
        run_invariant(run),
        run.phase == FragmentPhase::Timing,
    ensures
        ({
            let after = after_durations(run, Ok(durations)).0;
            &&& after.samples.len() == run.samples.len()
            &&& forall|t: int| #![trigger after.samples[t]]
                0 <= t < run.samples.len() ==> after.samples[t].len() == run.samples[t].len()
            &&& forall|t: int, k: int| #![trigger after.samples[t][k]]
                0 <= t < run.samples.len() && 0 <= k < run.samples[t].len() ==> (SampleView {
                    duration: run.samples[t][k].duration,
                    ..after.samples[t][k]
                }) == run.samples[t][k]
            &&& after.session == run.session
        }),
{
}

/// The header is written once, before the first fragment: where it is written,
/// later segments go straight to their fragments, and where packets are converted
/// or fragments written, it is.
pub proof fn lemma_header_comes_once(run: RunView, demuxed: DemuxView)
    requires
        run_invariant(run),
    ensures
        run.session.tracks is Some ==> after_demux(run, Ok(demuxed)).1
            == FragmentStepView::ConvertPackets,
        run.session.tracks is None && run.phase == FragmentPhase::Reading ==> after_demux(
            run,
            Ok(demuxed),
        ).1 != FragmentStepView::ConvertPackets,
        run.phase == FragmentPhase::Converting ==> run.session.tracks is Some,
        run.phase == FragmentPhase::Writing ==> run.session.tracks is Some,
{
}

/// The segments are read one after the other, each once, and the index is written
/// after the last one.
pub proof fn lemma_segments_in_order(run: RunView, fragment: Seq<u8>)
    requires
        run_invariant(run),
        run.phase == FragmentPhase::Writing,
    ensures
        run.current + 1 < run.segment_count ==> after_fragment(run, Ok(fragment)).1
            == FragmentStepView::ReadSegment((run.current + 1) as usize),
        run.current + 1 == run.segment_count && run.session.tfra.len() > 0 ==> after_fragment(
            run,
            Ok(fragment),
        ).1 == FragmentStepView::WriteIndex,
{
}

} // verus!
