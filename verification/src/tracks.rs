//! The tracks of a fragmented MP4, as the first segment determines them.

use crate::error::{Error, ErrorView};
use crate::samples::TrackLayout;
use crate::types::{
    track_views, DemuxOutput, DemuxView, FragmentedTrack, FragmentedTrackKind, TrackKindView,
    TrackView, VideoParameters, VideoParametersView,
};
use vstd::prelude::*;

verus! {

/// Index of the last video track.
pub open spec fn last_video(tracks: Seq<TrackView>) -> Option<usize>
    decreases tracks.len(),
{
    if tracks.len() == 0 {
        None
    } else if tracks.last().kind is Video {
        Some((tracks.len() - 1) as usize)
    } else {
        last_video(tracks.drop_last())
    }
}

/// Index of the last audio track.
pub open spec fn last_audio(tracks: Seq<TrackView>) -> Option<usize>
    decreases tracks.len(),
{
    if tracks.len() == 0 {
        None
    } else if tracks.last().kind is Audio {
        Some((tracks.len() - 1) as usize)
    } else {
        last_audio(tracks.drop_last())
    }
}

/// The layout of a list of tracks.
pub open spec fn layout_of(tracks: Seq<TrackView>) -> TrackLayout {
    TrackLayout {
        video_index: last_video(tracks),
        audio_index: last_audio(tracks),
        audio_timescale: match last_audio(tracks) {
            Some(index) => tracks[index as int].kind->Audio_sample_rate,
            None => 0,
        },
    }
}

impl TrackLayout {
    /// Finds the video and the audio track in a list. Of several tracks of one
    /// kind the last one counts. The audio timescale is the sample rate.
    pub fn from_tracks(tracks: &Vec<FragmentedTrack>) -> (layout: TrackLayout)
        ensures
            layout == layout_of(track_views(tracks@)),
    {
        let mut layout = TrackLayout { video_index: None, audio_index: None, audio_timescale: 0 };
        let ghost views = track_views(tracks@);
        let mut index: usize = 0;
        assert(views.take(0) =~= Seq::empty());
        while index < tracks.len()
            invariant
                index <= tracks@.len(),
                views == track_views(tracks@),
                layout == layout_of(views.take(index as int)),
                layout.audio_index matches Some(a) ==> a < index,
            decreases tracks@.len() - index,
        {
            let ghost before = views.take(index as int);
            let ghost after = views.take(index + 1);
            assert(after.drop_last() =~= before);
            assert(after.last() == views[index as int]);
            match &tracks[index].kind {
                FragmentedTrackKind::Video { .. } => {
                    layout.video_index = Some(index);
                },
                FragmentedTrackKind::Audio { sample_rate, .. } => {
                    layout.audio_index = Some(index);
                    layout.audio_timescale = *sample_rate;
                },
            }
            assert(layout.audio_index matches Some(a) ==> a < index ==> after[a as int]
                == before[a as int]);
            index = index + 1;
        }
        assert(views.take(views.len() as int) =~= views);
        layout
    }
}

/// The parameter sets of the video stream in the first segment: `Ok(None)`
/// where there is no video. A stream with a VPS is HEVC.
pub open spec fn first_video_parameters(first: DemuxView) -> Result<
    Option<VideoParametersView>,
    ErrorView,
> {
    if !first.saw_video {
        Ok(None)
    } else {
        match (first.vps, first.sps, first.pps) {
            (Some(vps), Some(sps), Some(pps)) => Ok(
                Some(VideoParametersView::Hevc { vps, sps, pps }),
            ),
            (Some(_), None, _) => Err(
                ErrorView::Bitstream("HEVC SPS was not found in first segment"@),
            ),
            (Some(_), Some(_), None) => Err(
                ErrorView::Bitstream("HEVC PPS was not found in first segment"@),
            ),
            (None, Some(sps), Some(pps)) => Ok(Some(VideoParametersView::Avc { sps, pps })),
            (None, None, _) => Err(
                ErrorView::Bitstream("H.264 SPS was not found in first segment"@),
            ),
            (None, Some(_), None) => Err(
                ErrorView::Bitstream("H.264 PPS was not found in first segment"@),
            ),
        }
    }
}

/// The value of an outcome of [`video_parameters`] in contracts.
pub open spec fn parameters_outcome(outcome: Result<Option<VideoParameters>, Error>) -> Result<
    Option<VideoParametersView>,
    ErrorView,
> {
    match outcome {
        Ok(Some(parameters)) => Ok(Some(parameters@)),
        Ok(None) => Ok(None),
        Err(error) => Err(error@),
    }
}

/// Copies a byte string.
fn copy_bytes(bytes: &Vec<u8>) -> (copy: Vec<u8>)
    ensures
        copy@ == bytes@,
{
    let copy: Vec<u8> = bytes.clone();
    assert(copy@ =~= bytes@);
    copy
}

/// Gathers the parameter sets of the video stream in the first segment, if it
/// has one.
pub fn video_parameters(first: &DemuxOutput) -> (parameters: Result<
    Option<VideoParameters>,
    Error,
>)
    ensures
        parameters_outcome(parameters) == first_video_parameters(first@),
{
    if !first.saw_video {
        return Ok(None);
    }
    match &first.vps {
        Some(vps) => {
            match &first.sps {
                None => Err(Error::bitstream("HEVC SPS was not found in first segment")),
                Some(sps) => match &first.pps {
                    None => Err(Error::bitstream("HEVC PPS was not found in first segment")),
                    Some(pps) => Ok(
                        Some(
                            VideoParameters::Hevc {
                                vps: copy_bytes(vps),
                                sps: copy_bytes(sps),
                                pps: copy_bytes(pps),
                            },
                        ),
                    ),
                },
            }
        },
        None => {
            match &first.sps {
                None => Err(Error::bitstream("H.264 SPS was not found in first segment")),
                Some(sps) => match &first.pps {
                    None => Err(Error::bitstream("H.264 PPS was not found in first segment")),
                    Some(pps) => Ok(
                        Some(
                            VideoParameters::Avc { sps: copy_bytes(sps), pps: copy_bytes(pps) },
                        ),
                    ),
                },
            }
        },
    }
}

/// The audio track of the first segment under a track id: `Ok(None)` where there
/// is no audio.
pub open spec fn first_audio_track(first: DemuxView, track_id: u32) -> Result<
    Option<TrackView>,
    ErrorView,
> {
    if !first.saw_audio {
        Ok(None)
    } else {
        match (first.sample_rate, first.channel_count, first.audio_specific_config) {
            (Some(sample_rate), Some(channel_count), Some(audio_specific_config)) => Ok(
                Some(
                    TrackView {
                        track_id,
                        kind: TrackKindView::Audio {
                            sample_rate,
                            channel_count,
                            audio_specific_config,
                        },
                    },
                ),
            ),
            (None, _, _) => Err(
                ErrorView::Bitstream("AAC sample rate was not found in first segment"@),
            ),
            (Some(_), None, _) => Err(
                ErrorView::Bitstream("AAC channel count was not found in first segment"@),
            ),
            (Some(_), Some(_), None) => Err(
                ErrorView::Bitstream("AAC AudioSpecificConfig was not found in first segment"@),
            ),
        }
    }
}

/// The tracks that the first segment determines, video before audio, with track
/// ids from 1.
pub open spec fn first_tracks(first: DemuxView, accepted: Result<(), ErrorView>) -> Result<
    Seq<TrackView>,
    ErrorView,
> {
    match (first_video_parameters(first), accepted) {
        (Err(error), _) => Err(error),
        (Ok(Some(_)), Err(error)) => Err(error),
        (Ok(Some(parameters)), Ok(_)) => {
            let video = TrackView { track_id: 1, kind: TrackKindView::Video { parameters } };
            match first_audio_track(first, 2) {
                Err(error) => Err(error),
                Ok(Some(audio)) => Ok(seq![video, audio]),
                Ok(None) => Ok(seq![video]),
            }
        },
        (Ok(None), _) => match first_audio_track(first, 1) {
            Err(error) => Err(error),
            Ok(Some(audio)) => Ok(seq![audio]),
            Ok(None) => Err(ErrorView::InvalidInput("first segment produced no tracks"@)),
        },
    }
}

/// The value of the verdict on the parameter sets in contracts.
pub open spec fn acceptance(accepted: Result<(), Error>) -> Result<(), ErrorView> {
    match accepted {
        Ok(_) => Ok(()),
        Err(error) => Err(error@),
    }
}

/// The value of a list of tracks, or of why there is none, in contracts.
pub open spec fn tracks_outcome(outcome: Result<Vec<FragmentedTrack>, Error>) -> Result<
    Seq<TrackView>,
    ErrorView,
> {
    match outcome {
        Ok(tracks) => Ok(track_views(tracks@)),
        Err(error) => Err(error@),
    }
}

/// Builds the tracks of a fragmented MP4 from the first segment: a video track
/// if it shows video, then an audio track if it shows audio.
///
/// `accepted` is the verdict of the codec layer on the parameter sets that
/// [`video_parameters`] gives. It is looked at only where there are any.
pub fn build_fragmented_tracks(first: &DemuxOutput, accepted: Result<(), Error>) -> (built: Result<
    Vec<FragmentedTrack>,
    Error,
>)
    ensures
        tracks_outcome(built) == first_tracks(first@, acceptance(accepted)),
{
    let mut tracks: Vec<FragmentedTrack> = Vec::new();
    let mut next_track_id: u32 = 1;
    match video_parameters(first) {
        Err(error) => {
            return Err(error);
        },
        Ok(Some(parameters)) => {
            match accepted {
                Err(error) => {
                    return Err(error);
                },
                Ok(_) => {},
            }
            tracks.push(
                FragmentedTrack {
                    track_id: next_track_id,
                    kind: FragmentedTrackKind::Video { parameters },
                },
            );
            next_track_id = 2;
        },
        Ok(None) => {},
    }
    if first.saw_audio {
        let sample_rate: u32 = match first.sample_rate {
            Some(rate) => rate,
            None => {
                return Err(Error::bitstream("AAC sample rate was not found in first segment"));
            },
        };
        let channel_count: u8 = match first.channel_count {
            Some(count) => count,
            None => {
                return Err(Error::bitstream("AAC channel count was not found in first segment"));
            },
        };
        let audio_specific_config: Vec<u8> = match &first.audio_specific_config {
            Some(config) => copy_bytes(config),
            None => {
                return Err(
                    Error::bitstream("AAC AudioSpecificConfig was not found in first segment"),
                );
            },
        };
        tracks.push(
            FragmentedTrack {
                track_id: next_track_id,
                kind: FragmentedTrackKind::Audio {
                    sample_rate,
                    channel_count,
                    audio_specific_config,
                },
            },
        );
    }
    if tracks.len() == 0 {
        return Err(Error::invalid("first segment produced no tracks"));
    }
    proof {
        let wanted = first_tracks(first@, acceptance(accepted));
        assert(wanted is Ok);
        assert(track_views(tracks@) =~= wanted->Ok_0);
    }
    Ok(tracks)
}

/// The tracks of a first segment have ids 1, 2 and so on, and their layout
/// counts exactly them and points at them: grouping samples by that layout gives
/// one list per track.
pub proof fn lemma_first_tracks_layout(first: DemuxView, accepted: Result<(), ErrorView>)
    requires
        first_tracks(first, accepted) is Ok,
    ensures
        ({
            let tracks = first_tracks(first, accepted)->Ok_0;
            let layout = layout_of(tracks);
            &&& 1 <= tracks.len() <= 2
            &&& layout.tracks() == tracks.len()
            &&& layout.in_bounds()
            &&& layout.video_index is Some <==> first.saw_video
            &&& layout.audio_index is Some <==> first.saw_audio
            &&& layout.video_index matches Some(v) ==> tracks[v as int].kind is Video
            &&& layout.audio_index matches Some(a) ==> {
                &&& tracks[a as int].kind is Audio
                &&& layout.audio_timescale == first.sample_rate->0
            }
            &&& forall|i: int| 0 <= i < tracks.len() ==> (#[trigger] tracks[i]).track_id == i + 1
        }),
{
    reveal_with_fuel(last_video, 3);
    reveal_with_fuel(last_audio, 3);
    let tracks = first_tracks(first, accepted)->Ok_0;
    if tracks.len() == 2 {
        assert(tracks.drop_last() =~= seq![tracks[0]]);
        assert(tracks.drop_last().drop_last() =~= Seq::empty());
    } else {
        assert(tracks.drop_last() =~= Seq::empty());
    }
}

} // verus!
