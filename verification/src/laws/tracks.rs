//! Which tracks the first segment determines.

use crate::error::ErrorView;
use crate::tracks::{
    first_audio_track, first_tracks, first_video_parameters, last_audio, last_video, layout_of,
};
use crate::types::{DemuxView, TrackKindView, TrackView, VideoParametersView};
use vstd::prelude::*;

verus! {

/// The video index points at a video track behind which there is none, and there is one
/// exactly where there is a video track.
pub proof fn lemma_video_index(tracks: Seq<TrackView>)
    requires
        tracks.len() <= usize::MAX,
    ensures
        match last_video(tracks) {
            Some(v) => {
                &&& v < tracks.len()
                &&& tracks[v as int].kind is Video
                &&& forall|i: int| v < i < tracks.len() ==> (#[trigger] tracks[i]).kind is Audio
            },
            None => forall|i: int| 0 <= i < tracks.len() ==> (#[trigger] tracks[i]).kind is Audio,
        },
    decreases tracks.len(),
{
    if tracks.len() > 0 {
        let before = tracks.drop_last();
        lemma_video_index(before);
        assert(tracks[tracks.len() - 1] == tracks.last());
        assert(forall|i: int| 0 <= i < tracks.len() - 1 ==> #[trigger] tracks[i] == before[i]);
    }
}

/// The audio index points at an audio track behind which there is none, and there is
/// one exactly where there is an audio track.
pub proof fn lemma_audio_index(tracks: Seq<TrackView>)
    requires
        tracks.len() <= usize::MAX,
    ensures
        match last_audio(tracks) {
            Some(a) => {
                &&& a < tracks.len()
                &&& tracks[a as int].kind is Audio
                &&& forall|i: int| a < i < tracks.len() ==> (#[trigger] tracks[i]).kind is Video
            },
            None => forall|i: int| 0 <= i < tracks.len() ==> (#[trigger] tracks[i]).kind is Video,
        },
    decreases tracks.len(),
{
    if tracks.len() > 0 {
        let before = tracks.drop_last();
        lemma_audio_index(before);
        assert(tracks[tracks.len() - 1] == tracks.last());
        assert(forall|i: int| 0 <= i < tracks.len() - 1 ==> #[trigger] tracks[i] == before[i]);
    }
}

/// The layout of tracks has those indices, and counts audio in the sample rate of the
/// audio track.
pub proof fn lemma_layout(tracks: Seq<TrackView>)
    requires
        tracks.len() <= usize::MAX,
    ensures
        ({
            let layout = layout_of(tracks);
            &&& layout.video_index matches Some(v) ==> v < tracks.len() && tracks[v as int].kind
                is Video
            &&& layout.audio_index matches Some(a) ==> {
                &&& a < tracks.len()
                &&& tracks[a as int].kind matches TrackKindView::Audio { sample_rate, .. }
                &&& layout.audio_timescale == sample_rate
            }
            &&& layout.video_index is None ==> forall|i: int|
                0 <= i < tracks.len() ==> (#[trigger] tracks[i]).kind is Audio
            &&& layout.audio_index is None ==> layout.audio_timescale == 0 && forall|i: int|
                0 <= i < tracks.len() ==> (#[trigger] tracks[i]).kind is Video
        }),
{
    lemma_video_index(tracks);
    lemma_audio_index(tracks);
}

/// The parameter sets of the video are those of the first segment. There are some
/// exactly where the segment shows video and has an SPS and a PPS; with a VPS they are
/// those of HEVC.
pub proof fn lemma_first_parameters(first: DemuxView)
    ensures
        match first_video_parameters(first) {
            Ok(None) => !first.saw_video,
            Ok(Some(VideoParametersView::Avc { sps, pps })) => {
                &&& first.saw_video
                &&& first.vps is None
                &&& first.sps == Some(sps)
                &&& first.pps == Some(pps)
            },
            Ok(Some(VideoParametersView::Hevc { vps, sps, pps })) => {
                &&& first.saw_video
                &&& first.vps == Some(vps)
                &&& first.sps == Some(sps)
                &&& first.pps == Some(pps)
            },
            Err(error) => {
                &&& first.saw_video
                &&& first.sps is None || first.pps is None
                &&& error == ErrorView::Bitstream(
                    if first.vps is Some && first.sps is None {
                        "HEVC SPS was not found in first segment"@
                    } else if first.vps is Some {
                        "HEVC PPS was not found in first segment"@
                    } else if first.sps is None {
                        "H.264 SPS was not found in first segment"@
                    } else {
                        "H.264 PPS was not found in first segment"@
                    },
                )
            },
        },
{
}

/// The audio track has the parameters of the first segment. There is one exactly where
/// the segment shows audio and has all of them.
pub proof fn lemma_first_audio(first: DemuxView, track_id: u32)
    ensures
        match first_audio_track(first, track_id) {
            Ok(None) => !first.saw_audio,
            Ok(Some(track)) => {
                &&& first.saw_audio
                &&& track.track_id == track_id
                &&& track.kind matches TrackKindView::Audio {
                    sample_rate,
                    channel_count,
                    audio_specific_config,
                }
                &&& first.sample_rate == Some(sample_rate)
                &&& first.channel_count == Some(channel_count)
                &&& first.audio_specific_config == Some(audio_specific_config)
            },
            Err(error) => {
                &&& first.saw_audio
                &&& first.sample_rate is None || first.channel_count is None
                    || first.audio_specific_config is None
                &&& error == ErrorView::Bitstream(
                    if first.sample_rate is None {
                        "AAC sample rate was not found in first segment"@
                    } else if first.channel_count is None {
                        "AAC channel count was not found in first segment"@
                    } else {
                        "AAC AudioSpecificConfig was not found in first segment"@
                    },
                )
            },
        },
{
}

/// A first segment gives a video track exactly where it shows video and an audio track
/// exactly where it shows audio, video first, with its own parameters and with the ids
/// that the places in the list give.
pub proof fn lemma_tracks_of_first(first: DemuxView, accepted: Result<(), ErrorView>)
    ensures
        match first_tracks(first, accepted) {
            Ok(tracks) => {
                let audio = if first.saw_video {
                    1int
                } else {
                    0
                };
                &&& tracks.len() == audio + (if first.saw_audio {
                    1int
                } else {
                    0
                })
                &&& tracks.len() > 0
                &&& first.saw_video ==> {
                    &&& accepted is Ok
                    &&& tracks[0].track_id == 1
                    &&& tracks[0].kind matches TrackKindView::Video { parameters }
                    &&& match parameters {
                        VideoParametersView::Avc { sps, pps } => {
                            &&& first.vps is None
                            &&& first.sps == Some(sps)
                            &&& first.pps == Some(pps)
                        },
                        VideoParametersView::Hevc { vps, sps, pps } => {
                            &&& first.vps == Some(vps)
                            &&& first.sps == Some(sps)
                            &&& first.pps == Some(pps)
                        },
                    }
                }
                &&& first.saw_audio ==> {
                    &&& tracks[audio].track_id == audio + 1
                    &&& tracks[audio].kind matches TrackKindView::Audio {
                        sample_rate,
                        channel_count,
                        audio_specific_config,
                    }
                    &&& first.sample_rate == Some(sample_rate)
                    &&& first.channel_count == Some(channel_count)
                    &&& first.audio_specific_config == Some(audio_specific_config)
                }
            },
            Err(error) => {
                let no_video = first.saw_video && (first.sps is None || first.pps is None);
                let no_audio = first.saw_audio && (first.sample_rate is None
                    || first.channel_count is None || first.audio_specific_config is None);
                let refused = first.saw_video && accepted is Err;
                let nothing = !first.saw_video && !first.saw_audio;
                &&& no_video || refused || no_audio || nothing
                &&& !no_video && refused ==> error == accepted->Err_0
                &&& no_video || (!refused && no_audio) ==> error is Bitstream
                &&& nothing ==> error == ErrorView::InvalidInput(
                    "first segment produced no tracks"@,
                )
            },
        },
{
}

} // verus!
