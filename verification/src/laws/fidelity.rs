//! When a fragmented MP4 holds what a standard MP4 of the same segments holds.

use super::collecting::{all_compatible, lemma_segment_is_taken};
use crate::collect::{usual_frames, CollectorView};
use crate::fidelity::{
    alike, batch_accepts, differs, fidelity_of, frames_fit, fresh_fidelity, lowest_dts,
    lowest_pts, same_but_packets, watched, without_packets, Fidelity, FidelityView,
};
use crate::types::{DemuxView, PacketView, StreamKind};
use vstd::prelude::*;

verus! {

/// The value of what is known has all of it.
pub proof fn lemma_fidelity_value(known: Fidelity)
    ensures
        known@.begun == known.begun,
        known@.both_streams == known.both_streams,
        known@.first == known.first@,
        known@.held == known.held@,
        known@.taken == known.taken,
        known@.first_dts == known.first_dts,
        known@.lowest_dts == known.lowest_dts,
        known@.lowest_pts == known.lowest_pts,
        known@.fitting_frames == known.fitting_frames,
        known@.usual_frames == known.usual_frames,
{
}

/// Before the first segment nothing is known.
pub proof fn lemma_nothing_is_known()
    ensures
        !fresh_fidelity().begun,
        fresh_fidelity().first_dts is None,
        fresh_fidelity().taken,
        fresh_fidelity().fitting_frames,
        fresh_fidelity().usual_frames,
        fresh_fidelity().lowest_dts == u64::MAX,
        fresh_fidelity().lowest_pts == u64::MAX,
        fresh_fidelity().held.packets.len() == 0,
        fresh_fidelity().held.vps is None,
        fresh_fidelity().held.sps is None,
        fresh_fidelity().held.pps is None,
        fresh_fidelity().held.audio_specific_config is None,
        fresh_fidelity().held.sample_rate is None,
        fresh_fidelity().held.channel_count is None,
        !differs(fresh_fidelity()),
{
}

/// The lowest time is that of a packet or the limit, and none is lower.
pub proof fn lemma_lowest_times(packets: Seq<PacketView>, limit: u64)
    ensures
        lowest_dts(packets, limit) <= limit,
        forall|i: int|
            0 <= i < packets.len() ==> lowest_dts(packets, limit) <= (#[trigger] packets[i]).dts_90k,
        lowest_dts(packets, limit) == limit || exists|i: int|
            0 <= i < packets.len() && (#[trigger] packets[i]).dts_90k == lowest_dts(packets, limit),
        lowest_pts(packets, limit) <= limit,
        forall|i: int|
            0 <= i < packets.len() ==> lowest_pts(packets, limit) <= (#[trigger] packets[i]).pts_90k,
        lowest_pts(packets, limit) == limit || exists|i: int|
            0 <= i < packets.len() && (#[trigger] packets[i]).pts_90k == lowest_pts(packets, limit),
    decreases packets.len(),
{
    if packets.len() > 0 {
        let before = packets.drop_last();
        lemma_lowest_times(before, limit);
        assert(forall|i: int| 0 <= i < before.len() ==> #[trigger] before[i] == packets[i]);
        assert forall|i: int| 0 <= i < packets.len() implies lowest_dts(packets, limit) <= (
        #[trigger] packets[i]).dts_90k && lowest_pts(packets, limit) <= packets[i].pts_90k by {
            if i < before.len() {
                assert(before[i] == packets[i]);
            }
        }
        assert(packets[packets.len() - 1] == packets.last());
    }
}

/// Whether a segment changes nothing of what the first one has laid down: it sets no
/// codec parameter to another value, has no packet before the start of the timeline, and
/// its AAC frames have 1024 ticks.
pub open spec fn follows(found: DemuxView, first: DemuxView, start: u64) -> bool {
    &&& found.vps is None || found.vps == first.vps
    &&& found.sps is None || found.sps == first.sps
    &&& found.pps is None || found.pps == first.pps
    &&& found.audio_specific_config is None || found.audio_specific_config
        == first.audio_specific_config
    &&& found.sample_rate is None || found.sample_rate == first.sample_rate
    &&& found.channel_count is None || found.channel_count == first.channel_count
    &&& forall|i: int| 0 <= i < found.packets.len() ==> start <= (#[trigger] found.packets[i]).dts_90k
    &&& forall|i: int|
        0 <= i < found.packets.len() && (#[trigger] found.packets[i]).kind == StreamKind::Aac
            ==> found.packets[i].duration == 1024
}

/// What is known of segments that follow the first one.
proof fn lemma_known_of_followers(found: Seq<DemuxView>, start: u64)
    requires
        found.len() > 0,
        found[0].saw_video,
        found[0].saw_audio,
        found[0].sample_rate != Some(0u32),
        found[0].packets.len() > 0,
        found[0].packets[0].dts_90k == start,
        forall|s: int| 0 <= s < found.len() ==> follows(#[trigger] found[s], found[0], start),
    ensures
        ({
            let known = fidelity_of(found);
            &&& known.begun
            &&& known.both_streams
            &&& known.taken
            &&& known.first == known.held
            &&& known.held.vps == found[0].vps
            &&& known.held.sps == found[0].sps
            &&& known.held.pps == found[0].pps
            &&& known.held.audio_specific_config == found[0].audio_specific_config
            &&& known.held.sample_rate == found[0].sample_rate
            &&& known.held.channel_count == found[0].channel_count
            &&& known.held.packets.len() == 0
            &&& known.first_dts == Some(start)
            &&& known.lowest_dts == start
            &&& known.usual_frames
        }),
    decreases found.len(),
{
    let before = found.drop_last();
    let last = found.last();
    assert(found[found.len() - 1] == last);
    assert(follows(last, found[0], start));
    let old_known = fidelity_of(before);
    lemma_lowest_times(last.packets, old_known.lowest_dts);
    assert forall|i: int| 0 <= i < last.packets.len() && !(
    #[trigger] last.packets[i]).kind.is_video() implies last.packets[i].duration == 1024 by {}
    if before.len() > 0 {
        assert forall|s: int| 0 <= s < before.len() implies follows(
            #[trigger] before[s],
            before[0],
            start,
        ) by {
            assert(before[s] == found[s]);
        }
        lemma_known_of_followers(before, start);
        assert(all_compatible(old_known.held, last));
        lemma_segment_is_taken(old_known.held, last);
        lemma_segment_is_taken(old_known.held, without_packets(last));
        assert(fidelity_of(found).held.packets =~= old_known.held.packets);
    } else {
        reveal_with_fuel(fidelity_of, 2);
        assert(old_known == fresh_fidelity());
        assert(last == found[0]);
        lemma_segment_is_taken(old_known.held, last);
        lemma_segment_is_taken(old_known.held, without_packets(last));
        assert(last.packets[0].dts_90k == start);
    }
}

/// Ordinary segments need no second writing: where the first one shows both streams and
/// the others follow it, the fragments hold what a standard MP4 has.
pub proof fn lemma_ordinary_segments_are_alike(found: Seq<DemuxView>, start: u64)
    requires
        found.len() > 0,
        found[0].saw_video,
        found[0].saw_audio,
        found[0].sample_rate != Some(0u32),
        found[0].packets.len() > 0,
        found[0].packets[0].dts_90k == start,
        forall|s: int| 0 <= s < found.len() ==> follows(#[trigger] found[s], found[0], start),
    ensures
        alike(fidelity_of(found)),
        !differs(fidelity_of(found)),
{
    lemma_known_of_followers(found, start);
}

/// Whether an AAC frame of a segment has another length.
pub open spec fn odd_frame(found: DemuxView, i: int) -> bool {
    0 <= i < found.packets.len() && found.packets[i].kind == StreamKind::Aac
        && found.packets[i].duration != 1024
}

/// One segment is enough to tell the files apart: with a frame of another length, a
/// packet before the very first one, or another codec parameter where none was set.
/// What was noted once stays.
pub proof fn lemma_difference_is_noted(known: FidelityView, found: DemuxView, i: int)
    ensures
        !known.usual_frames || odd_frame(found, i) ==> !watched(known, found).usual_frames,
        known.begun && known.held.vps is None && found.vps is Some && all_compatible(
            known.held,
            found,
        ) && known.first.vps is None ==> !alike(watched(known, found)),
        known.begun && known.held.sps is None && found.sps is Some && all_compatible(
            known.held,
            found,
        ) && known.first.sps is None ==> !alike(watched(known, found)),
        known.first_dts is Some && 0 <= i < found.packets.len() && found.packets[i].dts_90k
            < known.first_dts->0 ==> !alike(watched(known, found)),
        !known.taken || !all_compatible(known.held, found) ==> !batch_accepts(
            watched(known, found),
        ),
        0 <= i < found.packets.len() && found.packets[i].kind == StreamKind::Aac
            && found.packets[i].duration > u32::MAX ==> !frames_fit(found.packets) && !batch_accepts(
            watched(known, found),
        ),
{
    lemma_lowest_times(found.packets, known.lowest_dts);
    lemma_segment_is_taken(known.held, found);
    lemma_segment_is_taken(known.held, without_packets(found));
    if odd_frame(found, i) {
        assert(!found.packets[i].kind.is_video());
        assert(!usual_frames(found.packets));
    }
    if 0 <= i < found.packets.len() && found.packets[i].kind == StreamKind::Aac
        && found.packets[i].duration > u32::MAX {
        assert(!found.packets[i].kind.is_video());
    }
}

/// The fragments hold what a standard MP4 has exactly where the first segment shows both
/// streams, the codec parameters stay those of the first segment, the very first packet
/// is the earliest one, and every frame has the usual length.
pub proof fn lemma_alike(known: FidelityView)
    ensures
        alike(known) <==> {
            &&& known.both_streams
            &&& known.first.vps == known.held.vps
            &&& known.first.sps == known.held.sps
            &&& known.first.pps == known.held.pps
            &&& known.first.audio_specific_config == known.held.audio_specific_config
            &&& known.first.sample_rate == known.held.sample_rate
            &&& known.first.channel_count == known.held.channel_count
            &&& known.first_dts matches Some(dts) && dts == known.lowest_dts
            &&& known.usual_frames
        },
        differs(known) ==> !alike(known),
        !batch_accepts(known) ==> !differs(known),
{
    lemma_same_parameters(known.first, known.held);
}

/// Codec parameters are the same where each of them is.
pub proof fn lemma_same_parameters(left: CollectorView, right: CollectorView)
    ensures
        same_but_packets(left, right) <==> {
            &&& left.vps == right.vps
            &&& left.sps == right.sps
            &&& left.pps == right.pps
            &&& left.audio_specific_config == right.audio_specific_config
            &&& left.sample_rate == right.sample_rate
            &&& left.channel_count == right.channel_count
        },
{
}

} // verus!
