//! How the boxes of a fragmented MP4 follow one another.

use crate::boxes::{be32, be64, ftyp, init_split, init_walk, moov, InitWalk};
use crate::error::ErrorView;
use vstd::prelude::*;

verus! {

/// The number that `count` bytes from an offset on stand for, most significant first.
pub open spec fn number_at(data: Seq<u8>, at: int, count: int) -> int
    decreases count,
{
    if count <= 0 {
        0
    } else {
        256 * number_at(data, at, count - 1) + data[at + count - 1]
    }
}

/// Numbers are read with the most significant byte first.
pub proof fn lemma_big_endian(data: Seq<u8>, at: int)
    ensures
        be32(data, at) == number_at(data, at, 4),
        be64(data, at) == number_at(data, at, 8),
{
    reveal_with_fuel(number_at, 9);
}

/// The four bytes of a box type.
pub open spec fn type_bytes(data: Seq<u8>, at: int) -> (u8, u8, u8, u8) {
    (data[at + 4], data[at + 5], data[at + 6], data[at + 7])
}

/// Whether the bytes spell `moov`.
pub open spec fn spells_moov(data: Seq<u8>, at: int) -> bool {
    type_bytes(data, at) == (109u8, 111u8, 111u8, 118u8)
}

/// Whether the bytes spell `ftyp`.
pub open spec fn spells_ftyp(data: Seq<u8>, at: int) -> bool {
    type_bytes(data, at) == (102u8, 116u8, 121u8, 112u8)
}

/// Whether a whole box header stands at an offset and its box ends at `next`: by its
/// 32-bit size, by the 64-bit size behind the header, or with the data.
pub open spec fn box_reaches(data: Seq<u8>, at: int, next: int) -> bool {
    let size = number_at(data, at, 4);
    &&& 0 <= at
    &&& at + 8 <= data.len()
    &&& if size == 1 {
        at + 16 <= data.len() && next == at + number_at(data, at + 8, 8)
    } else if size == 0 {
        next == data.len()
    } else {
        next == at + size
    }
}

proof fn lemma_types(data: Seq<u8>, at: int)
    requires
        0 <= at,
        at + 8 <= data.len(),
    ensures
        data.subrange(at + 4, at + 8) == moov() <==> spells_moov(data, at),
        data.subrange(at + 4, at + 8) == ftyp() <==> spells_ftyp(data, at),
{
    let kind = data.subrange(at + 4, at + 8);
    assert(kind[0] == data[at + 4] && kind[1] == data[at + 5] && kind[2] == data[at + 6] && kind[3]
        == data[at + 7]);
    if spells_moov(data, at) {
        assert(kind =~= moov());
    }
    if spells_ftyp(data, at) {
        assert(kind =~= ftyp());
    }
}

/// The walk passes every box but `moov` and goes on where the box ends. It remembers
/// whether one was `ftyp`.
pub proof fn lemma_walk_passes_box(data: Seq<u8>, at: int, next: int, saw_ftyp: bool)
    requires
        box_reaches(data, at, next),
        !spells_moov(data, at),
        at < next,
        next + 8 <= usize::MAX,
    ensures
        init_walk(data, at, saw_ftyp) == init_walk(
            data,
            next,
            saw_ftyp || spells_ftyp(data, at),
        ),
{
    lemma_big_endian(data, at);
    lemma_big_endian(data, at + 8);
    lemma_types(data, at);
}

/// The walk ends with the `moov` box, if an `ftyp` box came before it.
pub proof fn lemma_walk_ends_with_moov(data: Seq<u8>, at: int, next: int, saw_ftyp: bool)
    requires
        box_reaches(data, at, next),
        spells_moov(data, at),
    ensures
        !saw_ftyp ==> init_walk(data, at, saw_ftyp) == InitWalk::MoovFirst,
        saw_ftyp && next <= usize::MAX ==> init_walk(data, at, saw_ftyp) == InitWalk::Ends(
            next as usize,
        ),
        saw_ftyp && next > usize::MAX ==> init_walk(data, at, saw_ftyp) == InitWalk::Unbounded,
{
    lemma_big_endian(data, at);
    lemma_big_endian(data, at + 8);
    lemma_types(data, at);
}

/// Without a whole box header the walk finds nothing; a 64-bit size that is cut off, or
/// that leads nowhere, is noticed.
pub proof fn lemma_walk_stops(data: Seq<u8>, at: int, next: int, saw_ftyp: bool)
    requires
        0 <= at,
    ensures
        at + 8 > data.len() ==> init_walk(data, at, saw_ftyp) == InitWalk::NotFound,
        at + 8 <= data.len() < at + 16 && number_at(data, at, 4) == 1 ==> init_walk(
            data,
            at,
            saw_ftyp,
        ) == InitWalk::Truncated,
        box_reaches(data, at, next) && !spells_moov(data, at) && (next <= at || next + 8
            > usize::MAX) ==> init_walk(data, at, saw_ftyp) == InitWalk::Unbounded,
{
    lemma_big_endian(data, at);
    lemma_big_endian(data, at + 8);
    if at + 8 <= data.len() {
        lemma_types(data, at);
    }
}

/// The media part begins where the walk ends, and every other end of the walk is
/// malformed media.
pub proof fn lemma_split_follows_walk(end: usize)
    ensures
        init_split(InitWalk::Ends(end)) == Ok::<usize, ErrorView>(end),
        init_split(InitWalk::Truncated) == Err::<usize, ErrorView>(
            ErrorView::Bitstream("fMP4 box header truncated"@),
        ),
        init_split(InitWalk::MoovFirst) == Err::<usize, ErrorView>(
            ErrorView::Bitstream("fMP4 moov before ftyp"@),
        ),
        init_split(InitWalk::NotFound) == Err::<usize, ErrorView>(
            ErrorView::Bitstream("fMP4 missing ftyp or moov"@),
        ),
        init_split(InitWalk::Unbounded) == Err::<usize, ErrorView>(
            ErrorView::Bitstream("fMP4 missing ftyp or moov"@),
        ),
{
}

} // verus!
