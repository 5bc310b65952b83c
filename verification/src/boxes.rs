//! Finding the way through the boxes of a fragmented MP4.

use crate::error::{Error, ErrorView};
use vstd::prelude::*;

verus! {

/// The big-endian 32-bit number at an offset.
pub open spec fn be32(data: Seq<u8>, at: int) -> int {
    data[at] * 0x100_0000 + data[at + 1] * 0x1_0000 + data[at + 2] * 0x100 + data[at + 3]
}

/// The big-endian 64-bit number at an offset.
pub open spec fn be64(data: Seq<u8>, at: int) -> int {
    be32(data, at) * 0x1_0000_0000 + be32(data, at + 4)
}

/// Reads the big-endian 32-bit number at an offset.
pub fn read_be32(data: &[u8], at: usize) -> (number: u64)
    requires
        at + 4 <= data@.len(),
    ensures
        number == be32(data@, at as int),
        number <= 0xffff_ffff,
{
    data[at] as u64 * 0x100_0000 + data[at + 1] as u64 * 0x1_0000 + data[at + 2] as u64 * 0x100
        + data[at + 3] as u64
}

/// Reads the big-endian 64-bit number at an offset.
pub fn read_be64(data: &[u8], at: usize) -> (number: u64)
    requires
        at + 8 <= data@.len(),
    ensures
        number == be64(data@, at as int),
{
    assert(data.len() <= usize::MAX);
    read_be32(data, at) * 0x1_0000_0000 + read_be32(data, at + 4)
}

/// The type of the box at an offset: four bytes after the size.
pub open spec fn box_type(data: Seq<u8>, at: int) -> Seq<u8> {
    data.subrange(at + 4, at + 8)
}

/// `ftyp`
pub open spec fn ftyp() -> Seq<u8> {
    seq![0x66u8, 0x74u8, 0x79u8, 0x70u8]
}

/// `moov`
pub open spec fn moov() -> Seq<u8> {
    seq![0x6du8, 0x6fu8, 0x6fu8, 0x76u8]
}

/// Whether the size of the box at an offset stands in 64 bits behind its type.
pub open spec fn has_large_size(data: Seq<u8>, at: int) -> bool {
    be32(data, at) == 1
}

/// The size of the box at an offset, header and contents. A box of size 0
/// reaches to the end of the data.
pub open spec fn box_size(data: Seq<u8>, at: int) -> int {
    if has_large_size(data, at) {
        be64(data, at + 8)
    } else if be32(data, at) == 0 {
        data.len() - at
    } else {
        be32(data, at)
    }
}

/// Where the walk over the boxes up to the `moov` box ends.
#[derive(Debug, Clone, Copy, PartialEq, Eq)]
pub enum InitWalk {
    /// The `moov` box ends at this offset. That may be past the data.
    Ends(usize),
    /// The data end in the header of a box with a 64-bit size.
    Truncated,
    /// The `moov` box comes before any `ftyp` box.
    MoovFirst,
    /// There is no `moov` box.
    NotFound,
    /// The walk does not get past a box: its size is 0 in 64 bits, or leads to
    /// an offset that `usize` cannot hold.
    Unbounded,
}

/// How many bytes stand from an offset on.
pub open spec fn remaining(data: Seq<u8>, at: int) -> int {
    if at < data.len() {
        data.len() - at
    } else {
        0
    }
}

/// The walk over the boxes from an offset on, given whether an `ftyp` box was
/// passed.
pub open spec fn init_walk(data: Seq<u8>, at: int, saw_ftyp: bool) -> InitWalk
    decreases remaining(data, at),
{
    if at < 0 || at + 8 > data.len() {
        InitWalk::NotFound
    } else if has_large_size(data, at) && at + 16 > data.len() {
        InitWalk::Truncated
    } else {
        let next = at + box_size(data, at);
        if box_type(data, at) == moov() {
            if !saw_ftyp {
                InitWalk::MoovFirst
            } else if next > usize::MAX {
                InitWalk::Unbounded
            } else {
                InitWalk::Ends(next as usize)
            }
        } else if next <= at || next + 8 > usize::MAX {
            InitWalk::Unbounded
        } else {
            init_walk(data, next, saw_ftyp || box_type(data, at) == ftyp())
        }
    }
}

/// Walks over the boxes of a fragmented MP4 up to its `moov` box.
pub fn walk_init(data: &[u8]) -> (walk: InitWalk)
    ensures
        walk == init_walk(data@, 0, false),
{
    let mut offset: usize = 0;
    let mut saw_ftyp: bool = false;
    while offset <= data.len() && data.len() - offset >= 8
        invariant
            init_walk(data@, 0, false) == init_walk(data@, offset as int, saw_ftyp),
        decreases remaining(data@, offset as int),
    {
        let size: u64 = read_be32(data, offset);
        let total: u64 = if size == 1 {
            if data.len() - offset < 16 {
                return InitWalk::Truncated;
            }
            read_be64(data, offset + 8)
        } else if size == 0 {
            (data.len() - offset) as u64
        } else {
            size
        };
        let a: u8 = data[offset + 4];
        let b: u8 = data[offset + 5];
        let c: u8 = data[offset + 6];
        let d: u8 = data[offset + 7];
        let ghost kind = box_type(data@, offset as int);
        proof {
            assert(kind[0] == a && kind[1] == b && kind[2] == c && kind[3] == d);
            assert((kind == ftyp()) == (kind =~= ftyp()));
            assert((kind == moov()) == (kind =~= moov()));
        }
        let room: u64 = (usize::MAX - offset) as u64;
        if a == 0x6d && b == 0x6f && c == 0x6f && d == 0x76 {
            assert(kind =~= moov());
            if !saw_ftyp {
                return InitWalk::MoovFirst;
            }
            if total > room {
                return InitWalk::Unbounded;
            }
            return InitWalk::Ends(offset + total as usize);
        }
        assert(kind != moov());
        if total == 0 || total > room || room - total < 8 {
            return InitWalk::Unbounded;
        }
        if a == 0x66 && b == 0x74 && c == 0x79 && d == 0x70 {
            assert(kind =~= ftyp());
            saw_ftyp = true;
        } else {
            assert(kind != ftyp());
        }
        offset = offset + total as usize;
    }
    InitWalk::NotFound
}

/// The offset at which the media part begins, or why there is none.
pub open spec fn init_split(walk: InitWalk) -> Result<usize, ErrorView> {
    match walk {
        InitWalk::Ends(end) => Ok(end),
        InitWalk::Truncated => Err(ErrorView::Bitstream("fMP4 box header truncated"@)),
        InitWalk::MoovFirst => Err(ErrorView::Bitstream("fMP4 moov before ftyp"@)),
        _ => Err(ErrorView::Bitstream("fMP4 missing ftyp or moov"@)),
    }
}

/// Splits a fragmented MP4 into its init part, up to the end of the `moov` box,
/// and its media part. Returns the offset at which the media part begins.
/// Where the walk over the boxes does not come to an end, there is no `moov` box to
/// be found.
pub fn split_fmp4_init(data: &[u8]) -> (split: Result<usize, Error>)
    ensures
        split matches Ok(end) ==> init_split(init_walk(data@, 0, false)) == Ok::<usize, ErrorView>(
            end,
        ),
        split matches Err(error) ==> init_split(init_walk(data@, 0, false)) == Err::<
            usize,
            ErrorView,
        >(error@),
{
    match walk_init(data) {
        InitWalk::Ends(end) => Ok(end),
        InitWalk::Truncated => Err(Error::bitstream("fMP4 box header truncated")),
        InitWalk::MoovFirst => Err(Error::bitstream("fMP4 moov before ftyp")),
        InitWalk::NotFound => Err(Error::bitstream("fMP4 missing ftyp or moov")),
        InitWalk::Unbounded => Err(Error::bitstream("fMP4 missing ftyp or moov")),
    }
}

/// A file that begins with an `ftyp` box of an ordinary size, followed by a
/// `moov` box of an ordinary size, is split behind the `moov` box, whatever
/// comes after it.
pub proof fn lemma_header_is_init(data: Seq<u8>, ftyp_size: int, moov_size: int)
    requires
        8 <= ftyp_size,
        8 <= moov_size,
        ftyp_size + moov_size <= data.len() <= usize::MAX,
        be32(data, 0) == ftyp_size,
        box_type(data, 0) == ftyp(),
        be32(data, ftyp_size) == moov_size,
        box_type(data, ftyp_size) == moov(),
    ensures
        init_walk(data, 0, false) == InitWalk::Ends((ftyp_size + moov_size) as usize),
{
    assert(ftyp()[0] != moov()[0]);
    reveal_with_fuel(init_walk, 3);
}

/// Where the walk from an offset on finds the `moov` box, if it finds one.
pub open spec fn moov_place(data: Seq<u8>, at: int) -> int
    decreases remaining(data, at),
{
    if at < 0 || at + 8 > data.len() || box_type(data, at) == moov() || box_size(data, at) <= 0 {
        at
    } else {
        moov_place(data, at + box_size(data, at))
    }
}

/// A file that grows keeps its split: bytes behind a `moov` box that has a size of
/// its own do not move it.
pub proof fn lemma_split_ignores_media(data: Seq<u8>, media: Seq<u8>, end: usize)
    requires
        init_walk(data, 0, false) == InitWalk::Ends(end),
        be32(data, moov_place(data, 0)) != 0,
    ensures
        init_walk(data + media, 0, false) == InitWalk::Ends(end),
{
    lemma_walk_ignores_media(data, media, 0, false, end);
}

proof fn lemma_walk_ignores_media(
    data: Seq<u8>,
    media: Seq<u8>,
    at: int,
    saw_ftyp: bool,
    end: usize,
)
    requires
        0 <= at,
        init_walk(data, at, saw_ftyp) == InitWalk::Ends(end),
        be32(data, moov_place(data, at)) != 0,
    ensures
        init_walk(data + media, at, saw_ftyp) == InitWalk::Ends(end),
    decreases remaining(data, at),
{
    let whole = data + media;
    assert(be32(whole, at) == be32(data, at));
    assert(box_type(whole, at) =~= box_type(data, at));
    if has_large_size(data, at) {
        assert(be64(whole, at + 8) == be64(data, at + 8));
    }
    if box_type(data, at) != moov() {
        if be32(data, at) == 0 {
            assert(init_walk(data, data.len() as int, saw_ftyp || box_type(data, at) == ftyp())
                == InitWalk::NotFound);
        }
        lemma_walk_ignores_media(
            data,
            media,
            at + box_size(data, at),
            saw_ftyp || box_type(data, at) == ftyp(),
            end,
        );
    }
}

} // verus!
