//! The block allocator: file header, offsets table, table of contents and
//! free list, plus block-ID resolution.
//!
//! The file is a small buddy-allocator heap.  A 32-bit block address packs
//! a byte offset (low five bits cleared) and a power-of-two size class
//! (the low five bits); every block's payload starts four bytes past its
//! nominal offset.  Construction parses, in order: the four sentinel
//! bytes, the 32-byte header block, and inside the info block the offsets
//! table, the single `DSDB` table-of-contents entry, and the 32 free-list
//! size classes.

use crate::bytes::be_u32_at;
use crate::cursor::{spec_expect1, spec_expect4, spec_skip, spec_u32, spec_u8, Cursor};
use crate::{BadDataReason, Error};
use vstd::prelude::*;

verus! {

/// Header magic `Bud1`.
pub const MAGIC_BUD1: u32 = 0x42756431;

/// Table-of-contents key `DSDB`.
pub const KEY_DSDB: u32 = 0x44534442;

/// The byte offset packed in a block address: the address with its low
/// five bits cleared.
pub open spec fn addr_offset(addr: u32) -> u32 {
    addr & 0xFFFFFFE0
}

/// The block size packed in a block address: two to the power of its low
/// five bits.
pub open spec fn addr_size(addr: u32) -> u32 {
    1u32 << (addr & 0x1F)
}

/// Unpack a block address into its byte offset and block size.
pub fn block_address(addr: u32) -> (r: (u32, u32))
    ensures
        r.0 == addr_offset(addr),
        r.1 == addr_size(addr),
{
    proof {
        assert((addr & 0x1F) < 32) by (bit_vector);
    }
    (addr & 0xFFFFFFE0, 1u32 << (addr & 0x1F))
}

/// The payload byte range `[start, end)` of block `id` in a buffer of
/// length `dlen`: the address is looked up in the offsets table, unpacked,
/// and shifted past the four-byte alignment header.
pub open spec fn spec_block_range(dlen: int, offsets: Seq<u32>, id: u32) -> Result<
    (int, int),
    Error,
> {
    if id as int >= offsets.len() {
        Err(Error::BlockDoesntExist)
    } else {
        let addr = offsets[id as int];
        let start = addr_offset(addr) as int + 4;
        let end = start + addr_size(addr) as int;
        if end <= dlen {
            Ok((start, end))
        } else {
            Err(Error::NotEnoughData)
        }
    }
}

/// Read `n` consecutive big-endian 32-bit values.
pub open spec fn spec_u32s(d: Seq<u8>, end: int, pos: int, n: int) -> Result<
    (Seq<u32>, int),
    Error,
> {
    if pos + 4 * n <= end {
        Ok((Seq::new(n as nat, |i: int| be_u32_at(d, pos + 4 * i)), pos + 4 * n))
    } else {
        Err(Error::NotEnoughData)
    }
}

/// The header block: magic `Bud1`, then the info block's offset, size,
/// and a repeated copy of the offset that must match the first.
pub open spec fn spec_prelude_fields(d: Seq<u8>, end: int, pos: int) -> Result<
    ((u32, u32), int),
    Error,
> {
    match spec_expect4(d, end, pos, MAGIC_BUD1, BadDataReason::Magic) {
        Ok(p) => match spec_u32(d, end, p) {
            Ok((offset, p2)) => match spec_u32(d, end, p2) {
                Ok((size, p3)) => match spec_u32(d, end, p3) {
                    Ok((check, p4)) => if offset == check {
                        Ok(((offset, size), p4))
                    } else {
                        Err(Error::BadData(BadDataReason::OffsetCheck))
                    },
                    Err(e) => Err(e),
                },
                Err(e) => Err(e),
            },
            Err(e) => Err(e),
        },
        Err(e) => Err(e),
    }
}

/// The offsets table: a count, four reserved zero bytes, `count` block
/// addresses, then padding up to the next multiple of 256 entries.
pub open spec fn spec_offsets(d: Seq<u8>, end: int, pos: int) -> Result<(Seq<u32>, int), Error> {
    match spec_u32(d, end, pos) {
        Ok((num, p)) => match spec_expect4(d, end, p, 0, BadDataReason::ReservedBytes) {
            Ok(p2) => match spec_u32s(d, end, p2, num as int) {
                Ok((offs, p3)) => match spec_skip(end, p3, (256 - num % 256) * 4) {
                    Ok(p4) => Ok((offs, p4)),
                    Err(e) => Err(e),
                },
                Err(e) => Err(e),
            },
            Err(e) => Err(e),
        },
        Err(e) => Err(e),
    }
}

/// The table of contents: exactly one entry, whose four-byte key must be
/// `DSDB`; its value is the block ID of the directory B-tree's root.
pub open spec fn spec_toc(d: Seq<u8>, end: int, pos: int) -> Result<(u32, int), Error> {
    match spec_expect4(d, end, pos, 1, BadDataReason::TocEntryCount) {
        Ok(p) => match spec_expect1(d, end, p, 4, BadDataReason::TocKeyLength) {
            Ok(p2) => match spec_expect4(d, end, p2, KEY_DSDB, BadDataReason::TocKey) {
                Ok(p3) => spec_u32(d, end, p3),
                Err(e) => Err(e),
            },
            Err(e) => Err(e),
        },
        Err(e) => Err(e),
    }
}

/// `n` free-list size classes, each a block count followed by that many
/// block IDs.
pub open spec fn spec_free_lists(d: Seq<u8>, end: int, pos: int, n: int) -> Result<
    (Seq<Seq<u32>>, int),
    Error,
>
    decreases n,
{
    if n <= 0 {
        Ok((Seq::empty(), pos))
    } else {
        match spec_u32(d, end, pos) {
            Ok((cnt, p)) => match spec_u32s(d, end, p, cnt as int) {
                Ok((ids, p2)) => match spec_free_lists(d, end, p2, n - 1) {
                    Ok((rest, p3)) => Ok((seq![ids] + rest, p3)),
                    Err(e) => Err(e),
                },
                Err(e) => Err(e),
            },
            Err(e) => Err(e),
        }
    }
}

/// Where the cursor rests when the header-block read fails: unmoved on a
/// short read of the magic word, after whichever word was consumed last
/// otherwise.
pub open spec fn spec_prelude_rest(d: Seq<u8>, end: int, pos: int) -> int {
    match spec_u32(d, end, pos) {
        Ok((magic, p)) => if magic != MAGIC_BUD1 {
            p
        } else {
            match spec_u32(d, end, p) {
                Ok((_, p2)) => match spec_u32(d, end, p2) {
                    Ok((_, p3)) => match spec_u32(d, end, p3) {
                        Ok((_, p4)) => p4,
                        Err(_) => p3,
                    },
                    Err(_) => p2,
                },
                Err(_) => p,
            }
        },
        Err(_) => pos,
    }
}

/// Where the cursor rests when the offsets-table read fails.
pub open spec fn spec_offsets_rest(d: Seq<u8>, end: int, pos: int) -> int {
    match spec_u32(d, end, pos) {
        Ok((num, p)) => match spec_u32(d, end, p) {
            Ok((reserved, p2)) => if reserved != 0 {
                p2
            } else {
                match spec_u32s(d, end, p2, num as int) {
                    Ok((_, p3)) => match spec_skip(end, p3, (256 - num % 256) * 4) {
                        Ok(p4) => p4,
                        Err(_) => p3,
                    },
                    Err(_) => p2,
                }
            },
            Err(_) => p,
        },
        Err(_) => pos,
    }
}

/// Where the cursor rests when the table-of-contents read fails.
pub open spec fn spec_toc_rest(d: Seq<u8>, end: int, pos: int) -> int {
    match spec_u32(d, end, pos) {
        Ok((count, p)) => if count != 1 {
            p
        } else {
            match spec_u8(d, end, p) {
                Ok((klen, p2)) => if klen != 4 {
                    p2
                } else {
                    match spec_u32(d, end, p2) {
                        Ok((_, p3)) => p3,
                        Err(_) => p2,
                    }
                },
                Err(_) => p,
            }
        },
        Err(_) => pos,
    }
}

/// Where the cursor rests when the free-list read fails: at the end of
/// the last size class read whole, then past whatever the failing class
/// still yielded.
pub open spec fn spec_free_lists_rest(d: Seq<u8>, end: int, pos: int, n: int) -> int
    decreases n,
{
    if n <= 0 {
        pos
    } else {
        match spec_u32(d, end, pos) {
            Ok((cnt, p)) => match spec_u32s(d, end, p, cnt as int) {
                Ok((_, p2)) => spec_free_lists_rest(d, end, p2, n - 1),
                Err(_) => p,
            },
            Err(_) => pos,
        }
    }
}

/// The whole allocator construction: sentinel, header block, then the
/// offsets table, table of contents and free list inside the info block.
/// On success: the offsets table, the root block ID, and the free list.
pub open spec fn spec_allocator(d: Seq<u8>) -> Result<(Seq<u32>, u32, Seq<Seq<u32>>), Error> {
    match spec_expect4(d, d.len() as int, 0, 1, BadDataReason::Sentinel) {
        Ok(_) => if d.len() < 36 {
            Err(Error::NotEnoughData)
        } else {
            match spec_prelude_fields(d, 36, 4) {
                Ok(((offset, size), _)) => if offset as int + 4 + size as int <= d.len() {
                    let bend = offset as int + 4 + size as int;
                    let bpos = offset as int + 4;
                    match spec_offsets(d, bend, bpos) {
                        Ok((offs, p)) => match spec_toc(d, bend, p) {
                            Ok((dsdb, p2)) => match spec_free_lists(d, bend, p2, 32) {
                                Ok((fl, _)) => Ok((offs, dsdb, fl)),
                                Err(e) => Err(e),
                            },
                            Err(e) => Err(e),
                        },
                        Err(e) => Err(e),
                    }
                } else {
                    Err(Error::NotEnoughData)
                },
                Err(e) => Err(e),
            }
        },
        Err(e) => Err(e),
    }
}

/// A buffer whose first four bytes are not the sentinel value `1` is
/// rejected as `BadData` before any further parsing happens.
pub proof fn lemma_sentinel_rejected(d: Seq<u8>)
    requires
        d.len() >= 4,
        be_u32_at(d, 0) != 1,
    ensures
        spec_allocator(d) == Err::<(Seq<u32>, u32, Seq<Seq<u32>>), Error>(
            Error::BadData(BadDataReason::Sentinel),
        ),
{
}

/// A buffer shorter than the 36 bytes of sentinel plus header block —
/// one that still opens with the sentinel, or is too short to hold one —
/// is rejected as `NotEnoughData` by header parsing.
pub proof fn lemma_truncated_header_rejected(d: Seq<u8>)
    requires
        d.len() < 36,
        d.len() >= 4 ==> be_u32_at(d, 0) == 1,
    ensures
        spec_allocator(d) == Err::<(Seq<u32>, u32, Seq<Seq<u32>>), Error>(Error::NotEnoughData),
{
}

/// Read `n` consecutive big-endian 32-bit values.
pub(crate) fn read_u32s(data: &Vec<u8>, c: &mut Cursor, n: u32) -> (r: Result<Vec<u32>, Error>)
    requires
        old(c).wf(data@.len() as int),
    ensures
        final(c).wf(data@.len() as int),
        final(c).end == old(c).end,
        old(c).pos <= final(c).pos,
        match spec_u32s(data@, old(c).end as int, old(c).pos as int, n as int) {
            Ok(vp) => r is Ok && r->Ok_0@ == vp.0 && final(c).pos as int == vp.1,
            Err(e) => r == Err::<Vec<u32>, Error>(e) && final(c).pos == old(c).pos,
        },
{
    let ghost d = data@;
    let ghost p = c.pos as int;
    if (n as usize) > (c.end - c.pos) / 4 {
        return Err(Error::NotEnoughData);
    }
    let mut out: Vec<u32> = Vec::new();
    let mut i: u32 = 0;
    while i < n
        invariant
            c.wf(d.len() as int),
            c.end == old(c).end,
            data@ == d,
            i <= n,
            c.pos as int == p + 4 * i,
            p + 4 * n <= c.end,
            out@ == Seq::new(i as nat, |j: int| be_u32_at(d, p + 4 * j)),
        decreases n - i,
    {
        let v = match c.read_u32(data) {
            Ok(v) => v,
            Err(e) => {
                return Err(e);
            },
        };
        out.push(v);
        i = i + 1;
        proof {
            assert(out@ =~= Seq::new(i as nat, |j: int| be_u32_at(d, p + 4 * j)));
        }
    }
    Ok(out)
}

/// The parsed allocator: the raw buffer, the block-address table, the
/// root block ID found under the `DSDB` key, and the free list.
///
/// All fields are set once at construction and never mutated; block
/// resolution only reads them.
pub struct Allocator {
    /// The whole file, the heap the blocks index into.
    pub data: Vec<u8>,
    /// The offsets table: block addresses indexed by block ID.
    pub offsets: Vec<u32>,
    /// The block ID of the directory B-tree's root block, from the single
    /// `DSDB` table-of-contents entry.
    pub dsdb_location: u32,
    /// The 32 free-list size classes, informational only: parsed so the
    /// cursor advances past them, never consulted during traversal.
    pub free_list: Vec<Vec<u32>>,
}

impl Allocator {
    /// Parse the header and free-space bookkeeping of a `.DS_Store`
    /// buffer, eagerly and completely.
    pub fn new(data: Vec<u8>) -> (r: Result<Allocator, Error>)
        ensures
            match spec_allocator(data@) {
                Ok(m) => r is Ok && r->Ok_0.data@ == data@ && r->Ok_0.offsets@ == m.0
                    && r->Ok_0.dsdb_location == m.1 && r->Ok_0.free_list.deep_view() == m.2,
                Err(e) => r == Err::<Allocator, Error>(e),
            },
    {
        let mut head = Cursor { pos: 0, end: data.len() };
        match head.expect4(&data, 1, BadDataReason::Sentinel) {
            Ok(()) => (),
            Err(e) => {
                return Err(e);
            },
        };
        if data.len() < 36 {
            return Err(Error::NotEnoughData);
        }
        let mut prelude_block = Cursor { pos: 4, end: 36 };
        let (info_offset, info_size) = match Self::read_prelude(&data, &mut prelude_block) {
            Ok(v) => v,
            Err(e) => {
                return Err(e);
            },
        };
        let off = info_offset as usize;
        let size = info_size as usize;
        if data.len() < off || data.len() - off < 4 || data.len() - off - 4 < size {
            return Err(Error::NotEnoughData);
        }
        let mut info_block = Cursor { pos: off + 4, end: off + 4 + size };
        let offsets = match Self::read_offsets(&data, &mut info_block) {
            Ok(v) => v,
            Err(e) => {
                return Err(e);
            },
        };
        let dsdb_location = match Self::read_dsdb_location(&data, &mut info_block) {
            Ok(v) => v,
            Err(e) => {
                return Err(e);
            },
        };
        let free_list = match Self::read_free_list(&data, &mut info_block, 32) {
            Ok(v) => v,
            Err(e) => {
                return Err(e);
            },
        };
        Ok(Allocator { data, offsets, dsdb_location, free_list })
    }

    /// Resolve a block ID to a cursor over its payload byte range.
    pub fn get_block(&self, block_id: u32) -> (r: Result<Cursor, Error>)
        ensures
            match spec_block_range(self.data@.len() as int, self.offsets@, block_id) {
                Ok(se) => r is Ok && r->Ok_0.pos as int == se.0 && r->Ok_0.end as int == se.1
                    && r->Ok_0.wf(self.data@.len() as int),
                Err(e) => r == Err::<Cursor, Error>(e),
            },
    {
        if block_id as usize >= self.offsets.len() {
            return Err(Error::BlockDoesntExist);
        }
        let addr = self.offsets[block_id as usize];
        let (offset, size) = block_address(addr);
        let off = offset as usize;
        let sz = size as usize;
        if self.data.len() < off || self.data.len() - off < 4 || self.data.len() - off - 4 < sz {
            return Err(Error::NotEnoughData);
        }
        Ok(Cursor { pos: off + 4, end: off + 4 + sz })
    }

    /// Read the header block: magic, info-block offset and size, and the
    /// offset-consistency check.
    fn read_prelude(data: &Vec<u8>, c: &mut Cursor) -> (r: Result<(u32, u32), Error>)
        requires
            old(c).wf(data@.len() as int),
        ensures
            final(c).wf(data@.len() as int),
            final(c).end == old(c).end,
            old(c).pos <= final(c).pos,
            match spec_prelude_fields(data@, old(c).end as int, old(c).pos as int) {
                Ok(vp) => r == Ok::<(u32, u32), Error>(vp.0) && final(c).pos as int == vp.1,
                Err(e) => r == Err::<(u32, u32), Error>(e) && final(c).pos as int
                    == spec_prelude_rest(data@, old(c).end as int, old(c).pos as int),
            },
    {
        match c.expect4(data, MAGIC_BUD1, BadDataReason::Magic) {
            Ok(()) => (),
            Err(e) => {
                return Err(e);
            },
        };
        let offset = match c.read_u32(data) {
            Ok(v) => v,
            Err(e) => {
                return Err(e);
            },
        };
        let size = match c.read_u32(data) {
            Ok(v) => v,
            Err(e) => {
                return Err(e);
            },
        };
        let offset_check = match c.read_u32(data) {
            Ok(v) => v,
            Err(e) => {
                return Err(e);
            },
        };
        if offset != offset_check {
            return Err(Error::BadData(BadDataReason::OffsetCheck));
        }
        Ok((offset, size))
    }

    /// Read the offsets table, skipping its padding.
    fn read_offsets(data: &Vec<u8>, c: &mut Cursor) -> (r: Result<Vec<u32>, Error>)
        requires
            old(c).wf(data@.len() as int),
        ensures
            final(c).wf(data@.len() as int),
            final(c).end == old(c).end,
            old(c).pos <= final(c).pos,
            match spec_offsets(data@, old(c).end as int, old(c).pos as int) {
                Ok(vp) => r is Ok && r->Ok_0@ == vp.0 && final(c).pos as int == vp.1,
                Err(e) => r == Err::<Vec<u32>, Error>(e) && final(c).pos as int
                    == spec_offsets_rest(data@, old(c).end as int, old(c).pos as int),
            },
    {
        let num_offsets = match c.read_u32(data) {
            Ok(v) => v,
            Err(e) => {
                return Err(e);
            },
        };
        match c.expect4(data, 0, BadDataReason::ReservedBytes) {
            Ok(()) => (),
            Err(e) => {
                return Err(e);
            },
        };
        let offsets = match read_u32s(data, c, num_offsets) {
            Ok(v) => v,
            Err(e) => {
                return Err(e);
            },
        };
        let bytes_to_skip = (256 - (num_offsets % 256)) * 4;
        match c.skip(data, bytes_to_skip as usize) {
            Ok(()) => (),
            Err(e) => {
                return Err(e);
            },
        };
        Ok(offsets)
    }

    /// Read the table of contents: its single entry's key must be `DSDB`;
    /// the value is the root block ID.
    fn read_dsdb_location(data: &Vec<u8>, c: &mut Cursor) -> (r: Result<u32, Error>)
        requires
            old(c).wf(data@.len() as int),
        ensures
            final(c).wf(data@.len() as int),
            final(c).end == old(c).end,
            old(c).pos <= final(c).pos,
            match spec_toc(data@, old(c).end as int, old(c).pos as int) {
                Ok(vp) => r == Ok::<u32, Error>(vp.0) && final(c).pos as int == vp.1,
                Err(e) => r == Err::<u32, Error>(e) && final(c).pos as int == spec_toc_rest(
                    data@,
                    old(c).end as int,
                    old(c).pos as int,
                ),
            },
    {
        match c.expect4(data, 1, BadDataReason::TocEntryCount) {
            Ok(()) => (),
            Err(e) => {
                return Err(e);
            },
        };
        match c.expect1(data, 4, BadDataReason::TocKeyLength) {
            Ok(()) => (),
            Err(e) => {
                return Err(e);
            },
        };
        match c.expect4(data, KEY_DSDB, BadDataReason::TocKey) {
            Ok(()) => (),
            Err(e) => {
                return Err(e);
            },
        };
        c.read_u32(data)
    }

    /// Read `n` free-list size classes.
    fn read_free_list(data: &Vec<u8>, c: &mut Cursor, n: u32) -> (r: Result<Vec<Vec<u32>>, Error>)
        requires
            old(c).wf(data@.len() as int),
        ensures
            final(c).wf(data@.len() as int),
            final(c).end == old(c).end,
            old(c).pos <= final(c).pos,
            match spec_free_lists(data@, old(c).end as int, old(c).pos as int, n as int) {
                Ok(vp) => r is Ok && r->Ok_0.deep_view() == vp.0 && final(c).pos as int == vp.1,
                Err(e) => r == Err::<Vec<Vec<u32>>, Error>(e) && final(c).pos as int
                    == spec_free_lists_rest(data@, old(c).end as int, old(c).pos as int, n as int),
            },
        decreases n,
    {
        if n == 0 {
            let out: Vec<Vec<u32>> = Vec::new();
            proof {
                assert(out.deep_view() =~~= Seq::<Seq<u32>>::empty());
            }
            return Ok(out);
        }
        let block_count = match c.read_u32(data) {
            Ok(v) => v,
            Err(e) => {
                return Err(e);
            },
        };
        let ids = match read_u32s(data, c, block_count) {
            Ok(v) => v,
            Err(e) => {
                return Err(e);
            },
        };
        let mut rest = match Self::read_free_list(data, c, n - 1) {
            Ok(v) => v,
            Err(e) => {
                return Err(e);
            },
        };
        let ghost rest_view = rest.deep_view();
        rest.insert(0, ids);
        proof {
            assert(rest.deep_view() =~~= seq![ids@] + rest_view);
        }
        Ok(rest)
    }
}

} // verus!
