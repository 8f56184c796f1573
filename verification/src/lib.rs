//! Decoder for the `.DS_Store` binary container: a block-addressed buddy
//! allocator heap holding a B-tree of per-file attribute records.
//!
//! The crate is organised bottom-up: big-endian byte access (`bytes`), a
//! bounds-checked cursor (`cursor`), the typed attribute-record decoder
//! (`record`), the block allocator (`allocator`), and the B-tree traversal
//! that assembles the final directory listing (`directory`).

use vstd::prelude::*;

pub mod bytes;
pub mod cursor;
pub mod record;
pub mod allocator;
pub mod directory;

use crate::allocator::{spec_allocator, Allocator};
use crate::directory::{spec_fold, spec_traverse, DirEntry, Directory};
use crate::record::RecordModel;

verus! {

/// Why a structural `BadData` check failed.  Each variant names the
/// assertion in the file format that did not hold; the `u32` payloads carry
/// the four attribute-tag bytes, packed big-endian.
#[derive(Debug, Clone, Copy, PartialEq, Eq, Structural)]
pub enum BadDataReason {
    /// The first four bytes of the file were not the sentinel value `1`.
    Sentinel,
    /// The header block did not start with the magic `Bud1`.
    Magic,
    /// The repeated info-block offset did not match the first copy.
    OffsetCheck,
    /// The four reserved bytes after the offset count were not zero.
    ReservedBytes,
    /// The table of contents did not hold exactly one entry.
    TocEntryCount,
    /// The table-of-contents key was not four bytes long.
    TocKeyLength,
    /// The table-of-contents key was not `DSDB`.
    TocKey,
    /// The four sentinel bytes after the root-block counts were wrong.
    TreeSentinel,
    /// The four-byte primitive type code after this tag was not the one the
    /// tag requires.
    TypeCode(u32),
    /// A blob under this tag did not have the fixed length the tag requires.
    BlobLength(u32),
}

/// A decoding failure.  Any error aborts the whole decode; no partial
/// result is ever returned beside one.
#[derive(Debug, Clone, Copy, PartialEq, Eq, Structural)]
pub enum Error {
    /// A structural assertion on the bytes failed; the reason says which.
    BadData(BadDataReason),
    /// A read would have run past the end of the buffer or block.
    NotEnoughData,
    /// A block ID fell outside the offsets table.
    BlockDoesntExist,
    /// A filename was not valid UTF-16.
    InvalidString,
    /// An attribute tag or nested sub-tag outside the known set; the
    /// payload holds the offending four tag bytes, packed big-endian.
    UnknownStructureType(u32),
    /// The B-tree nested deeper than the node count declared in its root
    /// block: the block graph is cyclic or lies about its size.
    RecursionLimit,
}

/// The end-to-end decode: parse the allocator structures, then walk the
/// directory B-tree the table of contents names.  On success: the three
/// counts from the root block and the in-order record stream.
pub open spec fn spec_store(d: Seq<u8>) -> Result<((u32, u32, u32), Seq<RecordModel>), Error> {
    match spec_allocator(d) {
        Ok(m) => spec_traverse(d, m.0, m.1),
        Err(e) => Err(e),
    }
}

/// A fully decoded `.DS_Store` buffer: the one data product is the
/// directory listing, a mapping from filename to per-tag values.
pub struct DsStore {
    /// The decoded directory.
    pub directory: Directory,
}

impl DsStore {
    /// Decode a whole `.DS_Store` buffer: allocator first, then the
    /// directory B-tree.  Any failure aborts the decode; no partial
    /// result is returned.
    pub fn new(file_data: Vec<u8>) -> (r: Result<DsStore, Error>)
        ensures
            match spec_store(file_data@) {
                Ok(m) => r is Ok && r->Ok_0.directory.num_internals == m.0.0
                    && r->Ok_0.directory.num_records == m.0.1 && r->Ok_0.directory.num_nodes
                    == m.0.2 && r->Ok_0.directory.contents.deep_view() == spec_fold(m.1),
                Err(e) => r == Err::<DsStore, Error>(e),
            },
    {
        let allocator = match Allocator::new(file_data) {
            Ok(a) => a,
            Err(e) => {
                return Err(e);
            },
        };
        let directory = match allocator.traverse() {
            Ok(d) => d,
            Err(e) => {
                return Err(e);
            },
        };
        Ok(DsStore { directory })
    }

    /// The decoded directory listing.
    pub fn contents(&self) -> (r: &Vec<DirEntry>)
        ensures
            *r == self.directory.contents,
    {
        &self.directory.contents
    }
}

} // verus!
