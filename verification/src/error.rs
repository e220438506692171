//! The errors of the engine.

use vstd::prelude::*;

verus! {

/// Which rule of the database header a file breaks.
#[derive(Debug, Clone, Copy, PartialEq, Eq)]
pub enum HeaderFault {
    /// The first 16 bytes are not `"SQLite format 3\0"`.
    Magic,
    /// The page size is neither 1 nor a power of two in `[512, 32768]`.
    PageSize,
    /// The payload fractions are not 64, 32 and 32.
    PayloadFractions,
    /// The text encoding is greater than 3.
    TextEncoding,
    /// One of the 20 bytes reserved for expansion is not zero.
    ReservedBytes,
}

/// Which inconsistency a B-tree page shows.
#[derive(Debug, Clone, Copy, PartialEq, Eq)]
pub enum PageFault {
    /// The page ends before its header does.
    TruncatedHeader,
    /// The type tag is none of 2, 5, 10 and 13.
    PageType,
    /// The page ends before its cell-pointer array does.
    TruncatedPointerArray,
    /// A cell pointer lies beyond the end of the page.
    CellOffset,
    /// A cell ends before its fixed fields or one of its varints do.
    TruncatedCell,
}

/// Why a tree walk gave up.
#[derive(Debug, Clone, Copy, PartialEq, Eq)]
pub enum TreeFault {
    /// A page number is zero, which numbers no page.
    PageNumber,
    /// A page reachable from the root is no B-tree page, or a cell that
    /// should hold a row is no table leaf cell.
    PageKind,
    /// More pages were visited than the database holds.
    Cycle,
}

/// The errors that the engine distinguishes.
#[derive(Debug, Clone, Copy, PartialEq, Eq)]
pub enum Error {
    /// The database header breaks a rule of the format.
    BadHeader(HeaderFault),
    /// The file ended before the bytes that were asked for.
    ShortRead,
    /// A varint is cut short.
    MalformedVarint,
    /// A B-tree page is inconsistent.
    MalformedPage(PageFault),
    /// A record does not keep to its header.
    MalformedRecord,
    /// A record holds one of the reserved serial types.
    UnknownSerialType,
    /// The statement that created a table has no block of column
    /// definitions.
    UnparseableDDL,
    /// A tree holds a page that does not belong there, or more pages than
    /// the database.
    CorruptTree(TreeFault),
    /// A text is no statement that the engine runs.
    SqlParse,
    /// A statement names a table or a column that the schema does not have.
    Unresolved,
    /// The file or the statement asks for what the engine does not do:
    /// payload on overflow pages, a target that is no table.
    Unsupported,
}

/// `result` with `front` put before what it holds.
pub open spec fn after<T>(front: Seq<T>, result: Result<Seq<T>, Error>) -> Result<
    Seq<T>,
    Error,
> {
    match result {
        Ok(rest) => Ok(front + rest),
        Err(e) => Err(e),
    }
}

} // verus!
