//! The header of a B-tree page.

use vstd::prelude::*;
use vstd::slice::slice_subrange;
use crate::bytes::{be_u16, be_u32, read_u16, read_u32};
use crate::error::{Error, PageFault};

verus! {

/// The four kinds of B-tree page.
#[derive(Debug, Clone, Copy, PartialEq, Eq, Structural)]
pub enum BTreePageType {
    IndexInterior,
    IndexLeaf,
    TableInterior,
    TableLeaf,
}

/// The kind of page that the type tag `tag` stands for, if any.
pub open spec fn page_type_of(tag: u8) -> Option<BTreePageType> {
    if tag == 2 {
        Some(BTreePageType::IndexInterior)
    } else if tag == 5 {
        Some(BTreePageType::TableInterior)
    } else if tag == 10 {
        Some(BTreePageType::IndexLeaf)
    } else if tag == 13 {
        Some(BTreePageType::TableLeaf)
    } else {
        None
    }
}

impl BTreePageType {
    /// Whether pages of this kind hold child pointers.
    pub open spec fn is_interior(self) -> bool {
        self == BTreePageType::IndexInterior || self == BTreePageType::TableInterior
    }

    /// The length in bytes of the header of a page of this kind.
    pub open spec fn header_len(self) -> nat {
        if self.is_interior() {
            12
        } else {
            8
        }
    }

    /// The kind of page with the type tag `tag`. Fails with `MalformedPage`
    /// for any tag but 2, 5, 10 and 13.
    pub fn from_tag(tag: u8) -> (result: Result<BTreePageType, Error>)
        ensures
            match page_type_of(tag) {
                Some(page_type) => result == Ok::<BTreePageType, Error>(page_type),
                None => result == Err::<BTreePageType, Error>(
                    Error::MalformedPage(PageFault::PageType),
                ),
            },
    {
        if tag == 2 {
            Ok(BTreePageType::IndexInterior)
        } else if tag == 5 {
            Ok(BTreePageType::TableInterior)
        } else if tag == 10 {
            Ok(BTreePageType::IndexLeaf)
        } else if tag == 13 {
            Ok(BTreePageType::TableLeaf)
        } else {
            Err(Error::MalformedPage(PageFault::PageType))
        }
    }
}

/// The header of a B-tree page.
#[derive(Debug, Clone, Copy, PartialEq, Eq)]
pub struct BTreePageHeader {
    pub page_type: BTreePageType,
    /// The offset of the first freeblock, or zero where there is none.
    pub first_freeblock_offset: u16,
    pub number_of_cells: u16,
    /// The offset at which the cell content area starts; a stored zero is
    /// held as 65536.
    pub cell_content_area_offset: u32,
    pub number_of_fragmented_free_bytes: u8,
    /// The right-most child; interior pages have one, leaf pages none.
    pub right_most_pointer: Option<u32>,
}

/// The offset that the stored value `raw` of the cell content area stands for.
pub open spec fn effective_content_offset(raw: nat) -> nat {
    if raw == 0 {
        65536
    } else {
        raw
    }
}

/// The page header that `bytes` starts with.
///
/// `TruncatedHeader` where `bytes` is empty, `PageType` where the first
/// byte is no type tag, `TruncatedHeader` where `bytes` is shorter than the
/// header of that kind of page: 12 bytes for an interior page, 8 for a leaf.
pub open spec fn page_header_of(bytes: Seq<u8>) -> Result<BTreePageHeader, Error> {
    if bytes.len() == 0 {
        Err(Error::MalformedPage(PageFault::TruncatedHeader))
    } else {
        match page_type_of(bytes[0]) {
            None => Err(Error::MalformedPage(PageFault::PageType)),
            Some(page_type) => if bytes.len() < page_type.header_len() {
                Err(Error::MalformedPage(PageFault::TruncatedHeader))
            } else {
                Ok(
                    BTreePageHeader {
                        page_type,
                        first_freeblock_offset: be_u16(bytes, 1) as u16,
                        number_of_cells: be_u16(bytes, 3) as u16,
                        cell_content_area_offset: effective_content_offset(
                            be_u16(bytes, 5),
                        ) as u32,
                        number_of_fragmented_free_bytes: bytes[7],
                        right_most_pointer: if page_type.is_interior() {
                            Some(be_u32(bytes, 8) as u32)
                        } else {
                            None
                        },
                    },
                )
            },
        }
    }
}

/// Decodes the page header at the start of `page_bytes`: the header, and
/// the bytes that follow it.
pub fn parse_btree_page_header(page_bytes: &[u8]) -> (result: Result<
    (&[u8], BTreePageHeader),
    Error,
>)
    ensures
        match page_header_of(page_bytes@) {
            Ok(header) => result matches Ok((rest, h)) && h == header && rest@
                == page_bytes@.subrange(
                header.page_type.header_len() as int,
                page_bytes@.len() as int,
            ),
            Err(e) => result == Err::<(&[u8], BTreePageHeader), Error>(e),
        },
{
    if page_bytes.len() == 0 {
        return Err(Error::MalformedPage(PageFault::TruncatedHeader));
    }
    let page_type = BTreePageType::from_tag(page_bytes[0])?;
    let interior: bool = match page_type {
        BTreePageType::IndexInterior => true,
        BTreePageType::TableInterior => true,
        BTreePageType::IndexLeaf => false,
        BTreePageType::TableLeaf => false,
    };
    let header_len: usize = if interior {
        12
    } else {
        8
    };
    if page_bytes.len() < header_len {
        return Err(Error::MalformedPage(PageFault::TruncatedHeader));
    }
    let raw_content_offset: u16 = read_u16(page_bytes, 5);
    let right_most_pointer: Option<u32> = if interior {
        Some(read_u32(page_bytes, 8))
    } else {
        None
    };
    let header = BTreePageHeader {
        page_type,
        first_freeblock_offset: read_u16(page_bytes, 1),
        number_of_cells: read_u16(page_bytes, 3),
        cell_content_area_offset: if raw_content_offset == 0 {
            65536
        } else {
            raw_content_offset as u32
        },
        number_of_fragmented_free_bytes: page_bytes[7],
        right_most_pointer,
    };
    Ok((slice_subrange(page_bytes, header_len, page_bytes.len()), header))
}

} // verus!
