//! The uses that a page of the file can have.

use vstd::prelude::*;
use vstd::slice::slice_to_vec;
use crate::btree_page::{btree_page_of, BTreePage};
use crate::error::Error;

verus! {

/// The uses that a page of the file can have.
#[derive(Debug, Clone, Copy, PartialEq, Eq, Structural)]
pub enum PageType {
    LockByte,
    FreeList,
    BTree,
    PayloadOverflow,
    PointerMap,
}

/// The lock-byte page: its bytes, undecoded.
#[derive(Debug, Clone, PartialEq, Eq)]
pub struct LockBytePage {
    pub content: Vec<u8>,
}

/// A freelist trunk or leaf page: its bytes, undecoded.
#[derive(Debug, Clone, PartialEq, Eq)]
pub struct FreeListPage {
    pub content: Vec<u8>,
}

/// A payload overflow page: its bytes, undecoded.
#[derive(Debug, Clone, PartialEq, Eq)]
pub struct PayloadOverflowPage {
    pub content: Vec<u8>,
}

/// A pointer map page: its bytes, undecoded.
#[derive(Debug, Clone, PartialEq, Eq)]
pub struct PointerMapPage {
    pub content: Vec<u8>,
}

/// A page of the file. Only B-tree pages are decoded; a page of another use
/// holds its bytes as they are.
#[derive(Debug, Clone, PartialEq, Eq)]
pub enum Page {
    LockByte(LockBytePage),
    FreeList(FreeListPage),
    BTree(BTreePage),
    PayloadOverflow(PayloadOverflowPage),
    PointerMap(PointerMapPage),
}

impl Page {
    /// The use of the page.
    pub open spec fn page_type(&self) -> PageType {
        match self {
            Page::LockByte(_) => PageType::LockByte,
            Page::FreeList(_) => PageType::FreeList,
            Page::BTree(_) => PageType::BTree,
            Page::PayloadOverflow(_) => PageType::PayloadOverflow,
            Page::PointerMap(_) => PageType::PointerMap,
        }
    }

    /// The bytes that a page of a use other than B-tree holds.
    pub open spec fn raw_content(&self) -> Option<Seq<u8>> {
        match self {
            Page::LockByte(page) => Some(page.content@),
            Page::FreeList(page) => Some(page.content@),
            Page::BTree(_) => None,
            Page::PayloadOverflow(page) => Some(page.content@),
            Page::PointerMap(page) => Some(page.content@),
        }
    }
}

/// Makes a page of the use `page_type` of the bytes `page_bytes` of page
/// `page_number`. A B-tree page is decoded; a page of another use holds
/// the bytes as they are.
pub fn parse_page(page_bytes: &[u8], page_number: u32, page_type: PageType) -> (result: Result<
    Page,
    Error,
>)
    ensures
        if page_type == PageType::BTree {
            match btree_page_of(page_bytes@, page_number) {
                Ok(decoded) => result matches Ok(Page::BTree(page)) && page@ == decoded,
                Err(e) => result == Err::<Page, Error>(e),
            }
        } else {
            result matches Ok(page) && page.page_type() == page_type && page.raw_content() == Some(
                page_bytes@,
            )
        },
{
    match page_type {
        PageType::LockByte => Ok(Page::LockByte(LockBytePage { content: slice_to_vec(page_bytes) })),
        PageType::FreeList => Ok(Page::FreeList(FreeListPage { content: slice_to_vec(page_bytes) })),
        PageType::PayloadOverflow => Ok(
            Page::PayloadOverflow(PayloadOverflowPage { content: slice_to_vec(page_bytes) }),
        ),
        PageType::PointerMap => Ok(
            Page::PointerMap(PointerMapPage { content: slice_to_vec(page_bytes) }),
        ),
        PageType::BTree => {
            let page = BTreePage::parse(page_bytes, page_number)?;
            Ok(Page::BTree(page))
        },
    }
}

} // verus!
