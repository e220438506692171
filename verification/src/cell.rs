//! The four kinds of cell of a B-tree page.

use vstd::prelude::*;
use vstd::slice::{slice_subrange, slice_to_vec};
use crate::bytes::{be_u32, read_u32};
use crate::error::{Error, PageFault};
use crate::page_header::BTreePageType;
use crate::varint::{decode_varint, lemma_decode_bounds, take_varint};

verus! {

/// The payload of a cell.
#[derive(Debug, Clone, PartialEq, Eq)]
pub struct Payload {
    pub content: Vec<u8>,
}

/// A cell of a table leaf page: one row.
#[derive(Debug, Clone, PartialEq, Eq)]
pub struct TableLeafCell {
    /// The number of bytes of payload.
    pub payload_size: u64,
    /// The integer key of the row, its rowid.
    pub key: u64,
    pub payload: Payload,
    /// The first page of the overflow list; `None` where the whole payload
    /// is on the page.
    pub first_overflow_page_number: Option<u32>,
}

/// A cell of a table interior page: a child and the largest key below it.
#[derive(Debug, Clone, Copy, PartialEq, Eq)]
pub struct TableInteriorCell {
    pub left_child_pointer: u32,
    pub key: u64,
}

/// A cell of an index leaf page.
#[derive(Debug, Clone, PartialEq, Eq)]
pub struct IndexLeafCell {
    pub payload_size: u64,
    pub payload: Payload,
    pub first_overflow_page_number: Option<u32>,
}

/// A cell of an index interior page.
#[derive(Debug, Clone, PartialEq, Eq)]
pub struct IndexInteriorCell {
    pub left_child_pointer: u32,
    pub payload_size: u64,
    pub payload: Payload,
    pub first_overflow_page_number: Option<u32>,
}

/// A cell of any of the four kinds.
#[derive(Debug, Clone, PartialEq, Eq)]
pub enum CellType {
    TableLeaf(TableLeafCell),
    TableInterior(TableInteriorCell),
    IndexLeaf(IndexLeafCell),
    IndexInterior(IndexInteriorCell),
}

/// What a `CellType` holds.
pub enum CellView {
    TableLeaf { payload_size: u64, key: u64, payload: Seq<u8>, overflow: Option<u32> },
    TableInterior { left_child_pointer: u32, key: u64 },
    IndexLeaf { payload_size: u64, payload: Seq<u8>, overflow: Option<u32> },
    IndexInterior { left_child_pointer: u32, payload_size: u64, payload: Seq<u8>, overflow: Option<u32> },
}

impl View for CellType {
    type V = CellView;

    open spec fn view(&self) -> CellView {
        match self {
            CellType::TableLeaf(cell) => CellView::TableLeaf {
                payload_size: cell.payload_size,
                key: cell.key,
                payload: cell.payload.content@,
                overflow: cell.first_overflow_page_number,
            },
            CellType::TableInterior(cell) => CellView::TableInterior {
                left_child_pointer: cell.left_child_pointer,
                key: cell.key,
            },
            CellType::IndexLeaf(cell) => CellView::IndexLeaf {
                payload_size: cell.payload_size,
                payload: cell.payload.content@,
                overflow: cell.first_overflow_page_number,
            },
            CellType::IndexInterior(cell) => CellView::IndexInterior {
                left_child_pointer: cell.left_child_pointer,
                payload_size: cell.payload_size,
                payload: cell.payload.content@,
                overflow: cell.first_overflow_page_number,
            },
        }
    }
}

impl CellView {
    /// The kind of page that holds cells of this kind.
    pub open spec fn page_type(self) -> BTreePageType {
        match self {
            CellView::TableLeaf { .. } => BTreePageType::TableLeaf,
            CellView::TableInterior { .. } => BTreePageType::TableInterior,
            CellView::IndexLeaf { .. } => BTreePageType::IndexLeaf,
            CellView::IndexInterior { .. } => BTreePageType::IndexInterior,
        }
    }
}

/// The error of a cell that ends too early.
pub open spec fn truncated_cell() -> Error {
    Error::MalformedPage(PageFault::TruncatedCell)
}

/// The payload at the start of `input`, which declares `payload_size`
/// bytes. `Unsupported` where `input` holds fewer bytes than that: the
/// payload then goes on in overflow pages, which are not read.
pub open spec fn payload_of(input: Seq<u8>, payload_size: nat) -> Result<Seq<u8>, Error> {
    if payload_size > input.len() {
        Err(Error::Unsupported)
    } else {
        Ok(input.subrange(0, payload_size as int))
    }
}

/// The table leaf cell that `input` starts with: the varint of the payload
/// size, the varint of the rowid, then the payload.
pub open spec fn table_leaf_cell_of(input: Seq<u8>) -> Result<CellView, Error> {
    match decode_varint(input) {
        None => Err(truncated_cell()),
        Some((payload_size, n)) => match decode_varint(input.subrange(n as int, input.len() as int)) {
            None => Err(truncated_cell()),
            Some((key, m)) => match payload_of(
                input.subrange((n + m) as int, input.len() as int),
                payload_size,
            ) {
                Err(e) => Err(e),
                Ok(payload) => Ok(
                    CellView::TableLeaf {
                        payload_size: payload_size as u64,
                        key: key as u64,
                        payload,
                        overflow: None,
                    },
                ),
            },
        },
    }
}

/// The table interior cell that `input` starts with: the four bytes of the
/// left child's page number, then the varint of the key.
pub open spec fn table_interior_cell_of(input: Seq<u8>) -> Result<CellView, Error> {
    if input.len() < 4 {
        Err(truncated_cell())
    } else {
        match decode_varint(input.subrange(4, input.len() as int)) {
            None => Err(truncated_cell()),
            Some((key, m)) => Ok(
                CellView::TableInterior {
                    left_child_pointer: be_u32(input, 0) as u32,
                    key: key as u64,
                },
            ),
        }
    }
}

/// The index leaf cell that `input` starts with: the varint of the payload
/// size, then the payload.
pub open spec fn index_leaf_cell_of(input: Seq<u8>) -> Result<CellView, Error> {
    match decode_varint(input) {
        None => Err(truncated_cell()),
        Some((payload_size, n)) => match payload_of(
            input.subrange(n as int, input.len() as int),
            payload_size,
        ) {
            Err(e) => Err(e),
            Ok(payload) => Ok(
                CellView::IndexLeaf { payload_size: payload_size as u64, payload, overflow: None },
            ),
        },
    }
}

/// The index interior cell that `input` starts with: the four bytes of the
/// left child's page number, the varint of the payload size, then the
/// payload.
pub open spec fn index_interior_cell_of(input: Seq<u8>) -> Result<CellView, Error> {
    if input.len() < 4 {
        Err(truncated_cell())
    } else {
        match decode_varint(input.subrange(4, input.len() as int)) {
            None => Err(truncated_cell()),
            Some((payload_size, n)) => match payload_of(
                input.subrange((4 + n) as int, input.len() as int),
                payload_size,
            ) {
                Err(e) => Err(e),
                Ok(payload) => Ok(
                    CellView::IndexInterior {
                        left_child_pointer: be_u32(input, 0) as u32,
                        payload_size: payload_size as u64,
                        payload,
                        overflow: None,
                    },
                ),
            },
        }
    }
}

/// The cell that `input` starts with, on a page of kind `page_type`.
pub open spec fn cell_of(page_type: BTreePageType, input: Seq<u8>) -> Result<CellView, Error> {
    match page_type {
        BTreePageType::TableLeaf => table_leaf_cell_of(input),
        BTreePageType::TableInterior => table_interior_cell_of(input),
        BTreePageType::IndexLeaf => index_leaf_cell_of(input),
        BTreePageType::IndexInterior => index_interior_cell_of(input),
    }
}

/// Reads a varint of a cell: the value, and the bytes that follow it.
fn take_cell_varint(input: &[u8]) -> (result: Result<(&[u8], u64), Error>)
    ensures
        match decode_varint(input@) {
            Some((value, len)) => result matches Ok((rest, v)) && v == value && len
                <= input@.len() && rest@ == input@.subrange(len as int, input@.len() as int),
            None => result == Err::<(&[u8], u64), Error>(truncated_cell()),
        },
{
    proof {
        lemma_decode_bounds(input@);
    }
    match take_varint(input) {
        Ok(pair) => Ok(pair),
        Err(_) => Err(Error::MalformedPage(PageFault::TruncatedCell)),
    }
}

/// Copies the payload of `payload_size` bytes from the start of `input`.
fn take_payload(input: &[u8], payload_size: u64) -> (result: Result<Payload, Error>)
    ensures
        match payload_of(input@, payload_size as nat) {
            Ok(payload) => result matches Ok(p) && p.content@ == payload,
            Err(e) => result == Err::<Payload, Error>(e),
        },
{
    if payload_size > input.len() as u64 {
        return Err(Error::Unsupported);
    }
    Ok(Payload { content: slice_to_vec(slice_subrange(input, 0, payload_size as usize)) })
}

/// Decodes the table leaf cell at the start of `input`.
///
/// Fails with `MalformedPage` where a varint is cut short, and with
/// `Unsupported` where the payload is longer than the bytes that follow.
pub fn parse_table_leaf_cell(input: &[u8]) -> (result: Result<CellType, Error>)
    ensures
        match table_leaf_cell_of(input@) {
            Ok(cell) => result matches Ok(c) && c@ == cell,
            Err(e) => result == Err::<CellType, Error>(e),
        },
{
    let (after_size, payload_size) = take_cell_varint(input)?;
    let (after_key, key) = take_cell_varint(after_size)?;
    proof {
        let (size, n) = decode_varint(input@).unwrap();
        let (k, m) = decode_varint(after_size@).unwrap();
        assert(after_key@ =~= input@.subrange((n + m) as int, input@.len() as int));
    }
    let payload = take_payload(after_key, payload_size)?;
    Ok(
        CellType::TableLeaf(
            TableLeafCell { payload_size, key, payload, first_overflow_page_number: None },
        ),
    )
}

/// Decodes the table interior cell at the start of `input`.
///
/// Fails with `MalformedPage` where `input` holds fewer than four bytes or
/// the varint is cut short.
pub fn parse_table_interior_cell(input: &[u8]) -> (result: Result<CellType, Error>)
    ensures
        match table_interior_cell_of(input@) {
            Ok(cell) => result matches Ok(c) && c@ == cell,
            Err(e) => result == Err::<CellType, Error>(e),
        },
{
    if input.len() < 4 {
        return Err(Error::MalformedPage(PageFault::TruncatedCell));
    }
    let left_child_pointer: u32 = read_u32(input, 0);
    let (_rest, key) = take_cell_varint(slice_subrange(input, 4, input.len()))?;
    Ok(CellType::TableInterior(TableInteriorCell { left_child_pointer, key }))
}

/// Decodes the index leaf cell at the start of `input`.
///
/// Fails with `MalformedPage` where the varint is cut short, and with
/// `Unsupported` where the payload is longer than the bytes that follow.
pub fn parse_index_leaf_cell(input: &[u8]) -> (result: Result<CellType, Error>)
    ensures
        match index_leaf_cell_of(input@) {
            Ok(cell) => result matches Ok(c) && c@ == cell,
            Err(e) => result == Err::<CellType, Error>(e),
        },
{
    let (after_size, payload_size) = take_cell_varint(input)?;
    let payload = take_payload(after_size, payload_size)?;
    Ok(CellType::IndexLeaf(IndexLeafCell { payload_size, payload, first_overflow_page_number: None }))
}

/// Decodes the index interior cell at the start of `input`.
///
/// Fails with `MalformedPage` where `input` holds fewer than four bytes or
/// the varint is cut short, and with `Unsupported` where the payload is
/// longer than the bytes that follow.
pub fn parse_index_interior_cell(input: &[u8]) -> (result: Result<CellType, Error>)
    ensures
        match index_interior_cell_of(input@) {
            Ok(cell) => result matches Ok(c) && c@ == cell,
            Err(e) => result == Err::<CellType, Error>(e),
        },
{
    if input.len() < 4 {
        return Err(Error::MalformedPage(PageFault::TruncatedCell));
    }
    let left_child_pointer: u32 = read_u32(input, 0);
    let (after_size, payload_size) = take_cell_varint(slice_subrange(input, 4, input.len()))?;
    proof {
        let (size, n) = decode_varint(input@.subrange(4, input@.len() as int)).unwrap();
        assert(after_size@ =~= input@.subrange((4 + n) as int, input@.len() as int));
    }
    let payload = take_payload(after_size, payload_size)?;
    Ok(
        CellType::IndexInterior(
            IndexInteriorCell {
                left_child_pointer,
                payload_size,
                payload,
                first_overflow_page_number: None,
            },
        ),
    )
}

/// Decodes the cell at the start of `input`, on a page of kind `page_type`.
pub fn parse_cell(page_type: BTreePageType, input: &[u8]) -> (result: Result<CellType, Error>)
    ensures
        match cell_of(page_type, input@) {
            Ok(cell) => result matches Ok(c) && c@ == cell,
            Err(e) => result == Err::<CellType, Error>(e),
        },
{
    match page_type {
        BTreePageType::TableLeaf => parse_table_leaf_cell(input),
        BTreePageType::TableInterior => parse_table_interior_cell(input),
        BTreePageType::IndexLeaf => parse_index_leaf_cell(input),
        BTreePageType::IndexInterior => parse_index_interior_cell(input),
    }
}

} // verus!
