//! B-tree pages: the cell-pointer array and the cells that it points at.

use vstd::prelude::*;
use vstd::slice::slice_subrange;
use crate::bytes::{be_u16, read_u16};
use crate::cell::{cell_of, parse_cell, CellType, CellView};
use crate::error::{after, Error, PageFault};
use crate::header::DATABASE_HEADER_SIZE;
use crate::page_header::{page_header_of, parse_btree_page_header, BTreePageHeader, BTreePageType};

verus! {

/// A decoded B-tree page: its header, and its cells in the order of the
/// cell-pointer array.
#[derive(Debug, Clone, PartialEq, Eq)]
pub struct BTreePage {
    pub page_header: BTreePageHeader,
    pub cells: Vec<CellType>,
}

/// What a `BTreePage` holds.
pub struct BTreePageView {
    pub page_header: BTreePageHeader,
    pub cells: Seq<CellView>,
}

/// What each of `cells` holds.
pub open spec fn cell_views(cells: Seq<CellType>) -> Seq<CellView> {
    Seq::new(cells.len(), |i: int| cells[i]@)
}

impl View for BTreePage {
    type V = BTreePageView;

    open spec fn view(&self) -> BTreePageView {
        BTreePageView { page_header: self.page_header, cells: cell_views(self.cells@) }
    }
}

impl BTreePageView {
    /// Whether the page has one cell for each that its header counts, all
    /// of the page's kind.
    pub open spec fn well_formed(self) -> bool {
        &&& self.cells.len() == self.page_header.number_of_cells
        &&& forall|i: int|
            0 <= i < self.cells.len() ==> (#[trigger] self.cells[i]).page_type()
                == self.page_header.page_type
        &&& self.page_header.right_most_pointer.is_some()
            == self.page_header.page_type.is_interior()
    }
}

/// The `count` cell pointers that `data` starts with: big-endian numbers of
/// two bytes each.
pub open spec fn pointers_of(data: Seq<u8>, count: nat) -> Seq<u16> {
    Seq::new(count, |i: int| be_u16(data, 2 * i) as u16)
}

/// The cell-pointer array of `count` entries at the start of `data`;
/// `TruncatedPointerArray` where `data` is shorter than the array.
pub open spec fn pointer_array_of(data: Seq<u8>, count: nat) -> Result<Seq<u16>, Error> {
    if data.len() < 2 * count {
        Err(Error::MalformedPage(PageFault::TruncatedPointerArray))
    } else {
        Ok(pointers_of(data, count))
    }
}

/// The cells of a page at which `pointers` point, in the order of
/// `pointers`, whatever the order of the offsets.
///
/// A pointer must lie in the cell content area, which runs from
/// `content_offset` to the end of the page: `CellOffset` for one that does
/// not. Each cell is read from its offset on. The first pointer that
/// cannot be followed decides the error.
pub open spec fn cells_of(
    page: Seq<u8>,
    pointers: Seq<u16>,
    page_type: BTreePageType,
    content_offset: nat,
) -> Result<Seq<CellView>, Error>
    decreases pointers.len(),
{
    if pointers.len() == 0 {
        Ok(Seq::empty())
    } else {
        let at = pointers[0] as nat;
        if at < content_offset || at >= page.len() {
            Err(Error::MalformedPage(PageFault::CellOffset))
        } else {
            match cell_of(page_type, page.subrange(at as int, page.len() as int)) {
                Err(e) => Err(e),
                Ok(cell) => after(
                    seq![cell],
                    cells_of(
                        page,
                        pointers.subrange(1, pointers.len() as int),
                        page_type,
                        content_offset,
                    ),
                ),
            }
        }
    }
}

/// The offset in a page at which its B-tree page header starts: 100 in
/// page 1, which starts with the database header, and 0 in any other.
pub open spec fn page_header_offset(page_number: u32) -> nat {
    if page_number == 1 {
        100
    } else {
        0
    }
}

/// The B-tree page that the bytes `page` of page `page_number` spell.
///
/// The page header is read at `page_header_offset`, the cell-pointer array
/// follows it, and the cell offsets count from the start of `page`.
pub open spec fn btree_page_of(page: Seq<u8>, page_number: u32) -> Result<BTreePageView, Error> {
    let start = page_header_offset(page_number);
    if page.len() < start {
        Err(Error::MalformedPage(PageFault::TruncatedHeader))
    } else {
        match page_header_of(page.subrange(start as int, page.len() as int)) {
            Err(e) => Err(e),
            Ok(header) => match pointer_array_of(
                page.subrange((start + header.page_type.header_len()) as int, page.len() as int),
                header.number_of_cells as nat,
            ) {
                Err(e) => Err(e),
                Ok(pointers) => match cells_of(
                    page,
                    pointers,
                    header.page_type,
                    header.cell_content_area_offset as nat,
                ) {
                    Err(e) => Err(e),
                    Ok(cells) => Ok(BTreePageView { page_header: header, cells }),
                },
            },
        }
    }
}

/// Reads the cell-pointer array of `number_of_cells` entries at the start
/// of `data`: the pointers, and the bytes that follow the array.
pub fn parse_cell_pointer_array(data: &[u8], number_of_cells: usize) -> (result: Result<
    (&[u8], Vec<u16>),
    Error,
>)
    ensures
        match pointer_array_of(data@, number_of_cells as nat) {
            Ok(pointers) => result matches Ok((rest, p)) && p@ == pointers && rest@
                == data@.subrange(2 * number_of_cells, data@.len() as int),
            Err(e) => result == Err::<(&[u8], Vec<u16>), Error>(e),
        },
{
    if data.len() / 2 < number_of_cells {
        return Err(Error::MalformedPage(PageFault::TruncatedPointerArray));
    }
    let mut pointers: Vec<u16> = Vec::new();
    let mut i: usize = 0;
    while i < number_of_cells
        invariant
            i <= number_of_cells,
            2 * number_of_cells <= data.len(),
            pointers@ == pointers_of(data@, i as nat),
        decreases number_of_cells - i,
    {
        let pointer: u16 = read_u16(data, 2 * i);
        pointers.push(pointer);
        i = i + 1;
        proof {
            assert(pointers@ =~= pointers_of(data@, i as nat));
        }
    }
    Ok((slice_subrange(data, 2 * number_of_cells, data.len()), pointers))
}

/// Decodes the cells of the page `page_data` at which `cell_pointer_array`
/// points, in the order of the array.
pub fn parse_cells(
    page_data: &[u8],
    cell_pointer_array: &Vec<u16>,
    page_header: &BTreePageHeader,
) -> (result: Result<Vec<CellType>, Error>)
    ensures
        match cells_of(
            page_data@,
            cell_pointer_array@,
            page_header.page_type,
            page_header.cell_content_area_offset as nat,
        ) {
            Ok(cells) => result matches Ok(c) && cell_views(c@) == cells,
            Err(e) => result == Err::<Vec<CellType>, Error>(e),
        },
{
    let page_type = page_header.page_type;
    let content_offset: u32 = page_header.cell_content_area_offset;
    let mut cells: Vec<CellType> = Vec::new();
    let mut i: usize = 0;
    proof {
        assert(cell_pointer_array@.subrange(0, cell_pointer_array@.len() as int)
            =~= cell_pointer_array@);
        assert(cell_views(cells@) =~= Seq::<CellView>::empty());
        let whole = cells_of(page_data@, cell_pointer_array@, page_type, content_offset as nat);
        if let Ok(all) = whole {
            assert(Seq::<CellView>::empty() + all =~= all);
        }
    }
    while i < cell_pointer_array.len()
        invariant
            i <= cell_pointer_array.len(),
            page_type == page_header.page_type,
            content_offset == page_header.cell_content_area_offset,
            cells_of(page_data@, cell_pointer_array@, page_type, content_offset as nat) == after(
                cell_views(cells@),
                cells_of(
                    page_data@,
                    cell_pointer_array@.subrange(i as int, cell_pointer_array@.len() as int),
                    page_type,
                    content_offset as nat,
                ),
            ),
        decreases cell_pointer_array.len() - i,
    {
        let ghost left = cell_pointer_array@.subrange(i as int, cell_pointer_array@.len() as int);
        let ghost before = cell_views(cells@);
        proof {
            assert(left[0] == cell_pointer_array@[i as int]);
            assert(left.subrange(1, left.len() as int) =~= cell_pointer_array@.subrange(
                i + 1,
                cell_pointer_array@.len() as int,
            ));
        }
        let at: usize = cell_pointer_array[i] as usize;
        if (at as u32) < content_offset || at >= page_data.len() {
            return Err(Error::MalformedPage(PageFault::CellOffset));
        }
        let cell = parse_cell(page_type, slice_subrange(page_data, at, page_data.len()))?;
        proof {
            let tail = cells_of(
                page_data@,
                cell_pointer_array@.subrange(i + 1, cell_pointer_array@.len() as int),
                page_type,
                content_offset as nat,
            );
            assert(cell_views(cells@.push(cell)) =~= before.push(cell@));
            if let Ok(more) = tail {
                assert(before + (seq![cell@] + more) =~= before.push(cell@) + more);
            }
        }
        cells.push(cell);
        i = i + 1;
    }
    proof {
        assert(cell_views(cells@) + Seq::<CellView>::empty() =~= cell_views(cells@));
    }
    Ok(cells)
}

/// Every page that decodes is well formed.
pub proof fn lemma_page_well_formed(page: Seq<u8>, page_number: u32)
    ensures
        btree_page_of(page, page_number) matches Ok(decoded) ==> decoded.well_formed(),
{
    if let Ok(decoded) = btree_page_of(page, page_number) {
        let start = page_header_offset(page_number);
        let header = decoded.page_header;
        let pointers = pointer_array_of(
            page.subrange((start + header.page_type.header_len()) as int, page.len() as int),
            header.number_of_cells as nat,
        ).unwrap();
        lemma_cells_well_formed(
            page,
            pointers,
            header.page_type,
            header.cell_content_area_offset as nat,
        );
    }
}

/// The cells that decode are as many as the pointers, and of the page's kind.
pub proof fn lemma_cells_well_formed(
    page: Seq<u8>,
    pointers: Seq<u16>,
    page_type: BTreePageType,
    content_offset: nat,
)
    ensures
        cells_of(page, pointers, page_type, content_offset) matches Ok(cells) ==> cells.len()
            == pointers.len() && forall|i: int|
            0 <= i < cells.len() ==> (#[trigger] cells[i]).page_type() == page_type,
    decreases pointers.len(),
{
    if pointers.len() > 0 {
        lemma_cells_well_formed(
            page,
            pointers.subrange(1, pointers.len() as int),
            page_type,
            content_offset,
        );
    }
}

impl BTreePage {
    /// Decodes the B-tree page that the bytes `page` of page `page_number`
    /// hold.
    pub fn parse(page: &[u8], page_number: u32) -> (result: Result<BTreePage, Error>)
        ensures
            match btree_page_of(page@, page_number) {
                Ok(decoded) => result matches Ok(p) && p@ == decoded && decoded.well_formed(),
                Err(e) => result == Err::<BTreePage, Error>(e),
            },
    {
        let start: usize = if page_number == 1 {
            DATABASE_HEADER_SIZE
        } else {
            0
        };
        if page.len() < start {
            return Err(Error::MalformedPage(PageFault::TruncatedHeader));
        }
        let (rest, page_header) = parse_btree_page_header(slice_subrange(page, start, page.len()))?;
        proof {
            assert(rest@ =~= page@.subrange(
                (start + page_header.page_type.header_len()) as int,
                page@.len() as int,
            ));
        }
        let (_, pointers) = parse_cell_pointer_array(rest, page_header.number_of_cells as usize)?;
        let cells = parse_cells(page, &pointers, &page_header)?;
        proof {
            lemma_page_well_formed(page@, page_number);
        }
        Ok(BTreePage { page_header, cells })
    }
}

} // verus!
