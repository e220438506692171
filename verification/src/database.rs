//! The database as a whole: its pages, and the walk through a table's tree.

use vstd::prelude::*;
use vstd::slice::slice_subrange;
use crate::btree_page::{btree_page_of, cell_views, BTreePage, BTreePageView};
use crate::cell::{CellType, CellView};
use crate::error::{after, Error, PageFault, TreeFault};
use crate::header::DatabaseHeader;
use crate::page::{parse_page, Page, PageType};
use crate::page_header::BTreePageType;
use crate::predicate::{acceptance, Filter};
use crate::row::{cell_to_row, row_of, row_views, Row, RowView};
use crate::schema::{TableInformation, TableInformationView};

verus! {

/// A database: the bytes of its file, and the header that they start with.
#[derive(Debug, Clone, PartialEq, Eq)]
pub struct Database {
    pub file: Vec<u8>,
    pub header: DatabaseHeader,
}

/// The offset in the file at which the content of page `page_number`
/// starts: behind the database header for page 1, at the start of the page
/// for any other.
pub open spec fn content_offset(page_number: nat, page_size: nat) -> nat {
    if page_number == 1 {
        100
    } else {
        ((page_number - 1) * page_size) as nat
    }
}

/// The bytes of page `page_number`, where pages are numbered from 1 and
/// hold `page_size` bytes each. Page 1 comes whole, with the database
/// header at its start. `ShortRead` where the file ends before the page
/// does.
pub open spec fn page_bytes_of(file: Seq<u8>, page_size: u32, page_number: u32) -> Result<
    Seq<u8>,
    Error,
> {
    if page_number * page_size > file.len() {
        Err(Error::ShortRead)
    } else {
        Ok(file.subrange((page_number - 1) * page_size, page_number * page_size))
    }
}

/// The B-tree page that page `page_number` of the file holds.
pub open spec fn page_of(file: Seq<u8>, page_size: u32, page_number: u32) -> Result<
    BTreePageView,
    Error,
> {
    match page_bytes_of(file, page_size, page_number) {
        Err(e) => Err(e),
        Ok(bytes) => btree_page_of(bytes, page_number),
    }
}

/// The page `page_number` as a tree walk sees it: `CorruptTree` where the
/// page number is zero or the page is of no B-tree kind, and what
/// `page_of` gives in any other case.
pub open spec fn tree_page_of(file: Seq<u8>, page_size: u32, page_number: u32) -> Result<
    BTreePageView,
    Error,
> {
    if page_number == 0 {
        Err(Error::CorruptTree(TreeFault::PageNumber))
    } else {
        match page_of(file, page_size, page_number) {
            Err(Error::MalformedPage(PageFault::PageType)) => Err(
                Error::CorruptTree(TreeFault::PageKind),
            ),
            Err(e) => Err(e),
            Ok(page) => Ok(page),
        }
    }
}

/// The child that an interior cell points at; zero for a leaf cell.
pub open spec fn left_child(cell: CellView) -> u32 {
    match cell {
        CellView::TableInterior { left_child_pointer, .. } => left_child_pointer,
        CellView::IndexInterior { left_child_pointer, .. } => left_child_pointer,
        _ => 0,
    }
}

/// The children of a page from left to right: the left child of each cell
/// in the order of the cells, then the right-most child.
pub open spec fn children_of(page: BTreePageView) -> Seq<u32> {
    Seq::new(page.cells.len(), |i: int| left_child(page.cells[i])) + match page.page_header.right_most_pointer {
        Some(pointer) => seq![pointer],
        None => Seq::empty(),
    }
}

/// The rows of the table leaf cells `cells` that `accepts` lets through, in
/// the order of the cells. The first cell that holds no row decides the
/// error.
pub open spec fn leaf_rows(
    cells: Seq<CellView>,
    table: TableInformationView,
    accepts: spec_fn(RowView) -> bool,
) -> Result<Seq<RowView>, Error>
    decreases cells.len(),
{
    if cells.len() == 0 {
        Ok(Seq::empty())
    } else {
        match row_of(cells[0], table.column_names, table.rowid_alias) {
            Err(e) => Err(e),
            Ok(row) => after(
                if accepts(row) {
                    seq![row]
                } else {
                    Seq::empty()
                },
                leaf_rows(cells.subrange(1, cells.len() as int), table, accepts),
            ),
        }
    }
}

/// The rows that a depth-first walk yields which has `visited` pages
/// behind it and the pages of `stack` before it, the last of them next.
///
/// A table leaf page gives its rows that `accepts` lets through. An interior
/// page puts its children on the stack so that the left-most comes next.
/// An index leaf page gives nothing. The walk ends when the stack is empty,
/// and it fails with `CorruptTree` when a page is left to visit after
/// `limit` pages have been visited.
pub open spec fn walk(
    file: Seq<u8>,
    page_size: u32,
    limit: nat,
    stack: Seq<u32>,
    visited: nat,
    table: TableInformationView,
    accepts: spec_fn(RowView) -> bool,
) -> Result<Seq<RowView>, Error>
    decreases limit - visited,
{
    if stack.len() == 0 {
        Ok(Seq::empty())
    } else if visited >= limit {
        Err(Error::CorruptTree(TreeFault::Cycle))
    } else {
        let rest = stack.drop_last();
        match tree_page_of(file, page_size, stack.last()) {
            Err(e) => Err(e),
            Ok(page) => match page.page_header.page_type {
                BTreePageType::TableLeaf => match leaf_rows(page.cells, table, accepts) {
                    Err(e) => Err(e),
                    Ok(rows) => after(
                        rows,
                        walk(file, page_size, limit, rest, visited + 1, table, accepts),
                    ),
                },
                BTreePageType::IndexLeaf => walk(
                    file,
                    page_size,
                    limit,
                    rest,
                    visited + 1,
                    table,
                    accepts,
                ),
                _ => walk(
                    file,
                    page_size,
                    limit,
                    rest + children_of(page).reverse(),
                    visited + 1,
                    table,
                    accepts,
                ),
            },
        }
    }
}

/// A walk that has a page left to visit after as many pages as the
/// database holds fails with `CorruptTree`.
pub proof fn lemma_walk_stops_at_limit(
    file: Seq<u8>,
    page_size: u32,
    limit: nat,
    stack: Seq<u32>,
    visited: nat,
    table: TableInformationView,
    accepts: spec_fn(RowView) -> bool,
)
    requires
        stack.len() > 0,
        visited >= limit,
    ensures
        walk(file, page_size, limit, stack, visited, table, accepts) == Err::<Seq<RowView>, Error>(
            Error::CorruptTree(TreeFault::Cycle),
        ),
{
}

/// The offset in the file at which the content of page `page_number`
/// starts: 100 for page 1, whose first bytes are the database header.
pub fn page_number_to_offset(page_number: u64, page_size: u32) -> (offset: u64)
    requires
        page_number >= 1,
        (page_number - 1) * page_size <= u64::MAX,
    ensures
        offset == content_offset(page_number as nat, page_size as nat),
{
    if page_number == 1 {
        100
    } else {
        (page_number - 1) * (page_size as u64)
    }
}

impl Database {
    /// Whether the header is the one that the file starts with, and keeps
    /// the rules of the format.
    pub open spec fn well_formed(&self) -> bool {
        &&& self.file@.len() >= 100
        &&& self.header.decodes(self.file@)
        &&& self.header.valid()
    }

    /// Opens the database whose file holds the bytes `file`.
    ///
    /// Fails with `ShortRead` where the file is shorter than a header,
    /// and with `BadHeader` where the header breaks a rule of the format.
    pub fn init_from_file(file: Vec<u8>) -> (result: Result<Database, Error>)
        ensures
            file@.len() < 100 ==> result == Err::<Database, Error>(Error::ShortRead),
            file@.len() >= 100 ==> match crate::header::header_fault(file@) {
                Some(fault) => result == Err::<Database, Error>(Error::BadHeader(fault)),
                None => result matches Ok(database) && database.file == file
                    && database.well_formed(),
            },
    {
        let header = DatabaseHeader::parse(file.as_slice())?;
        Ok(Database { file, header })
    }

    /// The bytes of page `page_number`.
    pub fn read_page_bytes(&self, page_number: u32) -> (result: Result<&[u8], Error>)
        requires
            page_number >= 1,
        ensures
            match page_bytes_of(self.file@, self.header.page_size, page_number) {
                Ok(bytes) => result matches Ok(b) && b@ == bytes,
                Err(e) => result == Err::<&[u8], Error>(e),
            },
    {
        let page_size: u64 = self.header.page_size as u64;
        assert(page_number * page_size <= 0xffff_ffff * 0xffff_ffff && (page_number - 1)
            * page_size <= page_number * page_size) by (nonlinear_arith)
            requires
                1 <= page_number <= 0xffff_ffff,
                0 <= page_size <= 0xffff_ffff,
        ;
        let end: u64 = (page_number as u64) * page_size;
        if end > self.file.len() as u64 {
            return Err(Error::ShortRead);
        }
        let start: u64 = (page_number as u64 - 1) * page_size;
        Ok(slice_subrange(self.file.as_slice(), start as usize, end as usize))
    }

    /// Reads page `page_number` as a page of the use `page_type`. A B-tree
    /// page is decoded; a page of another use is handed over as it is.
    pub fn read_page(&self, page_number: u32, page_type: PageType) -> (result: Result<Page, Error>)
        requires
            page_number >= 1,
        ensures
            match page_bytes_of(self.file@, self.header.page_size, page_number) {
                Err(e) => result == Err::<Page, Error>(e),
                Ok(bytes) => if page_type == PageType::BTree {
                    match btree_page_of(bytes, page_number) {
                        Ok(decoded) => result matches Ok(Page::BTree(page)) && page@ == decoded,
                        Err(e) => result == Err::<Page, Error>(e),
                    }
                } else {
                    result matches Ok(page) && page.page_type() == page_type
                        && page.raw_content() == Some(bytes)
                },
            },
    {
        let bytes = self.read_page_bytes(page_number)?;
        parse_page(bytes, page_number, page_type)
    }

    /// Reads and decodes the B-tree page `page_number`.
    pub fn read_btree_page(&self, page_number: u32) -> (result: Result<BTreePage, Error>)
        requires
            page_number >= 1,
        ensures
            match page_of(self.file@, self.header.page_size, page_number) {
                Ok(decoded) => result matches Ok(page) && page@ == decoded,
                Err(e) => result == Err::<BTreePage, Error>(e),
            },
    {
        let bytes = self.read_page_bytes(page_number)?;
        BTreePage::parse(bytes, page_number)
    }

    /// Reads the page `page_number` of a tree.
    fn read_tree_page(&self, page_number: u32) -> (result: Result<BTreePage, Error>)
        ensures
            match tree_page_of(self.file@, self.header.page_size, page_number) {
                Ok(decoded) => result matches Ok(page) && page@ == decoded,
                Err(e) => result == Err::<BTreePage, Error>(e),
            },
    {
        if page_number == 0 {
            return Err(Error::CorruptTree(TreeFault::PageNumber));
        }
        match self.read_btree_page(page_number) {
            Ok(page) => Ok(page),
            Err(Error::MalformedPage(PageFault::PageType)) => Err(
                Error::CorruptTree(TreeFault::PageKind),
            ),
            Err(e) => Err(e),
        }
    }

    /// Walks the table B-tree that starts at page `root_page_number` and
    /// returns its rows that `condition` lets through, in the order in
    /// which the tree holds them: depth first, from left to right.
    ///
    /// Fails with `CorruptTree` where the walk comes to a page that is no
    /// B-tree page, or has a page left to visit after as many pages as the
    /// header says the database holds; and with the error of the first
    /// page, cell or record that does not decode.
    pub fn traverse_btree_table<F: Filter>(
        &self,
        root_page_number: u32,
        condition: &F,
        table_information: &TableInformation,
    ) -> (result: Result<Vec<Row>, Error>)
        ensures
            match walk(
                self.file@,
                self.header.page_size,
                self.header.db_size_in_pages as nat,
                seq![root_page_number],
                0,
                table_information@,
                acceptance(condition),
            ) {
                Ok(rows) => result matches Ok(r) && row_views(r@) == rows,
                Err(e) => result == Err::<Vec<Row>, Error>(e),
            },
    {
        let limit: u32 = self.header.db_size_in_pages;
        let mut stack: Vec<u32> = Vec::new();
        stack.push(root_page_number);
        let mut rows: Vec<Row> = Vec::new();
        let mut visited: u32 = 0;
        let ghost whole = walk(
            self.file@,
            self.header.page_size,
            limit as nat,
            seq![root_page_number],
            0,
            table_information@,
            acceptance(condition),
        );
        proof {
            assert(stack@ =~= seq![root_page_number]);
            assert(row_views(rows@) =~= Seq::<RowView>::empty());
            if let Ok(all) = whole {
                assert(Seq::<RowView>::empty() + all =~= all);
            }
        }
        while stack.len() > 0
            invariant
                visited <= limit,
                limit == self.header.db_size_in_pages,
                whole == walk(
                    self.file@,
                    self.header.page_size,
                    limit as nat,
                    seq![root_page_number],
                    0,
                    table_information@,
                    acceptance(condition),
                ),
                whole == after(
                    row_views(rows@),
                    walk(
                        self.file@,
                        self.header.page_size,
                        limit as nat,
                        stack@,
                        visited as nat,
                        table_information@,
                        acceptance(condition),
                    ),
                ),
            decreases limit - visited,
        {
            if visited >= limit {
                return Err(Error::CorruptTree(TreeFault::Cycle));
            }
            let ghost before = row_views(rows@);
            let ghost old_stack = stack@;
            let page_number: u32 = stack.pop().unwrap();
            proof {
                assert(stack@ =~= old_stack.drop_last());
            }
            let page = self.read_tree_page(page_number)?;
            match page.page_header.page_type {
                BTreePageType::TableLeaf => {
                    let mut found = collect_rows(&page.cells, table_information, condition)?;
                    proof {
                        let tail = walk(
                            self.file@,
                            self.header.page_size,
                            limit as nat,
                            stack@,
                            (visited + 1) as nat,
                            table_information@,
                            acceptance(condition),
                        );
                        assert(row_views(rows@ + found@) =~= before + row_views(found@));
                        if let Ok(more) = tail {
                            assert(before + (row_views(found@) + more) =~= (before + row_views(
                                found@,
                            )) + more);
                        }
                    }
                    rows.append(&mut found);
                },
                BTreePageType::IndexLeaf => {},
                _ => {
                    push_children(&mut stack, &page);
                },
            }
            visited = visited + 1;
        }
        proof {
            assert(row_views(rows@) + Seq::<RowView>::empty() =~= row_views(rows@));
        }
        Ok(rows)
    }
}

/// The child that an interior cell points at; zero for a leaf cell.
pub fn cell_left_child(cell: &CellType) -> (child: u32)
    ensures
        child == left_child(cell@),
{
    match cell {
        CellType::TableInterior(interior) => interior.left_child_pointer,
        CellType::IndexInterior(interior) => interior.left_child_pointer,
        _ => 0,
    }
}

/// Puts the children of `page` on `stack`, the right-most first, so that
/// the left-most is taken off first.
pub fn push_children(stack: &mut Vec<u32>, page: &BTreePage)
    ensures
        final(stack)@ == old(stack)@ + children_of(page@).reverse(),
{
    let ghost children = children_of(page@);
    let ghost lefts = Seq::new(page@.cells.len(), |i: int| left_child(page@.cells[i]));
    let ghost start = old(stack)@;
    match page.page_header.right_most_pointer {
        Some(pointer) => {
            stack.push(pointer);
        },
        None => {},
    }
    let ghost extra: int = if page.page_header.right_most_pointer.is_some() {
        1
    } else {
        0
    };
    let count: usize = page.cells.len();
    let mut i: usize = count;
    proof {
        assert(children.len() == count + extra);
        assert(stack@ =~= start + children.reverse().subrange(0, extra));
    }
    while i > 0
        invariant
            i <= count,
            count == page.cells.len(),
            children == children_of(page@),
            children.len() == count + extra,
            0 <= extra <= 1,
            stack@ == start + children.reverse().subrange(0, extra + count - i),
        decreases i,
    {
        let child: u32 = cell_left_child(&page.cells[i - 1]);
        proof {
            let reversed = children.reverse();
            let k = extra + count - i;
            assert(reversed[k] == children[i - 1]);
            assert(children[i - 1] == left_child(page@.cells[i - 1]));
            assert(stack@.push(child) =~= start + reversed.subrange(0, k + 1));
        }
        stack.push(child);
        i = i - 1;
    }
    proof {
        assert(children.reverse().subrange(0, children.len() as int) =~= children.reverse());
    }
}

/// Assembles the rows of the table leaf cells `cells` and keeps those that
/// `condition` lets through.
pub fn collect_rows<F: Filter>(
    cells: &Vec<CellType>,
    table_information: &TableInformation,
    condition: &F,
) -> (result: Result<Vec<Row>, Error>)
    ensures
        match leaf_rows(cell_views(cells@), table_information@, acceptance(condition)) {
            Ok(rows) => result matches Ok(r) && row_views(r@) == rows,
            Err(e) => result == Err::<Vec<Row>, Error>(e),
        },
{
    let mut rows: Vec<Row> = Vec::new();
    let mut i: usize = 0;
    let ghost all = cell_views(cells@);
    proof {
        assert(all.subrange(0, all.len() as int) =~= all);
        assert(row_views(rows@) =~= Seq::<RowView>::empty());
        let whole = leaf_rows(all, table_information@, acceptance(condition));
        if let Ok(found) = whole {
            assert(Seq::<RowView>::empty() + found =~= found);
        }
    }
    while i < cells.len()
        invariant
            i <= cells.len(),
            all == cell_views(cells@),
            leaf_rows(all, table_information@, acceptance(condition)) == after(
                row_views(rows@),
                leaf_rows(all.subrange(i as int, all.len() as int), table_information@, acceptance(condition)),
            ),
        decreases cells.len() - i,
    {
        let ghost left = all.subrange(i as int, all.len() as int);
        let ghost before = row_views(rows@);
        proof {
            assert(left[0] == cells@[i as int]@);
            assert(left.subrange(1, left.len() as int) =~= all.subrange(i + 1, all.len() as int));
        }
        let row = cell_to_row(
            &cells[i],
            &table_information.column_names,
            table_information.rowid_alias,
        )?;
        let ghost tail = leaf_rows(
            all.subrange(i + 1, all.len() as int),
            table_information@,
            acceptance(condition),
        );
        if condition.evaluate(&row) {
            proof {
                assert(row_views(rows@.push(row)) =~= before.push(row@));
                if let Ok(more) = tail {
                    assert(before + (seq![row@] + more) =~= before.push(row@) + more);
                }
            }
            rows.push(row);
        } else {
            proof {
                if let Ok(more) = tail {
                    assert(before + (Seq::<RowView>::empty() + more) =~= before + more);
                }
            }
        }
        i = i + 1;
    }
    proof {
        assert(row_views(rows@) + Seq::<RowView>::empty() =~= row_views(rows@));
    }
    Ok(rows)
}

} // verus!
