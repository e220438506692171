use sqlite_reader::btree_page::{parse_cell_pointer_array, parse_cells, BTreePage};
use sqlite_reader::cell::{
    parse_cell, parse_index_interior_cell, parse_index_leaf_cell, parse_table_interior_cell,
    parse_table_leaf_cell, CellType, IndexInteriorCell, IndexLeafCell, Payload, TableInteriorCell,
    TableLeafCell,
};
use sqlite_reader::database::{page_number_to_offset, Database};
use sqlite_reader::error::{Error, PageFault};
use sqlite_reader::page::{parse_page, Page, PageType};
use sqlite_reader::page_header::{parse_btree_page_header, BTreePageHeader, BTreePageType};

#[test]
fn page_type_tags() {
    assert_eq!(BTreePageType::from_tag(2), Ok(BTreePageType::IndexInterior));
    assert_eq!(BTreePageType::from_tag(5), Ok(BTreePageType::TableInterior));
    assert_eq!(BTreePageType::from_tag(10), Ok(BTreePageType::IndexLeaf));
    assert_eq!(BTreePageType::from_tag(13), Ok(BTreePageType::TableLeaf));
    for tag in [0u8, 1, 3, 4, 6, 9, 11, 12, 14, 255] {
        assert_eq!(BTreePageType::from_tag(tag), Err(Error::MalformedPage(PageFault::PageType)));
    }
}

#[test]
fn leaf_page_header() {
    let bytes = [13u8, 0x00, 0x10, 0x00, 0x03, 0x0f, 0x00, 0x02, 0xaa, 0xbb];
    let rest: &[u8] = &[0xaa, 0xbb];
    assert_eq!(
        parse_btree_page_header(&bytes),
        Ok((
            rest,
            BTreePageHeader {
                page_type: BTreePageType::TableLeaf,
                first_freeblock_offset: 16,
                number_of_cells: 3,
                cell_content_area_offset: 0x0f00,
                number_of_fragmented_free_bytes: 2,
                right_most_pointer: None,
            }
        ))
    );
}

#[test]
fn interior_page_header() {
    let bytes = [5u8, 0, 0, 0, 1, 0, 0, 0, 0x00, 0x01, 0x02, 0x03, 0xcc];
    let rest: &[u8] = &[0xcc];
    assert_eq!(
        parse_btree_page_header(&bytes),
        Ok((
            rest,
            BTreePageHeader {
                page_type: BTreePageType::TableInterior,
                first_freeblock_offset: 0,
                number_of_cells: 1,
                cell_content_area_offset: 65536,
                number_of_fragmented_free_bytes: 0,
                right_most_pointer: Some(0x00010203),
            }
        ))
    );
    let index = [2u8, 0, 0, 0, 0, 0x10, 0, 0, 0xff, 0xff, 0xff, 0xff];
    let (rest, header) = parse_btree_page_header(&index).unwrap();
    assert!(rest.is_empty());
    assert_eq!(header.page_type, BTreePageType::IndexInterior);
    assert_eq!(header.right_most_pointer, Some(u32::MAX));
    let (_, header) = parse_btree_page_header(&[10u8, 0, 0, 0, 0, 0, 1, 0]).unwrap();
    assert_eq!(header.page_type, BTreePageType::IndexLeaf);
    assert_eq!(header.cell_content_area_offset, 1);
    assert_eq!(header.right_most_pointer, None);
}

#[test]
fn broken_page_headers() {
    let truncated = Err(Error::MalformedPage(PageFault::TruncatedHeader));
    assert_eq!(parse_btree_page_header(&[]), truncated);
    assert_eq!(parse_btree_page_header(&[13, 0, 0, 0, 0, 0, 0]), truncated);
    assert_eq!(parse_btree_page_header(&[5, 0, 0, 0, 0, 0, 0, 0, 0, 0, 0]), truncated);
    assert_eq!(
        parse_btree_page_header(&[7, 0, 0, 0, 0, 0, 0, 0, 0, 0, 0, 0]),
        Err(Error::MalformedPage(PageFault::PageType))
    );
    assert_eq!(parse_btree_page_header(&[0]), Err(Error::MalformedPage(PageFault::PageType)));
}

#[test]
fn table_leaf_cell() {
    assert_eq!(
        parse_table_leaf_cell(&[3, 0x81, 0x00, b'a', b'b', b'c', 0xff]),
        Ok(CellType::TableLeaf(TableLeafCell {
            payload_size: 3,
            key: 128,
            payload: Payload { content: b"abc".to_vec() },
            first_overflow_page_number: None,
        }))
    );
    assert_eq!(
        parse_table_leaf_cell(&[0, 7]),
        Ok(CellType::TableLeaf(TableLeafCell {
            payload_size: 0,
            key: 7,
            payload: Payload { content: vec![] },
            first_overflow_page_number: None,
        }))
    );
    let truncated = Err(Error::MalformedPage(PageFault::TruncatedCell));
    assert_eq!(parse_table_leaf_cell(&[]), truncated);
    assert_eq!(parse_table_leaf_cell(&[0x81]), truncated);
    assert_eq!(parse_table_leaf_cell(&[3]), truncated);
    assert_eq!(parse_table_leaf_cell(&[3, 0x81]), truncated);
}

#[test]
fn payload_that_overflows_is_unsupported() {
    assert_eq!(parse_table_leaf_cell(&[4, 1, b'a', b'b', b'c']), Err(Error::Unsupported));
    assert_eq!(parse_index_leaf_cell(&[1]), Err(Error::Unsupported));
    assert_eq!(parse_index_interior_cell(&[0, 0, 0, 1, 0x81, 0x00, 1, 2]), Err(Error::Unsupported));
    let mut huge = vec![0xffu8; 9];
    huge.push(1);
    assert_eq!(parse_table_leaf_cell(&huge), Err(Error::Unsupported));
}

#[test]
fn table_interior_cell() {
    assert_eq!(
        parse_table_interior_cell(&[0, 0, 1, 2, 0x84, 0x02, 0xff]),
        Ok(CellType::TableInterior(TableInteriorCell { left_child_pointer: 258, key: 514 }))
    );
    let truncated = Err(Error::MalformedPage(PageFault::TruncatedCell));
    assert_eq!(parse_table_interior_cell(&[0, 0, 1]), truncated);
    assert_eq!(parse_table_interior_cell(&[0, 0, 1, 2]), truncated);
    assert_eq!(parse_table_interior_cell(&[0, 0, 1, 2, 0x84]), truncated);
}

#[test]
fn index_cells() {
    assert_eq!(
        parse_index_leaf_cell(&[2, 9, 8, 7]),
        Ok(CellType::IndexLeaf(IndexLeafCell {
            payload_size: 2,
            payload: Payload { content: vec![9, 8] },
            first_overflow_page_number: None,
        }))
    );
    assert_eq!(
        parse_index_interior_cell(&[0xff, 0, 0, 3, 1, 6, 5]),
        Ok(CellType::IndexInterior(IndexInteriorCell {
            left_child_pointer: 0xff000003,
            payload_size: 1,
            payload: Payload { content: vec![6] },
            first_overflow_page_number: None,
        }))
    );
    let truncated = Err(Error::MalformedPage(PageFault::TruncatedCell));
    assert_eq!(parse_index_leaf_cell(&[]), truncated);
    assert_eq!(parse_index_interior_cell(&[0, 0, 0]), truncated);
    assert_eq!(parse_index_interior_cell(&[0, 0, 0, 1]), truncated);
    assert_eq!(parse_index_interior_cell(&[0, 0, 0, 1, 0x80]), truncated);
}

#[test]
fn cell_by_page_type() {
    let input = [0u8, 0, 0, 2, 1, 5];
    assert_eq!(parse_cell(BTreePageType::TableInterior, &input), parse_table_interior_cell(&input));
    assert_eq!(parse_cell(BTreePageType::TableLeaf, &input), parse_table_leaf_cell(&input));
    assert_eq!(parse_cell(BTreePageType::IndexInterior, &input), parse_index_interior_cell(&input));
    assert_eq!(parse_cell(BTreePageType::IndexLeaf, &input), parse_index_leaf_cell(&input));
    assert_eq!(
        parse_cell(BTreePageType::TableLeaf, &input),
        Ok(CellType::TableLeaf(TableLeafCell {
            payload_size: 0,
            key: 0,
            payload: Payload { content: vec![] },
            first_overflow_page_number: None,
        }))
    );
}

#[test]
fn cell_pointer_array() {
    let data = [0x01u8, 0x00, 0x0f, 0xff, 0x00, 0x10, 0xaa];
    let rest: &[u8] = &[0xaa];
    assert_eq!(parse_cell_pointer_array(&data, 3), Ok((rest, vec![256, 4095, 16])));
    let rest: &[u8] = &[0x0f, 0xff, 0x00, 0x10, 0xaa];
    assert_eq!(parse_cell_pointer_array(&data, 1), Ok((rest, vec![256])));
    let rest: &[u8] = &data;
    assert_eq!(parse_cell_pointer_array(&data, 0), Ok((rest, vec![])));
    assert_eq!(
        parse_cell_pointer_array(&data, 4),
        Err(Error::MalformedPage(PageFault::TruncatedPointerArray))
    );
    assert_eq!(
        parse_cell_pointer_array(&data, usize::MAX),
        Err(Error::MalformedPage(PageFault::TruncatedPointerArray))
    );
}

fn small_leaf_page() -> Vec<u8> {
    let mut page = vec![0u8; 64];
    page[0] = 13;
    page[3..5].copy_from_slice(&2u16.to_be_bytes());
    page[5..7].copy_from_slice(&56u16.to_be_bytes());
    page[8..10].copy_from_slice(&60u16.to_be_bytes());
    page[10..12].copy_from_slice(&56u16.to_be_bytes());
    page[56..60].copy_from_slice(&[2, 2, 1, 1]);
    page[60..64].copy_from_slice(&[2, 1, 1, 1]);
    page
}

fn row_cell(key: u64) -> CellType {
    CellType::TableLeaf(TableLeafCell {
        payload_size: 2,
        key,
        payload: Payload { content: vec![1, 1] },
        first_overflow_page_number: None,
    })
}

#[test]
fn page_is_decoded_in_pointer_order() {
    let page = BTreePage::parse(&small_leaf_page(), 2).unwrap();
    assert_eq!(page.page_header.page_type, BTreePageType::TableLeaf);
    assert_eq!(page.page_header.number_of_cells, 2);
    assert_eq!(page.page_header.cell_content_area_offset, 56);
    assert_eq!(page.cells, vec![row_cell(1), row_cell(2)]);
}

#[test]
fn first_page_has_its_header_behind_the_database_header() {
    let mut page = vec![0u8; 100];
    let mut body = small_leaf_page();
    // the cell offsets count from the start of the page
    body[5..7].copy_from_slice(&156u16.to_be_bytes());
    body[8..10].copy_from_slice(&160u16.to_be_bytes());
    body[10..12].copy_from_slice(&156u16.to_be_bytes());
    page.extend(body);
    let decoded = BTreePage::parse(&page, 1).unwrap();
    assert_eq!(decoded.cells, vec![row_cell(1), row_cell(2)]);
    assert_eq!(
        BTreePage::parse(&page, 2),
        Err(Error::MalformedPage(PageFault::PageType))
    );
    assert_eq!(
        BTreePage::parse(&page[..99], 1),
        Err(Error::MalformedPage(PageFault::TruncatedHeader))
    );
    assert_eq!(
        BTreePage::parse(&page[..100], 1),
        Err(Error::MalformedPage(PageFault::TruncatedHeader))
    );
}

#[test]
fn inconsistent_pages_are_malformed() {
    let mut page = small_leaf_page();
    page[0] = 1;
    assert_eq!(BTreePage::parse(&page, 2), Err(Error::MalformedPage(PageFault::PageType)));
    let mut page = small_leaf_page();
    page[8..10].copy_from_slice(&64u16.to_be_bytes());
    assert_eq!(BTreePage::parse(&page, 2), Err(Error::MalformedPage(PageFault::CellOffset)));
    let mut page = small_leaf_page();
    page[10..12].copy_from_slice(&55u16.to_be_bytes());
    assert_eq!(BTreePage::parse(&page, 2), Err(Error::MalformedPage(PageFault::CellOffset)));
    let mut page = small_leaf_page();
    page[3..5].copy_from_slice(&29u16.to_be_bytes());
    assert_eq!(
        BTreePage::parse(&page, 2),
        Err(Error::MalformedPage(PageFault::TruncatedPointerArray))
    );
    let mut page = small_leaf_page();
    page[61] = 0x81;
    page[62] = 0x81;
    page[63] = 0x81;
    assert_eq!(BTreePage::parse(&page, 2), Err(Error::MalformedPage(PageFault::TruncatedCell)));
    let mut page = small_leaf_page();
    page[60] = 3;
    assert_eq!(BTreePage::parse(&page, 2), Err(Error::Unsupported));
}

#[test]
fn cells_by_themselves() {
    let page = small_leaf_page();
    let (_, header) = parse_btree_page_header(&page).unwrap();
    assert_eq!(parse_cells(&page, &vec![56, 60, 56], &header), Ok(vec![row_cell(2), row_cell(1), row_cell(2)]));
    assert_eq!(parse_cells(&page, &vec![], &header), Ok(vec![]));
    assert_eq!(
        parse_cells(&page, &vec![60, 12], &header),
        Err(Error::MalformedPage(PageFault::CellOffset))
    );
}

fn sample_file() -> Vec<u8> {
    let mut file = vec![0u8; 512];
    file[..16].copy_from_slice(b"SQLite format 3\0");
    file[16..18].copy_from_slice(&512u16.to_be_bytes());
    file[21] = 64;
    file[22] = 32;
    file[23] = 32;
    file[28..32].copy_from_slice(&3u32.to_be_bytes());
    file[100] = 13;
    let mut second = vec![0u8; 512];
    second[..64].copy_from_slice(&small_leaf_page());
    file.extend(second);
    file.extend(vec![7u8; 512]);
    file.extend(vec![9u8; 100]);
    file
}

#[test]
fn pages_are_read_at_their_offsets() {
    let database = Database::init_from_file(sample_file()).unwrap();
    assert_eq!(database.header.page_size, 512);
    assert_eq!(database.read_page_bytes(1).unwrap(), &database.file[..512]);
    assert_eq!(database.read_page_bytes(3).unwrap(), &[7u8; 512][..]);
    assert_eq!(database.read_page_bytes(4), Err(Error::ShortRead));
    assert_eq!(database.read_page_bytes(u32::MAX), Err(Error::ShortRead));
    let page = database.read_btree_page(2).unwrap();
    assert_eq!(page.cells, vec![row_cell(1), row_cell(2)]);
    assert_eq!(database.read_page(2, PageType::BTree), Ok(Page::BTree(page)));
    assert_eq!(database.read_btree_page(1).unwrap().cells, vec![]);
    assert_eq!(database.read_btree_page(3), Err(Error::MalformedPage(PageFault::PageType)));
    assert_eq!(database.read_btree_page(4), Err(Error::ShortRead));
}

#[test]
fn pages_of_other_uses_are_handed_over_undecoded() {
    let database = Database::init_from_file(sample_file()).unwrap();
    match database.read_page(3, PageType::FreeList) {
        Ok(Page::FreeList(page)) => assert_eq!(page.content, vec![7u8; 512]),
        other => panic!("{:?}", other),
    }
    match database.read_page(3, PageType::LockByte) {
        Ok(Page::LockByte(page)) => assert_eq!(page.content, vec![7u8; 512]),
        other => panic!("{:?}", other),
    }
    match database.read_page(3, PageType::PayloadOverflow) {
        Ok(Page::PayloadOverflow(page)) => assert_eq!(page.content, vec![7u8; 512]),
        other => panic!("{:?}", other),
    }
    match database.read_page(3, PageType::PointerMap) {
        Ok(Page::PointerMap(page)) => assert_eq!(page.content, vec![7u8; 512]),
        other => panic!("{:?}", other),
    }
    assert_eq!(database.read_page(4, PageType::FreeList), Err(Error::ShortRead));
}

#[test]
fn page_offsets() {
    assert_eq!(page_number_to_offset(1, 4096), 100);
    assert_eq!(page_number_to_offset(2, 4096), 4096);
    assert_eq!(page_number_to_offset(3, 512), 1024);
    assert_eq!(page_number_to_offset(1 << 32, 65536), ((1u64 << 32) - 1) * 65536);
}

#[test]
fn page_of_a_use() {
    let bytes = small_leaf_page();
    match parse_page(&bytes, 2, PageType::BTree) {
        Ok(Page::BTree(page)) => assert_eq!(page.cells, vec![row_cell(1), row_cell(2)]),
        other => panic!("{:?}", other),
    }
    match parse_page(&bytes, 2, PageType::PointerMap) {
        Ok(Page::PointerMap(page)) => assert_eq!(page.content, bytes),
        other => panic!("{:?}", other),
    }
    assert_eq!(
        parse_page(&[9u8; 16], 2, PageType::BTree),
        Err(Error::MalformedPage(PageFault::PageType))
    );
    assert_eq!(
        parse_page(&bytes, 1, PageType::BTree),
        Err(Error::MalformedPage(PageFault::TruncatedHeader))
    );
}
