use sqlite_reader::error::{Error, HeaderFault};
use sqlite_reader::header::{find_fault, validate_header, DatabaseHeader};

fn sample_header() -> Vec<u8> {
    let mut bytes = vec![0u8; 100];
    bytes[..16].copy_from_slice(b"SQLite format 3\0");
    bytes[16] = 0x10; // page size 4096
    bytes[17] = 0x00;
    bytes[18] = 1;
    bytes[19] = 2;
    bytes[20] = 7;
    bytes[21] = 64;
    bytes[22] = 32;
    bytes[23] = 32;
    bytes[24..28].copy_from_slice(&[0, 0, 0, 5]);
    bytes[28..32].copy_from_slice(&[0, 0, 0, 4]);
    bytes[32..36].copy_from_slice(&[0, 0, 0, 9]);
    bytes[36..40].copy_from_slice(&[0, 0, 0, 1]);
    bytes[40..44].copy_from_slice(&[0, 0, 0, 3]);
    bytes[44..48].copy_from_slice(&[0, 0, 0, 4]);
    bytes[48..52].copy_from_slice(&[0, 0, 1, 0]);
    bytes[52..56].copy_from_slice(&[0, 0, 0, 0]);
    bytes[56..60].copy_from_slice(&[0, 0, 0, 1]);
    bytes[60..64].copy_from_slice(&[0x12, 0x34, 0x56, 0x78]);
    bytes[64..68].copy_from_slice(&[0, 0, 0, 0]);
    bytes[68..72].copy_from_slice(&[0, 0, 0, 42]);
    bytes[92..96].copy_from_slice(&[0, 0, 0, 5]);
    bytes[96..100].copy_from_slice(&[0x00, 0x2e, 0x5f, 0x1a]);
    bytes
}

#[test]
fn header_fields_are_decoded() {
    let mut bytes = sample_header();
    bytes.extend_from_slice(&[0xff; 20]);
    let header = DatabaseHeader::parse(&bytes).unwrap();
    assert_eq!(header.magic_bytes, b"SQLite format 3\0".to_vec());
    assert_eq!(header.page_size, 4096);
    assert_eq!(header.file_format_write_version, 1);
    assert_eq!(header.file_format_read_version, 2);
    assert_eq!(header.page_reserved_space, 7);
    assert_eq!(header.max_embedded_payload_fraction, 64);
    assert_eq!(header.min_embedded_payload_fraction, 32);
    assert_eq!(header.leaf_payload_fraction, 32);
    assert_eq!(header.file_change_counter, 5);
    assert_eq!(header.db_size_in_pages, 4);
    assert_eq!(header.first_freelist_trunk_page_number, 9);
    assert_eq!(header.number_of_freelist_pages, 1);
    assert_eq!(header.schema_cookie, 3);
    assert_eq!(header.schema_format_number, 4);
    assert_eq!(header.default_page_cache_size, 256);
    assert_eq!(header.largest_root_btree_page_number, 0);
    assert_eq!(header.text_encoding, 1);
    assert_eq!(header.user_version, 0x12345678);
    assert_eq!(header.incremental_vacuum_mode, 0);
    assert_eq!(header.application_id, 42);
    assert_eq!(header.reserved_for_expansion, vec![0u8; 20]);
    assert_eq!(header.version_valid_for, 5);
    assert_eq!(header.sqlite_version_number, 0x002e5f1a);
    assert!(validate_header(&header));
    assert_eq!(find_fault(&header), None);
}

#[test]
fn header_page_sizes() {
    for (raw, size) in [
        (512u16, 512u32),
        (1024, 1024),
        (2048, 2048),
        (4096, 4096),
        (8192, 8192),
        (16384, 16384),
        (32768, 32768),
        (1, 65536),
    ] {
        let mut bytes = sample_header();
        bytes[16..18].copy_from_slice(&raw.to_be_bytes());
        assert_eq!(DatabaseHeader::parse(&bytes).unwrap().page_size, size);
    }
    for raw in [0u16, 2, 256, 511, 513, 1000, 4097, 32767, 32769, 65535] {
        let mut bytes = sample_header();
        bytes[16..18].copy_from_slice(&raw.to_be_bytes());
        assert_eq!(
            DatabaseHeader::parse(&bytes),
            Err(Error::BadHeader(HeaderFault::PageSize)),
            "{}",
            raw
        );
    }
}

#[test]
fn header_shorter_than_100_bytes() {
    let bytes = sample_header();
    assert_eq!(DatabaseHeader::parse(&bytes[..99]), Err(Error::ShortRead));
    assert_eq!(DatabaseHeader::parse(&[]), Err(Error::ShortRead));
}

#[test]
fn header_with_wrong_magic() {
    let mut bytes = sample_header();
    bytes[15] = 1;
    assert_eq!(DatabaseHeader::parse(&bytes), Err(Error::BadHeader(HeaderFault::Magic)));
    let mut bytes = sample_header();
    bytes[0] = b's';
    assert_eq!(DatabaseHeader::parse(&bytes), Err(Error::BadHeader(HeaderFault::Magic)));
}

#[test]
fn header_with_wrong_payload_fractions() {
    for (at, value) in [(21usize, 65u8), (22, 31), (23, 0)] {
        let mut bytes = sample_header();
        bytes[at] = value;
        assert_eq!(
            DatabaseHeader::parse(&bytes),
            Err(Error::BadHeader(HeaderFault::PayloadFractions))
        );
    }
}

#[test]
fn header_with_unknown_text_encoding() {
    for encoding in [0u32, 1, 2, 3] {
        let mut bytes = sample_header();
        bytes[56..60].copy_from_slice(&encoding.to_be_bytes());
        assert_eq!(DatabaseHeader::parse(&bytes).unwrap().text_encoding, encoding);
    }
    for encoding in [4u32, 256, u32::MAX] {
        let mut bytes = sample_header();
        bytes[56..60].copy_from_slice(&encoding.to_be_bytes());
        assert_eq!(
            DatabaseHeader::parse(&bytes),
            Err(Error::BadHeader(HeaderFault::TextEncoding))
        );
    }
}

#[test]
fn header_with_nonzero_reserved_byte() {
    for at in 72..92 {
        let mut bytes = sample_header();
        bytes[at] = 1;
        assert_eq!(
            DatabaseHeader::parse(&bytes),
            Err(Error::BadHeader(HeaderFault::ReservedBytes)),
            "{}",
            at
        );
    }
    let mut bytes = sample_header();
    bytes[71] = 1;
    bytes[92] = 1;
    assert!(DatabaseHeader::parse(&bytes).is_ok());
}

#[test]
fn header_first_fault_decides() {
    let mut bytes = sample_header();
    bytes[0] = 0;
    bytes[16] = 0;
    bytes[17] = 3;
    bytes[21] = 0;
    bytes[59] = 9;
    bytes[80] = 1;
    assert_eq!(DatabaseHeader::parse(&bytes), Err(Error::BadHeader(HeaderFault::Magic)));
    bytes[0] = b'S';
    assert_eq!(DatabaseHeader::parse(&bytes), Err(Error::BadHeader(HeaderFault::PageSize)));
    bytes[16] = 2;
    bytes[17] = 0;
    assert_eq!(
        DatabaseHeader::parse(&bytes),
        Err(Error::BadHeader(HeaderFault::PayloadFractions))
    );
    bytes[21] = 64;
    assert_eq!(DatabaseHeader::parse(&bytes), Err(Error::BadHeader(HeaderFault::TextEncoding)));
    bytes[59] = 3;
    assert_eq!(DatabaseHeader::parse(&bytes), Err(Error::BadHeader(HeaderFault::ReservedBytes)));
    bytes[80] = 0;
    assert!(DatabaseHeader::parse(&bytes).is_ok());
}

#[test]
fn header_built_by_hand_is_validated() {
    let mut header = DatabaseHeader::parse(&sample_header()).unwrap();
    header.leaf_payload_fraction = 33;
    assert!(!validate_header(&header));
    assert_eq!(find_fault(&header), Some(HeaderFault::PayloadFractions));
    header.leaf_payload_fraction = 32;
    header.reserved_for_expansion = vec![0u8; 19];
    assert!(!validate_header(&header));
    header.reserved_for_expansion = vec![0u8; 20];
    header.page_size = 1;
    assert_eq!(find_fault(&header), Some(HeaderFault::PageSize));
    header.page_size = 65536;
    assert!(validate_header(&header));
}
