//! The database header: the first 100 bytes of the file.

use vstd::prelude::*;
use vstd::slice::{slice_subrange, slice_to_vec};
use crate::bytes::{be_u16, be_u32, read_u16, read_u32};
use crate::error::{Error, HeaderFault};

verus! {

/// The length in bytes of the database header.
pub const DATABASE_HEADER_SIZE: usize = 100;

/// The 16 bytes that every database file starts with: `"SQLite format 3"`
/// and a zero byte.
pub open spec fn magic() -> Seq<u8> {
    seq![
        0x53u8, 0x51u8, 0x4cu8, 0x69u8, 0x74u8, 0x65u8, 0x20u8, 0x66u8,
        0x6fu8, 0x72u8, 0x6du8, 0x61u8, 0x74u8, 0x20u8, 0x33u8, 0x00u8,
    ]
}

/// Whether `raw` is a page size that the header may store: 1, which stands
/// for 65536, or a power of two from 512 to 32768.
pub open spec fn valid_raw_page_size(raw: nat) -> bool {
    raw == 1 || raw == 512 || raw == 1024 || raw == 2048 || raw == 4096 || raw == 8192 || raw
        == 16384 || raw == 32768
}

/// The page size in bytes that the stored value `raw` stands for.
pub open spec fn effective_page_size(raw: nat) -> nat {
    if raw == 1 {
        65536
    } else {
        raw
    }
}

/// The first rule that the 100 header bytes break, if any. The rules are
/// tried in this order: magic, page size, payload fractions, text encoding,
/// reserved bytes.
pub open spec fn header_fault(bytes: Seq<u8>) -> Option<HeaderFault>
    recommends
        bytes.len() >= 100,
{
    if bytes.subrange(0, 16) != magic() {
        Some(HeaderFault::Magic)
    } else if !valid_raw_page_size(be_u16(bytes, 16)) {
        Some(HeaderFault::PageSize)
    } else if bytes[21] != 64 || bytes[22] != 32 || bytes[23] != 32 {
        Some(HeaderFault::PayloadFractions)
    } else if be_u32(bytes, 56) > 3 {
        Some(HeaderFault::TextEncoding)
    } else if exists|i: int| 72 <= i < 92 && bytes[i] != 0 {
        Some(HeaderFault::ReservedBytes)
    } else {
        None
    }
}

/// The header at the start of a database file.
#[derive(Debug, Clone, PartialEq, Eq)]
pub struct DatabaseHeader {
    /// The 16 bytes that the file starts with.
    pub magic_bytes: Vec<u8>,
    /// The page size in bytes; a stored 1 is held as 65536.
    pub page_size: u32,
    pub file_format_write_version: u8,
    pub file_format_read_version: u8,
    /// The bytes left unused at the end of each page.
    pub page_reserved_space: u8,
    pub max_embedded_payload_fraction: u8,
    pub min_embedded_payload_fraction: u8,
    pub leaf_payload_fraction: u8,
    pub file_change_counter: u32,
    pub db_size_in_pages: u32,
    pub first_freelist_trunk_page_number: u32,
    pub number_of_freelist_pages: u32,
    pub schema_cookie: u32,
    pub schema_format_number: u32,
    pub default_page_cache_size: u32,
    pub largest_root_btree_page_number: u32,
    /// 1 for UTF-8, 2 for UTF-16le, 3 for UTF-16be.
    pub text_encoding: u32,
    pub user_version: u32,
    pub incremental_vacuum_mode: u32,
    pub application_id: u32,
    /// The 20 bytes kept for expansion.
    pub reserved_for_expansion: Vec<u8>,
    pub version_valid_for: u32,
    pub sqlite_version_number: u32,
}

impl DatabaseHeader {
    /// Whether the fields are those that the 100 bytes `bytes` spell.
    pub open spec fn decodes(&self, bytes: Seq<u8>) -> bool {
        &&& self.magic_bytes@ == bytes.subrange(0, 16)
        &&& self.page_size == effective_page_size(be_u16(bytes, 16))
        &&& self.file_format_write_version == bytes[18]
        &&& self.file_format_read_version == bytes[19]
        &&& self.page_reserved_space == bytes[20]
        &&& self.max_embedded_payload_fraction == bytes[21]
        &&& self.min_embedded_payload_fraction == bytes[22]
        &&& self.leaf_payload_fraction == bytes[23]
        &&& self.file_change_counter == be_u32(bytes, 24)
        &&& self.db_size_in_pages == be_u32(bytes, 28)
        &&& self.first_freelist_trunk_page_number == be_u32(bytes, 32)
        &&& self.number_of_freelist_pages == be_u32(bytes, 36)
        &&& self.schema_cookie == be_u32(bytes, 40)
        &&& self.schema_format_number == be_u32(bytes, 44)
        &&& self.default_page_cache_size == be_u32(bytes, 48)
        &&& self.largest_root_btree_page_number == be_u32(bytes, 52)
        &&& self.text_encoding == be_u32(bytes, 56)
        &&& self.user_version == be_u32(bytes, 60)
        &&& self.incremental_vacuum_mode == be_u32(bytes, 64)
        &&& self.application_id == be_u32(bytes, 68)
        &&& self.reserved_for_expansion@ == bytes.subrange(72, 92)
        &&& self.version_valid_for == be_u32(bytes, 92)
        &&& self.sqlite_version_number == be_u32(bytes, 96)
    }

    /// Whether the header keeps the rules of the format: the magic bytes,
    /// a page size that is 65536 or a power of two from 512 to 32768, the
    /// payload fractions 64, 32 and 32, a text encoding of at most 3, and
    /// 20 reserved bytes that are zero.
    pub open spec fn valid(&self) -> bool {
        &&& self.magic_bytes@ == magic()
        &&& (self.page_size == 65536 || (self.page_size != 1 && valid_raw_page_size(
            self.page_size as nat,
        )))
        &&& self.max_embedded_payload_fraction == 64
        &&& self.min_embedded_payload_fraction == 32
        &&& self.leaf_payload_fraction == 32
        &&& self.text_encoding <= 3
        &&& self.reserved_for_expansion@.len() == 20
        &&& forall|i: int| 0 <= i < 20 ==> self.reserved_for_expansion@[i] == 0
    }

    /// Decodes and validates the header that `bytes` starts with.
    ///
    /// Fails with `ShortRead` where fewer than 100 bytes are given, and with
    /// `BadHeader` and the first rule broken where the header is not valid.
    pub fn parse(bytes: &[u8]) -> (result: Result<DatabaseHeader, Error>)
        ensures
            bytes@.len() < 100 ==> result == Err::<DatabaseHeader, Error>(Error::ShortRead),
            bytes@.len() >= 100 ==> match header_fault(bytes@) {
                Some(fault) => result == Err::<DatabaseHeader, Error>(Error::BadHeader(fault)),
                None => result matches Ok(header) && header.decodes(bytes@) && header.valid(),
            },
    {
        if bytes.len() < DATABASE_HEADER_SIZE {
            return Err(Error::ShortRead);
        }
        let raw_page_size: u16 = read_u16(bytes, 16);
        let page_size: u32 = if raw_page_size == 1 {
            65536
        } else {
            raw_page_size as u32
        };
        let header = DatabaseHeader {
            magic_bytes: slice_to_vec(slice_subrange(bytes, 0, 16)),
            page_size,
            file_format_write_version: bytes[18],
            file_format_read_version: bytes[19],
            page_reserved_space: bytes[20],
            max_embedded_payload_fraction: bytes[21],
            min_embedded_payload_fraction: bytes[22],
            leaf_payload_fraction: bytes[23],
            file_change_counter: read_u32(bytes, 24),
            db_size_in_pages: read_u32(bytes, 28),
            first_freelist_trunk_page_number: read_u32(bytes, 32),
            number_of_freelist_pages: read_u32(bytes, 36),
            schema_cookie: read_u32(bytes, 40),
            schema_format_number: read_u32(bytes, 44),
            default_page_cache_size: read_u32(bytes, 48),
            largest_root_btree_page_number: read_u32(bytes, 52),
            text_encoding: read_u32(bytes, 56),
            user_version: read_u32(bytes, 60),
            incremental_vacuum_mode: read_u32(bytes, 64),
            application_id: read_u32(bytes, 68),
            reserved_for_expansion: slice_to_vec(slice_subrange(bytes, 72, 92)),
            version_valid_for: read_u32(bytes, 92),
            sqlite_version_number: read_u32(bytes, 96),
        };
        proof {
            lemma_faults_agree(&header, bytes@);
        }
        match find_fault(&header) {
            Some(fault) => Err(Error::BadHeader(fault)),
            None => Ok(header),
        }
    }
}

/// The first rule that a decoded header breaks, in the order of
/// `header_fault`.
pub open spec fn decoded_fault(header: &DatabaseHeader) -> Option<HeaderFault> {
    if header.magic_bytes@ != magic() {
        Some(HeaderFault::Magic)
    } else if !(header.page_size == 65536 || (header.page_size != 1 && valid_raw_page_size(
        header.page_size as nat,
    ))) {
        Some(HeaderFault::PageSize)
    } else if header.max_embedded_payload_fraction != 64 || header.min_embedded_payload_fraction
        != 32 || header.leaf_payload_fraction != 32 {
        Some(HeaderFault::PayloadFractions)
    } else if header.text_encoding > 3 {
        Some(HeaderFault::TextEncoding)
    } else if header.reserved_for_expansion@.len() != 20 || exists|i: int|
        0 <= i < 20 && header.reserved_for_expansion@[i] != 0 {
        Some(HeaderFault::ReservedBytes)
    } else {
        None
    }
}

/// A header decoded from `bytes` breaks the rule that `bytes` break.
pub proof fn lemma_faults_agree(header: &DatabaseHeader, bytes: Seq<u8>)
    requires
        bytes.len() >= 100,
        header.decodes(bytes),
    ensures
        decoded_fault(header) == header_fault(bytes),
{
    let reserved = header.reserved_for_expansion@;
    assert(reserved.len() == 20);
    if exists|i: int| 72 <= i < 92 && bytes[i] != 0 {
        let i = choose|i: int| 72 <= i < 92 && bytes[i] != 0;
        assert(reserved[i - 72] == bytes[i]);
        assert(0 <= i - 72 < 20 && reserved[i - 72] != 0);
    }
    if exists|i: int| 0 <= i < 20 && reserved[i] != 0 {
        let i = choose|i: int| 0 <= i < 20 && reserved[i] != 0;
        assert(reserved[i] == bytes[i + 72]);
        assert(72 <= i + 72 < 92 && bytes[i + 72] != 0);
    }
}

/// Whether `bytes` are the magic bytes.
fn is_magic(bytes: &Vec<u8>) -> (result: bool)
    ensures
        result == (bytes@ == magic()),
{
    if bytes.len() != 16 {
        return false;
    }
    let same = bytes[0] == 0x53 && bytes[1] == 0x51 && bytes[2] == 0x4c && bytes[3] == 0x69
        && bytes[4] == 0x74 && bytes[5] == 0x65 && bytes[6] == 0x20 && bytes[7] == 0x66
        && bytes[8] == 0x6f && bytes[9] == 0x72 && bytes[10] == 0x6d && bytes[11] == 0x61
        && bytes[12] == 0x74 && bytes[13] == 0x20 && bytes[14] == 0x33 && bytes[15] == 0x00;
    proof {
        if same {
            assert(bytes@ =~= magic());
        }
    }
    same
}

/// Whether all of `bytes` are zero.
fn all_zero(bytes: &Vec<u8>) -> (result: bool)
    ensures
        result == (forall|i: int| 0 <= i < bytes@.len() ==> bytes@[i] == 0),
{
    let mut i: usize = 0;
    while i < bytes.len()
        invariant
            i <= bytes.len(),
            forall|j: int| 0 <= j < i ==> bytes@[j] == 0,
        decreases bytes.len() - i,
    {
        if bytes[i] != 0 {
            return false;
        }
        i = i + 1;
    }
    true
}

/// Finds the first rule that a decoded header breaks.
pub fn find_fault(header: &DatabaseHeader) -> (fault: Option<HeaderFault>)
    ensures
        fault == decoded_fault(header),
        fault.is_none() <==> header.valid(),
{
    let size: u32 = header.page_size;
    if !is_magic(&header.magic_bytes) {
        Some(HeaderFault::Magic)
    } else if !(size == 512 || size == 1024 || size == 2048 || size == 4096 || size == 8192
        || size == 16384 || size == 32768 || size == 65536) {
        Some(HeaderFault::PageSize)
    } else if header.max_embedded_payload_fraction != 64 || header.min_embedded_payload_fraction
        != 32 || header.leaf_payload_fraction != 32 {
        Some(HeaderFault::PayloadFractions)
    } else if header.text_encoding > 3 {
        Some(HeaderFault::TextEncoding)
    } else if header.reserved_for_expansion.len() != 20 || !all_zero(
        &header.reserved_for_expansion,
    ) {
        Some(HeaderFault::ReservedBytes)
    } else {
        None
    }
}

/// Whether a decoded header keeps the rules of the format.
pub fn validate_header(header: &DatabaseHeader) -> (result: bool)
    ensures
        result == header.valid(),
{
    find_fault(header).is_none()
}

/// A header is rejected whenever one of its reserved bytes is not zero or
/// its payload fractions are not 64, 32 and 32.
pub proof fn lemma_header_rejects(bytes: Seq<u8>)
    requires
        bytes.len() >= 100,
        (exists|i: int| 72 <= i < 92 && bytes[i] != 0) || bytes[21] != 64 || bytes[22] != 32
            || bytes[23] != 32,
    ensures
        header_fault(bytes).is_some(),
{
}

} // verus!
