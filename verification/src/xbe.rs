//! The executable-image container: data model, reader and writer.
//!
//! An image is a flat little-endian layout: a fixed header whose address
//! fields are virtual addresses (file offset = address - base address), a
//! certificate with a variable reserved tail, a section-header table in
//! declared order, packed section-name strings, library-version records,
//! three debug name strings, a logo bitmap, and the section payloads placed
//! in ascending raw-address order on page-aligned boundaries.

use vstd::prelude::*;

use crate::bytes::{
    align_up, le16, le32, lemma_u16_at_le16, lemma_u32_at_le32, pad_to, pad_to_align,
    pad_to_exact, pad_to_nearest, push_bytes, push_u16_le, push_u32_le, read_bytes, read_u16_le,
    read_u32_le, u16_at, u32_at, zeros,
};

verus! {

#[derive(Debug, Clone, Copy, PartialEq, Eq, Structural)]
pub enum XbeError {
    /// Structural parse failure: truncated data, an address below the base
    /// address, or a name string that is not valid text.
    MalformedImage,
    /// An address field lies below the base address.
    InvalidAddress,
    /// Writer-side inconsistency: header and payload counts disagree.
    LayoutError,
}

/// Whether `b` decodes as UTF-8; the outside decoder decides, and the
/// library reasons about the answer only through this name.
pub uninterp spec fn is_utf8(b: Seq<u8>) -> bool;

/// Relies on `core::str::from_utf8`: returns `Ok` exactly when the bytes
/// are valid UTF-8, a function of the bytes alone.
#[verifier::external_body]
fn utf8_check(b: &Vec<u8>) -> (r: bool)
    ensures
        r == is_utf8(b@),
{
    core::str::from_utf8(b.as_slice()).is_ok()
}

/// Translate a virtual address into a file-relative offset.
pub fn file_offset(addr: u32, base_address: u32) -> (r: Result<u32, XbeError>)
    ensures
        addr >= base_address ==> r == Ok::<u32, XbeError>((addr - base_address) as u32),
        addr < base_address ==> r == Err::<u32, XbeError>(XbeError::InvalidAddress),
{
    if addr < base_address {
        Err(XbeError::InvalidAddress)
    } else {
        Ok(addr - base_address)
    }
}

/// Translating back is the inverse of the translation: adding the base
/// address to a translated offset returns the original address.
pub proof fn lemma_file_offset_inverse(addr: u32, base_address: u32)
    requires
        addr >= base_address,
    ensures
        base_address + (addr - base_address) == addr,
{
}

// ---------------------------------------------------------------------------
// Image header
// ---------------------------------------------------------------------------

#[derive(Debug)]
pub struct ImageHeader {
    pub magic_number: Vec<u8>,
    pub digital_signature: Vec<u8>,
    pub base_address: u32,
    pub size_of_headers: u32,
    pub size_of_image: u32,
    pub size_of_image_header: u32,
    pub time_date: u32,
    pub certificate_address: u32,
    pub number_of_sections: u32,
    pub section_headers_address: u32,
    pub initialization_flags: u32,
    pub entry_point: u32,
    pub tls_address: u32,
    pub pe_stack_commit: u32,
    pub pe_heap_reserve: u32,
    pub pe_head_commit: u32,
    pub pe_base_address: u32,
    pub pe_size_of_image: u32,
    pub pe_checksum: u32,
    pub pe_time_date: u32,
    pub debug_pathname_address: u32,
    pub debug_filename_address: u32,
    pub debug_unicode_filename_address: u32,
    pub kernel_image_thunk_address: u32,
    pub non_kernel_import_directory_address: u32,
    pub number_of_library_versions: u32,
    pub library_versions_address: u32,
    pub kernel_library_version_address: u32,
    pub xapi_library_version_address: u32,
    pub logo_bitmap_address: u32,
    pub logo_bitmap_size: u32,
}

#[verifier::ext_equal]
pub ghost struct ImageHeaderView {
    pub magic_number: Seq<u8>,
    pub digital_signature: Seq<u8>,
    pub base_address: u32,
    pub size_of_headers: u32,
    pub size_of_image: u32,
    pub size_of_image_header: u32,
    pub time_date: u32,
    pub certificate_address: u32,
    pub number_of_sections: u32,
    pub section_headers_address: u32,
    pub initialization_flags: u32,
    pub entry_point: u32,
    pub tls_address: u32,
    pub pe_stack_commit: u32,
    pub pe_heap_reserve: u32,
    pub pe_head_commit: u32,
    pub pe_base_address: u32,
    pub pe_size_of_image: u32,
    pub pe_checksum: u32,
    pub pe_time_date: u32,
    pub debug_pathname_address: u32,
    pub debug_filename_address: u32,
    pub debug_unicode_filename_address: u32,
    pub kernel_image_thunk_address: u32,
    pub non_kernel_import_directory_address: u32,
    pub number_of_library_versions: u32,
    pub library_versions_address: u32,
    pub kernel_library_version_address: u32,
    pub xapi_library_version_address: u32,
    pub logo_bitmap_address: u32,
    pub logo_bitmap_size: u32,
}

impl View for ImageHeader {
    type V = ImageHeaderView;

    open spec fn view(&self) -> ImageHeaderView {
        ImageHeaderView {
            magic_number: self.magic_number@,
            digital_signature: self.digital_signature@,
            base_address: self.base_address,
            size_of_headers: self.size_of_headers,
            size_of_image: self.size_of_image,
            size_of_image_header: self.size_of_image_header,
            time_date: self.time_date,
            certificate_address: self.certificate_address,
            number_of_sections: self.number_of_sections,
            section_headers_address: self.section_headers_address,
            initialization_flags: self.initialization_flags,
            entry_point: self.entry_point,
            tls_address: self.tls_address,
            pe_stack_commit: self.pe_stack_commit,
            pe_heap_reserve: self.pe_heap_reserve,
            pe_head_commit: self.pe_head_commit,
            pe_base_address: self.pe_base_address,
            pe_size_of_image: self.pe_size_of_image,
            pe_checksum: self.pe_checksum,
            pe_time_date: self.pe_time_date,
            debug_pathname_address: self.debug_pathname_address,
            debug_filename_address: self.debug_filename_address,
            debug_unicode_filename_address: self.debug_unicode_filename_address,
            kernel_image_thunk_address: self.kernel_image_thunk_address,
            non_kernel_import_directory_address: self.non_kernel_import_directory_address,
            number_of_library_versions: self.number_of_library_versions,
            library_versions_address: self.library_versions_address,
            kernel_library_version_address: self.kernel_library_version_address,
            xapi_library_version_address: self.xapi_library_version_address,
            logo_bitmap_address: self.logo_bitmap_address,
            logo_bitmap_size: self.logo_bitmap_size,
        }
    }
}

impl ImageHeaderView {
    /// The fixed byte arrays have their declared widths.
    pub open spec fn wf(self) -> bool {
        &&& self.magic_number.len() == 4
        &&& self.digital_signature.len() == 256
    }
}

/// The fixed 0x178 bytes of the header record, fields in declared order.
pub open spec fn spec_header_fixed(h: ImageHeaderView) -> Seq<u8> {
    h.magic_number + h.digital_signature + le32(h.base_address) + le32(h.size_of_headers) + le32(
        h.size_of_image,
    ) + le32(h.size_of_image_header) + le32(h.time_date) + le32(h.certificate_address) + le32(
        h.number_of_sections,
    ) + le32(h.section_headers_address) + le32(h.initialization_flags) + le32(h.entry_point)
        + le32(h.tls_address) + le32(h.pe_stack_commit) + le32(h.pe_heap_reserve) + le32(
        h.pe_head_commit,
    ) + le32(h.pe_base_address) + le32(h.pe_size_of_image) + le32(h.pe_checksum) + le32(
        h.pe_time_date,
    ) + le32(h.debug_pathname_address) + le32(h.debug_filename_address) + le32(
        h.debug_unicode_filename_address,
    ) + le32(h.kernel_image_thunk_address) + le32(h.non_kernel_import_directory_address) + le32(
        h.number_of_library_versions,
    ) + le32(h.library_versions_address) + le32(h.kernel_library_version_address) + le32(
        h.xapi_library_version_address,
    ) + le32(h.logo_bitmap_address) + le32(h.logo_bitmap_size)
}

/// The serialized header: the fixed record, zero-padded up to the declared
/// header size.
pub open spec fn spec_header_bytes(h: ImageHeaderView) -> Seq<u8> {
    pad_to(spec_header_fixed(h), h.size_of_image_header as int)
}

impl ImageHeader {
    pub fn serialize(&self) -> (r: Result<Vec<u8>, XbeError>)
        ensures
            r matches Ok(b) && b@ == spec_header_bytes(self@),
    {
        let mut v: Vec<u8> = Vec::new();
        push_bytes(&mut v, &self.magic_number);
        push_bytes(&mut v, &self.digital_signature);
        push_u32_le(&mut v, self.base_address);
        push_u32_le(&mut v, self.size_of_headers);
        push_u32_le(&mut v, self.size_of_image);
        push_u32_le(&mut v, self.size_of_image_header);
        push_u32_le(&mut v, self.time_date);
        push_u32_le(&mut v, self.certificate_address);
        push_u32_le(&mut v, self.number_of_sections);
        push_u32_le(&mut v, self.section_headers_address);
        push_u32_le(&mut v, self.initialization_flags);
        push_u32_le(&mut v, self.entry_point);
        push_u32_le(&mut v, self.tls_address);
        push_u32_le(&mut v, self.pe_stack_commit);
        push_u32_le(&mut v, self.pe_heap_reserve);
        push_u32_le(&mut v, self.pe_head_commit);
        push_u32_le(&mut v, self.pe_base_address);
        push_u32_le(&mut v, self.pe_size_of_image);
        push_u32_le(&mut v, self.pe_checksum);
        push_u32_le(&mut v, self.pe_time_date);
        push_u32_le(&mut v, self.debug_pathname_address);
        push_u32_le(&mut v, self.debug_filename_address);
        push_u32_le(&mut v, self.debug_unicode_filename_address);
        push_u32_le(&mut v, self.kernel_image_thunk_address);
        push_u32_le(&mut v, self.non_kernel_import_directory_address);
        push_u32_le(&mut v, self.number_of_library_versions);
        push_u32_le(&mut v, self.library_versions_address);
        push_u32_le(&mut v, self.kernel_library_version_address);
        push_u32_le(&mut v, self.xapi_library_version_address);
        push_u32_le(&mut v, self.logo_bitmap_address);
        push_u32_le(&mut v, self.logo_bitmap_size);
        assert(v@ == spec_header_fixed(self@));
        pad_to_exact(&mut v, self.size_of_image_header as usize);
        Ok(v)
    }
}

// ---------------------------------------------------------------------------
// Certificate
// ---------------------------------------------------------------------------

#[derive(Debug)]
pub struct Certificate {
    pub size: u32,
    pub time_date: u32,
    pub title_id: u32,
    pub title_name: Vec<u8>,
    pub alternate_title_ids: Vec<u8>,
    pub allowed_media: u32,
    pub game_region: u32,
    pub game_ratings: u32,
    pub disk_number: u32,
    pub version: u32,
    pub lan_key: Vec<u8>,
    pub signature_key: Vec<u8>,
    pub alternate_signature_keys: Vec<u8>,
    /// Undocumented trailing bytes, preserved verbatim; always
    /// `size - 0x1d0` bytes long on a well-formed certificate.
    pub reserved: Vec<u8>,
}

#[verifier::ext_equal]
pub ghost struct CertificateView {
    pub size: u32,
    pub time_date: u32,
    pub title_id: u32,
    pub title_name: Seq<u8>,
    pub alternate_title_ids: Seq<u8>,
    pub allowed_media: u32,
    pub game_region: u32,
    pub game_ratings: u32,
    pub disk_number: u32,
    pub version: u32,
    pub lan_key: Seq<u8>,
    pub signature_key: Seq<u8>,
    pub alternate_signature_keys: Seq<u8>,
    pub reserved: Seq<u8>,
}

impl View for Certificate {
    type V = CertificateView;

    open spec fn view(&self) -> CertificateView {
        CertificateView {
            size: self.size,
            time_date: self.time_date,
            title_id: self.title_id,
            title_name: self.title_name@,
            alternate_title_ids: self.alternate_title_ids@,
            allowed_media: self.allowed_media,
            game_region: self.game_region,
            game_ratings: self.game_ratings,
            disk_number: self.disk_number,
            version: self.version,
            lan_key: self.lan_key@,
            signature_key: self.signature_key@,
            alternate_signature_keys: self.alternate_signature_keys@,
            reserved: self.reserved@,
        }
    }
}

impl CertificateView {
    /// Fixed widths hold and the reserved tail accounts for exactly the
    /// declared size beyond the fixed portion (never negative).
    pub open spec fn wf(self) -> bool {
        &&& self.title_name.len() == 0x50
        &&& self.alternate_title_ids.len() == 0x40
        &&& self.lan_key.len() == 0x10
        &&& self.signature_key.len() == 0x10
        &&& self.alternate_signature_keys.len() == 0x100
        &&& self.size >= 0x1d0
        &&& self.reserved.len() == self.size - 0x1d0
    }
}

/// The serialized certificate: fixed fields in order, then the reserved
/// tail verbatim.
pub open spec fn spec_certificate_bytes(c: CertificateView) -> Seq<u8> {
    le32(c.size) + le32(c.time_date) + le32(c.title_id) + c.title_name + c.alternate_title_ids
        + le32(c.allowed_media) + le32(c.game_region) + le32(c.game_ratings) + le32(c.disk_number)
        + le32(c.version) + c.lan_key + c.signature_key + c.alternate_signature_keys + c.reserved
}

impl Certificate {
    pub fn serialize(&self) -> (r: Result<Vec<u8>, XbeError>)
        ensures
            r matches Ok(b) && b@ == spec_certificate_bytes(self@),
    {
        let mut v: Vec<u8> = Vec::new();
        push_u32_le(&mut v, self.size);
        push_u32_le(&mut v, self.time_date);
        push_u32_le(&mut v, self.title_id);
        push_bytes(&mut v, &self.title_name);
        push_bytes(&mut v, &self.alternate_title_ids);
        push_u32_le(&mut v, self.allowed_media);
        push_u32_le(&mut v, self.game_region);
        push_u32_le(&mut v, self.game_ratings);
        push_u32_le(&mut v, self.disk_number);
        push_u32_le(&mut v, self.version);
        push_bytes(&mut v, &self.lan_key);
        push_bytes(&mut v, &self.signature_key);
        push_bytes(&mut v, &self.alternate_signature_keys);
        push_bytes(&mut v, &self.reserved);
        Ok(v)
    }
}

// ---------------------------------------------------------------------------
// Logo bitmap, sections, section headers, library versions
// ---------------------------------------------------------------------------

#[derive(Debug)]
pub struct LogoBitmap {
    pub bitmap: Vec<u8>,
}

impl LogoBitmap {
    pub fn serialize(&self) -> (r: Result<Vec<u8>, XbeError>)
        ensures
            r matches Ok(b) && b@ == self.bitmap@,
    {
        let mut v: Vec<u8> = Vec::new();
        push_bytes(&mut v, &self.bitmap);
        Ok(v)
    }
}

#[derive(Debug)]
pub struct Section {
    pub bytes: Vec<u8>,
}

impl Section {
    pub fn serialize(&self) -> (r: Result<Vec<u8>, XbeError>)
        ensures
            r matches Ok(b) && b@ == self.bytes@,
    {
        let mut v: Vec<u8> = Vec::new();
        push_bytes(&mut v, &self.bytes);
        Ok(v)
    }
}

#[derive(Debug)]
pub struct SectionHeader {
    pub section_flags: u32,
    pub virtual_address: u32,
    pub virtual_size: u32,
    pub raw_address: u32,
    pub raw_size: u32,
    pub section_name_address: u32,
    pub section_name_reference_count: u32,
    pub head_shared_page_reference_count_address: u32,
    pub tail_shared_page_reference_count_address: u32,
    pub section_digest: Vec<u8>,
}

#[verifier::ext_equal]
pub ghost struct SectionHeaderView {
    pub section_flags: u32,
    pub virtual_address: u32,
    pub virtual_size: u32,
    pub raw_address: u32,
    pub raw_size: u32,
    pub section_name_address: u32,
    pub section_name_reference_count: u32,
    pub head_shared_page_reference_count_address: u32,
    pub tail_shared_page_reference_count_address: u32,
    pub section_digest: Seq<u8>,
}

impl View for SectionHeader {
    type V = SectionHeaderView;

    open spec fn view(&self) -> SectionHeaderView {
        SectionHeaderView {
            section_flags: self.section_flags,
            virtual_address: self.virtual_address,
            virtual_size: self.virtual_size,
            raw_address: self.raw_address,
            raw_size: self.raw_size,
            section_name_address: self.section_name_address,
            section_name_reference_count: self.section_name_reference_count,
            head_shared_page_reference_count_address:
                self.head_shared_page_reference_count_address,
            tail_shared_page_reference_count_address:
                self.tail_shared_page_reference_count_address,
            section_digest: self.section_digest@,
        }
    }
}

impl SectionHeaderView {
    pub open spec fn wf(self) -> bool {
        self.section_digest.len() == 0x14
    }
}

/// The serialized 0x38-byte section-header record.
pub open spec fn spec_section_header_bytes(s: SectionHeaderView) -> Seq<u8> {
    le32(s.section_flags) + le32(s.virtual_address) + le32(s.virtual_size) + le32(s.raw_address)
        + le32(s.raw_size) + le32(s.section_name_address) + le32(s.section_name_reference_count)
        + le32(s.head_shared_page_reference_count_address) + le32(
        s.tail_shared_page_reference_count_address,
    ) + s.section_digest
}

impl SectionHeader {
    pub fn serialize(&self) -> (r: Result<Vec<u8>, XbeError>)
        ensures
            r matches Ok(b) && b@ == spec_section_header_bytes(self@),
    {
        let mut v: Vec<u8> = Vec::new();
        push_u32_le(&mut v, self.section_flags);
        push_u32_le(&mut v, self.virtual_address);
        push_u32_le(&mut v, self.virtual_size);
        push_u32_le(&mut v, self.raw_address);
        push_u32_le(&mut v, self.raw_size);
        push_u32_le(&mut v, self.section_name_address);
        push_u32_le(&mut v, self.section_name_reference_count);
        push_u32_le(&mut v, self.head_shared_page_reference_count_address);
        push_u32_le(&mut v, self.tail_shared_page_reference_count_address);
        push_bytes(&mut v, &self.section_digest);
        Ok(v)
    }
}

#[derive(Debug)]
pub struct LibraryVersion {
    pub library_name: Vec<u8>,
    pub major_version: u16,
    pub minor_version: u16,
    pub build_version: u16,
    pub library_flags: u16,
}

#[verifier::ext_equal]
pub ghost struct LibraryVersionView {
    pub library_name: Seq<u8>,
    pub major_version: u16,
    pub minor_version: u16,
    pub build_version: u16,
    pub library_flags: u16,
}

impl View for LibraryVersion {
    type V = LibraryVersionView;

    open spec fn view(&self) -> LibraryVersionView {
        LibraryVersionView {
            library_name: self.library_name@,
            major_version: self.major_version,
            minor_version: self.minor_version,
            build_version: self.build_version,
            library_flags: self.library_flags,
        }
    }
}

impl LibraryVersionView {
    pub open spec fn wf(self) -> bool {
        self.library_name.len() == 8
    }
}

/// The serialized 16-byte library-version record.
pub open spec fn spec_library_version_bytes(l: LibraryVersionView) -> Seq<u8> {
    l.library_name + le16(l.major_version) + le16(l.minor_version) + le16(l.build_version) + le16(
        l.library_flags,
    )
}

impl LibraryVersion {
    pub fn serialize(&self) -> (r: Result<Vec<u8>, XbeError>)
        ensures
            r matches Ok(b) && b@ == spec_library_version_bytes(self@),
    {
        let mut v: Vec<u8> = Vec::new();
        push_bytes(&mut v, &self.library_name);
        push_u16_le(&mut v, self.major_version);
        push_u16_le(&mut v, self.minor_version);
        push_u16_le(&mut v, self.build_version);
        push_u16_le(&mut v, self.library_flags);
        Ok(v)
    }
}

/// Thread-local-storage directory record; carried in the model for callers
/// that decode the region the header's address field points at.
#[derive(Debug)]
pub struct TLS {
    pub data_start_address: u32,
    pub data_end_address: u32,
    pub tls_index_address: u32,
    pub tls_callback_address: u32,
    pub size_of_zero_fill: u32,
    pub characteristics: u32,
}


// ---------------------------------------------------------------------------
// The aggregate image
// ---------------------------------------------------------------------------

#[derive(Debug)]
pub struct XBE {
    pub image_header: ImageHeader,
    pub certificate: Certificate,
    pub section_headers: Vec<SectionHeader>,
    pub section_names: Vec<Vec<u8>>,
    pub library_version: Vec<LibraryVersion>,
    pub debug_pathname: Vec<u8>,
    pub debug_filename: Vec<u8>,
    pub debug_unicode_filename: Vec<u16>,
    pub logo_bitmap: LogoBitmap,
    pub sections: Vec<Section>,
}

#[verifier::ext_equal]
pub ghost struct XbeView {
    pub image_header: ImageHeaderView,
    pub certificate: CertificateView,
    pub section_headers: Seq<SectionHeaderView>,
    pub section_names: Seq<Seq<u8>>,
    pub library_version: Seq<LibraryVersionView>,
    pub debug_pathname: Seq<u8>,
    pub debug_filename: Seq<u8>,
    pub debug_unicode_filename: Seq<u16>,
    pub logo_bitmap: Seq<u8>,
    pub sections: Seq<Seq<u8>>,
}

impl View for XBE {
    type V = XbeView;

    open spec fn view(&self) -> XbeView {
        XbeView {
            image_header: self.image_header@,
            certificate: self.certificate@,
            section_headers: self.section_headers@.map_values(|h: SectionHeader| h@),
            section_names: self.section_names@.map_values(|n: Vec<u8>| n@),
            library_version: self.library_version@.map_values(|l: LibraryVersion| l@),
            debug_pathname: self.debug_pathname@,
            debug_filename: self.debug_filename@,
            debug_unicode_filename: self.debug_unicode_filename@,
            logo_bitmap: self.logo_bitmap.bitmap@,
            sections: self.sections@.map_values(|s: Section| s.bytes@),
        }
    }
}

/// Concatenation of a sequence of byte strings, in order.
pub open spec fn concat_bytes(ss: Seq<Seq<u8>>) -> Seq<u8>
    decreases ss.len(),
{
    if ss.len() == 0 {
        Seq::empty()
    } else {
        concat_bytes(ss.drop_last()) + ss.last()
    }
}

/// Little-endian encoding of a sequence of 16-bit units, in order.
pub open spec fn spec_u16s_bytes(us: Seq<u16>) -> Seq<u8>
    decreases us.len(),
{
    if us.len() == 0 {
        Seq::empty()
    } else {
        spec_u16s_bytes(us.drop_last()) + le16(us.last())
    }
}

/// The section-header table block: every record in declared order followed
/// by the head/tail reference reservation of `2 * n + 2` zero bytes.
pub open spec fn spec_section_headers_block(hs: Seq<SectionHeaderView>) -> Seq<u8> {
    concat_bytes(hs.map_values(|h: SectionHeaderView| spec_section_header_bytes(h))) + zeros(
        2 * (hs.len() as int) + 2,
    )
}

/// The library-version table block, records in order.
pub open spec fn spec_libs_block(ls: Seq<LibraryVersionView>) -> Seq<u8> {
    concat_bytes(ls.map_values(|l: LibraryVersionView| spec_library_version_bytes(l)))
}

// ---------------------------------------------------------------------------
// Payload placement order: a stable sort of the declared section indices by
// the raw address of their header.
// ---------------------------------------------------------------------------

/// The raw-address keys of a header table, in declared order.
pub open spec fn spec_keys(hs: Seq<SectionHeaderView>) -> Seq<u32> {
    hs.map_values(|h: SectionHeaderView| h.raw_address)
}

/// Strict order on declared indices: by key, with the declared position
/// breaking ties (so the sort is stable).
pub open spec fn key_lt(keys: Seq<u32>, a: usize, b: usize) -> bool {
    keys[a as int] < keys[b as int] || (keys[a as int] == keys[b as int] && a < b)
}

pub open spec fn lex_sorted(keys: Seq<u32>, s: Seq<usize>) -> bool {
    forall|a: int, b: int| 0 <= a < b < s.len() ==> #[trigger] key_lt(keys, s[a], s[b])
}

pub open spec fn all_below(s: Seq<usize>, j: int) -> bool {
    forall|q: int| 0 <= q < s.len() ==> #[trigger] s[q] < j
}

/// Insert index `j` after every held index with a key at most `keys[j]`.
pub open spec fn insert_idx(s: Seq<usize>, keys: Seq<u32>, j: usize) -> Seq<usize>
    decreases s.len(),
{
    if s.len() == 0 {
        seq![j]
    } else if keys[s.last() as int] > keys[j as int] {
        insert_idx(s.drop_last(), keys, j).push(s.last())
    } else {
        s.push(j)
    }
}

/// The placement order of the first `n` declared indices.
pub open spec fn sort_idx(keys: Seq<u32>, n: int) -> Seq<usize>
    decreases n,
{
    if n <= 0 {
        Seq::empty()
    } else {
        insert_idx(sort_idx(keys, n - 1), keys, (n - 1) as usize)
    }
}

/// The writer's payload placement order: declared indices sorted by raw
/// address, stably.
pub open spec fn spec_sort_order(keys: Seq<u32>) -> Seq<usize> {
    sort_idx(keys, keys.len() as int)
}

proof fn lemma_insert_idx_props(s: Seq<usize>, keys: Seq<u32>, j: usize)
    requires
        all_below(s, j as int),
        lex_sorted(keys, s),
        (j as int) < keys.len(),
    ensures
        insert_idx(s, keys, j).len() == s.len() + 1,
        lex_sorted(keys, insert_idx(s, keys, j)),
        forall|x: usize| #[trigger] insert_idx(s, keys, j).contains(x) ==> s.contains(x) || x == j,
        forall|x: usize| #[trigger] s.contains(x) ==> insert_idx(s, keys, j).contains(x),
        insert_idx(s, keys, j).contains(j),
        all_below(insert_idx(s, keys, j), j + 1),
    decreases s.len(),
{
    let r = insert_idx(s, keys, j);
    if s.len() == 0 {
        assert(r == seq![j]);
        assert(r[0] == j);
        assert(r.contains(j));
    } else if keys[s.last() as int] > keys[j as int] {
        let s2 = s.drop_last();
        let last = s.last();
        assert(forall|q: int| 0 <= q < s2.len() ==> #[trigger] s2[q] == s[q]);
        lemma_insert_idx_props(s2, keys, j);
        let r2 = insert_idx(s2, keys, j);
        assert(r == r2.push(last));
        assert(forall|q: int| 0 <= q < r2.len() ==> #[trigger] r[q] == r2[q]);
        assert(r[r.len() - 1] == last);
        assert forall|a: int, b: int| 0 <= a < b < r.len() implies #[trigger] key_lt(
            keys,
            r[a],
            r[b],
        ) by {
            if b < r.len() - 1 {
                assert(key_lt(keys, r2[a], r2[b]));
            } else {
                assert(r[b] == last);
                assert(r2.contains(r2[a]));
                assert(r[a] == r2[a]);
                if r2[a] == j {
                    assert(key_lt(keys, j, last));
                } else {
                    assert(s2.contains(r2[a]));
                    let q = choose|q: int| 0 <= q < s2.len() && s2[q] == r2[a];
                    assert(s[q] == r2[a]);
                    if q < s.len() - 1 {
                        assert(key_lt(keys, s[q], s[s.len() - 1]));
                    }
                }
            }
        }
        assert forall|x: usize| #[trigger] r.contains(x) implies s.contains(x) || x == j by {
            let q = choose|q: int| 0 <= q < r.len() && r[q] == x;
            if q < r.len() - 1 {
                assert(r2.contains(x));
                if s2.contains(x) {
                    let w = choose|w: int| 0 <= w < s2.len() && s2[w] == x;
                    assert(s[w] == x);
                }
            } else {
                assert(s[s.len() - 1] == x);
            }
        }
        assert forall|x: usize| #[trigger] s.contains(x) implies r.contains(x) by {
            let q = choose|q: int| 0 <= q < s.len() && s[q] == x;
            if q < s.len() - 1 {
                assert(s2[q] == x);
                assert(s2.contains(x));
                assert(r2.contains(x));
                let w = choose|w: int| 0 <= w < r2.len() && r2[w] == x;
                assert(r[w] == x);
            } else {
                assert(r[r.len() - 1] == x);
            }
        }
        assert(r2.contains(j));
        let w = choose|w: int| 0 <= w < r2.len() && r2[w] == j;
        assert(r[w] == j);
        assert(r.contains(j));
        assert forall|q: int| 0 <= q < r.len() implies #[trigger] r[q] < j + 1 by {
            if q < r.len() - 1 {
                assert(r2[q] < j + 1);
            }
        }
    } else {
        assert(r == s.push(j));
        assert(forall|q: int| 0 <= q < s.len() ==> #[trigger] r[q] == s[q]);
        assert(r[r.len() - 1] == j);
        assert forall|a: int, b: int| 0 <= a < b < r.len() implies #[trigger] key_lt(
            keys,
            r[a],
            r[b],
        ) by {
            if b == r.len() - 1 {
                assert(r[b] == j);
                assert(r[a] == s[a]);
                if a < s.len() - 1 {
                    assert(key_lt(keys, s[a], s[s.len() - 1]));
                }
                assert(s[a] < j);
            }
        }
        assert forall|x: usize| #[trigger] r.contains(x) implies s.contains(x) || x == j by {
            let q = choose|q: int| 0 <= q < r.len() && r[q] == x;
            if q < r.len() - 1 {
                assert(s[q] == x);
            }
        }
        assert forall|x: usize| #[trigger] s.contains(x) implies r.contains(x) by {
            let q = choose|q: int| 0 <= q < s.len() && s[q] == x;
            assert(r[q] == x);
        }
        assert(r.contains(j));
    }
}

proof fn lemma_sort_idx_props(keys: Seq<u32>, n: int)
    requires
        0 <= n <= keys.len(),
        keys.len() <= usize::MAX,
    ensures
        sort_idx(keys, n).len() == n,
        lex_sorted(keys, sort_idx(keys, n)),
        all_below(sort_idx(keys, n), n),
        forall|j: int| 0 <= j < n ==> #[trigger] sort_idx(keys, n).contains(j as usize),
    decreases n,
{
    if n > 0 {
        lemma_sort_idx_props(keys, n - 1);
        let prev = sort_idx(keys, n - 1);
        lemma_insert_idx_props(prev, keys, (n - 1) as usize);
        assert(sort_idx(keys, n) == insert_idx(prev, keys, (n - 1) as usize));
        assert forall|j: int| 0 <= j < n implies #[trigger] sort_idx(keys, n).contains(j as usize) by {
            if j < n - 1 {
                assert(prev.contains(j as usize));
                assert(insert_idx(prev, keys, (n - 1) as usize).contains(j as usize));
            } else {
                assert(j as usize == (n - 1) as usize);
                assert(insert_idx(prev, keys, (n - 1) as usize).contains((n - 1) as usize));
            }
        }
    }
}

/// The writer's placement order: along it the raw addresses never decrease,
/// sections with equal raw addresses keep their declared order, and every
/// declared index appears.
pub proof fn lemma_section_placement_order(keys: Seq<u32>)
    requires
        keys.len() <= usize::MAX,
    ensures
        spec_sort_order(keys).len() == keys.len(),
        all_below(spec_sort_order(keys), keys.len() as int),
        forall|a: int, b: int|
            0 <= a < b < keys.len() ==> keys[(#[trigger] spec_sort_order(keys)[a]) as int]
                <= keys[(#[trigger] spec_sort_order(keys)[b]) as int],
        forall|a: int, b: int|
            0 <= a < b < keys.len() && keys[(#[trigger] spec_sort_order(keys)[a]) as int]
                == keys[(#[trigger] spec_sort_order(keys)[b]) as int]
                ==> spec_sort_order(keys)[a] < spec_sort_order(keys)[b],
        forall|j: int| 0 <= j < keys.len() ==> #[trigger] spec_sort_order(keys).contains(j as usize),
{
    lemma_sort_idx_props(keys, keys.len() as int);
    let ord = spec_sort_order(keys);
    assert forall|a: int, b: int| 0 <= a < b < keys.len() implies keys[(#[trigger] ord[a]) as int]
        <= keys[(#[trigger] ord[b]) as int] by {
        assert(key_lt(keys, ord[a], ord[b]));
    }
    assert forall|a: int, b: int|
        0 <= a < b < keys.len() && keys[(#[trigger] ord[a]) as int] == keys[(
        #[trigger] ord[b]) as int] implies ord[a] < ord[b] by {
        assert(key_lt(keys, ord[a], ord[b]));
    }
}

/// Bytes of the first `k` placed payloads: each appended in placement order
/// and zero-padded to the next page boundary.
pub open spec fn spec_sections_partial(secs: Seq<Seq<u8>>, ord: Seq<usize>, k: int) -> Seq<u8>
    decreases k,
{
    if k <= 0 {
        Seq::empty()
    } else {
        pad_to_align(spec_sections_partial(secs, ord, k - 1) + secs[ord[k - 1] as int], 0x1000)
    }
}

/// The whole payload region: every payload, placed in ascending raw-address
/// order, each padded to the next page boundary.
pub open spec fn spec_sections_block(x: XbeView) -> Seq<u8> {
    spec_sections_partial(
        x.sections,
        spec_sort_order(spec_keys(x.section_headers)),
        x.sections.len() as int,
    )
}


/// Split form of `insert_idx`: inserting at the scan position `p` (first
/// position, from the right, whose left neighbour's key is at most the new
/// key) equals the recursive insertion.
proof fn lemma_insert_idx_split(s: Seq<usize>, keys: Seq<u32>, j: usize, p: int)
    requires
        0 <= p <= s.len(),
        forall|q: int| p <= q < s.len() ==> keys[(#[trigger] s[q]) as int] > keys[j as int],
        p > 0 ==> keys[s[p - 1] as int] <= keys[j as int],
    ensures
        insert_idx(s, keys, j) == s.subrange(0, p) + seq![j] + s.subrange(p, s.len() as int),
    decreases s.len(),
{
    if s.len() == 0 {
        assert(insert_idx(s, keys, j) =~= s.subrange(0, 0) + seq![j] + s.subrange(0, 0));
    } else if keys[s.last() as int] > keys[j as int] {
        if p == s.len() {
            assert(keys[s[p - 1] as int] <= keys[j as int]);
            assert(false);
        }
        let s2 = s.drop_last();
        assert(forall|q: int| 0 <= q < s2.len() ==> #[trigger] s2[q] == s[q]);
        lemma_insert_idx_split(s2, keys, j, p);
        assert((s2.subrange(0, p) + seq![j] + s2.subrange(p, s2.len() as int)).push(s.last())
            =~= s.subrange(0, p) + seq![j] + s.subrange(p, s.len() as int));
    } else {
        if p < s.len() {
            assert(keys[(s[s.len() - 1]) as int] > keys[j as int]);
            assert(false);
        }
        assert(s.push(j) =~= s.subrange(0, p) + seq![j] + s.subrange(p, p));
    }
}

/// The greatest raw address among the headers, 0 when there are none.
pub open spec fn spec_max_raw(hs: Seq<SectionHeaderView>) -> u32
    decreases hs.len(),
{
    if hs.len() == 0 {
        0u32
    } else {
        let m = spec_max_raw(hs.drop_last());
        if hs.last().raw_address >= m {
            hs.last().raw_address
        } else {
            m
        }
    }
}

/// Append the little-endian encoding of every unit of `us` to `v`.
fn push_u16s(v: &mut Vec<u8>, us: &Vec<u16>)
    ensures
        final(v)@ == old(v)@ + spec_u16s_bytes(us@),
{
    let mut i: usize = 0;
    while i < us.len()
        invariant
            i <= us@.len(),
            v@ == old(v)@ + spec_u16s_bytes(us@.take(i as int)),
        decreases us@.len() - i,
    {
        push_u16_le(v, us[i]);
        proof {
            assert(us@.take(i as int + 1).drop_last() =~= us@.take(i as int));
            assert(us@.take(i as int + 1).last() == us@[i as int]);
            assert(old(v)@ + spec_u16s_bytes(us@.take(i as int)) + le16(us@[i as int]) =~= old(v)@
                + spec_u16s_bytes(us@.take(i as int + 1)));
        }
        i = i + 1;
    }
    proof {
        assert(us@.take(us@.len() as int) =~= us@);
    }
}

// ---------------------------------------------------------------------------
// Whole-image serialization
// ---------------------------------------------------------------------------

/// The whole serialized image: each region appended after zero padding up
/// to its translated address (or alignment boundary), in layout order.
pub open spec fn spec_serialize_xbe(x: XbeView) -> Seq<u8> {
    let h = x.image_header;
    let base = h.base_address as int;
    let s1 = pad_to(spec_header_bytes(h), h.certificate_address - base);
    let s2 = pad_to(s1 + spec_certificate_bytes(x.certificate), h.section_headers_address - base);
    let s3 = s2 + spec_section_headers_block(x.section_headers);
    let s4 = s3 + concat_bytes(x.section_names);
    let s5 = pad_to_align(s4, 4) + spec_libs_block(x.library_version);
    let s6 = pad_to(s5, h.debug_unicode_filename_address - base) + spec_u16s_bytes(
        x.debug_unicode_filename,
    );
    let s7 = pad_to(s6, h.debug_pathname_address - base) + x.debug_pathname;
    let s8 = pad_to(s7, h.logo_bitmap_address - base) + x.logo_bitmap;
    let s9 = pad_to_align(s8, 0x1000) + spec_sections_block(x);
    pad_to_align(s9, 0x1000)
}

impl XBE {
    pub fn get_last_virtual_address(&self) -> (r: u32)
        ensures
            self@.section_headers.len() == 0 ==> r == 0,
            self@.section_headers.len() > 0 ==> r == self@.section_headers.last().virtual_address,
    {
        let n = self.section_headers.len();
        if n == 0 {
            0
        } else {
            proof {
                assert(self@.section_headers[n - 1] == self.section_headers@[n - 1]@);
            }
            self.section_headers[n - 1].virtual_address
        }
    }

    /// The greatest raw address any section header declares (the raw address
    /// of the last section in placement order), 0 without sections.
    pub fn get_last_raw_address(&self) -> (r: u32)
        ensures
            r == spec_max_raw(self@.section_headers),
    {
        let ghost hs = self@.section_headers;
        let mut m: u32 = 0;
        let mut i: usize = 0;
        while i < self.section_headers.len()
            invariant
                i <= self.section_headers@.len(),
                hs == self@.section_headers,
                hs.len() == self.section_headers@.len(),
                m == spec_max_raw(hs.take(i as int)),
            decreases self.section_headers@.len() - i,
        {
            let ra = self.section_headers[i].raw_address;
            proof {
                assert(hs[i as int] == self.section_headers@[i as int]@);
                assert(hs.take(i as int + 1).drop_last() =~= hs.take(i as int));
                assert(hs.take(i as int + 1).last() == hs[i as int]);
            }
            if ra >= m {
                m = ra;
            }
            i = i + 1;
        }
        proof {
            assert(hs.take(hs.len() as int) =~= hs);
        }
        m
    }

    pub fn serialize_section_headers(&self) -> (r: Result<Vec<u8>, XbeError>)
        ensures
            r matches Ok(b) && b@ == spec_section_headers_block(self@.section_headers),
    {
        let ghost hs = self@.section_headers;
        let ghost ms = hs.map_values(|h: SectionHeaderView| spec_section_header_bytes(h));
        let mut v: Vec<u8> = Vec::new();
        let mut i: usize = 0;
        while i < self.section_headers.len()
            invariant
                i <= self.section_headers@.len(),
                hs == self@.section_headers,
                ms == hs.map_values(|h: SectionHeaderView| spec_section_header_bytes(h)),
                hs.len() == self.section_headers@.len(),
                ms.len() == hs.len(),
                v@ == concat_bytes(ms.take(i as int)),
            decreases self.section_headers@.len() - i,
        {
            let mut hb = self.section_headers[i].serialize()?;
            v.append(&mut hb);
            proof {
                assert(hs[i as int] == self.section_headers@[i as int]@);
                assert(ms[i as int] == spec_section_header_bytes(hs[i as int]));
                assert(ms.take(i as int + 1).drop_last() =~= ms.take(i as int));
                assert(ms.take(i as int + 1).last() == ms[i as int]);
            }
            i = i + 1;
        }
        proof {
            assert(ms.take(ms.len() as int) =~= ms);
        }
        let n = self.section_headers.len();
        let mut k: usize = 0;
        while k < n
            invariant
                k <= n,
                v@ == concat_bytes(ms) + zeros(2 * k as int),
            decreases n - k,
        {
            v.push(0u8);
            v.push(0u8);
            proof {
                assert(concat_bytes(ms) + zeros(2 * k as int) + seq![0u8] + seq![0u8]
                    =~= concat_bytes(ms) + zeros(2 * (k as int + 1)));
            }
            k = k + 1;
        }
        v.push(0u8);
        v.push(0u8);
        proof {
            assert(concat_bytes(ms) + zeros(2 * n as int) + seq![0u8] + seq![0u8]
                =~= spec_section_headers_block(hs));
        }
        Ok(v)
    }

    pub fn serialize_section_names(&self) -> (r: Result<Vec<u8>, XbeError>)
        ensures
            r matches Ok(b) && b@ == concat_bytes(self@.section_names),
    {
        let ghost ns = self@.section_names;
        let mut v: Vec<u8> = Vec::new();
        let mut i: usize = 0;
        while i < self.section_names.len()
            invariant
                i <= self.section_names@.len(),
                ns == self@.section_names,
                ns.len() == self.section_names@.len(),
                v@ == concat_bytes(ns.take(i as int)),
            decreases self.section_names@.len() - i,
        {
            push_bytes(&mut v, &self.section_names[i]);
            proof {
                assert(ns[i as int] == self.section_names@[i as int]@);
                assert(ns.take(i as int + 1).drop_last() =~= ns.take(i as int));
                assert(ns.take(i as int + 1).last() == ns[i as int]);
            }
            i = i + 1;
        }
        proof {
            assert(ns.take(ns.len() as int) =~= ns);
        }
        Ok(v)
    }

    pub fn serialize_library_versions(&self) -> (r: Result<Vec<u8>, XbeError>)
        ensures
            r matches Ok(b) && b@ == spec_libs_block(self@.library_version),
    {
        let ghost ls = self@.library_version;
        let ghost ms = ls.map_values(|l: LibraryVersionView| spec_library_version_bytes(l));
        let mut v: Vec<u8> = Vec::new();
        let mut i: usize = 0;
        while i < self.library_version.len()
            invariant
                i <= self.library_version@.len(),
                ls == self@.library_version,
                ms == ls.map_values(|l: LibraryVersionView| spec_library_version_bytes(l)),
                ls.len() == self.library_version@.len(),
                ms.len() == ls.len(),
                v@ == concat_bytes(ms.take(i as int)),
            decreases self.library_version@.len() - i,
        {
            let mut lb = self.library_version[i].serialize()?;
            v.append(&mut lb);
            proof {
                assert(ls[i as int] == self.library_version@[i as int]@);
                assert(ms[i as int] == spec_library_version_bytes(ls[i as int]));
                assert(ms.take(i as int + 1).drop_last() =~= ms.take(i as int));
                assert(ms.take(i as int + 1).last() == ms[i as int]);
            }
            i = i + 1;
        }
        proof {
            assert(ms.take(ms.len() as int) =~= ms);
        }
        Ok(v)
    }

    /// Serialize every payload, placed in ascending raw-address order
    /// (stable on ties) and padded to page boundaries; fails when the
    /// header and payload counts disagree.
    pub fn serialize_sections(&self) -> (r: Result<Vec<u8>, XbeError>)
        ensures
            self@.section_headers.len() == self@.sections.len() ==> (r matches Ok(b) && b@
                == spec_sections_block(self@)),
            self@.section_headers.len() != self@.sections.len() ==> r == Err::<Vec<u8>, XbeError>(
                XbeError::LayoutError,
            ),
    {
        let n = self.section_headers.len();
        if n != self.sections.len() {
            return Err(XbeError::LayoutError);
        }
        let ghost keys = spec_keys(self@.section_headers);
        proof {
            assert(keys.len() == n);
        }
        let mut idx: Vec<usize> = Vec::new();
        let mut j: usize = 0;
        while j < n
            invariant
                j <= n,
                n == self.section_headers@.len(),
                n == self.sections@.len(),
                keys == spec_keys(self@.section_headers),
                keys.len() == n,
                idx@ == sort_idx(keys, j as int),
                idx@.len() == j,
                lex_sorted(keys, idx@),
                all_below(idx@, j as int),
            decreases n - j,
        {
            let key_j = self.section_headers[j].raw_address;
            proof {
                assert(self@.section_headers[j as int] == self.section_headers@[j as int]@);
                assert(keys[j as int] == self@.section_headers[j as int].raw_address);
            }
            let ghost prev = idx@;
            let mut p: usize = idx.len();
            while p > 0 && self.section_headers[idx[p - 1]].raw_address > key_j
                invariant
                    p <= idx@.len(),
                    idx@ == prev,
                    idx@.len() == j,
                    j < n,
                    n == self.section_headers@.len(),
                    keys == spec_keys(self@.section_headers),
                    keys.len() == n,
                    all_below(idx@, j as int),
                    key_j == keys[j as int],
                    forall|q: int|
                        p <= q < idx@.len() ==> keys[(#[trigger] idx@[q]) as int] > keys[j as int],
                decreases p,
            {
                proof {
                    assert(self@.section_headers[idx@[p - 1] as int] == self.section_headers@[
                        idx@[p - 1] as int]@);
                    assert(keys[idx@[p - 1] as int] == self@.section_headers[
                        idx@[p - 1] as int].raw_address);
                }
                p = p - 1;
            }
            proof {
                if p > 0 {
                    assert(self@.section_headers[idx@[p - 1] as int] == self.section_headers@[
                        idx@[p - 1] as int]@);
                    assert(keys[idx@[p - 1] as int] <= keys[j as int]);
                }
            }
            idx.insert(p, j);
            proof {
                lemma_insert_idx_split(prev, keys, j, p as int);
                assert(prev.subrange(0, p as int).push(j) + prev.subrange(
                    p as int,
                    prev.len() as int,
                ) =~= prev.subrange(0, p as int) + seq![j] + prev.subrange(
                    p as int,
                    prev.len() as int,
                ));
                assert(idx@ == insert_idx(prev, keys, j));
                assert(sort_idx(keys, j as int + 1) == insert_idx(
                    sort_idx(keys, j as int),
                    keys,
                    j,
                ));
                lemma_insert_idx_props(prev, keys, j);
            }
            j = j + 1;
        }
        let ghost ord = idx@;
        proof {
            assert(ord == spec_sort_order(keys));
        }
        let mut v: Vec<u8> = Vec::new();
        let mut k: usize = 0;
        while k < n
            invariant
                k <= n,
                n == self.sections@.len(),
                n == self.section_headers@.len(),
                idx@ == ord,
                ord.len() == n,
                all_below(ord, n as int),
                v@ == spec_sections_partial(self@.sections, ord, k as int),
            decreases n - k,
        {
            let si = idx[k];
            let mut sb = self.sections[si].serialize()?;
            v.append(&mut sb);
            pad_to_nearest(&mut v, 0x1000);
            proof {
                assert(self@.sections[ord[k as int] as int] == self.sections@[si as int].bytes@);
                assert(spec_sections_partial(self@.sections, ord, k as int + 1) == pad_to_align(
                    spec_sections_partial(self@.sections, ord, k as int) + self@.sections[
                        ord[k as int] as int],
                    0x1000,
                ));
            }
            k = k + 1;
        }
        proof {
            assert(v@ == spec_sections_block(self@));
        }
        Ok(v)
    }

    /// Serialize the whole image: every region written after zero padding up
    /// to its translated address, the header region page-aligned, and the
    /// payloads placed in ascending raw-address order on page boundaries.
    pub fn serialize(&self) -> (r: Result<Vec<u8>, XbeError>)
        requires
            self@.image_header.certificate_address >= self@.image_header.base_address,
            self@.image_header.section_headers_address >= self@.image_header.base_address,
            self@.image_header.debug_unicode_filename_address >= self@.image_header.base_address,
            self@.image_header.debug_pathname_address >= self@.image_header.base_address,
            self@.image_header.logo_bitmap_address >= self@.image_header.base_address,
        ensures
            self@.section_headers.len() == self@.sections.len() ==> (r matches Ok(b) && b@
                == spec_serialize_xbe(self@)),
            self@.section_headers.len() != self@.sections.len() ==> r == Err::<Vec<u8>, XbeError>(
                XbeError::LayoutError,
            ),
    {
        let ghost x = self@;
        let ghost base = x.image_header.base_address as int;
        let mut img_hdr_v = self.image_header.serialize()?;
        let mut ctf_v = self.certificate.serialize()?;
        let mut sec_hdrs = self.serialize_section_headers()?;
        let mut sec_names = self.serialize_section_names()?;
        let mut library_versions = self.serialize_library_versions()?;
        let mut bitmap = self.logo_bitmap.serialize()?;
        let mut sections = self.serialize_sections()?;

        pad_to_exact(
            &mut img_hdr_v,
            (self.image_header.certificate_address - self.image_header.base_address) as usize,
        );
        let ghost s1 = pad_to(spec_header_bytes(x.image_header), x.image_header.certificate_address - base);
        assert(img_hdr_v@ == s1);
        img_hdr_v.append(&mut ctf_v);

        pad_to_exact(
            &mut img_hdr_v,
            (self.image_header.section_headers_address - self.image_header.base_address) as usize,
        );
        let ghost s2 = pad_to(s1 + spec_certificate_bytes(x.certificate), x.image_header.section_headers_address - base);
        assert(img_hdr_v@ == s2);
        img_hdr_v.append(&mut sec_hdrs);
        img_hdr_v.append(&mut sec_names);

        pad_to_nearest(&mut img_hdr_v, 4);
        let ghost s4 = s2 + spec_section_headers_block(x.section_headers) + concat_bytes(x.section_names);
        assert(img_hdr_v@ == pad_to_align(s4, 4));
        img_hdr_v.append(&mut library_versions);

        pad_to_exact(
            &mut img_hdr_v,
            (self.image_header.debug_unicode_filename_address - self.image_header.base_address)
                as usize,
        );
        let ghost s5 = pad_to_align(s4, 4) + spec_libs_block(x.library_version);
        assert(img_hdr_v@ == pad_to(s5, x.image_header.debug_unicode_filename_address - base));
        push_u16s(&mut img_hdr_v, &self.debug_unicode_filename);

        pad_to_exact(
            &mut img_hdr_v,
            (self.image_header.debug_pathname_address - self.image_header.base_address) as usize,
        );
        let ghost s6 = pad_to(s5, x.image_header.debug_unicode_filename_address - base)
            + spec_u16s_bytes(x.debug_unicode_filename);
        assert(img_hdr_v@ == pad_to(s6, x.image_header.debug_pathname_address - base));
        push_bytes(&mut img_hdr_v, &self.debug_pathname);

        pad_to_exact(
            &mut img_hdr_v,
            (self.image_header.logo_bitmap_address - self.image_header.base_address) as usize,
        );
        let ghost s7 = pad_to(s6, x.image_header.debug_pathname_address - base) + x.debug_pathname;
        assert(img_hdr_v@ == pad_to(s7, x.image_header.logo_bitmap_address - base));
        img_hdr_v.append(&mut bitmap);

        pad_to_nearest(&mut img_hdr_v, 0x1000);
        let ghost s8 = pad_to(s7, x.image_header.logo_bitmap_address - base) + x.logo_bitmap;
        assert(img_hdr_v@ == pad_to_align(s8, 0x1000));
        img_hdr_v.append(&mut sections);

        pad_to_nearest(&mut img_hdr_v, 0x1000);
        let ghost s9 = pad_to_align(s8, 0x1000) + spec_sections_block(x);
        assert(img_hdr_v@ == pad_to_align(s9, 0x1000));
        assert(img_hdr_v@ == spec_serialize_xbe(x));

        Ok(img_hdr_v)
    }
}


// ---------------------------------------------------------------------------
// Reading an image back from raw bytes
// ---------------------------------------------------------------------------

/// The header fields as laid out in the first 0x178 bytes.
pub open spec fn spec_parse_header(b: Seq<u8>) -> ImageHeaderView {
    ImageHeaderView {
        magic_number: b.subrange(0, 4),
        digital_signature: b.subrange(4, 260),
        base_address: u32_at(b, 260),
        size_of_headers: u32_at(b, 264),
        size_of_image: u32_at(b, 268),
        size_of_image_header: u32_at(b, 272),
        time_date: u32_at(b, 276),
        certificate_address: u32_at(b, 280),
        number_of_sections: u32_at(b, 284),
        section_headers_address: u32_at(b, 288),
        initialization_flags: u32_at(b, 292),
        entry_point: u32_at(b, 296),
        tls_address: u32_at(b, 300),
        pe_stack_commit: u32_at(b, 304),
        pe_heap_reserve: u32_at(b, 308),
        pe_head_commit: u32_at(b, 312),
        pe_base_address: u32_at(b, 316),
        pe_size_of_image: u32_at(b, 320),
        pe_checksum: u32_at(b, 324),
        pe_time_date: u32_at(b, 328),
        debug_pathname_address: u32_at(b, 332),
        debug_filename_address: u32_at(b, 336),
        debug_unicode_filename_address: u32_at(b, 340),
        kernel_image_thunk_address: u32_at(b, 344),
        non_kernel_import_directory_address: u32_at(b, 348),
        number_of_library_versions: u32_at(b, 352),
        library_versions_address: u32_at(b, 356),
        kernel_library_version_address: u32_at(b, 360),
        xapi_library_version_address: u32_at(b, 364),
        logo_bitmap_address: u32_at(b, 368),
        logo_bitmap_size: u32_at(b, 372),
    }
}

/// Read the fixed header record from the start of `bytes`.
pub fn load_image_header(bytes: &Vec<u8>) -> (r: Result<ImageHeader, XbeError>)
    ensures
        bytes@.len() >= 376 ==> (r matches Ok(h) && h@ == spec_parse_header(bytes@)),
        bytes@.len() < 376 ==> r == Err::<ImageHeader, XbeError>(XbeError::MalformedImage),
{
    if bytes.len() < 376 {
        return Err(XbeError::MalformedImage);
    }
    let h = ImageHeader {
        magic_number: read_bytes(bytes, 0, 4),
        digital_signature: read_bytes(bytes, 4, 256),
        base_address: read_u32_le(bytes, 260),
        size_of_headers: read_u32_le(bytes, 264),
        size_of_image: read_u32_le(bytes, 268),
        size_of_image_header: read_u32_le(bytes, 272),
        time_date: read_u32_le(bytes, 276),
        certificate_address: read_u32_le(bytes, 280),
        number_of_sections: read_u32_le(bytes, 284),
        section_headers_address: read_u32_le(bytes, 288),
        initialization_flags: read_u32_le(bytes, 292),
        entry_point: read_u32_le(bytes, 296),
        tls_address: read_u32_le(bytes, 300),
        pe_stack_commit: read_u32_le(bytes, 304),
        pe_heap_reserve: read_u32_le(bytes, 308),
        pe_head_commit: read_u32_le(bytes, 312),
        pe_base_address: read_u32_le(bytes, 316),
        pe_size_of_image: read_u32_le(bytes, 320),
        pe_checksum: read_u32_le(bytes, 324),
        pe_time_date: read_u32_le(bytes, 328),
        debug_pathname_address: read_u32_le(bytes, 332),
        debug_filename_address: read_u32_le(bytes, 336),
        debug_unicode_filename_address: read_u32_le(bytes, 340),
        kernel_image_thunk_address: read_u32_le(bytes, 344),
        non_kernel_import_directory_address: read_u32_le(bytes, 348),
        number_of_library_versions: read_u32_le(bytes, 352),
        library_versions_address: read_u32_le(bytes, 356),
        kernel_library_version_address: read_u32_le(bytes, 360),
        xapi_library_version_address: read_u32_le(bytes, 364),
        logo_bitmap_address: read_u32_le(bytes, 368),
        logo_bitmap_size: read_u32_le(bytes, 372),
    };
    proof {
        assert(h@ =~= spec_parse_header(bytes@));
    }
    Ok(h)
}

pub open spec fn spec_cert_off(h: ImageHeaderView) -> int {
    h.certificate_address - h.base_address
}

/// The certificate fields as laid out at `off`.
pub open spec fn spec_parse_certificate(b: Seq<u8>, off: int) -> CertificateView {
    CertificateView {
        size: u32_at(b, off),
        time_date: u32_at(b, off + 4),
        title_id: u32_at(b, off + 8),
        title_name: b.subrange(off + 12, off + 0x5c),
        alternate_title_ids: b.subrange(off + 0x5c, off + 0x9c),
        allowed_media: u32_at(b, off + 0x9c),
        game_region: u32_at(b, off + 0xa0),
        game_ratings: u32_at(b, off + 0xa4),
        disk_number: u32_at(b, off + 0xa8),
        version: u32_at(b, off + 0xac),
        lan_key: b.subrange(off + 0xb0, off + 0xc0),
        signature_key: b.subrange(off + 0xc0, off + 0xd0),
        alternate_signature_keys: b.subrange(off + 0xd0, off + 0x1d0),
        reserved: if u32_at(b, off) >= 0x1d0 {
            b.subrange(off + 0x1d0, off + u32_at(b, off))
        } else {
            Seq::empty()
        },
    }
}

/// The certificate region lies inside the buffer: the fixed portion, and
/// the whole declared size when it exceeds the fixed portion.
pub open spec fn spec_cert_ok(b: Seq<u8>, h: ImageHeaderView) -> bool {
    &&& h.certificate_address >= h.base_address
    &&& spec_cert_off(h) + 0x1d0 <= b.len()
    &&& (u32_at(b, spec_cert_off(h)) >= 0x1d0 ==> spec_cert_off(h) + u32_at(
        b,
        spec_cert_off(h),
    ) <= b.len())
}

/// Read the certificate the header points at, reserved tail included.
pub fn load_certificate(bytes: &Vec<u8>, header: &ImageHeader) -> (r: Result<
    Certificate,
    XbeError,
>)
    ensures
        spec_cert_ok(bytes@, header@) ==> (r matches Ok(c) && c@ == spec_parse_certificate(
            bytes@,
            spec_cert_off(header@),
        )),
        !spec_cert_ok(bytes@, header@) ==> r == Err::<Certificate, XbeError>(
            XbeError::MalformedImage,
        ),
{
    if header.certificate_address < header.base_address {
        return Err(XbeError::MalformedImage);
    }
    let off32 = header.certificate_address - header.base_address;
    if (off32 as u64) + 0x1d0 > bytes.len() as u64 {
        return Err(XbeError::MalformedImage);
    }
    let off = off32 as usize;
    let size = read_u32_le(bytes, off);
    let reserved: Vec<u8> = if size >= 0x1d0 {
        if (off32 as u64) + (size as u64) > bytes.len() as u64 {
            return Err(XbeError::MalformedImage);
        }
        read_bytes(bytes, off + 0x1d0, (size - 0x1d0) as usize)
    } else {
        Vec::new()
    };
    let c = Certificate {
        size,
        time_date: read_u32_le(bytes, off + 4),
        title_id: read_u32_le(bytes, off + 8),
        title_name: read_bytes(bytes, off + 12, 0x50),
        alternate_title_ids: read_bytes(bytes, off + 0x5c, 0x40),
        allowed_media: read_u32_le(bytes, off + 0x9c),
        game_region: read_u32_le(bytes, off + 0xa0),
        game_ratings: read_u32_le(bytes, off + 0xa4),
        disk_number: read_u32_le(bytes, off + 0xa8),
        version: read_u32_le(bytes, off + 0xac),
        lan_key: read_bytes(bytes, off + 0xb0, 0x10),
        signature_key: read_bytes(bytes, off + 0xc0, 0x10),
        alternate_signature_keys: read_bytes(bytes, off + 0xd0, 0x100),
        reserved,
    };
    proof {
        assert(c@ =~= spec_parse_certificate(bytes@, spec_cert_off(header@)));
    }
    Ok(c)
}

pub open spec fn spec_shdr_off(h: ImageHeaderView) -> int {
    h.section_headers_address - h.base_address
}

/// One section-header record as laid out at `o`.
pub open spec fn spec_parse_section_header(b: Seq<u8>, o: int) -> SectionHeaderView {
    SectionHeaderView {
        section_flags: u32_at(b, o),
        virtual_address: u32_at(b, o + 4),
        virtual_size: u32_at(b, o + 8),
        raw_address: u32_at(b, o + 12),
        raw_size: u32_at(b, o + 16),
        section_name_address: u32_at(b, o + 20),
        section_name_reference_count: u32_at(b, o + 24),
        head_shared_page_reference_count_address: u32_at(b, o + 28),
        tail_shared_page_reference_count_address: u32_at(b, o + 32),
        section_digest: b.subrange(o + 36, o + 56),
    }
}

/// The declared number of records, in table order.
pub open spec fn spec_parse_section_headers(b: Seq<u8>, off: int, n: int) -> Seq<
    SectionHeaderView,
> {
    Seq::new(n as nat, |i: int| spec_parse_section_header(b, off + 56 * i))
}

pub open spec fn spec_shdrs_ok(b: Seq<u8>, h: ImageHeaderView) -> bool {
    &&& h.section_headers_address >= h.base_address
    &&& spec_shdr_off(h) + 56 * (h.number_of_sections as int) <= b.len()
}

/// Read the section-header table the header points at.
pub fn load_section_headers(bytes: &Vec<u8>, image_header: &ImageHeader) -> (r: Result<
    Vec<SectionHeader>,
    XbeError,
>)
    ensures
        spec_shdrs_ok(bytes@, image_header@) ==> (r matches Ok(v) && v@.map_values(
            |sh: SectionHeader| sh@,
        ) == spec_parse_section_headers(
            bytes@,
            spec_shdr_off(image_header@),
            image_header@.number_of_sections as int,
        )),
        !spec_shdrs_ok(bytes@, image_header@) ==> r == Err::<Vec<SectionHeader>, XbeError>(
            XbeError::MalformedImage,
        ),
{
    if image_header.section_headers_address < image_header.base_address {
        return Err(XbeError::MalformedImage);
    }
    let off32 = image_header.section_headers_address - image_header.base_address;
    let n = image_header.number_of_sections as usize;
    if (off32 as u64) + 56u64 * (n as u64) > bytes.len() as u64 {
        return Err(XbeError::MalformedImage);
    }
    let off = off32 as usize;
    let mut headers: Vec<SectionHeader> = Vec::new();
    let mut i: usize = 0;
    while i < n
        invariant
            i <= n,
            off + 56 * n <= bytes.len(),
            off as int == spec_shdr_off(image_header@),
            headers@.len() == i,
            forall|k: int|
                0 <= k < i ==> #[trigger] headers@[k]@ == spec_parse_section_header(
                    bytes@,
                    off + 56 * k,
                ),
        decreases n - i,
    {
        let o = off + 56 * i;
        let sh = SectionHeader {
            section_flags: read_u32_le(bytes, o),
            virtual_address: read_u32_le(bytes, o + 4),
            virtual_size: read_u32_le(bytes, o + 8),
            raw_address: read_u32_le(bytes, o + 12),
            raw_size: read_u32_le(bytes, o + 16),
            section_name_address: read_u32_le(bytes, o + 20),
            section_name_reference_count: read_u32_le(bytes, o + 24),
            head_shared_page_reference_count_address: read_u32_le(bytes, o + 28),
            tail_shared_page_reference_count_address: read_u32_le(bytes, o + 32),
            section_digest: read_bytes(bytes, o + 36, 20),
        };
        proof {
            assert(sh@ =~= spec_parse_section_header(bytes@, off + 56 * (i as int)));
        }
        headers.push(sh);
        i = i + 1;
    }
    proof {
        assert(headers@.map_values(|sh: SectionHeader| sh@) =~= spec_parse_section_headers(
            bytes@,
            spec_shdr_off(image_header@),
            image_header@.number_of_sections as int,
        ));
    }
    Ok(headers)
}

/// The bytes from `off` through the first zero byte, terminator included;
/// `None` when no zero byte follows inside the buffer.
pub open spec fn scan_nul(b: Seq<u8>, off: int) -> Option<Seq<u8>>
    decreases b.len() - off,
{
    if off < 0 || off >= b.len() {
        None
    } else if b[off] == 0 {
        Some(seq![0u8])
    } else {
        match scan_nul(b, off + 1) {
            Some(t) => Some(seq![b[off]] + t),
            None => None,
        }
    }
}

pub open spec fn scan_nul_val(b: Seq<u8>, off: int) -> Seq<u8> {
    match scan_nul(b, off) {
        Some(t) => t,
        None => Seq::empty(),
    }
}

/// The 16-bit units from `off` through the first zero unit, terminator
/// included; `None` when no zero unit follows inside the buffer.
pub open spec fn scan_nul16(b: Seq<u8>, off: int) -> Option<Seq<u16>>
    decreases b.len() - off,
{
    if off < 0 || off + 2 > b.len() {
        None
    } else if u16_at(b, off) == 0 {
        Some(seq![0u16])
    } else {
        match scan_nul16(b, off + 2) {
            Some(t) => Some(seq![u16_at(b, off)] + t),
            None => None,
        }
    }
}

pub open spec fn scan_nul16_val(b: Seq<u8>, off: int) -> Seq<u16> {
    match scan_nul16(b, off) {
        Some(t) => t,
        None => Seq::empty(),
    }
}

/// Read a zero-terminated byte string starting at `off`.
fn read_nul_string(bytes: &Vec<u8>, off: usize) -> (r: Result<Vec<u8>, XbeError>)
    ensures
        scan_nul(bytes@, off as int) matches Some(t) ==> (r matches Ok(v) && v@ == t),
        scan_nul(bytes@, off as int) is None ==> r == Err::<Vec<u8>, XbeError>(
            XbeError::MalformedImage,
        ),
{
    let mut acc: Vec<u8> = Vec::new();
    let mut cur: usize = off;
    loop
        invariant
            off <= cur,
            forall|t: Seq<u8>|
                scan_nul(bytes@, cur as int) == Some(t) ==> scan_nul(bytes@, off as int) == Some(
                    acc@ + t,
                ),
            scan_nul(bytes@, cur as int) is None ==> scan_nul(bytes@, off as int) is None,
        decreases bytes@.len() - cur,
    {
        if cur >= bytes.len() {
            proof {
                assert(scan_nul(bytes@, cur as int) is None);
            }
            return Err(XbeError::MalformedImage);
        }
        let c = bytes[cur];
        let ghost prev_acc = acc@;
        acc.push(c);
        if c == 0 {
            proof {
                assert(scan_nul(bytes@, cur as int) == Some(seq![0u8]));
                assert(prev_acc + seq![0u8] =~= acc@);
            }
            return Ok(acc);
        }
        proof {
            assert forall|t: Seq<u8>|
                scan_nul(bytes@, cur + 1) == Some(t) implies scan_nul(bytes@, off as int) == Some(
                acc@ + t,
            ) by {
                assert(scan_nul(bytes@, cur as int) == Some(seq![bytes@[cur as int]] + t));
                assert(prev_acc + (seq![bytes@[cur as int]] + t) =~= acc@ + t);
            }
        }
        cur = cur + 1;
    }
}

/// Read a zero-terminated 16-bit string starting at `off`.
fn read_nul_string16(bytes: &Vec<u8>, off: usize) -> (r: Result<Vec<u16>, XbeError>)
    ensures
        scan_nul16(bytes@, off as int) matches Some(t) ==> (r matches Ok(v) && v@ == t),
        scan_nul16(bytes@, off as int) is None ==> r == Err::<Vec<u16>, XbeError>(
            XbeError::MalformedImage,
        ),
{
    let mut acc: Vec<u16> = Vec::new();
    let mut cur: usize = off;
    loop
        invariant
            off <= cur,
            forall|t: Seq<u16>|
                scan_nul16(bytes@, cur as int) == Some(t) ==> scan_nul16(bytes@, off as int)
                    == Some(acc@ + t),
            scan_nul16(bytes@, cur as int) is None ==> scan_nul16(bytes@, off as int) is None,
        decreases bytes@.len() - cur,
    {
        if bytes.len() < 2 || cur > bytes.len() - 2 {
            proof {
                assert(scan_nul16(bytes@, cur as int) is None);
            }
            return Err(XbeError::MalformedImage);
        }
        let u = read_u16_le(bytes, cur);
        let ghost prev_acc = acc@;
        acc.push(u);
        if u == 0 {
            proof {
                assert(scan_nul16(bytes@, cur as int) == Some(seq![0u16]));
                assert(prev_acc + seq![0u16] =~= acc@);
            }
            return Ok(acc);
        }
        proof {
            assert forall|t: Seq<u16>|
                scan_nul16(bytes@, cur + 2) == Some(t) implies scan_nul16(bytes@, off as int)
                == Some(acc@ + t) by {
                assert(scan_nul16(bytes@, cur as int) == Some(
                    seq![u16_at(bytes@, cur as int)] + t,
                ));
                assert(prev_acc + (seq![u16_at(bytes@, cur as int)] + t) =~= acc@ + t);
            }
        }
        cur = cur + 2;
    }
}


pub open spec fn spec_name_off(h: ImageHeaderView, sh: SectionHeaderView) -> int {
    sh.section_name_address - h.base_address
}

/// Every name address lies at or above the base address, points at a
/// zero-terminated string inside the buffer, and that string is valid text.
pub open spec fn spec_names_ok(b: Seq<u8>, h: ImageHeaderView, hs: Seq<SectionHeaderView>) -> bool {
    forall|i: int|
        0 <= i < hs.len() ==> {
            &&& (#[trigger] hs[i]).section_name_address >= h.base_address
            &&& scan_nul(b, spec_name_off(h, hs[i])) is Some
            &&& is_utf8(scan_nul_val(b, spec_name_off(h, hs[i])))
        }
}

/// The name strings, in table order, terminators included.
pub open spec fn spec_parse_names(b: Seq<u8>, h: ImageHeaderView, hs: Seq<SectionHeaderView>) -> Seq<
    Seq<u8>,
> {
    Seq::new(hs.len(), |i: int| scan_nul_val(b, spec_name_off(h, hs[i])))
}

/// Read the zero-terminated name string of every section header, in table
/// order.
pub fn load_section_names(
    bytes: &Vec<u8>,
    image_header: &ImageHeader,
    sections_headers: &Vec<SectionHeader>,
) -> (r: Result<Vec<Vec<u8>>, XbeError>)
    ensures
        spec_names_ok(
            bytes@,
            image_header@,
            sections_headers@.map_values(|sh: SectionHeader| sh@),
        ) ==> (r matches Ok(v) && v@.map_values(|n: Vec<u8>| n@) == spec_parse_names(
            bytes@,
            image_header@,
            sections_headers@.map_values(|sh: SectionHeader| sh@),
        )),
        !spec_names_ok(
            bytes@,
            image_header@,
            sections_headers@.map_values(|sh: SectionHeader| sh@),
        ) ==> r == Err::<Vec<Vec<u8>>, XbeError>(XbeError::MalformedImage),
{
    let ghost hs = sections_headers@.map_values(|sh: SectionHeader| sh@);
    let mut strings: Vec<Vec<u8>> = Vec::new();
    let mut i: usize = 0;
    while i < sections_headers.len()
        invariant
            i <= sections_headers@.len(),
            hs == sections_headers@.map_values(|sh: SectionHeader| sh@),
            hs.len() == sections_headers@.len(),
            strings@.len() == i,
            forall|k: int|
                0 <= k < i ==> {
                    &&& (#[trigger] hs[k]).section_name_address >= image_header@.base_address
                    &&& scan_nul(bytes@, spec_name_off(image_header@, hs[k])) is Some
                    &&& is_utf8(scan_nul_val(bytes@, spec_name_off(image_header@, hs[k])))
                },
            forall|k: int|
                0 <= k < i ==> #[trigger] strings@[k]@ == scan_nul_val(
                    bytes@,
                    spec_name_off(image_header@, hs[k]),
                ),
        decreases sections_headers@.len() - i,
    {
        proof {
            assert(hs[i as int] == sections_headers@[i as int]@);
        }
        let addr = sections_headers[i].section_name_address;
        if addr < image_header.base_address {
            return Err(XbeError::MalformedImage);
        }
        let s = match read_nul_string(bytes, (addr - image_header.base_address) as usize) {
            Ok(s) => s,
            Err(e) => {
                return Err(XbeError::MalformedImage);
            },
        };
        if !utf8_check(&s) {
            return Err(XbeError::MalformedImage);
        }
        strings.push(s);
        i = i + 1;
    }
    proof {
        assert(strings@.map_values(|n: Vec<u8>| n@) =~= spec_parse_names(
            bytes@,
            image_header@,
            hs,
        ));
    }
    Ok(strings)
}

pub open spec fn spec_fname_off(h: ImageHeaderView) -> int {
    h.debug_filename_address - h.base_address
}

pub open spec fn spec_path_off(h: ImageHeaderView) -> int {
    h.debug_pathname_address - h.base_address
}

pub open spec fn spec_uni_off(h: ImageHeaderView) -> int {
    h.debug_unicode_filename_address - h.base_address
}

pub open spec fn spec_fname_ok(b: Seq<u8>, h: ImageHeaderView) -> bool {
    &&& h.debug_filename_address >= h.base_address
    &&& scan_nul(b, spec_fname_off(h)) is Some
    &&& is_utf8(scan_nul_val(b, spec_fname_off(h)))
}

pub open spec fn spec_path_ok(b: Seq<u8>, h: ImageHeaderView) -> bool {
    &&& h.debug_pathname_address >= h.base_address
    &&& scan_nul(b, spec_path_off(h)) is Some
    &&& is_utf8(scan_nul_val(b, spec_path_off(h)))
}

pub open spec fn spec_uni_ok(b: Seq<u8>, h: ImageHeaderView) -> bool {
    &&& h.debug_unicode_filename_address >= h.base_address
    &&& scan_nul16(b, spec_uni_off(h)) is Some
}

/// Read the zero-terminated debug filename string.
pub fn load_debug_filename(bytes: &Vec<u8>, image_header: &ImageHeader) -> (r: Result<
    Vec<u8>,
    XbeError,
>)
    ensures
        spec_fname_ok(bytes@, image_header@) ==> (r matches Ok(v) && v@ == scan_nul_val(
            bytes@,
            spec_fname_off(image_header@),
        )),
        !spec_fname_ok(bytes@, image_header@) ==> r == Err::<Vec<u8>, XbeError>(
            XbeError::MalformedImage,
        ),
{
    if image_header.debug_filename_address < image_header.base_address {
        return Err(XbeError::MalformedImage);
    }
    let off = (image_header.debug_filename_address - image_header.base_address) as usize;
    let s = match read_nul_string(bytes, off) {
        Ok(s) => s,
        Err(e) => {
            return Err(XbeError::MalformedImage);
        },
    };
    if !utf8_check(&s) {
        return Err(XbeError::MalformedImage);
    }
    Ok(s)
}

/// Read the zero-terminated debug pathname string.
pub fn load_debug_pathname(bytes: &Vec<u8>, image_header: &ImageHeader) -> (r: Result<
    Vec<u8>,
    XbeError,
>)
    ensures
        spec_path_ok(bytes@, image_header@) ==> (r matches Ok(v) && v@ == scan_nul_val(
            bytes@,
            spec_path_off(image_header@),
        )),
        !spec_path_ok(bytes@, image_header@) ==> r == Err::<Vec<u8>, XbeError>(
            XbeError::MalformedImage,
        ),
{
    if image_header.debug_pathname_address < image_header.base_address {
        return Err(XbeError::MalformedImage);
    }
    let off = (image_header.debug_pathname_address - image_header.base_address) as usize;
    let s = match read_nul_string(bytes, off) {
        Ok(s) => s,
        Err(e) => {
            return Err(XbeError::MalformedImage);
        },
    };
    if !utf8_check(&s) {
        return Err(XbeError::MalformedImage);
    }
    Ok(s)
}

/// Read the zero-terminated 16-bit debug filename string.
pub fn load_debug_unicode_filename(bytes: &Vec<u8>, image_header: &ImageHeader) -> (r: Result<
    Vec<u16>,
    XbeError,
>)
    ensures
        spec_uni_ok(bytes@, image_header@) ==> (r matches Ok(v) && v@ == scan_nul16_val(
            bytes@,
            spec_uni_off(image_header@),
        )),
        !spec_uni_ok(bytes@, image_header@) ==> r == Err::<Vec<u16>, XbeError>(
            XbeError::MalformedImage,
        ),
{
    if image_header.debug_unicode_filename_address < image_header.base_address {
        return Err(XbeError::MalformedImage);
    }
    let off = (image_header.debug_unicode_filename_address - image_header.base_address) as usize;
    match read_nul_string16(bytes, off) {
        Ok(s) => Ok(s),
        Err(e) => Err(XbeError::MalformedImage),
    }
}

pub open spec fn spec_logo_off(h: ImageHeaderView) -> int {
    h.logo_bitmap_address - h.base_address
}

pub open spec fn spec_logo_ok(b: Seq<u8>, h: ImageHeaderView) -> bool {
    &&& h.logo_bitmap_address >= h.base_address
    &&& spec_logo_off(h) + h.logo_bitmap_size <= b.len()
}

/// Read the logo bitmap of the declared length.
pub fn load_logo_bitmap(bytes: &Vec<u8>, image_header: &ImageHeader) -> (r: Result<
    LogoBitmap,
    XbeError,
>)
    ensures
        spec_logo_ok(bytes@, image_header@) ==> (r matches Ok(l) && l.bitmap@ == bytes@.subrange(
            spec_logo_off(image_header@),
            spec_logo_off(image_header@) + image_header@.logo_bitmap_size,
        )),
        !spec_logo_ok(bytes@, image_header@) ==> r == Err::<LogoBitmap, XbeError>(
            XbeError::MalformedImage,
        ),
{
    if image_header.logo_bitmap_address < image_header.base_address {
        return Err(XbeError::MalformedImage);
    }
    let off32 = image_header.logo_bitmap_address - image_header.base_address;
    if (off32 as u64) + (image_header.logo_bitmap_size as u64) > bytes.len() as u64 {
        return Err(XbeError::MalformedImage);
    }
    let buf = read_bytes(bytes, off32 as usize, image_header.logo_bitmap_size as usize);
    Ok(LogoBitmap { bitmap: buf })
}

/// A section payload lies wholly inside the buffer at its raw address.
pub open spec fn spec_section_ok(b: Seq<u8>, sh: SectionHeaderView) -> bool {
    sh.raw_address + sh.raw_size <= b.len()
}

/// The payload bytes a header points at: `raw_size` bytes at the absolute
/// file offset `raw_address` (no base-address translation).
pub open spec fn spec_section_bytes(b: Seq<u8>, sh: SectionHeaderView) -> Seq<u8> {
    b.subrange(sh.raw_address as int, sh.raw_address + sh.raw_size)
}

/// Read one section payload.
pub fn load_section(bytes: &Vec<u8>, section_header: &SectionHeader) -> (r: Result<
    Section,
    XbeError,
>)
    ensures
        spec_section_ok(bytes@, section_header@) ==> (r matches Ok(s) && s.bytes@
            == spec_section_bytes(bytes@, section_header@)),
        !spec_section_ok(bytes@, section_header@) ==> r == Err::<Section, XbeError>(
            XbeError::MalformedImage,
        ),
{
    if (section_header.raw_address as u64) + (section_header.raw_size as u64) > bytes.len()
        as u64 {
        return Err(XbeError::MalformedImage);
    }
    let buf = read_bytes(
        bytes,
        section_header.raw_address as usize,
        section_header.raw_size as usize,
    );
    Ok(Section { bytes: buf })
}

pub open spec fn spec_lib_off(h: ImageHeaderView) -> int {
    h.library_versions_address - h.base_address
}

/// One library-version record as laid out at `o`.
pub open spec fn spec_parse_library_version(b: Seq<u8>, o: int) -> LibraryVersionView {
    LibraryVersionView {
        library_name: b.subrange(o, o + 8),
        major_version: u16_at(b, o + 8),
        minor_version: u16_at(b, o + 10),
        build_version: u16_at(b, o + 12),
        library_flags: u16_at(b, o + 14),
    }
}

pub open spec fn spec_parse_library_versions(b: Seq<u8>, off: int, n: int) -> Seq<
    LibraryVersionView,
> {
    Seq::new(n as nat, |i: int| spec_parse_library_version(b, off + 16 * i))
}

pub open spec fn spec_libs_ok(b: Seq<u8>, h: ImageHeaderView) -> bool {
    &&& h.library_versions_address >= h.base_address
    &&& spec_lib_off(h) + 16 * (h.number_of_library_versions as int) <= b.len()
}

/// Read the library-version table the header points at.
pub fn load_library_versions(bytes: &Vec<u8>, image_header: &ImageHeader) -> (r: Result<
    Vec<LibraryVersion>,
    XbeError,
>)
    ensures
        spec_libs_ok(bytes@, image_header@) ==> (r matches Ok(v) && v@.map_values(
            |l: LibraryVersion| l@,
        ) == spec_parse_library_versions(
            bytes@,
            spec_lib_off(image_header@),
            image_header@.number_of_library_versions as int,
        )),
        !spec_libs_ok(bytes@, image_header@) ==> r == Err::<Vec<LibraryVersion>, XbeError>(
            XbeError::MalformedImage,
        ),
{
    if image_header.library_versions_address < image_header.base_address {
        return Err(XbeError::MalformedImage);
    }
    let off32 = image_header.library_versions_address - image_header.base_address;
    let n = image_header.number_of_library_versions as usize;
    if (off32 as u64) + 16u64 * (n as u64) > bytes.len() as u64 {
        return Err(XbeError::MalformedImage);
    }
    let off = off32 as usize;
    let mut library_versions: Vec<LibraryVersion> = Vec::new();
    let mut i: usize = 0;
    while i < n
        invariant
            i <= n,
            off + 16 * n <= bytes.len(),
            off as int == spec_lib_off(image_header@),
            library_versions@.len() == i,
            forall|k: int|
                0 <= k < i ==> #[trigger] library_versions@[k]@ == spec_parse_library_version(
                    bytes@,
                    off + 16 * k,
                ),
        decreases n - i,
    {
        let o = off + 16 * i;
        let l = LibraryVersion {
            library_name: read_bytes(bytes, o, 8),
            major_version: read_u16_le(bytes, o + 8),
            minor_version: read_u16_le(bytes, o + 10),
            build_version: read_u16_le(bytes, o + 12),
            library_flags: read_u16_le(bytes, o + 14),
        };
        proof {
            assert(l@ =~= spec_parse_library_version(bytes@, off + 16 * (i as int)));
        }
        library_versions.push(l);
        i = i + 1;
    }
    proof {
        assert(library_versions@.map_values(|l: LibraryVersion| l@)
            =~= spec_parse_library_versions(
            bytes@,
            spec_lib_off(image_header@),
            image_header@.number_of_library_versions as int,
        ));
    }
    Ok(library_versions)
}

/// Every region a parse visits lies inside the buffer, every address field
/// visited is at or above the base address, and every 8-bit name string is
/// valid text.
pub open spec fn spec_xbe_ok(b: Seq<u8>) -> bool {
    let h = spec_parse_header(b);
    let hs = spec_parse_section_headers(b, spec_shdr_off(h), h.number_of_sections as int);
    &&& b.len() >= 376
    &&& spec_cert_ok(b, h)
    &&& spec_logo_ok(b, h)
    &&& spec_shdrs_ok(b, h)
    &&& spec_names_ok(b, h, hs)
    &&& spec_fname_ok(b, h)
    &&& spec_path_ok(b, h)
    &&& spec_uni_ok(b, h)
    &&& (forall|i: int| 0 <= i < hs.len() ==> spec_section_ok(b, #[trigger] hs[i]))
    &&& spec_libs_ok(b, h)
}

/// The image model a successful parse of `b` produces.
pub open spec fn spec_parse_xbe(b: Seq<u8>) -> XbeView {
    let h = spec_parse_header(b);
    let hs = spec_parse_section_headers(b, spec_shdr_off(h), h.number_of_sections as int);
    XbeView {
        image_header: h,
        certificate: spec_parse_certificate(b, spec_cert_off(h)),
        section_headers: hs,
        section_names: spec_parse_names(b, h, hs),
        library_version: spec_parse_library_versions(
            b,
            spec_lib_off(h),
            h.number_of_library_versions as int,
        ),
        debug_pathname: scan_nul_val(b, spec_path_off(h)),
        debug_filename: scan_nul_val(b, spec_fname_off(h)),
        debug_unicode_filename: scan_nul16_val(b, spec_uni_off(h)),
        logo_bitmap: b.subrange(spec_logo_off(h), spec_logo_off(h) + h.logo_bitmap_size),
        sections: Seq::new(hs.len(), |i: int| spec_section_bytes(b, hs[i])),
    }
}

/// Read a whole image out of raw bytes, following the chain of address
/// fields recorded in the header.
pub fn load_xbe(bytes: &Vec<u8>) -> (r: Result<XBE, XbeError>)
    ensures
        spec_xbe_ok(bytes@) ==> (r matches Ok(x) && x@ == spec_parse_xbe(bytes@)),
        !spec_xbe_ok(bytes@) ==> r == Err::<XBE, XbeError>(XbeError::MalformedImage),
{
    let image_header = load_image_header(bytes)?;
    let certificate = load_certificate(bytes, &image_header)?;
    let logo_bitmap = load_logo_bitmap(bytes, &image_header)?;
    let section_headers = load_section_headers(bytes, &image_header)?;
    let section_names = load_section_names(bytes, &image_header, &section_headers)?;
    let debug_filename = load_debug_filename(bytes, &image_header)?;
    let debug_pathname = load_debug_pathname(bytes, &image_header)?;
    let debug_unicode_filename = load_debug_unicode_filename(bytes, &image_header)?;

    let ghost h = spec_parse_header(bytes@);
    let ghost hs = spec_parse_section_headers(bytes@, spec_shdr_off(h), h.number_of_sections as int);
    proof {
        assert(section_headers@.map_values(|sh: SectionHeader| sh@) == hs);
    }

    let mut sections: Vec<Section> = Vec::new();
    let mut i: usize = 0;
    while i < section_headers.len()
        invariant
            i <= section_headers@.len(),
            h == spec_parse_header(bytes@),
            hs == spec_parse_section_headers(bytes@, spec_shdr_off(h), h.number_of_sections as int),
            section_headers@.map_values(|sh: SectionHeader| sh@) == hs,
            hs.len() == section_headers@.len(),
            sections@.len() == i,
            forall|k: int| 0 <= k < i ==> spec_section_ok(bytes@, #[trigger] hs[k]),
            forall|k: int|
                0 <= k < i ==> #[trigger] sections@[k].bytes@ == spec_section_bytes(bytes@, hs[k]),
        decreases section_headers@.len() - i,
    {
        proof {
            assert(hs[i as int] == section_headers@[i as int]@);
        }
        let sec = match load_section(bytes, &section_headers[i]) {
            Ok(s) => s,
            Err(e) => {
                proof {
                    assert(!spec_section_ok(bytes@, hs[i as int]));
                }
                return Err(XbeError::MalformedImage);
            },
        };
        sections.push(sec);
        i = i + 1;
    }

    let library_version = load_library_versions(bytes, &image_header)?;

    let x = XBE {
        image_header,
        certificate,
        section_headers,
        section_names,
        library_version,
        debug_filename,
        debug_pathname,
        debug_unicode_filename,
        logo_bitmap,
        sections,
    };
    proof {
        assert(x@.sections =~= spec_parse_xbe(bytes@).sections);
        assert(x@ =~= spec_parse_xbe(bytes@));
    }
    Ok(x)
}


// ---------------------------------------------------------------------------
// Appending a fixed trial section to a loaded image
// ---------------------------------------------------------------------------

/// The name of the appended trial section.
pub open spec fn spec_test_name() -> Seq<u8> {
    seq![0x2eu8, 0x54, 0x45, 0x53, 0x54]
}

/// The 16-byte payload of the appended trial section.
pub open spec fn spec_test_payload() -> Seq<u8> {
    seq![
        0x30u8, 0x31, 0x32, 0x33, 0x34, 0x35, 0x36, 0x37, 0x38, 0x39, 0x41, 0x42, 0x43, 0x44,
        0x45, 0x46,
    ]
}

/// An existing header shifted to make room for one more table entry: the
/// name moves by a record plus one name terminator pair, the reference
/// addresses by one record.
pub open spec fn spec_bumped_header(sh: SectionHeaderView) -> SectionHeaderView {
    SectionHeaderView {
        section_name_address: (sh.section_name_address + 0x3a) as u32,
        head_shared_page_reference_count_address: (sh.head_shared_page_reference_count_address
            + 0x38) as u32,
        tail_shared_page_reference_count_address: (sh.tail_shared_page_reference_count_address
            + 0x38) as u32,
        ..sh
    }
}

/// The whole model after the trial section is appended.
pub open spec fn spec_add_test_section(x: XbeView) -> XbeView {
    let h0 = x.image_header;
    let h = ImageHeaderView {
        size_of_headers: (h0.size_of_headers + 0x40) as u32,
        size_of_image: (h0.size_of_image + 0x10) as u32,
        number_of_sections: (h0.number_of_sections + 1) as u32,
        debug_pathname_address: (h0.debug_pathname_address + 0x40) as u32,
        debug_filename_address: (h0.debug_filename_address + 0x40) as u32,
        debug_unicode_filename_address: (h0.debug_unicode_filename_address + 0x40) as u32,
        library_versions_address: (h0.library_versions_address + 0x40) as u32,
        kernel_library_version_address: (h0.kernel_library_version_address + 0x40) as u32,
        xapi_library_version_address: (h0.xapi_library_version_address + 0x40) as u32,
        ..h0
    };
    let bumped = x.section_headers.map_values(|sh: SectionHeaderView| spec_bumped_header(sh));
    let lasth = bumped.last();
    let end = spec_max_raw(bumped);
    let new_hdr = SectionHeaderView {
        section_flags: 0x2,
        virtual_address: (lasth.virtual_address + lasth.virtual_size) as u32,
        virtual_size: 0x10,
        raw_address: (end + (0x1000 - end % 0x1000)) as u32,
        raw_size: 0x10,
        section_name_address: (lasth.section_name_address + x.section_names.last().len()
            + 1) as u32,
        section_name_reference_count: 0,
        head_shared_page_reference_count_address: lasth.tail_shared_page_reference_count_address,
        tail_shared_page_reference_count_address: (
        lasth.tail_shared_page_reference_count_address + 2) as u32,
        section_digest: zeros(0x14),
    };
    XbeView {
        image_header: h,
        section_headers: bumped.push(new_hdr),
        section_names: x.section_names.push(spec_test_name()),
        sections: x.sections.push(spec_test_payload()),
        ..x
    }
}

proof fn lemma_max_raw_bumped(hs: Seq<SectionHeaderView>)
    ensures
        spec_max_raw(hs.map_values(|sh: SectionHeaderView| spec_bumped_header(sh)))
            == spec_max_raw(hs),
    decreases hs.len(),
{
    let m = hs.map_values(|sh: SectionHeaderView| spec_bumped_header(sh));
    if hs.len() > 0 {
        assert(m.drop_last() =~= hs.drop_last().map_values(
            |sh: SectionHeaderView| spec_bumped_header(sh),
        ));
        lemma_max_raw_bumped(hs.drop_last());
        assert(m.last() == spec_bumped_header(hs.last()));
    }
}

fn clone_bytes(b: &Vec<u8>) -> (r: Vec<u8>)
    ensures
        r@ == b@,
{
    let r = read_bytes(b, 0, b.len());
    proof {
        assert(b@.subrange(0, b@.len() as int) =~= b@);
    }
    r
}

/// Append a fixed trial section at the end of the image: shift the regions
/// behind the grown table, give the new section the next page-aligned raw
/// address past every existing payload, and push its header, name and
/// payload.
pub fn add_test_section(xbe: &mut XBE) -> (r: Result<(), XbeError>)
    requires
        old(xbe)@.section_headers.len() > 0,
        old(xbe)@.section_names.len() > 0,
        old(xbe)@.image_header.size_of_headers + 0x40 <= u32::MAX,
        old(xbe)@.image_header.size_of_image + 0x10 <= u32::MAX,
        old(xbe)@.image_header.number_of_sections + 1 <= u32::MAX,
        old(xbe)@.image_header.debug_pathname_address + 0x40 <= u32::MAX,
        old(xbe)@.image_header.debug_filename_address + 0x40 <= u32::MAX,
        old(xbe)@.image_header.debug_unicode_filename_address + 0x40 <= u32::MAX,
        old(xbe)@.image_header.library_versions_address + 0x40 <= u32::MAX,
        old(xbe)@.image_header.kernel_library_version_address + 0x40 <= u32::MAX,
        old(xbe)@.image_header.xapi_library_version_address + 0x40 <= u32::MAX,
        forall|k: int|
            0 <= k < old(xbe)@.section_headers.len() ==> {
                &&& (#[trigger] old(xbe)@.section_headers[k]).section_name_address + 0x3a
                    <= u32::MAX
                &&& old(
                    xbe,
                )@.section_headers[k].head_shared_page_reference_count_address + 0x38 <= u32::MAX
                &&& old(
                    xbe,
                )@.section_headers[k].tail_shared_page_reference_count_address + 0x3a <= u32::MAX
            },
        old(xbe)@.section_headers.last().virtual_address + old(
            xbe,
        )@.section_headers.last().virtual_size <= u32::MAX,
        old(xbe)@.section_headers.last().section_name_address + 0x3a + old(
            xbe,
        )@.section_names.last().len() + 1 <= u32::MAX,
        spec_max_raw(old(xbe)@.section_headers) + 0x1000 <= u32::MAX,
    ensures
        r == Ok::<(), XbeError>(()),
        final(xbe)@ == spec_add_test_section(old(xbe)@),
{
    let ghost x0 = old(xbe)@;
    let size: u32 = 0x10;

    xbe.image_header.size_of_headers = xbe.image_header.size_of_headers + 0x40;
    xbe.image_header.size_of_image = xbe.image_header.size_of_image + size;
    xbe.image_header.number_of_sections = xbe.image_header.number_of_sections + 1;
    xbe.image_header.debug_pathname_address = xbe.image_header.debug_pathname_address + 0x40;
    xbe.image_header.debug_filename_address = xbe.image_header.debug_filename_address + 0x40;
    xbe.image_header.debug_unicode_filename_address = xbe.image_header.debug_unicode_filename_address
        + 0x40;
    xbe.image_header.library_versions_address = xbe.image_header.library_versions_address + 0x40;
    xbe.image_header.kernel_library_version_address = xbe.image_header.kernel_library_version_address
        + 0x40;
    xbe.image_header.xapi_library_version_address = xbe.image_header.xapi_library_version_address
        + 0x40;

    let ghost bumped = x0.section_headers.map_values(
        |sh: SectionHeaderView| spec_bumped_header(sh),
    );
    let n = xbe.section_headers.len();
    let mut new_headers: Vec<SectionHeader> = Vec::new();
    let mut k: usize = 0;
    while k < n
        invariant
            k <= n,
            n == xbe.section_headers@.len(),
            xbe.section_headers@.map_values(|sh: SectionHeader| sh@) == x0.section_headers,
            bumped == x0.section_headers.map_values(
                |sh: SectionHeaderView| spec_bumped_header(sh),
            ),
            forall|q: int|
                0 <= q < n ==> {
                    &&& (#[trigger] x0.section_headers[q]).section_name_address + 0x3a
                        <= u32::MAX
                    &&& x0.section_headers[q].head_shared_page_reference_count_address + 0x38
                        <= u32::MAX
                    &&& x0.section_headers[q].tail_shared_page_reference_count_address + 0x3a
                        <= u32::MAX
                },
            new_headers@.len() == k,
            forall|q: int|
                0 <= q < k ==> #[trigger] new_headers@[q]@ == spec_bumped_header(
                    x0.section_headers[q],
                ),
        decreases n - k,
    {
        proof {
            assert(x0.section_headers[k as int] == xbe.section_headers@[k as int]@);
        }
        let s = SectionHeader {
            section_flags: xbe.section_headers[k].section_flags,
            virtual_address: xbe.section_headers[k].virtual_address,
            virtual_size: xbe.section_headers[k].virtual_size,
            raw_address: xbe.section_headers[k].raw_address,
            raw_size: xbe.section_headers[k].raw_size,
            section_name_address: xbe.section_headers[k].section_name_address + 0x3a,
            section_name_reference_count: xbe.section_headers[k].section_name_reference_count,
            head_shared_page_reference_count_address: xbe.section_headers[
                k].head_shared_page_reference_count_address + 0x38,
            tail_shared_page_reference_count_address: xbe.section_headers[
                k].tail_shared_page_reference_count_address + 0x38,
            section_digest: clone_bytes(&xbe.section_headers[k].section_digest),
        };
        proof {
            assert(s@ =~= spec_bumped_header(x0.section_headers[k as int]));
        }
        new_headers.push(s);
        k = k + 1;
    }
    xbe.section_headers = new_headers;
    proof {
        assert(xbe.section_headers@.map_values(|sh: SectionHeader| sh@) =~= bumped);
        assert(bumped.len() == x0.section_headers.len());
        assert(bumped.last() == spec_bumped_header(x0.section_headers.last()));
    }

    let last_i = n - 1;
    proof {
        assert(bumped[last_i as int] == xbe.section_headers@[last_i as int]@);
    }
    let virtual_address = xbe.section_headers[last_i].virtual_address + xbe.section_headers[
        last_i].virtual_size;
    let end = xbe.get_last_raw_address();
    proof {
        lemma_max_raw_bumped(x0.section_headers);
    }
    let raw_address = end + (0x1000 - end % 0x1000);
    let name_i = xbe.section_names.len() - 1;
    let last_name_len = xbe.section_names[name_i].len() as u32;
    proof {
        assert(x0.section_names[name_i as int] == xbe.section_names@[name_i as int]@);
    }
    let section_name_address = xbe.section_headers[last_i].section_name_address + last_name_len
        + 1;
    let hsprca = xbe.section_headers[last_i].tail_shared_page_reference_count_address;
    let tsprca = xbe.section_headers[last_i].tail_shared_page_reference_count_address + 2;

    let mut digest: Vec<u8> = Vec::new();
    let mut d: usize = 0;
    while d < 0x14
        invariant
            d <= 0x14,
            digest@ == zeros(d as int),
        decreases 0x14 - d,
    {
        digest.push(0u8);
        proof {
            assert(zeros(d as int) + seq![0u8] =~= zeros(d as int + 1));
        }
        d = d + 1;
    }

    let sec_hdr = SectionHeader {
        section_flags: 0x2,
        virtual_address,
        virtual_size: size,
        raw_address,
        raw_size: size,
        section_name_address,
        section_name_reference_count: 0,
        head_shared_page_reference_count_address: hsprca,
        tail_shared_page_reference_count_address: tsprca,
        section_digest: digest,
    };
    xbe.section_headers.push(sec_hdr);

    let mut name: Vec<u8> = Vec::new();
    name.push(0x2e);
    name.push(0x54);
    name.push(0x45);
    name.push(0x53);
    name.push(0x54);
    proof {
        assert(name@ =~= spec_test_name());
    }
    xbe.section_names.push(name);

    let mut data: Vec<u8> = Vec::new();
    data.push(0x30);
    data.push(0x31);
    data.push(0x32);
    data.push(0x33);
    data.push(0x34);
    data.push(0x35);
    data.push(0x36);
    data.push(0x37);
    data.push(0x38);
    data.push(0x39);
    data.push(0x41);
    data.push(0x42);
    data.push(0x43);
    data.push(0x44);
    data.push(0x45);
    data.push(0x46);
    proof {
        assert(data@ =~= spec_test_payload());
    }
    xbe.sections.push(Section { bytes: data });

    proof {
        assert(xbe@.section_headers =~= spec_add_test_section(x0).section_headers);
        assert(xbe@.section_names =~= spec_add_test_section(x0).section_names);
        assert(xbe@.sections =~= spec_add_test_section(x0).sections);
        assert(xbe@ =~= spec_add_test_section(x0));
    }
    Ok(())
}


// ---------------------------------------------------------------------------
// Round trip: a serialized image parses back to the model it came from
// ---------------------------------------------------------------------------

/// Reading the certificate back from a buffer that holds its bytes at
/// `off` recovers every field, the reserved tail included.
/// Reading the certificate back from a buffer that holds its bytes at
/// `off` recovers every field, the reserved tail included.
#[verifier::rlimit(100)]
proof fn lemma_parse_certificate_from(b: Seq<u8>, off: int, c: CertificateView)
    requires
        c.wf(),
        0 <= off,
        off + 0x1d0 + c.reserved.len() <= b.len(),
        b.subrange(off, off + 0x1d0 + c.reserved.len() as int) == spec_certificate_bytes(c),
    ensures
        spec_parse_certificate(b, off) == c,
        u32_at(b, off) == c.size,
{
    let f = spec_certificate_bytes(c);
    let flen = 0x1d0 + c.reserved.len() as int;
    assert(f.len() == flen);
    assert(b.subrange(off + 0, off + 4) =~= f.subrange(0, 4));
    assert(f.subrange(0, 4) =~= le32(c.size));
    lemma_u32_at_le32(b, off + 0, c.size);
    assert(b.subrange(off + 4, off + 8) =~= f.subrange(4, 8));
    assert(f.subrange(4, 8) =~= le32(c.time_date));
    lemma_u32_at_le32(b, off + 4, c.time_date);
    assert(b.subrange(off + 8, off + 12) =~= f.subrange(8, 12));
    assert(f.subrange(8, 12) =~= le32(c.title_id));
    lemma_u32_at_le32(b, off + 8, c.title_id);
    assert(b.subrange(off + 12, off + 92) =~= f.subrange(12, 92));
    assert(f.subrange(12, 92) =~= c.title_name);
    assert(b.subrange(off + 92, off + 156) =~= f.subrange(92, 156));
    assert(f.subrange(92, 156) =~= c.alternate_title_ids);
    assert(b.subrange(off + 156, off + 160) =~= f.subrange(156, 160));
    assert(f.subrange(156, 160) =~= le32(c.allowed_media));
    lemma_u32_at_le32(b, off + 156, c.allowed_media);
    assert(b.subrange(off + 160, off + 164) =~= f.subrange(160, 164));
    assert(f.subrange(160, 164) =~= le32(c.game_region));
    lemma_u32_at_le32(b, off + 160, c.game_region);
    assert(b.subrange(off + 164, off + 168) =~= f.subrange(164, 168));
    assert(f.subrange(164, 168) =~= le32(c.game_ratings));
    lemma_u32_at_le32(b, off + 164, c.game_ratings);
    assert(b.subrange(off + 168, off + 172) =~= f.subrange(168, 172));
    assert(f.subrange(168, 172) =~= le32(c.disk_number));
    lemma_u32_at_le32(b, off + 168, c.disk_number);
    assert(b.subrange(off + 172, off + 176) =~= f.subrange(172, 176));
    assert(f.subrange(172, 176) =~= le32(c.version));
    lemma_u32_at_le32(b, off + 172, c.version);
    assert(b.subrange(off + 176, off + 192) =~= f.subrange(176, 192));
    assert(f.subrange(176, 192) =~= c.lan_key);
    assert(b.subrange(off + 192, off + 208) =~= f.subrange(192, 208));
    assert(f.subrange(192, 208) =~= c.signature_key);
    assert(b.subrange(off + 208, off + 464) =~= f.subrange(208, 464));
    assert(f.subrange(208, 464) =~= c.alternate_signature_keys);
    assert(b.subrange(off + 0x1d0, off + c.size) =~= f.subrange(0x1d0, flen));
    assert(f.subrange(0x1d0, flen) =~= c.reserved);
    assert(spec_parse_certificate(b, off) =~= c);
}

/// Reading one section-header record back from a buffer that holds its
/// bytes at `o` recovers every field.
#[verifier::rlimit(60)]
proof fn lemma_parse_section_header_from(b: Seq<u8>, o: int, sh: SectionHeaderView)
    requires
        sh.wf(),
        0 <= o,
        o + 56 <= b.len(),
        b.subrange(o, o + 56) == spec_section_header_bytes(sh),
    ensures
        spec_parse_section_header(b, o) == sh,
{
    let f = spec_section_header_bytes(sh);
    assert(f.len() == 56);
    assert(b.subrange(o + 0, o + 4) =~= f.subrange(0, 4));
    assert(f.subrange(0, 4) =~= le32(sh.section_flags));
    lemma_u32_at_le32(b, o + 0, sh.section_flags);
    assert(b.subrange(o + 4, o + 8) =~= f.subrange(4, 8));
    assert(f.subrange(4, 8) =~= le32(sh.virtual_address));
    lemma_u32_at_le32(b, o + 4, sh.virtual_address);
    assert(b.subrange(o + 8, o + 12) =~= f.subrange(8, 12));
    assert(f.subrange(8, 12) =~= le32(sh.virtual_size));
    lemma_u32_at_le32(b, o + 8, sh.virtual_size);
    assert(b.subrange(o + 12, o + 16) =~= f.subrange(12, 16));
    assert(f.subrange(12, 16) =~= le32(sh.raw_address));
    lemma_u32_at_le32(b, o + 12, sh.raw_address);
    assert(b.subrange(o + 16, o + 20) =~= f.subrange(16, 20));
    assert(f.subrange(16, 20) =~= le32(sh.raw_size));
    lemma_u32_at_le32(b, o + 16, sh.raw_size);
    assert(b.subrange(o + 20, o + 24) =~= f.subrange(20, 24));
    assert(f.subrange(20, 24) =~= le32(sh.section_name_address));
    lemma_u32_at_le32(b, o + 20, sh.section_name_address);
    assert(b.subrange(o + 24, o + 28) =~= f.subrange(24, 28));
    assert(f.subrange(24, 28) =~= le32(sh.section_name_reference_count));
    lemma_u32_at_le32(b, o + 24, sh.section_name_reference_count);
    assert(b.subrange(o + 28, o + 32) =~= f.subrange(28, 32));
    assert(f.subrange(28, 32) =~= le32(sh.head_shared_page_reference_count_address));
    lemma_u32_at_le32(b, o + 28, sh.head_shared_page_reference_count_address);
    assert(b.subrange(o + 32, o + 36) =~= f.subrange(32, 36));
    assert(f.subrange(32, 36) =~= le32(sh.tail_shared_page_reference_count_address));
    lemma_u32_at_le32(b, o + 32, sh.tail_shared_page_reference_count_address);
    assert(b.subrange(o + 36, o + 56) =~= f.subrange(36, 56));
    assert(f.subrange(36, 56) =~= sh.section_digest);
    assert(spec_parse_section_header(b, o) =~= sh);
}

/// Reading one library-version record back from a buffer that holds its
/// bytes at `o` recovers every field.
proof fn lemma_parse_library_version_from(b: Seq<u8>, o: int, l: LibraryVersionView)
    requires
        l.wf(),
        0 <= o,
        o + 16 <= b.len(),
        b.subrange(o, o + 16) == spec_library_version_bytes(l),
    ensures
        spec_parse_library_version(b, o) == l,
{
    let f = spec_library_version_bytes(l);
    assert(f.len() == 16);
    assert(b.subrange(o, o + 8) =~= f.subrange(0, 8));
    assert(f.subrange(0, 8) =~= l.library_name);
    assert(b.subrange(o + 8, o + 10) =~= f.subrange(8, 10));
    assert(f.subrange(8, 10) =~= le16(l.major_version));
    lemma_u16_at_le16(b, o + 8, l.major_version);
    assert(b.subrange(o + 10, o + 12) =~= f.subrange(10, 12));
    assert(f.subrange(10, 12) =~= le16(l.minor_version));
    lemma_u16_at_le16(b, o + 10, l.minor_version);
    assert(b.subrange(o + 12, o + 14) =~= f.subrange(12, 14));
    assert(f.subrange(12, 14) =~= le16(l.build_version));
    lemma_u16_at_le16(b, o + 12, l.build_version);
    assert(b.subrange(o + 14, o + 16) =~= f.subrange(14, 16));
    assert(f.subrange(14, 16) =~= le16(l.library_flags));
    lemma_u16_at_le16(b, o + 14, l.library_flags);
    assert(spec_parse_library_version(b, o) =~= l);
}

/// Scanning from `off` returns exactly `s` when the buffer holds `s` there
/// and `s` carries its single zero terminator at the end.
pub proof fn lemma_scan_nul_of(b: Seq<u8>, off: int, s: Seq<u8>)
    requires
        0 <= off,
        off + s.len() <= b.len(),
        s.len() >= 1,
        s.last() == 0,
        forall|i: int| 0 <= i < s.len() - 1 ==> s[i] != 0,
        forall|i: int| 0 <= i < s.len() ==> b[off + i] == s[i],
    ensures
        scan_nul(b, off) == Some(s),
    decreases s.len(),
{
    if s.len() == 1 {
        assert(b[off] == s[0] == 0);
        assert(s =~= seq![0u8]);
    } else {
        assert(b[off] == s[0]);
        assert(s[0] != 0);
        let s2 = s.drop_first();
        assert(forall|i: int| 0 <= i < s2.len() ==> #[trigger] s2[i] == s[i + 1]);
        assert(s2.last() == s.last());
        lemma_scan_nul_of(b, off + 1, s2);
        assert(seq![b[off]] + s2 =~= s);
    }
}

/// Scanning 16-bit units from `off` returns exactly `s` when the buffer
/// holds the encoded units there and `s` carries its single zero
/// terminator at the end.
pub proof fn lemma_scan_nul16_of(b: Seq<u8>, off: int, s: Seq<u16>)
    requires
        0 <= off,
        off + 2 * s.len() <= b.len(),
        s.len() >= 1,
        s.last() == 0,
        forall|i: int| 0 <= i < s.len() - 1 ==> s[i] != 0,
        forall|i: int| 0 <= i < s.len() ==> u16_at(b, off + 2 * i) == s[i],
    ensures
        scan_nul16(b, off) == Some(s),
    decreases s.len(),
{
    assert(u16_at(b, off) == s[0]);
    if s.len() == 1 {
        assert(s =~= seq![0u16]);
    } else {
        assert(s[0] != 0);
        let s2 = s.drop_first();
        assert(forall|i: int| 0 <= i < s2.len() ==> #[trigger] s2[i] == s[i + 1]);
        assert(s2.last() == s.last());
        assert forall|i: int| 0 <= i < s2.len() implies u16_at(b, (off + 2) + 2 * i) == s2[i] by {
            assert(u16_at(b, off + 2 * (i + 1)) == s[i + 1]);
            assert((off + 2) + 2 * i == off + 2 * (i + 1));
        }
        lemma_scan_nul16_of(b, off + 2, s2);
        assert(seq![u16_at(b, off)] + s2 =~= s);
    }
}



/// Round trip of the certificate record: serializing a well-formed
/// certificate and reading the bytes back recovers every field, the
/// reserved tail included.
pub proof fn lemma_certificate_round_trip(c: CertificateView)
    requires
        c.wf(),
    ensures
        spec_parse_certificate(spec_certificate_bytes(c), 0) == c,
{
    let f = spec_certificate_bytes(c);
    assert(f.len() == 0x1d0 + c.reserved.len());
    assert(f.subrange(0, 0x1d0 + c.reserved.len() as int) =~= f);
    lemma_parse_certificate_from(f, 0, c);
}

/// Round trip of one section-header record: serializing a well-formed
/// record and reading the bytes back recovers every field.
pub proof fn lemma_section_header_round_trip(sh: SectionHeaderView)
    requires
        sh.wf(),
    ensures
        spec_parse_section_header(spec_section_header_bytes(sh), 0) == sh,
{
    let f = spec_section_header_bytes(sh);
    assert(f.len() == 56);
    assert(f.subrange(0, 56) =~= f);
    lemma_parse_section_header_from(f, 0, sh);
}

/// Round trip of one library-version record: serializing a well-formed
/// record and reading the bytes back recovers every field.
pub proof fn lemma_library_version_round_trip(l: LibraryVersionView)
    requires
        l.wf(),
    ensures
        spec_parse_library_version(spec_library_version_bytes(l), 0) == l,
{
    let f = spec_library_version_bytes(l);
    assert(f.len() == 16);
    assert(f.subrange(0, 16) =~= f);
    lemma_parse_library_version_from(f, 0, l);
}

} // verus!
