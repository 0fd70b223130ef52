use chum_bucket_lab::config::Config;
use chum_bucket_lab::patch::{apply_records, parse_ips, PatchError, PatchRecord};
use chum_bucket_lab::rom::{Patch, Rom};
use chum_bucket_lab::xbe::{
    add_test_section, file_offset, load_debug_pathname, load_image_header, Certificate,
    ImageHeader, LibraryVersion, LogoBitmap, Section, SectionHeader, XbeError, XBE,
};

fn header(base: u32) -> ImageHeader {
    ImageHeader {
        magic_number: b"XBEH".to_vec(),
        digital_signature: vec![0u8; 256],
        base_address: base,
        size_of_headers: 0x400,
        size_of_image: 0x3000,
        size_of_image_header: 0x178,
        time_date: 7,
        certificate_address: base + 0x178,
        number_of_sections: 2,
        section_headers_address: base + 0x360,
        initialization_flags: 0,
        entry_point: base + 0x1000,
        tls_address: 0,
        pe_stack_commit: 0,
        pe_heap_reserve: 0,
        pe_head_commit: 0,
        pe_base_address: 0,
        pe_size_of_image: 0,
        pe_checksum: 0,
        pe_time_date: 0,
        debug_pathname_address: base + 0x500,
        debug_filename_address: base + 0x508,
        debug_unicode_filename_address: base + 0x480,
        kernel_image_thunk_address: 0,
        non_kernel_import_directory_address: 0,
        number_of_library_versions: 1,
        library_versions_address: base + 0x440,
        kernel_library_version_address: 0,
        xapi_library_version_address: 0,
        logo_bitmap_address: base + 0x600,
        logo_bitmap_size: 4,
    }
}

fn certificate() -> Certificate {
    Certificate {
        size: 0x1d4,
        time_date: 1,
        title_id: 2,
        title_name: vec![0u8; 0x50],
        alternate_title_ids: vec![0u8; 0x40],
        allowed_media: 3,
        game_region: 4,
        game_ratings: 5,
        disk_number: 0,
        version: 6,
        lan_key: vec![0u8; 0x10],
        signature_key: vec![0u8; 0x10],
        alternate_signature_keys: vec![0u8; 0x100],
        reserved: vec![0xaa, 0xbb, 0xcc, 0xdd],
    }
}

fn section_header(raw_address: u32, raw_size: u32, name_address: u32) -> SectionHeader {
    SectionHeader {
        section_flags: 1,
        virtual_address: 0x11000,
        virtual_size: raw_size,
        raw_address,
        raw_size,
        section_name_address: name_address,
        section_name_reference_count: 0,
        head_shared_page_reference_count_address: 0,
        tail_shared_page_reference_count_address: 2,
        section_digest: vec![0u8; 0x14],
    }
}

fn sample_xbe() -> XBE {
    let base = 0x10000;
    XBE {
        image_header: header(base),
        certificate: certificate(),
        // declared table order lists the section with the higher raw
        // address first
        section_headers: vec![
            section_header(0x2000, 3, base + 0x3d2),
            section_header(0x1000, 5, base + 0x3d8),
        ],
        section_names: vec![b"second\0".to_vec(), b"first\0".to_vec()],
        library_version: vec![LibraryVersion {
            library_name: b"XAPILIB\0".to_vec(),
            major_version: 1,
            minor_version: 2,
            build_version: 3,
            library_flags: 4,
        }],
        debug_pathname: b"D:\\game\\main.xbe\0".to_vec(),
        debug_filename: b"main.xbe\0".to_vec(),
        debug_unicode_filename: vec![0x6d, 0x61, 0x69, 0x6e, 0],
        logo_bitmap: LogoBitmap {
            bitmap: vec![1, 2, 3, 4],
        },
        sections: vec![
            Section {
                bytes: vec![9, 9, 9],
            },
            Section {
                bytes: vec![7, 7, 7, 7, 7],
            },
        ],
    }
}

#[test]
fn address_translation_inverse() {
    assert_eq!(file_offset(0x10010, 0x10000), Ok(0x10));
    assert_eq!(0x10000 + file_offset(0x10010, 0x10000).unwrap(), 0x10010);
    assert_eq!(file_offset(0xffff, 0x10000), Err(XbeError::InvalidAddress));
}

#[test]
fn writer_rejects_count_mismatch() {
    let mut x = sample_xbe();
    x.sections.pop();
    assert_eq!(x.serialize_sections().unwrap_err(), XbeError::LayoutError);
    assert_eq!(x.serialize().unwrap_err(), XbeError::LayoutError);
}

#[test]
fn header_record_layout() {
    let x = sample_xbe();
    let bytes = x.image_header.serialize().unwrap();
    assert_eq!(bytes.len(), 0x178);
    assert_eq!(&bytes[0..4], b"XBEH");
    // base address at offset 0x104, little-endian
    assert_eq!(&bytes[0x104..0x108], &[0x00, 0x00, 0x01, 0x00]);
    // number of sections at offset 0x11c
    assert_eq!(&bytes[0x11c..0x120], &[2, 0, 0, 0]);
}

#[test]
fn certificate_preserves_reserved_tail() {
    let c = certificate();
    let bytes = c.serialize().unwrap();
    assert_eq!(bytes.len(), 0x1d4);
    assert_eq!(&bytes[0x1d0..], &[0xaa, 0xbb, 0xcc, 0xdd]);
}

#[test]
fn section_payloads_sorted_by_raw_address() {
    let x = sample_xbe();
    let out = x.serialize_sections().unwrap();
    // the section declared second has the lower raw address and is placed
    // first, padded to a page boundary
    assert_eq!(&out[0..5], &[7, 7, 7, 7, 7]);
    assert_eq!(&out[0x1000..0x1003], &[9, 9, 9]);
    assert_eq!(out.len(), 0x2000);
}

#[test]
fn end_to_end_two_sections() {
    let x = sample_xbe();
    let out = x.serialize().unwrap();
    // header region is page aligned; each payload is padded to a page
    assert_eq!(out.len() % 0x1000, 0);
    // header region runs to 0x1000, then two payloads of one page each
    assert_eq!(out.len(), 0x1000 + 0x1000 + 0x1000);
    // logo bitmap bytes stand at their translated address
    assert_eq!(&out[0x600..0x604], &[1, 2, 3, 4]);
}

#[test]
fn debug_pathname_round_trips_with_terminator() {
    let x = sample_xbe();
    let out = x.serialize().unwrap();
    // pathname bytes stand at the translated address, terminator included
    assert_eq!(&out[0x500..0x511], b"D:\\game\\main.xbe\0");
    // reading them back through the loader recovers the whole string
    let h = load_image_header(&out).unwrap();
    let path = load_debug_pathname(&out, &h).unwrap();
    assert_eq!(path, b"D:\\game\\main.xbe\0".to_vec());
}

#[test]
fn whole_image_round_trips() {
    let x = sample_xbe();
    let out = x.serialize().unwrap();
    let h = load_image_header(&out).unwrap();
    assert_eq!(h.base_address, 0x10000);
    assert_eq!(h.number_of_sections, 2);
    assert_eq!(h.certificate_address, 0x10178);
    assert_eq!(h.logo_bitmap_size, 4);
    assert_eq!(h.magic_number, b"XBEH".to_vec());
}

#[test]
fn loader_rejects_truncated_header() {
    let bytes = vec![0u8; 100];
    assert_eq!(
        load_image_header(&bytes).unwrap_err(),
        XbeError::MalformedImage
    );
}

#[test]
fn loader_rejects_invalid_name_text() {
    let x = sample_xbe();
    let mut out = x.serialize().unwrap();
    // corrupt the pathname with a byte no text decoding accepts
    out[0x500] = 0xff;
    let h = load_image_header(&out).unwrap();
    assert_eq!(
        load_debug_pathname(&out, &h).unwrap_err(),
        XbeError::MalformedImage
    );
}

#[test]
fn last_addresses() {
    let x = sample_xbe();
    assert_eq!(x.get_last_virtual_address(), 0x11000);
    // maximum raw address over the table, not the last entry's
    assert_eq!(x.get_last_raw_address(), 0x2000);
    let empty = XBE {
        section_headers: vec![],
        sections: vec![],
        section_names: vec![],
        ..sample_xbe()
    };
    assert_eq!(empty.get_last_virtual_address(), 0);
    assert_eq!(empty.get_last_raw_address(), 0);
}

#[test]
fn add_test_section_appends() {
    let mut x = sample_xbe();
    add_test_section(&mut x).unwrap();
    assert_eq!(x.image_header.number_of_sections, 3);
    assert_eq!(x.section_headers.len(), 3);
    assert_eq!(x.section_names.last().unwrap(), &b".TEST".to_vec());
    assert_eq!(x.sections.last().unwrap().bytes, b"0123456789ABCDEF".to_vec());
    let new_hdr = x.section_headers.last().unwrap();
    assert_eq!(new_hdr.raw_size, 0x10);
    // placed at the next page boundary past the highest raw address
    assert_eq!(new_hdr.raw_address, 0x3000);
    // existing headers were shifted by one table record
    assert_eq!(x.section_headers[0].section_name_address, 0x103d2 + 0x3a);
}

#[test]
fn patch_records_apply_in_order() {
    let mut buf = vec![0u8; 8];
    let records = vec![
        PatchRecord::Literal {
            offset: 2,
            data: vec![1, 2, 3],
        },
        PatchRecord::Fill {
            offset: 4,
            count: 3,
            value: 9,
        },
    ];
    assert!(apply_records(&mut buf, &records).is_ok());
    assert_eq!(buf, vec![0, 0, 1, 2, 9, 9, 9, 0]);
}

#[test]
fn patch_application_deterministic() {
    let records = vec![
        PatchRecord::Fill {
            offset: 1,
            count: 2,
            value: 5,
        },
        PatchRecord::Literal {
            offset: 0,
            data: vec![8],
        },
    ];
    let mut a = vec![0u8; 4];
    let mut b = vec![0u8; 4];
    apply_records(&mut a, &records).unwrap();
    apply_records(&mut b, &records).unwrap();
    assert_eq!(a, b);
    assert_eq!(a, vec![8, 5, 5, 0]);
}

#[test]
fn patch_out_of_bounds_stops_engine() {
    let mut buf = vec![0u8; 4];
    let records = vec![
        PatchRecord::Literal {
            offset: 0,
            data: vec![1, 1],
        },
        PatchRecord::Fill {
            offset: 3,
            count: 2,
            value: 7,
        },
        PatchRecord::Literal {
            offset: 0,
            data: vec![9],
        },
    ];
    assert_eq!(
        apply_records(&mut buf, &records).unwrap_err(),
        PatchError::PatchOutOfBounds
    );
    // the earlier edit stays applied, the later one is never reached, and
    // the buffer keeps its length
    assert_eq!(buf, vec![1, 1, 0, 0]);
}

#[test]
fn ips_file_parses_and_applies() {
    // magic, one literal record at offset 1, one fill record at offset 4,
    // end marker
    let mut file = b"PATCH".to_vec();
    file.extend_from_slice(&[0, 0, 1, 0, 2, 0xab, 0xcd]);
    file.extend_from_slice(&[0, 0, 4, 0, 0, 0, 3, 0xee]);
    file.extend_from_slice(b"EOF");
    let records = parse_ips(&file).unwrap();
    assert_eq!(records.len(), 2);
    let mut rom = Rom {
        bytes: vec![0u8; 8],
    };
    let mut patch = Patch::new(file);
    patch.apply_to(&mut rom).unwrap();
    assert_eq!(rom.bytes, vec![0, 0xab, 0xcd, 0, 0xee, 0xee, 0xee, 0]);
}

#[test]
fn ips_malformed_is_rejected() {
    assert_eq!(
        parse_ips(&b"PATCX".to_vec()).unwrap_err(),
        PatchError::MalformedPatch
    );
    // truncated record after the magic
    assert_eq!(
        parse_ips(&b"PATCH\x00\x00\x01".to_vec()).unwrap_err(),
        PatchError::MalformedPatch
    );
    let mut rom = Rom { bytes: vec![0u8; 4] };
    let mut patch = Patch::new(b"PATCX".to_vec());
    assert_eq!(patch.apply_to(&mut rom).unwrap_err(), PatchError::MalformedPatch);
    assert_eq!(rom.bytes, vec![0u8; 4]);
}

#[test]
fn integrity_gate_rejects_other_bytes() {
    // an arbitrary buffer does not digest to the known-good value
    assert!(!Rom::verify_hash(&b"hello".to_vec()));
    // the reference value itself is not its own digest, so a gate that
    // returned its input unchanged would accept here and real hashing
    // rejects
    let reference = vec![
        0xa9, 0xac, 0x85, 0x5c, 0x4e, 0xe8, 0xb4, 0x1b, 0x66, 0x1c, 0x35, 0x78, 0xc9, 0x59,
        0xc0, 0x24, 0xf1, 0x06, 0x8c, 0x47,
    ];
    assert!(!Rom::verify_hash(&reference));
}

#[test]
fn config_parses_update_flag() {
    let to_args = |v: Vec<&str>| -> Vec<Vec<u8>> {
        v.into_iter().map(|s| s.as_bytes().to_vec()).collect()
    };
    assert!(Config::parse_args(&to_args(vec!["prog"])).check_update);
    assert!(Config::parse_args(&to_args(vec!["prog", "--update", "true"])).check_update);
    assert!(!Config::parse_args(&to_args(vec!["prog", "--update", "false"])).check_update);
    assert!(Config::parse_args(&to_args(vec!["prog", "--other", "false"])).check_update);
    assert!(Config::parse_args(&to_args(vec!["prog", "--update", "nope"])).check_update);
}
