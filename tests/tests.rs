use pepper::coff::CoffHeader;
use pepper::dos::DosHeader;
use pepper::error::ParsingError;
use pepper::optional::{DataDirectories, ImageDataDirectory, OptionalHeader};
use pepper::pe::Pe;
use pepper::sections::{SectionHeader, SectionTable};
use pepper::utils::{
    read_byte, read_dword, read_dwordlong, read_utf8, read_word, ArchDependentSized, PeFormat,
};

const COFF_AT: usize = 0x80;
const OPTIONAL_AT: usize = COFF_AT + 24;
const SECTIONS_AT: usize = OPTIONAL_AT + 0xF0;

const SECTION_NAMES: [&str; 20] = [
    ".text", ".data", ".rdata", ".pdata", ".xdata", ".bss", ".idata", ".CRT", ".tls", ".reloc",
    "/4", "/19", "/35", "/51", "/63", "/77", "/89", "/102", "/113", "/124",
];

fn put16(b: &mut Vec<u8>, at: usize, v: u16) {
    b[at..at + 2].copy_from_slice(&v.to_le_bytes());
}

fn put32(b: &mut Vec<u8>, at: usize, v: u32) {
    b[at..at + 4].copy_from_slice(&v.to_le_bytes());
}

fn put64(b: &mut Vec<u8>, at: usize, v: u64) {
    b[at..at + 8].copy_from_slice(&v.to_le_bytes());
}

/// A 64-bit image with twenty sections, as a MinGW linker lays it out.
fn image64() -> Vec<u8> {
    let mut b = vec![0u8; SECTIONS_AT + 40 * SECTION_NAMES.len()];
    b[0] = b'M';
    b[1] = b'Z';
    put32(&mut b, 0x3C, COFF_AT as u32);
    b[COFF_AT..COFF_AT + 4].copy_from_slice(b"PE\0\0");
    put16(&mut b, COFF_AT + 4, 0x8664);
    put16(&mut b, COFF_AT + 6, SECTION_NAMES.len() as u16);
    put32(&mut b, COFF_AT + 8, 0x6500_0000);
    put32(&mut b, COFF_AT + 12, 0x3C00);
    put32(&mut b, COFF_AT + 16, 0x2A0);
    put16(&mut b, COFF_AT + 20, 0xF0);
    put16(&mut b, COFF_AT + 22, 0x26);
    let o = OPTIONAL_AT;
    put16(&mut b, o, 0x20B);
    b[o + 2] = 2;
    b[o + 3] = 40;
    put32(&mut b, o + 4, 0x1600);
    put32(&mut b, o + 8, 0x2200);
    put32(&mut b, o + 12, 0x400);
    put32(&mut b, o + 16, 0x1410);
    put32(&mut b, o + 20, 0x1000);
    put64(&mut b, o + 24, 0x1_4000_0000);
    put32(&mut b, o + 32, 0x1000);
    put32(&mut b, o + 36, 0x200);
    put16(&mut b, o + 40, 4);
    put16(&mut b, o + 48, 5);
    put16(&mut b, o + 50, 2);
    put32(&mut b, o + 56, 0x1_8000);
    put32(&mut b, o + 60, 0x600);
    put32(&mut b, o + 64, 0x1_2345);
    put16(&mut b, o + 68, 3);
    put16(&mut b, o + 70, 0x160);
    put64(&mut b, o + 72, 0x20_0000);
    put64(&mut b, o + 80, 0x1000);
    put64(&mut b, o + 88, 0x10_0000);
    put64(&mut b, o + 96, 0x1000);
    put32(&mut b, o + 108, 16);
    for k in 0..16 {
        put32(&mut b, o + 112 + 8 * k, 0x1_0000 + 0x100 * k as u32);
        put32(&mut b, o + 116 + 8 * k, 0x10 + k as u32);
    }
    for (i, name) in SECTION_NAMES.iter().enumerate() {
        let at = SECTIONS_AT + 40 * i;
        b[at..at + name.len()].copy_from_slice(name.as_bytes());
        put32(&mut b, at + 8, 0x100 + i as u32);
        put32(&mut b, at + 12, 0x1000 * (i as u32 + 1));
        put32(&mut b, at + 16, 0x200);
        put32(&mut b, at + 20, 0x400 + 0x200 * i as u32);
        put16(&mut b, at + 32, i as u16);
        put32(&mut b, at + 36, 0x6000_0020);
    }
    b
}

/// A 32-bit image with no sections, declaring `count` data directory entries; the
/// buffer ends where the section table would start.
fn image32(count: u32) -> Vec<u8> {
    let mut b = vec![0u8; OPTIONAL_AT + 0xE0];
    b[0] = b'M';
    b[1] = b'Z';
    put32(&mut b, 0x3C, COFF_AT as u32);
    b[COFF_AT..COFF_AT + 4].copy_from_slice(b"PE\0\0");
    put16(&mut b, COFF_AT + 4, 0x14C);
    put16(&mut b, COFF_AT + 20, 0xE0);
    let o = OPTIONAL_AT;
    put16(&mut b, o, 0x10B);
    put32(&mut b, o + 20, 0x1000);
    put32(&mut b, o + 24, 0x3000);
    put32(&mut b, o + 28, 0x40_0000);
    put32(&mut b, o + 72, 0x10_0000);
    put32(&mut b, o + 80, 0x8_0000);
    put32(&mut b, o + 92, count);
    for k in 0..count.min(15) as usize {
        put32(&mut b, o + 96 + 8 * k, 0x7000 + k as u32);
        put32(&mut b, o + 100 + 8 * k, 0x28);
    }
    b
}

fn out_of_bounds_at(r: Result<Pe, ParsingError>) -> usize {
    match r {
        Err(ParsingError::OutOfBounds { byte }) => byte,
        Err(e) => panic!("unexpected error {:?}", e),
        Ok(_) => panic!("decoding succeeded"),
    }
}

#[test]
fn test_dos_header() {
    let pe = Pe::new(&image64()).unwrap();
    assert_eq!(pe.dos_header.e_magic, "MZ".to_string())
}

#[test]
fn test_coff_machine() {
    let pe = Pe::new(&image64()).unwrap();
    assert_eq!(pe.coff_header.machine, 0x8664)
}

#[test]
fn test_coff_size_optional_header() {
    let pe = Pe::new(&image64()).unwrap();
    assert_eq!(pe.coff_header.size_optional_header, 0xf0)
}

#[test]
fn test_optional_header_magic() {
    let pe = Pe::new(&image64()).unwrap();
    assert_eq!(pe.optional_header.magic, PeFormat::PE32P)
}

#[test]
fn test_optional_header_base_of_code() {
    let pe = Pe::new(&image64()).unwrap();
    assert_eq!(pe.optional_header.base_of_code, 0x1000)
}

#[test]
fn test_optional_header_base_of_data() {
    let pe = Pe::new(&image64()).unwrap();
    assert_eq!(pe.optional_header.base_of_data, None)
}

#[test]
fn test_major_subsystem_version() {
    let pe = Pe::new(&image64()).unwrap();
    assert_eq!(pe.optional_header.major_subsystem_version, 5);
}

#[test]
fn test_optional_header_size_heap_reserve() {
    let pe = Pe::new(&image64()).unwrap();
    assert_eq!(
        pe.optional_header.size_heap_reserve,
        ArchDependentSized::PE32P(0x100000)
    );
}

#[test]
fn test_section_headers() {
    let pe = Pe::new(&image64()).unwrap();
    let section_header_names: Vec<&str> = vec![
        ".text", ".data", ".rdata", ".pdata", ".xdata", ".bss", ".idata", ".CRT", ".tls",
        ".reloc", "/4", "/19", "/35", "/51", "/63", "/77", "/89", "/102", "/113", "/124",
    ];
    let test_pe_headers = pe.section_table.section_headers;
    assert_eq!(test_pe_headers.len(), section_header_names.len());
    for (correct, parsed) in section_header_names.iter().zip(test_pe_headers) {
        assert_eq!(*correct, parsed.name_text().unwrap());
    }
}

#[test]
fn fixture_fields_decode_exactly() {
    let pe = Pe::new(&image64()).unwrap();
    assert_eq!(pe.dos_header.e_lfanew, 0x80);
    let c = &pe.coff_header;
    assert_eq!(c.signature, "PE\0\0".to_string());
    assert_eq!(c.num_sections, 20);
    assert_eq!(c.timestamp, "2023-09-12 06:06:56 UTC".to_string());
    assert_eq!((c.symbol_table, c.num_symbols, c.characteristics), (0x3C00, 0x2A0, 0x26));
    let h = &pe.optional_header;
    assert_eq!((h.major_linked_version, h.minor_linked_version), (2, 40));
    assert_eq!(h.size_of_code, 0x1600);
    assert_eq!(h.size_initialized_data, 0x2200);
    assert_eq!(h.size_uninitialized_data, 0x400);
    assert_eq!(h.address_of_entry_point, 0x1410);
    assert_eq!(h.image_offset, ArchDependentSized::PE32P(0x1_4000_0000));
    assert_eq!((h.section_alignment, h.file_alignment), (0x1000, 0x200));
    assert_eq!(h.major_operating_system_version, 4);
    assert_eq!(h.minor_subsystem_version, 2);
    assert_eq!((h.size_of_image, h.size_of_headers, h.checksum), (0x1_8000, 0x600, 0x1_2345));
    assert_eq!((h.subsystem, h.dll_characteristics), (3, 0x160));
    assert_eq!(h.size_stack_reserve, ArchDependentSized::PE32P(0x20_0000));
    assert_eq!(h.size_stack_commit, ArchDependentSized::PE32P(0x1000));
    assert_eq!(h.size_heap_commit, ArchDependentSized::PE32P(0x1000));
    assert_eq!(h.num_rva_and_sizes, 16);
    let d = &h.data_directories;
    assert_eq!(d.export_table, ImageDataDirectory { virtual_addr: 0x1_0000, size: 0x10 });
    assert_eq!(d.import_table, ImageDataDirectory { virtual_addr: 0x1_0100, size: 0x11 });
    assert_eq!(d.clr_runtime_header, ImageDataDirectory { virtual_addr: 0x1_0E00, size: 0x1E });
    let s = &pe.section_table.section_headers[3];
    assert_eq!((s.virtual_size, s.virtual_address, s.size_raw_data), (0x103, 0x4000, 0x200));
    assert_eq!((s.pointer_raw_data, s.number_relocations, s.characteristics), (0xA00, 3, 0x6000_0020));
}

#[test]
fn decoding_twice_gives_equal_results() {
    let raw = image64();
    let a = Pe::new(&raw).unwrap();
    let b = Pe::new(&raw).unwrap();
    assert_eq!(format!("{:?}", a), format!("{:?}", b));
    let bad = &raw[..0x90];
    assert_eq!(format!("{:?}", Pe::new(bad)), format!("{:?}", Pe::new(bad)));
}

#[test]
fn every_truncation_fails_out_of_bounds() {
    let raw = image64();
    for n in 0..raw.len() {
        let byte = out_of_bounds_at(Pe::new(&raw[..n]));
        assert!(byte >= n, "prefix of {} bytes", n);
    }
    assert_eq!(out_of_bounds_at(Pe::new(&[])), 0);
    assert_eq!(out_of_bounds_at(Pe::new(&raw[..0x10])), 0x3C);
    assert_eq!(out_of_bounds_at(Pe::new(&raw[..0x3E])), 0x3E);
    assert_eq!(out_of_bounds_at(Pe::new(&raw[..0x40])), 0x80);
    assert_eq!(out_of_bounds_at(Pe::new(&raw[..SECTIONS_AT + 50])), SECTIONS_AT + 50);
}

#[test]
fn unknown_optional_magic_is_malformed() {
    for magic in [0u16, 0x107, 0x10A, 0x10C, 0x20A, 0x20C, 0xFFFF] {
        let mut raw = image64();
        put16(&mut raw, OPTIONAL_AT, magic);
        match Pe::new(&raw) {
            Err(ParsingError::Malformed { reason }) => {
                assert_eq!(reason, "failed to parse optional header PE format".to_string());
            }
            other => panic!("{:#x}: {:?}", magic, other.err()),
        }
    }
}

#[test]
fn bad_dos_magic_is_reported() {
    let mut raw = image64();
    raw[1] = b'X';
    match Pe::new(&raw) {
        Err(ParsingError::InvalidMagic { header, offset }) => {
            assert_eq!((header.as_str(), offset), ("DOS", 0));
        }
        other => panic!("{:?}", other.err()),
    }
}

#[test]
fn bad_coff_signature_is_reported() {
    let mut raw = image64();
    raw[COFF_AT + 2] = 1;
    match Pe::new(&raw) {
        Err(ParsingError::InvalidMagic { header, offset }) => {
            assert_eq!((header.as_str(), offset), ("COFF", COFF_AT));
        }
        other => panic!("{:?}", other.err()),
    }
}

#[test]
fn pe32_image_has_base_of_data() {
    let pe = Pe::new(&image32(16)).unwrap();
    let h = &pe.optional_header;
    assert_eq!(h.magic, PeFormat::PE32);
    assert_eq!(h.base_of_data, Some(0x3000));
    assert_eq!(h.image_offset, ArchDependentSized::PE32(0x40_0000));
    assert_eq!(h.size_stack_reserve, ArchDependentSized::PE32(0x10_0000));
    assert_eq!(h.size_heap_reserve, ArchDependentSized::PE32(0x8_0000));
    assert_eq!(h.num_rva_and_sizes, 16);
    assert_eq!(h.data_directories.clr_runtime_header, ImageDataDirectory { virtual_addr: 0x700E, size: 0x28 });
    assert!(pe.section_table.section_headers.is_empty());
}

#[test]
fn undeclared_directories_are_zero() {
    let raw = image32(2);
    let d = Pe::new(&raw).unwrap().optional_header.data_directories;
    assert_eq!(d.export_table, ImageDataDirectory { virtual_addr: 0x7000, size: 0x28 });
    assert_eq!(d.import_table, ImageDataDirectory { virtual_addr: 0x7001, size: 0x28 });
    let zero = ImageDataDirectory { virtual_addr: 0, size: 0 };
    for e in [d.resource_table, d.exception_table, d.tls_table, d.clr_runtime_header] {
        assert_eq!(e, zero);
    }
    let none = Pe::new(&image32(0)).unwrap().optional_header.data_directories;
    assert_eq!(none.export_table, zero);
}

#[test]
fn directories_read_only_declared_entries() {
    let mut raw = vec![0xAAu8; 16];
    raw.extend_from_slice(&[1, 0, 0, 0, 2, 0, 0, 0]);
    let mut offset = 16;
    let d = DataDirectories::new(&raw, &mut offset, 1).unwrap();
    assert_eq!(offset, 24);
    assert_eq!(d.export_table, ImageDataDirectory { virtual_addr: 1, size: 2 });
    assert_eq!(d.import_table, ImageDataDirectory { virtual_addr: 0, size: 0 });
    let mut offset = 16;
    assert!(matches!(
        DataDirectories::new(&raw, &mut offset, 2),
        Err(ParsingError::OutOfBounds { byte: 24 })
    ));
    assert_eq!(offset, 16);
    let mut offset = 20;
    assert!(matches!(
        ImageDataDirectory::new(&raw, &mut offset),
        Err(ParsingError::OutOfBounds { byte: 24 })
    ));
}

#[test]
fn readers_are_little_endian() {
    let raw = [0x01u8, 0x23, 0x45, 0x67, 0x89, 0xAB, 0xCD, 0xEF];
    let mut o = 0;
    assert_eq!(read_byte(&raw, &mut o).unwrap(), 0x01);
    assert_eq!(o, 1);
    assert_eq!(read_word(&raw, &mut o).unwrap(), 0x4523);
    assert_eq!(o, 3);
    assert_eq!(read_dword(&raw, &mut o).unwrap(), 0xCDAB_8967);
    assert_eq!(o, 7);
    let mut o = 0;
    assert_eq!(read_dwordlong(&raw, &mut o).unwrap(), 0xEFCD_AB89_6745_2301);
    assert_eq!(o, 8);
    assert!(matches!(read_byte(&raw, &mut o), Err(ParsingError::OutOfBounds { byte: 8 })));
    let mut o = 6;
    assert!(matches!(read_dword(&raw, &mut o), Err(ParsingError::OutOfBounds { byte: 8 })));
    assert_eq!(o, 6);
    let mut o = 12;
    assert!(matches!(read_word(&raw, &mut o), Err(ParsingError::OutOfBounds { byte: 12 })));
    let mut o = usize::MAX;
    assert!(matches!(read_dwordlong(&raw, &mut o), Err(ParsingError::OutOfBounds { .. })));
}

#[test]
fn text_reader_decodes_utf8() {
    let raw = "xé€z".as_bytes().to_vec();
    let mut o = 1;
    assert_eq!(read_utf8(&raw, &mut o, 5).unwrap(), "é€".to_string());
    assert_eq!(o, 6);
    let mut o = 2;
    assert!(matches!(read_utf8(&raw, &mut o, 2), Err(ParsingError::Malformed { .. })));
    assert_eq!(o, 2);
    let mut o = 5;
    assert!(matches!(read_utf8(&raw, &mut o, 3), Err(ParsingError::OutOfBounds { byte: 7 })));
}

#[test]
fn formats_and_wide_fields() {
    assert_eq!(PeFormat::from_u16(0x10B).unwrap(), PeFormat::PE32);
    assert_eq!(PeFormat::from_u16(0x20B).unwrap(), PeFormat::PE32P);
    assert!(matches!(PeFormat::from_u16(0x107), Err(ParsingError::Malformed { .. })));
    let raw = [0x10u8, 0, 0, 0, 0x20, 0, 0, 0];
    let mut o = 0;
    assert_eq!(ArchDependentSized::new(&raw, &mut o, &PeFormat::PE32).unwrap(), ArchDependentSized::PE32(0x10));
    assert_eq!(o, 4);
    let mut o = 0;
    assert_eq!(
        ArchDependentSized::new(&raw, &mut o, &PeFormat::PE32P).unwrap(),
        ArchDependentSized::PE32P(0x20_0000_0010)
    );
    let mut o = 4;
    assert!(matches!(
        ArchDependentSized::new(&raw, &mut o, &PeFormat::PE32P),
        Err(ParsingError::OutOfBounds { byte: 8 })
    ));
}

#[test]
fn header_decoders_at_offsets() {
    let raw = image64();
    let dos = DosHeader::new(&raw).unwrap();
    assert_eq!(dos.e_lfanew as usize, COFF_AT);
    let coff = CoffHeader::new(&raw, COFF_AT).unwrap();
    assert_eq!(coff.machine, 0x8664);
    let opt = OptionalHeader::new(&raw, OPTIONAL_AT).unwrap();
    assert_eq!(opt.major_subsystem_version, 5);
    assert!(matches!(OptionalHeader::new(&raw, raw.len() + 3), Err(ParsingError::OutOfBounds { byte }) if byte == raw.len() + 3));
    let table = SectionTable::new(&raw, SECTIONS_AT, 2).unwrap();
    assert_eq!(table.section_headers.len(), 2);
    assert_eq!(table.section_headers[1].name, b".data\0\0\0".to_vec());
    assert!(SectionTable::new(&raw, raw.len() + 100, 0).unwrap().section_headers.is_empty());
}

#[test]
fn coff_timestamp_text() {
    let mut raw = image64();
    put32(&mut raw, COFF_AT + 8, 0);
    let coff = CoffHeader::new(&raw, COFF_AT).unwrap();
    assert_eq!(coff.timestamp, "1970-01-01 00:00:00 UTC".to_string());
    assert!(matches!(
        CoffHeader::with_timestamp(&raw, COFF_AT, None),
        Err(ParsingError::Malformed { .. })
    ));
    let given = CoffHeader::with_timestamp(&raw, COFF_AT, Some("then".to_string())).unwrap();
    assert_eq!(given.timestamp, "then".to_string());
    assert!(matches!(
        CoffHeader::with_timestamp(&raw, raw.len() - 10, None),
        Err(ParsingError::InvalidMagic { .. })
    ));
}

#[test]
fn section_names_keep_the_raw_field() {
    let mut raw = vec![0u8; 40];
    raw[..8].copy_from_slice(b".textbss");
    put32(&mut raw, 8, 0x1234);
    let mut o = 0;
    let s = SectionHeader::new(&raw, &mut o).unwrap();
    assert_eq!(s.name, b".textbss".to_vec());
    assert_eq!(s.name_text(), Some(".textbss".to_string()));
    assert_eq!((s.virtual_size, o), (0x1234, 40));
    raw[2] = 0;
    raw[5] = 0xFF;
    let mut o = 0;
    let s = SectionHeader::new(&raw, &mut o).unwrap();
    assert_eq!(s.name, vec![b'.', b't', 0, b'x', b't', 0xFF, b's', b's']);
    assert_eq!(s.name_text(), Some(".t".to_string()));
    raw[0] = 0xFF;
    let mut o = 0;
    let s = SectionHeader::new(&raw, &mut o).unwrap();
    assert_eq!(s.name[0], 0xFF);
    assert_eq!(s.name_text(), None);
    assert_eq!(o, 40);
    let mut o = 0;
    assert!(matches!(SectionHeader::new(&raw[..20], &mut o), Err(ParsingError::OutOfBounds { byte: 20 })));
    assert_eq!(o, 0);
    assert!(matches!(SectionTable::new(&raw[..20], 0, 1), Err(ParsingError::OutOfBounds { byte: 20 })));
    assert_eq!(SectionTable::new(&raw, 0, 1).unwrap().section_headers.len(), 1);
}

#[test]
fn section_table_must_start_inside_the_buffer() {
    let mut raw = image32(16);
    assert!(Pe::new(&raw).unwrap().section_table.section_headers.is_empty());
    put16(&mut raw, COFF_AT + 20, 0xE1);
    assert_eq!(out_of_bounds_at(Pe::new(&raw)), OPTIONAL_AT + 0xE1);
    raw.truncate(OPTIONAL_AT + 0xD8);
    put16(&mut raw, COFF_AT + 20, 0xD8);
    assert!(Pe::new(&raw).is_ok());
}
