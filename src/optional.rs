use crate::error::{missing_byte, ErrorView, ParsingError};
use crate::utils::{
    arch_value, arch_width, fits, format_of, format_reason, le_u16, le_u32, read_byte, read_dword,
    read_word, stored, ArchDependentSized, PeFormat,
};
use vstd::prelude::*;

verus! {

/// The number of entries in the data directory table.
pub const NUM_DATA_DIRECTORIES: usize = 15;

/// The location and size of one auxiliary table of the image.
#[derive(Debug, Clone, Copy, PartialEq, Eq, Structural)]
pub struct ImageDataDirectory {
    pub virtual_addr: u32,
    pub size: u32,
}

/// The data directory table, in its fixed order.
#[derive(Debug, Clone, Copy, PartialEq, Eq, Structural)]
pub struct DataDirectories {
    pub export_table: ImageDataDirectory,
    pub import_table: ImageDataDirectory,
    pub resource_table: ImageDataDirectory,
    pub exception_table: ImageDataDirectory,
    pub certificate_table: ImageDataDirectory,
    pub offset_relocation_table: ImageDataDirectory,
    pub debug_table: ImageDataDirectory,
    pub architecture: ImageDataDirectory,
    pub global_ptr: ImageDataDirectory,
    pub tls_table: ImageDataDirectory,
    pub load_config_table: ImageDataDirectory,
    pub bound_import_table: ImageDataDirectory,
    pub import_address_table: ImageDataDirectory,
    pub delay_import_descriptor: ImageDataDirectory,
    pub clr_runtime_header: ImageDataDirectory,
}

/// The entry with no table: address and size zero.
pub open spec fn empty_directory() -> ImageDataDirectory {
    ImageDataDirectory { virtual_addr: 0, size: 0 }
}

/// The directory entry stored in `b` at `o`.
pub open spec fn directory_at(b: Seq<u8>, o: int) -> ImageDataDirectory {
    ImageDataDirectory { virtual_addr: le_u32(b, o) as u32, size: le_u32(b, o + 4) as u32 }
}

/// How many entries of the table a header that declares `count` of them stores.
pub open spec fn present_entries(count: int) -> int {
    if count < NUM_DATA_DIRECTORIES {
        count
    } else {
        NUM_DATA_DIRECTORIES as int
    }
}

/// Entry `k` of a table stored at `o` whose header declares `count` entries: entries
/// past the declared count are empty.
pub open spec fn expected_directory(b: Seq<u8>, o: int, count: int, k: int) -> ImageDataDirectory {
    if k < present_entries(count) {
        directory_at(b, o + 8 * k)
    } else {
        empty_directory()
    }
}

impl ImageDataDirectory {
    /// Reads one entry (address, then size) at `*offset` and moves past it.
    pub fn new(raw: &[u8], offset: &mut usize) -> (r: Result<Self, ParsingError>)
        ensures
            match r {
                Ok(d) => fits(raw@.len() as int, *old(offset) as int, 8) && d == directory_at(
                    raw@,
                    *old(offset) as int,
                ) && *final(offset) == *old(offset) + 8,
                Err(e) => !fits(raw@.len() as int, *old(offset) as int, 8) && e@
                    == (ErrorView::OutOfBounds {
                    byte: missing_byte(raw@.len() as int, *old(offset) as int),
                }) && *final(offset) == *old(offset),
            },
    {
        let mut p = *offset;
        let virtual_addr = read_dword(raw, &mut p)?;
        let size = read_dword(raw, &mut p)?;
        *offset = p;
        Ok(ImageDataDirectory { virtual_addr, size })
    }
}

impl DataDirectories {
    /// Entry `k` in the table's fixed order.
    pub open spec fn entry(&self, k: int) -> ImageDataDirectory {
        if k == 0 {
            self.export_table
        } else if k == 1 {
            self.import_table
        } else if k == 2 {
            self.resource_table
        } else if k == 3 {
            self.exception_table
        } else if k == 4 {
            self.certificate_table
        } else if k == 5 {
            self.offset_relocation_table
        } else if k == 6 {
            self.debug_table
        } else if k == 7 {
            self.architecture
        } else if k == 8 {
            self.global_ptr
        } else if k == 9 {
            self.tls_table
        } else if k == 10 {
            self.load_config_table
        } else if k == 11 {
            self.bound_import_table
        } else if k == 12 {
            self.import_address_table
        } else if k == 13 {
            self.delay_import_descriptor
        } else {
            self.clr_runtime_header
        }
    }

    /// The table is the one stored at `o` by a header that declares `count` entries.
    pub open spec fn decoded_from(&self, b: Seq<u8>, o: int, count: int) -> bool {
        forall|k: int| 0 <= k < NUM_DATA_DIRECTORIES ==> #[trigger] self.entry(k) == expected_directory(b, o, count, k)
    }

    /// Reads the first `min(count, 15)` entries at `*offset` and moves past them; the
    /// entries that the header does not declare are empty.
    pub fn new(raw: &[u8], offset: &mut usize, count: u32) -> (r: Result<Self, ParsingError>)
        ensures
            match r {
                Ok(d) => stored(raw@.len() as int, *old(offset) as int, 8 * present_entries(count as int))
                    && d.decoded_from(raw@, *old(offset) as int, count as int) && *final(offset)
                    == *old(offset) + 8 * present_entries(count as int),
                Err(e) => !stored(raw@.len() as int, *old(offset) as int, 8 * present_entries(count as int))
                    && e@ == (ErrorView::OutOfBounds {
                    byte: missing_byte(raw@.len() as int, *old(offset) as int),
                }) && *final(offset) == *old(offset),
            },
    {
        let start = *offset;
        let n: usize = if (count as usize) < NUM_DATA_DIRECTORIES {
            count as usize
        } else {
            NUM_DATA_DIRECTORIES
        };
        let mut p = start;
        let mut entries: Vec<ImageDataDirectory> = Vec::new();
        let mut k: usize = 0;
        while k < NUM_DATA_DIRECTORIES
            invariant
                n == present_entries(count as int),
                k <= NUM_DATA_DIRECTORIES,
                entries@.len() == k,
                forall|j: int|
                    0 <= j < k ==> entries@[j] == expected_directory(raw@, start as int, count as int, j),
                p == start + 8 * (if k < n { k } else { n }),
                stored(raw@.len() as int, start as int, 8 * (if k < n { k } else { n }) as int),
                *offset == start,
            decreases NUM_DATA_DIRECTORIES - k,
        {
            if k < n {
                let e = ImageDataDirectory::new(raw, &mut p)?;
                entries.push(e);
            } else {
                entries.push(ImageDataDirectory { virtual_addr: 0, size: 0 });
            }
            k = k + 1;
        }
        *offset = p;
        let d = DataDirectories {
            export_table: entries[0],
            import_table: entries[1],
            resource_table: entries[2],
            exception_table: entries[3],
            certificate_table: entries[4],
            offset_relocation_table: entries[5],
            debug_table: entries[6],
            architecture: entries[7],
            global_ptr: entries[8],
            tls_table: entries[9],
            load_config_table: entries[10],
            bound_import_table: entries[11],
            import_address_table: entries[12],
            delay_import_descriptor: entries[13],
            clr_runtime_header: entries[14],
        };
        assert forall|k: int| 0 <= k < NUM_DATA_DIRECTORIES implies #[trigger] d.entry(k)
            == expected_directory(raw@, start as int, count as int, k) by {
            assert(d.entry(k) == entries@[k]);
        }
        Ok(d)
    }
}

/// The optional header: image-wide parameters and the data directory table.
#[derive(Debug, Clone, Copy, PartialEq, Eq, Structural)]
pub struct OptionalHeader {
    pub magic: PeFormat,
    pub major_linked_version: u8,
    pub minor_linked_version: u8,
    pub size_of_code: u32,
    pub size_initialized_data: u32,
    pub size_uninitialized_data: u32,
    pub address_of_entry_point: u32,
    pub base_of_code: u32,
    /// Present in PE32 images only.
    pub base_of_data: Option<u32>,
    pub image_offset: ArchDependentSized,
    pub section_alignment: u32,
    pub file_alignment: u32,
    pub major_operating_system_version: u16,
    pub minor_operating_system_version: u16,
    pub major_image_version: u16,
    pub minor_image_version: u16,
    pub major_subsystem_version: u16,
    pub minor_subsystem_version: u16,
    pub reserved1: u32,
    pub size_of_image: u32,
    pub size_of_headers: u32,
    pub checksum: u32,
    pub subsystem: u16,
    pub dll_characteristics: u16,
    pub size_stack_reserve: ArchDependentSized,
    pub size_stack_commit: ArchDependentSized,
    pub size_heap_reserve: ArchDependentSized,
    pub size_heap_commit: ArchDependentSized,
    pub loader_flags: u32,
    pub num_rva_and_sizes: u32,
    pub data_directories: DataDirectories,
}

/// Where the image base lies, from the start of the header: PE32 has `base_of_data`
/// before it.
pub open spec fn image_base_pos(format: PeFormat) -> int {
    match format {
        PeFormat::PE32 => 28,
        PeFormat::PE32P => 24,
    }
}

/// Where the stack and heap sizes begin, from the start of the header.
pub open spec fn sizes_pos() -> int {
    72
}

/// Where the loader flags lie, from the start of the header.
pub open spec fn loader_flags_pos(format: PeFormat) -> int {
    sizes_pos() + 4 * arch_width(format)
}

/// Where the data directory table begins, from the start of the header.
pub open spec fn directories_pos(format: PeFormat) -> int {
    loader_flags_pos(format) + 8
}

/// The error that decoding an optional header at `s` in `b` ends with, or `None`
/// where it succeeds: the magic word must fit and name a format, then the fixed fields
/// must fit, then the directory entries that the header declares.
pub open spec fn optional_error(b: Seq<u8>, s: int) -> Option<ErrorView> {
    let short = ErrorView::OutOfBounds { byte: missing_byte(b.len() as int, s) };
    if !fits(b.len() as int, s, 2) {
        Some(short)
    } else {
        match format_of(le_u16(b, s)) {
            None => Some(ErrorView::Malformed { reason: format_reason() }),
            Some(f) => if !fits(b.len() as int, s, directories_pos(f)) {
                Some(short)
            } else if !stored(
                b.len() as int,
                s + directories_pos(f),
                8 * present_entries(le_u32(b, s + loader_flags_pos(f) + 4)),
            ) {
                Some(short)
            } else {
                None
            },
        }
    }
}

impl OptionalHeader {
    /// Every field is the one stored in `b` for a header that starts at `s`.
    pub open spec fn decoded_from(&self, b: Seq<u8>, s: int) -> bool {
        let f = self.magic;
        let w = arch_width(f);
        &&& format_of(le_u16(b, s)) == Some(f)
        &&& self.major_linked_version == b[s + 2]
        &&& self.minor_linked_version == b[s + 3]
        &&& self.size_of_code == le_u32(b, s + 4)
        &&& self.size_initialized_data == le_u32(b, s + 8)
        &&& self.size_uninitialized_data == le_u32(b, s + 12)
        &&& self.address_of_entry_point == le_u32(b, s + 16)
        &&& self.base_of_code == le_u32(b, s + 20)
        &&& self.base_of_data == match f {
            PeFormat::PE32 => Some(le_u32(b, s + 24) as u32),
            PeFormat::PE32P => None,
        }
        &&& self.image_offset == arch_value(f, b, s + image_base_pos(f))
        &&& self.section_alignment == le_u32(b, s + 32)
        &&& self.file_alignment == le_u32(b, s + 36)
        &&& self.major_operating_system_version == le_u16(b, s + 40)
        &&& self.minor_operating_system_version == le_u16(b, s + 42)
        &&& self.major_image_version == le_u16(b, s + 44)
        &&& self.minor_image_version == le_u16(b, s + 46)
        &&& self.major_subsystem_version == le_u16(b, s + 48)
        &&& self.minor_subsystem_version == le_u16(b, s + 50)
        &&& self.reserved1 == le_u32(b, s + 52)
        &&& self.size_of_image == le_u32(b, s + 56)
        &&& self.size_of_headers == le_u32(b, s + 60)
        &&& self.checksum == le_u32(b, s + 64)
        &&& self.subsystem == le_u16(b, s + 68)
        &&& self.dll_characteristics == le_u16(b, s + 70)
        &&& self.size_stack_reserve == arch_value(f, b, s + sizes_pos())
        &&& self.size_stack_commit == arch_value(f, b, s + sizes_pos() + w)
        &&& self.size_heap_reserve == arch_value(f, b, s + sizes_pos() + 2 * w)
        &&& self.size_heap_commit == arch_value(f, b, s + sizes_pos() + 3 * w)
        &&& self.loader_flags == le_u32(b, s + loader_flags_pos(f))
        &&& self.num_rva_and_sizes == le_u32(b, s + loader_flags_pos(f) + 4)
        &&& self.data_directories.decoded_from(
            b,
            s + directories_pos(f),
            self.num_rva_and_sizes as int,
        )
    }

    /// Decodes the optional header that starts at `start`.
    pub fn new(raw: &[u8], start: usize) -> (r: Result<Self, ParsingError>)
        ensures
            match r {
                Ok(h) => optional_error(raw@, start as int) is None && h.decoded_from(
                    raw@,
                    start as int,
                ),
                Err(e) => optional_error(raw@, start as int) == Some(e@),
            },
    {
        let mut offset = start;
        let magic = PeFormat::from_u16(read_word(raw, &mut offset)?)?;
        let major_linked_version = read_byte(raw, &mut offset)?;
        let minor_linked_version = read_byte(raw, &mut offset)?;
        let size_of_code = read_dword(raw, &mut offset)?;
        let size_initialized_data = read_dword(raw, &mut offset)?;
        let size_uninitialized_data = read_dword(raw, &mut offset)?;
        let address_of_entry_point = read_dword(raw, &mut offset)?;
        let base_of_code = read_dword(raw, &mut offset)?;
        let base_of_data = match magic {
            PeFormat::PE32 => Some(read_dword(raw, &mut offset)?),
            PeFormat::PE32P => None,
        };
        let image_offset = ArchDependentSized::new(raw, &mut offset, &magic)?;
        let section_alignment = read_dword(raw, &mut offset)?;
        let file_alignment = read_dword(raw, &mut offset)?;
        let major_operating_system_version = read_word(raw, &mut offset)?;
        let minor_operating_system_version = read_word(raw, &mut offset)?;
        let major_image_version = read_word(raw, &mut offset)?;
        let minor_image_version = read_word(raw, &mut offset)?;
        let major_subsystem_version = read_word(raw, &mut offset)?;
        let minor_subsystem_version = read_word(raw, &mut offset)?;
        let reserved1 = read_dword(raw, &mut offset)?;
        let size_of_image = read_dword(raw, &mut offset)?;
        let size_of_headers = read_dword(raw, &mut offset)?;
        let checksum = read_dword(raw, &mut offset)?;
        let subsystem = read_word(raw, &mut offset)?;
        let dll_characteristics = read_word(raw, &mut offset)?;
        let size_stack_reserve = ArchDependentSized::new(raw, &mut offset, &magic)?;
        let size_stack_commit = ArchDependentSized::new(raw, &mut offset, &magic)?;
        let size_heap_reserve = ArchDependentSized::new(raw, &mut offset, &magic)?;
        let size_heap_commit = ArchDependentSized::new(raw, &mut offset, &magic)?;
        let loader_flags = read_dword(raw, &mut offset)?;
        let num_rva_and_sizes = read_dword(raw, &mut offset)?;
        let data_directories = DataDirectories::new(raw, &mut offset, num_rva_and_sizes)?;
        Ok(OptionalHeader {
            magic,
            major_linked_version,
            minor_linked_version,
            size_of_code,
            size_initialized_data,
            size_uninitialized_data,
            address_of_entry_point,
            base_of_code,
            base_of_data,
            image_offset,
            section_alignment,
            file_alignment,
            major_operating_system_version,
            minor_operating_system_version,
            major_image_version,
            minor_image_version,
            major_subsystem_version,
            minor_subsystem_version,
            reserved1,
            size_of_image,
            size_of_headers,
            checksum,
            subsystem,
            dll_characteristics,
            size_stack_reserve,
            size_stack_commit,
            size_heap_reserve,
            size_heap_commit,
            loader_flags,
            num_rva_and_sizes,
            data_directories,
        })
    }
}

/// A PE32+ header carries no `base_of_data`, and a PE32 header always carries one.
pub proof fn lemma_base_of_data_follows_format(b: Seq<u8>, s: int, h: OptionalHeader)
    requires
        h.decoded_from(b, s),
    ensures
        h.magic == PeFormat::PE32P ==> h.base_of_data is None,
        h.magic == PeFormat::PE32 ==> h.base_of_data is Some,
{
}

/// Every directory entry past the count that the header declares is all zero.
pub proof fn lemma_undeclared_directories_are_empty(b: Seq<u8>, s: int, h: OptionalHeader)
    requires
        h.decoded_from(b, s),
    ensures
        forall|k: int|
            h.num_rva_and_sizes <= k < NUM_DATA_DIRECTORIES ==> #[trigger] h.data_directories.entry(k)
                == (ImageDataDirectory { virtual_addr: 0, size: 0 }),
{
    assert forall|k: int| h.num_rva_and_sizes <= k < NUM_DATA_DIRECTORIES implies #[trigger] h.data_directories.entry(k)
        == (ImageDataDirectory { virtual_addr: 0, size: 0 }) by {
        assert(h.data_directories.entry(k) == expected_directory(
            b,
            s + directories_pos(h.magic),
            h.num_rva_and_sizes as int,
            k,
        ));
    }
}

} // verus!
