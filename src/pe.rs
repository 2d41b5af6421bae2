use crate::coff::{coff_error, has_pe_signature, CoffHeader, COFF_HEADER_SZ};
use crate::dos::{dos_error, DosHeader, NEW_HEADER_POS};
use crate::error::{ErrorView, ParsingError};
use crate::optional::{
    directories_pos, loader_flags_pos, optional_error, present_entries, OptionalHeader,
};
use crate::sections::{
    lemma_table_cut_short, table_error, SectionHeader, SectionTable,
    SECTION_HEADER_SZ,
};
use crate::utils::{fits, format_of, format_reason, le_u16, le_u32, PeFormat};
use vstd::prelude::*;

verus! {

/// The decoded header region of an image.
#[derive(Debug)]
pub struct Pe {
    pub dos_header: DosHeader,
    pub coff_header: CoffHeader,
    pub optional_header: OptionalHeader,
    pub section_table: SectionTable,
}

/// Where the COFF header of `b` starts: the DOS header's pointer.
pub open spec fn coff_start(b: Seq<u8>) -> int {
    le_u32(b, NEW_HEADER_POS as int)
}

/// Where the optional header of `b` starts: right after the COFF record.
pub open spec fn optional_start(b: Seq<u8>) -> int {
    coff_start(b) + COFF_HEADER_SZ
}

/// Where the section table of `b` starts: after as many bytes of optional header as
/// the COFF header declares.
pub open spec fn sections_start(b: Seq<u8>) -> int {
    optional_start(b) + le_u16(b, coff_start(b) + 20)
}

/// The number of sections that the COFF header of `b` declares.
pub open spec fn section_count(b: Seq<u8>) -> nat {
    le_u16(b, coff_start(b) + 6) as nat
}

/// The error that decoding `b` ends with, or `None` where it succeeds: that of the
/// first step that fails, in the order DOS header, COFF header, optional header,
/// section table. The section table must start inside the buffer, or at its end,
/// even where it holds no records.
pub open spec fn image_error(b: Seq<u8>) -> Option<ErrorView> {
    if dos_error(b) is Some {
        dos_error(b)
    } else if coff_error(b, coff_start(b)) is Some {
        coff_error(b, coff_start(b))
    } else if optional_error(b, optional_start(b)) is Some {
        optional_error(b, optional_start(b))
    } else if sections_start(b) > b.len() {
        Some(ErrorView::OutOfBounds { byte: sections_start(b) })
    } else {
        table_error(b, sections_start(b), section_count(b))
    }
}

/// `r` is what decoding `b` gives: the error of `image_error`, or the headers that `b`
/// stores where there is none.
pub open spec fn decodes_to(b: Seq<u8>, r: Result<Pe, ParsingError>) -> bool {
    match r {
        Ok(pe) => image_error(b) is None && pe.decoded_from(b),
        Err(e) => image_error(b) == Some(e@),
    }
}

impl Pe {
    /// Every header is the one that `b` stores where the chain of offsets leads.
    pub open spec fn decoded_from(&self, b: Seq<u8>) -> bool {
        &&& self.dos_header.decoded_from(b)
        &&& self.coff_header.decoded_from(b, coff_start(b))
        &&& self.optional_header.decoded_from(b, optional_start(b))
        &&& self.section_table.decoded_from(b, sections_start(b), section_count(b))
    }

    /// Decodes the headers of the image held in `raw`, stopping at the first error.
    /// A slice never spans more than `isize::MAX` bytes, so offsets computed from
    /// header fields cannot overflow.
    pub fn new(raw: &[u8]) -> (r: Result<Self, ParsingError>)
        requires
            raw@.len() <= isize::MAX,
        ensures
            decodes_to(raw@, r),
    {
        let dos_header = DosHeader::new(raw)?;
        let coff_header_offset = dos_header.e_lfanew as usize;
        let coff_header = CoffHeader::new(raw, coff_header_offset)?;
        let optional_header_offset = coff_header_offset + COFF_HEADER_SZ;
        let optional_header = OptionalHeader::new(raw, optional_header_offset)?;
        let section_table_offset = optional_header_offset
            + coff_header.size_optional_header as usize;
        if section_table_offset > raw.len() {
            return Err(ParsingError::OutOfBounds { byte: section_table_offset });
        }
        let num_sections = coff_header.num_sections as usize;
        let section_table = SectionTable::new(raw, section_table_offset, num_sections)?;
        Ok(Pe { dos_header, coff_header, optional_header, section_table })
    }
}

/// Two section records agree field by field.
pub open spec fn same_section(x: SectionHeader, y: SectionHeader) -> bool {
    &&& x.name@ == y.name@
    &&& x.virtual_size == y.virtual_size
    &&& x.virtual_address == y.virtual_address
    &&& x.size_raw_data == y.size_raw_data
    &&& x.pointer_raw_data == y.pointer_raw_data
    &&& x.pointer_relocations == y.pointer_relocations
    &&& x.pointer_line_numbers == y.pointer_line_numbers
    &&& x.number_relocations == y.number_relocations
    &&& x.number_line_numbers == y.number_line_numbers
    &&& x.characteristics == y.characteristics
}

/// Two outcomes agree in every decoded value: the same headers, field by field and
/// text by text, or errors of the same kind at the same place.
pub open spec fn same_outcome(r1: Result<Pe, ParsingError>, r2: Result<Pe, ParsingError>) -> bool {
    match (r1, r2) {
        (Ok(a), Ok(b)) => a.same_as(&b),
        (Err(e1), Err(e2)) => e1@ == e2@,
        _ => false,
    }
}

impl Pe {
    /// Field-by-field equality, comparing text by its characters.
    pub open spec fn same_as(&self, o: &Pe) -> bool {
        let (c, d) = (self.coff_header, o.coff_header);
        &&& self.dos_header.e_magic@ == o.dos_header.e_magic@
        &&& self.dos_header.e_lfanew == o.dos_header.e_lfanew
        &&& c.signature@ == d.signature@
        &&& c.machine == d.machine
        &&& c.num_sections == d.num_sections
        &&& c.timestamp@ == d.timestamp@
        &&& c.symbol_table == d.symbol_table
        &&& c.num_symbols == d.num_symbols
        &&& c.size_optional_header == d.size_optional_header
        &&& c.characteristics == d.characteristics
        &&& self.optional_header == o.optional_header
        &&& self.section_table.section_headers@.len() == o.section_table.section_headers@.len()
        &&& forall|i: int|
            0 <= i < self.section_table.section_headers@.len() ==> same_section(
                #[trigger] self.section_table.section_headers@[i],
                o.section_table.section_headers@[i],
            )
    }
}

/// Decoding is deterministic: any two outcomes of decoding the same bytes agree.
pub proof fn lemma_decoding_is_deterministic(
    b: Seq<u8>,
    r1: Result<Pe, ParsingError>,
    r2: Result<Pe, ParsingError>,
)
    requires
        decodes_to(b, r1),
        decodes_to(b, r2),
    ensures
        same_outcome(r1, r2),
{
    if let (Ok(x), Ok(y)) = (r1, r2) {
        let (ox, oy) = (x.optional_header, y.optional_header);
        assert(ox.data_directories == oy.data_directories) by {
            assert(ox.data_directories.entry(0) == oy.data_directories.entry(0));
            assert(ox.data_directories.entry(1) == oy.data_directories.entry(1));
            assert(ox.data_directories.entry(2) == oy.data_directories.entry(2));
            assert(ox.data_directories.entry(3) == oy.data_directories.entry(3));
            assert(ox.data_directories.entry(4) == oy.data_directories.entry(4));
            assert(ox.data_directories.entry(5) == oy.data_directories.entry(5));
            assert(ox.data_directories.entry(6) == oy.data_directories.entry(6));
            assert(ox.data_directories.entry(7) == oy.data_directories.entry(7));
            assert(ox.data_directories.entry(8) == oy.data_directories.entry(8));
            assert(ox.data_directories.entry(9) == oy.data_directories.entry(9));
            assert(ox.data_directories.entry(10) == oy.data_directories.entry(10));
            assert(ox.data_directories.entry(11) == oy.data_directories.entry(11));
            assert(ox.data_directories.entry(12) == oy.data_directories.entry(12));
            assert(ox.data_directories.entry(13) == oy.data_directories.entry(13));
            assert(ox.data_directories.entry(14) == oy.data_directories.entry(14));
        }
        let start = sections_start(b);
        assert forall|i: int| 0 <= i < x.section_table.section_headers@.len() implies same_section(
            #[trigger] x.section_table.section_headers@[i],
            y.section_table.section_headers@[i],
        ) by {
            assert(x.section_table.section_headers@[i].decoded_from(b, start + 40 * i));
            assert(y.section_table.section_headers@[i].decoded_from(b, start + 40 * i));
        }
    }
}

/// An optional-header magic word other than `0x10B` and `0x20B` makes decoding fail as
/// malformed, once the DOS and COFF headers have decoded and the word is present.
pub proof fn lemma_unknown_format_is_malformed(b: Seq<u8>)
    requires
        dos_error(b) is None,
        coff_error(b, coff_start(b)) is None,
        fits(b.len() as int, optional_start(b), 2),
        le_u16(b, optional_start(b)) != 0x10B,
        le_u16(b, optional_start(b)) != 0x20B,
    ensures
        image_error(b) == Some(ErrorView::Malformed { reason: format_reason() }),
{
    assert(format_of(le_u16(b, optional_start(b))) is None);
}

/// How far the headers of `b` reach: one past the last byte that decoding reads.
pub open spec fn header_extent(b: Seq<u8>) -> int {
    let o = optional_start(b);
    let f = match format_of(le_u16(b, o)) {
        Some(f) => f,
        None => PeFormat::PE32,
    };
    let optional_end = o + directories_pos(f) + 8 * present_entries(
        le_u32(b, o + loader_flags_pos(f) + 4),
    );
    let sections_end = sections_start(b) + SECTION_HEADER_SZ * section_count(b);
    let dos_end = NEW_HEADER_POS + 4;
    if sections_end > optional_end {
        sections_end
    } else if optional_end > dos_end {
        optional_end
    } else {
        dos_end
    }
}

/// Cutting a decodable image short anywhere before the end of its headers makes
/// decoding fail for want of bytes.
pub proof fn lemma_truncated_image_is_out_of_bounds(b: Seq<u8>, n: int)
    requires
        image_error(b) is None,
        0 <= n < header_extent(b),
    ensures
        image_error(b.subrange(0, n)) matches Some(ErrorView::OutOfBounds { .. }),
{
    let p = b.subrange(0, n);
    if n >= 2 {
        assert(p[0] == b[0] && p[1] == b[1]);
    }
    if n >= NEW_HEADER_POS + 4 {
        assert(le_u32(p, NEW_HEADER_POS as int) == le_u32(b, NEW_HEADER_POS as int));
        let c = coff_start(b);
        assert(coff_start(p) == c);
        if n >= c + 4 {
            assert(p[c] == b[c] && p[c + 1] == b[c + 1] && p[c + 2] == b[c + 2] && p[c + 3]
                == b[c + 3]);
        }
        if n >= c + COFF_HEADER_SZ {
            assert(le_u32(p, c + 8) == le_u32(b, c + 8));
            assert(le_u16(p, c + 6) == le_u16(b, c + 6));
            assert(le_u16(p, c + 20) == le_u16(b, c + 20));
            assert(coff_error(p, c) == coff_error(b, c));
            let o = optional_start(b);
            assert(optional_start(p) == o);
            assert(sections_start(p) == sections_start(b));
            assert(section_count(p) == section_count(b));
            if n >= o + 2 {
                assert(le_u16(p, o) == le_u16(b, o));
                let f = format_of(le_u16(b, o))->Some_0;
                if n >= o + directories_pos(f) {
                    let at = o + loader_flags_pos(f) + 4;
                    assert(le_u32(p, at) == le_u32(b, at));
                    if n >= o + directories_pos(f) + 8 * present_entries(le_u32(b, at)) {
                        assert(optional_error(p, o) is None);
                        if n >= sections_start(b) {
                            lemma_table_cut_short(b, n, sections_start(b), section_count(b));
                        }
                    }
                }
            }
        }
    }
}

proof fn lemma_short_table(b: Seq<u8>, o: int, k: nat)
    requires
        k > 0,
        b.len() < o + SECTION_HEADER_SZ * k,
    ensures
        table_error(b, o, k) matches Some(ErrorView::OutOfBounds { .. }),
    decreases k,
{
    let last = o + SECTION_HEADER_SZ * (k - 1);
    if table_error(b, o, (k - 1) as nat) is Some {
        if k > 1 && b.len() < last {
            lemma_short_table(b, o, (k - 1) as nat);
        } else {
            assert(k > 1);
            if table_error(b, o, (k - 1) as nat) matches Some(ErrorView::OutOfBounds { .. }) {
            } else {
                lemma_table_error_only_out_of_bounds(b, o, (k - 1) as nat);
            }
        }
    }
}

proof fn lemma_table_error_only_out_of_bounds(b: Seq<u8>, o: int, k: nat)
    ensures
        table_error(b, o, k) is None || table_error(b, o, k) matches Some(
            ErrorView::OutOfBounds { .. },
        ),
    decreases k,
{
    if k > 0 {
        lemma_table_error_only_out_of_bounds(b, o, (k - 1) as nat);
    }
}

/// Whatever step decoding reaches, a buffer too short for the bytes that step reads
/// makes decoding fail for want of bytes: the DOS magic, then the DOS header up to
/// its pointer, then the COFF record, then the optional header's magic, its fixed
/// fields and the directory entries it declares, then the start of the section table
/// and its records.
pub proof fn lemma_short_buffer_is_out_of_bounds(b: Seq<u8>)
    ensures
        ({
            let len = b.len() as int;
            let c = coff_start(b);
            let o = optional_start(b);
            let dos_magic = len >= 2 && b[0] == 0x4D && b[1] == 0x5A;
            let signature = len >= c + 4 && has_pe_signature(b, c);
            let short_step = {
                ||| len < 2
                ||| dos_magic && len < NEW_HEADER_POS + 4
                ||| dos_error(b) is None && (len < c + 4 || signature) && len < c + COFF_HEADER_SZ
                ||| dos_error(b) is None && coff_error(b, c) is None && len < o + 2
                ||| dos_error(b) is None && coff_error(b, c) is None && len >= o + 2 && (
                format_of(le_u16(b, o)) matches Some(f) && len < o + directories_pos(f) + 8
                    * present_entries(le_u32(b, o + loader_flags_pos(f) + 4)))
                ||| dos_error(b) is None && coff_error(b, c) is None && optional_error(b, o) is None
                    && len < sections_start(b) + SECTION_HEADER_SZ * section_count(b)
            };
            short_step ==> image_error(b) matches Some(ErrorView::OutOfBounds { .. })
        }),
{
    let c = coff_start(b);
    let o = optional_start(b);
    if dos_error(b) is None && coff_error(b, c) is None && optional_error(b, o) is None
        && sections_start(b) <= b.len() && b.len() < sections_start(b) + SECTION_HEADER_SZ
        * section_count(b) {
        lemma_short_table(b, sections_start(b), section_count(b));
    }
}

} // verus!
