use crate::error::{missing_byte, ErrorView, ParsingError};
use crate::utils::{check_range, fits, le_u16, le_u32, read_dword, read_word, string_from_utf8};
use vstd::slice::{slice_subrange, slice_to_vec};
use vstd::prelude::*;
use vstd::utf8::{decode_utf8, valid_utf8};

verus! {

/// The width of one section record.
pub const SECTION_HEADER_SZ: usize = 40;

/// The width of a section's name field.
pub const SECTION_NAME_SZ: usize = 8;

/// The number of bytes of `tag` before its first NUL, or all of them where it has none.
pub open spec fn text_len(tag: Seq<u8>) -> int
    decreases tag.len(),
{
    if tag.len() == 0 || tag[0] == 0 {
        0
    } else {
        1 + text_len(tag.drop_first())
    }
}

proof fn lemma_text_len(tag: Seq<u8>, n: int)
    requires
        0 <= n <= tag.len(),
        forall|j: int| 0 <= j < n ==> tag[j] != 0,
        n == tag.len() || tag[n] == 0,
    ensures
        text_len(tag) == n,
    decreases n,
{
    if n > 0 {
        lemma_text_len(tag.drop_first(), n - 1);
    }
}

/// The error that decoding a section record at `o` in `b` ends with, or `None`: the
/// record must fit.
pub open spec fn section_error(b: Seq<u8>, o: int) -> Option<ErrorView> {
    if !fits(b.len() as int, o, SECTION_HEADER_SZ as int) {
        Some(ErrorView::OutOfBounds { byte: missing_byte(b.len() as int, o) })
    } else {
        None
    }
}

/// The error that decoding `n` consecutive section records at `o` ends with: that of
/// the first record that fails, or `None`.
pub open spec fn table_error(b: Seq<u8>, o: int, n: nat) -> Option<ErrorView>
    decreases n,
{
    if n == 0 {
        None
    } else {
        match table_error(b, o, (n - 1) as nat) {
            Some(e) => Some(e),
            None => section_error(b, o + SECTION_HEADER_SZ * (n - 1)),
        }
    }
}

proof fn lemma_table_error_kept(b: Seq<u8>, o: int, k: nat, n: nat)
    requires
        k <= n,
        table_error(b, o, k) is Some,
    ensures
        table_error(b, o, n) == table_error(b, o, k),
    decreases n - k,
{
    if k < n {
        lemma_table_error_kept(b, o, k, (n - 1) as nat);
    }
}

/// One record of the section table.
#[derive(Debug)]
pub struct SectionHeader {
    /// The raw name field, NUL-padded where the name is shorter; a long name reads `/`
    /// and an offset into the string table.
    pub name: Vec<u8>,
    pub virtual_size: u32,
    pub virtual_address: u32,
    pub size_raw_data: u32,
    pub pointer_raw_data: u32,
    pub pointer_relocations: u32,
    pub pointer_line_numbers: u32,
    pub number_relocations: u16,
    pub number_line_numbers: u16,
    pub characteristics: u32,
}

impl SectionHeader {
    /// Every field is the one stored in `b` for a record at `o`.
    pub open spec fn decoded_from(&self, b: Seq<u8>, o: int) -> bool {
        &&& self.name@ == b.subrange(o, o + SECTION_NAME_SZ)
        &&& self.virtual_size == le_u32(b, o + 8)
        &&& self.virtual_address == le_u32(b, o + 12)
        &&& self.size_raw_data == le_u32(b, o + 16)
        &&& self.pointer_raw_data == le_u32(b, o + 20)
        &&& self.pointer_relocations == le_u32(b, o + 24)
        &&& self.pointer_line_numbers == le_u32(b, o + 28)
        &&& self.number_relocations == le_u16(b, o + 32)
        &&& self.number_line_numbers == le_u16(b, o + 34)
        &&& self.characteristics == le_u32(b, o + 36)
    }

    /// Decodes the record at `*offset` and moves past it.
    pub fn new(raw: &[u8], offset: &mut usize) -> (r: Result<Self, ParsingError>)
        ensures
            match r {
                Ok(h) => section_error(raw@, *old(offset) as int) is None && h.decoded_from(
                    raw@,
                    *old(offset) as int,
                ) && *final(offset) == *old(offset) + SECTION_HEADER_SZ,
                Err(e) => section_error(raw@, *old(offset) as int) == Some(e@) && *final(offset)
                    == *old(offset),
            },
    {
        let o = *offset;
        check_range(raw, o, SECTION_HEADER_SZ)?;
        let len = raw.len();
        assert(o + SECTION_HEADER_SZ <= len);
        let name = slice_to_vec(slice_subrange(raw, o, o + SECTION_NAME_SZ));
        let mut p = o + SECTION_NAME_SZ;
        let virtual_size = read_dword(raw, &mut p)?;
        let virtual_address = read_dword(raw, &mut p)?;
        let size_raw_data = read_dword(raw, &mut p)?;
        let pointer_raw_data = read_dword(raw, &mut p)?;
        let pointer_relocations = read_dword(raw, &mut p)?;
        let pointer_line_numbers = read_dword(raw, &mut p)?;
        let number_relocations = read_word(raw, &mut p)?;
        let number_line_numbers = read_word(raw, &mut p)?;
        let characteristics = read_dword(raw, &mut p)?;
        *offset = p;
        Ok(SectionHeader {
            name,
            virtual_size,
            virtual_address,
            size_raw_data,
            pointer_raw_data,
            pointer_relocations,
            pointer_line_numbers,
            number_relocations,
            number_line_numbers,
            characteristics,
        })
    }

    /// The name field before its first NUL, or all of it where it has none.
    pub open spec fn name_bytes(&self) -> Seq<u8> {
        self.name@.subrange(0, text_len(self.name@))
    }

    /// The name as text: the name field before its first NUL, decoded as UTF-8, or
    /// `None` where those bytes are not UTF-8.
    pub fn name_text(&self) -> (r: Option<String>)
        ensures
            r is Some <==> valid_utf8(self.name_bytes()),
            r matches Some(t) ==> t@ == decode_utf8(self.name_bytes()),
    {
        let mut n: usize = 0;
        while n < self.name.len() && self.name[n] != 0
            invariant
                n <= self.name@.len(),
                forall|j: int| 0 <= j < n ==> self.name@[j] != 0,
            decreases self.name@.len() - n,
        {
            n = n + 1;
        }
        proof {
            lemma_text_len(self.name@, n as int);
        }
        let bytes = slice_to_vec(slice_subrange(self.name.as_slice(), 0, n));
        string_from_utf8(bytes)
    }
}

/// The section table, in file order.
#[derive(Debug)]
pub struct SectionTable {
    pub section_headers: Vec<SectionHeader>,
}

impl SectionTable {
    /// The table holds the `n` records stored at `o`, in order.
    pub open spec fn decoded_from(&self, b: Seq<u8>, o: int, n: nat) -> bool {
        &&& self.section_headers@.len() == n
        &&& forall|i: int|
            0 <= i < n ==> #[trigger] self.section_headers@[i].decoded_from(
                b,
                o + SECTION_HEADER_SZ * i,
            )
    }

    /// Decodes the `num_sections` records that start at `offset`.
    pub fn new(raw: &[u8], offset: usize, num_sections: usize) -> (r: Result<Self, ParsingError>)
        ensures
            match r {
                Ok(t) => table_error(raw@, offset as int, num_sections as nat) is None
                    && t.decoded_from(raw@, offset as int, num_sections as nat),
                Err(e) => table_error(raw@, offset as int, num_sections as nat) == Some(e@),
            },
    {
        let mut p = offset;
        let mut section_headers: Vec<SectionHeader> = Vec::with_capacity(num_sections);
        let mut i: usize = 0;
        while i < num_sections
            invariant
                i <= num_sections,
                p == offset + SECTION_HEADER_SZ * i,
                table_error(raw@, offset as int, i as nat) is None,
                section_headers@.len() == i,
                forall|j: int|
                    0 <= j < i ==> #[trigger] section_headers@[j].decoded_from(
                        raw@,
                        offset + SECTION_HEADER_SZ * j,
                    ),
            decreases num_sections - i,
        {
            match SectionHeader::new(raw, &mut p) {
                Ok(h) => {
                    section_headers.push(h);
                },
                Err(e) => {
                    proof {
                        assert(table_error(raw@, offset as int, (i + 1) as nat) == Some(e@));
                        lemma_table_error_kept(
                            raw@,
                            offset as int,
                            (i + 1) as nat,
                            num_sections as nat,
                        );
                    }
                    return Err(e);
                },
            }
            i = i + 1;
        }
        Ok(SectionTable { section_headers })
    }
}

proof fn lemma_table_in_prefix(b: Seq<u8>, n: int, o: int, k: nat)
    requires
        0 <= o,
        o + SECTION_HEADER_SZ * k <= n <= b.len(),
        table_error(b, o, k) is None,
    ensures
        table_error(b.subrange(0, n), o, k) is None,
    decreases k,
{
    if k > 0 {
        lemma_table_in_prefix(b, n, o, (k - 1) as nat);
    }
}

/// Where the table of `k` records at `o` decodes from `b` but does not fit in its
/// first `n` bytes, decoding it from those bytes fails for want of bytes.
pub(crate) proof fn lemma_table_cut_short(b: Seq<u8>, n: int, o: int, k: nat)
    requires
        0 <= o,
        0 <= n <= b.len(),
        k > 0,
        n < o + SECTION_HEADER_SZ * k,
        table_error(b, o, k) is None,
    ensures
        table_error(b.subrange(0, n), o, k) matches Some(ErrorView::OutOfBounds { .. }),
    decreases k,
{
    let p = b.subrange(0, n);
    let last = o + SECTION_HEADER_SZ * (k - 1);
    assert(table_error(b, o, (k - 1) as nat) is None);
    if k > 1 && n < last {
        lemma_table_cut_short(b, n, o, (k - 1) as nat);
    } else {
        if k > 1 {
            lemma_table_in_prefix(b, n, o, (k - 1) as nat);
        }
    }
}

} // verus!
