use crate::error::{missing_byte, ErrorView, ParsingError};
use crate::utils::{all_ascii, fits, le_u32, lemma_ascii_is_utf8, read_byte, read_dword, read_utf8};
use vstd::prelude::*;
use vstd::utf8::decode_utf8;

verus! {

/// Where the DOS stub keeps the offset of the COFF header.
pub const NEW_HEADER_POS: usize = 0x3C;

/// The MS-DOS stub header, of which only the magic and the pointer to the COFF header
/// are kept.
#[derive(Debug)]
pub struct DosHeader {
    pub e_magic: String,
    pub e_lfanew: u32,
}

/// The error that decoding the DOS header of `b` ends with, or `None` where it
/// succeeds: the magic must fit and read `MZ`, then the new-header pointer must fit.
pub open spec fn dos_error(b: Seq<u8>) -> Option<ErrorView> {
    if !fits(b.len() as int, 0, 2) {
        Some(ErrorView::OutOfBounds { byte: missing_byte(b.len() as int, 0) })
    } else if !(b[0] == 0x4D && b[1] == 0x5A) {
        Some(ErrorView::InvalidMagic { header: "DOS"@, offset: 0 })
    } else if !fits(b.len() as int, NEW_HEADER_POS as int, 4) {
        Some(ErrorView::OutOfBounds { byte: missing_byte(b.len() as int, NEW_HEADER_POS as int) })
    } else {
        None
    }
}

impl DosHeader {
    /// Both fields are the ones stored in `b`.
    pub open spec fn decoded_from(&self, b: Seq<u8>) -> bool {
        &&& self.e_magic@ == decode_utf8(b.subrange(0, 2))
        &&& self.e_lfanew == le_u32(b, NEW_HEADER_POS as int)
    }

    /// Decodes the DOS header at the start of `raw`.
    pub fn new(raw: &[u8]) -> (r: Result<Self, ParsingError>)
        ensures
            match r {
                Ok(h) => dos_error(raw@) is None && h.decoded_from(raw@),
                Err(e) => dos_error(raw@) == Some(e@),
            },
    {
        let mut offset: usize = 0;
        let m = read_byte(raw, &mut offset)?;
        let z = read_byte(raw, &mut offset)?;
        if m != 0x4D || z != 0x5A {
            return Err(ParsingError::InvalidMagic { header: String::from_str("DOS"), offset: 0 });
        }
        proof {
            assert(all_ascii(raw@.subrange(0, 2)));
            lemma_ascii_is_utf8(raw@.subrange(0, 2));
        }
        let mut p: usize = 0;
        let e_magic = read_utf8(raw, &mut p, 2)?;
        let mut q: usize = NEW_HEADER_POS;
        let e_lfanew = read_dword(raw, &mut q)?;
        Ok(DosHeader { e_magic, e_lfanew })
    }
}

} // verus!
