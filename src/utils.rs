use crate::error::{malformed, missing_byte, out_of_bounds, ErrorView, ParsingError};
use vstd::prelude::*;
use vstd::slice::{slice_subrange, slice_to_vec};
use vstd::utf8::{decode_utf8, pop_first_scalar, valid_first_scalar, valid_utf8};

verus! {

pub const WORD_SZ: usize = 2;

pub const DWORD_SZ: usize = 4;

pub const DWORDLONG_SZ: usize = 8;

/// The two variants of the optional header.
#[derive(Debug, Clone, Copy, PartialEq, Eq, Structural)]
pub enum PeFormat {
    /// 32-bit images, magic `0x10B`.
    PE32,
    /// 64-bit images (PE32+), magic `0x20B`.
    PE32P,
}

/// A field that is four bytes wide in PE32 images and eight in PE32+ images.
#[derive(Debug, Clone, Copy, PartialEq, Eq, Structural)]
pub enum ArchDependentSized {
    PE32(u32),
    PE32P(u64),
}

/// The unsigned value of the two bytes of `b` at `o`, least significant first.
pub open spec fn le_u16(b: Seq<u8>, o: int) -> int {
    b[o] as int + 0x100 * b[o + 1] as int
}

/// The unsigned value of the four bytes of `b` at `o`, least significant first.
pub open spec fn le_u32(b: Seq<u8>, o: int) -> int {
    le_u16(b, o) + 0x1_0000 * le_u16(b, o + 2)
}

/// The unsigned value of the eight bytes of `b` at `o`, least significant first.
pub open spec fn le_u64(b: Seq<u8>, o: int) -> int {
    le_u32(b, o) + 0x1_0000_0000 * le_u32(b, o + 4)
}

/// Whether `width` bytes starting at `o` lie inside a buffer of `len` bytes.
pub open spec fn fits(len: int, o: int, width: int) -> bool {
    o + width <= len
}

/// Whether a range of `width` bytes starting at `o` is available in a buffer of `len`
/// bytes, where an empty range needs nothing.
pub open spec fn stored(len: int, o: int, width: int) -> bool {
    width == 0 || fits(len, o, width)
}

/// The format that an optional-header magic word names, if any.
pub open spec fn format_of(magic: int) -> Option<PeFormat> {
    if magic == 0x10B {
        Some(PeFormat::PE32)
    } else if magic == 0x20B {
        Some(PeFormat::PE32P)
    } else {
        None
    }
}

/// The width in bytes of an architecture-dependent field.
pub open spec fn arch_width(format: PeFormat) -> int {
    match format {
        PeFormat::PE32 => 4,
        PeFormat::PE32P => 8,
    }
}

/// The architecture-dependent field of `format` stored in `b` at `o`.
pub open spec fn arch_value(format: PeFormat, b: Seq<u8>, o: int) -> ArchDependentSized {
    match format {
        PeFormat::PE32 => ArchDependentSized::PE32(le_u32(b, o) as u32),
        PeFormat::PE32P => ArchDependentSized::PE32P(le_u64(b, o) as u64),
    }
}

/// Why text that is not UTF-8 is refused.
pub open spec fn utf8_reason() -> Seq<char> {
    "text field is not valid UTF-8"@
}

/// Why an unknown optional-header magic word is refused.
pub open spec fn format_reason() -> Seq<char> {
    "failed to parse optional header PE format"@
}

/// Every byte of `b` is a seven-bit ASCII code.
pub open spec fn all_ascii(b: Seq<u8>) -> bool {
    forall|i: int| 0 <= i < b.len() ==> b[i] < 0x80
}

/// ASCII bytes are well-formed UTF-8, one character per byte.
pub proof fn lemma_ascii_is_utf8(b: Seq<u8>)
    requires
        all_ascii(b),
    ensures
        valid_utf8(b),
        decode_utf8(b).len() == b.len(),
    decreases b.len(),
{
    if b.len() > 0 {
        assert(valid_first_scalar(b));
        lemma_ascii_is_utf8(pop_first_scalar(b));
    }
}

/// Relies on `String::from_utf8`: it accepts exactly the well-formed UTF-8
/// sequences, and the string it returns holds the characters they encode.
#[verifier::external_body]
pub(crate) fn string_from_utf8(bytes: Vec<u8>) -> (r: Option<String>)
    ensures
        r is Some <==> valid_utf8(bytes@),
        r matches Some(s) ==> s@ == decode_utf8(bytes@),
{
    String::from_utf8(bytes).ok()
}

/// The check shared by the readers: the range fits, or the error says
/// which byte is missing.
pub(crate) fn check_range(raw: &[u8], offset: usize, width: usize) -> (r: Result<(), ParsingError>)
    ensures
        r is Ok <==> fits(raw@.len() as int, offset as int, width as int),
        r matches Err(e) ==> e@ == (ErrorView::OutOfBounds {
            byte: missing_byte(raw@.len() as int, offset as int),
        }),
{
    if offset > raw.len() || raw.len() - offset < width {
        Err(out_of_bounds(raw.len(), offset))
    } else {
        Ok(())
    }
}

/// Reads one byte at `*offset` and moves past it.
pub fn read_byte(raw: &[u8], offset: &mut usize) -> (r: Result<u8, ParsingError>)
    ensures
        match r {
            Ok(v) => fits(raw@.len() as int, *old(offset) as int, 1) && v == raw@[*old(offset) as int]
                && *final(offset) == *old(offset) + 1,
            Err(e) => !fits(raw@.len() as int, *old(offset) as int, 1) && e@ == (ErrorView::OutOfBounds {
                byte: missing_byte(raw@.len() as int, *old(offset) as int),
            }) && *final(offset) == *old(offset),
        },
{
    check_range(raw, *offset, 1)?;
    let v = raw[*offset];
    *offset = *offset + 1;
    Ok(v)
}

/// Reads a little-endian `u16` at `*offset` and moves past it.
pub fn read_word(raw: &[u8], offset: &mut usize) -> (r: Result<u16, ParsingError>)
    ensures
        match r {
            Ok(v) => fits(raw@.len() as int, *old(offset) as int, 2) && v == le_u16(
                raw@,
                *old(offset) as int,
            ) && *final(offset) == *old(offset) + 2,
            Err(e) => !fits(raw@.len() as int, *old(offset) as int, 2) && e@ == (ErrorView::OutOfBounds {
                byte: missing_byte(raw@.len() as int, *old(offset) as int),
            }) && *final(offset) == *old(offset),
        },
{
    check_range(raw, *offset, WORD_SZ)?;
    let o = *offset;
    let v = raw[o] as u16 + raw[o + 1] as u16 * 0x100;
    *offset = o + WORD_SZ;
    Ok(v)
}

/// Reads a little-endian `u32` at `*offset` and moves past it.
pub fn read_dword(raw: &[u8], offset: &mut usize) -> (r: Result<u32, ParsingError>)
    ensures
        match r {
            Ok(v) => fits(raw@.len() as int, *old(offset) as int, 4) && v == le_u32(
                raw@,
                *old(offset) as int,
            ) && *final(offset) == *old(offset) + 4,
            Err(e) => !fits(raw@.len() as int, *old(offset) as int, 4) && e@ == (ErrorView::OutOfBounds {
                byte: missing_byte(raw@.len() as int, *old(offset) as int),
            }) && *final(offset) == *old(offset),
        },
{
    check_range(raw, *offset, DWORD_SZ)?;
    let o = *offset;
    let mut p = o;
    let lo = read_word(raw, &mut p)?;
    let hi = read_word(raw, &mut p)?;
    let v = lo as u32 + hi as u32 * 0x1_0000;
    *offset = p;
    Ok(v)
}

/// Reads a little-endian `u64` at `*offset` and moves past it.
pub fn read_dwordlong(raw: &[u8], offset: &mut usize) -> (r: Result<u64, ParsingError>)
    ensures
        match r {
            Ok(v) => fits(raw@.len() as int, *old(offset) as int, 8) && v == le_u64(
                raw@,
                *old(offset) as int,
            ) && *final(offset) == *old(offset) + 8,
            Err(e) => !fits(raw@.len() as int, *old(offset) as int, 8) && e@ == (ErrorView::OutOfBounds {
                byte: missing_byte(raw@.len() as int, *old(offset) as int),
            }) && *final(offset) == *old(offset),
        },
{
    check_range(raw, *offset, DWORDLONG_SZ)?;
    let mut p = *offset;
    let lo = read_dword(raw, &mut p)?;
    let hi = read_dword(raw, &mut p)?;
    let v = lo as u64 + hi as u64 * 0x1_0000_0000;
    *offset = p;
    Ok(v)
}

/// Reads `len` bytes at `*offset` as UTF-8 text and moves past them.
pub fn read_utf8(raw: &[u8], offset: &mut usize, len: usize) -> (r: Result<String, ParsingError>)
    ensures
        match r {
            Ok(s) => fits(raw@.len() as int, *old(offset) as int, len as int) && valid_utf8(
                raw@.subrange(*old(offset) as int, *old(offset) + len),
            ) && s@ == decode_utf8(raw@.subrange(*old(offset) as int, *old(offset) + len))
                && *final(offset) == *old(offset) + len,
            Err(e) => *final(offset) == *old(offset) && if fits(
                raw@.len() as int,
                *old(offset) as int,
                len as int,
            ) {
                !valid_utf8(raw@.subrange(*old(offset) as int, *old(offset) + len)) && e@
                    == (ErrorView::Malformed { reason: utf8_reason() })
            } else {
                e@ == (ErrorView::OutOfBounds {
                    byte: missing_byte(raw@.len() as int, *old(offset) as int),
                })
            },
        },
{
    check_range(raw, *offset, len)?;
    let o = *offset;
    let n = raw.len();
    assert(o + len <= n);
    let bytes = slice_to_vec(slice_subrange(raw, o, o + len));
    match string_from_utf8(bytes) {
        Some(s) => {
            *offset = o + len;
            Ok(s)
        },
        None => Err(malformed("text field is not valid UTF-8")),
    }
}

impl ArchDependentSized {
    /// Reads a field whose width `magic` decides and moves past it.
    pub fn new(raw: &[u8], offset: &mut usize, magic: &PeFormat) -> (r: Result<Self, ParsingError>)
        ensures
            match r {
                Ok(v) => fits(raw@.len() as int, *old(offset) as int, arch_width(*magic)) && v
                    == arch_value(*magic, raw@, *old(offset) as int) && *final(offset) == *old(
                    offset,
                ) + arch_width(*magic),
                Err(e) => !fits(raw@.len() as int, *old(offset) as int, arch_width(*magic)) && e@
                    == (ErrorView::OutOfBounds {
                    byte: missing_byte(raw@.len() as int, *old(offset) as int),
                }) && *final(offset) == *old(offset),
            },
    {
        match magic {
            PeFormat::PE32 => {
                let dword = read_dword(raw, offset)?;
                Ok(ArchDependentSized::PE32(dword))
            },
            PeFormat::PE32P => {
                let dwordlong = read_dwordlong(raw, offset)?;
                Ok(ArchDependentSized::PE32P(dwordlong))
            },
        }
    }
}

impl PeFormat {
    /// The format that an optional-header magic word names.
    pub fn from_u16(raw: u16) -> (r: Result<Self, ParsingError>)
        ensures
            match format_of(raw as int) {
                Some(f) => r == Ok::<PeFormat, ParsingError>(f),
                None => r matches Err(e) && e@ == (ErrorView::Malformed { reason: format_reason() }),
            },
    {
        if raw == 0x10B {
            Ok(PeFormat::PE32)
        } else if raw == 0x20B {
            Ok(PeFormat::PE32P)
        } else {
            Err(malformed("failed to parse optional header PE format"))
        }
    }
}

} // verus!
