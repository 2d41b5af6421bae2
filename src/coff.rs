use crate::error::{malformed, missing_byte, ErrorView, ParsingError};
use crate::utils::{
    all_ascii, fits, le_u16, le_u32, lemma_ascii_is_utf8, read_byte, read_dword, read_utf8,
    read_word,
};
use vstd::prelude::*;
use vstd::utf8::decode_utf8;

verus! {

/// The width of the COFF header record, which the optional header follows.
pub const COFF_HEADER_SZ: usize = 24;

/// The text of the UTC calendar time `secs` seconds after the Unix epoch.
pub uninterp spec fn utc_timestamp_text(secs: u32) -> Seq<char>;

/// Relies on chrono's `DateTime::from_timestamp` (whole seconds since the Unix epoch,
/// in UTC) and on the `Display` of the `DateTime<Utc>` it returns: the text depends on
/// `secs` alone. `from_timestamp` returns `None` only for a day count outside the
/// years that `NaiveDate` holds (about 262,000 either side of year 0); seconds that fit
/// in a `u32` end in the year 2106, so there is always a time.
#[verifier::external_body]
fn utc_timestamp(secs: u32) -> (r: Option<String>)
    ensures
        r is Some,
        r matches Some(t) ==> t@ == utc_timestamp_text(secs),
{
    chrono::DateTime::from_timestamp(secs as i64, 0).map(|dt| dt.to_string())
}

/// The COFF file header that follows the DOS stub.
#[derive(Debug)]
pub struct CoffHeader {
    pub signature: String,
    pub machine: u16,
    pub num_sections: u16,
    /// The link time, as UTC calendar text.
    pub timestamp: String,
    pub symbol_table: u32,
    pub num_symbols: u32,
    pub size_optional_header: u16,
    pub characteristics: u16,
}

/// Why a timestamp without a calendar text is refused.
pub open spec fn timestamp_reason() -> Seq<char> {
    "timestamp cannot be represented as a calendar time"@
}

/// The four bytes at `s` read `PE\0\0`.
pub open spec fn has_pe_signature(b: Seq<u8>, s: int) -> bool {
    b[s] == 0x50 && b[s + 1] == 0x45 && b[s + 2] == 0 && b[s + 3] == 0
}

/// The error that decoding a COFF header at `s` in `b` ends with, when the text of its
/// timestamp is `stamp`; `None` where it succeeds. The signature must fit and read
/// `PE\0\0`, then the whole record must fit, then the timestamp must have a text.
pub open spec fn coff_error_given(b: Seq<u8>, s: int, stamp: Option<Seq<char>>) -> Option<ErrorView> {
    let short = ErrorView::OutOfBounds { byte: missing_byte(b.len() as int, s) };
    if !fits(b.len() as int, s, 4) {
        Some(short)
    } else if !has_pe_signature(b, s) {
        Some(ErrorView::InvalidMagic { header: "COFF"@, offset: s })
    } else if !fits(b.len() as int, s, COFF_HEADER_SZ as int) {
        Some(short)
    } else if stamp is None {
        Some(ErrorView::Malformed { reason: timestamp_reason() })
    } else {
        None
    }
}

/// The seconds field of a COFF header at `s`.
pub open spec fn stamp_secs(b: Seq<u8>, s: int) -> u32 {
    le_u32(b, s + 8) as u32
}

/// The error that decoding a COFF header at `s` in `b` ends with, or `None`.
pub open spec fn coff_error(b: Seq<u8>, s: int) -> Option<ErrorView> {
    coff_error_given(b, s, Some(utc_timestamp_text(stamp_secs(b, s))))
}

impl CoffHeader {
    /// Every field is the one stored in `b` for a header at `s`, with `stamp` as the
    /// text of its timestamp.
    pub open spec fn decoded_given(&self, b: Seq<u8>, s: int, stamp: Option<Seq<char>>) -> bool {
        &&& self.signature@ == decode_utf8(b.subrange(s, s + 4))
        &&& self.machine == le_u16(b, s + 4)
        &&& self.num_sections == le_u16(b, s + 6)
        &&& stamp == Some(self.timestamp@)
        &&& self.symbol_table == le_u32(b, s + 12)
        &&& self.num_symbols == le_u32(b, s + 16)
        &&& self.size_optional_header == le_u16(b, s + 20)
        &&& self.characteristics == le_u16(b, s + 22)
    }

    /// Every field is the one stored in `b` for a header at `s`.
    pub open spec fn decoded_from(&self, b: Seq<u8>, s: int) -> bool {
        self.decoded_given(b, s, Some(utc_timestamp_text(stamp_secs(b, s))))
    }

    /// Decodes the COFF header that starts at `start`.
    pub fn new(raw: &[u8], start: usize) -> (r: Result<Self, ParsingError>)
        ensures
            match r {
                Ok(h) => coff_error(raw@, start as int) is None && h.decoded_from(raw@, start as int),
                Err(e) => coff_error(raw@, start as int) == Some(e@),
            },
    {
        let stamp = if start <= raw.len() && raw.len() - start >= COFF_HEADER_SZ {
            let mut p: usize = start + 8;
            match read_dword(raw, &mut p) {
                Ok(secs) => utc_timestamp(secs),
                Err(_) => None,
            }
        } else {
            None
        };
        CoffHeader::with_timestamp(raw, start, stamp)
    }

    /// Decodes the COFF header that starts at `start`, taking `timestamp` as the text of
    /// its timestamp field.
    pub fn with_timestamp(raw: &[u8], start: usize, timestamp: Option<String>) -> (r: Result<
        Self,
        ParsingError,
    >)
        ensures
            ({
                let stamp = match timestamp {
                    Some(t) => Some(t@),
                    None => None,
                };
                match r {
                    Ok(h) => coff_error_given(raw@, start as int, stamp) is None && h.decoded_given(
                        raw@,
                        start as int,
                        stamp,
                    ),
                    Err(e) => coff_error_given(raw@, start as int, stamp) == Some(e@),
                }
            }),
    {
        let mut offset = start;
        let p = read_byte(raw, &mut offset)?;
        let e = read_byte(raw, &mut offset)?;
        let z0 = read_byte(raw, &mut offset)?;
        let z1 = read_byte(raw, &mut offset)?;
        if p != 0x50 || e != 0x45 || z0 != 0 || z1 != 0 {
            return Err(
                ParsingError::InvalidMagic { header: String::from_str("COFF"), offset: start },
            );
        }
        proof {
            assert(all_ascii(raw@.subrange(start as int, start + 4)));
            lemma_ascii_is_utf8(raw@.subrange(start as int, start + 4));
        }
        let mut q = start;
        let signature = read_utf8(raw, &mut q, 4)?;
        let machine = read_word(raw, &mut offset)?;
        let num_sections = read_word(raw, &mut offset)?;
        let _time_date_stamp = read_dword(raw, &mut offset)?;
        let symbol_table = read_dword(raw, &mut offset)?;
        let num_symbols = read_dword(raw, &mut offset)?;
        let size_optional_header = read_word(raw, &mut offset)?;
        let characteristics = read_word(raw, &mut offset)?;
        let timestamp = match timestamp {
            Some(t) => t,
            None => {
                return Err(malformed("timestamp cannot be represented as a calendar time"));
            },
        };
        Ok(CoffHeader {
            signature,
            machine,
            num_sections,
            timestamp,
            symbol_table,
            num_symbols,
            size_optional_header,
            characteristics,
        })
    }
}

} // verus!
