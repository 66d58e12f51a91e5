//! Decoding of document bytes: UTF-16 in either byte order where a
//! byte-order mark says so, UTF-8 otherwise.
use vstd::prelude::*;

verus! {

/// Why bytes could not be decoded to text.
#[derive(Debug, PartialEq, Eq, Structural)]
pub enum DecodeError {
    /// A byte-order mark announced 16-bit units, but an odd byte is left over.
    OddLength,
    /// The 16-bit units are not valid UTF-16.
    InvalidUtf16,
    /// The bytes are not valid UTF-8.
    InvalidUtf8,
}

/// What `String::from_utf16` makes of a sequence of code units: the text,
/// or nothing where they are not valid UTF-16.
pub uninterp spec fn utf16_text(units: Seq<u16>) -> Option<Seq<char>>;

/// What `String::from_utf8` makes of bytes: the text, or nothing where they
/// are not valid UTF-8.
pub uninterp spec fn utf8_text(bytes: Seq<u8>) -> Option<Seq<char>>;

/// Relies on `String::from_utf16`: decodes code units, failing on invalid
/// UTF-16.
#[verifier::external_body]
fn from_utf16(units: &[u16]) -> (r: Option<String>)
    ensures
        match r {
            Some(s) => utf16_text(units@) == Some(s@),
            None => utf16_text(units@) is None,
        },
{
    String::from_utf16(units).ok()
}

/// Relies on `String::from_utf8`: decodes bytes, failing on invalid UTF-8.
#[verifier::external_body]
fn from_utf8(bytes: &[u8]) -> (r: Option<String>)
    ensures
        match r {
            Some(s) => utf8_text(bytes@) == Some(s@),
            None => utf8_text(bytes@) is None,
        },
{
    String::from_utf8(bytes.to_vec()).ok()
}

/// The 16-bit unit that the bytes `hi`, `lo` make.
pub open spec fn unit_of(hi: u8, lo: u8) -> u16 {
    (hi as int * 256 + lo as int) as u16
}

/// The code units after the two-byte mark, read in pairs, big-endian where
/// `big` holds and little-endian otherwise; an odd last byte is not read.
pub open spec fn units_after_mark(b: Seq<u8>, big: bool) -> Seq<u16> {
    Seq::new(
        ((b.len() - 2) / 2) as nat,
        |i: int|
            if big {
                unit_of(b[2 + 2 * i], b[3 + 2 * i])
            } else {
                unit_of(b[3 + 2 * i], b[2 + 2 * i])
            },
    )
}

/// Whether `b` opens with the two bytes `first`, `second`.
pub open spec fn has_mark(b: Seq<u8>, first: u8, second: u8) -> bool {
    b.len() >= 2 && b[0] == first && b[1] == second
}

/// The text that bytes hold: `FE FF` opens big-endian UTF-16 and `FF FE`
/// little-endian UTF-16, the mark itself not being part of the text; all
/// other bytes are UTF-8.
pub open spec fn decoded(b: Seq<u8>) -> Result<Seq<char>, DecodeError> {
    if has_mark(b, 0xfe, 0xff) || has_mark(b, 0xff, 0xfe) {
        if b.len() % 2 == 1 {
            Err(DecodeError::OddLength)
        } else {
            match utf16_text(units_after_mark(b, b[0] == 0xfe)) {
                Some(t) => Ok(t),
                None => Err(DecodeError::InvalidUtf16),
            }
        }
    } else {
        match utf8_text(b) {
            Some(t) => Ok(t),
            None => Err(DecodeError::InvalidUtf8),
        }
    }
}

/// `FE FF` announces big-endian and `FF FE` little-endian 16-bit units,
/// which must come in whole pairs; all other bytes are read as UTF-8.
pub proof fn law_decode_by_mark(b: Seq<u8>)
    ensures
        has_mark(b, 0xfe, 0xff) && b.len() % 2 == 0 ==> decoded(b) == match utf16_text(units_after_mark(b, true)) {
            Some(t) => Ok(t),
            None => Err(DecodeError::InvalidUtf16),
        },
        has_mark(b, 0xff, 0xfe) && b.len() % 2 == 0 ==> decoded(b) == match utf16_text(units_after_mark(b, false)) {
            Some(t) => Ok(t),
            None => Err(DecodeError::InvalidUtf16),
        },
        (has_mark(b, 0xfe, 0xff) || has_mark(b, 0xff, 0xfe)) && b.len() % 2 == 1 ==> decoded(b) == Err::<Seq<char>, DecodeError>(DecodeError::OddLength),
        !has_mark(b, 0xfe, 0xff) && !has_mark(b, 0xff, 0xfe) ==> decoded(b) == match utf8_text(b) {
            Some(t) => Ok(t),
            None => Err(DecodeError::InvalidUtf8),
        },
{
}

fn units_of(b: &[u8], big: bool) -> (r: Vec<u16>)
    requires
        b@.len() >= 2,
    ensures
        r@ == units_after_mark(b@, big),
{
    let mut r: Vec<u16> = Vec::new();
    let n: usize = (b.len() - 2) / 2;
    let mut i: usize = 0;
    assert(2 * n + 2 <= b@.len()) by (nonlinear_arith)
        requires
            n == (b@.len() - 2) / 2,
            b@.len() >= 2,
    ;
    while i < n
        invariant
            n == (b@.len() - 2) / 2,
            b@.len() >= 2,
            2 * n + 2 <= b@.len(),
            b@.len() == b.len(),
            i <= n,
            r@ =~= units_after_mark(b@, big).subrange(0, i as int),
        decreases n - i,
    {
        let j: usize = 2 + 2 * i;
        let (hi, lo) = if big {
            (b[j], b[j + 1])
        } else {
            (b[j + 1], b[j])
        };
        let u: u16 = (hi as u16) * 256 + (lo as u16);
        r.push(u);
        i += 1;
    }
    r
}

/// Decodes document bytes to text, as `decoded` says.
pub fn decode_text(b: &[u8]) -> (r: Result<String, DecodeError>)
    ensures
        match r {
            Ok(s) => decoded(b@) == Ok::<Seq<char>, DecodeError>(s@),
            Err(e) => decoded(b@) == Err::<Seq<char>, DecodeError>(e),
        },
{
    let marked = b.len() >= 2 && ((b[0] == 0xfe && b[1] == 0xff) || (b[0] == 0xff && b[1] == 0xfe));
    if marked {
        if b.len() % 2 == 1 {
            return Err(DecodeError::OddLength);
        }
        let units = units_of(b, b[0] == 0xfe);
        match from_utf16(units.as_slice()) {
            Some(s) => Ok(s),
            None => Err(DecodeError::InvalidUtf16),
        }
    } else {
        match from_utf8(b) {
            Some(s) => Ok(s),
            None => Err(DecodeError::InvalidUtf8),
        }
    }
}

} // verus!
