//! Encoding sniffing and per-character decoding.
//!
//! This module is the only place where byte order and character width are
//! known. The encoding of a stream is determined once, from its first bytes,
//! and is immutable thereafter; everything above this layer operates on
//! decoded Unicode scalar values.

use vstd::prelude::*;
use vstd::slice::slice_index_get;

verus! {

/// The character encodings a stream may use.
#[derive(Clone, Copy, PartialEq, Eq, Debug, Structural)]
pub enum Encoding {
    Ascii,
    Utf8,
    Utf16Be,
    Utf16Le,
}

impl Default for Encoding {
    /// Absent any evidence from the first bytes, a stream is read as UTF-8.
    fn default() -> (r: Self)
        ensures
            r == Encoding::Utf8,
    {
        Encoding::Utf8
    }
}

/// The outcome of decoding one character from the front of a byte sequence.
#[derive(Clone, Copy, PartialEq, Eq, Debug)]
pub enum Decoded {
    /// One scalar value and the number of bytes of its encoding.
    Scalar(char, usize),
    /// The sequence holds fewer bytes than the next character requires;
    /// more input is needed, which is not an error.
    NeedMore,
    /// The sequence can never begin a character in this encoding.
    Invalid,
}

/// A value a `char` can carry: any code point except the surrogate range.
pub open spec fn is_scalar_value(v: u32) -> bool {
    v < 0xD800 || (0xE000 <= v && v < 0x11_0000)
}

/// A UTF-8 continuation byte, of the form `10xxxxxx`.
pub open spec fn is_continuation(b: u8) -> bool {
    0x80 <= b && b < 0xC0
}

/// The first character of a UTF-8 byte sequence: width 1 to 4 from the
/// leading byte's prefix, continuation bytes checked, overlong encodings,
/// surrogates and values beyond the Unicode range rejected.
#[verifier::opaque]
pub open spec fn decode_utf8_spec(bytes: Seq<u8>) -> Decoded {
    if bytes.len() == 0 {
        Decoded::NeedMore
    } else {
        let b0 = bytes[0];
        if b0 < 0x80 {
            Decoded::Scalar(b0 as char, 1)
        } else if b0 < 0xC0 {
            Decoded::Invalid
        } else if b0 < 0xE0 {
            if bytes.len() < 2 {
                Decoded::NeedMore
            } else if !is_continuation(bytes[1]) {
                Decoded::Invalid
            } else {
                let v = ((b0 & 0x1F) as u32 * 0x40 + (bytes[1] & 0x3F) as u32) as u32;
                if v < 0x80 {
                    Decoded::Invalid
                } else {
                    Decoded::Scalar(v as char, 2)
                }
            }
        } else if b0 < 0xF0 {
            if bytes.len() < 3 {
                Decoded::NeedMore
            } else if !is_continuation(bytes[1]) || !is_continuation(bytes[2]) {
                Decoded::Invalid
            } else {
                let v = ((b0 & 0x0F) as u32 * 0x1000 + (bytes[1] & 0x3F) as u32 * 0x40 + (
                bytes[2] & 0x3F) as u32) as u32;
                if v < 0x800 || !is_scalar_value(v) {
                    Decoded::Invalid
                } else {
                    Decoded::Scalar(v as char, 3)
                }
            }
        } else if b0 < 0xF8 {
            if bytes.len() < 4 {
                Decoded::NeedMore
            } else if !is_continuation(bytes[1]) || !is_continuation(bytes[2])
                || !is_continuation(bytes[3]) {
                Decoded::Invalid
            } else {
                let v = ((b0 & 0x07) as u32 * 0x4_0000 + (bytes[1] & 0x3F) as u32 * 0x1000 + (
                bytes[2] & 0x3F) as u32 * 0x40 + (bytes[3] & 0x3F) as u32) as u32;
                if v < 0x1_0000 || v >= 0x11_0000 {
                    Decoded::Invalid
                } else {
                    Decoded::Scalar(v as char, 4)
                }
            }
        } else {
            Decoded::Invalid
        }
    }
}

/// One 16-bit code unit read in the given byte order.
pub open spec fn utf16_unit(hi_first: bool, b0: u8, b1: u8) -> u32 {
    if hi_first {
        (b0 as u32 * 0x100 + b1 as u32) as u32
    } else {
        (b1 as u32 * 0x100 + b0 as u32) as u32
    }
}

/// The first character of a UTF-16 byte sequence: one code unit outside the
/// surrogate range, or a high surrogate followed by a low surrogate jointly
/// encoding a character beyond the basic plane.
#[verifier::opaque]
pub open spec fn decode_utf16_spec(hi_first: bool, bytes: Seq<u8>) -> Decoded {
    if bytes.len() < 2 {
        Decoded::NeedMore
    } else {
        let u1 = utf16_unit(hi_first, bytes[0], bytes[1]);
        if u1 < 0xD800 || 0xE000 <= u1 {
            Decoded::Scalar(u1 as char, 2)
        } else if u1 < 0xDC00 {
            if bytes.len() < 4 {
                Decoded::NeedMore
            } else {
                let u2 = utf16_unit(hi_first, bytes[2], bytes[3]);
                if 0xDC00 <= u2 && u2 < 0xE000 {
                    let v = (0x1_0000 + (u1 - 0xD800) * 0x400 + (u2 - 0xDC00)) as u32;
                    Decoded::Scalar(v as char, 4)
                } else {
                    Decoded::Invalid
                }
            }
        } else {
            Decoded::Invalid
        }
    }
}

/// The first character of a byte sequence under the given encoding.
pub open spec fn decode_char_spec(enc: Encoding, bytes: Seq<u8>) -> Decoded {
    match enc {
        Encoding::Ascii => if bytes.len() == 0 {
            Decoded::NeedMore
        } else if bytes[0] < 0x80 {
            Decoded::Scalar(bytes[0] as char, 1)
        } else {
            Decoded::Invalid
        },
        Encoding::Utf8 => decode_utf8_spec(bytes),
        Encoding::Utf16Be => decode_utf16_spec(true, bytes),
        Encoding::Utf16Le => decode_utf16_spec(false, bytes),
    }
}

proof fn lemma_and_le(b: u8, m: u8)
    ensures
        (b & m) <= m,
{
    assert((b & m) <= m) by (bit_vector);
}

/// Relies on char::from_u32 of std: it returns `Some` exactly for code
/// points outside the surrogate range and within the Unicode range, and the
/// returned character carries the given value.
#[verifier::external_body]
fn char_from_u32(v: u32) -> (r: Option<char>)
    ensures
        r is Some <==> is_scalar_value(v),
        r matches Some(c) ==> c as u32 == v,
{
    char::from_u32(v)
}

/// Turns a scalar value known to be valid into its character.
fn scalar_to_char(v: u32) -> (c: char)
    requires
        is_scalar_value(v),
    ensures
        c == v as char,
{
    let r = char_from_u32(v);
    match r {
        Some(c) => {
            proof {
                vstd::utf8::char_u32_cast(c, v);
            }
            c
        },
        None => ' ',  // unreachable: the value is a scalar value
    }
}

/// Decodes the first character of `bytes` under `enc`.
pub fn decode_char(enc: Encoding, bytes: &[u8]) -> (r: Decoded)
    ensures
        r == decode_char_spec(enc, bytes@),
{
    match enc {
        Encoding::Ascii => {
            if bytes.len() == 0 {
                Decoded::NeedMore
            } else {
                let b0 = *slice_index_get(bytes, 0);
                if b0 < 0x80 {
                    Decoded::Scalar(b0 as char, 1)
                } else {
                    Decoded::Invalid
                }
            }
        },
        Encoding::Utf8 => decode_utf8(bytes),
        Encoding::Utf16Be => decode_utf16(true, bytes),
        Encoding::Utf16Le => decode_utf16(false, bytes),
    }
}

fn decode_utf8(bytes: &[u8]) -> (r: Decoded)
    ensures
        r == decode_utf8_spec(bytes@),
{
    proof {
        reveal(decode_utf8_spec);
    }
    if bytes.len() == 0 {
        return Decoded::NeedMore;
    }
    let b0 = *slice_index_get(bytes, 0);
    if b0 < 0x80 {
        Decoded::Scalar(b0 as char, 1)
    } else if b0 < 0xC0 {
        Decoded::Invalid
    } else if b0 < 0xE0 {
        if bytes.len() < 2 {
            return Decoded::NeedMore;
        }
        let b1 = *slice_index_get(bytes, 1);
        if !(0x80 <= b1 && b1 < 0xC0) {
            return Decoded::Invalid;
        }
        proof {
            lemma_and_le(b0, 0x1F);
            lemma_and_le(b1, 0x3F);
        }
        let v: u32 = (b0 & 0x1F) as u32 * 0x40 + (b1 & 0x3F) as u32;
        if v < 0x80 {
            Decoded::Invalid
        } else {
            Decoded::Scalar(scalar_to_char(v), 2)
        }
    } else if b0 < 0xF0 {
        if bytes.len() < 3 {
            return Decoded::NeedMore;
        }
        let b1 = *slice_index_get(bytes, 1);
        let b2 = *slice_index_get(bytes, 2);
        if !(0x80 <= b1 && b1 < 0xC0) || !(0x80 <= b2 && b2 < 0xC0) {
            return Decoded::Invalid;
        }
        proof {
            lemma_and_le(b0, 0x0F);
            lemma_and_le(b1, 0x3F);
            lemma_and_le(b2, 0x3F);
        }
        let v: u32 = (b0 & 0x0F) as u32 * 0x1000 + (b1 & 0x3F) as u32 * 0x40 + (b2 & 0x3F) as u32;
        if v < 0x800 || (0xD800 <= v && v < 0xE000) {
            Decoded::Invalid
        } else {
            Decoded::Scalar(scalar_to_char(v), 3)
        }
    } else if b0 < 0xF8 {
        if bytes.len() < 4 {
            return Decoded::NeedMore;
        }
        let b1 = *slice_index_get(bytes, 1);
        let b2 = *slice_index_get(bytes, 2);
        let b3 = *slice_index_get(bytes, 3);
        if !(0x80 <= b1 && b1 < 0xC0) || !(0x80 <= b2 && b2 < 0xC0) || !(0x80 <= b3 && b3 < 0xC0) {
            return Decoded::Invalid;
        }
        proof {
            lemma_and_le(b0, 0x07);
            lemma_and_le(b1, 0x3F);
            lemma_and_le(b2, 0x3F);
            lemma_and_le(b3, 0x3F);
        }
        let v: u32 = (b0 & 0x07) as u32 * 0x4_0000 + (b1 & 0x3F) as u32 * 0x1000 + (b2
            & 0x3F) as u32 * 0x40 + (b3 & 0x3F) as u32;
        if v < 0x1_0000 || v >= 0x11_0000 {
            Decoded::Invalid
        } else {
            Decoded::Scalar(scalar_to_char(v), 4)
        }
    } else {
        Decoded::Invalid
    }
}

fn decode_utf16(hi_first: bool, bytes: &[u8]) -> (r: Decoded)
    ensures
        r == decode_utf16_spec(hi_first, bytes@),
{
    proof {
        reveal(decode_utf16_spec);
    }
    if bytes.len() < 2 {
        return Decoded::NeedMore;
    }
    let b0 = *slice_index_get(bytes, 0);
    let b1 = *slice_index_get(bytes, 1);
    let u1: u32 = if hi_first {
        b0 as u32 * 0x100 + b1 as u32
    } else {
        b1 as u32 * 0x100 + b0 as u32
    };
    if u1 < 0xD800 || 0xE000 <= u1 {
        Decoded::Scalar(scalar_to_char(u1), 2)
    } else if u1 < 0xDC00 {
        if bytes.len() < 4 {
            return Decoded::NeedMore;
        }
        let b2 = *slice_index_get(bytes, 2);
        let b3 = *slice_index_get(bytes, 3);
        let u2: u32 = if hi_first {
            b2 as u32 * 0x100 + b3 as u32
        } else {
            b3 as u32 * 0x100 + b2 as u32
        };
        if 0xDC00 <= u2 && u2 < 0xE000 {
            let v: u32 = 0x1_0000 + (u1 - 0xD800) * 0x400 + (u2 - 0xDC00);
            Decoded::Scalar(scalar_to_char(v), 4)
        } else {
            Decoded::Invalid
        }
    } else {
        Decoded::Invalid
    }
}

/// The bytes that one ASCII character occupies in the given encoding.
pub open spec fn unit_spec(enc: Encoding, b: u8) -> Seq<u8> {
    match enc {
        Encoding::Ascii => seq![b],
        Encoding::Utf8 => seq![b],
        Encoding::Utf16Be => seq![0u8, b],
        Encoding::Utf16Le => seq![b, 0u8],
    }
}

/// The bytes that a run of ASCII characters occupies in the given encoding.
pub open spec fn widen_spec(enc: Encoding, lit: Seq<u8>) -> Seq<u8>
    decreases lit.len(),
{
    if lit.len() == 0 {
        seq![]
    } else {
        unit_spec(enc, lit[0]) + widen_spec(enc, lit.skip(1))
    }
}

proof fn lemma_widen_snoc(enc: Encoding, lit: Seq<u8>, b: u8)
    ensures
        widen_spec(enc, lit + seq![b]) == widen_spec(enc, lit) + unit_spec(enc, b),
    decreases lit.len(),
{
    if lit.len() == 0 {
        let ext = lit + seq![b];
        assert(ext =~= seq![b]);
        assert(ext.len() == 1 && ext[0] == b);
        assert(ext.skip(1) =~= Seq::<u8>::empty());
        assert(widen_spec(enc, ext) == unit_spec(enc, b) + widen_spec(enc, ext.skip(1)));
        assert(widen_spec(enc, ext.skip(1)) == Seq::<u8>::empty());
        assert(widen_spec(enc, lit) == Seq::<u8>::empty());
        assert(widen_spec(enc, ext) =~= widen_spec(enc, lit) + unit_spec(enc, b));
    } else {
        let ext = lit + seq![b];
        assert(ext.len() == lit.len() + 1);
        assert(ext[0] == lit[0]);
        assert(ext.skip(1) =~= lit.skip(1) + seq![b]);
        lemma_widen_snoc(enc, lit.skip(1), b);
        assert(widen_spec(enc, ext) == unit_spec(enc, ext[0]) + widen_spec(enc, ext.skip(1)));
        assert(widen_spec(enc, lit) == unit_spec(enc, lit[0]) + widen_spec(enc, lit.skip(1)));
        assert(widen_spec(enc, ext) =~= widen_spec(enc, lit) + unit_spec(enc, b));
    }
}

/// Each byte of the literal occupies one or two bytes of its encoding.
pub proof fn lemma_widen_len(enc: Encoding, lit: Seq<u8>)
    ensures
        lit.len() <= widen_spec(enc, lit).len() <= 2 * lit.len(),
    decreases lit.len(),
{
    if lit.len() > 0 {
        lemma_widen_len(enc, lit.skip(1));
    }
}

/// Encodes a run of ASCII bytes, one unit per character, in the given
/// encoding; punctuation is matched against the result, so recognition is
/// identical across all supported encodings.
pub fn widen(enc: Encoding, lit: &Vec<u8>) -> (r: Vec<u8>)
    ensures
        r@ == widen_spec(enc, lit@),
{
    let mut out: Vec<u8> = Vec::new();
    let mut i: usize = 0;
    while i < lit.len()
        invariant
            i <= lit.len(),
            out@ == widen_spec(enc, lit@.take(i as int)),
        decreases lit.len() - i,
    {
        let b = lit[i];
        match enc {
            Encoding::Ascii => {
                out.push(b);
            },
            Encoding::Utf8 => {
                out.push(b);
            },
            Encoding::Utf16Be => {
                out.push(0);
                out.push(b);
            },
            Encoding::Utf16Le => {
                out.push(b);
                out.push(0);
            },
        }
        proof {
            assert(lit@.take(i + 1 as int) =~= lit@.take(i as int) + seq![lit@[i as int]]);
            lemma_widen_snoc(enc, lit@.take(i as int), lit@[i as int]);
            assert(out@ =~= widen_spec(enc, lit@.take(i + 1 as int)));
        }
        i = i + 1;
    }
    proof {
        assert(lit@.take(lit@.len() as int) =~= lit@);
    }
    out
}

/// The byte-order mark of each encoding; ASCII has none.
pub open spec fn bom_of(enc: Encoding) -> Seq<u8> {
    match enc {
        Encoding::Ascii => seq![],
        Encoding::Utf8 => seq![0xEFu8, 0xBBu8, 0xBFu8],
        Encoding::Utf16Be => seq![0xFEu8, 0xFFu8],
        Encoding::Utf16Le => seq![0xFFu8, 0xFEu8],
    }
}

/// The encoding detected from the first bytes of a stream, and the length
/// of the byte-order mark to skip. A BOM wins; absent one, the byte pattern
/// of an encoded `<?` betrays a UTF-16 stream, and ASCII `<?xm` an ASCII
/// one; everything else defaults to UTF-8 with nothing skipped.
pub open spec fn detect_spec(bytes: Seq<u8>) -> (Encoding, nat) {
    if bytes.len() >= 2 && bytes[0] == 0xFE && bytes[1] == 0xFF {
        (Encoding::Utf16Be, 2)
    } else if bytes.len() >= 2 && bytes[0] == 0xFF && bytes[1] == 0xFE {
        (Encoding::Utf16Le, 2)
    } else if bytes.len() >= 3 && bytes[0] == 0xEF && bytes[1] == 0xBB && bytes[2] == 0xBF {
        (Encoding::Utf8, 3)
    } else if bytes.len() >= 4 && bytes[0] == 0x00 && bytes[1] == 0x3C && bytes[2] == 0x00
        && bytes[3] == 0x3F {
        (Encoding::Utf16Be, 0)
    } else if bytes.len() >= 4 && bytes[0] == 0x3C && bytes[1] == 0x00 && bytes[2] == 0x3F
        && bytes[3] == 0x00 {
        (Encoding::Utf16Le, 0)
    } else if bytes.len() >= 4 && bytes[0] == 0x3C && bytes[1] == 0x3F && bytes[2] == 0x78
        && bytes[3] == 0x6D {
        (Encoding::Ascii, 0)
    } else {
        (Encoding::Utf8, 0)
    }
}

/// Detects the encoding from the first bytes of a stream.
pub fn detect(bytes: &[u8]) -> (r: (Encoding, usize))
    ensures
        r.0 == detect_spec(bytes@).0,
        r.1 as nat == detect_spec(bytes@).1,
{
    let n = bytes.len();
    if n >= 2 && *slice_index_get(bytes, 0) == 0xFE && *slice_index_get(bytes, 1) == 0xFF {
        (Encoding::Utf16Be, 2)
    } else if n >= 2 && *slice_index_get(bytes, 0) == 0xFF && *slice_index_get(bytes, 1) == 0xFE {
        (Encoding::Utf16Le, 2)
    } else if n >= 3 && *slice_index_get(bytes, 0) == 0xEF && *slice_index_get(bytes, 1) == 0xBB
        && *slice_index_get(bytes, 2) == 0xBF {
        (Encoding::Utf8, 3)
    } else if n >= 4 && *slice_index_get(bytes, 0) == 0x00 && *slice_index_get(bytes, 1) == 0x3C
        && *slice_index_get(bytes, 2) == 0x00 && *slice_index_get(bytes, 3) == 0x3F {
        (Encoding::Utf16Be, 0)
    } else if n >= 4 && *slice_index_get(bytes, 0) == 0x3C && *slice_index_get(bytes, 1) == 0x00
        && *slice_index_get(bytes, 2) == 0x3F && *slice_index_get(bytes, 3) == 0x00 {
        (Encoding::Utf16Le, 0)
    } else if n >= 4 && *slice_index_get(bytes, 0) == 0x3C && *slice_index_get(bytes, 1) == 0x3F
        && *slice_index_get(bytes, 2) == 0x78 && *slice_index_get(bytes, 3) == 0x6D {
        (Encoding::Ascii, 0)
    } else {
        (Encoding::Utf8, 0)
    }
}

/// Detection looks at no byte past the fourth, so any window of at least
/// four bytes, or the whole stream if it is shorter, settles it.
pub proof fn lemma_detect_prefix(window: Seq<u8>, full: Seq<u8>)
    requires
        window.len() <= full.len(),
        window == full.take(window.len() as int),
        window.len() >= 4 || window == full,
    ensures
        detect_spec(window) == detect_spec(full),
{
    assert(forall|i: int| 0 <= i < window.len() ==> window[i] == full[i]);
}

/// How many bytes one character occupies, at most, in any encoding.
pub open spec fn max_char_width() -> nat {
    4
}

/// Decoding looks at no byte past the width of the first character, and
/// reports `NeedMore` only within the first four bytes, so any window of at
/// least four bytes, or the whole stream if it is shorter, settles it.
pub proof fn lemma_decode_prefix(enc: Encoding, window: Seq<u8>, full: Seq<u8>)
    requires
        window.len() <= full.len(),
        window == full.take(window.len() as int),
        window.len() >= max_char_width() || window == full,
    ensures
        decode_char_spec(enc, window) == decode_char_spec(enc, full),
{
    reveal(decode_utf8_spec);
    reveal(decode_utf16_spec);
    assert(forall|i: int| 0 <= i < window.len() ==> window[i] == full[i]);
}

} // verus!
