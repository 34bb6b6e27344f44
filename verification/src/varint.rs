//! Variable-length integer codec used by the UMP framed transport.
//!
//! An encoded integer occupies 1 to 5 bytes; the number of leading one bits
//! of the first byte gives the width.  A first byte of `0xF8` or above
//! (a run of more than four leading ones) is invalid.

use vstd::prelude::*;

verus! {

/// Error raised by the varint and UMP frame readers.
#[derive(Clone, Copy, Debug, PartialEq, Eq, Structural)]
pub enum UmpError {
    /// The bytes do not form a valid encoding.
    InvalidData,
    /// More bytes are needed to complete the encoding.
    UnexpectedEof,
}

/// Width in bytes of a varint whose first byte is `prefix`; 0 when the
/// prefix has more than four leading one bits and is invalid.
pub open spec fn varint_width(prefix: u8) -> int {
    if prefix < 128 {
        1
    } else if prefix < 192 {
        2
    } else if prefix < 224 {
        3
    } else if prefix < 240 {
        4
    } else if prefix < 248 {
        5
    } else {
        0
    }
}

/// Value of the varint starting at the head of `s`, assuming `s` holds at
/// least `varint_width(s[0])` bytes and the width is not 0.
pub open spec fn varint_value(s: Seq<u8>) -> nat {
    let w = varint_width(s[0]);
    if w == 1 {
        s[0] as nat
    } else if w == 2 {
        (s[0] as nat % 64) + 64 * (s[1] as nat)
    } else if w == 3 {
        (s[0] as nat % 32) + 32 * ((s[1] as nat) + 256 * (s[2] as nat))
    } else if w == 4 {
        (s[0] as nat % 16) + 16 * ((s[1] as nat) + 256 * ((s[2] as nat) + 256 * (s[3] as nat)))
    } else {
        (s[1] as nat) + 256 * ((s[2] as nat) + 256 * ((s[3] as nat) + 256 * (s[4] as nat)))
    }
}

/// True when a whole varint is present at offset `off` of `s`.
pub open spec fn varint_complete_at(s: Seq<u8>, off: int) -> bool {
    off < s.len() && varint_width(s[off]) != 0 && off + varint_width(s[off]) <= s.len()
}

/// Smallest encoding width able to carry `v`.
pub open spec fn varint_width_for(v: u32) -> int {
    if v < 128 {
        1
    } else if v < 16384 {
        2
    } else if v < 2097152 {
        3
    } else if v < 268435456 {
        4
    } else {
        5
    }
}

/// Canonical encoding of `v`: the shortest byte sequence that decodes to `v`.
pub open spec fn varint_encoding(v: u32) -> Seq<u8> {
    let w = varint_width_for(v);
    if w == 1 {
        seq![v as u8]
    } else if w == 2 {
        seq![(128 + v % 64) as u8, (v / 64) as u8]
    } else if w == 3 {
        seq![(192 + v % 32) as u8, ((v / 32) % 256) as u8, (v / 8192) as u8]
    } else if w == 4 {
        seq![
            (224 + v % 16) as u8,
            ((v / 16) % 256) as u8,
            ((v / 4096) % 256) as u8,
            (v / 1048576) as u8,
        ]
    } else {
        seq![
            240u8,
            (v % 256) as u8,
            ((v / 256) % 256) as u8,
            ((v / 65536) % 256) as u8,
            (v / 16777216) as u8,
        ]
    }
}

/// Reads one byte of `buf` at `*pos` and advances the position.
pub fn read_buf(buf: &[u8], pos: &mut usize) -> (byte: u8)
    requires
        *old(pos) < buf@.len(),
    ensures
        byte == buf@[*old(pos) as int],
        *final(pos) == *old(pos) + 1,
{
    let byte = buf[*pos];
    *pos = *pos + 1;
    byte
}

/// Decodes the varint found at offset `offset` of `buf`.  Returns the value
/// and the number of bytes the encoding occupies.  Fails with `InvalidData`
/// when the first byte has more than four leading one bits, and with
/// `UnexpectedEof` when fewer bytes remain than the indicated width.
pub fn read_variable_integer(buf: &[u8], offset: usize) -> (r: Result<(u32, usize), UmpError>)
    ensures
        match r {
            Ok((value, size)) => {
                &&& varint_complete_at(buf@, offset as int)
                &&& size == varint_width(buf@[offset as int])
                &&& value == varint_value(buf@.skip(offset as int))
            },
            Err(UmpError::InvalidData) => {
                offset < buf@.len() && varint_width(buf@[offset as int]) == 0
            },
            Err(UmpError::UnexpectedEof) => {
                offset >= buf@.len() || (varint_width(buf@[offset as int]) != 0
                    && offset + varint_width(buf@[offset as int]) > buf@.len())
            },
        },
{
    if offset >= buf.len() {
        return Err(UmpError::UnexpectedEof);
    }
    let prefix = buf[offset];
    let size: usize = if prefix < 128 {
        1
    } else if prefix < 192 {
        2
    } else if prefix < 224 {
        3
    } else if prefix < 240 {
        4
    } else if prefix < 248 {
        5
    } else {
        return Err(UmpError::InvalidData);
    };
    if buf.len() - offset < size {
        return Err(UmpError::UnexpectedEof);
    }
    let value: u32 = if size == 1 {
        prefix as u32
    } else if size == 2 {
        (prefix % 64) as u32 + 64 * (buf[offset + 1] as u32)
    } else if size == 3 {
        (prefix % 32) as u32 + 32 * ((buf[offset + 1] as u32) + 256 * (buf[offset + 2] as u32))
    } else if size == 4 {
        (prefix % 16) as u32 + 16 * ((buf[offset + 1] as u32) + 256 * ((buf[offset + 2] as u32)
            + 256 * (buf[offset + 3] as u32)))
    } else {
        (buf[offset + 1] as u32) + 256 * ((buf[offset + 2] as u32) + 256 * ((buf[offset
            + 3] as u32) + 256 * (buf[offset + 4] as u32)))
    };
    Ok((value, size))
}

/// Encodes `v` in the shortest varint form.
pub fn write_variable_integer(v: u32) -> (r: Vec<u8>)
    ensures
        r@ == varint_encoding(v),
{
    let mut out: Vec<u8> = Vec::new();
    if v < 128 {
        out.push(v as u8);
    } else if v < 16384 {
        out.push(128 + (v % 64) as u8);
        out.push((v / 64) as u8);
    } else if v < 2097152 {
        out.push(192 + (v % 32) as u8);
        out.push(((v / 32) % 256) as u8);
        out.push((v / 8192) as u8);
    } else if v < 268435456 {
        out.push(224 + (v % 16) as u8);
        out.push(((v / 16) % 256) as u8);
        out.push(((v / 4096) % 256) as u8);
        out.push((v / 1048576) as u8);
    } else {
        out.push(240u8);
        out.push((v % 256) as u8);
        out.push(((v / 256) % 256) as u8);
        out.push(((v / 65536) % 256) as u8);
        out.push((v / 16777216) as u8);
    }
    proof {
        assert(out@ =~= varint_encoding(v));
    }
    out
}

/// Round trip: every 32-bit value decodes from its canonical encoding to
/// itself, and the consumed width is the encoded width.
pub proof fn lemma_varint_round_trip(v: u32)
    ensures
        varint_encoding(v).len() == varint_width_for(v),
        varint_width(varint_encoding(v)[0]) == varint_width_for(v),
        varint_value(varint_encoding(v)) == v,
{
    let e = varint_encoding(v);
    if v < 128 {
    } else if v < 16384 {
        assert(varint_value(e) == (128 + v % 64) % 64 + 64 * (v / 64));
        assert((128 + v % 64) % 64 == v % 64) by {
            assert(v % 64 < 64);
        }
        assert(v % 64 + 64 * (v / 64) == v) by {
            vstd::arithmetic::div_mod::lemma_fundamental_div_mod(v as int, 64);
        }
    } else if v < 2097152 {
        assert((192 + v % 32) % 64 == v % 32) by {
            assert(v % 32 < 32);
        }
        assert(192 + v % 32 < 224);
        assert(varint_value(e) == v % 32 + 32 * ((v / 32) % 256 + 256 * (v / 8192)));
        assert((v / 32) % 256 + 256 * ((v / 32) / 256) == v / 32) by {
            vstd::arithmetic::div_mod::lemma_fundamental_div_mod((v / 32) as int, 256);
        }
        assert((v / 32) / 256 == v / 8192) by {
            vstd::arithmetic::div_mod::lemma_div_denominator(v as int, 32, 256);
        }
        assert(v % 32 + 32 * (v / 32) == v) by {
            vstd::arithmetic::div_mod::lemma_fundamental_div_mod(v as int, 32);
        }
        assert(v % 32 + 32 * ((v / 32) % 256 + 256 * (v / 8192)) == v) by {
            assert((v / 32) % 256 + 256 * (v / 8192) == v / 32);
        }
    } else if v < 268435456 {
        assert((224 + v % 16) % 16 == v % 16) by {
            assert(v % 16 < 16);
        }
        assert(224 + v % 16 < 240);
        assert(varint_value(e) == v % 16 + 16 * ((v / 16) % 256 + 256 * ((v / 4096) % 256 + 256
            * (v / 1048576))));
        assert((v / 16) / 256 == v / 4096) by {
            vstd::arithmetic::div_mod::lemma_div_denominator(v as int, 16, 256);
        }
        assert((v / 4096) / 256 == v / 1048576) by {
            vstd::arithmetic::div_mod::lemma_div_denominator(v as int, 4096, 256);
        }
        assert((v / 4096) % 256 + 256 * (v / 1048576) == v / 4096) by {
            vstd::arithmetic::div_mod::lemma_fundamental_div_mod((v / 4096) as int, 256);
        }
        assert((v / 16) % 256 + 256 * (v / 4096) == v / 16) by {
            vstd::arithmetic::div_mod::lemma_fundamental_div_mod((v / 16) as int, 256);
        }
        assert(v % 16 + 16 * (v / 16) == v) by {
            vstd::arithmetic::div_mod::lemma_fundamental_div_mod(v as int, 16);
        }
    } else {
        assert(varint_value(e) == v % 256 + 256 * ((v / 256) % 256 + 256 * ((v / 65536) % 256
            + 256 * (v / 16777216))));
        assert((v / 256) / 256 == v / 65536) by {
            vstd::arithmetic::div_mod::lemma_div_denominator(v as int, 256, 256);
        }
        assert((v / 65536) / 256 == v / 16777216) by {
            vstd::arithmetic::div_mod::lemma_div_denominator(v as int, 65536, 256);
        }
        assert(v / 16777216 < 256);
        assert((v / 65536) % 256 + 256 * (v / 16777216) == v / 65536) by {
            vstd::arithmetic::div_mod::lemma_fundamental_div_mod((v / 65536) as int, 256);
        }
        assert((v / 256) % 256 + 256 * (v / 65536) == v / 256) by {
            vstd::arithmetic::div_mod::lemma_fundamental_div_mod((v / 256) as int, 256);
        }
        assert(v % 256 + 256 * (v / 256) == v) by {
            vstd::arithmetic::div_mod::lemma_fundamental_div_mod(v as int, 256);
        }
    }
}

} // verus!
