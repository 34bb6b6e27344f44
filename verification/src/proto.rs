//! Protocol-Buffers wire format primitives: base-128 varints, field tags,
//! length-delimited payloads, and a generic fold over the fields of an
//! encoded message.  The SABR request and response messages are encoded and
//! decoded with these.

use vstd::prelude::*;

verus! {

/// Number of bytes of the varint at `off`: one plus the run of bytes with
/// their continuation bit set, at most `fuel` bytes considered.
pub open spec fn pb_len(s: Seq<u8>, off: int, fuel: int) -> Option<int>
    decreases fuel,
{
    if fuel <= 0 || off < 0 || off >= s.len() {
        None
    } else if s[off] < 128 {
        Some(1)
    } else {
        match pb_len(s, off + 1, fuel - 1) {
            Some(n) => Some(n + 1),
            None => None,
        }
    }
}

/// Base-128 value of `n` bytes at `off`, least significant group first,
/// taking the low seven bits of each byte.
pub open spec fn pb_val(s: Seq<u8>, off: int, n: int) -> nat
    decreases n,
{
    if n <= 0 {
        0
    } else {
        (s[off] as nat % 128) + 128 * pb_val(s, off + 1, n - 1)
    }
}

/// The varint at `off`: its value truncated to 64 bits, and its width.
/// `None` when the bytes run out or the encoding exceeds ten bytes.
pub open spec fn pb_varint_at(s: Seq<u8>, off: int) -> Option<(u64, int)> {
    match pb_len(s, off, 10) {
        Some(n) => Some(((pb_val(s, off, n) % 0x1_0000_0000_0000_0000) as u64, n)),
        None => None,
    }
}

/// 128 to the power `n`.
pub open spec fn pow128(n: int) -> nat
    decreases n,
{
    if n <= 0 {
        1
    } else {
        128 * pow128(n - 1)
    }
}

proof fn lemma_pb_val_bound(s: Seq<u8>, off: int, n: int)
    ensures
        pb_val(s, off, n) < pow128(n) || n <= 0,
    decreases n,
{
    if n > 0 {
        lemma_pb_val_bound(s, off + 1, n - 1);
        if n - 1 <= 0 {
            assert(pb_val(s, off + 1, n - 1) == 0);
        }
        assert((s[off] as nat % 128) + 128 * pb_val(s, off + 1, n - 1) < 128 * pow128(n - 1)) by (
        nonlinear_arith)
            requires
                pb_val(s, off + 1, n - 1) < pow128(n - 1),
                s[off] as nat % 128 < 128,
        ;
    }
}

/// A found varint lies within the byte string and has positive width.
pub proof fn lemma_pb_len_bounds(s: Seq<u8>, off: int, fuel: int)
    ensures
        match pb_len(s, off, fuel) {
            Some(n) => 1 <= n <= fuel && off + n <= s.len() && s[off + n - 1] < 128,
            None => true,
        },
    decreases fuel,
{
    if !(fuel <= 0 || off < 0 || off >= s.len()) {
        if s[off] >= 128 {
            lemma_pb_len_bounds(s, off + 1, fuel - 1);
        }
    }
}

proof fn lemma_pb_len_run(s: Seq<u8>, off: int, k: int, fuel: int)
    requires
        0 <= off,
        0 <= k < fuel,
        off + k < s.len(),
        forall|j: int| off <= j < off + k ==> #[trigger] s[j] >= 128,
        s[off + k] < 128,
    ensures
        pb_len(s, off, fuel) == Some(k + 1),
    decreases k,
{
    if k > 0 {
        assert(s[off] >= 128);
        lemma_pb_len_run(s, off + 1, k - 1, fuel - 1);
    }
}

proof fn lemma_pb_len_run_none(s: Seq<u8>, off: int, k: int, fuel: int)
    requires
        0 <= off,
        0 < fuel <= k,
        off + k <= s.len(),
        forall|j: int| off <= j < off + k ==> #[trigger] s[j] >= 128,
    ensures
        pb_len(s, off, fuel) == None::<int>,
    decreases fuel,
{
    assert(s[off] >= 128);
    if fuel > 1 {
        lemma_pb_len_run_none(s, off + 1, k - 1, fuel - 1);
    } else {
        assert(pb_len(s, off + 1, 0) == None::<int>);
    }
}

proof fn lemma_pb_len_run_short(s: Seq<u8>, off: int, fuel: int)
    requires
        0 <= off,
        forall|j: int| off <= j < s.len() ==> #[trigger] s[j] >= 128,
    ensures
        pb_len(s, off, fuel) == None::<int>,
    decreases fuel,
{
    if !(fuel <= 0 || off < 0 || off >= s.len()) {
        lemma_pb_len_run_short(s, off + 1, fuel - 1);
    }
}

/// Reads the varint at `off`.  Returns its 64-bit value and its width, or
/// `None` on truncated input or an encoding longer than ten bytes.
pub fn read_pb_varint(data: &[u8], off: usize) -> (r: Option<(u64, usize)>)
    requires
        off <= data@.len(),
    ensures
        match r {
            Some((v, n)) => {
                &&& pb_varint_at(data@, off as int) == Some((v, n as int))
                &&& 1 <= n <= 10
                &&& off + n <= data@.len()
            },
            None => pb_varint_at(data@, off as int) == None::<(u64, int)>,
        },
{
    let len = data.len();
    let mut k: usize = 0;
    let mut acc: u128 = 0;
    let mut m: u128 = 1;
    loop
        invariant
            0 <= k <= 10,
            off + k <= len,
            len == data@.len(),
            acc == pb_val(data@, off as int, k as int),
            m == pow128(k as int),
            acc < m,
            forall|j: int| off <= j < off + k ==> #[trigger] data@[j] >= 128,
        decreases 10 - k,
    {
        proof {
            lemma_pb_val_bound(data@, off as int, k as int);
            assert(pow128(10) == 1180591620717411303424) by {
                lemma_pow128_value();
            }
            assert(pow128(k as int) <= pow128(10)) by {
                lemma_pow128_mono(k as int, 10);
            }
        }
        if k == 10 {
            proof {
                lemma_pb_len_run_none(data@, off as int, 10, 10);
            }
            return None;
        }
        if off + k >= len {
            proof {
                lemma_pb_len_run_short(data@, off as int, 10);
            }
            return None;
        }
        let b = data[off + k];
        proof {
            assert(pb_val(data@, off as int, k + 1) == pb_val(data@, off as int, k as int) + (
            b as nat % 128) * pow128(k as int)) by {
                lemma_pb_val_snoc(data@, off as int, k + 1);
            }
            assert(acc + (b as nat % 128) * m < 128 * pow128(k as int)) by (nonlinear_arith)
                requires
                    acc < m,
                    m == pow128(k as int),
                    (b as nat % 128) < 128,
                    pow128(k as int) >= 1,
            ;
            assert(pow128(k as int) >= 1) by {
                lemma_pow128_pos(k as int);
            }
            assert(128 * pow128(k as int) == pow128(k + 1));
            assert(pow128(k + 1) <= pow128(10)) by {
                lemma_pow128_mono(k + 1, 10);
            }
        }
        acc = acc + ((b % 128) as u128) * m;
        if b < 128 {
            proof {
                lemma_pb_len_run(data@, off as int, k as int, 10);
            }
            let v = (acc % 0x1_0000_0000_0000_0000) as u64;
            return Some((v, k + 1));
        }
        m = m * 128;
        k = k + 1;
    }
}

proof fn lemma_pow128_value()
    ensures
        pow128(10) == 1180591620717411303424,
{
    assert(pow128(0) == 1);
    assert(pow128(1) == 128);
    assert(pow128(2) == 16384);
    assert(pow128(3) == 2097152);
    assert(pow128(4) == 268435456);
    assert(pow128(5) == 34359738368);
    assert(pow128(6) == 4398046511104);
    assert(pow128(7) == 562949953421312);
    assert(pow128(8) == 72057594037927936);
    assert(pow128(9) == 9223372036854775808);
    assert(pow128(10) == 1180591620717411303424);
}

proof fn lemma_pow128_pos(n: int)
    ensures
        pow128(n) >= 1,
    decreases n,
{
    if n > 0 {
        lemma_pow128_pos(n - 1);
    }
}

proof fn lemma_pow128_mono(a: int, b: int)
    requires
        a <= b,
    ensures
        pow128(a) <= pow128(b),
    decreases b,
{
    if a < b && b > 0 {
        lemma_pow128_mono(a, b - 1);
        lemma_pow128_pos(b - 1);
    }
}

/// Adding one more byte at the top of a varint adds its group at the next
/// power of 128.
proof fn lemma_pb_val_snoc(s: Seq<u8>, off: int, n: int)
    requires
        n >= 1,
    ensures
        pb_val(s, off, n) == pb_val(s, off, n - 1) + (s[off + n - 1] as nat % 128) * pow128(n - 1),
    decreases n,
{
    if n == 1 {
        assert(pb_val(s, off + 1, 0) == 0);
        assert(pb_val(s, off, 0) == 0);
        assert(pb_val(s, off, 1) == (s[off] as nat % 128) + 128 * pb_val(s, off + 1, 0));
        assert(pow128(0) == 1);
        assert((s[off + 0] as nat % 128) * pow128(0) == s[off] as nat % 128) by (nonlinear_arith)
            requires
                pow128(0) == 1,
                off + 0 == off,
        ;
        assert(pb_val(s, off, 1) == pb_val(s, off, 0) + (s[off + 0] as nat % 128) * pow128(0));
    } else {
        lemma_pb_val_snoc(s, off + 1, n - 1);
        let low = s[off] as nat % 128;
        let b = s[off + n - 1] as nat % 128;
        assert(pb_val(s, off, n) == low + 128 * pb_val(s, off + 1, n - 1));
        assert(pb_val(s, off, n - 1) == low + 128 * pb_val(s, off + 1, n - 2));
        assert(off + 1 + (n - 1) - 1 == off + n - 1);
        assert(pb_val(s, off + 1, n - 1) == pb_val(s, off + 1, n - 2) + b * pow128(n - 2));
        assert(pow128(n - 1) == 128 * pow128(n - 2));
        assert(128 * (pb_val(s, off + 1, n - 2) + b * pow128(n - 2)) == 128 * pb_val(
            s,
            off + 1,
            n - 2,
        ) + b * (128 * pow128(n - 2))) by (nonlinear_arith);
        assert(pb_val(s, off, n) == pb_val(s, off, n - 1) + b * pow128(n - 1));
    }
}

/// Canonical base-128 encoding of `v`.
pub open spec fn pb_varint_encoding(v: nat) -> Seq<u8>
    decreases v,
{
    if v < 128 {
        seq![v as u8]
    } else {
        seq![(128 + v % 128) as u8] + pb_varint_encoding(v / 128)
    }
}

/// Writes `v` as a varint.
pub fn write_pb_varint(v: u64) -> (r: Vec<u8>)
    ensures
        r@ == pb_varint_encoding(v as nat),
{
    let mut out: Vec<u8> = Vec::new();
    let mut cur = v;
    loop
        invariant
            pb_varint_encoding(v as nat) == out@ + pb_varint_encoding(cur as nat),
        decreases cur,
    {
        if cur < 128 {
            out.push(cur as u8);
            proof {
                assert(pb_varint_encoding(v as nat) =~= out@);
            }
            return out;
        }
        out.push(128 + (cur % 128) as u8);
        proof {
            assert(pb_varint_encoding(cur as nat) == seq![(128 + cur as nat % 128) as u8]
                + pb_varint_encoding(cur as nat / 128));
            assert(pb_varint_encoding(v as nat) =~= out@ + pb_varint_encoding(cur as nat / 128));
        }
        cur = cur / 128;
    }
}

/// One field of an encoded message, parsed at `off`: its field number, wire
/// type, numeric value (wire type 0), payload bytes (wire type 2), and the
/// total bytes consumed.  `None` on truncation, a varint overrun, or the
/// deprecated group wire types.
pub open spec fn pb_field_at(s: Seq<u8>, off: int) -> Option<(nat, nat, u64, Seq<u8>, int)> {
    match pb_varint_at(s, off) {
        None => None,
        Some((tag, n)) => {
            let fno = tag as nat / 8;
            let wire = tag as nat % 8;
            if wire == 0 {
                match pb_varint_at(s, off + n) {
                    None => None,
                    Some((v, m)) => Some((fno, 0nat, v, Seq::empty(), n + m)),
                }
            } else if wire == 1 {
                if off + n + 8 <= s.len() {
                    Some((fno, 1nat, 0u64, Seq::empty(), n + 8))
                } else {
                    None
                }
            } else if wire == 2 {
                match pb_varint_at(s, off + n) {
                    None => None,
                    Some((l, m)) => {
                        if l as int <= s.len() - (off + n + m) {
                            Some(
                                (
                                    fno,
                                    2nat,
                                    l,
                                    s.subrange(off + n + m, off + n + m + l as int),
                                    n + m + l as int,
                                ),
                            )
                        } else {
                            None
                        }
                    },
                }
            } else if wire == 5 {
                if off + n + 4 <= s.len() {
                    Some((fno, 5nat, 0u64, Seq::empty(), n + 4))
                } else {
                    None
                }
            } else {
                None
            }
        },
    }
}

/// A parsed field consumes at least one byte and stays inside the string.
pub proof fn lemma_pb_field_bounds(s: Seq<u8>, off: int)
    requires
        0 <= off,
    ensures
        match pb_field_at(s, off) {
            Some(t) => 1 <= t.4 && off + t.4 <= s.len(),
            None => true,
        },
{
    lemma_pb_len_bounds(s, off, 10);
    match pb_len(s, off, 10) {
        Some(n) => {
            lemma_pb_len_bounds(s, off + n, 10);
        },
        None => {},
    }
}

/// Reads the field at `off`.  On success returns the field number, the wire
/// type, the numeric value, the start and length of the payload within
/// `data`, and the bytes consumed.
pub fn read_pb_field(data: &[u8], off: usize) -> (r: Option<(u64, u8, u64, usize, usize, usize)>)
    requires
        off <= data@.len(),
    ensures
        match r {
            Some((fno, wire, num, bstart, blen, c)) => {
                &&& pb_field_at(data@, off as int) == Some(
                    (
                        fno as nat,
                        wire as nat,
                        num,
                        data@.subrange(bstart as int, bstart + blen as int),
                        c as int,
                    ),
                )
                &&& off + c <= data@.len()
                &&& c >= 1
                &&& off <= bstart
                &&& bstart + blen <= off + c
            },
            None => pb_field_at(data@, off as int) == None::<(nat, nat, u64, Seq<u8>, int)>,
        },
{
    let dlen = data.len();
    let (tag, n) = match read_pb_varint(data, off) {
        Some(t) => t,
        None => {
            return None;
        },
    };
    proof {
        assert(off + n <= dlen);
    }
    let fno = tag / 8;
    let wire = (tag % 8) as u8;
    if wire == 0 {
        match read_pb_varint(data, off + n) {
            Some((v, m)) => {
                proof {
                    assert(data@.subrange(off as int, off as int) =~= Seq::<u8>::empty());
                }
                Some((fno, 0, v, off, 0, n + m))
            },
            None => None,
        }
    } else if wire == 1 {
        if data.len() - (off + n) >= 8 {
            proof {
                assert(data@.subrange(off as int, off as int) =~= Seq::<u8>::empty());
            }
            Some((fno, 1, 0, off, 0, n + 8))
        } else {
            None
        }
    } else if wire == 2 {
        match read_pb_varint(data, off + n) {
            Some((l, m)) => {
                if l <= (data.len() - (off + n + m)) as u64 {
                    let bstart = off + n + m;
                    let blen = l as usize;
                    Some((fno, 2, l, bstart, blen, n + m + blen))
                } else {
                    None
                }
            },
            None => None,
        }
    } else if wire == 5 {
        if data.len() - (off + n) >= 4 {
            proof {
                assert(data@.subrange(off as int, off as int) =~= Seq::<u8>::empty());
            }
            Some((fno, 5, 0, off, 0, n + 4))
        } else {
            None
        }
    } else {
        None
    }
}

/// 32-bit signed reinterpretation of the low bits of a varint value.
pub open spec fn pb_as_i32(v: u64) -> i32 {
    let m = v as nat % 0x1_0000_0000;
    if m >= 0x8000_0000 {
        (m - 0x1_0000_0000) as i32
    } else {
        m as i32
    }
}

/// 64-bit signed reinterpretation of a varint value.
pub open spec fn pb_as_i64(v: u64) -> i64 {
    if v >= 0x8000_0000_0000_0000 {
        (v - 0x1_0000_0000_0000_0000) as i64
    } else {
        v as i64
    }
}

/// 32-bit unsigned truncation of a varint value.
pub open spec fn pb_as_u32(v: u64) -> u32 {
    (v as nat % 0x1_0000_0000) as u32
}

/// Executable form of [`pb_as_i32`].
pub fn pb_to_i32(v: u64) -> (r: i32)
    ensures
        r == pb_as_i32(v),
{
    let m = v % 0x1_0000_0000;
    if m >= 0x8000_0000 {
        ((m as i64) - 0x1_0000_0000i64) as i32
    } else {
        m as i32
    }
}

/// Executable form of [`pb_as_i64`].
pub fn pb_to_i64(v: u64) -> (r: i64)
    ensures
        r == pb_as_i64(v),
{
    if v >= 0x8000_0000_0000_0000 {
        -((0xFFFF_FFFF_FFFF_FFFFu64 - v) as i64) - 1
    } else {
        v as i64
    }
}

/// Executable form of [`pb_as_u32`].
pub fn pb_to_u32(v: u64) -> (r: u32)
    ensures
        r == pb_as_u32(v),
{
    (v % 0x1_0000_0000) as u32
}

/// Folds `f` over the fields of an encoded message from offset `off` on:
/// `f` receives the accumulated message, the field number, the wire type,
/// the numeric value and the payload bytes, and yields the updated message
/// or rejects the field.  `None` when a field cannot be parsed or `f`
/// rejects one.
pub open spec fn pb_fold_at<M>(
    s: Seq<u8>,
    off: int,
    acc: M,
    f: spec_fn(M, nat, nat, u64, Seq<u8>) -> Option<M>,
) -> Option<M>
    decreases s.len() - off,
    via pb_fold_at_decreases::<M>
{
    if off < 0 {
        None
    } else if off >= s.len() {
        Some(acc)
    } else {
        match pb_field_at(s, off) {
            None => None,
            Some((fno, wire, num, bytes, c)) => match f(acc, fno, wire, num, bytes) {
                None => None,
                Some(acc2) => pb_fold_at(s, off + c, acc2, f),
            },
        }
    }
}

#[via_fn]
proof fn pb_fold_at_decreases<M>(
    s: Seq<u8>,
    off: int,
    acc: M,
    f: spec_fn(M, nat, nat, u64, Seq<u8>) -> Option<M>,
) {
    if 0 <= off < s.len() {
        lemma_pb_field_bounds(s, off);
    }
}

/// Copies `data[from..to]` into a fresh vector.
pub fn copy_byte_range(data: &[u8], from: usize, to: usize) -> (r: Vec<u8>)
    requires
        from <= to <= data@.len(),
    ensures
        r@ == data@.subrange(from as int, to as int),
{
    let mut r: Vec<u8> = Vec::new();
    let mut i = from;
    while i < to
        invariant
            from <= i <= to <= data@.len(),
            r@ == data@.subrange(from as int, i as int),
        decreases to - i,
    {
        r.push(data[i]);
        proof {
            assert(r@ =~= data@.subrange(from as int, i + 1 as int));
        }
        i = i + 1;
    }
    r
}


} // verus!
