//! The SABR request messages and their wire encoders, and the request
//! builder.  An unset optional field is absent from the encoding; a repeated
//! field contributes one length-delimited entry per element, in order;
//! numeric lists are packed.

use vstd::prelude::*;
use crate::proto::{pb_varint_encoding, write_pb_varint};
use crate::sabr_messages::{FormatId, FormatIdView};
use vstd::utf8::encode_utf8;
use vstd::string::{StringExecFns, StrSliceExecFns};

verus! {

/// Unsigned 64-bit wire value of a signed integer (two's complement).
pub open spec fn i64_as_u64(v: i64) -> u64 {
    if v >= 0 {
        v as u64
    } else {
        (v + 0x1_0000_0000_0000_0000) as u64
    }
}

/// Zigzag wire value of a signed 32-bit integer.
pub open spec fn zigzag32(v: i32) -> u64 {
    if v >= 0 {
        (2 * (v as int)) as u64
    } else {
        (-2 * (v as int) - 1) as u64
    }
}

/// Executable form of [`i64_as_u64`].
pub fn i64_to_wire(v: i64) -> (r: u64)
    ensures
        r == i64_as_u64(v),
{
    if v >= 0 {
        v as u64
    } else {
        let m = if v == i64::MIN {
            9223372036854775808u64
        } else {
            (-v) as u64
        };
        0xFFFF_FFFF_FFFF_FFFFu64 - m + 1
    }
}

/// Executable form of [`zigzag32`].
pub fn zigzag32_exec(v: i32) -> (r: u64)
    ensures
        r == zigzag32(v),
{
    if v >= 0 {
        2 * (v as u64)
    } else {
        let m = if v == i32::MIN {
            2147483648u64
        } else {
            (-v) as u64
        };
        2 * m - 1
    }
}

/// Encoding of one varint field: its tag, then its value.
pub open spec fn enc_varint_field(fno: nat, v: u64) -> Seq<u8> {
    pb_varint_encoding(fno * 8) + pb_varint_encoding(v as nat)
}

/// Encoding of one length-delimited field: its tag, the payload length,
/// then the payload.
pub open spec fn enc_len_field(fno: nat, p: Seq<u8>) -> Seq<u8> {
    pb_varint_encoding(fno * 8 + 2) + pb_varint_encoding(p.len()) + p
}

/// Appends a varint field.
pub fn append_varint_field(out: &mut Vec<u8>, fno: u64, v: u64)
    requires
        fno <= 1000,
    ensures
        final(out)@ == old(out)@ + enc_varint_field(fno as nat, v),
{
    let tag = write_pb_varint(fno * 8);
    out.extend_from_slice(tag.as_slice());
    let val = write_pb_varint(v);
    out.extend_from_slice(val.as_slice());
    proof {
        assert(out@ =~= old(out)@ + enc_varint_field(fno as nat, v));
    }
}

/// Appends a length-delimited field.
pub fn append_len_field(out: &mut Vec<u8>, fno: u64, p: &[u8])
    requires
        fno <= 1000,
    ensures
        final(out)@ == old(out)@ + enc_len_field(fno as nat, p@),
{
    let tag = write_pb_varint(fno * 8 + 2);
    out.extend_from_slice(tag.as_slice());
    let len = write_pb_varint(p.len() as u64);
    out.extend_from_slice(len.as_slice());
    out.extend_from_slice(p);
    proof {
        assert(out@ =~= old(out)@ + enc_len_field(fno as nat, p@));
    }
}

/// UTF-8 bytes of an optional string field.
pub fn string_field_bytes(s: &String) -> (r: Vec<u8>)
    ensures
        r@ == encode_utf8(s@),
{
    s.as_str().as_bytes_vec()
}

/// View of a string list.
pub open spec fn strings_view(s: Seq<String>) -> Seq<Seq<char>> {
    s.map_values(|x: String| x@)
}

/// Packed encoding body of an `int32` list.
pub open spec fn packed_i32_body(l: Seq<i32>) -> Seq<u8>
    decreases l.len(),
{
    if l.len() == 0 {
        Seq::empty()
    } else {
        packed_i32_body(l.drop_last()) + pb_varint_encoding(i64_as_u64(l.last() as i64) as nat)
    }
}

proof fn lemma_packed_i32_snoc(l: Seq<i32>, i: int)
    requires
        0 <= i < l.len(),
    ensures
        packed_i32_body(l.take(i + 1)) == packed_i32_body(l.take(i)) + pb_varint_encoding(
            i64_as_u64(l[i] as i64) as nat,
        ),
{
    assert(l.take(i + 1).drop_last() =~= l.take(i));
    assert(l.take(i + 1).last() == l[i]);
}

/// Encoding of a repeated string field.
pub open spec fn enc_string_list(fno: nat, l: Seq<Seq<char>>) -> Seq<u8>
    decreases l.len(),
{
    if l.len() == 0 {
        Seq::empty()
    } else {
        enc_string_list(fno, l.drop_last()) + enc_len_field(fno, encode_utf8(l.last()))
    }
}

proof fn lemma_string_list_snoc(fno: nat, l: Seq<Seq<char>>, i: int)
    requires
        0 <= i < l.len(),
    ensures
        enc_string_list(fno, l.take(i + 1)) == enc_string_list(fno, l.take(i)) + enc_len_field(
            fno,
            encode_utf8(l[i]),
        ),
{
    assert(l.take(i + 1).drop_last() =~= l.take(i));
    assert(l.take(i + 1).last() == l[i]);
}

/// Appends every element of a repeated string field.
pub fn append_string_list(out: &mut Vec<u8>, fno: u64, l: &Vec<String>)
    requires
        fno <= 1000,
    ensures
        final(out)@ == old(out)@ + enc_string_list(fno as nat, strings_view(l@)),
{
    let ghost base = out@;
    let ghost lv = strings_view(l@);
    let mut i: usize = 0;
    proof {
        assert(lv.take(0) =~= Seq::<Seq<char>>::empty());
        assert(out@ =~= base + enc_string_list(fno as nat, lv.take(0)));
    }
    while i < l.len()
        invariant
            i <= l@.len(),
            fno <= 1000,
            lv == strings_view(l@),
            out@ == base + enc_string_list(fno as nat, lv.take(i as int)),
        decreases l@.len() - i,
    {
        let b = string_field_bytes(&l[i]);
        append_len_field(out, fno, b.as_slice());
        proof {
            lemma_string_list_snoc(fno as nat, lv, i as int);
            assert(out@ =~= base + enc_string_list(fno as nat, lv.take(i + 1)));
        }
        i = i + 1;
    }
    proof {
        assert(lv.take(lv.len() as int) =~= lv);
    }
}

/// View of a `FormatId` list.
pub open spec fn format_ids_view(s: Seq<FormatId>) -> Seq<FormatIdView> {
    s.map_values(|x: FormatId| x@)
}

/// Encoding of a repeated `FormatId` field.
pub open spec fn enc_msg_list_format_id(fno: nat, l: Seq<FormatIdView>) -> Seq<u8>
    decreases l.len(),
{
    if l.len() == 0 {
        Seq::empty()
    } else {
        enc_msg_list_format_id(fno, l.drop_last()) + enc_len_field(fno, enc_format_id(l.last()))
    }
}

proof fn lemma_msg_list_format_id_snoc(fno: nat, l: Seq<FormatIdView>, i: int)
    requires
        0 <= i < l.len(),
    ensures
        enc_msg_list_format_id(fno, l.take(i + 1)) == enc_msg_list_format_id(fno, l.take(i))
            + enc_len_field(fno, enc_format_id(l[i])),
{
    assert(l.take(i + 1).drop_last() =~= l.take(i));
    assert(l.take(i + 1).last() == l[i]);
}

/// Appends every element of a repeated `FormatId` field.
pub fn append_msg_list_format_id(out: &mut Vec<u8>, fno: u64, l: &Vec<FormatId>)
    requires
        fno <= 1000,
    ensures
        final(out)@ == old(out)@ + enc_msg_list_format_id(fno as nat, format_ids_view(l@)),
{
    let ghost base = out@;
    let ghost lv = format_ids_view(l@);
    let mut i: usize = 0;
    proof {
        assert(lv.take(0) =~= Seq::<FormatIdView>::empty());
        assert(out@ =~= base + enc_msg_list_format_id(fno as nat, lv.take(0)));
    }
    while i < l.len()
        invariant
            i <= l@.len(),
            fno <= 1000,
            lv == format_ids_view(l@),
            out@ == base + enc_msg_list_format_id(fno as nat, lv.take(i as int)),
        decreases l@.len() - i,
    {
        let mut tmp: Vec<u8> = Vec::new();
        encode_format_id(&l[i], &mut tmp);
        append_len_field(out, fno, tmp.as_slice());
        proof {
            lemma_msg_list_format_id_snoc(fno as nat, lv, i as int);
            assert(out@ =~= base + enc_msg_list_format_id(fno as nat, lv.take(i + 1)));
        }
        i = i + 1;
    }
    proof {
        assert(lv.take(lv.len() as int) =~= lv);
    }
}

/// View of a `BufferedRange` list.
pub open spec fn buffered_ranges_view(s: Seq<BufferedRange>) -> Seq<BufferedRangeView> {
    s.map_values(|x: BufferedRange| x@)
}

/// Encoding of a repeated `BufferedRange` field.
pub open spec fn enc_msg_list_buffered_range(fno: nat, l: Seq<BufferedRangeView>) -> Seq<u8>
    decreases l.len(),
{
    if l.len() == 0 {
        Seq::empty()
    } else {
        enc_msg_list_buffered_range(fno, l.drop_last()) + enc_len_field(fno, enc_buffered_range(l.last()))
    }
}

proof fn lemma_msg_list_buffered_range_snoc(fno: nat, l: Seq<BufferedRangeView>, i: int)
    requires
        0 <= i < l.len(),
    ensures
        enc_msg_list_buffered_range(fno, l.take(i + 1)) == enc_msg_list_buffered_range(fno, l.take(i))
            + enc_len_field(fno, enc_buffered_range(l[i])),
{
    assert(l.take(i + 1).drop_last() =~= l.take(i));
    assert(l.take(i + 1).last() == l[i]);
}

/// Appends every element of a repeated `BufferedRange` field.
pub fn append_msg_list_buffered_range(out: &mut Vec<u8>, fno: u64, l: &Vec<BufferedRange>)
    requires
        fno <= 1000,
    ensures
        final(out)@ == old(out)@ + enc_msg_list_buffered_range(fno as nat, buffered_ranges_view(l@)),
{
    let ghost base = out@;
    let ghost lv = buffered_ranges_view(l@);
    let mut i: usize = 0;
    proof {
        assert(lv.take(0) =~= Seq::<BufferedRangeView>::empty());
        assert(out@ =~= base + enc_msg_list_buffered_range(fno as nat, lv.take(0)));
    }
    while i < l.len()
        invariant
            i <= l@.len(),
            fno <= 1000,
            lv == buffered_ranges_view(l@),
            out@ == base + enc_msg_list_buffered_range(fno as nat, lv.take(i as int)),
        decreases l@.len() - i,
    {
        let mut tmp: Vec<u8> = Vec::new();
        encode_buffered_range(&l[i], &mut tmp);
        append_len_field(out, fno, tmp.as_slice());
        proof {
            lemma_msg_list_buffered_range_snoc(fno as nat, lv, i as int);
            assert(out@ =~= base + enc_msg_list_buffered_range(fno as nat, lv.take(i + 1)));
        }
        i = i + 1;
    }
    proof {
        assert(lv.take(lv.len() as int) =~= lv);
    }
}

/// View of a `Fqa` list.
pub open spec fn fqas_view(s: Seq<Fqa>) -> Seq<FqaView> {
    s.map_values(|x: Fqa| x@)
}

/// Encoding of a repeated `Fqa` field.
pub open spec fn enc_msg_list_fqa(fno: nat, l: Seq<FqaView>) -> Seq<u8>
    decreases l.len(),
{
    if l.len() == 0 {
        Seq::empty()
    } else {
        enc_msg_list_fqa(fno, l.drop_last()) + enc_len_field(fno, enc_fqa(l.last()))
    }
}

proof fn lemma_msg_list_fqa_snoc(fno: nat, l: Seq<FqaView>, i: int)
    requires
        0 <= i < l.len(),
    ensures
        enc_msg_list_fqa(fno, l.take(i + 1)) == enc_msg_list_fqa(fno, l.take(i))
            + enc_len_field(fno, enc_fqa(l[i])),
{
    assert(l.take(i + 1).drop_last() =~= l.take(i));
    assert(l.take(i + 1).last() == l[i]);
}

/// Appends every element of a repeated `Fqa` field.
pub fn append_msg_list_fqa(out: &mut Vec<u8>, fno: u64, l: &Vec<Fqa>)
    requires
        fno <= 1000,
    ensures
        final(out)@ == old(out)@ + enc_msg_list_fqa(fno as nat, fqas_view(l@)),
{
    let ghost base = out@;
    let ghost lv = fqas_view(l@);
    let mut i: usize = 0;
    proof {
        assert(lv.take(0) =~= Seq::<FqaView>::empty());
        assert(out@ =~= base + enc_msg_list_fqa(fno as nat, lv.take(0)));
    }
    while i < l.len()
        invariant
            i <= l@.len(),
            fno <= 1000,
            lv == fqas_view(l@),
            out@ == base + enc_msg_list_fqa(fno as nat, lv.take(i as int)),
        decreases l@.len() - i,
    {
        let mut tmp: Vec<u8> = Vec::new();
        encode_fqa(&l[i], &mut tmp);
        append_len_field(out, fno, tmp.as_slice());
        proof {
            lemma_msg_list_fqa_snoc(fno as nat, lv, i as int);
            assert(out@ =~= base + enc_msg_list_fqa(fno as nat, lv.take(i + 1)));
        }
        i = i + 1;
    }
    proof {
        assert(lv.take(lv.len() as int) =~= lv);
    }
}

/// View of a `Pqa` list.
pub open spec fn pqas_view(s: Seq<Pqa>) -> Seq<PqaView> {
    s.map_values(|x: Pqa| x@)
}

/// Encoding of a repeated `Pqa` field.
pub open spec fn enc_msg_list_pqa(fno: nat, l: Seq<PqaView>) -> Seq<u8>
    decreases l.len(),
{
    if l.len() == 0 {
        Seq::empty()
    } else {
        enc_msg_list_pqa(fno, l.drop_last()) + enc_len_field(fno, enc_pqa(l.last()))
    }
}

proof fn lemma_msg_list_pqa_snoc(fno: nat, l: Seq<PqaView>, i: int)
    requires
        0 <= i < l.len(),
    ensures
        enc_msg_list_pqa(fno, l.take(i + 1)) == enc_msg_list_pqa(fno, l.take(i))
            + enc_len_field(fno, enc_pqa(l[i])),
{
    assert(l.take(i + 1).drop_last() =~= l.take(i));
    assert(l.take(i + 1).last() == l[i]);
}

/// Appends every element of a repeated `Pqa` field.
pub fn append_msg_list_pqa(out: &mut Vec<u8>, fno: u64, l: &Vec<Pqa>)
    requires
        fno <= 1000,
    ensures
        final(out)@ == old(out)@ + enc_msg_list_pqa(fno as nat, pqas_view(l@)),
{
    let ghost base = out@;
    let ghost lv = pqas_view(l@);
    let mut i: usize = 0;
    proof {
        assert(lv.take(0) =~= Seq::<PqaView>::empty());
        assert(out@ =~= base + enc_msg_list_pqa(fno as nat, lv.take(0)));
    }
    while i < l.len()
        invariant
            i <= l@.len(),
            fno <= 1000,
            lv == pqas_view(l@),
            out@ == base + enc_msg_list_pqa(fno as nat, lv.take(i as int)),
        decreases l@.len() - i,
    {
        let mut tmp: Vec<u8> = Vec::new();
        encode_pqa(&l[i], &mut tmp);
        append_len_field(out, fno, tmp.as_slice());
        proof {
            lemma_msg_list_pqa_snoc(fno as nat, lv, i as int);
            assert(out@ =~= base + enc_msg_list_pqa(fno as nat, lv.take(i + 1)));
        }
        i = i + 1;
    }
    proof {
        assert(lv.take(lv.len() as int) =~= lv);
    }
}

/// Wire encoding of a `FormatId` message.
pub open spec fn enc_format_id(m: FormatIdView) -> Seq<u8> {
    (match m.itag { Some(v) => enc_varint_field(1, i64_as_u64(v as i64)), None => Seq::empty() })
        + (match m.last_modified { Some(v) => enc_varint_field(2, i64_as_u64(v)), None => Seq::empty() })
        + (match m.xtags { Some(s) => enc_len_field(3, encode_utf8(s)), None => Seq::empty() })
}

/// Appends the wire encoding of a `FormatId`.
#[verifier::rlimit(100)]
pub fn encode_format_id(m: &FormatId, out: &mut Vec<u8>)
    ensures
        final(out)@ == old(out)@ + enc_format_id(m@),
{
    let ghost base = out@;
    let ghost ps0 = Seq::<u8>::empty();
    proof {
        assert(out@ == base + ps0) by {
            assert(base + ps0 =~= base);
        }
    }
    let ghost pc1 = (match m@.itag { Some(v) => enc_varint_field(1, i64_as_u64(v as i64)), None => Seq::empty() });
    if let Some(v) = m.itag {
        append_varint_field(out, 1, i64_to_wire(v as i64));
    }
    let ghost ps1 = ps0 + pc1;
    proof {
        vstd::seq_lib::lemma_concat_associative(base, ps0, pc1);
        assert(out@ == base + ps1);
    }
    let ghost pc2 = (match m@.last_modified { Some(v) => enc_varint_field(2, i64_as_u64(v)), None => Seq::empty() });
    if let Some(v) = m.last_modified {
        append_varint_field(out, 2, i64_to_wire(v));
    }
    let ghost ps2 = ps1 + pc2;
    proof {
        vstd::seq_lib::lemma_concat_associative(base, ps1, pc2);
        assert(out@ == base + ps2);
    }
    let ghost pc3 = (match m@.xtags { Some(s) => enc_len_field(3, encode_utf8(s)), None => Seq::empty() });
    if let Some(s) = &m.xtags {
        let b = string_field_bytes(s);
        append_len_field(out, 3, b.as_slice());
    }
    let ghost ps3 = ps2 + pc3;
    proof {
        vstd::seq_lib::lemma_concat_associative(base, ps2, pc3);
        assert(out@ == base + ps3);
    }
    proof {
        assert(ps3 == enc_format_id(m@));
    }
}

/// The `TimeRange` message.
#[derive(Debug, Clone, PartialEq)]
pub struct TimeRange {
    pub start: Option<i64>,
    pub end: Option<i64>,
}

/// Ghost form of [`TimeRange`].
pub struct TimeRangeView {
    pub start: Option<i64>,
    pub end: Option<i64>,
}

impl View for TimeRange {
    type V = TimeRangeView;

    open spec fn view(&self) -> TimeRangeView {
        TimeRangeView {
            start: self.start,
            end: self.end,
        }
    }
}

/// Wire encoding of a `TimeRange` message.
pub open spec fn enc_req_time_range(m: TimeRangeView) -> Seq<u8> {
    (match m.start { Some(v) => enc_varint_field(1, i64_as_u64(v)), None => Seq::empty() })
        + (match m.end { Some(v) => enc_varint_field(2, i64_as_u64(v)), None => Seq::empty() })
}

/// Appends the wire encoding of a `TimeRange`.
#[verifier::rlimit(100)]
pub fn encode_req_time_range(m: &TimeRange, out: &mut Vec<u8>)
    ensures
        final(out)@ == old(out)@ + enc_req_time_range(m@),
{
    let ghost base = out@;
    let ghost ps0 = Seq::<u8>::empty();
    proof {
        assert(out@ == base + ps0) by {
            assert(base + ps0 =~= base);
        }
    }
    let ghost pc1 = (match m@.start { Some(v) => enc_varint_field(1, i64_as_u64(v)), None => Seq::empty() });
    if let Some(v) = m.start {
        append_varint_field(out, 1, i64_to_wire(v));
    }
    let ghost ps1 = ps0 + pc1;
    proof {
        vstd::seq_lib::lemma_concat_associative(base, ps0, pc1);
        assert(out@ == base + ps1);
    }
    let ghost pc2 = (match m@.end { Some(v) => enc_varint_field(2, i64_as_u64(v)), None => Seq::empty() });
    if let Some(v) = m.end {
        append_varint_field(out, 2, i64_to_wire(v));
    }
    let ghost ps2 = ps1 + pc2;
    proof {
        vstd::seq_lib::lemma_concat_associative(base, ps1, pc2);
        assert(out@ == base + ps2);
    }
    proof {
        assert(ps2 == enc_req_time_range(m@));
    }
}

/// The `BufferedRange` message.
#[derive(Debug, Clone, PartialEq)]
pub struct BufferedRange {
    pub format_id: Option<FormatId>,
    pub start_time_ms: Option<i64>,
    pub duration_ms: Option<i64>,
    pub start_segment_index: Option<i32>,
    pub end_segment_index: Option<i32>,
    pub time_range: Option<TimeRange>,
}

/// Ghost form of [`BufferedRange`].
pub struct BufferedRangeView {
    pub format_id: Option<FormatIdView>,
    pub start_time_ms: Option<i64>,
    pub duration_ms: Option<i64>,
    pub start_segment_index: Option<i32>,
    pub end_segment_index: Option<i32>,
    pub time_range: Option<TimeRangeView>,
}

impl View for BufferedRange {
    type V = BufferedRangeView;

    open spec fn view(&self) -> BufferedRangeView {
        BufferedRangeView {
            format_id: match self.format_id { Some(v) => Some(v@), None => None },
            start_time_ms: self.start_time_ms,
            duration_ms: self.duration_ms,
            start_segment_index: self.start_segment_index,
            end_segment_index: self.end_segment_index,
            time_range: match self.time_range { Some(v) => Some(v@), None => None },
        }
    }
}

/// Wire encoding of a `BufferedRange` message.
pub open spec fn enc_buffered_range(m: BufferedRangeView) -> Seq<u8> {
    (match m.format_id { Some(v) => enc_len_field(1, enc_format_id(v)), None => Seq::empty() })
        + (match m.start_time_ms { Some(v) => enc_varint_field(2, i64_as_u64(v)), None => Seq::empty() })
        + (match m.duration_ms { Some(v) => enc_varint_field(3, i64_as_u64(v)), None => Seq::empty() })
        + (match m.start_segment_index { Some(v) => enc_varint_field(4, i64_as_u64(v as i64)), None => Seq::empty() })
        + (match m.end_segment_index { Some(v) => enc_varint_field(5, i64_as_u64(v as i64)), None => Seq::empty() })
        + (match m.time_range { Some(v) => enc_len_field(6, enc_req_time_range(v)), None => Seq::empty() })
}

/// Appends the wire encoding of a `BufferedRange`.
#[verifier::rlimit(100)]
pub fn encode_buffered_range(m: &BufferedRange, out: &mut Vec<u8>)
    ensures
        final(out)@ == old(out)@ + enc_buffered_range(m@),
{
    let ghost base = out@;
    let ghost ps0 = Seq::<u8>::empty();
    proof {
        assert(out@ == base + ps0) by {
            assert(base + ps0 =~= base);
        }
    }
    let ghost pc1 = (match m@.format_id { Some(v) => enc_len_field(1, enc_format_id(v)), None => Seq::empty() });
    if let Some(v) = &m.format_id {
        let mut tmp: Vec<u8> = Vec::new();
        encode_format_id(v, &mut tmp);
        append_len_field(out, 1, tmp.as_slice());
    }
    let ghost ps1 = ps0 + pc1;
    proof {
        vstd::seq_lib::lemma_concat_associative(base, ps0, pc1);
        assert(out@ == base + ps1);
    }
    let ghost pc2 = (match m@.start_time_ms { Some(v) => enc_varint_field(2, i64_as_u64(v)), None => Seq::empty() });
    if let Some(v) = m.start_time_ms {
        append_varint_field(out, 2, i64_to_wire(v));
    }
    let ghost ps2 = ps1 + pc2;
    proof {
        vstd::seq_lib::lemma_concat_associative(base, ps1, pc2);
        assert(out@ == base + ps2);
    }
    let ghost pc3 = (match m@.duration_ms { Some(v) => enc_varint_field(3, i64_as_u64(v)), None => Seq::empty() });
    if let Some(v) = m.duration_ms {
        append_varint_field(out, 3, i64_to_wire(v));
    }
    let ghost ps3 = ps2 + pc3;
    proof {
        vstd::seq_lib::lemma_concat_associative(base, ps2, pc3);
        assert(out@ == base + ps3);
    }
    let ghost pc4 = (match m@.start_segment_index { Some(v) => enc_varint_field(4, i64_as_u64(v as i64)), None => Seq::empty() });
    if let Some(v) = m.start_segment_index {
        append_varint_field(out, 4, i64_to_wire(v as i64));
    }
    let ghost ps4 = ps3 + pc4;
    proof {
        vstd::seq_lib::lemma_concat_associative(base, ps3, pc4);
        assert(out@ == base + ps4);
    }
    let ghost pc5 = (match m@.end_segment_index { Some(v) => enc_varint_field(5, i64_as_u64(v as i64)), None => Seq::empty() });
    if let Some(v) = m.end_segment_index {
        append_varint_field(out, 5, i64_to_wire(v as i64));
    }
    let ghost ps5 = ps4 + pc5;
    proof {
        vstd::seq_lib::lemma_concat_associative(base, ps4, pc5);
        assert(out@ == base + ps5);
    }
    let ghost pc6 = (match m@.time_range { Some(v) => enc_len_field(6, enc_req_time_range(v)), None => Seq::empty() });
    if let Some(v) = &m.time_range {
        let mut tmp: Vec<u8> = Vec::new();
        encode_req_time_range(v, &mut tmp);
        append_len_field(out, 6, tmp.as_slice());
    }
    let ghost ps6 = ps5 + pc6;
    proof {
        vstd::seq_lib::lemma_concat_associative(base, ps5, pc6);
        assert(out@ == base + ps6);
    }
    proof {
        assert(ps6 == enc_buffered_range(m@));
    }
}

/// The `ClientInfo` message.
#[derive(Debug, Clone, PartialEq)]
pub struct ClientInfo {
    pub device_make: Option<String>,
    pub device_model: Option<String>,
    pub client_name: Option<i32>,
    pub client_version: Option<String>,
    pub os_name: Option<String>,
    pub os_version: Option<String>,
    pub accept_language: Option<String>,
    pub accept_region: Option<String>,
    pub screen_width_points: Option<i32>,
    pub screen_height_points: Option<i32>,
    pub screen_pixel_density: Option<i32>,
    pub client_form_factor: Option<i32>,
    pub gmscore_version_code: Option<i32>,
    pub window_width_points: Option<i32>,
    pub window_height_points: Option<i32>,
    pub android_sdk_version: Option<i32>,
    pub utc_offset_minutes: Option<i64>,
    pub time_zone: Option<String>,
    pub chipset: Option<String>,
}

/// Ghost form of [`ClientInfo`].
pub struct ClientInfoView {
    pub device_make: Option<Seq<char>>,
    pub device_model: Option<Seq<char>>,
    pub client_name: Option<i32>,
    pub client_version: Option<Seq<char>>,
    pub os_name: Option<Seq<char>>,
    pub os_version: Option<Seq<char>>,
    pub accept_language: Option<Seq<char>>,
    pub accept_region: Option<Seq<char>>,
    pub screen_width_points: Option<i32>,
    pub screen_height_points: Option<i32>,
    pub screen_pixel_density: Option<i32>,
    pub client_form_factor: Option<i32>,
    pub gmscore_version_code: Option<i32>,
    pub window_width_points: Option<i32>,
    pub window_height_points: Option<i32>,
    pub android_sdk_version: Option<i32>,
    pub utc_offset_minutes: Option<i64>,
    pub time_zone: Option<Seq<char>>,
    pub chipset: Option<Seq<char>>,
}

impl View for ClientInfo {
    type V = ClientInfoView;

    open spec fn view(&self) -> ClientInfoView {
        ClientInfoView {
            device_make: match self.device_make { Some(s) => Some(s@), None => None },
            device_model: match self.device_model { Some(s) => Some(s@), None => None },
            client_name: self.client_name,
            client_version: match self.client_version { Some(s) => Some(s@), None => None },
            os_name: match self.os_name { Some(s) => Some(s@), None => None },
            os_version: match self.os_version { Some(s) => Some(s@), None => None },
            accept_language: match self.accept_language { Some(s) => Some(s@), None => None },
            accept_region: match self.accept_region { Some(s) => Some(s@), None => None },
            screen_width_points: self.screen_width_points,
            screen_height_points: self.screen_height_points,
            screen_pixel_density: self.screen_pixel_density,
            client_form_factor: self.client_form_factor,
            gmscore_version_code: self.gmscore_version_code,
            window_width_points: self.window_width_points,
            window_height_points: self.window_height_points,
            android_sdk_version: self.android_sdk_version,
            utc_offset_minutes: self.utc_offset_minutes,
            time_zone: match self.time_zone { Some(s) => Some(s@), None => None },
            chipset: match self.chipset { Some(s) => Some(s@), None => None },
        }
    }
}

/// Part of the wire encoding of a `ClientInfo`.
pub open spec fn enc_client_info_g0(m: ClientInfoView) -> Seq<u8> {
    (match m.device_make { Some(s) => enc_len_field(12, encode_utf8(s)), None => Seq::empty() })
        + (match m.device_model { Some(s) => enc_len_field(13, encode_utf8(s)), None => Seq::empty() })
        + (match m.client_name { Some(v) => enc_varint_field(16, i64_as_u64(v as i64)), None => Seq::empty() })
        + (match m.client_version { Some(s) => enc_len_field(17, encode_utf8(s)), None => Seq::empty() })
        + (match m.os_name { Some(s) => enc_len_field(18, encode_utf8(s)), None => Seq::empty() })
        + (match m.os_version { Some(s) => enc_len_field(19, encode_utf8(s)), None => Seq::empty() })
        + (match m.accept_language { Some(s) => enc_len_field(21, encode_utf8(s)), None => Seq::empty() })
        + (match m.accept_region { Some(s) => enc_len_field(22, encode_utf8(s)), None => Seq::empty() })
}

/// Part of the wire encoding of a `ClientInfo`.
pub open spec fn enc_client_info_g1(m: ClientInfoView) -> Seq<u8> {
    (match m.screen_width_points { Some(v) => enc_varint_field(37, i64_as_u64(v as i64)), None => Seq::empty() })
        + (match m.screen_height_points { Some(v) => enc_varint_field(38, i64_as_u64(v as i64)), None => Seq::empty() })
        + (match m.screen_pixel_density { Some(v) => enc_varint_field(41, i64_as_u64(v as i64)), None => Seq::empty() })
        + (match m.client_form_factor { Some(v) => enc_varint_field(46, i64_as_u64(v as i64)), None => Seq::empty() })
        + (match m.gmscore_version_code { Some(v) => enc_varint_field(50, i64_as_u64(v as i64)), None => Seq::empty() })
        + (match m.window_width_points { Some(v) => enc_varint_field(55, i64_as_u64(v as i64)), None => Seq::empty() })
        + (match m.window_height_points { Some(v) => enc_varint_field(56, i64_as_u64(v as i64)), None => Seq::empty() })
        + (match m.android_sdk_version { Some(v) => enc_varint_field(64, i64_as_u64(v as i64)), None => Seq::empty() })
}

/// Part of the wire encoding of a `ClientInfo`.
pub open spec fn enc_client_info_g2(m: ClientInfoView) -> Seq<u8> {
    (match m.utc_offset_minutes { Some(v) => enc_varint_field(67, i64_as_u64(v)), None => Seq::empty() })
        + (match m.time_zone { Some(s) => enc_len_field(80, encode_utf8(s)), None => Seq::empty() })
        + (match m.chipset { Some(s) => enc_len_field(92, encode_utf8(s)), None => Seq::empty() })
}

/// Wire encoding of a `ClientInfo` message.
pub open spec fn enc_client_info(m: ClientInfoView) -> Seq<u8> {
    enc_client_info_g0(m) + enc_client_info_g1(m) + enc_client_info_g2(m)
}

/// Appends part of the wire encoding of a `ClientInfo`.
#[verifier::rlimit(100)]
fn encode_client_info_g0(m: &ClientInfo, out: &mut Vec<u8>)
    ensures
        final(out)@ == old(out)@ + enc_client_info_g0(m@),
{
    let ghost base = out@;
    let ghost ps0 = Seq::<u8>::empty();
    proof {
        assert(out@ == base + ps0) by {
            assert(base + ps0 =~= base);
        }
    }
    let ghost pc1 = (match m@.device_make { Some(s) => enc_len_field(12, encode_utf8(s)), None => Seq::empty() });
    if let Some(s) = &m.device_make {
        let b = string_field_bytes(s);
        append_len_field(out, 12, b.as_slice());
    }
    let ghost ps1 = ps0 + pc1;
    proof {
        vstd::seq_lib::lemma_concat_associative(base, ps0, pc1);
        assert(out@ == base + ps1);
    }
    let ghost pc2 = (match m@.device_model { Some(s) => enc_len_field(13, encode_utf8(s)), None => Seq::empty() });
    if let Some(s) = &m.device_model {
        let b = string_field_bytes(s);
        append_len_field(out, 13, b.as_slice());
    }
    let ghost ps2 = ps1 + pc2;
    proof {
        vstd::seq_lib::lemma_concat_associative(base, ps1, pc2);
        assert(out@ == base + ps2);
    }
    let ghost pc3 = (match m@.client_name { Some(v) => enc_varint_field(16, i64_as_u64(v as i64)), None => Seq::empty() });
    if let Some(v) = m.client_name {
        append_varint_field(out, 16, i64_to_wire(v as i64));
    }
    let ghost ps3 = ps2 + pc3;
    proof {
        vstd::seq_lib::lemma_concat_associative(base, ps2, pc3);
        assert(out@ == base + ps3);
    }
    let ghost pc4 = (match m@.client_version { Some(s) => enc_len_field(17, encode_utf8(s)), None => Seq::empty() });
    if let Some(s) = &m.client_version {
        let b = string_field_bytes(s);
        append_len_field(out, 17, b.as_slice());
    }
    let ghost ps4 = ps3 + pc4;
    proof {
        vstd::seq_lib::lemma_concat_associative(base, ps3, pc4);
        assert(out@ == base + ps4);
    }
    let ghost pc5 = (match m@.os_name { Some(s) => enc_len_field(18, encode_utf8(s)), None => Seq::empty() });
    if let Some(s) = &m.os_name {
        let b = string_field_bytes(s);
        append_len_field(out, 18, b.as_slice());
    }
    let ghost ps5 = ps4 + pc5;
    proof {
        vstd::seq_lib::lemma_concat_associative(base, ps4, pc5);
        assert(out@ == base + ps5);
    }
    let ghost pc6 = (match m@.os_version { Some(s) => enc_len_field(19, encode_utf8(s)), None => Seq::empty() });
    if let Some(s) = &m.os_version {
        let b = string_field_bytes(s);
        append_len_field(out, 19, b.as_slice());
    }
    let ghost ps6 = ps5 + pc6;
    proof {
        vstd::seq_lib::lemma_concat_associative(base, ps5, pc6);
        assert(out@ == base + ps6);
    }
    let ghost pc7 = (match m@.accept_language { Some(s) => enc_len_field(21, encode_utf8(s)), None => Seq::empty() });
    if let Some(s) = &m.accept_language {
        let b = string_field_bytes(s);
        append_len_field(out, 21, b.as_slice());
    }
    let ghost ps7 = ps6 + pc7;
    proof {
        vstd::seq_lib::lemma_concat_associative(base, ps6, pc7);
        assert(out@ == base + ps7);
    }
    let ghost pc8 = (match m@.accept_region { Some(s) => enc_len_field(22, encode_utf8(s)), None => Seq::empty() });
    if let Some(s) = &m.accept_region {
        let b = string_field_bytes(s);
        append_len_field(out, 22, b.as_slice());
    }
    let ghost ps8 = ps7 + pc8;
    proof {
        vstd::seq_lib::lemma_concat_associative(base, ps7, pc8);
        assert(out@ == base + ps8);
    }
    proof {
        assert(ps8 == enc_client_info_g0(m@));
    }
}

/// Appends part of the wire encoding of a `ClientInfo`.
#[verifier::rlimit(100)]
fn encode_client_info_g1(m: &ClientInfo, out: &mut Vec<u8>)
    ensures
        final(out)@ == old(out)@ + enc_client_info_g1(m@),
{
    let ghost base = out@;
    let ghost ps0 = Seq::<u8>::empty();
    proof {
        assert(out@ == base + ps0) by {
            assert(base + ps0 =~= base);
        }
    }
    let ghost pc1 = (match m@.screen_width_points { Some(v) => enc_varint_field(37, i64_as_u64(v as i64)), None => Seq::empty() });
    if let Some(v) = m.screen_width_points {
        append_varint_field(out, 37, i64_to_wire(v as i64));
    }
    let ghost ps1 = ps0 + pc1;
    proof {
        vstd::seq_lib::lemma_concat_associative(base, ps0, pc1);
        assert(out@ == base + ps1);
    }
    let ghost pc2 = (match m@.screen_height_points { Some(v) => enc_varint_field(38, i64_as_u64(v as i64)), None => Seq::empty() });
    if let Some(v) = m.screen_height_points {
        append_varint_field(out, 38, i64_to_wire(v as i64));
    }
    let ghost ps2 = ps1 + pc2;
    proof {
        vstd::seq_lib::lemma_concat_associative(base, ps1, pc2);
        assert(out@ == base + ps2);
    }
    let ghost pc3 = (match m@.screen_pixel_density { Some(v) => enc_varint_field(41, i64_as_u64(v as i64)), None => Seq::empty() });
    if let Some(v) = m.screen_pixel_density {
        append_varint_field(out, 41, i64_to_wire(v as i64));
    }
    let ghost ps3 = ps2 + pc3;
    proof {
        vstd::seq_lib::lemma_concat_associative(base, ps2, pc3);
        assert(out@ == base + ps3);
    }
    let ghost pc4 = (match m@.client_form_factor { Some(v) => enc_varint_field(46, i64_as_u64(v as i64)), None => Seq::empty() });
    if let Some(v) = m.client_form_factor {
        append_varint_field(out, 46, i64_to_wire(v as i64));
    }
    let ghost ps4 = ps3 + pc4;
    proof {
        vstd::seq_lib::lemma_concat_associative(base, ps3, pc4);
        assert(out@ == base + ps4);
    }
    let ghost pc5 = (match m@.gmscore_version_code { Some(v) => enc_varint_field(50, i64_as_u64(v as i64)), None => Seq::empty() });
    if let Some(v) = m.gmscore_version_code {
        append_varint_field(out, 50, i64_to_wire(v as i64));
    }
    let ghost ps5 = ps4 + pc5;
    proof {
        vstd::seq_lib::lemma_concat_associative(base, ps4, pc5);
        assert(out@ == base + ps5);
    }
    let ghost pc6 = (match m@.window_width_points { Some(v) => enc_varint_field(55, i64_as_u64(v as i64)), None => Seq::empty() });
    if let Some(v) = m.window_width_points {
        append_varint_field(out, 55, i64_to_wire(v as i64));
    }
    let ghost ps6 = ps5 + pc6;
    proof {
        vstd::seq_lib::lemma_concat_associative(base, ps5, pc6);
        assert(out@ == base + ps6);
    }
    let ghost pc7 = (match m@.window_height_points { Some(v) => enc_varint_field(56, i64_as_u64(v as i64)), None => Seq::empty() });
    if let Some(v) = m.window_height_points {
        append_varint_field(out, 56, i64_to_wire(v as i64));
    }
    let ghost ps7 = ps6 + pc7;
    proof {
        vstd::seq_lib::lemma_concat_associative(base, ps6, pc7);
        assert(out@ == base + ps7);
    }
    let ghost pc8 = (match m@.android_sdk_version { Some(v) => enc_varint_field(64, i64_as_u64(v as i64)), None => Seq::empty() });
    if let Some(v) = m.android_sdk_version {
        append_varint_field(out, 64, i64_to_wire(v as i64));
    }
    let ghost ps8 = ps7 + pc8;
    proof {
        vstd::seq_lib::lemma_concat_associative(base, ps7, pc8);
        assert(out@ == base + ps8);
    }
    proof {
        assert(ps8 == enc_client_info_g1(m@));
    }
}

/// Appends part of the wire encoding of a `ClientInfo`.
#[verifier::rlimit(100)]
fn encode_client_info_g2(m: &ClientInfo, out: &mut Vec<u8>)
    ensures
        final(out)@ == old(out)@ + enc_client_info_g2(m@),
{
    let ghost base = out@;
    let ghost ps0 = Seq::<u8>::empty();
    proof {
        assert(out@ == base + ps0) by {
            assert(base + ps0 =~= base);
        }
    }
    let ghost pc1 = (match m@.utc_offset_minutes { Some(v) => enc_varint_field(67, i64_as_u64(v)), None => Seq::empty() });
    if let Some(v) = m.utc_offset_minutes {
        append_varint_field(out, 67, i64_to_wire(v));
    }
    let ghost ps1 = ps0 + pc1;
    proof {
        vstd::seq_lib::lemma_concat_associative(base, ps0, pc1);
        assert(out@ == base + ps1);
    }
    let ghost pc2 = (match m@.time_zone { Some(s) => enc_len_field(80, encode_utf8(s)), None => Seq::empty() });
    if let Some(s) = &m.time_zone {
        let b = string_field_bytes(s);
        append_len_field(out, 80, b.as_slice());
    }
    let ghost ps2 = ps1 + pc2;
    proof {
        vstd::seq_lib::lemma_concat_associative(base, ps1, pc2);
        assert(out@ == base + ps2);
    }
    let ghost pc3 = (match m@.chipset { Some(s) => enc_len_field(92, encode_utf8(s)), None => Seq::empty() });
    if let Some(s) = &m.chipset {
        let b = string_field_bytes(s);
        append_len_field(out, 92, b.as_slice());
    }
    let ghost ps3 = ps2 + pc3;
    proof {
        vstd::seq_lib::lemma_concat_associative(base, ps2, pc3);
        assert(out@ == base + ps3);
    }
    proof {
        assert(ps3 == enc_client_info_g2(m@));
    }
}

/// Appends the wire encoding of a `ClientInfo`.
pub fn encode_client_info(m: &ClientInfo, out: &mut Vec<u8>)
    ensures
        final(out)@ == old(out)@ + enc_client_info(m@),
{
    let ghost base = out@;
    encode_client_info_g0(m, out);
    let ghost g0 = enc_client_info_g0(m@);
    encode_client_info_g1(m, out);
    let ghost g1 = enc_client_info_g1(m@);
    encode_client_info_g2(m, out);
    let ghost g2 = enc_client_info_g2(m@);
    let ghost t1 = g0 + g1;
    let ghost t2 = t1 + g2;
    proof {
        vstd::seq_lib::lemma_concat_associative(base, g0, g1);
        vstd::seq_lib::lemma_concat_associative(base, t1, g2);
        assert(t2 == enc_client_info(m@));
        assert(out@ == base + t2);
    }
}

/// The `ClientAbrState` message.
#[derive(Debug, Clone, PartialEq)]
pub struct ClientAbrState {
    pub time_since_last_manual_format_selection_ms: Option<i64>,
    pub last_manual_direction: Option<i32>,
    pub last_manual_selected_resolution: Option<i32>,
    pub detailed_network_type: Option<i32>,
    pub client_viewport_width: Option<i32>,
    pub client_viewport_height: Option<i32>,
    pub client_bitrate_cap_bytes_per_sec: Option<i64>,
    pub sticky_resolution: Option<i32>,
    pub client_viewport_is_flexible: Option<bool>,
    pub bandwidth_estimate: Option<i64>,
    pub min_audio_quality: Option<i32>,
    pub max_audio_quality: Option<i32>,
    pub video_quality_setting: Option<i32>,
    pub audio_route: Option<i32>,
    pub player_time_ms: Option<i64>,
    pub time_since_last_seek: Option<i64>,
    pub data_saver_mode: Option<bool>,
    pub network_metered_state: Option<i32>,
    pub visibility: Option<i32>,
    pub elapsed_wall_time_ms: Option<i64>,
    pub media_capabilities: Option<Vec<u8>>,
    pub time_since_last_action_ms: Option<i64>,
    pub enabled_track_types_bitfield: Option<i32>,
    pub max_pacing_rate: Option<i32>,
    pub player_state: Option<i64>,
    pub drc_enabled: Option<bool>,
    pub jda: Option<i32>,
    pub qw: Option<i32>,
    pub ky: Option<i32>,
    pub sabr_report_request_cancellation_info: Option<i32>,
    pub l: Option<bool>,
    pub g7: Option<i64>,
    pub prefer_vp9: Option<bool>,
    pub qj: Option<i32>,
    pub hx: Option<i32>,
    pub is_prefetch: Option<bool>,
    pub sabr_support_quality_constraints: Option<i32>,
    pub sabr_license_constraint: Option<Vec<u8>>,
    pub allow_proxima_live_latency: Option<i32>,
    pub sabr_force_proxima: Option<i32>,
    pub tqb: Option<i32>,
    pub sabr_force_max_network_interruption_duration_ms: Option<i64>,
    pub audio_track_id: Option<String>,
}

/// Ghost form of [`ClientAbrState`].
pub struct ClientAbrStateView {
    pub time_since_last_manual_format_selection_ms: Option<i64>,
    pub last_manual_direction: Option<i32>,
    pub last_manual_selected_resolution: Option<i32>,
    pub detailed_network_type: Option<i32>,
    pub client_viewport_width: Option<i32>,
    pub client_viewport_height: Option<i32>,
    pub client_bitrate_cap_bytes_per_sec: Option<i64>,
    pub sticky_resolution: Option<i32>,
    pub client_viewport_is_flexible: Option<bool>,
    pub bandwidth_estimate: Option<i64>,
    pub min_audio_quality: Option<i32>,
    pub max_audio_quality: Option<i32>,
    pub video_quality_setting: Option<i32>,
    pub audio_route: Option<i32>,
    pub player_time_ms: Option<i64>,
    pub time_since_last_seek: Option<i64>,
    pub data_saver_mode: Option<bool>,
    pub network_metered_state: Option<i32>,
    pub visibility: Option<i32>,
    pub elapsed_wall_time_ms: Option<i64>,
    pub media_capabilities: Option<Seq<u8>>,
    pub time_since_last_action_ms: Option<i64>,
    pub enabled_track_types_bitfield: Option<i32>,
    pub max_pacing_rate: Option<i32>,
    pub player_state: Option<i64>,
    pub drc_enabled: Option<bool>,
    pub jda: Option<i32>,
    pub qw: Option<i32>,
    pub ky: Option<i32>,
    pub sabr_report_request_cancellation_info: Option<i32>,
    pub l: Option<bool>,
    pub g7: Option<i64>,
    pub prefer_vp9: Option<bool>,
    pub qj: Option<i32>,
    pub hx: Option<i32>,
    pub is_prefetch: Option<bool>,
    pub sabr_support_quality_constraints: Option<i32>,
    pub sabr_license_constraint: Option<Seq<u8>>,
    pub allow_proxima_live_latency: Option<i32>,
    pub sabr_force_proxima: Option<i32>,
    pub tqb: Option<i32>,
    pub sabr_force_max_network_interruption_duration_ms: Option<i64>,
    pub audio_track_id: Option<Seq<char>>,
}

impl View for ClientAbrState {
    type V = ClientAbrStateView;

    open spec fn view(&self) -> ClientAbrStateView {
        ClientAbrStateView {
            time_since_last_manual_format_selection_ms: self.time_since_last_manual_format_selection_ms,
            last_manual_direction: self.last_manual_direction,
            last_manual_selected_resolution: self.last_manual_selected_resolution,
            detailed_network_type: self.detailed_network_type,
            client_viewport_width: self.client_viewport_width,
            client_viewport_height: self.client_viewport_height,
            client_bitrate_cap_bytes_per_sec: self.client_bitrate_cap_bytes_per_sec,
            sticky_resolution: self.sticky_resolution,
            client_viewport_is_flexible: self.client_viewport_is_flexible,
            bandwidth_estimate: self.bandwidth_estimate,
            min_audio_quality: self.min_audio_quality,
            max_audio_quality: self.max_audio_quality,
            video_quality_setting: self.video_quality_setting,
            audio_route: self.audio_route,
            player_time_ms: self.player_time_ms,
            time_since_last_seek: self.time_since_last_seek,
            data_saver_mode: self.data_saver_mode,
            network_metered_state: self.network_metered_state,
            visibility: self.visibility,
            elapsed_wall_time_ms: self.elapsed_wall_time_ms,
            media_capabilities: match self.media_capabilities { Some(b) => Some(b@), None => None },
            time_since_last_action_ms: self.time_since_last_action_ms,
            enabled_track_types_bitfield: self.enabled_track_types_bitfield,
            max_pacing_rate: self.max_pacing_rate,
            player_state: self.player_state,
            drc_enabled: self.drc_enabled,
            jda: self.jda,
            qw: self.qw,
            ky: self.ky,
            sabr_report_request_cancellation_info: self.sabr_report_request_cancellation_info,
            l: self.l,
            g7: self.g7,
            prefer_vp9: self.prefer_vp9,
            qj: self.qj,
            hx: self.hx,
            is_prefetch: self.is_prefetch,
            sabr_support_quality_constraints: self.sabr_support_quality_constraints,
            sabr_license_constraint: match self.sabr_license_constraint { Some(b) => Some(b@), None => None },
            allow_proxima_live_latency: self.allow_proxima_live_latency,
            sabr_force_proxima: self.sabr_force_proxima,
            tqb: self.tqb,
            sabr_force_max_network_interruption_duration_ms: self.sabr_force_max_network_interruption_duration_ms,
            audio_track_id: match self.audio_track_id { Some(s) => Some(s@), None => None },
        }
    }
}

/// Part of the wire encoding of a `ClientAbrState`.
pub open spec fn enc_client_abr_state_g0(m: ClientAbrStateView) -> Seq<u8> {
    (match m.time_since_last_manual_format_selection_ms { Some(v) => enc_varint_field(13, i64_as_u64(v)), None => Seq::empty() })
        + (match m.last_manual_direction { Some(v) => enc_varint_field(14, zigzag32(v)), None => Seq::empty() })
        + (match m.last_manual_selected_resolution { Some(v) => enc_varint_field(16, i64_as_u64(v as i64)), None => Seq::empty() })
        + (match m.detailed_network_type { Some(v) => enc_varint_field(17, i64_as_u64(v as i64)), None => Seq::empty() })
        + (match m.client_viewport_width { Some(v) => enc_varint_field(18, i64_as_u64(v as i64)), None => Seq::empty() })
        + (match m.client_viewport_height { Some(v) => enc_varint_field(19, i64_as_u64(v as i64)), None => Seq::empty() })
        + (match m.client_bitrate_cap_bytes_per_sec { Some(v) => enc_varint_field(20, i64_as_u64(v)), None => Seq::empty() })
        + (match m.sticky_resolution { Some(v) => enc_varint_field(21, i64_as_u64(v as i64)), None => Seq::empty() })
}

/// Part of the wire encoding of a `ClientAbrState`.
pub open spec fn enc_client_abr_state_g1(m: ClientAbrStateView) -> Seq<u8> {
    (match m.client_viewport_is_flexible { Some(v) => enc_varint_field(22, if v { 1u64 } else { 0u64 }), None => Seq::empty() })
        + (match m.bandwidth_estimate { Some(v) => enc_varint_field(23, i64_as_u64(v)), None => Seq::empty() })
        + (match m.min_audio_quality { Some(v) => enc_varint_field(24, i64_as_u64(v as i64)), None => Seq::empty() })
        + (match m.max_audio_quality { Some(v) => enc_varint_field(25, i64_as_u64(v as i64)), None => Seq::empty() })
        + (match m.video_quality_setting { Some(v) => enc_varint_field(26, i64_as_u64(v as i64)), None => Seq::empty() })
        + (match m.audio_route { Some(v) => enc_varint_field(27, i64_as_u64(v as i64)), None => Seq::empty() })
        + (match m.player_time_ms { Some(v) => enc_varint_field(28, i64_as_u64(v)), None => Seq::empty() })
        + (match m.time_since_last_seek { Some(v) => enc_varint_field(29, i64_as_u64(v)), None => Seq::empty() })
}

/// Part of the wire encoding of a `ClientAbrState`.
pub open spec fn enc_client_abr_state_g2(m: ClientAbrStateView) -> Seq<u8> {
    (match m.data_saver_mode { Some(v) => enc_varint_field(30, if v { 1u64 } else { 0u64 }), None => Seq::empty() })
        + (match m.network_metered_state { Some(v) => enc_varint_field(32, i64_as_u64(v as i64)), None => Seq::empty() })
        + (match m.visibility { Some(v) => enc_varint_field(34, i64_as_u64(v as i64)), None => Seq::empty() })
        + (match m.elapsed_wall_time_ms { Some(v) => enc_varint_field(36, i64_as_u64(v)), None => Seq::empty() })
        + (match m.media_capabilities { Some(b) => enc_len_field(38, b), None => Seq::empty() })
        + (match m.time_since_last_action_ms { Some(v) => enc_varint_field(39, i64_as_u64(v)), None => Seq::empty() })
        + (match m.enabled_track_types_bitfield { Some(v) => enc_varint_field(40, i64_as_u64(v as i64)), None => Seq::empty() })
        + (match m.max_pacing_rate { Some(v) => enc_varint_field(43, i64_as_u64(v as i64)), None => Seq::empty() })
}

/// Part of the wire encoding of a `ClientAbrState`.
pub open spec fn enc_client_abr_state_g3(m: ClientAbrStateView) -> Seq<u8> {
    (match m.player_state { Some(v) => enc_varint_field(44, i64_as_u64(v)), None => Seq::empty() })
        + (match m.drc_enabled { Some(v) => enc_varint_field(46, if v { 1u64 } else { 0u64 }), None => Seq::empty() })
        + (match m.jda { Some(v) => enc_varint_field(48, i64_as_u64(v as i64)), None => Seq::empty() })
        + (match m.qw { Some(v) => enc_varint_field(50, i64_as_u64(v as i64)), None => Seq::empty() })
        + (match m.ky { Some(v) => enc_varint_field(51, i64_as_u64(v as i64)), None => Seq::empty() })
        + (match m.sabr_report_request_cancellation_info { Some(v) => enc_varint_field(54, i64_as_u64(v as i64)), None => Seq::empty() })
        + (match m.l { Some(v) => enc_varint_field(56, if v { 1u64 } else { 0u64 }), None => Seq::empty() })
        + (match m.g7 { Some(v) => enc_varint_field(57, i64_as_u64(v)), None => Seq::empty() })
}

/// Part of the wire encoding of a `ClientAbrState`.
pub open spec fn enc_client_abr_state_g4(m: ClientAbrStateView) -> Seq<u8> {
    (match m.prefer_vp9 { Some(v) => enc_varint_field(58, if v { 1u64 } else { 0u64 }), None => Seq::empty() })
        + (match m.qj { Some(v) => enc_varint_field(59, i64_as_u64(v as i64)), None => Seq::empty() })
        + (match m.hx { Some(v) => enc_varint_field(60, i64_as_u64(v as i64)), None => Seq::empty() })
        + (match m.is_prefetch { Some(v) => enc_varint_field(61, if v { 1u64 } else { 0u64 }), None => Seq::empty() })
        + (match m.sabr_support_quality_constraints { Some(v) => enc_varint_field(62, i64_as_u64(v as i64)), None => Seq::empty() })
        + (match m.sabr_license_constraint { Some(b) => enc_len_field(63, b), None => Seq::empty() })
        + (match m.allow_proxima_live_latency { Some(v) => enc_varint_field(64, i64_as_u64(v as i64)), None => Seq::empty() })
        + (match m.sabr_force_proxima { Some(v) => enc_varint_field(66, i64_as_u64(v as i64)), None => Seq::empty() })
}

/// Part of the wire encoding of a `ClientAbrState`.
pub open spec fn enc_client_abr_state_g5(m: ClientAbrStateView) -> Seq<u8> {
    (match m.tqb { Some(v) => enc_varint_field(67, i64_as_u64(v as i64)), None => Seq::empty() })
        + (match m.sabr_force_max_network_interruption_duration_ms { Some(v) => enc_varint_field(68, i64_as_u64(v)), None => Seq::empty() })
        + (match m.audio_track_id { Some(s) => enc_len_field(69, encode_utf8(s)), None => Seq::empty() })
}

/// Wire encoding of a `ClientAbrState` message.
pub open spec fn enc_client_abr_state(m: ClientAbrStateView) -> Seq<u8> {
    enc_client_abr_state_g0(m) + enc_client_abr_state_g1(m) + enc_client_abr_state_g2(m) + enc_client_abr_state_g3(m) + enc_client_abr_state_g4(m) + enc_client_abr_state_g5(m)
}

/// Appends part of the wire encoding of a `ClientAbrState`.
#[verifier::rlimit(100)]
fn encode_client_abr_state_g0(m: &ClientAbrState, out: &mut Vec<u8>)
    ensures
        final(out)@ == old(out)@ + enc_client_abr_state_g0(m@),
{
    let ghost base = out@;
    let ghost ps0 = Seq::<u8>::empty();
    proof {
        assert(out@ == base + ps0) by {
            assert(base + ps0 =~= base);
        }
    }
    let ghost pc1 = (match m@.time_since_last_manual_format_selection_ms { Some(v) => enc_varint_field(13, i64_as_u64(v)), None => Seq::empty() });
    if let Some(v) = m.time_since_last_manual_format_selection_ms {
        append_varint_field(out, 13, i64_to_wire(v));
    }
    let ghost ps1 = ps0 + pc1;
    proof {
        vstd::seq_lib::lemma_concat_associative(base, ps0, pc1);
        assert(out@ == base + ps1);
    }
    let ghost pc2 = (match m@.last_manual_direction { Some(v) => enc_varint_field(14, zigzag32(v)), None => Seq::empty() });
    if let Some(v) = m.last_manual_direction {
        append_varint_field(out, 14, zigzag32_exec(v));
    }
    let ghost ps2 = ps1 + pc2;
    proof {
        vstd::seq_lib::lemma_concat_associative(base, ps1, pc2);
        assert(out@ == base + ps2);
    }
    let ghost pc3 = (match m@.last_manual_selected_resolution { Some(v) => enc_varint_field(16, i64_as_u64(v as i64)), None => Seq::empty() });
    if let Some(v) = m.last_manual_selected_resolution {
        append_varint_field(out, 16, i64_to_wire(v as i64));
    }
    let ghost ps3 = ps2 + pc3;
    proof {
        vstd::seq_lib::lemma_concat_associative(base, ps2, pc3);
        assert(out@ == base + ps3);
    }
    let ghost pc4 = (match m@.detailed_network_type { Some(v) => enc_varint_field(17, i64_as_u64(v as i64)), None => Seq::empty() });
    if let Some(v) = m.detailed_network_type {
        append_varint_field(out, 17, i64_to_wire(v as i64));
    }
    let ghost ps4 = ps3 + pc4;
    proof {
        vstd::seq_lib::lemma_concat_associative(base, ps3, pc4);
        assert(out@ == base + ps4);
    }
    let ghost pc5 = (match m@.client_viewport_width { Some(v) => enc_varint_field(18, i64_as_u64(v as i64)), None => Seq::empty() });
    if let Some(v) = m.client_viewport_width {
        append_varint_field(out, 18, i64_to_wire(v as i64));
    }
    let ghost ps5 = ps4 + pc5;
    proof {
        vstd::seq_lib::lemma_concat_associative(base, ps4, pc5);
        assert(out@ == base + ps5);
    }
    let ghost pc6 = (match m@.client_viewport_height { Some(v) => enc_varint_field(19, i64_as_u64(v as i64)), None => Seq::empty() });
    if let Some(v) = m.client_viewport_height {
        append_varint_field(out, 19, i64_to_wire(v as i64));
    }
    let ghost ps6 = ps5 + pc6;
    proof {
        vstd::seq_lib::lemma_concat_associative(base, ps5, pc6);
        assert(out@ == base + ps6);
    }
    let ghost pc7 = (match m@.client_bitrate_cap_bytes_per_sec { Some(v) => enc_varint_field(20, i64_as_u64(v)), None => Seq::empty() });
    if let Some(v) = m.client_bitrate_cap_bytes_per_sec {
        append_varint_field(out, 20, i64_to_wire(v));
    }
    let ghost ps7 = ps6 + pc7;
    proof {
        vstd::seq_lib::lemma_concat_associative(base, ps6, pc7);
        assert(out@ == base + ps7);
    }
    let ghost pc8 = (match m@.sticky_resolution { Some(v) => enc_varint_field(21, i64_as_u64(v as i64)), None => Seq::empty() });
    if let Some(v) = m.sticky_resolution {
        append_varint_field(out, 21, i64_to_wire(v as i64));
    }
    let ghost ps8 = ps7 + pc8;
    proof {
        vstd::seq_lib::lemma_concat_associative(base, ps7, pc8);
        assert(out@ == base + ps8);
    }
    proof {
        assert(ps8 == enc_client_abr_state_g0(m@));
    }
}

/// Appends part of the wire encoding of a `ClientAbrState`.
#[verifier::rlimit(100)]
fn encode_client_abr_state_g1(m: &ClientAbrState, out: &mut Vec<u8>)
    ensures
        final(out)@ == old(out)@ + enc_client_abr_state_g1(m@),
{
    let ghost base = out@;
    let ghost ps0 = Seq::<u8>::empty();
    proof {
        assert(out@ == base + ps0) by {
            assert(base + ps0 =~= base);
        }
    }
    let ghost pc1 = (match m@.client_viewport_is_flexible { Some(v) => enc_varint_field(22, if v { 1u64 } else { 0u64 }), None => Seq::empty() });
    if let Some(v) = m.client_viewport_is_flexible {
        append_varint_field(out, 22, if v { 1u64 } else { 0u64 });
    }
    let ghost ps1 = ps0 + pc1;
    proof {
        vstd::seq_lib::lemma_concat_associative(base, ps0, pc1);
        assert(out@ == base + ps1);
    }
    let ghost pc2 = (match m@.bandwidth_estimate { Some(v) => enc_varint_field(23, i64_as_u64(v)), None => Seq::empty() });
    if let Some(v) = m.bandwidth_estimate {
        append_varint_field(out, 23, i64_to_wire(v));
    }
    let ghost ps2 = ps1 + pc2;
    proof {
        vstd::seq_lib::lemma_concat_associative(base, ps1, pc2);
        assert(out@ == base + ps2);
    }
    let ghost pc3 = (match m@.min_audio_quality { Some(v) => enc_varint_field(24, i64_as_u64(v as i64)), None => Seq::empty() });
    if let Some(v) = m.min_audio_quality {
        append_varint_field(out, 24, i64_to_wire(v as i64));
    }
    let ghost ps3 = ps2 + pc3;
    proof {
        vstd::seq_lib::lemma_concat_associative(base, ps2, pc3);
        assert(out@ == base + ps3);
    }
    let ghost pc4 = (match m@.max_audio_quality { Some(v) => enc_varint_field(25, i64_as_u64(v as i64)), None => Seq::empty() });
    if let Some(v) = m.max_audio_quality {
        append_varint_field(out, 25, i64_to_wire(v as i64));
    }
    let ghost ps4 = ps3 + pc4;
    proof {
        vstd::seq_lib::lemma_concat_associative(base, ps3, pc4);
        assert(out@ == base + ps4);
    }
    let ghost pc5 = (match m@.video_quality_setting { Some(v) => enc_varint_field(26, i64_as_u64(v as i64)), None => Seq::empty() });
    if let Some(v) = m.video_quality_setting {
        append_varint_field(out, 26, i64_to_wire(v as i64));
    }
    let ghost ps5 = ps4 + pc5;
    proof {
        vstd::seq_lib::lemma_concat_associative(base, ps4, pc5);
        assert(out@ == base + ps5);
    }
    let ghost pc6 = (match m@.audio_route { Some(v) => enc_varint_field(27, i64_as_u64(v as i64)), None => Seq::empty() });
    if let Some(v) = m.audio_route {
        append_varint_field(out, 27, i64_to_wire(v as i64));
    }
    let ghost ps6 = ps5 + pc6;
    proof {
        vstd::seq_lib::lemma_concat_associative(base, ps5, pc6);
        assert(out@ == base + ps6);
    }
    let ghost pc7 = (match m@.player_time_ms { Some(v) => enc_varint_field(28, i64_as_u64(v)), None => Seq::empty() });
    if let Some(v) = m.player_time_ms {
        append_varint_field(out, 28, i64_to_wire(v));
    }
    let ghost ps7 = ps6 + pc7;
    proof {
        vstd::seq_lib::lemma_concat_associative(base, ps6, pc7);
        assert(out@ == base + ps7);
    }
    let ghost pc8 = (match m@.time_since_last_seek { Some(v) => enc_varint_field(29, i64_as_u64(v)), None => Seq::empty() });
    if let Some(v) = m.time_since_last_seek {
        append_varint_field(out, 29, i64_to_wire(v));
    }
    let ghost ps8 = ps7 + pc8;
    proof {
        vstd::seq_lib::lemma_concat_associative(base, ps7, pc8);
        assert(out@ == base + ps8);
    }
    proof {
        assert(ps8 == enc_client_abr_state_g1(m@));
    }
}

/// Appends part of the wire encoding of a `ClientAbrState`.
#[verifier::rlimit(100)]
fn encode_client_abr_state_g2(m: &ClientAbrState, out: &mut Vec<u8>)
    ensures
        final(out)@ == old(out)@ + enc_client_abr_state_g2(m@),
{
    let ghost base = out@;
    let ghost ps0 = Seq::<u8>::empty();
    proof {
        assert(out@ == base + ps0) by {
            assert(base + ps0 =~= base);
        }
    }
    let ghost pc1 = (match m@.data_saver_mode { Some(v) => enc_varint_field(30, if v { 1u64 } else { 0u64 }), None => Seq::empty() });
    if let Some(v) = m.data_saver_mode {
        append_varint_field(out, 30, if v { 1u64 } else { 0u64 });
    }
    let ghost ps1 = ps0 + pc1;
    proof {
        vstd::seq_lib::lemma_concat_associative(base, ps0, pc1);
        assert(out@ == base + ps1);
    }
    let ghost pc2 = (match m@.network_metered_state { Some(v) => enc_varint_field(32, i64_as_u64(v as i64)), None => Seq::empty() });
    if let Some(v) = m.network_metered_state {
        append_varint_field(out, 32, i64_to_wire(v as i64));
    }
    let ghost ps2 = ps1 + pc2;
    proof {
        vstd::seq_lib::lemma_concat_associative(base, ps1, pc2);
        assert(out@ == base + ps2);
    }
    let ghost pc3 = (match m@.visibility { Some(v) => enc_varint_field(34, i64_as_u64(v as i64)), None => Seq::empty() });
    if let Some(v) = m.visibility {
        append_varint_field(out, 34, i64_to_wire(v as i64));
    }
    let ghost ps3 = ps2 + pc3;
    proof {
        vstd::seq_lib::lemma_concat_associative(base, ps2, pc3);
        assert(out@ == base + ps3);
    }
    let ghost pc4 = (match m@.elapsed_wall_time_ms { Some(v) => enc_varint_field(36, i64_as_u64(v)), None => Seq::empty() });
    if let Some(v) = m.elapsed_wall_time_ms {
        append_varint_field(out, 36, i64_to_wire(v));
    }
    let ghost ps4 = ps3 + pc4;
    proof {
        vstd::seq_lib::lemma_concat_associative(base, ps3, pc4);
        assert(out@ == base + ps4);
    }
    let ghost pc5 = (match m@.media_capabilities { Some(b) => enc_len_field(38, b), None => Seq::empty() });
    if let Some(b) = &m.media_capabilities {
        append_len_field(out, 38, b.as_slice());
    }
    let ghost ps5 = ps4 + pc5;
    proof {
        vstd::seq_lib::lemma_concat_associative(base, ps4, pc5);
        assert(out@ == base + ps5);
    }
    let ghost pc6 = (match m@.time_since_last_action_ms { Some(v) => enc_varint_field(39, i64_as_u64(v)), None => Seq::empty() });
    if let Some(v) = m.time_since_last_action_ms {
        append_varint_field(out, 39, i64_to_wire(v));
    }
    let ghost ps6 = ps5 + pc6;
    proof {
        vstd::seq_lib::lemma_concat_associative(base, ps5, pc6);
        assert(out@ == base + ps6);
    }
    let ghost pc7 = (match m@.enabled_track_types_bitfield { Some(v) => enc_varint_field(40, i64_as_u64(v as i64)), None => Seq::empty() });
    if let Some(v) = m.enabled_track_types_bitfield {
        append_varint_field(out, 40, i64_to_wire(v as i64));
    }
    let ghost ps7 = ps6 + pc7;
    proof {
        vstd::seq_lib::lemma_concat_associative(base, ps6, pc7);
        assert(out@ == base + ps7);
    }
    let ghost pc8 = (match m@.max_pacing_rate { Some(v) => enc_varint_field(43, i64_as_u64(v as i64)), None => Seq::empty() });
    if let Some(v) = m.max_pacing_rate {
        append_varint_field(out, 43, i64_to_wire(v as i64));
    }
    let ghost ps8 = ps7 + pc8;
    proof {
        vstd::seq_lib::lemma_concat_associative(base, ps7, pc8);
        assert(out@ == base + ps8);
    }
    proof {
        assert(ps8 == enc_client_abr_state_g2(m@));
    }
}

/// Appends part of the wire encoding of a `ClientAbrState`.
#[verifier::rlimit(100)]
fn encode_client_abr_state_g3(m: &ClientAbrState, out: &mut Vec<u8>)
    ensures
        final(out)@ == old(out)@ + enc_client_abr_state_g3(m@),
{
    let ghost base = out@;
    let ghost ps0 = Seq::<u8>::empty();
    proof {
        assert(out@ == base + ps0) by {
            assert(base + ps0 =~= base);
        }
    }
    let ghost pc1 = (match m@.player_state { Some(v) => enc_varint_field(44, i64_as_u64(v)), None => Seq::empty() });
    if let Some(v) = m.player_state {
        append_varint_field(out, 44, i64_to_wire(v));
    }
    let ghost ps1 = ps0 + pc1;
    proof {
        vstd::seq_lib::lemma_concat_associative(base, ps0, pc1);
        assert(out@ == base + ps1);
    }
    let ghost pc2 = (match m@.drc_enabled { Some(v) => enc_varint_field(46, if v { 1u64 } else { 0u64 }), None => Seq::empty() });
    if let Some(v) = m.drc_enabled {
        append_varint_field(out, 46, if v { 1u64 } else { 0u64 });
    }
    let ghost ps2 = ps1 + pc2;
    proof {
        vstd::seq_lib::lemma_concat_associative(base, ps1, pc2);
        assert(out@ == base + ps2);
    }
    let ghost pc3 = (match m@.jda { Some(v) => enc_varint_field(48, i64_as_u64(v as i64)), None => Seq::empty() });
    if let Some(v) = m.jda {
        append_varint_field(out, 48, i64_to_wire(v as i64));
    }
    let ghost ps3 = ps2 + pc3;
    proof {
        vstd::seq_lib::lemma_concat_associative(base, ps2, pc3);
        assert(out@ == base + ps3);
    }
    let ghost pc4 = (match m@.qw { Some(v) => enc_varint_field(50, i64_as_u64(v as i64)), None => Seq::empty() });
    if let Some(v) = m.qw {
        append_varint_field(out, 50, i64_to_wire(v as i64));
    }
    let ghost ps4 = ps3 + pc4;
    proof {
        vstd::seq_lib::lemma_concat_associative(base, ps3, pc4);
        assert(out@ == base + ps4);
    }
    let ghost pc5 = (match m@.ky { Some(v) => enc_varint_field(51, i64_as_u64(v as i64)), None => Seq::empty() });
    if let Some(v) = m.ky {
        append_varint_field(out, 51, i64_to_wire(v as i64));
    }
    let ghost ps5 = ps4 + pc5;
    proof {
        vstd::seq_lib::lemma_concat_associative(base, ps4, pc5);
        assert(out@ == base + ps5);
    }
    let ghost pc6 = (match m@.sabr_report_request_cancellation_info { Some(v) => enc_varint_field(54, i64_as_u64(v as i64)), None => Seq::empty() });
    if let Some(v) = m.sabr_report_request_cancellation_info {
        append_varint_field(out, 54, i64_to_wire(v as i64));
    }
    let ghost ps6 = ps5 + pc6;
    proof {
        vstd::seq_lib::lemma_concat_associative(base, ps5, pc6);
        assert(out@ == base + ps6);
    }
    let ghost pc7 = (match m@.l { Some(v) => enc_varint_field(56, if v { 1u64 } else { 0u64 }), None => Seq::empty() });
    if let Some(v) = m.l {
        append_varint_field(out, 56, if v { 1u64 } else { 0u64 });
    }
    let ghost ps7 = ps6 + pc7;
    proof {
        vstd::seq_lib::lemma_concat_associative(base, ps6, pc7);
        assert(out@ == base + ps7);
    }
    let ghost pc8 = (match m@.g7 { Some(v) => enc_varint_field(57, i64_as_u64(v)), None => Seq::empty() });
    if let Some(v) = m.g7 {
        append_varint_field(out, 57, i64_to_wire(v));
    }
    let ghost ps8 = ps7 + pc8;
    proof {
        vstd::seq_lib::lemma_concat_associative(base, ps7, pc8);
        assert(out@ == base + ps8);
    }
    proof {
        assert(ps8 == enc_client_abr_state_g3(m@));
    }
}

/// Appends part of the wire encoding of a `ClientAbrState`.
#[verifier::rlimit(100)]
fn encode_client_abr_state_g4(m: &ClientAbrState, out: &mut Vec<u8>)
    ensures
        final(out)@ == old(out)@ + enc_client_abr_state_g4(m@),
{
    let ghost base = out@;
    let ghost ps0 = Seq::<u8>::empty();
    proof {
        assert(out@ == base + ps0) by {
            assert(base + ps0 =~= base);
        }
    }
    let ghost pc1 = (match m@.prefer_vp9 { Some(v) => enc_varint_field(58, if v { 1u64 } else { 0u64 }), None => Seq::empty() });
    if let Some(v) = m.prefer_vp9 {
        append_varint_field(out, 58, if v { 1u64 } else { 0u64 });
    }
    let ghost ps1 = ps0 + pc1;
    proof {
        vstd::seq_lib::lemma_concat_associative(base, ps0, pc1);
        assert(out@ == base + ps1);
    }
    let ghost pc2 = (match m@.qj { Some(v) => enc_varint_field(59, i64_as_u64(v as i64)), None => Seq::empty() });
    if let Some(v) = m.qj {
        append_varint_field(out, 59, i64_to_wire(v as i64));
    }
    let ghost ps2 = ps1 + pc2;
    proof {
        vstd::seq_lib::lemma_concat_associative(base, ps1, pc2);
        assert(out@ == base + ps2);
    }
    let ghost pc3 = (match m@.hx { Some(v) => enc_varint_field(60, i64_as_u64(v as i64)), None => Seq::empty() });
    if let Some(v) = m.hx {
        append_varint_field(out, 60, i64_to_wire(v as i64));
    }
    let ghost ps3 = ps2 + pc3;
    proof {
        vstd::seq_lib::lemma_concat_associative(base, ps2, pc3);
        assert(out@ == base + ps3);
    }
    let ghost pc4 = (match m@.is_prefetch { Some(v) => enc_varint_field(61, if v { 1u64 } else { 0u64 }), None => Seq::empty() });
    if let Some(v) = m.is_prefetch {
        append_varint_field(out, 61, if v { 1u64 } else { 0u64 });
    }
    let ghost ps4 = ps3 + pc4;
    proof {
        vstd::seq_lib::lemma_concat_associative(base, ps3, pc4);
        assert(out@ == base + ps4);
    }
    let ghost pc5 = (match m@.sabr_support_quality_constraints { Some(v) => enc_varint_field(62, i64_as_u64(v as i64)), None => Seq::empty() });
    if let Some(v) = m.sabr_support_quality_constraints {
        append_varint_field(out, 62, i64_to_wire(v as i64));
    }
    let ghost ps5 = ps4 + pc5;
    proof {
        vstd::seq_lib::lemma_concat_associative(base, ps4, pc5);
        assert(out@ == base + ps5);
    }
    let ghost pc6 = (match m@.sabr_license_constraint { Some(b) => enc_len_field(63, b), None => Seq::empty() });
    if let Some(b) = &m.sabr_license_constraint {
        append_len_field(out, 63, b.as_slice());
    }
    let ghost ps6 = ps5 + pc6;
    proof {
        vstd::seq_lib::lemma_concat_associative(base, ps5, pc6);
        assert(out@ == base + ps6);
    }
    let ghost pc7 = (match m@.allow_proxima_live_latency { Some(v) => enc_varint_field(64, i64_as_u64(v as i64)), None => Seq::empty() });
    if let Some(v) = m.allow_proxima_live_latency {
        append_varint_field(out, 64, i64_to_wire(v as i64));
    }
    let ghost ps7 = ps6 + pc7;
    proof {
        vstd::seq_lib::lemma_concat_associative(base, ps6, pc7);
        assert(out@ == base + ps7);
    }
    let ghost pc8 = (match m@.sabr_force_proxima { Some(v) => enc_varint_field(66, i64_as_u64(v as i64)), None => Seq::empty() });
    if let Some(v) = m.sabr_force_proxima {
        append_varint_field(out, 66, i64_to_wire(v as i64));
    }
    let ghost ps8 = ps7 + pc8;
    proof {
        vstd::seq_lib::lemma_concat_associative(base, ps7, pc8);
        assert(out@ == base + ps8);
    }
    proof {
        assert(ps8 == enc_client_abr_state_g4(m@));
    }
}

/// Appends part of the wire encoding of a `ClientAbrState`.
#[verifier::rlimit(100)]
fn encode_client_abr_state_g5(m: &ClientAbrState, out: &mut Vec<u8>)
    ensures
        final(out)@ == old(out)@ + enc_client_abr_state_g5(m@),
{
    let ghost base = out@;
    let ghost ps0 = Seq::<u8>::empty();
    proof {
        assert(out@ == base + ps0) by {
            assert(base + ps0 =~= base);
        }
    }
    let ghost pc1 = (match m@.tqb { Some(v) => enc_varint_field(67, i64_as_u64(v as i64)), None => Seq::empty() });
    if let Some(v) = m.tqb {
        append_varint_field(out, 67, i64_to_wire(v as i64));
    }
    let ghost ps1 = ps0 + pc1;
    proof {
        vstd::seq_lib::lemma_concat_associative(base, ps0, pc1);
        assert(out@ == base + ps1);
    }
    let ghost pc2 = (match m@.sabr_force_max_network_interruption_duration_ms { Some(v) => enc_varint_field(68, i64_as_u64(v)), None => Seq::empty() });
    if let Some(v) = m.sabr_force_max_network_interruption_duration_ms {
        append_varint_field(out, 68, i64_to_wire(v));
    }
    let ghost ps2 = ps1 + pc2;
    proof {
        vstd::seq_lib::lemma_concat_associative(base, ps1, pc2);
        assert(out@ == base + ps2);
    }
    let ghost pc3 = (match m@.audio_track_id { Some(s) => enc_len_field(69, encode_utf8(s)), None => Seq::empty() });
    if let Some(s) = &m.audio_track_id {
        let b = string_field_bytes(s);
        append_len_field(out, 69, b.as_slice());
    }
    let ghost ps3 = ps2 + pc3;
    proof {
        vstd::seq_lib::lemma_concat_associative(base, ps2, pc3);
        assert(out@ == base + ps3);
    }
    proof {
        assert(ps3 == enc_client_abr_state_g5(m@));
    }
}

/// Appends the wire encoding of a `ClientAbrState`.
pub fn encode_client_abr_state(m: &ClientAbrState, out: &mut Vec<u8>)
    ensures
        final(out)@ == old(out)@ + enc_client_abr_state(m@),
{
    let ghost base = out@;
    encode_client_abr_state_g0(m, out);
    let ghost g0 = enc_client_abr_state_g0(m@);
    encode_client_abr_state_g1(m, out);
    let ghost g1 = enc_client_abr_state_g1(m@);
    encode_client_abr_state_g2(m, out);
    let ghost g2 = enc_client_abr_state_g2(m@);
    encode_client_abr_state_g3(m, out);
    let ghost g3 = enc_client_abr_state_g3(m@);
    encode_client_abr_state_g4(m, out);
    let ghost g4 = enc_client_abr_state_g4(m@);
    encode_client_abr_state_g5(m, out);
    let ghost g5 = enc_client_abr_state_g5(m@);
    let ghost t1 = g0 + g1;
    let ghost t2 = t1 + g2;
    let ghost t3 = t2 + g3;
    let ghost t4 = t3 + g4;
    let ghost t5 = t4 + g5;
    proof {
        vstd::seq_lib::lemma_concat_associative(base, g0, g1);
        vstd::seq_lib::lemma_concat_associative(base, t1, g2);
        vstd::seq_lib::lemma_concat_associative(base, t2, g3);
        vstd::seq_lib::lemma_concat_associative(base, t3, g4);
        vstd::seq_lib::lemma_concat_associative(base, t4, g5);
        assert(t5 == enc_client_abr_state(m@));
        assert(out@ == base + t5);
    }
}

/// The `Fqa` message.
#[derive(Debug, Clone, PartialEq)]
pub struct Fqa {
    pub kind: Option<i32>,
    pub value: Option<Vec<u8>>,
}

/// Ghost form of [`Fqa`].
pub struct FqaView {
    pub kind: Option<i32>,
    pub value: Option<Seq<u8>>,
}

impl View for Fqa {
    type V = FqaView;

    open spec fn view(&self) -> FqaView {
        FqaView {
            kind: self.kind,
            value: match self.value { Some(b) => Some(b@), None => None },
        }
    }
}

/// Wire encoding of a `Fqa` message.
pub open spec fn enc_fqa(m: FqaView) -> Seq<u8> {
    (match m.kind { Some(v) => enc_varint_field(1, i64_as_u64(v as i64)), None => Seq::empty() })
        + (match m.value { Some(b) => enc_len_field(2, b), None => Seq::empty() })
}

/// Appends the wire encoding of a `Fqa`.
#[verifier::rlimit(100)]
pub fn encode_fqa(m: &Fqa, out: &mut Vec<u8>)
    ensures
        final(out)@ == old(out)@ + enc_fqa(m@),
{
    let ghost base = out@;
    let ghost ps0 = Seq::<u8>::empty();
    proof {
        assert(out@ == base + ps0) by {
            assert(base + ps0 =~= base);
        }
    }
    let ghost pc1 = (match m@.kind { Some(v) => enc_varint_field(1, i64_as_u64(v as i64)), None => Seq::empty() });
    if let Some(v) = m.kind {
        append_varint_field(out, 1, i64_to_wire(v as i64));
    }
    let ghost ps1 = ps0 + pc1;
    proof {
        vstd::seq_lib::lemma_concat_associative(base, ps0, pc1);
        assert(out@ == base + ps1);
    }
    let ghost pc2 = (match m@.value { Some(b) => enc_len_field(2, b), None => Seq::empty() });
    if let Some(b) = &m.value {
        append_len_field(out, 2, b.as_slice());
    }
    let ghost ps2 = ps1 + pc2;
    proof {
        vstd::seq_lib::lemma_concat_associative(base, ps1, pc2);
        assert(out@ == base + ps2);
    }
    proof {
        assert(ps2 == enc_fqa(m@));
    }
}

/// The `Hqa` message.
#[derive(Debug, Clone, PartialEq)]
pub struct Hqa {
    pub code: Option<i32>,
    pub message: Option<String>,
}

/// Ghost form of [`Hqa`].
pub struct HqaView {
    pub code: Option<i32>,
    pub message: Option<Seq<char>>,
}

impl View for Hqa {
    type V = HqaView;

    open spec fn view(&self) -> HqaView {
        HqaView {
            code: self.code,
            message: match self.message { Some(s) => Some(s@), None => None },
        }
    }
}

/// Wire encoding of a `Hqa` message.
pub open spec fn enc_hqa(m: HqaView) -> Seq<u8> {
    (match m.code { Some(v) => enc_varint_field(1, i64_as_u64(v as i64)), None => Seq::empty() })
        + (match m.message { Some(s) => enc_len_field(2, encode_utf8(s)), None => Seq::empty() })
}

/// Appends the wire encoding of a `Hqa`.
#[verifier::rlimit(100)]
pub fn encode_hqa(m: &Hqa, out: &mut Vec<u8>)
    ensures
        final(out)@ == old(out)@ + enc_hqa(m@),
{
    let ghost base = out@;
    let ghost ps0 = Seq::<u8>::empty();
    proof {
        assert(out@ == base + ps0) by {
            assert(base + ps0 =~= base);
        }
    }
    let ghost pc1 = (match m@.code { Some(v) => enc_varint_field(1, i64_as_u64(v as i64)), None => Seq::empty() });
    if let Some(v) = m.code {
        append_varint_field(out, 1, i64_to_wire(v as i64));
    }
    let ghost ps1 = ps0 + pc1;
    proof {
        vstd::seq_lib::lemma_concat_associative(base, ps0, pc1);
        assert(out@ == base + ps1);
    }
    let ghost pc2 = (match m@.message { Some(s) => enc_len_field(2, encode_utf8(s)), None => Seq::empty() });
    if let Some(s) = &m.message {
        let b = string_field_bytes(s);
        append_len_field(out, 2, b.as_slice());
    }
    let ghost ps2 = ps1 + pc2;
    proof {
        vstd::seq_lib::lemma_concat_associative(base, ps1, pc2);
        assert(out@ == base + ps2);
    }
    proof {
        assert(ps2 == enc_hqa(m@));
    }
}

/// The `Gqa` message.
#[derive(Debug, Clone, PartialEq)]
pub struct Gqa {
    pub field1: Option<Vec<u8>>,
    pub field2: Option<Hqa>,
}

/// Ghost form of [`Gqa`].
pub struct GqaView {
    pub field1: Option<Seq<u8>>,
    pub field2: Option<HqaView>,
}

impl View for Gqa {
    type V = GqaView;

    open spec fn view(&self) -> GqaView {
        GqaView {
            field1: match self.field1 { Some(b) => Some(b@), None => None },
            field2: match self.field2 { Some(v) => Some(v@), None => None },
        }
    }
}

/// Wire encoding of a `Gqa` message.
pub open spec fn enc_gqa(m: GqaView) -> Seq<u8> {
    (match m.field1 { Some(b) => enc_len_field(1, b), None => Seq::empty() })
        + (match m.field2 { Some(v) => enc_len_field(2, enc_hqa(v)), None => Seq::empty() })
}

/// Appends the wire encoding of a `Gqa`.
#[verifier::rlimit(100)]
pub fn encode_gqa(m: &Gqa, out: &mut Vec<u8>)
    ensures
        final(out)@ == old(out)@ + enc_gqa(m@),
{
    let ghost base = out@;
    let ghost ps0 = Seq::<u8>::empty();
    proof {
        assert(out@ == base + ps0) by {
            assert(base + ps0 =~= base);
        }
    }
    let ghost pc1 = (match m@.field1 { Some(b) => enc_len_field(1, b), None => Seq::empty() });
    if let Some(b) = &m.field1 {
        append_len_field(out, 1, b.as_slice());
    }
    let ghost ps1 = ps0 + pc1;
    proof {
        vstd::seq_lib::lemma_concat_associative(base, ps0, pc1);
        assert(out@ == base + ps1);
    }
    let ghost pc2 = (match m@.field2 { Some(v) => enc_len_field(2, enc_hqa(v)), None => Seq::empty() });
    if let Some(v) = &m.field2 {
        let mut tmp: Vec<u8> = Vec::new();
        encode_hqa(v, &mut tmp);
        append_len_field(out, 2, tmp.as_slice());
    }
    let ghost ps2 = ps1 + pc2;
    proof {
        vstd::seq_lib::lemma_concat_associative(base, ps1, pc2);
        assert(out@ == base + ps2);
    }
    proof {
        assert(ps2 == enc_gqa(m@));
    }
}

/// The `StreamerContext` message.
#[derive(Debug, Clone, PartialEq)]
pub struct StreamerContext {
    pub client_info: Option<ClientInfo>,
    pub po_token: Option<Vec<u8>>,
    pub playback_cookie: Option<Vec<u8>>,
    pub gp: Option<Vec<u8>>,
    pub field5: Vec<Fqa>,
    pub field6: Vec<i32>,
    pub field7: Option<String>,
    pub field8: Option<Gqa>,
}

/// Ghost form of [`StreamerContext`].
pub struct StreamerContextView {
    pub client_info: Option<ClientInfoView>,
    pub po_token: Option<Seq<u8>>,
    pub playback_cookie: Option<Seq<u8>>,
    pub gp: Option<Seq<u8>>,
    pub field5: Seq<FqaView>,
    pub field6: Seq<i32>,
    pub field7: Option<Seq<char>>,
    pub field8: Option<GqaView>,
}

impl View for StreamerContext {
    type V = StreamerContextView;

    open spec fn view(&self) -> StreamerContextView {
        StreamerContextView {
            client_info: match self.client_info { Some(v) => Some(v@), None => None },
            po_token: match self.po_token { Some(b) => Some(b@), None => None },
            playback_cookie: match self.playback_cookie { Some(b) => Some(b@), None => None },
            gp: match self.gp { Some(b) => Some(b@), None => None },
            field5: fqas_view(self.field5@),
            field6: self.field6@,
            field7: match self.field7 { Some(s) => Some(s@), None => None },
            field8: match self.field8 { Some(v) => Some(v@), None => None },
        }
    }
}

/// Wire encoding of a `StreamerContext` message.
pub open spec fn enc_streamer_context(m: StreamerContextView) -> Seq<u8> {
    (match m.client_info { Some(v) => enc_len_field(1, enc_client_info(v)), None => Seq::empty() })
        + (match m.po_token { Some(b) => enc_len_field(2, b), None => Seq::empty() })
        + (match m.playback_cookie { Some(b) => enc_len_field(3, b), None => Seq::empty() })
        + (match m.gp { Some(b) => enc_len_field(4, b), None => Seq::empty() })
        + enc_msg_list_fqa(5, m.field5)
        + (if m.field6.len() == 0 { Seq::empty() } else { enc_len_field(6, packed_i32_body(m.field6)) })
        + (match m.field7 { Some(s) => enc_len_field(7, encode_utf8(s)), None => Seq::empty() })
        + (match m.field8 { Some(v) => enc_len_field(8, enc_gqa(v)), None => Seq::empty() })
}

/// Appends the wire encoding of a `StreamerContext`.
#[verifier::rlimit(100)]
pub fn encode_streamer_context(m: &StreamerContext, out: &mut Vec<u8>)
    ensures
        final(out)@ == old(out)@ + enc_streamer_context(m@),
{
    let ghost base = out@;
    let ghost ps0 = Seq::<u8>::empty();
    proof {
        assert(out@ == base + ps0) by {
            assert(base + ps0 =~= base);
        }
    }
    let ghost pc1 = (match m@.client_info { Some(v) => enc_len_field(1, enc_client_info(v)), None => Seq::empty() });
    if let Some(v) = &m.client_info {
        let mut tmp: Vec<u8> = Vec::new();
        encode_client_info(v, &mut tmp);
        append_len_field(out, 1, tmp.as_slice());
    }
    let ghost ps1 = ps0 + pc1;
    proof {
        vstd::seq_lib::lemma_concat_associative(base, ps0, pc1);
        assert(out@ == base + ps1);
    }
    let ghost pc2 = (match m@.po_token { Some(b) => enc_len_field(2, b), None => Seq::empty() });
    if let Some(b) = &m.po_token {
        append_len_field(out, 2, b.as_slice());
    }
    let ghost ps2 = ps1 + pc2;
    proof {
        vstd::seq_lib::lemma_concat_associative(base, ps1, pc2);
        assert(out@ == base + ps2);
    }
    let ghost pc3 = (match m@.playback_cookie { Some(b) => enc_len_field(3, b), None => Seq::empty() });
    if let Some(b) = &m.playback_cookie {
        append_len_field(out, 3, b.as_slice());
    }
    let ghost ps3 = ps2 + pc3;
    proof {
        vstd::seq_lib::lemma_concat_associative(base, ps2, pc3);
        assert(out@ == base + ps3);
    }
    let ghost pc4 = (match m@.gp { Some(b) => enc_len_field(4, b), None => Seq::empty() });
    if let Some(b) = &m.gp {
        append_len_field(out, 4, b.as_slice());
    }
    let ghost ps4 = ps3 + pc4;
    proof {
        vstd::seq_lib::lemma_concat_associative(base, ps3, pc4);
        assert(out@ == base + ps4);
    }
    let ghost pc5 = enc_msg_list_fqa(5, m@.field5);
    append_msg_list_fqa(out, 5, &m.field5);
    let ghost ps5 = ps4 + pc5;
    proof {
        vstd::seq_lib::lemma_concat_associative(base, ps4, pc5);
        assert(out@ == base + ps5);
    }
    let ghost pc6 = (if m@.field6.len() == 0 { Seq::empty() } else { enc_len_field(6, packed_i32_body(m@.field6)) });
    if m.field6.len() > 0 {
        let mut tmp: Vec<u8> = Vec::new();
        let mut pi: usize = 0;
        proof {
            assert(packed_i32_body(m.field6@.take(0)) =~= Seq::<u8>::empty());
            assert(tmp@ =~= packed_i32_body(m.field6@.take(0)));
        }
        while pi < m.field6.len()
            invariant
                pi <= m.field6@.len(),
                tmp@ == packed_i32_body(m.field6@.take(pi as int)),
            decreases m.field6@.len() - pi,
        {
            let w = write_pb_varint(i64_to_wire(m.field6[pi] as i64));
            tmp.extend_from_slice(w.as_slice());
            proof {
                lemma_packed_i32_snoc(m.field6@, pi as int);
                assert(tmp@ =~= packed_i32_body(m.field6@.take(pi + 1)));
            }
            pi = pi + 1;
        }
        proof {
            assert(m.field6@.take(m.field6@.len() as int) =~= m.field6@);
        }
        append_len_field(out, 6, tmp.as_slice());
    }
    let ghost ps6 = ps5 + pc6;
    proof {
        vstd::seq_lib::lemma_concat_associative(base, ps5, pc6);
        assert(out@ == base + ps6);
    }
    let ghost pc7 = (match m@.field7 { Some(s) => enc_len_field(7, encode_utf8(s)), None => Seq::empty() });
    if let Some(s) = &m.field7 {
        let b = string_field_bytes(s);
        append_len_field(out, 7, b.as_slice());
    }
    let ghost ps7 = ps6 + pc7;
    proof {
        vstd::seq_lib::lemma_concat_associative(base, ps6, pc7);
        assert(out@ == base + ps7);
    }
    let ghost pc8 = (match m@.field8 { Some(v) => enc_len_field(8, enc_gqa(v)), None => Seq::empty() });
    if let Some(v) = &m.field8 {
        let mut tmp: Vec<u8> = Vec::new();
        encode_gqa(v, &mut tmp);
        append_len_field(out, 8, tmp.as_slice());
    }
    let ghost ps8 = ps7 + pc8;
    proof {
        vstd::seq_lib::lemma_concat_associative(base, ps7, pc8);
        assert(out@ == base + ps8);
    }
    proof {
        assert(ps8 == enc_streamer_context(m@));
    }
}

/// The `LoField4` message.
#[derive(Debug, Clone, PartialEq)]
pub struct LoField4 {
    pub field1: Option<i32>,
    pub field2: Option<i32>,
    pub field3: Option<i32>,
}

/// Ghost form of [`LoField4`].
pub struct LoField4View {
    pub field1: Option<i32>,
    pub field2: Option<i32>,
    pub field3: Option<i32>,
}

impl View for LoField4 {
    type V = LoField4View;

    open spec fn view(&self) -> LoField4View {
        LoField4View {
            field1: self.field1,
            field2: self.field2,
            field3: self.field3,
        }
    }
}

/// Wire encoding of a `LoField4` message.
pub open spec fn enc_lo_field4(m: LoField4View) -> Seq<u8> {
    (match m.field1 { Some(v) => enc_varint_field(1, i64_as_u64(v as i64)), None => Seq::empty() })
        + (match m.field2 { Some(v) => enc_varint_field(2, i64_as_u64(v as i64)), None => Seq::empty() })
        + (match m.field3 { Some(v) => enc_varint_field(3, i64_as_u64(v as i64)), None => Seq::empty() })
}

/// Appends the wire encoding of a `LoField4`.
#[verifier::rlimit(100)]
pub fn encode_lo_field4(m: &LoField4, out: &mut Vec<u8>)
    ensures
        final(out)@ == old(out)@ + enc_lo_field4(m@),
{
    let ghost base = out@;
    let ghost ps0 = Seq::<u8>::empty();
    proof {
        assert(out@ == base + ps0) by {
            assert(base + ps0 =~= base);
        }
    }
    let ghost pc1 = (match m@.field1 { Some(v) => enc_varint_field(1, i64_as_u64(v as i64)), None => Seq::empty() });
    if let Some(v) = m.field1 {
        append_varint_field(out, 1, i64_to_wire(v as i64));
    }
    let ghost ps1 = ps0 + pc1;
    proof {
        vstd::seq_lib::lemma_concat_associative(base, ps0, pc1);
        assert(out@ == base + ps1);
    }
    let ghost pc2 = (match m@.field2 { Some(v) => enc_varint_field(2, i64_as_u64(v as i64)), None => Seq::empty() });
    if let Some(v) = m.field2 {
        append_varint_field(out, 2, i64_to_wire(v as i64));
    }
    let ghost ps2 = ps1 + pc2;
    proof {
        vstd::seq_lib::lemma_concat_associative(base, ps1, pc2);
        assert(out@ == base + ps2);
    }
    let ghost pc3 = (match m@.field3 { Some(v) => enc_varint_field(3, i64_as_u64(v as i64)), None => Seq::empty() });
    if let Some(v) = m.field3 {
        append_varint_field(out, 3, i64_to_wire(v as i64));
    }
    let ghost ps3 = ps2 + pc3;
    proof {
        vstd::seq_lib::lemma_concat_associative(base, ps2, pc3);
        assert(out@ == base + ps3);
    }
    proof {
        assert(ps3 == enc_lo_field4(m@));
    }
}

/// The `Lo` message.
#[derive(Debug, Clone, PartialEq)]
pub struct Lo {
    pub format_id: Option<FormatId>,
    pub lj: Option<i32>,
    pub sequence_number: Option<i32>,
    pub field4: Option<LoField4>,
    pub mz: Option<i32>,
}

/// Ghost form of [`Lo`].
pub struct LoView {
    pub format_id: Option<FormatIdView>,
    pub lj: Option<i32>,
    pub sequence_number: Option<i32>,
    pub field4: Option<LoField4View>,
    pub mz: Option<i32>,
}

impl View for Lo {
    type V = LoView;

    open spec fn view(&self) -> LoView {
        LoView {
            format_id: match self.format_id { Some(v) => Some(v@), None => None },
            lj: self.lj,
            sequence_number: self.sequence_number,
            field4: match self.field4 { Some(v) => Some(v@), None => None },
            mz: self.mz,
        }
    }
}

/// Wire encoding of a `Lo` message.
pub open spec fn enc_lo(m: LoView) -> Seq<u8> {
    (match m.format_id { Some(v) => enc_len_field(1, enc_format_id(v)), None => Seq::empty() })
        + (match m.lj { Some(v) => enc_varint_field(2, i64_as_u64(v as i64)), None => Seq::empty() })
        + (match m.sequence_number { Some(v) => enc_varint_field(3, i64_as_u64(v as i64)), None => Seq::empty() })
        + (match m.field4 { Some(v) => enc_len_field(4, enc_lo_field4(v)), None => Seq::empty() })
        + (match m.mz { Some(v) => enc_varint_field(5, i64_as_u64(v as i64)), None => Seq::empty() })
}

/// Appends the wire encoding of a `Lo`.
#[verifier::rlimit(100)]
pub fn encode_lo(m: &Lo, out: &mut Vec<u8>)
    ensures
        final(out)@ == old(out)@ + enc_lo(m@),
{
    let ghost base = out@;
    let ghost ps0 = Seq::<u8>::empty();
    proof {
        assert(out@ == base + ps0) by {
            assert(base + ps0 =~= base);
        }
    }
    let ghost pc1 = (match m@.format_id { Some(v) => enc_len_field(1, enc_format_id(v)), None => Seq::empty() });
    if let Some(v) = &m.format_id {
        let mut tmp: Vec<u8> = Vec::new();
        encode_format_id(v, &mut tmp);
        append_len_field(out, 1, tmp.as_slice());
    }
    let ghost ps1 = ps0 + pc1;
    proof {
        vstd::seq_lib::lemma_concat_associative(base, ps0, pc1);
        assert(out@ == base + ps1);
    }
    let ghost pc2 = (match m@.lj { Some(v) => enc_varint_field(2, i64_as_u64(v as i64)), None => Seq::empty() });
    if let Some(v) = m.lj {
        append_varint_field(out, 2, i64_to_wire(v as i64));
    }
    let ghost ps2 = ps1 + pc2;
    proof {
        vstd::seq_lib::lemma_concat_associative(base, ps1, pc2);
        assert(out@ == base + ps2);
    }
    let ghost pc3 = (match m@.sequence_number { Some(v) => enc_varint_field(3, i64_as_u64(v as i64)), None => Seq::empty() });
    if let Some(v) = m.sequence_number {
        append_varint_field(out, 3, i64_to_wire(v as i64));
    }
    let ghost ps3 = ps2 + pc3;
    proof {
        vstd::seq_lib::lemma_concat_associative(base, ps2, pc3);
        assert(out@ == base + ps3);
    }
    let ghost pc4 = (match m@.field4 { Some(v) => enc_len_field(4, enc_lo_field4(v)), None => Seq::empty() });
    if let Some(v) = &m.field4 {
        let mut tmp: Vec<u8> = Vec::new();
        encode_lo_field4(v, &mut tmp);
        append_len_field(out, 4, tmp.as_slice());
    }
    let ghost ps4 = ps3 + pc4;
    proof {
        vstd::seq_lib::lemma_concat_associative(base, ps3, pc4);
        assert(out@ == base + ps4);
    }
    let ghost pc5 = (match m@.mz { Some(v) => enc_varint_field(5, i64_as_u64(v as i64)), None => Seq::empty() });
    if let Some(v) = m.mz {
        append_varint_field(out, 5, i64_to_wire(v as i64));
    }
    let ghost ps5 = ps4 + pc5;
    proof {
        vstd::seq_lib::lemma_concat_associative(base, ps4, pc5);
        assert(out@ == base + ps5);
    }
    proof {
        assert(ps5 == enc_lo(m@));
    }
}

/// The `OQa` message.
#[derive(Debug, Clone, PartialEq)]
pub struct OQa {
    pub field1: Vec<String>,
    pub field2: Option<Vec<u8>>,
    pub field3: Option<String>,
    pub field4: Option<i32>,
    pub field5: Option<i32>,
    pub field6: Option<String>,
}

/// Ghost form of [`OQa`].
pub struct OQaView {
    pub field1: Seq<Seq<char>>,
    pub field2: Option<Seq<u8>>,
    pub field3: Option<Seq<char>>,
    pub field4: Option<i32>,
    pub field5: Option<i32>,
    pub field6: Option<Seq<char>>,
}

impl View for OQa {
    type V = OQaView;

    open spec fn view(&self) -> OQaView {
        OQaView {
            field1: strings_view(self.field1@),
            field2: match self.field2 { Some(b) => Some(b@), None => None },
            field3: match self.field3 { Some(s) => Some(s@), None => None },
            field4: self.field4,
            field5: self.field5,
            field6: match self.field6 { Some(s) => Some(s@), None => None },
        }
    }
}

/// Wire encoding of a `OQa` message.
pub open spec fn enc_oqa(m: OQaView) -> Seq<u8> {
    enc_string_list(1, m.field1)
        + (match m.field2 { Some(b) => enc_len_field(2, b), None => Seq::empty() })
        + (match m.field3 { Some(s) => enc_len_field(3, encode_utf8(s)), None => Seq::empty() })
        + (match m.field4 { Some(v) => enc_varint_field(4, i64_as_u64(v as i64)), None => Seq::empty() })
        + (match m.field5 { Some(v) => enc_varint_field(5, i64_as_u64(v as i64)), None => Seq::empty() })
        + (match m.field6 { Some(s) => enc_len_field(6, encode_utf8(s)), None => Seq::empty() })
}

/// Appends the wire encoding of a `OQa`.
#[verifier::rlimit(100)]
pub fn encode_oqa(m: &OQa, out: &mut Vec<u8>)
    ensures
        final(out)@ == old(out)@ + enc_oqa(m@),
{
    let ghost base = out@;
    let ghost ps0 = Seq::<u8>::empty();
    proof {
        assert(out@ == base + ps0) by {
            assert(base + ps0 =~= base);
        }
    }
    let ghost pc1 = enc_string_list(1, m@.field1);
    append_string_list(out, 1, &m.field1);
    let ghost ps1 = ps0 + pc1;
    proof {
        vstd::seq_lib::lemma_concat_associative(base, ps0, pc1);
        assert(out@ == base + ps1);
    }
    let ghost pc2 = (match m@.field2 { Some(b) => enc_len_field(2, b), None => Seq::empty() });
    if let Some(b) = &m.field2 {
        append_len_field(out, 2, b.as_slice());
    }
    let ghost ps2 = ps1 + pc2;
    proof {
        vstd::seq_lib::lemma_concat_associative(base, ps1, pc2);
        assert(out@ == base + ps2);
    }
    let ghost pc3 = (match m@.field3 { Some(s) => enc_len_field(3, encode_utf8(s)), None => Seq::empty() });
    if let Some(s) = &m.field3 {
        let b = string_field_bytes(s);
        append_len_field(out, 3, b.as_slice());
    }
    let ghost ps3 = ps2 + pc3;
    proof {
        vstd::seq_lib::lemma_concat_associative(base, ps2, pc3);
        assert(out@ == base + ps3);
    }
    let ghost pc4 = (match m@.field4 { Some(v) => enc_varint_field(4, i64_as_u64(v as i64)), None => Seq::empty() });
    if let Some(v) = m.field4 {
        append_varint_field(out, 4, i64_to_wire(v as i64));
    }
    let ghost ps4 = ps3 + pc4;
    proof {
        vstd::seq_lib::lemma_concat_associative(base, ps3, pc4);
        assert(out@ == base + ps4);
    }
    let ghost pc5 = (match m@.field5 { Some(v) => enc_varint_field(5, i64_as_u64(v as i64)), None => Seq::empty() });
    if let Some(v) = m.field5 {
        append_varint_field(out, 5, i64_to_wire(v as i64));
    }
    let ghost ps5 = ps4 + pc5;
    proof {
        vstd::seq_lib::lemma_concat_associative(base, ps4, pc5);
        assert(out@ == base + ps5);
    }
    let ghost pc6 = (match m@.field6 { Some(s) => enc_len_field(6, encode_utf8(s)), None => Seq::empty() });
    if let Some(s) = &m.field6 {
        let b = string_field_bytes(s);
        append_len_field(out, 6, b.as_slice());
    }
    let ghost ps6 = ps5 + pc6;
    proof {
        vstd::seq_lib::lemma_concat_associative(base, ps5, pc6);
        assert(out@ == base + ps6);
    }
    proof {
        assert(ps6 == enc_oqa(m@));
    }
}

/// The `Pqa` message.
#[derive(Debug, Clone, PartialEq)]
pub struct Pqa {
    pub formats: Vec<FormatId>,
    pub ud: Vec<BufferedRange>,
    pub clip_id: Option<String>,
}

/// Ghost form of [`Pqa`].
pub struct PqaView {
    pub formats: Seq<FormatIdView>,
    pub ud: Seq<BufferedRangeView>,
    pub clip_id: Option<Seq<char>>,
}

impl View for Pqa {
    type V = PqaView;

    open spec fn view(&self) -> PqaView {
        PqaView {
            formats: format_ids_view(self.formats@),
            ud: buffered_ranges_view(self.ud@),
            clip_id: match self.clip_id { Some(s) => Some(s@), None => None },
        }
    }
}

/// Wire encoding of a `Pqa` message.
pub open spec fn enc_pqa(m: PqaView) -> Seq<u8> {
    enc_msg_list_format_id(1, m.formats)
        + enc_msg_list_buffered_range(2, m.ud)
        + (match m.clip_id { Some(s) => enc_len_field(3, encode_utf8(s)), None => Seq::empty() })
}

/// Appends the wire encoding of a `Pqa`.
#[verifier::rlimit(100)]
pub fn encode_pqa(m: &Pqa, out: &mut Vec<u8>)
    ensures
        final(out)@ == old(out)@ + enc_pqa(m@),
{
    let ghost base = out@;
    let ghost ps0 = Seq::<u8>::empty();
    proof {
        assert(out@ == base + ps0) by {
            assert(base + ps0 =~= base);
        }
    }
    let ghost pc1 = enc_msg_list_format_id(1, m@.formats);
    append_msg_list_format_id(out, 1, &m.formats);
    let ghost ps1 = ps0 + pc1;
    proof {
        vstd::seq_lib::lemma_concat_associative(base, ps0, pc1);
        assert(out@ == base + ps1);
    }
    let ghost pc2 = enc_msg_list_buffered_range(2, m@.ud);
    append_msg_list_buffered_range(out, 2, &m.ud);
    let ghost ps2 = ps1 + pc2;
    proof {
        vstd::seq_lib::lemma_concat_associative(base, ps1, pc2);
        assert(out@ == base + ps2);
    }
    let ghost pc3 = (match m@.clip_id { Some(s) => enc_len_field(3, encode_utf8(s)), None => Seq::empty() });
    if let Some(s) = &m.clip_id {
        let b = string_field_bytes(s);
        append_len_field(out, 3, b.as_slice());
    }
    let ghost ps3 = ps2 + pc3;
    proof {
        vstd::seq_lib::lemma_concat_associative(base, ps2, pc3);
        assert(out@ == base + ps3);
    }
    proof {
        assert(ps3 == enc_pqa(m@));
    }
}

/// The `VideoPlaybackAbrRequest` message.
#[derive(Debug, Clone, PartialEq)]
pub struct VideoPlaybackAbrRequest {
    pub client_abr_state: Option<ClientAbrState>,
    pub selected_format_ids: Vec<FormatId>,
    pub buffered_ranges: Vec<BufferedRange>,
    pub player_time_ms: Option<i64>,
    pub video_playback_ustreamer_config: Option<Vec<u8>>,
    pub lo: Option<Lo>,
    pub selected_audio_format_ids: Vec<FormatId>,
    pub selected_video_format_ids: Vec<FormatId>,
    pub streamer_context: Option<StreamerContext>,
    pub field21: Option<OQa>,
    pub field22: Option<i32>,
    pub field23: Option<i32>,
    pub field1000: Vec<Pqa>,
}

/// Ghost form of [`VideoPlaybackAbrRequest`].
pub struct VideoPlaybackAbrRequestView {
    pub client_abr_state: Option<ClientAbrStateView>,
    pub selected_format_ids: Seq<FormatIdView>,
    pub buffered_ranges: Seq<BufferedRangeView>,
    pub player_time_ms: Option<i64>,
    pub video_playback_ustreamer_config: Option<Seq<u8>>,
    pub lo: Option<LoView>,
    pub selected_audio_format_ids: Seq<FormatIdView>,
    pub selected_video_format_ids: Seq<FormatIdView>,
    pub streamer_context: Option<StreamerContextView>,
    pub field21: Option<OQaView>,
    pub field22: Option<i32>,
    pub field23: Option<i32>,
    pub field1000: Seq<PqaView>,
}

impl View for VideoPlaybackAbrRequest {
    type V = VideoPlaybackAbrRequestView;

    open spec fn view(&self) -> VideoPlaybackAbrRequestView {
        VideoPlaybackAbrRequestView {
            client_abr_state: match self.client_abr_state { Some(v) => Some(v@), None => None },
            selected_format_ids: format_ids_view(self.selected_format_ids@),
            buffered_ranges: buffered_ranges_view(self.buffered_ranges@),
            player_time_ms: self.player_time_ms,
            video_playback_ustreamer_config: match self.video_playback_ustreamer_config { Some(b) => Some(b@), None => None },
            lo: match self.lo { Some(v) => Some(v@), None => None },
            selected_audio_format_ids: format_ids_view(self.selected_audio_format_ids@),
            selected_video_format_ids: format_ids_view(self.selected_video_format_ids@),
            streamer_context: match self.streamer_context { Some(v) => Some(v@), None => None },
            field21: match self.field21 { Some(v) => Some(v@), None => None },
            field22: self.field22,
            field23: self.field23,
            field1000: pqas_view(self.field1000@),
        }
    }
}

/// Wire encoding of a `VideoPlaybackAbrRequest` message.
pub open spec fn enc_video_playback_abr_request(m: VideoPlaybackAbrRequestView) -> Seq<u8> {
    (match m.client_abr_state { Some(v) => enc_len_field(1, enc_client_abr_state(v)), None => Seq::empty() })
        + enc_msg_list_format_id(2, m.selected_format_ids)
        + enc_msg_list_buffered_range(3, m.buffered_ranges)
        + (match m.player_time_ms { Some(v) => enc_varint_field(4, i64_as_u64(v)), None => Seq::empty() })
        + (match m.video_playback_ustreamer_config { Some(b) => enc_len_field(5, b), None => Seq::empty() })
        + (match m.lo { Some(v) => enc_len_field(6, enc_lo(v)), None => Seq::empty() })
        + enc_msg_list_format_id(16, m.selected_audio_format_ids)
        + enc_msg_list_format_id(17, m.selected_video_format_ids)
        + (match m.streamer_context { Some(v) => enc_len_field(19, enc_streamer_context(v)), None => Seq::empty() })
        + (match m.field21 { Some(v) => enc_len_field(21, enc_oqa(v)), None => Seq::empty() })
        + (match m.field22 { Some(v) => enc_varint_field(22, i64_as_u64(v as i64)), None => Seq::empty() })
        + (match m.field23 { Some(v) => enc_varint_field(23, i64_as_u64(v as i64)), None => Seq::empty() })
        + enc_msg_list_pqa(1000, m.field1000)
}

/// Appends the wire encoding of a `VideoPlaybackAbrRequest`.
#[verifier::rlimit(100)]
pub fn encode_video_playback_abr_request(m: &VideoPlaybackAbrRequest, out: &mut Vec<u8>)
    ensures
        final(out)@ == old(out)@ + enc_video_playback_abr_request(m@),
{
    let ghost base = out@;
    let ghost ps0 = Seq::<u8>::empty();
    proof {
        assert(out@ == base + ps0) by {
            assert(base + ps0 =~= base);
        }
    }
    let ghost pc1 = (match m@.client_abr_state { Some(v) => enc_len_field(1, enc_client_abr_state(v)), None => Seq::empty() });
    if let Some(v) = &m.client_abr_state {
        let mut tmp: Vec<u8> = Vec::new();
        encode_client_abr_state(v, &mut tmp);
        append_len_field(out, 1, tmp.as_slice());
    }
    let ghost ps1 = ps0 + pc1;
    proof {
        vstd::seq_lib::lemma_concat_associative(base, ps0, pc1);
        assert(out@ == base + ps1);
    }
    let ghost pc2 = enc_msg_list_format_id(2, m@.selected_format_ids);
    append_msg_list_format_id(out, 2, &m.selected_format_ids);
    let ghost ps2 = ps1 + pc2;
    proof {
        vstd::seq_lib::lemma_concat_associative(base, ps1, pc2);
        assert(out@ == base + ps2);
    }
    let ghost pc3 = enc_msg_list_buffered_range(3, m@.buffered_ranges);
    append_msg_list_buffered_range(out, 3, &m.buffered_ranges);
    let ghost ps3 = ps2 + pc3;
    proof {
        vstd::seq_lib::lemma_concat_associative(base, ps2, pc3);
        assert(out@ == base + ps3);
    }
    let ghost pc4 = (match m@.player_time_ms { Some(v) => enc_varint_field(4, i64_as_u64(v)), None => Seq::empty() });
    if let Some(v) = m.player_time_ms {
        append_varint_field(out, 4, i64_to_wire(v));
    }
    let ghost ps4 = ps3 + pc4;
    proof {
        vstd::seq_lib::lemma_concat_associative(base, ps3, pc4);
        assert(out@ == base + ps4);
    }
    let ghost pc5 = (match m@.video_playback_ustreamer_config { Some(b) => enc_len_field(5, b), None => Seq::empty() });
    if let Some(b) = &m.video_playback_ustreamer_config {
        append_len_field(out, 5, b.as_slice());
    }
    let ghost ps5 = ps4 + pc5;
    proof {
        vstd::seq_lib::lemma_concat_associative(base, ps4, pc5);
        assert(out@ == base + ps5);
    }
    let ghost pc6 = (match m@.lo { Some(v) => enc_len_field(6, enc_lo(v)), None => Seq::empty() });
    if let Some(v) = &m.lo {
        let mut tmp: Vec<u8> = Vec::new();
        encode_lo(v, &mut tmp);
        append_len_field(out, 6, tmp.as_slice());
    }
    let ghost ps6 = ps5 + pc6;
    proof {
        vstd::seq_lib::lemma_concat_associative(base, ps5, pc6);
        assert(out@ == base + ps6);
    }
    let ghost pc7 = enc_msg_list_format_id(16, m@.selected_audio_format_ids);
    append_msg_list_format_id(out, 16, &m.selected_audio_format_ids);
    let ghost ps7 = ps6 + pc7;
    proof {
        vstd::seq_lib::lemma_concat_associative(base, ps6, pc7);
        assert(out@ == base + ps7);
    }
    let ghost pc8 = enc_msg_list_format_id(17, m@.selected_video_format_ids);
    append_msg_list_format_id(out, 17, &m.selected_video_format_ids);
    let ghost ps8 = ps7 + pc8;
    proof {
        vstd::seq_lib::lemma_concat_associative(base, ps7, pc8);
        assert(out@ == base + ps8);
    }
    let ghost pc9 = (match m@.streamer_context { Some(v) => enc_len_field(19, enc_streamer_context(v)), None => Seq::empty() });
    if let Some(v) = &m.streamer_context {
        let mut tmp: Vec<u8> = Vec::new();
        encode_streamer_context(v, &mut tmp);
        append_len_field(out, 19, tmp.as_slice());
    }
    let ghost ps9 = ps8 + pc9;
    proof {
        vstd::seq_lib::lemma_concat_associative(base, ps8, pc9);
        assert(out@ == base + ps9);
    }
    let ghost pc10 = (match m@.field21 { Some(v) => enc_len_field(21, enc_oqa(v)), None => Seq::empty() });
    if let Some(v) = &m.field21 {
        let mut tmp: Vec<u8> = Vec::new();
        encode_oqa(v, &mut tmp);
        append_len_field(out, 21, tmp.as_slice());
    }
    let ghost ps10 = ps9 + pc10;
    proof {
        vstd::seq_lib::lemma_concat_associative(base, ps9, pc10);
        assert(out@ == base + ps10);
    }
    let ghost pc11 = (match m@.field22 { Some(v) => enc_varint_field(22, i64_as_u64(v as i64)), None => Seq::empty() });
    if let Some(v) = m.field22 {
        append_varint_field(out, 22, i64_to_wire(v as i64));
    }
    let ghost ps11 = ps10 + pc11;
    proof {
        vstd::seq_lib::lemma_concat_associative(base, ps10, pc11);
        assert(out@ == base + ps11);
    }
    let ghost pc12 = (match m@.field23 { Some(v) => enc_varint_field(23, i64_as_u64(v as i64)), None => Seq::empty() });
    if let Some(v) = m.field23 {
        append_varint_field(out, 23, i64_to_wire(v as i64));
    }
    let ghost ps12 = ps11 + pc12;
    proof {
        vstd::seq_lib::lemma_concat_associative(base, ps11, pc12);
        assert(out@ == base + ps12);
    }
    let ghost pc13 = enc_msg_list_pqa(1000, m@.field1000);
    append_msg_list_pqa(out, 1000, &m.field1000);
    let ghost ps13 = ps12 + pc13;
    proof {
        vstd::seq_lib::lemma_concat_associative(base, ps12, pc13);
        assert(out@ == base + ps13);
    }
    proof {
        assert(ps13 == enc_video_playback_abr_request(m@));
    }
}

/// Default sticky resolution (720 lines, HD).
pub const DEFAULT_QUALITY: i32 = 720;

/// Builder for a `VideoPlaybackAbrRequest`, starting from the default
/// client state: sticky resolution {720}, player time 0, client name 1,
/// client version 2.2040620.05.00, operating system Windows 10.0.
#[derive(Debug, Clone, PartialEq)]
pub struct SabrRequestBuilder {
    pub client_abr_state: ClientAbrState,
    pub streamer_context: StreamerContext,
    pub video_playback_ustreamer_config: Option<Vec<u8>>,
    pub selected_audio_format_ids: Vec<FormatId>,
    pub selected_video_format_ids: Vec<FormatId>,
    pub buffered_ranges: Vec<BufferedRange>,
}

/// Ghost form of [`SabrRequestBuilder`].
pub struct SabrRequestBuilderView {
    pub client_abr_state: ClientAbrStateView,
    pub streamer_context: StreamerContextView,
    pub video_playback_ustreamer_config: Option<Seq<u8>>,
    pub selected_audio_format_ids: Seq<FormatIdView>,
    pub selected_video_format_ids: Seq<FormatIdView>,
    pub buffered_ranges: Seq<BufferedRangeView>,
}

impl View for SabrRequestBuilder {
    type V = SabrRequestBuilderView;

    open spec fn view(&self) -> SabrRequestBuilderView {
        SabrRequestBuilderView {
            client_abr_state: self.client_abr_state@,
            streamer_context: self.streamer_context@,
            video_playback_ustreamer_config: match self.video_playback_ustreamer_config {
                Some(b) => Some(b@),
                None => None,
            },
            selected_audio_format_ids: format_ids_view(self.selected_audio_format_ids@),
            selected_video_format_ids: format_ids_view(self.selected_video_format_ids@),
            buffered_ranges: buffered_ranges_view(self.buffered_ranges@),
        }
    }
}

/// The client state every fresh builder starts from.
pub open spec fn default_client_abr_state() -> ClientAbrStateView {
    ClientAbrStateView {
        time_since_last_manual_format_selection_ms: Some(0),
        last_manual_direction: Some(0),
        last_manual_selected_resolution: Some(DEFAULT_QUALITY),
        detailed_network_type: None,
        client_viewport_width: None,
        client_viewport_height: None,
        client_bitrate_cap_bytes_per_sec: None,
        sticky_resolution: Some(DEFAULT_QUALITY),
        client_viewport_is_flexible: None,
        bandwidth_estimate: None,
        min_audio_quality: None,
        max_audio_quality: None,
        video_quality_setting: None,
        audio_route: None,
        player_time_ms: Some(0),
        time_since_last_seek: None,
        data_saver_mode: None,
        network_metered_state: None,
        visibility: Some(0),
        elapsed_wall_time_ms: None,
        media_capabilities: None,
        time_since_last_action_ms: None,
        enabled_track_types_bitfield: Some(0),
        max_pacing_rate: None,
        player_state: None,
        drc_enabled: None,
        jda: None,
        qw: None,
        ky: None,
        sabr_report_request_cancellation_info: None,
        l: None,
        g7: None,
        prefer_vp9: None,
        qj: None,
        hx: None,
        is_prefetch: None,
        sabr_support_quality_constraints: None,
        sabr_license_constraint: None,
        allow_proxima_live_latency: None,
        sabr_force_proxima: None,
        tqb: None,
        sabr_force_max_network_interruption_duration_ms: None,
        audio_track_id: None,
    }
}

/// The client identification every fresh builder starts from.
pub open spec fn default_client_info() -> ClientInfoView {
    ClientInfoView {
        device_make: None,
        device_model: None,
        client_name: Some(1),
        client_version: Some("2.2040620.05.00"@),
        os_name: Some("Windows"@),
        os_version: Some("10.0"@),
        accept_language: None,
        accept_region: None,
        screen_width_points: None,
        screen_height_points: None,
        screen_pixel_density: None,
        client_form_factor: None,
        gmscore_version_code: None,
        window_width_points: None,
        window_height_points: None,
        android_sdk_version: None,
        utc_offset_minutes: None,
        time_zone: None,
        chipset: None,
    }
}

/// The streamer context every fresh builder starts from.
pub open spec fn default_streamer_context() -> StreamerContextView {
    StreamerContextView {
        client_info: Some(default_client_info()),
        po_token: None,
        playback_cookie: None,
        gp: None,
        field5: Seq::empty(),
        field6: Seq::empty(),
        field7: None,
        field8: None,
    }
}

impl SabrRequestBuilder {
    /// A builder with the default client state.
    pub fn new() -> (r: SabrRequestBuilder)
        ensures
            r@.client_abr_state == default_client_abr_state(),
            r@.streamer_context == default_streamer_context(),
            r@.video_playback_ustreamer_config matches None,
            r@.selected_audio_format_ids == Seq::<FormatIdView>::empty(),
            r@.selected_video_format_ids == Seq::<FormatIdView>::empty(),
            r@.buffered_ranges == Seq::<BufferedRangeView>::empty(),
    {
        let r = SabrRequestBuilder {
            client_abr_state: ClientAbrState {
                time_since_last_manual_format_selection_ms: Some(0),
                last_manual_direction: Some(0),
                last_manual_selected_resolution: Some(DEFAULT_QUALITY),
                detailed_network_type: None,
                client_viewport_width: None,
                client_viewport_height: None,
                client_bitrate_cap_bytes_per_sec: None,
                sticky_resolution: Some(DEFAULT_QUALITY),
                client_viewport_is_flexible: None,
                bandwidth_estimate: None,
                min_audio_quality: None,
                max_audio_quality: None,
                video_quality_setting: None,
                audio_route: None,
                player_time_ms: Some(0),
                time_since_last_seek: None,
                data_saver_mode: None,
                network_metered_state: None,
                visibility: Some(0),
                elapsed_wall_time_ms: None,
                media_capabilities: None,
                time_since_last_action_ms: None,
                enabled_track_types_bitfield: Some(0),
                max_pacing_rate: None,
                player_state: None,
                drc_enabled: None,
                jda: None,
                qw: None,
                ky: None,
                sabr_report_request_cancellation_info: None,
                l: None,
                g7: None,
                prefer_vp9: None,
                qj: None,
                hx: None,
                is_prefetch: None,
                sabr_support_quality_constraints: None,
                sabr_license_constraint: None,
                allow_proxima_live_latency: None,
                sabr_force_proxima: None,
                tqb: None,
                sabr_force_max_network_interruption_duration_ms: None,
                audio_track_id: None,
            },
            streamer_context: StreamerContext {
                client_info: Some(ClientInfo {
                    device_make: None,
                    device_model: None,
                    client_name: Some(1),
                    client_version: Some(String::from_str("2.2040620.05.00")),
                    os_name: Some(String::from_str("Windows")),
                    os_version: Some(String::from_str("10.0")),
                    accept_language: None,
                    accept_region: None,
                    screen_width_points: None,
                    screen_height_points: None,
                    screen_pixel_density: None,
                    client_form_factor: None,
                    gmscore_version_code: None,
                    window_width_points: None,
                    window_height_points: None,
                    android_sdk_version: None,
                    utc_offset_minutes: None,
                    time_zone: None,
                    chipset: None,
                }),
                po_token: None,
                playback_cookie: None,
                gp: None,
                field5: Vec::new(),
                field6: Vec::new(),
                field7: None,
                field8: None,
            },
            video_playback_ustreamer_config: None,
            selected_audio_format_ids: Vec::new(),
            selected_video_format_ids: Vec::new(),
            buffered_ranges: Vec::new(),
        };
        proof {
            reveal_strlit("2.2040620.05.00");
            reveal_strlit("Windows");
            reveal_strlit("10.0");
            assert(r@.streamer_context.field5 =~= Seq::<FqaView>::empty());
            assert(r@.streamer_context.field6 =~= Seq::<i32>::empty());
            assert(r@.streamer_context.client_info == Some(default_client_info()));
            assert(r@.selected_audio_format_ids =~= Seq::<FormatIdView>::empty());
            assert(r@.selected_video_format_ids =~= Seq::<FormatIdView>::empty());
            assert(r@.buffered_ranges =~= Seq::<BufferedRangeView>::empty());
        }
        r
    }

    /// Overrides the client identification.
    pub fn with_client_info(self, client_info: ClientInfo) -> (r: SabrRequestBuilder)
        ensures
            r@ == (SabrRequestBuilderView {
                streamer_context: StreamerContextView { client_info: Some(client_info@), ..self@.streamer_context },
                ..self@
            }),
    {
        let SabrRequestBuilder {
            client_abr_state,
            streamer_context,
            video_playback_ustreamer_config,
            selected_audio_format_ids,
            selected_video_format_ids,
            buffered_ranges,
        } = self;
        SabrRequestBuilder {
            streamer_context: StreamerContext { client_info: Some(client_info), ..streamer_context },
            client_abr_state,
            video_playback_ustreamer_config,
            selected_audio_format_ids,
            selected_video_format_ids,
            buffered_ranges,
        }
    }

    /// Attaches an opaque authenticator.
    pub fn with_po_token(self, po_token: Vec<u8>) -> (r: SabrRequestBuilder)
        ensures
            r@ == (SabrRequestBuilderView {
                streamer_context: StreamerContextView { po_token: Some(po_token@), ..self@.streamer_context },
                ..self@
            }),
    {
        let SabrRequestBuilder {
            client_abr_state,
            streamer_context,
            video_playback_ustreamer_config,
            selected_audio_format_ids,
            selected_video_format_ids,
            buffered_ranges,
        } = self;
        SabrRequestBuilder {
            streamer_context: StreamerContext { po_token: Some(po_token), ..streamer_context },
            client_abr_state,
            video_playback_ustreamer_config,
            selected_audio_format_ids,
            selected_video_format_ids,
            buffered_ranges,
        }
    }

    /// Echoes a playback cookie from an earlier response.
    pub fn with_playback_cookie(self, playback_cookie: Vec<u8>) -> (r: SabrRequestBuilder)
        ensures
            r@ == (SabrRequestBuilderView {
                streamer_context: StreamerContextView { playback_cookie: Some(playback_cookie@), ..self@.streamer_context },
                ..self@
            }),
    {
        let SabrRequestBuilder {
            client_abr_state,
            streamer_context,
            video_playback_ustreamer_config,
            selected_audio_format_ids,
            selected_video_format_ids,
            buffered_ranges,
        } = self;
        SabrRequestBuilder {
            streamer_context: StreamerContext { playback_cookie: Some(playback_cookie), ..streamer_context },
            client_abr_state,
            video_playback_ustreamer_config,
            selected_audio_format_ids,
            selected_video_format_ids,
            buffered_ranges,
        }
    }

    /// Attaches the opaque streamer configuration.
    pub fn with_video_playback_ustreamer_config(self, config: Vec<u8>) -> (r: SabrRequestBuilder)
        ensures
            r@ == (SabrRequestBuilderView { video_playback_ustreamer_config: Some(config@), ..self@ }),
    {
        let SabrRequestBuilder {
            client_abr_state,
            streamer_context,
            video_playback_ustreamer_config,
            selected_audio_format_ids,
            selected_video_format_ids,
            buffered_ranges,
        } = self;
        SabrRequestBuilder {
            video_playback_ustreamer_config: Some(config),
            client_abr_state,
            streamer_context,
            selected_audio_format_ids,
            selected_video_format_ids,
            buffered_ranges,
        }
    }

    /// Sets the player time in milliseconds.
    pub fn with_player_time_ms(self, time_ms: i64) -> (r: SabrRequestBuilder)
        ensures
            r@ == (SabrRequestBuilderView {
                client_abr_state: ClientAbrStateView { player_time_ms: Some(time_ms), ..self@.client_abr_state },
                ..self@
            }),
    {
        let SabrRequestBuilder {
            client_abr_state,
            streamer_context,
            video_playback_ustreamer_config,
            selected_audio_format_ids,
            selected_video_format_ids,
            buffered_ranges,
        } = self;
        SabrRequestBuilder {
            client_abr_state: ClientAbrState { player_time_ms: Some(time_ms), ..client_abr_state },
            streamer_context,
            video_playback_ustreamer_config,
            selected_audio_format_ids,
            selected_video_format_ids,
            buffered_ranges,
        }
    }

    /// Sets the selected and sticky resolution.
    pub fn with_resolution(self, resolution: i32) -> (r: SabrRequestBuilder)
        ensures
            r@ == (SabrRequestBuilderView {
                client_abr_state: ClientAbrStateView {
                    last_manual_selected_resolution: Some(resolution),
                    sticky_resolution: Some(resolution),
                    ..self@.client_abr_state
                },
                ..self@
            }),
    {
        let SabrRequestBuilder {
            client_abr_state,
            streamer_context,
            video_playback_ustreamer_config,
            selected_audio_format_ids,
            selected_video_format_ids,
            buffered_ranges,
        } = self;
        SabrRequestBuilder {
            client_abr_state: ClientAbrState {
                last_manual_selected_resolution: Some(resolution),
                sticky_resolution: Some(resolution),
                ..client_abr_state
            },
            streamer_context,
            video_playback_ustreamer_config,
            selected_audio_format_ids,
            selected_video_format_ids,
            buffered_ranges,
        }
    }

    /// Sets the client viewport size.
    pub fn with_viewport_size(self, width: i32, height: i32) -> (r: SabrRequestBuilder)
        ensures
            r@ == (SabrRequestBuilderView {
                client_abr_state: ClientAbrStateView {
                    client_viewport_width: Some(width),
                    client_viewport_height: Some(height),
                    ..self@.client_abr_state
                },
                ..self@
            }),
    {
        let SabrRequestBuilder {
            client_abr_state,
            streamer_context,
            video_playback_ustreamer_config,
            selected_audio_format_ids,
            selected_video_format_ids,
            buffered_ranges,
        } = self;
        SabrRequestBuilder {
            client_abr_state: ClientAbrState {
                client_viewport_width: Some(width),
                client_viewport_height: Some(height),
                ..client_abr_state
            },
            streamer_context,
            video_playback_ustreamer_config,
            selected_audio_format_ids,
            selected_video_format_ids,
            buffered_ranges,
        }
    }

    /// Sets the bandwidth estimate.
    pub fn with_bandwidth_estimate(self, bandwidth: i64) -> (r: SabrRequestBuilder)
        ensures
            r@ == (SabrRequestBuilderView {
                client_abr_state: ClientAbrStateView { bandwidth_estimate: Some(bandwidth), ..self@.client_abr_state },
                ..self@
            }),
    {
        let SabrRequestBuilder {
            client_abr_state,
            streamer_context,
            video_playback_ustreamer_config,
            selected_audio_format_ids,
            selected_video_format_ids,
            buffered_ranges,
        } = self;
        SabrRequestBuilder {
            client_abr_state: ClientAbrState { bandwidth_estimate: Some(bandwidth), ..client_abr_state },
            streamer_context,
            video_playback_ustreamer_config,
            selected_audio_format_ids,
            selected_video_format_ids,
            buffered_ranges,
        }
    }

    /// Sets the selected audio formats.
    pub fn with_audio_formats(self, formats: Vec<FormatId>) -> (r: SabrRequestBuilder)
        ensures
            r@ == (SabrRequestBuilderView { selected_audio_format_ids: format_ids_view(formats@), ..self@ }),
    {
        let SabrRequestBuilder {
            client_abr_state,
            streamer_context,
            video_playback_ustreamer_config,
            selected_audio_format_ids,
            selected_video_format_ids,
            buffered_ranges,
        } = self;
        SabrRequestBuilder {
            selected_audio_format_ids: formats,
            client_abr_state,
            streamer_context,
            video_playback_ustreamer_config,
            selected_video_format_ids,
            buffered_ranges,
        }
    }

    /// Sets the selected video formats.
    pub fn with_video_formats(self, formats: Vec<FormatId>) -> (r: SabrRequestBuilder)
        ensures
            r@ == (SabrRequestBuilderView { selected_video_format_ids: format_ids_view(formats@), ..self@ }),
    {
        let SabrRequestBuilder {
            client_abr_state,
            streamer_context,
            video_playback_ustreamer_config,
            selected_audio_format_ids,
            selected_video_format_ids,
            buffered_ranges,
        } = self;
        SabrRequestBuilder {
            selected_video_format_ids: formats,
            client_abr_state,
            streamer_context,
            video_playback_ustreamer_config,
            selected_audio_format_ids,
            buffered_ranges,
        }
    }

    /// Declares what the client already buffers.
    pub fn with_buffered_ranges(self, ranges: Vec<BufferedRange>) -> (r: SabrRequestBuilder)
        ensures
            r@ == (SabrRequestBuilderView { buffered_ranges: buffered_ranges_view(ranges@), ..self@ }),
    {
        let SabrRequestBuilder {
            client_abr_state,
            streamer_context,
            video_playback_ustreamer_config,
            selected_audio_format_ids,
            selected_video_format_ids,
            buffered_ranges,
        } = self;
        SabrRequestBuilder {
            buffered_ranges: ranges,
            client_abr_state,
            streamer_context,
            video_playback_ustreamer_config,
            selected_audio_format_ids,
            selected_video_format_ids,
        }
    }

    /// Sets the enabled-track bitfield.
    pub fn with_enabled_track_types(self, bitfield: i32) -> (r: SabrRequestBuilder)
        ensures
            r@ == (SabrRequestBuilderView {
                client_abr_state: ClientAbrStateView { enabled_track_types_bitfield: Some(bitfield), ..self@.client_abr_state },
                ..self@
            }),
    {
        let SabrRequestBuilder {
            client_abr_state,
            streamer_context,
            video_playback_ustreamer_config,
            selected_audio_format_ids,
            selected_video_format_ids,
            buffered_ranges,
        } = self;
        SabrRequestBuilder {
            client_abr_state: ClientAbrState { enabled_track_types_bitfield: Some(bitfield), ..client_abr_state },
            streamer_context,
            video_playback_ustreamer_config,
            selected_audio_format_ids,
            selected_video_format_ids,
            buffered_ranges,
        }
    }

    /// Sets the player visibility.
    pub fn with_visibility(self, visibility: i32) -> (r: SabrRequestBuilder)
        ensures
            r@ == (SabrRequestBuilderView {
                client_abr_state: ClientAbrStateView { visibility: Some(visibility), ..self@.client_abr_state },
                ..self@
            }),
    {
        let SabrRequestBuilder {
            client_abr_state,
            streamer_context,
            video_playback_ustreamer_config,
            selected_audio_format_ids,
            selected_video_format_ids,
            buffered_ranges,
        } = self;
        SabrRequestBuilder {
            client_abr_state: ClientAbrState { visibility: Some(visibility), ..client_abr_state },
            streamer_context,
            video_playback_ustreamer_config,
            selected_audio_format_ids,
            selected_video_format_ids,
            buffered_ranges,
        }
    }

    /// The request this builder describes.  The previously-initialised
    /// format list is always empty: on a fresh request none exist yet.
    pub fn build(self) -> (r: VideoPlaybackAbrRequest)
        ensures
            r@ == built_request(self@),
    {
        let SabrRequestBuilder {
            client_abr_state,
            streamer_context,
            video_playback_ustreamer_config,
            selected_audio_format_ids,
            selected_video_format_ids,
            buffered_ranges,
        } = self;
        let r = VideoPlaybackAbrRequest {
            client_abr_state: Some(client_abr_state),
            selected_format_ids: Vec::new(),
            buffered_ranges,
            player_time_ms: Some(0),
            video_playback_ustreamer_config,
            lo: None,
            selected_audio_format_ids,
            selected_video_format_ids,
            streamer_context: Some(streamer_context),
            field21: None,
            field22: Some(0),
            field23: Some(0),
            field1000: Vec::new(),
        };
        proof {
            assert(r@.selected_format_ids =~= Seq::<FormatIdView>::empty());
            assert(r@.field1000 =~= Seq::<PqaView>::empty());
        }
        r
    }

    /// Encodes the request this builder describes.
    pub fn encode(self) -> (r: Vec<u8>)
        ensures
            r@ == enc_video_playback_abr_request(built_request(self@)),
    {
        let req = self.build();
        let mut out: Vec<u8> = Vec::new();
        encode_video_playback_abr_request(&req, &mut out);
        proof {
            assert(out@ =~= enc_video_playback_abr_request(req@));
        }
        out
    }
}

/// The request a builder state describes.
pub open spec fn built_request(b: SabrRequestBuilderView) -> VideoPlaybackAbrRequestView {
    VideoPlaybackAbrRequestView {
        client_abr_state: Some(b.client_abr_state),
        selected_format_ids: Seq::empty(),
        buffered_ranges: b.buffered_ranges,
        player_time_ms: Some(0),
        video_playback_ustreamer_config: b.video_playback_ustreamer_config,
        lo: None,
        selected_audio_format_ids: b.selected_audio_format_ids,
        selected_video_format_ids: b.selected_video_format_ids,
        streamer_context: Some(b.streamer_context),
        field21: None,
        field22: Some(0),
        field23: Some(0),
        field1000: Seq::empty(),
    }
}

impl Default for SabrRequestBuilder {
    /// A builder with the default client state.
    fn default() -> (r: SabrRequestBuilder)
        ensures
            r@.client_abr_state == default_client_abr_state(),
            r@.streamer_context == default_streamer_context(),
    {
        SabrRequestBuilder::new()
    }
}

/// A format identity from its parts.  The timestamp is reinterpreted as a
/// signed 64-bit value, as the wire carries it.
pub fn create_format_id(itag: i32, last_modified: u64, xtags: Option<String>) -> (r: FormatId)
    ensures
        r@.itag == Some(itag),
        r@.last_modified == Some(crate::proto::pb_as_i64(last_modified)),
        r@.xtags == (match xtags {
            Some(s) => Some(s@),
            None => None::<Seq<char>>,
        }),
{
    FormatId {
        itag: Some(itag),
        last_modified: Some(crate::proto::pb_to_i64(last_modified)),
        xtags,
    }
}

/// A buffered-range declaration from its parts.
pub fn create_buffered_range(
    format_id: FormatId,
    start_time_ms: i64,
    duration_ms: i64,
    start_segment_index: i32,
    end_segment_index: i32,
) -> (r: BufferedRange)
    ensures
        r@ == (BufferedRangeView {
            format_id: Some(format_id@),
            start_time_ms: Some(start_time_ms),
            duration_ms: Some(duration_ms),
            start_segment_index: Some(start_segment_index),
            end_segment_index: Some(end_segment_index),
            time_range: None,
        }),
{
    BufferedRange {
        format_id: Some(format_id),
        start_time_ms: Some(start_time_ms),
        duration_ms: Some(duration_ms),
        start_segment_index: Some(start_segment_index),
        end_segment_index: Some(end_segment_index),
        time_range: None,
    }
}

/// Wire encoding of a `PlaybackCookie` message.
pub open spec fn enc_playback_cookie(m: crate::sabr_messages::PlaybackCookieView) -> Seq<u8> {
    (match m.field1 { Some(v) => enc_varint_field(1, i64_as_u64(v as i64)), None => Seq::empty() })
        + (match m.field2 {
        Some(v) => enc_varint_field(2, i64_as_u64(v as i64)),
        None => Seq::empty(),
    }) + (match m.video_fmt {
        Some(v) => enc_len_field(7, enc_format_id(v)),
        None => Seq::empty(),
    }) + (match m.audio_fmt {
        Some(v) => enc_len_field(8, enc_format_id(v)),
        None => Seq::empty(),
    })
}

/// Appends the wire encoding of a `PlaybackCookie`, for echoing it back to
/// the client.
pub fn encode_playback_cookie(m: &crate::sabr_messages::PlaybackCookie, out: &mut Vec<u8>)
    ensures
        final(out)@ == old(out)@ + enc_playback_cookie(m@),
{
    let ghost base = out@;
    let ghost ps0 = Seq::<u8>::empty();
    proof {
        assert(out@ == base + ps0) by {
            assert(base + ps0 =~= base);
        }
    }
    let ghost pc1 = (match m@.field1 {
        Some(v) => enc_varint_field(1, i64_as_u64(v as i64)),
        None => Seq::empty(),
    });
    if let Some(v) = m.field1 {
        append_varint_field(out, 1, i64_to_wire(v as i64));
    }
    let ghost ps1 = ps0 + pc1;
    proof {
        vstd::seq_lib::lemma_concat_associative(base, ps0, pc1);
        assert(out@ == base + ps1);
    }
    let ghost pc2 = (match m@.field2 {
        Some(v) => enc_varint_field(2, i64_as_u64(v as i64)),
        None => Seq::empty(),
    });
    if let Some(v) = m.field2 {
        append_varint_field(out, 2, i64_to_wire(v as i64));
    }
    let ghost ps2 = ps1 + pc2;
    proof {
        vstd::seq_lib::lemma_concat_associative(base, ps1, pc2);
        assert(out@ == base + ps2);
    }
    let ghost pc3 = (match m@.video_fmt {
        Some(v) => enc_len_field(7, enc_format_id(v)),
        None => Seq::empty(),
    });
    if let Some(v) = &m.video_fmt {
        let mut tmp: Vec<u8> = Vec::new();
        encode_format_id(v, &mut tmp);
        append_len_field(out, 7, tmp.as_slice());
    }
    let ghost ps3 = ps2 + pc3;
    proof {
        vstd::seq_lib::lemma_concat_associative(base, ps2, pc3);
        assert(out@ == base + ps3);
    }
    let ghost pc4 = (match m@.audio_fmt {
        Some(v) => enc_len_field(8, enc_format_id(v)),
        None => Seq::empty(),
    });
    if let Some(v) = &m.audio_fmt {
        let mut tmp: Vec<u8> = Vec::new();
        encode_format_id(v, &mut tmp);
        append_len_field(out, 8, tmp.as_slice());
    }
    let ghost ps4 = ps3 + pc4;
    proof {
        vstd::seq_lib::lemma_concat_associative(base, ps3, pc4);
        assert(out@ == base + ps4);
        assert(ps4 == enc_playback_cookie(m@));
    }
}

} // verus!
