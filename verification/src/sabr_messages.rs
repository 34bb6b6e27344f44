//! The SABR control messages carried inside UMP frames, with their wire
//! decoders.  Every message is a set of optional fields; a later occurrence
//! of a field replaces an earlier one, an unknown field is skipped, a known
//! field with the wrong wire type or an invalid string rejects the message.

use vstd::prelude::*;
use crate::proto::{
    pb_as_i32, pb_as_i64, pb_as_u32, pb_field_at, pb_fold_at, pb_to_i32, pb_to_i64, pb_to_u32,
    copy_byte_range, read_pb_field,
};
use crate::strutil::bytes_to_string;
use vstd::utf8::{decode_utf8, valid_utf8};

verus! {

/// The `FormatId` message.
#[derive(Debug, Clone, PartialEq)]
pub struct FormatId {
    pub itag: Option<i32>,
    pub last_modified: Option<i64>,
    pub xtags: Option<String>,
}

/// Ghost form of [`FormatId`].
pub struct FormatIdView {
    pub itag: Option<i32>,
    pub last_modified: Option<i64>,
    pub xtags: Option<Seq<char>>,
}

impl View for FormatId {
    type V = FormatIdView;

    open spec fn view(&self) -> FormatIdView {
        FormatIdView {
            itag: self.itag,
            last_modified: self.last_modified,
            xtags: match self.xtags { Some(s) => Some(s@), None => None },
        }
    }
}

/// The message with no field set.
pub open spec fn format_id_default() -> FormatIdView {
    FormatIdView {
        itag: None,
        last_modified: None,
        xtags: None,
    }
}

/// Effect of one wire field on the message.
pub open spec fn format_id_update(
    acc: FormatIdView,
    fno: nat,
    wire: nat,
    num: u64,
    bytes: Seq<u8>,
) -> Option<FormatIdView> {
    if fno == 1 {
        if wire == 0 {
            Some(FormatIdView { itag: Some(pb_as_i32(num)), ..acc })
        } else {
            None
        }
    } else if fno == 2 {
        if wire == 0 {
            Some(FormatIdView { last_modified: Some(pb_as_i64(num)), ..acc })
        } else {
            None
        }
    } else if fno == 3 {
        if wire == 2 {
            if valid_utf8(bytes) {
                Some(FormatIdView { xtags: Some(decode_utf8(bytes)), ..acc })
            } else {
                None
            }
        } else {
            None
        }
    } else {
        Some(acc)
    }
}

/// The field handler of [`format_id_update`] as a function value.
pub open spec fn format_id_f() -> spec_fn(FormatIdView, nat, nat, u64, Seq<u8>) -> Option<FormatIdView> {
    |acc: FormatIdView, fno: nat, wire: nat, num: u64, bytes: Seq<u8>|
        format_id_update(acc, fno, wire, num, bytes)
}

/// The message encoded by `s`, or `None` when `s` is not a valid encoding.
pub open spec fn decode_format_id_spec(s: Seq<u8>) -> Option<FormatIdView> {
    pb_fold_at(s, 0, format_id_default(), format_id_f())
}

/// Decodes a `FormatId` message.
pub fn decode_format_id(data: &[u8]) -> (r: Option<FormatId>)
    ensures
        match r {
            Some(m) => decode_format_id_spec(data@) == Some(m@),
            None => decode_format_id_spec(data@) == None::<FormatIdView>,
        },
{
    let mut acc = FormatId {
        itag: None,
        last_modified: None,
        xtags: None,
    };
    let dlen = data.len();
    let mut pos: usize = 0;
    proof {
        assert(acc@ == format_id_default());
    }
    loop
        invariant
            pos <= dlen,
            dlen == data@.len(),
            pb_fold_at(data@, pos as int, acc@, format_id_f()) == decode_format_id_spec(data@),
        decreases data@.len() - pos,
    {
        if pos >= dlen {
            return Some(acc);
        }
        let ghost prev = acc@;
        let (fno, wire, num, bstart, blen, c) = match read_pb_field(data, pos) {
            Some(t) => t,
            None => {
                return None;
            },
        };
        let ghost bytes = data@.subrange(bstart as int, bstart + blen as int);
        if fno == 1 {
            if wire != 0 {
                return None;
            }
            acc.itag = Some(pb_to_i32(num));
        } else if fno == 2 {
            if wire != 0 {
                return None;
            }
            acc.last_modified = Some(pb_to_i64(num));
        } else if fno == 3 {
            if wire != 2 {
                return None;
            }
            let raw = copy_byte_range(data, bstart, bstart + blen);
            match bytes_to_string(raw) {
                Some(s) => {
                    acc.xtags = Some(s);
                },
                None => {
                    return None;
                },
            }
        }
        proof {
            assert(format_id_f()(prev, fno as nat, wire as nat, num, bytes) == format_id_update(
                prev,
                fno as nat,
                wire as nat,
                num,
                bytes,
            ));
            assert(format_id_update(prev, fno as nat, wire as nat, num, bytes) == Some(acc@));
        }
        pos = pos + c;
    }
}

/// The `TimeRange` message.
#[derive(Debug, Clone, PartialEq)]
pub struct TimeRange {
    pub start: Option<i64>,
    pub end: Option<i64>,
}

/// Ghost form of [`TimeRange`].
pub struct TimeRangeView {
    pub start: Option<i64>,
    pub end: Option<i64>,
}

impl View for TimeRange {
    type V = TimeRangeView;

    open spec fn view(&self) -> TimeRangeView {
        TimeRangeView {
            start: self.start,
            end: self.end,
        }
    }
}

/// The message with no field set.
pub open spec fn time_range_default() -> TimeRangeView {
    TimeRangeView {
        start: None,
        end: None,
    }
}

/// Effect of one wire field on the message.
pub open spec fn time_range_update(
    acc: TimeRangeView,
    fno: nat,
    wire: nat,
    num: u64,
    bytes: Seq<u8>,
) -> Option<TimeRangeView> {
    if fno == 1 {
        if wire == 0 {
            Some(TimeRangeView { start: Some(pb_as_i64(num)), ..acc })
        } else {
            None
        }
    } else if fno == 2 {
        if wire == 0 {
            Some(TimeRangeView { end: Some(pb_as_i64(num)), ..acc })
        } else {
            None
        }
    } else {
        Some(acc)
    }
}

/// The field handler of [`time_range_update`] as a function value.
pub open spec fn time_range_f() -> spec_fn(TimeRangeView, nat, nat, u64, Seq<u8>) -> Option<TimeRangeView> {
    |acc: TimeRangeView, fno: nat, wire: nat, num: u64, bytes: Seq<u8>|
        time_range_update(acc, fno, wire, num, bytes)
}

/// The message encoded by `s`, or `None` when `s` is not a valid encoding.
pub open spec fn decode_time_range_spec(s: Seq<u8>) -> Option<TimeRangeView> {
    pb_fold_at(s, 0, time_range_default(), time_range_f())
}

/// Decodes a `TimeRange` message.
pub fn decode_time_range(data: &[u8]) -> (r: Option<TimeRange>)
    ensures
        match r {
            Some(m) => decode_time_range_spec(data@) == Some(m@),
            None => decode_time_range_spec(data@) == None::<TimeRangeView>,
        },
{
    let mut acc = TimeRange {
        start: None,
        end: None,
    };
    let dlen = data.len();
    let mut pos: usize = 0;
    proof {
        assert(acc@ == time_range_default());
    }
    loop
        invariant
            pos <= dlen,
            dlen == data@.len(),
            pb_fold_at(data@, pos as int, acc@, time_range_f()) == decode_time_range_spec(data@),
        decreases data@.len() - pos,
    {
        if pos >= dlen {
            return Some(acc);
        }
        let ghost prev = acc@;
        let (fno, wire, num, bstart, blen, c) = match read_pb_field(data, pos) {
            Some(t) => t,
            None => {
                return None;
            },
        };
        let ghost bytes = data@.subrange(bstart as int, bstart + blen as int);
        if fno == 1 {
            if wire != 0 {
                return None;
            }
            acc.start = Some(pb_to_i64(num));
        } else if fno == 2 {
            if wire != 0 {
                return None;
            }
            acc.end = Some(pb_to_i64(num));
        }
        proof {
            assert(time_range_f()(prev, fno as nat, wire as nat, num, bytes) == time_range_update(
                prev,
                fno as nat,
                wire as nat,
                num,
                bytes,
            ));
            assert(time_range_update(prev, fno as nat, wire as nat, num, bytes) == Some(acc@));
        }
        pos = pos + c;
    }
}

/// The `MediaHeader` message.
#[derive(Debug, Clone, PartialEq)]
pub struct MediaHeader {
    pub header_id: Option<u32>,
    pub video_id: Option<String>,
    pub itag: Option<i32>,
    pub lmt: Option<u64>,
    pub xtags: Option<String>,
    pub start_range: Option<i64>,
    pub compression_algorithm: Option<i32>,
    pub is_init_seg: Option<bool>,
    pub sequence_number: Option<i64>,
    pub field10: Option<i64>,
    pub start_ms: Option<i64>,
    pub duration_ms: Option<i64>,
    pub format_id: Option<FormatId>,
    pub content_length: Option<i64>,
    pub time_range: Option<TimeRange>,
}

/// Ghost form of [`MediaHeader`].
pub struct MediaHeaderView {
    pub header_id: Option<u32>,
    pub video_id: Option<Seq<char>>,
    pub itag: Option<i32>,
    pub lmt: Option<u64>,
    pub xtags: Option<Seq<char>>,
    pub start_range: Option<i64>,
    pub compression_algorithm: Option<i32>,
    pub is_init_seg: Option<bool>,
    pub sequence_number: Option<i64>,
    pub field10: Option<i64>,
    pub start_ms: Option<i64>,
    pub duration_ms: Option<i64>,
    pub format_id: Option<FormatIdView>,
    pub content_length: Option<i64>,
    pub time_range: Option<TimeRangeView>,
}

impl View for MediaHeader {
    type V = MediaHeaderView;

    open spec fn view(&self) -> MediaHeaderView {
        MediaHeaderView {
            header_id: self.header_id,
            video_id: match self.video_id { Some(s) => Some(s@), None => None },
            itag: self.itag,
            lmt: self.lmt,
            xtags: match self.xtags { Some(s) => Some(s@), None => None },
            start_range: self.start_range,
            compression_algorithm: self.compression_algorithm,
            is_init_seg: self.is_init_seg,
            sequence_number: self.sequence_number,
            field10: self.field10,
            start_ms: self.start_ms,
            duration_ms: self.duration_ms,
            format_id: match self.format_id { Some(m) => Some(m@), None => None },
            content_length: self.content_length,
            time_range: match self.time_range { Some(m) => Some(m@), None => None },
        }
    }
}

/// The message with no field set.
pub open spec fn media_header_default() -> MediaHeaderView {
    MediaHeaderView {
        header_id: None,
        video_id: None,
        itag: None,
        lmt: None,
        xtags: None,
        start_range: None,
        compression_algorithm: None,
        is_init_seg: None,
        sequence_number: None,
        field10: None,
        start_ms: None,
        duration_ms: None,
        format_id: None,
        content_length: None,
        time_range: None,
    }
}

/// Effect of one wire field on the message.
pub open spec fn media_header_update(
    acc: MediaHeaderView,
    fno: nat,
    wire: nat,
    num: u64,
    bytes: Seq<u8>,
) -> Option<MediaHeaderView> {
    if fno == 1 {
        if wire == 0 {
            Some(MediaHeaderView { header_id: Some(pb_as_u32(num)), ..acc })
        } else {
            None
        }
    } else if fno == 2 {
        if wire == 2 {
            if valid_utf8(bytes) {
                Some(MediaHeaderView { video_id: Some(decode_utf8(bytes)), ..acc })
            } else {
                None
            }
        } else {
            None
        }
    } else if fno == 3 {
        if wire == 0 {
            Some(MediaHeaderView { itag: Some(pb_as_i32(num)), ..acc })
        } else {
            None
        }
    } else if fno == 4 {
        if wire == 0 {
            Some(MediaHeaderView { lmt: Some(num), ..acc })
        } else {
            None
        }
    } else if fno == 5 {
        if wire == 2 {
            if valid_utf8(bytes) {
                Some(MediaHeaderView { xtags: Some(decode_utf8(bytes)), ..acc })
            } else {
                None
            }
        } else {
            None
        }
    } else if fno == 6 {
        if wire == 0 {
            Some(MediaHeaderView { start_range: Some(pb_as_i64(num)), ..acc })
        } else {
            None
        }
    } else if fno == 7 {
        if wire == 0 {
            Some(MediaHeaderView { compression_algorithm: Some(pb_as_i32(num)), ..acc })
        } else {
            None
        }
    } else if fno == 8 {
        if wire == 0 {
            Some(MediaHeaderView { is_init_seg: Some(num != 0), ..acc })
        } else {
            None
        }
    } else if fno == 9 {
        if wire == 0 {
            Some(MediaHeaderView { sequence_number: Some(pb_as_i64(num)), ..acc })
        } else {
            None
        }
    } else if fno == 10 {
        if wire == 0 {
            Some(MediaHeaderView { field10: Some(pb_as_i64(num)), ..acc })
        } else {
            None
        }
    } else if fno == 11 {
        if wire == 0 {
            Some(MediaHeaderView { start_ms: Some(pb_as_i64(num)), ..acc })
        } else {
            None
        }
    } else if fno == 12 {
        if wire == 0 {
            Some(MediaHeaderView { duration_ms: Some(pb_as_i64(num)), ..acc })
        } else {
            None
        }
    } else if fno == 13 {
        if wire == 2 {
            match decode_format_id_spec(bytes) {
                Some(v) => Some(MediaHeaderView { format_id: Some(v), ..acc }),
                None => None,
            }
        } else {
            None
        }
    } else if fno == 14 {
        if wire == 0 {
            Some(MediaHeaderView { content_length: Some(pb_as_i64(num)), ..acc })
        } else {
            None
        }
    } else if fno == 15 {
        if wire == 2 {
            match decode_time_range_spec(bytes) {
                Some(v) => Some(MediaHeaderView { time_range: Some(v), ..acc }),
                None => None,
            }
        } else {
            None
        }
    } else {
        Some(acc)
    }
}

/// The field handler of [`media_header_update`] as a function value.
pub open spec fn media_header_f() -> spec_fn(MediaHeaderView, nat, nat, u64, Seq<u8>) -> Option<MediaHeaderView> {
    |acc: MediaHeaderView, fno: nat, wire: nat, num: u64, bytes: Seq<u8>|
        media_header_update(acc, fno, wire, num, bytes)
}

/// The message encoded by `s`, or `None` when `s` is not a valid encoding.
pub open spec fn decode_media_header_spec(s: Seq<u8>) -> Option<MediaHeaderView> {
    pb_fold_at(s, 0, media_header_default(), media_header_f())
}

/// Decodes a `MediaHeader` message.
pub fn decode_media_header(data: &[u8]) -> (r: Option<MediaHeader>)
    ensures
        match r {
            Some(m) => decode_media_header_spec(data@) == Some(m@),
            None => decode_media_header_spec(data@) == None::<MediaHeaderView>,
        },
{
    let mut acc = MediaHeader {
        header_id: None,
        video_id: None,
        itag: None,
        lmt: None,
        xtags: None,
        start_range: None,
        compression_algorithm: None,
        is_init_seg: None,
        sequence_number: None,
        field10: None,
        start_ms: None,
        duration_ms: None,
        format_id: None,
        content_length: None,
        time_range: None,
    };
    let dlen = data.len();
    let mut pos: usize = 0;
    proof {
        assert(acc@ == media_header_default());
    }
    loop
        invariant
            pos <= dlen,
            dlen == data@.len(),
            pb_fold_at(data@, pos as int, acc@, media_header_f()) == decode_media_header_spec(data@),
        decreases data@.len() - pos,
    {
        if pos >= dlen {
            return Some(acc);
        }
        let ghost prev = acc@;
        let (fno, wire, num, bstart, blen, c) = match read_pb_field(data, pos) {
            Some(t) => t,
            None => {
                return None;
            },
        };
        let ghost bytes = data@.subrange(bstart as int, bstart + blen as int);
        if fno == 1 {
            if wire != 0 {
                return None;
            }
            acc.header_id = Some(pb_to_u32(num));
        } else if fno == 2 {
            if wire != 2 {
                return None;
            }
            let raw = copy_byte_range(data, bstart, bstart + blen);
            match bytes_to_string(raw) {
                Some(s) => {
                    acc.video_id = Some(s);
                },
                None => {
                    return None;
                },
            }
        } else if fno == 3 {
            if wire != 0 {
                return None;
            }
            acc.itag = Some(pb_to_i32(num));
        } else if fno == 4 {
            if wire != 0 {
                return None;
            }
            acc.lmt = Some(num);
        } else if fno == 5 {
            if wire != 2 {
                return None;
            }
            let raw = copy_byte_range(data, bstart, bstart + blen);
            match bytes_to_string(raw) {
                Some(s) => {
                    acc.xtags = Some(s);
                },
                None => {
                    return None;
                },
            }
        } else if fno == 6 {
            if wire != 0 {
                return None;
            }
            acc.start_range = Some(pb_to_i64(num));
        } else if fno == 7 {
            if wire != 0 {
                return None;
            }
            acc.compression_algorithm = Some(pb_to_i32(num));
        } else if fno == 8 {
            if wire != 0 {
                return None;
            }
            acc.is_init_seg = Some(num != 0);
        } else if fno == 9 {
            if wire != 0 {
                return None;
            }
            acc.sequence_number = Some(pb_to_i64(num));
        } else if fno == 10 {
            if wire != 0 {
                return None;
            }
            acc.field10 = Some(pb_to_i64(num));
        } else if fno == 11 {
            if wire != 0 {
                return None;
            }
            acc.start_ms = Some(pb_to_i64(num));
        } else if fno == 12 {
            if wire != 0 {
                return None;
            }
            acc.duration_ms = Some(pb_to_i64(num));
        } else if fno == 13 {
            if wire != 2 {
                return None;
            }
            match decode_format_id(&data[bstart..bstart + blen]) {
                Some(v) => {
                    acc.format_id = Some(v);
                },
                None => {
                    return None;
                },
            }
        } else if fno == 14 {
            if wire != 0 {
                return None;
            }
            acc.content_length = Some(pb_to_i64(num));
        } else if fno == 15 {
            if wire != 2 {
                return None;
            }
            match decode_time_range(&data[bstart..bstart + blen]) {
                Some(v) => {
                    acc.time_range = Some(v);
                },
                None => {
                    return None;
                },
            }
        }
        proof {
            assert(media_header_f()(prev, fno as nat, wire as nat, num, bytes) == media_header_update(
                prev,
                fno as nat,
                wire as nat,
                num,
                bytes,
            ));
            assert(media_header_update(prev, fno as nat, wire as nat, num, bytes) == Some(acc@));
        }
        pos = pos + c;
    }
}

/// The `SabrError` message.
#[derive(Debug, Clone, PartialEq)]
pub struct SabrError {
    pub error_type: Option<String>,
    pub code: Option<i32>,
}

/// Ghost form of [`SabrError`].
pub struct SabrErrorView {
    pub error_type: Option<Seq<char>>,
    pub code: Option<i32>,
}

impl View for SabrError {
    type V = SabrErrorView;

    open spec fn view(&self) -> SabrErrorView {
        SabrErrorView {
            error_type: match self.error_type { Some(s) => Some(s@), None => None },
            code: self.code,
        }
    }
}

/// The message with no field set.
pub open spec fn sabr_error_default() -> SabrErrorView {
    SabrErrorView {
        error_type: None,
        code: None,
    }
}

/// Effect of one wire field on the message.
pub open spec fn sabr_error_update(
    acc: SabrErrorView,
    fno: nat,
    wire: nat,
    num: u64,
    bytes: Seq<u8>,
) -> Option<SabrErrorView> {
    if fno == 1 {
        if wire == 2 {
            if valid_utf8(bytes) {
                Some(SabrErrorView { error_type: Some(decode_utf8(bytes)), ..acc })
            } else {
                None
            }
        } else {
            None
        }
    } else if fno == 2 {
        if wire == 0 {
            Some(SabrErrorView { code: Some(pb_as_i32(num)), ..acc })
        } else {
            None
        }
    } else {
        Some(acc)
    }
}

/// The field handler of [`sabr_error_update`] as a function value.
pub open spec fn sabr_error_f() -> spec_fn(SabrErrorView, nat, nat, u64, Seq<u8>) -> Option<SabrErrorView> {
    |acc: SabrErrorView, fno: nat, wire: nat, num: u64, bytes: Seq<u8>|
        sabr_error_update(acc, fno, wire, num, bytes)
}

/// The message encoded by `s`, or `None` when `s` is not a valid encoding.
pub open spec fn decode_sabr_error_spec(s: Seq<u8>) -> Option<SabrErrorView> {
    pb_fold_at(s, 0, sabr_error_default(), sabr_error_f())
}

/// Decodes a `SabrError` message.
pub fn decode_sabr_error(data: &[u8]) -> (r: Option<SabrError>)
    ensures
        match r {
            Some(m) => decode_sabr_error_spec(data@) == Some(m@),
            None => decode_sabr_error_spec(data@) == None::<SabrErrorView>,
        },
{
    let mut acc = SabrError {
        error_type: None,
        code: None,
    };
    let dlen = data.len();
    let mut pos: usize = 0;
    proof {
        assert(acc@ == sabr_error_default());
    }
    loop
        invariant
            pos <= dlen,
            dlen == data@.len(),
            pb_fold_at(data@, pos as int, acc@, sabr_error_f()) == decode_sabr_error_spec(data@),
        decreases data@.len() - pos,
    {
        if pos >= dlen {
            return Some(acc);
        }
        let ghost prev = acc@;
        let (fno, wire, num, bstart, blen, c) = match read_pb_field(data, pos) {
            Some(t) => t,
            None => {
                return None;
            },
        };
        let ghost bytes = data@.subrange(bstart as int, bstart + blen as int);
        if fno == 1 {
            if wire != 2 {
                return None;
            }
            let raw = copy_byte_range(data, bstart, bstart + blen);
            match bytes_to_string(raw) {
                Some(s) => {
                    acc.error_type = Some(s);
                },
                None => {
                    return None;
                },
            }
        } else if fno == 2 {
            if wire != 0 {
                return None;
            }
            acc.code = Some(pb_to_i32(num));
        }
        proof {
            assert(sabr_error_f()(prev, fno as nat, wire as nat, num, bytes) == sabr_error_update(
                prev,
                fno as nat,
                wire as nat,
                num,
                bytes,
            ));
            assert(sabr_error_update(prev, fno as nat, wire as nat, num, bytes) == Some(acc@));
        }
        pos = pos + c;
    }
}

/// The `SabrRedirect` message.
#[derive(Debug, Clone, PartialEq)]
pub struct SabrRedirect {
    pub url: Option<String>,
}

/// Ghost form of [`SabrRedirect`].
pub struct SabrRedirectView {
    pub url: Option<Seq<char>>,
}

impl View for SabrRedirect {
    type V = SabrRedirectView;

    open spec fn view(&self) -> SabrRedirectView {
        SabrRedirectView {
            url: match self.url { Some(s) => Some(s@), None => None },
        }
    }
}

/// The message with no field set.
pub open spec fn sabr_redirect_default() -> SabrRedirectView {
    SabrRedirectView {
        url: None,
    }
}

/// Effect of one wire field on the message.
pub open spec fn sabr_redirect_update(
    acc: SabrRedirectView,
    fno: nat,
    wire: nat,
    num: u64,
    bytes: Seq<u8>,
) -> Option<SabrRedirectView> {
    if fno == 1 {
        if wire == 2 {
            if valid_utf8(bytes) {
                Some(SabrRedirectView { url: Some(decode_utf8(bytes)), ..acc })
            } else {
                None
            }
        } else {
            None
        }
    } else {
        Some(acc)
    }
}

/// The field handler of [`sabr_redirect_update`] as a function value.
pub open spec fn sabr_redirect_f() -> spec_fn(SabrRedirectView, nat, nat, u64, Seq<u8>) -> Option<SabrRedirectView> {
    |acc: SabrRedirectView, fno: nat, wire: nat, num: u64, bytes: Seq<u8>|
        sabr_redirect_update(acc, fno, wire, num, bytes)
}

/// The message encoded by `s`, or `None` when `s` is not a valid encoding.
pub open spec fn decode_sabr_redirect_spec(s: Seq<u8>) -> Option<SabrRedirectView> {
    pb_fold_at(s, 0, sabr_redirect_default(), sabr_redirect_f())
}

/// Decodes a `SabrRedirect` message.
pub fn decode_sabr_redirect(data: &[u8]) -> (r: Option<SabrRedirect>)
    ensures
        match r {
            Some(m) => decode_sabr_redirect_spec(data@) == Some(m@),
            None => decode_sabr_redirect_spec(data@) == None::<SabrRedirectView>,
        },
{
    let mut acc = SabrRedirect {
        url: None,
    };
    let dlen = data.len();
    let mut pos: usize = 0;
    proof {
        assert(acc@ == sabr_redirect_default());
    }
    loop
        invariant
            pos <= dlen,
            dlen == data@.len(),
            pb_fold_at(data@, pos as int, acc@, sabr_redirect_f()) == decode_sabr_redirect_spec(data@),
        decreases data@.len() - pos,
    {
        if pos >= dlen {
            return Some(acc);
        }
        let ghost prev = acc@;
        let (fno, wire, num, bstart, blen, c) = match read_pb_field(data, pos) {
            Some(t) => t,
            None => {
                return None;
            },
        };
        let ghost bytes = data@.subrange(bstart as int, bstart + blen as int);
        if fno == 1 {
            if wire != 2 {
                return None;
            }
            let raw = copy_byte_range(data, bstart, bstart + blen);
            match bytes_to_string(raw) {
                Some(s) => {
                    acc.url = Some(s);
                },
                None => {
                    return None;
                },
            }
        }
        proof {
            assert(sabr_redirect_f()(prev, fno as nat, wire as nat, num, bytes) == sabr_redirect_update(
                prev,
                fno as nat,
                wire as nat,
                num,
                bytes,
            ));
            assert(sabr_redirect_update(prev, fno as nat, wire as nat, num, bytes) == Some(acc@));
        }
        pos = pos + c;
    }
}

/// The `StreamProtectionStatus` message.
#[derive(Debug, Clone, PartialEq)]
pub struct StreamProtectionStatus {
    pub status: Option<i32>,
}

/// Ghost form of [`StreamProtectionStatus`].
pub struct StreamProtectionStatusView {
    pub status: Option<i32>,
}

impl View for StreamProtectionStatus {
    type V = StreamProtectionStatusView;

    open spec fn view(&self) -> StreamProtectionStatusView {
        StreamProtectionStatusView {
            status: self.status,
        }
    }
}

/// The message with no field set.
pub open spec fn stream_protection_status_default() -> StreamProtectionStatusView {
    StreamProtectionStatusView {
        status: None,
    }
}

/// Effect of one wire field on the message.
pub open spec fn stream_protection_status_update(
    acc: StreamProtectionStatusView,
    fno: nat,
    wire: nat,
    num: u64,
    bytes: Seq<u8>,
) -> Option<StreamProtectionStatusView> {
    if fno == 1 {
        if wire == 0 {
            Some(StreamProtectionStatusView { status: Some(pb_as_i32(num)), ..acc })
        } else {
            None
        }
    } else {
        Some(acc)
    }
}

/// The field handler of [`stream_protection_status_update`] as a function value.
pub open spec fn stream_protection_status_f() -> spec_fn(StreamProtectionStatusView, nat, nat, u64, Seq<u8>) -> Option<StreamProtectionStatusView> {
    |acc: StreamProtectionStatusView, fno: nat, wire: nat, num: u64, bytes: Seq<u8>|
        stream_protection_status_update(acc, fno, wire, num, bytes)
}

/// The message encoded by `s`, or `None` when `s` is not a valid encoding.
pub open spec fn decode_stream_protection_status_spec(s: Seq<u8>) -> Option<StreamProtectionStatusView> {
    pb_fold_at(s, 0, stream_protection_status_default(), stream_protection_status_f())
}

/// Decodes a `StreamProtectionStatus` message.
pub fn decode_stream_protection_status(data: &[u8]) -> (r: Option<StreamProtectionStatus>)
    ensures
        match r {
            Some(m) => decode_stream_protection_status_spec(data@) == Some(m@),
            None => decode_stream_protection_status_spec(data@) == None::<StreamProtectionStatusView>,
        },
{
    let mut acc = StreamProtectionStatus {
        status: None,
    };
    let dlen = data.len();
    let mut pos: usize = 0;
    proof {
        assert(acc@ == stream_protection_status_default());
    }
    loop
        invariant
            pos <= dlen,
            dlen == data@.len(),
            pb_fold_at(data@, pos as int, acc@, stream_protection_status_f()) == decode_stream_protection_status_spec(data@),
        decreases data@.len() - pos,
    {
        if pos >= dlen {
            return Some(acc);
        }
        let ghost prev = acc@;
        let (fno, wire, num, bstart, blen, c) = match read_pb_field(data, pos) {
            Some(t) => t,
            None => {
                return None;
            },
        };
        let ghost bytes = data@.subrange(bstart as int, bstart + blen as int);
        if fno == 1 {
            if wire != 0 {
                return None;
            }
            acc.status = Some(pb_to_i32(num));
        }
        proof {
            assert(stream_protection_status_f()(prev, fno as nat, wire as nat, num, bytes) == stream_protection_status_update(
                prev,
                fno as nat,
                wire as nat,
                num,
                bytes,
            ));
            assert(stream_protection_status_update(prev, fno as nat, wire as nat, num, bytes) == Some(acc@));
        }
        pos = pos + c;
    }
}

/// The `PlaybackCookie` message.
#[derive(Debug, Clone, PartialEq)]
pub struct PlaybackCookie {
    pub field1: Option<i32>,
    pub field2: Option<i32>,
    pub video_fmt: Option<FormatId>,
    pub audio_fmt: Option<FormatId>,
}

/// Ghost form of [`PlaybackCookie`].
pub struct PlaybackCookieView {
    pub field1: Option<i32>,
    pub field2: Option<i32>,
    pub video_fmt: Option<FormatIdView>,
    pub audio_fmt: Option<FormatIdView>,
}

impl View for PlaybackCookie {
    type V = PlaybackCookieView;

    open spec fn view(&self) -> PlaybackCookieView {
        PlaybackCookieView {
            field1: self.field1,
            field2: self.field2,
            video_fmt: match self.video_fmt { Some(m) => Some(m@), None => None },
            audio_fmt: match self.audio_fmt { Some(m) => Some(m@), None => None },
        }
    }
}

/// The message with no field set.
pub open spec fn playback_cookie_default() -> PlaybackCookieView {
    PlaybackCookieView {
        field1: None,
        field2: None,
        video_fmt: None,
        audio_fmt: None,
    }
}

/// Effect of one wire field on the message.
pub open spec fn playback_cookie_update(
    acc: PlaybackCookieView,
    fno: nat,
    wire: nat,
    num: u64,
    bytes: Seq<u8>,
) -> Option<PlaybackCookieView> {
    if fno == 1 {
        if wire == 0 {
            Some(PlaybackCookieView { field1: Some(pb_as_i32(num)), ..acc })
        } else {
            None
        }
    } else if fno == 2 {
        if wire == 0 {
            Some(PlaybackCookieView { field2: Some(pb_as_i32(num)), ..acc })
        } else {
            None
        }
    } else if fno == 7 {
        if wire == 2 {
            match decode_format_id_spec(bytes) {
                Some(v) => Some(PlaybackCookieView { video_fmt: Some(v), ..acc }),
                None => None,
            }
        } else {
            None
        }
    } else if fno == 8 {
        if wire == 2 {
            match decode_format_id_spec(bytes) {
                Some(v) => Some(PlaybackCookieView { audio_fmt: Some(v), ..acc }),
                None => None,
            }
        } else {
            None
        }
    } else {
        Some(acc)
    }
}

/// The field handler of [`playback_cookie_update`] as a function value.
pub open spec fn playback_cookie_f() -> spec_fn(PlaybackCookieView, nat, nat, u64, Seq<u8>) -> Option<PlaybackCookieView> {
    |acc: PlaybackCookieView, fno: nat, wire: nat, num: u64, bytes: Seq<u8>|
        playback_cookie_update(acc, fno, wire, num, bytes)
}

/// The message encoded by `s`, or `None` when `s` is not a valid encoding.
pub open spec fn decode_playback_cookie_spec(s: Seq<u8>) -> Option<PlaybackCookieView> {
    pb_fold_at(s, 0, playback_cookie_default(), playback_cookie_f())
}

/// Decodes a `PlaybackCookie` message.
pub fn decode_playback_cookie(data: &[u8]) -> (r: Option<PlaybackCookie>)
    ensures
        match r {
            Some(m) => decode_playback_cookie_spec(data@) == Some(m@),
            None => decode_playback_cookie_spec(data@) == None::<PlaybackCookieView>,
        },
{
    let mut acc = PlaybackCookie {
        field1: None,
        field2: None,
        video_fmt: None,
        audio_fmt: None,
    };
    let dlen = data.len();
    let mut pos: usize = 0;
    proof {
        assert(acc@ == playback_cookie_default());
    }
    loop
        invariant
            pos <= dlen,
            dlen == data@.len(),
            pb_fold_at(data@, pos as int, acc@, playback_cookie_f()) == decode_playback_cookie_spec(data@),
        decreases data@.len() - pos,
    {
        if pos >= dlen {
            return Some(acc);
        }
        let ghost prev = acc@;
        let (fno, wire, num, bstart, blen, c) = match read_pb_field(data, pos) {
            Some(t) => t,
            None => {
                return None;
            },
        };
        let ghost bytes = data@.subrange(bstart as int, bstart + blen as int);
        if fno == 1 {
            if wire != 0 {
                return None;
            }
            acc.field1 = Some(pb_to_i32(num));
        } else if fno == 2 {
            if wire != 0 {
                return None;
            }
            acc.field2 = Some(pb_to_i32(num));
        } else if fno == 7 {
            if wire != 2 {
                return None;
            }
            match decode_format_id(&data[bstart..bstart + blen]) {
                Some(v) => {
                    acc.video_fmt = Some(v);
                },
                None => {
                    return None;
                },
            }
        } else if fno == 8 {
            if wire != 2 {
                return None;
            }
            match decode_format_id(&data[bstart..bstart + blen]) {
                Some(v) => {
                    acc.audio_fmt = Some(v);
                },
                None => {
                    return None;
                },
            }
        }
        proof {
            assert(playback_cookie_f()(prev, fno as nat, wire as nat, num, bytes) == playback_cookie_update(
                prev,
                fno as nat,
                wire as nat,
                num,
                bytes,
            ));
            assert(playback_cookie_update(prev, fno as nat, wire as nat, num, bytes) == Some(acc@));
        }
        pos = pos + c;
    }
}

/// The `NextRequestPolicy` message.
#[derive(Debug, Clone, PartialEq)]
pub struct NextRequestPolicy {
    pub target_audio_readahead_ms: Option<i32>,
    pub target_video_readahead_ms: Option<i32>,
    pub backoff_time_ms: Option<i32>,
    pub playback_cookie: Option<PlaybackCookie>,
    pub video_id: Option<String>,
}

/// Ghost form of [`NextRequestPolicy`].
pub struct NextRequestPolicyView {
    pub target_audio_readahead_ms: Option<i32>,
    pub target_video_readahead_ms: Option<i32>,
    pub backoff_time_ms: Option<i32>,
    pub playback_cookie: Option<PlaybackCookieView>,
    pub video_id: Option<Seq<char>>,
}

impl View for NextRequestPolicy {
    type V = NextRequestPolicyView;

    open spec fn view(&self) -> NextRequestPolicyView {
        NextRequestPolicyView {
            target_audio_readahead_ms: self.target_audio_readahead_ms,
            target_video_readahead_ms: self.target_video_readahead_ms,
            backoff_time_ms: self.backoff_time_ms,
            playback_cookie: match self.playback_cookie { Some(m) => Some(m@), None => None },
            video_id: match self.video_id { Some(s) => Some(s@), None => None },
        }
    }
}

/// The message with no field set.
pub open spec fn next_request_policy_default() -> NextRequestPolicyView {
    NextRequestPolicyView {
        target_audio_readahead_ms: None,
        target_video_readahead_ms: None,
        backoff_time_ms: None,
        playback_cookie: None,
        video_id: None,
    }
}

/// Effect of one wire field on the message.
pub open spec fn next_request_policy_update(
    acc: NextRequestPolicyView,
    fno: nat,
    wire: nat,
    num: u64,
    bytes: Seq<u8>,
) -> Option<NextRequestPolicyView> {
    if fno == 1 {
        if wire == 0 {
            Some(NextRequestPolicyView { target_audio_readahead_ms: Some(pb_as_i32(num)), ..acc })
        } else {
            None
        }
    } else if fno == 2 {
        if wire == 0 {
            Some(NextRequestPolicyView { target_video_readahead_ms: Some(pb_as_i32(num)), ..acc })
        } else {
            None
        }
    } else if fno == 4 {
        if wire == 0 {
            Some(NextRequestPolicyView { backoff_time_ms: Some(pb_as_i32(num)), ..acc })
        } else {
            None
        }
    } else if fno == 7 {
        if wire == 2 {
            match decode_playback_cookie_spec(bytes) {
                Some(v) => Some(NextRequestPolicyView { playback_cookie: Some(v), ..acc }),
                None => None,
            }
        } else {
            None
        }
    } else if fno == 8 {
        if wire == 2 {
            if valid_utf8(bytes) {
                Some(NextRequestPolicyView { video_id: Some(decode_utf8(bytes)), ..acc })
            } else {
                None
            }
        } else {
            None
        }
    } else {
        Some(acc)
    }
}

/// The field handler of [`next_request_policy_update`] as a function value.
pub open spec fn next_request_policy_f() -> spec_fn(NextRequestPolicyView, nat, nat, u64, Seq<u8>) -> Option<NextRequestPolicyView> {
    |acc: NextRequestPolicyView, fno: nat, wire: nat, num: u64, bytes: Seq<u8>|
        next_request_policy_update(acc, fno, wire, num, bytes)
}

/// The message encoded by `s`, or `None` when `s` is not a valid encoding.
pub open spec fn decode_next_request_policy_spec(s: Seq<u8>) -> Option<NextRequestPolicyView> {
    pb_fold_at(s, 0, next_request_policy_default(), next_request_policy_f())
}

/// Decodes a `NextRequestPolicy` message.
pub fn decode_next_request_policy(data: &[u8]) -> (r: Option<NextRequestPolicy>)
    ensures
        match r {
            Some(m) => decode_next_request_policy_spec(data@) == Some(m@),
            None => decode_next_request_policy_spec(data@) == None::<NextRequestPolicyView>,
        },
{
    let mut acc = NextRequestPolicy {
        target_audio_readahead_ms: None,
        target_video_readahead_ms: None,
        backoff_time_ms: None,
        playback_cookie: None,
        video_id: None,
    };
    let dlen = data.len();
    let mut pos: usize = 0;
    proof {
        assert(acc@ == next_request_policy_default());
    }
    loop
        invariant
            pos <= dlen,
            dlen == data@.len(),
            pb_fold_at(data@, pos as int, acc@, next_request_policy_f()) == decode_next_request_policy_spec(data@),
        decreases data@.len() - pos,
    {
        if pos >= dlen {
            return Some(acc);
        }
        let ghost prev = acc@;
        let (fno, wire, num, bstart, blen, c) = match read_pb_field(data, pos) {
            Some(t) => t,
            None => {
                return None;
            },
        };
        let ghost bytes = data@.subrange(bstart as int, bstart + blen as int);
        if fno == 1 {
            if wire != 0 {
                return None;
            }
            acc.target_audio_readahead_ms = Some(pb_to_i32(num));
        } else if fno == 2 {
            if wire != 0 {
                return None;
            }
            acc.target_video_readahead_ms = Some(pb_to_i32(num));
        } else if fno == 4 {
            if wire != 0 {
                return None;
            }
            acc.backoff_time_ms = Some(pb_to_i32(num));
        } else if fno == 7 {
            if wire != 2 {
                return None;
            }
            match decode_playback_cookie(&data[bstart..bstart + blen]) {
                Some(v) => {
                    acc.playback_cookie = Some(v);
                },
                None => {
                    return None;
                },
            }
        } else if fno == 8 {
            if wire != 2 {
                return None;
            }
            let raw = copy_byte_range(data, bstart, bstart + blen);
            match bytes_to_string(raw) {
                Some(s) => {
                    acc.video_id = Some(s);
                },
                None => {
                    return None;
                },
            }
        }
        proof {
            assert(next_request_policy_f()(prev, fno as nat, wire as nat, num, bytes) == next_request_policy_update(
                prev,
                fno as nat,
                wire as nat,
                num,
                bytes,
            ));
            assert(next_request_policy_update(prev, fno as nat, wire as nat, num, bytes) == Some(acc@));
        }
        pos = pos + c;
    }
}

/// The `FormatInitializationMetadata` message.
#[derive(Debug, Clone, PartialEq)]
pub struct FormatInitializationMetadata {
    pub format_id: Option<FormatId>,
    pub duration_ms: Option<i64>,
    pub mime_type: Option<String>,
    pub end_segment_number: Option<i64>,
}

/// Ghost form of [`FormatInitializationMetadata`].
pub struct FormatInitializationMetadataView {
    pub format_id: Option<FormatIdView>,
    pub duration_ms: Option<i64>,
    pub mime_type: Option<Seq<char>>,
    pub end_segment_number: Option<i64>,
}

impl View for FormatInitializationMetadata {
    type V = FormatInitializationMetadataView;

    open spec fn view(&self) -> FormatInitializationMetadataView {
        FormatInitializationMetadataView {
            format_id: match self.format_id { Some(m) => Some(m@), None => None },
            duration_ms: self.duration_ms,
            mime_type: match self.mime_type { Some(s) => Some(s@), None => None },
            end_segment_number: self.end_segment_number,
        }
    }
}

/// The message with no field set.
pub open spec fn format_initialization_metadata_default() -> FormatInitializationMetadataView {
    FormatInitializationMetadataView {
        format_id: None,
        duration_ms: None,
        mime_type: None,
        end_segment_number: None,
    }
}

/// Effect of one wire field on the message.
pub open spec fn format_initialization_metadata_update(
    acc: FormatInitializationMetadataView,
    fno: nat,
    wire: nat,
    num: u64,
    bytes: Seq<u8>,
) -> Option<FormatInitializationMetadataView> {
    if fno == 1 {
        if wire == 2 {
            match decode_format_id_spec(bytes) {
                Some(v) => Some(FormatInitializationMetadataView { format_id: Some(v), ..acc }),
                None => None,
            }
        } else {
            None
        }
    } else if fno == 2 {
        if wire == 0 {
            Some(FormatInitializationMetadataView { duration_ms: Some(pb_as_i64(num)), ..acc })
        } else {
            None
        }
    } else if fno == 3 {
        if wire == 2 {
            if valid_utf8(bytes) {
                Some(FormatInitializationMetadataView { mime_type: Some(decode_utf8(bytes)), ..acc })
            } else {
                None
            }
        } else {
            None
        }
    } else if fno == 4 {
        if wire == 0 {
            Some(FormatInitializationMetadataView { end_segment_number: Some(pb_as_i64(num)), ..acc })
        } else {
            None
        }
    } else {
        Some(acc)
    }
}

/// The field handler of [`format_initialization_metadata_update`] as a function value.
pub open spec fn format_initialization_metadata_f() -> spec_fn(FormatInitializationMetadataView, nat, nat, u64, Seq<u8>) -> Option<FormatInitializationMetadataView> {
    |acc: FormatInitializationMetadataView, fno: nat, wire: nat, num: u64, bytes: Seq<u8>|
        format_initialization_metadata_update(acc, fno, wire, num, bytes)
}

/// The message encoded by `s`, or `None` when `s` is not a valid encoding.
pub open spec fn decode_format_initialization_metadata_spec(s: Seq<u8>) -> Option<FormatInitializationMetadataView> {
    pb_fold_at(s, 0, format_initialization_metadata_default(), format_initialization_metadata_f())
}

/// Decodes a `FormatInitializationMetadata` message.
pub fn decode_format_initialization_metadata(data: &[u8]) -> (r: Option<FormatInitializationMetadata>)
    ensures
        match r {
            Some(m) => decode_format_initialization_metadata_spec(data@) == Some(m@),
            None => decode_format_initialization_metadata_spec(data@) == None::<FormatInitializationMetadataView>,
        },
{
    let mut acc = FormatInitializationMetadata {
        format_id: None,
        duration_ms: None,
        mime_type: None,
        end_segment_number: None,
    };
    let dlen = data.len();
    let mut pos: usize = 0;
    proof {
        assert(acc@ == format_initialization_metadata_default());
    }
    loop
        invariant
            pos <= dlen,
            dlen == data@.len(),
            pb_fold_at(data@, pos as int, acc@, format_initialization_metadata_f()) == decode_format_initialization_metadata_spec(data@),
        decreases data@.len() - pos,
    {
        if pos >= dlen {
            return Some(acc);
        }
        let ghost prev = acc@;
        let (fno, wire, num, bstart, blen, c) = match read_pb_field(data, pos) {
            Some(t) => t,
            None => {
                return None;
            },
        };
        let ghost bytes = data@.subrange(bstart as int, bstart + blen as int);
        if fno == 1 {
            if wire != 2 {
                return None;
            }
            match decode_format_id(&data[bstart..bstart + blen]) {
                Some(v) => {
                    acc.format_id = Some(v);
                },
                None => {
                    return None;
                },
            }
        } else if fno == 2 {
            if wire != 0 {
                return None;
            }
            acc.duration_ms = Some(pb_to_i64(num));
        } else if fno == 3 {
            if wire != 2 {
                return None;
            }
            let raw = copy_byte_range(data, bstart, bstart + blen);
            match bytes_to_string(raw) {
                Some(s) => {
                    acc.mime_type = Some(s);
                },
                None => {
                    return None;
                },
            }
        } else if fno == 4 {
            if wire != 0 {
                return None;
            }
            acc.end_segment_number = Some(pb_to_i64(num));
        }
        proof {
            assert(format_initialization_metadata_f()(prev, fno as nat, wire as nat, num, bytes) == format_initialization_metadata_update(
                prev,
                fno as nat,
                wire as nat,
                num,
                bytes,
            ));
            assert(format_initialization_metadata_update(prev, fno as nat, wire as nat, num, bytes) == Some(acc@));
        }
        pos = pos + c;
    }
}

} // verus!
