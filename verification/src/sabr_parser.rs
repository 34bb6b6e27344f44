//! SABR response parser: demultiplexes the UMP parts of a server response
//! into per-format sequence and media-chunk lists, tracks the header-id to
//! format mapping, and carries the playback cookie across requests.

use vstd::prelude::*;
use crate::sabr_messages::{
    decode_format_initialization_metadata, decode_format_initialization_metadata_spec,
    decode_media_header, decode_media_header_spec, decode_next_request_policy,
    decode_next_request_policy_spec, decode_sabr_error, decode_sabr_error_spec,
    decode_sabr_redirect, decode_sabr_redirect_spec, decode_stream_protection_status,
    decode_stream_protection_status_spec, FormatId, FormatIdView,
    FormatInitializationMetadataView, MediaHeaderView, NextRequestPolicy, NextRequestPolicyView,
    PlaybackCookie, PlaybackCookieView, SabrError, SabrErrorView, SabrRedirect, SabrRedirectView,
    StreamProtectionStatus, StreamProtectionStatusView, TimeRange,
};
use crate::strutil::{chars_lt, chars_lt_exec, copy_chars, i64_to_chars, int_repr, str_to_chars};
use crate::varint::{read_variable_integer, varint_complete_at, varint_value, varint_width, UmpError};
use crate::proto::copy_byte_range;

verus! {

/// The part types of the SABR control stream: the UMP frame types with a
/// defined meaning.  Any other frame type is tolerated and ignored.
#[derive(Debug, Clone, Copy, PartialEq, Eq, Structural)]
pub enum PartType {
    OnesieHeader,
    OnesieData,
    MediaHeader,
    Media,
    MediaEnd,
    LiveMetadata,
    HostnameChangeHint,
    LiveMetadataPromise,
    LiveMetadataPromiseCancellation,
    NextRequestPolicy,
    UstreamerVideoAndFormatData,
    FormatSelectionConfig,
    UstreamerSelectedMediaStream,
    FormatInitializationMetadata,
    SabrRedirect,
    SabrError,
    SabrSeek,
    ReloadPlayerResponse,
    PlaybackStartPolicy,
    AllowedCachedFormats,
    StartBwSamplingHint,
    PauseBwSamplingHint,
    SelectableFormats,
    RequestIdentifier,
    RequestCancellationPolicy,
    OnesiePrefetchRejection,
    TimelineContext,
    RequestPipelining,
    SabrContextUpdate,
    StreamProtectionStatus,
    SabrContextSendingPolicy,
    LawnmowerPolicy,
    SabrAck,
    EndOfTrack,
    CacheLoadPolicy,
    LawnmowerMessagingPolicy,
    PrewarmConnection,
}

/// Numeric code of a part type on the wire.
pub open spec fn part_type_code(t: PartType) -> int {
    match t {
        PartType::OnesieHeader => 10,
        PartType::OnesieData => 11,
        PartType::MediaHeader => 20,
        PartType::Media => 21,
        PartType::MediaEnd => 22,
        PartType::LiveMetadata => 31,
        PartType::HostnameChangeHint => 32,
        PartType::LiveMetadataPromise => 33,
        PartType::LiveMetadataPromiseCancellation => 34,
        PartType::NextRequestPolicy => 35,
        PartType::UstreamerVideoAndFormatData => 36,
        PartType::FormatSelectionConfig => 37,
        PartType::UstreamerSelectedMediaStream => 38,
        PartType::FormatInitializationMetadata => 42,
        PartType::SabrRedirect => 43,
        PartType::SabrError => 44,
        PartType::SabrSeek => 45,
        PartType::ReloadPlayerResponse => 46,
        PartType::PlaybackStartPolicy => 47,
        PartType::AllowedCachedFormats => 48,
        PartType::StartBwSamplingHint => 49,
        PartType::PauseBwSamplingHint => 50,
        PartType::SelectableFormats => 51,
        PartType::RequestIdentifier => 52,
        PartType::RequestCancellationPolicy => 53,
        PartType::OnesiePrefetchRejection => 54,
        PartType::TimelineContext => 55,
        PartType::RequestPipelining => 56,
        PartType::SabrContextUpdate => 57,
        PartType::StreamProtectionStatus => 58,
        PartType::SabrContextSendingPolicy => 59,
        PartType::LawnmowerPolicy => 60,
        PartType::SabrAck => 61,
        PartType::EndOfTrack => 62,
        PartType::CacheLoadPolicy => 63,
        PartType::LawnmowerMessagingPolicy => 64,
        PartType::PrewarmConnection => 65,
    }
}

/// Is `value` the code of a defined part type?
pub open spec fn is_known_part_type(value: int) -> bool {
    value == 10 || value == 11 || value == 20 || value == 21 || value == 22 || value == 31 || value == 32 || value == 33 || value == 34 || value == 35 || value == 36 || value == 37 || value == 38 || value == 42 || value == 43 || value == 44 || value == 45 || value == 46 || value == 47 || value == 48 || value == 49 || value == 50 || value == 51 || value == 52 || value == 53 || value == 54 || value == 55 || value == 56 || value == 57 || value == 58 || value == 59 || value == 60 || value == 61 || value == 62 || value == 63 || value == 64 || value == 65
}

impl PartType {
    /// Part type of a known code.
    pub fn from(value: i32) -> (r: PartType)
        requires
            is_known_part_type(value as int),
        ensures
            part_type_code(r) == value as int,
    {
        match value {
        10 => PartType::OnesieHeader,
        11 => PartType::OnesieData,
        20 => PartType::MediaHeader,
        21 => PartType::Media,
        22 => PartType::MediaEnd,
        31 => PartType::LiveMetadata,
        32 => PartType::HostnameChangeHint,
        33 => PartType::LiveMetadataPromise,
        34 => PartType::LiveMetadataPromiseCancellation,
        35 => PartType::NextRequestPolicy,
        36 => PartType::UstreamerVideoAndFormatData,
        37 => PartType::FormatSelectionConfig,
        38 => PartType::UstreamerSelectedMediaStream,
        42 => PartType::FormatInitializationMetadata,
        43 => PartType::SabrRedirect,
        44 => PartType::SabrError,
        45 => PartType::SabrSeek,
        46 => PartType::ReloadPlayerResponse,
        47 => PartType::PlaybackStartPolicy,
        48 => PartType::AllowedCachedFormats,
        49 => PartType::StartBwSamplingHint,
        50 => PartType::PauseBwSamplingHint,
        51 => PartType::SelectableFormats,
        52 => PartType::RequestIdentifier,
        53 => PartType::RequestCancellationPolicy,
        54 => PartType::OnesiePrefetchRejection,
        55 => PartType::TimelineContext,
        56 => PartType::RequestPipelining,
        57 => PartType::SabrContextUpdate,
        58 => PartType::StreamProtectionStatus,
        59 => PartType::SabrContextSendingPolicy,
        60 => PartType::LawnmowerPolicy,
        61 => PartType::SabrAck,
        62 => PartType::EndOfTrack,
        63 => PartType::CacheLoadPolicy,
        64 => PartType::LawnmowerMessagingPolicy,
        65 => PartType::PrewarmConnection,
            _ => PartType::OnesieHeader,
        }
    }
}

/// One media sequence described by a `MediaHeader`.
#[derive(Debug, Clone, PartialEq)]
pub struct Sequence {
    pub itag: Option<i32>,
    pub format_id: Option<FormatId>,
    pub is_init_segment: Option<bool>,
    pub duration_ms: Option<i64>,
    pub start_ms: Option<i64>,
    pub start_data_range: Option<i64>,
    pub sequence_number: Option<i64>,
    pub content_length: Option<i64>,
    pub time_range: Option<TimeRange>,
}

/// Ghost form of [`Sequence`].
pub struct SequenceView {
    pub itag: Option<i32>,
    pub format_id: Option<FormatIdView>,
    pub is_init_segment: Option<bool>,
    pub duration_ms: Option<i64>,
    pub start_ms: Option<i64>,
    pub start_data_range: Option<i64>,
    pub sequence_number: Option<i64>,
    pub content_length: Option<i64>,
    pub time_range: Option<crate::sabr_messages::TimeRangeView>,
}

impl View for Sequence {
    type V = SequenceView;

    open spec fn view(&self) -> SequenceView {
        SequenceView {
            itag: self.itag,
            format_id: match self.format_id {
                Some(f) => Some(f@),
                None => None,
            },
            is_init_segment: self.is_init_segment,
            duration_ms: self.duration_ms,
            start_ms: self.start_ms,
            start_data_range: self.start_data_range,
            sequence_number: self.sequence_number,
            content_length: self.content_length,
            time_range: match self.time_range {
                Some(t) => Some(t@),
                None => None,
            },
        }
    }
}

/// Per-format accumulator: identity, canonical key, metadata, and the
/// ordered sequence and media-chunk lists of the current response.
#[derive(Debug, Clone, PartialEq)]
pub struct InitializedFormat {
    pub format_id: FormatId,
    pub format_key: String,
    pub duration_ms: Option<i64>,
    pub mime_type: Option<String>,
    pub sequence_count: Option<i64>,
    pub sequence_list: Vec<Sequence>,
    pub media_chunks: Vec<Vec<u8>>,
}

/// Ghost form of [`InitializedFormat`].
pub struct InitializedFormatView {
    pub format_id: FormatIdView,
    pub format_key: Seq<char>,
    pub duration_ms: Option<i64>,
    pub mime_type: Option<Seq<char>>,
    pub sequence_count: Option<i64>,
    pub sequence_list: Seq<SequenceView>,
    pub media_chunks: Seq<Seq<u8>>,
}

/// View of a sequence list.
pub open spec fn seqs_view(s: Seq<Sequence>) -> Seq<SequenceView> {
    s.map_values(|x: Sequence| x@)
}

/// View of a chunk list.
pub open spec fn chunks_view(s: Seq<Vec<u8>>) -> Seq<Seq<u8>> {
    s.map_values(|c: Vec<u8>| c@)
}

impl View for InitializedFormat {
    type V = InitializedFormatView;

    open spec fn view(&self) -> InitializedFormatView {
        InitializedFormatView {
            format_id: self.format_id@,
            format_key: self.format_key@,
            duration_ms: self.duration_ms,
            mime_type: match self.mime_type {
                Some(s) => Some(s@),
                None => None,
            },
            sequence_count: self.sequence_count,
            sequence_list: seqs_view(self.sequence_list@),
            media_chunks: chunks_view(self.media_chunks@),
        }
    }
}

/// Everything one parse of a response yields.
#[derive(Debug, Clone, PartialEq)]
pub struct SabrResponse {
    pub initialized_formats: Vec<InitializedFormat>,
    pub stream_protection_status: Option<StreamProtectionStatus>,
    pub sabr_redirect: Option<SabrRedirect>,
    pub sabr_error: Option<SabrError>,
    pub next_request_policy: Option<NextRequestPolicy>,
}

/// Ghost form of [`SabrResponse`].
pub struct SabrResponseView {
    pub initialized_formats: Seq<InitializedFormatView>,
    pub stream_protection_status: Option<StreamProtectionStatusView>,
    pub sabr_redirect: Option<SabrRedirectView>,
    pub sabr_error: Option<SabrErrorView>,
    pub next_request_policy: Option<NextRequestPolicyView>,
}

impl View for SabrResponse {
    type V = SabrResponseView;

    open spec fn view(&self) -> SabrResponseView {
        SabrResponseView {
            initialized_formats: fmts_view(self.initialized_formats@),
            stream_protection_status: match self.stream_protection_status {
                Some(s) => Some(s@),
                None => None,
            },
            sabr_redirect: match self.sabr_redirect {
                Some(s) => Some(s@),
                None => None,
            },
            sabr_error: match self.sabr_error {
                Some(s) => Some(s@),
                None => None,
            },
            next_request_policy: match self.next_request_policy {
                Some(s) => Some(s@),
                None => None,
            },
        }
    }
}

/// One UMP part: its type, payload size and payload bytes.
#[derive(Debug, Clone, PartialEq)]
pub struct UmpPart {
    pub part_type: PartType,
    pub size: usize,
    pub data: Vec<u8>,
}

/// The ephemeral control parts accumulated while parsing one response.
pub struct SabrAccView {
    pub stream_protection_status: Option<StreamProtectionStatusView>,
    pub sabr_redirect: Option<SabrRedirectView>,
    pub sabr_error: Option<SabrErrorView>,
    pub next_request_policy: Option<NextRequestPolicyView>,
}

/// Ghost form of [`SabrParser`].
pub struct SabrParserView {
    pub header_map: Map<u32, Seq<char>>,
    pub formats: Seq<InitializedFormatView>,
    pub output: Seq<InitializedFormatView>,
    pub cookie: Option<PlaybackCookieView>,
}

/// Canonical key of a format: its itag and versioning timestamp in decimal,
/// each followed by a semicolon.
pub open spec fn fmt_key_of(fid: FormatIdView) -> Seq<char> {
    int_repr(
        match fid.itag {
            Some(v) => v as int,
            None => 0,
        },
    ) + seq![';'] + int_repr(
        match fid.last_modified {
            Some(v) => v as int,
            None => 0,
        },
    ) + seq![';']
}

/// Does a format with this key exist?
pub open spec fn has_fmt(fs: Seq<InitializedFormatView>, key: Seq<char>) -> bool {
    exists|i: int| 0 <= i < fs.len() && (#[trigger] fs[i]).format_key == key
}

/// First index of the format with this key.
pub open spec fn fmt_idx(fs: Seq<InitializedFormatView>, key: Seq<char>) -> int
    decreases fs.len(),
{
    if fs.len() == 0 {
        0
    } else if fs[0].format_key == key {
        0
    } else {
        1 + fmt_idx(fs.drop_first(), key)
    }
}

/// A fresh format record registered from a `MediaHeader`.
pub open spec fn new_fmt_from_header(
    mh: MediaHeaderView,
    fid: FormatIdView,
    key: Seq<char>,
) -> InitializedFormatView {
    InitializedFormatView {
        format_id: fid,
        format_key: key,
        duration_ms: mh.duration_ms,
        mime_type: None,
        sequence_count: None,
        sequence_list: Seq::empty(),
        media_chunks: Seq::empty(),
    }
}

/// A fresh format record registered from a `FormatInitializationMetadata`.
pub open spec fn new_fmt_from_init(
    fim: FormatInitializationMetadataView,
    fid: FormatIdView,
    key: Seq<char>,
) -> InitializedFormatView {
    InitializedFormatView {
        format_id: fid,
        format_key: key,
        duration_ms: fim.duration_ms,
        mime_type: fim.mime_type,
        sequence_count: fim.end_segment_number,
        sequence_list: Seq::empty(),
        media_chunks: Seq::empty(),
    }
}

/// The sequence descriptor a `MediaHeader` contributes.
pub open spec fn seq_from_header(mh: MediaHeaderView) -> SequenceView {
    SequenceView {
        itag: mh.itag,
        format_id: mh.format_id,
        is_init_segment: mh.is_init_seg,
        duration_ms: mh.duration_ms,
        start_ms: mh.start_ms,
        start_data_range: mh.start_range,
        sequence_number: mh.sequence_number,
        content_length: mh.content_length,
        time_range: mh.time_range,
    }
}

/// Effect of a `MediaHeader` part: register the format when new, remember
/// the header-id mapping, and append a sequence descriptor.
pub open spec fn st_media_header(st: SabrParserView, payload: Seq<u8>) -> Option<SabrParserView> {
    match decode_media_header_spec(payload) {
        None => None,
        Some(mh) => match mh.format_id {
            None => Some(st),
            Some(fid) => {
                let key = fmt_key_of(fid);
                let fs1 = if has_fmt(st.formats, key) {
                    st.formats
                } else {
                    st.formats.push(new_fmt_from_header(mh, fid, key))
                };
                let hm1 = match mh.header_id {
                    Some(h) => st.header_map.insert(h, key),
                    None => st.header_map,
                };
                let i = fmt_idx(fs1, key);
                let fs2 = fs1.update(
                    i,
                    InitializedFormatView {
                        sequence_list: fs1[i].sequence_list.push(seq_from_header(mh)),
                        ..fs1[i]
                    },
                );
                Some(SabrParserView { header_map: hm1, formats: fs2, ..st })
            },
        },
    }
}

/// Effect of a media part: the first payload byte names a header id; the
/// rest is one chunk for the mapped format.  A chunk with an unknown header
/// id is dropped.
pub open spec fn st_media(st: SabrParserView, payload: Seq<u8>) -> SabrParserView {
    if payload.len() == 0 {
        st
    } else {
        let id = payload[0] as u32;
        if st.header_map.contains_key(id) && has_fmt(st.formats, st.header_map[id]) {
            let i = fmt_idx(st.formats, st.header_map[id]);
            SabrParserView {
                formats: st.formats.update(
                    i,
                    InitializedFormatView {
                        media_chunks: st.formats[i].media_chunks.push(payload.skip(1)),
                        ..st.formats[i]
                    },
                ),
                ..st
            }
        } else {
            st
        }
    }
}

/// Effect of a media-end part: the mapping of the named header id retires.
pub open spec fn st_media_end(st: SabrParserView, payload: Seq<u8>) -> SabrParserView {
    if payload.len() == 0 {
        st
    } else {
        SabrParserView { header_map: st.header_map.remove(payload[0] as u32), ..st }
    }
}

/// Effect of a `FormatInitializationMetadata` part: register the format
/// when new.
pub open spec fn st_format_init(st: SabrParserView, payload: Seq<u8>) -> Option<SabrParserView> {
    match decode_format_initialization_metadata_spec(payload) {
        None => None,
        Some(fim) => match fim.format_id {
            None => Some(st),
            Some(fid) => {
                let key = fmt_key_of(fid);
                if has_fmt(st.formats, key) {
                    Some(st)
                } else {
                    Some(
                        SabrParserView {
                            formats: st.formats.push(new_fmt_from_init(fim, fid, key)),
                            ..st
                        },
                    )
                }
            },
        },
    }
}

/// Effect of one UMP part on the parser state and the accumulated response
/// parts.  `None` is a decoding failure of a recognised part.
pub open spec fn sabr_step(
    st: SabrParserView,
    acc: SabrAccView,
    t: nat,
    payload: Seq<u8>,
) -> Option<(SabrParserView, SabrAccView)> {
    if t == 20 {
        match st_media_header(st, payload) {
            Some(st2) => Some((st2, acc)),
            None => None,
        }
    } else if t == 21 {
        Some((st_media(st, payload), acc))
    } else if t == 22 {
        Some((st_media_end(st, payload), acc))
    } else if t == 35 {
        match decode_next_request_policy_spec(payload) {
            None => None,
            Some(p) => {
                let cookie = match p.playback_cookie {
                    Some(c) => Some(c),
                    None => st.cookie,
                };
                Some(
                    (
                        SabrParserView { cookie, ..st },
                        SabrAccView { next_request_policy: Some(p), ..acc },
                    ),
                )
            },
        }
    } else if t == 42 {
        match st_format_init(st, payload) {
            Some(st2) => Some((st2, acc)),
            None => None,
        }
    } else if t == 43 {
        match decode_sabr_redirect_spec(payload) {
            None => None,
            Some(m) => Some((st, SabrAccView { sabr_redirect: Some(m), ..acc })),
        }
    } else if t == 44 {
        match decode_sabr_error_spec(payload) {
            None => None,
            Some(m) => Some((st, SabrAccView { sabr_error: Some(m), ..acc })),
        }
    } else if t == 58 {
        match decode_stream_protection_status_spec(payload) {
            None => None,
            Some(m) => Some((st, SabrAccView { stream_protection_status: Some(m), ..acc })),
        }
    } else {
        Some((st, acc))
    }
}

/// Runs the parser over the UMP parts of `d` from `off` on.  A truncated or
/// unreadable frame header ends the run gracefully with what has been
/// accumulated; a decoding failure inside a recognised part yields `None`.
pub open spec fn sabr_run(
    st: SabrParserView,
    acc: SabrAccView,
    d: Seq<u8>,
    off: int,
) -> Option<(SabrParserView, SabrAccView)>
    decreases d.len() - off,
    via sabr_run_decreases
{
    if off < 0 || off >= d.len() {
        Some((st, acc))
    } else if !varint_complete_at(d, off) {
        Some((st, acc))
    } else {
        let w1 = varint_width(d[off]);
        let t = varint_value(d.skip(off));
        if !varint_complete_at(d, off + w1) {
            Some((st, acc))
        } else {
            let w2 = varint_width(d[off + w1]);
            let l = varint_value(d.skip(off + w1)) as int;
            if off + w1 + w2 + l > d.len() {
                Some((st, acc))
            } else {
                let payload = d.subrange(off + w1 + w2, off + w1 + w2 + l);
                match sabr_step(st, acc, t, payload) {
                    None => None,
                    Some((st2, acc2)) => sabr_run(st2, acc2, d, off + w1 + w2 + l),
                }
            }
        }
    }
}

#[via_fn]
proof fn sabr_run_decreases(st: SabrParserView, acc: SabrAccView, d: Seq<u8>, off: int) {
}

/// Whether a whole frame is readable at `off`.
pub open spec fn frame_ready(d: Seq<u8>, off: int) -> bool {
    &&& 0 <= off < d.len()
    &&& varint_complete_at(d, off)
    &&& varint_complete_at(d, off + varint_width(d[off]))
    &&& ({
        let w1 = varint_width(d[off]);
        let w2 = varint_width(d[off + w1]);
        let l = varint_value(d.skip(off + w1)) as int;
        off + w1 + w2 + l <= d.len()
    })
}

/// Unfolding step of [`sabr_run`] when a whole frame is readable.
pub proof fn lemma_sabr_run_unfold(st: SabrParserView, acc: SabrAccView, d: Seq<u8>, off: int)
    requires
        frame_ready(d, off),
    ensures
        ({
            let w1 = varint_width(d[off]);
            let w2 = varint_width(d[off + w1]);
            let t = varint_value(d.skip(off));
            let l = varint_value(d.skip(off + w1)) as int;
            let payload = d.subrange(off + w1 + w2, off + w1 + w2 + l);
            sabr_run(st, acc, d, off) == match sabr_step(st, acc, t, payload) {
                None => None::<(SabrParserView, SabrAccView)>,
                Some((st2, acc2)) => sabr_run(st2, acc2, d, off + w1 + w2 + l),
            }
        }),
{
}

/// [`sabr_run`] ends gracefully when no whole frame is readable.
pub proof fn lemma_sabr_run_stuck(st: SabrParserView, acc: SabrAccView, d: Seq<u8>, off: int)
    requires
        !frame_ready(d, off),
        off >= 0,
    ensures
        sabr_run(st, acc, d, off) == Some((st, acc)),
{
}

/// A format record with its per-response lists cleared.
pub open spec fn cleared_fmt(f: InitializedFormatView) -> InitializedFormatView {
    InitializedFormatView { sequence_list: Seq::empty(), media_chunks: Seq::empty(), ..f }
}

/// The parser state at the start of a parse: the header-id map cleared, the
/// sequence and chunk lists of every known format cleared.
pub open spec fn cleared_state(st: SabrParserView) -> SabrParserView {
    SabrParserView {
        header_map: Map::empty(),
        formats: st.formats.map_values(|f: InitializedFormatView| cleared_fmt(f)),
        ..st
    }
}

/// No control parts seen yet.
pub open spec fn empty_acc() -> SabrAccView {
    SabrAccView {
        stream_protection_status: None,
        sabr_redirect: None,
        sabr_error: None,
        next_request_policy: None,
    }
}

/// Inserts a format into a list sorted ascending by key.
pub open spec fn insert_fmt(
    f: InitializedFormatView,
    l: Seq<InitializedFormatView>,
) -> Seq<InitializedFormatView>
    decreases l.len(),
{
    if l.len() == 0 {
        seq![f]
    } else if chars_lt(f.format_key, l[0].format_key) {
        seq![f] + l
    } else {
        seq![l[0]] + insert_fmt(f, l.drop_first())
    }
}

/// The format list sorted ascending by canonical key.
pub open spec fn sort_formats(fs: Seq<InitializedFormatView>) -> Seq<InitializedFormatView>
    decreases fs.len(),
{
    if fs.len() == 0 {
        Seq::empty()
    } else {
        insert_fmt(fs[0], sort_formats(fs.drop_first()))
    }
}

/// The response a finished run yields: the registered formats sorted by
/// key, and the control parts seen.
pub open spec fn response_view(st: SabrParserView, acc: SabrAccView) -> SabrResponseView {
    SabrResponseView {
        initialized_formats: sort_formats(st.formats),
        stream_protection_status: acc.stream_protection_status,
        sabr_redirect: acc.sabr_redirect,
        sabr_error: acc.sabr_error,
        next_request_policy: acc.next_request_policy,
    }
}

/// View of a header-id map held as a vector of entries; a later entry for
/// the same id supersedes an earlier one.
pub open spec fn hmap_view(s: Seq<(u32, Vec<char>)>) -> Map<u32, Seq<char>>
    decreases s.len(),
{
    if s.len() == 0 {
        Map::empty()
    } else {
        hmap_view(s.drop_last()).insert(s.last().0, s.last().1@)
    }
}

/// Looks an id up in the header-id map.
fn hmap_lookup(m: &Vec<(u32, Vec<char>)>, id: u32) -> (r: Option<Vec<char>>)
    ensures
        match r {
            Some(v) => hmap_view(m@).contains_key(id) && v@ == hmap_view(m@)[id],
            None => !hmap_view(m@).contains_key(id),
        },
{
    let ghost full = m@;
    let mut i = m.len();
    proof {
        assert(full.take(full.len() as int) =~= full);
    }
    loop
        invariant
            i <= m@.len(),
            full == m@,
            hmap_view(full).contains_key(id) == hmap_view(full.take(i as int)).contains_key(id),
            hmap_view(full).contains_key(id) ==> hmap_view(full.take(i as int)).contains_key(id)
                && hmap_view(full.take(i as int))[id] == hmap_view(full)[id],
        decreases i,
    {
        if i == 0 {
            proof {
                assert(full.take(0) =~= Seq::<(u32, Vec<char>)>::empty());
                assert(!hmap_view(full.take(0)).contains_key(id));
            }
            return None;
        }
        i = i - 1;
        proof {
            assert(full.take(i + 1).drop_last() =~= full.take(i as int));
            assert(full.take(i + 1).last() == full[i as int]);
            assert(hmap_view(full.take(i + 1)) == hmap_view(full.take(i as int)).insert(
                full[i as int].0,
                full[i as int].1@,
            ));
        }
        if m[i].0 == id {
            let v = copy_chars(m[i].1.as_slice());
            return Some(v);
        }
    }
}

/// Records a header-id mapping; a fresh entry supersedes any earlier one.
fn hmap_insert(m: &mut Vec<(u32, Vec<char>)>, id: u32, key: Vec<char>)
    ensures
        hmap_view(final(m)@) == hmap_view(old(m)@).insert(id, key@),
{
    let ghost k = key@;
    m.push((id, key));
    proof {
        assert(m@.drop_last() =~= old(m)@);
        assert(m@.last() == (id, m@.last().1));
        assert(m@.last().1@ == k);
    }
}

/// Removes every mapping of `id`.
fn hmap_remove(m: &mut Vec<(u32, Vec<char>)>, id: u32)
    ensures
        hmap_view(final(m)@) == hmap_view(old(m)@).remove(id),
{
    let ghost full = m@;
    let mut out: Vec<(u32, Vec<char>)> = Vec::new();
    let mut i: usize = 0;
    proof {
        assert(full.take(0) =~= Seq::<(u32, Vec<char>)>::empty());
        assert(hmap_view(out@) =~= hmap_view(full.take(0)).remove(id));
    }
    while i < m.len()
        invariant
            i <= m@.len(),
            full == m@,
            hmap_view(out@) == hmap_view(full.take(i as int)).remove(id),
        decreases m@.len() - i,
    {
        proof {
            assert(full.take(i + 1).drop_last() =~= full.take(i as int));
            assert(full.take(i + 1).last() == full[i as int]);
        }
        let ghost out0 = out@;
        if m[i].0 != id {
            let e = (m[i].0, copy_chars(m[i].1.as_slice()));
            out.push(e);
            proof {
                assert(out@.drop_last() =~= out0);
                assert(hmap_view(out@) == hmap_view(out0).insert(full[i as int].0, full[i as int].1@));
                assert(hmap_view(full.take(i + 1)).remove(id) =~= hmap_view(
                    full.take(i as int),
                ).remove(id).insert(full[i as int].0, full[i as int].1@));
            }
        } else {
            proof {
                assert(hmap_view(full.take(i + 1)).remove(id) =~= hmap_view(
                    full.take(i as int),
                ).remove(id));
            }
        }
        i = i + 1;
    }
    proof {
        assert(full.take(full.len() as int) =~= full);
    }
    *m = out;
}

/// View of a format list.
pub open spec fn fmts_view(s: Seq<InitializedFormat>) -> Seq<InitializedFormatView> {
    s.map_values(|f: InitializedFormat| f@)
}

/// The first index holding a key is `fmt_idx`, and `fmt_idx` is sound.
proof fn lemma_fmt_idx_props(fs: Seq<InitializedFormatView>, key: Seq<char>)
    ensures
        has_fmt(fs, key) ==> {
            let i = fmt_idx(fs, key);
            &&& 0 <= i < fs.len()
            &&& fs[i].format_key == key
            &&& forall|j: int| 0 <= j < i ==> (#[trigger] fs[j]).format_key != key
        },
    decreases fs.len(),
{
    if fs.len() > 0 && has_fmt(fs, key) {
        if fs[0].format_key == key {
        } else {
            assert(has_fmt(fs.drop_first(), key)) by {
                let w = choose|i: int| 0 <= i < fs.len() && (#[trigger] fs[i]).format_key == key;
                assert(fs.drop_first()[w - 1] == fs[w]);
            }
            lemma_fmt_idx_props(fs.drop_first(), key);
            let it = fmt_idx(fs.drop_first(), key);
            assert(fs[it + 1] == fs.drop_first()[it]);
            assert forall|j: int| 0 <= j < it + 1 implies (#[trigger] fs[j]).format_key != key by {
                if j > 0 {
                    assert(fs.drop_first()[j - 1] == fs[j]);
                }
            }
        }
    }
}

/// Pushing a new key puts it at the end, where `fmt_idx` finds it.
proof fn lemma_fmt_idx_push(fs: Seq<InitializedFormatView>, f: InitializedFormatView, key: Seq<char>)
    requires
        !has_fmt(fs, key),
        f.format_key == key,
    ensures
        has_fmt(fs.push(f), key),
        fmt_idx(fs.push(f), key) == fs.len(),
    decreases fs.len(),
{
    assert(fs.push(f)[fs.len() as int] == f);
    if fs.len() == 0 {
    } else {
        assert(fs[0].format_key != key) by {
            if fs[0].format_key == key {
                assert(has_fmt(fs, key));
            }
        }
        assert(!has_fmt(fs.drop_first(), key)) by {
            if has_fmt(fs.drop_first(), key) {
                let w = choose|i: int|
                    0 <= i < fs.drop_first().len() && (#[trigger] fs.drop_first()[i]).format_key
                        == key;
                assert(fs[w + 1] == fs.drop_first()[w]);
                assert(has_fmt(fs, key));
            }
        }
        lemma_fmt_idx_push(fs.drop_first(), f, key);
        assert(fs.push(f).drop_first() =~= fs.drop_first().push(f));
        assert(fs.push(f)[0] == fs[0]);
    }
}

/// Finds the format with this key.
fn find_fmt(fs: &Vec<InitializedFormat>, key: &[char]) -> (r: Option<usize>)
    ensures
        match r {
            Some(i) => has_fmt(fmts_view(fs@), key@) && i as int == fmt_idx(fmts_view(fs@), key@)
                && i < fs@.len(),
            None => !has_fmt(fmts_view(fs@), key@),
        },
{
    let ghost fv = fmts_view(fs@);
    let mut i: usize = 0;
    while i < fs.len()
        invariant
            i <= fs@.len(),
            fv == fmts_view(fs@),
            forall|j: int| 0 <= j < i ==> (#[trigger] fv[j]).format_key != key@,
        decreases fs@.len() - i,
    {
        let fk = str_to_chars(fs[i].format_key.as_str());
        if crate::strutil::chars_eq(key, fk.as_slice()) {
            proof {
                assert(fv[i as int].format_key == key@);
                assert(has_fmt(fv, key@));
                lemma_fmt_idx_props(fv, key@);
                let w = fmt_idx(fv, key@);
                if w < i {
                    assert(fv[w].format_key != key@);
                }
                if w > i {
                    assert(fv[i as int].format_key != key@);
                }
            }
            return Some(i);
        }
        i = i + 1;
    }
    proof {
        if has_fmt(fv, key@) {
            let w = choose|j: int| 0 <= j < fv.len() && (#[trigger] fv[j]).format_key == key@;
            assert(fv[w].format_key != key@);
        }
    }
    None
}

/// The canonical key of a format identity, as characters.
pub fn format_key_chars(fid: &FormatId) -> (r: Vec<char>)
    ensures
        r@ == fmt_key_of(fid@),
{
    let itag: i64 = match fid.itag {
        Some(v) => v as i64,
        None => 0,
    };
    let lmt: i64 = match fid.last_modified {
        Some(v) => v,
        None => 0,
    };
    let mut r = i64_to_chars(itag);
    r.push(';');
    let d = i64_to_chars(lmt);
    r.extend_from_slice(d.as_slice());
    r.push(';');
    proof {
        assert(r@ =~= fmt_key_of(fid@));
    }
    r
}

/// Copies a byte vector.
fn copy_bytes(v: &Vec<u8>) -> (r: Vec<u8>)
    ensures
        r@ == v@,
{
    let mut r: Vec<u8> = Vec::new();
    r.extend_from_slice(v.as_slice());
    proof {
        assert(r@ =~= v@);
    }
    r
}

/// Copies a format identity.
pub fn clone_format_id(f: &FormatId) -> (r: FormatId)
    ensures
        r@ == f@,
{
    FormatId {
        itag: f.itag,
        last_modified: f.last_modified,
        xtags: match &f.xtags {
            Some(s) => Some(s.clone()),
            None => None,
        },
    }
}

/// Copies a time range.
fn clone_time_range(t: &TimeRange) -> (r: TimeRange)
    ensures
        r@ == t@,
{
    TimeRange { start: t.start, end: t.end }
}

/// Copies a sequence descriptor.
fn clone_sequence(s: &Sequence) -> (r: Sequence)
    ensures
        r@ == s@,
{
    Sequence {
        itag: s.itag,
        format_id: match &s.format_id {
            Some(f) => Some(clone_format_id(f)),
            None => None,
        },
        is_init_segment: s.is_init_segment,
        duration_ms: s.duration_ms,
        start_ms: s.start_ms,
        start_data_range: s.start_data_range,
        sequence_number: s.sequence_number,
        content_length: s.content_length,
        time_range: match &s.time_range {
            Some(t) => Some(clone_time_range(t)),
            None => None,
        },
    }
}

/// Copies a format record.
fn clone_format(f: &InitializedFormat) -> (r: InitializedFormat)
    ensures
        r@ == f@,
{
    let mut seqs: Vec<Sequence> = Vec::new();
    let mut i: usize = 0;
    proof {
        assert(seqs_view(seqs@) =~= seqs_view(f.sequence_list@).take(0));
    }
    while i < f.sequence_list.len()
        invariant
            i <= f.sequence_list@.len(),
            seqs_view(seqs@) == seqs_view(f.sequence_list@).take(i as int),
        decreases f.sequence_list@.len() - i,
    {
        let x = clone_sequence(&f.sequence_list[i]);
        let ghost s0 = seqs@;
        let ghost xv = x@;
        seqs.push(x);
        proof {
            assert(seqs@ == s0.push(x));
            assert(seqs_view(seqs@) =~= seqs_view(s0).push(xv));
            assert(xv == f.sequence_list@[i as int]@);
            assert(seqs_view(f.sequence_list@)[i as int] == f.sequence_list@[i as int]@);
            assert(seqs_view(seqs@) =~= seqs_view(f.sequence_list@).take(i + 1));
        }
        i = i + 1;
    }
    let mut chunks: Vec<Vec<u8>> = Vec::new();
    let mut j: usize = 0;
    proof {
        assert(chunks_view(chunks@) =~= chunks_view(f.media_chunks@).take(0));
    }
    while j < f.media_chunks.len()
        invariant
            j <= f.media_chunks@.len(),
            chunks_view(chunks@) == chunks_view(f.media_chunks@).take(j as int),
        decreases f.media_chunks@.len() - j,
    {
        let y = copy_bytes(&f.media_chunks[j]);
        let ghost c0 = chunks@;
        let ghost yv = y@;
        chunks.push(y);
        proof {
            assert(chunks@ == c0.push(y));
            assert(chunks_view(chunks@) =~= chunks_view(c0).push(yv));
            assert(yv == f.media_chunks@[j as int]@);
            assert(chunks_view(f.media_chunks@)[j as int] == f.media_chunks@[j as int]@);
            assert(chunks_view(chunks@) =~= chunks_view(f.media_chunks@).take(j + 1));
        }
        j = j + 1;
    }
    let r = InitializedFormat {
        format_id: clone_format_id(&f.format_id),
        format_key: f.format_key.clone(),
        duration_ms: f.duration_ms,
        mime_type: match &f.mime_type {
            Some(s) => Some(s.clone()),
            None => None,
        },
        sequence_count: f.sequence_count,
        sequence_list: seqs,
        media_chunks: chunks,
    };
    proof {
        assert(seqs_view(f.sequence_list@).take(f.sequence_list@.len() as int) =~= seqs_view(
            f.sequence_list@,
        ));
        assert(chunks_view(f.media_chunks@).take(f.media_chunks@.len() as int) =~= chunks_view(
            f.media_chunks@,
        ));
    }
    r
}

/// Copies a playback cookie.
pub fn clone_playback_cookie(c: &PlaybackCookie) -> (r: PlaybackCookie)
    ensures
        r@ == c@,
{
    PlaybackCookie {
        field1: c.field1,
        field2: c.field2,
        video_fmt: match &c.video_fmt {
            Some(f) => Some(clone_format_id(f)),
            None => None,
        },
        audio_fmt: match &c.audio_fmt {
            Some(f) => Some(clone_format_id(f)),
            None => None,
        },
    }
}

/// Inserts a format into a vector sorted ascending by key.
fn insert_fmt_exec(f: InitializedFormat, l: &mut Vec<InitializedFormat>)
    ensures
        fmts_view(final(l)@) == insert_fmt(f@, fmts_view(old(l)@)),
{
    let ghost fv = f@;
    let ghost lv = fmts_view(l@);
    let fkey = str_to_chars(f.format_key.as_str());
    let mut j: usize = 0;
    proof {
        assert(lv.take(0) =~= Seq::<InitializedFormatView>::empty());
        assert(lv.skip(0) =~= lv);
        assert(lv.take(0) + insert_fmt(fv, lv.skip(0)) =~= insert_fmt(fv, lv));
    }
    loop
        invariant
            j <= l@.len(),
            lv == fmts_view(l@),
            lv == fmts_view(old(l)@),
            fv == f@,
            fkey@ == f@.format_key,
            insert_fmt(fv, lv) == lv.take(j as int) + insert_fmt(fv, lv.skip(j as int)),
        decreases l@.len() - j,
    {
        proof {
            if j < l@.len() {
                assert(lv.skip(j as int)[0] == lv[j as int]);
                assert(lv.skip(j as int).drop_first() =~= lv.skip(j + 1));
            }
        }
        if j >= l.len() {
            proof {
                assert(insert_fmt(fv, lv.skip(j as int)) == seq![fv]);
            }
            l.push(f);
            proof {
                assert(fmts_view(l@) =~= lv.take(lv.len() as int) + seq![fv]);
                assert(insert_fmt(fv, lv) =~= lv.take(lv.len() as int) + seq![fv]);
            }
            return ;
        }
        let okey = str_to_chars(l[j].format_key.as_str());
        if chars_lt_exec(fkey.as_slice(), okey.as_slice()) {
            proof {
                assert(fmts_view(l@)[j as int] == lv[j as int]);
                assert(insert_fmt(fv, lv.skip(j as int)) == seq![fv] + lv.skip(j as int));
            }
            l.insert(j, f);
            proof {
                assert(fmts_view(l@) =~= lv.take(j as int) + (seq![fv] + lv.skip(j as int)));
            }
            return ;
        }
        proof {
            assert(insert_fmt(fv, lv.skip(j as int)) == seq![lv[j as int]] + insert_fmt(
                fv,
                lv.skip(j + 1),
            ));
            assert(lv.take(j as int) + (seq![lv[j as int]] + insert_fmt(fv, lv.skip(j + 1)))
                =~= lv.take(j + 1) + insert_fmt(fv, lv.skip(j + 1)));
        }
        j = j + 1;
    }
}

/// Builds the format list sorted ascending by canonical key.
fn sort_formats_exec(fs: &Vec<InitializedFormat>) -> (r: Vec<InitializedFormat>)
    ensures
        fmts_view(r@) == sort_formats(fmts_view(fs@)),
{
    let ghost full = fmts_view(fs@);
    let mut acc: Vec<InitializedFormat> = Vec::new();
    let mut i = fs.len();
    proof {
        assert(full.skip(full.len() as int) =~= Seq::<InitializedFormatView>::empty());
        assert(fmts_view(acc@) =~= sort_formats(full.skip(full.len() as int)));
    }
    while i > 0
        invariant
            i <= fs@.len(),
            full == fmts_view(fs@),
            fmts_view(acc@) == sort_formats(full.skip(i as int)),
        decreases i,
    {
        i = i - 1;
        let f = clone_format(&fs[i]);
        proof {
            assert(f@ == full[i as int]);
            assert(full.skip(i as int)[0] == full[i as int]);
            assert(full.skip(i as int).drop_first() =~= full.skip(i + 1));
        }
        insert_fmt_exec(f, &mut acc);
    }
    proof {
        assert(full.skip(0) =~= full);
    }
    acc
}

/// Generic view of an optional viewable value.
pub open spec fn opt_view<T: View>(o: Option<T>) -> Option<T::V> {
    match o {
        Some(x) => Some(x@),
        None => None,
    }
}

/// The SABR response parser.  It may be reused across responses: known
/// formats and the playback cookie persist, per-response lists do not.
pub struct SabrParser {
    header_id_to_format_key: Vec<(u32, Vec<char>)>,
    formats_by_key: Vec<InitializedFormat>,
    initialized_formats: Vec<InitializedFormat>,
    playback_cookie: Option<PlaybackCookie>,
}

impl View for SabrParser {
    type V = SabrParserView;

    closed spec fn view(&self) -> SabrParserView {
        SabrParserView {
            header_map: hmap_view(self.header_id_to_format_key@),
            formats: fmts_view(self.formats_by_key@),
            output: fmts_view(self.initialized_formats@),
            cookie: opt_view(self.playback_cookie),
        }
    }
}

impl SabrParser {
    /// A parser that has seen nothing.
    pub fn new() -> (r: SabrParser)
        ensures
            r@.header_map == Map::<u32, Seq<char>>::empty(),
            r@.formats == Seq::<InitializedFormatView>::empty(),
            r@.output == Seq::<InitializedFormatView>::empty(),
            r@.cookie matches None,
    {
        let r = SabrParser {
            header_id_to_format_key: Vec::new(),
            formats_by_key: Vec::new(),
            initialized_formats: Vec::new(),
            playback_cookie: None,
        };
        proof {
            assert(r@.formats =~= Seq::<InitializedFormatView>::empty());
            assert(r@.output =~= Seq::<InitializedFormatView>::empty());
        }
        r
    }

    /// The playback cookie most recently seen in a `NextRequestPolicy`.
    pub fn get_playback_cookie(&self) -> (r: Option<&PlaybackCookie>)
        ensures
            match r {
                Some(c) => self@.cookie == Some(c@),
                None => self@.cookie matches None,
            },
    {
        self.playback_cookie.as_ref()
    }

    /// Reads the varint at the head of `data`.
    pub fn read_varint(&self, data: &[u8]) -> (r: Result<(u32, usize), UmpError>)
        ensures
            match r {
                Ok((value, size)) => {
                    &&& varint_complete_at(data@, 0)
                    &&& size as int == varint_width(data@[0])
                    &&& value == varint_value(data@)
                },
                Err(UmpError::InvalidData) => data@.len() > 0 && varint_width(data@[0]) == 0,
                Err(UmpError::UnexpectedEof) => data@.len() == 0 || (varint_width(data@[0]) != 0
                    && varint_width(data@[0]) > data@.len()),
            },
    {
        let r = read_variable_integer(data, 0);
        proof {
            assert(data@.skip(0) =~= data@);
        }
        r
    }

    /// Reads one UMP part at `offset`: its type code, its payload, and the
    /// bytes consumed.
    fn parse_ump_part(&self, data: &[u8], offset: usize) -> (r: Result<(u32, Vec<u8>, usize), UmpError>)
        requires
            offset <= data@.len(),
        ensures
            match r {
                Ok((t, payload, consumed)) => {
                    &&& varint_complete_at(data@, offset as int)
                    &&& t == varint_value(data@.skip(offset as int))
                    &&& varint_complete_at(data@, offset + varint_width(data@[offset as int]))
                    &&& ({
                        let w1 = varint_width(data@[offset as int]);
                        let w2 = varint_width(data@[offset + w1]);
                        let l = varint_value(data@.skip(offset + w1)) as int;
                        &&& offset + w1 + w2 + l <= data@.len()
                        &&& payload@ == data@.subrange(offset + w1 + w2, offset + w1 + w2 + l)
                        &&& consumed == w1 + w2 + l
                        &&& consumed >= 1
                    })
                },
                Err(_) => {
                    !varint_complete_at(data@, offset as int) || {
                        let w1 = varint_width(data@[offset as int]);
                        !varint_complete_at(data@, offset + w1) || {
                            let w2 = varint_width(data@[offset + w1]);
                            let l = varint_value(data@.skip(offset + w1)) as int;
                            offset + w1 + w2 + l > data@.len()
                        }
                    }
                },
            },
    {
        let dlen = data.len();
        let (t, w1) = match read_variable_integer(data, offset) {
            Ok(v) => v,
            Err(e) => {
                return Err(e);
            },
        };
        let (l, w2) = match read_variable_integer(data, offset + w1) {
            Ok(v) => v,
            Err(e) => {
                return Err(e);
            },
        };
        let h = w1 + w2;
        if (l as usize) > dlen - (offset + h) {
            return Err(UmpError::UnexpectedEof);
        }
        let payload = copy_byte_range(data, offset + h, offset + h + l as usize);
        Ok((t, payload, h + l as usize))
    }

    /// Applies a `MediaHeader` part.
    #[verifier::rlimit(100)]
    fn process_media_header(&mut self, payload: &[u8]) -> (r: Result<(), UmpError>)
        ensures
            match r {
                Ok(_) => st_media_header(old(self)@, payload@) == Some(final(self)@),
                Err(e) => e == UmpError::InvalidData && st_media_header(old(self)@, payload@)
                    == None::<SabrParserView>,
            },
    {
        let ghost st0 = self@;
        let mh = match decode_media_header(payload) {
            Some(m) => m,
            None => {
                return Err(UmpError::InvalidData);
            },
        };
        let fid = match &mh.format_id {
            Some(f) => f,
            None => {
                return Ok(());
            },
        };
        let key_chars = format_key_chars(fid);
        let ghost key = key_chars@;
        // register the format when new
        let idx: usize = match find_fmt(&self.formats_by_key, key_chars.as_slice()) {
            Some(i) => i,
            None => {
                let new_fmt = InitializedFormat {
                    format_id: clone_format_id(fid),
                    format_key: crate::strutil::chars_to_string(key_chars.as_slice()),
                    duration_ms: mh.duration_ms,
                    mime_type: None,
                    sequence_count: None,
                    sequence_list: Vec::new(),
                    media_chunks: Vec::new(),
                };
                proof {
                    assert(new_fmt@.sequence_list =~= Seq::<SequenceView>::empty());
                    assert(new_fmt@.media_chunks =~= Seq::<Seq<u8>>::empty());
                    assert(new_fmt@ == new_fmt_from_header(mh@, fid@, key));
                    lemma_fmt_idx_push(fmts_view(self.formats_by_key@), new_fmt@, key);
                }
                let i = self.formats_by_key.len();
                self.formats_by_key.push(new_fmt);
                proof {
                    assert(fmts_view(self.formats_by_key@) =~= fmts_view(
                        old(self).formats_by_key@,
                    ).push(new_fmt_from_header(mh@, fid@, key)));
                }
                i
            },
        };
        let ghost fs1 = fmts_view(self.formats_by_key@);
        proof {
            assert(has_fmt(fs1, key));
            assert(idx as int == fmt_idx(fs1, key));
            lemma_fmt_idx_props(fs1, key);
        }
        // remember the header-id mapping
        if let Some(h) = mh.header_id {
            hmap_insert(&mut self.header_id_to_format_key, h, copy_chars(key_chars.as_slice()));
        }
        // append the sequence descriptor
        let sequence = Sequence {
            itag: mh.itag,
            format_id: Some(clone_format_id(fid)),
            is_init_segment: mh.is_init_seg,
            duration_ms: mh.duration_ms,
            start_ms: mh.start_ms,
            start_data_range: mh.start_range,
            sequence_number: mh.sequence_number,
            content_length: mh.content_length,
            time_range: match &mh.time_range {
                Some(t) => Some(clone_time_range(t)),
                None => None,
            },
        };
        proof {
            assert(sequence@ == seq_from_header(mh@));
        }
        let ghost before = fmts_view(self.formats_by_key@);
        let ghost vec_before = self.formats_by_key@;
        let ghost sv = sequence@;
        let f = &mut self.formats_by_key[idx];
        f.sequence_list.push(sequence);
        proof {
            let vec_after = self.formats_by_key@;
            assert(vec_after[idx as int]@.sequence_list == vec_before[idx as int]@.sequence_list
                .push(sv)) by {
                assert(vec_after[idx as int].sequence_list@ == vec_before[idx as int]
                    .sequence_list@.push(sequence));
                assert(seqs_view(vec_after[idx as int].sequence_list@) =~= seqs_view(
                    vec_before[idx as int].sequence_list@,
                ).push(sv));
            }
            assert(vec_after[idx as int]@ == InitializedFormatView {
                sequence_list: before[idx as int].sequence_list.push(seq_from_header(mh@)),
                ..before[idx as int]
            });
            assert(forall|k: int|
                0 <= k < vec_after.len() && k != idx ==> vec_after[k] == vec_before[k]);
            assert(fmts_view(vec_after) =~= before.update(
                idx as int,
                InitializedFormatView {
                    sequence_list: before[idx as int].sequence_list.push(seq_from_header(mh@)),
                    ..before[idx as int]
                },
            ));
            assert(st_media_header(st0, payload@) == Some(self@));
        }
        Ok(())
    }

    /// Applies a media part.
    fn process_media_data(&mut self, payload: &[u8])
        ensures
            final(self)@ == st_media(old(self)@, payload@),
    {
        let ghost st0 = self@;
        if payload.len() == 0 {
            return ;
        }
        let id = payload[0] as u32;
        let key = match hmap_lookup(&self.header_id_to_format_key, id) {
            Some(k) => k,
            None => {
                return ;
            },
        };
        let idx = match find_fmt(&self.formats_by_key, key.as_slice()) {
            Some(i) => i,
            None => {
                return ;
            },
        };
        let chunk = copy_byte_range(payload, 1, payload.len());
        proof {
            assert(chunk@ =~= payload@.skip(1));
        }
        let ghost before = fmts_view(self.formats_by_key@);
        let ghost vec_before = self.formats_by_key@;
        let ghost cv = chunk@;
        let f = &mut self.formats_by_key[idx];
        f.media_chunks.push(chunk);
        proof {
            let vec_after = self.formats_by_key@;
            assert(vec_after[idx as int]@.media_chunks == vec_before[idx as int]@.media_chunks
                .push(cv)) by {
                assert(vec_after[idx as int].media_chunks@ == vec_before[idx as int]
                    .media_chunks@.push(chunk));
                assert(chunks_view(vec_after[idx as int].media_chunks@) =~= chunks_view(
                    vec_before[idx as int].media_chunks@,
                ).push(cv));
            }
            assert(vec_after[idx as int]@ == InitializedFormatView {
                media_chunks: before[idx as int].media_chunks.push(payload@.skip(1)),
                ..before[idx as int]
            });
            assert(forall|k: int|
                0 <= k < vec_after.len() && k != idx ==> vec_after[k] == vec_before[k]);
            assert(fmts_view(vec_after) =~= before.update(
                idx as int,
                InitializedFormatView {
                    media_chunks: before[idx as int].media_chunks.push(payload@.skip(1)),
                    ..before[idx as int]
                },
            ));
            assert(self@ == st_media(st0, payload@));
        }
    }

    /// Applies a media-end part.
    fn process_media_end(&mut self, payload: &[u8])
        ensures
            final(self)@ == st_media_end(old(self)@, payload@),
    {
        if payload.len() == 0 {
            return ;
        }
        let id = payload[0] as u32;
        hmap_remove(&mut self.header_id_to_format_key, id);
    }

    /// Applies a `FormatInitializationMetadata` part.
    fn process_format_initialization(&mut self, payload: &[u8]) -> (r: Result<(), UmpError>)
        ensures
            match r {
                Ok(_) => st_format_init(old(self)@, payload@) == Some(final(self)@),
                Err(e) => e == UmpError::InvalidData && st_format_init(old(self)@, payload@)
                    == None::<SabrParserView>,
            },
    {
        let fim = match decode_format_initialization_metadata(payload) {
            Some(m) => m,
            None => {
                return Err(UmpError::InvalidData);
            },
        };
        let fid = match &fim.format_id {
            Some(f) => f,
            None => {
                return Ok(());
            },
        };
        let key_chars = format_key_chars(fid);
        match find_fmt(&self.formats_by_key, key_chars.as_slice()) {
            Some(_) => Ok(()),
            None => {
                let new_fmt = InitializedFormat {
                    format_id: clone_format_id(fid),
                    format_key: crate::strutil::chars_to_string(key_chars.as_slice()),
                    duration_ms: fim.duration_ms,
                    mime_type: match &fim.mime_type {
                        Some(s) => Some(s.clone()),
                        None => None,
                    },
                    sequence_count: fim.end_segment_number,
                    sequence_list: Vec::new(),
                    media_chunks: Vec::new(),
                };
                proof {
                    assert(new_fmt@.sequence_list =~= Seq::<SequenceView>::empty());
                    assert(new_fmt@.media_chunks =~= Seq::<Seq<u8>>::empty());
                    assert(new_fmt@ == new_fmt_from_init(fim@, fid@, key_chars@));
                }
                self.formats_by_key.push(new_fmt);
                proof {
                    assert(fmts_view(self.formats_by_key@) =~= fmts_view(
                        old(self).formats_by_key@,
                    ).push(new_fmt_from_init(fim@, fid@, key_chars@)));
                }
                Ok(())
            },
        }
    }

    /// Parses one response.  The header-id map and every known format's
    /// per-response lists are cleared first; the UMP parts of `data` are
    /// then applied in order, exactly as [`sabr_run`] prescribes; finally
    /// the format list is rebuilt, sorted ascending by canonical key.  A
    /// truncated frame ends the parse gracefully; a malformed recognised
    /// part fails it.
    #[verifier::rlimit(100)]
    pub fn parse_response(&mut self, data: &[u8]) -> (r: Result<SabrResponse, UmpError>)
        ensures
            ({
                let start = cleared_state(old(self)@);
                match sabr_run(start, empty_acc(), data@, 0) {
                    Some((st, acc)) => {
                        &&& r matches Ok(resp) && resp@ == response_view(st, acc)
                        &&& final(self)@ == SabrParserView {
                            output: sort_formats(st.formats),
                            ..st
                        }
                    },
                    None => r matches Err(e) && e == UmpError::InvalidData,
                }
            }),
    {
        let ghost old_view = self@;
        // clear the header-id map and the per-response lists
        self.header_id_to_format_key = Vec::new();
        let ghost fs_orig = fmts_view(self.formats_by_key@);
        let ghost out0 = self.initialized_formats@;
        let ghost pc0 = self.playback_cookie;
        let n = self.formats_by_key.len();
        let mut ci: usize = 0;
        proof {
            assert(fmts_view(self.formats_by_key@) =~= cleared_state(old_view).formats.take(0)
                + fs_orig.skip(0));
        }
        while ci < n
            invariant
                ci <= n,
                n == self.formats_by_key@.len(),
                fs_orig.len() == n,
                fs_orig == old_view.formats,
                cleared_state(old_view).formats.len() == n,
                self.header_id_to_format_key@.len() == 0,
                self.initialized_formats@ == out0,
                self.playback_cookie == pc0,
                fmts_view(out0) == old_view.output,
                opt_view(pc0) == old_view.cookie,
                fmts_view(self.formats_by_key@) == cleared_state(old_view).formats.take(
                    ci as int,
                ) + fs_orig.skip(ci as int),
            decreases n - ci,
        {
            let ghost before = fmts_view(self.formats_by_key@);
            let ghost vec_before = self.formats_by_key@;
            let f = &mut self.formats_by_key[ci];
            f.sequence_list = Vec::new();
            f.media_chunks = Vec::new();
            proof {
                let vec_after = self.formats_by_key@;
                assert(before[ci as int] == fs_orig[ci as int]);
                assert(seqs_view(vec_after[ci as int].sequence_list@) =~= Seq::<
                    SequenceView,
                >::empty());
                assert(chunks_view(vec_after[ci as int].media_chunks@) =~= Seq::<
                    Seq<u8>,
                >::empty());
                assert(vec_after[ci as int]@ == InitializedFormatView {
                    sequence_list: Seq::empty(),
                    media_chunks: Seq::empty(),
                    ..before[ci as int]
                });
                assert(forall|k: int|
                    0 <= k < vec_after.len() && k != ci ==> vec_after[k] == vec_before[k]);
                assert(cleared_state(old_view).formats[ci as int] == cleared_fmt(
                    old_view.formats[ci as int],
                ));
                assert(cleared_fmt(fs_orig[ci as int]) == InitializedFormatView {
                    sequence_list: Seq::empty(),
                    media_chunks: Seq::empty(),
                    ..fs_orig[ci as int]
                });
                let lhs = fmts_view(vec_after);
                let rhs = cleared_state(old_view).formats.take(ci + 1) + fs_orig.skip(ci + 1);
                let mid = cleared_state(old_view).formats.take(ci as int) + fs_orig.skip(
                    ci as int,
                );
                assert(lhs.len() == rhs.len());
                assert forall|k: int| 0 <= k < lhs.len() implies lhs[k] == rhs[k] by {
                    assert(lhs[k] == vec_after[k]@);
                    if k < ci {
                        assert(vec_after[k] == vec_before[k]);
                        assert(fmts_view(vec_before)[k] == vec_before[k]@);
                        assert(mid[k] == cleared_state(old_view).formats[k]);
                        assert(rhs[k] == cleared_state(old_view).formats[k]);
                    } else if k == ci {
                        assert(rhs[k] == cleared_state(old_view).formats[ci as int]);
                    } else {
                        assert(vec_after[k] == vec_before[k]);
                        assert(fmts_view(vec_before)[k] == vec_before[k]@);
                        assert(mid[k] == fs_orig[k]);
                        assert(rhs[k] == fs_orig[k]);
                    }
                }
                assert(lhs =~= rhs);
            }
            ci = ci + 1;
        }
        proof {
            assert(cleared_state(old_view).formats.take(n as int) + fs_orig.skip(n as int)
                =~= cleared_state(old_view).formats);
            assert(hmap_view(self.header_id_to_format_key@) =~= Map::<u32, Seq<char>>::empty());
            assert(self@ == cleared_state(old_view));
        }
        let ghost start = cleared_state(old_view);

        let mut sabr_error: Option<SabrError> = None;
        let mut sabr_redirect: Option<SabrRedirect> = None;
        let mut stream_protection_status: Option<StreamProtectionStatus> = None;
        let mut next_request_policy: Option<NextRequestPolicy> = None;

        let mut offset: usize = 0;
        let dlen = data.len();
        loop
            invariant
                offset <= dlen,
                dlen == data@.len(),
                start == cleared_state(old(self)@),
                sabr_run(
                    self@,
                    SabrAccView {
                        stream_protection_status: opt_view(stream_protection_status),
                        sabr_redirect: opt_view(sabr_redirect),
                        sabr_error: opt_view(sabr_error),
                        next_request_policy: opt_view(next_request_policy),
                    },
                    data@,
                    offset as int,
                ) == sabr_run(start, empty_acc(), data@, 0),
            ensures
                start == cleared_state(old(self)@),
                sabr_run(start, empty_acc(), data@, 0) == Some(
                    (
                        self@,
                        SabrAccView {
                            stream_protection_status: opt_view(stream_protection_status),
                            sabr_redirect: opt_view(sabr_redirect),
                            sabr_error: opt_view(sabr_error),
                            next_request_policy: opt_view(next_request_policy),
                        },
                    ),
                ),
            decreases dlen - offset,
        {
            let ghost cur_acc = SabrAccView {
                stream_protection_status: opt_view(stream_protection_status),
                sabr_redirect: opt_view(sabr_redirect),
                sabr_error: opt_view(sabr_error),
                next_request_policy: opt_view(next_request_policy),
            };
            let ghost cur_st = self@;
            if offset >= dlen {
                proof {
                    lemma_sabr_run_stuck(cur_st, cur_acc, data@, offset as int);
                }
                break ;
            }
            let (t, payload, consumed) = match self.parse_ump_part(data, offset) {
                Ok(v) => v,
                Err(_) => {
                    proof {
                        lemma_sabr_run_stuck(cur_st, cur_acc, data@, offset as int);
                    }
                    break ;
                },
            };
            let ghost w1 = varint_width(data@[offset as int]);
            let ghost w2 = varint_width(data@[offset + w1]);
            let ghost pv = data@.subrange(offset + w1 + w2, offset + consumed);
            proof {
                assert(frame_ready(data@, offset as int));
                assert(payload@ == pv);
                lemma_sabr_run_unfold(cur_st, cur_acc, data@, offset as int);
            }
            if t == 20 {
                match self.process_media_header(payload.as_slice()) {
                    Ok(_) => {},
                    Err(e) => {
                        proof {
                            assert(sabr_step(cur_st, cur_acc, t as nat, pv)
                                == None::<(SabrParserView, SabrAccView)>);
                        }
                        return Err(e);
                    },
                }
            } else if t == 21 {
                self.process_media_data(payload.as_slice());
            } else if t == 22 {
                self.process_media_end(payload.as_slice());
            } else if t == 35 {
                match decode_next_request_policy(payload.as_slice()) {
                    Some(p) => {
                        if let Some(c) = &p.playback_cookie {
                            self.playback_cookie = Some(clone_playback_cookie(c));
                        }
                        next_request_policy = Some(p);
                    },
                    None => {
                        proof {
                            assert(sabr_step(cur_st, cur_acc, t as nat, pv)
                                == None::<(SabrParserView, SabrAccView)>);
                        }
                        return Err(UmpError::InvalidData);
                    },
                }
            } else if t == 42 {
                match self.process_format_initialization(payload.as_slice()) {
                    Ok(_) => {},
                    Err(e) => {
                        proof {
                            assert(sabr_step(cur_st, cur_acc, t as nat, pv)
                                == None::<(SabrParserView, SabrAccView)>);
                        }
                        return Err(e);
                    },
                }
            } else if t == 43 {
                match decode_sabr_redirect(payload.as_slice()) {
                    Some(m) => {
                        sabr_redirect = Some(m);
                    },
                    None => {
                        proof {
                            assert(sabr_step(cur_st, cur_acc, t as nat, pv)
                                == None::<(SabrParserView, SabrAccView)>);
                        }
                        return Err(UmpError::InvalidData);
                    },
                }
            } else if t == 44 {
                match decode_sabr_error(payload.as_slice()) {
                    Some(m) => {
                        sabr_error = Some(m);
                    },
                    None => {
                        proof {
                            assert(sabr_step(cur_st, cur_acc, t as nat, pv)
                                == None::<(SabrParserView, SabrAccView)>);
                        }
                        return Err(UmpError::InvalidData);
                    },
                }
            } else if t == 58 {
                match decode_stream_protection_status(payload.as_slice()) {
                    Some(m) => {
                        stream_protection_status = Some(m);
                    },
                    None => {
                        proof {
                            assert(sabr_step(cur_st, cur_acc, t as nat, pv)
                                == None::<(SabrParserView, SabrAccView)>);
                        }
                        return Err(UmpError::InvalidData);
                    },
                }
            }
            proof {
                let new_acc = SabrAccView {
                    stream_protection_status: opt_view(stream_protection_status),
                    sabr_redirect: opt_view(sabr_redirect),
                    sabr_error: opt_view(sabr_error),
                    next_request_policy: opt_view(next_request_policy),
                };
                assert(sabr_step(cur_st, cur_acc, t as nat, pv) == Some((self@, new_acc)));
            }
            offset = offset + consumed;
        }
        // rebuild the output list, sorted ascending by canonical key
        let ghost st_end = self@;
        let ghost acc_end = SabrAccView {
            stream_protection_status: opt_view(stream_protection_status),
            sabr_redirect: opt_view(sabr_redirect),
            sabr_error: opt_view(sabr_error),
            next_request_policy: opt_view(next_request_policy),
        };
        let sorted_out = sort_formats_exec(&self.formats_by_key);
        let sorted_resp = sort_formats_exec(&self.formats_by_key);
        self.initialized_formats = sorted_out;
        let resp = SabrResponse {
            initialized_formats: sorted_resp,
            stream_protection_status,
            sabr_redirect,
            sabr_error,
            next_request_policy,
        };
        proof {
            assert(self@ == SabrParserView { output: sort_formats(st_end.formats), ..st_end });
            assert(resp@ == response_view(st_end, acc_end));
        }
        Ok(resp)
    }
}

impl Default for SabrParser {
    /// A parser that has seen nothing.
    fn default() -> (r: SabrParser)
        ensures
            r@.header_map == Map::<u32, Seq<char>>::empty(),
            r@.formats == Seq::<InitializedFormatView>::empty(),
            r@.output == Seq::<InitializedFormatView>::empty(),
            r@.cookie matches None,
    {
        SabrParser::new()
    }
}

} // verus!
