//! End-to-end tests of the proxy core: varint codec, UMP transform, SABR
//! parsing and building, MAC, header policy, URL rewriting, and dispatch.

use ump_proxy::dispatch::{plan_request, ump_length, RequestDecision};
use ump_proxy::headers::{cors_headers, filter_headers, is_header_allowed};
use ump_proxy::qhash::{canonicalize_pairs, compute_qhash, verify_qhash};
use ump_proxy::sabr_messages::decode_media_header;
use ump_proxy::sabr_parser::{PartType, SabrParser};
use ump_proxy::sabr_messages::FormatId;
use ump_proxy::sabr_request::{
    create_buffered_range, create_format_id, encode_format_id, SabrRequestBuilder,
    DEFAULT_QUALITY,
};
use ump_proxy::strutil::{chars_to_string, str_to_chars};
use ump_proxy::transcode::{plan_transcode, select_webp, TranscodePlan};
use ump_proxy::ump::UmpTransformStream;
use ump_proxy::utils::{escape_xml, localize_url, rewrite_dash, rewrite_hls};
use ump_proxy::varint::{read_variable_integer, write_variable_integer};

fn chars(s: &str) -> Vec<char> {
    str_to_chars(s)
}

#[test]
fn test_part_type_conversion() {
    assert_eq!(PartType::from(20), PartType::MediaHeader);
    assert_eq!(PartType::from(21), PartType::Media);
    assert_eq!(PartType::from(35), PartType::NextRequestPolicy);
    assert_eq!(PartType::from(43), PartType::SabrRedirect);
    assert_eq!(PartType::from(44), PartType::SabrError);
}

#[test]
fn test_varint_parsing() {
    let parser = SabrParser::new();

    let data = [0x08];
    let (value, consumed) = parser.read_varint(&data).unwrap();
    assert_eq!(value, 8);
    assert_eq!(consumed, 1);

    let data = [0x96, 0x01];
    let (value, consumed) = parser.read_varint(&data).unwrap();
    assert_eq!(value, 86);
    assert_eq!(consumed, 2);

    let data = [0x96, 0x02];
    let (value, consumed) = parser.read_varint(&data).unwrap();
    assert_eq!(value, 150);
    assert_eq!(consumed, 2);
}

#[test]
fn test_varint_round_trip() {
    let samples: Vec<u32> = vec![0, 1, 127, 128, 16383, 16384, 2097151, 2097152, 268435455,
        268435456, 4294967295];
    for v in samples {
        let enc = write_variable_integer(v);
        let (back, width) = read_variable_integer(enc.as_slice(), 0).unwrap();
        assert_eq!(back, v);
        assert_eq!(width, enc.len());
    }
}

fn frame(ftype: u32, payload: &[u8]) -> Vec<u8> {
    let mut out = write_variable_integer(ftype);
    let len = write_variable_integer(payload.len() as u32);
    out.extend_from_slice(len.as_slice());
    out.extend_from_slice(payload);
    out
}

#[test]
fn test_ump_transform_projection() {
    // frame(type=20) + frame(21, [5] + B) + frame(21, [5] + C)  =>  B || C
    let b: Vec<u8> = vec![10, 20, 30];
    let c: Vec<u8> = vec![40, 50];
    let mut stream = frame(20, &[9, 9, 9, 9]);
    let mut p1 = vec![5u8];
    p1.extend_from_slice(&b);
    stream.extend_from_slice(&frame(21, &p1));
    let mut p2 = vec![5u8];
    p2.extend_from_slice(&c);
    stream.extend_from_slice(&frame(21, &p2));

    let mut t = UmpTransformStream::new();
    let (out, err) = t.push_chunk(&stream);
    assert!(!err);
    let mut expect = b.clone();
    expect.extend_from_slice(&c);
    assert_eq!(out, expect);
}

#[test]
fn test_ump_transform_chunking_independent() {
    let b: Vec<u8> = (0..60).collect();
    let mut p = vec![7u8];
    p.extend_from_slice(&b);
    let mut stream = frame(33, &[1, 2, 3]);
    stream.extend_from_slice(&frame(21, &p));
    stream.extend_from_slice(&frame(22, &[7]));

    // whole stream at once
    let mut t1 = UmpTransformStream::new();
    let (o1, e1) = t1.push_chunk(&stream);
    assert!(!e1);

    // one byte at a time
    let mut t2 = UmpTransformStream::new();
    let mut o2: Vec<u8> = Vec::new();
    for byte in &stream {
        let (part, err) = t2.push_chunk(&[*byte]);
        assert!(!err);
        o2.extend_from_slice(&part);
    }
    assert_eq!(o1, b);
    assert_eq!(o2, b);
}

#[test]
fn test_ump_invalid_varint_errors() {
    let mut t = UmpTransformStream::new();
    let (out, err) = t.push_chunk(&[0xFF, 0x00, 0x00]);
    assert!(err);
    assert!(out.is_empty());
}

#[test]
fn test_format_id_creation() {
    let format_id = create_format_id(251, 1747754876286051, Some("test".to_string()));

    assert_eq!(format_id.itag, Some(251));
    assert_eq!(format_id.last_modified, Some(1747754876286051));
    assert_eq!(format_id.xtags, Some("test".to_string()));
}

#[test]
fn test_sabr_request_builder() {
    let audio_format = create_format_id(251, 1747754876286051, None);
    let video_format = create_format_id(136, 1747754870573293, None);

    let buffered_range = create_buffered_range(audio_format.clone(), 0, 5000, 1, 5);

    let request = SabrRequestBuilder::new()
        .with_player_time_ms(1000)
        .with_resolution(720)
        .with_viewport_size(1280, 720)
        .with_bandwidth_estimate(1000000)
        .with_audio_formats(vec![audio_format])
        .with_video_formats(vec![video_format])
        .with_buffered_ranges(vec![buffered_range])
        .with_enabled_track_types(0)
        .with_visibility(0)
        .build();

    assert!(request.client_abr_state.is_some());
    assert!(request.streamer_context.is_some());
    assert_eq!(request.selected_audio_format_ids.len(), 1);
    assert_eq!(request.selected_video_format_ids.len(), 1);
    assert_eq!(request.buffered_ranges.len(), 1);

    let encoded = SabrRequestBuilder::new().with_player_time_ms(1000).encode();

    assert!(!encoded.is_empty());
}

#[test]
fn test_default_values() {
    let builder = SabrRequestBuilder::new();
    assert_eq!(
        builder.client_abr_state.last_manual_selected_resolution,
        Some(DEFAULT_QUALITY)
    );
    assert_eq!(builder.client_abr_state.sticky_resolution, Some(DEFAULT_QUALITY));
    assert_eq!(builder.client_abr_state.player_time_ms, Some(0));
    assert_eq!(builder.client_abr_state.visibility, Some(0));
    assert_eq!(builder.client_abr_state.enabled_track_types_bitfield, Some(0));

    let client_info = builder.streamer_context.client_info.unwrap();
    assert_eq!(client_info.client_name, Some(1));
    assert_eq!(client_info.client_version, Some("2.2040620.05.00".to_string()));
    assert_eq!(client_info.os_name, Some("Windows".to_string()));
}

#[test]
fn test_format_id_wire_encoding() {
    let fid = FormatId { itag: Some(5), last_modified: Some(7), xtags: None };
    let mut out: Vec<u8> = Vec::new();
    encode_format_id(&fid, &mut out);
    assert_eq!(out, vec![0x08, 5, 0x10, 7]);
}

#[test]
fn test_media_header_decoding() {
    // header_id = 1, format_id = { itag = 5, last_modified = 7 }
    let payload = [0x08u8, 1, 0x6A, 4, 0x08, 5, 0x10, 7];
    let mh = decode_media_header(&payload).unwrap();
    assert_eq!(mh.header_id, Some(1));
    let fid = mh.format_id.unwrap();
    assert_eq!(fid.itag, Some(5));
    assert_eq!(fid.last_modified, Some(7));
}

#[test]
fn test_sabr_parse_small_stream() {
    // a MediaHeader registering format 5;7;, one media chunk, a media end
    let mh_payload = [0x08u8, 1, 0x6A, 4, 0x08, 5, 0x10, 7];
    let mut stream = frame(20, &mh_payload);
    stream.extend_from_slice(&frame(21, &[1, 0xAA, 0xBB]));
    stream.extend_from_slice(&frame(22, &[1]));
    // an unknown part type must be tolerated
    stream.extend_from_slice(&frame(57, &[1, 2, 3]));

    let mut parser = SabrParser::new();
    let resp = parser.parse_response(&stream).unwrap();
    assert_eq!(resp.initialized_formats.len(), 1);
    let f = &resp.initialized_formats[0];
    assert_eq!(f.format_key, "5;7;".to_string());
    assert_eq!(f.sequence_list.len(), 1);
    assert_eq!(f.media_chunks.len(), 1);
    assert_eq!(f.media_chunks[0], vec![0xAA, 0xBB]);
}

#[test]
fn test_sabr_parse_twice_same_result() {
    let mh_payload = [0x08u8, 1, 0x6A, 4, 0x08, 5, 0x10, 7];
    let mut stream = frame(20, &mh_payload);
    stream.extend_from_slice(&frame(21, &[1, 0xAA, 0xBB]));

    let mut parser = SabrParser::new();
    let r1 = parser.parse_response(&stream).unwrap();
    let r2 = parser.parse_response(&stream).unwrap();
    assert_eq!(r1.initialized_formats.len(), r2.initialized_formats.len());
    assert_eq!(
        r1.initialized_formats[0].media_chunks,
        r2.initialized_formats[0].media_chunks
    );
    assert_eq!(
        r1.initialized_formats[0].sequence_list.len(),
        r2.initialized_formats[0].sequence_list.len()
    );
}

#[test]
fn test_qhash_reorder_and_excluded() {
    let secret = chars("SECRET-REDACTED");
    let path = chars("/videoplayback");
    let q1 = vec![(chars("a"), chars("1")), (chars("b"), chars("2"))];
    let q2 = vec![(chars("b"), chars("2")), (chars("a"), chars("1"))];
    let h1 = compute_qhash(&q1, path.as_slice(), secret.as_slice());
    let h2 = compute_qhash(&q2, path.as_slice(), secret.as_slice());
    assert_eq!(h1, h2);
    assert_eq!(h1.len(), 8);

    // the excluded keys change nothing
    let q3 = vec![
        (chars("a"), chars("1")),
        (chars("b"), chars("2")),
        (chars("rewrite"), chars("false")),
        (chars("range"), chars("0-99")),
        (chars("qhash"), chars("deadbeef")),
    ];
    let h3 = compute_qhash(&q3, path.as_slice(), secret.as_slice());
    assert_eq!(h1, h3);

    // the MAC is hex output of the digest, not an echo of the input
    for c in &h1 {
        assert!(c.is_ascii_hexdigit());
    }

    assert!(verify_qhash(&q1, path.as_slice(), h1.as_slice(), secret.as_slice()));
    assert!(!verify_qhash(&q1, path.as_slice(), chars("00000000").as_slice(), secret.as_slice()));
}

#[test]
fn test_qhash_path_truncation() {
    let secret = chars("SECRET-REDACTED");
    let q = vec![(chars("k"), chars("v"))];
    let full = chars("/videoplayback/range/100-200/rest");
    let cut = chars("/videoplayback/");
    let h1 = compute_qhash(&q, full.as_slice(), secret.as_slice());
    let h2 = compute_qhash(&q, cut.as_slice(), secret.as_slice());
    assert_eq!(h1, h2);
}

#[test]
fn test_header_policy() {
    assert!(!is_header_allowed("host"));
    assert!(!is_header_allowed("content-length"));
    assert!(!is_header_allowed("set-cookie"));
    assert!(!is_header_allowed("user-agent"));
    assert!(!is_header_allowed("range"));
    assert!(!is_header_allowed("access-control-allow-origin"));
    assert!(!is_header_allowed("x-title"));
    assert!(is_header_allowed("accept"));
    assert!(is_header_allowed("content-type"));

    let hs = vec![
        (chars("accept"), chars("*/*")),
        (chars("host"), chars("example.org")),
        (chars("x-real-ip"), chars("127.0.0.1")),
        (chars("content-type"), chars("text/plain")),
    ];
    let kept = filter_headers(&hs);
    assert_eq!(kept.len(), 2);
    assert_eq!(chars_to_string(kept[0].0.as_slice()), "accept");
    assert_eq!(chars_to_string(kept[1].0.as_slice()), "content-type");

    let cors = cors_headers();
    assert_eq!(cors.len(), 4);
    assert_eq!(chars_to_string(cors[0].0.as_slice()), "Access-Control-Allow-Origin");
    assert_eq!(chars_to_string(cors[3].1.as_slice()), "1728000");
}

#[test]
fn test_escape_xml() {
    assert_eq!(escape_xml("a<b>&'\"c"), "a&lt;b&gt;&amp;&apos;&quot;c".to_string());
    assert_eq!(escape_xml("plain"), "plain".to_string());
}

#[test]
fn test_localize_url() {
    let r = localize_url("https://r3---sn-x.googlevideo.com/seg.ts", "ignored.example", None);
    assert_eq!(r, "/seg.ts?host=r3---sn-x.googlevideo.com".to_string());

    let r2 = localize_url("chunk.m3u8", "origin.example", None);
    assert_eq!(r2, "chunk.m3u8?host=origin.example".to_string());

    let r3 = localize_url("#EXTM3U", "origin.example", None);
    assert_eq!(r3, "#EXTM3U".to_string());

    // query pairs survive, sorted by key, host merged in
    let r4 = localize_url("https://a.example/p?z=1&b=2", "x", None);
    assert_eq!(r4, "/p?b=2&host=a.example&z=1".to_string());
}

#[test]
fn test_rewrite_hls() {
    let body = "#EXTM3U\n#EXT-X-MEDIA:TYPE=AUDIO,URI=\"https://r3---sn-x.googlevideo.com/seg.ts\"\nplain";
    let out = rewrite_hls(body, "h.example", None);
    assert_eq!(
        out,
        "#EXTM3U\n#EXT-X-MEDIA:TYPE=AUDIO,URI=\"/seg.ts?host=r3---sn-x.googlevideo.com\"\nplain"
            .to_string()
    );
}

#[test]
fn test_plan_request_options() {
    let hs: Vec<(Vec<char>, Vec<char>)> = Vec::new();
    let d = plan_request("OPTIONS", chars("/x").as_slice(), chars("").as_slice(), None, &hs, None, 0);
    assert!(matches!(d, RequestDecision::CorsPreflight));
    let d2 = plan_request("POST", chars("/x").as_slice(), chars("").as_slice(), None, &hs, None, 0);
    assert!(matches!(d2, RequestDecision::MethodNotAllowed));
}

#[test]
fn test_plan_request_bad_domain() {
    let hs: Vec<(Vec<char>, Vec<char>)> = Vec::new();
    let d = plan_request(
        "GET",
        chars("/x").as_slice(),
        chars("host=evil.example.org").as_slice(),
        None,
        &hs,
        None,
        0,
    );
    assert!(matches!(d, RequestDecision::Reject(_)));
}

#[test]
fn test_plan_request_expired() {
    let hs: Vec<(Vec<char>, Vec<char>)> = Vec::new();
    let d = plan_request(
        "GET",
        chars("/videoplayback").as_slice(),
        chars("host=v.googlevideo.com&expire=1").as_slice(),
        None,
        &hs,
        None,
        1700000000,
    );
    assert!(matches!(d, RequestDecision::Reject(_)));
}

#[test]
fn test_plan_request_forward() {
    let hs = vec![(chars("accept"), chars("*/*")), (chars("host"), chars("proxy.example"))];
    let d = plan_request(
        "GET",
        chars("/videoplayback").as_slice(),
        chars("host=v.googlevideo.com&c=ANDROID&ump=1&clen=100").as_slice(),
        None,
        &hs,
        None,
        0,
    );
    match d {
        RequestDecision::Forward(p) => {
            assert!(p.android_user_agent);
            assert!(!p.use_post);
            assert!(p.is_ump);
            assert!(p.rewrite);
            assert_eq!(p.clen, Some(100));
            assert_eq!(p.headers.len(), 1);
            assert_eq!(
                p.url,
                "https://v.googlevideo.com/videoplayback?c=ANDROID&ump=1&clen=100&range=0-99"
                    .to_string()
            );
            assert_eq!(chars_to_string(p.range.unwrap().as_slice()), "0-99");
        },
        _ => panic!("expected a forward plan"),
    }
}

#[test]
fn test_plan_request_qhash_gate() {
    let hs: Vec<(Vec<char>, Vec<char>)> = Vec::new();
    let secret = chars("SECRET-REDACTED");
    // missing qhash is rejected
    let d = plan_request(
        "GET",
        chars("/x").as_slice(),
        chars("host=i.ytimg.com").as_slice(),
        None,
        &hs,
        Some(secret.as_slice()),
        0,
    );
    assert!(matches!(d, RequestDecision::Reject(_)));
    // the right qhash passes
    let pairs = vec![(chars("host"), chars("i.ytimg.com"))];
    let qh = compute_qhash(&pairs, chars("/x").as_slice(), secret.as_slice());
    let qs = format!("host=i.ytimg.com&qhash={}", chars_to_string(qh.as_slice()));
    let d2 = plan_request(
        "GET",
        chars("/x").as_slice(),
        chars(&qs).as_slice(),
        None,
        &hs,
        Some(secret.as_slice()),
        0,
    );
    assert!(matches!(d2, RequestDecision::Forward(_)));
}

#[test]
fn test_ump_length() {
    assert_eq!(ump_length(None, 100), Some(100));
    assert_eq!(ump_length(Some(chars("10-19").as_slice()), 100), Some(10));
    assert_eq!(ump_length(Some(chars("10-x").as_slice()), 100), Some(90));
}

#[test]
fn test_transcode_selection() {
    assert_eq!(plan_transcode("image/jpeg", true, false, false), TranscodePlan::ToWebp);
    assert_eq!(plan_transcode("image/webp", true, true, false), TranscodePlan::ToAvif);
    assert_eq!(plan_transcode("image/jpeg", true, true, true), TranscodePlan::ToAvif);
    assert_eq!(plan_transcode("image/png", true, true, true), TranscodePlan::Keep);
    assert_eq!(plan_transcode("image/jpeg", false, true, true), TranscodePlan::Keep);

    // webp output is kept only when strictly smaller
    let (body, kept) = select_webp(vec![1, 2, 3, 4], Some(vec![9, 9]));
    assert!(kept);
    assert_eq!(body, vec![9, 9]);
    let (body2, kept2) = select_webp(vec![1, 2], Some(vec![9, 9, 9]));
    assert!(!kept2);
    assert_eq!(body2, vec![1, 2]);
    let (body3, kept3) = select_webp(vec![1, 2], None);
    assert!(!kept3);
    assert_eq!(body3, vec![1, 2]);
}

#[test]
fn test_canonical_pairs_sorted() {
    let ps = vec![
        (chars("b"), chars("2")),
        (chars("a"), chars("1")),
        (chars("qhash"), chars("x")),
        (chars("a"), chars("1")),
    ];
    let canon = canonicalize_pairs(&ps);
    assert_eq!(canon.len(), 2);
    assert_eq!(chars_to_string(canon[0].0.as_slice()), "a");
    assert_eq!(chars_to_string(canon[1].0.as_slice()), "b");
}

#[test]
fn test_rewrite_dash() {
    let body = "<MPD><BaseURL>https://a.example/seg?x=1&amp;y=2</BaseURL></MPD>";
    let out = rewrite_dash(body, "h.example", None);
    // the rewritten URL is XML-escaped in place
    assert_eq!(
        out,
        "<MPD><BaseURL>/seg?amp;y=2&amp;host=a.example&amp;x=1</BaseURL></MPD>".to_string()
    );
}

#[test]
fn test_client_info_from_query() {
    let pairs = ump_proxy::utils::parse_query(&chars("c=ANDROID&cver=9.9"));
    let ci = ump_proxy::dispatch::get_client_info_from_query(&pairs);
    assert_eq!(ci.client_name, Some(3));
    assert_eq!(ci.client_version, Some("9.9".to_string()));
    assert_eq!(ci.os_name, Some("Windows".to_string()));
    assert_eq!(ci.os_version, Some("10.0".to_string()));

    let none = ump_proxy::utils::parse_query(&chars(""));
    let ci2 = ump_proxy::dispatch::get_client_info_from_query(&none);
    assert_eq!(ci2.client_name, Some(1));
    assert_eq!(ci2.client_version, Some("2.2040620.05.00".to_string()));
}
