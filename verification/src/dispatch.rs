//! The proxy dispatcher's decision core: method filtering, MAC
//! verification, host validation, special `/videoplayback` handling, range
//! completion, and assembly of the outbound request plan.  Performing the
//! request and streaming the response stay outside; this module decides.

use vstd::prelude::*;
use crate::headers::{filter_allowed, filter_headers, headers_view, Header};
use crate::qhash::{pairs_view, qhash_spec, verify_qhash, Pair, SpecPair};
use crate::strutil::{
    all_digits, chars_eq, chars_eq_str, chars_starts_with, chars_to_string, copy_chars, dec_repr,
    dec_value, find_char, parse_u64, str_to_chars, u64_to_chars,
};
use crate::utils::{parse_query, parse_query_spec, ser_query, serialize_query};
use vstd::string::{StringExecFns, StrSliceExecFns};

verus! {

/// What the proxy should do with one inbound request.
pub enum RequestDecision {
    /// A CORS preflight: answer 200 with the CORS headers and no body.
    CorsPreflight,
    /// Neither GET, HEAD nor OPTIONS: answer 405.
    MethodNotAllowed,
    /// The request is invalid; the string says why.
    Reject(String),
    /// Forward the request upstream as the plan says.
    Forward(ForwardPlan),
}

/// The outbound request and how to treat its response.
pub struct ForwardPlan {
    /// Full outbound URL.
    pub url: String,
    /// Use POST with the two-byte body `x\0` (web client on `/videoplayback`).
    pub use_post: bool,
    /// Overwrite the outbound `User-Agent` with the Android client string.
    pub android_user_agent: bool,
    /// Unwrap the response through the UMP media transform.
    pub is_ump: bool,
    /// Rewrite manifests and transcode images on the way back.
    pub rewrite: bool,
    /// The client opted into AVIF output for JPEG sources.
    pub avif: bool,
    /// Content type to set on a UMP response.
    pub mime: Option<Vec<char>>,
    /// Advertised content length from `clen=`.
    pub clen: Option<u64>,
    /// Effective `range=` value of the outbound query, when one is there.
    pub range: Option<Vec<char>>,
    /// The inbound request carried a `Range` header.
    pub had_range_header: bool,
    /// Request headers to copy outbound, already filtered by the policy.
    pub headers: Vec<Header>,
}

/// First value of a key in a query, as the original order has it.
pub open spec fn lookup_first(ps: Seq<SpecPair>, k: Seq<char>) -> Option<Seq<char>>
    decreases ps.len(),
{
    if ps.len() == 0 {
        None
    } else if ps[0].0 == k {
        Some(ps[0].1)
    } else {
        lookup_first(ps.drop_first(), k)
    }
}

/// Finds the first value of a key.
pub fn query_get(ps: &Vec<Pair>, k: &str) -> (r: Option<Vec<char>>)
    ensures
        match r {
            Some(v) => lookup_first(pairs_view(ps@), k@) == Some(v@),
            None => lookup_first(pairs_view(ps@), k@) == None::<Seq<char>>,
        },
{
    let ghost pv = pairs_view(ps@);
    let mut i: usize = 0;
    proof {
        assert(pv.skip(0) =~= pv);
    }
    loop
        invariant
            i <= ps@.len(),
            pv == pairs_view(ps@),
            lookup_first(pv, k@) == lookup_first(pv.skip(i as int), k@),
        decreases ps@.len() - i,
    {
        proof {
            if i < pv.len() {
                assert(pv.skip(i as int)[0] == pv[i as int]);
                assert(pv.skip(i as int).drop_first() =~= pv.skip(i + 1));
            }
        }
        if i >= ps.len() {
            return None;
        }
        if chars_eq_str(ps[i].0.as_slice(), k) {
            return Some(copy_chars(ps[i].1.as_slice()));
        }
        i = i + 1;
    }
}

/// A character a host name may hold: lowercase letters, digits, dot, dash.
pub open spec fn host_char(c: char) -> bool {
    ('a' <= c && c <= 'z') || ('0' <= c && c <= '9') || c == '.' || c == '-'
}

/// The registrable pair of a host: the part after the second-to-last dot,
/// or the whole host when it has exactly one dot.  `None` when the host
/// holds a character outside the allowed set or no dot at all.
pub open spec fn host_capture(h: Seq<char>) -> Option<Seq<char>> {
    if !(forall|i: int| 0 <= i < h.len() ==> host_char(#[trigger] h[i])) {
        None
    } else {
        if forall|i: int| 0 <= i < h.len() ==> h[i] != '.' {
            None
        } else {
            let d1 = last_index_of(h, '.', h.len() as int - 1);
            let d2 = last_index_of(h, '.', d1 - 1);
            if d2 < 0 {
                Some(h)
            } else {
                Some(h.skip(d2 + 1))
            }
        }
    }
}

/// Last index at or before `from` holding `c`, or -1.
pub open spec fn last_index_of(s: Seq<char>, c: char, from: int) -> int
    decreases from + 1,
{
    if from < 0 || from >= s.len() {
        -1
    } else if s[from] == c {
        from
    } else {
        last_index_of(s, c, from - 1)
    }
}

/// The eight origin domains requests may be forwarded to.
pub open spec fn allowed_domain(d: Seq<char>) -> bool {
    d == "youtube.com"@ || d == "googlevideo.com"@ || d == "ytimg.com"@ || d == "ggpht.com"@ || d
        == "googleusercontent.com"@ || d == "lbryplayer.xyz"@ || d == "odycdn.com"@ || d
        == "ajay.app"@
}

/// A host passes validation exactly when its registrable pair exists and is
/// one of the allowed domains.
pub open spec fn host_allowed(h: Seq<char>) -> bool {
    match host_capture(h) {
        Some(d) => allowed_domain(d),
        None => false,
    }
}

/// Greatest index below `from_excl` holding `c`.
fn rfind_char(h: &[char], c: char, from_excl: usize) -> (r: Option<usize>)
    requires
        from_excl <= h@.len(),
    ensures
        match r {
            Some(i) => i < from_excl && h@[i as int] == c && forall|j: int|
                i < j < from_excl ==> h@[j] != c,
            None => forall|j: int| 0 <= j < from_excl ==> h@[j] != c,
        },
{
    let mut j = from_excl;
    while j > 0
        invariant
            j <= from_excl <= h@.len(),
            forall|k: int| j <= k < from_excl ==> h@[k] != c,
        decreases j,
    {
        j = j - 1;
        if h[j] == c {
            return Some(j);
        }
    }
    None
}

proof fn lemma_last_index_some(s: Seq<char>, c: char, hi: int, i: int)
    requires
        0 <= i <= hi < s.len(),
        s[i] == c,
        forall|j: int| i < j <= hi ==> s[j] != c,
    ensures
        last_index_of(s, c, hi) == i,
    decreases hi - i,
{
    if i < hi {
        lemma_last_index_some(s, c, hi - 1, i);
    }
}

proof fn lemma_last_index_none(s: Seq<char>, c: char, hi: int)
    requires
        hi < s.len(),
        forall|j: int| 0 <= j <= hi ==> s[j] != c,
    ensures
        last_index_of(s, c, hi) == -1,
    decreases hi + 1,
{
    if hi >= 0 {
        lemma_last_index_none(s, c, hi - 1);
    }
}

/// Validates a host and decides whether it may be proxied to.
pub fn check_host(h: &[char]) -> (r: bool)
    ensures
        r == host_allowed(h@),
{
    // character set
    let mut i: usize = 0;
    while i < h.len()
        invariant
            i <= h@.len(),
            forall|j: int| 0 <= j < i ==> host_char(#[trigger] h@[j]),
        decreases h@.len() - i,
    {
        let c = h[i];
        if !(('a' <= c && c <= 'z') || ('0' <= c && c <= '9') || c == '.' || c == '-') {
            proof {
                assert(!host_char(h@[i as int]));
            }
            return false;
        }
        i = i + 1;
    }
    // the last two dots give the registrable pair
    let d1 = match rfind_char(h, '.', h.len()) {
        Some(i) => {
            proof {
                lemma_last_index_some(h@, '.', h@.len() as int - 1, i as int);
            }
            i
        },
        None => {
            proof {
                if h@.len() > 0 {
                    lemma_last_index_none(h@, '.', h@.len() as int - 1);
                }
                assert(host_capture(h@) matches None);
            }
            return false;
        },
    };
    let domain: Vec<char> = match rfind_char(h, '.', d1) {
        Some(d2) => {
            proof {
                lemma_last_index_some(h@, '.', d1 as int - 1, d2 as int);
            }
            let d = copy_chars(&h[d2 + 1..h.len()]);
            proof {
                assert(d@ =~= h@.skip(d2 as int + 1));
            }
            d
        },
        None => {
            proof {
                if d1 > 0 {
                    lemma_last_index_none(h@, '.', d1 as int - 1);
                }
            }
            copy_chars(h)
        },
    };
    proof {
        assert(host_capture(h@) == Some(domain@));
    }
    is_allowed_domain(domain.as_slice())
}

/// Decides membership in the domain allow list.
pub fn is_allowed_domain(d: &[char]) -> (r: bool)
    ensures
        r == allowed_domain(d@),
{
    chars_eq_str(d, "youtube.com") || chars_eq_str(d, "googlevideo.com") || chars_eq_str(
        d,
        "ytimg.com",
    ) || chars_eq_str(d, "ggpht.com") || chars_eq_str(d, "googleusercontent.com") || chars_eq_str(
        d,
        "lbryplayer.xyz",
    ) || chars_eq_str(d, "odycdn.com") || chars_eq_str(d, "ajay.app")
}

/// Does the query lack this key entirely?
pub open spec fn lacks_key(ps: Seq<SpecPair>, k: Seq<char>) -> bool {
    lookup_first(ps, k) matches None
}

/// The query pairs that go outbound: everything except `host`, `rewrite`
/// and `qhash`, in their original order.
pub open spec fn outbound_pairs(ps: Seq<SpecPair>) -> Seq<SpecPair>
    decreases ps.len(),
{
    if ps.len() == 0 {
        Seq::empty()
    } else if ps[0].0 == "host"@ || ps[0].0 == "rewrite"@ || ps[0].0 == "qhash"@ {
        outbound_pairs(ps.drop_first())
    } else {
        seq![ps[0]] + outbound_pairs(ps.drop_first())
    }
}

/// Filters the outbound query pairs.
fn outbound_pairs_exec(ps: &Vec<Pair>) -> (r: Vec<Pair>)
    ensures
        pairs_view(r@) == outbound_pairs(pairs_view(ps@)),
{
    let ghost pv = pairs_view(ps@);
    let mut out: Vec<Pair> = Vec::new();
    let mut i: usize = 0;
    proof {
        assert(pv.skip(0) =~= pv);
        assert(pairs_view(out@) + outbound_pairs(pv.skip(0)) =~= outbound_pairs(pv));
    }
    while i < ps.len()
        invariant
            i <= ps@.len(),
            pv == pairs_view(ps@),
            outbound_pairs(pv) == pairs_view(out@) + outbound_pairs(pv.skip(i as int)),
        decreases ps@.len() - i,
    {
        proof {
            assert(pv.skip(i as int)[0] == pv[i as int]);
            assert(pv.skip(i as int).drop_first() =~= pv.skip(i + 1));
        }
        let keep = !(chars_eq_str(ps[i].0.as_slice(), "host") || chars_eq_str(
            ps[i].0.as_slice(),
            "rewrite",
        ) || chars_eq_str(ps[i].0.as_slice(), "qhash"));
        if keep {
            let ghost out0 = pairs_view(out@);
            out.push((copy_chars(ps[i].0.as_slice()), copy_chars(ps[i].1.as_slice())));
            proof {
                assert(pairs_view(out@) =~= out0 + seq![pv[i as int]]);
                assert(out0 + (seq![pv[i as int]] + outbound_pairs(pv.skip(i + 1))) =~= (out0
                    + seq![pv[i as int]]) + outbound_pairs(pv.skip(i + 1)));
            }
        }
        i = i + 1;
    }
    proof {
        assert(pv.skip(pv.len() as int) =~= Seq::<SpecPair>::empty());
        assert(pairs_view(out@) + outbound_pairs(pv.skip(pv.len() as int)) =~= pairs_view(out@));
    }
    out
}

/// The `range=` value the dispatcher adds for `/videoplayback` when the
/// query has none: from a `Range: bytes=<start>-<end>` header, the start
/// and the end (the end falling back to `clen - 1`, or to 0); or `0-` to
/// `clen - 1` when only `clen` is known.  `None` when nothing is added,
/// `Some(None)` when the header is malformed and the request is rejected.
pub open spec fn added_range(
    range_header: Option<Seq<char>>,
    clen: Option<u64>,
) -> Option<Option<Seq<char>>> {
    match range_header {
        Some(rh) => {
            let body = if rh.len() >= 6 && rh.take(6) == "bytes="@ {
                rh.skip(6)
            } else {
                rh
            };
            let dash = crate::utils::find_char_from(body, '-', 0);
            if dash == body.len() {
                Some(None)
            } else {
                let start_str = body.take(dash);
                let end_str = body.skip(dash + 1);
                if !all_digits(start_str) || dec_value(start_str) > u64::MAX {
                    Some(None)
                } else {
                    let endv: u64 = if all_digits(end_str) && dec_value(end_str) <= u64::MAX {
                        dec_value(end_str) as u64
                    } else {
                        match clen {
                            Some(c) => if c >= 1 {
                                (c - 1) as u64
                            } else {
                                0
                            },
                            None => 0,
                        }
                    };
                    if endv != 0 {
                        Some(
                            Some(
                                dec_repr(dec_value(start_str)) + seq!['-'] + dec_repr(
                                    endv as nat,
                                ),
                            ),
                        )
                    } else {
                        None
                    }
                }
            }
        },
        None => match clen {
            Some(c) => if c >= 1 {
                Some(Some(seq!['0', '-'] + dec_repr((c - 1) as nat)))
            } else {
                None
            },
            None => None,
        },
    }
}

/// Computes the added `range=` value.
fn added_range_exec(range_header: Option<&[char]>, clen: Option<u64>) -> (r: Option<
    Option<Vec<char>>,
>)
    ensures
        match r {
            Some(Some(v)) => added_range(
                match range_header {
                    Some(h) => Some(h@),
                    None => None,
                },
                clen,
            ) == Some(Some(v@)),
            Some(None) => added_range(
                match range_header {
                    Some(h) => Some(h@),
                    None => None,
                },
                clen,
            ) == Some(None::<Seq<char>>),
            None => added_range(
                match range_header {
                    Some(h) => Some(h@),
                    None => None,
                },
                clen,
            ) == None::<Option<Seq<char>>>,
        },
{
    match range_header {
        Some(rh) => {
            proof {
                reveal_strlit("bytes=");
            }
            let body: &[char] = if chars_starts_with(rh, "bytes=") {
                let b = &rh[6..rh.len()];
                proof {
                    assert(b@ =~= rh@.skip(6));
                }
                b
            } else {
                rh
            };
            let dash = crate::utils::find_char_or_len(body, '-');
            if dash >= body.len() {
                return Some(None);
            }
            let start_str = &body[0..dash];
            let end_str = &body[dash + 1..body.len()];
            proof {
                assert(start_str@ =~= body@.take(dash as int));
                assert(end_str@ =~= body@.skip(dash + 1));
            }
            let start = match parse_u64(start_str) {
                Some(v) => v,
                None => {
                    return Some(None);
                },
            };
            let endv: u64 = match parse_u64(end_str) {
                Some(v) => v,
                None => match clen {
                    Some(c) => if c >= 1 {
                        c - 1
                    } else {
                        0
                    },
                    None => 0,
                },
            };
            if endv != 0 {
                let mut v = u64_to_chars(start);
                v.push('-');
                let e = u64_to_chars(endv);
                v.extend_from_slice(e.as_slice());
                proof {
                    assert(v@ =~= dec_repr(dec_value(start_str@)) + seq!['-'] + dec_repr(
                        endv as nat,
                    ));
                }
                Some(Some(v))
            } else {
                None
            }
        },
        None => match clen {
            Some(c) => {
                if c >= 1 {
                    let mut v: Vec<char> = Vec::new();
                    v.push('0');
                    v.push('-');
                    let e = u64_to_chars(c - 1);
                    v.extend_from_slice(e.as_slice());
                    proof {
                        assert(v@ =~= seq!['0', '-'] + dec_repr((c - 1) as nat));
                    }
                    Some(Some(v))
                } else {
                    None
                }
            },
            None => None,
        },
    }
}

/// The full outbound URL: scheme, host, path, `?`, and the outbound query.
pub open spec fn forward_url(host: Seq<char>, path: Seq<char>, outq: Seq<SpecPair>) -> Seq<char> {
    "https://"@ + host + path + seq!['?'] + ser_query(outq)
}

/// Everything the request must satisfy, beyond its method, for the
/// dispatcher to forward it: the MAC when a secret is configured, a valid
/// allowed host, an unexpired `/videoplayback` URL, a readable `clen`, and
/// a readable `Range` header where one is used.
pub open spec fn request_accepted(
    qp: Seq<SpecPair>,
    path: Seq<char>,
    secret: Option<Seq<char>>,
    now_epoch: u64,
    range_header: Option<Seq<char>>,
) -> bool {
    let is_vp = path == "/videoplayback"@;
    &&& (match secret {
        Some(sec) => lookup_first(qp, "qhash"@) == Some(qhash_spec(qp, path, sec)),
        None => true,
    })
    &&& (match lookup_first(qp, "host"@) {
        Some(h) => host_allowed(h),
        None => false,
    })
    &&& (is_vp ==> match lookup_first(qp, "expire"@) {
        Some(e) => all_digits(e) && dec_value(e) <= u64::MAX && dec_value(e) >= now_epoch,
        None => true,
    })
    &&& (match lookup_first(qp, "clen"@) {
        Some(c) => all_digits(c) && dec_value(c) <= u64::MAX,
        None => true,
    })
    &&& (is_vp && lacks_key(qp, "range"@) ==> added_range(
        range_header,
        match lookup_first(qp, "clen"@) {
            Some(c) => if all_digits(c) && dec_value(c) <= u64::MAX {
                Some(dec_value(c) as u64)
            } else {
                None
            },
            None => None,
        },
    ) != Some(None::<Seq<char>>))
}

/// Decides what to do with one inbound request.  `OPTIONS` is answered
/// directly; methods other than `GET` and `HEAD` are refused; a configured
/// MAC is verified; the `host` parameter is validated against the domain
/// allow list; `/videoplayback` handles expiry, client type, UMP mode and
/// range completion; everything else is assembled into the forward plan.
#[verifier::rlimit(100)]
pub fn plan_request(
    method: &str,
    path: &[char],
    query_string: &[char],
    range_header: Option<&[char]>,
    headers: &Vec<Header>,
    secret: Option<&[char]>,
    now_epoch: u64,
) -> (r: RequestDecision)
    ensures
        ({
            let qp = parse_query_spec(query_string@);
            let is_vp = path@ == "/videoplayback"@;
            let rh = match range_header {
                Some(h) => Some(h@),
                None => None::<Seq<char>>,
            };
            let sec = match secret {
                Some(s) => Some(s@),
                None => None::<Seq<char>>,
            };
            &&& (r matches RequestDecision::CorsPreflight <==> method@ == "OPTIONS"@)
            &&& (r matches RequestDecision::MethodNotAllowed <==> (method@ != "OPTIONS"@
                && method@ != "GET"@ && method@ != "HEAD"@))
            &&& ((method@ == "GET"@ || method@ == "HEAD"@) ==> (r matches
                RequestDecision::Forward(
                p,
            ) <==> request_accepted(qp, path@, sec, now_epoch, rh)))
            &&& (r matches RequestDecision::Forward(p) ==> {
                let clen = match lookup_first(qp, "clen"@) {
                    Some(c) => if all_digits(c) && dec_value(c) <= u64::MAX {
                        Some(dec_value(c) as u64)
                    } else {
                        None
                    },
                    None => None,
                };
                let added = if is_vp && lacks_key(qp, "range"@) {
                    match added_range(rh, clen) {
                        Some(Some(v)) => Some(v),
                        _ => None,
                    }
                } else {
                    None
                };
                let outq = match added {
                    Some(v) => outbound_pairs(qp.push(("range"@, v))),
                    None => outbound_pairs(qp),
                };
                &&& p.android_user_agent == (is_vp && lookup_first(qp, "c"@) == Some("ANDROID"@))
                &&& p.use_post == (is_vp && lookup_first(qp, "c"@) == Some("WEB"@))
                &&& p.is_ump == (is_vp && !lacks_key(qp, "ump"@))
                &&& p.rewrite == (lookup_first(qp, "rewrite"@) != Some("false"@))
                &&& p.avif == (lookup_first(qp, "avif"@) == Some("true"@))
                &&& (match p.mime {
                    Some(m) => lookup_first(qp, "mime"@) == Some(m@),
                    None => lookup_first(qp, "mime"@) matches None,
                })
                &&& p.clen == clen
                &&& p.had_range_header == (range_header matches Some(_))
                &&& headers_view(p.headers@) == filter_allowed(headers_view(headers@))
                &&& (match p.range {
                    Some(v) => lookup_first(outq, "range"@) == Some(v@),
                    None => lookup_first(outq, "range"@) matches None,
                })
                &&& p.url@ == forward_url(lookup_first(qp, "host"@)->Some_0, path@, outq)
            })
        }),
{
    proof {
        reveal_strlit("OPTIONS");
        reveal_strlit("GET");
        reveal_strlit("HEAD");
        assert("OPTIONS"@.len() == 7);
        assert("GET"@.len() == 3);
        assert("HEAD"@.len() == 4);
        assert("OPTIONS"@ != "GET"@);
        assert("OPTIONS"@ != "HEAD"@);
        assert("GET"@ != "HEAD"@);
    }
    if str_eq_lit(method, "OPTIONS") {
        return RequestDecision::CorsPreflight;
    }
    if !(str_eq_lit(method, "GET") || str_eq_lit(method, "HEAD")) {
        return RequestDecision::MethodNotAllowed;
    }
    let pairs = parse_query(query_string);
    let ghost qp = parse_query_spec(query_string@);
    proof {
        reveal_strlit("/videoplayback");
    }
    let is_vp = chars_eq_str(path, "/videoplayback");
    // integrity MAC
    if let Some(sec) = secret {
        match query_get(&pairs, "qhash") {
            Some(given) => {
                if !verify_qhash(&pairs, path, given.as_slice(), sec) {
                    return RequestDecision::Reject(String::from_str("Invalid qhash provided"));
                }
            },
            None => {
                return RequestDecision::Reject(String::from_str("No qhash provided"));
            },
        }
    }
    // the host must be present and allowed
    let host = match query_get(&pairs, "host") {
        Some(h) => h,
        None => {
            return RequestDecision::Reject(String::from_str("No host provided"));
        },
    };
    if !check_host(host.as_slice()) {
        return RequestDecision::Reject(String::from_str("Domain not allowed"));
    }
    // expiry on /videoplayback
    if is_vp {
        if let Some(e) = query_get(&pairs, "expire") {
            match parse_u64(e.as_slice()) {
                Some(expiry) => {
                    if expiry < now_epoch {
                        return RequestDecision::Reject(String::from_str("Expired"));
                    }
                },
                None => {
                    return RequestDecision::Reject(String::from_str("Invalid expire provided"));
                },
            }
        }
    }
    // advertised content length
    let clen: Option<u64> = match query_get(&pairs, "clen") {
        Some(c) => match parse_u64(c.as_slice()) {
            Some(v) => Some(v),
            None => {
                return RequestDecision::Reject(String::from_str("Invalid clen provided"));
            },
        },
        None => None,
    };
    // range completion
    let has_range = match query_get(&pairs, "range") {
        Some(_) => true,
        None => false,
    };
    let added: Option<Vec<char>> = if is_vp && !has_range {
        match added_range_exec(range_header, clen) {
            Some(Some(v)) => Some(v),
            Some(None) => {
                return RequestDecision::Reject(String::from_str("Invalid range provided"));
            },
            None => None,
        }
    } else {
        None
    };
    // derived flags
    let c_val = query_get(&pairs, "c");
    let android = is_vp && (match c_val {
        Some(ref v) => chars_eq_str(v.as_slice(), "ANDROID"),
        None => false,
    });
    let web = is_vp && (match query_get(&pairs, "c") {
        Some(ref v) => chars_eq_str(v.as_slice(), "WEB"),
        None => false,
    });
    let ump = is_vp && (match query_get(&pairs, "ump") {
        Some(_) => true,
        None => false,
    });
    let rewrite = match query_get(&pairs, "rewrite") {
        Some(ref v) => !chars_eq_str(v.as_slice(), "false"),
        None => true,
    };
    let avif = match query_get(&pairs, "avif") {
        Some(ref v) => chars_eq_str(v.as_slice(), "true"),
        None => false,
    };
    let mime = query_get(&pairs, "mime");
    let mut full_pairs = pairs;
    let ghost qp_aug: Seq<SpecPair> = match added {
        Some(ref v) => qp.push(("range"@, v@)),
        None => qp,
    };
    match added {
        Some(ref v) => {
            full_pairs.push((str_to_chars("range"), copy_chars(v.as_slice())));
            proof {
                assert(pairs_view(full_pairs@) =~= qp_aug);
            }
        },
        None => {},
    }
    let outq = outbound_pairs_exec(&full_pairs);
    let range_val = query_get(&outq, "range");
    // outbound URL
    let mut url_chars = str_to_chars("https://");
    url_chars.extend_from_slice(host.as_slice());
    url_chars.extend_from_slice(path);
    url_chars.push('?');
    let q = serialize_query(&outq);
    url_chars.extend_from_slice(q.as_slice());
    proof {
        reveal_strlit("https://");
        assert(url_chars@ =~= forward_url(host@, path@, pairs_view(outq@)));
    }
    let fheaders = filter_headers(headers);
    let plan = ForwardPlan {
        url: chars_to_string(url_chars.as_slice()),
        use_post: web,
        android_user_agent: android,
        is_ump: ump,
        rewrite,
        avif,
        mime,
        clen,
        range: range_val,
        had_range_header: match range_header {
            Some(_) => true,
            None => false,
        },
        headers: fheaders,
    };
    RequestDecision::Forward(plan)
}


/// Content length of a UMP response: with a `range=<start>-<end>` value,
/// `end - start + 1` (the end falling back to `clen - 1`); without one,
/// `clen` itself.  `None` when the range cannot be read or is inverted.
pub open spec fn ump_length_spec(range: Option<Seq<char>>, clen: u64) -> Option<u64> {
    match range {
        None => Some(clen),
        Some(rv) => {
            let dash = crate::utils::find_char_from(rv, '-', 0);
            let start_str = rv.take(dash);
            let end_str = rv.skip(dash + 1);
            if dash == rv.len() || !all_digits(start_str) || dec_value(start_str) > u64::MAX {
                None
            } else {
                let s = dec_value(start_str) as u64;
                let e: u64 = if all_digits(end_str) && dec_value(end_str) <= u64::MAX {
                    dec_value(end_str) as u64
                } else if clen >= 1 {
                    (clen - 1) as u64
                } else {
                    0
                };
                if s <= e && e <= u64::MAX - 1 {
                    Some((e - s + 1) as u64)
                } else {
                    None
                }
            }
        },
    }
}

/// Computes the content length of a UMP response.
pub fn ump_length(range: Option<&[char]>, clen: u64) -> (r: Option<u64>)
    ensures
        r == ump_length_spec(
            match range {
                Some(v) => Some(v@),
                None => None,
            },
            clen,
        ),
{
    match range {
        None => Some(clen),
        Some(rv) => {
            let dash = crate::utils::find_char_or_len(rv, '-');
            if dash >= rv.len() {
                proof {
                    assert(!all_digits(rv@.take(dash as int)) || true);
                }
                let start_str = &rv[0..dash];
                proof {
                    assert(start_str@ =~= rv@.take(dash as int));
                }
                return None;
            }
            let start_str = &rv[0..dash];
            let end_str = &rv[dash + 1..rv.len()];
            proof {
                assert(start_str@ =~= rv@.take(dash as int));
                assert(end_str@ =~= rv@.skip(dash + 1));
            }
            let s = match parse_u64(start_str) {
                Some(v) => v,
                None => {
                    return None;
                },
            };
            let e: u64 = match parse_u64(end_str) {
                Some(v) => v,
                None => if clen >= 1 {
                    clen - 1
                } else {
                    0
                },
            };
            if s <= e && e <= u64::MAX - 1 {
                Some(e - s + 1)
            } else {
                None
            }
        },
    }
}

/// A UMP response is partial exactly when the effective range does not
/// cover `0` to `clen - 1`.
pub fn is_partial_range(range: &[char], clen: u64) -> (r: bool)
    requires
        clen >= 1,
    ensures
        r == (range@ != seq!['0', '-'] + dec_repr((clen - 1) as nat)),
{
    let mut full: Vec<char> = Vec::new();
    full.push('0');
    full.push('-');
    let e = u64_to_chars(clen - 1);
    full.extend_from_slice(e.as_slice());
    proof {
        assert(full@ =~= seq!['0', '-'] + dec_repr((clen - 1) as nat));
    }
    !chars_eq(range, full.as_slice())
}


/// The client identification for a SABR exchange, read from the query: the
/// `c` parameter picks the client name code (web 1, android 3, ios 5,
/// anything else 1), `cver` overrides the client version, and the operating
/// system is always reported as Windows 10.0.
pub fn get_client_info_from_query(ps: &Vec<Pair>) -> (r: crate::sabr_request::ClientInfo)
    ensures
        r@.client_name == Some(
            match lookup_first(pairs_view(ps@), "c"@) {
                Some(c) => if c == "WEB"@ {
                    1i32
                } else if c == "ANDROID"@ {
                    3i32
                } else if c == "IOS"@ {
                    5i32
                } else {
                    1i32
                },
                None => 1i32,
            },
        ),
        r@.client_version == Some(
            match lookup_first(pairs_view(ps@), "cver"@) {
                Some(v) => v,
                None => "2.2040620.05.00"@,
            },
        ),
        r@.os_name == Some("Windows"@),
        r@.os_version == Some("10.0"@),
        r@.device_make matches None,
        r@.device_model matches None,
        r@.accept_language matches None,
        r@.accept_region matches None,
        r@.screen_width_points matches None,
        r@.screen_height_points matches None,
        r@.screen_pixel_density matches None,
        r@.client_form_factor matches None,
        r@.gmscore_version_code matches None,
        r@.window_width_points matches None,
        r@.window_height_points matches None,
        r@.android_sdk_version matches None,
        r@.utc_offset_minutes matches None,
        r@.time_zone matches None,
        r@.chipset matches None,
{
    let client_name: i32 = match query_get(ps, "c") {
        Some(c) => {
            if chars_eq_str(c.as_slice(), "WEB") {
                1
            } else if chars_eq_str(c.as_slice(), "ANDROID") {
                3
            } else if chars_eq_str(c.as_slice(), "IOS") {
                5
            } else {
                1
            }
        },
        None => 1,
    };
    let client_version: String = match query_get(ps, "cver") {
        Some(v) => chars_to_string(v.as_slice()),
        None => {
            let d = str_to_chars("2.2040620.05.00");
            chars_to_string(d.as_slice())
        },
    };
    crate::sabr_request::ClientInfo {
        device_make: None,
        device_model: None,
        client_name: Some(client_name),
        client_version: Some(client_version),
        os_name: Some(chars_to_string(str_to_chars("Windows").as_slice())),
        os_version: Some(chars_to_string(str_to_chars("10.0").as_slice())),
        accept_language: None,
        accept_region: None,
        screen_width_points: None,
        screen_height_points: None,
        screen_pixel_density: None,
        client_form_factor: None,
        gmscore_version_code: None,
        window_width_points: None,
        window_height_points: None,
        android_sdk_version: None,
        utc_offset_minutes: None,
        time_zone: None,
        chipset: None,
    }
}

/// String equality against a literal.
fn str_eq_lit(s: &str, lit: &str) -> (r: bool)
    ensures
        r == (s@ == lit@),
{
    let a = str_to_chars(s);
    chars_eq_str(a.as_slice(), lit)
}

} // verus!
