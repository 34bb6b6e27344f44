//! Header policy: the allow/deny list applied to both the outbound request
//! headers and the response headers handed back to the client, and the CORS
//! headers the proxy injects.

use vstd::prelude::*;
use crate::strutil::{chars_eq_str, chars_starts_with, copy_chars, str_to_chars};

verus! {

/// A header, name and value, both as character vectors.
pub type Header = (Vec<char>, Vec<char>);

/// Ghost form of a header.
pub type SpecHeader = (Seq<char>, Seq<char>);

/// View of a header list.
pub open spec fn headers_view(hs: Seq<Header>) -> Seq<SpecHeader> {
    hs.map_values(|h: Header| (h.0@, h.1@))
}

/// The policy: a header passes unless its lowercase name is one of the
/// denied names or begins with `access-control`.
pub open spec fn header_allowed(h: Seq<char>) -> bool {
    &&& !(h.len() >= "access-control"@.len() && h.take("access-control"@.len() as int)
        == "access-control"@)
    &&& h != "host"@
    &&& h != "content-length"@
    &&& h != "set-cookie"@
    &&& h != "alt-svc"@
    &&& h != "accept-ch"@
    &&& h != "report-to"@
    &&& h != "strict-transport-security"@
    &&& h != "user-agent"@
    &&& h != "range"@
    &&& h != "transfer-encoding"@
    &&& h != "x-real-ip"@
    &&& h != "origin"@
    &&& h != "referer"@
    &&& h != "x-title"@
}

/// Decides the header policy for one lowercase header name.
pub fn is_header_allowed(header: &str) -> (r: bool)
    ensures
        r == header_allowed(header@),
{
    let cs = str_to_chars(header);
    is_header_allowed_chars(cs.as_slice())
}

/// Decides the header policy for one lowercase header name given as
/// characters.
pub fn is_header_allowed_chars(h: &[char]) -> (r: bool)
    ensures
        r == header_allowed(h@),
{
    if chars_starts_with(h, "access-control") {
        return false;
    }
    !(chars_eq_str(h, "host") || chars_eq_str(h, "content-length") || chars_eq_str(h, "set-cookie")
        || chars_eq_str(h, "alt-svc") || chars_eq_str(h, "accept-ch") || chars_eq_str(
        h,
        "report-to",
    ) || chars_eq_str(h, "strict-transport-security") || chars_eq_str(h, "user-agent")
        || chars_eq_str(h, "range") || chars_eq_str(h, "transfer-encoding") || chars_eq_str(
        h,
        "x-real-ip",
    ) || chars_eq_str(h, "origin") || chars_eq_str(h, "referer") || chars_eq_str(h, "x-title"))
}

/// The headers of `s` that pass the policy, in their original order.
pub open spec fn filter_allowed(s: Seq<SpecHeader>) -> Seq<SpecHeader>
    decreases s.len(),
{
    if s.len() == 0 {
        Seq::empty()
    } else if header_allowed(s[0].0) {
        seq![s[0]] + filter_allowed(s.drop_first())
    } else {
        filter_allowed(s.drop_first())
    }
}

/// Filtering a list with one more header at its end appends that header
/// exactly when it passes the policy.
proof fn lemma_filter_allowed_snoc(s: Seq<SpecHeader>, h: SpecHeader)
    ensures
        filter_allowed(s.push(h)) == if header_allowed(h.0) {
            filter_allowed(s).push(h)
        } else {
            filter_allowed(s)
        },
    decreases s.len(),
{
    if s.len() == 0 {
        assert(s.push(h)[0] == h);
        assert(s.push(h).drop_first() =~= Seq::<SpecHeader>::empty());
        assert(filter_allowed(s) == Seq::<SpecHeader>::empty());
        assert(filter_allowed(s.push(h).drop_first()) == Seq::<SpecHeader>::empty());
        if header_allowed(h.0) {
            assert(filter_allowed(s.push(h)) == seq![h] + filter_allowed(
                s.push(h).drop_first(),
            ));
            assert(filter_allowed(s.push(h)) =~= filter_allowed(s).push(h));
        }
    } else {
        assert(s.push(h)[0] == s[0]);
        assert(s.push(h).drop_first() =~= s.drop_first().push(h));
        lemma_filter_allowed_snoc(s.drop_first(), h);
        assert(filter_allowed(s.push(h).drop_first()) == filter_allowed(s.drop_first().push(h)));
        if header_allowed(s[0].0) {
            assert(filter_allowed(s.push(h)) == seq![s[0]] + filter_allowed(
                s.drop_first().push(h),
            ));
            assert(filter_allowed(s) == seq![s[0]] + filter_allowed(s.drop_first()));
            if header_allowed(h.0) {
                assert(filter_allowed(s.push(h)) =~= filter_allowed(s).push(h));
            }
        }
    }
}

/// Applies the header policy to a header list, keeping order.
pub fn filter_headers(hs: &Vec<Header>) -> (r: Vec<Header>)
    ensures
        headers_view(r@) == filter_allowed(headers_view(hs@)),
{
    let ghost full = headers_view(hs@);
    let mut out: Vec<Header> = Vec::new();
    let mut i: usize = 0;
    proof {
        assert(full.take(0) =~= Seq::<SpecHeader>::empty());
        assert(headers_view(out@) =~= filter_allowed(full.take(0)));
    }
    while i < hs.len()
        invariant
            i <= hs@.len(),
            full == headers_view(hs@),
            headers_view(out@) == filter_allowed(full.take(i as int)),
        decreases hs@.len() - i,
    {
        proof {
            assert(full.take(i + 1) =~= full.take(i as int).push(full[i as int]));
            lemma_filter_allowed_snoc(full.take(i as int), full[i as int]);
        }
        if is_header_allowed_chars(hs[i].0.as_slice()) {
            let name = copy_chars(hs[i].0.as_slice());
            let value = copy_chars(hs[i].1.as_slice());
            out.push((name, value));
            proof {
                assert(headers_view(out@) =~= filter_allowed(full.take(i as int)).push(
                    full[i as int],
                ));
            }
        }
        i = i + 1;
    }
    proof {
        assert(full.take(full.len() as int) =~= full);
    }
    out
}

/// Header policy law: no denied name survives the filter.  Every header of
/// the filtered list passes the policy, so in particular none of the denied
/// names, and no name beginning with `access-control`, ever appears in an
/// outbound request or in a response passed back to the client.
pub proof fn lemma_filter_headers_policy(s: Seq<SpecHeader>)
    ensures
        forall|i: int|
            0 <= i < filter_allowed(s).len() ==> header_allowed(
                #[trigger] filter_allowed(s)[i].0,
            ),
    decreases s.len(),
{
    if s.len() != 0 {
        lemma_filter_headers_policy(s.drop_first());
        let f = filter_allowed(s);
        let ft = filter_allowed(s.drop_first());
        if header_allowed(s[0].0) {
            assert(f == seq![s[0]] + ft);
            assert forall|i: int| 0 <= i < f.len() implies header_allowed(f[i].0) by {
                if i > 0 {
                    assert(f[i] == ft[i - 1]);
                }
            }
        } else {
            assert(f == ft);
        }
    }
}

/// The CORS headers the proxy injects into every response it builds.
pub fn cors_headers() -> (r: Vec<Header>)
    ensures
        headers_view(r@) == cors_headers_spec(),
{
    let mut out: Vec<Header> = Vec::new();
    out.push((str_to_chars("Access-Control-Allow-Origin"), str_to_chars("*")));
    out.push((str_to_chars("Access-Control-Allow-Headers"), str_to_chars("*")));
    out.push((str_to_chars("Access-Control-Allow-Methods"), str_to_chars("*")));
    out.push((str_to_chars("Access-Control-Max-Age"), str_to_chars("1728000")));
    proof {
        assert(headers_view(out@) =~= cors_headers_spec());
    }
    out
}

/// The four CORS headers, in the order they are appended.
pub open spec fn cors_headers_spec() -> Seq<SpecHeader> {
    seq![
        ("Access-Control-Allow-Origin"@, "*"@),
        ("Access-Control-Allow-Headers"@, "*"@),
        ("Access-Control-Allow-Methods"@, "*"@),
        ("Access-Control-Max-Age"@, "1728000"@),
    ]
}

} // verus!
