//! URL localisation and manifest rewriting: query-string parsing and
//! serialisation with percent-encoding, key-sorted query maps, the
//! `?host=` rewriting of absolute and relative media URLs, and XML escaping
//! for DASH manifests.

use vstd::prelude::*;
use crate::qhash::{qhash_spec, compute_qhash, pairs_view, Pair, SpecPair, utf8_bytes};
use crate::strutil::{
    chars_eq, chars_ends_with, chars_lt, chars_lt_exec, chars_starts_with, chars_to_string,
    copy_chars, find_char, str_to_chars,
};
use vstd::utf8::encode_utf8;

verus! {

/// Does this byte need percent-encoding in a query string?  Controls,
/// non-ASCII bytes, space, and the characters `"`, `<`, `>`, `` ` ``, `&`,
/// `?`, `=` do.
pub open spec fn needs_pct(b: u8) -> bool {
    b < 0x21 || b == 0x7F || b >= 0x80 || b == 0x22 || b == 0x3C || b == 0x3E || b == 0x60 || b
        == 0x26 || b == 0x3F || b == 0x3D
}

/// Uppercase hex digit of a value below sixteen.
pub open spec fn hex_digit(n: nat) -> char {
    if n < 10 {
        ((48 + n) as u8) as char
    } else {
        ((55 + n) as u8) as char
    }
}

/// Percent-encoding of one byte.
pub open spec fn pct_byte(b: u8) -> Seq<char> {
    if needs_pct(b) {
        seq!['%', hex_digit(b as nat / 16), hex_digit(b as nat % 16)]
    } else {
        seq![b as char]
    }
}

/// Percent-encoding of a byte string.
pub open spec fn pct_bytes(bs: Seq<u8>) -> Seq<char>
    decreases bs.len(),
{
    if bs.len() == 0 {
        Seq::empty()
    } else {
        pct_bytes(bs.drop_last()) + pct_byte(bs.last())
    }
}

/// Percent-encoding of a string: its UTF-8 bytes, each encoded.
pub open spec fn pct_chars(s: Seq<char>) -> Seq<char> {
    pct_bytes(encode_utf8(s))
}

/// Percent-encodes a string for use in a query.
pub fn pct_encode(s: &[char]) -> (r: Vec<char>)
    ensures
        r@ == pct_chars(s@),
{
    let bytes = utf8_bytes(s);
    let mut out: Vec<char> = Vec::new();
    let mut i: usize = 0;
    proof {
        assert(bytes@.take(0) =~= Seq::<u8>::empty());
        assert(out@ =~= pct_bytes(bytes@.take(0)));
    }
    while i < bytes.len()
        invariant
            i <= bytes@.len(),
            bytes@ == encode_utf8(s@),
            out@ == pct_bytes(bytes@.take(i as int)),
        decreases bytes@.len() - i,
    {
        let b = bytes[i];
        if b < 0x21 || b == 0x7F || b >= 0x80 || b == 0x22 || b == 0x3C || b == 0x3E || b == 0x60
            || b == 0x26 || b == 0x3F || b == 0x3D {
            out.push('%');
            let hi = b / 16;
            let lo = b % 16;
            out.push(if hi < 10 { (48 + hi) as char } else { (55 + hi) as char });
            out.push(if lo < 10 { (48 + lo) as char } else { (55 + lo) as char });
        } else {
            out.push(b as char);
        }
        proof {
            assert(bytes@.take(i + 1).drop_last() =~= bytes@.take(i as int));
            assert(bytes@.take(i + 1).last() == bytes@[i as int]);
            assert(out@ =~= pct_bytes(bytes@.take(i + 1)));
        }
        i = i + 1;
    }
    proof {
        assert(bytes@.take(bytes@.len() as int) =~= bytes@);
    }
    out
}

/// Serialisation of one query pair.
pub open spec fn ser_pair(p: SpecPair) -> Seq<char> {
    pct_chars(p.0) + seq!['='] + pct_chars(p.1)
}

/// Serialisation of a query pair list, pairs joined by `&`.
pub open spec fn ser_query(ps: Seq<SpecPair>) -> Seq<char>
    decreases ps.len(),
{
    if ps.len() == 0 {
        Seq::empty()
    } else if ps.len() == 1 {
        ser_pair(ps[0])
    } else {
        ser_query(ps.drop_last()) + seq!['&'] + ser_pair(ps.last())
    }
}

/// Serialises a query pair list.
pub fn serialize_query(ps: &Vec<Pair>) -> (r: Vec<char>)
    ensures
        r@ == ser_query(pairs_view(ps@)),
{
    let ghost pv = pairs_view(ps@);
    let mut out: Vec<char> = Vec::new();
    let mut i: usize = 0;
    proof {
        assert(pv.take(0) =~= Seq::<SpecPair>::empty());
        assert(out@ =~= ser_query(pv.take(0)));
    }
    while i < ps.len()
        invariant
            i <= ps@.len(),
            pv == pairs_view(ps@),
            out@ == ser_query(pv.take(i as int)),
        decreases ps@.len() - i,
    {
        if i > 0 {
            out.push('&');
        }
        let k = pct_encode(ps[i].0.as_slice());
        out.extend_from_slice(k.as_slice());
        out.push('=');
        let v = pct_encode(ps[i].1.as_slice());
        out.extend_from_slice(v.as_slice());
        proof {
            assert(pv.take(i + 1).drop_last() =~= pv.take(i as int));
            assert(pv.take(i + 1).last() == pv[i as int]);
            if i == 0 {
                assert(out@ =~= ser_pair(pv[0]));
                assert(pv.take(1).len() == 1);
                assert(pv.take(1)[0] == pv[0]);
                assert(out@ =~= ser_query(pv.take(1)));
            } else {
                assert(out@ =~= ser_query(pv.take(i as int)) + seq!['='].update(0, '&')
                    + ser_pair(pv[i as int])) by {
                    assert(seq!['='].update(0, '&') =~= seq!['&']);
                }
                assert(out@ =~= ser_query(pv.take(i + 1)));
            }
        }
        i = i + 1;
    }
    proof {
        assert(pv.take(pv.len() as int) =~= pv);
    }
    out
}

/// Inserts a pair into a key-sorted map: a smaller key goes before, an
/// equal key replaces the earlier value.
pub open spec fn map_insert_pair(p: SpecPair, l: Seq<SpecPair>) -> Seq<SpecPair>
    decreases l.len(),
{
    if l.len() == 0 {
        seq![p]
    } else if chars_lt(p.0, l[0].0) {
        seq![p] + l
    } else if p.0 == l[0].0 {
        seq![p] + l.drop_first()
    } else {
        seq![l[0]] + map_insert_pair(p, l.drop_first())
    }
}

/// The pairs as a key-sorted map: sorted ascending by key, one entry per
/// key, a later pair superseding an earlier one with the same key.
pub open spec fn sorted_map(ps: Seq<SpecPair>) -> Seq<SpecPair>
    decreases ps.len(),
{
    if ps.len() == 0 {
        Seq::empty()
    } else {
        map_insert_pair(ps.last(), sorted_map(ps.drop_last()))
    }
}

/// Inserts one pair into a key-sorted vector as `map_insert_pair`
/// prescribes.
fn map_insert_pair_exec(p: Pair, l: &mut Vec<Pair>)
    ensures
        pairs_view(final(l)@) == map_insert_pair((p.0@, p.1@), pairs_view(old(l)@)),
{
    let ghost pv = (p.0@, p.1@);
    let ghost lv = pairs_view(l@);
    let mut j: usize = 0;
    proof {
        assert(lv.take(0) =~= Seq::<SpecPair>::empty());
        assert(lv.skip(0) =~= lv);
        assert(lv.take(0) + map_insert_pair(pv, lv.skip(0)) =~= map_insert_pair(pv, lv));
    }
    loop
        invariant
            j <= l@.len(),
            lv == pairs_view(l@),
            lv == pairs_view(old(l)@),
            pv == (p.0@, p.1@),
            map_insert_pair(pv, lv) == lv.take(j as int) + map_insert_pair(pv, lv.skip(j as int)),
        decreases l@.len() - j,
    {
        proof {
            if j < l@.len() {
                assert(lv.skip(j as int)[0] == lv[j as int]);
                assert(lv.skip(j as int).drop_first() =~= lv.skip(j + 1));
            }
        }
        if j >= l.len() {
            proof {
                assert(map_insert_pair(pv, lv.skip(j as int)) == seq![pv]);
            }
            l.push(p);
            proof {
                assert(pairs_view(l@) =~= lv.take(lv.len() as int) + seq![pv]);
                assert(map_insert_pair(pv, lv) =~= lv.take(lv.len() as int) + seq![pv]);
            }
            return ;
        }
        if chars_lt_exec(p.0.as_slice(), l[j].0.as_slice()) {
            proof {
                assert(map_insert_pair(pv, lv.skip(j as int)) == seq![pv] + lv.skip(j as int));
            }
            l.insert(j, p);
            proof {
                assert(pairs_view(l@) =~= lv.take(j as int) + (seq![pv] + lv.skip(j as int)));
            }
            return ;
        }
        if chars_eq(p.0.as_slice(), l[j].0.as_slice()) {
            proof {
                assert(pv.0 == lv[j as int].0);
                assert(map_insert_pair(pv, lv.skip(j as int)) == seq![pv] + lv.skip(j + 1));
            }
            let _ = l.remove(j);
            proof {
                assert(pairs_view(l@) =~= lv.take(j as int) + lv.skip(j + 1));
            }
            l.insert(j, p);
            proof {
                assert(pairs_view(l@) =~= lv.take(j as int) + (seq![pv] + lv.skip(j + 1)));
            }
            return ;
        }
        proof {
            assert(pv.0 != lv[j as int].0);
            assert(map_insert_pair(pv, lv.skip(j as int)) == seq![lv[j as int]] + map_insert_pair(
                pv,
                lv.skip(j + 1),
            ));
            assert(lv.take(j as int) + (seq![lv[j as int]] + map_insert_pair(pv, lv.skip(j + 1)))
                =~= lv.take(j + 1) + map_insert_pair(pv, lv.skip(j + 1)));
        }
        j = j + 1;
    }
}

/// Builds the key-sorted map of a pair list.
pub fn sorted_map_exec(ps: &Vec<Pair>) -> (r: Vec<Pair>)
    ensures
        pairs_view(r@) == sorted_map(pairs_view(ps@)),
{
    let ghost full = pairs_view(ps@);
    let mut acc: Vec<Pair> = Vec::new();
    let mut i: usize = 0;
    proof {
        assert(full.take(0) =~= Seq::<SpecPair>::empty());
        assert(pairs_view(acc@) =~= sorted_map(full.take(0)));
    }
    while i < ps.len()
        invariant
            i <= ps@.len(),
            full == pairs_view(ps@),
            pairs_view(acc@) == sorted_map(full.take(i as int)),
        decreases ps@.len() - i,
    {
        let p = (copy_chars(ps[i].0.as_slice()), copy_chars(ps[i].1.as_slice()));
        proof {
            assert((p.0@, p.1@) == full[i as int]);
            assert(full.take(i + 1).drop_last() =~= full.take(i as int));
            assert(full.take(i + 1).last() == full[i as int]);
        }
        map_insert_pair_exec(p, &mut acc);
        i = i + 1;
    }
    proof {
        assert(full.take(full.len() as int) =~= full);
    }
    acc
}

/// First index of `c` in `s` at or after `i`, or the length of `s`.
pub open spec fn find_char_from(s: Seq<char>, c: char, i: int) -> int
    decreases s.len() - i,
{
    if i < 0 || i >= s.len() {
        s.len() as int
    } else if s[i] == c {
        i
    } else {
        find_char_from(s, c, i + 1)
    }
}

/// Finds the first occurrence of `c` in `s`, or returns the length.
pub fn find_char_or_len(s: &[char], c: char) -> (r: usize)
    ensures
        r as int == find_char_from(s@, c, 0),
        r <= s@.len(),
        r < s@.len() ==> s@[r as int] == c,
        forall|j: int| 0 <= j < r ==> s@[j] != c,
{
    match find_char(s, c) {
        Some(i) => {
            proof {
                lemma_find_char_from(s@, c, 0, i as int);
            }
            i
        },
        None => {
            proof {
                lemma_find_char_from_none(s@, c, 0);
            }
            s.len()
        },
    }
}

proof fn lemma_find_char_from(s: Seq<char>, c: char, k: int, i: int)
    requires
        0 <= k <= i < s.len(),
        s[i] == c,
        forall|j: int| k <= j < i ==> s[j] != c,
    ensures
        find_char_from(s, c, k) == i,
    decreases i - k,
{
    if k < i {
        lemma_find_char_from(s, c, k + 1, i);
    }
}

proof fn lemma_find_char_from_none(s: Seq<char>, c: char, k: int)
    requires
        0 <= k,
        forall|j: int| 0 <= j < s.len() ==> s[j] != c,
    ensures
        find_char_from(s, c, k) == s.len(),
    decreases s.len() - k,
{
    if k < s.len() {
        lemma_find_char_from_none(s, c, k + 1);
    }
}

/// The pairs of one `&`-separated query segment: `name=value`, or `name`
/// with an empty value; a segment without a name yields nothing.
pub open spec fn segment_pairs(seg: Seq<char>) -> Seq<SpecPair> {
    if seg.len() == 0 {
        Seq::empty()
    } else {
        let eq = find_char_from(seg, '=', 0);
        if eq == seg.len() {
            seq![(seg, Seq::<char>::empty())]
        } else if eq == 0 {
            Seq::empty()
        } else {
            seq![(seg.take(eq), seg.skip(eq + 1))]
        }
    }
}

/// The pairs of a query string: its `&`-separated segments' pairs, in
/// order.  No percent-decoding is applied.
pub open spec fn parse_query_spec(s: Seq<char>) -> Seq<SpecPair>
    decreases s.len(),
    via parse_query_spec_decreases
{
    if s.len() == 0 {
        Seq::empty()
    } else {
        let amp = find_char_from(s, '&', 0);
        if amp == s.len() {
            segment_pairs(s)
        } else {
            segment_pairs(s.take(amp)) + parse_query_spec(s.skip(amp + 1))
        }
    }
}

#[via_fn]
proof fn parse_query_spec_decreases(s: Seq<char>) {
    if s.len() > 0 {
        lemma_find_char_from_bounds(s, '&', 0);
    }
}

proof fn lemma_find_char_from_bounds(s: Seq<char>, c: char, k: int)
    requires
        0 <= k <= s.len(),
    ensures
        k <= find_char_from(s, c, k) <= s.len(),
    decreases s.len() - k,
{
    if k < s.len() && s[k] != c {
        lemma_find_char_from_bounds(s, c, k + 1);
    }
}

/// Splits a query string into its pairs.
pub fn parse_query(s: &[char]) -> (r: Vec<Pair>)
    ensures
        pairs_view(r@) == parse_query_spec(s@),
{
    let mut out: Vec<Pair> = Vec::new();
    let mut cur: usize = 0;
    proof {
        assert(s@.skip(0) =~= s@);
        assert(pairs_view(out@) =~= Seq::<SpecPair>::empty());
    }
    loop
        invariant
            cur <= s@.len(),
            parse_query_spec(s@) == pairs_view(out@) + parse_query_spec(s@.skip(cur as int)),
        decreases s@.len() - cur,
    {
        let ghost tail = s@.skip(cur as int);
        if cur >= s.len() {
            proof {
                assert(parse_query_spec(tail) =~= Seq::<SpecPair>::empty());
                assert(pairs_view(out@) + parse_query_spec(tail) =~= pairs_view(out@));
            }
            return out;
        }
        let rest = &s[cur..s.len()];
        proof {
            assert(rest@ == tail);
        }
        let amp = find_char_or_len(rest, '&');
        let seg = &rest[0..amp];
        proof {
            assert(seg@ =~= tail.take(amp as int));
        }
        let ghost out0 = pairs_view(out@);
        // the pairs of this segment
        if seg.len() > 0 {
            let eq = find_char_or_len(seg, '=');
            if eq == seg.len() {
                let name = copy_chars(seg);
                out.push((name, Vec::new()));
                proof {
                    assert(pairs_view(out@) =~= out0 + seq![(seg@, Seq::<char>::empty())]);
                }
            } else if eq > 0 {
                let name = copy_chars(&seg[0..eq]);
                let value = copy_chars(&seg[eq + 1..seg.len()]);
                proof {
                    assert(name@ =~= seg@.take(eq as int));
                    assert(value@ =~= seg@.skip(eq + 1));
                }
                out.push((name, value));
                proof {
                    assert(pairs_view(out@) =~= out0 + seq![(seg@.take(eq as int), seg@.skip(
                        eq + 1,
                    ))]);
                }
            }
        }
        proof {
            if amp < rest@.len() {
                assert(segment_pairs(tail.take(amp as int)) == pairs_view(out@).skip(
                    out0.len() as int,
                )) by {
                    assert(pairs_view(out@).skip(out0.len() as int) =~= pairs_view(out@).skip(
                        out0.len() as int,
                    ));
                    lemma_segment_out(tail, amp as int, out0, pairs_view(out@));
                }
            }
        }
        if amp >= rest.len() {
            proof {
                assert(amp as int == tail.len());
                assert(tail.take(amp as int) =~= tail);
                assert(parse_query_spec(tail) == segment_pairs(tail));
                assert(pairs_view(out@) =~= out0 + segment_pairs(tail));
                assert(pairs_view(out@) + parse_query_spec(s@.skip(s@.len() as int)) =~= pairs_view(
                    out@,
                )) by {
                    assert(parse_query_spec(s@.skip(s@.len() as int))
                        =~= Seq::<SpecPair>::empty());
                }
            }
            cur = s.len();
            proof {
                assert(parse_query_spec(s@) == pairs_view(out@) + parse_query_spec(
                    s@.skip(cur as int),
                ));
            }
        } else {
            proof {
                assert(parse_query_spec(tail) == segment_pairs(tail.take(amp as int))
                    + parse_query_spec(tail.skip(amp + 1)));
                assert(tail.skip(amp + 1) =~= s@.skip(cur + amp + 1));
                assert(pairs_view(out@) =~= out0 + segment_pairs(tail.take(amp as int)));
                assert(pairs_view(out@) + parse_query_spec(s@.skip(cur + amp + 1)) =~= out0 + (
                segment_pairs(tail.take(amp as int)) + parse_query_spec(tail.skip(amp + 1))));
            }
            cur = cur + amp + 1;
        }
    }
}

proof fn lemma_segment_out(tail: Seq<char>, amp: int, a: Seq<SpecPair>, b: Seq<SpecPair>)
    requires
        b == a + segment_pairs(tail.take(amp)),
    ensures
        segment_pairs(tail.take(amp)) == b.skip(a.len() as int),
{
    assert(b.skip(a.len() as int) =~= segment_pairs(tail.take(amp)));
}

/// XML escape of one character.
pub open spec fn xml_esc_char(c: char) -> Seq<char> {
    if c == '<' {
        "&lt;"@
    } else if c == '>' {
        "&gt;"@
    } else if c == '&' {
        "&amp;"@
    } else if c == '\'' {
        "&apos;"@
    } else if c == '"' {
        "&quot;"@
    } else {
        seq![c]
    }
}

/// XML escape of a string: every special character replaced by its entity.
pub open spec fn xml_escaped(s: Seq<char>) -> Seq<char>
    decreases s.len(),
{
    if s.len() == 0 {
        Seq::empty()
    } else {
        xml_escaped(s.drop_last()) + xml_esc_char(s.last())
    }
}

/// Escapes the XML special characters `<`, `>`, `&`, `'`, `"`.
pub fn escape_xml(raw: &str) -> (r: String)
    ensures
        r@ == xml_escaped(raw@),
{
    let cs = str_to_chars(raw);
    let out = escape_xml_chars(cs.as_slice());
    chars_to_string(out.as_slice())
}

/// Escapes the XML special characters of a character slice.
pub fn escape_xml_chars(cs: &[char]) -> (r: Vec<char>)
    ensures
        r@ == xml_escaped(cs@),
{
    let mut out: Vec<char> = Vec::new();
    let mut i: usize = 0;
    proof {
        assert(cs@.take(0) =~= Seq::<char>::empty());
        assert(out@ =~= xml_escaped(cs@.take(0)));
    }
    while i < cs.len()
        invariant
            i <= cs@.len(),
            out@ == xml_escaped(cs@.take(i as int)),
        decreases cs@.len() - i,
    {
        let c = cs[i];
        if c == '<' {
            let e = str_to_chars("&lt;");
            out.extend_from_slice(e.as_slice());
        } else if c == '>' {
            let e = str_to_chars("&gt;");
            out.extend_from_slice(e.as_slice());
        } else if c == '&' {
            let e = str_to_chars("&amp;");
            out.extend_from_slice(e.as_slice());
        } else if c == '\'' {
            let e = str_to_chars("&apos;");
            out.extend_from_slice(e.as_slice());
        } else if c == '"' {
            let e = str_to_chars("&quot;");
            out.extend_from_slice(e.as_slice());
        } else {
            out.push(c);
        }
        proof {
            assert(cs@.take(i + 1).drop_last() =~= cs@.take(i as int));
            assert(cs@.take(i + 1).last() == cs@[i as int]);
            assert(out@ =~= xml_escaped(cs@.take(i + 1)));
        }
        i = i + 1;
    }
    proof {
        assert(cs@.take(cs@.len() as int) =~= cs@);
    }
    out
}

/// The final form of a rewritten URL: the path, then `?`, then the
/// key-sorted query, then — when a secret is configured — the pair
/// `qhash=<the MAC of the query and path>` appended last.
pub open spec fn finalize_spec(
    path: Seq<char>,
    ps: Seq<SpecPair>,
    secret: Option<Seq<char>>,
) -> Seq<char> {
    let pairs = match secret {
        Some(sec) => sorted_map(ps).push((("qhash"@, qhash_spec(ps, path, sec)))),
        None => sorted_map(ps),
    };
    path + seq!['?'] + ser_query(pairs)
}

/// Builds the final rewritten URL for a path and its query pairs.
pub fn finalize_url(path: &[char], query: &Vec<Pair>, secret: Option<&[char]>) -> (r: Vec<char>)
    ensures
        r@ == finalize_spec(path@, pairs_view(query@), match secret {
            Some(s) => Some(s@),
            None => None,
        }),
{
    let mut pairs = sorted_map_exec(query);
    match secret {
        Some(sec) => {
            let qh = compute_qhash(query, path, sec);
            pairs.push((str_to_chars("qhash"), qh));
            proof {
                assert(pairs_view(pairs@) =~= sorted_map(pairs_view(query@)).push(
                    ("qhash"@, qhash_spec(pairs_view(query@), path@, sec@)),
                ));
            }
        },
        None => {},
    }
    let mut out = copy_chars(path);
    out.push('?');
    let q = serialize_query(&pairs);
    out.extend_from_slice(q.as_slice());
    proof {
        assert(out@ =~= finalize_spec(path@, pairs_view(query@), match secret {
            Some(s) => Some(s@),
            None => None,
        }));
    }
    out
}

/// Splits an absolute `https://` URL into authority, path and query pairs.
/// The authority runs to the first `/` or `?`; a missing path is `/`; the
/// query is everything after the first `?`.
pub open spec fn url_authority_end(rest: Seq<char>) -> int {
    let slash = find_char_from(rest, '/', 0);
    let quest = find_char_from(rest, '?', 0);
    if slash <= quest {
        slash
    } else {
        quest
    }
}

/// The localised form of a URL (see [`localize_url`]).
pub open spec fn localize_spec(u: Seq<char>, host: Seq<char>, secret: Option<Seq<char>>) -> Seq<
    char,
> {
    if u.len() >= 8 && u.take(8) == "https://"@ {
        let rest = u.skip(8);
        let ae = url_authority_end(rest);
        let authority = rest.take(ae);
        let qpos = find_char_from(rest, '?', ae);
        let path = if ae == rest.len() || rest[ae] == '?' {
            "/"@
        } else {
            rest.subrange(ae, qpos)
        };
        let pairs = if qpos == rest.len() {
            Seq::<SpecPair>::empty()
        } else {
            parse_query_spec(rest.skip(qpos + 1))
        };
        finalize_spec(path, pairs.push(("host"@, authority)), secret)
    } else if u.len() >= 5 && u.skip(u.len() - 5) == ".m3u8"@ || u.len() >= 3 && u.skip(
        u.len() - 3,
    ) == ".ts"@ {
        finalize_spec(u, seq![("host"@, host)], secret)
    } else {
        u
    }
}

/// Rewrites a URL so that the client reaches it through this proxy.  An
/// absolute `https://` URL becomes its path with the authority moved into
/// the query as `host=`, the other query pairs kept, sorted by key; a
/// relative URL ending in `.m3u8` or `.ts` gets `?host=<origin host>`
/// appended; anything else passes through unchanged.  With a secret
/// configured, `qhash=` is appended last.
pub fn localize_url(url: &str, host: &str, secret: Option<&[char]>) -> (r: String)
    ensures
        r@ == localize_spec(url@, host@, match secret {
            Some(s) => Some(s@),
            None => None,
        }),
{
    let u = str_to_chars(url);
    let h = str_to_chars(host);
    let out = localize_url_chars(u.as_slice(), h.as_slice(), secret);
    chars_to_string(out.as_slice())
}

/// Character-level form of [`localize_url`].
pub fn localize_url_chars(u: &[char], host: &[char], secret: Option<&[char]>) -> (r: Vec<char>)
    ensures
        r@ == localize_spec(u@, host@, match secret {
            Some(s) => Some(s@),
            None => None,
        }),
{
    proof {
        reveal_strlit("https://");
        reveal_strlit(".m3u8");
        reveal_strlit(".ts");
    }
    if chars_starts_with(u, "https://") {
        let rest = &u[8..u.len()];
        proof {
            assert(rest@ =~= u@.skip(8));
            assert(u@.take("https://"@.len() as int) == "https://"@);
            assert(u@.take(8) == "https://"@);
        }
        let slash = find_char_or_len(rest, '/');
        let quest0 = find_char_or_len(rest, '?');
        let ae = if slash <= quest0 {
            slash
        } else {
            quest0
        };
        let authority = copy_chars(&rest[0..ae]);
        proof {
            assert(authority@ =~= rest@.take(ae as int));
        }
        // the query starts at the first `?` at or after the authority
        let quest = quest0;
        proof {
            assert(quest0 as int == find_char_from(rest@, '?', 0));
            assert(ae <= quest0);
            lemma_find_char_from_mid(rest@, '?', ae as int, quest0 as int);
            assert(find_char_from(rest@, '?', ae as int) == quest0 as int);
            assert(url_authority_end(rest@) == ae as int);
        }
        let path: Vec<char> = if ae >= rest.len() || rest[ae] == '?' {
            str_to_chars("/")
        } else {
            let p = copy_chars(&rest[ae..quest]);
            proof {
                assert(p@ =~= rest@.subrange(ae as int, quest as int));
            }
            p
        };
        let pairs: Vec<Pair> = if quest >= rest.len() {
            Vec::new()
        } else {
            let qp = parse_query(&rest[quest + 1..rest.len()]);
            proof {
                assert(rest@.skip(quest + 1) =~= rest@.subrange(quest + 1, rest@.len() as int));
            }
            qp
        };
        let mut pairs = pairs;
        pairs.push((str_to_chars("host"), authority));
        proof {
            if quest >= rest@.len() {
                assert(pairs_view(pairs@) =~= Seq::<SpecPair>::empty().push(
                    ("host"@, rest@.take(ae as int)),
                ));
            } else {
                assert(pairs_view(pairs@) =~= parse_query_spec(rest@.skip(quest + 1)).push(
                    ("host"@, rest@.take(ae as int)),
                ));
            }
        }
        let r = finalize_url(path.as_slice(), &pairs, secret);
        proof {
            assert(r@ == localize_spec(u@, host@, match secret {
                Some(s) => Some(s@),
                None => None,
            }));
        }
        r
    } else if chars_ends_with(u, ".m3u8") || chars_ends_with(u, ".ts") {
        let mut pairs: Vec<Pair> = Vec::new();
        pairs.push((str_to_chars("host"), copy_chars(host)));
        proof {
            assert(pairs@.len() == 1);
            assert(pairs@[0].0@ == "host"@);
            assert(pairs@[0].1@ == host@);
            assert(pairs_view(pairs@) =~= seq![("host"@, host@)]);
        }
        finalize_url(u, &pairs, secret)
    } else {
        copy_chars(u)
    }
}

/// `find_char_from` starting anywhere before the first occurrence still
/// finds that occurrence (or the length when there is none).
proof fn lemma_find_char_from_mid(s: Seq<char>, c: char, k: int, i: int)
    requires
        0 <= k <= i <= s.len(),
        forall|j: int| k <= j < i ==> s[j] != c,
        i == s.len() || s[i] == c,
    ensures
        find_char_from(s, c, k) == i,
    decreases i - k,
{
    if k < i {
        lemma_find_char_from_mid(s, c, k + 1, i);
    }
}

/// Path of an absolute URL, as the localiser reads it.
pub open spec fn url_path_of(u: Seq<char>) -> Seq<char> {
    let rest = u.skip(8);
    let ae = url_authority_end(rest);
    let qpos = find_char_from(rest, '?', ae);
    if ae == rest.len() || rest[ae] == '?' {
        "/"@
    } else {
        rest.subrange(ae, qpos)
    }
}

/// Authority of an absolute URL, as the localiser reads it.
pub open spec fn url_authority_of(u: Seq<char>) -> Seq<char> {
    let rest = u.skip(8);
    rest.take(url_authority_end(rest))
}

/// The query pairs of the localised form of an absolute URL: its own query
/// pairs plus `host=<authority>`, key-sorted, plus the MAC pair when a
/// secret is configured.
pub open spec fn localized_pairs(u: Seq<char>, secret: Option<Seq<char>>) -> Seq<SpecPair> {
    let rest = u.skip(8);
    let ae = url_authority_end(rest);
    let qpos = find_char_from(rest, '?', ae);
    let pairs = if qpos == rest.len() {
        Seq::<SpecPair>::empty()
    } else {
        parse_query_spec(rest.skip(qpos + 1))
    };
    let augmented = pairs.push(("host"@, url_authority_of(u)));
    match secret {
        Some(sec) => sorted_map(augmented).push(
            (("qhash"@, qhash_spec(augmented, url_path_of(u), sec))),
        ),
        None => sorted_map(augmented),
    }
}

/// The inserted pair is a member of the resulting map.
proof fn lemma_map_insert_contains(p: SpecPair, l: Seq<SpecPair>)
    ensures
        exists|i: int| 0 <= i < map_insert_pair(p, l).len() && map_insert_pair(p, l)[i] == p,
    decreases l.len(),
{
    let r = map_insert_pair(p, l);
    if l.len() == 0 {
        assert(r[0] == p);
    } else if chars_lt(p.0, l[0].0) {
        assert(r[0] == p);
    } else if p.0 == l[0].0 {
        assert(r[0] == p);
    } else {
        lemma_map_insert_contains(p, l.drop_first());
        let i = choose|i: int|
            0 <= i < map_insert_pair(p, l.drop_first()).len() && map_insert_pair(
                p,
                l.drop_first(),
            )[i] == p;
        assert(r[i + 1] == p);
    }
}

/// Manifest rewriting round trip: localising an absolute `https://` URL
/// yields a URL that begins with the original URL's path and whose query
/// carries a `host=` pair holding exactly the original authority.
pub proof fn lemma_localize_round_trip(u: Seq<char>, host: Seq<char>, secret: Option<Seq<char>>)
    requires
        u.len() >= 8,
        u.take(8) == "https://"@,
    ensures
        localize_spec(u, host, secret) == url_path_of(u) + seq!['?'] + ser_query(
            localized_pairs(u, secret),
        ),
        localize_spec(u, host, secret).take(url_path_of(u).len() as int) == url_path_of(u),
        exists|i: int|
            0 <= i < localized_pairs(u, secret).len() && localized_pairs(u, secret)[i] == (
                "host"@,
                url_authority_of(u),
            ),
{
    let rest = u.skip(8);
    let ae = url_authority_end(rest);
    let qpos = find_char_from(rest, '?', ae);
    let pairs = if qpos == rest.len() {
        Seq::<SpecPair>::empty()
    } else {
        parse_query_spec(rest.skip(qpos + 1))
    };
    let authority = url_authority_of(u);
    let augmented = pairs.push(("host"@, authority));
    assert(augmented.drop_last() =~= pairs);
    assert(augmented.last() == ("host"@, authority));
    assert(sorted_map(augmented) == map_insert_pair(("host"@, authority), sorted_map(pairs)));
    lemma_map_insert_contains(("host"@, authority), sorted_map(pairs));
    let sm = sorted_map(augmented);
    let i = choose|i: int| 0 <= i < sm.len() && sm[i] == ("host"@, authority);
    assert(localized_pairs(u, secret)[i] == ("host"@, authority));
    assert(localize_spec(u, host, secret) == url_path_of(u) + seq!['?'] + ser_query(
        localized_pairs(u, secret),
    ));
    assert(localize_spec(u, host, secret).take(url_path_of(u).len() as int) =~= url_path_of(u));
}

/// A rewritten HLS manifest line.  A line carrying `URI="<https URL>"` has
/// that URL localised in place; any other line is localised as a whole,
/// which touches it only when it ends in `.m3u8` or `.ts`.
pub open spec fn hls_line_spec(line: Seq<char>, host: Seq<char>, secret: Option<Seq<char>>) -> Seq<
    char,
> {
    match crate::qhash::find_first_from(line, "URI=\""@, 0) {
        Some(i) => {
            let vstart = i + 5;
            let vend = find_char_from(line, '"', vstart);
            let url = line.subrange(vstart, vend);
            if vend < line.len() && url.len() >= 8 && url.take(8) == "https://"@ {
                line.take(vstart) + localize_spec(url, host, secret) + line.skip(vend)
            } else {
                localize_spec(line, host, secret)
            }
        },
        None => localize_spec(line, host, secret),
    }
}

/// Rewrites one HLS manifest line.
pub fn hls_line_rewrite(line: &[char], host: &[char], secret: Option<&[char]>) -> (r: Vec<char>)
    ensures
        r@ == hls_line_spec(line@, host@, match secret {
            Some(s) => Some(s@),
            None => None,
        }),
{
    proof {
        reveal_strlit("URI=\"");
        assert("URI=\""@.len() == 5);
    }
    match crate::strutil::find_str(line, "URI=\"") {
        Some(i) => {
            proof {
                crate::qhash::lemma_find_first_from_pub(line@, "URI=\""@, i as int);
                assert(i + 5 <= line@.len());
            }
            let line_len = line.len();
            let vstart = i + 5;
            let vend = find_char_or_len(&line[vstart..line.len()], '"') + vstart;
            proof {
                assert(line@.skip(vstart as int) =~= line@.subrange(
                    vstart as int,
                    line@.len() as int,
                ));
                lemma_find_shift(line@, '"', vstart as int, vend as int);
            }
            let url = &line[vstart..vend];
            proof {
                assert(url@ =~= line@.subrange(vstart as int, vend as int));
            }
            if vend < line.len() && chars_starts_with(url, "https://") {
                proof {
                    reveal_strlit("https://");
                }
                let mut out = copy_chars(&line[0..vstart]);
                let loc = localize_url_chars(url, host, secret);
                out.extend_from_slice(loc.as_slice());
                out.extend_from_slice(&line[vend..line.len()]);
                proof {
                    assert(line@.subrange(0, vstart as int) =~= line@.take(vstart as int));
                    assert(line@.subrange(vend as int, line@.len() as int) =~= line@.skip(
                        vend as int,
                    ));
                    assert(out@ =~= line@.take(vstart as int) + localize_spec(
                        line@.subrange(vstart as int, vend as int),
                        host@,
                        match secret {
                            Some(s) => Some(s@),
                            None => None,
                        },
                    ) + line@.skip(vend as int));
                }
                out
            } else {
                localize_url_chars(line, host, secret)
            }
        },
        None => {
            proof {
                crate::qhash::lemma_find_first_none_pub(line@, "URI=\""@);
            }
            localize_url_chars(line, host, secret)
        },
    }
}

/// `find_char_from` after a shift of origin.
proof fn lemma_find_shift(s: Seq<char>, c: char, base: int, r: int)
    requires
        0 <= base <= s.len(),
        r - base == find_char_from(s.skip(base), c, 0),
    ensures
        find_char_from(s, c, base) == r,
    decreases s.len() - base,
{
    lemma_find_shift_rec(s, c, base, base, r);
}

proof fn lemma_find_shift_rec(s: Seq<char>, c: char, base: int, k: int, r: int)
    requires
        0 <= base <= k <= s.len(),
        r - k == find_char_from(s.skip(k), c, 0),
    ensures
        find_char_from(s, c, k) == r,
    decreases s.len() - k,
{
    let t = s.skip(k);
    if k >= s.len() {
        assert(t.len() == 0);
    } else {
        assert(t[0] == s[k]);
        if s[k] == c {
        } else {
            assert(t.skip(1) =~= s.skip(k + 1));
            assert(find_char_from(t, c, 0) == 1 + find_char_from(t.skip(1), c, 0)) by {
                lemma_find_skip_one(t, c);
            }
            lemma_find_shift_rec(s, c, base, k + 1, r);
        }
    }
}

proof fn lemma_find_skip_one(t: Seq<char>, c: char)
    requires
        t.len() > 0,
        t[0] != c,
    ensures
        find_char_from(t, c, 0) == 1 + find_char_from(t.skip(1), c, 0),
    decreases t.len(),
{
    lemma_find_skip_rec(t, c, 1);
}

proof fn lemma_find_skip_rec(t: Seq<char>, c: char, k: int)
    requires
        1 <= k <= t.len(),
    ensures
        find_char_from(t, c, k) == 1 + find_char_from(t.skip(1), c, k - 1),
    decreases t.len() - k,
{
    if k < t.len() {
        assert(t.skip(1)[k - 1] == t[k]);
        if t[k] != c {
            lemma_find_skip_rec(t, c, k + 1);
        }
    }
}

/// A rewritten HLS manifest: every line rewritten, lines joined by `\n`.
pub open spec fn rewrite_hls_spec(
    body: Seq<char>,
    host: Seq<char>,
    secret: Option<Seq<char>>,
) -> Seq<char>
    decreases body.len(),
    via rewrite_hls_spec_decreases
{
    let nl = find_char_from(body, '\n', 0);
    if nl == body.len() {
        hls_line_spec(body, host, secret)
    } else {
        hls_line_spec(body.take(nl), host, secret) + seq!['\n'] + rewrite_hls_spec(
            body.skip(nl + 1),
            host,
            secret,
        )
    }
}

#[via_fn]
proof fn rewrite_hls_spec_decreases(body: Seq<char>, host: Seq<char>, secret: Option<Seq<char>>) {
    lemma_find_char_from_bounds(body, '\n', 0);
}

/// Rewrites an HLS manifest so that every media URL reaches the origin
/// through this proxy.
#[verifier::rlimit(100)]
pub fn rewrite_hls(body: &str, host: &str, secret: Option<&[char]>) -> (r: String)
    ensures
        r@ == rewrite_hls_spec(body@, host@, match secret {
            Some(s) => Some(s@),
            None => None,
        }),
{
    let b = str_to_chars(body);
    let h = str_to_chars(host);
    let ghost sv = match secret {
        Some(s) => Some(s@),
        None => None::<Seq<char>>,
    };
    let mut out: Vec<char> = Vec::new();
    let mut cur: usize = 0;
    proof {
        assert(b@.skip(0) =~= b@);
        assert(out@ + rewrite_hls_spec(b@.skip(0), h@, sv) =~= rewrite_hls_spec(b@, h@, sv));
    }
    loop
        invariant
            cur <= b@.len(),
            b@ == body@,
            h@ == host@,
            sv == (match secret {
                Some(s) => Some(s@),
                None => None::<Seq<char>>,
            }),
            rewrite_hls_spec(body@, host@, sv) == out@ + rewrite_hls_spec(
                b@.skip(cur as int),
                h@,
                sv,
            ),
        decreases b@.len() - cur + 1,
    {
        let ghost tail = b@.skip(cur as int);
        let rest = &b.as_slice()[cur..b.len()];
        proof {
            assert(rest@ == tail);
        }
        let nl = find_char_or_len(rest, '\n');
        let line = &rest[0..nl];
        proof {
            assert(line@ =~= tail.take(nl as int));
        }
        let lw = hls_line_rewrite(line, h.as_slice(), secret);
        out.extend_from_slice(lw.as_slice());
        if nl >= rest.len() {
            proof {
                assert(tail.take(nl as int) =~= tail);
                assert(rewrite_hls_spec(tail, h@, sv) == hls_line_spec(tail, h@, sv));
            }
            return chars_to_string(out.as_slice());
        }
        out.push('\n');
        proof {
            assert(tail.skip(nl + 1) =~= b@.skip(cur + nl + 1));
            assert(rewrite_hls_spec(tail, h@, sv) == hls_line_spec(tail.take(nl as int), h@, sv)
                + seq!['\n'] + rewrite_hls_spec(tail.skip(nl + 1), h@, sv));
            assert(out@ + rewrite_hls_spec(b@.skip(cur + nl + 1), h@, sv) =~= rewrite_hls_spec(
                body@,
                host@,
                sv,
            ));
        }
        cur = cur + nl + 1;
    }
}

/// A rewritten DASH manifest: every `<BaseURL>https://...</BaseURL>`
/// element's URL localised and XML-escaped, everything else untouched.
pub open spec fn rewrite_dash_spec(
    body: Seq<char>,
    host: Seq<char>,
    secret: Option<Seq<char>>,
) -> Seq<char>
    decreases body.len(),
    via rewrite_dash_spec_decreases
{
    match crate::qhash::find_first_from(body, "<BaseURL>"@, 0) {
        None => body,
        Some(i) => {
            let ustart = i + 9;
            let uend = find_char_from(body, '<', ustart);
            let url = body.subrange(ustart, uend);
            if uend < body.len() && url.len() >= 8 && url.take(8) == "https://"@ {
                body.take(ustart) + xml_escaped(localize_spec(url, host, secret))
                    + rewrite_dash_spec(body.skip(uend), host, secret)
            } else {
                body.take(uend) + rewrite_dash_spec(body.skip(uend), host, secret)
            }
        },
    }
}

#[via_fn]
proof fn rewrite_dash_spec_decreases(body: Seq<char>, host: Seq<char>, secret: Option<Seq<char>>) {
    proof_strlit_baseurl();
    match crate::qhash::find_first_from(body, "<BaseURL>"@, 0) {
        None => {},
        Some(i) => {
            crate::qhash::lemma_find_first_some_pub(body, "<BaseURL>"@, i);
            lemma_find_char_from_bounds(body, '<', i + 9);
        },
    }
}

/// The element opener has nine characters.
proof fn proof_strlit_baseurl()
    ensures
        "<BaseURL>"@.len() == 9,
{
    reveal_strlit("<BaseURL>");
}

/// Rewrites a DASH manifest so that every absolute base URL reaches the
/// origin through this proxy, XML-escaped in place.
#[verifier::rlimit(100)]
pub fn rewrite_dash(body: &str, host: &str, secret: Option<&[char]>) -> (r: String)
    ensures
        r@ == rewrite_dash_spec(body@, host@, match secret {
            Some(s) => Some(s@),
            None => None,
        }),
{
    let b = str_to_chars(body);
    let h = str_to_chars(host);
    let ghost sv = match secret {
        Some(s) => Some(s@),
        None => None::<Seq<char>>,
    };
    let mut out: Vec<char> = Vec::new();
    let mut cur: usize = 0;
    proof {
        assert(b@.skip(0) =~= b@);
        assert(out@ + rewrite_dash_spec(b@.skip(0), h@, sv) =~= rewrite_dash_spec(b@, h@, sv));
    }
    loop
        invariant
            cur <= b@.len(),
            b@ == body@,
            h@ == host@,
            sv == (match secret {
                Some(s) => Some(s@),
                None => None::<Seq<char>>,
            }),
            rewrite_dash_spec(body@, host@, sv) == out@ + rewrite_dash_spec(
                b@.skip(cur as int),
                h@,
                sv,
            ),
        decreases b@.len() - cur,
    {
        let ghost tail = b@.skip(cur as int);
        let rest = &b.as_slice()[cur..b.len()];
        proof {
            assert(rest@ == tail);
            proof_strlit_baseurl();
        }
        match crate::strutil::find_str(rest, "<BaseURL>") {
            None => {
                proof {
                    crate::qhash::lemma_find_first_none_pub(tail, "<BaseURL>"@);
                    assert(rewrite_dash_spec(tail, h@, sv) == tail);
                }
                out.extend_from_slice(rest);
                proof {
                    assert(out@ =~= rewrite_dash_spec(body@, host@, sv));
                }
                return chars_to_string(out.as_slice());
            },
            Some(i) => {
                proof {
                    crate::qhash::lemma_find_first_from_pub(tail, "<BaseURL>"@, i as int);
                    assert(i + 9 <= tail.len());
                }
                let ustart = i + 9;
                let uend = find_char_or_len(&rest[ustart..rest.len()], '<') + ustart;
                proof {
                    assert(rest@.skip(ustart as int) =~= rest@.subrange(
                        ustart as int,
                        rest@.len() as int,
                    ));
                    lemma_find_shift(tail, '<', ustart as int, uend as int);
                }
                let url = &rest[ustart..uend];
                proof {
                    assert(url@ =~= tail.subrange(ustart as int, uend as int));
                }
                if uend < rest.len() && chars_starts_with(url, "https://") {
                    proof {
                        reveal_strlit("https://");
                    }
                    out.extend_from_slice(&rest[0..ustart]);
                    let loc = localize_url_chars(url, h.as_slice(), secret);
                    let esc = escape_xml_chars(loc.as_slice());
                    out.extend_from_slice(esc.as_slice());
                    proof {
                        assert(rest@.subrange(0, ustart as int) =~= tail.take(ustart as int));
                        assert(tail.skip(uend as int) =~= b@.skip(cur + uend));
                        assert(rewrite_dash_spec(tail, h@, sv) == tail.take(ustart as int)
                            + xml_escaped(localize_spec(url@, h@, sv)) + rewrite_dash_spec(
                            tail.skip(uend as int),
                            h@,
                            sv,
                        ));
                        assert(out@ + rewrite_dash_spec(b@.skip(cur + uend), h@, sv)
                            =~= rewrite_dash_spec(body@, host@, sv));
                    }
                    cur = cur + uend;
                } else {
                    out.extend_from_slice(&rest[0..uend]);
                    proof {
                        assert(rest@.subrange(0, uend as int) =~= tail.take(uend as int));
                        assert(tail.skip(uend as int) =~= b@.skip(cur + uend));
                        assert(rewrite_dash_spec(tail, h@, sv) == tail.take(uend as int)
                            + rewrite_dash_spec(tail.skip(uend as int), h@, sv));
                        assert(out@ + rewrite_dash_spec(b@.skip(cur + uend), h@, sv)
                            =~= rewrite_dash_spec(body@, host@, sv));
                    }
                    cur = cur + uend;
                }
            },
        }
    }
}

} // verus!
