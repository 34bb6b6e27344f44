//! Per-URL integrity MAC.
//!
//! The MAC over a proxied URL is the first 8 hex characters of a BLAKE3
//! digest over a canonical form of the request: every `(key, value)` query
//! pair except the keys `qhash`, `range` and `rewrite`, each pair as key
//! bytes then value bytes, fed in ascending lexicographic order without
//! duplicates; then the request path, truncated just after the `/` that
//! precedes a `/range/` segment when one is present; then the shared secret.

use vstd::prelude::*;
use crate::strutil::{
    chars_eq, chars_eq_str, chars_lt, chars_lt_exec, copy_chars, find_str, lemma_chars_lt_irrefl,
    lemma_chars_lt_total, lemma_chars_lt_trans, occurs_at, str_to_chars,
};
use vstd::utf8::encode_utf8;

verus! {

/// A query pair, key and value.
pub type Pair = (Vec<char>, Vec<char>);

/// Ghost form of a query pair.
pub type SpecPair = (Seq<char>, Seq<char>);

/// View of a pair list.
pub open spec fn pairs_view(ps: Seq<Pair>) -> Seq<SpecPair> {
    ps.map_values(|p: Pair| (p.0@, p.1@))
}

/// Keys that never enter the canonical form.
pub open spec fn excluded_key(k: Seq<char>) -> bool {
    k == "qhash"@ || k == "range"@ || k == "rewrite"@
}

/// Strict lexicographic order on pairs: by key, then by value.
pub open spec fn pair_lt(a: SpecPair, b: SpecPair) -> bool {
    chars_lt(a.0, b.0) || (a.0 == b.0 && chars_lt(a.1, b.1))
}

/// Strictly ascending by `pair_lt` between neighbours.
pub open spec fn pairs_sorted(l: Seq<SpecPair>) -> bool {
    forall|i: int| 0 <= i + 1 < l.len() ==> pair_lt(#[trigger] l[i], l[i + 1])
}

/// Inserts `p` into the sorted list `l`, keeping it sorted and dropping a
/// duplicate of `p`.
pub open spec fn insert_pair(p: SpecPair, l: Seq<SpecPair>) -> Seq<SpecPair>
    decreases l.len(),
{
    if l.len() == 0 {
        seq![p]
    } else if pair_lt(p, l[0]) {
        seq![p] + l
    } else if p == l[0] {
        l
    } else {
        seq![l[0]] + insert_pair(p, l.drop_first())
    }
}

/// The canonical pair list of a query: its non-excluded pairs, sorted
/// ascending, without duplicates.
pub open spec fn canonical_pairs(ps: Seq<SpecPair>) -> Seq<SpecPair>
    decreases ps.len(),
{
    if ps.len() == 0 {
        Seq::empty()
    } else {
        let rest = canonical_pairs(ps.drop_first());
        if excluded_key(ps[0].0) {
            rest
        } else {
            insert_pair(ps[0], rest)
        }
    }
}

/// The set of pairs of `ps` that enter the canonical form.
pub open spec fn included_set(ps: Seq<SpecPair>) -> Set<SpecPair> {
    ps.to_set().filter(|p: SpecPair| !excluded_key(p.0))
}

/// UTF-8 bytes of a canonical pair list, key bytes then value bytes.
pub open spec fn pairs_bytes(l: Seq<SpecPair>) -> Seq<u8>
    decreases l.len(),
{
    if l.len() == 0 {
        Seq::empty()
    } else {
        encode_utf8(l[0].0) + encode_utf8(l[0].1) + pairs_bytes(l.drop_first())
    }
}

/// First index at or after `i` where `p` occurs in `s`.
pub open spec fn find_first_from(s: Seq<char>, p: Seq<char>, i: int) -> Option<int>
    decreases s.len() - i + 1,
{
    if i < 0 || i + p.len() > s.len() {
        None
    } else if occurs_at(s, p, i) {
        Some(i)
    } else {
        find_first_from(s, p, i + 1)
    }
}

/// The part of the path that is hashed: everything up to and including the
/// `/` that precedes the first `/range/` segment, or the whole path when no
/// such segment exists.
pub open spec fn hash_path(p: Seq<char>) -> Seq<char> {
    match find_first_from(p, "/range/"@, 0) {
        Some(i) => p.take(i + 1),
        None => p,
    }
}

/// The canonical byte string that is hashed.
pub open spec fn qhash_input(ps: Seq<SpecPair>, path: Seq<char>, secret: Seq<char>) -> Seq<u8> {
    pairs_bytes(canonical_pairs(ps)) + encode_utf8(hash_path(path)) + encode_utf8(secret)
}

/// Hex digest that `blake3::hash` assigns to a byte string.
pub uninterp spec fn blake3_hex_of(data: Seq<u8>) -> Seq<char>;

/// The MAC: the first 8 characters of the digest of the canonical form.
pub open spec fn qhash_spec(ps: Seq<SpecPair>, path: Seq<char>, secret: Seq<char>) -> Seq<char> {
    blake3_hex_of(qhash_input(ps, path, secret)).take(8)
}

/// Relies on `blake3::hash` and `blake3::Hash::to_hex`: the digest of a byte
/// string is 32 bytes, rendered as 64 lowercase hex characters, and depends
/// on the input bytes alone.
#[verifier::external_body]
fn blake3_hex(data: &[u8]) -> (r: String)
    ensures
        r@ == blake3_hex_of(data@),
        r@.len() == 64,
{
    String::from(blake3::hash(data).to_hex().as_str())
}

/// UTF-8 bytes of a character slice.
pub fn utf8_bytes(v: &[char]) -> (r: Vec<u8>)
    ensures
        r@ == encode_utf8(v@),
{
    let s = crate::strutil::chars_to_string(v);
    s.as_str().as_bytes_vec()
}

/// Is this key left out of the canonical form?
pub fn is_excluded_key(k: &[char]) -> (r: bool)
    ensures
        r == excluded_key(k@),
{
    chars_eq_str(k, "qhash") || chars_eq_str(k, "range") || chars_eq_str(k, "rewrite")
}

/// Executable pair comparison deciding `pair_lt`.
fn pair_lt_exec(a: &Pair, b: &Pair) -> (r: bool)
    ensures
        r == pair_lt((a.0@, a.1@), (b.0@, b.1@)),
{
    if chars_lt_exec(a.0.as_slice(), b.0.as_slice()) {
        true
    } else if chars_eq(a.0.as_slice(), b.0.as_slice()) {
        chars_lt_exec(a.1.as_slice(), b.1.as_slice())
    } else {
        false
    }
}

/// Inserts `p` into the sorted vector `l` as `insert_pair` prescribes.
fn insert_pair_exec(p: Pair, l: &mut Vec<Pair>)
    ensures
        pairs_view(final(l)@) == insert_pair((p.0@, p.1@), pairs_view(old(l)@)),
{
    let ghost pv = (p.0@, p.1@);
    let ghost lv = pairs_view(l@);
    let mut j: usize = 0;
    proof {
        assert(lv.take(0) =~= Seq::<SpecPair>::empty());
        assert(lv.skip(0) =~= lv);
        assert(lv.take(0) + insert_pair(pv, lv.skip(0)) =~= insert_pair(pv, lv));
    }
    loop
        invariant
            j <= l@.len(),
            lv == pairs_view(l@),
            lv == pairs_view(old(l)@),
            pv == (p.0@, p.1@),
            insert_pair(pv, lv) == lv.take(j as int) + insert_pair(pv, lv.skip(j as int)),
        decreases l@.len() - j,
    {
        proof {
            assert(lv.skip(0) =~= lv);
            if j < l@.len() {
                assert(lv.skip(j as int)[0] == lv[j as int]);
                assert(lv.skip(j as int).drop_first() =~= lv.skip(j + 1));
            }
        }
        if j >= l.len() {
            proof {
                assert(insert_pair(pv, lv.skip(j as int)) == seq![pv]);
            }
            l.push(p);
            proof {
                assert(pairs_view(l@) =~= lv.take(lv.len() as int) + seq![pv]);
                assert(insert_pair(pv, lv) =~= lv.take(lv.len() as int) + seq![pv]);
            }
            return ;
        }
        if pair_lt_exec(&p, &l[j]) {
            proof {
                assert(insert_pair(pv, lv.skip(j as int)) == seq![pv] + lv.skip(j as int));
            }
            l.insert(j, p);
            proof {
                assert(pairs_view(l@) =~= lv.take(j as int) + (seq![pv] + lv.skip(j as int)));
            }
            return ;
        }
        if chars_eq(p.0.as_slice(), l[j].0.as_slice()) && chars_eq(
            p.1.as_slice(),
            l[j].1.as_slice(),
        ) {
            proof {
                assert(pv == lv[j as int]);
                assert(insert_pair(pv, lv.skip(j as int)) == lv.skip(j as int));
                assert(pairs_view(l@) =~= lv.take(j as int) + lv.skip(j as int));
            }
            return ;
        }
        proof {
            assert(pv != lv[j as int]);
            assert(insert_pair(pv, lv.skip(j as int)) == seq![lv[j as int]] + insert_pair(
                pv,
                lv.skip(j + 1),
            ));
            assert(lv.take(j as int) + (seq![lv[j as int]] + insert_pair(pv, lv.skip(j + 1)))
                =~= lv.take(j + 1) + insert_pair(pv, lv.skip(j + 1)));
        }
        j = j + 1;
    }
}

/// Copies a query pair.
fn clone_pair(p: &Pair) -> (r: Pair)
    ensures
        r.0@ == p.0@,
        r.1@ == p.1@,
{
    (copy_chars(p.0.as_slice()), copy_chars(p.1.as_slice()))
}

/// Builds the canonical pair list of a query.
pub fn canonicalize_pairs(ps: &Vec<Pair>) -> (r: Vec<Pair>)
    ensures
        pairs_view(r@) == canonical_pairs(pairs_view(ps@)),
{
    let ghost full = pairs_view(ps@);
    let mut acc: Vec<Pair> = Vec::new();
    let mut i = ps.len();
    proof {
        assert(full.skip(full.len() as int) =~= Seq::<SpecPair>::empty());
        assert(pairs_view(acc@) =~= Seq::<SpecPair>::empty());
    }
    while i > 0
        invariant
            i <= ps@.len(),
            full == pairs_view(ps@),
            pairs_view(acc@) == canonical_pairs(full.skip(i as int)),
        decreases i,
    {
        i = i - 1;
        let p = clone_pair(&ps[i]);
        let ghost pv = (p.0@, p.1@);
        proof {
            assert(pv == full[i as int]);
            assert(full.skip(i as int)[0] == full[i as int]);
            assert(full.skip(i as int).drop_first() =~= full.skip(i + 1));
        }
        if !is_excluded_key(p.0.as_slice()) {
            insert_pair_exec(p, &mut acc);
        }
    }
    proof {
        assert(full.skip(0) =~= full);
    }
    acc
}

/// Computes the canonical byte string for the given query pairs, path and
/// secret.
pub fn qhash_input_exec(ps: &Vec<Pair>, path: &[char], secret: &[char]) -> (r: Vec<u8>)
    ensures
        r@ == qhash_input(pairs_view(ps@), path@, secret@),
{
    let ghost psv = pairs_view(ps@);
    let canon = canonicalize_pairs(ps);
    let ghost cv = pairs_view(canon@);
    let mut out: Vec<u8> = Vec::new();
    let mut i: usize = 0;
    proof {
        assert(out@ =~= pairs_bytes(cv.take(0)));
    }
    while i < canon.len()
        invariant
            i <= canon@.len(),
            cv == pairs_view(canon@),
            out@ == pairs_bytes(cv.take(i as int)),
        decreases canon@.len() - i,
    {
        let kb = utf8_bytes(canon[i].0.as_slice());
        let vb = utf8_bytes(canon[i].1.as_slice());
        out.extend_from_slice(kb.as_slice());
        out.extend_from_slice(vb.as_slice());
        proof {
            lemma_pairs_bytes_take(cv, i as int);
            assert(out@ =~= pairs_bytes(cv.take(i + 1)));
        }
        i = i + 1;
    }
    proof {
        assert(cv.take(cv.len() as int) =~= cv);
    }
    // the path, truncated before a `/range/` segment
    proof {
        reveal_strlit("/range/");
    }
    let path_len = path.len();
    let cut = match find_str(path, "/range/") {
        Some(i) => {
            proof {
                lemma_find_first_from(path@, "/range/"@, i as int);
                assert(i + 7 <= path@.len());
                assert(path@.len() == path_len);
            }
            i + 1
        },
        None => {
            proof {
                lemma_find_first_none(path@, "/range/"@);
            }
            path.len()
        },
    };
    let pb = utf8_bytes(&path[0..cut]);
    out.extend_from_slice(pb.as_slice());
    let sb = utf8_bytes(secret);
    out.extend_from_slice(sb.as_slice());
    proof {
        assert(path@.subrange(0, cut as int) =~= hash_path(path@));
        assert(out@ =~= qhash_input(psv, path@, secret@));
    }
    out
}

/// Appending one pair's bytes extends the canonical byte string.
proof fn lemma_pairs_bytes_take(l: Seq<SpecPair>, i: int)
    requires
        0 <= i < l.len(),
    ensures
        pairs_bytes(l.take(i + 1)) == pairs_bytes(l.take(i)) + encode_utf8(l[i].0) + encode_utf8(
            l[i].1,
        ),
    decreases i,
{
    if i == 0 {
        let t1 = l.take(1);
        assert(t1.drop_first() =~= Seq::<SpecPair>::empty());
        assert(t1[0] == l[0]);
        assert(pairs_bytes(t1) == encode_utf8(t1[0].0) + encode_utf8(t1[0].1) + pairs_bytes(
            t1.drop_first(),
        ));
        assert(pairs_bytes(t1.drop_first()) == Seq::<u8>::empty());
        assert(l.take(0) =~= Seq::<SpecPair>::empty());
        assert(pairs_bytes(l.take(0)) == Seq::<u8>::empty());
        assert(pairs_bytes(t1) =~= pairs_bytes(l.take(0)) + encode_utf8(l[0].0) + encode_utf8(
            l[0].1,
        ));
    } else {
        lemma_pairs_bytes_take(l.drop_first(), i - 1);
        assert(l.take(i + 1).drop_first() =~= l.drop_first().take(i));
        assert(l.take(i).drop_first() =~= l.drop_first().take(i - 1));
        assert(l.take(i + 1)[0] == l[0]);
        assert(l.take(i)[0] == l[0]);
        assert(l.drop_first()[i - 1] == l[i]);
        assert(pairs_bytes(l.take(i + 1)) =~= pairs_bytes(l.take(i)) + encode_utf8(l[i].0)
            + encode_utf8(l[i].1));
    }
}

/// `find_str`'s least occurrence is `find_first_from`'s result.
pub proof fn lemma_find_first_from_pub(s: Seq<char>, p: Seq<char>, i: int)
    requires
        occurs_at(s, p, i),
        forall|j: int| 0 <= j < i ==> !occurs_at(s, p, j),
    ensures
        find_first_from(s, p, 0) == Some(i),
{
    lemma_find_first_from_rec(s, p, 0, i);
}

/// When no occurrence exists, `find_first_from` finds none.
pub proof fn lemma_find_first_none_pub(s: Seq<char>, p: Seq<char>)
    requires
        forall|j: int| !occurs_at(s, p, j),
    ensures
        find_first_from(s, p, 0) == None::<int>,
{
    lemma_find_first_none_rec(s, p, 0);
}

/// `find_str`'s least occurrence is `find_first_from`'s result.
proof fn lemma_find_first_from(s: Seq<char>, p: Seq<char>, i: int)
    requires
        occurs_at(s, p, i),
        forall|j: int| 0 <= j < i ==> !occurs_at(s, p, j),
    ensures
        find_first_from(s, p, 0) == Some(i),
{
    lemma_find_first_from_rec(s, p, 0, i);
}

proof fn lemma_find_first_from_rec(s: Seq<char>, p: Seq<char>, k: int, i: int)
    requires
        0 <= k <= i,
        occurs_at(s, p, i),
        forall|j: int| k <= j < i ==> !occurs_at(s, p, j),
    ensures
        find_first_from(s, p, k) == Some(i),
    decreases i - k,
{
    if k < i {
        lemma_find_first_from_rec(s, p, k + 1, i);
    }
}

/// When no occurrence exists, `find_first_from` finds none.
proof fn lemma_find_first_none(s: Seq<char>, p: Seq<char>)
    requires
        forall|j: int| !occurs_at(s, p, j),
    ensures
        find_first_from(s, p, 0) == None::<int>,
{
    lemma_find_first_none_rec(s, p, 0);
}

proof fn lemma_find_first_none_rec(s: Seq<char>, p: Seq<char>, k: int)
    requires
        0 <= k,
        forall|j: int| !occurs_at(s, p, j),
    ensures
        find_first_from(s, p, k) == None::<int>,
    decreases s.len() - k + 1,
{
    if !(k < 0 || k + p.len() > s.len()) {
        lemma_find_first_none_rec(s, p, k + 1);
    }
}

/// Computes the MAC for a request: the first 8 hex characters of the digest
/// of the canonical form.
pub fn compute_qhash(ps: &Vec<Pair>, path: &[char], secret: &[char]) -> (r: Vec<char>)
    ensures
        r@ == qhash_spec(pairs_view(ps@), path@, secret@),
        r@.len() == 8,
{
    let input = qhash_input_exec(ps, path, secret);
    let hex = blake3_hex(input.as_slice());
    let hex_chars = str_to_chars(hex.as_str());
    let r = copy_chars(&hex_chars.as_slice()[0..8]);
    proof {
        assert(r@ =~= qhash_spec(pairs_view(ps@), path@, secret@));
    }
    r
}

/// Verifies an inbound MAC: true exactly when `given` equals the MAC of the
/// canonical form.  A `given` of the wrong length never matches.
pub fn verify_qhash(ps: &Vec<Pair>, path: &[char], given: &[char], secret: &[char]) -> (r: bool)
    ensures
        r == (given@ == qhash_spec(pairs_view(ps@), path@, secret@)),
{
    let expect = compute_qhash(ps, path, secret);
    chars_eq(given, expect.as_slice())
}

/// `pair_lt` is transitive.
pub proof fn lemma_pair_lt_trans(a: SpecPair, b: SpecPair, c: SpecPair)
    requires
        pair_lt(a, b),
        pair_lt(b, c),
    ensures
        pair_lt(a, c),
{
    if a.0 == b.0 && b.0 == c.0 {
        lemma_chars_lt_irrefl(a.0);
        lemma_chars_lt_trans(a.1, b.1, c.1);
    } else if chars_lt(a.0, b.0) && chars_lt(b.0, c.0) {
        lemma_chars_lt_trans(a.0, b.0, c.0);
    }
}

/// `pair_lt` is a total order: incomparable pairs are equal.
pub proof fn lemma_pair_lt_total(a: SpecPair, b: SpecPair)
    requires
        !pair_lt(a, b),
        !pair_lt(b, a),
    ensures
        a == b,
{
    lemma_chars_lt_total(a.0, b.0);
    lemma_chars_lt_total(a.1, b.1);
}

/// `pair_lt` is irreflexive.
pub proof fn lemma_pair_lt_irrefl(a: SpecPair)
    ensures
        !pair_lt(a, a),
{
    lemma_chars_lt_irrefl(a.0);
    lemma_chars_lt_irrefl(a.1);
}

/// Every position of every pair of a sorted list is ordered.
pub open spec fn pairs_sorted_full(l: Seq<SpecPair>) -> bool {
    forall|i: int, j: int| 0 <= i < j < l.len() ==> pair_lt(#[trigger] l[i], #[trigger] l[j])
}

/// Membership in the result of an insertion.
proof fn lemma_insert_pair_contains(p: SpecPair, l: Seq<SpecPair>, x: SpecPair)
    ensures
        insert_pair(p, l).contains(x) <==> (l.contains(x) || x == p),
    decreases l.len(),
{
    let r = insert_pair(p, l);
    if l.len() == 0 {
        assert(r == seq![p]);
        assert(r.contains(x) <==> x == p) by {
            if x == p {
                assert(r[0] == p);
            }
        }
        assert(!l.contains(x));
    } else if pair_lt(p, l[0]) {
        assert(r == seq![p] + l);
        assert(r.contains(x) <==> (l.contains(x) || x == p)) by {
            if x == p {
                assert(r[0] == p);
            }
            if l.contains(x) {
                let i = choose|i: int| 0 <= i < l.len() && l[i] == x;
                assert(r[i + 1] == x);
            }
            if r.contains(x) {
                let i = choose|i: int| 0 <= i < r.len() && r[i] == x;
                if i == 0 {
                } else {
                    assert(l[i - 1] == x);
                }
            }
        }
    } else if p == l[0] {
        assert(r == l);
        if x == p {
            assert(l[0] == x);
        }
    } else {
        lemma_insert_pair_contains(p, l.drop_first(), x);
        assert(r == seq![l[0]] + insert_pair(p, l.drop_first()));
        let rr = insert_pair(p, l.drop_first());
        assert(r.contains(x) <==> (l.contains(x) || x == p)) by {
            if r.contains(x) {
                let i = choose|i: int| 0 <= i < r.len() && r[i] == x;
                if i == 0 {
                    assert(l[0] == x);
                } else {
                    assert(rr[i - 1] == x);
                    assert(rr.contains(x));
                    if x != p {
                        let j = choose|j: int| 0 <= j < l.drop_first().len() && l.drop_first()[j]
                            == x;
                        assert(l[j + 1] == x);
                    }
                }
            }
            if l.contains(x) {
                let i = choose|i: int| 0 <= i < l.len() && l[i] == x;
                if i == 0 {
                    assert(r[0] == x);
                } else {
                    assert(l.drop_first()[i - 1] == x);
                    assert(l.drop_first().contains(x));
                    assert(rr.contains(x));
                    let j = choose|j: int| 0 <= j < rr.len() && rr[j] == x;
                    assert(r[j + 1] == x);
                }
            }
            if x == p {
                assert(rr.contains(x));
                let j = choose|j: int| 0 <= j < rr.len() && rr[j] == x;
                assert(r[j + 1] == x);
            }
        }
    }
}

/// Insertion preserves strict sortedness.
proof fn lemma_insert_pair_sorted(p: SpecPair, l: Seq<SpecPair>)
    requires
        pairs_sorted_full(l),
    ensures
        pairs_sorted_full(insert_pair(p, l)),
    decreases l.len(),
{
    let r = insert_pair(p, l);
    if l.len() == 0 {
    } else if pair_lt(p, l[0]) {
        assert(r == seq![p] + l);
        assert forall|i: int, j: int| 0 <= i < j < r.len() implies pair_lt(r[i], r[j]) by {
            if i == 0 {
                if j == 1 {
                    assert(r[j] == l[0]);
                } else {
                    lemma_pair_lt_trans(p, l[0], l[j - 1]);
                }
            } else {
                assert(r[i] == l[i - 1] && r[j] == l[j - 1]);
            }
        }
    } else if p == l[0] {
    } else {
        lemma_pair_lt_irrefl(p);
        if !pair_lt(l[0], p) {
            lemma_pair_lt_total(p, l[0]);
            assert(false);
        }
        assert(pair_lt(l[0], p));
        assert(pairs_sorted_full(l.drop_first())) by {
            assert(forall|i: int, j: int|
                0 <= i < j < l.drop_first().len() ==> l.drop_first()[i] == l[i + 1]
                    && l.drop_first()[j] == l[j + 1]);
        }
        lemma_insert_pair_sorted(p, l.drop_first());
        let rr = insert_pair(p, l.drop_first());
        assert(r == seq![l[0]] + rr);
        assert forall|i: int, j: int| 0 <= i < j < r.len() implies pair_lt(r[i], r[j]) by {
            if i == 0 {
                assert(r[j] == rr[j - 1]);
                assert(rr.contains(rr[j - 1]));
                lemma_insert_pair_contains(p, l.drop_first(), rr[j - 1]);
                if rr[j - 1] == p {
                } else {
                    let k = choose|k: int|
                        0 <= k < l.drop_first().len() && l.drop_first()[k] == rr[j - 1];
                    assert(l[k + 1] == rr[j - 1]);
                    assert(pair_lt(l[0], l[k + 1]));
                }
            } else {
                assert(r[i] == rr[i - 1] && r[j] == rr[j - 1]);
            }
        }
    }
}

/// Two strictly sorted lists with the same members are the same list.
proof fn lemma_sorted_unique(a: Seq<SpecPair>, b: Seq<SpecPair>)
    requires
        pairs_sorted_full(a),
        pairs_sorted_full(b),
        forall|x: SpecPair| a.contains(x) <==> b.contains(x),
    ensures
        a == b,
    decreases a.len(),
{
    if a.len() == 0 {
        if b.len() > 0 {
            assert(b.contains(b[0]));
            assert(a.contains(b[0]));
            assert(false);
        }
        assert(a =~= b);
    } else {
        assert(a.contains(a[0]));
        assert(b.contains(a[0]));
        if b.len() == 0 {
            assert(false);
        }
        let j = choose|j: int| 0 <= j < b.len() && b[j] == a[0];
        let i = choose|i: int| 0 <= i < a.len() && a[i] == b[0];
        assert(a.contains(b[0]));
        if j > 0 {
            assert(pair_lt(b[0], b[j]));
            if i > 0 {
                assert(pair_lt(a[0], a[i]));
                lemma_pair_lt_trans(a[0], b[0], a[0]);
                lemma_pair_lt_irrefl(a[0]);
                assert(false);
            } else {
                lemma_pair_lt_irrefl(b[0]);
                assert(false);
            }
        }
        assert(b[0] == a[0]);
        let at = a.drop_first();
        let bt = b.drop_first();
        assert(pairs_sorted_full(at)) by {
            assert(forall|i: int, j: int|
                0 <= i < j < at.len() ==> at[i] == a[i + 1] && at[j] == a[j + 1]);
        }
        assert(pairs_sorted_full(bt)) by {
            assert(forall|i: int, j: int|
                0 <= i < j < bt.len() ==> bt[i] == b[i + 1] && bt[j] == b[j + 1]);
        }
        assert forall|x: SpecPair| at.contains(x) implies bt.contains(x) by {
            lemma_tail_contains(a, b, x);
        }
        assert forall|x: SpecPair| bt.contains(x) implies at.contains(x) by {
            lemma_tail_contains(b, a, x);
        }
        lemma_sorted_unique(at, bt);
        assert(a =~= seq![a[0]] + at);
        assert(b =~= seq![b[0]] + bt);
    }
}

/// A member of the tail of one sorted list is a member of the other's tail.
proof fn lemma_tail_contains(a: Seq<SpecPair>, b: Seq<SpecPair>, x: SpecPair)
    requires
        a.len() > 0,
        b.len() > 0,
        a[0] == b[0],
        pairs_sorted_full(a),
        pairs_sorted_full(b),
        forall|y: SpecPair| a.contains(y) <==> b.contains(y),
        a.drop_first().contains(x),
    ensures
        b.drop_first().contains(x),
{
    let m = choose|m: int| 0 <= m < a.drop_first().len() && a.drop_first()[m] == x;
    assert(a[m + 1] == x);
    assert(a.contains(x));
    assert(b.contains(x));
    let k = choose|k: int| 0 <= k < b.len() && b[k] == x;
    if k == 0 {
        assert(x == a[0]);
        assert(pair_lt(a[0], a[m + 1]));
        lemma_pair_lt_irrefl(x);
        assert(false);
    }
    assert(b.drop_first()[k - 1] == x);
}

/// The canonical list is strictly sorted and holds exactly the non-excluded
/// pairs of the query.
pub proof fn lemma_canonical_members(ps: Seq<SpecPair>)
    ensures
        pairs_sorted_full(canonical_pairs(ps)),
        forall|x: SpecPair|
            canonical_pairs(ps).contains(x) <==> (ps.contains(x) && !excluded_key(x.0)),
    decreases ps.len(),
{
    if ps.len() == 0 {
    } else {
        lemma_canonical_members(ps.drop_first());
        let rest = canonical_pairs(ps.drop_first());
        if excluded_key(ps[0].0) {
            assert forall|x: SpecPair|
                canonical_pairs(ps).contains(x) <==> (ps.contains(x) && !excluded_key(x.0)) by {
                lemma_head_contains(ps, x);
            }
        } else {
            lemma_insert_pair_sorted(ps[0], rest);
            assert forall|x: SpecPair|
                canonical_pairs(ps).contains(x) <==> (ps.contains(x) && !excluded_key(x.0)) by {
                lemma_insert_pair_contains(ps[0], rest, x);
                lemma_head_contains(ps, x);
            }
        }
    }
}

/// Membership in a list, split at its head.
proof fn lemma_head_contains(ps: Seq<SpecPair>, x: SpecPair)
    requires
        ps.len() > 0,
    ensures
        ps.contains(x) <==> (x == ps[0] || ps.drop_first().contains(x)),
{
    if ps.contains(x) {
        let i = choose|i: int| 0 <= i < ps.len() && ps[i] == x;
        if i > 0 {
            assert(ps.drop_first()[i - 1] == x);
        }
    }
    if ps.drop_first().contains(x) {
        let i = choose|i: int| 0 <= i < ps.drop_first().len() && ps.drop_first()[i] == x;
        assert(ps[i + 1] == x);
    }
    if x == ps[0] {
        assert(ps.contains(x));
    }
}

/// Reordering the query pairs does not change the MAC: two queries with the
/// same set of pairs have the same canonical form and therefore the same
/// MAC, whatever order the pairs arrived in.
pub proof fn lemma_qhash_reorder(
    ps1: Seq<SpecPair>,
    ps2: Seq<SpecPair>,
    path: Seq<char>,
    secret: Seq<char>,
)
    requires
        forall|x: SpecPair| ps1.contains(x) <==> ps2.contains(x),
    ensures
        canonical_pairs(ps1) == canonical_pairs(ps2),
        qhash_spec(ps1, path, secret) == qhash_spec(ps2, path, secret),
{
    lemma_canonical_members(ps1);
    lemma_canonical_members(ps2);
    assert forall|x: SpecPair|
        canonical_pairs(ps1).contains(x) <==> canonical_pairs(ps2).contains(x) by {
        assert(canonical_pairs(ps1).contains(x) <==> (ps1.contains(x) && !excluded_key(x.0)));
        assert(canonical_pairs(ps2).contains(x) <==> (ps2.contains(x) && !excluded_key(x.0)));
        assert(ps1.contains(x) <==> ps2.contains(x));
    }
    lemma_sorted_unique(canonical_pairs(ps1), canonical_pairs(ps2));
}

/// Adding a pair with one of the excluded keys `qhash`, `range` or
/// `rewrite` does not change the MAC.
pub proof fn lemma_qhash_excluded(
    ps: Seq<SpecPair>,
    p: SpecPair,
    path: Seq<char>,
    secret: Seq<char>,
)
    requires
        excluded_key(p.0),
    ensures
        qhash_spec(ps.push(p), path, secret) == qhash_spec(ps, path, secret),
{
    lemma_canonical_members(ps);
    lemma_canonical_members(ps.push(p));
    assert forall|x: SpecPair|
        canonical_pairs(ps.push(p)).contains(x) <==> canonical_pairs(ps).contains(x) by {
        if ps.push(p).contains(x) && !excluded_key(x.0) {
            let i = choose|i: int| 0 <= i < ps.push(p).len() && ps.push(p)[i] == x;
            assert(i < ps.len());
            assert(ps[i] == x);
        }
        if ps.contains(x) {
            let i = choose|i: int| 0 <= i < ps.len() && ps[i] == x;
            assert(ps.push(p)[i] == x);
        }
    }
    lemma_sorted_unique(canonical_pairs(ps.push(p)), canonical_pairs(ps));
}

/// Truncating the path at the `/` before its first `/range/` segment does
/// not change the MAC: the MAC of a path equals the MAC of its hashed form.
pub proof fn lemma_qhash_path_truncation(ps: Seq<SpecPair>, path: Seq<char>, secret: Seq<char>)
    ensures
        qhash_spec(ps, path, secret) == qhash_spec(ps, hash_path(path), secret),
{
    let pat = "/range/"@;
    proof_strlit_range();
    match find_first_from(path, pat, 0) {
        Some(i) => {
            lemma_find_first_some(path, pat, 0, i);
            let q = path.take(i + 1);
            assert(hash_path(path) == q);
            assert forall|j: int| !occurs_at(q, pat, j) by {
                if occurs_at(q, pat, j) {
                    assert(j + pat.len() <= i + 1);
                    assert(j < i);
                    assert(q.subrange(j, j + pat.len()) =~= path.subrange(j, j + pat.len()));
                    assert(occurs_at(path, pat, j));
                    assert(false);
                }
            }
            lemma_find_first_none(q, pat);
            assert(hash_path(q) == q);
        },
        None => {},
    }
}

/// The pattern `/range/` has seven characters.
proof fn proof_strlit_range()
    ensures
        "/range/"@.len() == 7,
{
    reveal_strlit("/range/");
}

/// A found occurrence is the least one.
pub proof fn lemma_find_first_some_pub(s: Seq<char>, p: Seq<char>, i: int)
    requires
        find_first_from(s, p, 0) == Some(i),
    ensures
        0 <= i,
        occurs_at(s, p, i),
    decreases s.len(),
{
    lemma_find_first_some(s, p, 0, i);
}

/// A found occurrence is the least one.
proof fn lemma_find_first_some(s: Seq<char>, p: Seq<char>, k: int, i: int)
    requires
        find_first_from(s, p, k) == Some(i),
        0 <= k,
    ensures
        k <= i,
        occurs_at(s, p, i),
        forall|j: int| k <= j < i ==> !occurs_at(s, p, j),
    decreases s.len() - k + 1,
{
    if !(k < 0 || k + p.len() > s.len()) {
        if !occurs_at(s, p, k) {
            lemma_find_first_some(s, p, k + 1, i);
        }
    }
}

} // verus!
