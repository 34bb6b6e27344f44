//! Character-sequence utilities: conversions between `String` and
//! `Vec<char>`, equality and search helpers, decimal parsing and formatting,
//! and lexicographic comparison.  All URL, query and header logic of this
//! crate works over `Vec<char>` values so that every step is verified; these
//! are the shared building blocks.

use vstd::prelude::*;

verus! {

/// Relies on `str::chars`: iterating a string slice yields exactly the
/// characters of its view, in order.
#[verifier::external_body]
pub fn str_to_chars(s: &str) -> (r: Vec<char>)
    ensures
        r@ == s@,
{
    s.chars().collect()
}

/// Relies on `String::from_iter` over `char`: collecting characters builds
/// the string holding exactly those characters, in order.
#[verifier::external_body]
pub fn chars_to_string(v: &[char]) -> (r: String)
    ensures
        r@ == v@,
{
    v.iter().collect()
}

/// Character-wise equality of a character slice and a string slice.
pub fn chars_eq_str(a: &[char], b: &str) -> (r: bool)
    ensures
        r == (a@ == b@),
{
    let blen = b.unicode_len();
    if a.len() != blen {
        proof {
            assert(a@.len() != b@.len());
        }
        return false;
    }
    let mut i: usize = 0;
    while i < blen
        invariant
            i <= blen,
            a@.len() == blen,
            b@.len() == blen,
            forall|j: int| 0 <= j < i ==> a@[j] == b@[j],
        decreases blen - i,
    {
        if a[i] != b.get_char(i) {
            proof {
                assert(a@[i as int] != b@[i as int]);
            }
            return false;
        }
        i = i + 1;
    }
    proof {
        assert(a@ =~= b@);
    }
    true
}

/// Character-wise equality of two character slices.
pub fn chars_eq(a: &[char], b: &[char]) -> (r: bool)
    ensures
        r == (a@ == b@),
{
    if a.len() != b.len() {
        proof {
            assert(a@.len() != b@.len());
        }
        return false;
    }
    let mut i: usize = 0;
    while i < a.len()
        invariant
            i <= a@.len(),
            a@.len() == b@.len(),
            forall|j: int| 0 <= j < i ==> a@[j] == b@[j],
        decreases a@.len() - i,
    {
        if a[i] != b[i] {
            return false;
        }
        i = i + 1;
    }
    proof {
        assert(a@ =~= b@);
    }
    true
}

/// Copies a character slice into a fresh vector.
pub fn copy_chars(a: &[char]) -> (r: Vec<char>)
    ensures
        r@ == a@,
{
    let mut r: Vec<char> = Vec::new();
    r.extend_from_slice(a);
    proof {
        assert(r@ =~= a@);
    }
    r
}

/// True when `a` begins with the characters of `b`.
pub fn chars_starts_with(a: &[char], b: &str) -> (r: bool)
    ensures
        r == (a@.len() >= b@.len() && a@.take(b@.len() as int) == b@),
{
    let blen = b.unicode_len();
    if a.len() < blen {
        return false;
    }
    let r = chars_eq_str(&a[0..blen], b);
    proof {
        assert(a@.subrange(0, blen as int) =~= a@.take(b@.len() as int));
    }
    r
}

/// True when `a` ends with the characters of `b`.
pub fn chars_ends_with(a: &[char], b: &str) -> (r: bool)
    ensures
        r == (a@.len() >= b@.len() && a@.skip(a@.len() - b@.len()) == b@),
{
    let blen = b.unicode_len();
    if a.len() < blen {
        return false;
    }
    let r = chars_eq_str(&a[a.len() - blen..a.len()], b);
    proof {
        assert(a@.subrange(a@.len() - blen, a@.len() as int) =~= a@.skip(a@.len() - b@.len()));
    }
    r
}

/// The characters of `p` occur in `s` at position `i`.
pub open spec fn occurs_at(s: Seq<char>, p: Seq<char>, i: int) -> bool {
    0 <= i && i + p.len() <= s.len() && s.subrange(i, i + p.len()) == p
}

/// Finds the first occurrence of `pat` inside `s`.
pub fn find_str(s: &[char], pat: &str) -> (r: Option<usize>)
    ensures
        match r {
            Some(i) => occurs_at(s@, pat@, i as int) && forall|j: int|
                0 <= j < i ==> !occurs_at(s@, pat@, j),
            None => forall|j: int| !occurs_at(s@, pat@, j),
        },
{
    let plen = pat.unicode_len();
    if plen > s.len() {
        return None;
    }
    if plen == 0 {
        proof {
            assert(s@.subrange(0, 0) =~= pat@);
        }
        return Some(0);
    }
    let slen = s.len();
    let end = slen - plen;
    let mut i: usize = 0;
    while i <= end
        invariant
            plen == pat@.len(),
            plen >= 1,
            slen == s@.len(),
            end == s@.len() - plen,
            i <= end + 1,
            forall|j: int| 0 <= j < i ==> !occurs_at(s@, pat@, j),
        decreases end + 1 - i,
    {
        if chars_eq_str(&s[i..i + plen], pat) {
            proof {
                assert(s@.subrange(i as int, i + plen) =~= s@.subrange(i as int, i + pat@.len()));
            }
            return Some(i);
        }
        proof {
            assert(s@.subrange(i as int, i + plen as int) =~= s@.subrange(
                i as int,
                i + pat@.len(),
            ));
            assert(!occurs_at(s@, pat@, i as int));
        }
        i = i + 1;
    }
    None
}

/// Distinct characters have distinct Unicode scalar values.
pub proof fn lemma_char_injective(c1: char, c2: char)
    requires
        c1 as u32 == c2 as u32,
    ensures
        c1 == c2,
{
}

/// Finds the first occurrence of the character `c` in `s`.
pub fn find_char(s: &[char], c: char) -> (r: Option<usize>)
    ensures
        match r {
            Some(i) => i < s@.len() && s@[i as int] == c && forall|j: int|
                0 <= j < i ==> s@[j] != c,
            None => forall|j: int| 0 <= j < s@.len() ==> s@[j] != c,
        },
{
    let mut i: usize = 0;
    while i < s.len()
        invariant
            i <= s@.len(),
            forall|j: int| 0 <= j < i ==> s@[j] != c,
        decreases s@.len() - i,
    {
        if s[i] == c {
            return Some(i);
        }
        i = i + 1;
    }
    None
}

/// The decimal digit characters `'0'..='9'`.
pub open spec fn is_digit(c: char) -> bool {
    48 <= c as u32 <= 57
}

/// All characters of `s` are decimal digits and there is at least one.
pub open spec fn all_digits(s: Seq<char>) -> bool {
    s.len() > 0 && forall|i: int| 0 <= i < s.len() ==> is_digit(#[trigger] s[i])
}

/// Numeric value of a sequence of decimal digit characters.
pub open spec fn dec_value(s: Seq<char>) -> nat
    decreases s.len(),
{
    if s.len() == 0 {
        0
    } else {
        dec_value(s.drop_last()) * 10 + (s.last() as u32 - 48) as nat
    }
}

/// Digit character for a value below ten.
pub open spec fn digit_char(d: nat) -> char {
    ((d + 48) as u8) as char
}

/// Decimal representation of `n`, most significant digit first, no sign and
/// no leading zeros (`0` is written as one digit).
pub open spec fn dec_repr(n: nat) -> Seq<char>
    decreases n,
{
    if n < 10 {
        seq![digit_char(n)]
    } else {
        dec_repr(n / 10) + seq![digit_char(n % 10)]
    }
}

/// Appending one digit multiplies the value by ten and adds the digit.
proof fn lemma_dec_value_push(s: Seq<char>, c: char)
    requires
        is_digit(c),
    ensures
        dec_value(s.push(c)) == dec_value(s) * 10 + (c as u32 - 48),
{
    assert(s.push(c).drop_last() =~= s);
    assert(s.push(c).last() == c);
}

/// A prefix of a digit string never exceeds the whole string's value.
proof fn lemma_dec_value_take_le(s: Seq<char>, i: int)
    requires
        0 <= i <= s.len(),
        forall|k: int| 0 <= k < s.len() ==> is_digit(#[trigger] s[k]),
    ensures
        dec_value(s.take(i)) <= dec_value(s),
    decreases s.len() - i,
{
    if i < s.len() {
        lemma_dec_value_take_le(s, i + 1);
        assert(s.take(i + 1).drop_last() =~= s.take(i));
        assert(dec_value(s.take(i + 1)) == dec_value(s.take(i)) * 10 + (s[i] as u32 - 48));
        assert(dec_value(s.take(i)) <= dec_value(s.take(i)) * 10) by (nonlinear_arith);
    } else {
        assert(s.take(i) =~= s);
    }
}

/// Parses an unsigned decimal number.  Succeeds exactly when `s` is a
/// non-empty string of digits whose value fits in a `u64`.
pub fn parse_u64(s: &[char]) -> (r: Option<u64>)
    ensures
        match r {
            Some(v) => all_digits(s@) && dec_value(s@) == v,
            None => !all_digits(s@) || dec_value(s@) > u64::MAX,
        },
{
    if s.len() == 0 {
        return None;
    }
    let mut value: u64 = 0;
    let mut i: usize = 0;
    while i < s.len()
        invariant
            i <= s@.len(),
            s@.len() > 0,
            forall|k: int| 0 <= k < i ==> is_digit(#[trigger] s@[k]),
            value == dec_value(s@.take(i as int)),
        decreases s@.len() - i,
    {
        let c = s[i];
        let cv = c as u32;
        if cv < 48 || cv > 57 {
            return None;
        }
        let d = (cv - 48) as u64;
        if value > (u64::MAX - d) / 10 {
            proof {
                lemma_dec_value_push(s@.take(i as int), c);
                assert(s@.take(i as int).push(c) =~= s@.take(i + 1));
                assert(dec_value(s@.take(i + 1)) == value * 10 + d);
                assert(value * 10 + d > u64::MAX) by (nonlinear_arith)
                    requires
                        value > (u64::MAX - d) / 10,
                        d <= 9,
                ;
                if all_digits(s@) {
                    lemma_dec_value_take_le(s@, i + 1);
                }
            }
            return None;
        }
        proof {
            lemma_dec_value_push(s@.take(i as int), c);
            assert(s@.take(i as int).push(c) =~= s@.take(i + 1));
            assert(value * 10 + d <= u64::MAX) by (nonlinear_arith)
                requires
                    value <= (u64::MAX - d) / 10,
                    d <= 9,
            ;
        }
        value = value * 10 + d;
        i = i + 1;
    }
    proof {
        assert(s@.take(i as int) =~= s@);
    }
    Some(value)
}

/// Writes `n` in decimal.
pub fn u64_to_chars(n: u64) -> (r: Vec<char>)
    ensures
        r@ == dec_repr(n as nat),
{
    let mut tmp: Vec<char> = Vec::new();
    let mut m = n;
    while m >= 10
        invariant
            dec_repr(n as nat) == dec_repr(m as nat) + tmp@.reverse(),
        decreases m,
    {
        let d = (m % 10) as u8;
        tmp.push((d + 48) as char);
        proof {
            assert(tmp@.reverse() =~= seq![digit_char((m % 10) as nat)] + tmp@.drop_last()
                .reverse());
        }
        m = m / 10;
    }
    let d = m as u8;
    tmp.push((d + 48) as char);
    proof {
        assert(dec_repr(m as nat) == seq![digit_char(m as nat)]);
        assert(tmp@.reverse() =~= dec_repr(m as nat) + tmp@.drop_last().reverse());
        assert(dec_repr(n as nat) =~= tmp@.reverse());
    }
    let mut r: Vec<char> = Vec::new();
    let mut i = tmp.len();
    while i > 0
        invariant
            i <= tmp@.len(),
            r@ == tmp@.reverse().take(tmp@.len() - i),
        decreases i,
    {
        i = i - 1;
        r.push(tmp[i]);
        proof {
            assert(r@ =~= tmp@.reverse().take(tmp@.len() - i));
        }
    }
    proof {
        assert(r@ =~= tmp@.reverse());
    }
    r
}

/// Strict lexicographic order on character sequences by Unicode scalar
/// value.  This is also the order of the UTF-8 encodings of the strings.
pub open spec fn chars_lt(a: Seq<char>, b: Seq<char>) -> bool
    decreases a.len(),
{
    if b.len() == 0 {
        false
    } else if a.len() == 0 {
        true
    } else if (a[0] as u32) < (b[0] as u32) {
        true
    } else if a[0] == b[0] {
        chars_lt(a.drop_first(), b.drop_first())
    } else {
        false
    }
}

/// `chars_lt` is transitive.
pub proof fn lemma_chars_lt_trans(a: Seq<char>, b: Seq<char>, c: Seq<char>)
    requires
        chars_lt(a, b),
        chars_lt(b, c),
    ensures
        chars_lt(a, c),
    decreases a.len(),
{
    if a.len() != 0 && b.len() != 0 && c.len() != 0 {
        if a[0] == b[0] && b[0] == c[0] {
            lemma_chars_lt_trans(a.drop_first(), b.drop_first(), c.drop_first());
        }
    }
}

/// `chars_lt` is a total order: incomparable sequences are equal.
pub proof fn lemma_chars_lt_total(a: Seq<char>, b: Seq<char>)
    requires
        !chars_lt(a, b),
        !chars_lt(b, a),
    ensures
        a == b,
    decreases a.len(),
{
    if a.len() == 0 && b.len() == 0 {
        assert(a =~= b);
    } else if a.len() != 0 && b.len() != 0 {
        lemma_char_injective(a[0], b[0]);
        lemma_chars_lt_total(a.drop_first(), b.drop_first());
        assert(a =~= seq![a[0]] + a.drop_first());
        assert(b =~= seq![b[0]] + b.drop_first());
    }
}

/// `chars_lt` is irreflexive.
pub proof fn lemma_chars_lt_irrefl(a: Seq<char>)
    ensures
        !chars_lt(a, a),
    decreases a.len(),
{
    if a.len() != 0 {
        lemma_chars_lt_irrefl(a.drop_first());
    }
}

/// Executable comparison deciding `chars_lt`.
pub fn chars_lt_exec(a: &[char], b: &[char]) -> (r: bool)
    ensures
        r == chars_lt(a@, b@),
{
    let mut i: usize = 0;
    proof {
        assert(a@.skip(0) =~= a@);
        assert(b@.skip(0) =~= b@);
    }
    loop
        invariant
            i <= a@.len(),
            i <= b@.len(),
            forall|k: int| 0 <= k < i ==> a@[k] == b@[k],
            chars_lt(a@, b@) == chars_lt(a@.skip(i as int), b@.skip(i as int)),
        decreases a@.len() - i,
    {
        proof {
            if i < a@.len() {
                assert(a@.skip(i as int)[0] == a@[i as int]);
            }
            if i < b@.len() {
                assert(b@.skip(i as int)[0] == b@[i as int]);
            }
        }
        if i >= b.len() {
            return false;
        }
        if i >= a.len() {
            return true;
        }
        let ca = a[i] as u32;
        let cb = b[i] as u32;
        if ca < cb {
            return true;
        }
        if ca > cb {
            proof {
                assert(a@[i as int] != b@[i as int]);
            }
            return false;
        }
        proof {
            assert(a@[i as int] == b@[i as int]) by {
                lemma_char_injective(a@[i as int], b@[i as int]);
            }
            assert(a@.skip(i as int).drop_first() =~= a@.skip(i + 1));
            assert(b@.skip(i as int).drop_first() =~= b@.skip(i + 1));
        }
        i = i + 1;
    }
}

/// Relies on `String::from_utf8`: it succeeds exactly on valid UTF-8 and
/// yields the string of the decoded characters.
#[verifier::external_body]
pub fn bytes_to_string(v: Vec<u8>) -> (r: Option<String>)
    ensures
        match r {
            Some(s) => vstd::utf8::valid_utf8(v@) && s@ == vstd::utf8::decode_utf8(v@),
            None => !vstd::utf8::valid_utf8(v@),
        },
{
    match String::from_utf8(v) {
        Ok(s) => Some(s),
        Err(_) => None,
    }
}

/// Decimal representation of a possibly negative integer.
pub open spec fn int_repr(n: int) -> Seq<char> {
    if n < 0 {
        seq!['-'] + dec_repr((-n) as nat)
    } else {
        dec_repr(n as nat)
    }
}

/// Writes a signed 64-bit integer in decimal.
pub fn i64_to_chars(n: i64) -> (r: Vec<char>)
    ensures
        r@ == int_repr(n as int),
{
    if n >= 0 {
        u64_to_chars(n as u64)
    } else {
        let mag: u64 = if n == i64::MIN {
            9223372036854775808u64
        } else {
            (-n) as u64
        };
        proof {
            assert(mag as nat == (-(n as int)) as nat);
        }
        let mut r: Vec<char> = Vec::new();
        r.push('-');
        let d = u64_to_chars(mag);
        r.extend_from_slice(d.as_slice());
        proof {
            assert(r@ =~= seq!['-'] + dec_repr(mag as nat));
        }
        r
    }
}

} // verus!
